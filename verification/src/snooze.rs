//! The snooze negotiation: the recipient of a delivered reminder reacts with the clock,
//! is asked for a new duration, and the next message in that channel answers.

use crate::clock::{trigger_at, extract_date, Timestamp};
use crate::duration::{parse_delay, parsed_delay};
use crate::reminders::{delivery_text, mention, NewReminder, ReminderStore, ReminderView};
use crate::text::{chars_of, is_prefix, push_decimal, push_str, same_text, starts_with, string_of};
use vstd::prelude::*;

verus! {

/// An open negotiation.
#[derive(Clone, Debug, PartialEq, Eq)]
pub struct Negotiation {
    /// The delivered reminder that the recipient reacted to.
    pub message_id: u64,
    pub author: u64,
    pub channel: u64,
    /// The content of the reminder, without the mention in front.
    pub content: String,
    /// The prompts sent so far, oldest first.
    pub tracking: Vec<u64>,
}

/// What a negotiation holds.
pub struct NegotiationView {
    pub message_id: u64,
    pub author: u64,
    pub channel: u64,
    pub content: Seq<char>,
    pub tracking: Seq<u64>,
}

impl View for Negotiation {
    type V = NegotiationView;

    open spec fn view(&self) -> NegotiationView {
        NegotiationView {
            message_id: self.message_id,
            author: self.author,
            channel: self.channel,
            content: self.content@,
            tracking: self.tracking@,
        }
    }
}

/// A reaction that was added to a message.
#[derive(Clone, Debug, PartialEq, Eq)]
pub struct ReactionEvent {
    pub emoji: String,
    /// Who reacted.
    pub user: u64,
    /// The message that was reacted to, its author, channel and text.
    pub message_id: u64,
    pub message_author: u64,
    pub channel: u64,
    pub content: String,
}

/// A message that arrived.
#[derive(Clone, Debug, PartialEq, Eq)]
pub struct MessageEvent {
    pub id: u64,
    pub author: u64,
    pub channel: u64,
    pub content: String,
}

/// What follows a reaction.
#[derive(Clone, Copy, Debug, PartialEq, Eq, Structural)]
pub enum ReactionOutcome {
    /// The reaction opens nothing.
    Ignored,
    /// A negotiation on the message `negotiation` is open: ask for the new duration in
    /// `channel`, and track the prompt.
    Prompt { channel: u64, negotiation: u64 },
}

/// What follows a message.
#[derive(Clone, Debug, PartialEq, Eq)]
pub enum MessageOutcome {
    /// The author has no open negotiation in this channel.
    Ignored,
    /// The duration was read and the reminder `reminder` stored: delete the delivered
    /// message `delivered` and the prompts `prompts`, and acknowledge the message
    /// `acknowledge` with the success reaction.
    Committed { reminder: i32, delivered: u64, acknowledge: u64, prompts: Vec<u64> },
    /// The duration was not read: delete the message `offending`, ask again in
    /// `channel`, and track the prompt under `negotiation`.
    Retry { offending: u64, channel: u64, negotiation: u64 },
    /// The store has no identifier left; the negotiation stays open.
    Unavailable,
}

/// What a message outcome holds.
pub enum MessageOutcomeView {
    Ignored,
    Committed { reminder: i32, delivered: u64, acknowledge: u64, prompts: Seq<u64> },
    Retry { offending: u64, channel: u64, negotiation: u64 },
    Unavailable,
}

impl View for MessageOutcome {
    type V = MessageOutcomeView;

    open spec fn view(&self) -> MessageOutcomeView {
        match self {
            MessageOutcome::Ignored => MessageOutcomeView::Ignored,
            MessageOutcome::Committed { reminder, delivered, acknowledge, prompts } => {
                MessageOutcomeView::Committed {
                    reminder: *reminder,
                    delivered: *delivered,
                    acknowledge: *acknowledge,
                    prompts: prompts@,
                }
            },
            MessageOutcome::Retry { offending, channel, negotiation } => {
                MessageOutcomeView::Retry {
                    offending: *offending,
                    channel: *channel,
                    negotiation: *negotiation,
                }
            },
            MessageOutcome::Unavailable => MessageOutcomeView::Unavailable,
        }
    }
}

/// The emoji that opens a negotiation.
pub open spec fn clock_emoji() -> Seq<char> {
    "\u{231A}"@
}

/// Whether `s` holds a negotiation on the delivered message `message_id`.
pub open spec fn negotiating_on(s: Seq<NegotiationView>, message_id: u64) -> bool {
    exists|i: int| 0 <= i < s.len() && #[trigger] s[i].message_id == message_id
}

/// The position of the negotiation on the delivered message `message_id`, if one is
/// open.
pub open spec fn negotiation_at(s: Seq<NegotiationView>, message_id: u64) -> Option<int>
    decreases s.len(),
{
    if s.len() == 0 {
        None
    } else {
        match negotiation_at(s.drop_last(), message_id) {
            Some(i) => Some(i),
            None => if s.last().message_id == message_id {
                Some(s.len() - 1)
            } else {
                None
            },
        }
    }
}

/// The position of the first negotiation of `author` in `channel`, if one is open.
pub open spec fn sought(s: Seq<NegotiationView>, channel: u64, author: u64) -> Option<int>
    decreases s.len(),
{
    if s.len() == 0 {
        None
    } else {
        match sought(s.drop_last(), channel, author) {
            Some(i) => Some(i),
            None => if s.last().channel == channel && s.last().author == author {
                Some(s.len() - 1)
            } else {
                None
            },
        }
    }
}

/// `negotiation_at` gives the first negotiation on the message, and none exactly when
/// none is open on it.
pub proof fn lemma_negotiation_at(s: Seq<NegotiationView>, message_id: u64)
    ensures
        match negotiation_at(s, message_id) {
            Some(i) => 0 <= i < s.len() && s[i].message_id == message_id && forall|j: int|
                0 <= j < i ==> (#[trigger] s[j]).message_id != message_id,
            None => forall|j: int| 0 <= j < s.len() ==> (#[trigger] s[j]).message_id != message_id,
        },
        negotiation_at(s, message_id) is Some <==> negotiating_on(s, message_id),
    decreases s.len(),
{
    if s.len() > 0 {
        lemma_negotiation_at(s.drop_last(), message_id);
        assert(forall|j: int| 0 <= j < s.len() - 1 ==> s.drop_last()[j] == s[j]);
    }
}

/// `sought` gives the first negotiation of the author in the channel, and none exactly
/// when the author has none there.
pub proof fn lemma_sought(s: Seq<NegotiationView>, channel: u64, author: u64)
    ensures
        match sought(s, channel, author) {
            Some(i) => 0 <= i < s.len() && s[i].channel == channel && s[i].author == author
                && forall|j: int|
                0 <= j < i ==> !((#[trigger] s[j]).channel == channel && s[j].author == author),
            None => forall|j: int|
                0 <= j < s.len() ==> !((#[trigger] s[j]).channel == channel && s[j].author
                    == author),
        },
    decreases s.len(),
{
    if s.len() > 0 {
        lemma_sought(s.drop_last(), channel, author);
        assert(forall|j: int| 0 <= j < s.len() - 1 ==> s.drop_last()[j] == s[j]);
    }
}

/// No delivered message has two open negotiations.
pub open spec fn distinct_messages(s: Seq<NegotiationView>) -> bool {
    forall|i: int, j: int|
        0 <= i < j < s.len() ==> (#[trigger] s[i]).message_id != (#[trigger] s[j]).message_id
}

/// Whether a reaction opens a negotiation: the emoji is the clock, the text of the
/// message starts with the mention of the user who reacted, the message was written by
/// the agent itself, `me`, and no negotiation is open on that message.
pub open spec fn opens(
    s: Seq<NegotiationView>,
    emoji: Seq<char>,
    user: u64,
    message_id: u64,
    message_author: u64,
    content: Seq<char>,
    me: u64,
) -> bool {
    &&& emoji == clock_emoji()
    &&& is_prefix(mention(user), content)
    &&& message_author == me
    &&& !negotiating_on(s, message_id)
}

/// The content of a reminder as recovered from the text of its delivery: the text
/// without the mention of `user` in front and without the one space that follows it. A
/// text that does not start with the mention is left as it is.
pub open spec fn recovered(user: u64, content: Seq<char>) -> Seq<char> {
    let rest = content.skip(mention(user).len() as int);
    if !is_prefix(mention(user), content) {
        content
    } else if rest.len() > 0 && rest[0] == ' ' {
        rest.skip(1)
    } else {
        rest
    }
}

/// The instant that the text of an answer names when read at `now`, if it names one.
pub open spec fn answered(text: Seq<char>, now: Timestamp) -> Option<Timestamp> {
    match parsed_delay(text) {
        Some(delay) => trigger_at(delay, now),
        None => None,
    }
}

/// The prompts tracked by the negotiations of `s` in `channel`, in the order of `s`.
pub open spec fn prompts_in(s: Seq<NegotiationView>, channel: u64) -> Seq<u64>
    decreases s.len(),
{
    if s.len() == 0 {
        Seq::empty()
    } else if s.last().channel == channel {
        prompts_in(s.drop_last(), channel) + s.last().tracking
    } else {
        prompts_in(s.drop_last(), channel)
    }
}

/// The negotiation `n` once the prompts of `channel` are deleted.
pub open spec fn cleared(n: NegotiationView, channel: u64) -> NegotiationView {
    if n.channel == channel {
        NegotiationView { tracking: Seq::empty(), ..n }
    } else {
        n
    }
}

/// The negotiations after the one at position `at` is committed: it is gone, and the
/// others in its channel track no prompt any more.
pub open spec fn settled(s: Seq<NegotiationView>, at: int) -> Seq<NegotiationView> {
    s.remove(at).map_values(|n: NegotiationView| cleared(n, s[at].channel))
}

/// The negotiations after the prompt `prompt` is tracked under the one at `at`.
pub open spec fn with_prompt(s: Seq<NegotiationView>, at: int, prompt: u64) -> Seq<NegotiationView> {
    s.update(at, NegotiationView { tracking: s[at].tracking.push(prompt), ..s[at] })
}

/// The text that asks for the new duration.
pub fn prompt_text() -> (s: &'static str)
    ensures
        s@ == "Enter the new duration please"@,
{
    "Enter the new duration please"
}

/// The text that asks again after an answer that was not read.
pub fn retry_text() -> (s: &'static str)
    ensures
        s@ == "The time parameter is invalid\nTry again please"@,
{
    "The time parameter is invalid\nTry again please"
}

/// The reaction that acknowledges a committed answer.
pub fn success_mark() -> (c: char)
    ensures
        c == '\u{2705}',
{
    '\u{2705}'
}

/// Recovers the content of a reminder from the text of its delivery to `user`.
pub fn recover(user: u64, content: &Vec<char>) -> (out: Vec<char>)
    ensures
        out@ == recovered(user, content@),
{
    let mut m: Vec<char> = Vec::new();
    push_str(&mut m, "<@");
    push_decimal(&mut m, user);
    push_str(&mut m, ">");
    assert(m@ =~= mention(user));
    let mut from: usize = if starts_with(content, &m) {
        m.len()
    } else {
        0
    };
    if from > 0 && from < content.len() && content[from] == ' ' {
        from += 1;
    }
    let mut out: Vec<char> = Vec::new();
    let mut i: usize = from;
    while i < content.len()
        invariant
            from <= i <= content.len(),
            out@ == content@.subrange(from as int, i as int),
        decreases content.len() - i,
    {
        out.push(content[i]);
        i += 1;
    }
    proof {
        reveal_strlit("<@");
        assert(m@.len() > 0);
        let rest = content@.skip(m.len() as int);
        if from == 0 {
            assert(out@ =~= content@);
        } else if from == m.len() {
            assert(out@ =~= rest);
        } else {
            assert(rest[0] == content@[m.len() as int]);
            assert(out@ =~= rest.skip(1));
        }
    }
    out
}

/// The open negotiations, oldest first.
pub struct Negotiator {
    negotiations: Vec<Negotiation>,
}

impl View for Negotiator {
    type V = Seq<NegotiationView>;

    closed spec fn view(&self) -> Seq<NegotiationView> {
        self.negotiations@.map_values(|n: Negotiation| n@)
    }
}

impl Negotiator {
    /// The invariant: no delivered message has two open negotiations.
    pub open spec fn wf(&self) -> bool {
        distinct_messages(self@)
    }

    /// No negotiation is open.
    pub fn new() -> (n: Negotiator)
        ensures
            n@ == Seq::<NegotiationView>::empty(),
            n.wf(),
    {
        let negotiations: Vec<Negotiation> = Vec::new();
        assert(negotiations@.map_values(|n: Negotiation| n@) =~= Seq::<NegotiationView>::empty());
        Negotiator { negotiations }
    }

    /// The number of open negotiations.
    pub fn len(&self) -> (n: usize)
        ensures
            n == self@.len(),
    {
        self.negotiations.len()
    }

    /// The negotiation at position `i`.
    pub fn get(&self, i: usize) -> (r: Option<&Negotiation>)
        ensures
            match r {
                Some(n) => i < self@.len() && n@ == self@[i as int],
                None => i >= self@.len(),
            },
    {
        if i < self.negotiations.len() {
            Some(&self.negotiations[i])
        } else {
            None
        }
    }

    /// The position of the negotiation on the delivered message `message_id`.
    pub fn find(&self, message_id: u64) -> (r: Option<usize>)
        ensures
            match r {
                Some(i) => negotiation_at(self@, message_id) == Some(i as int),
                None => negotiation_at(self@, message_id) is None,
            },
    {
        let mut i: usize = 0;
        while i < self.negotiations.len()
            invariant
                i <= self.negotiations.len(),
                forall|j: int| 0 <= j < i ==> (#[trigger] self@[j]).message_id != message_id,
            decreases self.negotiations.len() - i,
        {
            if self.negotiations[i].message_id == message_id {
                proof {
                    assert(self@[i as int] == self.negotiations@[i as int]@);
                    lemma_negotiation_at(self@, message_id);
                }
                return Some(i);
            }
            i += 1;
        }
        proof {
            lemma_negotiation_at(self@, message_id);
        }
        None
    }

    /// The position of the first negotiation of `author` in `channel`.
    pub fn seek(&self, channel: u64, author: u64) -> (r: Option<usize>)
        ensures
            match r {
                Some(i) => sought(self@, channel, author) == Some(i as int),
                None => sought(self@, channel, author) is None,
            },
    {
        let mut i: usize = 0;
        while i < self.negotiations.len()
            invariant
                i <= self.negotiations.len(),
                forall|j: int|
                    0 <= j < i ==> !((#[trigger] self@[j]).channel == channel && self@[j].author
                        == author),
            decreases self.negotiations.len() - i,
        {
            if self.negotiations[i].channel == channel && self.negotiations[i].author == author {
                proof {
                    assert(self@[i as int] == self.negotiations@[i as int]@);
                    lemma_sought(self@, channel, author);
                }
                return Some(i);
            }
            i += 1;
        }
        proof {
            lemma_sought(self@, channel, author);
        }
        None
    }

    /// Handles a reaction. A clock on a reminder that the agent, `me`, delivered to the
    /// user who reacts opens a negotiation, unless one is open on that message; every
    /// other reaction changes nothing.
    pub fn snooze_reaction(&mut self, reaction: &ReactionEvent, me: u64) -> (r: ReactionOutcome)
        requires
            old(self).wf(),
        ensures
            final(self).wf(),
            if opens(
                old(self)@,
                reaction.emoji@,
                reaction.user,
                reaction.message_id,
                reaction.message_author,
                reaction.content@,
                me,
            ) {
                &&& r == (ReactionOutcome::Prompt {
                    channel: reaction.channel,
                    negotiation: reaction.message_id,
                })
                &&& final(self)@ == old(self)@.push(
                    NegotiationView {
                        message_id: reaction.message_id,
                        author: reaction.user,
                        channel: reaction.channel,
                        content: recovered(reaction.user, reaction.content@),
                        tracking: Seq::empty(),
                    },
                )
            } else {
                r == ReactionOutcome::Ignored && final(self)@ == old(self)@
            },
    {
        if !same_text(reaction.emoji.as_str(), "\u{231A}") {
            return ReactionOutcome::Ignored;
        }
        let content = chars_of(reaction.content.as_str());
        let mut m: Vec<char> = Vec::new();
        push_str(&mut m, "<@");
        push_decimal(&mut m, reaction.user);
        push_str(&mut m, ">");
        assert(m@ =~= mention(reaction.user));
        if !starts_with(&content, &m) || reaction.message_author != me {
            return ReactionOutcome::Ignored;
        }
        proof {
            lemma_negotiation_at(self@, reaction.message_id);
        }
        if self.find(reaction.message_id).is_some() {
            return ReactionOutcome::Ignored;
        }
        let original = recover(reaction.user, &content);
        let ghost before = self@;
        let n = Negotiation {
            message_id: reaction.message_id,
            author: reaction.user,
            channel: reaction.channel,
            content: string_of(&original),
            tracking: Vec::new(),
        };
        let ghost added = n@;
        self.negotiations.push(n);
        proof {
            assert(self@ =~= before.push(added));
            assert forall|i: int, j: int| 0 <= i < j < self@.len() implies (
            #[trigger] self@[i]).message_id != (#[trigger] self@[j]).message_id by {
                assert(self@[i] == before[i]);
                if j < before.len() {
                    assert(self@[j] == before[j]);
                }
            }
        }
        ReactionOutcome::Prompt { channel: reaction.channel, negotiation: reaction.message_id }
    }

    /// Tracks the prompt `prompt` under the negotiation on the delivered message
    /// `negotiation`. Returns whether that negotiation is open.
    pub fn track(&mut self, negotiation: u64, prompt: u64) -> (found: bool)
        requires
            old(self).wf(),
        ensures
            final(self).wf(),
            match negotiation_at(old(self)@, negotiation) {
                Some(i) => found && final(self)@ == with_prompt(old(self)@, i, prompt),
                None => !found && final(self)@ == old(self)@,
            },
    {
        proof {
            lemma_negotiation_at(self@, negotiation);
        }
        match self.find(negotiation) {
            None => false,
            Some(i) => {
                let ghost before = self@;
                let mut n = self.negotiations.remove(i);
                assert(n@ == before[i as int]);
                n.tracking.push(prompt);
                self.negotiations.insert(i, n);
                proof {
                    assert(self@ =~= with_prompt(before, i as int, prompt));
                }
                true
            },
        }
    }
}

/// Appends the identifiers of `tail` to `out`.
pub fn push_ids(out: &mut Vec<u64>, tail: &Vec<u64>)
    ensures
        final(out)@ == old(out)@ + tail@,
{
    let mut i: usize = 0;
    while i < tail.len()
        invariant
            i <= tail.len(),
            out@ == old(out)@ + tail@.take(i as int),
        decreases tail.len() - i,
    {
        out.push(tail[i]);
        i += 1;
    }
}

/// The first `k` negotiations of `s` as they stand once the one at `at` is committed.
pub open spec fn settled_up_to(s: Seq<NegotiationView>, at: int, k: int) -> Seq<NegotiationView> {
    if k <= at {
        s.take(k).map_values(|n: NegotiationView| cleared(n, s[at].channel))
    } else {
        s.take(k).remove(at).map_values(|n: NegotiationView| cleared(n, s[at].channel))
    }
}

impl Negotiator {
    /// Commits the negotiation at position `at`: takes it out, and hands back the
    /// prompts of its channel, which no negotiation tracks any more.
    fn settle(&mut self, at: usize) -> (prompts: Vec<u64>)
        requires
            old(self).wf(),
            at < old(self)@.len(),
        ensures
            final(self).wf(),
            final(self)@ == settled(old(self)@, at as int),
            prompts@ == prompts_in(old(self)@, old(self)@[at as int].channel),
    {
        let ghost before = self@;
        let channel: u64 = self.negotiations[at].channel;
        assert(before[at as int] == self.negotiations@[at as int]@);
        let mut kept: Vec<Negotiation> = Vec::new();
        let mut prompts: Vec<u64> = Vec::new();
        let mut k: usize = 0;
        let total: usize = self.negotiations.len();
        assert(before.take(0) =~= Seq::<NegotiationView>::empty());
        while k < total
            invariant
                k <= total,
                total == before.len(),
                at < total,
                channel == before[at as int].channel,
                self@ =~= before.skip(k as int),
                prompts@ =~= prompts_in(before.take(k as int), channel),
                kept@.map_values(|n: Negotiation| n@) =~= settled_up_to(
                    before,
                    at as int,
                    k as int,
                ),
            decreases total - k,
        {
            let ghost head = self@;
            assert(self.negotiations@.len() == head.len());
            let mut n = self.negotiations.remove(0);
            proof {
                assert(self@ =~= head.remove(0));
                assert(n@ == head[0]);
                assert(head[0] == before[k as int]);
                assert(before.take(k + 1).drop_last() =~= before.take(k as int));
                assert(before.take(k + 1).last() == n@);
                assert(self@ =~= before.skip(k + 1));
            }
            if n.channel == channel {
                push_ids(&mut prompts, &n.tracking);
                n.tracking = Vec::new();
            }
            assert(n@ == cleared(before[k as int], channel));
            if k != at {
                kept.push(n);
            }
            proof {
                let f = |n: NegotiationView| cleared(n, before[at as int].channel);
                if k < at {
                    assert(before.take(k + 1) =~= before.take(k as int).push(before[k as int]));
                    assert(before.take(k + 1).map_values(f) =~= before.take(k as int).map_values(
                        f,
                    ).push(f(before[k as int])));
                } else if k == at {
                    assert(before.take(k + 1).remove(at as int) =~= before.take(k as int));
                } else {
                    assert(before.take(k + 1).remove(at as int) =~= before.take(k as int).remove(
                        at as int,
                    ).push(before[k as int]));
                    assert(before.take(k + 1).remove(at as int).map_values(f) =~= before.take(
                        k as int,
                    ).remove(at as int).map_values(f).push(f(before[k as int])));
                }
            }
            k += 1;
        }
        self.negotiations = kept;
        proof {
            assert(before.take(total as int) =~= before);
            assert(self@ =~= settled(before, at as int));
            let after = self@;
            assert forall|a: int, b: int| 0 <= a < b < after.len() implies (
            #[trigger] after[a]).message_id != (#[trigger] after[b]).message_id by {
                let x = if a < at { a } else { a + 1 };
                let y = if b < at { b } else { b + 1 };
                assert(after[a].message_id == before[x].message_id);
                assert(after[b].message_id == before[y].message_id);
            }
        }
        prompts
    }

    /// Handles a message. Where its author has a negotiation open in its channel, the
    /// text is read as a duration from `now`: on success the reminder is stored again
    /// with its original content and the negotiation is committed; otherwise the
    /// negotiation stays open and the author is asked again.
    pub fn snooze_message(
        &mut self,
        store: &mut ReminderStore,
        message: &MessageEvent,
        now: Timestamp,
    ) -> (r: MessageOutcome)
        requires
            old(self).wf(),
            old(store).wf(),
        ensures
            final(self).wf(),
            final(store).wf(),
            match sought(old(self)@, message.channel, message.author) {
                None => {
                    &&& r@ == MessageOutcomeView::Ignored
                    &&& final(self)@ == old(self)@
                    &&& final(store)@ == old(store)@
                    &&& final(store).next() == old(store).next()
                },
                Some(i) => match answered(message.content@, now) {
                    None => {
                        &&& r@ == (MessageOutcomeView::Retry {
                            offending: message.id,
                            channel: message.channel,
                            negotiation: old(self)@[i].message_id,
                        })
                        &&& final(self)@ == old(self)@
                        &&& final(store)@ == old(store)@
                        &&& final(store).next() == old(store).next()
                    },
                    Some(t) => if old(store).next() < i32::MAX {
                        &&& r@ == (MessageOutcomeView::Committed {
                            reminder: old(store).next() as i32,
                            delivered: old(self)@[i].message_id,
                            acknowledge: message.id,
                            prompts: prompts_in(old(self)@, message.channel),
                        })
                        &&& final(self)@ == settled(old(self)@, i)
                        &&& final(store)@ == old(store)@.push(
                            ReminderView {
                                id: old(store).next() as i32,
                                author: old(self)@[i].author,
                                channel: old(self)@[i].channel,
                                content: old(self)@[i].content,
                                trigger_date: t,
                            },
                        )
                        &&& final(store).next() == old(store).next() + 1
                    } else {
                        &&& r@ == MessageOutcomeView::Unavailable
                        &&& final(self)@ == old(self)@
                        &&& final(store)@ == old(store)@
                        &&& final(store).next() == old(store).next()
                    },
                },
            },
    {
        proof {
            lemma_sought(self@, message.channel, message.author);
        }
        let i = match self.seek(message.channel, message.author) {
            None => {
                return MessageOutcome::Ignored;
            },
            Some(i) => i,
        };
        let n = &self.negotiations[i];
        assert(self@[i as int] == n@);
        let delivered: u64 = n.message_id;
        let trigger = match parse_delay(message.content.as_str()) {
            Some(delay) => extract_date(&delay, now),
            None => None,
        };
        let t = match trigger {
            None => {
                return MessageOutcome::Retry {
                    offending: message.id,
                    channel: message.channel,
                    negotiation: delivered,
                };
            },
            Some(t) => t,
        };
        let new = NewReminder {
            author: n.author,
            channel: n.channel,
            content: n.content.clone(),
            trigger_date: t,
        };
        match store.add(new) {
            None => MessageOutcome::Unavailable,
            Some(reminder) => {
                let prompts = self.settle(i);
                MessageOutcome::Committed { reminder, delivered, acknowledge: message.id, prompts }
            },
        }
    }
}

/// The content of a reminder is recovered from the text of its delivery: whatever the
/// author and the content, the text starts with the mention of the author, and what is
/// recovered from it is the content.
pub proof fn lemma_delivery_round_trip(author: u64, content: Seq<char>)
    ensures
        is_prefix(mention(author), delivery_text(author, content)),
        recovered(author, delivery_text(author, content)) == content,
{
    reveal_strlit(" ");
    let m = mention(author);
    let text = delivery_text(author, content);
    assert(text.take(m.len() as int) =~= m);
    let rest = text.skip(m.len() as int);
    assert(rest =~= " "@ + content);
    assert(rest[0] == ' ');
    assert(rest.skip(1) =~= content);
}

} // verus!
