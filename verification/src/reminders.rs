//! Reminders: the store, the handler that creates them, and the scheduler's tick.

use crate::clock::{trigger_at, extract_date, Timestamp};
use crate::commands::{result_texts, Invocation};
use crate::duration::{parse_delay, parsed_delay};
use crate::text::{decimal, push_decimal, push_str, string_of};
use vstd::string::StrSliceExecFns;
use vstd::prelude::*;

verus! {

/// A pending reminder.
#[derive(Clone, Debug, PartialEq, Eq)]
pub struct Reminder {
    pub id: i32,
    pub author: u64,
    pub channel: u64,
    pub content: String,
    pub trigger_date: Timestamp,
}

/// What a reminder holds.
pub struct ReminderView {
    pub id: i32,
    pub author: u64,
    pub channel: u64,
    pub content: Seq<char>,
    pub trigger_date: Timestamp,
}

impl View for Reminder {
    type V = ReminderView;

    open spec fn view(&self) -> ReminderView {
        ReminderView {
            id: self.id,
            author: self.author,
            channel: self.channel,
            content: self.content@,
            trigger_date: self.trigger_date,
        }
    }
}

/// A reminder that has no identifier yet.
#[derive(Clone, Debug, PartialEq, Eq)]
pub struct NewReminder {
    pub author: u64,
    pub channel: u64,
    pub content: String,
    pub trigger_date: Timestamp,
}

/// The reaction that marks a delivered reminder.
pub open spec fn clock_mark() -> char {
    '\u{231A}'
}

/// One delivery: the message to send, where, with which reaction, and the reminder to
/// delete once it is sent.
#[derive(Clone, Debug, PartialEq, Eq)]
pub struct Delivery {
    pub reminder: i32,
    pub channel: u64,
    pub text: String,
    pub reaction: char,
}

/// What a delivery holds.
pub struct DeliveryView {
    pub reminder: i32,
    pub channel: u64,
    pub text: Seq<char>,
    pub reaction: char,
}

impl View for Delivery {
    type V = DeliveryView;

    open spec fn view(&self) -> DeliveryView {
        DeliveryView {
            reminder: self.reminder,
            channel: self.channel,
            text: self.text@,
            reaction: self.reaction,
        }
    }
}

/// The text that mentions the user `id`.
pub open spec fn mention(id: u64) -> Seq<char> {
    "<@"@ + decimal(id as nat) + ">"@
}

/// The text of a delivered reminder: the mention of its author, a space, its content.
pub open spec fn delivery_text(author: u64, content: Seq<char>) -> Seq<char> {
    mention(author) + " "@ + content
}

/// The delivery of the reminder `r`.
pub open spec fn delivery_of(r: ReminderView) -> DeliveryView {
    DeliveryView {
        reminder: r.id,
        channel: r.channel,
        text: delivery_text(r.author, r.content),
        reaction: clock_mark(),
    }
}

/// A reminder is due once `now` has reached its instant.
pub open spec fn is_due(r: ReminderView, now: Timestamp) -> bool {
    now.reached(r.trigger_date)
}

/// The deliveries of the reminders of `s` that are due at `now`, in the order of `s`.
pub open spec fn deliveries(s: Seq<ReminderView>, now: Timestamp) -> Seq<DeliveryView>
    decreases s.len(),
{
    if s.len() == 0 {
        Seq::empty()
    } else if is_due(s.last(), now) {
        deliveries(s.drop_last(), now).push(delivery_of(s.last()))
    } else {
        deliveries(s.drop_last(), now)
    }
}

/// The reminders of `s` that are not due at `now`, in the order of `s`.
pub open spec fn pending(s: Seq<ReminderView>, now: Timestamp) -> Seq<ReminderView>
    decreases s.len(),
{
    if s.len() == 0 {
        Seq::empty()
    } else if is_due(s.last(), now) {
        pending(s.drop_last(), now)
    } else {
        pending(s.drop_last(), now).push(s.last())
    }
}

/// The position of the reminder `id` in `s`, if it is there.
pub open spec fn index_of(s: Seq<ReminderView>, id: i32) -> Option<int>
    decreases s.len(),
{
    if s.len() == 0 {
        None
    } else {
        match index_of(s.drop_last(), id) {
            Some(i) => Some(i),
            None => if s.last().id == id {
                Some(s.len() - 1)
            } else {
                None
            },
        }
    }
}

/// Whether `s` holds a reminder `id`.
pub open spec fn holds(s: Seq<ReminderView>, id: i32) -> bool {
    exists|i: int| 0 <= i < s.len() && #[trigger] s[i].id == id
}

/// The store's invariant: no identifier occurs twice, and every identifier in use is
/// below the next one to hand out.
pub open spec fn store_wf(s: Seq<ReminderView>, next: int) -> bool {
    &&& forall|i: int, j: int| 0 <= i < j < s.len() ==> (#[trigger] s[i]).id != (#[trigger] s[j]).id
    &&& forall|i: int| 0 <= i < s.len() ==> 0 < (#[trigger] s[i]).id < next
    &&& 0 < next <= i32::MAX
}

/// What a list of reminders holds.
pub open spec fn reminder_views(v: Seq<Reminder>) -> Seq<ReminderView> {
    v.map_values(|r: Reminder| r@)
}

/// The identifier to hand out after those of `s`: one more than the greatest, and 1
/// where there is none.
pub open spec fn next_after(s: Seq<ReminderView>) -> int
    decreases s.len(),
{
    if s.len() == 0 {
        1
    } else if s.last().id >= next_after(s.drop_last()) {
        s.last().id + 1
    } else {
        next_after(s.drop_last())
    }
}

/// The identifier to hand out grows with the list: after a longer list it is no
/// smaller than after any of its prefixes, and it lies above every identifier.
pub proof fn lemma_next_after(s: Seq<ReminderView>, k: int)
    requires
        0 <= k <= s.len(),
    ensures
        next_after(s.take(k)) <= next_after(s),
        forall|i: int| 0 <= i < s.len() ==> (#[trigger] s[i]).id < next_after(s),
        next_after(s) >= 1,
    decreases s.len(),
{
    if s.len() > 0 {
        lemma_next_after(s.drop_last(), if k < s.len() { k } else { s.len() - 1 });
        if k < s.len() {
            assert(s.drop_last().take(k) =~= s.take(k));
        } else {
            assert(s.take(k) =~= s);
        }
        assert(forall|i: int| 0 <= i < s.len() - 1 ==> s.drop_last()[i] == s[i]);
    } else {
        assert(s.take(k) =~= s);
    }
}

/// `index_of` gives the first reminder `id`, and none exactly when there is none.
pub proof fn lemma_index_of(s: Seq<ReminderView>, id: i32)
    ensures
        match index_of(s, id) {
            Some(i) => 0 <= i < s.len() && s[i].id == id && forall|j: int|
                0 <= j < i ==> (#[trigger] s[j]).id != id,
            None => forall|j: int| 0 <= j < s.len() ==> (#[trigger] s[j]).id != id,
        },
        index_of(s, id) is Some <==> holds(s, id),
    decreases s.len(),
{
    if s.len() > 0 {
        lemma_index_of(s.drop_last(), id);
        assert(forall|j: int| 0 <= j < s.len() - 1 ==> s.drop_last()[j] == s[j]);
    }
}

/// The store after the reminder `id` is deleted.
pub open spec fn without(s: Seq<ReminderView>, id: i32) -> Seq<ReminderView> {
    match index_of(s, id) {
        Some(i) => s.remove(i),
        None => s,
    }
}

/// The reminders, oldest first, and the next identifier to hand out.
pub struct ReminderStore {
    reminders: Vec<Reminder>,
    next_id: i32,
}

impl View for ReminderStore {
    type V = Seq<ReminderView>;

    closed spec fn view(&self) -> Seq<ReminderView> {
        self.reminders@.map_values(|r: Reminder| r@)
    }
}

impl ReminderStore {
    /// The identifier that the next new reminder gets.
    pub closed spec fn next(&self) -> int {
        self.next_id as int
    }

    /// The invariant of the store.
    pub open spec fn wf(&self) -> bool {
        store_wf(self@, self.next())
    }

    /// An empty store, whose first reminder gets the identifier 1.
    pub fn new() -> (s: ReminderStore)
        ensures
            s@ == Seq::<ReminderView>::empty(),
            s.next() == 1,
            s.wf(),
    {
        let reminders: Vec<Reminder> = Vec::new();
        assert(reminders@.map_values(|r: Reminder| r@) =~= Seq::<ReminderView>::empty());
        ReminderStore { reminders, next_id: 1 }
    }

    /// A store that holds `reminders`, as read back from where they are kept. Refused
    /// where an identifier occurs twice, is not positive, or leaves none to hand out.
    pub fn restore(reminders: Vec<Reminder>) -> (r: Option<ReminderStore>)
        ensures
            match r {
                Some(s) => {
                    &&& s.wf()
                    &&& s@ == reminder_views(reminders@)
                    &&& s.next() == next_after(reminder_views(reminders@))
                },
                None => !store_wf(
                    reminder_views(reminders@),
                    next_after(reminder_views(reminders@)),
                ),
            },
    {
        let ghost views = reminder_views(reminders@);
        let mut next: i32 = 1;
        let mut i: usize = 0;
        assert(views.take(0) =~= Seq::<ReminderView>::empty());
        while i < reminders.len()
            invariant
                i <= reminders.len(),
                views == reminder_views(reminders@),
                next == next_after(views.take(i as int)),
                store_wf(views.take(i as int), next as int),
            decreases reminders.len() - i,
        {
            let id: i32 = reminders[i].id;
            let ghost grown = views.take(i + 1);
            proof {
                assert(views[i as int] == reminders@[i as int]@);
                assert(grown.drop_last() =~= views.take(i as int));
                assert(grown.last().id == id);
                lemma_next_after(views, i + 1);
            }
            if id <= 0 || id == i32::MAX {
                proof {
                    assert(grown[i as int].id == id);
                    assert(views.take(reminders@.len() as int) =~= views);
                    assert(views[i as int].id == id);
                }
                return None;
            }
            let mut k: usize = 0;
            while k < i
                invariant
                    k <= i < reminders.len(),
                    views == reminder_views(reminders@),
                    id == views[i as int].id,
                    forall|j: int| 0 <= j < k ==> (#[trigger] views[j]).id != id,
                decreases i - k,
            {
                if reminders[k].id == id {
                    proof {
                        assert(views[k as int] == reminders@[k as int]@);
                    }
                    return None;
                }
                proof {
                    assert(views[k as int] == reminders@[k as int]@);
                }
                k += 1;
            }
            if id >= next {
                next = id + 1;
            }
            proof {
                assert forall|a: int, b: int| 0 <= a < b < grown.len() implies (
                #[trigger] grown[a]).id != (#[trigger] grown[b]).id by {
                    assert(grown[a] == views[a] && grown[b] == views[b]);
                    if b < i {
                        assert(views.take(i as int)[a] == views[a]);
                        assert(views.take(i as int)[b] == views[b]);
                    }
                }
                assert forall|a: int| 0 <= a < grown.len() implies 0 < (#[trigger] grown[a]).id
                    < next by {
                    assert(grown[a] == views[a]);
                    if a < i {
                        assert(views.take(i as int)[a] == views[a]);
                    }
                }
            }
            i += 1;
        }
        proof {
            assert(views.take(reminders@.len() as int) =~= views);
        }
        Some(ReminderStore { reminders, next_id: next })
    }

    /// The number of pending reminders.
    pub fn len(&self) -> (n: usize)
        ensures
            n == self@.len(),
    {
        self.reminders.len()
    }

    /// The reminder at position `i`.
    pub fn get(&self, i: usize) -> (r: Option<&Reminder>)
        ensures
            match r {
                Some(r) => i < self@.len() && r@ == self@[i as int],
                None => i >= self@.len(),
            },
    {
        if i < self.reminders.len() {
            Some(&self.reminders[i])
        } else {
            None
        }
    }

    /// The position of the reminder `id`.
    pub fn find(&self, id: i32) -> (r: Option<usize>)
        ensures
            match r {
                Some(i) => index_of(self@, id) == Some(i as int),
                None => index_of(self@, id) is None,
            },
    {
        let mut i: usize = 0;
        while i < self.reminders.len()
            invariant
                i <= self.reminders.len(),
                forall|j: int| 0 <= j < i ==> (#[trigger] self@[j]).id != id,
            decreases self.reminders.len() - i,
        {
            if self.reminders[i].id == id {
                proof {
                    assert(self@[i as int] == self.reminders@[i as int]@);
                    lemma_index_of(self@, id);
                }
                return Some(i);
            }
            i += 1;
        }
        proof {
            lemma_index_of(self@, id);
        }
        None
    }

    /// Stores a new reminder behind the others and gives it the next identifier. Gives
    /// `None`, and changes nothing, when no identifier is left.
    pub fn add(&mut self, new: NewReminder) -> (r: Option<i32>)
        requires
            old(self).wf(),
        ensures
            final(self).wf(),
            match r {
                Some(id) => id == old(self).next() && final(self).next() == id + 1 && final(self)@
                    == old(self)@.push(
                    ReminderView {
                        id,
                        author: new.author,
                        channel: new.channel,
                        content: new.content@,
                        trigger_date: new.trigger_date,
                    },
                ),
                None => {
                    &&& old(self).next() == i32::MAX
                    &&& final(self)@ == old(self)@
                    &&& final(self).next() == old(self).next()
                },
            },
    {
        if self.next_id == i32::MAX {
            return None;
        }
        let id: i32 = self.next_id;
        let ghost before = self@;
        let ghost added = ReminderView {
            id,
            author: new.author,
            channel: new.channel,
            content: new.content@,
            trigger_date: new.trigger_date,
        };
        self.reminders.push(
            Reminder {
                id,
                author: new.author,
                channel: new.channel,
                content: new.content,
                trigger_date: new.trigger_date,
            },
        );
        self.next_id = id + 1;
        proof {
            assert(self@ =~= before.push(added));
            assert forall|i: int, j: int| 0 <= i < j < self@.len() implies (#[trigger] self@[i]).id
                != (#[trigger] self@[j]).id by {
                assert(self@[i] == before[i]);
                if j < before.len() {
                    assert(self@[j] == before[j]);
                }
            }
            assert forall|i: int| 0 <= i < self@.len() implies 0 < (#[trigger] self@[i]).id
                < self.next() by {
                if i < before.len() {
                    assert(self@[i] == before[i]);
                }
            }
        }
        Some(id)
    }

    /// Deletes the reminder `id`. Returns whether there was one.
    pub fn delete(&mut self, id: i32) -> (found: bool)
        requires
            old(self).wf(),
        ensures
            final(self).wf(),
            final(self)@ == without(old(self)@, id),
            final(self).next() == old(self).next(),
            found == holds(old(self)@, id),
            !holds(final(self)@, id),
    {
        proof {
            lemma_index_of(self@, id);
        }
        match self.find(id) {
            None => false,
            Some(i) => {
                let ghost before = self@;
                self.reminders.remove(i);
                proof {
                    assert(self@ =~= before.remove(i as int));
                    assert forall|k: int| 0 <= k < self@.len() implies (#[trigger] self@[k]).id
                        != id by {
                        if k < i {
                            assert(self@[k] == before[k]);
                        } else {
                            assert(self@[k] == before[k + 1]);
                        }
                    }
                    assert forall|a: int, b: int| 0 <= a < b < self@.len() implies (
                    #[trigger] self@[a]).id != (#[trigger] self@[b]).id by {
                        let x = if a < i { a } else { a + 1 };
                        let y = if b < i { b } else { b + 1 };
                        assert(self@[a] == before[x] && self@[b] == before[y]);
                    }
                    assert forall|k: int| 0 <= k < self@.len() implies 0 < (#[trigger] self@[k]).id
                        < self.next() by {
                        let x = if k < i { k } else { k + 1 };
                        assert(self@[k] == before[x]);
                    }
                }
                true
            },
        }
    }

    /// The deliveries that are due at `now`, in the order of the store. The store is only
    /// read: each reminder is to be deleted once its delivery is sent.
    pub fn due(&self, now: Timestamp) -> (out: Vec<Delivery>)
        ensures
            out@.map_values(|d: Delivery| d@) == deliveries(self@, now),
    {
        let mut out: Vec<Delivery> = Vec::new();
        let mut i: usize = 0;
        assert(self@.take(0) =~= Seq::<ReminderView>::empty());
        while i < self.reminders.len()
            invariant
                i <= self.reminders.len(),
                out@.map_values(|d: Delivery| d@) =~= deliveries(self@.take(i as int), now),
            decreases self.reminders.len() - i,
        {
            let r = &self.reminders[i];
            proof {
                assert(self@[i as int] == r@);
                assert(self@.take(i + 1).drop_last() =~= self@.take(i as int));
                assert(self@.take(i + 1).last() == r@);
            }
            if now.has_reached(&r.trigger_date) {
                out.push(deliver(r));
            }
            i += 1;
        }
        assert(self@.take(self@.len() as int) =~= self@);
        out
    }

    /// One tick of the scheduler: takes every reminder that is due at `now` out of the
    /// store and returns their deliveries, in the order of the store.
    pub fn tick(&mut self, now: Timestamp) -> (out: Vec<Delivery>)
        requires
            old(self).wf(),
        ensures
            final(self).wf(),
            out@.map_values(|d: Delivery| d@) == deliveries(old(self)@, now),
            final(self)@ == pending(old(self)@, now),
            final(self).next() == old(self).next(),
    {
        let mut out: Vec<Delivery> = Vec::new();
        let mut kept: Vec<Reminder> = Vec::new();
        let ghost before = self@;
        let ghost mut i: int = 0;
        assert(before.take(0) =~= Seq::<ReminderView>::empty());
        while self.reminders.len() > 0
            invariant
                0 <= i <= before.len(),
                self.next() == old(self).next(),
                self@ =~= before.skip(i),
                out@.map_values(|d: Delivery| d@) =~= deliveries(before.take(i), now),
                kept@.map_values(|r: Reminder| r@) =~= pending(before.take(i), now),
            decreases self.reminders.len(),
        {
            let ghost head = self@;
            let r = self.reminders.remove(0);
            proof {
                assert(self@ =~= head.remove(0));
                assert(r@ == head[0]);
                assert(head[0] == before[i]);
                assert(before.take(i + 1).drop_last() =~= before.take(i));
                assert(before.take(i + 1).last() == r@);
                assert(self@ =~= before.skip(i + 1));
            }
            if now.has_reached(&r.trigger_date) {
                out.push(deliver(&r));
            } else {
                kept.push(r);
            }
            proof {
                i = i + 1;
            }
        }
        proof {
            assert(i == before.len());
            assert(before.take(before.len() as int) =~= before);
            lemma_pending_members(before, now);
        }
        self.reminders = kept;
        proof {
            let after = self@;
            assert forall|a: int, b: int| 0 <= a < b < after.len() implies (#[trigger] after[a]).id
                != (#[trigger] after[b]).id by {
                lemma_pending_order(before, now, a, b);
            }
        }
        out
    }
}

/// Builds the delivery of `r`.
pub fn deliver(r: &Reminder) -> (d: Delivery)
    ensures
        d@ == delivery_of(r@),
{
    let mut text: Vec<char> = Vec::new();
    push_str(&mut text, "<@");
    push_decimal(&mut text, r.author);
    push_str(&mut text, ">");
    push_str(&mut text, " ");
    push_str(&mut text, r.content.as_str());
    assert(text@ =~= delivery_text(r.author, r.content@));
    Delivery { reminder: r.id, channel: r.channel, text: string_of(&text), reaction: '\u{231A}' }
}

/// The reminders that stay pending are those of the store that are not due: each of
/// them stands in the store, and none of them is due.
pub proof fn lemma_pending_members(s: Seq<ReminderView>, now: Timestamp)
    ensures
        forall|k: int|
            0 <= k < pending(s, now).len() ==> s.contains(#[trigger] pending(s, now)[k])
                && !is_due(pending(s, now)[k], now),
        forall|i: int|
            0 <= i < s.len() && !is_due(#[trigger] s[i], now) ==> pending(s, now).contains(s[i]),
    decreases s.len(),
{
    if s.len() > 0 {
        let front = s.drop_last();
        lemma_pending_members(front, now);
        let p = pending(s, now);
        assert forall|k: int| 0 <= k < p.len() implies s.contains(#[trigger] p[k]) && !is_due(
            p[k],
            now,
        ) by {
            if k < pending(front, now).len() {
                let r = pending(front, now)[k];
                assert(front.contains(r));
                let w = choose|w: int| 0 <= w < front.len() && front[w] == r;
                assert(s[w] == r);
            } else {
                assert(p[k] == s[s.len() - 1]);
            }
        }
        assert forall|i: int| 0 <= i < s.len() && !is_due(#[trigger] s[i], now) implies p.contains(
            s[i],
        ) by {
            if i < front.len() {
                assert(front[i] == s[i]);
                assert(pending(front, now).contains(s[i]));
                let w = choose|w: int|
                    0 <= w < pending(front, now).len() && pending(front, now)[w] == s[i];
                assert(p[w] == s[i]);
            } else {
                assert(p[p.len() - 1] == s[i]);
            }
        }
    }
}

/// The pending reminders keep the order of the store: two of them stand in the store
/// at two positions in the same order.
pub proof fn lemma_pending_order(s: Seq<ReminderView>, now: Timestamp, a: int, b: int)
    requires
        0 <= a < b < pending(s, now).len(),
    ensures
        exists|x: int, y: int|
            0 <= x < y < s.len() && #[trigger] s[x] == pending(s, now)[a] && #[trigger] s[y]
                == pending(s, now)[b],
        (forall|i: int, j: int|
            0 <= i < j < s.len() ==> (#[trigger] s[i]).id != (#[trigger] s[j]).id) ==> pending(
            s,
            now,
        )[a].id != pending(s, now)[b].id,
    decreases s.len(),
{
    let front = s.drop_last();
    let p = pending(s, now);
    if b < pending(front, now).len() {
        lemma_pending_order(front, now, a, b);
        let (x, y) = choose|x: int, y: int|
            0 <= x < y < front.len() && #[trigger] front[x] == pending(front, now)[a]
                && #[trigger] front[y] == pending(front, now)[b];
        assert(s[x] == p[a] && s[y] == p[b]);
    } else {
        lemma_pending_members(front, now);
        let r = pending(front, now)[a];
        assert(front.contains(r));
        let x = choose|x: int| 0 <= x < front.len() && front[x] == r;
        assert(s[x] == p[a] && s[s.len() - 1] == p[b]);
    }
}

/// `d` is the delivery of a reminder of `s` that is due at `now`.
pub open spec fn delivers_from(s: Seq<ReminderView>, now: Timestamp, d: DeliveryView) -> bool {
    exists|i: int| 0 <= i < s.len() && is_due(#[trigger] s[i], now) && d == delivery_of(s[i])
}

/// Each delivery is that of a reminder of the store that is due, and each such reminder
/// has its delivery.
pub proof fn lemma_deliveries_members(s: Seq<ReminderView>, now: Timestamp)
    ensures
        forall|k: int|
            0 <= k < deliveries(s, now).len() ==> delivers_from(
                s,
                now,
                #[trigger] deliveries(s, now)[k],
            ),
        forall|i: int|
            0 <= i < s.len() && is_due(#[trigger] s[i], now) ==> deliveries(s, now).contains(
                delivery_of(s[i]),
            ),
    decreases s.len(),
{
    if s.len() > 0 {
        let front = s.drop_last();
        lemma_deliveries_members(front, now);
        let d = deliveries(s, now);
        assert forall|k: int| 0 <= k < d.len() implies delivers_from(s, now, #[trigger] d[k]) by {
            if k < deliveries(front, now).len() {
                assert(delivers_from(front, now, deliveries(front, now)[k]));
                let i = choose|i: int|
                    0 <= i < front.len() && is_due(#[trigger] front[i], now) && deliveries(
                        front,
                        now,
                    )[k] == delivery_of(front[i]);
                assert(s[i] == front[i]);
            } else {
                assert(d[k] == delivery_of(s[s.len() - 1]));
            }
        }
        assert forall|i: int| 0 <= i < s.len() && is_due(#[trigger] s[i], now) implies d.contains(
            delivery_of(s[i]),
        ) by {
            if i < front.len() {
                assert(front[i] == s[i]);
                let w = choose|w: int|
                    0 <= w < deliveries(front, now).len() && deliveries(front, now)[w]
                        == delivery_of(s[i]);
                assert(d[w] == delivery_of(s[i]));
            } else {
                assert(d[d.len() - 1] == delivery_of(s[i]));
            }
        }
    }
}

/// A reminder is delivered at most once. After a tick at `now`, nothing that stays in
/// the store is due at `now`, so a second tick at the same instant delivers nothing;
/// and no reminder that the first tick delivered is in the store any more, so no later
/// tick, at whatever instant, delivers it again.
pub proof fn lemma_delivered_once(s: Seq<ReminderView>, next: int, now: Timestamp, later: Timestamp)
    requires
        store_wf(s, next),
    ensures
        deliveries(pending(s, now), now) == Seq::<DeliveryView>::empty(),
        forall|k: int|
            0 <= k < deliveries(s, now).len() ==> !holds(
                pending(s, now),
                (#[trigger] deliveries(s, now)[k]).reminder,
            ),
        forall|k: int, m: int|
            0 <= k < deliveries(s, now).len() && 0 <= m < deliveries(pending(s, now), later).len()
                ==> (#[trigger] deliveries(s, now)[k]).reminder != (#[trigger] deliveries(
                pending(s, now),
                later,
            )[m]).reminder,
{
    let p = pending(s, now);
    lemma_pending_members(s, now);
    lemma_deliveries_members(s, now);
    lemma_deliveries_members(p, now);
    lemma_deliveries_members(p, later);
    if deliveries(p, now).len() > 0 {
        assert(delivers_from(p, now, deliveries(p, now)[0]));
        let i = choose|i: int|
            0 <= i < p.len() && is_due(#[trigger] p[i], now) && deliveries(p, now)[0]
                == delivery_of(p[i]);
        assert(!is_due(p[i], now));
    }
    assert(deliveries(p, now) =~= Seq::<DeliveryView>::empty());
    assert forall|k: int| 0 <= k < deliveries(s, now).len() implies !holds(
        p,
        (#[trigger] deliveries(s, now)[k]).reminder,
    ) by {
        assert(delivers_from(s, now, deliveries(s, now)[k]));
        let i = choose|i: int|
            0 <= i < s.len() && is_due(#[trigger] s[i], now) && deliveries(s, now)[k]
                == delivery_of(s[i]);
        if holds(p, s[i].id) {
            let w = choose|w: int| 0 <= w < p.len() && #[trigger] p[w].id == s[i].id;
            assert(s.contains(p[w]) && !is_due(p[w], now));
            let j = choose|j: int| 0 <= j < s.len() && s[j] == p[w];
            assert(i != j);
            assert(s[i].id != s[j].id);
        }
    }
    assert forall|k: int, m: int|
        0 <= k < deliveries(s, now).len() && 0 <= m < deliveries(p, later).len() implies (
    #[trigger] deliveries(s, now)[k]).reminder != (#[trigger] deliveries(p, later)[m]).reminder by {
        assert(delivers_from(p, later, deliveries(p, later)[m]));
        let w = choose|w: int|
            0 <= w < p.len() && is_due(#[trigger] p[w], later) && deliveries(p, later)[m]
                == delivery_of(p[w]);
        assert(p[w].id == deliveries(p, later)[m].reminder);
    }
}

/// A reminder that was deleted once its delivery was sent is not delivered again: no
/// later round, at whatever instant, has a delivery of it.
pub proof fn lemma_deleted_never_delivered(
    s: Seq<ReminderView>,
    next: int,
    id: i32,
    later: Timestamp,
)
    requires
        store_wf(s, next),
    ensures
        !holds(without(s, id), id),
        forall|k: int|
            0 <= k < deliveries(without(s, id), later).len() ==> (#[trigger] deliveries(
                without(s, id),
                later,
            )[k]).reminder != id,
{
    let rest = without(s, id);
    lemma_index_of(s, id);
    lemma_deliveries_members(rest, later);
    assert forall|j: int| 0 <= j < rest.len() implies (#[trigger] rest[j]).id != id by {
        match index_of(s, id) {
            Some(i) => {
                let x = if j < i { j } else { j + 1 };
                assert(rest[j] == s[x]);
            },
            None => {},
        }
    }
    assert forall|k: int| 0 <= k < deliveries(rest, later).len() implies (#[trigger] deliveries(
        rest,
        later,
    )[k]).reminder != id by {
        assert(delivers_from(rest, later, deliveries(rest, later)[k]));
        let w = choose|w: int|
            0 <= w < rest.len() && is_due(#[trigger] rest[w], later) && deliveries(rest, later)[k]
                == delivery_of(rest[w]);
        assert(rest[w].id != id);
    }
}

/// The instant at which the text `duration` lets a reminder fall due when read at
/// `now`, or the text that tells the user why there is none: the duration is outside
/// the grammar or leads to no instant, or the content has more than 1900 characters.
pub open spec fn planned(duration: Seq<char>, content: Seq<char>, now: Timestamp) -> Result<
    Timestamp,
    Seq<char>,
> {
    match parsed_delay(duration) {
        None => Err("the time parameter is invalid"@),
        Some(delay) => match trigger_at(delay, now) {
            None => Err("the time parameter is invalid"@),
            Some(t) => if content.len() > 1900 {
                Err("Your message is too long"@)
            } else {
                Ok(t)
            },
        },
    }
}

/// Reads a duration and a content as [`planned`] does.
pub fn plan(duration: &str, content: &str, now: Timestamp) -> (r: Result<Timestamp, String>)
    ensures
        match r {
            Ok(t) => planned(duration@, content@, now) == Ok::<Timestamp, Seq<char>>(t),
            Err(text) => planned(duration@, content@, now) == Err::<Timestamp, Seq<char>>(text@),
        },
{
    match parse_delay(duration) {
        None => Err("the time parameter is invalid".to_owned()),
        Some(delay) => match extract_date(&delay, now) {
            None => Err("the time parameter is invalid".to_owned()),
            Some(t) => {
                if content.unicode_len() > 1900 {
                    Err("Your message is too long".to_owned())
                } else {
                    Ok(t)
                }
            },
        },
    }
}

/// The command that creates a reminder. `args` is the whole token list: the trigger,
/// the duration, the content. On success the reminder is stored and the result is the
/// acknowledging text `:ok:`; a duration or content that is refused changes nothing and
/// is answered with the reason; with no identifier left the command fails.
pub fn remind_me(store: &mut ReminderStore, args: &Vec<String>, inv: &Invocation, now: Timestamp)
    -> (r: Result<Option<String>, String>)
    requires
        old(store).wf(),
        args@.len() >= 3,
    ensures
        final(store).wf(),
        match planned(args@[1]@, args@[2]@, now) {
            Err(text) => {
                &&& final(store)@ == old(store)@
                &&& final(store).next() == old(store).next()
                &&& result_texts(r) == Ok::<Option<Seq<char>>, Seq<char>>(Some(text))
            },
            Ok(t) => if old(store).next() < i32::MAX {
                &&& final(store)@ == old(store)@.push(
                    ReminderView {
                        id: old(store).next() as i32,
                        author: inv.author,
                        channel: inv.channel,
                        content: args@[2]@,
                        trigger_date: t,
                    },
                )
                &&& final(store).next() == old(store).next() + 1
                &&& result_texts(r) == Ok::<Option<Seq<char>>, Seq<char>>(Some(":ok:"@))
            } else {
                &&& final(store)@ == old(store)@
                &&& final(store).next() == old(store).next()
                &&& result_texts(r) == Err::<Option<Seq<char>>, Seq<char>>(
                    "no identifier is left for a reminder"@,
                )
            },
        },
{
    match plan(args[1].as_str(), args[2].as_str(), now) {
        Err(text) => Ok(Some(text)),
        Ok(t) => {
            let new = NewReminder {
                author: inv.author,
                channel: inv.channel,
                content: args[2].clone(),
                trigger_date: t,
            };
            match store.add(new) {
                Some(_) => Ok(Some(":ok:".to_owned())),
                None => Err("no identifier is left for a reminder".to_owned()),
            }
        },
    }
}

} // verus!
