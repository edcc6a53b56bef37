//! Timed notices: events that are announced in a channel once their time has run, and
//! again and again if they repeat.

use crate::text::{parse_u64_in, parsed_u64, same_text};
use vstd::prelude::*;
use vstd::std_specs::cmp::PartialEqSpecImpl;
use vstd::utf8::encode_utf8;

verus! {

/// A timed notice. Times are in seconds: `started` since the epoch, `duration` from
/// `started` on.
#[derive(Clone, Debug)]
pub struct Event {
    pub name: String,
    pub duration: u64,
    pub started: u64,
    pub message: String,
    pub channel: u64,
    pub repeat: bool,
}

/// Two events are the same event when they have the same name.
impl PartialEq for Event {
    fn eq(&self, other: &Event) -> (b: bool) {
        self.name == other.name
    }
}

impl PartialEqSpecImpl for Event {
    open spec fn obeys_eq_spec() -> bool {
        true
    }

    open spec fn eq_spec(&self, other: &Event) -> bool {
        self.name@ == other.name@
    }
}

/// What an event holds.
pub struct EventView {
    pub name: Seq<char>,
    pub duration: u64,
    pub started: u64,
    pub message: Seq<char>,
    pub channel: u64,
    pub repeat: bool,
}

impl View for Event {
    type V = EventView;

    open spec fn view(&self) -> EventView {
        EventView {
            name: self.name@,
            duration: self.duration,
            started: self.started,
            message: self.message@,
            channel: self.channel,
            repeat: self.repeat,
        }
    }
}

/// What a list of events holds.
pub open spec fn event_views(v: Seq<Event>) -> Seq<EventView> {
    v.map_values(|e: Event| e@)
}

/// A notice to send: the message of an event, and its channel.
#[derive(Clone, Debug, PartialEq, Eq)]
pub struct Notice {
    pub channel: u64,
    pub message: String,
}

/// What a notice holds.
pub struct NoticeView {
    pub channel: u64,
    pub message: Seq<char>,
}

impl View for Notice {
    type V = NoticeView;

    open spec fn view(&self) -> NoticeView {
        NoticeView { channel: self.channel, message: self.message@ }
    }
}

/// What a list of notices holds.
pub open spec fn notice_views(v: Seq<Notice>) -> Seq<NoticeView> {
    v.map_values(|n: Notice| n@)
}

/// The channel that a mention such as `<#123>` names: the number between its first two
/// bytes and its last one.
pub open spec fn mentioned_channel(b: Seq<u8>) -> Option<u64> {
    if b.len() >= 3 {
        parsed_u64(b.subrange(2, b.len() - 1))
    } else {
        None
    }
}

/// The event that the parameters of the command describe: its name, its message and
/// its channel stand at the positions 1, 3 and 4, and it repeats when the sixth and
/// last parameter is `repeat`.
pub open spec fn described(params: Seq<String>, duration: u64, started: u64) -> Option<EventView> {
    if params.len() >= 5 {
        match mentioned_channel(encode_utf8(params[4]@)) {
            Some(channel) => Some(
                EventView {
                    name: params[1]@,
                    duration,
                    started,
                    message: params[3]@,
                    channel,
                    repeat: params.len() == 6 && params[5]@ == "repeat"@,
                },
            ),
            None => None,
        }
    } else {
        None
    }
}

/// The position of the first event of `s` with the name `name`.
pub open spec fn named(s: Seq<EventView>, name: Seq<char>) -> Option<int>
    decreases s.len(),
{
    if s.len() == 0 {
        None
    } else {
        match named(s.drop_last(), name) {
            Some(i) => Some(i),
            None => if s.last().name == name {
                Some(s.len() - 1)
            } else {
                None
            },
        }
    }
}

/// `named` gives the first event with the name, and none exactly when there is none.
pub proof fn lemma_named(s: Seq<EventView>, name: Seq<char>)
    ensures
        match named(s, name) {
            Some(i) => 0 <= i < s.len() && s[i].name == name && forall|j: int|
                0 <= j < i ==> (#[trigger] s[j]).name != name,
            None => forall|j: int| 0 <= j < s.len() ==> (#[trigger] s[j]).name != name,
        },
    decreases s.len(),
{
    if s.len() > 0 {
        lemma_named(s.drop_last(), name);
        assert(forall|j: int| 0 <= j < s.len() - 1 ==> s.drop_last()[j] == s[j]);
    }
}

/// An event has run out at `now` when more than its duration has passed since it
/// started.
pub open spec fn run_out(e: EventView, now: u64) -> bool {
    now - e.started > e.duration
}

/// The notices of the events of `s` that have run out at `now`, in the order of `s`.
pub open spec fn notices(s: Seq<EventView>, now: u64) -> Seq<NoticeView>
    decreases s.len(),
{
    if s.len() == 0 {
        Seq::empty()
    } else if run_out(s.last(), now) {
        notices(s.drop_last(), now).push(
            NoticeView { channel: s.last().channel, message: s.last().message },
        )
    } else {
        notices(s.drop_last(), now)
    }
}

/// The events that stay after a check at `now`: those that have not run out, as they
/// are, and those that have and repeat, started again at `now`.
pub open spec fn staying(s: Seq<EventView>, now: u64) -> Seq<EventView>
    decreases s.len(),
{
    if s.len() == 0 {
        Seq::empty()
    } else if !run_out(s.last(), now) {
        staying(s.drop_last(), now).push(s.last())
    } else if s.last().repeat {
        staying(s.drop_last(), now).push(EventView { started: now, ..s.last() })
    } else {
        staying(s.drop_last(), now)
    }
}

impl Event {
    /// Adds the event that `params` describe, to run for `duration` seconds from
    /// `started`. Answers `Ok`; where the parameters describe no event, nothing is
    /// added and there is no answer.
    pub fn add(stored: &mut Vec<Event>, params: &Vec<String>, duration: u64, started: u64) -> (r:
        Option<String>)
        ensures
            match described(params@, duration, started) {
                Some(e) => {
                    &&& event_views(final(stored)@) == event_views(old(stored)@).push(e)
                    &&& r is Some
                    &&& r->0@ == "Ok"@
                },
                None => final(stored)@ == old(stored)@ && r is None,
            },
    {
        if params.len() < 5 {
            return None;
        }
        let chan = params[4].as_str().as_bytes();
        if chan.len() < 3 {
            return None;
        }
        let channel = match parse_u64_in(chan, 2, chan.len() - 1) {
            Some(c) => c,
            None => {
                return None;
            },
        };
        let repeat = params.len() == 6 && same_text(params[5].as_str(), "repeat");
        let ghost before = event_views(stored@);
        stored.push(
            Event {
                name: params[1].clone(),
                duration,
                started,
                message: params[3].clone(),
                channel,
                repeat,
            },
        );
        assert(event_views(stored@) =~= before.push(described(params@, duration, started)->0));
        Some("Ok".to_owned())
    }
}

/// Removes the first event that is the same event as `other`. Returns whether there
/// was one.
pub fn remove_elem(events: &mut Vec<Event>, other: &Event) -> (found: bool)
    ensures
        match named(event_views(old(events)@), other.name@) {
            Some(i) => found && final(events)@ == old(events)@.remove(i),
            None => !found && final(events)@ == old(events)@,
        },
{
    let mut index: usize = 0;
    while index < events.len()
        invariant
            index <= events.len(),
            events@ == old(events)@,
            forall|j: int| 0 <= j < index ==> (#[trigger] event_views(events@)[j]).name != other.name@,
        decreases events.len() - index,
    {
        if events[index] == *other {
            proof {
                assert(event_views(events@)[index as int] == events@[index as int]@);
                lemma_named(event_views(events@), other.name@);
            }
            events.remove(index);
            return true;
        }
        index += 1;
    }
    proof {
        lemma_named(event_views(events@), other.name@);
    }
    false
}

/// One check of the events at `now`: returns the notices of those that have run out,
/// in order, takes out those of them that do not repeat, and starts the others again.
pub fn check_events(stored: &mut Vec<Event>, now: u64) -> (out: Vec<Notice>)
    ensures
        notice_views(out@) == notices(event_views(old(stored)@), now),
        event_views(final(stored)@) == staying(event_views(old(stored)@), now),
{
    let ghost before = event_views(stored@);
    let mut out: Vec<Notice> = Vec::new();
    let mut kept: Vec<Event> = Vec::new();
    let ghost mut k: int = 0;
    assert(before.take(0) =~= Seq::<EventView>::empty());
    while stored.len() > 0
        invariant
            0 <= k <= before.len(),
            event_views(stored@) =~= before.skip(k),
            notice_views(out@) =~= notices(before.take(k), now),
            event_views(kept@) =~= staying(before.take(k), now),
        decreases stored.len(),
    {
        let ghost head = event_views(stored@);
        let mut e = stored.remove(0);
        proof {
            assert(event_views(stored@) =~= head.remove(0));
            assert(e@ == head[0]);
            assert(head[0] == before[k]);
            assert(before.take(k + 1).drop_last() =~= before.take(k));
            assert(before.take(k + 1).last() == e@);
            assert(event_views(stored@) =~= before.skip(k + 1));
        }
        let ghost notes = notice_views(out@);
        let ghost stay = event_views(kept@);
        if now > e.started && now - e.started > e.duration {
            out.push(Notice { channel: e.channel, message: e.message.clone() });
            assert(notice_views(out@) =~= notes.push(
                NoticeView { channel: e.channel, message: e.message@ },
            ));
            if e.repeat {
                e.started = now;
                kept.push(e);
                assert(event_views(kept@) =~= stay.push(EventView { started: now, ..before[k] }));
            }
        } else {
            kept.push(e);
            assert(event_views(kept@) =~= stay.push(before[k]));
        }
        proof {
            k = k + 1;
        }
    }
    proof {
        assert(before.take(before.len() as int) =~= before);
    }
    *stored = kept;
    out
}

} // verus!
