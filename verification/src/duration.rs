//! The grammar of delays: one to four digits and a unit, as in `30m`, `2hours` or
//! `3d10:15`.

use crate::text::{chars_of, is_prefix, matches_at};
use vstd::prelude::*;

verus! {

/// The unit of a delay.
#[derive(Clone, Copy, Debug, PartialEq, Eq, Structural)]
pub enum Unit {
    Minutes,
    Hours,
    Days,
}

/// A time of day, to the minute.
#[derive(Clone, Copy, Debug, PartialEq, Eq, Structural)]
pub struct Clock {
    pub hour: u8,
    pub minute: u8,
}

/// A parsed delay: so many units from now, and for days optionally at a time of day.
#[derive(Clone, Copy, Debug, PartialEq, Eq, Structural)]
pub struct Delay {
    pub amount: u16,
    pub unit: Unit,
    pub clock: Option<Clock>,
}

impl Delay {
    /// What every parsed delay satisfies: at most four digits of amount, a time of day
    /// only with days, and that time within the day.
    pub open spec fn wf(self) -> bool {
        &&& self.amount <= 9999
        &&& self.clock matches Some(c) ==> self.unit == Unit::Days && c.hour < 24 && c.minute
            < 60
    }
}

/// An ASCII decimal digit.
pub open spec fn is_digit(c: char) -> bool {
    0x30 <= c as u32 <= 0x39
}

/// The value of a digit.
pub open spec fn digit_of(c: char) -> nat {
    (c as u32 - 0x30) as nat
}

/// The number of digits that stand in `s` from position `from` on without a gap.
pub open spec fn digits_at(s: Seq<char>, from: int) -> nat
    decreases s.len() - from,
{
    if 0 <= from < s.len() && is_digit(s[from]) {
        1 + digits_at(s, from + 1)
    } else {
        0
    }
}

/// The number that the digits of `s` write, most significant first.
pub open spec fn number(s: Seq<char>) -> nat
    decreases s.len(),
{
    if s.len() == 0 {
        0
    } else {
        number(s.drop_last()) * 10 + digit_of(s.last())
    }
}

/// The time of day that follows the day unit: nothing, or two digits of hours, `:` or
/// `h`, and optionally two digits of minutes, which count as zero when left out. The
/// outer `None` stands for a text that is none of these or names no time of the day.
pub open spec fn parsed_clock(t: Seq<char>) -> Option<Option<Clock>> {
    if t.len() == 0 {
        Some(None)
    } else if (t.len() == 3 || t.len() == 5) && is_digit(t[0]) && is_digit(t[1]) && (t[2] == ':'
        || t[2] == 'h') && (t.len() == 5 ==> is_digit(t[3]) && is_digit(t[4])) {
        let hour = digit_of(t[0]) * 10 + digit_of(t[1]);
        let minute = if t.len() == 5 {
            digit_of(t[3]) * 10 + digit_of(t[4])
        } else {
            0
        };
        if hour < 24 && minute < 60 {
            Some(Some(Clock { hour: hour as u8, minute: minute as u8 }))
        } else {
            None
        }
    } else {
        None
    }
}

/// The length of the day unit at the start of `rest`: `days`, `day` or `d`.
pub open spec fn day_word(rest: Seq<char>) -> nat {
    if is_prefix("days"@, rest) {
        "days"@.len()
    } else if is_prefix("day"@, rest) {
        "day"@.len()
    } else {
        "d"@.len()
    }
}

/// The delay that `s` writes, if it writes one: one to four digits, then `m`, `minute`
/// or `minutes`; or `h`, `hour` or `hours`; or `d`, `day` or `days` with an optional time
/// of day. Nothing may stand before or after.
pub open spec fn parsed_delay(s: Seq<char>) -> Option<Delay> {
    let n = digits_at(s, 0);
    let amount = number(s.take(n as int)) as u16;
    let rest = s.skip(n as int);
    if n < 1 || n > 4 {
        None
    } else if rest == "m"@ || rest == "minute"@ || rest == "minutes"@ {
        Some(Delay { amount, unit: Unit::Minutes, clock: None })
    } else if rest == "h"@ || rest == "hour"@ || rest == "hours"@ {
        Some(Delay { amount, unit: Unit::Hours, clock: None })
    } else if is_prefix("d"@, rest) {
        match parsed_clock(rest.skip(day_word(rest) as int)) {
            Some(clock) => Some(Delay { amount, unit: Unit::Days, clock }),
            None => None,
        }
    } else {
        None
    }
}

/// A run of at most four digits writes a number below ten thousand.
pub proof fn lemma_number_bound(s: Seq<char>)
    requires
        s.len() <= 4,
        forall|i: int| 0 <= i < s.len() ==> is_digit(#[trigger] s[i]),
    ensures
        s.len() == 0 ==> number(s) == 0,
        s.len() == 1 ==> number(s) <= 9,
        s.len() == 2 ==> number(s) <= 99,
        s.len() == 3 ==> number(s) <= 999,
        s.len() == 4 ==> number(s) <= 9999,
    decreases s.len(),
{
    if s.len() > 0 {
        lemma_number_bound(s.drop_last());
        assert(is_digit(s.last()));
    }
}

/// Every delay that the grammar yields is well formed.
pub proof fn lemma_parsed_delay_wf(s: Seq<char>)
    ensures
        parsed_delay(s) matches Some(d) ==> d.wf(),
{
    let n = digits_at(s, 0);
    if 1 <= n <= 4 {
        lemma_digit_run(s, 0);
        assert forall|i: int| 0 <= i < s.take(n as int).len() implies is_digit(
            #[trigger] s.take(n as int)[i],
        ) by {}
        lemma_number_bound(s.take(n as int));
    }
}

/// The digits counted by `digits_at` are digits, and the character behind them, if
/// there is one, is none.
pub proof fn lemma_digit_run(s: Seq<char>, from: int)
    requires
        0 <= from,
    ensures
        from + digits_at(s, from) <= s.len() || digits_at(s, from) == 0,
        forall|i: int| from <= i < from + digits_at(s, from) ==> is_digit(#[trigger] s[i]),
        from + digits_at(s, from) < s.len() ==> !is_digit(s[from + digits_at(s, from)]),
    decreases s.len() - from,
{
    if from < s.len() && is_digit(s[from]) {
        lemma_digit_run(s, from + 1);
    }
}

/// The value of `c` if it is a digit.
pub fn digit_value(c: char) -> (r: Option<u8>)
    ensures
        r is Some <==> is_digit(c),
        r matches Some(d) ==> d == digit_of(c) && d <= 9,
{
    let n: u32 = c as u32;
    if 0x30 <= n && n <= 0x39 {
        Some((n - 0x30) as u8)
    } else {
        None
    }
}

/// Whether the text of `chars` from position `from` on is `word`.
fn tail_is(chars: &Vec<char>, from: usize, word: &str) -> (b: bool)
    requires
        from <= chars.len(),
    ensures
        b == (chars@.skip(from as int) == word@),
{
    let w = chars_of(word);
    let b = chars.len() - from == w.len() && matches_at(&w, chars, from);
    proof {
        if chars.len() - from == w.len() {
            assert(chars@.skip(from as int) =~= chars@.subrange(from as int, from + w.len()));
        }
    }
    b
}

/// Whether the text of `chars` from position `from` on starts with `word`.
fn tail_starts_with(chars: &Vec<char>, from: usize, word: &str) -> (b: bool)
    requires
        from <= chars.len(),
    ensures
        b == is_prefix(word@, chars@.skip(from as int)),
{
    let w = chars_of(word);
    let b = matches_at(&w, chars, from);
    proof {
        if w.len() <= chars.len() - from {
            assert(chars@.skip(from as int).take(w.len() as int) =~= chars@.subrange(
                from as int,
                from + w.len(),
            ));
        }
    }
    b
}

/// Reads the time of day in `chars` from position `from` on.
fn parse_clock(chars: &Vec<char>, from: usize) -> (r: Option<Option<Clock>>)
    requires
        from <= chars.len(),
    ensures
        r == parsed_clock(chars@.skip(from as int)),
{
    let ghost t = chars@.skip(from as int);
    let len: usize = chars.len() - from;
    assert(t.len() == len);
    if len == 0 {
        return Some(None);
    }
    if len != 3 && len != 5 {
        return None;
    }
    assert(t[0] == chars@[from + 0] && t[1] == chars@[from + 1] && t[2] == chars@[from + 2]);
    let sep: char = chars[from + 2];
    if sep != ':' && sep != 'h' {
        return None;
    }
    let hour: u8 = match (digit_value(chars[from]), digit_value(chars[from + 1])) {
        (Some(a), Some(b)) => a * 10 + b,
        _ => {
            return None;
        },
    };
    let minute: u8 = if len == 5 {
        assert(t[3] == chars@[from + 3] && t[4] == chars@[from + 4]);
        match (digit_value(chars[from + 3]), digit_value(chars[from + 4])) {
            (Some(a), Some(b)) => a * 10 + b,
            _ => {
                return None;
            },
        }
    } else {
        0
    };
    if hour < 24 && minute < 60 {
        Some(Some(Clock { hour, minute }))
    } else {
        None
    }
}

/// Reads a delay. Gives `None` for every text outside the grammar.
pub fn parse_delay(s: &str) -> (r: Option<Delay>)
    ensures
        r == parsed_delay(s@),
        r matches Some(d) ==> d.wf(),
{
    let chars = chars_of(s);
    proof {
        lemma_parsed_delay_wf(s@);
    }
    let mut n: usize = 0;
    let mut amount: u16 = 0;
    let mut stopped: bool = false;
    while n < chars.len() && n < 5 && !stopped
        invariant
            n <= chars.len(),
            n <= 5,
            stopped ==> n < chars.len() && !is_digit(chars@[n as int]),
            digits_at(chars@, 0) == n + digits_at(chars@, n as int),
            forall|i: int| 0 <= i < n ==> is_digit(#[trigger] chars@[i]),
            n <= 4 ==> amount == number(chars@.take(n as int)),
        decreases 5 - n + if stopped { 0int } else { 1int },
    {
        match digit_value(chars[n]) {
            None => {
                stopped = true;
            },
            Some(d) => {
                proof {
                    let next = chars@.take(n + 1);
                    assert(next.drop_last() =~= chars@.take(n as int));
                    assert(next.last() == chars@[n as int]);
                    assert forall|i: int| 0 <= i < chars@.take(n as int).len() implies is_digit(
                        #[trigger] chars@.take(n as int)[i],
                    ) by {}
                    if n < 4 {
                        lemma_number_bound(chars@.take(n as int));
                    }
                }
                if n < 4 {
                    amount = amount * 10 + d as u16;
                }
                n += 1;
            },
        }
    }
    if n < 1 || n > 4 {
        return None;
    }
    assert(digits_at(chars@, 0) == n);
    if tail_is(&chars, n, "m") || tail_is(&chars, n, "minute") || tail_is(&chars, n, "minutes") {
        Some(Delay { amount, unit: Unit::Minutes, clock: None })
    } else if tail_is(&chars, n, "h") || tail_is(&chars, n, "hour") || tail_is(
        &chars,
        n,
        "hours",
    ) {
        Some(Delay { amount, unit: Unit::Hours, clock: None })
    } else if tail_starts_with(&chars, n, "d") {
        let word: usize = if tail_starts_with(&chars, n, "days") {
            "days".unicode_len()
        } else if tail_starts_with(&chars, n, "day") {
            "day".unicode_len()
        } else {
            "d".unicode_len()
        };
        proof {
            assert(chars@.skip(n as int).skip(word as int) =~= chars@.skip(n + word));
        }
        match parse_clock(&chars, n + word) {
            Some(clock) => Some(Delay { amount, unit: Unit::Days, clock }),
            None => None,
        }
    } else {
        None
    }
}

} // verus!
