//! A wall-clock time of day at minute resolution, carried on the wire
//! as an "HH:MM" string.

use vstd::prelude::*;

use crate::text::{digit_char, digit_val, is_digit, push_char};

verus! {

/// A time of day at minute resolution.
#[derive(Debug, Clone, Copy, PartialEq, Eq, Structural)]
pub struct NaiveTimeWrapper {
    pub hour: u8,
    pub minute: u8,
}

/// The canonical "HH:MM" rendering of an hour and a minute.
pub open spec fn time_string(h: int, m: int) -> Seq<char> {
    seq![
        digit_char(h / 10),
        digit_char(h % 10),
        ':',
        digit_char(m / 10),
        digit_char(m % 10),
    ]
}

/// A well-formed "HH:MM" string: five characters, a colon in the
/// middle, digits elsewhere, and both fields in range.
pub open spec fn valid_time_str(s: Seq<char>) -> bool {
    &&& s.len() == 5
    &&& is_digit(s[0])
    &&& is_digit(s[1])
    &&& s[2] == ':'
    &&& is_digit(s[3])
    &&& is_digit(s[4])
    &&& digit_val(s[0]) * 10 + digit_val(s[1]) < 24
    &&& digit_val(s[3]) * 10 + digit_val(s[4]) < 60
}

/// The hour field of a well-formed "HH:MM" string.
pub open spec fn hour_of_str(s: Seq<char>) -> int {
    digit_val(s[0]) * 10 + digit_val(s[1])
}

/// The minute field of a well-formed "HH:MM" string.
pub open spec fn minute_of_str(s: Seq<char>) -> int {
    digit_val(s[3]) * 10 + digit_val(s[4])
}

impl NaiveTimeWrapper {
    /// An hour below 24 and a minute below 60.
    pub open spec fn wf(&self) -> bool {
        self.hour < 24 && self.minute < 60
    }

    /// The minute of the day, for comparing two times.
    pub open spec fn spec_minutes(&self) -> int {
        self.hour * 60 + self.minute
    }

    /// Builds a time of day; rejects out-of-range fields.
    pub fn new(hour: u8, minute: u8) -> (r: Option<NaiveTimeWrapper>)
        ensures
            r is Some <==> hour < 24 && minute < 60,
            r is Some ==> r->0 == (NaiveTimeWrapper { hour, minute }),
    {
        if hour < 24 && minute < 60 {
            Some(NaiveTimeWrapper { hour, minute })
        } else {
            None
        }
    }

    /// The minute of the day.
    pub fn minutes(&self) -> (r: u16)
        requires
            self.wf(),
        ensures
            r == self.spec_minutes(),
    {
        (self.hour as u16) * 60 + (self.minute as u16)
    }

    /// Renders the time as "HH:MM".
    pub fn format(&self) -> (r: String)
        requires
            self.wf(),
        ensures
            r@ == time_string(self.hour as int, self.minute as int),
            valid_time_str(r@),
    {
        let mut out = String::new();
        push_char(&mut out, (48 + self.hour / 10) as char);
        push_char(&mut out, (48 + self.hour % 10) as char);
        push_char(&mut out, ':');
        push_char(&mut out, (48 + self.minute / 10) as char);
        push_char(&mut out, (48 + self.minute % 10) as char);
        proof {
            assert(out@ =~= time_string(self.hour as int, self.minute as int));
        }
        out
    }

    /// Parses an "HH:MM" string; returns the time exactly when the
    /// string is well-formed.
    pub fn parse(s: &str) -> (r: Option<NaiveTimeWrapper>)
        ensures
            r is Some <==> valid_time_str(s@),
            r is Some ==> (r->0).hour == hour_of_str(s@) && (r->0).minute == minute_of_str(s@),
            r is Some ==> (r->0).wf(),
    {
        if s.unicode_len() != 5 {
            return None;
        }
        let c0 = crate::text::char_at(s, 0);
        let c1 = crate::text::char_at(s, 1);
        let c2 = crate::text::char_at(s, 2);
        let c3 = crate::text::char_at(s, 3);
        let c4 = crate::text::char_at(s, 4);
        if c2 != ':' {
            return None;
        }
        if !(c0 >= '0' && c0 <= '9' && c1 >= '0' && c1 <= '9' && c3 >= '0' && c3 <= '9' && c4
            >= '0' && c4 <= '9') {
            return None;
        }
        let hour = (c0 as u8 - 48) * 10 + (c1 as u8 - 48);
        let minute = (c3 as u8 - 48) * 10 + (c4 as u8 - 48);
        proof {
            assert(48 <= c0 as u32 <= 57);
            assert(48 <= c1 as u32 <= 57);
            assert(48 <= c3 as u32 <= 57);
            assert(48 <= c4 as u32 <= 57);
            assert(hour == hour_of_str(s@));
            assert(minute == minute_of_str(s@));
        }
        if hour < 24 && minute < 60 {
            Some(NaiveTimeWrapper { hour, minute })
        } else {
            None
        }
    }
}

/// An "HH:MM" rendering round-trips exactly: parsing the formatted
/// string of a well-formed time gives the same time back.
pub proof fn lemma_time_round_trip(t: NaiveTimeWrapper)
    requires
        t.wf(),
    ensures
        valid_time_str(time_string(t.hour as int, t.minute as int)),
        hour_of_str(time_string(t.hour as int, t.minute as int)) == t.hour,
        minute_of_str(time_string(t.hour as int, t.minute as int)) == t.minute,
{
    let h = t.hour as int;
    let m = t.minute as int;
    assert(0 <= h / 10 <= 2);
    assert(0 <= h % 10 <= 9);
    assert(0 <= m / 10 <= 5);
    assert(0 <= m % 10 <= 9);
    assert(digit_char(h / 10) as int == 48 + h / 10);
    assert(digit_char(h % 10) as int == 48 + h % 10);
    assert(digit_char(m / 10) as int == 48 + m / 10);
    assert(digit_char(m % 10) as int == 48 + m % 10);
    assert(h == (h / 10) * 10 + h % 10);
    assert(m == (m / 10) * 10 + m % 10);
}

} // verus!
