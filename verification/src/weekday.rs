//! Weekday codes (`MO` through `SU`) and the distance table that says how
//! many days forward a target weekday lies from a current one.
use vstd::prelude::*;

use crate::civil::{Civil, valid_civil, weekday_num};

verus! {

/// The weekday number (Monday = 1 through Sunday = 7) a two-letter code
/// denotes, or `None` for anything else.
pub open spec fn code_num(s: Seq<char>) -> Option<int> {
    if s == seq!['M', 'O'] {
        Some(1int)
    } else if s == seq!['T', 'U'] {
        Some(2int)
    } else if s == seq!['W', 'E'] {
        Some(3int)
    } else if s == seq!['T', 'H'] {
        Some(4int)
    } else if s == seq!['F', 'R'] {
        Some(5int)
    } else if s == seq!['S', 'A'] {
        Some(6int)
    } else if s == seq!['S', 'U'] {
        Some(7int)
    } else {
        None
    }
}

/// The two-letter code of a weekday number.
pub open spec fn code_of_num(n: int) -> Seq<char> {
    if n == 1 {
        seq!['M', 'O']
    } else if n == 2 {
        seq!['T', 'U']
    } else if n == 3 {
        seq!['W', 'E']
    } else if n == 4 {
        seq!['T', 'H']
    } else if n == 5 {
        seq!['F', 'R']
    } else if n == 6 {
        seq!['S', 'A']
    } else {
        seq!['S', 'U']
    }
}

pub proof fn lemma_code_roundtrip(n: int)
    requires
        1 <= n <= 7,
    ensures
        code_num(code_of_num(n)) == Some(n),
{
}

/// Days to add to move from weekday `wd` to the weekday `code` names:
/// `0` on a match (or `7` when a strictly future day is demanded), the
/// forward distance otherwise, and `0` when the code is not a weekday.
pub open spec fn weekday_distance(code: Seq<char>, wd: int, in_future: bool) -> int {
    match code_num(code) {
        Some(t) => {
            let d = (t - wd + 7) % 7;
            if d == 0 {
                if in_future {
                    7int
                } else {
                    0int
                }
            } else {
                d
            }
        },
        None => 0int,
    }
}

/// The two-letter code for a weekday number.
pub fn weekday_code_str(n: u8) -> (r: &'static str)
    requires
        1 <= n <= 7,
    ensures
        r@ == code_of_num(n as int),
{
    proof {
        reveal_strlit("MO");
        reveal_strlit("TU");
        reveal_strlit("WE");
        reveal_strlit("TH");
        reveal_strlit("FR");
        reveal_strlit("SA");
        reveal_strlit("SU");
    }
    let r: &'static str = match n {
        1 => "MO",
        2 => "TU",
        3 => "WE",
        4 => "TH",
        5 => "FR",
        6 => "SA",
        _ => "SU",
    };
    proof {
        assert(r@ =~= code_of_num(n as int));
    }
    r
}

/// The weekday number a string denotes, if any.
pub fn code_num_of(s: &str) -> (r: Option<u8>)
    ensures
        match r {
            Some(n) => 1 <= n <= 7 && code_num(s@) == Some(n as int),
            None => code_num(s@) is None,
        },
{
    let n: usize = s.unicode_len();
    if n != 2 {
        return None;
    }
    let c0: char = s.get_char(0);
    let c1: char = s.get_char(1);
    proof {
        assert(s@ =~= seq![s@[0], s@[1]]);
    }
    let r: Option<u8> = if c0 == 'M' && c1 == 'O' {
        Some(1)
    } else if c0 == 'T' && c1 == 'U' {
        Some(2)
    } else if c0 == 'W' && c1 == 'E' {
        Some(3)
    } else if c0 == 'T' && c1 == 'H' {
        Some(4)
    } else if c0 == 'F' && c1 == 'R' {
        Some(5)
    } else if c0 == 'S' && c1 == 'A' {
        Some(6)
    } else if c0 == 'S' && c1 == 'U' {
        Some(7)
    } else {
        None
    };
    proof {
        assert(seq![c0, c1] == s@);
    }
    r
}

/// Days to add to reach the weekday `bywk_day` names from `current_weekday`,
/// as the spec-level distance table gives it.
pub fn calculate_weekday_distance(
    bywk_day: &str,
    current_weekday: u8,
    in_future_from_current_day: bool,
) -> (r: u8)
    requires
        1 <= current_weekday <= 7,
    ensures
        r as int == weekday_distance(bywk_day@, current_weekday as int, in_future_from_current_day),
        r <= 7,
{
    match code_num_of(bywk_day) {
        Some(t) => {
            let d: u8 = (t + 7 - current_weekday) % 7;
            if d == 0 {
                if in_future_from_current_day {
                    7
                } else {
                    0
                }
            } else {
                d
            }
        },
        None => 0,
    }
}

/// The weekday code of a civil date.
pub fn civil_weekday_code(c: &Civil) -> (r: &'static str)
    requires
        valid_civil(*c),
    ensures
        r@ == code_of_num(weekday_num(*c)),
{
    let n: u8 = crate::civil::weekday_of(c);
    weekday_code_str(n)
}

} // verus!
