//! Textual forms of civil date-times: the spaced form (`YYYY-MM-DD
//! HH:MM:SS`) rules store anchors in, the basic form (`YYYYMMDDTHHMMSS`)
//! the grammar uses, and RFC 3339 with an explicit offset.
use vstd::prelude::*;

use crate::MAX_YEAR;
use crate::civil::{Civil, Zoned, month_len, month_len_of, valid_civil, valid_zoned};
use crate::textnum::{
    all_digits, digits_val, fmt2, fmt4, lemma_digits_val_len2, lemma_digits_val_len4,
    lemma_fmt2_val, lemma_fmt4_val, parse_u32, parse_u32_spec, push2, push4,
};

verus! {

/// The civil value with these numeric fields, when they form a valid one.
pub open spec fn civil_from_fields(y: int, mo: int, d: int, h: int, mi: int, s: int) -> Option<
    Civil,
> {
    if 1 <= y <= MAX_YEAR && 1 <= mo <= 12 && 1 <= d <= month_len(y, mo) && 0 <= h <= 23 && 0 <= mi
        <= 59 && 0 <= s <= 59 {
        Some(
            Civil {
                year: y as i32,
                month: mo as u8,
                day: d as u8,
                hour: h as u8,
                minute: mi as u8,
                second: s as u8,
            },
        )
    } else {
        None
    }
}

/// The spaced rendering `YYYY-MM-DD HH:MM:SS` of a civil value.
pub open spec fn fmt_spaced(c: Civil) -> Seq<char> {
    fmt4(c.year as int) + seq!['-'] + fmt2(c.month as int) + seq!['-'] + fmt2(c.day as int)
        + seq![' '] + fmt2(c.hour as int) + seq![':'] + fmt2(c.minute as int) + seq![':'] + fmt2(
        c.second as int,
    )
}

/// What parsing the spaced form yields.
pub open spec fn parse_spaced_spec(s: Seq<char>) -> Option<Civil> {
    if s.len() == 19 && s[4] == '-' && s[7] == '-' && s[10] == ' ' && s[13] == ':' && s[16] == ':'
        && all_digits(s.subrange(0, 4)) && all_digits(s.subrange(5, 7)) && all_digits(
        s.subrange(8, 10),
    ) && all_digits(s.subrange(11, 13)) && all_digits(s.subrange(14, 16)) && all_digits(
        s.subrange(17, 19),
    ) {
        civil_from_fields(
            digits_val(s.subrange(0, 4)),
            digits_val(s.subrange(5, 7)),
            digits_val(s.subrange(8, 10)),
            digits_val(s.subrange(11, 13)),
            digits_val(s.subrange(14, 16)),
            digits_val(s.subrange(17, 19)),
        )
    } else {
        None
    }
}

/// What parsing the basic form `YYYYMMDDTHHMMSS` yields.
pub open spec fn parse_basic_spec(s: Seq<char>) -> Option<Civil> {
    if s.len() == 15 && s[8] == 'T' && all_digits(s.subrange(0, 4)) && all_digits(
        s.subrange(4, 6),
    ) && all_digits(s.subrange(6, 8)) && all_digits(s.subrange(9, 11)) && all_digits(
        s.subrange(11, 13),
    ) && all_digits(s.subrange(13, 15)) {
        civil_from_fields(
            digits_val(s.subrange(0, 4)),
            digits_val(s.subrange(4, 6)),
            digits_val(s.subrange(6, 8)),
            digits_val(s.subrange(9, 11)),
            digits_val(s.subrange(11, 13)),
            digits_val(s.subrange(13, 15)),
        )
    } else {
        None
    }
}

/// Reads a two-digit field at `at`, with its value and digit facts.
fn read2(s: &str, at: usize) -> (r: Option<u32>)
    requires
        at + 2 <= s@.len(),
        s@.len() <= usize::MAX,
    ensures
        r == parse_u32_spec(s@.subrange(at as int, at as int + 2)),
        r matches Some(v) ==> v <= 99 && all_digits(s@.subrange(at as int, at as int + 2)) && v
            == digits_val(s@.subrange(at as int, at as int + 2)),
{
    let piece: &str = s.substring_char(at, at + 2);
    let r: Option<u32> = parse_u32(piece);
    proof {
        if r is Some {
            lemma_digits_val_len2(s@.subrange(at as int, at as int + 2));
        }
    }
    r
}

/// Reads a four-digit field at `at`, with its value and digit facts.
fn read4(s: &str, at: usize) -> (r: Option<u32>)
    requires
        at + 4 <= s@.len(),
        s@.len() <= usize::MAX,
    ensures
        r == parse_u32_spec(s@.subrange(at as int, at as int + 4)),
        r matches Some(v) ==> v <= 9999 && all_digits(s@.subrange(at as int, at as int + 4)) && v
            == digits_val(s@.subrange(at as int, at as int + 4)),
{
    let piece: &str = s.substring_char(at, at + 4);
    let r: Option<u32> = parse_u32(piece);
    proof {
        if r is Some {
            lemma_digits_val_len4(s@.subrange(at as int, at as int + 4));
        }
    }
    r
}

/// Builds the civil value from six parsed fields, checking validity.
fn build_civil(y: u32, mo: u32, d: u32, h: u32, mi: u32, s: u32) -> (r: Option<Civil>)
    requires
        y <= 9999,
        mo <= 99,
        d <= 99,
        h <= 99,
        mi <= 99,
        s <= 99,
    ensures
        r == civil_from_fields(y as int, mo as int, d as int, h as int, mi as int, s as int),
{
    if 1 <= y && 1 <= mo && mo <= 12 && 1 <= d && h <= 23 && mi <= 59 && s <= 59 {
        let ml: u8 = month_len_of(y as i32, mo as u8);
        if d <= ml as u32 {
            Some(
                Civil {
                    year: y as i32,
                    month: mo as u8,
                    day: d as u8,
                    hour: h as u8,
                    minute: mi as u8,
                    second: s as u8,
                },
            )
        } else {
            None
        }
    } else {
        None
    }
}

/// Parses the spaced form `YYYY-MM-DD HH:MM:SS`.
pub fn parse_spaced(s: &str) -> (r: Option<Civil>)
    ensures
        r == parse_spaced_spec(s@),
        r matches Some(c) ==> valid_civil(c),
{
    let n: usize = s.unicode_len();
    if n != 19 {
        return None;
    }
    if !(s.get_char(4) == '-' && s.get_char(7) == '-' && s.get_char(10) == ' ' && s.get_char(13)
        == ':' && s.get_char(16) == ':') {
        return None;
    }
    let y: u32 = match read4(s, 0) {
        Some(v) => v,
        None => {
            return None;
        },
    };
    let mo: u32 = match read2(s, 5) {
        Some(v) => v,
        None => {
            return None;
        },
    };
    let d: u32 = match read2(s, 8) {
        Some(v) => v,
        None => {
            return None;
        },
    };
    let h: u32 = match read2(s, 11) {
        Some(v) => v,
        None => {
            return None;
        },
    };
    let mi: u32 = match read2(s, 14) {
        Some(v) => v,
        None => {
            return None;
        },
    };
    let se: u32 = match read2(s, 17) {
        Some(v) => v,
        None => {
            return None;
        },
    };
    build_civil(y, mo, d, h, mi, se)
}

/// Parses the basic form `YYYYMMDDTHHMMSS`.
pub fn parse_basic(s: &str) -> (r: Option<Civil>)
    ensures
        r == parse_basic_spec(s@),
        r matches Some(c) ==> valid_civil(c),
{
    let n: usize = s.unicode_len();
    if n != 15 {
        return None;
    }
    if s.get_char(8) != 'T' {
        return None;
    }
    let y: u32 = match read4(s, 0) {
        Some(v) => v,
        None => {
            return None;
        },
    };
    let mo: u32 = match read2(s, 4) {
        Some(v) => v,
        None => {
            return None;
        },
    };
    let d: u32 = match read2(s, 6) {
        Some(v) => v,
        None => {
            return None;
        },
    };
    let h: u32 = match read2(s, 9) {
        Some(v) => v,
        None => {
            return None;
        },
    };
    let mi: u32 = match read2(s, 11) {
        Some(v) => v,
        None => {
            return None;
        },
    };
    let se: u32 = match read2(s, 13) {
        Some(v) => v,
        None => {
            return None;
        },
    };
    build_civil(y, mo, d, h, mi, se)
}

/// Renders the spaced form `YYYY-MM-DD HH:MM:SS`.
pub fn civil_spaced_string(c: &Civil) -> (r: String)
    requires
        valid_civil(*c),
    ensures
        r@ == fmt_spaced(*c),
{
    proof {
        reveal_strlit("-");
        reveal_strlit(" ");
        reveal_strlit(":");
    }
    let mut out: String = String::new();
    push4(&mut out, c.year as u16);
    out.append("-");
    push2(&mut out, c.month);
    out.append("-");
    push2(&mut out, c.day);
    out.append(" ");
    push2(&mut out, c.hour);
    out.append(":");
    push2(&mut out, c.minute);
    out.append(":");
    push2(&mut out, c.second);
    proof {
        assert(out@ =~= fmt_spaced(*c));
    }
    out
}

/// Formatting a valid civil value and parsing it back gives it unchanged.
pub proof fn lemma_spaced_roundtrip(c: Civil)
    requires
        valid_civil(c),
    ensures
        parse_spaced_spec(fmt_spaced(c)) == Some(c),
{
    let s: Seq<char> = fmt_spaced(c);
    lemma_fmt4_val(c.year as int);
    lemma_fmt2_val(c.month as int);
    lemma_fmt2_val(c.day as int);
    lemma_fmt2_val(c.hour as int);
    lemma_fmt2_val(c.minute as int);
    lemma_fmt2_val(c.second as int);
    assert(s.len() == 19);
    assert(s.subrange(0, 4) =~= fmt4(c.year as int));
    assert(s.subrange(5, 7) =~= fmt2(c.month as int));
    assert(s.subrange(8, 10) =~= fmt2(c.day as int));
    assert(s.subrange(11, 13) =~= fmt2(c.hour as int));
    assert(s.subrange(14, 16) =~= fmt2(c.minute as int));
    assert(s.subrange(17, 19) =~= fmt2(c.second as int));
    assert(s[4] == '-' && s[7] == '-' && s[10] == ' ' && s[13] == ':' && s[16] == ':');
    assert(parse_spaced_spec(s) == Some(c));
}

/// The `+HH:MM` / `-HH:MM` rendering of an offset in seconds.
pub open spec fn offset_text(o: int) -> Seq<char> {
    let a = if o < 0 {
        -o
    } else {
        o
    };
    (if o < 0 {
        seq!['-']
    } else {
        seq!['+']
    }) + fmt2(a / 3600) + seq![':'] + fmt2(a % 3600 / 60)
}

/// The RFC 3339 rendering, to second precision, with an explicit offset.
pub open spec fn fmt_rfc3339(z: Zoned) -> Seq<char> {
    fmt4(z.civil.year as int) + seq!['-'] + fmt2(z.civil.month as int) + seq!['-'] + fmt2(
        z.civil.day as int,
    ) + seq!['T'] + fmt2(z.civil.hour as int) + seq![':'] + fmt2(z.civil.minute as int) + seq![':']
        + fmt2(z.civil.second as int) + offset_text(z.offset as int)
}

impl Zoned {
    /// This occurrence as an RFC 3339 string with second precision and an
    /// explicit `+HH:MM` offset.
    pub fn to_rfc3339(&self) -> (r: String)
        requires
            valid_zoned(*self),
        ensures
            r@ == fmt_rfc3339(*self),
    {
        proof {
            reveal_strlit("-");
            reveal_strlit("T");
            reveal_strlit(":");
            reveal_strlit("+");
        }
        let c: &Civil = &self.civil;
        let mut out: String = String::new();
        push4(&mut out, c.year as u16);
        out.append("-");
        push2(&mut out, c.month);
        out.append("-");
        push2(&mut out, c.day);
        out.append("T");
        push2(&mut out, c.hour);
        out.append(":");
        push2(&mut out, c.minute);
        out.append(":");
        push2(&mut out, c.second);
        let a: i32 = if self.offset < 0 {
            -self.offset
        } else {
            self.offset
        };
        if self.offset < 0 {
            out.append("-");
        } else {
            out.append("+");
        }
        push2(&mut out, (a / 3600) as u8);
        out.append(":");
        push2(&mut out, (a % 3600 / 60) as u8);
        proof {
            assert(out@ =~= fmt_rfc3339(*self));
        }
        out
    }

    /// This occurrence's wall-clock reading as `YYYY-MM-DD HH:MM:SS`.
    pub fn naive_string(&self) -> (r: String)
        requires
            valid_zoned(*self),
        ensures
            r@ == fmt_spaced(self.civil),
    {
        civil_spaced_string(&self.civil)
    }
}

} // verus!
