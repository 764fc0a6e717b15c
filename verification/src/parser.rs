//! The rule-text parser: splits `;`-separated clauses, interprets the
//! recognized clause names, normalizes anchor datetimes into their stored
//! spaced form, and validates the result.
use vstd::prelude::*;

use crate::civil::time_index;
use crate::format::{fmt_spaced, parse_basic, parse_basic_spec, civil_spaced_string};
use crate::rule::{RRule, RuleView, RuleParseError, empty_rule_view, rule_valid_spec, validate_rrule};
use crate::tz::{local_single_offset, zone_abbrev, tz_abbreviation};

verus! {

/// Whether `p` is a prefix of `s`.
pub open spec fn sw(s: Seq<char>, p: Seq<char>) -> bool {
    p.len() <= s.len() && s.take(p.len() as int) == p
}

/// Splitting `t` at `sep`, with `cur` the piece read so far: every
/// separator ends a piece, so `n` separators give `n + 1` pieces.
pub open spec fn split_acc(t: Seq<char>, cur: Seq<char>, sep: char) -> Seq<Seq<char>>
    decreases t.len(),
{
    if t.len() == 0 {
        seq![cur]
    } else if t[0] == sep {
        seq![cur] + split_acc(t.skip(1), Seq::empty(), sep)
    } else {
        split_acc(t.skip(1), cur.push(t[0]), sep)
    }
}

/// The pieces of `s` split at `sep`.
pub open spec fn split_spec(s: Seq<char>, sep: char) -> Seq<Seq<char>> {
    split_acc(s, Seq::empty(), sep)
}

/// Splits `s` at every occurrence of `sep`.
pub fn split_char(s: &str, sep: char) -> (r: Vec<String>)
    ensures
        r.deep_view() == split_spec(s@, sep),
{
    let n: usize = s.unicode_len();
    let mut out: Vec<String> = Vec::new();
    let mut p: usize = 0;
    let mut i: usize = 0;
    proof {
        assert(out.deep_view() =~= Seq::<Seq<char>>::empty());
        assert(s@.skip(0) =~= s@);
        assert(s@.subrange(0, 0) =~= Seq::<char>::empty());
        assert(split_spec(s@, sep) =~= out.deep_view() + split_acc(
            s@.skip(0),
            s@.subrange(0, 0),
            sep,
        ));
    }
    while i < n
        invariant
            0 <= p <= i <= n,
            n == s@.len(),
            n <= usize::MAX,
            split_spec(s@, sep) == out.deep_view() + split_acc(
                s@.skip(i as int),
                s@.subrange(p as int, i as int),
                sep,
            ),
        decreases n - i,
    {
        let ghost t: Seq<char> = s@.skip(i as int);
        let ghost cur: Seq<char> = s@.subrange(p as int, i as int);
        let c: char = s.get_char(i);
        proof {
            assert(t[0] == s@[i as int]);
            assert(t.skip(1) =~= s@.skip(i as int + 1));
        }
        if c == sep {
            let ghost dv0: Seq<Seq<char>> = out.deep_view();
            let piece: String = s.substring_char(p, i).to_owned();
            out.push(piece);
            p = i + 1;
            proof {
                assert(out.deep_view() =~= dv0 + seq![cur]);
                assert(s@.subrange(p as int, i as int + 1) =~= Seq::<char>::empty());
            }
        } else {
            proof {
                assert(cur.push(t[0]) =~= s@.subrange(p as int, i as int + 1));
            }
        }
        i = i + 1;
    }
    let ghost dv1: Seq<Seq<char>> = out.deep_view();
    let last: String = s.substring_char(p, n).to_owned();
    out.push(last);
    proof {
        assert(s@.skip(n as int).len() == 0);
        assert(out.deep_view() =~= dv1 + seq![s@.subrange(p as int, n as int)]);
        assert(out.deep_view() =~= split_spec(s@, sep));
    }
    out
}

/// Whether two strings hold the same characters.
pub fn str_eq_lit(s: &str, lit: &str) -> (r: bool)
    ensures
        r == (s@ == lit@),
{
    let n: usize = s.unicode_len();
    let m: usize = lit.unicode_len();
    if n != m {
        return false;
    }
    let mut j: usize = 0;
    while j < n
        invariant
            0 <= j <= n,
            n == s@.len(),
            n == lit@.len(),
            forall|k: int| 0 <= k < j ==> s@[k] == lit@[k],
        decreases n - j,
    {
        if s.get_char(j) != lit.get_char(j) {
            return false;
        }
        j = j + 1;
    }
    proof {
        assert(s@ =~= lit@);
    }
    true
}

/// Whether `p` is a prefix of `s`.
pub fn starts_with_lit(s: &str, p: &str) -> (r: bool)
    ensures
        r == sw(s@, p@),
{
    let n: usize = s.unicode_len();
    let m: usize = p.unicode_len();
    if n < m {
        return false;
    }
    let mut j: usize = 0;
    while j < m
        invariant
            0 <= j <= m <= n,
            n == s@.len(),
            m == p@.len(),
            forall|k: int| 0 <= k < j ==> s@[k] == p@[k],
        decreases m - j,
    {
        if s.get_char(j) != p.get_char(j) {
            proof {
                assert(s@.take(m as int)[j as int] != p@[j as int]);
            }
            return false;
        }
        j = j + 1;
    }
    proof {
        assert(s@.take(m as int) =~= p@);
    }
    true
}

/// The characters of `s` from position `k` on, as an owned string.
pub fn tail_from(s: &str, k: usize) -> (r: String)
    requires
        k <= s@.len(),
    ensures
        r@ == s@.skip(k as int),
{
    let n: usize = s.unicode_len();
    let r: String = s.substring_char(k, n).to_owned();
    proof {
        assert(s@.subrange(k as int, n as int) =~= s@.skip(k as int));
    }
    r
}

/// Whether the string holds a `Z` anywhere.
pub open spec fn contains_z_spec(s: Seq<char>) -> bool {
    exists|i: int| 0 <= i < s.len() && s[i] == 'Z'
}

fn contains_z(s: &str) -> (r: bool)
    ensures
        r == contains_z_spec(s@),
{
    let n: usize = s.unicode_len();
    let mut j: usize = 0;
    while j < n
        invariant
            0 <= j <= n,
            n == s@.len(),
            forall|k: int| 0 <= k < j ==> s@[k] != 'Z',
        decreases n - j,
    {
        if s.get_char(j) == 'Z' {
            return true;
        }
        j = j + 1;
    }
    false
}

/// The stored spaced form of a `DTSTART`/`UNTIL` datetime literal: the
/// basic form, or the basic form with a trailing `Z`, both stored naive.
pub open spec fn naive_stored_spec(text: Seq<char>) -> Option<Seq<char>> {
    if contains_z_spec(text) {
        if text.len() == 16 && text[15] == 'Z' {
            match parse_basic_spec(text.take(15)) {
                Some(c) => Some(fmt_spaced(c)),
                None => None,
            }
        } else {
            None
        }
    } else {
        match parse_basic_spec(text) {
            Some(c) => Some(fmt_spaced(c)),
            None => None,
        }
    }
}

fn naive_stored(text: &str) -> (r: Option<String>)
    ensures
        match r {
            Some(st) => naive_stored_spec(text@) == Some(st@),
            None => naive_stored_spec(text@) is None,
        },
{
    let n: usize = text.unicode_len();
    if contains_z(text) {
        if n == 16 && text.get_char(15) == 'Z' {
            match parse_basic(text.substring_char(0, 15)) {
                Some(c) => {
                    proof {
                        assert(text@.subrange(0, 15) =~= text@.take(15));
                    }
                    Some(civil_spaced_string(&c))
                },
                None => None,
            }
        } else {
            None
        }
    } else {
        match parse_basic(text) {
            Some(c) => Some(civil_spaced_string(&c)),
            None => None,
        }
    }
}

/// Interpreting a `DTSTART;TZID=` clause body (`Zone:datetime`): parse the
/// local civil datetime, resolve it in the zone, and store it in spaced
/// form followed by the zone's offset name. The first `DTSTART` wins.
pub open spec fn dtstart_tz_spec(content: Seq<char>, acc: RuleView) -> Option<RuleView> {
    if acc.dtstart.len() != 0 {
        Some(acc)
    } else {
        let parts = split_spec(content, ':');
        if parts.len() <= 1 {
            None
        } else {
            match parse_basic_spec(parts[1]) {
                Some(c) => match local_single_offset(parts[0], time_index(c)) {
                    Some(_) => Some(
                        RuleView {
                            dtstart: fmt_spaced(c) + seq![' '] + zone_abbrev(
                                parts[0],
                                time_index(c),
                            ),
                            ..acc
                        },
                    ),
                    None => None,
                },
                None => None,
            }
        }
    }
}

/// Interpreting one plain `NAME=VALUE` clause; unknown names leave the
/// rule unchanged.
pub open spec fn interp_one(p: Seq<char>, acc: RuleView) -> Option<RuleView> {
    if sw(p, "TZID="@) {
        Some(RuleView { tzid: p.skip(5), ..acc })
    } else if sw(p, "DTSTART="@) {
        if acc.dtstart.len() != 0 {
            Some(acc)
        } else {
            match naive_stored_spec(p.skip(8)) {
                Some(st) => Some(RuleView { dtstart: st, ..acc }),
                None => None,
            }
        }
    } else if sw(p, "UNTIL="@) {
        match naive_stored_spec(p.skip(6)) {
            Some(st) => Some(RuleView { until: st, ..acc }),
            None => None,
        }
    } else if sw(p, "FREQ="@) {
        Some(RuleView { frequency: p.skip(5), ..acc })
    } else if sw(p, "INTERVAL="@) {
        Some(RuleView { interval: p.skip(9), ..acc })
    } else if sw(p, "WKST="@) {
        Some(RuleView { wkst: p.skip(5), ..acc })
    } else if sw(p, "COUNT="@) {
        Some(RuleView { count: p.skip(6), ..acc })
    } else if sw(p, "BYMONTHDAY="@) {
        Some(RuleView { by_month_day: split_spec(p.skip(11), ','), ..acc })
    } else if sw(p, "BYMONTH="@) {
        Some(RuleView { by_month: split_spec(p.skip(8), ','), ..acc })
    } else if sw(p, "BYHOUR="@) {
        Some(RuleView { by_hour: split_spec(p.skip(7), ','), ..acc })
    } else if sw(p, "BYMINUTE="@) {
        Some(RuleView { by_minute: split_spec(p.skip(9), ','), ..acc })
    } else if sw(p, "BYSECOND="@) {
        Some(RuleView { by_second: split_spec(p.skip(9), ','), ..acc })
    } else if sw(p, "BYDAY="@) {
        Some(RuleView { by_day: split_spec(p.skip(6), ','), ..acc })
    } else if sw(p, "BYYEARDAY="@) {
        Some(RuleView { by_year_day: split_spec(p.skip(10), ','), ..acc })
    } else {
        Some(acc)
    }
}

/// Interpreting a clause list left to right, merging a bare `DTSTART`
/// piece with a following `TZID=` piece as one zoned-anchor clause.
pub open spec fn interp_pieces(ps: Seq<Seq<char>>, acc: RuleView) -> Option<RuleView>
    decreases ps.len(),
{
    if ps.len() == 0 {
        Some(acc)
    } else if ps[0] == "DTSTART"@ && ps.len() >= 2 && sw(ps[1], "TZID="@) {
        match dtstart_tz_spec(ps[1].skip(5), acc) {
            Some(a) => interp_pieces(ps.skip(2), a),
            None => None,
        }
    } else {
        match interp_one(ps[0], acc) {
            Some(a) => interp_pieces(ps.skip(1), a),
            None => None,
        }
    }
}

/// What parsing a whole rule string yields, before validation.
pub open spec fn rrule_parse_spec(s: Seq<char>) -> Option<RuleView> {
    interp_pieces(split_spec(s, ';'), empty_rule_view())
}

/// Applies a zoned-anchor clause body to the rule under construction.
fn apply_dtstart_tz(rrule: &mut RRule, content: &str) -> (ok: bool)
    ensures
        ok ==> dtstart_tz_spec(content@, old(rrule)@) == Some(final (rrule)@),
        !ok ==> dtstart_tz_spec(content@, old(rrule)@) is None,
{
    if !rrule.dtstart.as_str().is_empty() {
        return true;
    }
    let parts: Vec<String> = split_char(content, ':');
    if parts.len() <= 1 {
        return false;
    }
    proof {
        assert(parts.deep_view()[0] == parts@[0]@);
        assert(parts.deep_view()[1] == parts@[1]@);
    }
    let c = match parse_basic(parts[1].as_str()) {
        Some(c) => c,
        None => {
            return false;
        },
    };
    match tz_abbreviation(parts[0].as_str(), &c) {
        Some(ab) => {
            proof {
                reveal_strlit(" ");
            }
            let mut st: String = civil_spaced_string(&c);
            st.append(" ");
            st.append(ab.as_str());
            rrule.dtstart = st;
            proof {
                assert(rrule.dtstart@ =~= fmt_spaced(c) + seq![' '] + zone_abbrev(
                    parts.deep_view()[0],
                    time_index(c),
                ));
                assert(final (rrule)@ =~= RuleView {
                    dtstart: fmt_spaced(c) + seq![' '] + zone_abbrev(
                        parts.deep_view()[0],
                        time_index(c),
                    ),
                    ..old(rrule)@
                });
            }
            true
        },
        None => false,
    }
}

/// Applies one plain clause to the rule under construction.
#[verifier::rlimit(100)]
fn apply_piece(rrule: &mut RRule, piece: &str) -> (ok: bool)
    ensures
        ok ==> interp_one(piece@, old(rrule)@) == Some(final (rrule)@),
        !ok ==> interp_one(piece@, old(rrule)@) is None,
{
    let n: usize = piece.unicode_len();
    if starts_with_lit(piece, "TZID=") {
        proof {
            reveal_strlit("TZID=");
        }
        rrule.tzid = tail_from(piece, 5);
        proof {
            assert(final (rrule)@ =~= RuleView { tzid: piece@.skip(5), ..old(rrule)@ });
        }
        true
    } else if starts_with_lit(piece, "DTSTART=") {
        proof {
            reveal_strlit("DTSTART=");
        }
        if !rrule.dtstart.as_str().is_empty() {
            return true;
        }
        match naive_stored(tail_from(piece, 8).as_str()) {
            Some(st) => {
                rrule.dtstart = st;
                proof {
                    assert(final (rrule)@ =~= RuleView {
                        dtstart: rrule.dtstart@,
                        ..old(rrule)@
                    });
                }
                true
            },
            None => false,
        }
    } else if starts_with_lit(piece, "UNTIL=") {
        proof {
            reveal_strlit("UNTIL=");
        }
        match naive_stored(tail_from(piece, 6).as_str()) {
            Some(st) => {
                rrule.until = st;
                proof {
                    assert(final (rrule)@ =~= RuleView { until: rrule.until@, ..old(rrule)@ });
                }
                true
            },
            None => false,
        }
    } else if starts_with_lit(piece, "FREQ=") {
        proof {
            reveal_strlit("FREQ=");
        }
        rrule.frequency = tail_from(piece, 5);
        proof {
            assert(final (rrule)@ =~= RuleView { frequency: piece@.skip(5), ..old(rrule)@ });
        }
        true
    } else if starts_with_lit(piece, "INTERVAL=") {
        proof {
            reveal_strlit("INTERVAL=");
        }
        rrule.interval = tail_from(piece, 9);
        proof {
            assert(final (rrule)@ =~= RuleView { interval: piece@.skip(9), ..old(rrule)@ });
        }
        true
    } else if starts_with_lit(piece, "WKST=") {
        proof {
            reveal_strlit("WKST=");
        }
        rrule.wkst = tail_from(piece, 5);
        proof {
            assert(final (rrule)@ =~= RuleView { wkst: piece@.skip(5), ..old(rrule)@ });
        }
        true
    } else if starts_with_lit(piece, "COUNT=") {
        proof {
            reveal_strlit("COUNT=");
        }
        rrule.count = tail_from(piece, 6);
        proof {
            assert(final (rrule)@ =~= RuleView { count: piece@.skip(6), ..old(rrule)@ });
        }
        true
    } else if starts_with_lit(piece, "BYMONTHDAY=") {
        proof {
            reveal_strlit("BYMONTHDAY=");
        }
        rrule.by_month_day = split_char(tail_from(piece, 11).as_str(), ',');
        proof {
            assert(final (rrule)@ =~= RuleView {
                by_month_day: split_spec(piece@.skip(11), ','),
                ..old(rrule)@
            });
        }
        true
    } else if starts_with_lit(piece, "BYMONTH=") {
        proof {
            reveal_strlit("BYMONTH=");
        }
        rrule.by_month = split_char(tail_from(piece, 8).as_str(), ',');
        proof {
            assert(final (rrule)@ =~= RuleView {
                by_month: split_spec(piece@.skip(8), ','),
                ..old(rrule)@
            });
        }
        true
    } else if starts_with_lit(piece, "BYHOUR=") {
        proof {
            reveal_strlit("BYHOUR=");
        }
        rrule.by_hour = split_char(tail_from(piece, 7).as_str(), ',');
        proof {
            assert(final (rrule)@ =~= RuleView {
                by_hour: split_spec(piece@.skip(7), ','),
                ..old(rrule)@
            });
        }
        true
    } else if starts_with_lit(piece, "BYMINUTE=") {
        proof {
            reveal_strlit("BYMINUTE=");
        }
        rrule.by_minute = split_char(tail_from(piece, 9).as_str(), ',');
        proof {
            assert(final (rrule)@ =~= RuleView {
                by_minute: split_spec(piece@.skip(9), ','),
                ..old(rrule)@
            });
        }
        true
    } else if starts_with_lit(piece, "BYSECOND=") {
        proof {
            reveal_strlit("BYSECOND=");
        }
        rrule.by_second = split_char(tail_from(piece, 9).as_str(), ',');
        proof {
            assert(final (rrule)@ =~= RuleView {
                by_second: split_spec(piece@.skip(9), ','),
                ..old(rrule)@
            });
        }
        true
    } else if starts_with_lit(piece, "BYDAY=") {
        proof {
            reveal_strlit("BYDAY=");
        }
        rrule.by_day = split_char(tail_from(piece, 6).as_str(), ',');
        proof {
            assert(final (rrule)@ =~= RuleView {
                by_day: split_spec(piece@.skip(6), ','),
                ..old(rrule)@
            });
        }
        true
    } else if starts_with_lit(piece, "BYYEARDAY=") {
        proof {
            reveal_strlit("BYYEARDAY=");
        }
        rrule.by_year_day = split_char(tail_from(piece, 10).as_str(), ',');
        proof {
            assert(final (rrule)@ =~= RuleView {
                by_year_day: split_spec(piece@.skip(10), ','),
                ..old(rrule)@
            });
        }
        true
    } else {
        true
    }
}

/// Parses a rule string into a validated rule: clauses in any order, later
/// duplicates of `DTSTART` ignored, unknown clause names skipped; fails
/// when the grammar, a datetime literal, a zone resolution, or validation
/// fails.
pub fn convert_to_rrule(rrule_string: &str) -> (r: Result<RRule, RuleParseError>)
    ensures
        match rrule_parse_spec(rrule_string@) {
            Some(rv) => if rule_valid_spec(rv) {
                r matches Ok(rule) && rule@ == rv
            } else {
                r matches Err(_)
            },
            None => r matches Err(_),
        },
{
    let pieces: Vec<String> = split_char(rrule_string, ';');
    let mut rrule: RRule = RRule::new();
    let mut i: usize = 0;
    proof {
        assert(pieces.deep_view().skip(0) =~= pieces.deep_view());
    }
    while i < pieces.len()
        invariant
            0 <= i <= pieces.len(),
            pieces.deep_view().len() == pieces.len(),
            rrule_parse_spec(rrule_string@) == interp_pieces(
                pieces.deep_view().skip(i as int),
                rrule@,
            ),
        decreases pieces.len() - i,
    {
        let ghost ps: Seq<Seq<char>> = pieces.deep_view().skip(i as int);
        proof {
            assert(ps[0] == pieces.deep_view()[i as int]);
            assert(pieces.deep_view()[i as int] == pieces@[i as int]@);
            if i + 1 < pieces.len() {
                assert(ps[1] == pieces.deep_view()[i as int + 1]);
                assert(pieces.deep_view()[i as int + 1] == pieces@[i as int + 1]@);
            }
            reveal_strlit("TZID=");
        }
        if i + 1 < pieces.len() && str_eq_lit(pieces[i].as_str(), "DTSTART") && starts_with_lit(
            pieces[i + 1].as_str(),
            "TZID=",
        ) {
            let content: String = tail_from(pieces[i + 1].as_str(), 5);
            if !apply_dtstart_tz(&mut rrule, content.as_str()) {
                return Err(RuleParseError);
            }
            proof {
                assert(ps.skip(2) =~= pieces.deep_view().skip(i as int + 2));
            }
            i = i + 2;
        } else {
            if !apply_piece(&mut rrule, pieces[i].as_str()) {
                return Err(RuleParseError);
            }
            proof {
                assert(ps.skip(1) =~= pieces.deep_view().skip(i as int + 1));
            }
            i = i + 1;
        }
    }
    proof {
        assert(pieces.deep_view().skip(pieces.len() as int).len() == 0);
    }
    match validate_rrule(&rrule) {
        Ok(_) => Ok(rrule),
        Err(_) => Err(RuleParseError),
    }
}

} // verus!
