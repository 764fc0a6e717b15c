//! The rule record: raw clause values as the parser stored them, plus the
//! range validator over the `BY*` fields and the timezone id.
use vstd::prelude::*;

use crate::textnum::parse_u32_spec;
use crate::textnum::parse_u32;
use crate::tz::{zone_known, tz_zone_exists};

verus! {

/// A recurrence rule, immutable after construction: every field holds the
/// raw clause text (split on `,` for the `BY*` lists), so a rule
/// serializes back to what was parsed.
#[derive(Debug, PartialEq)]
pub struct RRule {
    pub tzid: String,
    pub dtstart: String,
    pub until: String,
    pub frequency: String,
    pub count: String,
    pub interval: String,
    pub wkst: String,
    pub by_month: Vec<String>,
    pub by_hour: Vec<String>,
    pub by_minute: Vec<String>,
    pub by_second: Vec<String>,
    pub by_day: Vec<String>,
    pub by_month_day: Vec<String>,
    pub by_year_day: Vec<String>,
}

/// The mathematical shape of a rule: its fields as character sequences.
#[verifier::ext_equal]
pub struct RuleView {
    pub tzid: Seq<char>,
    pub dtstart: Seq<char>,
    pub until: Seq<char>,
    pub frequency: Seq<char>,
    pub count: Seq<char>,
    pub interval: Seq<char>,
    pub wkst: Seq<char>,
    pub by_month: Seq<Seq<char>>,
    pub by_hour: Seq<Seq<char>>,
    pub by_minute: Seq<Seq<char>>,
    pub by_second: Seq<Seq<char>>,
    pub by_day: Seq<Seq<char>>,
    pub by_month_day: Seq<Seq<char>>,
    pub by_year_day: Seq<Seq<char>>,
}

impl View for RRule {
    type V = RuleView;

    open spec fn view(&self) -> RuleView {
        RuleView {
            tzid: self.tzid@,
            dtstart: self.dtstart@,
            until: self.until@,
            frequency: self.frequency@,
            count: self.count@,
            interval: self.interval@,
            wkst: self.wkst@,
            by_month: self.by_month.deep_view(),
            by_hour: self.by_hour.deep_view(),
            by_minute: self.by_minute.deep_view(),
            by_second: self.by_second.deep_view(),
            by_day: self.by_day.deep_view(),
            by_month_day: self.by_month_day.deep_view(),
            by_year_day: self.by_year_day.deep_view(),
        }
    }
}

/// The view of a rule with every field empty.
pub open spec fn empty_rule_view() -> RuleView {
    RuleView {
        tzid: Seq::empty(),
        dtstart: Seq::empty(),
        until: Seq::empty(),
        frequency: Seq::empty(),
        count: Seq::empty(),
        interval: Seq::empty(),
        wkst: Seq::empty(),
        by_month: Seq::empty(),
        by_hour: Seq::empty(),
        by_minute: Seq::empty(),
        by_second: Seq::empty(),
        by_day: Seq::empty(),
        by_month_day: Seq::empty(),
        by_year_day: Seq::empty(),
    }
}

impl RRule {
    /// A rule with every field empty.
    pub fn new() -> (r: RRule)
        ensures
            r@ == empty_rule_view(),
    {
        let r = RRule {
            tzid: String::new(),
            dtstart: String::new(),
            until: String::new(),
            frequency: String::new(),
            count: String::new(),
            interval: String::new(),
            wkst: String::new(),
            by_month: Vec::new(),
            by_hour: Vec::new(),
            by_minute: Vec::new(),
            by_second: Vec::new(),
            by_day: Vec::new(),
            by_month_day: Vec::new(),
            by_year_day: Vec::new(),
        };
        proof {
            assert(r.by_month.deep_view() =~= Seq::<Seq<char>>::empty());
            assert(r.by_hour.deep_view() =~= Seq::<Seq<char>>::empty());
            assert(r.by_minute.deep_view() =~= Seq::<Seq<char>>::empty());
            assert(r.by_second.deep_view() =~= Seq::<Seq<char>>::empty());
            assert(r.by_day.deep_view() =~= Seq::<Seq<char>>::empty());
            assert(r.by_month_day.deep_view() =~= Seq::<Seq<char>>::empty());
            assert(r.by_year_day.deep_view() =~= Seq::<Seq<char>>::empty());
        }
        r
    }

    /// A rule built from the given field values.
    pub fn new_rrule(
        tzid: String,
        dtstart: String,
        until: String,
        frequency: String,
        count: String,
        interval: String,
        wkst: String,
        by_month: Vec<String>,
        by_hour: Vec<String>,
        by_minute: Vec<String>,
        by_second: Vec<String>,
        by_day: Vec<String>,
        by_month_day: Vec<String>,
        by_year_day: Vec<String>,
    ) -> (r: RRule)
        ensures
            r@.tzid == tzid@,
            r@.dtstart == dtstart@,
            r@.until == until@,
            r@.frequency == frequency@,
            r@.count == count@,
            r@.interval == interval@,
            r@.wkst == wkst@,
            r@.by_month == by_month.deep_view(),
            r@.by_hour == by_hour.deep_view(),
            r@.by_minute == by_minute.deep_view(),
            r@.by_second == by_second.deep_view(),
            r@.by_day == by_day.deep_view(),
            r@.by_month_day == by_month_day.deep_view(),
            r@.by_year_day == by_year_day.deep_view(),
    {
        RRule {
            tzid,
            dtstart,
            until,
            frequency,
            count,
            interval,
            wkst,
            by_month,
            by_hour,
            by_minute,
            by_second,
            by_day,
            by_month_day,
            by_year_day,
        }
    }
}

/// The rule's `BY*` values fell outside their ranges or its timezone id is
/// unknown; the message lists every failure.
#[derive(Debug, Clone)]
pub struct RuleValidationError {
    pub validation_error_string: String,
}

impl RuleValidationError {
    /// The human-readable list of failures.
    pub fn message(&self) -> (r: &String)
        ensures
            r@ == self.validation_error_string@,
    {
        &self.validation_error_string
    }
}

/// The input did not match the rule grammar, a date literal could not be
/// interpreted, or validation failed after parsing.
#[derive(Debug, Clone)]
pub struct RuleParseError;

/// Every element parses as a number within `lo ..= hi`.
pub open spec fn values_in_range(v: Seq<Seq<char>>, lo: u32, hi: u32) -> bool {
    forall|i: int|
        0 <= i < v.len() ==> (match parse_u32_spec(#[trigger] v[i]) {
            Some(x) => lo <= x <= hi,
            None => false,
        })
}

/// Whether a rule passes every range check and its timezone id resolves.
pub open spec fn rule_valid_spec(r: RuleView) -> bool {
    &&& values_in_range(r.by_hour, 0, 23)
    &&& values_in_range(r.by_minute, 0, 59)
    &&& values_in_range(r.by_second, 0, 60)
    &&& values_in_range(r.by_month_day, 1, 31)
    &&& values_in_range(r.by_month, 1, 12)
    &&& values_in_range(r.by_year_day, 1, 366)
    &&& (r.tzid.len() == 0 || zone_known(r.tzid))
}

/// `"x"` for each element, the list joined with `", "`.
pub open spec fn quoted_items(v: Seq<Seq<char>>) -> Seq<char>
    decreases v.len(),
{
    if v.len() == 0 {
        Seq::empty()
    } else if v.len() == 1 {
        seq!['"'] + v[0] + seq!['"']
    } else {
        quoted_items(v.drop_last()) + seq![',', ' ', '"'] + v.last() + seq!['"']
    }
}

/// The rendering of a list of values in a failure message.
pub open spec fn shown_list(v: Seq<Seq<char>>) -> Seq<char> {
    seq!['['] + quoted_items(v) + seq![']']
}

/// The message for one failed check: the sentence and the offending values.
pub open spec fn failure_part(ok: bool, sentence: Seq<char>, values: Seq<Seq<char>>) -> Seq<char> {
    if ok {
        Seq::empty()
    } else {
        sentence + shown_list(values)
    }
}

/// The message for a failed timezone check.
pub open spec fn tz_failure_part(r: RuleView) -> Seq<char> {
    if r.tzid.len() == 0 || zone_known(r.tzid) {
        Seq::empty()
    } else {
        "Timezone ID: \""@ + r.tzid + "\" is not recognised, please try an IANA recognised tzid"@
    }
}

/// The failure message of a rule: one sentence per failed check, in check
/// order, each showing the offending values verbatim.
pub open spec fn validation_message(r: RuleView) -> Seq<char> {
    failure_part(
        values_in_range(r.by_hour, 0, 23),
        "BYHOUR can only be in range 0-23 | Provided value "@,
        r.by_hour,
    ) + failure_part(
        values_in_range(r.by_minute, 0, 59),
        "BYMINUTE can only be in range 0-59 | Provided value "@,
        r.by_minute,
    ) + failure_part(
        values_in_range(r.by_second, 0, 60),
        "BYSECOND can only be in range 0-60 | Provided value "@,
        r.by_second,
    ) + failure_part(
        values_in_range(r.by_month_day, 1, 31),
        "BYMONTHDAY can only be in range 1-31 | Provided value "@,
        r.by_month_day,
    ) + failure_part(
        values_in_range(r.by_month, 1, 12),
        "BYMONTH can only be in range 1-12 | Provided value "@,
        r.by_month,
    ) + failure_part(
        values_in_range(r.by_year_day, 1, 366),
        "BYYEARDAY can only be in range 1-366 | Provided value "@,
        r.by_year_day,
    ) + tz_failure_part(r)
}

/// Whether every element of `v` parses as a number within `lo ..= hi`.
fn check_range(v: &Vec<String>, lo: u32, hi: u32) -> (r: bool)
    ensures
        r == values_in_range(v.deep_view(), lo, hi),
{
    let mut i: usize = 0;
    while i < v.len()
        invariant
            0 <= i <= v.len(),
            v.deep_view().len() == v.len(),
            forall|j: int|
                0 <= j < i ==> (match parse_u32_spec(#[trigger] v.deep_view()[j]) {
                    Some(x) => lo <= x <= hi,
                    None => false,
                }),
        decreases v.len() - i,
    {
        proof {
            assert(v.deep_view()[i as int] == v@[i as int]@);
        }
        match parse_u32(v[i].as_str()) {
            Some(x) => {
                if x < lo || x > hi {
                    return false;
                }
            },
            None => {
                return false;
            },
        }
        i = i + 1;
    }
    true
}

/// Appends `["a", "b", ...]` for the values in `v`.
fn push_shown_list(out: &mut String, v: &Vec<String>)
    ensures
        final (out)@ == old(out)@ + shown_list(v.deep_view()),
{
    proof {
        reveal_strlit("[");
    }
    out.append("[");
    let mut i: usize = 0;
    proof {
        assert(quoted_items(v.deep_view().take(0)) =~= Seq::<char>::empty());
        assert(out@ =~= old(out)@ + seq!['['] + quoted_items(v.deep_view().take(0)));
    }
    while i < v.len()
        invariant
            0 <= i <= v.len(),
            v.deep_view().len() == v.len(),
            out@ == old(out)@ + seq!['['] + quoted_items(v.deep_view().take(i as int)),
        decreases v.len() - i,
    {
        proof {
            assert(v.deep_view()[i as int] == v@[i as int]@);
            reveal_strlit("[");
            reveal_strlit("\"");
            reveal_strlit(", \"");
        }
        if i == 0 {
            out.append("\"");
        } else {
            out.append(", \"");
        }
        out.append(v[i].as_str());
        out.append("\"");
        proof {
            let dv: Seq<Seq<char>> = v.deep_view();
            if i == 0 {
                assert(quoted_items(dv.take(1)) =~= seq!['"'] + dv[0] + seq!['"']);
            } else {
                assert(dv.take(i as int + 1).drop_last() =~= dv.take(i as int));
                assert(dv.take(i as int + 1).last() == dv[i as int]);
            }
            assert(out@ =~= old(out)@ + seq!['['] + quoted_items(dv.take(i as int + 1)));
        }
        i = i + 1;
    }
    out.append("]");
    proof {
        assert(v.deep_view().take(v.deep_view().len() as int) =~= v.deep_view());
        reveal_strlit("[");
        reveal_strlit("]");
        assert(final (out)@ =~= old(out)@ + shown_list(v.deep_view()));
    }
}

/// Checks every `BY*` range and the timezone id; `Ok` exactly when all
/// pass, otherwise an error carrying the message that lists each failure.
#[verifier::rlimit(60)]
pub fn validate_rrule(rrule: &RRule) -> (r: Result<(), RuleValidationError>)
    ensures
        (r matches Ok(_)) <==> rule_valid_spec(rrule@),
        r matches Err(e) ==> e.validation_error_string@ == validation_message(rrule@),
{
    let ghost rv: RuleView = rrule@;
    let mut error_string: String = String::new();

    let ok_hour: bool = check_range(&rrule.by_hour, 0, 23);
    if !ok_hour {
        error_string.append("BYHOUR can only be in range 0-23 | Provided value ");
        push_shown_list(&mut error_string, &rrule.by_hour);
    }
    let ghost m1: Seq<char> = failure_part(
        values_in_range(rv.by_hour, 0, 23),
        "BYHOUR can only be in range 0-23 | Provided value "@,
        rv.by_hour,
    );
    proof {
        assert(error_string@ =~= m1);
    }

    let ok_minute: bool = check_range(&rrule.by_minute, 0, 59);
    if !ok_minute {
        error_string.append("BYMINUTE can only be in range 0-59 | Provided value ");
        push_shown_list(&mut error_string, &rrule.by_minute);
    }
    let ghost m2: Seq<char> = m1 + failure_part(
        values_in_range(rv.by_minute, 0, 59),
        "BYMINUTE can only be in range 0-59 | Provided value "@,
        rv.by_minute,
    );
    proof {
        assert(error_string@ =~= m2);
    }

    let ok_second: bool = check_range(&rrule.by_second, 0, 60);
    if !ok_second {
        error_string.append("BYSECOND can only be in range 0-60 | Provided value ");
        push_shown_list(&mut error_string, &rrule.by_second);
    }
    let ghost m3: Seq<char> = m2 + failure_part(
        values_in_range(rv.by_second, 0, 60),
        "BYSECOND can only be in range 0-60 | Provided value "@,
        rv.by_second,
    );
    proof {
        assert(error_string@ =~= m3);
    }

    let ok_month_day: bool = check_range(&rrule.by_month_day, 1, 31);
    if !ok_month_day {
        error_string.append("BYMONTHDAY can only be in range 1-31 | Provided value ");
        push_shown_list(&mut error_string, &rrule.by_month_day);
    }
    let ghost m4: Seq<char> = m3 + failure_part(
        values_in_range(rv.by_month_day, 1, 31),
        "BYMONTHDAY can only be in range 1-31 | Provided value "@,
        rv.by_month_day,
    );
    proof {
        assert(error_string@ =~= m4);
    }

    let ok_month: bool = check_range(&rrule.by_month, 1, 12);
    if !ok_month {
        error_string.append("BYMONTH can only be in range 1-12 | Provided value ");
        push_shown_list(&mut error_string, &rrule.by_month);
    }
    let ghost m5: Seq<char> = m4 + failure_part(
        values_in_range(rv.by_month, 1, 12),
        "BYMONTH can only be in range 1-12 | Provided value "@,
        rv.by_month,
    );
    proof {
        assert(error_string@ =~= m5);
    }

    let ok_year_day: bool = check_range(&rrule.by_year_day, 1, 366);
    if !ok_year_day {
        error_string.append("BYYEARDAY can only be in range 1-366 | Provided value ");
        push_shown_list(&mut error_string, &rrule.by_year_day);
    }
    let ghost m6: Seq<char> = m5 + failure_part(
        values_in_range(rv.by_year_day, 1, 366),
        "BYYEARDAY can only be in range 1-366 | Provided value "@,
        rv.by_year_day,
    );
    proof {
        assert(error_string@ =~= m6);
    }

    let tz_ok: bool = rrule.tzid.as_str().is_empty() || tz_zone_exists(rrule.tzid.as_str());
    if !tz_ok {
        error_string.append("Timezone ID: \"");
        error_string.append(rrule.tzid.as_str());
        error_string.append("\" is not recognised, please try an IANA recognised tzid");
    }
    proof {
        assert(error_string@ =~= m6 + tz_failure_part(rv));
        assert(error_string@ =~= validation_message(rv));
    }

    if ok_hour && ok_minute && ok_second && ok_month_day && ok_month && ok_year_day && tz_ok {
        Ok(())
    } else {
        Err(RuleValidationError { validation_error_string: error_string })
    }
}

} // verus!
