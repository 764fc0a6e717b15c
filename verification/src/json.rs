//! The JSON form of a rule: a flat object with camelCase keys in field
//! order, empty fields omitted, values emitted verbatim; and a reader for
//! exactly that canonical form.
use vstd::prelude::*;

use crate::rule::{empty_rule_view, RRule, RuleView, RuleParseError};
use crate::parser::{split_char, split_spec, str_eq_lit};

verus! {

/// `"key":"value"` for a string field.
pub open spec fn str_part(key: Seq<char>, val: Seq<char>) -> Seq<char> {
    seq!['"'] + key + seq!['"', ':', '"'] + val + seq!['"']
}

/// The array items, each quoted, joined with commas.
pub open spec fn json_items(v: Seq<Seq<char>>) -> Seq<char>
    decreases v.len(),
{
    if v.len() == 0 {
        Seq::empty()
    } else if v.len() == 1 {
        seq!['"'] + v[0] + seq!['"']
    } else {
        json_items(v.drop_last()) + seq![',', '"'] + v.last() + seq!['"']
    }
}

/// `"key":["a","b"]` for a list field.
pub open spec fn list_part(key: Seq<char>, items: Seq<Seq<char>>) -> Seq<char> {
    seq!['"'] + key + seq!['"', ':', '['] + json_items(items) + seq![']']
}

/// One entry per non-empty field, in declaration order.
pub open spec fn parts_of(r: RuleView) -> Seq<Seq<char>> {
    (if r.tzid.len() > 0 {
        seq![str_part("tzid"@, r.tzid)]
    } else {
        Seq::empty()
    }) + (if r.dtstart.len() > 0 {
        seq![str_part("dtstart"@, r.dtstart)]
    } else {
        Seq::empty()
    }) + (if r.until.len() > 0 {
        seq![str_part("until"@, r.until)]
    } else {
        Seq::empty()
    }) + (if r.frequency.len() > 0 {
        seq![str_part("frequency"@, r.frequency)]
    } else {
        Seq::empty()
    }) + (if r.count.len() > 0 {
        seq![str_part("count"@, r.count)]
    } else {
        Seq::empty()
    }) + (if r.interval.len() > 0 {
        seq![str_part("interval"@, r.interval)]
    } else {
        Seq::empty()
    }) + (if r.wkst.len() > 0 {
        seq![str_part("wkst"@, r.wkst)]
    } else {
        Seq::empty()
    }) + (if r.by_month.len() > 0 {
        seq![list_part("byMonth"@, r.by_month)]
    } else {
        Seq::empty()
    }) + (if r.by_hour.len() > 0 {
        seq![list_part("byHour"@, r.by_hour)]
    } else {
        Seq::empty()
    }) + (if r.by_minute.len() > 0 {
        seq![list_part("byMinute"@, r.by_minute)]
    } else {
        Seq::empty()
    }) + (if r.by_second.len() > 0 {
        seq![list_part("bySecond"@, r.by_second)]
    } else {
        Seq::empty()
    }) + (if r.by_day.len() > 0 {
        seq![list_part("byDay"@, r.by_day)]
    } else {
        Seq::empty()
    }) + (if r.by_month_day.len() > 0 {
        seq![list_part("byMonthDay"@, r.by_month_day)]
    } else {
        Seq::empty()
    }) + (if r.by_year_day.len() > 0 {
        seq![list_part("byYearDay"@, r.by_year_day)]
    } else {
        Seq::empty()
    })
}

/// The entries joined with commas.
pub open spec fn joinc(v: Seq<Seq<char>>) -> Seq<char>
    decreases v.len(),
{
    if v.len() == 0 {
        Seq::empty()
    } else if v.len() == 1 {
        v[0]
    } else {
        joinc(v.drop_last()) + seq![','] + v.last()
    }
}

/// The canonical JSON rendering of a rule.
pub open spec fn json_of(r: RuleView) -> Seq<char> {
    seq!['{'] + joinc(parts_of(r)) + seq!['}']
}

proof fn lemma_joinc_push(ps: Seq<Seq<char>>, p: Seq<char>)
    ensures
        joinc(ps.push(p)) == if ps.len() == 0 {
            p
        } else {
            joinc(ps) + seq![','] + p
        },
{
    assert(ps.push(p).drop_last() =~= ps);
    assert(ps.push(p).last() == p);
    if ps.len() == 0 {
        assert(ps.push(p)[0] == p);
    }
}

/// Appends `"key":"val"`.
fn push_str_part(out: &mut String, key: &str, val: &str)
    ensures
        final (out)@ == old(out)@ + str_part(key@, val@),
{
    proof {
        reveal_strlit("\"");
        reveal_strlit("\":\"");
    }
    out.append("\"");
    out.append(key);
    out.append("\":\"");
    out.append(val);
    out.append("\"");
    proof {
        assert(final (out)@ =~= old(out)@ + str_part(key@, val@));
    }
}

/// Appends `"key":["a","b"]`.
fn push_list_part(out: &mut String, key: &str, items: &Vec<String>)
    ensures
        final (out)@ == old(out)@ + list_part(key@, items.deep_view()),
{
    proof {
        reveal_strlit("\"");
        reveal_strlit("\":[");
        reveal_strlit(",\"");
        reveal_strlit("]");
    }
    out.append("\"");
    out.append(key);
    out.append("\":[");
    let ghost base: Seq<char> = out@;
    let mut i: usize = 0;
    proof {
        assert(json_items(items.deep_view().take(0)) =~= Seq::<char>::empty());
        assert(out@ =~= base + json_items(items.deep_view().take(0)));
    }
    while i < items.len()
        invariant
            0 <= i <= items.len(),
            items.deep_view().len() == items.len(),
            out@ == base + json_items(items.deep_view().take(i as int)),
        decreases items.len() - i,
    {
        proof {
            assert(items.deep_view()[i as int] == items@[i as int]@);
        }
        if i == 0 {
            out.append("\"");
        } else {
            out.append(",\"");
        }
        out.append(items[i].as_str());
        out.append("\"");
        proof {
            reveal_strlit("\"");
            reveal_strlit(",\"");
            let dv: Seq<Seq<char>> = items.deep_view();
            if i == 0 {
                assert(json_items(dv.take(1)) =~= seq!['"'] + dv[0] + seq!['"']);
            } else {
                assert(dv.take(i as int + 1).drop_last() =~= dv.take(i as int));
                assert(dv.take(i as int + 1).last() == dv[i as int]);
            }
            assert(out@ =~= base + json_items(dv.take(i as int + 1)));
        }
        i = i + 1;
    }
    out.append("]");
    proof {
        assert(items.deep_view().take(items.deep_view().len() as int) =~= items.deep_view());
        assert(final (out)@ =~= old(out)@ + list_part(key@, items.deep_view()));
    }
}

/// Appends the rendered entry for a string field, when it is non-empty.
fn add_str_part(parts: &mut Vec<String>, key: &str, val: &str)
    ensures
        val@.len() == 0 ==> final (parts).deep_view() == old(parts).deep_view(),
        val@.len() > 0 ==> final (parts).deep_view() == old(parts).deep_view() + seq![
            str_part(key@, val@),
        ],
{
    if !val.is_empty() {
        let mut p: String = String::new();
        push_str_part(&mut p, key, val);
        let ghost dv0: Seq<Seq<char>> = parts.deep_view();
        parts.push(p);
        proof {
            assert(parts.deep_view() =~= dv0 + seq![str_part(key@, val@)]);
        }
    }
}

/// Appends the rendered entry for a list field, when it is non-empty.
fn add_list_part(parts: &mut Vec<String>, key: &str, items: &Vec<String>)
    ensures
        items.deep_view().len() == 0 ==> final (parts).deep_view() == old(parts).deep_view(),
        items.deep_view().len() > 0 ==> final (parts).deep_view() == old(parts).deep_view()
            + seq![list_part(key@, items.deep_view())],
{
    if items.len() > 0 {
        let mut p: String = String::new();
        push_list_part(&mut p, key, items);
        let ghost dv0: Seq<Seq<char>> = parts.deep_view();
        parts.push(p);
        proof {
            assert(parts.deep_view() =~= dv0 + seq![list_part(key@, items.deep_view())]);
        }
    }
}

/// Joins rendered entries with commas between braces.
fn join_parts(parts: &Vec<String>) -> (r: String)
    ensures
        r@ == seq!['{'] + joinc(parts.deep_view()) + seq!['}'],
{
    proof {
        reveal_strlit("{");
        reveal_strlit("}");
        reveal_strlit(",");
    }
    let mut out: String = String::new();
    out.append("{");
    let mut i: usize = 0;
    proof {
        assert(joinc(parts.deep_view().take(0)) =~= Seq::<char>::empty());
        assert(out@ =~= seq!['{'] + joinc(parts.deep_view().take(0)));
    }
    while i < parts.len()
        invariant
            0 <= i <= parts.len(),
            parts.deep_view().len() == parts.len(),
            out@ == seq!['{'] + joinc(parts.deep_view().take(i as int)),
        decreases parts.len() - i,
    {
        proof {
            reveal_strlit(",");
            assert(parts.deep_view()[i as int] == parts@[i as int]@);
        }
        if i > 0 {
            out.append(",");
        }
        out.append(parts[i].as_str());
        proof {
            let dv: Seq<Seq<char>> = parts.deep_view();
            if i == 0 {
                assert(joinc(dv.take(1)) =~= dv[0]);
            } else {
                assert(dv.take(i as int + 1).drop_last() =~= dv.take(i as int));
                assert(dv.take(i as int + 1).last() == dv[i as int]);
            }
            assert(out@ =~= seq!['{'] + joinc(dv.take(i as int + 1)));
        }
        i = i + 1;
    }
    out.append("}");
    proof {
        assert(parts.deep_view().take(parts.deep_view().len() as int) =~= parts.deep_view());
        assert(out@ =~= seq!['{'] + joinc(parts.deep_view()) + seq!['}']);
    }
    out
}

impl RRule {
    /// This rule in its canonical JSON form: camelCase keys in field
    /// order, empty fields omitted. Values are written verbatim, with no
    /// escaping: a field that holds a `"` yields text the reader will not
    /// accept. Values from the rule grammar never do.
    #[verifier::rlimit(100)]
    pub fn to_json(&self) -> (r: String)
        ensures
            r@ == json_of(self@),
    {
        let mut parts: Vec<String> = Vec::new();
        proof {
            assert(parts.deep_view() =~= Seq::<Seq<char>>::empty());
        }
        add_str_part(&mut parts, "tzid", self.tzid.as_str());
        add_str_part(&mut parts, "dtstart", self.dtstart.as_str());
        add_str_part(&mut parts, "until", self.until.as_str());
        add_str_part(&mut parts, "frequency", self.frequency.as_str());
        add_str_part(&mut parts, "count", self.count.as_str());
        add_str_part(&mut parts, "interval", self.interval.as_str());
        add_str_part(&mut parts, "wkst", self.wkst.as_str());
        add_list_part(&mut parts, "byMonth", &self.by_month);
        add_list_part(&mut parts, "byHour", &self.by_hour);
        add_list_part(&mut parts, "byMinute", &self.by_minute);
        add_list_part(&mut parts, "bySecond", &self.by_second);
        add_list_part(&mut parts, "byDay", &self.by_day);
        add_list_part(&mut parts, "byMonthDay", &self.by_month_day);
        add_list_part(&mut parts, "byYearDay", &self.by_year_day);
        proof {
            assert(parts.deep_view() =~= parts_of(self@));
        }
        join_parts(&parts)
    }
}

/// `"key": "value"` for a string field, in the indented form.
pub open spec fn pretty_str_part(key: Seq<char>, val: Seq<char>) -> Seq<char> {
    seq!['"'] + key + seq!['"', ':', ' ', '"'] + val + seq!['"']
}

/// The array items in the indented form, one per line.
pub open spec fn pretty_items(v: Seq<Seq<char>>) -> Seq<char>
    decreases v.len(),
{
    if v.len() == 0 {
        Seq::empty()
    } else if v.len() == 1 {
        "\n    \""@ + v[0] + seq!['"']
    } else {
        pretty_items(v.drop_last()) + ",\n    \""@ + v.last() + seq!['"']
    }
}

/// `"key": [...]` for a list field, in the indented form.
pub open spec fn pretty_list_part(key: Seq<char>, items: Seq<Seq<char>>) -> Seq<char> {
    seq!['"'] + key + seq!['"', ':', ' ', '['] + pretty_items(items) + "\n  ]"@
}

/// One indented entry per non-empty field, in declaration order.
pub open spec fn pretty_parts_of(r: RuleView) -> Seq<Seq<char>> {
    (if r.tzid.len() > 0 {
        seq![pretty_str_part("tzid"@, r.tzid)]
    } else {
        Seq::empty()
    }) + (if r.dtstart.len() > 0 {
        seq![pretty_str_part("dtstart"@, r.dtstart)]
    } else {
        Seq::empty()
    }) + (if r.until.len() > 0 {
        seq![pretty_str_part("until"@, r.until)]
    } else {
        Seq::empty()
    }) + (if r.frequency.len() > 0 {
        seq![pretty_str_part("frequency"@, r.frequency)]
    } else {
        Seq::empty()
    }) + (if r.count.len() > 0 {
        seq![pretty_str_part("count"@, r.count)]
    } else {
        Seq::empty()
    }) + (if r.interval.len() > 0 {
        seq![pretty_str_part("interval"@, r.interval)]
    } else {
        Seq::empty()
    }) + (if r.wkst.len() > 0 {
        seq![pretty_str_part("wkst"@, r.wkst)]
    } else {
        Seq::empty()
    }) + (if r.by_month.len() > 0 {
        seq![pretty_list_part("byMonth"@, r.by_month)]
    } else {
        Seq::empty()
    }) + (if r.by_hour.len() > 0 {
        seq![pretty_list_part("byHour"@, r.by_hour)]
    } else {
        Seq::empty()
    }) + (if r.by_minute.len() > 0 {
        seq![pretty_list_part("byMinute"@, r.by_minute)]
    } else {
        Seq::empty()
    }) + (if r.by_second.len() > 0 {
        seq![pretty_list_part("bySecond"@, r.by_second)]
    } else {
        Seq::empty()
    }) + (if r.by_day.len() > 0 {
        seq![pretty_list_part("byDay"@, r.by_day)]
    } else {
        Seq::empty()
    }) + (if r.by_month_day.len() > 0 {
        seq![pretty_list_part("byMonthDay"@, r.by_month_day)]
    } else {
        Seq::empty()
    }) + (if r.by_year_day.len() > 0 {
        seq![pretty_list_part("byYearDay"@, r.by_year_day)]
    } else {
        Seq::empty()
    })
}

/// The entries joined with a comma and a fresh indented line.
pub open spec fn joinp(v: Seq<Seq<char>>) -> Seq<char>
    decreases v.len(),
{
    if v.len() == 0 {
        Seq::empty()
    } else if v.len() == 1 {
        v[0]
    } else {
        joinp(v.drop_last()) + ",\n  "@ + v.last()
    }
}

/// The indented JSON rendering: `{}` for an all-empty rule, otherwise the
/// entries at two-space indent with list items at four.
pub open spec fn json_pretty_of(r: RuleView) -> Seq<char> {
    if pretty_parts_of(r).len() == 0 {
        "{}"@
    } else {
        "{\n  "@ + joinp(pretty_parts_of(r)) + "\n}"@
    }
}

/// Appends the indented entry for a string field, when it is non-empty.
fn add_pretty_str_part(parts: &mut Vec<String>, key: &str, val: &str)
    ensures
        val@.len() == 0 ==> final (parts).deep_view() == old(parts).deep_view(),
        val@.len() > 0 ==> final (parts).deep_view() == old(parts).deep_view() + seq![
            pretty_str_part(key@, val@),
        ],
{
    if !val.is_empty() {
        proof {
            reveal_strlit("\"");
            reveal_strlit("\": \"");
        }
        let mut p: String = String::new();
        p.append("\"");
        p.append(key);
        p.append("\": \"");
        p.append(val);
        p.append("\"");
        proof {
            assert(p@ =~= pretty_str_part(key@, val@));
        }
        let ghost dv0: Seq<Seq<char>> = parts.deep_view();
        parts.push(p);
        proof {
            assert(parts.deep_view() =~= dv0 + seq![pretty_str_part(key@, val@)]);
        }
    }
}

/// Appends the indented entry for a list field, when it is non-empty.
fn add_pretty_list_part(parts: &mut Vec<String>, key: &str, items: &Vec<String>)
    ensures
        items.deep_view().len() == 0 ==> final (parts).deep_view() == old(parts).deep_view(),
        items.deep_view().len() > 0 ==> final (parts).deep_view() == old(parts).deep_view()
            + seq![pretty_list_part(key@, items.deep_view())],
{
    if items.len() > 0 {
        proof {
            reveal_strlit("\"");
            reveal_strlit("\": [");
            reveal_strlit("\n    \"");
            reveal_strlit(",\n    \"");
            reveal_strlit("\n  ]");
        }
        let mut p: String = String::new();
        p.append("\"");
        p.append(key);
        p.append("\": [");
        let ghost base: Seq<char> = p@;
        let mut i: usize = 0;
        proof {
            assert(pretty_items(items.deep_view().take(0)) =~= Seq::<char>::empty());
            assert(p@ =~= base + pretty_items(items.deep_view().take(0)));
        }
        while i < items.len()
            invariant
                0 <= i <= items.len(),
                items.deep_view().len() == items.len(),
                p@ == base + pretty_items(items.deep_view().take(i as int)),
            decreases items.len() - i,
        {
            proof {
                reveal_strlit("\"");
                reveal_strlit("\n    \"");
                reveal_strlit(",\n    \"");
                assert(items.deep_view()[i as int] == items@[i as int]@);
            }
            if i == 0 {
                p.append("\n    \"");
            } else {
                p.append(",\n    \"");
            }
            p.append(items[i].as_str());
            p.append("\"");
            proof {
                let dv: Seq<Seq<char>> = items.deep_view();
                if i == 0 {
                    assert(pretty_items(dv.take(1)) =~= "\n    \""@ + dv[0] + seq!['"']);
                } else {
                    assert(dv.take(i as int + 1).drop_last() =~= dv.take(i as int));
                    assert(dv.take(i as int + 1).last() == dv[i as int]);
                }
                assert(p@ =~= base + pretty_items(dv.take(i as int + 1)));
            }
            i = i + 1;
        }
        p.append("\n  ]");
        proof {
            assert(items.deep_view().take(items.deep_view().len() as int) =~= items.deep_view());
            assert(p@ =~= pretty_list_part(key@, items.deep_view()));
        }
        let ghost dv0: Seq<Seq<char>> = parts.deep_view();
        parts.push(p);
        proof {
            assert(parts.deep_view() =~= dv0 + seq![pretty_list_part(key@, items.deep_view())]);
        }
    }
}

/// Joins indented entries between braces.
fn join_pretty(parts: &Vec<String>) -> (r: String)
    ensures
        parts.deep_view().len() == 0 ==> r@ == "{}"@,
        parts.deep_view().len() > 0 ==> r@ == "{\n  "@ + joinp(parts.deep_view()) + "\n}"@,
{
    proof {
        reveal_strlit("{}");
        reveal_strlit("{\n  ");
        reveal_strlit("\n}");
        reveal_strlit(",\n  ");
    }
    if parts.len() == 0 {
        let r: String = String::from_str("{}");
        return r;
    }
    let mut out: String = String::new();
    out.append("{\n  ");
    let mut i: usize = 0;
    proof {
        assert(out@ =~= "{\n  "@ + joinp(parts.deep_view().take(0)));
    }
    while i < parts.len()
        invariant
            0 <= i <= parts.len(),
            parts.deep_view().len() == parts.len(),
            out@ == "{\n  "@ + joinp(parts.deep_view().take(i as int)),
        decreases parts.len() - i,
    {
        proof {
            reveal_strlit(",\n  ");
            assert(parts.deep_view()[i as int] == parts@[i as int]@);
        }
        if i > 0 {
            out.append(",\n  ");
        }
        out.append(parts[i].as_str());
        proof {
            let dv: Seq<Seq<char>> = parts.deep_view();
            if i == 0 {
                assert(joinp(dv.take(1)) =~= dv[0]);
            } else {
                assert(dv.take(i as int + 1).drop_last() =~= dv.take(i as int));
                assert(dv.take(i as int + 1).last() == dv[i as int]);
            }
            assert(out@ =~= "{\n  "@ + joinp(dv.take(i as int + 1)));
        }
        i = i + 1;
    }
    out.append("\n}");
    proof {
        assert(parts.deep_view().take(parts.deep_view().len() as int) =~= parts.deep_view());
    }
    out
}

impl RRule {
    /// This rule in indented JSON form: entries at two-space indent, list
    /// items one per line at four.
    #[verifier::rlimit(100)]
    pub fn to_json_pretty(&self) -> (r: String)
        ensures
            r@ == json_pretty_of(self@),
    {
        let mut parts: Vec<String> = Vec::new();
        proof {
            assert(parts.deep_view() =~= Seq::<Seq<char>>::empty());
        }
        add_pretty_str_part(&mut parts, "tzid", self.tzid.as_str());
        add_pretty_str_part(&mut parts, "dtstart", self.dtstart.as_str());
        add_pretty_str_part(&mut parts, "until", self.until.as_str());
        add_pretty_str_part(&mut parts, "frequency", self.frequency.as_str());
        add_pretty_str_part(&mut parts, "count", self.count.as_str());
        add_pretty_str_part(&mut parts, "interval", self.interval.as_str());
        add_pretty_str_part(&mut parts, "wkst", self.wkst.as_str());
        add_pretty_list_part(&mut parts, "byMonth", &self.by_month);
        add_pretty_list_part(&mut parts, "byHour", &self.by_hour);
        add_pretty_list_part(&mut parts, "byMinute", &self.by_minute);
        add_pretty_list_part(&mut parts, "bySecond", &self.by_second);
        add_pretty_list_part(&mut parts, "byDay", &self.by_day);
        add_pretty_list_part(&mut parts, "byMonthDay", &self.by_month_day);
        add_pretty_list_part(&mut parts, "byYearDay", &self.by_year_day);
        proof {
            assert(parts.deep_view() =~= pretty_parts_of(self@));
        }
        join_pretty(&parts)
    }
}

/// The position of the first `ch` at or after `from`, if any.
pub open spec fn find_from_spec(s: Seq<char>, from: int, ch: char) -> Option<int>
    decreases s.len() - from,
{
    if from < 0 || from >= s.len() {
        None
    } else if s[from] == ch {
        Some(from)
    } else {
        find_from_spec(s, from + 1, ch)
    }
}

/// The position of the first `ch` at or after `from`, if any.
fn find_pos(s: &str, from: usize, ch: char) -> (r: Option<usize>)
    requires
        from <= s@.len(),
    ensures
        find_from_spec(s@, from as int, ch) == (match r {
            Some(j) => Some(j as int),
            None => None::<int>,
        }),
        r matches Some(j) ==> from <= j && j < s@.len(),
{
    let n: usize = s.unicode_len();
    let mut j: usize = from;
    while j < n
        invariant
            from <= j <= n,
            n == s@.len(),
            find_from_spec(s@, from as int, ch) == find_from_spec(s@, j as int, ch),
        decreases n - j,
    {
        if s.get_char(j) == ch {
            return Some(j);
        }
        j = j + 1;
    }
    None
}

/// Each raw array piece with its surrounding quotes removed; `None` when
/// a piece is not quoted.
pub open spec fn strip_items_spec(v: Seq<Seq<char>>) -> Option<Seq<Seq<char>>>
    decreases v.len(),
{
    if v.len() == 0 {
        Some(Seq::empty())
    } else {
        let p = v[0];
        if p.len() >= 2 && p[0] == '"' && p[p.len() - 1] == '"' {
            match strip_items_spec(v.skip(1)) {
                None => None,
                Some(rest) => Some(seq![p.subrange(1, p.len() - 1)] + rest),
            }
        } else {
            None
        }
    }
}

/// Storing a string value under a JSON key; unknown keys are rejected.
pub open spec fn assign_str_spec(acc: RuleView, key: Seq<char>, v: Seq<char>) -> Option<RuleView> {
    if key == "tzid"@ {
        Some(RuleView { tzid: v, ..acc })
    } else if key == "dtstart"@ {
        Some(RuleView { dtstart: v, ..acc })
    } else if key == "until"@ {
        Some(RuleView { until: v, ..acc })
    } else if key == "frequency"@ {
        Some(RuleView { frequency: v, ..acc })
    } else if key == "count"@ {
        Some(RuleView { count: v, ..acc })
    } else if key == "interval"@ {
        Some(RuleView { interval: v, ..acc })
    } else if key == "wkst"@ {
        Some(RuleView { wkst: v, ..acc })
    } else {
        None
    }
}

/// Storing a list value under a JSON key; unknown keys are rejected.
pub open spec fn assign_list_spec(acc: RuleView, key: Seq<char>, items: Seq<Seq<char>>) -> Option<
    RuleView,
> {
    if key == "byMonth"@ {
        Some(RuleView { by_month: items, ..acc })
    } else if key == "byHour"@ {
        Some(RuleView { by_hour: items, ..acc })
    } else if key == "byMinute"@ {
        Some(RuleView { by_minute: items, ..acc })
    } else if key == "bySecond"@ {
        Some(RuleView { by_second: items, ..acc })
    } else if key == "byDay"@ {
        Some(RuleView { by_day: items, ..acc })
    } else if key == "byMonthDay"@ {
        Some(RuleView { by_month_day: items, ..acc })
    } else if key == "byYearDay"@ {
        Some(RuleView { by_year_day: items, ..acc })
    } else {
        None
    }
}

/// Reading one `"key":value` entry at `i`: the updated rule and the
/// position just after the value.
pub open spec fn entry_step_spec(s: Seq<char>, i: int, acc: RuleView) -> Option<(RuleView, int)> {
    if s[i] != '"' {
        None
    } else {
        match find_from_spec(s, i + 1, '"') {
            None => None,
            Some(kq) => {
                let key = s.subrange(i + 1, kq);
                if kq + 1 >= s.len() - 1 || s[kq + 1] != ':' {
                    None
                } else {
                    let vstart = kq + 2;
                    if vstart >= s.len() - 1 {
                        None
                    } else if s[vstart] == '"' {
                        match find_from_spec(s, vstart + 1, '"') {
                            None => None,
                            Some(vq) => match assign_str_spec(
                                acc,
                                key,
                                s.subrange(vstart + 1, vq),
                            ) {
                                None => None,
                                Some(a2) => Some((a2, vq + 1)),
                            },
                        }
                    } else if s[vstart] == '[' {
                        match find_from_spec(s, vstart + 1, ']') {
                            None => None,
                            Some(close) => match strip_items_spec(
                                crate::parser::split_spec(s.subrange(vstart + 1, close), ','),
                            ) {
                                None => None,
                                Some(items) => match assign_list_spec(acc, key, items) {
                                    None => None,
                                    Some(a2) => Some((a2, close + 1)),
                                },
                            },
                        }
                    } else {
                        None
                    }
                }
            },
        }
    }
}

/// Reading entries from `i` to the closing brace, one `,` between any
/// two.
pub open spec fn entries_spec(s: Seq<char>, i: int, acc: RuleView) -> Option<RuleView>
    decreases s.len() - i,
{
    if i >= s.len() - 1 {
        Some(acc)
    } else {
        match entry_step_spec(s, i, acc) {
            None => None,
            Some((a2, after)) => {
                if after <= i {
                    None
                } else if after >= s.len() {
                    None
                } else if after == s.len() - 1 {
                    entries_spec(s, after, a2)
                } else if s[after] != ',' {
                    None
                } else {
                    entries_spec(s, after + 1, a2)
                }
            },
        }
    }
}

/// What reading a whole JSON text yields: braces, the entry scan, and
/// the demand that the result re-renders to the input — so exactly the
/// canonical form `to_json` emits is accepted.
pub open spec fn json_parse_spec(s: Seq<char>) -> Option<RuleView> {
    if s.len() < 2 || s[0] != '{' || s[s.len() - 1] != '}' {
        None
    } else {
        match entries_spec(s, 1, empty_rule_view()) {
            None => None,
            Some(rv) => if json_of(rv) == s {
                Some(rv)
            } else {
                None
            },
        }
    }
}

/// Stores a string value under a JSON key.
fn assign_str_field(rrule: &mut RRule, key: &str, v: String) -> (ok: bool)
    ensures
        ok ==> assign_str_spec(old(rrule)@, key@, v@) == Some(final (rrule)@),
        !ok ==> assign_str_spec(old(rrule)@, key@, v@) is None && *final (rrule) == *old(rrule),
{
    if str_eq_lit(key, "tzid") {
        rrule.tzid = v;
        proof {
            assert(final (rrule)@ =~= RuleView { tzid: rrule.tzid@, ..old(rrule)@ });
        }
        true
    } else if str_eq_lit(key, "dtstart") {
        rrule.dtstart = v;
        proof {
            assert(final (rrule)@ =~= RuleView { dtstart: rrule.dtstart@, ..old(rrule)@ });
        }
        true
    } else if str_eq_lit(key, "until") {
        rrule.until = v;
        proof {
            assert(final (rrule)@ =~= RuleView { until: rrule.until@, ..old(rrule)@ });
        }
        true
    } else if str_eq_lit(key, "frequency") {
        rrule.frequency = v;
        proof {
            assert(final (rrule)@ =~= RuleView { frequency: rrule.frequency@, ..old(rrule)@ });
        }
        true
    } else if str_eq_lit(key, "count") {
        rrule.count = v;
        proof {
            assert(final (rrule)@ =~= RuleView { count: rrule.count@, ..old(rrule)@ });
        }
        true
    } else if str_eq_lit(key, "interval") {
        rrule.interval = v;
        proof {
            assert(final (rrule)@ =~= RuleView { interval: rrule.interval@, ..old(rrule)@ });
        }
        true
    } else if str_eq_lit(key, "wkst") {
        rrule.wkst = v;
        proof {
            assert(final (rrule)@ =~= RuleView { wkst: rrule.wkst@, ..old(rrule)@ });
        }
        true
    } else {
        false
    }
}

/// Stores a list value under a JSON key.
fn assign_list_field(rrule: &mut RRule, key: &str, items: Vec<String>) -> (ok: bool)
    ensures
        ok ==> assign_list_spec(old(rrule)@, key@, items.deep_view()) == Some(final (rrule)@),
        !ok ==> assign_list_spec(old(rrule)@, key@, items.deep_view()) is None && *final (rrule)
            == *old(rrule),
{
    if str_eq_lit(key, "byMonth") {
        rrule.by_month = items;
        proof {
            assert(final (rrule)@ =~= RuleView {
                by_month: rrule.by_month.deep_view(),
                ..old(rrule)@
            });
        }
        true
    } else if str_eq_lit(key, "byHour") {
        rrule.by_hour = items;
        proof {
            assert(final (rrule)@ =~= RuleView {
                by_hour: rrule.by_hour.deep_view(),
                ..old(rrule)@
            });
        }
        true
    } else if str_eq_lit(key, "byMinute") {
        rrule.by_minute = items;
        proof {
            assert(final (rrule)@ =~= RuleView {
                by_minute: rrule.by_minute.deep_view(),
                ..old(rrule)@
            });
        }
        true
    } else if str_eq_lit(key, "bySecond") {
        rrule.by_second = items;
        proof {
            assert(final (rrule)@ =~= RuleView {
                by_second: rrule.by_second.deep_view(),
                ..old(rrule)@
            });
        }
        true
    } else if str_eq_lit(key, "byDay") {
        rrule.by_day = items;
        proof {
            assert(final (rrule)@ =~= RuleView {
                by_day: rrule.by_day.deep_view(),
                ..old(rrule)@
            });
        }
        true
    } else if str_eq_lit(key, "byMonthDay") {
        rrule.by_month_day = items;
        proof {
            assert(final (rrule)@ =~= RuleView {
                by_month_day: rrule.by_month_day.deep_view(),
                ..old(rrule)@
            });
        }
        true
    } else if str_eq_lit(key, "byYearDay") {
        rrule.by_year_day = items;
        proof {
            assert(final (rrule)@ =~= RuleView {
                by_year_day: rrule.by_year_day.deep_view(),
                ..old(rrule)@
            });
        }
        true
    } else {
        false
    }
}

/// Reads a rule back from its canonical JSON form, as `json_parse_spec`
/// describes: `Ok` exactly when the entry scan accepts and the result
/// re-renders to the input, so success is owed on precisely the text
/// `to_json` produces.
#[verifier::rlimit(100)]
pub fn rrule_from_json(s: &str) -> (r: Result<RRule, RuleParseError>)
    ensures
        match json_parse_spec(s@) {
            Some(rv) => r matches Ok(rule) && rule@ == rv,
            None => r matches Err(_),
        },
        r matches Ok(rule) ==> json_of(rule@) == s@,
{
    let n: usize = s.unicode_len();
    if n < 2 || s.get_char(0) != '{' || s.get_char(n - 1) != '}' {
        return Err(RuleParseError);
    }
    let mut rrule: RRule = RRule::new();
    let mut i: usize = 1;
    while i < n - 1
        invariant
            1 <= i <= n - 1,
            n == s@.len(),
            n >= 2,
            s@[0] == '{',
            s@[n - 1] == '}',
            entries_spec(s@, 1, empty_rule_view()) == entries_spec(s@, i as int, rrule@),
        decreases n - 1 - i,
    {
        let ghost acc0: RuleView = rrule@;
        if s.get_char(i) != '"' {
            return Err(RuleParseError);
        }
        let kq: usize = match find_pos(s, i + 1, '"') {
            Some(j) => j,
            None => {
                return Err(RuleParseError);
            },
        };
        let key: String = s.substring_char(i + 1, kq).to_owned();
        if kq + 1 >= n - 1 || s.get_char(kq + 1) != ':' {
            return Err(RuleParseError);
        }
        let vstart: usize = kq + 2;
        if vstart >= n - 1 {
            return Err(RuleParseError);
        }
        let after: usize;
        if s.get_char(vstart) == '"' {
            let vq: usize = match find_pos(s, vstart + 1, '"') {
                Some(j) => j,
                None => {
                    return Err(RuleParseError);
                },
            };
            let val: String = s.substring_char(vstart + 1, vq).to_owned();
            if !assign_str_field(&mut rrule, key.as_str(), val) {
                proof {
                    assert(entry_step_spec(s@, i as int, acc0) is None);
                }
                return Err(RuleParseError);
            }
            after = vq + 1;
            proof {
                assert(entry_step_spec(s@, i as int, acc0) == Some((rrule@, after as int)));
            }
        } else if s.get_char(vstart) == '[' {
            let close: usize = match find_pos(s, vstart + 1, ']') {
                Some(j) => j,
                None => {
                    return Err(RuleParseError);
                },
            };
            let inner: String = s.substring_char(vstart + 1, close).to_owned();
            let raw: Vec<String> = split_char(inner.as_str(), ',');
            let ghost rawdv: Seq<Seq<char>> = raw.deep_view();
            let mut items: Vec<String> = Vec::new();
            let mut k: usize = 0;
            proof {
                assert(rawdv.skip(0) =~= rawdv);
                assert(items.deep_view() =~= Seq::<Seq<char>>::empty());
            }
            while k < raw.len()
                invariant
                    0 <= k <= raw.len(),
                    rawdv == raw.deep_view(),
                    rawdv.len() == raw.len(),
                    strip_items_spec(rawdv) == (match strip_items_spec(rawdv.skip(k as int)) {
                        Some(rest) => Some(items.deep_view() + rest),
                        None => None::<Seq<Seq<char>>>,
                    }),
                    n == s@.len() && n >= 2 && s@[0] == '{' && s@[n - 1] == '}',
                    1 <= i < n - 1,
                    entries_spec(s@, 1, empty_rule_view()) == entries_spec(s@, i as int, rrule@),
                    acc0 == rrule@,
                    s@[i as int] == '"',
                    find_from_spec(s@, i as int + 1, '"') == Some(kq as int),
                    key@ == s@.subrange(i as int + 1, kq as int),
                    kq + 1 < n - 1 && s@[kq as int + 1] == ':',
                    vstart == kq + 2 && vstart < n - 1,
                    s@[vstart as int] == '[',
                    find_from_spec(s@, vstart as int + 1, ']') == Some(close as int),
                    rawdv == split_spec(s@.subrange(vstart as int + 1, close as int), ','),
                decreases raw.len() - k,
            {
                proof {
                    assert(rawdv[k as int] == raw@[k as int]@);
                    assert(rawdv.skip(k as int)[0] == rawdv[k as int]);
                    assert(rawdv.skip(k as int).skip(1) =~= rawdv.skip(k as int + 1));
                }
                let piece: &str = raw[k].as_str();
                let m: usize = piece.unicode_len();
                if m < 2 || piece.get_char(0) != '"' || piece.get_char(m - 1) != '"' {
                    return Err(RuleParseError);
                }
                let ghost items0: Seq<Seq<char>> = items.deep_view();
                items.push(piece.substring_char(1, m - 1).to_owned());
                proof {
                    assert(items.deep_view() =~= items0 + seq![
                        rawdv[k as int].subrange(1, rawdv[k as int].len() - 1),
                    ]);
                    if strip_items_spec(rawdv.skip(k as int + 1)) is Some {
                        let rest = strip_items_spec(rawdv.skip(k as int + 1)).unwrap();
                        assert(items0 + (seq![
                            rawdv[k as int].subrange(1, rawdv[k as int].len() - 1),
                        ] + rest) =~= items.deep_view() + rest);
                    }
                }
                k = k + 1;
            }
            proof {
                assert(rawdv.skip(rawdv.len() as int).len() == 0);
                assert(items.deep_view() + Seq::<Seq<char>>::empty() =~= items.deep_view());
                assert(strip_items_spec(rawdv) == Some(items.deep_view()));
            }
            if !assign_list_field(&mut rrule, key.as_str(), items) {
                proof {
                    assert(entry_step_spec(s@, i as int, acc0) is None);
                }
                return Err(RuleParseError);
            }
            after = close + 1;
            proof {
                assert(entry_step_spec(s@, i as int, acc0) == Some((rrule@, after as int)));
            }
        } else {
            return Err(RuleParseError);
        }
        if after <= i {
            return Err(RuleParseError);
        }
        if after >= n {
            return Err(RuleParseError);
        }
        if after == n - 1 {
            i = after;
        } else {
            if s.get_char(after) != ',' {
                return Err(RuleParseError);
            }
            i = after + 1;
        }
    }
    let back: String = rrule.to_json();
    proof {
        assert(entries_spec(s@, 1, empty_rule_view()) == Some(rrule@));
    }
    if str_eq_lit(back.as_str(), s) {
        Ok(rrule)
    } else {
        Err(RuleParseError)
    }
}

} // verus!