//! The enumeration driver: resolves the rule's anchor, count budget and
//! `UNTIL` bound, then repeatedly steps to materialize the occurrence
//! list, optionally dropping occurrences before a cutoff instant.
use vstd::prelude::*;

use crate::civil::{Civil, Zoned, civil_at, instant, instant_of, lemma_civil_at_of, time_index,
    valid_civil, valid_zoned};
use crate::format::{fmt_rfc3339, parse_spaced, parse_spaced_spec};
use crate::rule::{RRule, RuleView};
use crate::stepper::{GenerationError, step_spec, zone_of, zone_str};
use crate::textnum::{parse_u32, parse_u32_spec};
use crate::tz::{now_civil_utc, tz_utc_to_local, utc_offset_at, zone_known};

verus! {

/// Bound on the total strides a cutoff-filtered enumeration may take
/// before it fails rather than searching forever.
pub const DRIVER_CAP: u32 = 1000000;

/// The count budget: the argument wins over the rule's `COUNT`, and the
/// default is 52; `None` when the chosen text does not read as a number.
pub open spec fn count_choice(r: RuleView, ca: Seq<char>) -> Option<u32> {
    if ca.len() > 0 {
        parse_u32_spec(ca)
    } else if r.count.len() > 0 {
        parse_u32_spec(r.count)
    } else {
        Some(52u32)
    }
}

/// The `UNTIL` text in force: the argument wins over the rule's.
pub open spec fn until_choice(r: RuleView, ua: Seq<char>) -> Seq<char> {
    if ua.len() > 0 {
        ua
    } else {
        r.until
    }
}

/// A UTC civil moment converted into the zone: the local civil moment
/// paired with the offset in effect at that instant.
pub open spec fn anchor_of(zone: Seq<char>, cu: Civil) -> Zoned {
    let off = utc_offset_at(zone, time_index(cu));
    Zoned { civil: civil_at(time_index(cu) + off), offset: off }
}

/// Converts a parsed UTC civil moment into the zone.
pub fn anchor_from_utc(zone: &str, cu: &Civil) -> (r: Option<Zoned>)
    requires
        valid_civil(*cu),
        2 <= cu.year <= 9998,
    ensures
        (r matches Some(_)) <==> zone_known(zone@),
        r matches Some(z) ==> z == anchor_of(zone@, *cu) && valid_zoned(z),
{
    match tz_utc_to_local(zone, cu) {
        Some(z) => {
            proof {
                lemma_civil_at_of(z.civil);
            }
            Some(z)
        },
        None => None,
    }
}

/// Up to `cnt` more occurrences after `z`: each is the stepper's result
/// from the previous one, and enumeration stops early at the first
/// occurrence strictly after the `UNTIL` bound.
pub open spec fn run_steps(r: RuleView, z: Zoned, cnt: nat, u: Option<Zoned>) -> Option<Seq<Zoned>>
    decreases cnt,
{
    if cnt == 0 {
        Some(Seq::empty())
    } else {
        match step_spec(r, z) {
            None => None,
            Some(z2) => {
                if u matches Some(ub) && instant(z2) > instant(ub) {
                    Some(Seq::empty())
                } else {
                    match run_steps(r, z2, (cnt - 1) as nat, u) {
                        Some(rest) => Some(seq![z2] + rest),
                        None => None,
                    }
                }
            },
        }
    }
}

/// `cnt` more qualifying occurrences after `z`, within `fuel` strides: an
/// occurrence qualifies when it is at or after the cutoff; the `UNTIL`
/// bound still stops enumeration early.
pub open spec fn run_cutoff(
    r: RuleView,
    z: Zoned,
    cnt: nat,
    u: Option<Zoned>,
    cutoff: Zoned,
    fuel: nat,
) -> Option<Seq<Zoned>>
    decreases fuel,
{
    if cnt == 0 {
        Some(Seq::empty())
    } else if fuel == 0 {
        None
    } else {
        match step_spec(r, z) {
            None => None,
            Some(z2) => {
                if u matches Some(ub) && instant(z2) > instant(ub) {
                    Some(Seq::empty())
                } else if instant(z2) >= instant(cutoff) {
                    match run_cutoff(r, z2, (cnt - 1) as nat, u, cutoff, (fuel - 1) as nat) {
                        Some(rest) => Some(seq![z2] + rest),
                        None => None,
                    }
                } else {
                    run_cutoff(r, z2, cnt, u, cutoff, (fuel - 1) as nat)
                }
            },
        }
    }
}

/// The whole unfiltered enumeration of a rule whose anchor text is set:
/// `None` when the count, the anchor, the zone, or any step fails.
#[verifier::opaque]
pub open spec fn iter_dates_spec(r: RuleView, ca: Seq<char>, ua: Seq<char>) -> Option<Seq<Zoned>> {
    match count_choice(r, ca) {
        None => None,
        Some(cnt) => match parse_spaced_spec(r.dtstart) {
            None => None,
            Some(cu) => if !(2 <= cu.year <= 9998) {
                None
            } else if !zone_known(zone_of(r)) {
                None
            } else {
                let a = anchor_of(zone_of(r), cu);
                let u = until_choice(r, ua);
                if u.len() == 0 {
                    run_steps(r, a, cnt as nat, None)
                } else {
                    match parse_spaced_spec(u) {
                        None => None,
                        Some(cuu) => if !(2 <= cuu.year <= 9998) {
                            None
                        } else {
                            run_steps(r, a, cnt as nat, Some(anchor_of(zone_of(r), cuu)))
                        },
                    }
                }
            },
        },
    }
}

/// As `iter_dates_spec`, but keeping only occurrences at or after the
/// cutoff, within the driver's stride budget.
#[verifier::opaque]
pub open spec fn cutoff_dates_spec(
    r: RuleView,
    ca: Seq<char>,
    ua: Seq<char>,
    cutoff: Zoned,
) -> Option<Seq<Zoned>> {
    match count_choice(r, ca) {
        None => None,
        Some(cnt) => match parse_spaced_spec(r.dtstart) {
            None => None,
            Some(cu) => if !(2 <= cu.year <= 9998) {
                None
            } else if !zone_known(zone_of(r)) {
                None
            } else {
                let a = anchor_of(zone_of(r), cu);
                let u = until_choice(r, ua);
                if u.len() == 0 {
                    run_cutoff(r, a, cnt as nat, None, cutoff, DRIVER_CAP as nat)
                } else {
                    match parse_spaced_spec(u) {
                        None => None,
                        Some(cuu) => if !(2 <= cuu.year <= 9998) {
                            None
                        } else {
                            run_cutoff(
                                r,
                                a,
                                cnt as nat,
                                Some(anchor_of(zone_of(r), cuu)),
                                cutoff,
                                DRIVER_CAP as nat,
                            )
                        },
                    }
                }
            },
        },
    }
}

/// The run of a rule from a given anchor, under the count budget and the
/// `UNTIL` text in force; `None` when the count or the `UNTIL` text fails
/// to resolve or a step fails. This is the enumeration with the anchor
/// abstracted, for rules whose anchor is the clock.
pub open spec fn run_from_anchor(r: RuleView, ca: Seq<char>, ua: Seq<char>, a: Zoned) -> Option<
    Seq<Zoned>,
> {
    match count_choice(r, ca) {
        None => None,
        Some(cnt) => {
            let u = until_choice(r, ua);
            if u.len() == 0 {
                run_steps(r, a, cnt as nat, None)
            } else {
                match parse_spaced_spec(u) {
                    None => None,
                    Some(cuu) => if !(2 <= cuu.year <= 9998) {
                        None
                    } else {
                        run_steps(r, a, cnt as nat, Some(anchor_of(zone_of(r), cuu)))
                    },
                }
            }
        },
    }
}

/// As `run_from_anchor`, but keeping only occurrences at or after the
/// cutoff, within the driver's stride budget.
pub open spec fn run_from_anchor_cutoff(
    r: RuleView,
    ca: Seq<char>,
    ua: Seq<char>,
    a: Zoned,
    cutoff: Zoned,
) -> Option<Seq<Zoned>> {
    match count_choice(r, ca) {
        None => None,
        Some(cnt) => {
            let u = until_choice(r, ua);
            if u.len() == 0 {
                run_cutoff(r, a, cnt as nat, None, cutoff, DRIVER_CAP as nat)
            } else {
                match parse_spaced_spec(u) {
                    None => None,
                    Some(cuu) => if !(2 <= cuu.year <= 9998) {
                        None
                    } else {
                        run_cutoff(
                            r,
                            a,
                            cnt as nat,
                            Some(anchor_of(zone_of(r), cuu)),
                            cutoff,
                            DRIVER_CAP as nat,
                        )
                    },
                }
            }
        },
    }
}

/// Appending `rest` after `pre`, when `rest` exists.
pub open spec fn opt_cat(pre: Seq<Zoned>, o: Option<Seq<Zoned>>) -> Option<Seq<Zoned>> {
    match o {
        Some(rest) => Some(pre + rest),
        None => None,
    }
}

/// Each occurrence in a successful run is the stepper's result from the
/// one before it (and the first from the start value).
pub proof fn lemma_run_steps_chain(r: RuleView, z: Zoned, cnt: nat, u: Option<Zoned>)
    requires
        run_steps(r, z, cnt, u) is Some,
    ensures
        ({
            let zs = run_steps(r, z, cnt, u).unwrap();
            &&& zs.len() > 0 ==> step_spec(r, z) == Some(zs[0])
            &&& forall|i: int|
                0 <= i < zs.len() - 1 ==> step_spec(r, #[trigger] zs[i]) == Some(zs[i + 1])
        }),
    decreases cnt,
{
    let zs = run_steps(r, z, cnt, u).unwrap();
    if cnt > 0 {
        match step_spec(r, z) {
            None => {},
            Some(z2) => {
                if u matches Some(ub) && instant(z2) > instant(ub) {
                } else {
                    let rest = run_steps(r, z2, (cnt - 1) as nat, u).unwrap();
                    lemma_run_steps_chain(r, z2, (cnt - 1) as nat, u);
                    assert(zs == seq![z2] + rest);
                    assert(zs[0] == z2);
                    assert(forall|i: int| 1 <= i < zs.len() ==> #[trigger] zs[i] == rest[i - 1]);
                }
            },
        }
    }
}

/// Resolves the count budget for this run.
fn resolve_count(r: &RRule, ca: &str) -> (res: Option<u32>)
    ensures
        res == count_choice(r@, ca@),
{
    if !ca.is_empty() {
        parse_u32(ca)
    } else if !r.count.as_str().is_empty() {
        parse_u32(r.count.as_str())
    } else {
        Some(52)
    }
}

/// Parses and resolves the anchor of a rule whose anchor text is set.
fn resolve_anchor(r: &RRule, zone: &str, text: &str) -> (res: Option<Zoned>)
    ensures
        match res {
            Some(z) => {
                &&& parse_spaced_spec(text@) matches Some(cu) && 2 <= cu.year <= 9998
                    && zone_known(zone@) && z == anchor_of(zone@, cu)
                &&& valid_zoned(z)
            },
            None => (parse_spaced_spec(text@) is None || (parse_spaced_spec(text@) matches Some(cu)
                && !(2 <= cu.year <= 9998)) || !zone_known(zone@)),
        },
{
    match parse_spaced(text) {
        Some(cu) => {
            if 2 <= cu.year && cu.year <= 9998 {
                anchor_from_utc(zone, &cu)
            } else {
                None
            }
        },
        None => None,
    }
}

impl RRule {
    /// The occurrence list: starting at the anchor, up to the count
    /// budget of steps, stopping early at the first occurrence strictly
    /// after the `UNTIL` bound in force. With no anchor text the current
    /// time is the anchor.
    #[verifier::rlimit(100)]
    pub fn get_all_iter_dates(&self, count_from_args: &str, until_from_args: &str) -> (res: Result<
        Vec<Zoned>,
        GenerationError,
    >)
        ensures
            self@.dtstart.len() > 0 ==> match iter_dates_spec(
                self@,
                count_from_args@,
                until_from_args@,
            ) {
                Some(zs) => res matches Ok(out) && out@ == zs,
                None => res matches Err(_),
            },
            res matches Ok(out) ==> {
                &&& forall|i: int| 0 <= i < out@.len() ==> valid_zoned(#[trigger] out@[i])
                &&& forall|i: int|
                    0 <= i < out@.len() - 1 ==> step_spec(self@, #[trigger] out@[i]) == Some(
                        out@[i + 1],
                    )
                &&& count_choice(self@, count_from_args@) matches Some(cnt) && out@.len() <= cnt
            },
            until_choice(self@, until_from_args@).len() == 0 ==> (res matches Ok(out2) ==> (
            count_choice(self@, count_from_args@) matches Some(cnt2) && out2@.len() == cnt2)),
            self@.dtstart.len() == 0 ==> (res matches Ok(out3) ==> exists|a: Zoned|
                valid_zoned(a) && #[trigger] run_from_anchor(
                    self@,
                    count_from_args@,
                    until_from_args@,
                    a,
                ) == Some(out3@)),
    {
        proof {
            reveal(iter_dates_spec);
        }
        let zone: &str = zone_str(self);
        let cnt: u32 = match resolve_count(self, count_from_args) {
            Some(v) => v,
            None => {
                return Err(GenerationError::Unresolvable);
            },
        };
        let start: Zoned = if self.dtstart.as_str().is_empty() {
            let now: Civil = match now_civil_utc() {
                Some(v) => v,
                None => {
                    return Err(GenerationError::OutOfRange);
                },
            };
            if !(2 <= now.year && now.year <= 9998) {
                return Err(GenerationError::OutOfRange);
            }
            match crate::tz::tz_utc_to_local(zone, &now) {
                Some(z) => z,
                None => {
                    return Err(GenerationError::Unresolvable);
                },
            }
        } else {
            match resolve_anchor(self, zone, self.dtstart.as_str()) {
                Some(z) => z,
                None => {
                    return Err(GenerationError::Unresolvable);
                },
            }
        };
        let until_text: &str = if !until_from_args.is_empty() {
            until_from_args
        } else {
            self.until.as_str()
        };
        let until_z: Option<Zoned> = if until_text.is_empty() {
            None
        } else {
            match resolve_anchor(self, zone, until_text) {
                Some(z) => Some(z),
                None => {
                    return Err(GenerationError::Unresolvable);
                },
            }
        };
        let ghost gu: Option<Zoned> = until_z;
        let ghost gspec: Option<Seq<Zoned>> = run_steps(self@, start, cnt as nat, gu);
        proof {
            reveal(iter_dates_spec);
            if self@.dtstart.len() > 0 {
                assert(iter_dates_spec(self@, count_from_args@, until_from_args@) == gspec);
            }
            assert(until_text@ == until_choice(self@, until_from_args@));
            assert(run_from_anchor(self@, count_from_args@, until_from_args@, start) == gspec);
        }
        let mut out: Vec<Zoned> = Vec::new();
        let mut cur: Zoned = start;
        let mut i: u32 = 0;
        proof {
            assert(out@ =~= Seq::<Zoned>::empty());
        }
        while i < cnt
            invariant
                0 <= i <= cnt,
                valid_zoned(cur),
                gu matches Some(ub) ==> valid_zoned(ub),
                out@.len() == i,
                gspec == run_steps(self@, start, cnt as nat, gu),
                gspec == opt_cat(out@, run_steps(self@, cur, (cnt - i) as nat, gu)),
                self@.dtstart.len() > 0 ==> iter_dates_spec(
                    self@,
                    count_from_args@,
                    until_from_args@,
                ) == gspec,
                run_from_anchor(self@, count_from_args@, until_from_args@, start) == gspec,
                valid_zoned(start),
                (until_choice(self@, until_from_args@).len() == 0) <==> (gu is None),
                count_choice(self@, count_from_args@) == Some(cnt),
                forall|j: int| 0 <= j < out@.len() ==> valid_zoned(#[trigger] out@[j]),
                until_z == gu,
            decreases cnt - i,
        {
            let next: Zoned = match self.get_next_date(cur) {
                Ok(v) => v,
                Err(e) => {
                    return Err(e);
                },
            };
            if until_z.is_some() {
                let ub: &Zoned = match &until_z {
                    Some(u) => u,
                    None => {
                        return Err(GenerationError::Unresolvable);
                    },
                };
                if instant_of(&next) > instant_of(ub) {
                    proof {
                        assert(run_steps(self@, cur, (cnt - i) as nat, gu) == Some(
                            Seq::<Zoned>::empty(),
                        ));
                        assert(out@ + Seq::<Zoned>::empty() =~= out@);
                        lemma_run_steps_chain(self@, start, cnt as nat, gu);
                    }
                    return Ok(out);
                }
            }
            let ghost out0: Seq<Zoned> = out@;
            out.push(next);
            proof {
                assert(out@ =~= out0 + seq![next]);
                assert(forall|j: int| 0 <= j < out0.len() ==> #[trigger] out@[j] == out0[j]);
                let tail = run_steps(self@, next, (cnt - i - 1) as nat, gu);
                assert(run_steps(self@, cur, (cnt - i) as nat, gu) == (match tail {
                    Some(rest) => Some(seq![next] + rest),
                    None => None::<Seq<Zoned>>,
                }));
                if tail is Some {
                    let rest = tail.unwrap();
                    assert(out0 + (seq![next] + rest) =~= out@ + rest);
                }
            }
            cur = next;
            i = i + 1;
        }
        proof {
            assert(out@ + Seq::<Zoned>::empty() =~= out@);
            lemma_run_steps_chain(self@, start, cnt as nat, gu);
        }
        Ok(out)
    }

    /// The cutoff-filtered occurrence list: as the unfiltered variant,
    /// but an occurrence is kept only when it is at or after `cutoff`,
    /// and stepping continues until the count budget of kept occurrences
    /// is reached, the `UNTIL` bound is passed, or the stride budget runs
    /// out.
    #[verifier::rlimit(100)]
    pub fn get_all_iter_dates_from_cutoff(
        &self,
        count_from_args: &str,
        until_from_args: &str,
        cutoff_date: Zoned,
    ) -> (res: Result<Vec<Zoned>, GenerationError>)
        requires
            valid_zoned(cutoff_date),
        ensures
            self@.dtstart.len() > 0 ==> match cutoff_dates_spec(
                self@,
                count_from_args@,
                until_from_args@,
                cutoff_date,
            ) {
                Some(zs) => res matches Ok(out) && out@ == zs,
                None => res matches Err(_),
            },
            res matches Ok(out) ==> {
                &&& forall|i: int| 0 <= i < out@.len() ==> valid_zoned(#[trigger] out@[i])
                &&& forall|i: int|
                    0 <= i < out@.len() ==> instant(#[trigger] out@[i]) >= instant(cutoff_date)
                &&& count_choice(self@, count_from_args@) matches Some(cnt) && out@.len() <= cnt
            },
            self@.dtstart.len() == 0 ==> (res matches Ok(out2) ==> exists|a: Zoned|
                valid_zoned(a) && #[trigger] run_from_anchor_cutoff(
                    self@,
                    count_from_args@,
                    until_from_args@,
                    a,
                    cutoff_date,
                ) == Some(out2@)),
    {
        proof {
            reveal(cutoff_dates_spec);
        }
        let zone: &str = zone_str(self);
        let cnt: u32 = match resolve_count(self, count_from_args) {
            Some(v) => v,
            None => {
                return Err(GenerationError::Unresolvable);
            },
        };
        let start: Zoned = if self.dtstart.as_str().is_empty() {
            let now: Civil = match now_civil_utc() {
                Some(v) => v,
                None => {
                    return Err(GenerationError::OutOfRange);
                },
            };
            if !(2 <= now.year && now.year <= 9998) {
                return Err(GenerationError::OutOfRange);
            }
            match crate::tz::tz_utc_to_local(zone, &now) {
                Some(z) => z,
                None => {
                    return Err(GenerationError::Unresolvable);
                },
            }
        } else {
            match resolve_anchor(self, zone, self.dtstart.as_str()) {
                Some(z) => z,
                None => {
                    return Err(GenerationError::Unresolvable);
                },
            }
        };
        let until_text: &str = if !until_from_args.is_empty() {
            until_from_args
        } else {
            self.until.as_str()
        };
        let until_z: Option<Zoned> = if until_text.is_empty() {
            None
        } else {
            match resolve_anchor(self, zone, until_text) {
                Some(z) => Some(z),
                None => {
                    return Err(GenerationError::Unresolvable);
                },
            }
        };
        let ghost gu: Option<Zoned> = until_z;
        let ghost gspec: Option<Seq<Zoned>> = run_cutoff(
            self@,
            start,
            cnt as nat,
            gu,
            cutoff_date,
            DRIVER_CAP as nat,
        );
        proof {
            if self@.dtstart.len() > 0 {
                assert(cutoff_dates_spec(
                    self@,
                    count_from_args@,
                    until_from_args@,
                    cutoff_date,
                ) == gspec);
            }
            assert(until_text@ == until_choice(self@, until_from_args@));
            assert(run_from_anchor_cutoff(
                self@,
                count_from_args@,
                until_from_args@,
                start,
                cutoff_date,
            ) == gspec);
        }
        let mut out: Vec<Zoned> = Vec::new();
        let mut cur: Zoned = start;
        let mut fuel: u32 = DRIVER_CAP;
        proof {
            assert(out@ =~= Seq::<Zoned>::empty());
        }
        while out.len() < cnt as usize
            invariant
                valid_zoned(cur),
                gu matches Some(ub) ==> valid_zoned(ub),
                valid_zoned(cutoff_date),
                out@.len() <= cnt,
                gspec == opt_cat(
                    out@,
                    run_cutoff(
                        self@,
                        cur,
                        (cnt - out@.len()) as nat,
                        gu,
                        cutoff_date,
                        fuel as nat,
                    ),
                ),
                self@.dtstart.len() > 0 ==> cutoff_dates_spec(
                    self@,
                    count_from_args@,
                    until_from_args@,
                    cutoff_date,
                ) == gspec,
                run_from_anchor_cutoff(
                    self@,
                    count_from_args@,
                    until_from_args@,
                    start,
                    cutoff_date,
                ) == gspec,
                valid_zoned(start),
                count_choice(self@, count_from_args@) == Some(cnt),
                forall|j: int| 0 <= j < out@.len() ==> valid_zoned(#[trigger] out@[j]),
                forall|j: int|
                    0 <= j < out@.len() ==> instant(#[trigger] out@[j]) >= instant(cutoff_date),
                until_z == gu,
            decreases fuel,
        {
            if fuel == 0 {
                return Err(GenerationError::NoMatch);
            }
            let next: Zoned = match self.get_next_date(cur) {
                Ok(v) => v,
                Err(e) => {
                    return Err(e);
                },
            };
            if until_z.is_some() {
                let ub: &Zoned = match &until_z {
                    Some(u) => u,
                    None => {
                        return Err(GenerationError::Unresolvable);
                    },
                };
                if instant_of(&next) > instant_of(ub) {
                    proof {
                        assert(out@ + Seq::<Zoned>::empty() =~= out@);
                    }
                    return Ok(out);
                }
            }
            if instant_of(&next) >= instant_of(&cutoff_date) {
                let ghost out0: Seq<Zoned> = out@;
                out.push(next);
                proof {
                    assert(out@ =~= out0 + seq![next]);
                    assert(forall|j: int| 0 <= j < out0.len() ==> #[trigger] out@[j] == out0[j]);
                    let tail = run_cutoff(
                        self@,
                        next,
                        (cnt - out0.len() - 1) as nat,
                        gu,
                        cutoff_date,
                        (fuel - 1) as nat,
                    );
                    assert(run_cutoff(
                        self@,
                        cur,
                        (cnt - out0.len()) as nat,
                        gu,
                        cutoff_date,
                        fuel as nat,
                    ) == (match tail {
                        Some(rest) => Some(seq![next] + rest),
                        None => None::<Seq<Zoned>>,
                    }));
                    if tail is Some {
                        let rest = tail.unwrap();
                        assert(out0 + (seq![next] + rest) =~= out@ + rest);
                    }
                }
            }
            cur = next;
            fuel = fuel - 1;
        }
        proof {
            assert(out@ + Seq::<Zoned>::empty() =~= out@);
        }
        Ok(out)
    }
}

/// Renders each occurrence as an RFC 3339 string.
fn convert_datetime_tz_list_to_rfc339(dates_list: Vec<Zoned>) -> (r: Vec<String>)
    requires
        forall|i: int| 0 <= i < dates_list@.len() ==> valid_zoned(#[trigger] dates_list@[i]),
    ensures
        r.deep_view() == dates_list@.map_values(|z: Zoned| fmt_rfc3339(z)),
{
    let mut r: Vec<String> = Vec::new();
    let mut i: usize = 0;
    proof {
        assert(r.deep_view() =~= dates_list@.take(0).map_values(|z: Zoned| fmt_rfc3339(z)));
    }
    while i < dates_list.len()
        invariant
            0 <= i <= dates_list@.len(),
            forall|j: int| 0 <= j < dates_list@.len() ==> valid_zoned(#[trigger] dates_list@[j]),
            r.deep_view() == dates_list@.take(i as int).map_values(|z: Zoned| fmt_rfc3339(z)),
        decreases dates_list@.len() - i,
    {
        let ghost dv0: Seq<Seq<char>> = r.deep_view();
        let s: String = dates_list[i].to_rfc3339();
        r.push(s);
        proof {
            assert(r.deep_view() =~= dv0 + seq![fmt_rfc3339(dates_list@[i as int])]);
            assert(r.deep_view() =~= dates_list@.take(i as int + 1).map_values(
                |z: Zoned| fmt_rfc3339(z),
            ));
        }
        i = i + 1;
    }
    proof {
        assert(dates_list@.take(dates_list@.len() as int) =~= dates_list@);
    }
    r
}

/// The occurrences strictly after `lens_from_date`, in order.
pub open spec fn lens_spec(ds: Seq<Zoned>, cut: Zoned) -> Seq<Zoned>
    decreases ds.len(),
{
    if ds.len() == 0 {
        Seq::empty()
    } else if instant(ds.last()) > instant(cut) {
        lens_spec(ds.drop_last(), cut).push(ds.last())
    } else {
        lens_spec(ds.drop_last(), cut)
    }
}

/// Keeps the occurrences strictly after `lens_from_date`.
fn lens_iter_dates(dates_list: Vec<Zoned>, lens_from_date: Zoned) -> (r: Vec<Zoned>)
    requires
        forall|i: int| 0 <= i < dates_list@.len() ==> valid_zoned(#[trigger] dates_list@[i]),
        valid_zoned(lens_from_date),
    ensures
        r@ == lens_spec(dates_list@, lens_from_date),
        forall|i: int| 0 <= i < r@.len() ==> valid_zoned(#[trigger] r@[i]),
{
    let mut r: Vec<Zoned> = Vec::new();
    let mut i: usize = 0;
    proof {
        assert(r@ =~= lens_spec(dates_list@.take(0), lens_from_date));
    }
    while i < dates_list.len()
        invariant
            0 <= i <= dates_list@.len(),
            forall|j: int| 0 <= j < dates_list@.len() ==> valid_zoned(#[trigger] dates_list@[j]),
            valid_zoned(lens_from_date),
            r@ == lens_spec(dates_list@.take(i as int), lens_from_date),
            forall|j: int| 0 <= j < r@.len() ==> valid_zoned(#[trigger] r@[j]),
        decreases dates_list@.len() - i,
    {
        proof {
            assert(dates_list@.take(i as int + 1).drop_last() =~= dates_list@.take(i as int));
            assert(dates_list@.take(i as int + 1).last() == dates_list@[i as int]);
        }
        let d: Zoned = dates_list[i];
        if instant_of(&d) > instant_of(&lens_from_date) {
            r.push(d);
        }
        i = i + 1;
    }
    proof {
        assert(dates_list@.take(dates_list@.len() as int) =~= dates_list@);
    }
    r
}

impl RRule {
    /// The occurrence list rendered as RFC 3339 strings.
    pub fn get_all_iter_dates_iso8601(&self, count_from_args: &str, until_from_args: &str) -> (res:
        Result<Vec<String>, GenerationError>)
        ensures
            self@.dtstart.len() > 0 ==> match iter_dates_spec(
                self@,
                count_from_args@,
                until_from_args@,
            ) {
                Some(zs) => res matches Ok(out) && out.deep_view() == zs.map_values(
                    |z: Zoned| fmt_rfc3339(z),
                ),
                None => res matches Err(_),
            },
            self@.dtstart.len() == 0 ==> (res matches Ok(out2) ==> exists|a: Zoned|
                valid_zoned(a) && (#[trigger] run_from_anchor(
                    self@,
                    count_from_args@,
                    until_from_args@,
                    a,
                ) matches Some(zs) && out2.deep_view() == zs.map_values(|z: Zoned| fmt_rfc3339(z)))),
    {
        let dates: Vec<Zoned> = match self.get_all_iter_dates(count_from_args, until_from_args) {
            Ok(v) => v,
            Err(e) => {
                return Err(e);
            },
        };
        let out: Vec<String> = convert_datetime_tz_list_to_rfc339(dates);
        proof {
            if self@.dtstart.len() == 0 {
                let a = choose|a: Zoned|
                    valid_zoned(a) && #[trigger] run_from_anchor(
                        self@,
                        count_from_args@,
                        until_from_args@,
                        a,
                    ) == Some(dates@);
                assert(valid_zoned(a) && (run_from_anchor(
                    self@,
                    count_from_args@,
                    until_from_args@,
                    a,
                ) matches Some(zs) && out.deep_view() == zs.map_values(|z: Zoned| fmt_rfc3339(z))));
            }
        }
        Ok(out)
    }

    /// The cutoff-filtered occurrence list, with the current time as the
    /// cutoff, rendered as RFC 3339 strings.
    pub fn get_all_iter_dates_from_today_iso8601(
        &self,
        count_from_args: &str,
        until_from_args: &str,
    ) -> (res: Result<Vec<String>, GenerationError>)
        ensures
            res matches Ok(out) ==> exists|cut: Zoned|
                valid_zoned(cut) && (self@.dtstart.len() > 0 ==> (cutoff_dates_spec(
                    self@,
                    count_from_args@,
                    until_from_args@,
                    cut,
                ) matches Some(zs) && out.deep_view() == zs.map_values(|z: Zoned| fmt_rfc3339(z))))
                && (self@.dtstart.len() == 0 ==> exists|a: Zoned|
                valid_zoned(a) && (#[trigger] run_from_anchor_cutoff(
                    self@,
                    count_from_args@,
                    until_from_args@,
                    a,
                    cut,
                ) matches Some(zs2) && out.deep_view() == zs2.map_values(
                    |z: Zoned| fmt_rfc3339(z),
                ))),
            count_choice(self@, count_from_args@) is None ==> res matches Err(_),
    {
        let zone: &str = zone_str(self);
        let now: Civil = match now_civil_utc() {
            Some(v) => v,
            None => {
                return Err(GenerationError::OutOfRange);
            },
        };
        if !(2 <= now.year && now.year <= 9998) {
            return Err(GenerationError::OutOfRange);
        }
        let cutoff: Zoned = match tz_utc_to_local(zone, &now) {
            Some(z) => z,
            None => {
                return Err(GenerationError::Unresolvable);
            },
        };
        match self.get_all_iter_dates_from_cutoff(count_from_args, until_from_args, cutoff) {
            Ok(dates) => {
                let out: Vec<String> = convert_datetime_tz_list_to_rfc339(dates);
                proof {
                    assert(valid_zoned(cutoff));
                    if self@.dtstart.len() == 0 {
                        let a = choose|a: Zoned|
                            valid_zoned(a) && #[trigger] run_from_anchor_cutoff(
                                self@,
                                count_from_args@,
                                until_from_args@,
                                a,
                                cutoff,
                            ) == Some(dates@);
                        assert(valid_zoned(a) && (run_from_anchor_cutoff(
                            self@,
                            count_from_args@,
                            until_from_args@,
                            a,
                            cutoff,
                        ) matches Some(zs2) && out.deep_view() == zs2.map_values(
                            |z: Zoned| fmt_rfc3339(z),
                        )));
                    }
                }
                Ok(out)
            },
            Err(e) => Err(e),
        }
    }

    /// The occurrences of the unfiltered enumeration that lie strictly
    /// after the current time.
    pub fn get_next_iter_dates(&self, count_from_args: &str, until_from_args: &str) -> (res: Result<
        Vec<Zoned>,
        GenerationError,
    >)
        ensures
            self@.dtstart.len() > 0 ==> match iter_dates_spec(
                self@,
                count_from_args@,
                until_from_args@,
            ) {
                Some(zs) => res matches Ok(out) ==> exists|cut: Zoned|
                    valid_zoned(cut) && out@ == lens_spec(zs, cut),
                None => res matches Err(_),
            },
    {
        let zone: &str = zone_str(self);
        let dates: Vec<Zoned> = match self.get_all_iter_dates(count_from_args, until_from_args) {
            Ok(v) => v,
            Err(e) => {
                return Err(e);
            },
        };
        let now: Civil = match now_civil_utc() {
            Some(v) => v,
            None => {
                return Err(GenerationError::OutOfRange);
            },
        };
        if !(2 <= now.year && now.year <= 9998) {
            return Err(GenerationError::OutOfRange);
        }
        let cut: Zoned = match tz_utc_to_local(zone, &now) {
            Some(z) => z,
            None => {
                return Err(GenerationError::Unresolvable);
            },
        };
        let out: Vec<Zoned> = lens_iter_dates(dates, cut);
        Ok(out)
    }
}

/// Parses a rule string and enumerates its occurrences as RFC 3339
/// strings.
pub fn get_all_iter_dates(rrule_string: &str, count: &str, until: &str) -> (res: Result<
    Vec<String>,
    crate::rule::RuleParseError,
>)
    ensures
        match crate::parser::rrule_parse_spec(rrule_string@) {
            None => res matches Err(_),
            Some(rv) => if !crate::rule::rule_valid_spec(rv) {
                res matches Err(_)
            } else if rv.dtstart.len() > 0 {
                match iter_dates_spec(rv, count@, until@) {
                    Some(zs) => res matches Ok(out) && out.deep_view() == zs.map_values(
                        |z: Zoned| fmt_rfc3339(z),
                    ),
                    None => res matches Err(_),
                }
            } else {
                true
            },
        },
{
    match crate::parser::convert_to_rrule(rrule_string) {
        Ok(rrule) => match rrule.get_all_iter_dates_iso8601(count, until) {
            Ok(v) => Ok(v),
            Err(_) => Err(crate::rule::RuleParseError),
        },
        Err(_) => Err(crate::rule::RuleParseError),
    }
}

/// Parses a rule string and enumerates its occurrences from the current
/// time forward, as RFC 3339 strings.
pub fn get_all_iter_dates_from_today(rrule_string: &str, count: &str, until: &str) -> (res:
    Result<Vec<String>, crate::rule::RuleParseError>)
    ensures
        match crate::parser::rrule_parse_spec(rrule_string@) {
            None => res matches Err(_),
            Some(rv) => !crate::rule::rule_valid_spec(rv) ==> res matches Err(_),
        },
        res matches Ok(out) ==> (crate::parser::rrule_parse_spec(rrule_string@) matches Some(rv)
            && crate::rule::rule_valid_spec(rv) && exists|cut: Zoned|
        valid_zoned(cut) && (rv.dtstart.len() > 0 ==> (#[trigger] cutoff_dates_spec(
            rv,
            count@,
            until@,
            cut,
        ) matches Some(zs) && out.deep_view() == zs.map_values(|z: Zoned| fmt_rfc3339(z))))),
{
    match crate::parser::convert_to_rrule(rrule_string) {
        Ok(rrule) => match rrule.get_all_iter_dates_from_today_iso8601(count, until) {
            Ok(v) => Ok(v),
            Err(_) => Err(crate::rule::RuleParseError),
        },
        Err(_) => Err(crate::rule::RuleParseError),
    }
}

} // verus!
