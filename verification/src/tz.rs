//! The boundary to the IANA timezone database. Everything here either is a
//! trusted wrapper around `chrono-tz` or derives directly from one; the rest
//! of the crate sees zones only through the named lookup results below.
use vstd::prelude::*;

use chrono::{Datelike, Timelike};

use crate::MAX_YEAR;
use crate::civil::{Civil, Zoned, time_index, valid_civil, valid_zoned};

verus! {

/// Whether the IANA table has a zone of this name.
pub uninterp spec fn zone_known(name: Seq<char>) -> bool;

/// The offset (seconds east of UTC) that the zone assigns to the local civil
/// moment with the given time index, when that moment exists and is
/// unambiguous; `None` otherwise, and `None` when the zone is unknown.
pub uninterp spec fn local_single_offset(name: Seq<char>, t: int) -> Option<i32>;

/// The offset (seconds east of UTC) in effect in the zone at the UTC moment
/// with the given time index. Total for known zones.
pub uninterp spec fn utc_offset_at(name: Seq<char>, t: int) -> i32;

/// The rendered name (abbreviation such as `AEST`, or a numeric form) of the
/// zone's offset at the local civil moment with the given time index.
pub uninterp spec fn zone_abbrev(name: Seq<char>, t: int) -> Seq<char>;

/// Relies on `chrono_tz::Tz::from_str`: whether a name resolves in the
/// compiled-in IANA table.
#[verifier::external_body]
pub fn tz_zone_exists(name: &str) -> (r: bool)
    ensures
        r == zone_known(name@),
{
    name.parse::<chrono_tz::Tz>().is_ok()
}

/// Relies on `chrono_tz`'s `TimeZone::offset_from_local_datetime`: the
/// offset for a local civil moment, when it resolves to exactly one.
#[verifier::external_body]
pub fn tz_local_offset(name: &str, c: &Civil) -> (r: Option<i32>)
    requires
        valid_civil(*c),
    ensures
        r == local_single_offset(name@, time_index(*c)),
        r matches Some(o) ==> -86400 < o < 86400,
{
    let tz: chrono_tz::Tz = match name.parse() {
        Ok(t) => t,
        Err(_) => return None,
    };
    let d = chrono::NaiveDate::from_ymd_opt(c.year, c.month as u32, c.day as u32).unwrap();
    let ndt = d.and_hms_opt(c.hour as u32, c.minute as u32, c.second as u32).unwrap();
    match chrono::TimeZone::offset_from_local_datetime(&tz, &ndt) {
        chrono::LocalResult::Single(o) => Some(chrono::Offset::fix(&o).local_minus_utc()),
        _ => None,
    }
}

/// Relies on `chrono_tz`'s `TimeZone::from_utc_datetime`: converts a UTC
/// civil moment into the zone, yielding the local civil moment and the
/// offset in effect; `chrono` guarantees a valid local date and that local
/// equals UTC plus the offset.
#[verifier::external_body]
pub fn tz_utc_to_local(name: &str, c: &Civil) -> (r: Option<Zoned>)
    requires
        valid_civil(*c),
        2 <= c.year <= 9998,
    ensures
        (r matches Some(_)) <==> zone_known(name@),
        r matches Some(z) ==> {
            &&& z.offset == utc_offset_at(name@, time_index(*c))
            &&& valid_zoned(z)
            &&& time_index(z.civil) == time_index(*c) + z.offset
        },
{
    let tz: chrono_tz::Tz = name.parse().ok()?;
    let d = chrono::NaiveDate::from_ymd_opt(c.year, c.month as u32, c.day as u32)?;
    let ndt = d.and_hms_opt(c.hour as u32, c.minute as u32, c.second as u32)?;
    let dt = chrono::TimeZone::from_utc_datetime(&tz, &ndt);
    let (ln, o) = (dt.naive_local(), chrono::Offset::fix(dt.offset()).local_minus_utc());
    let civil = Civil {
        year: ln.year(),
        month: ln.month() as u8,
        day: ln.day() as u8,
        hour: ln.hour() as u8,
        minute: ln.minute() as u8,
        second: ln.second() as u8,
    };
    Some(Zoned { civil, offset: o })
}

/// Relies on `chrono_tz::TzOffset`'s `Display`: the abbreviation (or numeric
/// form) of the offset a local civil moment resolves to.
#[verifier::external_body]
pub fn tz_abbreviation(name: &str, c: &Civil) -> (r: Option<String>)
    requires
        valid_civil(*c),
    ensures
        (r matches Some(_)) <==> (local_single_offset(name@, time_index(*c)) matches Some(_)),
        r matches Some(s) ==> s@ == zone_abbrev(name@, time_index(*c)),
{
    let tz: chrono_tz::Tz = match name.parse() {
        Ok(t) => t,
        Err(_) => return None,
    };
    let d = chrono::NaiveDate::from_ymd_opt(c.year, c.month as u32, c.day as u32).unwrap();
    let ndt = d.and_hms_opt(c.hour as u32, c.minute as u32, c.second as u32).unwrap();
    match chrono::TimeZone::offset_from_local_datetime(&tz, &ndt) {
        chrono::LocalResult::Single(o) => Some(format!("{}", o)),
        _ => None,
    }
}

/// Relies on `chrono::Utc::now`: the current UTC wall-clock reading as
/// `(year, month, day, hour, minute, second)`; `chrono` guarantees the
/// parts form a valid Gregorian date and time.
#[verifier::external_body]
pub fn utc_now_parts() -> (r: (i32, u8, u8, u8, u8, u8))
    ensures
        1 <= r.1 <= 12,
        1 <= r.2 as int <= crate::civil::month_len(r.0 as int, r.1 as int),
        r.3 <= 23,
        r.4 <= 59,
        r.5 <= 59,
{
    let n = chrono::Utc::now().naive_utc();
    (n.year(), n.month() as u8, n.day() as u8, n.hour() as u8, n.minute() as u8, n.second() as u8)
}

/// Resolving a civil moment in a zone: the same civil value, paired with the
/// offset the zone gives it, or `None` when the lookup does not resolve.
pub open spec fn refresh_spec(zone: Seq<char>, c: Civil) -> Option<Zoned> {
    match local_single_offset(zone, time_index(c)) {
        Some(o) => Some(Zoned { civil: c, offset: o }),
        None => None,
    }
}

/// Pairs a civil moment with its offset in `zone`, freshly looked up.
pub fn refresh_zoned(zone: &str, c: &Civil) -> (r: Option<Zoned>)
    requires
        valid_civil(*c),
    ensures
        r == refresh_spec(zone@, *c),
        r matches Some(z) ==> valid_zoned(z),
{
    match tz_local_offset(zone, c) {
        Some(o) => Some(Zoned { civil: *c, offset: o }),
        None => None,
    }
}

/// The current moment in UTC, when the clock reads a year this library
/// can represent.
pub fn now_civil_utc() -> (r: Option<Civil>)
    ensures
        r matches Some(c) ==> valid_civil(c),
{
    let p: (i32, u8, u8, u8, u8, u8) = utc_now_parts();
    if 1 <= p.0 && p.0 <= MAX_YEAR {
        Some(Civil { year: p.0, month: p.1, day: p.2, hour: p.3, minute: p.4, second: p.5 })
    } else {
        None
    }
}

} // verus!
