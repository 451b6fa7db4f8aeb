//! Lunar dates written `YYYY-MM-DD`, and their conversion to solar dates.
use vstd::prelude::*;
use crate::text::{i32_of, parse_i32, parse_u32, split_on, split_spec, u32_of};

verus! {

/// A lunar date as read from a field: year, month and day, not yet checked
/// against the lunar calendar.
#[derive(Debug, Clone, Copy, PartialEq, Eq, Structural)]
pub struct LunarDateSource {
    pub year: i32,
    pub month: u32,
    pub day: u32,
}

impl LunarDateSource {
    pub fn new(year: i32, month: u32, day: u32) -> (r: Self)
        ensures
            r == (LunarDateSource { year, month, day }),
    {
        Self { year, month, day }
    }
}

/// The lunar date that `s` writes: exactly three `-`-separated parts, each an
/// integer, month and day not zero.
pub open spec fn lunar_date_of(s: Seq<char>) -> Option<LunarDateSource> {
    let parts = split_spec(s, '-');
    if parts.len() != 3 {
        None
    } else {
        match (i32_of(parts[0]), u32_of(parts[1]), u32_of(parts[2])) {
            (Some(year), Some(month), Some(day)) => if month != 0 && day != 0 {
                Some(LunarDateSource { year, month, day })
            } else {
                None
            },
            _ => None,
        }
    }
}

/// Reads a lunar date written `YYYY-MM-DD`.
pub fn parse_ttdl_lunar_date(lunar_date: &str) -> (r: Option<LunarDateSource>)
    ensures
        r == lunar_date_of(lunar_date@),
{
    let items = split_on(lunar_date, '-');
    proof {
        assert(items@.len() == split_spec(lunar_date@, '-').len());
    }
    if items.len() != 3 {
        return None;
    }
    proof {
        assert(items@[0]@ == split_spec(lunar_date@, '-')[0]);
        assert(items@[1]@ == split_spec(lunar_date@, '-')[1]);
        assert(items@[2]@ == split_spec(lunar_date@, '-')[2]);
    }
    let year = match parse_i32(items[0].as_str()) {
        Some(v) => v,
        None => return None,
    };
    let month = match parse_u32(items[1].as_str()) {
        Some(v) if v != 0 => v,
        _ => return None,
    };
    let day = match parse_u32(items[2].as_str()) {
        Some(v) if v != 0 => v,
        _ => return None,
    };
    Some(LunarDateSource::new(year, month, day))
}

/// The outcome of converting the lunar date `year`-`month`-`day` (not in a leap
/// month) to a solar date: the solar date written `YYYY-MM-DD`, or the reason
/// why the lunar calendar has no such date.
/// The view of a conversion outcome.
pub open spec fn outcome_view(r: Result<String, String>) -> Result<Seq<char>, Seq<char>> {
    match r {
        Ok(s) => Ok(s@),
        Err(e) => Err(e@),
    }
}

pub uninterp spec fn solar_date_of(year: i32, month: u32, day: u32) -> Result<Seq<char>, Seq<char>>;

/// Relies on lunardate's `LunarDate::to_solar_date`, for a month that is not a
/// leap month, with the date written by chrono's `NaiveDate::format("%Y-%m-%d")`
/// and the error by its `Display`: the outcome depends on the date alone, and a
/// year before 1900 or from 2100 on is `Error::YearOutOfRange`.
#[verifier::external_body]
fn lunar_to_solar(year: i32, month: u32, day: u32) -> (r: Result<String, String>)
    ensures
        outcome_view(r) == solar_date_of(year, month, day),
        r matches Ok(_) ==> 1900 <= year < 2100,
        r matches Err(e) ==> ((year < 1900 || year >= 2100) ==> e@ == "year out of range"@),
{
    let date = lunardate::LunarDate::new(year, month, day, false);
    match date.to_solar_date() {
        Ok(solar) => Ok(solar.format("%Y-%m-%d").to_string()),
        Err(err) => Err(err.to_string()),
    }
}

/// Converts a lunar date to the solar date written `YYYY-MM-DD`, or gives the
/// reason why the lunar calendar has no such date.
pub fn to_ttdl_solar_date_string(source: LunarDateSource) -> (r: Result<String, String>)
    ensures
        outcome_view(r) == solar_date_of(source.year, source.month, source.day),
        (source.year < 1900 || source.year >= 2100) ==> (r matches Err(e) && e@
            == "year out of range"@),
{
    lunar_to_solar(source.year, source.month, source.day)
}

} // verus!
