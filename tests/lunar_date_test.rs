use ttdl_lunar_calendar::lunar::{parse_ttdl_lunar_date, to_ttdl_solar_date_string, LunarDateSource};
use ttdl_lunar_calendar::text::{parse_i32, parse_u32, split_on};

#[test]
fn test_parse_ttdl_lunar_date() {
    assert_eq!(None, parse_ttdl_lunar_date("YYYY-MM-DD"));
    assert_eq!(None, parse_ttdl_lunar_date("2000-01-00"));
    assert_eq!(None, parse_ttdl_lunar_date("2000-00-01"));
    assert_eq!(None, parse_ttdl_lunar_date("01-01"));
    assert_eq!(None, parse_ttdl_lunar_date("-01-01"));
    assert_eq!(Some(LunarDateSource::new(0, 1, 1)), parse_ttdl_lunar_date("0000-01-01"));
    assert_eq!(Some(LunarDateSource::new(2000, 1, 1)), parse_ttdl_lunar_date("2000-01-01"));
}

#[test]
fn test_to_ttdl_solar_date_string() {
    assert_eq!("2000-02-05", to_ttdl_solar_date_string(LunarDateSource::new(2000, 1, 1)).unwrap());
}

#[test]
fn parse_lunar_date_rejects_extra_or_missing_parts() {
    assert_eq!(None, parse_ttdl_lunar_date("2000-01-01-01"));
    assert_eq!(None, parse_ttdl_lunar_date(""));
    assert_eq!(None, parse_ttdl_lunar_date("2000-01-"));
    assert_eq!(None, parse_ttdl_lunar_date("2000- 1-01"));
}

#[test]
fn parse_lunar_date_accepts_signs_and_wide_values() {
    assert_eq!(Some(LunarDateSource::new(2000, 13, 40)), parse_ttdl_lunar_date("+2000-13-40"));
    assert_eq!(Some(LunarDateSource::new(12, 1, 1)), parse_ttdl_lunar_date("12-1-1"));
    assert_eq!(None, parse_ttdl_lunar_date("2000-+-01"));
}

#[test]
fn solar_date_for_other_lunar_dates() {
    assert_eq!("2001-01-24", to_ttdl_solar_date_string(LunarDateSource::new(2001, 1, 1)).unwrap());
}

#[test]
fn solar_date_out_of_range() {
    assert_eq!(
        Err("year out of range".to_string()),
        to_ttdl_solar_date_string(LunarDateSource::new(1899, 1, 1))
    );
    assert_eq!(
        Err("year out of range".to_string()),
        to_ttdl_solar_date_string(LunarDateSource::new(2100, 1, 1))
    );
    assert_eq!(
        Err("day out of range".to_string()),
        to_ttdl_solar_date_string(LunarDateSource::new(2000, 1, 31))
    );
    assert_eq!(
        Err("month out of range".to_string()),
        to_ttdl_solar_date_string(LunarDateSource::new(2000, 13, 1))
    );
}

#[test]
fn integers_parse_as_from_str_does() {
    assert_eq!(Some(0), parse_i32("0000"));
    assert_eq!(Some(-42), parse_i32("-42"));
    assert_eq!(Some(42), parse_i32("+42"));
    assert_eq!(Some(i32::MAX), parse_i32("2147483647"));
    assert_eq!(Some(i32::MIN), parse_i32("-2147483648"));
    assert_eq!(None, parse_i32("2147483648"));
    assert_eq!(None, parse_i32("-2147483649"));
    assert_eq!(None, parse_i32("-"));
    assert_eq!(None, parse_i32("+"));
    assert_eq!(None, parse_i32(""));
    assert_eq!(None, parse_i32("1a"));
    assert_eq!(None, parse_i32(" 1"));
    assert_eq!(Some(u32::MAX), parse_u32("4294967295"));
    assert_eq!(None, parse_u32("4294967296"));
    assert_eq!(None, parse_u32("-1"));
    assert_eq!(None, parse_u32("-0"));
    assert_eq!(Some(7), parse_u32("+07"));
    for s in ["0", "12", "-12", "+3", "99999999999", "x", "", "-"] {
        assert_eq!(s.parse::<i32>().ok(), parse_i32(s));
        assert_eq!(s.parse::<u32>().ok(), parse_u32(s));
    }
}

#[test]
fn split_keeps_empty_pieces() {
    assert_eq!(vec![String::new()], split_on("", ','));
    assert_eq!(vec!["a".to_string(), String::new(), "b".to_string(), String::new()], split_on("a,,b,", ','));
    assert_eq!(vec!["2000", "01", "01"], split_on("2000-01-01", '-'));
}
