use ttdl_lunar_calendar::convert::run;
use ttdl_lunar_calendar::record::{Entry, TtdlPluginMessage};

fn groups(entries: &[(&str, &str)]) -> Vec<Vec<Entry>> {
    entries.iter().map(|(n, v)| vec![Entry::new(n, v)]).collect()
}

fn message(
    description: &str,
    special_tags: &[(&str, &str)],
    optional: Option<&[(&str, &str)]>,
) -> TtdlPluginMessage {
    TtdlPluginMessage {
        description: description.to_string(),
        optional: optional.map(groups),
        special_tags: groups(special_tags),
    }
}

#[test]
fn test_run_with_empty_lunar_calendar() {
    // There is no such case because the `value` of special tags must consist of
    // non-whitespace characters.
}

#[test]
fn test_run_with_multiple_lunar_calendar_special_tags() {
    // There is no such case because special tags is a dictionary: a name appears
    // once in a record.
}

#[test]
fn test_run_with_lunar_calendar_but_invalid_lunar_calendar_format() {
    let input = message(
        "test",
        &[("due", "2000-01-01"), ("tag", "2000-01-01"), ("!lunar-calendar", "#due, #tag")],
        None,
    );
    let expected_output = message(
        r##"[ERR(ttdl-lunar-calendar) not found " #tag"] test"##,
        &[("due", "2000-01-01"), ("tag", "2000-01-01"), ("!lunar-calendar", "#due, #tag")],
        None,
    );
    let actual_output = run(input).unwrap();
    assert_eq!(expected_output, actual_output);
}

#[test]
fn test_run_with_lunar_calendar_but_duplicated_items() {
    let input = message(
        "test",
        &[("due", "2000-01-01"), ("tag", "2000-01-01"), ("!lunar-calendar", "#due,#tag,#tag")],
        None,
    );
    let expected_output = message(
        r##"[ERR(ttdl-lunar-calendar) duplicated "#tag"] test"##,
        &[("due", "2000-01-01"), ("tag", "2000-01-01"), ("!lunar-calendar", "#due,#tag,#tag")],
        None,
    );
    let actual_output = run(input).unwrap();
    assert_eq!(expected_output, actual_output);
}

#[test]
fn test_run_with_lunar_calendar_but_special_tag_not_found() {
    let input = message(
        "test",
        &[("due", "2000-01-01"), ("!lunar-calendar", "#due,#nonexistent")],
        None,
    );
    let expected_output = message(
        r##"[ERR(ttdl-lunar-calendar) not found "#nonexistent"] test"##,
        &[("due", "2000-01-01"), ("!lunar-calendar", "#due,#nonexistent")],
        None,
    );
    let actual_output = run(input).unwrap();
    assert_eq!(expected_output, actual_output);
}

#[test]
fn test_run_with_lunar_calendar_but_optional_not_found() {
    let input = message("test", &[("due", "2000-01-01"), ("!lunar-calendar", "#due,created")], None);
    let expected_output = message(
        r##"[ERR(ttdl-lunar-calendar) not found "created"] test"##,
        &[("due", "2000-01-01"), ("!lunar-calendar", "#due,created")],
        None,
    );
    let actual_output = run(input).unwrap();
    assert_eq!(expected_output, actual_output);
}

#[test]
fn test_run_with_lunar_calendar_but_unexpected_date_format() {
    let input = message(
        "test",
        &[("due", "2000-01-01"), ("tag", "2000-01-aa"), ("!lunar-calendar", "#due,#tag")],
        None,
    );
    let expected_output = message(
        r##"[ERR(ttdl-lunar-calendar) unexpected format for "#tag"] test"##,
        &[("due", "2000-01-01"), ("tag", "2000-01-aa"), ("!lunar-calendar", "#due,#tag")],
        None,
    );
    let actual_output = run(input).unwrap();
    assert_eq!(expected_output, actual_output);
}

#[test]
fn test_run_with_lunar_calendar_but_unexpected_solar_date() {
    let input = message(
        "test",
        &[("due", "2000-01-01"), ("tag", "2000-01-31"), ("!lunar-calendar", "#due,#tag")],
        None,
    );
    let expected_description_head = r##"[ERR(ttdl-lunar-calendar) unexpected value for "#tag": "##;
    let actual_output = run(input).unwrap();
    let actual_description = actual_output.description.clone();
    assert!(actual_description.contains(expected_description_head));
}

#[test]
fn test_run_with_lunar_calendar_ok() {
    let input = message(
        "test",
        &[
            ("due", "2000-01-01"),
            ("tag-lunar-calendar", "2000-01-01"),
            ("tag-gregorian-calendar", "2000-01-01"),
            ("!lunar-calendar", "created,#due,#tag-lunar-calendar"),
        ],
        Some(&[("created", "2000-01-01"), ("finished", "2000-01-01")]),
    );
    let expected_output = message(
        "test",
        &[
            ("due", "2000-02-05"),
            ("tag-lunar-calendar", "2000-02-05"),
            ("tag-gregorian-calendar", "2000-01-01"),
            ("!lunar-calendar", "created,#due,#tag-lunar-calendar"),
        ],
        Some(&[("created", "2000-02-05"), ("finished", "2000-01-01")]),
    );
    let actual_output = run(input).unwrap();
    assert_eq!(expected_output, actual_output);
}
