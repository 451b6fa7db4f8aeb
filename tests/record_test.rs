use ttdl_lunar_calendar::convert::{annotate, run, ConversionError};
use ttdl_lunar_calendar::message::{
    parse_directive, ConversionPointer, PolishedTtdlPluginMessage, RecordError,
};
use ttdl_lunar_calendar::record::{Entry, FieldMap, TtdlPluginMessage};

fn groups(entries: &[(&str, &str)]) -> Vec<Vec<Entry>> {
    entries.iter().map(|(n, v)| vec![Entry::new(n, v)]).collect()
}

fn message(
    description: &str,
    special_tags: &[(&str, &str)],
    optional: Option<&[(&str, &str)]>,
) -> TtdlPluginMessage {
    TtdlPluginMessage {
        description: description.to_string(),
        optional: optional.map(groups),
        special_tags: groups(special_tags),
    }
}

#[test]
fn no_directive_is_identity() {
    let input = message("plain", &[("due", "2000-01-01"), ("due", "x")], Some(&[("created", "bad")]));
    assert_eq!(input.clone(), run(input).unwrap());
}

#[test]
fn no_directive_twice_gives_the_same_output() {
    let input = message("plain", &[("due", "2000-01-01")], None);
    let once = run(input.clone()).unwrap();
    let twice = run(once.clone()).unwrap();
    assert_eq!(once, twice);
    assert_eq!(input, twice);
}

#[test]
fn single_converted_field() {
    let input = message("t", &[("due", "2000-01-01"), ("!lunar-calendar", "#due")], None);
    let expected = message("t", &[("due", "2000-02-05"), ("!lunar-calendar", "#due")], None);
    assert_eq!(expected, run(input).unwrap());
}

#[test]
fn not_found_keeps_every_field() {
    let input = message("t", &[("due", "2000-01-01"), ("!lunar-calendar", "#tag")], None);
    let expected = message(
        r##"[ERR(ttdl-lunar-calendar) not found "#tag"] t"##,
        &[("due", "2000-01-01"), ("!lunar-calendar", "#tag")],
        None,
    );
    assert_eq!(expected, run(input).unwrap());
}

#[test]
fn failure_after_a_conversion_reverts_it() {
    let input = message(
        "t",
        &[("due", "2000-01-01"), ("tag", "1800-01-01"), ("!lunar-calendar", "#due,#tag")],
        None,
    );
    let expected = message(
        r##"[ERR(ttdl-lunar-calendar) unexpected value for "#tag": year out of range] t"##,
        &[("due", "2000-01-01"), ("tag", "1800-01-01"), ("!lunar-calendar", "#due,#tag")],
        None,
    );
    assert_eq!(expected, run(input).unwrap());
}

#[test]
fn cross_namespace_resolution() {
    let input = message(
        "t",
        &[("x", "1"), ("due", "2000-01-01"), ("!lunar-calendar", "created,#due")],
        Some(&[("created", "2001-01-01"), ("finished", "2000-01-01")]),
    );
    let expected = message(
        "t",
        &[("x", "1"), ("due", "2000-02-05"), ("!lunar-calendar", "created,#due")],
        Some(&[("created", "2001-01-24"), ("finished", "2000-01-01")]),
    );
    assert_eq!(expected, run(input).unwrap());
}

#[test]
fn same_name_in_both_collections_is_two_fields() {
    let input = message(
        "t",
        &[("due", "2000-01-01"), ("!lunar-calendar", "due")],
        Some(&[("due", "2001-01-01")]),
    );
    let expected = message(
        "t",
        &[("due", "2000-01-01"), ("!lunar-calendar", "due")],
        Some(&[("due", "2001-01-24")]),
    );
    assert_eq!(expected, run(input).unwrap());
}

#[test]
fn empty_pieces_of_the_directive_are_skipped() {
    let input = message("t", &[("due", "2000-01-01"), ("!lunar-calendar", ",#due,,")], None);
    let expected = message("t", &[("due", "2000-02-05"), ("!lunar-calendar", ",#due,,")], None);
    assert_eq!(expected, run(input).unwrap());
    let empty = message("t", &[("due", "2000-01-01"), ("!lunar-calendar", "")], None);
    assert_eq!(empty.clone(), run(empty).unwrap());
}

#[test]
fn repeated_name_in_a_collection_is_refused() {
    let input = message("t", &[("due", "1"), ("due", "2"), ("!lunar-calendar", "#due")], None);
    match run(input) {
        Err(RecordError::DuplicateSpecialTag(n)) => assert_eq!("due", n),
        other => panic!("unexpected {:?}", other),
    }
    let input = message("t", &[("!lunar-calendar", "a")], Some(&[("a", "1"), ("a", "2")]));
    match run(input) {
        Err(RecordError::DuplicateOptional(n)) => assert_eq!("a", n),
        other => panic!("unexpected {:?}", other),
    }
}

#[test]
fn round_trip_keeps_groups_and_order() {
    let input = TtdlPluginMessage {
        description: "d".to_string(),
        optional: Some(vec![vec![], vec![Entry::new("a", "1"), Entry::new("b", "2")]]),
        special_tags: groups(&[("z", "1"), ("a", "2"), ("m", "3")]),
    };
    let polished = PolishedTtdlPluginMessage::normalize(&input).unwrap();
    assert_eq!(Some("2".to_string()), polished.get_special_tag_value("a"));
    assert_eq!(None, polished.get_special_tag_value("b"));
    assert_eq!(input, polished.denormalize());
}

#[test]
fn field_map_positions() {
    let map = FieldMap::from_groups(&groups(&[("a", "1"), ("b", "2")])).unwrap();
    assert_eq!(2, map.groups);
    assert_eq!(Some(1), map.position(&"b".to_string()));
    assert_eq!(None, map.position(&"c".to_string()));
    assert_eq!(Err("a".to_string()), FieldMap::from_groups(&groups(&[("a", "1"), ("a", "2")])).map(|m| m.groups));
}

#[test]
fn directive_pieces() {
    let pointers = parse_directive("created,#due, #x,,#");
    let described: Vec<(bool, String, String)> = pointers
        .into_iter()
        .map(|p| match p {
            ConversionPointer::SpecialTags(e, n) => (true, e, n),
            ConversionPointer::Optional(e, n) => (false, e, n),
        })
        .collect();
    assert_eq!(
        vec![
            (false, "created".to_string(), "created".to_string()),
            (true, "#due".to_string(), "due".to_string()),
            (false, " #x".to_string(), " #x".to_string()),
            (true, "#".to_string(), String::new()),
        ],
        described
    );
    assert!(parse_directive("").is_empty());
}

#[test]
fn plugin_value_from_record() {
    let input = message("t", &[("!lunar-calendar", "#due,created")], None);
    let polished = PolishedTtdlPluginMessage::normalize(&input).unwrap();
    assert_eq!(2, polished.parse_plugin_value().len());
}

#[test]
fn error_annotations() {
    let d = "desc".to_string();
    assert_eq!(
        r##"[ERR(ttdl-lunar-calendar) duplicated "#a"] desc"##,
        annotate(&d, &ConversionError::Duplicated("#a".to_string()))
    );
    assert_eq!(
        r##"[ERR(ttdl-lunar-calendar) not found "b"] desc"##,
        annotate(&d, &ConversionError::NotFound("b".to_string()))
    );
    assert_eq!(
        r##"[ERR(ttdl-lunar-calendar) unexpected format for "#c"] desc"##,
        annotate(&d, &ConversionError::UnexpectedFormat("#c".to_string()))
    );
    assert_eq!(
        r##"[ERR(ttdl-lunar-calendar) unexpected value for "#c": day out of range] desc"##,
        annotate(&d, &ConversionError::UnexpectedValue("#c".to_string(), "day out of range".to_string()))
    );
}
