use datapack::codec::read_json;
use datapack::json::Json;
use datapack::refs::{unknown_refs, warning_lines};

fn list(text: &str) -> Vec<Json> {
    match read_json(text, "test.json").unwrap() {
        Json::Array(items) => items,
        _ => panic!("no array"),
    }
}

#[test]
fn unknown_clubs_are_found_in_order() {
    let clubs = list(r#"[{"id":1},{"id":2},{"name":"x"}]"#);
    let players = list(
        r#"[{"id":10,"history":[{"s":1,"c":1},{"s":2,"c":3},{"s":3,"c":3}]},
            {"history":[{"c":9}]},
            {"id":11},
            {"id":12,"history":[{"c":2},{"c":4},{"s":1},5]},
            {"id":13,"history":7}]"#,
    );
    assert_eq!(unknown_refs(&players, &clubs), [(10, 3), (10, 3), (12, 4)]);
}

#[test]
fn known_clubs_are_not_reported() {
    let clubs = list(r#"[{"id":1}]"#);
    let players = list(r#"[{"id":10,"history":[{"c":1}]}]"#);
    assert!(unknown_refs(&players, &clubs).is_empty());
}

#[test]
fn nothing_to_warn_of_gives_no_lines() {
    assert!(warning_lines(&Vec::new()).is_empty());
}

#[test]
fn one_reference_is_an_entry() {
    assert_eq!(
        warning_lines(&vec![(10, 3)]),
        ["warning: 1 history entry reference unknown club_id:", "  player 10 -> club_id 3"]
    );
}

#[test]
fn twenty_references_are_all_listed() {
    let refs: Vec<(u64, u64)> = (0..20).map(|i| (i, 100 + i)).collect();
    let lines = warning_lines(&refs);
    assert_eq!(lines.len(), 21);
    assert_eq!(lines[0], "warning: 20 history entries reference unknown club_id:");
    assert_eq!(lines[20], "  player 19 -> club_id 119");
}

#[test]
fn further_references_are_counted() {
    let refs: Vec<(u64, u64)> = (0..123).map(|i| (i, u64::MAX)).collect();
    let lines = warning_lines(&refs);
    assert_eq!(lines.len(), 22);
    assert_eq!(lines[0], "warning: 123 history entries reference unknown club_id:");
    assert_eq!(lines[20], "  player 19 -> club_id 18446744073709551615");
    assert_eq!(lines[21], "  ... and 103 more");
}
