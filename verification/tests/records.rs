use datapack::codec::{read_json, render};
use datapack::error::{CompileError, EntryFault};
use datapack::json::Json;
use datapack::records::{
    insert_country_code, read_top_level_array, stamp_main_team_league_id, take_parent_club,
    validate_player_history,
};

fn json(text: &str) -> Json {
    read_json(text, "test.json").unwrap()
}

fn shown(value: Json) -> String {
    String::from_utf8(render(value).unwrap()).unwrap()
}

fn history_message(text: &str) -> Option<String> {
    validate_player_history(&json(text), "p.json").err().map(|e| e.message())
}

#[test]
fn fields_are_found_on_objects_only() {
    let value = json(r#"{"a":{"b":1},"s":"x"}"#);
    assert_eq!(value.get("a").unwrap().u64_at("b"), Some(1));
    assert!(value.get("z").is_none());
    assert!(json("[1]").get("a").is_none());
    assert!(value.str_at_is("s", "x"));
    assert!(!value.str_at_is("s", "y"));
    assert!(!value.str_at_is("a", "x"));
    assert_eq!(value.get("s").unwrap().as_str(), Some("x"));
}

#[test]
fn a_field_can_be_taken_once() {
    let mut value = json(r#"{"a":1,"b":2}"#);
    assert_eq!(value.take_field("a").unwrap().as_u64(), Some(1));
    assert!(value.take_field("a").is_none());
    assert_eq!(shown(value), r#"{"b":2}"#);
    assert!(json("3").take_field("a").is_none());
}

#[test]
fn a_field_that_is_there_is_not_replaced_by_a_default() {
    let mut value = json(r#"{"a":null}"#);
    value.set_field_if_absent("a", Json::unsigned(1));
    value.set_field_if_absent("b", Json::unsigned(2));
    assert_eq!(shown(value), r#"{"a":null,"b":2}"#);
}

#[test]
fn country_code_is_set_or_replaced() {
    let mut value = json(r#"{"id":1}"#);
    insert_country_code(&mut value, "mt");
    assert_eq!(shown(value), r#"{"country_code":"mt","id":1}"#);
    let mut value = json(r#"{"country_code":"xx"}"#);
    insert_country_code(&mut value, "mt");
    assert_eq!(shown(value), r#"{"country_code":"mt"}"#);
}

#[test]
fn country_code_leaves_what_is_no_object() {
    let mut value = json("[1]");
    insert_country_code(&mut value, "mt");
    assert_eq!(shown(value), "[1]");
}

#[test]
fn a_table_is_an_array() {
    let rows = read_top_level_array(json("[1,2]"), "continents.json").unwrap();
    assert_eq!(rows.len(), 2);
    let e = read_top_level_array(json("{}"), "continents.json").unwrap_err();
    assert!(matches!(e, CompileError::NotAnArray { .. }));
    assert_eq!(e.message(), "continents.json must contain a JSON array");
}

#[test]
fn history_may_be_absent_or_empty() {
    assert_eq!(history_message(r#"{"id":1}"#), None);
    assert_eq!(history_message(r#"{"history":[]}"#), None);
    assert_eq!(history_message("5"), None);
}

#[test]
fn history_with_seasons_and_clubs_is_well_formed() {
    assert_eq!(history_message(r#"{"history":[{"s":2020,"c":1},{"s":2021,"c":2,"x":0}]}"#), None);
}

#[test]
fn history_must_be_an_array() {
    assert_eq!(
        history_message(r#"{"history":{}}"#).unwrap(),
        "history in p.json must be an array"
    );
    assert_eq!(
        history_message(r#"{"history":null}"#).unwrap(),
        "history in p.json must be an array"
    );
}

#[test]
fn history_entries_must_be_objects() {
    assert_eq!(
        history_message(r#"{"history":[{"s":1,"c":1},7]}"#).unwrap(),
        "history[1] in p.json must be an object"
    );
}

#[test]
fn history_entries_must_have_a_season() {
    assert_eq!(
        history_message(r#"{"history":[{"c":1}]}"#).unwrap(),
        "history[0].s (season) in p.json must be an unsigned integer"
    );
    assert_eq!(
        history_message(r#"{"history":[{"s":-1}]}"#).unwrap(),
        "history[0].s (season) in p.json must be an unsigned integer"
    );
}

#[test]
fn history_entries_must_have_a_club() {
    assert_eq!(
        history_message(r#"{"history":[{"s":1,"c":"2"}]}"#).unwrap(),
        "history[0].c (club_id) in p.json must be an unsigned integer"
    );
}

#[test]
fn the_first_malformed_entry_is_reported() {
    let e = validate_player_history(
        &json(r#"{"history":[{"s":1,"c":1},{"s":1},3]}"#),
        "p.json",
    )
    .unwrap_err();
    match e {
        CompileError::HistoryEntry { path, index, fault } => {
            assert_eq!(path, "p.json");
            assert_eq!(index, 1);
            assert_eq!(fault, EntryFault::Club);
        }
        other => panic!("{:?}", other),
    }
}

#[test]
fn every_main_team_is_stamped_and_no_other() {
    let mut club = json(
        r#"{"id":1,"teams":[{"team_type":"Main"},{"team_type":"B"},{"team_type":"Main","league_id":9},4]}"#,
    );
    stamp_main_team_league_id(&mut club, 120);
    assert_eq!(
        shown(club),
        r#"{"id":1,"teams":[{"league_id":120,"team_type":"Main"},{"team_type":"B"},{"league_id":120,"team_type":"Main"},4]}"#
    );
}

#[test]
fn a_club_without_teams_is_not_stamped() {
    for text in [r#"{"id":1}"#, r#"{"teams":7}"#, "[]"] {
        let mut club = json(text);
        stamp_main_team_league_id(&mut club, 120);
        assert_eq!(shown(club), text);
    }
}

#[test]
fn a_parent_club_is_taken_off() {
    let mut club = json(r#"{"id":2,"parent_club":{"id":1,"team_type":"U21"}}"#);
    let parent = take_parent_club(&mut club).unwrap();
    assert_eq!(parent.id, 1);
    assert_eq!(parent.team_type, "U21");
    assert_eq!(shown(club), r#"{"id":2}"#);
}

#[test]
fn a_parent_club_without_team_type_means_b() {
    let mut club = json(r#"{"parent_club":{"id":1}}"#);
    assert_eq!(take_parent_club(&mut club).unwrap().team_type, "B");
    let mut club = json(r#"{"parent_club":{"id":1,"team_type":3}}"#);
    assert_eq!(take_parent_club(&mut club).unwrap().team_type, "B");
}

#[test]
fn a_malformed_parent_club_is_taken_off_but_names_nobody() {
    for text in [r#"{"parent_club":7}"#, r#"{"parent_club":{"id":"1"}}"#, r#"{"parent_club":{}}"#] {
        let mut club = json(text);
        assert!(take_parent_club(&mut club).is_none());
        assert_eq!(shown(club), "{}");
    }
    assert!(take_parent_club(&mut json(r#"{"id":1}"#)).is_none());
    assert!(take_parent_club(&mut json("1")).is_none());
}
