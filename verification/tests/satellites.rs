use datapack::codec::{read_json, render};
use datapack::error::CompileError;
use datapack::json::Json;
use datapack::satellites::{apply_satellites, SatelliteSpec};

fn json(text: &str) -> Json {
    read_json(text, "test.json").unwrap()
}

fn list(text: &str) -> Vec<Json> {
    match json(text) {
        Json::Array(items) => items,
        _ => panic!("no array"),
    }
}

fn shown(values: Vec<Json>) -> String {
    String::from_utf8(render(Json::Array(values)).unwrap()).unwrap()
}

fn satellite(club: &str, players: &str) -> SatelliteSpec {
    SatelliteSpec {
        parent_id: 1,
        team_type: "B".to_string(),
        league_id: 7,
        satellite_club: json(club),
        players: list(players),
        source_path: "mt/second/club-b/club.json".to_string(),
    }
}

const CLUB_B: &str = r#"{"id":50,"teams":[{"team_type":"U18","id":60},{"team_type":"Main","id":51}]}"#;

#[test]
fn a_satellite_becomes_a_team_of_its_parent() {
    let mut clubs = list(r#"[{"id":2,"teams":[]},{"id":1,"teams":[{"team_type":"Main","id":10}]}]"#);
    let mut players = list(r#"[{"id":100}]"#);
    let spec = satellite(CLUB_B, r#"[{"id":101,"club_id":50},{"id":102}]"#);
    apply_satellites(&mut clubs, &mut players, vec![spec]).unwrap();
    assert_eq!(
        shown(clubs),
        r#"[{"id":2,"teams":[]},{"id":1,"teams":[{"id":10,"team_type":"Main"},{"id":51,"league_id":7,"team_type":"B"}]}]"#
    );
    assert_eq!(
        shown(players),
        r#"[{"id":100},{"club_id":1,"id":101,"team_type_hint":"B"},{"club_id":1,"id":102,"team_type_hint":"B"}]"#
    );
}

#[test]
fn a_declared_team_stays_and_gets_a_league() {
    let mut clubs = list(r#"[{"id":1,"teams":[{"team_type":"B","id":51,"name":"ours"}]}]"#);
    let mut players = Vec::new();
    apply_satellites(&mut clubs, &mut players, vec![satellite(CLUB_B, "[{}]")]).unwrap();
    assert_eq!(
        shown(clubs),
        r#"[{"id":1,"teams":[{"id":51,"league_id":7,"name":"ours","team_type":"B"}]}]"#
    );
    assert_eq!(players.len(), 1);
}

#[test]
fn a_declared_team_keeps_its_league() {
    let mut clubs = list(r#"[{"id":1,"teams":[{"team_type":"B","league_id":3}]}]"#);
    let mut players = Vec::new();
    apply_satellites(&mut clubs, &mut players, vec![satellite(CLUB_B, "[]")]).unwrap();
    assert_eq!(shown(clubs), r#"[{"id":1,"teams":[{"league_id":3,"team_type":"B"}]}]"#);
}

#[test]
fn a_second_satellite_of_one_type_finds_the_team_of_the_first() {
    let mut clubs = list(r#"[{"id":1,"teams":[]}]"#);
    let mut players = Vec::new();
    let specs = vec![
        satellite(CLUB_B, "[{}]"),
        satellite(r#"{"teams":[{"team_type":"Main","id":99}]}"#, "[{}]"),
    ];
    apply_satellites(&mut clubs, &mut players, specs).unwrap();
    assert_eq!(shown(clubs), r#"[{"id":1,"teams":[{"id":51,"league_id":7,"team_type":"B"}]}]"#);
    assert_eq!(players.len(), 2);
}

#[test]
fn a_team_without_id_joins() {
    let mut clubs = list(r#"[{"id":1,"teams":[{"team_type":"Main"}]}]"#);
    let mut players = Vec::new();
    let spec = satellite(r#"{"teams":[{"team_type":"Main"}]}"#, "[]");
    apply_satellites(&mut clubs, &mut players, vec![spec]).unwrap();
    assert_eq!(
        shown(clubs),
        r#"[{"id":1,"teams":[{"team_type":"Main"},{"league_id":7,"team_type":"B"}]}]"#
    );
}

#[test]
fn a_player_that_is_no_object_is_kept() {
    let mut clubs = list(r#"[{"id":1,"teams":[]}]"#);
    let mut players = Vec::new();
    apply_satellites(&mut clubs, &mut players, vec![satellite(CLUB_B, "[5]")]).unwrap();
    assert_eq!(shown(players), "[5]");
}

#[test]
fn the_first_club_with_the_id_is_the_parent() {
    let mut clubs = list(r#"[{"id":1,"teams":[]},{"id":1,"teams":[]}]"#);
    let mut players = Vec::new();
    apply_satellites(&mut clubs, &mut players, vec![satellite(CLUB_B, "[]")]).unwrap();
    assert_eq!(
        shown(clubs),
        r#"[{"id":1,"teams":[{"id":51,"league_id":7,"team_type":"B"}]},{"id":1,"teams":[]}]"#
    );
}

#[test]
fn a_missing_parent_is_an_error() {
    let mut clubs = list(r#"[{"id":2,"teams":[]}]"#);
    let mut players = Vec::new();
    let e = apply_satellites(&mut clubs, &mut players, vec![satellite(CLUB_B, "[]")]).unwrap_err();
    assert!(matches!(e, CompileError::ParentMissing { parent_id: 1, .. }));
    assert_eq!(
        e.message(),
        "mt/second/club-b/club.json declares parent_club id 1 but no such club was found"
    );
}

#[test]
fn a_satellite_without_main_team_is_an_error() {
    for club in [r#"{}"#, r#"{"teams":[{"team_type":"B"}]}"#, r#"{"teams":3}"#] {
        let mut clubs = list(r#"[{"id":1,"teams":[]}]"#);
        let mut players = Vec::new();
        let e = apply_satellites(&mut clubs, &mut players, vec![satellite(club, "[]")]).unwrap_err();
        assert!(matches!(e, CompileError::NoMainTeam { .. }));
        assert_eq!(
            e.message(),
            "mt/second/club-b/club.json has no Main team — satellite directories must define one"
        );
    }
}

#[test]
fn a_parent_without_teams_is_an_error() {
    for parents in [r#"[{"id":1}]"#, r#"[{"id":1,"teams":{}}]"#] {
        let mut clubs = list(parents);
        let mut players = Vec::new();
        let e = apply_satellites(&mut clubs, &mut players, vec![satellite(CLUB_B, "[]")])
            .unwrap_err();
        assert!(matches!(e, CompileError::NoParentTeams { parent_id: 1 }));
        assert_eq!(e.message(), "parent club 1 has no teams[] to attach satellite to");
        assert_eq!(shown(clubs), parents);
    }
}

#[test]
fn a_taken_team_id_is_an_error() {
    let parents = r#"[{"id":1,"teams":[{"id":51,"team_type":"U21"}]}]"#;
    let mut clubs = list(parents);
    let mut players = Vec::new();
    let e = apply_satellites(&mut clubs, &mut players, vec![satellite(CLUB_B, "[{}]")]).unwrap_err();
    assert!(matches!(e, CompileError::TeamIdTaken { team_id: 51, parent_id: 1, .. }));
    assert_eq!(
        e.message(),
        "mt/second/club-b/club.json would attach team id 51 as B on parent 1, but that id already exists as U21. Either drop the predeclared slot from the parent's club.json or set parent_club.team_type to match it."
    );
    assert_eq!(shown(clubs), parents);
    assert_eq!(players.len(), 0);
}

#[test]
fn a_taken_team_id_of_an_untyped_team_is_an_error() {
    let mut clubs = list(r#"[{"id":1,"teams":[{"id":51}]}]"#);
    let e = apply_satellites(&mut clubs, &mut Vec::new(), vec![satellite(CLUB_B, "[]")]).unwrap_err();
    match e {
        CompileError::TeamIdTaken { other_type, .. } => assert_eq!(other_type, "?"),
        other => panic!("{:?}", other),
    }
}

#[test]
fn satellites_before_a_failing_one_are_folded() {
    let mut clubs = list(r#"[{"id":1,"teams":[]}]"#);
    let mut players = Vec::new();
    let specs = vec![satellite(CLUB_B, "[{}]"), satellite("{}", "[{}]")];
    assert!(apply_satellites(&mut clubs, &mut players, specs).is_err());
    assert_eq!(shown(clubs), r#"[{"id":1,"teams":[{"id":51,"league_id":7,"team_type":"B"}]}]"#);
    assert_eq!(players.len(), 1);
}

#[test]
fn the_order_of_clubs_does_not_matter() {
    let parent = r#"{"id":1,"teams":[]}"#;
    let other = r#"{"id":2,"teams":[]}"#;
    let folded = r#"{"id":1,"teams":[{"id":51,"league_id":7,"team_type":"B"}]}"#;
    for swap in [false, true] {
        let texts = if swap { [other, parent] } else { [parent, other] };
        let expected = if swap { [other, folded] } else { [folded, other] };
        let mut clubs = list(&format!("[{},{}]", texts[0], texts[1]));
        apply_satellites(&mut clubs, &mut Vec::new(), vec![satellite(CLUB_B, "[]")]).unwrap();
        assert_eq!(shown(clubs), format!("[{},{}]", expected[0], expected[1]));
    }
}

#[test]
fn team_ids_stay_distinct() {
    let mut clubs = list(r#"[{"id":1,"teams":[{"id":10,"team_type":"Main"}]}]"#);
    apply_satellites(&mut clubs, &mut Vec::new(), vec![satellite(CLUB_B, "[]")]).unwrap();
    let teams = clubs[0].get("teams").unwrap().as_array().unwrap();
    assert_eq!(teams.len(), 2);
    assert_ne!(teams[0].u64_at("id"), teams[1].u64_at("id"));
}
