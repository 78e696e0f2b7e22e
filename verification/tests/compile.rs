use datapack::codec::{pack, read_json, render};
use datapack::collected::Collected;
use datapack::document::{build, Counts, Database, OUTPUT_VERSION};
use datapack::error::CompileError;
use datapack::json::Json;
use datapack::listing::Entry;
use datapack::questions::{Action, Child, Place, Reply, ROOT};
use datapack::walk::Walk;
use std::io::Read;

/// A tree in memory: the paths of its files, and what they hold.
struct Files<'a> {
    files: Vec<(&'a str, &'a str)>,
    table: Vec<String>,
    backwards: bool,
    asked: usize,
}

impl<'a> Files<'a> {
    fn path(&self, place: Place) -> String {
        match place.child.name() {
            Some(name) => format!("{}/{}", self.table[place.base], name),
            None => self.table[place.base].clone(),
        }
    }

    fn is_dir(&self, path: &str) -> bool {
        let prefix = format!("{}/", path);
        self.files.iter().any(|(p, _)| p.starts_with(&prefix))
    }

    fn is_file(&self, path: &str) -> bool {
        self.files.iter().any(|(p, _)| *p == path)
    }

    fn list(&mut self, path: &str) -> Vec<Entry> {
        let prefix = format!("{}/", path);
        let mut names: Vec<String> = Vec::new();
        for (p, _) in &self.files {
            if let Some(rest) = p.strip_prefix(&prefix) {
                let name = rest.split('/').next().unwrap().to_string();
                if !names.contains(&name) {
                    names.push(name);
                }
            }
        }
        if self.backwards {
            names.reverse();
        }
        names
            .into_iter()
            .map(|name| {
                let path = format!("{}{}", prefix, name);
                self.table.push(path.clone());
                Entry {
                    id: self.table.len() - 1,
                    name: Some(name.into_bytes()),
                    is_dir: self.is_dir(&path),
                    is_file: self.is_file(&path),
                    path,
                }
            })
            .collect()
    }

    fn read(&self, path: &str) -> &'a str {
        self.files.iter().find(|(p, _)| *p == path).unwrap().1
    }
}

fn drive(files: &mut Files) -> Result<Collected, CompileError> {
    let mut walk = Walk::new("data");
    loop {
        let action = walk.next_action();
        if action != Action::Finished {
            files.asked += 1;
        }
        match action {
            Action::Finished => return Ok(walk.into_collected()),
            Action::IsDir(place) => {
                walk.advance(Reply::Answer(files.is_dir(&files.path(place))))?;
            }
            Action::IsFile(place) => {
                walk.advance(Reply::Answer(files.is_file(&files.path(place))))?;
            }
            Action::List(place) => {
                let path = files.path(place);
                walk.advance(Reply::Listing(files.list(&path)))?;
            }
            Action::Read(place) => {
                let path = files.path(place);
                walk.advance_with_text(files.read(&path), &path)?;
            }
        }
    }
}

fn walked(files: Vec<(&str, &str)>, backwards: bool) -> Result<Collected, CompileError> {
    drive(&mut Files { files, table: vec!["data".to_string()], backwards, asked: 0 })
}

fn compiled(files: Vec<(&str, &str)>, backwards: bool) -> Result<Database, CompileError> {
    build(walked(files, backwards)?)
}

fn shown(value: Json) -> String {
    String::from_utf8(render(value).unwrap()).unwrap()
}

fn shown_list(values: Vec<Json>) -> String {
    shown(Json::Array(values))
}

const TABLES: [(&str, &str); 3] = [
    ("data/continents.json", r#"[{"id":1}]"#),
    ("data/countries.json", r#"[{"id":10},{"id":11}]"#),
    ("data/national_competitions.json", "[]"),
];

fn tables_and<'a>(more: Vec<(&'a str, &'a str)>) -> Vec<(&'a str, &'a str)> {
    let mut files = TABLES.to_vec();
    files.extend(more);
    files
}

fn whole() -> Vec<(&'static str, &'static str)> {
    tables_and(vec![
        ("data/domestic_cups.json", r#"[{"slug":"cup"}]"#),
        ("data/readme.txt", "no JSON"),
        ("data/mt/names.json", r#"{"first":["A"]}"#),
        ("data/mt/free_agents/9.json", r#"{"id":9}"#),
        ("data/mt/free_agents/notes.txt", "no JSON"),
        ("data/mt/premier/league.json", r#"{"id":120}"#),
        ("data/mt/premier/birk/club.json", r#"{"id":1,"teams":[{"team_type":"Main","id":100}]}"#),
        ("data/mt/premier/birk/players/2.JSON", r#"{"id":2,"history":[{"s":2020,"c":1}]}"#),
        ("data/mt/premier/birk/players/1.json", r#"{"id":1,"history":[{"s":2020,"c":77}]}"#),
        ("data/mt/premier/empty/players/3.json", r#"{"id":3}"#),
        ("data/mt/second/league.json", r#"{"id":121}"#),
        (
            "data/mt/second/birk-b/club.json",
            r#"{"id":5,"parent_club":{"id":1},"teams":[{"team_type":"Main","id":500}]}"#,
        ),
        ("data/mt/second/birk-b/players/4.json", r#"{"id":4}"#),
        ("data/mt/docs/about.json", "no JSON"),
        ("data/al/superiore/league.json", r#"{"id":5}"#),
        ("data/al/superiore/tirana/club.json", r#"{"id":6,"parent_club":0}"#),
    ])
}

#[test]
fn a_whole_tree_is_gathered_in_order() {
    let c = walked(whole(), false).unwrap();
    assert_eq!(shown_list(c.continents), r#"[{"id":1}]"#);
    assert_eq!(shown_list(c.countries), r#"[{"id":10},{"id":11}]"#);
    assert_eq!(shown_list(c.national_competitions), "[]");
    assert_eq!(shown_list(c.domestic_cups), r#"[{"slug":"cup"}]"#);
    assert_eq!(
        shown_list(c.leagues),
        r#"[{"country_code":"al","id":5},{"country_code":"mt","id":120},{"country_code":"mt","id":121}]"#
    );
    assert_eq!(
        shown_list(c.clubs),
        r#"[{"country_code":"al","id":6},{"country_code":"mt","id":1,"teams":[{"id":100,"league_id":120,"team_type":"Main"}]}]"#
    );
    assert_eq!(shown_list(c.names), r#"[{"country_code":"mt","first":["A"]}]"#);
    assert_eq!(
        shown_list(c.players),
        r#"[{"id":9},{"history":[{"c":77,"s":2020}],"id":1},{"history":[{"c":1,"s":2020}],"id":2}]"#
    );
    assert_eq!(c.satellites.len(), 1);
    let satellite = &c.satellites[0];
    assert_eq!(satellite.parent_id, 1);
    assert_eq!(satellite.team_type, "B");
    assert_eq!(satellite.league_id, 121);
    assert_eq!(satellite.players.len(), 1);
    assert_eq!(satellite.source_path, "data/mt/second/birk-b/club.json");
    assert!(satellite.satellite_club.get("parent_club").is_none());
}

#[test]
fn a_whole_tree_is_compiled() {
    let database = compiled(whole(), false).unwrap();
    assert_eq!(
        database.counts,
        Counts {
            continents: 1,
            countries: 2,
            national_competitions: 0,
            domestic_cups: 1,
            leagues: 3,
            clubs: 2,
            names: 1,
            players: 4,
        }
    );
    assert_eq!(
        database.counts.summary(),
        "v0.01 — 1 continents, 2 countries, 0 national_competitions, 1 domestic_cups, 3 leagues, 2 clubs, 1 names, 4 players"
    );
    assert_eq!(database.unknown_refs, [(1, 77)]);
    assert_eq!(OUTPUT_VERSION, "0.01");
    let expected = concat_document();
    let packed = pack(database.document).unwrap();
    let mut text = String::new();
    flate2::read::GzDecoder::new(packed.bytes.as_slice()).read_to_string(&mut text).unwrap();
    assert_eq!(text, expected);
    assert_eq!(packed.uncompressed, expected.len());
}

fn concat_document() -> String {
    [
        r#"{"clubs":[{"country_code":"al","id":6},{"country_code":"mt","id":1,"teams":[{"id":100,"league_id":120,"team_type":"Main"},{"id":500,"league_id":121,"team_type":"B"}]}],"#,
        r#""continents":[{"id":1}],"countries":[{"id":10},{"id":11}],"domestic_cups":[{"slug":"cup"}],"#,
        r#""leagues":[{"country_code":"al","id":5},{"country_code":"mt","id":120},{"country_code":"mt","id":121}],"#,
        r#""names":[{"country_code":"mt","first":["A"]}],"national_competitions":[],"#,
        r#""players":[{"id":9},{"history":[{"c":77,"s":2020}],"id":1},{"history":[{"c":1,"s":2020}],"id":2},{"club_id":1,"id":4,"team_type_hint":"B"}],"#,
        r#""version":"0.01"}"#,
    ]
    .concat()
}

#[test]
fn the_order_of_listings_does_not_matter() {
    let forwards = compiled(whole(), false).unwrap();
    let backwards = compiled(whole(), true).unwrap();
    assert_eq!(shown(forwards.document), shown(backwards.document));
}

#[test]
fn a_satellite_may_be_read_before_its_parent() {
    let files = tables_and(vec![
        ("data/aa/l/league.json", r#"{"id":1}"#),
        (
            "data/aa/l/sat/club.json",
            r#"{"parent_club":{"id":7,"team_type":"U21"},"teams":[{"team_type":"Main"}]}"#,
        ),
        ("data/zz/l/league.json", r#"{"id":2}"#),
        ("data/zz/l/top/club.json", r#"{"id":7,"teams":[]}"#),
    ]);
    let database = compiled(files, false).unwrap();
    let text = shown(database.document);
    assert!(text.contains(
        r#""clubs":[{"country_code":"zz","id":7,"teams":[{"league_id":1,"team_type":"U21"}]}]"#
    ));
}

#[test]
fn the_first_question_is_whether_there_is_a_tree() {
    let walk = Walk::new("data");
    assert_eq!(walk.next_action(), Action::IsDir(Place { base: ROOT, child: Child::Itself }));
}

#[test]
fn a_missing_tree_is_an_error() {
    let e = walked(Vec::new(), false).unwrap_err();
    assert!(matches!(e, CompileError::DataDirMissing { .. }));
    assert_eq!(e.message(), "data directory not found: data");
}

#[test]
fn a_table_that_is_no_array_is_an_error() {
    let files = vec![("data/continents.json", "{}")];
    let e = walked(files, false).unwrap_err();
    assert_eq!(e.message(), "data/continents.json must contain a JSON array");
    let files = tables_and(vec![("data/domestic_cups.json", "1")]);
    let e = walked(files, false).unwrap_err();
    assert_eq!(e.message(), "data/domestic_cups.json must contain a JSON array");
}

#[test]
fn missing_cups_are_no_error() {
    let c = walked(tables_and(Vec::new()), false).unwrap();
    assert!(c.domestic_cups.is_empty());
    assert_eq!(c.countries.len(), 2);
}

#[test]
fn a_file_that_is_no_json_is_an_error() {
    let files = tables_and(vec![("data/mt/names.json", "{")]);
    let e = walked(files, false).unwrap_err();
    assert_eq!(e.message(), "parse data/mt/names.json");
}

#[test]
fn the_first_file_that_is_no_json_is_reported() {
    let files = tables_and(vec![
        ("data/mt/b/league.json", "["),
        ("data/mt/a/league.json", r#"{"id":1}"#),
        ("data/mt/a/club/club.json", "{}"),
        ("data/mt/a/club/players/2.json", "nul"),
        ("data/mt/a/club/players/1.json", "{}"),
        ("data/mt/a/club/players/0.txt", "{"),
    ]);
    for backwards in [false, true] {
        let e = walked(files.clone(), backwards).unwrap_err();
        assert!(matches!(e, CompileError::Parse { .. }));
        assert_eq!(e.message(), "parse data/mt/a/club/players/2.json");
    }
    let files = tables_and(vec![
        ("data/mt/a/league.json", "{}"),
        ("data/mt/b/league.json", "["),
    ]);
    let e = walked(files, false).unwrap_err();
    assert!(matches!(e, CompileError::LeagueId { .. }));
}

#[test]
fn a_text_is_taken_as_its_document() {
    let at_continents = || {
        let mut walk = Walk::new("data");
        walk.advance(Reply::Answer(true)).unwrap();
        assert_eq!(
            walk.next_action(),
            Action::Read(Place { base: ROOT, child: Child::Continents })
        );
        walk
    };
    let text = r#"[{"id":1}]"#;
    let mut by_text = at_continents();
    by_text.advance_with_text(text, "c.json").unwrap();
    let mut by_document = at_continents();
    let value = read_json(text, "c.json").unwrap();
    by_document.advance(Reply::Document { path: "c.json".to_string(), value }).unwrap();
    assert_eq!(by_text.next_action(), by_document.next_action());
    assert_eq!(shown_list(by_text.into_collected().continents), text);
    assert_eq!(shown_list(by_document.into_collected().continents), text);

    let mut walk = at_continents();
    let e = walk.advance_with_text("[", "c.json").unwrap_err();
    assert_eq!(e.message(), "parse c.json");
    assert_eq!(walk.next_action(), Action::Read(Place { base: ROOT, child: Child::Continents }));
}

#[test]
fn a_country_without_a_name_is_an_error() {
    let mut walk = Walk::new("data");
    walk.advance(Reply::Answer(true)).unwrap();
    for _ in 0..3 {
        walk.advance_with_text("[]", "table.json").unwrap();
    }
    walk.advance(Reply::Answer(false)).unwrap();
    let entry = Entry {
        id: 1,
        name: None,
        path: "data/..".to_string(),
        is_dir: true,
        is_file: false,
    };
    walk.advance(Reply::Listing(vec![entry])).unwrap();
    let e = walk.advance(Reply::Answer(false)).unwrap_err();
    assert_eq!(e.message(), "non-utf8 path component: data/..");
}

#[test]
fn a_league_needs_an_id() {
    let files = tables_and(vec![("data/mt/l/league.json", r#"{"id":"x"}"#)]);
    let e = walked(files, false).unwrap_err();
    assert!(matches!(e, CompileError::LeagueId { .. }));
    assert_eq!(e.message(), "missing/invalid id in data/mt/l/league.json");
}

#[test]
fn malformed_histories_stop_the_walk() {
    for path in [
        "data/mt/free_agents/1.json",
        "data/mt/l/c/players/1.json",
        "data/mt/l/s/players/1.json",
    ] {
        let files = tables_and(vec![
            ("data/mt/l/league.json", r#"{"id":1}"#),
            ("data/mt/l/c/club.json", r#"{"id":1}"#),
            ("data/mt/l/s/club.json", r#"{"id":2,"parent_club":{"id":1}}"#),
            (path, r#"{"history":[1]}"#),
        ]);
        let e = walked(files, false).unwrap_err();
        assert_eq!(e.message(), format!("history[0] in {} must be an object", path));
    }
}

#[test]
fn the_first_error_in_the_tree_is_reported() {
    let files = tables_and(vec![
        ("data/b/l/league.json", "{}"),
        ("data/a/l/league.json", "{}"),
        ("data/a/free_agents/x.json", r#"{"history":0}"#),
    ]);
    let e = walked(files, true).unwrap_err();
    assert_eq!(e.message(), "history in data/a/free_agents/x.json must be an array");
}

#[test]
fn a_satellite_without_players_is_kept() {
    let files = tables_and(vec![
        ("data/mt/l/league.json", r#"{"id":1}"#),
        ("data/mt/l/s/club.json", r#"{"parent_club":{"id":3,"team_type":"C"}}"#),
        ("data/mt/l/t/club.json", r#"{"parent_club":{"id":3}}"#),
        ("data/mt/l/t/players/readme.txt", ""),
    ]);
    let c = walked(files, false).unwrap();
    assert_eq!(c.satellites.len(), 2);
    assert_eq!(c.satellites[0].team_type, "C");
    assert!(c.satellites[0].players.is_empty());
    assert!(c.satellites[1].players.is_empty());
    assert!(c.clubs.is_empty());
}

#[test]
fn a_missing_parent_stops_the_build() {
    let files = tables_and(vec![
        ("data/mt/l/league.json", r#"{"id":1}"#),
        ("data/mt/l/s/club.json", r#"{"parent_club":{"id":3}}"#),
    ]);
    let e = compiled(files, false).unwrap_err();
    assert!(matches!(e, CompileError::ParentMissing { parent_id: 3, .. }));
}

#[test]
fn a_walk_asks_each_thing_once() {
    let mut files = Files {
        files: tables_and(vec![
            ("data/mt/free_agents/1.json", "{}"),
            ("data/mt/l/league.json", r#"{"id":1}"#),
            ("data/mt/l/c/club.json", "{}"),
            ("data/mt/l/c/players/1.json", "{}"),
            ("data/mt/l/c/players/2.json", "{}"),
        ]),
        table: vec!["data".to_string()],
        backwards: false,
        asked: 0,
    };
    drive(&mut files).unwrap();
    // Root, three tables, the cups, the list of countries; names, agents (found,
    // listed, read), the list of leagues; the league (found, read), its clubs;
    // the club (found, read), its players (found, listed, two read).
    assert_eq!(files.asked, 6 + 1 + 3 + 1 + 2 + 1 + 2 + 4);
}

#[test]
fn records_that_are_no_objects_are_kept() {
    let files = tables_and(vec![
        ("data/mt/names.json", "3"),
        ("data/mt/l/league.json", r#"{"id":1}"#),
        ("data/mt/l/c/club.json", "[]"),
        ("data/mt/l/c/players/1.json", "null"),
    ]);
    let c = walked(files, false).unwrap();
    assert_eq!(shown_list(c.names), "[3]");
    assert_eq!(shown_list(c.clubs), "[[]]");
    assert_eq!(shown_list(c.players), "[null]");
}

#[test]
fn an_empty_build_has_all_fields() {
    let database = build(Collected::new()).unwrap();
    assert_eq!(
        shown(database.document),
        r#"{"clubs":[],"continents":[],"countries":[],"domestic_cups":[],"leagues":[],"names":[],"national_competitions":[],"players":[],"version":"0.01"}"#
    );
    assert!(database.unknown_refs.is_empty());
}
