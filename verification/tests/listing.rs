use datapack::error::CompileError;
use datapack::listing::{dir_name, select, Entry, Keep};

fn entry(id: usize, name: &[u8], is_dir: bool) -> Entry {
    Entry {
        id,
        name: Some(name.to_vec()),
        path: format!("data/{}", id),
        is_dir,
        is_file: !is_dir,
    }
}

fn nameless(id: usize, is_dir: bool) -> Entry {
    Entry { id, name: None, path: "data/..".to_string(), is_dir, is_file: !is_dir }
}

fn ids(entries: Vec<Entry>) -> Vec<usize> {
    entries.iter().map(|e| e.id).collect()
}

#[test]
fn names_are_compared_byte_by_byte() {
    let listing = || {
        vec![
            entry(1, b"b", true),
            entry(2, b"", true),
            entry(3, b"ab", true),
            entry(4, b"a", true),
            entry(5, b"B", true),
            entry(6, b"\xff", true),
            entry(7, "é".as_bytes(), true),
        ]
    };
    assert_eq!(ids(select(listing(), Keep::Directories)), [2, 5, 4, 3, 1, 7, 6]);
    let mut reversed = listing();
    reversed.reverse();
    assert_eq!(ids(select(reversed, Keep::Directories)), [2, 5, 4, 3, 1, 7, 6]);
}

#[test]
fn directories_are_kept() {
    let listing = vec![entry(1, b"mt", true), entry(2, b"countries.json", false)];
    assert_eq!(ids(select(listing, Keep::Directories)), [1]);
}

#[test]
fn free_agents_are_no_league() {
    let listing = vec![
        entry(1, b"free_agents", true),
        entry(2, b"premier", true),
        entry(3, b"Free_agents", true),
        entry(4, b"names.json", false),
        entry(5, b"free_agents\xff", true),
    ];
    assert_eq!(ids(select(listing, Keep::Leagues)), [3, 5, 2]);
}

#[test]
fn players_are_json_files() {
    let listing = vec![
        entry(1, b"a.json", false),
        entry(2, b"b.JSON", false),
        entry(3, b"c.Json", false),
        entry(4, b".json", false),
        entry(5, b"json", false),
        entry(6, b"d.json.bak", false),
        entry(7, b"e.jsonx", false),
        entry(8, b"f.xjson", false),
        entry(9, b"g.json", true),
        entry(10, b"..json", false),
        entry(11, b"h.", false),
        entry(12, b"\xff.json", false),
        entry(13, b"i.x.json", false),
    ];
    assert_eq!(ids(select(listing, Keep::Players)), [10, 1, 2, 3, 13, 12]);
}

#[test]
fn a_name_is_text() {
    assert_eq!(dir_name(&entry(1, b"mt", true)).unwrap(), "mt");
    assert_eq!(dir_name(&entry(1, "côte".as_bytes(), true)).unwrap(), "côte");
}

#[test]
fn a_name_that_is_not_utf8_is_an_error() {
    let e = dir_name(&entry(3, b"m\xfft", true)).unwrap_err();
    assert!(matches!(e, CompileError::NonUtf8Name { .. }));
    assert_eq!(e.message(), "non-utf8 path component: data/3");
}

#[test]
fn a_path_without_a_name_is_an_error() {
    let e = dir_name(&nameless(3, true)).unwrap_err();
    assert!(matches!(e, CompileError::NonUtf8Name { .. }));
    assert_eq!(e.message(), "non-utf8 path component: data/..");
}

#[test]
fn a_path_without_a_name_comes_first() {
    let listing = |is_dir| vec![entry(1, b"", is_dir), nameless(2, is_dir), entry(3, b"a", is_dir)];
    assert_eq!(ids(select(listing(true), Keep::Directories)), [2, 1, 3]);
    assert_eq!(ids(select(listing(true), Keep::Leagues)), [2, 1, 3]);
    assert!(ids(select(listing(false), Keep::Players)).is_empty());
}

#[test]
fn numbers_do_not_matter_for_what_is_kept() {
    let listing = vec![entry(1, b"b", true), entry(2, b"a", true), entry(3, b"c", false)];
    assert_eq!(ids(select(listing, Keep::Directories)), [2, 1]);
    let other = vec![entry(7, b"c", false), entry(8, b"b", true), entry(9, b"a", true)];
    assert_eq!(ids(select(other, Keep::Directories)), [9, 8]);
}
