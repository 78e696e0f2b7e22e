//! A tree holds what its files hold, file by file.
//!
//! [`visits`] lists what is looked at in a tree, in order. Each visit may find a
//! fault, and the first fault is what reading the tree ends with. Where there is
//! none, every record that the tree holds is the document of one visit, with the
//! place of its file noted and nothing else changed.

use crate::collected::{
    nothing, one_club, one_league, one_names, one_satellite, some_players, CollectedView,
};
use crate::error::ErrorView;
use crate::json::JsonView;
use crate::listing::{name_text, selected, EntryView, Keep};
use crate::questions::{Child, Place, ROOT};
use crate::record_laws::{
    has_field, holds_unsigned, league_noted_on_main_teams, stamping_changes_main_teams_alone,
};
use crate::records::{history_check, parent_of, stamped_club};
use crate::satellite_laws::lemma_names;
use crate::satellites::SatelliteView;
use crate::tree::{
    both, club_dir_part, club_part, clubs_part, countries_part, country_part, cups_part, in_turn,
    league_dir_part, league_part, leagues_part, names_part, players_at, players_in, root_part,
    squad_part, table_part, whole_tree, Part, Tree,
};
use crate::walk::{ids, satellite_of, started, with_country, Table};
use crate::walk_laws::{run, tasks_work, walk_gathers_whole_tree};
use vstd::prelude::*;

verus! {

/// Something that is looked at in a tree.
pub enum Visit {
    /// The root, shown as `path`.
    Root { path: Seq<char> },
    /// The table that lies under the root.
    TopTable { child: Child },
    /// The directory of a country.
    Country { entry: EntryView },
    /// The names of the country `code` in the directory `base`.
    Names { base: usize, code: Seq<char> },
    /// The league of the country `code` in the directory `base`.
    League { base: usize, code: Seq<char> },
    /// The club of the country `code` in the directory `base`, which lies in
    /// the directory of the league `league_id`.
    Club { base: usize, code: Seq<char>, league_id: u64 },
    /// The player in the file `file`, of a satellite or not.
    Player { file: usize, of_satellite: bool },
}

/// The document of the file `child` under the directory `base`, where it has one.
pub open spec fn document_at(tree: Tree, base: usize, child: Child) -> JsonView {
    tree.document(Place { base, child })->Ok_0
}

/// The club record names the club that it is a satellite of.
pub open spec fn names_parent(club: JsonView) -> bool {
    has_field(club, "parent_club"@) && holds_unsigned(club->Object_0["parent_club"@], "id"@)
}

/// What is visited for each of the entries, one after the other.
pub open spec fn for_each(entries: Seq<EntryView>, visit: spec_fn(EntryView) -> Seq<Visit>) -> Seq<
    Visit,
>
    decreases entries.len(),
{
    if entries.len() == 0 {
        Seq::empty()
    } else {
        visit(entries[0]) + for_each(entries.drop_first(), visit)
    }
}

/// The player files in a directory, in the order of their names; none where
/// there is no such directory.
pub open spec fn player_files(tree: Tree, place: Place) -> Seq<EntryView> {
    if (tree.is_dir)(place) {
        selected((tree.entries)(place), Keep::Players)
    } else {
        Seq::empty()
    }
}

/// The visits of players.
pub open spec fn player_visits(files: Seq<EntryView>, of_satellite: bool) -> Seq<Visit> {
    files.map_values(|e: EntryView| Visit::Player { file: e.id, of_satellite })
}

/// The visits of a directory of a league.
pub open spec fn club_visits(
    tree: Tree,
    base: usize,
    code: Seq<char>,
    league_id: u64,
) -> Seq<Visit> {
    if (tree.is_file)(Place { base, child: Child::Club }) {
        seq![Visit::Club { base, code, league_id }] + player_visits(
            player_files(tree, Place { base, child: Child::Players }),
            names_parent(document_at(tree, base, Child::Club)),
        )
    } else {
        Seq::empty()
    }
}

/// The visits of a directory of a country.
pub open spec fn league_visits(tree: Tree, base: usize, code: Seq<char>) -> Seq<Visit> {
    if (tree.is_file)(Place { base, child: Child::League }) {
        let league_id =
            document_at(tree, base, Child::League)->Object_0["id"@]->Number_0->Unsigned_0;
        seq![Visit::League { base, code }] + for_each(
            selected((tree.entries)(Place { base, child: Child::Itself }), Keep::Directories),
            |e: EntryView| club_visits(tree, e.id, code, league_id),
        )
    } else {
        Seq::empty()
    }
}

/// The visits of the directory of a country.
pub open spec fn country_visits(tree: Tree, entry: EntryView) -> Seq<Visit> {
    let base = entry.id;
    let code = name_text(entry.name)->0;
    seq![Visit::Country { entry }] + (if (tree.is_file)(Place { base, child: Child::Names }) {
        seq![Visit::Names { base, code }]
    } else {
        Seq::empty()
    }) + player_visits(player_files(tree, Place { base, child: Child::FreeAgents }), false)
        + for_each(
        selected((tree.entries)(Place { base, child: Child::Itself }), Keep::Leagues),
        |e: EntryView| league_visits(tree, e.id, code),
    )
}

/// All visits of a tree whose root is shown as `path`, in order.
pub open spec fn visits(tree: Tree, path: Seq<char>) -> Seq<Visit> {
    seq![
        Visit::Root { path },
        Visit::TopTable { child: Child::Continents },
        Visit::TopTable { child: Child::Countries },
        Visit::TopTable { child: Child::NationalCompetitions },
    ] + (if (tree.is_file)(Place { base: ROOT, child: Child::DomesticCups }) {
        seq![Visit::TopTable { child: Child::DomesticCups }]
    } else {
        Seq::empty()
    }) + for_each(
        selected((tree.entries)(Place { base: ROOT, child: Child::Itself }), Keep::Directories),
        |e: EntryView| country_visits(tree, e),
    )
}

/// The error that a file holds no JSON, where it holds none.
pub open spec fn reading_fault(tree: Tree, base: usize, child: Child) -> Option<ErrorView> {
    match tree.document(Place { base, child }) {
        Ok(_) => None,
        Err(e) => Some(e),
    }
}

/// What is wrong with what is visited.
pub open spec fn fault(tree: Tree, visit: Visit) -> Option<ErrorView> {
    match visit {
        Visit::Root { path } => if (tree.is_dir)(Place { base: ROOT, child: Child::Itself }) {
            None
        } else {
            Some(ErrorView::DataDirMissing { path })
        },
        Visit::TopTable { child } => if tree.document(Place { base: ROOT, child }) is Ok && !(
        document_at(tree, ROOT, child) is Array) {
            Some(ErrorView::NotAnArray { path: (tree.path)(Place { base: ROOT, child }) })
        } else {
            reading_fault(tree, ROOT, child)
        },
        Visit::Country { entry } => if name_text(entry.name) is Some {
            None
        } else {
            Some(ErrorView::NonUtf8Name { path: entry.path })
        },
        Visit::Names { base, code } => reading_fault(tree, base, Child::Names),
        Visit::League { base, code } => if tree.document(Place { base, child: Child::League }) is Ok
            && !holds_unsigned(document_at(tree, base, Child::League), "id"@) {
            Some(ErrorView::LeagueId { path: (tree.path)(Place { base, child: Child::League }) })
        } else {
            reading_fault(tree, base, Child::League)
        },
        Visit::Club { base, code, league_id } => reading_fault(tree, base, Child::Club),
        Visit::Player { file, of_satellite } => {
            let place = Place { base: file, child: Child::Itself };
            match tree.document(place) {
                Err(e) => Some(e),
                Ok(player) => match history_check(player, (tree.path)(place)) {
                    Err(e) => Some(e),
                    Ok(()) => None,
                },
            }
        },
    }
}

/// `record` is the document `document` with the country `code` noted, and
/// nothing else changed.
pub open spec fn country_noted_on(
    document: JsonView,
    record: JsonView,
    code: Seq<char>,
) -> bool {
    match document {
        JsonView::Object(fields) => record == JsonView::Object(
            fields.insert("country_code"@, JsonView::String(code)),
        ),
        _ => record == document,
    }
}

/// `record` is the document `document` of a club with the country `code` noted
/// and the parent taken off, and nothing else changed.
pub open spec fn club_record_of(document: JsonView, record: JsonView, code: Seq<char>) -> bool {
    match document {
        JsonView::Object(fields) => record == JsonView::Object(
            fields.insert("country_code"@, JsonView::String(code)).remove("parent_club"@),
        ),
        _ => record == document,
    }
}

/// `record` is what the document of a visited club goes into the database as.
pub open spec fn club_gathered(tree: Tree, visit: Visit, record: JsonView) -> bool {
    visit matches Visit::Club { base, code, league_id } && exists|bare: JsonView|
        club_record_of(document_at(tree, base, Child::Club), bare, code)
            && #[trigger] league_noted_on_main_teams(bare, record, league_id)
}

/// `satellite` is what the document of a visited satellite says.
pub open spec fn satellite_gathered(tree: Tree, visit: Visit, satellite: SatelliteView) -> bool {
    visit matches Visit::Club { base, code, league_id } && {
        let document = document_at(tree, base, Child::Club);
        let parent = document->Object_0["parent_club"@]->Object_0;
        let files = player_files(tree, Place { base, child: Child::Players });
        &&& satellite.parent_id == parent["id"@]->Number_0->Unsigned_0
        &&& satellite.team_type == (if parent.contains_key("team_type"@)
            && parent["team_type"@] is String {
            parent["team_type"@]->String_0
        } else {
            "B"@
        })
        &&& satellite.league_id == league_id
        &&& club_record_of(document, satellite.satellite_club, code)
        &&& satellite.source_path == (tree.path)(Place { base, child: Child::Club })
        &&& satellite.players.len() == files.len()
        &&& forall|i: int|
            0 <= i < files.len() ==> #[trigger] satellite.players[i] == document_at(
                tree,
                files[i].id,
                Child::Itself,
            )
    }
}

/// The visits of names.
pub open spec fn of_names() -> spec_fn(Visit) -> bool {
    |v: Visit| v is Names
}

/// The visits of leagues.
pub open spec fn of_leagues() -> spec_fn(Visit) -> bool {
    |v: Visit| v is League
}

/// The visits of clubs that are no satellites.
pub open spec fn of_clubs(tree: Tree) -> spec_fn(Visit) -> bool {
    |v: Visit|
        v matches Visit::Club { base, code, league_id } && !names_parent(
            document_at(tree, base, Child::Club),
        )
}

/// The visits of satellites.
pub open spec fn of_satellites(tree: Tree) -> spec_fn(Visit) -> bool {
    |v: Visit|
        v matches Visit::Club { base, code, league_id } && names_parent(
            document_at(tree, base, Child::Club),
        )
}

/// The visits of players that belong to no satellite.
pub open spec fn of_players() -> spec_fn(Visit) -> bool {
    |v: Visit| v matches Visit::Player { file, of_satellite } && !of_satellite
}

/// The rows are those of the table, and none where there is no such file.
pub open spec fn rows_of(tree: Tree, child: Child, rows: Seq<JsonView>, there: bool) -> bool {
    if there {
        tree.document(Place { base: ROOT, child }) == Ok::<JsonView, ErrorView>(
            JsonView::Array(rows),
        )
    } else {
        rows.len() == 0
    }
}

/// The records are the documents of the visited files, kind by kind, each in the
/// order of the visits.
pub open spec fn gathered(tree: Tree, seen: Seq<Visit>, records: CollectedView) -> bool {
    let names = seen.filter(of_names());
    let leagues = seen.filter(of_leagues());
    let clubs = seen.filter(of_clubs(tree));
    let satellites = seen.filter(of_satellites(tree));
    let players = seen.filter(of_players());
    &&& records.names.len() == names.len()
    &&& forall|i: int|
        0 <= i < names.len() ==> country_noted_on(
            document_at(tree, names[i]->Names_base, Child::Names),
            #[trigger] records.names[i],
            names[i]->Names_code,
        )
    &&& records.leagues.len() == leagues.len()
    &&& forall|i: int|
        0 <= i < leagues.len() ==> country_noted_on(
            document_at(tree, leagues[i]->League_base, Child::League),
            #[trigger] records.leagues[i],
            leagues[i]->League_code,
        )
    &&& records.clubs.len() == clubs.len()
    &&& forall|i: int|
        0 <= i < clubs.len() ==> club_gathered(tree, clubs[i], #[trigger] records.clubs[i])
    &&& records.satellites.len() == satellites.len()
    &&& forall|i: int|
        0 <= i < satellites.len() ==> satellite_gathered(
            tree,
            satellites[i],
            #[trigger] records.satellites[i],
        )
    &&& records.players.len() == players.len()
    &&& forall|i: int|
        0 <= i < players.len() ==> #[trigger] records.players[i] == document_at(
            tree,
            players[i]->file,
            Child::Itself,
        )
}

/// What a visit yields where it finds no fault.
spec fn yields(tree: Tree, visit: Visit) -> CollectedView {
    match visit {
        Visit::TopTable { child } => {
            let rows = document_at(tree, ROOT, child)->Array_0;
            match child {
                Child::Continents => CollectedView { continents: rows, ..nothing() },
                Child::Countries => CollectedView { countries: rows, ..nothing() },
                Child::NationalCompetitions => CollectedView {
                    national_competitions: rows,
                    ..nothing()
                },
                _ => CollectedView { domestic_cups: rows, ..nothing() },
            }
        },
        Visit::Names { base, code } => one_names(
            with_country(document_at(tree, base, Child::Names), code),
        ),
        Visit::League { base, code } => one_league(
            with_country(document_at(tree, base, Child::League), code),
        ),
        Visit::Club { base, code, league_id } => {
            let club = with_country(document_at(tree, base, Child::Club), code);
            let files = player_files(tree, Place { base, child: Child::Players });
            match parent_of(club) {
                Some(parent) => one_satellite(
                    SatelliteView {
                        players: files.map_values(
                            |e: EntryView| document_at(tree, e.id, Child::Itself),
                        ),
                        ..satellite_of(
                            club,
                            parent,
                            league_id,
                            (tree.path)(Place { base, child: Child::Club }),
                        )
                    },
                ),
                None => one_club(stamped_club(club.without_field("parent_club"@), league_id)),
            }
        },
        Visit::Player { file, of_satellite } => if of_satellite {
            nothing()
        } else {
            some_players(seq![document_at(tree, file, Child::Itself)])
        },
        _ => nothing(),
    }
}

/// What visits come to, one after the other.
spec fn told(tree: Tree, seen: Seq<Visit>) -> Part
    decreases seen.len(),
{
    if seen.len() == 0 {
        Ok(nothing())
    } else {
        both(
            match fault(tree, seen[0]) {
                Some(e) => Err(e),
                None => Ok(yields(tree, seen[0])),
            },
            told(tree, seen.drop_first()),
        )
    }
}

proof fn lemma_both(a: Part, b: Part, c: Part)
    ensures
        both(both(a, b), c) == both(a, both(b, c)),
        both(a, Ok(nothing())) == a,
        both(Ok(nothing()), a) == a,
{
    if a is Ok {
        assert(a->Ok_0.plus(nothing()) =~= a->Ok_0);
        assert(nothing().plus(a->Ok_0) =~= a->Ok_0);
        if b is Ok && c is Ok {
            assert(a->Ok_0.plus(b->Ok_0).plus(c->Ok_0) =~= a->Ok_0.plus(b->Ok_0.plus(c->Ok_0)));
        }
    }
}

proof fn lemma_told_add(tree: Tree, first: Seq<Visit>, second: Seq<Visit>)
    ensures
        told(tree, first + second) == both(told(tree, first), told(tree, second)),
    decreases first.len(),
{
    if first.len() == 0 {
        assert(first + second =~= second);
        lemma_both(told(tree, second), Ok(nothing()), Ok(nothing()));
    } else {
        assert((first + second).drop_first() =~= first.drop_first() + second);
        lemma_told_add(tree, first.drop_first(), second);
        lemma_both(
            match fault(tree, first[0]) {
                Some(e) => Err(e),
                None => Ok(yields(tree, first[0])),
            },
            told(tree, first.drop_first()),
            told(tree, second),
        );
    }
}

proof fn lemma_told_one(tree: Tree, visit: Visit)
    ensures
        told(tree, seq![visit]) == match fault(tree, visit) {
            Some(e) => Err::<CollectedView, ErrorView>(e),
            None => Ok(yields(tree, visit)),
        },
        told(tree, Seq::empty()) == Ok::<CollectedView, ErrorView>(nothing()),
{
    reveal_with_fuel(told, 2);
    assert(seq![visit].drop_first() =~= Seq::<Visit>::empty());
    lemma_both(Ok(yields(tree, visit)), Ok(nothing()), Ok(nothing()));
}

proof fn lemma_for_each(
    tree: Tree,
    entries: Seq<EntryView>,
    visit: spec_fn(EntryView) -> Seq<Visit>,
    part: spec_fn(EntryView) -> Part,
)
    requires
        forall|e: EntryView| told(tree, #[trigger] visit(e)) == part(e),
    ensures
        told(tree, for_each(entries, visit)) == in_turn(entries, part),
    decreases entries.len(),
{
    if entries.len() > 0 {
        lemma_for_each(tree, entries.drop_first(), visit, part);
        lemma_told_add(tree, visit(entries[0]), for_each(entries.drop_first(), visit));
    }
}

/// The players in files are the documents of the files, one by one, where all of
/// them can be read and have well-formed histories.
proof fn lemma_players(tree: Tree, files: Seq<EntryView>, of_satellite: bool)
    ensures
        match players_in(tree, ids(files)) {
            Err(e) => told(tree, player_visits(files, of_satellite)) == Err::<
                CollectedView,
                ErrorView,
            >(e),
            Ok(players) => {
                &&& players == files.map_values(
                    |e: EntryView| document_at(tree, e.id, Child::Itself),
                )
                &&& told(tree, player_visits(files, of_satellite)) == Ok::<
                    CollectedView,
                    ErrorView,
                >(
                    if of_satellite {
                        nothing()
                    } else {
                        some_players(players)
                    },
                )
            },
        },
    decreases files.len(),
{
    let seen = player_visits(files, of_satellite);
    let read = |e: EntryView| document_at(tree, e.id, Child::Itself);
    if files.len() == 0 {
        assert(files.map_values(read) =~= Seq::<JsonView>::empty());
        assert(some_players(Seq::empty()) =~= nothing());
    } else {
        let rest = files.drop_first();
        lemma_players(tree, rest, of_satellite);
        assert(ids(files).drop_first() =~= ids(rest));
        assert(seen.drop_first() =~= player_visits(rest, of_satellite));
        assert(files.map_values(read) =~= seq![read(files[0])] + rest.map_values(read));
        assert(nothing().plus(nothing()) =~= nothing());
        match players_in(tree, ids(rest)) {
            Ok(more) => {
                let player = document_at(tree, files[0].id, Child::Itself);
                assert(some_players(seq![player]).plus(some_players(more)) =~= some_players(
                    seq![player] + more,
                ));
            },
            Err(_) => {},
        }
    }
}

proof fn lemma_players_at(tree: Tree, place: Place, of_satellite: bool)
    ensures
        match players_at(tree, place) {
            Err(e) => told(tree, player_visits(player_files(tree, place), of_satellite)) == Err::<
                CollectedView,
                ErrorView,
            >(e),
            Ok(players) => {
                &&& players == player_files(tree, place).map_values(
                    |e: EntryView| document_at(tree, e.id, Child::Itself),
                )
                &&& told(tree, player_visits(player_files(tree, place), of_satellite)) == Ok::<
                    CollectedView,
                    ErrorView,
                >(
                    if of_satellite {
                        nothing()
                    } else {
                        some_players(players)
                    },
                )
            },
        },
{
    let files = player_files(tree, place);
    lemma_players(tree, files, of_satellite);
    if !(tree.is_dir)(place) {
        assert(ids(files) =~= Seq::<usize>::empty());
        assert(players_in(tree, ids(files)) == Ok::<Seq<JsonView>, ErrorView>(Seq::empty()));
    }
}

/// Noting the country does not change which parent is named.
proof fn lemma_parent(document: JsonView, code: Seq<char>)
    ensures
        parent_of(with_country(document, code)) is Some <==> names_parent(document),
        parent_of(with_country(document, code)) == parent_of(document),
{
    lemma_names();
    assert(with_country(document, code).get("parent_club"@) == document.get("parent_club"@));
}

proof fn lemma_club(tree: Tree, base: usize, code: Seq<char>, league_id: u64)
    ensures
        told(tree, club_visits(tree, base, code, league_id)) == club_dir_part(
            tree,
            base,
            code,
            league_id,
        ),
{
    let visit = Visit::Club { base, code, league_id };
    let document = document_at(tree, base, Child::Club);
    let place = Place { base, child: Child::Players };
    let of_satellite = names_parent(document);
    lemma_told_one(tree, visit);
    lemma_parent(document, code);
    lemma_players_at(tree, place, of_satellite);
    lemma_told_add(
        tree,
        seq![visit],
        player_visits(player_files(tree, place), of_satellite),
    );
    lemma_both(Ok(yields(tree, visit)), Ok(nothing()), Ok(nothing()));
}

proof fn lemma_league(tree: Tree, base: usize, code: Seq<char>)
    ensures
        told(tree, league_visits(tree, base, code)) == league_dir_part(tree, base, code),
{
    let visit = Visit::League { base, code };
    let league_id = document_at(tree, base, Child::League)->Object_0["id"@]->Number_0->Unsigned_0;
    let entries = selected((tree.entries)(Place { base, child: Child::Itself }), Keep::Directories);
    let visits = |e: EntryView| club_visits(tree, e.id, code, league_id);
    let parts = |e: EntryView| club_dir_part(tree, e.id, code, league_id);
    lemma_told_one(tree, visit);
    assert forall|e: EntryView| told(tree, #[trigger] visits(e)) == parts(e) by {
        lemma_club(tree, e.id, code, league_id);
    }
    lemma_for_each(tree, entries, visits, parts);
    lemma_told_add(tree, seq![visit], for_each(entries, visits));
    assert(clubs_part(tree, base, code, league_id) == in_turn(entries, parts));
}

proof fn lemma_country(tree: Tree, entry: EntryView)
    ensures
        told(tree, country_visits(tree, entry)) == country_part(tree, entry),
{
    let base = entry.id;
    let code = name_text(entry.name)->0;
    let visit = Visit::Country { entry };
    let names: Seq<Visit> = if (tree.is_file)(Place { base, child: Child::Names }) {
        seq![Visit::Names { base, code }]
    } else {
        Seq::empty()
    };
    let place = Place { base, child: Child::FreeAgents };
    let agents = player_visits(player_files(tree, place), false);
    let entries = selected((tree.entries)(Place { base, child: Child::Itself }), Keep::Leagues);
    let visits = |e: EntryView| league_visits(tree, e.id, code);
    let parts = |e: EntryView| league_dir_part(tree, e.id, code);
    assert forall|e: EntryView| told(tree, #[trigger] visits(e)) == parts(e) by {
        lemma_league(tree, e.id, code);
    }
    lemma_for_each(tree, entries, visits, parts);
    let leagues = for_each(entries, visits);
    lemma_told_one(tree, visit);
    lemma_told_one(tree, Visit::Names { base, code });
    lemma_players_at(tree, place, false);
    lemma_told_add(tree, seq![visit] + names + agents, leagues);
    lemma_told_add(tree, seq![visit] + names, agents);
    lemma_told_add(tree, seq![visit], names);
    lemma_both(told(tree, names), told(tree, agents), told(tree, leagues));
    lemma_both(told(tree, names), Ok(nothing()), Ok(nothing()));
    assert(told(tree, agents) == squad_part(tree, place));
    assert(told(tree, leagues) == leagues_part(tree, base, code));
}

proof fn lemma_table(tree: Tree, table: Table)
    ensures
        told(tree, seq![Visit::TopTable { child: table.place().child }]) == table_part(tree, table),
{
    lemma_told_one(tree, Visit::TopTable { child: table.place().child });
}

proof fn lemma_whole_tree(tree: Tree, path: Seq<char>)
    ensures
        told(tree, visits(tree, path)) == whole_tree(tree, path),
{
    let root = Visit::Root { path };
    let continents = Visit::TopTable { child: Child::Continents };
    let countries = Visit::TopTable { child: Child::Countries };
    let competitions = Visit::TopTable { child: Child::NationalCompetitions };
    let cups: Seq<Visit> = if (tree.is_file)(Place { base: ROOT, child: Child::DomesticCups }) {
        seq![Visit::TopTable { child: Child::DomesticCups }]
    } else {
        Seq::empty()
    };
    let entries = selected(
        (tree.entries)(Place { base: ROOT, child: Child::Itself }),
        Keep::Directories,
    );
    let each = |e: EntryView| country_visits(tree, e);
    let parts = |e: EntryView| country_part(tree, e);
    assert forall|e: EntryView| told(tree, #[trigger] each(e)) == parts(e) by {
        lemma_country(tree, e);
    }
    lemma_for_each(tree, entries, each, parts);
    let rest = for_each(entries, each);
    lemma_told_one(tree, root);
    lemma_table(tree, Table::Continents);
    lemma_table(tree, Table::Countries);
    lemma_table(tree, Table::NationalCompetitions);
    lemma_table(tree, Table::DomesticCups);
    let tail1 = cups + rest;
    let tail2 = seq![competitions] + tail1;
    let tail3 = seq![countries] + tail2;
    let tail4 = seq![continents] + tail3;
    assert(visits(tree, path) =~= seq![root] + tail4);
    lemma_told_add(tree, cups, rest);
    lemma_told_add(tree, seq![competitions], tail1);
    lemma_told_add(tree, seq![countries], tail2);
    lemma_told_add(tree, seq![continents], tail3);
    lemma_told_add(tree, seq![root], tail4);
    assert(told(tree, cups) == cups_part(tree));
    assert(told(tree, rest) == countries_part(tree));
}

/// What is kept of visits is what is kept of the first and of the others.
proof fn lemma_filter_first(seen: Seq<Visit>, keep: spec_fn(Visit) -> bool)
    requires
        seen.len() > 0,
    ensures
        seen.filter(keep) == (if keep(seen[0]) {
            seq![seen[0]]
        } else {
            Seq::empty()
        }) + seen.drop_first().filter(keep),
    decreases seen.len(),
{
    reveal(Seq::filter);
    let front = seen.drop_last();
    if seen.len() == 1 {
        assert(front =~= Seq::<Visit>::empty());
        assert(seen.drop_first() =~= Seq::<Visit>::empty());
        assert(seen.filter(keep) =~= (if keep(seen[0]) {
            seq![seen[0]]
        } else {
            Seq::empty()
        }) + seen.drop_first().filter(keep));
    } else {
        lemma_filter_first(front, keep);
        assert(front.drop_first() =~= seen.drop_first().drop_last());
        assert(seen.drop_first().last() == seen.last());
        assert(seen.filter(keep) =~= (if keep(seen[0]) {
            seq![seen[0]]
        } else {
            Seq::empty()
        }) + seen.drop_first().filter(keep));
    }
}

/// What a visited club yields is what its document says.
proof fn lemma_club_yields(tree: Tree, visit: Visit)
    requires
        visit is Club,
    ensures
        of_clubs(tree)(visit) ==> yields(tree, visit).clubs.len() == 1 && yields(
            tree,
            visit,
        ).satellites.len() == 0 && club_gathered(tree, visit, yields(tree, visit).clubs[0]),
        of_satellites(tree)(visit) ==> yields(tree, visit).clubs.len() == 0 && yields(
            tree,
            visit,
        ).satellites.len() == 1 && satellite_gathered(
            tree,
            visit,
            yields(tree, visit).satellites[0],
        ),
{
    match visit {
        Visit::Club { base, code, league_id } => {
            let document = document_at(tree, base, Child::Club);
            let club = with_country(document, code);
            let bare = club.without_field("parent_club"@);
            lemma_parent(document, code);
            stamping_changes_main_teams_alone(bare, league_id);
            assert(club_record_of(document, bare, code));
            assert(league_noted_on_main_teams(bare, stamped_club(bare, league_id), league_id));
            if names_parent(document) {
                let satellite = yields(tree, visit).satellites[0];
                let parent = parent_of(club)->0;
                assert(satellite.satellite_club == bare);
                assert(satellite.parent_id == parent.0);
                assert(satellite_gathered(tree, visit, satellite));
            }
        },
        _ => {},
    }
}

proof fn lemma_gathered(tree: Tree, seen: Seq<Visit>)
    requires
        told(tree, seen) is Ok,
    ensures
        gathered(tree, seen, told(tree, seen)->Ok_0),
    decreases seen.len(),
{
    let records = told(tree, seen)->Ok_0;
    if seen.len() == 0 {
        reveal(Seq::filter);
    } else {
        let rest = seen.drop_first();
        lemma_gathered(tree, rest);
        let own = yields(tree, seen[0]);
        let more = told(tree, rest)->Ok_0;
        assert(records == own.plus(more));
        lemma_gathered_step(tree, seen, own, more);
    }
}

/// The first visit adds what it yields in front of what the others yield.
#[verifier::rlimit(60)]
proof fn lemma_gathered_step(
    tree: Tree,
    seen: Seq<Visit>,
    own: CollectedView,
    more: CollectedView,
)
    requires
        seen.len() > 0,
        own == yields(tree, seen[0]),
        gathered(tree, seen.drop_first(), more),
    ensures
        gathered(tree, seen, own.plus(more)),
{
    let visit = seen[0];
    let rest = seen.drop_first();
    let records = own.plus(more);
    lemma_filter_first(seen, of_names());
    lemma_filter_first(seen, of_leagues());
    lemma_filter_first(seen, of_clubs(tree));
    lemma_filter_first(seen, of_satellites(tree));
    lemma_filter_first(seen, of_players());
    if visit is Club {
        lemma_club_yields(tree, visit);
    }
    let names = seen.filter(of_names());
    let leagues = seen.filter(of_leagues());
    let clubs = seen.filter(of_clubs(tree));
    let satellites = seen.filter(of_satellites(tree));
    let players = seen.filter(of_players());
    assert forall|i: int| 0 <= i < names.len() implies country_noted_on(
        document_at(tree, names[i]->Names_base, Child::Names),
        #[trigger] records.names[i],
        names[i]->Names_code,
    ) by {
        let k = i - own.names.len();
        if k >= 0 {
            assert(records.names[i] == more.names[k]);
            assert(names[i] == rest.filter(of_names())[k]);
        }
    }
    assert forall|i: int| 0 <= i < leagues.len() implies country_noted_on(
        document_at(tree, leagues[i]->League_base, Child::League),
        #[trigger] records.leagues[i],
        leagues[i]->League_code,
    ) by {
        let k = i - own.leagues.len();
        if k >= 0 {
            assert(records.leagues[i] == more.leagues[k]);
            assert(leagues[i] == rest.filter(of_leagues())[k]);
        }
    }
    assert forall|i: int| 0 <= i < clubs.len() implies club_gathered(
        tree,
        clubs[i],
        #[trigger] records.clubs[i],
    ) by {
        let k = i - own.clubs.len();
        if k >= 0 {
            assert(records.clubs[i] == more.clubs[k]);
            assert(clubs[i] == rest.filter(of_clubs(tree))[k]);
        }
    }
    assert forall|i: int| 0 <= i < satellites.len() implies satellite_gathered(
        tree,
        satellites[i],
        #[trigger] records.satellites[i],
    ) by {
        let k = i - own.satellites.len();
        if k >= 0 {
            assert(records.satellites[i] == more.satellites[k]);
            assert(satellites[i] == rest.filter(of_satellites(tree))[k]);
        }
    }
    assert forall|i: int| 0 <= i < players.len() implies #[trigger] records.players[i]
        == document_at(tree, players[i]->file, Child::Itself) by {
        let k = i - own.players.len();
        if k >= 0 {
            assert(records.players[i] == more.players[k]);
            assert(players[i] == rest.filter(of_players())[k]);
        }
    }
}

/// The visit at `at` finds the fault `error`, and no visit before it finds any.
pub open spec fn first_fault_at(tree: Tree, seen: Seq<Visit>, at: int, error: ErrorView) -> bool {
    &&& 0 <= at < seen.len() && fault(tree, seen[at]) == Some(error)
    &&& forall|k: int| 0 <= k < at ==> fault(tree, #[trigger] seen[k]) is None
}

proof fn lemma_first_fault(tree: Tree, seen: Seq<Visit>)
    ensures
        match told(tree, seen) {
            Ok(_) => forall|k: int| 0 <= k < seen.len() ==> fault(tree, #[trigger] seen[k]) is None,
            Err(e) => exists|at: int| #[trigger] first_fault_at(tree, seen, at, e),
        },
    decreases seen.len(),
{
    if seen.len() > 0 {
        let rest = seen.drop_first();
        lemma_first_fault(tree, rest);
        match fault(tree, seen[0]) {
            Some(e) => {
                assert(first_fault_at(tree, seen, 0, e));
            },
            None => match told(tree, rest) {
                Ok(_) => {
                    assert forall|k: int| 0 <= k < seen.len() implies fault(
                        tree,
                        #[trigger] seen[k],
                    ) is None by {
                        if k > 0 {
                            assert(rest[k - 1] == seen[k]);
                        }
                    }
                },
                Err(e) => {
                    let at = choose|at: int| #[trigger] first_fault_at(tree, rest, at, e);
                    assert forall|k: int| 0 <= k < at + 1 implies fault(
                        tree,
                        #[trigger] seen[k],
                    ) is None by {
                        if k > 0 {
                            assert(rest[k - 1] == seen[k]);
                        }
                    }
                    assert(first_fault_at(tree, seen, at + 1, e));
                },
            },
        }
    }
}

/// Reading a tree fails exactly where something that is visited is at fault, and
/// with the first fault. Where nothing is, every league, club, satellite, record
/// of names and player that the tree holds is the document of the visited file,
/// field for field, but for its country, for the league on the main teams of a
/// club, and for the parent that a club names; all of them are there, in the
/// order of the visits.
pub proof fn tree_holds_the_documents_of_its_files(tree: Tree, path: Seq<char>)
    ensures
        match whole_tree(tree, path) {
            Err(e) => exists|at: int| #[trigger] first_fault_at(tree, visits(tree, path), at, e),
            Ok(records) => {
                &&& forall|k: int|
                    0 <= k < visits(tree, path).len() ==> fault(
                        tree,
                        #[trigger] visits(tree, path)[k],
                    ) is None
                &&& gathered(tree, visits(tree, path), records)
            },
        },
{
    lemma_whole_tree(tree, path);
    lemma_first_fault(tree, visits(tree, path));
    if whole_tree(tree, path) is Ok {
        lemma_gathered(tree, visits(tree, path));
    }
}

/// A walk ends with the first fault of what is visited; where there is none, it
/// has gathered the documents of the visited files.
pub proof fn walk_gathers_the_documents_of_the_files(tree: Tree, path: Seq<char>, replies: nat)
    requires
        replies >= tasks_work(tree, started(path).tasks),
    ensures
        match run(tree, started(path), replies) {
            Err(e) => exists|at: int| #[trigger] first_fault_at(tree, visits(tree, path), at, e),
            Ok(end) => {
                &&& end.action() is Finished
                &&& forall|k: int|
                    0 <= k < visits(tree, path).len() ==> fault(
                        tree,
                        #[trigger] visits(tree, path)[k],
                    ) is None
                &&& gathered(tree, visits(tree, path), end.collected)
            },
        },
{
    walk_gathers_whole_tree(tree, path, replies);
    tree_holds_the_documents_of_its_files(tree, path);
}

/// The players in a directory are the documents of its player files, one by
/// one, unchanged; and they are there exactly where all of these can be read and
/// have well-formed histories.
pub proof fn players_are_their_documents(tree: Tree, place: Place)
    ensures
        players_at(tree, place) matches Ok(players) ==> {
            let files = player_files(tree, place);
            &&& players.len() == files.len()
            &&& forall|i: int|
                #![trigger players[i]]
                #![trigger files[i]]
                0 <= i < files.len() ==> tree.document(
                    Place { base: files[i].id, child: Child::Itself },
                ) == Ok::<JsonView, ErrorView>(players[i])
        },
        players_at(tree, place) is Ok <==> forall|i: int|
            0 <= i < player_files(tree, place).len() ==> fault(
                tree,
                Visit::Player {
                    file: (#[trigger] player_files(tree, place)[i]).id,
                    of_satellite: false,
                },
            ) is None,
{
    let files = player_files(tree, place);
    let seen = player_visits(files, false);
    lemma_players_at(tree, place, false);
    lemma_first_fault(tree, seen);
    match players_at(tree, place) {
        Ok(players) => {
            assert forall|i: int|
                #![trigger players[i]]
                #![trigger files[i]]
                0 <= i < files.len() implies tree.document(
                Place { base: files[i].id, child: Child::Itself },
            ) == Ok::<JsonView, ErrorView>(players[i]) by {
                assert(fault(tree, seen[i]) is None);
            }
            assert forall|i: int| 0 <= i < files.len() implies fault(
                tree,
                Visit::Player { file: (#[trigger] files[i]).id, of_satellite: false },
            ) is None by {
                assert(fault(tree, seen[i]) is None);
            }
        },
        Err(e) => {
            let at = choose|at: int| #[trigger] first_fault_at(tree, seen, at, e);
            assert(fault(
                tree,
                Visit::Player { file: files[at].id, of_satellite: false },
            ) is Some);
        },
    }
}

/// The part holds no rows of tables.
spec fn without_rows(part: Part) -> bool {
    part matches Ok(records) ==> records.continents.len() == 0 && records.countries.len() == 0
        && records.national_competitions.len() == 0 && records.domestic_cups.len() == 0
}

proof fn lemma_in_turn_without_rows(entries: Seq<EntryView>, part: spec_fn(EntryView) -> Part)
    requires
        forall|e: EntryView| without_rows(#[trigger] part(e)),
    ensures
        without_rows(in_turn(entries, part)),
    decreases entries.len(),
{
    if entries.len() > 0 {
        lemma_in_turn_without_rows(entries.drop_first(), part);
        assert(without_rows(part(entries[0])));
    }
}

proof fn lemma_countries_without_rows(tree: Tree)
    ensures
        without_rows(countries_part(tree)),
{
    let parts = |e: EntryView| country_part(tree, e);
    assert forall|e: EntryView| without_rows(#[trigger] parts(e)) by {
        match name_text(e.name) {
            Some(code) => {
                let leagues = |l: EntryView| league_dir_part(tree, l.id, code);
                assert forall|l: EntryView| without_rows(#[trigger] leagues(l)) by {
                    let league_id = document_at(tree, l.id, Child::League).u64_at("id"@)->0;
                    let clubs = |c: EntryView| club_dir_part(tree, c.id, code, league_id);
                    assert forall|c: EntryView| without_rows(#[trigger] clubs(c)) by {
                        assert(without_rows(club_part(tree, c.id, code, league_id)));
                    }
                    lemma_in_turn_without_rows(
                        selected(
                            (tree.entries)(Place { base: l.id, child: Child::Itself }),
                            Keep::Directories,
                        ),
                        clubs,
                    );
                    assert(without_rows(league_part(tree, l.id, code)));
                }
                lemma_in_turn_without_rows(
                    selected(
                        (tree.entries)(Place { base: e.id, child: Child::Itself }),
                        Keep::Leagues,
                    ),
                    leagues,
                );
                assert(without_rows(names_part(tree, e.id, code)));
                assert(without_rows(
                    squad_part(tree, Place { base: e.id, child: Child::FreeAgents }),
                ));
            },
            None => {},
        }
    }
    lemma_in_turn_without_rows(
        selected((tree.entries)(Place { base: ROOT, child: Child::Itself }), Keep::Directories),
        parts,
    );
}

/// The tables of a tree hold the rows of their files, all of them and as they
/// are; the domestic cups none where there is no such file.
pub proof fn tables_hold_the_rows_of_their_files(tree: Tree, path: Seq<char>)
    ensures
        whole_tree(tree, path) matches Ok(records) ==> {
            &&& rows_of(tree, Child::Continents, records.continents, true)
            &&& rows_of(tree, Child::Countries, records.countries, true)
            &&& rows_of(tree, Child::NationalCompetitions, records.national_competitions, true)
            &&& rows_of(
                tree,
                Child::DomesticCups,
                records.domestic_cups,
                (tree.is_file)(Place { base: ROOT, child: Child::DomesticCups }),
            )
        },
{
    lemma_countries_without_rows(tree);
    match whole_tree(tree, path) {
        Ok(records) => {
            let continents = document_at(tree, ROOT, Child::Continents)->Array_0;
            let countries = document_at(tree, ROOT, Child::Countries)->Array_0;
            let competitions = document_at(tree, ROOT, Child::NationalCompetitions)->Array_0;
            let cups = document_at(tree, ROOT, Child::DomesticCups)->Array_0;
            assert(root_part(tree, path) is Ok);
            assert(records.continents =~= continents);
            assert(records.countries =~= countries);
            assert(records.national_competitions =~= competitions);
            if (tree.is_file)(Place { base: ROOT, child: Child::DomesticCups }) {
                assert(records.domestic_cups =~= cups);
            }
        },
        Err(_) => {},
    }
}

} // verus!
