//! What the records of a tree say of where they were.
//!
//! The place of a record in the tree is noted on the record, so that the
//! database stands without the tree.

use crate::collected::{nothing, one_club, one_league, one_satellite, some_players, CollectedView};
use crate::document::with_satellites_folded;
use crate::json::JsonView;
use crate::listing::{name_text, selected, EntryView, Keep};
use crate::questions::{Child, Place, ROOT};
use crate::records::{history_check, is_main, parent_of, stamped_club, stamped_teams};
use crate::satellite_laws::lemma_names;
use crate::satellites::{
    adopted, first_where, fold_satellite, fold_satellites, has_id, has_type, joined_teams,
    lemma_first_from, main_team, sub_team, SatelliteView,
};
use crate::tree::{
    both, club_dir_part, club_part, clubs_part, countries_part, country_part, cups_part, in_turn,
    league_dir_part, league_part, leagues_part, names_part, players_at, players_in, root_part,
    squad_part, table_part, whole_tree, Part, Tree,
};
use crate::walk::{ids, satellite_of, with_country, Table};
use vstd::prelude::*;

verus! {

/// `code` is the name of a country directory of the tree.
pub open spec fn is_country(tree: Tree, code: Seq<char>) -> bool {
    exists|i: int|
        0 <= i < country_dirs(tree).len() && name_text((#[trigger] country_dirs(tree)[i]).name)
            == Some(code)
}

/// The country directories of the tree.
pub open spec fn country_dirs(tree: Tree) -> Seq<EntryView> {
    selected((tree.entries)(Place { base: ROOT, child: Child::Itself }), Keep::Directories)
}

/// The record says of which country of the tree it is.
pub open spec fn country_noted(tree: Tree, record: JsonView) -> bool {
    record.str_at("country_code"@) matches Some(code) && is_country(tree, code)
}

/// One of the leagues has the id `id`.
pub open spec fn is_league(leagues: Seq<JsonView>, id: u64) -> bool {
    exists|i: int| 0 <= i < leagues.len() && (#[trigger] leagues[i]).u64_at("id"@) == Some(id)
}

/// Every main team of the club says which of the leagues, or `extra`, it plays in.
pub open spec fn league_noted(
    leagues: Seq<JsonView>,
    extra: Option<u64>,
    club: JsonView,
) -> bool {
    club.array_at("teams"@) matches Some(teams) ==> forall|t: int|
        #![trigger teams[t]]
        0 <= t < teams.len() && is_main(teams[t]) ==> (teams[t].u64_at("league_id"@) matches Some(
            id,
        ) && (is_league(leagues, id) || extra == Some(id)))
}

/// The player's history is well-formed.
pub open spec fn well_formed_history(player: JsonView) -> bool {
    history_check(player, Seq::empty()) is Ok
}

/// Every record says where it was, no club names a parent, and every history is
/// well-formed; the clubs may be of the league `extra` besides those that are
/// there.
pub open spec fn in_context(tree: Tree, records: CollectedView, extra: Option<u64>) -> bool {
    &&& forall|i: int|
        #![trigger records.leagues[i]]
        0 <= i < records.leagues.len() ==> records.leagues[i].u64_at("id"@) is Some
            && country_noted(tree, records.leagues[i])
    &&& forall|i: int|
        #![trigger records.names[i]]
        0 <= i < records.names.len() && records.names[i] is Object ==> country_noted(
            tree,
            records.names[i],
        )
    &&& forall|i: int|
        #![trigger records.clubs[i]]
        0 <= i < records.clubs.len() ==> {
            &&& records.clubs[i] is Object ==> country_noted(tree, records.clubs[i])
            &&& records.clubs[i].get("parent_club"@) is None
            &&& league_noted(records.leagues, extra, records.clubs[i])
        }
    &&& forall|i: int|
        #![trigger records.players[i]]
        0 <= i < records.players.len() ==> well_formed_history(records.players[i])
    &&& forall|i: int|
        #![trigger records.satellites[i]]
        0 <= i < records.satellites.len() ==> satellite_in_context(
            records.leagues,
            extra,
            records.satellites[i],
        )
}

/// The satellite plays in one of the leagues, or `extra`, and the histories of
/// its players are well-formed.
pub open spec fn satellite_in_context(
    leagues: Seq<JsonView>,
    extra: Option<u64>,
    satellite: SatelliteView,
) -> bool {
    &&& is_league(leagues, satellite.league_id) || extra == Some(satellite.league_id)
    &&& forall|i: int|
        #![trigger satellite.players[i]]
        0 <= i < satellite.players.len() ==> well_formed_history(satellite.players[i])
}

/// The part is in context unless it is an error.
spec fn part_in_context(tree: Tree, part: Part, extra: Option<u64>) -> bool {
    part matches Ok(records) ==> in_context(tree, records, extra)
}

/// More leagues are no loss.
proof fn lemma_more_leagues(
    leagues: Seq<JsonView>,
    more: Seq<JsonView>,
    extra: Option<u64>,
    wider: Option<u64>,
)
    requires
        extra matches Some(id) ==> is_league(more, id) || wider == Some(id),
        forall|i: int|
            0 <= i < leagues.len() ==> #[trigger] more.contains(leagues[i]),
    ensures
        forall|id: u64| #[trigger] is_league(leagues, id) ==> is_league(more, id),
        forall|club: JsonView| #[trigger]
            league_noted(leagues, extra, club) ==> league_noted(more, wider, club),
        forall|satellite: SatelliteView| #[trigger]
            satellite_in_context(leagues, extra, satellite) ==> satellite_in_context(
                more,
                wider,
                satellite,
            ),
{
    assert forall|id: u64| #[trigger] is_league(leagues, id) implies is_league(more, id) by {
        let i = choose|i: int|
            0 <= i < leagues.len() && (#[trigger] leagues[i]).u64_at("id"@) == Some(id);
        assert(more.contains(leagues[i]));
        let j = choose|j: int| 0 <= j < more.len() && more[j] == leagues[i];
        assert(more[j].u64_at("id"@) == Some(id));
    }
    assert forall|club: JsonView| #[trigger] league_noted(leagues, extra, club) implies league_noted(
        more,
        wider,
        club,
    ) by {
        match club.array_at("teams"@) {
            Some(teams) => {
                assert forall|t: int|
                    #![trigger teams[t]]
                    0 <= t < teams.len() && is_main(teams[t]) implies (teams[t].u64_at(
                    "league_id"@,
                ) matches Some(id) && (is_league(more, id) || wider == Some(id))) by {
                    let id = teams[t].u64_at("league_id"@)->0;
                    assert(is_league(leagues, id) || extra == Some(id));
                }
            },
            None => {},
        }
    }
}

/// Parts in context are in context together.
proof fn lemma_both_in_context(tree: Tree, first: Part, second: Part, extra: Option<u64>)
    requires
        part_in_context(tree, first, extra),
        part_in_context(tree, second, extra),
    ensures
        part_in_context(tree, both(first, second), extra),
{
    if first is Ok && second is Ok {
        let a = first->Ok_0;
        let b = second->Ok_0;
        let sum = a.plus(b);
        assert forall|i: int| 0 <= i < a.leagues.len() implies #[trigger] sum.leagues.contains(
            a.leagues[i],
        ) by {
            assert(sum.leagues[i] == a.leagues[i]);
        }
        assert forall|i: int| 0 <= i < b.leagues.len() implies #[trigger] sum.leagues.contains(
            b.leagues[i],
        ) by {
            assert(sum.leagues[a.leagues.len() + i] == b.leagues[i]);
        }
        lemma_more_leagues(a.leagues, sum.leagues, extra, extra);
        lemma_more_leagues(b.leagues, sum.leagues, extra, extra);
        assert(in_context(tree, sum, extra));
    }
}

proof fn lemma_in_turn_in_context(
    tree: Tree,
    entries: Seq<EntryView>,
    part: spec_fn(EntryView) -> Part,
    extra: Option<u64>,
)
    requires
        forall|i: int|
            0 <= i < entries.len() ==> part_in_context(tree, #[trigger] part(entries[i]), extra),
    ensures
        part_in_context(tree, in_turn(entries, part), extra),
    decreases entries.len(),
{
    if entries.len() > 0 {
        let rest = entries.drop_first();
        assert forall|i: int| 0 <= i < rest.len() implies part_in_context(
            tree,
            #[trigger] part(rest[i]),
            extra,
        ) by {
            assert(rest[i] == entries[i + 1]);
            assert(part_in_context(tree, part(entries[i + 1]), extra));
        }
        lemma_in_turn_in_context(tree, rest, part, extra);
        assert(part_in_context(tree, part(entries[0]), extra));
        lemma_both_in_context(tree, part(entries[0]), in_turn(rest, part), extra);
    }
}

/// What the check of a history says does not depend on how the file is called.
proof fn lemma_history_path(player: JsonView, path: Seq<char>)
    ensures
        history_check(player, path) is Ok <==> well_formed_history(player),
{
}

proof fn lemma_players_in(tree: Tree, files: Seq<usize>)
    ensures
        players_in(tree, files) matches Ok(players) ==> forall|i: int|
            #![trigger players[i]]
            0 <= i < players.len() ==> well_formed_history(players[i]),
    decreases files.len(),
{
    if files.len() > 0 {
        let place = Place { base: files[0], child: Child::Itself };
        lemma_history_path(tree.document(place)->Ok_0, (tree.path)(place));
        lemma_players_in(tree, files.drop_first());
    }
}

proof fn lemma_players_at(tree: Tree, place: Place)
    ensures
        players_at(tree, place) matches Ok(players) ==> forall|i: int|
            #![trigger players[i]]
            0 <= i < players.len() ==> well_formed_history(players[i]),
{
    lemma_players_in(tree, ids(selected((tree.entries)(place), Keep::Players)));
}

/// Stamping notes the league on every main team.
proof fn lemma_stamped(club: JsonView, league_id: u64)
    ensures
        league_noted(Seq::empty(), Some(league_id), stamped_club(club, league_id)),
        stamped_club(club, league_id).get("parent_club"@) == club.get("parent_club"@),
        stamped_club(club, league_id).get("country_code"@) == club.get("country_code"@),
        stamped_club(club, league_id) is Object == club is Object,
{
    lemma_names();
    match club.array_at("teams"@) {
        Some(teams) => {
            let stamped = stamped_teams(teams, league_id);
            assert(stamped_club(club, league_id).array_at("teams"@) == Some(stamped));
            assert forall|t: int|
                #![trigger stamped[t]]
                0 <= t < stamped.len() && is_main(stamped[t]) implies stamped[t].u64_at(
                "league_id"@,
            ) == Some(league_id) by {
                if is_main(teams[t]) {
                    assert(teams[t] is Object);
                }
            }
        },
        None => {},
    }
}

proof fn lemma_club_in_context(tree: Tree, base: usize, code: Seq<char>, league_id: u64)
    requires
        is_country(tree, code),
    ensures
        part_in_context(tree, club_part(tree, base, code, league_id), Some(league_id)),
{
    lemma_names();
    let place = Place { base, child: Child::Club };
    let club = with_country(tree.document(place)->Ok_0, code);
    let squad = Place { base, child: Child::Players };
    lemma_players_at(tree, squad);
    match players_at(tree, squad) {
        Err(_) => {},
        Ok(players) => {
            match parent_of(club) {
                Some(parent) => {
                    let satellite = SatelliteView {
                        players,
                        ..satellite_of(club, parent, league_id, (tree.path)(place))
                    };
                    assert(satellite_in_context(Seq::empty(), Some(league_id), satellite));
                    assert(in_context(tree, one_satellite(satellite), Some(league_id)));
                },
                None => {
                    let bare = club.without_field("parent_club"@);
                    lemma_stamped(bare, league_id);
                    let stamped = stamped_club(bare, league_id);
                    let records = one_club(stamped).plus(some_players(players));
                    assert(records.clubs =~= seq![stamped]);
                    assert(records.players =~= players);
                    assert(records.leagues =~= Seq::<JsonView>::empty());
                    assert(in_context(tree, records, Some(league_id)));
                },
            }
        },
    }
}

proof fn lemma_league_in_context(tree: Tree, base: usize, code: Seq<char>)
    requires
        is_country(tree, code),
    ensures
        part_in_context(tree, league_part(tree, base, code), None),
{
    lemma_names();
    let place = Place { base, child: Child::League };
    let league = tree.document(place)->Ok_0;
    match league.u64_at("id"@) {
        None => {},
        Some(league_id) => {
            let entries = selected(
                (tree.entries)(Place { base, child: Child::Itself }),
                Keep::Directories,
            );
            let part = |e: EntryView| club_dir_part(tree, e.id, code, league_id);
            assert forall|i: int| 0 <= i < entries.len() implies part_in_context(
                tree,
                #[trigger] part(entries[i]),
                Some(league_id),
            ) by {
                lemma_club_in_context(tree, entries[i].id, code, league_id);
                assert(in_context(tree, nothing(), Some(league_id)));
            }
            lemma_in_turn_in_context(tree, entries, part, Some(league_id));
            let noted = with_country(league, code);
            let own = one_league(noted);
            assert(noted.u64_at("id"@) == Some(league_id));
            assert(country_noted(tree, noted));
            assert(in_context(tree, own, Some(league_id)));
            let clubs = clubs_part(tree, base, code, league_id);
            lemma_both_in_context(tree, Ok(own), clubs, Some(league_id));
            match both(Ok(own), clubs) {
                Ok(all) => {
                    assert(all.leagues[0] == noted);
                    assert(is_league(all.leagues, league_id));
                    assert forall|i: int| 0 <= i < all.leagues.len() implies
                        #[trigger] all.leagues.contains(all.leagues[i]) by {}
                    lemma_more_leagues(all.leagues, all.leagues, Some(league_id), None);
                    assert(in_context(tree, all, None));
                },
                Err(_) => {},
            }
        },
    }
}

proof fn lemma_country_in_context(tree: Tree, entry: EntryView)
    requires
        name_text(entry.name) matches Some(code) ==> is_country(tree, code),
    ensures
        part_in_context(tree, country_part(tree, entry), None),
{
    if name_text(entry.name) is Some {
        lemma_names();
        let code = name_text(entry.name)->0;
        let base = entry.id;
        let names = names_part(tree, base, code);
        assert(part_in_context(tree, names, None)) by {
            let record = with_country(
                tree.document(Place { base, child: Child::Names })->Ok_0,
                code,
            );
            assert(record is Object ==> country_noted(tree, record));
        }
        assert(in_context(tree, nothing(), None));
        let agents = Place { base, child: Child::FreeAgents };
        lemma_players_at(tree, agents);
        assert(part_in_context(tree, squad_part(tree, agents), None));
        let entries = selected((tree.entries)(Place { base, child: Child::Itself }), Keep::Leagues);
        let part = |e: EntryView| league_dir_part(tree, e.id, code);
        assert forall|i: int| 0 <= i < entries.len() implies part_in_context(
            tree,
            #[trigger] part(entries[i]),
            None,
        ) by {
            lemma_league_in_context(tree, entries[i].id, code);
        }
        lemma_in_turn_in_context(tree, entries, part, None);
        let leagues = leagues_part(tree, base, code);
        lemma_both_in_context(tree, squad_part(tree, agents), leagues, None);
        lemma_both_in_context(tree, names, both(squad_part(tree, agents), leagues), None);
        lemma_both_in_context(tree, Ok(nothing()), both(squad_part(tree, agents), leagues), None);
    }
}

/// In what a tree holds, every league has an id, every record says of which
/// country it is, every main team says in which of the leagues it plays, no club
/// names a parent, and every history is well-formed.
pub proof fn tree_records_are_in_context(tree: Tree, path: Seq<char>)
    ensures
        whole_tree(tree, path) matches Ok(records) ==> in_context(tree, records, None),
{
    assert(in_context(tree, nothing(), None));
    let entries = country_dirs(tree);
    let part = |e: EntryView| country_part(tree, e);
    assert forall|i: int| 0 <= i < entries.len() implies part_in_context(
        tree,
        #[trigger] part(entries[i]),
        None,
    ) by {
        assert(name_text(entries[i].name) matches Some(code) ==> is_country(tree, code));
        lemma_country_in_context(tree, entries[i]);
    }
    lemma_in_turn_in_context(tree, entries, part, None);
    assert(part_in_context(tree, table_part(tree, Table::Continents), None));
    assert(part_in_context(tree, table_part(tree, Table::Countries), None));
    assert(part_in_context(tree, table_part(tree, Table::NationalCompetitions), None));
    assert(part_in_context(tree, cups_part(tree), None));
    assert(part_in_context(tree, root_part(tree, path), None));
    let p5 = both(cups_part(tree), countries_part(tree));
    let p4 = both(table_part(tree, Table::NationalCompetitions), p5);
    let p3 = both(table_part(tree, Table::Countries), p4);
    let p2 = both(table_part(tree, Table::Continents), p3);
    lemma_both_in_context(tree, cups_part(tree), countries_part(tree), None);
    lemma_both_in_context(tree, table_part(tree, Table::NationalCompetitions), p5, None);
    lemma_both_in_context(tree, table_part(tree, Table::Countries), p4, None);
    lemma_both_in_context(tree, table_part(tree, Table::Continents), p3, None);
    lemma_both_in_context(tree, root_part(tree, path), p2, None);
}

/// A team that joins says in which league it plays.
proof fn lemma_joined_noted(
    leagues: Seq<JsonView>,
    club: JsonView,
    team: JsonView,
    satellite: SatelliteView,
)
    requires
        league_noted(leagues, None, club),
        is_league(leagues, satellite.league_id),
        club.array_at("teams"@) is Some,
        team.u64_at("league_id"@) == Some(satellite.league_id),
        joined_teams(club.array_at("teams"@)->0, team, satellite) is Ok,
    ensures
        league_noted(
            leagues,
            None,
            club.with_field(
                "teams"@,
                JsonView::Array(
                    joined_teams(club.array_at("teams"@)->0, team, satellite)->Ok_0,
                ),
            ),
        ),
{
    lemma_names();
    let teams = club.array_at("teams"@)->0;
    let joined = joined_teams(teams, team, satellite)->Ok_0;
    let after = club.with_field("teams"@, JsonView::Array(joined));
    assert(after.array_at("teams"@) == Some(joined));
    lemma_first_from(teams, has_type(satellite.team_type), 0);
    assert forall|t: int|
        #![trigger joined[t]]
        0 <= t < joined.len() && is_main(joined[t]) implies (joined[t].u64_at(
        "league_id"@,
    ) matches Some(id) && is_league(leagues, id)) by {
        if t < teams.len() {
            assert(is_main(teams[t]));
            assert(teams[t].u64_at("league_id"@) is Some);
            assert(joined[t] == teams[t]);
        }
    }
}

/// Folding keeps the records in context.
proof fn lemma_fold_in_context(
    tree: Tree,
    records: CollectedView,
    clubs: Seq<JsonView>,
    players: Seq<JsonView>,
    satellites: Seq<SatelliteView>,
)
    requires
        in_context(tree, CollectedView { clubs, players, satellites, ..records }, None),
    ensures
        ({
            let folded = fold_satellites(clubs, players, satellites);
            in_context(
                tree,
                CollectedView {
                    clubs: folded.clubs,
                    players: folded.players,
                    satellites: Seq::empty(),
                    ..records
                },
                None,
            )
        }),
    decreases satellites.len(),
{
    let all = CollectedView { clubs, players, satellites, ..records };
    let unfolded = CollectedView { clubs, players, satellites: Seq::empty(), ..records };
    assert(all.leagues == unfolded.leagues);
    assert(all.names == unfolded.names);
    assert(all.clubs == unfolded.clubs);
    assert(all.players == unfolded.players);
    assert(in_context(tree, unfolded, None));
    if satellites.len() > 0 {
        let satellite = satellites[0];
        let rest = satellites.drop_first();
        assert(all.satellites[0] == satellite);
        assert(satellite_in_context(records.leagues, None, satellite));
        match fold_satellite(clubs, players, satellite) {
            Ok((c, p)) => {
                lemma_names();
                lemma_first_from(clubs, has_id(satellite.parent_id), 0);
                let parent = first_where(clubs, has_id(satellite.parent_id))->0;
                let squads = satellite.satellite_club.array_at("teams"@)->0;
                lemma_first_from(squads, has_type("Main"@), 0);
                let main = main_team(satellite.satellite_club)->0;
                let team = sub_team(main, satellite);
                assert(all.clubs[parent] == clubs[parent]);
                lemma_joined_noted(records.leagues, clubs[parent], team, satellite);
                let next = CollectedView { clubs: c, players: p, satellites: rest, ..records };
                assert forall|i: int| #![trigger next.clubs[i]] 0 <= i < next.clubs.len() implies {
                    &&& next.clubs[i] is Object ==> country_noted(tree, next.clubs[i])
                    &&& next.clubs[i].get("parent_club"@) is None
                    &&& league_noted(next.leagues, None, next.clubs[i])
                } by {
                    assert(all.clubs[i] == clubs[i]);
                }
                assert forall|i: int|
                    #![trigger next.players[i]]
                    0 <= i < next.players.len() implies well_formed_history(next.players[i]) by {
                    if i < players.len() {
                        assert(all.players[i] == players[i]);
                    } else {
                        let k = i - players.len();
                        let player = satellite.players[k];
                        assert(well_formed_history(player));
                        assert(next.players[i] == adopted(player, satellite));
                        assert(adopted(player, satellite).get("history"@) == player.get(
                            "history"@,
                        ));
                    }
                }
                assert forall|i: int|
                    #![trigger next.satellites[i]]
                    0 <= i < next.satellites.len() implies satellite_in_context(
                    next.leagues,
                    None,
                    next.satellites[i],
                ) by {
                    assert(next.satellites[i] == all.satellites[i + 1]);
                }
                assert forall|i: int|
                    #![trigger next.leagues[i]]
                    0 <= i < next.leagues.len() implies next.leagues[i].u64_at("id"@) is Some
                    && country_noted(tree, next.leagues[i]) by {
                    assert(all.leagues[i] == next.leagues[i]);
                }
                assert forall|i: int|
                    #![trigger next.names[i]]
                    0 <= i < next.names.len() && next.names[i] is Object implies country_noted(
                    tree,
                    next.names[i],
                ) by {
                    assert(all.names[i] == next.names[i]);
                }
                lemma_fold_in_context(tree, records, c, p, rest);
            },
            Err(_) => {},
        }
    }
}

/// What goes into the database stands without the tree: the records of a tree
/// are in context, and remain so when the satellites are folded.
pub proof fn database_records_are_in_context(tree: Tree, path: Seq<char>)
    requires
        whole_tree(tree, path) is Ok,
    ensures
        with_satellites_folded(whole_tree(tree, path)->Ok_0) matches Ok(records) ==> in_context(
            tree,
            records,
            None,
        ),
{
    let records = whole_tree(tree, path)->Ok_0;
    tree_records_are_in_context(tree, path);
    let same = CollectedView {
        clubs: records.clubs,
        players: records.players,
        satellites: records.satellites,
        ..records
    };
    assert(same == records);
    lemma_fold_in_context(tree, records, records.clubs, records.players, records.satellites);
}

} // verus!
