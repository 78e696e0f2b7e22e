//! What holds of satellites, however many there are.

use crate::error::ErrorView;
use crate::json::JsonView;
use crate::satellites::{
    adopted, adopted_players, first_where, fold_satellite, fold_satellites, has_id,
    has_type, joined_teams, lemma_first_from, main_team, sub_team, SatelliteView,
};
use vstd::prelude::*;

verus! {

/// No two of the records have the same id.
pub open spec fn distinct_ids(records: Seq<JsonView>) -> bool {
    forall|i: int, j: int|
        #![trigger records[i], records[j]]
        0 <= i < j < records.len() && records[i].u64_at("id"@) is Some ==> records[i].u64_at("id"@)
            != records[j].u64_at("id"@)
}

/// Every club of the list has teams with distinct ids only.
pub open spec fn distinct_team_ids(clubs: Seq<JsonView>) -> bool {
    forall|i: int| #![trigger clubs[i]]
        0 <= i < clubs.len() ==> (clubs[i].array_at("teams"@) matches Some(teams) ==> distinct_ids(
            teams,
        ))
}

/// The players of all satellites, as players of the parent clubs.
pub open spec fn all_adopted(satellites: Seq<SatelliteView>) -> Seq<JsonView>
    decreases satellites.len(),
{
    if satellites.len() == 0 {
        Seq::empty()
    } else {
        adopted_players(satellites[0]) + all_adopted(satellites.drop_first())
    }
}

/// `order` lists every position below `n` once.
pub open spec fn is_order(order: Seq<int>, n: nat) -> bool {
    &&& order.len() == n
    &&& forall|i: int| 0 <= i < n ==> 0 <= #[trigger] order[i] < n
    &&& forall|i: int, j: int| 0 <= i < j < n ==> order[i] != order[j]
    &&& forall|q: int| 0 <= q < n ==> #[trigger] order.contains(q)
}

/// The records in another order.
pub open spec fn rearranged(records: Seq<JsonView>, order: Seq<int>) -> Seq<JsonView> {
    Seq::new(order.len(), |i: int| records[order[i]])
}

/// The club has a team of the type `team_type`, and that team has a league.
pub open spec fn plays_in(club: JsonView, team_type: Seq<char>) -> bool {
    exists|t: int|
        #![trigger club.array_at("teams"@)->0[t]]
        club.array_at("teams"@) is Some && 0 <= t < club.array_at("teams"@)->0.len()
            && club.array_at("teams"@)->0[t].str_at("team_type"@) == Some(team_type)
            && club.array_at("teams"@)->0[t].get("league_id"@) is Some
}

/// Field names that differ.
pub proof fn lemma_names()
    ensures
        "teams"@ != "id"@,
        "teams"@ != "parent_club"@,
        "teams"@ != "country_code"@,
        "country_code"@ != "id"@,
        "country_code"@ != "parent_club"@,
        "team_type"@ != "league_id"@,
        "team_type"@ != "id"@,
        "league_id"@ != "id"@,
        "club_id"@ != "team_type_hint"@,
        "history"@ != "club_id"@,
        "history"@ != "team_type_hint"@,
{
    reveal_strlit("teams");
    reveal_strlit("id");
    reveal_strlit("parent_club");
    reveal_strlit("country_code");
    reveal_strlit("team_type");
    reveal_strlit("league_id");
    reveal_strlit("club_id");
    reveal_strlit("team_type_hint");
    reveal_strlit("history");
    assert("teams"@.len() == 5);
    assert("id"@.len() == 2);
    assert("parent_club"@.len() == 11);
    assert("country_code"@.len() == 12);
    assert("team_type"@[0] == 't');
    assert("league_id"@[0] == 'l');
    assert("club_id"@[0] == 'c');
    assert("team_type_hint"@[0] == 't');
    assert("history"@[0] == 'h');
}

/// Folding adds no club, takes none away, moves none, and changes nothing of a
/// club but its teams.
pub proof fn folding_changes_only_teams(
    clubs: Seq<JsonView>,
    players: Seq<JsonView>,
    satellites: Seq<SatelliteView>,
    club: int,
    field: Seq<char>,
)
    requires
        0 <= club < clubs.len(),
        field != "teams"@,
    ensures
        fold_satellites(clubs, players, satellites).clubs.len() == clubs.len(),
        fold_satellites(clubs, players, satellites).clubs[club].get(field) == clubs[club].get(
            field,
        ),
    decreases satellites.len(),
{
    if satellites.len() > 0 {
        match fold_satellite(clubs, players, satellites[0]) {
            Ok((c, p)) => {
                lemma_first_from(clubs, has_id(satellites[0].parent_id), 0);
                folding_changes_only_teams(c, p, satellites.drop_first(), club, field);
            },
            Err(_) => {},
        }
    }
}

/// Folding keeps the players that were there, in their places, and appends
/// those of the satellites, in order: all of them where it succeeds.
pub proof fn folding_appends_players(
    clubs: Seq<JsonView>,
    players: Seq<JsonView>,
    satellites: Seq<SatelliteView>,
)
    ensures
        ({
            let folded = fold_satellites(clubs, players, satellites);
            &&& players.len() <= folded.players.len()
            &&& folded.players.take(players.len() as int) == players
            &&& folded.outcome is Ok ==> folded.players == players + all_adopted(satellites)
        }),
    decreases satellites.len(),
{
    let folded = fold_satellites(clubs, players, satellites);
    if satellites.len() == 0 {
        assert(players + all_adopted(satellites) =~= players);
        assert(players.take(players.len() as int) =~= players);
    } else {
        match fold_satellite(clubs, players, satellites[0]) {
            Ok((c, p)) => {
                folding_appends_players(c, p, satellites.drop_first());
                assert(folded.players.take(players.len() as int) =~= folded.players.take(
                    p.len() as int,
                ).take(players.len() as int));
                assert(p.take(players.len() as int) =~= players);
                assert(p + all_adopted(satellites.drop_first()) =~= players + all_adopted(
                    satellites,
                ));
            },
            Err(_) => {
                assert(players.take(players.len() as int) =~= players);
            },
        }
    }
}

/// A player record of a satellite ends up in the parent club, bound for the
/// team of the satellite, and is otherwise as it was.
pub proof fn adopted_player_belongs_to_parent(player: JsonView, satellite: SatelliteView)
    requires
        player is Object,
    ensures
        adopted(player, satellite).u64_at("club_id"@) == Some(satellite.parent_id),
        adopted(player, satellite).str_at("team_type_hint"@) == Some(satellite.team_type),
        forall|field: Seq<char>|
            field != "club_id"@ && field != "team_type_hint"@ ==> #[trigger] adopted(
                player,
                satellite,
            ).get(field) == player.get(field),
{
    lemma_names();
}

/// A folded satellite plays in the parent club: the parent has a team of the
/// type that the satellite fills, and the team has a league.
pub proof fn folded_satellite_has_its_team(
    clubs: Seq<JsonView>,
    players: Seq<JsonView>,
    satellite: SatelliteView,
)
    requires
        fold_satellite(clubs, players, satellite) is Ok,
    ensures
        first_where(clubs, has_id(satellite.parent_id)) matches Some(p) && plays_in(
            fold_satellite(clubs, players, satellite)->Ok_0.0[p],
            satellite.team_type,
        ),
{
    lemma_names();
    lemma_first_from(clubs, has_id(satellite.parent_id), 0);
    let p = first_where(clubs, has_id(satellite.parent_id))->0;
    let main = main_team(satellite.satellite_club)->0;
    let squads = satellite.satellite_club.array_at("teams"@)->0;
    lemma_first_from(squads, has_type("Main"@), 0);
    let declared = clubs[p].array_at("teams"@)->0;
    lemma_first_from(declared, has_type(satellite.team_type), 0);
    let team = sub_team(main, satellite);
    let teams = joined_teams(declared, team, satellite)->Ok_0;
    let folded = fold_satellite(clubs, players, satellite)->Ok_0.0;
    assert(folded[p].array_at("teams"@) == Some(teams));
    let t = match first_where(declared, has_type(satellite.team_type)) {
        Some(t) => t,
        None => teams.len() - 1,
    };
    assert(0 <= t < teams.len());
    assert(teams[t].str_at("team_type"@) == Some(satellite.team_type));
    assert(teams[t].get("league_id"@) is Some);
    assert(plays_in(folded[p], satellite.team_type));
}

/// A team that joins brings no id that another team of the parent has.
proof fn lemma_join_keeps_ids_distinct(
    teams: Seq<JsonView>,
    team: JsonView,
    satellite: SatelliteView,
)
    requires
        distinct_ids(teams),
        joined_teams(teams, team, satellite) is Ok,
    ensures
        distinct_ids(joined_teams(teams, team, satellite)->Ok_0),
{
    lemma_names();
    lemma_first_from(teams, has_type(satellite.team_type), 0);
    let joined = joined_teams(teams, team, satellite)->Ok_0;
    match first_where(teams, has_type(satellite.team_type)) {
        Some(t) => {
            assert forall|i: int| 0 <= i < teams.len() implies (#[trigger] joined[i]).u64_at("id"@)
                == teams[i].u64_at("id"@) by {}
            assert forall|i: int, j: int|
                #![trigger joined[i], joined[j]]
                0 <= i < j < joined.len() && joined[i].u64_at("id"@) is Some implies joined[i].u64_at(
                "id"@,
            ) != joined[j].u64_at("id"@) by {
                assert(teams[i].u64_at("id"@) != teams[j].u64_at("id"@));
            }
        },
        None => {
            match team.u64_at("id"@) {
                Some(id) => {
                    lemma_first_from(teams, has_id(id), 0);
                    assert forall|i: int| 0 <= i < teams.len() implies (
                    #[trigger] teams[i]).u64_at("id"@) != Some(id) by {
                        assert(!has_id(id)(teams[i]));
                    }
                },
                None => {},
            }
        },
    }
}

/// Folding never gives one id to two teams of a club: where the ids of every
/// club's teams are distinct before, they are distinct afterwards.
pub proof fn folding_keeps_team_ids_distinct(
    clubs: Seq<JsonView>,
    players: Seq<JsonView>,
    satellites: Seq<SatelliteView>,
)
    requires
        distinct_team_ids(clubs),
    ensures
        distinct_team_ids(fold_satellites(clubs, players, satellites).clubs),
    decreases satellites.len(),
{
    if satellites.len() > 0 {
        let satellite = satellites[0];
        match fold_satellite(clubs, players, satellite) {
            Ok((c, p)) => {
                lemma_first_from(clubs, has_id(satellite.parent_id), 0);
                let parent = first_where(clubs, has_id(satellite.parent_id))->0;
                let team = sub_team(main_team(satellite.satellite_club)->0, satellite);
                let teams = clubs[parent].array_at("teams"@)->0;
                lemma_join_keeps_ids_distinct(teams, team, satellite);
                assert(c[parent].array_at("teams"@) == Some(
                    joined_teams(teams, team, satellite)->Ok_0,
                ));
                folding_keeps_team_ids_distinct(c, p, satellites.drop_first());
            },
            Err(_) => {},
        }
    }
}

/// In records with distinct ids in another order, an id is found where the
/// order has put the record that it was found at.
proof fn lemma_rearranged_find(records: Seq<JsonView>, order: Seq<int>, id: u64)
    requires
        is_order(order, records.len()),
        distinct_ids(records),
    ensures
        match first_where(records, has_id(id)) {
            Some(p) => first_where(rearranged(records, order), has_id(id)) matches Some(q) && 0
                <= q < order.len() && order[q] == p,
            None => first_where(rearranged(records, order), has_id(id)) is None,
        },
{
    let moved = rearranged(records, order);
    lemma_first_from(records, has_id(id), 0);
    lemma_first_from(moved, has_id(id), 0);
    match first_where(records, has_id(id)) {
        Some(p) => {
            assert(order.contains(p));
            let q = choose|q: int| 0 <= q < order.len() && order[q] == p;
            assert(moved[q] == records[p]);
            assert(has_id(id)(moved[q]));
            let found = first_where(moved, has_id(id))->0;
            assert(has_id(id)(records[order[found]]));
            assert(order[found] == p) by {
                if order[found] < p {
                    assert(records[order[found]].u64_at("id"@) != records[p].u64_at("id"@));
                } else if order[found] > p {
                    assert(records[p].u64_at("id"@) != records[order[found]].u64_at("id"@));
                }
            }
        },
        None => {
            match first_where(moved, has_id(id)) {
                Some(q) => {
                    assert(!has_id(id)(records[order[q]]));
                },
                None => {},
            }
        },
    }
}

/// The order in which the clubs were read makes no difference to folding: with
/// the clubs in another order, the same satellites are folded into the same
/// clubs, with the same outcome. (Of clubs that share an id only the first is
/// ever a parent, so their ids must be distinct.)
pub proof fn folding_ignores_club_order(
    clubs: Seq<JsonView>,
    players: Seq<JsonView>,
    satellites: Seq<SatelliteView>,
    order: Seq<int>,
)
    requires
        is_order(order, clubs.len()),
        distinct_ids(clubs),
    ensures
        ({
            let folded = fold_satellites(clubs, players, satellites);
            let moved = fold_satellites(rearranged(clubs, order), players, satellites);
            &&& moved.clubs == rearranged(folded.clubs, order)
            &&& moved.players == folded.players
            &&& moved.outcome == folded.outcome
        }),
    decreases satellites.len(),
{
    if satellites.len() > 0 {
        let satellite = satellites[0];
        lemma_rearranged_find(clubs, order, satellite.parent_id);
        lemma_first_from(clubs, has_id(satellite.parent_id), 0);
        match fold_satellite(clubs, players, satellite) {
            Ok((c, p)) => {
                let parent = first_where(clubs, has_id(satellite.parent_id))->0;
                let q = first_where(rearranged(clubs, order), has_id(satellite.parent_id))->0;
                lemma_names();
                assert forall|i: int| 0 <= i < clubs.len() implies (#[trigger] c[i]).u64_at("id"@)
                    == clubs[i].u64_at("id"@) by {}
                assert(distinct_ids(c)) by {
                    assert forall|i: int, j: int|
                        #![trigger c[i], c[j]]
                        0 <= i < j < c.len() && c[i].u64_at("id"@) is Some implies c[i].u64_at(
                        "id"@,
                    ) != c[j].u64_at("id"@) by {
                        assert(clubs[i].u64_at("id"@) != clubs[j].u64_at("id"@));
                    }
                }
                assert(rearranged(c, order) =~= rearranged(clubs, order).update(q, c[parent]));
                assert(fold_satellite(rearranged(clubs, order), players, satellite) == Ok::<
                    (Seq<JsonView>, Seq<JsonView>),
                    ErrorView,
                >((rearranged(c, order), p)));
                folding_ignores_club_order(c, p, satellites.drop_first(), order);
            },
            Err(_) => {},
        }
    }
}

} // verus!
