//! What folding a satellite does to the clubs and the players.

use crate::error::ErrorView;
use crate::json::{JsonView, NumberView};
use crate::record_laws::{has_field, holds_array, holds_text};
use crate::satellites::{
    adopted_players, first_where, fold_satellite, fold_satellites, has_id, has_type,
    joined_teams, lemma_first_from, main_team, sub_team, Folded, SatelliteView,
};
use vstd::prelude::*;

verus! {

/// The value is an object whose field `key` is the number `number`.
pub open spec fn holds_number(value: JsonView, key: Seq<char>, number: u64) -> bool {
    value matches JsonView::Object(fields) && fields.contains_key(key) && fields[key]
        == JsonView::Number(NumberView::Unsigned(number))
}

/// The record at `at` is the first with the id `id`.
pub open spec fn first_with_id(records: Seq<JsonView>, id: u64, at: int) -> bool {
    &&& 0 <= at < records.len() && holds_number(records[at], "id"@, id)
    &&& forall|k: int| 0 <= k < at ==> !holds_number(#[trigger] records[k], "id"@, id)
}

/// No record has the id `id`.
pub open spec fn none_with_id(records: Seq<JsonView>, id: u64) -> bool {
    forall|k: int| 0 <= k < records.len() ==> !holds_number(#[trigger] records[k], "id"@, id)
}

/// The team at `at` is the first of the type `team_type`.
pub open spec fn first_of_type(teams: Seq<JsonView>, team_type: Seq<char>, at: int) -> bool {
    &&& 0 <= at < teams.len() && holds_text(teams[at], "team_type"@, team_type)
    &&& forall|k: int| 0 <= k < at ==> !holds_text(#[trigger] teams[k], "team_type"@, team_type)
}

/// No team is of the type `team_type`.
pub open spec fn none_of_type(teams: Seq<JsonView>, team_type: Seq<char>) -> bool {
    forall|k: int|
        0 <= k < teams.len() ==> !holds_text(#[trigger] teams[k], "team_type"@, team_type)
}

/// `after` is the team `before`, but for the league `league_id` where it had
/// none.
pub open spec fn slot_kept(before: JsonView, after: JsonView, league_id: u64) -> bool {
    if has_field(before, "league_id"@) {
        after == before
    } else {
        before matches JsonView::Object(fields) && after == JsonView::Object(
            fields.insert("league_id"@, JsonView::Number(NumberView::Unsigned(league_id))),
        )
    }
}

/// `after` is the main team `main` of a satellite as a team of its parent.
pub open spec fn team_attached(main: JsonView, after: JsonView, satellite: SatelliteView) -> bool {
    main matches JsonView::Object(fields) && after == JsonView::Object(
        fields.insert("team_type"@, JsonView::String(satellite.team_type)).insert(
            "league_id"@,
            JsonView::Number(NumberView::Unsigned(satellite.league_id)),
        ),
    )
}

/// `after` is the player `before` of a satellite as a player of its parent.
pub open spec fn handed_over(before: JsonView, after: JsonView, satellite: SatelliteView) -> bool {
    match before {
        JsonView::Object(fields) => after == JsonView::Object(
            fields.insert(
                "club_id"@,
                JsonView::Number(NumberView::Unsigned(satellite.parent_id)),
            ).insert("team_type_hint"@, JsonView::String(satellite.team_type)),
        ),
        _ => after == before,
    }
}

/// What is found first is the first that is looked for.
proof fn lemma_found(records: Seq<JsonView>, id: u64, team_type: Seq<char>)
    ensures
        match first_where(records, has_id(id)) {
            Some(p) => first_with_id(records, id, p),
            None => none_with_id(records, id),
        },
        match first_where(records, has_type(team_type)) {
            Some(t) => first_of_type(records, team_type, t),
            None => none_of_type(records, team_type),
        },
{
    lemma_first_from(records, has_id(id), 0);
    lemma_first_from(records, has_type(team_type), 0);
    assert forall|k: int| 0 <= k < records.len() implies has_id(id)(#[trigger] records[k])
        == holds_number(records[k], "id"@, id) by {}
    assert forall|k: int| 0 <= k < records.len() implies has_type(team_type)(#[trigger] records[k])
        == holds_text(records[k], "team_type"@, team_type) by {}
}

/// There is one first only.
proof fn lemma_first_unique(records: Seq<JsonView>, id: u64, team_type: Seq<char>, at: int)
    ensures
        first_with_id(records, id, at) ==> first_where(records, has_id(id)) == Some(at),
        first_of_type(records, team_type, at) ==> first_where(records, has_type(team_type)) == Some(
            at,
        ),
{
    lemma_found(records, id, team_type);
    match first_where(records, has_id(id)) {
        Some(p) => {
            if first_with_id(records, id, at) && p < at {
                assert(!holds_number(records[p], "id"@, id));
            }
            if first_with_id(records, id, at) && at < p {
                assert(!holds_number(records[at], "id"@, id));
            }
        },
        None => {
            if first_with_id(records, id, at) {
                assert(!holds_number(records[at], "id"@, id));
            }
        },
    }
    match first_where(records, has_type(team_type)) {
        Some(p) => {
            if first_of_type(records, team_type, at) && p < at {
                assert(!holds_text(records[p], "team_type"@, team_type));
            }
            if first_of_type(records, team_type, at) && at < p {
                assert(!holds_text(records[at], "team_type"@, team_type));
            }
        },
        None => {
            if first_of_type(records, team_type, at) {
                assert(!holds_text(records[at], "team_type"@, team_type));
            }
        },
    }
}

/// A satellite whose parent does not exist is refused, and only such a one for
/// that reason.
pub proof fn fold_needs_the_parent(
    clubs: Seq<JsonView>,
    players: Seq<JsonView>,
    satellite: SatelliteView,
)
    ensures
        none_with_id(clubs, satellite.parent_id) <==> fold_satellite(clubs, players, satellite)
            == Err::<(Seq<JsonView>, Seq<JsonView>), ErrorView>(
            ErrorView::ParentMissing {
                path: satellite.source_path,
                parent_id: satellite.parent_id,
            },
        ),
{
    lemma_found(clubs, satellite.parent_id, satellite.team_type);
    match first_where(clubs, has_id(satellite.parent_id)) {
        Some(p) => {
            assert(holds_number(clubs[p], "id"@, satellite.parent_id));
        },
        None => {},
    }
}

/// A satellite without a main team is refused where its parent exists, and only
/// such a one for that reason.
pub proof fn fold_needs_a_main_team(
    clubs: Seq<JsonView>,
    players: Seq<JsonView>,
    satellite: SatelliteView,
)
    requires
        !none_with_id(clubs, satellite.parent_id),
    ensures
        (forall|squads: Seq<JsonView>| #[trigger]
            holds_array(satellite.satellite_club, "teams"@, squads) ==> none_of_type(
                squads,
                "Main"@,
            )) <==> fold_satellite(clubs, players, satellite) == Err::<
            (Seq<JsonView>, Seq<JsonView>),
            ErrorView,
        >(ErrorView::NoMainTeam { path: satellite.source_path }),
{
    lemma_found(clubs, satellite.parent_id, satellite.team_type);
    match satellite.satellite_club.array_at("teams"@) {
        Some(squads) => {
            lemma_found(squads, 0, "Main"@);
            assert(holds_array(satellite.satellite_club, "teams"@, squads));
            match first_where(squads, has_type("Main"@)) {
                Some(m) => {
                    assert(holds_text(squads[m], "team_type"@, "Main"@));
                },
                None => {},
            }
        },
        None => {},
    }
}

/// A satellite with a main team is refused where its parent has no array of
/// teams.
pub proof fn fold_needs_teams_of_the_parent(
    clubs: Seq<JsonView>,
    players: Seq<JsonView>,
    satellite: SatelliteView,
    parent: int,
    squads: Seq<JsonView>,
    main: int,
)
    requires
        first_with_id(clubs, satellite.parent_id, parent),
        holds_array(satellite.satellite_club, "teams"@, squads),
        first_of_type(squads, "Main"@, main),
    ensures
        (forall|teams: Seq<JsonView>| !#[trigger] holds_array(clubs[parent], "teams"@, teams))
            <==> fold_satellite(clubs, players, satellite) == Err::<
            (Seq<JsonView>, Seq<JsonView>),
            ErrorView,
        >(ErrorView::NoParentTeams { parent_id: satellite.parent_id }),
{
    lemma_first_unique(clubs, satellite.parent_id, satellite.team_type, parent);
    lemma_first_unique(squads, 0, "Main"@, main);
    match clubs[parent].array_at("teams"@) {
        Some(teams) => {
            assert(holds_array(clubs[parent], "teams"@, teams));
        },
        None => {},
    }
}

/// A satellite whose team has the id of a team of the parent is refused where
/// the parent declares no team of the satellite's type.
pub proof fn fold_refuses_a_taken_team_id(
    clubs: Seq<JsonView>,
    players: Seq<JsonView>,
    satellite: SatelliteView,
    parent: int,
    squads: Seq<JsonView>,
    main: int,
    teams: Seq<JsonView>,
    team_id: u64,
    other: int,
)
    requires
        first_with_id(clubs, satellite.parent_id, parent),
        holds_array(satellite.satellite_club, "teams"@, squads),
        first_of_type(squads, "Main"@, main),
        holds_array(clubs[parent], "teams"@, teams),
        none_of_type(teams, satellite.team_type),
        holds_number(squads[main], "id"@, team_id),
        first_with_id(teams, team_id, other),
    ensures
        fold_satellite(clubs, players, satellite) matches Err(
            ErrorView::TeamIdTaken { path, team_id: id, team_type, parent_id, other_type },
        ) && path == satellite.source_path && id == team_id && team_type == satellite.team_type
            && parent_id == satellite.parent_id && (if has_field(teams[other], "team_type"@)
            && teams[other]->Object_0["team_type"@] is String {
            other_type == teams[other]->Object_0["team_type"@]->String_0
        } else {
            other_type == "?"@
        }),
{
    lemma_field_names();
    lemma_first_unique(clubs, satellite.parent_id, satellite.team_type, parent);
    lemma_first_unique(squads, 0, "Main"@, main);
    lemma_first_unique(teams, team_id, satellite.team_type, other);
    lemma_found(teams, team_id, satellite.team_type);
    let team = sub_team(squads[main], satellite);
    assert(team.u64_at("id"@) == Some(team_id));
    match first_where(teams, has_type(satellite.team_type)) {
        Some(t) => {
            assert(!holds_text(teams[t], "team_type"@, satellite.team_type));
        },
        None => {},
    }
}

proof fn lemma_field_names()
    ensures
        "id"@ != "team_type"@,
        "id"@ != "league_id"@,
        "id"@ != "teams"@,
        "team_type"@ != "league_id"@,
        "club_id"@ != "team_type_hint"@,
{
    crate::satellite_laws::lemma_names();
}

/// `c` and `p` are the clubs and the players with the satellite folded: into the
/// club at `parent`, with its team at `main` as the one that joins.
///
/// - No other club is changed, and nothing of the parent but its teams.
/// - All teams of the parent stay where they are. Where one of them is of the
///   satellite's type, the first of these gets the league if it has none, and no
///   team is added; else the team of the satellite comes behind them.
/// - All players stay where they are; behind them come those of the satellite in
///   order, handed over to the parent.
pub open spec fn folded_into(
    clubs: Seq<JsonView>,
    players: Seq<JsonView>,
    satellite: SatelliteView,
    c: Seq<JsonView>,
    p: Seq<JsonView>,
    parent: int,
    main: int,
) -> bool {
    let squads = satellite.satellite_club->Object_0["teams"@]->Array_0;
    let teams = clubs[parent]->Object_0["teams"@]->Array_0;
    let joined = c[parent]->Object_0["teams"@]->Array_0;
    &&& first_with_id(clubs, satellite.parent_id, parent)
    &&& holds_array(satellite.satellite_club, "teams"@, squads)
    &&& first_of_type(squads, "Main"@, main)
    &&& holds_array(clubs[parent], "teams"@, teams)
    &&& holds_array(c[parent], "teams"@, joined)
    &&& c.len() == clubs.len()
    &&& forall|k: int| 0 <= k < clubs.len() && k != parent ==> #[trigger] c[k] == clubs[k]
    &&& c[parent]->Object_0.remove("teams"@) == clubs[parent]->Object_0.remove("teams"@)
    &&& teams_joined(teams, joined, squads[main], satellite)
    &&& p.len() == players.len() + satellite.players.len()
    &&& forall|k: int| 0 <= k < players.len() ==> #[trigger] p[k] == players[k]
    &&& forall|k: int|
        #![trigger satellite.players[k]]
        0 <= k < satellite.players.len() ==> handed_over(
            satellite.players[k],
            p[players.len() + k],
            satellite,
        )
}

/// `joined` are the teams `teams` of a parent once the main team `main` of the
/// satellite has joined.
pub open spec fn teams_joined(
    teams: Seq<JsonView>,
    joined: Seq<JsonView>,
    main: JsonView,
    satellite: SatelliteView,
) -> bool {
    if none_of_type(teams, satellite.team_type) {
        &&& joined.len() == teams.len() + 1
        &&& forall|t: int| 0 <= t < teams.len() ==> #[trigger] joined[t] == teams[t]
        &&& team_attached(main, joined[teams.len() as int], satellite)
        &&& forall|id: u64| #[trigger] holds_number(main, "id"@, id) ==> none_with_id(teams, id)
    } else {
        &&& joined.len() == teams.len()
        &&& forall|t: int|
            #![trigger joined[t]]
            0 <= t < teams.len() ==> if first_of_type(teams, satellite.team_type, t) {
                slot_kept(teams[t], joined[t], satellite.league_id)
            } else {
                joined[t] == teams[t]
            }
    }
}

proof fn lemma_teams_joined(
    teams: Seq<JsonView>,
    main: JsonView,
    satellite: SatelliteView,
)
    requires
        main is Object,
    ensures
        joined_teams(teams, sub_team(main, satellite), satellite) matches Ok(joined)
            ==> teams_joined(teams, joined, main, satellite),
{
    lemma_field_names();
    let team = sub_team(main, satellite);
    lemma_found(teams, 0, satellite.team_type);
    match joined_teams(teams, team, satellite) {
        Ok(joined) => match first_where(teams, has_type(satellite.team_type)) {
            Some(s) => {
                assert(holds_text(teams[s], "team_type"@, satellite.team_type));
                assert forall|t: int|
                    #![trigger joined[t]]
                    0 <= t < teams.len() implies if first_of_type(teams, satellite.team_type, t) {
                    slot_kept(teams[t], joined[t], satellite.league_id)
                } else {
                    joined[t] == teams[t]
                } by {
                    lemma_first_unique(teams, 0, satellite.team_type, t);
                }
            },
            None => {
                assert(team.u64_at("id"@) == main.u64_at("id"@));
                match main.u64_at("id"@) {
                    Some(id) => {
                        lemma_found(teams, id, satellite.team_type);
                    },
                    None => {},
                }
                assert forall|id: u64| #[trigger] holds_number(main, "id"@, id) implies none_with_id(
                    teams,
                    id,
                ) by {
                    assert(main.u64_at("id"@) == Some(id));
                }
            },
        },
        Err(_) => {},
    }
}

/// A satellite that is folded is folded into the first club with the id of its
/// parent, with its first main team: all teams of the parent stay, the players
/// are handed over, and nothing else is changed.
pub proof fn folding_does_what_it_should(
    clubs: Seq<JsonView>,
    players: Seq<JsonView>,
    satellite: SatelliteView,
)
    ensures
        fold_satellite(clubs, players, satellite) matches Ok((c, p)) ==> exists|
            parent: int,
            main: int,
        | #[trigger] folded_into(clubs, players, satellite, c, p, parent, main),
{
    match fold_satellite(clubs, players, satellite) {
        Ok((c, p)) => {
            let parent = first_where(clubs, has_id(satellite.parent_id))->0;
            let squads = satellite.satellite_club.array_at("teams"@)->0;
            let main = first_where(squads, has_type("Main"@))->0;
            let teams = clubs[parent].array_at("teams"@)->0;
            lemma_found(clubs, satellite.parent_id, satellite.team_type);
            lemma_found(squads, 0, "Main"@);
            assert(squads[main] is Object);
            lemma_teams_joined(teams, squads[main], satellite);
            assert(main_team(satellite.satellite_club) == Some(squads[main]));
            assert(c[parent]->Object_0.remove("teams"@) =~= clubs[parent]->Object_0.remove(
                "teams"@,
            ));
            assert(adopted_players(satellite).len() == satellite.players.len());
            assert forall|k: int|
                #![trigger satellite.players[k]]
                0 <= k < satellite.players.len() implies handed_over(
                satellite.players[k],
                p[players.len() + k],
                satellite,
            ) by {
                assert(p[players.len() + k] == adopted_players(satellite)[k]);
            }
            assert(folded_into(clubs, players, satellite, c, p, parent, main));
        },
        Err(_) => {},
    }
}

/// A satellite with a parent that has teams, and with a main team, is folded
/// where the parent declares a team of its type, or else no team of the parent
/// has the id of the satellite's team.
pub proof fn folding_succeeds(
    clubs: Seq<JsonView>,
    players: Seq<JsonView>,
    satellite: SatelliteView,
    parent: int,
    squads: Seq<JsonView>,
    main: int,
    teams: Seq<JsonView>,
)
    requires
        first_with_id(clubs, satellite.parent_id, parent),
        holds_array(satellite.satellite_club, "teams"@, squads),
        first_of_type(squads, "Main"@, main),
        holds_array(clubs[parent], "teams"@, teams),
        none_of_type(teams, satellite.team_type) ==> forall|id: u64| #[trigger]
            holds_number(squads[main], "id"@, id) ==> none_with_id(teams, id),
    ensures
        fold_satellite(clubs, players, satellite) is Ok,
{
    lemma_field_names();
    lemma_first_unique(clubs, satellite.parent_id, satellite.team_type, parent);
    lemma_first_unique(squads, 0, "Main"@, main);
    lemma_found(teams, 0, satellite.team_type);
    let team = sub_team(squads[main], satellite);
    assert(team.u64_at("id"@) == squads[main].u64_at("id"@));
    match team.u64_at("id"@) {
        Some(id) => {
            lemma_found(teams, id, satellite.team_type);
            assert(holds_number(squads[main], "id"@, id));
            match first_where(teams, has_id(id)) {
                Some(t) => {
                    assert(holds_number(teams[t], "id"@, id));
                },
                None => {},
            }
        },
        None => {},
    }
}

/// Satellites are folded one after the other, each into what those before it
/// have left, up to the first that cannot be folded, which changes nothing.
pub proof fn satellites_are_folded_in_turn(
    clubs: Seq<JsonView>,
    players: Seq<JsonView>,
    satellites: Seq<SatelliteView>,
    last: SatelliteView,
)
    ensures
        fold_satellites(clubs, players, Seq::empty()) == (Folded {
            clubs,
            players,
            outcome: Ok(()),
        }),
        ({
            let before = fold_satellites(clubs, players, satellites);
            let after = fold_satellites(clubs, players, satellites.push(last));
            match before.outcome {
                Ok(()) => match fold_satellite(before.clubs, before.players, last) {
                    Ok((c, p)) => after == (Folded { clubs: c, players: p, outcome: Ok(()) }),
                    Err(e) => after == (Folded { outcome: Err(e), ..before }),
                },
                Err(_) => after == before,
            }
        }),
    decreases satellites.len(),
{
    let all = satellites.push(last);
    if satellites.len() == 0 {
        assert(all.drop_first() =~= Seq::<SatelliteView>::empty());
        reveal_with_fuel(fold_satellites, 2);
    } else {
        assert(all.drop_first() =~= satellites.drop_first().push(last));
        match fold_satellite(clubs, players, satellites[0]) {
            Ok((c, p)) => {
                satellites_are_folded_in_turn(c, p, satellites.drop_first(), last);
            },
            Err(_) => {},
        }
    }
}

/// `after` is the team `before`, which may have got a league where it had none.
pub open spec fn team_kept(before: JsonView, after: JsonView) -> bool {
    ||| after == before
    ||| before matches JsonView::Object(fields) && !fields.contains_key("league_id"@) && (
    after matches JsonView::Object(more) && more.contains_key("league_id"@) && more.remove(
        "league_id"@,
    ) == fields)
}

/// All teams of the club `before` are at their places in the club `after`, and
/// all other fields are the same.
pub open spec fn club_kept(before: JsonView, after: JsonView) -> bool {
    ||| after == before
    ||| {
        let teams = before->Object_0["teams"@]->Array_0;
        let more = after->Object_0["teams"@]->Array_0;
        &&& holds_array(before, "teams"@, teams)
        &&& holds_array(after, "teams"@, more)
        &&& after->Object_0.remove("teams"@) == before->Object_0.remove("teams"@)
        &&& teams.len() <= more.len()
        &&& forall|t: int|
            #![trigger teams[t]]
            #![trigger more[t]]
            0 <= t < teams.len() ==> team_kept(teams[t], more[t])
    }
}

proof fn lemma_club_kept(first: JsonView, second: JsonView, third: JsonView)
    requires
        club_kept(first, second),
        club_kept(second, third),
    ensures
        club_kept(first, third),
{
    if first != second && second != third {
        let a = first->Object_0["teams"@]->Array_0;
        let b = second->Object_0["teams"@]->Array_0;
        let c = third->Object_0["teams"@]->Array_0;
        assert forall|t: int|
            #![trigger a[t]]
            #![trigger c[t]]
            0 <= t < a.len() implies team_kept(a[t], c[t]) by {
            assert(team_kept(a[t], b[t]));
            assert(team_kept(b[t], c[t]));
        }
    }
}

proof fn lemma_fold_keeps_club(
    clubs: Seq<JsonView>,
    players: Seq<JsonView>,
    satellite: SatelliteView,
    club: int,
)
    requires
        0 <= club < clubs.len(),
    ensures
        fold_satellite(clubs, players, satellite) matches Ok((c, p)) ==> c.len() == clubs.len()
            && club_kept(clubs[club], c[club]) && (!holds_number(
            clubs[club],
            "id"@,
            satellite.parent_id,
        ) ==> c[club] == clubs[club]),
{
    folding_does_what_it_should(clubs, players, satellite);
    match fold_satellite(clubs, players, satellite) {
        Ok((c, p)) => {
            let (parent, main) = choose|parent: int, main: int| #[trigger]
                folded_into(clubs, players, satellite, c, p, parent, main);
            if club == parent {
                let teams = clubs[parent]->Object_0["teams"@]->Array_0;
                let joined = c[parent]->Object_0["teams"@]->Array_0;
                assert forall|t: int|
                    #![trigger teams[t]]
                    #![trigger joined[t]]
                    0 <= t < teams.len() implies team_kept(teams[t], joined[t]) by {
                    if joined[t] != teams[t] {
                        assert(slot_kept(teams[t], joined[t], satellite.league_id));
                        assert(joined[t]->Object_0.remove("league_id"@) =~= teams[t]->Object_0);
                    }
                }
            } else {
                assert(c[club] == clubs[club]);
            }
        },
        Err(_) => {},
    }
}

/// However many satellites are folded, every club keeps all of its teams at
/// their places, each with every field as it was but for a league where it had
/// none, and all of its other fields; and a club that no satellite names as its
/// parent is not changed at all.
pub proof fn folding_keeps_every_team(
    clubs: Seq<JsonView>,
    players: Seq<JsonView>,
    satellites: Seq<SatelliteView>,
    club: int,
)
    requires
        0 <= club < clubs.len(),
    ensures
        ({
            let folded = fold_satellites(clubs, players, satellites);
            &&& folded.clubs.len() == clubs.len()
            &&& club_kept(clubs[club], folded.clubs[club])
            &&& (forall|i: int|
                0 <= i < satellites.len() ==> !holds_number(
                    clubs[club],
                    "id"@,
                    (#[trigger] satellites[i]).parent_id,
                )) ==> folded.clubs[club] == clubs[club]
        }),
    decreases satellites.len(),
{
    if satellites.len() > 0 {
        lemma_fold_keeps_club(clubs, players, satellites[0], club);
        match fold_satellite(clubs, players, satellites[0]) {
            Ok((c, p)) => {
                let rest = satellites.drop_first();
                folding_keeps_every_team(c, p, rest, club);
                let folded = fold_satellites(clubs, players, satellites);
                lemma_club_kept(clubs[club], c[club], folded.clubs[club]);
                if forall|i: int|
                    0 <= i < satellites.len() ==> !holds_number(
                        clubs[club],
                        "id"@,
                        (#[trigger] satellites[i]).parent_id,
                    ) {
                    assert(!holds_number(clubs[club], "id"@, satellites[0].parent_id));
                    assert forall|i: int| 0 <= i < rest.len() implies !holds_number(
                        c[club],
                        "id"@,
                        (#[trigger] rest[i]).parent_id,
                    ) by {
                        assert(rest[i] == satellites[i + 1]);
                    }
                }
            },
            Err(_) => {},
        }
    }
}

/// How many players the first `count` satellites have together.
pub open spec fn players_of_first(satellites: Seq<SatelliteView>, count: int) -> nat
    decreases satellites.len(),
{
    if satellites.len() == 0 || count <= 0 {
        0
    } else {
        satellites[0].players.len() + players_of_first(satellites.drop_first(), count - 1)
    }
}

/// The player `k` of the satellite `i` stands among `folded` behind `players`
/// and the players of the satellites before it, handed over to the parent.
pub open spec fn player_at_its_place(
    players: Seq<JsonView>,
    satellites: Seq<SatelliteView>,
    folded: Seq<JsonView>,
    i: int,
    k: int,
) -> bool {
    let at = players.len() + players_of_first(satellites, i) + k;
    at < folded.len() && handed_over(satellites[i].players[k], folded[at], satellites[i])
}

/// Where all satellites are folded, every player of every satellite stands
/// behind the players that were there, in order, handed over to the parent: with
/// the id of the parent as its club, the type of the satellite's team as its
/// hint, and every other field as it was.
pub proof fn every_player_is_handed_over(
    clubs: Seq<JsonView>,
    players: Seq<JsonView>,
    satellites: Seq<SatelliteView>,
)
    requires
        fold_satellites(clubs, players, satellites).outcome is Ok,
    ensures
        ({
            let folded = fold_satellites(clubs, players, satellites).players;
            &&& folded.len() == players.len() + players_of_first(
                satellites,
                satellites.len() as int,
            )
            &&& forall|k: int| 0 <= k < players.len() ==> #[trigger] folded[k] == players[k]
            &&& forall|i: int, k: int|
                0 <= i < satellites.len() && 0 <= k < satellites[i].players.len()
                    ==> #[trigger] player_at_its_place(players, satellites, folded, i, k)
        }),
    decreases satellites.len(),
{
    if satellites.len() > 0 {
        let first = satellites[0];
        let rest = satellites.drop_first();
        let folded = fold_satellites(clubs, players, satellites).players;
        folding_does_what_it_should(clubs, players, first);
        let (c, p) = fold_satellite(clubs, players, first)->Ok_0;
        let (parent, main) = choose|parent: int, main: int| #[trigger]
            folded_into(clubs, players, first, c, p, parent, main);
        assert(folded_into(clubs, players, first, c, p, parent, main));
        every_player_is_handed_over(c, p, rest);
        assert(players_of_first(satellites, satellites.len() as int) == first.players.len()
            + players_of_first(rest, rest.len() as int));
        assert(folded.len() == players.len() + players_of_first(
            satellites,
            satellites.len() as int,
        ));
        assert forall|k: int| 0 <= k < players.len() implies #[trigger] folded[k] == players[k] by {
            assert(p[k] == players[k]);
        }
        assert forall|i: int, k: int|
            0 <= i < satellites.len() && 0 <= k < satellites[i].players.len()
            implies #[trigger] player_at_its_place(players, satellites, folded, i, k) by {
            if i == 0 {
                assert(handed_over(first.players[k], p[players.len() + k], first));
                assert(folded[players.len() + k] == p[players.len() + k]);
            } else {
                assert(rest[i - 1] == satellites[i]);
                assert(player_at_its_place(p, rest, folded, i - 1, k));
                assert(players_of_first(satellites, i) == first.players.len() + players_of_first(
                    rest,
                    i - 1,
                ));
            }
        }
    }
}

/// A player that was handed over belongs to the parent, whatever else its record
/// says.
pub proof fn handed_over_player_belongs_to_parent(
    before: JsonView,
    after: JsonView,
    satellite: SatelliteView,
)
    requires
        before is Object,
        handed_over(before, after, satellite),
    ensures
        after.u64_at("club_id"@) == Some(satellite.parent_id),
        after.str_at("team_type_hint"@) == Some(satellite.team_type),
        forall|field: Seq<char>|
            field != "club_id"@ && field != "team_type_hint"@ ==> #[trigger] after.get(field)
                == before.get(field),
{
    lemma_field_names();
}

} // verus!
