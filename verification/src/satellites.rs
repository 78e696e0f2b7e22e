//! Satellite clubs: directories whose squad plays as a team of another club.

use crate::error::{check_view, CompileError, ErrorView};
use crate::json::{items_view, Json, JsonView};
use vstd::prelude::*;

verus! {

/// A satellite that waits to be folded into its parent club.
#[derive(Debug)]
pub struct SatelliteSpec {
    /// The id of the parent club.
    pub parent_id: u64,
    /// The type of the team that the satellite becomes.
    pub team_type: String,
    /// The league whose directory the satellite lies in.
    pub league_id: u64,
    /// The record of the satellite, without its field `parent_club`.
    pub satellite_club: Json,
    /// The players of the satellite.
    pub players: Vec<Json>,
    /// Where the record of the satellite was read, for messages.
    pub source_path: String,
}

/// What a [`SatelliteSpec`] says.
pub struct SatelliteView {
    pub parent_id: u64,
    pub team_type: Seq<char>,
    pub league_id: u64,
    pub satellite_club: JsonView,
    pub players: Seq<JsonView>,
    pub source_path: Seq<char>,
}

impl View for SatelliteSpec {
    type V = SatelliteView;

    open spec fn view(&self) -> SatelliteView {
        SatelliteView {
            parent_id: self.parent_id,
            team_type: self.team_type@,
            league_id: self.league_id,
            satellite_club: self.satellite_club@,
            players: items_view(self.players@),
            source_path: self.source_path@,
        }
    }
}

/// The view of satellites, one by one.
pub open spec fn satellites_view(satellites: Seq<SatelliteSpec>) -> Seq<SatelliteView> {
    satellites.map_values(|s: SatelliteSpec| s@)
}

/// The records with the id `id`.
pub open spec fn has_id(id: u64) -> spec_fn(JsonView) -> bool {
    |record: JsonView| record.u64_at("id"@) == Some(id)
}

/// The teams of the type `team_type`.
pub open spec fn has_type(team_type: Seq<char>) -> spec_fn(JsonView) -> bool {
    |team: JsonView| team.str_at("team_type"@) == Some(team_type)
}

/// Where the first of `records` from `start` on that is `wanted` stands.
pub open spec fn first_from(
    records: Seq<JsonView>,
    wanted: spec_fn(JsonView) -> bool,
    start: int,
) -> Option<int>
    decreases records.len() - start,
{
    if start >= records.len() {
        None
    } else if wanted(records[start]) {
        Some(start)
    } else {
        first_from(records, wanted, start + 1)
    }
}

/// Where the first of `records` that is `wanted` stands.
pub open spec fn first_where(records: Seq<JsonView>, wanted: spec_fn(JsonView) -> bool) -> Option<
    int,
> {
    first_from(records, wanted, 0)
}

/// The main team of a club, the first where it has several.
pub open spec fn main_team(club: JsonView) -> Option<JsonView> {
    match club.array_at("teams"@) {
        Some(teams) => match first_where(teams, has_type("Main"@)) {
            Some(i) => Some(teams[i]),
            None => None,
        },
        None => None,
    }
}

/// The team that a satellite becomes: its main team, with the type of team that
/// it fills and the league that it plays in.
pub open spec fn sub_team(main: JsonView, satellite: SatelliteView) -> JsonView {
    main.with_field("team_type"@, JsonView::String(satellite.team_type)).with_field(
        "league_id"@,
        JsonView::unsigned(satellite.league_id),
    )
}

/// The teams of the parent once the satellite's team has joined.
///
/// A team of that type that the parent declares itself stays as it is, but for
/// a league where it has none. Otherwise the team is appended, unless another
/// team of the parent has its id.
pub open spec fn joined_teams(
    teams: Seq<JsonView>,
    team: JsonView,
    satellite: SatelliteView,
) -> Result<Seq<JsonView>, ErrorView> {
    match first_where(teams, has_type(satellite.team_type)) {
        Some(i) => Ok(
            teams.update(
                i,
                teams[i].with_field_if_absent(
                    "league_id"@,
                    JsonView::unsigned(satellite.league_id),
                ),
            ),
        ),
        None => match team.u64_at("id"@) {
            Some(id) => match first_where(teams, has_id(id)) {
                Some(i) => Err(
                    ErrorView::TeamIdTaken {
                        path: satellite.source_path,
                        team_id: id,
                        team_type: satellite.team_type,
                        parent_id: satellite.parent_id,
                        other_type: match teams[i].str_at("team_type"@) {
                            Some(other) => other,
                            None => "?"@,
                        },
                    },
                ),
                None => Ok(teams.push(team)),
            },
            None => Ok(teams.push(team)),
        },
    }
}

/// A player of a satellite as one of the parent club, bound for the team that
/// the satellite has become.
pub open spec fn adopted(player: JsonView, satellite: SatelliteView) -> JsonView {
    player.with_field("club_id"@, JsonView::unsigned(satellite.parent_id)).with_field(
        "team_type_hint"@,
        JsonView::String(satellite.team_type),
    )
}

/// The players of a satellite as players of the parent club.
pub open spec fn adopted_players(satellite: SatelliteView) -> Seq<JsonView> {
    satellite.players.map_values(|player: JsonView| adopted(player, satellite))
}

/// The clubs and the players once a satellite is folded into its parent.
pub open spec fn fold_satellite(
    clubs: Seq<JsonView>,
    players: Seq<JsonView>,
    satellite: SatelliteView,
) -> Result<(Seq<JsonView>, Seq<JsonView>), ErrorView> {
    match first_where(clubs, has_id(satellite.parent_id)) {
        None => Err(
            ErrorView::ParentMissing {
                path: satellite.source_path,
                parent_id: satellite.parent_id,
            },
        ),
        Some(p) => match main_team(satellite.satellite_club) {
            None => Err(ErrorView::NoMainTeam { path: satellite.source_path }),
            Some(main) => match clubs[p].array_at("teams"@) {
                None => Err(ErrorView::NoParentTeams { parent_id: satellite.parent_id }),
                Some(teams) => match joined_teams(teams, sub_team(main, satellite), satellite) {
                    Err(e) => Err(e),
                    Ok(joined) => Ok(
                        (
                            clubs.update(
                                p,
                                clubs[p].with_field("teams"@, JsonView::Array(joined)),
                            ),
                            players + adopted_players(satellite),
                        ),
                    ),
                },
            },
        },
    }
}

/// Clubs and players after satellites were folded, up to the first that could
/// not be.
pub struct Folded {
    pub clubs: Seq<JsonView>,
    pub players: Seq<JsonView>,
    pub outcome: Result<(), ErrorView>,
}

/// The satellites folded into their parents one after the other.
pub open spec fn fold_satellites(
    clubs: Seq<JsonView>,
    players: Seq<JsonView>,
    satellites: Seq<SatelliteView>,
) -> Folded
    decreases satellites.len(),
{
    if satellites.len() == 0 {
        Folded { clubs, players, outcome: Ok(()) }
    } else {
        match fold_satellite(clubs, players, satellites[0]) {
            Ok((clubs, players)) => fold_satellites(clubs, players, satellites.drop_first()),
            Err(e) => Folded { clubs, players, outcome: Err(e) },
        }
    }
}

/// The view of an optional position.
spec fn position(found: Option<usize>) -> Option<int> {
    match found {
        Some(i) => Some(i as int),
        None => None,
    }
}

/// What is found lies in range, is wanted, and nothing before it is.
pub proof fn lemma_first_from(records: Seq<JsonView>, wanted: spec_fn(JsonView) -> bool, start: int)
    requires
        0 <= start,
    ensures
        match first_from(records, wanted, start) {
            Some(i) => start <= i < records.len() && wanted(records[i]) && forall|k: int|
                start <= k < i ==> !wanted(#[trigger] records[k]),
            None => forall|k: int| start <= k < records.len() ==> !wanted(#[trigger] records[k]),
        },
    decreases records.len() - start,
{
    if start < records.len() && !wanted(records[start]) {
        lemma_first_from(records, wanted, start + 1);
    }
}

/// Where the first record with an id stands.
fn find_by_id(records: &Vec<Json>, id: u64) -> (found: Option<usize>)
    ensures
        position(found) == first_where(items_view(records@), has_id(id)),
{
    let mut i: usize = 0;
    while i < records.len()
        invariant
            i <= records@.len(),
            first_where(items_view(records@), has_id(id)) == first_from(
                items_view(records@),
                has_id(id),
                i as int,
            ),
        decreases records@.len() - i,
    {
        match records[i].u64_at("id") {
            Some(other) => if other == id {
                return Some(i);
            },
            None => {},
        }
        i += 1;
    }
    None
}

/// Where the first team of a type stands.
fn find_by_type(teams: &Vec<Json>, team_type: &str) -> (found: Option<usize>)
    ensures
        position(found) == first_where(items_view(teams@), has_type(team_type@)),
{
    let mut i: usize = 0;
    while i < teams.len()
        invariant
            i <= teams@.len(),
            first_where(items_view(teams@), has_type(team_type@)) == first_from(
                items_view(teams@),
                has_type(team_type@),
                i as int,
            ),
        decreases teams@.len() - i,
    {
        if teams[i].str_at_is("team_type", team_type) {
            return Some(i);
        }
        i += 1;
    }
    None
}

/// Takes the main team out of a club that is not needed any more.
fn take_main_team(club: Json) -> (team: Option<Json>)
    ensures
        match team {
            Some(t) => main_team(club@) == Some(t@),
            None => main_team(club@) is None,
        },
{
    let mut club = club;
    match club.take_field("teams") {
        Some(Json::Array(items)) => {
            let mut teams = items;
            proof {
                lemma_first_from(items_view(teams@), has_type("Main"@), 0);
            }
            match find_by_type(&teams, "Main") {
                Some(i) => Some(teams.swap_remove(i)),
                None => None,
            }
        },
        _ => None,
    }
}

/// Lets the team of a satellite join the teams of its parent.
fn join_teams(teams: &mut Vec<Json>, team: Json, satellite: &SatelliteSpec) -> (outcome: Result<
    (),
    CompileError,
>)
    ensures
        match joined_teams(items_view(old(teams)@), team@, satellite@) {
            Ok(joined) => outcome is Ok && items_view(final(teams)@) == joined,
            Err(e) => check_view(outcome) == Err::<(), ErrorView>(e) && final(teams)@ == old(
                teams,
            )@,
        },
{
    let ghost before = teams@;
    proof {
        lemma_first_from(items_view(before), has_type(satellite.team_type@), 0);
    }
    match find_by_type(teams, satellite.team_type.as_str()) {
        Some(i) => {
            teams[i].set_field_if_absent("league_id", Json::unsigned(satellite.league_id));
            assert(items_view(teams@) =~= items_view(before).update(
                i as int,
                teams@[i as int]@,
            ));
        },
        None => {
            match team.u64_at("id") {
                Some(team_id) => {
                    proof {
                        lemma_first_from(items_view(before), has_id(team_id), 0);
                    }
                    match find_by_id(teams, team_id) {
                        Some(i) => {
                            let other_type: String = match teams[i].get("team_type") {
                                Some(value) => match value.as_str() {
                                    Some(text) => text.to_owned(),
                                    None => "?".to_owned(),
                                },
                                None => "?".to_owned(),
                            };
                            return Err(
                                CompileError::TeamIdTaken {
                                    path: satellite.source_path.clone(),
                                    team_id,
                                    team_type: satellite.team_type.clone(),
                                    parent_id: satellite.parent_id,
                                    other_type,
                                },
                            );
                        },
                        None => {},
                    }
                },
                None => {},
            }
            teams.push(team);
            assert(items_view(teams@) =~= items_view(before).push(team@));
        },
    }
    Ok(())
}

/// Folds one satellite into its parent.
fn apply_satellite(
    clubs: &mut Vec<Json>,
    players: &mut Vec<Json>,
    satellite: SatelliteSpec,
) -> (outcome: Result<(), CompileError>)
    ensures
        match fold_satellite(items_view(old(clubs)@), items_view(old(players)@), satellite@) {
            Ok((c, p)) => outcome is Ok && items_view(final(clubs)@) == c && items_view(
                final(players)@,
            ) == p,
            Err(e) => check_view(outcome) == Err::<(), ErrorView>(e) && items_view(final(clubs)@)
                == items_view(old(clubs)@) && items_view(final(players)@) == items_view(
                old(players)@,
            ),
        },
{
    let ghost whole = satellite@;
    let ghost before = items_view(clubs@);
    let ghost players_before = items_view(players@);
    proof {
        lemma_first_from(before, has_id(satellite.parent_id), 0);
    }
    let p: usize = match find_by_id(clubs, satellite.parent_id) {
        Some(p) => p,
        None => {
            return Err(
                CompileError::ParentMissing {
                    path: satellite.source_path,
                    parent_id: satellite.parent_id,
                },
            );
        },
    };
    let mut satellite = satellite;
    let mut club = Json::Null;
    std::mem::swap(&mut club, &mut satellite.satellite_club);
    let mut team: Json = match take_main_team(club) {
        Some(team) => team,
        None => {
            return Err(CompileError::NoMainTeam { path: satellite.source_path });
        },
    };
    team.set_field("team_type", Json::text(satellite.team_type.as_str()));
    team.set_field("league_id", Json::unsigned(satellite.league_id));
    assert(team@ == sub_team(main_team(whole.satellite_club)->0, whole));
    let ghost parent = clubs@[p as int]@;
    assert(parent == before[p as int]);
    match clubs[p].take_field("teams") {
        Some(Json::Array(items)) => {
            let mut teams = items;
            let ghost declared = items_view(teams@);
            assert(parent.array_at("teams"@) == Some(declared));
            let outcome = join_teams(&mut teams, team, &satellite);
            clubs[p].set_field("teams", Json::Array(teams));
            proof {
                let joined = items_view(teams@);
                assert(clubs@[p as int]@->Object_0 =~= parent.with_field(
                    "teams"@,
                    JsonView::Array(joined),
                )->Object_0);
                assert(items_view(clubs@) =~= before.update(
                    p as int,
                    parent.with_field("teams"@, JsonView::Array(joined)),
                ));
                if joined == declared {
                    assert(parent.with_field("teams"@, JsonView::Array(joined))->Object_0
                        =~= parent->Object_0);
                    assert(items_view(clubs@) =~= before);
                }
            }
            match outcome {
                Ok(()) => {},
                Err(e) => {
                    return Err(e);
                },
            }
        },
        Some(other) => {
            clubs[p].set_field("teams", other);
            assert(clubs@[p as int]@->Object_0 =~= parent->Object_0);
            assert(items_view(clubs@) =~= before);
            return Err(CompileError::NoParentTeams { parent_id: satellite.parent_id });
        },
        None => {
            assert(parent is Object ==> clubs@[p as int]@->Object_0 =~= parent->Object_0);
            assert(items_view(clubs@) =~= before);
            return Err(CompileError::NoParentTeams { parent_id: satellite.parent_id });
        },
    }
    let SatelliteSpec { parent_id, team_type, players: squad, .. } = satellite;
    let ghost all = squad@;
    assert(items_view(players@) =~= players_before + adopted_players(whole).take(0));
    for next in it: squad
        invariant
            it.seq() == all,
            items_view(all) == whole.players,
            parent_id == whole.parent_id,
            team_type@ == whole.team_type,
            items_view(players@) == players_before + adopted_players(whole).take(
                it.index() as int,
            ),
    {
        let ghost k = it.index() as int;
        let ghost earlier = items_view(players@);
        let mut player = next;
        assert(player@ == whole.players[k]);
        player.set_field("club_id", Json::unsigned(parent_id));
        player.set_field("team_type_hint", Json::text(team_type.as_str()));
        players.push(player);
        assert(items_view(players@) =~= earlier.push(player@));
        assert(items_view(players@) =~= players_before + adopted_players(whole).take(k + 1));
    }
    assert(adopted_players(whole).take(all.len() as int) =~= adopted_players(whole));
    Ok(())
}

/// Folds every satellite into its parent club: its main team becomes a team of
/// the parent, its players become players of the parent. Stops at the first
/// satellite that cannot be folded, which then has changed nothing.
pub fn apply_satellites(
    clubs: &mut Vec<Json>,
    players: &mut Vec<Json>,
    satellites: Vec<SatelliteSpec>,
) -> (outcome: Result<(), CompileError>)
    ensures
        ({
            let folded = fold_satellites(
                items_view(old(clubs)@),
                items_view(old(players)@),
                satellites_view(satellites@),
            );
            &&& items_view(final(clubs)@) == folded.clubs
            &&& items_view(final(players)@) == folded.players
            &&& check_view(outcome) == folded.outcome
        }),
{
    let ghost all = satellites@;
    let ghost folded = fold_satellites(
        items_view(clubs@),
        items_view(players@),
        satellites_view(all),
    );
    assert(satellites_view(all).skip(0) =~= satellites_view(all));
    for satellite in it: satellites
        invariant
            it.seq() == all,
            folded == fold_satellites(
                items_view(old(clubs)@),
                items_view(old(players)@),
                satellites_view(satellites@),
            ),
            folded == fold_satellites(
                items_view(clubs@),
                items_view(players@),
                satellites_view(all).skip(it.index() as int),
            ),
    {
        let ghost k = it.index() as int;
        assert(satellites_view(all).skip(k)[0] == satellite@);
        assert(satellites_view(all).skip(k).drop_first() =~= satellites_view(all).skip(k + 1));
        match apply_satellite(clubs, players, satellite) {
            Ok(()) => {},
            Err(e) => {
                return Err(e);
            },
        }
    }
    assert(satellites_view(all).skip(all.len() as int).len() == 0);
    Ok(())
}

} // verus!
