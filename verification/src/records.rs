//! What the place of a file in the tree adds to its record, and what a record
//! must look like.

use crate::error::{check_view, CompileError, EntryFault, ErrorView};
use crate::json::{items_view, Json, JsonView};
use vstd::prelude::*;

verus! {

/// The items of a document that must be an array.
pub fn read_top_level_array(document: Json, path: &str) -> (outcome: Result<
    Vec<Json>,
    CompileError,
>)
    ensures
        match document@ {
            JsonView::Array(items) => outcome matches Ok(list) && items_view(list@) == items,
            _ => outcome matches Err(e) && e@ == (ErrorView::NotAnArray { path: path@ }),
        },
{
    match document {
        Json::Array(items) => Ok(items),
        _ => Err(CompileError::NotAnArray { path: path.to_owned() }),
    }
}

/// Notes on an object the country that it belongs to.
pub fn insert_country_code(v: &mut Json, code: &str)
    ensures
        final(v)@ == old(v)@.with_field("country_code"@, JsonView::String(code@)),
{
    v.set_field("country_code", Json::text(code));
}

/// What is wrong with an entry of a player's history.
pub open spec fn entry_fault(entry: JsonView) -> Option<EntryFault> {
    if !(entry is Object) {
        Some(EntryFault::NotAnObject)
    } else if entry.u64_at("s"@) is None {
        Some(EntryFault::Season)
    } else if entry.u64_at("c"@) is None {
        Some(EntryFault::Club)
    } else {
        None
    }
}

/// The first of the entries that is malformed, counted from `start`.
pub open spec fn first_fault(entries: Seq<JsonView>, start: nat) -> Option<(nat, EntryFault)>
    decreases entries.len() - start,
{
    if start >= entries.len() {
        None
    } else {
        match entry_fault(entries[start as int]) {
            Some(fault) => Some((start, fault)),
            None => first_fault(entries, start + 1),
        }
    }
}

/// Whether the history of the player in the file at `path` is well-formed: it
/// is absent, or an array whose entries all are objects with a season and a club.
pub open spec fn history_check(player: JsonView, path: Seq<char>) -> Result<(), ErrorView> {
    match player.get("history"@) {
        None => Ok(()),
        Some(JsonView::Array(entries)) => match first_fault(entries, 0) {
            None => Ok(()),
            Some((index, fault)) => Err(ErrorView::HistoryEntry { path, index, fault }),
        },
        Some(_) => Err(ErrorView::HistoryNotAnArray { path }),
    }
}

proof fn lemma_first_fault(entries: Seq<JsonView>, start: nat)
    ensures
        match first_fault(entries, start) {
            None => forall|i: int|
                start <= i < entries.len() ==> entry_fault(#[trigger] entries[i]) is None,
            Some((index, fault)) => start <= index < entries.len() && entry_fault(
                entries[index as int],
            ) == Some(fault) && forall|i: int|
                start <= i < index ==> entry_fault(#[trigger] entries[i]) is None,
        },
    decreases entries.len() - start,
{
    if start < entries.len() && entry_fault(entries[start as int]) is None {
        lemma_first_fault(entries, start + 1);
    }
}

/// A history is well-formed exactly if it is absent or an array of well-formed
/// entries.
pub proof fn history_is_well_formed_if_all_entries_are(player: JsonView, path: Seq<char>)
    ensures
        history_check(player, path) is Ok <==> {
            ||| player.get("history"@) is None
            ||| player.array_at("history"@) matches Some(entries) && forall|i: int|
                0 <= i < entries.len() ==> entry_fault(#[trigger] entries[i]) is None
        },
{
    match player.array_at("history"@) {
        Some(entries) => {
            lemma_first_fault(entries, 0);
        },
        None => {},
    }
}

/// The entry that is reported is malformed, and none before it is.
pub proof fn first_malformed_entry_is_reported(player: JsonView, path: Seq<char>)
    ensures
        history_check(player, path) matches Err(ErrorView::HistoryEntry { path: p, index, fault })
            ==> {
            let entries = player.array_at("history"@)->0;
            &&& p == path
            &&& index < entries.len()
            &&& entry_fault(entries[index as int]) == Some(fault)
            &&& forall|i: int| 0 <= i < index ==> entry_fault(#[trigger] entries[i]) is None
        },
{
    match player.array_at("history"@) {
        Some(entries) => {
            lemma_first_fault(entries, 0);
        },
        None => {},
    }
}

/// Checks the entry of a history.
fn check_entry(entry: &Json) -> (fault: Option<EntryFault>)
    ensures
        fault == entry_fault(entry@),
{
    if !entry.is_object() {
        Some(EntryFault::NotAnObject)
    } else if entry.u64_at("s").is_none() {
        Some(EntryFault::Season)
    } else if entry.u64_at("c").is_none() {
        Some(EntryFault::Club)
    } else {
        None
    }
}

/// Checks the `history` of a player record. A malformed one is fatal: rows of
/// it would be dropped silently when the database is loaded.
pub fn validate_player_history(v: &Json, path: &str) -> (outcome: Result<(), CompileError>)
    ensures
        check_view(outcome) == history_check(v@, path@),
{
    let history: &Json = match v.get("history") {
        Some(history) => history,
        None => return Ok(()),
    };
    let entries: &Vec<Json> = match history.as_array() {
        Some(entries) => entries,
        None => return Err(CompileError::HistoryNotAnArray { path: path.to_owned() }),
    };
    let mut i: usize = 0;
    while i < entries.len()
        invariant
            i <= entries@.len(),
            v@.get("history"@) == Some(JsonView::Array(items_view(entries@))),
            first_fault(items_view(entries@), 0) == first_fault(items_view(entries@), i as nat),
        decreases entries@.len() - i,
    {
        match check_entry(&entries[i]) {
            Some(fault) => {
                return Err(CompileError::HistoryEntry { path: path.to_owned(), index: i, fault });
            },
            None => {},
        }
        i += 1;
    }
    Ok(())
}

/// Whether a team is the main one of its club.
pub open spec fn is_main(team: JsonView) -> bool {
    team.str_at("team_type"@) == Some("Main"@)
}

/// The teams of a club with the league noted on every main one.
pub open spec fn stamped_teams(teams: Seq<JsonView>, league_id: u64) -> Seq<JsonView> {
    teams.map_values(
        |team: JsonView|
            if is_main(team) {
                team.with_field("league_id"@, JsonView::unsigned(league_id))
            } else {
                team
            },
    )
}

/// A club with the league noted on every main team; a club without an array of
/// teams unchanged.
pub open spec fn stamped_club(club: JsonView, league_id: u64) -> JsonView {
    match club.array_at("teams"@) {
        Some(teams) => club.with_field(
            "teams"@,
            JsonView::Array(stamped_teams(teams, league_id)),
        ),
        None => club,
    }
}

/// Notes on the main team of a club the league that its directory lies in.
pub fn stamp_main_team_league_id(club: &mut Json, league_id: u64)
    ensures
        final(club)@ == stamped_club(old(club)@, league_id),
{
    let ghost before = club@;
    match club.take_field("teams") {
        Some(Json::Array(items)) => {
            let mut teams = items;
            let ghost all = items_view(teams@);
            let mut i: usize = 0;
            while i < teams.len()
                invariant
                    i <= teams@.len(),
                    teams@.len() == all.len(),
                    forall|k: int|
                        0 <= k < i ==> #[trigger] items_view(teams@)[k] == stamped_teams(
                            all,
                            league_id,
                        )[k],
                    forall|k: int| i <= k < all.len() ==> #[trigger] items_view(teams@)[k] == all[k],
                decreases teams@.len() - i,
            {
                let ghost earlier = teams@;
                assert(items_view(teams@)[i as int] == all[i as int]);
                if teams[i].str_at_is("team_type", "Main") {
                    teams[i].set_field("league_id", Json::unsigned(league_id));
                }
                proof {
                    assert forall|k: int| 0 <= k < all.len() && k != i implies #[trigger] items_view(
                        teams@,
                    )[k] == items_view(earlier)[k] by {}
                }
                i += 1;
            }
            assert(items_view(teams@) =~= stamped_teams(all, league_id));
            club.set_field("teams", Json::Array(teams));
            assert(club@->Object_0 =~= stamped_club(before, league_id)->Object_0);
        },
        Some(other) => {
            club.set_field("teams", other);
            assert(club@->Object_0 =~= before->Object_0);
        },
        None => {
            assert(before is Object ==> club@->Object_0 =~= before->Object_0);
        },
    }
}

/// The parent that a satellite club names.
#[derive(Debug)]
pub struct ParentClubRef {
    /// The id of the parent club.
    pub id: u64,
    /// The type of the team that the satellite becomes.
    pub team_type: String,
}

/// The parent that a club names in its field `parent_club`: an object with an
/// id, and the type of the team to become, `B` where it names none.
pub open spec fn parent_of(club: JsonView) -> Option<(u64, Seq<char>)> {
    match club.get("parent_club"@) {
        Some(parent) => match parent.u64_at("id"@) {
            Some(id) => Some(
                (
                    id,
                    match parent.str_at("team_type"@) {
                        Some(team_type) => team_type,
                        None => "B"@,
                    },
                ),
            ),
            None => None,
        },
        None => None,
    }
}

/// The view of an optional parent.
pub open spec fn parent_view(parent: Option<ParentClubRef>) -> Option<(u64, Seq<char>)> {
    match parent {
        Some(p) => Some((p.id, p.team_type@)),
        None => None,
    }
}

/// Takes the field `parent_club` off a club, so that it does not reach the
/// database, and returns the parent that it names.
pub fn take_parent_club(club: &mut Json) -> (parent: Option<ParentClubRef>)
    ensures
        parent_view(parent) == parent_of(old(club)@),
        final(club)@ == old(club)@.without_field("parent_club"@),
        final(club)@.get("parent_club"@) is None,
{
    match club.take_field("parent_club") {
        Some(parent) => match parent.u64_at("id") {
            Some(id) => {
                let team_type: String = match parent.get("team_type") {
                    Some(value) => match value.as_str() {
                        Some(text) => text.to_owned(),
                        None => "B".to_owned(),
                    },
                    None => "B".to_owned(),
                };
                Some(ParentClubRef { id, team_type })
            },
            None => None,
        },
        None => None,
    }
}

} // verus!
