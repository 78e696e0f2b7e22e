//! What holds of the records that are checked and completed.

use crate::error::{EntryFault, ErrorView};
use crate::json::{JsonView, NumberView};
use crate::records::{entry_fault, first_fault, history_check, parent_of, stamped_club};
use vstd::prelude::*;

verus! {

/// The value is an object whose field `key` is a number in the range of `u64`,
/// written without fraction or exponent.
pub open spec fn holds_unsigned(value: JsonView, key: Seq<char>) -> bool {
    value matches JsonView::Object(fields) && fields.contains_key(key) && (fields[key] matches
        JsonView::Number(number) && number is Unsigned)
}

/// The value is an object whose field `key` is the text `text`.
pub open spec fn holds_text(value: JsonView, key: Seq<char>, text: Seq<char>) -> bool {
    value matches JsonView::Object(fields) && fields.contains_key(key) && fields[key]
        == JsonView::String(text)
}

/// The value is an object whose field `key` is the array `items`.
pub open spec fn holds_array(value: JsonView, key: Seq<char>, items: Seq<JsonView>) -> bool {
    value matches JsonView::Object(fields) && fields.contains_key(key) && fields[key]
        == JsonView::Array(items)
}

/// The value is an object that has the field `key`.
pub open spec fn has_field(value: JsonView, key: Seq<char>) -> bool {
    value matches JsonView::Object(fields) && fields.contains_key(key)
}

/// The entry is an object whose season and whose club both are unsigned numbers.
pub open spec fn season_and_club_given(entry: JsonView) -> bool {
    holds_unsigned(entry, "s"@) && holds_unsigned(entry, "c"@)
}

proof fn lemma_first_fault(entries: Seq<JsonView>, start: nat)
    ensures
        match first_fault(entries, start) {
            None => forall|i: int|
                start <= i < entries.len() ==> season_and_club_given(#[trigger] entries[i]),
            Some((index, fault)) => {
                &&& start <= index < entries.len()
                &&& !season_and_club_given(entries[index as int])
                &&& entry_fault(entries[index as int]) == Some(fault)
                &&& forall|i: int|
                    start <= i < index ==> season_and_club_given(#[trigger] entries[i])
            },
        },
    decreases entries.len() - start,
{
    if start < entries.len() && entry_fault(entries[start as int]) is None {
        lemma_first_fault(entries, start + 1);
    }
}

/// A player record is accepted exactly if it has no history, or if its history
/// is an array in which every entry is an object whose season and whose club
/// both are unsigned numbers.
pub proof fn history_is_accepted_exactly_if_complete(player: JsonView, path: Seq<char>)
    ensures
        history_check(player, path) is Ok <==> {
            ||| !has_field(player, "history"@)
            ||| exists|entries: Seq<JsonView>| #[trigger]
                holds_array(player, "history"@, entries) && forall|i: int|
                    0 <= i < entries.len() ==> season_and_club_given(#[trigger] entries[i])
        },
{
    match player.get("history"@) {
        Some(JsonView::Array(entries)) => {
            lemma_first_fault(entries, 0);
            assert(holds_array(player, "history"@, entries));
        },
        _ => {},
    }
}

/// A history that is refused is refused for what is wrong with it: it is no
/// array, or its first incomplete entry is no object, or else lacks the season,
/// or else the club.
pub proof fn refused_history_is_refused_for_its_first_fault(player: JsonView, path: Seq<char>)
    ensures
        history_check(player, path) matches Err(e) ==> has_field(player, "history"@) && match e {
            ErrorView::HistoryNotAnArray { path: p } => p == path && !(
            player->Object_0["history"@] is Array),
            ErrorView::HistoryEntry { path: p, index, fault } => {
                let entries = player->Object_0["history"@]->Array_0;
                let entry = entries[index as int];
                &&& p == path
                &&& player->Object_0["history"@] is Array
                &&& index < entries.len()
                &&& forall|i: int|
                    0 <= i < index ==> season_and_club_given(#[trigger] entries[i])
                &&& match fault {
                    EntryFault::NotAnObject => !(entry is Object),
                    EntryFault::Season => entry is Object && !holds_unsigned(entry, "s"@),
                    EntryFault::Club => holds_unsigned(entry, "s"@) && !holds_unsigned(
                        entry,
                        "c"@,
                    ),
                }
            },
            _ => false,
        },
{
    match player.get("history"@) {
        Some(JsonView::Array(entries)) => {
            lemma_first_fault(entries, 0);
        },
        _ => {},
    }
}

/// What only differs in fields that are not its history is accepted or refused
/// alike.
pub proof fn only_history_is_checked(player: JsonView, other: JsonView, path: Seq<char>)
    requires
        player.get("history"@) == other.get("history"@),
    ensures
        history_check(player, path) == history_check(other, path),
{
}

/// `after` is the team `before` with the league noted.
pub open spec fn plays_in_league(before: JsonView, after: JsonView, league_id: u64) -> bool {
    before matches JsonView::Object(fields) && after == JsonView::Object(
        fields.insert("league_id"@, JsonView::Number(NumberView::Unsigned(league_id))),
    )
}

/// `after` is the club `before` with the league noted on its main teams, and on
/// nothing else.
pub open spec fn league_noted_on_main_teams(
    before: JsonView,
    after: JsonView,
    league_id: u64,
) -> bool {
    if has_field(before, "teams"@) && before->Object_0["teams"@] is Array {
        let old_teams = before->Object_0["teams"@]->Array_0;
        &&& has_field(after, "teams"@) && after->Object_0["teams"@] is Array
        &&& after->Object_0.remove("teams"@) == before->Object_0.remove("teams"@)
        &&& after->Object_0["teams"@]->Array_0.len() == old_teams.len()
        &&& forall|t: int|
            #![trigger old_teams[t]]
            #![trigger after->Object_0["teams"@]->Array_0[t]]
            0 <= t < old_teams.len() ==> if holds_text(old_teams[t], "team_type"@, "Main"@) {
                plays_in_league(old_teams[t], after->Object_0["teams"@]->Array_0[t], league_id)
            } else {
                after->Object_0["teams"@]->Array_0[t] == old_teams[t]
            }
    } else {
        after == before
    }
}

/// Stamping notes the league on every main team and changes nothing else: every
/// other team is the same value at the same position, the number of teams is the
/// same, and so are all other fields of the club.
pub proof fn stamping_changes_main_teams_alone(club: JsonView, league_id: u64)
    ensures
        league_noted_on_main_teams(club, stamped_club(club, league_id), league_id),
{
    match club.array_at("teams"@) {
        Some(teams) => {
            let after = stamped_club(club, league_id);
            assert(after->Object_0.remove("teams"@) =~= club->Object_0.remove("teams"@));
        },
        None => {},
    }
}

/// Stamping a club again with another league is as if it had been stamped with
/// that league only.
pub proof fn last_stamp_counts(club: JsonView, first: u64, second: u64)
    ensures
        stamped_club(stamped_club(club, first), second) == stamped_club(club, second),
{
    reveal_strlit("team_type");
    reveal_strlit("league_id");
    assert("team_type"@[0] == 't');
    assert("league_id"@[0] == 'l');
    match club.array_at("teams"@) {
        Some(teams) => {
            let once = stamped_club(club, first);
            let twice = stamped_club(once, second);
            let direct = stamped_club(club, second);
            let a = once.array_at("teams"@)->0;
            let b = twice.array_at("teams"@)->0;
            let c = direct.array_at("teams"@)->0;
            assert forall|t: int| 0 <= t < teams.len() implies b[t] == c[t] by {
                if holds_text(teams[t], "team_type"@, "Main"@) {
                    assert(holds_text(a[t], "team_type"@, "Main"@));
                    assert(b[t]->Object_0 =~= c[t]->Object_0);
                }
            }
            assert(b =~= c);
            assert(twice->Object_0 =~= direct->Object_0);
        },
        None => {},
    }
}

/// A club names a parent exactly where its field `parent_club` is an object with
/// an unsigned number as its id; the type of team is the text that it gives, and
/// `B` where it gives none.
pub proof fn parent_is_what_the_field_names(club: JsonView, id: u64, team_type: Seq<char>)
    ensures
        parent_of(club) == Some((id, team_type)) <==> {
            &&& has_field(club, "parent_club"@)
            &&& club->Object_0["parent_club"@] matches JsonView::Object(parent)
                && parent.contains_key("id"@) && parent["id"@] == JsonView::Number(
                NumberView::Unsigned(id),
            ) && (if parent.contains_key("team_type"@) && parent["team_type"@] is String {
                team_type == parent["team_type"@]->String_0
            } else {
                team_type == "B"@
            })
        },
        parent_of(club) is Some <==> has_field(club, "parent_club"@) && holds_unsigned(
            club->Object_0["parent_club"@],
            "id"@,
        ),
{
}

} // verus!
