//! Which references to clubs are reported.

use crate::fold_laws::{holds_number, none_with_id};
use crate::json::JsonView;
use crate::record_laws::{has_field, holds_array, holds_unsigned};
use crate::refs::{
    all_refs, entry_refs, is_known, player_refs, refers, reported_refs_are_the_unknown_ones,
    warning,
};
use crate::text::decimal;
use vstd::prelude::*;

verus! {

proof fn lemma_known(clubs: Seq<JsonView>, id: u64)
    ensures
        is_known(clubs, id) <==> !none_with_id(clubs, id),
{
    if is_known(clubs, id) {
        let i = choose|i: int|
            0 <= i < clubs.len() && (#[trigger] clubs[i]).u64_at("id"@) == Some(id);
        assert(holds_number(clubs[i], "id"@, id));
    }
    if !none_with_id(clubs, id) {
        let i = choose|i: int| 0 <= i < clubs.len() && holds_number(#[trigger] clubs[i], "id"@, id);
        assert(clubs[i].u64_at("id"@) == Some(id));
    }
}

/// The player `player` in the record has the entry `entry` in its history, which
/// names the club `club`.
pub open spec fn entry_names_club(record: JsonView, player: u64, entry: int, club: u64) -> bool {
    &&& holds_number(record, "id"@, player)
    &&& has_field(record, "history"@)
    &&& record->Object_0["history"@] matches JsonView::Array(entries) && 0 <= entry < entries.len()
        && holds_number(entries[entry], "c"@, club)
}

/// A reference is reported exactly where some player with an id names the club in
/// an entry of its history, and no club has that id.
pub proof fn exactly_the_unknown_clubs_are_reported(
    players: Seq<JsonView>,
    clubs: Seq<JsonView>,
    player: u64,
    club: u64,
)
    ensures
        all_refs(players, clubs).contains((player, club)) <==> {
            &&& none_with_id(clubs, club)
            &&& exists|i: int, entry: int|
                0 <= i < players.len() && #[trigger] entry_names_club(
                    players[i],
                    player,
                    entry,
                    club,
                )
        },
{
    lemma_known(clubs, club);
    reported_refs_are_the_unknown_ones(players, clubs, (player, club));
    if exists|i: int|
        0 <= i < players.len() && refers(#[trigger] players[i], player, club) {
        let i = choose|i: int|
            0 <= i < players.len() && refers(#[trigger] players[i], player, club);
        let entries = players[i].array_at("history"@)->0;
        let k = choose|k: int|
            0 <= k < entries.len() && (#[trigger] entries[k]).u64_at("c"@) == Some(club);
        assert(entry_names_club(players[i], player, k, club));
    }
    if exists|i: int, entry: int|
        0 <= i < players.len() && #[trigger] entry_names_club(players[i], player, entry, club) {
        let (i, k) = choose|i: int, entry: int|
            0 <= i < players.len() && #[trigger] entry_names_club(players[i], player, entry, club);
        let entries = players[i].array_at("history"@)->0;
        assert(entries[k].u64_at("c"@) == Some(club));
        assert(refers(players[i], player, club));
    }
}

/// References are reported player by player, in the order of the players.
pub proof fn players_are_reported_in_turn(
    first: Seq<JsonView>,
    second: Seq<JsonView>,
    clubs: Seq<JsonView>,
)
    ensures
        all_refs(first + second, clubs) == all_refs(first, clubs) + all_refs(second, clubs),
    decreases second.len(),
{
    if second.len() == 0 {
        assert(first + second =~= first);
        assert(all_refs(first, clubs) + all_refs(second, clubs) =~= all_refs(first, clubs));
    } else {
        assert((first + second).drop_last() =~= first + second.drop_last());
        players_are_reported_in_turn(first, second.drop_last(), clubs);
        assert(all_refs(first + second, clubs) =~= all_refs(first, clubs) + all_refs(
            second,
            clubs,
        ));
    }
}

proof fn lemma_entries_in_turn(
    player: u64,
    first: Seq<JsonView>,
    second: Seq<JsonView>,
    clubs: Seq<JsonView>,
)
    ensures
        entry_refs(player, first + second, clubs) == entry_refs(player, first, clubs) + entry_refs(
            player,
            second,
            clubs,
        ),
    decreases second.len(),
{
    if second.len() == 0 {
        assert(first + second =~= first);
        assert(entry_refs(player, first, clubs) + entry_refs(player, second, clubs) =~= entry_refs(
            player,
            first,
            clubs,
        ));
    } else {
        assert((first + second).drop_last() =~= first + second.drop_last());
        lemma_entries_in_turn(player, first, second.drop_last(), clubs);
        assert(entry_refs(player, first + second, clubs) =~= entry_refs(player, first, clubs)
            + entry_refs(player, second, clubs));
    }
}

proof fn lemma_one_player(record: JsonView, clubs: Seq<JsonView>)
    ensures
        all_refs(seq![record], clubs) == player_refs(record, clubs),
{
    reveal_with_fuel(all_refs, 2);
    assert(seq![record].drop_last() =~= Seq::<JsonView>::empty());
    assert(all_refs(seq![record], clubs) =~= player_refs(record, clubs));
}

/// The references of one player are reported entry by entry, in the order of its
/// history: a player whose history is that of `a` and then that of `b` has the
/// references of `a` and then those of `b`.
pub proof fn entries_are_reported_in_turn(
    record: JsonView,
    a: JsonView,
    b: JsonView,
    player: u64,
    first: Seq<JsonView>,
    second: Seq<JsonView>,
    clubs: Seq<JsonView>,
)
    requires
        holds_number(record, "id"@, player),
        holds_number(a, "id"@, player),
        holds_number(b, "id"@, player),
        holds_array(a, "history"@, first),
        holds_array(b, "history"@, second),
        holds_array(record, "history"@, first + second),
    ensures
        all_refs(seq![record], clubs) == all_refs(seq![a], clubs) + all_refs(seq![b], clubs),
{
    lemma_one_player(record, clubs);
    lemma_one_player(a, clubs);
    lemma_one_player(b, clubs);
    lemma_entries_in_turn(player, first, second, clubs);
}

/// An entry of a history is reported once where it names a club that does not
/// exist, and not at all otherwise.
pub proof fn entry_is_reported_once(
    record: JsonView,
    player: u64,
    entry: JsonView,
    clubs: Seq<JsonView>,
)
    requires
        holds_number(record, "id"@, player),
        holds_array(record, "history"@, seq![entry]),
    ensures
        forall|club: u64|
            #![trigger holds_number(entry, "c"@, club)]
            holds_number(entry, "c"@, club) ==> all_refs(seq![record], clubs) == (if none_with_id(
                clubs,
                club,
            ) {
                seq![(player, club)]
            } else {
                Seq::empty()
            }),
        !holds_unsigned(entry, "c"@) ==> all_refs(seq![record], clubs).len() == 0,
{
    lemma_one_player(record, clubs);
    reveal_with_fuel(entry_refs, 2);
    let entries = seq![entry];
    assert(entries.drop_last() =~= Seq::<JsonView>::empty());
    assert(player_refs(record, clubs) == entry_refs(player, entries, clubs));
    match entry.u64_at("c"@) {
        Some(club) => {
            lemma_known(clubs, club);
            assert(Seq::<(u64, u64)>::empty().push((player, club)) =~= seq![(player, club)]);
        },
        None => {},
    }
}

/// A player without an id or without a history, or whose history is no array or
/// empty, has no references.
pub proof fn no_history_no_references(record: JsonView, clubs: Seq<JsonView>)
    requires
        !holds_unsigned(record, "id"@) || !has_field(record, "history"@) || !(
        record->Object_0["history"@] is Array) || record->Object_0["history"@]->Array_0.len() == 0,
    ensures
        all_refs(seq![record], clubs).len() == 0,
{
    lemma_one_player(record, clubs);
}

/// A warning has no line where there is nothing to report. Else its first line
/// says how many references there are, then each of the first twenty has a line
/// that names the player and the club, and a last line says how many are left
/// where there are more.
pub proof fn warning_lists_the_references(refs: Seq<(u64, u64)>)
    ensures
        ({
            let n = refs.len();
            let lines = warning(refs);
            let listed = if n <= 20 {
                n as int
            } else {
                20
            };
            &&& n == 0 ==> lines.len() == 0
            &&& n > 0 ==> {
                &&& lines.len() == 1 + listed + (if n > 20 {
                    1int
                } else {
                    0
                })
                &&& lines[0] == "warning: "@ + decimal(n) + " history entr"@ + (if n == 1 {
                    "y"@
                } else {
                    "ies"@
                }) + " reference unknown club_id:"@
                &&& forall|i: int|
                    #![trigger refs[i]]
                    0 <= i < listed ==> lines[1 + i] == "  player "@ + decimal(refs[i].0 as nat)
                        + " -> club_id "@ + decimal(refs[i].1 as nat)
                &&& n > 20 ==> lines[21] == "  ... and "@ + decimal((n - 20) as nat) + " more"@
            }
        }),
{
}

} // verus!
