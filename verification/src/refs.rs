//! References to clubs that do not exist.

use crate::json::{items_view, Json, JsonView};
use crate::text::{append_decimal, decimal};
use std::collections::HashSet;
use vstd::prelude::*;
use vstd::string::StringExecFns;

verus! {

/// Whether one of the clubs has the id `id`.
pub open spec fn is_known(clubs: Seq<JsonView>, id: u64) -> bool {
    exists|i: int| 0 <= i < clubs.len() && (#[trigger] clubs[i]).u64_at("id"@) == Some(id)
}

/// The clubs, none of them known, that the entries of a player's history name.
pub open spec fn entry_refs(player: u64, entries: Seq<JsonView>, clubs: Seq<JsonView>) -> Seq<
    (u64, u64),
>
    decreases entries.len(),
{
    if entries.len() == 0 {
        Seq::empty()
    } else {
        let before = entry_refs(player, entries.drop_last(), clubs);
        match entries.last().u64_at("c"@) {
            Some(club) => if is_known(clubs, club) {
                before
            } else {
                before.push((player, club))
            },
            None => before,
        }
    }
}

/// The unknown clubs that a player's history names, where the player has an id
/// and the history is an array.
pub open spec fn player_refs(player: JsonView, clubs: Seq<JsonView>) -> Seq<(u64, u64)> {
    match (player.u64_at("id"@), player.array_at("history"@)) {
        (Some(id), Some(entries)) => entry_refs(id, entries, clubs),
        _ => Seq::empty(),
    }
}

/// The unknown clubs that the histories of players name, each with the id of
/// the player, in the order in which they stand.
pub open spec fn all_refs(players: Seq<JsonView>, clubs: Seq<JsonView>) -> Seq<(u64, u64)>
    decreases players.len(),
{
    if players.len() == 0 {
        Seq::empty()
    } else {
        all_refs(players.drop_last(), clubs) + player_refs(players.last(), clubs)
    }
}

/// The ids of clubs.
fn club_ids(clubs: &Vec<Json>) -> (known: HashSet<u64>)
    ensures
        forall|id: u64| #[trigger] known@.contains(id) <==> is_known(items_view(clubs@), id),
{
    broadcast use vstd::std_specs::hash::group_hash_axioms;

    let mut known: HashSet<u64> = HashSet::new();
    let mut i: usize = 0;
    while i < clubs.len()
        invariant
            i <= clubs@.len(),
            forall|id: u64| #[trigger]
                known@.contains(id) <==> is_known(items_view(clubs@).take(i as int), id),
        decreases clubs@.len() - i,
    {
        let ghost views = items_view(clubs@);
        let ghost before = known@;
        let found: Option<u64> = clubs[i].u64_at("id");
        match found {
            Some(id) => {
                known.insert(id);
            },
            None => {},
        }
        proof {
            assert forall|id: u64| #[trigger] known@.contains(id) <==> is_known(
                views.take(i + 1),
                id,
            ) by {
                if is_known(views.take(i as int), id) {
                    let k = choose|k: int|
                        0 <= k < i && (#[trigger] views.take(i as int)[k]).u64_at("id"@) == Some(
                            id,
                        );
                    assert(views.take(i + 1)[k].u64_at("id"@) == Some(id));
                }
                if is_known(views.take(i + 1), id) {
                    let k = choose|k: int|
                        0 <= k < i + 1 && (#[trigger] views.take(i + 1)[k]).u64_at("id"@) == Some(
                            id,
                        );
                    if k < i {
                        assert(views.take(i as int)[k].u64_at("id"@) == Some(id));
                    }
                }
                assert(views.take(i + 1)[i as int] == views[i as int]);
                assert(before.contains(id) <==> is_known(views.take(i as int), id));
            }
        }
        i += 1;
    }
    assert(items_view(clubs@).take(clubs@.len() as int) =~= items_view(clubs@));
    known
}

/// Finds the references in the histories of players to clubs that do not exist.
/// They are no error, but most often a typing mistake.
pub fn unknown_refs(players: &Vec<Json>, clubs: &Vec<Json>) -> (refs: Vec<(u64, u64)>)
    ensures
        refs@ == all_refs(items_view(players@), items_view(clubs@)),
{
    broadcast use vstd::std_specs::hash::group_hash_axioms;

    let known: HashSet<u64> = club_ids(clubs);
    let ghost club_views = items_view(clubs@);
    let ghost views = items_view(players@);
    let mut refs: Vec<(u64, u64)> = Vec::new();
    let mut i: usize = 0;
    assert(refs@ =~= all_refs(views.take(0), club_views));
    while i < players.len()
        invariant
            i <= players@.len(),
            views == items_view(players@),
            refs@ == all_refs(views.take(i as int), club_views),
            forall|id: u64| #[trigger] known@.contains(id) <==> is_known(club_views, id),
        decreases players@.len() - i,
    {
        let ghost before = refs@;
        let player: &Json = &players[i];
        assert(player@ == views[i as int]);
        assert(views.take(i + 1).drop_last() =~= views.take(i as int));
        assert(views.take(i + 1).last() == player@);
        assert(before + Seq::<(u64, u64)>::empty() =~= before);
        match player.u64_at("id") {
            Some(id) => match player.get("history") {
                Some(history) => match history.as_array() {
                    Some(entries) => {
                        let ghost entry_views = items_view(entries@);
                        let mut j: usize = 0;
                        assert(before + entry_refs(id, entry_views.take(0), club_views) =~= before);
                        while j < entries.len()
                            invariant
                                j <= entries@.len(),
                                entry_views == items_view(entries@),
                                refs@ == before + entry_refs(
                                    id,
                                    entry_views.take(j as int),
                                    club_views,
                                ),
                                forall|id: u64| #[trigger]
                                    known@.contains(id) <==> is_known(club_views, id),
                            decreases entries@.len() - j,
                        {
                            let ghost earlier = refs@;
                            assert(entry_views.take(j + 1).drop_last() =~= entry_views.take(
                                j as int,
                            ));
                            assert(entry_views.take(j + 1).last() == entries@[j as int]@);
                            match entries[j].u64_at("c") {
                                Some(club) => {
                                    if !known.contains(&club) {
                                        refs.push((id, club));
                                        assert(refs@ =~= before + entry_refs(
                                            id,
                                            entry_views.take(j + 1),
                                            club_views,
                                        ));
                                    }
                                },
                                None => {},
                            }
                            j += 1;
                        }
                        assert(entry_views.take(entries@.len() as int) =~= entry_views);
                    },
                    None => {},
                },
                None => {},
            },
            None => {},
        }
        i += 1;
    }
    assert(views.take(players@.len() as int) =~= views);
    refs
}

/// How many references a warning lists.
pub const LISTED: usize = 20;

/// The first line of a warning of `n` references.
pub open spec fn warning_head(n: nat) -> Seq<char> {
    "warning: "@ + decimal(n) + " history entr"@ + (if n == 1 {
        "y"@
    } else {
        "ies"@
    }) + " reference unknown club_id:"@
}

/// The line of a warning for one reference.
pub open spec fn warning_line(reference: (u64, u64)) -> Seq<char> {
    "  player "@ + decimal(reference.0 as nat) + " -> club_id "@ + decimal(reference.1 as nat)
}

/// The last line of a warning that leaves out `n` references.
pub open spec fn warning_tail(n: nat) -> Seq<char> {
    "  ... and "@ + decimal(n) + " more"@
}

/// The lines of a warning of references to unknown clubs: none where there are
/// no references, else at most [`LISTED`] of them and how many more there are.
pub open spec fn warning(refs: Seq<(u64, u64)>) -> Seq<Seq<char>> {
    if refs.len() == 0 {
        Seq::empty()
    } else if refs.len() <= LISTED {
        seq![warning_head(refs.len())] + refs.map_values(|r: (u64, u64)| warning_line(r))
    } else {
        seq![warning_head(refs.len())] + refs.take(LISTED as int).map_values(
            |r: (u64, u64)| warning_line(r),
        ) + seq![warning_tail((refs.len() - LISTED) as nat)]
    }
}

/// The view of lines, one by one.
pub open spec fn lines_view(lines: Seq<String>) -> Seq<Seq<char>> {
    lines.map_values(|line: String| line@)
}

/// The lines of a warning of references to unknown clubs.
pub fn warning_lines(refs: &Vec<(u64, u64)>) -> (lines: Vec<String>)
    ensures
        lines_view(lines@) == warning(refs@),
{
    let mut lines: Vec<String> = Vec::new();
    if refs.len() == 0 {
        assert(lines_view(lines@) =~= warning(refs@));
        return lines;
    }
    let mut head = "warning: ".to_owned();
    append_decimal(&mut head, refs.len() as u64);
    head.append(" history entr");
    if refs.len() == 1 {
        head.append("y");
    } else {
        head.append("ies");
    }
    head.append(" reference unknown club_id:");
    lines.push(head);
    let ghost first = seq![warning_head(refs@.len())];
    let shown: usize = if refs.len() <= LISTED {
        refs.len()
    } else {
        LISTED
    };
    let mut i: usize = 0;
    assert(lines_view(lines@) =~= first + refs@.take(0).map_values(
        |r: (u64, u64)| warning_line(r),
    ));
    while i < shown
        invariant
            i <= shown <= refs@.len(),
            first.len() == 1,
            lines_view(lines@) == first + refs@.take(i as int).map_values(
                |r: (u64, u64)| warning_line(r),
            ),
        decreases shown - i,
    {
        let ghost before = lines_view(lines@);
        let mut line = "  player ".to_owned();
        append_decimal(&mut line, refs[i].0);
        line.append(" -> club_id ");
        append_decimal(&mut line, refs[i].1);
        lines.push(line);
        proof {
            assert(lines_view(lines@) =~= before.push(warning_line(refs@[i as int])));
            assert(refs@.take(i + 1).map_values(|r: (u64, u64)| warning_line(r))
                =~= refs@.take(i as int).map_values(|r: (u64, u64)| warning_line(r)).push(
                warning_line(refs@[i as int]),
            ));
        }
        i += 1;
    }
    if refs.len() > LISTED {
        let ghost before = lines_view(lines@);
        let mut tail = "  ... and ".to_owned();
        append_decimal(&mut tail, (refs.len() - LISTED) as u64);
        tail.append(" more");
        lines.push(tail);
        assert(lines_view(lines@) =~= before.push(warning_tail((refs@.len() - LISTED) as nat)));
        assert(lines_view(lines@) =~= warning(refs@));
    } else {
        assert(refs@.take(shown as int) =~= refs@);
    }
    lines
}

/// The player `player` refers in its history to the club `club`.
pub open spec fn refers(record: JsonView, player: u64, club: u64) -> bool {
    &&& record.u64_at("id"@) == Some(player)
    &&& record.array_at("history"@) matches Some(entries) && exists|i: int|
        0 <= i < entries.len() && (#[trigger] entries[i]).u64_at("c"@) == Some(club)
}

proof fn lemma_entry_refs(
    player: u64,
    entries: Seq<JsonView>,
    clubs: Seq<JsonView>,
    reference: (u64, u64),
)
    ensures
        entry_refs(player, entries, clubs).contains(reference) <==> {
            &&& reference.0 == player
            &&& !is_known(clubs, reference.1)
            &&& exists|i: int|
                0 <= i < entries.len() && (#[trigger] entries[i]).u64_at("c"@) == Some(reference.1)
        },
    decreases entries.len(),
{
    let named = |list: Seq<JsonView>|
        exists|i: int|
            0 <= i < list.len() && (#[trigger] list[i]).u64_at("c"@) == Some(reference.1);
    if entries.len() > 0 {
        let front = entries.drop_last();
        let before = entry_refs(player, front, clubs);
        let last = entries.last();
        lemma_entry_refs(player, front, clubs, reference);
        assert(named(entries) <==> named(front) || last.u64_at("c"@) == Some(reference.1)) by {
            if named(front) {
                let i = choose|i: int|
                    0 <= i < front.len() && (#[trigger] front[i]).u64_at("c"@) == Some(
                        reference.1,
                    );
                assert(entries[i].u64_at("c"@) == Some(reference.1));
            }
            if named(entries) {
                let i = choose|i: int|
                    0 <= i < entries.len() && (#[trigger] entries[i]).u64_at("c"@) == Some(
                        reference.1,
                    );
                if i < front.len() {
                    assert(front[i].u64_at("c"@) == Some(reference.1));
                }
            }
            assert(entries[entries.len() - 1] == last);
        }
        match last.u64_at("c"@) {
            Some(club) => {
                let after = before.push((player, club));
                assert(after.contains(reference) <==> before.contains(reference) || reference == (
                    player,
                    club,
                )) by {
                    if before.contains(reference) {
                        let k = choose|k: int| 0 <= k < before.len() && before[k] == reference;
                        assert(after[k] == reference);
                    }
                    assert(after[before.len() as int] == (player, club));
                }
            },
            None => {},
        }
    }
}

/// A reference is reported exactly where a player makes it and no club has its id.
pub proof fn reported_refs_are_the_unknown_ones(
    players: Seq<JsonView>,
    clubs: Seq<JsonView>,
    reference: (u64, u64),
)
    ensures
        all_refs(players, clubs).contains(reference) <==> {
            &&& !is_known(clubs, reference.1)
            &&& exists|i: int|
                0 <= i < players.len() && refers(#[trigger] players[i], reference.0, reference.1)
        },
    decreases players.len(),
{
    if players.len() > 0 {
        let front = players.drop_last();
        let last = players.last();
        let before = all_refs(front, clubs);
        let own = player_refs(last, clubs);
        reported_refs_are_the_unknown_ones(front, clubs, reference);
        assert(own.contains(reference) <==> !is_known(clubs, reference.1) && refers(
            last,
            reference.0,
            reference.1,
        )) by {
            match (last.u64_at("id"@), last.array_at("history"@)) {
                (Some(id), Some(entries)) => {
                    lemma_entry_refs(id, entries, clubs, reference);
                },
                _ => {},
            }
        }
        let after = before + own;
        assert(after.contains(reference) <==> before.contains(reference) || own.contains(
            reference,
        )) by {
            if before.contains(reference) {
                let k = choose|k: int| 0 <= k < before.len() && before[k] == reference;
                assert(after[k] == reference);
            }
            if own.contains(reference) {
                let k = choose|k: int| 0 <= k < own.len() && own[k] == reference;
                assert(after[before.len() + k] == reference);
            }
        }
        let made = |list: Seq<JsonView>|
            exists|i: int|
                0 <= i < list.len() && refers(#[trigger] list[i], reference.0, reference.1);
        assert(made(players) <==> made(front) || refers(last, reference.0, reference.1)) by {
            if made(front) {
                let i = choose|i: int|
                    0 <= i < front.len() && refers(#[trigger] front[i], reference.0, reference.1);
                assert(refers(players[i], reference.0, reference.1));
            }
            if made(players) {
                let i = choose|i: int|
                    0 <= i < players.len() && refers(
                        #[trigger] players[i],
                        reference.0,
                        reference.1,
                    );
                if i < front.len() {
                    assert(refers(front[i], reference.0, reference.1));
                }
            }
            assert(players[players.len() - 1] == last);
        }
    }
}

} // verus!
