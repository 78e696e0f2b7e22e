//! One tree makes one database, however the platform lists its directories.

use crate::listing::{name_text, selected, EntryView, Keep};
use crate::listing_laws::{
    distinct_names, renumbered, renumbered_entry, selection_ignores_numbering,
};
use crate::questions::{Child, Place, ROOT};
use crate::tree::{
    club_dir_part, clubs_part, country_part, in_turn, league_dir_part, leagues_part, players_at,
    players_in, whole_tree, Part, Tree,
};
use crate::walk::{ids, started};
use crate::walk_laws::{run, tasks_work, walk_gathers_whole_tree};
use vstd::prelude::*;

verus! {

/// The same place where the directories have other numbers.
pub open spec fn renumbered_place(place: Place, renumber: spec_fn(usize) -> usize) -> Place {
    Place { base: renumber(place.base), child: place.child }
}

/// The trees hold the same, but the directories of `other` may have other
/// numbers, and may be listed in another order.
pub open spec fn same_but_for_numbering(
    tree: Tree,
    other: Tree,
    renumber: spec_fn(usize) -> usize,
) -> bool {
    &&& renumber(ROOT) == ROOT
    &&& forall|place: Place|
        #![trigger renumbered_place(place, renumber)]
        {
            let there = renumbered_place(place, renumber);
            &&& (other.is_dir)(there) == (tree.is_dir)(place)
            &&& (other.is_file)(there) == (tree.is_file)(place)
            &&& (other.text)(there) == (tree.text)(place)
            &&& (other.path)(there) == (tree.path)(place)
            &&& (other.entries)(there).to_multiset() == renumbered(
                (tree.entries)(place),
                renumber,
            ).to_multiset()
            &&& distinct_names((tree.entries)(place))
        }
}

/// The trees hold the same, but may list it in different orders.
pub open spec fn same_but_for_order(tree: Tree, other: Tree) -> bool {
    &&& other.is_dir == tree.is_dir
    &&& other.is_file == tree.is_file
    &&& other.text == tree.text
    &&& other.path == tree.path
    &&& forall|place: Place| #[trigger]
        (other.entries)(place).to_multiset() == (tree.entries)(place).to_multiset()
            && distinct_names((tree.entries)(place))
}

/// What a place holds, and what is taken from it, is the same.
proof fn lemma_place(
    tree: Tree,
    other: Tree,
    renumber: spec_fn(usize) -> usize,
    base: usize,
    child: Child,
    keep: Keep,
)
    requires
        same_but_for_numbering(tree, other, renumber),
    ensures
        ({
            let place = Place { base, child };
            let there = Place { base: renumber(base), child };
            &&& (other.is_dir)(there) == (tree.is_dir)(place)
            &&& (other.is_file)(there) == (tree.is_file)(place)
            &&& other.document(there) == tree.document(place)
            &&& (other.path)(there) == (tree.path)(place)
            &&& selected((other.entries)(there), keep) == renumbered(
                selected((tree.entries)(place), keep),
                renumber,
            )
        }),
{
    let place = Place { base, child };
    let there = renumbered_place(place, renumber);
    selection_ignores_numbering((tree.entries)(place), (other.entries)(there), renumber, keep);
}

/// Entries under other numbers that stand for the same stand for the same in
/// turn.
proof fn lemma_in_turn(
    entries: Seq<EntryView>,
    renumber: spec_fn(usize) -> usize,
    mine: spec_fn(EntryView) -> Part,
    theirs: spec_fn(EntryView) -> Part,
)
    requires
        forall|e: EntryView| #[trigger] theirs(renumbered_entry(e, renumber)) == mine(e),
    ensures
        in_turn(renumbered(entries, renumber), theirs) == in_turn(entries, mine),
    decreases entries.len(),
{
    let anew = renumbered(entries, renumber);
    if entries.len() > 0 {
        assert(anew.drop_first() =~= renumbered(entries.drop_first(), renumber));
        lemma_in_turn(entries.drop_first(), renumber, mine, theirs);
        assert(anew[0] == renumbered_entry(entries[0], renumber));
    }
}

proof fn lemma_players_in(
    tree: Tree,
    other: Tree,
    renumber: spec_fn(usize) -> usize,
    entries: Seq<EntryView>,
)
    requires
        same_but_for_numbering(tree, other, renumber),
    ensures
        players_in(other, ids(renumbered(entries, renumber))) == players_in(tree, ids(entries)),
    decreases entries.len(),
{
    let files = ids(entries);
    let theirs = ids(renumbered(entries, renumber));
    if entries.len() > 0 {
        lemma_players_in(tree, other, renumber, entries.drop_first());
        assert(files.drop_first() =~= ids(entries.drop_first()));
        assert(theirs.drop_first() =~= ids(renumbered(entries.drop_first(), renumber)));
        assert(theirs[0] == renumber(files[0]));
        lemma_place(tree, other, renumber, files[0], Child::Itself, Keep::Players);
    }
}

proof fn lemma_players_at(
    tree: Tree,
    other: Tree,
    renumber: spec_fn(usize) -> usize,
    base: usize,
    child: Child,
)
    requires
        same_but_for_numbering(tree, other, renumber),
    ensures
        players_at(other, Place { base: renumber(base), child }) == players_at(
            tree,
            Place { base, child },
        ),
{
    lemma_place(tree, other, renumber, base, child, Keep::Players);
    let entries = selected((tree.entries)(Place { base, child }), Keep::Players);
    lemma_players_in(tree, other, renumber, entries);
}

proof fn lemma_clubs(
    tree: Tree,
    other: Tree,
    renumber: spec_fn(usize) -> usize,
    base: usize,
    code: Seq<char>,
    league_id: u64,
)
    requires
        same_but_for_numbering(tree, other, renumber),
    ensures
        clubs_part(other, renumber(base), code, league_id) == clubs_part(
            tree,
            base,
            code,
            league_id,
        ),
{
    lemma_place(tree, other, renumber, base, Child::Itself, Keep::Directories);
    let mine = |e: EntryView| club_dir_part(tree, e.id, code, league_id);
    let theirs = |e: EntryView| club_dir_part(other, e.id, code, league_id);
    assert forall|e: EntryView| #[trigger] theirs(renumbered_entry(e, renumber)) == mine(e) by {
        lemma_place(tree, other, renumber, e.id, Child::Club, Keep::Directories);
        lemma_players_at(tree, other, renumber, e.id, Child::Players);
    }
    let place = Place { base, child: Child::Itself };
    lemma_in_turn(selected((tree.entries)(place), Keep::Directories), renumber, mine, theirs);
}

proof fn lemma_leagues(
    tree: Tree,
    other: Tree,
    renumber: spec_fn(usize) -> usize,
    base: usize,
    code: Seq<char>,
)
    requires
        same_but_for_numbering(tree, other, renumber),
    ensures
        leagues_part(other, renumber(base), code) == leagues_part(tree, base, code),
{
    lemma_place(tree, other, renumber, base, Child::Itself, Keep::Leagues);
    let mine = |e: EntryView| league_dir_part(tree, e.id, code);
    let theirs = |e: EntryView| league_dir_part(other, e.id, code);
    assert forall|e: EntryView| #[trigger] theirs(renumbered_entry(e, renumber)) == mine(e) by {
        lemma_place(tree, other, renumber, e.id, Child::League, Keep::Directories);
        let league = tree.document(Place { base: e.id, child: Child::League });
        match league->Ok_0.u64_at("id"@) {
            Some(league_id) => {
                lemma_clubs(tree, other, renumber, e.id, code, league_id);
            },
            None => {},
        }
    }
    let place = Place { base, child: Child::Itself };
    lemma_in_turn(selected((tree.entries)(place), Keep::Leagues), renumber, mine, theirs);
}

/// Neither the order in which directories are listed nor the numbers that their
/// entries are given have any influence on what a tree holds, and so none on the
/// database.
pub proof fn tree_ignores_numbering(
    tree: Tree,
    other: Tree,
    renumber: spec_fn(usize) -> usize,
    path: Seq<char>,
)
    requires
        same_but_for_numbering(tree, other, renumber),
    ensures
        whole_tree(other, path) == whole_tree(tree, path),
{
    lemma_place(tree, other, renumber, ROOT, Child::Continents, Keep::Directories);
    lemma_place(tree, other, renumber, ROOT, Child::Countries, Keep::Directories);
    lemma_place(tree, other, renumber, ROOT, Child::NationalCompetitions, Keep::Directories);
    lemma_place(tree, other, renumber, ROOT, Child::DomesticCups, Keep::Directories);
    lemma_place(tree, other, renumber, ROOT, Child::Itself, Keep::Directories);
    let mine = |e: EntryView| country_part(tree, e);
    let theirs = |e: EntryView| country_part(other, e);
    assert forall|e: EntryView| #[trigger] theirs(renumbered_entry(e, renumber)) == mine(e) by {
        lemma_place(tree, other, renumber, e.id, Child::Names, Keep::Directories);
        lemma_players_at(tree, other, renumber, e.id, Child::FreeAgents);
        match name_text(e.name) {
            Some(code) => {
                lemma_leagues(tree, other, renumber, e.id, code);
            },
            None => {},
        }
    }
    let root = Place { base: ROOT, child: Child::Itself };
    lemma_in_turn(selected((tree.entries)(root), Keep::Directories), renumber, mine, theirs);
}

/// Two walks through the same tree end alike, whatever the order in which the
/// directories are listed and the numbers that their entries are given: with the
/// same records, or with the same error.
pub proof fn walk_ignores_numbering(
    tree: Tree,
    other: Tree,
    renumber: spec_fn(usize) -> usize,
    path: Seq<char>,
    replies: nat,
)
    requires
        same_but_for_numbering(tree, other, renumber),
        replies >= tasks_work(tree, started(path).tasks),
        replies >= tasks_work(other, started(path).tasks),
    ensures
        match (run(tree, started(path), replies), run(other, started(path), replies)) {
            (Ok(end), Ok(other_end)) => other_end.collected == end.collected,
            (Err(e), Err(other_error)) => other_error == e,
            _ => false,
        },
{
    tree_ignores_numbering(tree, other, renumber, path);
    walk_gathers_whole_tree(tree, path, replies);
    walk_gathers_whole_tree(other, path, replies);
}

/// The order in which directories are listed has no influence on what a tree
/// holds, and so none on the database.
pub proof fn tree_ignores_listing_order(tree: Tree, other: Tree, path: Seq<char>)
    requires
        same_but_for_order(tree, other),
    ensures
        whole_tree(other, path) == whole_tree(tree, path),
{
    let same = |number: usize| number;
    assert forall|place: Place| #![trigger renumbered_place(place, same)] {
        let there = renumbered_place(place, same);
        &&& there == place
        &&& (other.entries)(there).to_multiset() == renumbered(
            (tree.entries)(place),
            same,
        ).to_multiset()
        &&& distinct_names((tree.entries)(place))
    } by {
        assert(renumbered((tree.entries)(place), same) =~= (tree.entries)(place));
        assert((other.entries)(place).to_multiset() == (tree.entries)(place).to_multiset());
    }
    tree_ignores_numbering(tree, other, same, path);
}

} // verus!
