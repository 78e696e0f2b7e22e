//! A listing is read in one order, whatever the order in which it comes.

use crate::listing::{
    by_name, bytes_le, insert_by_name, kept, name_le, selected, EntryView, Keep,
};
use vstd::prelude::*;

verus! {

/// No two entries have the same name, as in a directory.
pub open spec fn distinct_names(entries: Seq<EntryView>) -> bool {
    forall|i: int, j: int|
        #![trigger entries[i], entries[j]]
        0 <= i < j < entries.len() ==> entries[i].name != entries[j].name
}

/// No entry comes after a later one.
pub open spec fn in_name_order(entries: Seq<EntryView>) -> bool {
    forall|i: int, j: int|
        #![trigger entries[i], entries[j]]
        0 <= i < j < entries.len() ==> name_le(entries[i].name, entries[j].name)
}

proof fn lemma_bytes_total(a: Seq<u8>, b: Seq<u8>)
    ensures
        bytes_le(a, b) || bytes_le(b, a),
    decreases a.len(),
{
    if a.len() > 0 && b.len() > 0 && a[0] == b[0] {
        lemma_bytes_total(a.drop_first(), b.drop_first());
    }
}

proof fn lemma_bytes_transitive(a: Seq<u8>, b: Seq<u8>, c: Seq<u8>)
    requires
        bytes_le(a, b),
        bytes_le(b, c),
    ensures
        bytes_le(a, c),
    decreases a.len(),
{
    if a.len() > 0 && a[0] == b[0] && b[0] == c[0] {
        lemma_bytes_transitive(a.drop_first(), b.drop_first(), c.drop_first());
    }
}

proof fn lemma_bytes_antisymmetric(a: Seq<u8>, b: Seq<u8>)
    requires
        bytes_le(a, b),
        bytes_le(b, a),
    ensures
        a == b,
    decreases a.len(),
{
    if a.len() > 0 {
        lemma_bytes_antisymmetric(a.drop_first(), b.drop_first());
        assert(a =~= seq![a[0]] + a.drop_first());
        assert(b =~= seq![b[0]] + b.drop_first());
    } else {
        assert(a =~= b);
    }
}

/// Of two names one does not come after the other.
pub proof fn name_order_is_total(a: Option<Seq<u8>>, b: Option<Seq<u8>>)
    ensures
        name_le(a, b) || name_le(b, a),
{
    if a is Some && b is Some {
        lemma_bytes_total(a->0, b->0);
    }
}

/// The order of names is transitive.
pub proof fn name_order_is_transitive(
    a: Option<Seq<u8>>,
    b: Option<Seq<u8>>,
    c: Option<Seq<u8>>,
)
    requires
        name_le(a, b),
        name_le(b, c),
    ensures
        name_le(a, c),
{
    if a is Some && b is Some && c is Some {
        lemma_bytes_transitive(a->0, b->0, c->0);
    }
}

/// Two names neither of which comes after the other are the same.
pub proof fn name_order_is_antisymmetric(a: Option<Seq<u8>>, b: Option<Seq<u8>>)
    requires
        name_le(a, b),
        name_le(b, a),
    ensures
        a == b,
{
    if a is Some && b is Some {
        lemma_bytes_antisymmetric(a->0, b->0);
    }
}

proof fn lemma_insert(sorted: Seq<EntryView>, entry: EntryView)
    requires
        in_name_order(sorted),
    ensures
        in_name_order(insert_by_name(sorted, entry)),
        insert_by_name(sorted, entry).to_multiset() == sorted.to_multiset().insert(entry),
        forall|bound: Option<Seq<u8>>|
            (forall|i: int| 0 <= i < sorted.len() ==> name_le((#[trigger] sorted[i]).name, bound))
                && name_le(entry.name, bound) ==> forall|i: int|
                0 <= i < insert_by_name(sorted, entry).len() ==> #[trigger] name_le(
                    insert_by_name(sorted, entry)[i].name,
                    bound,
                ),
    decreases sorted.len(),
{
    broadcast use vstd::seq_lib::group_to_multiset_ensures;

    let inserted = insert_by_name(sorted, entry);
    if sorted.len() == 0 {
        assert(inserted =~= sorted.push(entry));
    } else if name_le(sorted.last().name, entry.name) {
        assert forall|i: int, j: int|
            #![trigger inserted[i], inserted[j]]
            0 <= i < j < inserted.len() implies name_le(inserted[i].name, inserted[j].name) by {
            if j == sorted.len() && i < sorted.len() - 1 {
                assert(name_le(sorted[i].name, sorted[sorted.len() - 1].name));
                name_order_is_transitive(sorted[i].name, sorted.last().name, entry.name);
            }
        }
    } else {
        let front = sorted.drop_last();
        let last = sorted.last();
        assert(in_name_order(front));
        lemma_insert(front, entry);
        name_order_is_total(entry.name, last.name);
        let rest = insert_by_name(front, entry);
        assert forall|i: int| 0 <= i < front.len() implies name_le(
            (#[trigger] front[i]).name,
            last.name,
        ) by {
            assert(name_le(sorted[i].name, sorted[sorted.len() - 1].name));
        }
        assert forall|i: int, j: int|
            #![trigger inserted[i], inserted[j]]
            0 <= i < j < inserted.len() implies name_le(inserted[i].name, inserted[j].name) by {
            if j == rest.len() {
                assert(name_le(rest[i].name, last.name));
            }
        }
        assert(sorted =~= front.push(last));
        assert(rest.push(last).to_multiset() == rest.to_multiset().insert(last));
        assert(inserted.to_multiset() =~= sorted.to_multiset().insert(entry));
        assert forall|bound: Option<Seq<u8>>|
            (forall|i: int| 0 <= i < sorted.len() ==> name_le((#[trigger] sorted[i]).name, bound))
                && name_le(entry.name, bound) implies forall|i: int|
            0 <= i < inserted.len() ==> #[trigger] name_le(inserted[i].name, bound) by {
            assert forall|i: int| 0 <= i < front.len() implies name_le(
                (#[trigger] front[i]).name,
                bound,
            ) by {
                assert(front[i] == sorted[i]);
            }
            assert(name_le(sorted[sorted.len() - 1].name, bound));
            assert forall|i: int| 0 <= i < inserted.len() implies #[trigger] name_le(
                inserted[i].name,
                bound,
            ) by {
                if i < rest.len() {
                    assert(name_le(rest[i].name, bound));
                }
            }
        }
    }
}

/// Sorting puts the entries in the order of their names, and keeps each as
/// often as it was there.
pub proof fn sorting_orders_and_keeps(entries: Seq<EntryView>)
    ensures
        in_name_order(by_name(entries)),
        by_name(entries).to_multiset() == entries.to_multiset(),
    decreases entries.len(),
{
    broadcast use vstd::seq_lib::group_to_multiset_ensures;

    if entries.len() > 0 {
        sorting_orders_and_keeps(entries.drop_last());
        lemma_insert(by_name(entries.drop_last()), entries.last());
        assert(entries =~= entries.drop_last().push(entries.last()));
    } else {
        assert(by_name(entries) =~= entries);
    }
}

proof fn lemma_same_members(a: Seq<EntryView>, b: Seq<EntryView>, entry: EntryView)
    requires
        a.to_multiset() == b.to_multiset(),
        a.contains(entry),
    ensures
        b.contains(entry),
{
    broadcast use vstd::seq_lib::group_to_multiset_ensures;

    assert(a.to_multiset().count(entry) > 0);
}

/// There is one way only to have entries with distinct names in order.
proof fn lemma_ordered_unique(a: Seq<EntryView>, b: Seq<EntryView>)
    requires
        in_name_order(a),
        in_name_order(b),
        distinct_names(a),
        a.to_multiset() == b.to_multiset(),
    ensures
        a == b,
    decreases a.len(),
{
    broadcast use vstd::seq_lib::group_to_multiset_ensures;

    assert(a.len() == a.to_multiset().len());
    assert(b.len() == b.to_multiset().len());
    if a.len() == 0 {
        assert(a =~= b);
    } else {
        assert(a.contains(a[0]));
        assert(b.contains(b[0]));
        lemma_same_members(a, b, a[0]);
        lemma_same_members(b, a, b[0]);
        let i = choose|i: int| 0 <= i < a.len() && a[i] == b[0];
        let j = choose|j: int| 0 <= j < b.len() && b[j] == a[0];
        if i > 0 {
            assert(name_le(a[0].name, a[i].name));
            if j > 0 {
                assert(name_le(b[0].name, b[j].name));
            }
            name_order_is_antisymmetric(a[0].name, b[0].name);
            assert(a[0].name != a[i].name);
        }
        assert(a[0] == b[0]);
        assert(a.remove(0) =~= a.drop_first());
        assert(b.remove(0) =~= b.drop_first());
        assert(a.drop_first().to_multiset() =~= b.drop_first().to_multiset());
        lemma_ordered_unique(a.drop_first(), b.drop_first());
        assert(a =~= seq![a[0]] + a.drop_first());
        assert(b =~= seq![b[0]] + b.drop_first());
    }
}

/// A listing keeps its distinct names when it is sorted.
proof fn lemma_sorted_distinct(entries: Seq<EntryView>)
    requires
        distinct_names(entries),
    ensures
        distinct_names(by_name(entries)),
{
    broadcast use vstd::seq_lib::group_to_multiset_ensures;

    sorting_orders_and_keeps(entries);
    let sorted = by_name(entries);
    assert forall|i: int, j: int|
        #![trigger sorted[i], sorted[j]]
        0 <= i < j < sorted.len() implies sorted[i].name != sorted[j].name by {
        if sorted[i].name == sorted[j].name {
            assert(sorted.contains(sorted[i]));
            assert(sorted.contains(sorted[j]));
            lemma_same_members(sorted, entries, sorted[i]);
            lemma_same_members(sorted, entries, sorted[j]);
            let p = choose|p: int| 0 <= p < entries.len() && entries[p] == sorted[i];
            let q = choose|q: int| 0 <= q < entries.len() && entries[q] == sorted[j];
            assert(p == q);
            let entry = sorted[i];
            assert(sorted.to_multiset().count(entry) >= 2) by {
                let front = sorted.take(j);
                let back = sorted.skip(j);
                assert(front + back =~= sorted);
                vstd::seq_lib::lemma_multiset_commutative(front, back);
                assert(front[i] == entry);
                assert(front.contains(entry));
                assert(back[0] == entry);
                assert(back.contains(entry));
            }
            assert(entries.to_multiset().count(entry) <= 1) by {
                lemma_count_once(entries, entry);
            }
        }
    }
}

/// An entry stands once at most among entries with distinct names.
proof fn lemma_count_once(entries: Seq<EntryView>, entry: EntryView)
    requires
        distinct_names(entries),
    ensures
        entries.to_multiset().count(entry) <= 1,
    decreases entries.len(),
{
    broadcast use vstd::seq_lib::group_to_multiset_ensures;

    if entries.len() > 0 {
        let front = entries.drop_last();
        assert(entries =~= front.push(entries.last()));
        lemma_count_once(front, entry);
        if front.contains(entry) && entries.last() == entry {
            let p = choose|p: int| 0 <= p < front.len() && front[p] == entry;
            assert(entries[p].name != entries[entries.len() - 1].name);
        }
    }
}

/// The entry under another number.
pub open spec fn renumbered_entry(
    entry: EntryView,
    renumber: spec_fn(usize) -> usize,
) -> EntryView {
    EntryView { id: renumber(entry.id), ..entry }
}

/// The entries under other numbers.
pub open spec fn renumbered(
    entries: Seq<EntryView>,
    renumber: spec_fn(usize) -> usize,
) -> Seq<EntryView> {
    entries.map_values(|e: EntryView| renumbered_entry(e, renumber))
}

/// Behind some entries comes another.
proof fn lemma_renumbered_push(
    entries: Seq<EntryView>,
    entry: EntryView,
    renumber: spec_fn(usize) -> usize,
)
    ensures
        renumbered(entries.push(entry), renumber) == renumbered(entries, renumber).push(
            renumbered_entry(entry, renumber),
        ),
{
    assert(renumbered(entries.push(entry), renumber) =~= renumbered(entries, renumber).push(
        renumbered_entry(entry, renumber),
    ));
}

/// Numbers have no influence on where an entry is put.
proof fn lemma_renumbered_insert(
    sorted: Seq<EntryView>,
    entry: EntryView,
    renumber: spec_fn(usize) -> usize,
)
    ensures
        insert_by_name(renumbered(sorted, renumber), renumbered_entry(entry, renumber))
            == renumbered(insert_by_name(sorted, entry), renumber),
    decreases sorted.len(),
{
    let other = renumbered(sorted, renumber);
    if sorted.len() == 0 {
        assert(insert_by_name(other, renumbered_entry(entry, renumber)) =~= renumbered(
            insert_by_name(sorted, entry),
            renumber,
        ));
    } else if name_le(sorted.last().name, entry.name) {
        lemma_renumbered_push(sorted, entry, renumber);
    } else {
        assert(other.drop_last() =~= renumbered(sorted.drop_last(), renumber));
        lemma_renumbered_insert(sorted.drop_last(), entry, renumber);
        lemma_renumbered_push(insert_by_name(sorted.drop_last(), entry), sorted.last(), renumber);
    }
}

/// Numbers have no influence on the order of entries.
proof fn lemma_renumbered_sorted(entries: Seq<EntryView>, renumber: spec_fn(usize) -> usize)
    ensures
        by_name(renumbered(entries, renumber)) == renumbered(by_name(entries), renumber),
    decreases entries.len(),
{
    let other = renumbered(entries, renumber);
    if entries.len() == 0 {
        assert(by_name(other) =~= renumbered(by_name(entries), renumber));
    } else {
        assert(other.drop_last() =~= renumbered(entries.drop_last(), renumber));
        lemma_renumbered_sorted(entries.drop_last(), renumber);
        lemma_renumbered_insert(by_name(entries.drop_last()), entries.last(), renumber);
    }
}

/// Numbers have no influence on which entries are kept.
proof fn lemma_renumbered_kept(
    entries: Seq<EntryView>,
    keep: Keep,
    renumber: spec_fn(usize) -> usize,
)
    ensures
        renumbered(entries, renumber).filter(kept(keep)) == renumbered(
            entries.filter(kept(keep)),
            renumber,
        ),
    decreases entries.len(),
{
    reveal(Seq::filter);
    let other = renumbered(entries, renumber);
    if entries.len() == 0 {
        assert(other.filter(kept(keep)) =~= renumbered(entries.filter(kept(keep)), renumber));
    } else {
        assert(other.drop_last() =~= renumbered(entries.drop_last(), renumber));
        lemma_renumbered_kept(entries.drop_last(), keep, renumber);
        assert(kept(keep)(other.last()) == kept(keep)(entries.last()));
        lemma_renumbered_push(entries.drop_last().filter(kept(keep)), entries.last(), renumber);
    }
}

/// What is taken from a directory depends neither on the order in which the
/// platform lists it nor on how the entries are numbered, but for the numbers
/// themselves.
pub proof fn selection_ignores_numbering(
    listing: Seq<EntryView>,
    other: Seq<EntryView>,
    renumber: spec_fn(usize) -> usize,
    keep: Keep,
)
    requires
        distinct_names(listing),
        renumbered(listing, renumber).to_multiset() == other.to_multiset(),
    ensures
        selected(other, keep) == renumbered(selected(listing, keep), renumber),
{
    let anew = renumbered(listing, renumber);
    assert forall|i: int, j: int|
        #![trigger anew[i], anew[j]]
        0 <= i < j < anew.len() implies anew[i].name != anew[j].name by {
        assert(listing[i].name != listing[j].name);
    }
    selection_ignores_listing_order(anew, other, keep);
    lemma_renumbered_sorted(listing, renumber);
    lemma_renumbered_kept(by_name(listing), keep, renumber);
}

/// What is taken from a directory does not depend on the order in which the
/// platform lists it.
pub proof fn selection_ignores_listing_order(
    listing: Seq<EntryView>,
    other: Seq<EntryView>,
    keep: Keep,
)
    requires
        distinct_names(listing),
        listing.to_multiset() == other.to_multiset(),
    ensures
        selected(listing, keep) == selected(other, keep),
{
    sorting_orders_and_keeps(listing);
    sorting_orders_and_keeps(other);
    lemma_sorted_distinct(listing);
    lemma_ordered_unique(by_name(listing), by_name(other));
}

} // verus!
