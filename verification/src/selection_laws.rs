//! Which entries of a directory are taken, and in what order.

use crate::listing::{
    by_name, bytes_le, extension, is_json_name, kept, last_dot, lower, name_le, name_text,
    selected, EntryView, Keep,
};
use crate::listing_laws::{in_name_order, sorting_orders_and_keeps};
use crate::questions::Child;
use vstd::prelude::*;
use vstd::utf8::{
    decode_utf8_encode_utf8, encode_utf8, encode_utf8_decode_utf8, encode_utf8_valid_utf8,
    valid_utf8,
};

verus! {

/// A name is read as the text that it encodes in UTF-8, and as nothing where it
/// encodes none.
pub proof fn name_is_read_as_what_it_encodes(name: Option<Seq<u8>>, text: Seq<char>)
    ensures
        name_text(name) == Some(text) <==> name == Some(encode_utf8(text)),
{
    encode_utf8_valid_utf8(text);
    encode_utf8_decode_utf8(text);
    match name {
        Some(bytes) => {
            if valid_utf8(bytes) {
                decode_utf8_encode_utf8(bytes);
            }
        },
        None => {},
    }
}

/// At `i` the byte strings differ for the first time, and `a` has the smaller
/// byte there.
pub open spec fn smaller_at(a: Seq<u8>, b: Seq<u8>, i: int) -> bool {
    &&& 0 <= i < a.len() && i < b.len()
    &&& a.take(i) == b.take(i)
    &&& a[i] < b[i]
}

/// `b` starts with `a`.
pub open spec fn starts_with(b: Seq<u8>, a: Seq<u8>) -> bool {
    a.len() <= b.len() && b.take(a.len() as int) == a
}

proof fn lemma_bytes_order(a: Seq<u8>, b: Seq<u8>)
    ensures
        bytes_le(a, b) <==> starts_with(b, a) || exists|i: int| #[trigger] smaller_at(a, b, i),
    decreases a.len(),
{
    if a.len() == 0 {
        assert(b.take(0) =~= a);
    } else if b.len() > 0 {
        let x = a.drop_first();
        let y = b.drop_first();
        if a[0] == b[0] {
            lemma_bytes_order(x, y);
            if starts_with(y, x) {
                assert(b.take(a.len() as int) =~= a) by {
                    assert forall|k: int| 0 <= k < a.len() implies b[k] == a[k] by {
                        if k > 0 {
                            assert(y.take(x.len() as int)[k - 1] == x[k - 1]);
                        }
                    }
                }
            }
            if starts_with(b, a) {
                assert(y.take(x.len() as int) =~= x) by {
                    assert forall|k: int| 0 <= k < x.len() implies y[k] == x[k] by {
                        assert(b.take(a.len() as int)[k + 1] == a[k + 1]);
                    }
                }
            }
            if exists|i: int| #[trigger] smaller_at(x, y, i) {
                let i = choose|i: int| #[trigger] smaller_at(x, y, i);
                assert(a.take(i + 1) =~= b.take(i + 1)) by {
                    assert forall|k: int| 0 <= k < i + 1 implies a[k] == b[k] by {
                        if k > 0 {
                            assert(x.take(i)[k - 1] == y.take(i)[k - 1]);
                        }
                    }
                }
                assert(smaller_at(a, b, i + 1));
            }
            if exists|i: int| #[trigger] smaller_at(a, b, i) {
                let i = choose|i: int| #[trigger] smaller_at(a, b, i);
                assert(x.take(i - 1) =~= y.take(i - 1)) by {
                    assert forall|k: int| 0 <= k < i - 1 implies x[k] == y[k] by {
                        assert(a.take(i)[k + 1] == b.take(i)[k + 1]);
                    }
                }
                assert(smaller_at(x, y, i - 1));
            }
        } else {
            if a[0] < b[0] {
                assert(a.take(0) =~= b.take(0));
                assert(smaller_at(a, b, 0));
            }
            if starts_with(b, a) {
                assert(b.take(a.len() as int)[0] == a[0]);
            }
            if exists|i: int| #[trigger] smaller_at(a, b, i) {
                let i = choose|i: int| #[trigger] smaller_at(a, b, i);
                if i > 0 {
                    assert(a.take(i)[0] == b.take(i)[0]);
                }
            }
        }
    }
}

/// Names are ordered as words in a dictionary, by the values of their bytes: a
/// name comes before those that it starts, and of two that differ the one with
/// the smaller byte where they first differ comes first. A path without a name
/// comes before all others.
pub proof fn names_are_ordered_by_bytes(a: Option<Seq<u8>>, b: Option<Seq<u8>>)
    ensures
        name_le(a, b) <==> match (a, b) {
            (Some(x), Some(y)) => starts_with(y, x) || exists|i: int| #[trigger]
                smaller_at(x, y, i),
            (Some(_), None) => false,
            (None, _) => true,
        },
{
    if a is Some && b is Some {
        lemma_bytes_order(a->0, b->0);
    }
}

/// The byte is the letter, in lower or upper case.
pub open spec fn is_letter(byte: u8, small: char, capital: char) -> bool {
    byte == small as u8 || byte == capital as u8
}

/// The name ends in `.json`, in any case, behind at least one more byte.
pub open spec fn ends_in_json(name: Seq<u8>) -> bool {
    let n = name.len();
    &&& n >= 6
    &&& name[n - 5] == '.' as u8
    &&& is_letter(name[n - 4], 'j', 'J')
    &&& is_letter(name[n - 3], 's', 'S')
    &&& is_letter(name[n - 2], 'o', 'O')
    &&& is_letter(name[n - 1], 'n', 'N')
}

proof fn lemma_last_dot(name: Seq<u8>)
    ensures
        match last_dot(name) {
            Some(dot) => 0 <= dot < name.len() && name[dot] == '.' as u8 && forall|k: int|
                dot < k < name.len() ==> #[trigger] name[k] != '.' as u8,
            None => forall|k: int| 0 <= k < name.len() ==> #[trigger] name[k] != '.' as u8,
        },
    decreases name.len(),
{
    if name.len() > 0 && name.last() != '.' as u8 {
        let front = name.drop_last();
        lemma_last_dot(front);
        assert forall|k: int| 0 <= k < front.len() implies name[k] == front[k] by {}
    }
}

proof fn lemma_json_name(name: Seq<u8>)
    ensures
        is_json_name(name) <==> ends_in_json(name),
{
    let n = name.len();
    lemma_last_dot(name);
    let expected = seq!['j' as u8, 's' as u8, 'o' as u8, 'n' as u8];
    if is_json_name(name) {
        let dot = last_dot(name)->0;
        let e = name.skip(dot + 1);
        let lowered = e.map_values(|b: u8| lower(b));
        assert(lowered == expected);
        assert(lowered.len() == 4);
        assert(lowered[0] == lower(name[n - 4]));
        assert(lowered[1] == lower(name[n - 3]));
        assert(lowered[2] == lower(name[n - 2]));
        assert(lowered[3] == lower(name[n - 1]));
        assert(expected[0] == 106 && expected[1] == 115 && expected[2] == 111 && expected[3] == 110);
    }
    if ends_in_json(name) {
        assert(name[n - 5] == '.' as u8);
        assert(name[n - 4] != 46 && name[n - 3] != 46 && name[n - 2] != 46 && name[n - 1] != 46);
        let dot = last_dot(name)->0;
        if dot > n - 5 {
            assert(dot == n - 4 || dot == n - 3 || dot == n - 2 || dot == n - 1);
        }
        assert(dot == n - 5);
        let e = name.skip(dot + 1);
        assert(extension(name) == Some(e));
        let lowered = e.map_values(|b: u8| lower(b));
        assert(lowered[0] == lower(name[n - 4]));
        assert(lowered[1] == lower(name[n - 3]));
        assert(lowered[2] == lower(name[n - 2]));
        assert(lowered[3] == lower(name[n - 1]));
        assert(lowered =~= expected);
    }
}

/// The entry is one to take: a directory; a directory that is not named
/// `free_agents`; or a file whose name ends in `.json`.
pub open spec fn wanted(entry: EntryView, keep: Keep) -> bool {
    match keep {
        Keep::Directories => entry.is_dir,
        Keep::Leagues => entry.is_dir && name_text(entry.name) != Some("free_agents"@),
        Keep::Players => entry.is_file && entry.name is Some && ends_in_json(entry.name->0),
    }
}

proof fn lemma_kept(entry: EntryView, keep: Keep)
    ensures
        kept(keep)(entry) == wanted(entry, keep),
{
    name_is_read_as_what_it_encodes(entry.name, "free_agents"@);
    if entry.name is Some {
        lemma_json_name(entry.name->0);
    }
}

proof fn lemma_filter(entries: Seq<EntryView>, keep: Keep, entry: EntryView)
    ensures
        entries.filter(kept(keep)).to_multiset().count(entry) == (if wanted(entry, keep) {
            entries.to_multiset().count(entry)
        } else {
            0
        }),
        in_name_order(entries) ==> in_name_order(entries.filter(kept(keep))),
        forall|i: int|
            0 <= i < entries.filter(kept(keep)).len() ==> entries.contains(
                #[trigger] entries.filter(kept(keep))[i],
            ),
    decreases entries.len(),
{
    broadcast use vstd::seq_lib::group_to_multiset_ensures;

    reveal(Seq::filter);
    if entries.len() > 0 {
        let front = entries.drop_last();
        let last = entries.last();
        lemma_filter(front, keep, entry);
        lemma_kept(last, keep);
        assert(entries =~= front.push(last));
        let before = front.filter(kept(keep));
        let all = entries.filter(kept(keep));
        assert forall|i: int| 0 <= i < all.len() implies entries.contains(#[trigger] all[i]) by {
            if i < before.len() {
                assert(front.contains(before[i]));
                let k = choose|k: int| 0 <= k < front.len() && front[k] == before[i];
                assert(entries[k] == all[i]);
            } else {
                assert(entries[entries.len() - 1] == all[i]);
            }
        }
        if in_name_order(entries) {
            assert(in_name_order(front)) by {
                assert forall|i: int, j: int|
                    #![trigger front[i], front[j]]
                    0 <= i < j < front.len() implies name_le(front[i].name, front[j].name) by {
                    assert(name_le(entries[i].name, entries[j].name));
                }
            }
            assert forall|i: int, j: int|
                #![trigger all[i], all[j]]
                0 <= i < j < all.len() implies name_le(all[i].name, all[j].name) by {
                if j == before.len() {
                    assert(front.contains(before[i]));
                    let k = choose|k: int| 0 <= k < front.len() && front[k] == before[i];
                    assert(name_le(entries[k].name, entries[entries.len() - 1].name));
                } else {
                    assert(name_le(before[i].name, before[j].name));
                }
            }
        }
    }
}

/// No two children of a directory have the same name, and the one name that no
/// league may have is that of the free agents.
pub proof fn children_have_names_of_their_own(a: Child, b: Child, entry: EntryView)
    ensures
        a.fixed_name() == b.fixed_name() ==> a == b,
        wanted(entry, Keep::Leagues) <==> entry.is_dir && name_text(entry.name)
            != Child::FreeAgents.fixed_name(),
        forall|keep: Keep| #[trigger] kept(keep)(entry) == wanted(entry, keep),
{
    reveal_strlit("continents.json");
    reveal_strlit("countries.json");
    reveal_strlit("national_competitions.json");
    reveal_strlit("domestic_cups.json");
    reveal_strlit("names.json");
    reveal_strlit("free_agents");
    reveal_strlit("league.json");
    reveal_strlit("club.json");
    reveal_strlit("players");
    assert("continents.json"@.len() == 15);
    assert("countries.json"@.len() == 14);
    assert("national_competitions.json"@.len() == 26);
    assert("domestic_cups.json"@.len() == 18);
    assert("names.json"@.len() == 10);
    assert("free_agents"@.len() == 11 && "free_agents"@[0] == 'f');
    assert("league.json"@.len() == 11 && "league.json"@[0] == 'l');
    assert("club.json"@.len() == 9);
    assert("players"@.len() == 7);
    assert forall|keep: Keep| #[trigger] kept(keep)(entry) == wanted(entry, keep) by {
        lemma_kept(entry, keep);
    }
}

/// Of a listing exactly the wanted entries are taken, each as often as it is
/// listed and as it is, in the order of their names.
pub proof fn selection_takes_exactly_the_wanted(
    listing: Seq<EntryView>,
    keep: Keep,
    entry: EntryView,
)
    ensures
        in_name_order(selected(listing, keep)),
        selected(listing, keep).to_multiset().count(entry) == (if wanted(entry, keep) {
            listing.to_multiset().count(entry)
        } else {
            0
        }),
{
    sorting_orders_and_keeps(listing);
    lemma_filter(by_name(listing), keep, entry);
}

} // verus!
