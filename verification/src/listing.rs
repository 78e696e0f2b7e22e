//! Directory listings: their order, and which of the entries matter.

use crate::error::{CompileError, ErrorView};
use crate::text::same_bytes;
use vstd::prelude::*;
use vstd::utf8::{decode_utf8, encode_utf8, valid_utf8};

verus! {

/// `std::string::FromUtf8Error`, what `String::from_utf8` returns on bytes that
/// are not UTF-8.
#[verifier::external_type_specification]
#[verifier::external_body]
pub struct ExFromUtf8Error(std::string::FromUtf8Error);

/// `String::from_utf8`: the text that the bytes encode, exactly where they are
/// valid UTF-8.
pub assume_specification[ std::string::String::from_utf8 ](vec: Vec<u8>) -> (outcome: Result<
    std::string::String,
    std::string::FromUtf8Error,
>)
    ensures
        match outcome {
            Ok(text) => valid_utf8(vec@) && text@ == decode_utf8(vec@),
            Err(_) => !valid_utf8(vec@),
        },
;

/// An entry of a directory.
#[derive(Debug)]
pub struct Entry {
    /// By what number the entry is asked for later.
    pub id: usize,
    /// Its file name, as the platform encodes it; none where its path ends in
    /// no name, as `data/..` does.
    pub name: Option<Vec<u8>>,
    /// Its whole path, for messages.
    pub path: String,
    /// Whether it is a directory.
    pub is_dir: bool,
    /// Whether it is a file.
    pub is_file: bool,
}

/// What an [`Entry`] says.
pub struct EntryView {
    pub id: usize,
    pub name: Option<Seq<u8>>,
    pub path: Seq<char>,
    pub is_dir: bool,
    pub is_file: bool,
}

impl View for Entry {
    type V = EntryView;

    open spec fn view(&self) -> EntryView {
        EntryView {
            id: self.id,
            name: match self.name {
                Some(bytes) => Some(bytes@),
                None => None,
            },
            path: self.path@,
            is_dir: self.is_dir,
            is_file: self.is_file,
        }
    }
}

/// The view of entries, one by one.
pub open spec fn entries_view(entries: Seq<Entry>) -> Seq<EntryView> {
    entries.map_values(|e: Entry| e@)
}

/// A name as text, where there is one and it is UTF-8.
pub open spec fn name_text(name: Option<Seq<u8>>) -> Option<Seq<char>> {
    match name {
        Some(bytes) => if valid_utf8(bytes) {
            Some(decode_utf8(bytes))
        } else {
            None
        },
        None => None,
    }
}

/// The name of an entry as text.
pub fn dir_name(p: &Entry) -> (name: Result<String, CompileError>)
    ensures
        match name_text(p@.name) {
            Some(text) => name matches Ok(n) && n@ == text,
            None => name matches Err(e) && e@ == (ErrorView::NonUtf8Name { path: p@.path }),
        },
{
    match &p.name {
        Some(name) => {
            let bytes: Vec<u8> = name.clone();
            assert(bytes@ =~= name@);
            match String::from_utf8(bytes) {
                Ok(text) => Ok(text),
                Err(_) => Err(CompileError::NonUtf8Name { path: p.path.clone() }),
            }
        },
        None => Err(CompileError::NonUtf8Name { path: p.path.clone() }),
    }
}

/// Whether `a` comes before `b` byte by byte, or is the same.
pub open spec fn bytes_le(a: Seq<u8>, b: Seq<u8>) -> bool
    decreases a.len(),
{
    if a.len() == 0 {
        true
    } else if b.len() == 0 {
        false
    } else if a[0] == b[0] {
        bytes_le(a.drop_first(), b.drop_first())
    } else {
        a[0] < b[0]
    }
}

/// Whether the name `a` comes before the name `b`, or is the same. A path
/// without a name comes before all others.
pub open spec fn name_le(a: Option<Seq<u8>>, b: Option<Seq<u8>>) -> bool {
    match (a, b) {
        (Some(x), Some(y)) => bytes_le(x, y),
        (Some(_), None) => false,
        (None, _) => true,
    }
}

/// `entry` put into `sorted`, behind all entries that do not come after it.
pub open spec fn insert_by_name(sorted: Seq<EntryView>, entry: EntryView) -> Seq<EntryView>
    decreases sorted.len(),
{
    if sorted.len() == 0 {
        seq![entry]
    } else if name_le(sorted.last().name, entry.name) {
        sorted.push(entry)
    } else {
        insert_by_name(sorted.drop_last(), entry).push(sorted.last())
    }
}

/// The entries in the order of their names.
pub open spec fn by_name(entries: Seq<EntryView>) -> Seq<EntryView>
    decreases entries.len(),
{
    if entries.len() == 0 {
        Seq::empty()
    } else {
        insert_by_name(by_name(entries.drop_last()), entries.last())
    }
}

/// Where the last dot of a name stands.
pub open spec fn last_dot(name: Seq<u8>) -> Option<int>
    decreases name.len(),
{
    if name.len() == 0 {
        None
    } else if name.last() == '.' as u8 {
        Some(name.len() - 1)
    } else {
        last_dot(name.drop_last())
    }
}

/// The extension of a file name: what follows its last dot, unless there is no
/// dot or the name starts with it.
pub open spec fn extension(name: Seq<u8>) -> Option<Seq<u8>> {
    match last_dot(name) {
        Some(dot) => if dot > 0 {
            Some(name.skip(dot + 1))
        } else {
            None
        },
        None => None,
    }
}

/// An ASCII letter in lower case; any other byte as it is.
pub open spec fn lower(byte: u8) -> u8 {
    if 65 <= byte <= 90 {
        (byte + 32) as u8
    } else {
        byte
    }
}

/// Whether a file name has the extension `json`, in any case.
pub open spec fn is_json_name(name: Seq<u8>) -> bool {
    extension(name) matches Some(e) && e.map_values(|b: u8| lower(b)) == seq![
        'j' as u8,
        's' as u8,
        'o' as u8,
        'n' as u8,
    ]
}

/// Which entries of a listing to keep.
#[derive(Clone, Copy, Debug, PartialEq, Eq, Structural)]
pub enum Keep {
    /// All directories.
    Directories,
    /// The directories that may be leagues: all but `free_agents`.
    Leagues,
    /// The files that hold players: those with the extension `json`.
    Players,
}

/// The entries to keep.
pub open spec fn kept(keep: Keep) -> spec_fn(EntryView) -> bool {
    |entry: EntryView|
        match keep {
            Keep::Directories => entry.is_dir,
            Keep::Leagues => entry.is_dir && entry.name != Some(
                encode_utf8("free_agents"@),
            ),
            Keep::Players => entry.is_file && (entry.name matches Some(name) && is_json_name(name)),
        }
}

/// The entries of a listing that are to be kept, in the order of their names.
pub open spec fn selected(listing: Seq<EntryView>, keep: Keep) -> Seq<EntryView> {
    by_name(listing).filter(kept(keep))
}

/// Compares two names byte by byte.
fn bytes_not_after(a: &Vec<u8>, b: &Vec<u8>) -> (le: bool)
    ensures
        le == bytes_le(a@, b@),
{
    let mut i: usize = 0;
    assert(a@.skip(0) =~= a@);
    assert(b@.skip(0) =~= b@);
    while i < a.len() && i < b.len()
        invariant
            i <= a@.len(),
            i <= b@.len(),
            bytes_le(a@, b@) == bytes_le(a@.skip(i as int), b@.skip(i as int)),
        decreases a@.len() - i,
    {
        if a[i] != b[i] {
            return a[i] < b[i];
        }
        assert(a@.skip(i as int).drop_first() =~= a@.skip(i + 1));
        assert(b@.skip(i as int).drop_first() =~= b@.skip(i + 1));
        i += 1;
    }
    i == a.len()
}

/// Whether the entry `a` does not come after the entry `b`.
fn not_after(a: &Entry, b: &Entry) -> (le: bool)
    ensures
        le == name_le(a@.name, b@.name),
{
    match (&a.name, &b.name) {
        (Some(x), Some(y)) => bytes_not_after(x, y),
        (Some(_), None) => false,
        (None, _) => true,
    }
}

/// Sorts a listing by name.
fn sort_by_name(listing: Vec<Entry>) -> (sorted: Vec<Entry>)
    ensures
        entries_view(sorted@) == by_name(entries_view(listing@)),
{
    let ghost all = listing@;
    let mut sorted: Vec<Entry> = Vec::new();
    assert(entries_view(sorted@) =~= by_name(entries_view(all).take(0)));
    for entry in it: listing
        invariant
            it.seq() == all,
            entries_view(sorted@) == by_name(entries_view(all).take(it.index() as int)),
    {
        let ghost k = it.index() as int;
        let ghost before = entries_view(sorted@);
        let mut at: usize = sorted.len();
        assert(before.take(at as int) =~= before);
        assert(insert_by_name(before, entry@) =~= insert_by_name(before.take(at as int), entry@)
            + before.skip(at as int));
        while at > 0 && !not_after(&sorted[at - 1], &entry)
            invariant
                at <= sorted@.len(),
                before == entries_view(sorted@),
                insert_by_name(before, entry@) == insert_by_name(before.take(at as int), entry@)
                    + before.skip(at as int),
            decreases at,
        {
            at -= 1;
            let ghost front = before.take(at + 1);
            assert(front.drop_last() =~= before.take(at as int));
            assert(front.last() == before[at as int]);
            assert(insert_by_name(before.take(at as int), entry@).push(before[at as int])
                + before.skip(at + 1) =~= insert_by_name(before.take(at as int), entry@)
                + before.skip(at as int));
        }
        proof {
            let front = before.take(at as int);
            if at > 0 {
                assert(front.last() == sorted@[at - 1]@);
            }
            assert(insert_by_name(front, entry@) =~= front.push(entry@));
            assert(before.insert(at as int, entry@) =~= front.push(entry@) + before.skip(
                at as int,
            ));
        }
        sorted.insert(at, entry);
        proof {
            assert(entries_view(sorted@) =~= before.insert(at as int, entry@));
            assert(entries_view(all).take(k + 1).drop_last() =~= entries_view(all).take(k));
            assert(entries_view(all).take(k + 1).last() == entry@);
        }
    }
    assert(entries_view(all).take(all.len() as int) =~= entries_view(all));
    sorted
}

/// Whether a file name has the extension `json`, in any case.
fn has_json_extension(name: &Vec<u8>) -> (json: bool)
    ensures
        json == is_json_name(name@),
{
    let mut end: usize = name.len();
    assert(name@.take(end as int) =~= name@);
    while end > 0 && name[end - 1] != 46
        invariant
            end <= name@.len(),
            last_dot(name@) == last_dot(name@.take(end as int)),
        decreases end,
    {
        assert(name@.take(end as int).last() == name@[end - 1]);
        assert(name@.take(end as int).drop_last() =~= name@.take(end - 1));
        end -= 1;
    }
    if end > 0 {
        assert(name@.take(end as int).last() == name@[end - 1]);
        assert(last_dot(name@) == Some(end - 1));
    }
    if end < 2 || name.len() - end != 4 {
        proof {
            if end >= 2 {
                let e = name@.skip(end as int);
                assert(e.map_values(|b: u8| lower(b)).len() != 4);
            }
        }
        return false;
    }
    let ghost e = name@.skip(end as int).map_values(|b: u8| lower(b));
    assert(extension(name@) == Some(name@.skip(end as int)));
    let json: bool = lower_of(name[end]) == 106 && lower_of(name[end + 1]) == 115 && lower_of(
        name[end + 2],
    ) == 111 && lower_of(name[end + 3]) == 110;
    proof {
        let expected = seq!['j' as u8, 's' as u8, 'o' as u8, 'n' as u8];
        assert(e.len() == 4);
        assert(e[0] == lower(name@[end as int]));
        assert(e[1] == lower(name@[end + 1]));
        assert(e[2] == lower(name@[end + 2]));
        assert(e[3] == lower(name@[end + 3]));
        if json {
            assert(e =~= expected);
        } else {
            assert(e == expected ==> e[0] == 106 && e[1] == 115 && e[2] == 111 && e[3] == 110);
        }
    }
    json
}

/// An ASCII letter in lower case; any other byte as it is.
fn lower_of(byte: u8) -> (lowered: u8)
    ensures
        lowered == lower(byte),
{
    if 65 <= byte && byte <= 90 {
        byte + 32
    } else {
        byte
    }
}

/// Whether to keep an entry.
fn keeps(entry: &Entry, keep: Keep) -> (keeps: bool)
    ensures
        keeps == kept(keep)(entry@),
{
    match keep {
        Keep::Directories => entry.is_dir,
        Keep::Leagues => entry.is_dir && match &entry.name {
            Some(name) => !same_bytes(name.as_slice(), "free_agents".as_bytes()),
            None => true,
        },
        Keep::Players => entry.is_file && match &entry.name {
            Some(name) => has_json_extension(name),
            None => false,
        },
    }
}

/// The entries of a listing that are to be kept, in the order of their names.
pub fn select(listing: Vec<Entry>, keep: Keep) -> (entries: Vec<Entry>)
    ensures
        entries_view(entries@) == selected(entries_view(listing@), keep),
{
    let sorted = sort_by_name(listing);
    let ghost all = entries_view(sorted@);
    let mut entries: Vec<Entry> = Vec::new();
    proof {
        reveal(Seq::filter);
        assert(entries_view(entries@) =~= all.take(0).filter(kept(keep)));
    }
    for entry in it: sorted
        invariant
            all == entries_view(it.seq()),
            entries_view(entries@) == all.take(it.index() as int).filter(kept(keep)),
    {
        let ghost k = it.index() as int;
        let ghost before = entries_view(entries@);
        proof {
            reveal(Seq::filter);
            assert(all.take(k + 1).drop_last() =~= all.take(k));
            assert(all.take(k + 1).last() == entry@);
        }
        if keeps(&entry, keep) {
            entries.push(entry);
            assert(entries_view(entries@) =~= before.push(entry@));
        }
    }
    assert(all.take(all.len() as int) =~= all);
    entries
}

} // verus!
