//! What reaches the reader: the database, its summary, and the messages.

use crate::collected::CollectedView;
use crate::document::{
    counts_of, document_gives_back_records, document_of, with_satellites_folded, Counts,
    OUTPUT_VERSION,
};
use crate::error::{EntryFault, ErrorView};
use crate::json::JsonView;
use crate::satellites::fold_satellites;
use crate::text::decimal;
use vstd::prelude::*;

verus! {

/// Folding the satellites changes the clubs and the players only, leaves no
/// satellite, and fails exactly where a satellite cannot be folded.
pub proof fn other_records_go_in_as_gathered(records: CollectedView)
    ensures
        ({
            let folded = fold_satellites(records.clubs, records.players, records.satellites);
            match with_satellites_folded(records) {
                Ok(all) => {
                    &&& folded.outcome is Ok
                    &&& all.continents == records.continents
                    &&& all.countries == records.countries
                    &&& all.national_competitions == records.national_competitions
                    &&& all.domestic_cups == records.domestic_cups
                    &&& all.leagues == records.leagues
                    &&& all.names == records.names
                    &&& all.clubs == folded.clubs
                    &&& all.players == folded.players
                    &&& all.satellites.len() == 0
                },
                Err(e) => folded.outcome == Err::<(), ErrorView>(e),
            }
        }),
{
}

/// The array `key` of the document has `count` items.
pub open spec fn counted(document: JsonView, key: Seq<char>, count: usize) -> bool {
    document matches JsonView::Object(fields) && fields.contains_key(key) && (fields[key] matches
        JsonView::Array(items) && items.len() == count)
}

/// The counts are the lengths of the arrays in the document, each under its
/// name.
pub proof fn counts_are_those_of_the_document(records: CollectedView, counts: Counts)
    requires
        counts_of(counts, records),
    ensures
        counted(document_of(records), "continents"@, counts.continents),
        counted(document_of(records), "countries"@, counts.countries),
        counted(document_of(records), "national_competitions"@, counts.national_competitions),
        counted(document_of(records), "domestic_cups"@, counts.domestic_cups),
        counted(document_of(records), "leagues"@, counts.leagues),
        counted(document_of(records), "clubs"@, counts.clubs),
        counted(document_of(records), "names"@, counts.names),
        counted(document_of(records), "players"@, counts.players),
{
    document_gives_back_records(records);
}

/// `part` stands in `text` at `at`.
pub open spec fn stands_at(text: Seq<char>, part: Seq<char>, at: int) -> bool {
    0 <= at && at + part.len() <= text.len() && text.subrange(at, at + part.len()) == part
}

/// `part` stands somewhere in `text`.
pub open spec fn mentions(text: Seq<char>, part: Seq<char>) -> bool {
    exists|at: int| #[trigger] stands_at(text, part, at)
}

/// What comes last is mentioned.
proof fn lemma_last(text: Seq<char>, part: Seq<char>)
    ensures
        mentions(text + part, part),
{
    let all = text + part;
    assert(all.subrange(text.len() as int, (text.len() + part.len()) as int) =~= part);
    assert(stands_at(all, part, text.len() as int));
}

/// What is mentioned stays so when more text follows.
proof fn lemma_more(text: Seq<char>, part: Seq<char>, more: Seq<char>)
    requires
        mentions(text, part),
    ensures
        mentions(text + more, part),
{
    let at = choose|at: int| #[trigger] stands_at(text, part, at);
    let all = text + more;
    assert(all.subrange(at, at + part.len()) =~= text.subrange(at, at + part.len()));
    assert(stands_at(all, part, at));
}

/// What comes first is mentioned.
proof fn lemma_start(part: Seq<char>, more: Seq<char>)
    ensures
        mentions(part + more, part),
{
    assert((part + more).subrange(0, part.len() as int) =~= part);
    assert(stands_at(part + more, part, 0));
}

/// A number between two pieces of text that come last is mentioned with them.
proof fn lemma_between(text: Seq<char>, before: Seq<char>, number: Seq<char>, after: Seq<char>)
    ensures
        mentions(text + before + number + after, before + number + after),
{
    assert(text + before + number + after =~= text + (before + number + after));
    lemma_last(text, before + number + after);
}

/// The summary says how many records of each kind there are, each number between
/// the words that tell which kind it is of.
pub proof fn summary_tells_every_count(counts: Counts)
    ensures
        ({
            let text = counts.in_words();
            &&& mentions(
                text,
                "v"@ + OUTPUT_VERSION@ + " — "@ + decimal(counts.continents as nat)
                    + " continents, "@,
            )
            &&& mentions(
                text,
                " continents, "@ + decimal(counts.countries as nat) + " countries, "@,
            )
            &&& mentions(
                text,
                " countries, "@ + decimal(counts.national_competitions as nat)
                    + " national_competitions, "@,
            )
            &&& mentions(
                text,
                " national_competitions, "@ + decimal(counts.domestic_cups as nat)
                    + " domestic_cups, "@,
            )
            &&& mentions(
                text,
                " domestic_cups, "@ + decimal(counts.leagues as nat) + " leagues, "@,
            )
            &&& mentions(text, " leagues, "@ + decimal(counts.clubs as nat) + " clubs, "@)
            &&& mentions(text, " clubs, "@ + decimal(counts.names as nat) + " names, "@)
            &&& mentions(text, " names, "@ + decimal(counts.players as nat) + " players"@)
        }),
{
    let c = decimal(counts.continents as nat);
    let n = decimal(counts.countries as nat);
    let m = decimal(counts.national_competitions as nat);
    let d = decimal(counts.domestic_cups as nat);
    let l = decimal(counts.leagues as nat);
    let k = decimal(counts.clubs as nat);
    let a = decimal(counts.names as nat);
    let p = decimal(counts.players as nat);
    let t0 = "v"@ + OUTPUT_VERSION@ + " — "@ + c;
    let t1 = t0 + " continents, "@ + n;
    let t2 = t1 + " countries, "@ + m;
    let t3 = t2 + " national_competitions, "@ + d;
    let t4 = t3 + " domestic_cups, "@ + l;
    let t5 = t4 + " leagues, "@ + k;
    let t6 = t5 + " clubs, "@ + a;
    let t7 = t6 + " names, "@ + p;
    let text = t7 + " players"@;
    assert(text == counts.in_words());
    let k0 = "v"@ + OUTPUT_VERSION@ + " — "@ + c + " continents, "@;
    let k1 = " continents, "@ + n + " countries, "@;
    let k2 = " countries, "@ + m + " national_competitions, "@;
    let k3 = " national_competitions, "@ + d + " domestic_cups, "@;
    let k4 = " domestic_cups, "@ + l + " leagues, "@;
    let k5 = " leagues, "@ + k + " clubs, "@;
    let k6 = " clubs, "@ + a + " names, "@;
    let k7 = " names, "@ + p + " players"@;
    let rest7 = p + " players"@;
    let rest6 = a + " names, "@ + rest7;
    let rest5 = k + " clubs, "@ + rest6;
    let rest4 = l + " leagues, "@ + rest5;
    let rest3 = d + " domestic_cups, "@ + rest4;
    let rest2 = m + " national_competitions, "@ + rest3;
    let rest1 = n + " countries, "@ + rest2;
    lemma_start(k0, rest1);
    assert(text =~= k0 + rest1);
    lemma_between(t0, " continents, "@, n, " countries, "@);
    lemma_more(t0 + " continents, "@ + n + " countries, "@, k1, rest2);
    assert(text =~= t0 + " continents, "@ + n + " countries, "@ + rest2);
    lemma_between(t1, " countries, "@, m, " national_competitions, "@);
    lemma_more(t1 + " countries, "@ + m + " national_competitions, "@, k2, rest3);
    assert(text =~= t1 + " countries, "@ + m + " national_competitions, "@ + rest3);
    lemma_between(t2, " national_competitions, "@, d, " domestic_cups, "@);
    lemma_more(t2 + " national_competitions, "@ + d + " domestic_cups, "@, k3, rest4);
    assert(text =~= t2 + " national_competitions, "@ + d + " domestic_cups, "@ + rest4);
    lemma_between(t3, " domestic_cups, "@, l, " leagues, "@);
    lemma_more(t3 + " domestic_cups, "@ + l + " leagues, "@, k4, rest5);
    assert(text =~= t3 + " domestic_cups, "@ + l + " leagues, "@ + rest5);
    lemma_between(t4, " leagues, "@, k, " clubs, "@);
    lemma_more(t4 + " leagues, "@ + k + " clubs, "@, k5, rest6);
    assert(text =~= t4 + " leagues, "@ + k + " clubs, "@ + rest6);
    lemma_between(t5, " clubs, "@, a, " names, "@);
    lemma_more(t5 + " clubs, "@ + a + " names, "@, k6, rest7);
    assert(text =~= t5 + " clubs, "@ + a + " names, "@ + rest7);
    lemma_between(t6, " names, "@, p, " players"@);
}

/// The file or directory that an error is about.
pub open spec fn about(error: ErrorView) -> Option<Seq<char>> {
    match error {
        ErrorView::DataDirMissing { path } => Some(path),
        ErrorView::NonUtf8Name { path } => Some(path),
        ErrorView::Parse { path, cause } => Some(path),
        ErrorView::NotAnArray { path } => Some(path),
        ErrorView::LeagueId { path } => Some(path),
        ErrorView::HistoryNotAnArray { path } => Some(path),
        ErrorView::HistoryEntry { path, index, fault } => Some(path),
        ErrorView::ParentMissing { path, parent_id } => Some(path),
        ErrorView::NoMainTeam { path } => Some(path),
        ErrorView::TeamIdTaken { path, team_id, team_type, parent_id, other_type } => Some(path),
        _ => None,
    }
}

/// A message shows the path of what it is about, and the position, the ids and
/// the types that it speaks of.
pub proof fn message_shows_what_it_is_about(error: ErrorView)
    ensures
        about(error) matches Some(path) ==> mentions(error.message(), path),
        error matches ErrorView::HistoryEntry { path, index, fault } ==> mentions(
            error.message(),
            "history["@ + decimal(index),
        ),
        error matches ErrorView::ParentMissing { path, parent_id } ==> mentions(
            error.message(),
            decimal(parent_id as nat),
        ),
        error matches ErrorView::NoParentTeams { parent_id } ==> mentions(
            error.message(),
            decimal(parent_id as nat),
        ),
{
    match error {
        ErrorView::DataDirMissing { path } => {
            lemma_last("data directory not found: "@, path);
        },
        ErrorView::NonUtf8Name { path } => {
            lemma_last("non-utf8 path component: "@, path);
        },
        ErrorView::Parse { path, cause } => {
            lemma_last("parse "@, path);
        },
        ErrorView::NotAnArray { path } => {
            lemma_start(path, " must contain a JSON array"@);
        },
        ErrorView::LeagueId { path } => {
            lemma_last("missing/invalid id in "@, path);
        },
        ErrorView::HistoryNotAnArray { path } => {
            lemma_last("history in "@, path);
            lemma_more("history in "@ + path, path, " must be an array"@);
        },
        ErrorView::HistoryEntry { path, index, fault } => {
            let text = error.message();
            let start = "history["@ + decimal(index);
            let (middle, end): (Seq<char>, Seq<char>) = match fault {
                EntryFault::NotAnObject => ("] in "@, " must be an object"@),
                EntryFault::Season => (
                    "].s (season) in "@,
                    " must be an unsigned integer"@,
                ),
                EntryFault::Club => (
                    "].c (club_id) in "@,
                    " must be an unsigned integer"@,
                ),
            };
            assert(text == start + middle + path + end);
            lemma_last(start + middle, path);
            lemma_more(start + middle + path, path, end);
            lemma_start(start, middle + path + end);
            assert(text =~= start + (middle + path + end));
        },
        ErrorView::ParentMissing { path, parent_id } => {
            let text = path + " declares parent_club id "@;
            let number = decimal(parent_id as nat);
            let end = " but no such club was found"@;
            lemma_start(path, " declares parent_club id "@ + number + end);
            assert(error.message() =~= path + (" declares parent_club id "@ + number + end));
            lemma_last(text, number);
            lemma_more(text + number, number, end);
        },
        ErrorView::NoMainTeam { path } => {
            lemma_start(path, " has no Main team — satellite directories must define one"@);
        },
        ErrorView::NoParentTeams { parent_id } => {
            let number = decimal(parent_id as nat);
            lemma_last("parent club "@, number);
            lemma_more(
                "parent club "@ + number,
                number,
                " has no teams[] to attach satellite to"@,
            );
        },
        ErrorView::TeamIdTaken { path, team_id, team_type, parent_id, other_type } => {
            let rest = " would attach team id "@ + decimal(team_id as nat) + " as "@ + team_type
                + " on parent "@ + decimal(parent_id as nat) + ", but that id already exists as "@
                + other_type
                + ". Either drop the predeclared slot from the parent's club.json or set parent_club.team_type to match it."@;
            lemma_start(path, rest);
            assert(error.message() =~= path + rest);
        },
        _ => {},
    }
}

} // verus!
