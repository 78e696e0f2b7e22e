//! The database document.

use crate::collected::{Collected, CollectedView};
use crate::error::{CompileError, ErrorView};
use crate::json::{Field, Json, JsonView};
use crate::refs::{all_refs, unknown_refs};
use crate::satellites::{apply_satellites, fold_satellites};
use crate::text::{append_decimal, decimal};
use vstd::prelude::*;
use vstd::string::StringExecFns;

verus! {

/// The version that the document carries.
pub const OUTPUT_VERSION: &'static str = "0.01";

/// How many records of each kind the document holds.
#[derive(Clone, Copy, Debug, PartialEq, Eq, Structural)]
pub struct Counts {
    pub continents: usize,
    pub countries: usize,
    pub national_competitions: usize,
    pub domestic_cups: usize,
    pub leagues: usize,
    pub clubs: usize,
    pub names: usize,
    pub players: usize,
}

/// The counts are those of the records.
pub open spec fn counts_of(counts: Counts, records: CollectedView) -> bool {
    &&& counts.continents == records.continents.len()
    &&& counts.countries == records.countries.len()
    &&& counts.national_competitions == records.national_competitions.len()
    &&& counts.domestic_cups == records.domestic_cups.len()
    &&& counts.leagues == records.leagues.len()
    &&& counts.clubs == records.clubs.len()
    &&& counts.names == records.names.len()
    &&& counts.players == records.players.len()
}

impl Counts {
    /// The version and the counts in words.
    pub open spec fn in_words(self) -> Seq<char> {
        "v"@ + OUTPUT_VERSION@ + " — "@ + decimal(self.continents as nat) + " continents, "@
            + decimal(self.countries as nat) + " countries, "@ + decimal(
            self.national_competitions as nat,
        ) + " national_competitions, "@ + decimal(self.domestic_cups as nat) + " domestic_cups, "@
            + decimal(self.leagues as nat) + " leagues, "@ + decimal(self.clubs as nat)
            + " clubs, "@ + decimal(self.names as nat) + " names, "@ + decimal(self.players as nat)
            + " players"@
    }

    /// The version and the counts in words.
    pub fn summary(&self) -> (text: String)
        ensures
            text@ == self.in_words(),
    {
        let mut text = "v".to_owned();
        text.append(OUTPUT_VERSION);
        text.append(" — ");
        append_decimal(&mut text, self.continents as u64);
        text.append(" continents, ");
        append_decimal(&mut text, self.countries as u64);
        text.append(" countries, ");
        append_decimal(&mut text, self.national_competitions as u64);
        text.append(" national_competitions, ");
        append_decimal(&mut text, self.domestic_cups as u64);
        text.append(" domestic_cups, ");
        append_decimal(&mut text, self.leagues as u64);
        text.append(" leagues, ");
        append_decimal(&mut text, self.clubs as u64);
        text.append(" clubs, ");
        append_decimal(&mut text, self.names as u64);
        text.append(" names, ");
        append_decimal(&mut text, self.players as u64);
        text.append(" players");
        text
    }
}

/// The document that holds the records.
pub open spec fn document_of(records: CollectedView) -> JsonView {
    JsonView::Object(Map::empty()).with_field(
        "version"@,
        JsonView::String(OUTPUT_VERSION@),
    ).with_field("continents"@, JsonView::Array(records.continents)).with_field(
        "countries"@,
        JsonView::Array(records.countries),
    ).with_field(
        "national_competitions"@,
        JsonView::Array(records.national_competitions),
    ).with_field("domestic_cups"@, JsonView::Array(records.domestic_cups)).with_field(
        "leagues"@,
        JsonView::Array(records.leagues),
    ).with_field("clubs"@, JsonView::Array(records.clubs)).with_field(
        "names"@,
        JsonView::Array(records.names),
    ).with_field("players"@, JsonView::Array(records.players))
}

/// The records with their satellites folded into the parent clubs.
pub open spec fn with_satellites_folded(records: CollectedView) -> Result<
    CollectedView,
    ErrorView,
> {
    let folded = fold_satellites(records.clubs, records.players, records.satellites);
    match folded.outcome {
        Ok(()) => Ok(
            CollectedView {
                clubs: folded.clubs,
                players: folded.players,
                satellites: Seq::empty(),
                ..records
            },
        ),
        Err(e) => Err(e),
    }
}

/// A compiled database.
#[derive(Debug)]
pub struct Database {
    /// What goes into the file.
    pub document: Json,
    /// How much that is.
    pub counts: Counts,
    /// Players and the unknown clubs that they refer to.
    pub unknown_refs: Vec<(u64, u64)>,
}

/// Makes the database of the records of a tree.
pub fn build(collected: Collected) -> (outcome: Result<Database, CompileError>)
    ensures
        match with_satellites_folded(collected@) {
            Ok(records) => outcome matches Ok(database) && database.document@ == document_of(
                records,
            ) && counts_of(database.counts, records) && database.unknown_refs@ == all_refs(
                records.players,
                records.clubs,
            ),
            Err(e) => outcome matches Err(error) && error@ == e,
        },
{
    let Collected {
        continents,
        countries,
        national_competitions,
        domestic_cups,
        leagues,
        clubs,
        names,
        players,
        satellites,
    } = collected;
    let mut clubs = clubs;
    let mut players = players;
    match apply_satellites(&mut clubs, &mut players, satellites) {
        Ok(()) => {},
        Err(e) => {
            return Err(e);
        },
    }
    let unknown_refs: Vec<(u64, u64)> = unknown_refs(&players, &clubs);
    let counts = Counts {
        continents: continents.len(),
        countries: countries.len(),
        national_competitions: national_competitions.len(),
        domestic_cups: domestic_cups.len(),
        leagues: leagues.len(),
        clubs: clubs.len(),
        names: names.len(),
        players: players.len(),
    };
    let fields: Vec<Field> = Vec::new();
    let mut document = Json::Object(fields);
    assert(document@ == JsonView::Object(Map::empty()));
    document.set_field("version", Json::text(OUTPUT_VERSION));
    document.set_field("continents", Json::Array(continents));
    document.set_field("countries", Json::Array(countries));
    document.set_field("national_competitions", Json::Array(national_competitions));
    document.set_field("domestic_cups", Json::Array(domestic_cups));
    document.set_field("leagues", Json::Array(leagues));
    document.set_field("clubs", Json::Array(clubs));
    document.set_field("names", Json::Array(names));
    document.set_field("players", Json::Array(players));
    Ok(Database { document, counts, unknown_refs })
}

/// A reader of the document finds the version and every kind of record under
/// its name, and nothing else.
pub proof fn document_gives_back_records(records: CollectedView)
    ensures
        document_of(records).str_at("version"@) == Some(OUTPUT_VERSION@),
        document_of(records).array_at("continents"@) == Some(records.continents),
        document_of(records).array_at("countries"@) == Some(records.countries),
        document_of(records).array_at("national_competitions"@) == Some(
            records.national_competitions,
        ),
        document_of(records).array_at("domestic_cups"@) == Some(records.domestic_cups),
        document_of(records).array_at("leagues"@) == Some(records.leagues),
        document_of(records).array_at("clubs"@) == Some(records.clubs),
        document_of(records).array_at("names"@) == Some(records.names),
        document_of(records).array_at("players"@) == Some(records.players),
        forall|key: Seq<char>| #[trigger]
            document_of(records).get(key) is Some ==> key == "version"@ || key == "continents"@
                || key == "countries"@ || key == "national_competitions"@ || key
                == "domestic_cups"@ || key == "leagues"@ || key == "clubs"@ || key == "names"@
                || key == "players"@,
{
    reveal_strlit("version");
    reveal_strlit("continents");
    reveal_strlit("countries");
    reveal_strlit("national_competitions");
    reveal_strlit("domestic_cups");
    reveal_strlit("leagues");
    reveal_strlit("clubs");
    reveal_strlit("names");
    reveal_strlit("players");
    assert("version"@.len() == 7);
    assert("continents"@.len() == 10);
    assert("countries"@.len() == 9);
    assert("national_competitions"@.len() == 21);
    assert("domestic_cups"@.len() == 13);
    assert("leagues"@.len() == 7);
    assert("clubs"@.len() == 5);
    assert("names"@.len() == 5);
    assert("players"@.len() == 7);
    assert("version"@[0] == 'v');
    assert("leagues"@[0] == 'l');
    assert("players"@[0] == 'p');
    assert("clubs"@[0] == 'c');
    assert("names"@[0] == 'n');
}

} // verus!
