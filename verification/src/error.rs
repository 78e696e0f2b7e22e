//! What can stop a compilation.

use crate::text::{append_decimal, decimal};
use vstd::prelude::*;
use vstd::string::StringExecFns;

verus! {

/// `serde_json::Error`, carried as the cause of a failure.
#[verifier::external_type_specification]
#[verifier::external_body]
pub struct ExJsonError(serde_json::Error);

/// `std::io::Error`, carried as the cause of a failure.
#[verifier::external_type_specification]
#[verifier::external_body]
pub struct ExIoError(std::io::Error);

/// What is wrong with an entry of a player's history.
#[derive(Clone, Copy, Debug, PartialEq, Eq, Structural)]
pub enum EntryFault {
    /// It is no object.
    NotAnObject,
    /// Its season, the field `s`, is no unsigned integer.
    Season,
    /// Its club, the field `c`, is no unsigned integer.
    Club,
}

/// Why a compilation stopped.
#[derive(Debug)]
pub enum CompileError {
    /// The root of the data tree is no directory.
    DataDirMissing { path: String },
    /// A country directory has no name, or one that is not UTF-8.
    NonUtf8Name { path: String },
    /// A file is no JSON.
    Parse { path: String, cause: serde_json::Error },
    /// A file that must hold an array holds something else.
    NotAnArray { path: String },
    /// A league has no unsigned integer as its id.
    LeagueId { path: String },
    /// A player's history is no array.
    HistoryNotAnArray { path: String },
    /// An entry of a player's history is malformed.
    HistoryEntry { path: String, index: usize, fault: EntryFault },
    /// A satellite names a parent club that does not exist.
    ParentMissing { path: String, parent_id: u64 },
    /// A satellite has no team of type `Main`.
    NoMainTeam { path: String },
    /// The parent of a satellite has no array of teams.
    NoParentTeams { parent_id: u64 },
    /// The team of a satellite has the id of another team of its parent.
    TeamIdTaken {
        path: String,
        team_id: u64,
        team_type: String,
        parent_id: u64,
        other_type: String,
    },
    /// The document could not be written as JSON.
    Serialize { cause: serde_json::Error },
    /// The document could not be compressed.
    GzipWrite { failure: std::io::Error },
    /// The compression of the document could not be finished.
    GzipFinish { failure: std::io::Error },
}

/// What a [`CompileError`] says.
pub enum ErrorView {
    DataDirMissing { path: Seq<char> },
    NonUtf8Name { path: Seq<char> },
    Parse { path: Seq<char>, cause: serde_json::Error },
    NotAnArray { path: Seq<char> },
    LeagueId { path: Seq<char> },
    HistoryNotAnArray { path: Seq<char> },
    HistoryEntry { path: Seq<char>, index: nat, fault: EntryFault },
    ParentMissing { path: Seq<char>, parent_id: u64 },
    NoMainTeam { path: Seq<char> },
    NoParentTeams { parent_id: u64 },
    TeamIdTaken {
        path: Seq<char>,
        team_id: u64,
        team_type: Seq<char>,
        parent_id: u64,
        other_type: Seq<char>,
    },
    Serialize { cause: serde_json::Error },
    GzipWrite { failure: std::io::Error },
    GzipFinish { failure: std::io::Error },
}

impl View for CompileError {
    type V = ErrorView;

    open spec fn view(&self) -> ErrorView {
        match *self {
            CompileError::DataDirMissing { path } => ErrorView::DataDirMissing { path: path@ },
            CompileError::NonUtf8Name { path } => ErrorView::NonUtf8Name { path: path@ },
            CompileError::Parse { path, cause } => ErrorView::Parse { path: path@, cause },
            CompileError::NotAnArray { path } => ErrorView::NotAnArray { path: path@ },
            CompileError::LeagueId { path } => ErrorView::LeagueId { path: path@ },
            CompileError::HistoryNotAnArray { path } => ErrorView::HistoryNotAnArray {
                path: path@,
            },
            CompileError::HistoryEntry { path, index, fault } => ErrorView::HistoryEntry {
                path: path@,
                index: index as nat,
                fault,
            },
            CompileError::ParentMissing { path, parent_id } => ErrorView::ParentMissing {
                path: path@,
                parent_id,
            },
            CompileError::NoMainTeam { path } => ErrorView::NoMainTeam { path: path@ },
            CompileError::NoParentTeams { parent_id } => ErrorView::NoParentTeams { parent_id },
            CompileError::TeamIdTaken { path, team_id, team_type, parent_id, other_type } =>
                ErrorView::TeamIdTaken {
                path: path@,
                team_id,
                team_type: team_type@,
                parent_id,
                other_type: other_type@,
            },
            CompileError::Serialize { cause } => ErrorView::Serialize { cause },
            CompileError::GzipWrite { failure } => ErrorView::GzipWrite { failure },
            CompileError::GzipFinish { failure } => ErrorView::GzipFinish { failure },
        }
    }
}

/// The view of the outcome of a check that yields nothing.
pub open spec fn check_view(outcome: Result<(), CompileError>) -> Result<(), ErrorView> {
    match outcome {
        Ok(()) => Ok(()),
        Err(e) => Err(e@),
    }
}

impl ErrorView {
    /// The message, without the cause.
    pub open spec fn message(self) -> Seq<char> {
        match self {
            ErrorView::DataDirMissing { path } => "data directory not found: "@ + path,
            ErrorView::NonUtf8Name { path } => "non-utf8 path component: "@ + path,
            ErrorView::Parse { path, cause } => "parse "@ + path,
            ErrorView::NotAnArray { path } => path + " must contain a JSON array"@,
            ErrorView::LeagueId { path } => "missing/invalid id in "@ + path,
            ErrorView::HistoryNotAnArray { path } => "history in "@ + path + " must be an array"@,
            ErrorView::HistoryEntry { path, index, fault } => "history["@ + decimal(index) + (
            match fault {
                EntryFault::NotAnObject => "] in "@,
                EntryFault::Season => "].s (season) in "@,
                EntryFault::Club => "].c (club_id) in "@,
            }) + path + (match fault {
                EntryFault::NotAnObject => " must be an object"@,
                _ => " must be an unsigned integer"@,
            }),
            ErrorView::ParentMissing { path, parent_id } => path + " declares parent_club id "@
                + decimal(parent_id as nat) + " but no such club was found"@,
            ErrorView::NoMainTeam { path } => path
                + " has no Main team — satellite directories must define one"@,
            ErrorView::NoParentTeams { parent_id } => "parent club "@ + decimal(parent_id as nat)
                + " has no teams[] to attach satellite to"@,
            ErrorView::TeamIdTaken { path, team_id, team_type, parent_id, other_type } => path
                + " would attach team id "@ + decimal(team_id as nat) + " as "@ + team_type
                + " on parent "@ + decimal(parent_id as nat) + ", but that id already exists as "@
                + other_type
                + ". Either drop the predeclared slot from the parent's club.json or set parent_club.team_type to match it."@,
            ErrorView::Serialize { cause } => "serialize output JSON"@,
            ErrorView::GzipWrite { failure } => "gzip write"@,
            ErrorView::GzipFinish { failure } => "gzip finish"@,
        }
    }
}

impl CompileError {
    /// The message, without the cause.
    pub fn message(&self) -> (text: String)
        ensures
            text@ == self@.message(),
    {
        let mut text = String::new();
        match self {
            CompileError::DataDirMissing { path } => {
                text.append("data directory not found: ");
                text.append(path.as_str());
            },
            CompileError::NonUtf8Name { path } => {
                text.append("non-utf8 path component: ");
                text.append(path.as_str());
            },
            CompileError::Parse { path, cause } => {
                text.append("parse ");
                text.append(path.as_str());
            },
            CompileError::NotAnArray { path } => {
                text.append(path.as_str());
                text.append(" must contain a JSON array");
            },
            CompileError::LeagueId { path } => {
                text.append("missing/invalid id in ");
                text.append(path.as_str());
            },
            CompileError::HistoryNotAnArray { path } => {
                text.append("history in ");
                text.append(path.as_str());
                text.append(" must be an array");
            },
            CompileError::HistoryEntry { path, index, fault } => {
                text.append("history[");
                append_decimal(&mut text, *index as u64);
                match fault {
                    EntryFault::NotAnObject => {
                        text.append("] in ");
                        text.append(path.as_str());
                        text.append(" must be an object");
                    },
                    EntryFault::Season => {
                        text.append("].s (season) in ");
                        text.append(path.as_str());
                        text.append(" must be an unsigned integer");
                    },
                    EntryFault::Club => {
                        text.append("].c (club_id) in ");
                        text.append(path.as_str());
                        text.append(" must be an unsigned integer");
                    },
                }
            },
            CompileError::ParentMissing { path, parent_id } => {
                text.append(path.as_str());
                text.append(" declares parent_club id ");
                append_decimal(&mut text, *parent_id);
                text.append(" but no such club was found");
            },
            CompileError::NoMainTeam { path } => {
                text.append(path.as_str());
                text.append(" has no Main team — satellite directories must define one");
            },
            CompileError::NoParentTeams { parent_id } => {
                text.append("parent club ");
                append_decimal(&mut text, *parent_id);
                text.append(" has no teams[] to attach satellite to");
            },
            CompileError::TeamIdTaken { path, team_id, team_type, parent_id, other_type } => {
                text.append(path.as_str());
                text.append(" would attach team id ");
                append_decimal(&mut text, *team_id);
                text.append(" as ");
                text.append(team_type.as_str());
                text.append(" on parent ");
                append_decimal(&mut text, *parent_id);
                text.append(", but that id already exists as ");
                text.append(other_type.as_str());
                text.append(
                    ". Either drop the predeclared slot from the parent's club.json or set parent_club.team_type to match it.",
                );
            },
            CompileError::Serialize { cause } => {
                text.append("serialize output JSON");
            },
            CompileError::GzipWrite { failure } => {
                text.append("gzip write");
            },
            CompileError::GzipFinish { failure } => {
                text.append("gzip finish");
            },
        }
        assert(text@ =~= self@.message());
        text
    }
}

} // verus!
