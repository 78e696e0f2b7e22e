//! What a walk asks of the data tree, and what it is told.

use crate::json::{Json, JsonView};
use crate::listing::{entries_view, Entry, EntryView};
use vstd::prelude::*;

verus! {

/// The number of the root of the data tree.
pub const ROOT: usize = 0;

/// A place under a directory, by its fixed name; or the directory itself.
#[derive(Clone, Copy, Debug, PartialEq, Eq, Structural)]
pub enum Child {
    Itself,
    Continents,
    Countries,
    NationalCompetitions,
    DomesticCups,
    Names,
    FreeAgents,
    League,
    Club,
    Players,
}

impl Child {
    /// The fixed name.
    pub open spec fn fixed_name(self) -> Option<Seq<char>> {
        match self {
            Child::Itself => None,
            Child::Continents => Some("continents.json"@),
            Child::Countries => Some("countries.json"@),
            Child::NationalCompetitions => Some("national_competitions.json"@),
            Child::DomesticCups => Some("domestic_cups.json"@),
            Child::Names => Some("names.json"@),
            Child::FreeAgents => Some("free_agents"@),
            Child::League => Some("league.json"@),
            Child::Club => Some("club.json"@),
            Child::Players => Some("players"@),
        }
    }

    /// The fixed name.
    pub fn name(self) -> (name: Option<&'static str>)
        ensures
            match name {
                Some(text) => self.fixed_name() == Some(text@),
                None => self.fixed_name() is None,
            },
    {
        match self {
            Child::Itself => None,
            Child::Continents => Some("continents.json"),
            Child::Countries => Some("countries.json"),
            Child::NationalCompetitions => Some("national_competitions.json"),
            Child::DomesticCups => Some("domestic_cups.json"),
            Child::Names => Some("names.json"),
            Child::FreeAgents => Some("free_agents"),
            Child::League => Some("league.json"),
            Child::Club => Some("club.json"),
            Child::Players => Some("players"),
        }
    }
}

/// A place in the data tree.
#[derive(Clone, Copy, Debug, PartialEq, Eq, Structural)]
pub struct Place {
    /// The number of a directory: [`ROOT`], or that of a listed [`Entry`].
    pub base: usize,
    /// What is meant under it.
    pub child: Child,
}

/// What a walk wants to know next.
#[derive(Clone, Copy, Debug, PartialEq, Eq, Structural)]
pub enum Action {
    /// Whether the place is a directory.
    IsDir(Place),
    /// Whether the place is a file.
    IsFile(Place),
    /// What the directory holds.
    List(Place),
    /// What document the file holds.
    Read(Place),
    /// Nothing more.
    Finished,
}

/// An answer to an [`Action`].
#[derive(Debug)]
pub enum Reply {
    /// Whether the place is what was asked for.
    Answer(bool),
    /// The entries of the directory, in any order.
    Listing(Vec<Entry>),
    /// The document in the file, and the path of the file, for messages.
    Document { path: String, value: Json },
}

/// What a [`Reply`] says.
pub enum ReplyView {
    Answer(bool),
    Listing(Seq<EntryView>),
    Document { path: Seq<char>, value: JsonView },
}

impl View for Reply {
    type V = ReplyView;

    open spec fn view(&self) -> ReplyView {
        match *self {
            Reply::Answer(yes) => ReplyView::Answer(yes),
            Reply::Listing(entries) => ReplyView::Listing(entries_view(entries@)),
            Reply::Document { path, value } => ReplyView::Document { path: path@, value: value@ },
        }
    }
}

/// The reply is of the kind that the action asks for.
pub open spec fn fits(action: Action, reply: ReplyView) -> bool {
    match action {
        Action::IsDir(_) => reply is Answer,
        Action::IsFile(_) => reply is Answer,
        Action::List(_) => reply is Listing,
        Action::Read(_) => reply is Document,
        Action::Finished => false,
    }
}

} // verus!
