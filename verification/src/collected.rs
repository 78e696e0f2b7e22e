//! The records that a walk gathers.

use crate::json::{items_view, Json, JsonView};
use crate::satellites::{satellites_view, SatelliteSpec, SatelliteView};
use vstd::prelude::*;

verus! {

/// The records of a data tree, in the order in which they were read.
#[derive(Debug)]
pub struct Collected {
    pub continents: Vec<Json>,
    pub countries: Vec<Json>,
    pub national_competitions: Vec<Json>,
    pub domestic_cups: Vec<Json>,
    pub leagues: Vec<Json>,
    pub clubs: Vec<Json>,
    pub names: Vec<Json>,
    pub players: Vec<Json>,
    /// Clubs that are to be folded into their parents.
    pub satellites: Vec<SatelliteSpec>,
}

/// What a [`Collected`] holds.
#[verifier::ext_equal]
pub struct CollectedView {
    pub continents: Seq<JsonView>,
    pub countries: Seq<JsonView>,
    pub national_competitions: Seq<JsonView>,
    pub domestic_cups: Seq<JsonView>,
    pub leagues: Seq<JsonView>,
    pub clubs: Seq<JsonView>,
    pub names: Seq<JsonView>,
    pub players: Seq<JsonView>,
    pub satellites: Seq<SatelliteView>,
}

impl View for Collected {
    type V = CollectedView;

    open spec fn view(&self) -> CollectedView {
        CollectedView {
            continents: items_view(self.continents@),
            countries: items_view(self.countries@),
            national_competitions: items_view(self.national_competitions@),
            domestic_cups: items_view(self.domestic_cups@),
            leagues: items_view(self.leagues@),
            clubs: items_view(self.clubs@),
            names: items_view(self.names@),
            players: items_view(self.players@),
            satellites: satellites_view(self.satellites@),
        }
    }
}

/// No records at all.
pub open spec fn nothing() -> CollectedView {
    CollectedView {
        continents: Seq::empty(),
        countries: Seq::empty(),
        national_competitions: Seq::empty(),
        domestic_cups: Seq::empty(),
        leagues: Seq::empty(),
        clubs: Seq::empty(),
        names: Seq::empty(),
        players: Seq::empty(),
        satellites: Seq::empty(),
    }
}

impl CollectedView {
    /// The records of `self`, and behind them those of `more`.
    pub open spec fn plus(self, more: CollectedView) -> CollectedView {
        CollectedView {
            continents: self.continents + more.continents,
            countries: self.countries + more.countries,
            national_competitions: self.national_competitions + more.national_competitions,
            domestic_cups: self.domestic_cups + more.domestic_cups,
            leagues: self.leagues + more.leagues,
            clubs: self.clubs + more.clubs,
            names: self.names + more.names,
            players: self.players + more.players,
            satellites: self.satellites + more.satellites,
        }
    }
}

/// A league alone.
pub open spec fn one_league(league: JsonView) -> CollectedView {
    CollectedView { leagues: seq![league], ..nothing() }
}

/// A club alone.
pub open spec fn one_club(club: JsonView) -> CollectedView {
    CollectedView { clubs: seq![club], ..nothing() }
}

/// The names of a country alone.
pub open spec fn one_names(names: JsonView) -> CollectedView {
    CollectedView { names: seq![names], ..nothing() }
}

/// Players alone.
pub open spec fn some_players(players: Seq<JsonView>) -> CollectedView {
    CollectedView { players, ..nothing() }
}

/// A satellite alone.
pub open spec fn one_satellite(satellite: SatelliteView) -> CollectedView {
    CollectedView { satellites: seq![satellite], ..nothing() }
}

impl Collected {
    /// No records at all.
    pub fn new() -> (empty: Collected)
        ensures
            empty@ == nothing(),
    {
        let empty = Collected {
            continents: Vec::new(),
            countries: Vec::new(),
            national_competitions: Vec::new(),
            domestic_cups: Vec::new(),
            leagues: Vec::new(),
            clubs: Vec::new(),
            names: Vec::new(),
            players: Vec::new(),
            satellites: Vec::new(),
        };
        assert(empty@ =~= nothing());
        empty
    }
}

} // verus!
