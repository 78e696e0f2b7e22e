//! What a data tree holds, as a whole.

use crate::codec::document_in;
use crate::collected::{
    nothing, one_club, one_league, one_names, one_satellite, some_players, CollectedView,
};
use crate::error::ErrorView;
use crate::json::JsonView;
use crate::listing::{name_text, selected, EntryView, Keep};
use crate::questions::{Action, Child, Place, ReplyView, ROOT};
use crate::records::{history_check, parent_of, stamped_club};
use crate::satellites::SatelliteView;
use crate::walk::{ids, satellite_of, with_country, Table, WalkView};
use vstd::prelude::*;

verus! {

/// A data tree that does not change while it is read.
pub struct Tree {
    /// Which places are directories.
    pub is_dir: spec_fn(Place) -> bool,
    /// Which places are files.
    pub is_file: spec_fn(Place) -> bool,
    /// What the directories hold.
    pub entries: spec_fn(Place) -> Seq<EntryView>,
    /// The texts in the files.
    pub text: spec_fn(Place) -> Seq<char>,
    /// How the paths of the files are shown.
    pub path: spec_fn(Place) -> Seq<char>,
}

impl Tree {
    /// The document in a file, or the error that the file holds no JSON.
    pub open spec fn document(self, place: Place) -> Result<JsonView, ErrorView> {
        document_in((self.text)(place), (self.path)(place))
    }

    /// The true reply to an action, or the error that there is none.
    pub open spec fn reply(self, action: Action) -> Result<ReplyView, ErrorView> {
        match action {
            Action::IsDir(place) => Ok(ReplyView::Answer((self.is_dir)(place))),
            Action::IsFile(place) => Ok(ReplyView::Answer((self.is_file)(place))),
            Action::List(place) => Ok(ReplyView::Listing((self.entries)(place))),
            Action::Read(place) => match self.document(place) {
                Ok(value) => Ok(ReplyView::Document { path: (self.path)(place), value }),
                Err(e) => Err(e),
            },
            Action::Finished => Ok(ReplyView::Answer(false)),
        }
    }

    /// The walk after the true reply to what it asks: the text of the file that
    /// it wants to read, or the answer to any other question.
    pub open spec fn step(self, walk: WalkView) -> Result<WalkView, ErrorView> {
        match walk.action() {
            Action::Read(place) => walk.after_text((self.text)(place), (self.path)(place)),
            action => match self.reply(action) {
                Ok(reply) => walk.after(reply),
                Err(e) => Err(e),
            },
        }
    }
}

/// Records of a part of the tree, or the first error in it.
pub type Part = Result<CollectedView, ErrorView>;

/// Two parts, one after the other: the first error, or all records.
pub open spec fn both(first: Part, second: Part) -> Part {
    match first {
        Err(e) => Err(e),
        Ok(a) => match second {
            Err(e) => Err(e),
            Ok(b) => Ok(a.plus(b)),
        },
    }
}

/// The parts that the entries stand for, one after the other.
pub open spec fn in_turn(entries: Seq<EntryView>, part: spec_fn(EntryView) -> Part) -> Part
    decreases entries.len(),
{
    if entries.len() == 0 {
        Ok(nothing())
    } else {
        both(part(entries[0]), in_turn(entries.drop_first(), part))
    }
}

/// The players in files, each of which must have a well-formed history.
pub open spec fn players_in(tree: Tree, files: Seq<usize>) -> Result<Seq<JsonView>, ErrorView>
    decreases files.len(),
{
    if files.len() == 0 {
        Ok(Seq::empty())
    } else {
        let place = Place { base: files[0], child: Child::Itself };
        match tree.document(place) {
            Err(e) => Err(e),
            Ok(player) => match history_check(player, (tree.path)(place)) {
                Err(e) => Err(e),
                Ok(()) => match players_in(tree, files.drop_first()) {
                    Err(e) => Err(e),
                    Ok(rest) => Ok(seq![player] + rest),
                },
            },
        }
    }
}

/// The players in a directory: those in its JSON files, in the order of their
/// names; none where there is no such directory.
pub open spec fn players_at(tree: Tree, place: Place) -> Result<Seq<JsonView>, ErrorView> {
    if (tree.is_dir)(place) {
        players_in(tree, ids(selected((tree.entries)(place), Keep::Players)))
    } else {
        Ok(Seq::empty())
    }
}

/// The rows of a table.
pub open spec fn table_part(tree: Tree, table: Table) -> Part {
    match tree.document(table.place()) {
        Err(e) => Err(e),
        Ok(JsonView::Array(rows)) => Ok(table.rows(rows)),
        Ok(_) => Err(ErrorView::NotAnArray { path: (tree.path)(table.place()) }),
    }
}

/// The records of a club, whose own record with the country noted is `club` and
/// was read at `path`: that record, with the league on its main team, and its
/// players. A club that names a parent is a satellite instead, and takes its
/// players along.
pub open spec fn club_records(
    club: JsonView,
    players: Seq<JsonView>,
    league_id: u64,
    path: Seq<char>,
) -> CollectedView {
    match parent_of(club) {
        Some(parent) => one_satellite(
            SatelliteView { players, ..satellite_of(club, parent, league_id, path) },
        ),
        None => one_club(stamped_club(club.without_field("parent_club"@), league_id)).plus(
            some_players(players),
        ),
    }
}

/// A club: its record and its players.
pub open spec fn club_part(tree: Tree, base: usize, code: Seq<char>, league_id: u64) -> Part {
    let place = Place { base, child: Child::Club };
    match tree.document(place) {
        Err(e) => Err(e),
        Ok(record) => match players_at(tree, Place { base, child: Child::Players }) {
            Err(e) => Err(e),
            Ok(players) => Ok(
                club_records(with_country(record, code), players, league_id, (tree.path)(place)),
            ),
        },
    }
}

/// A directory of a league: a club where it holds a club record.
pub open spec fn club_dir_part(tree: Tree, base: usize, code: Seq<char>, league_id: u64) -> Part {
    if (tree.is_file)(Place { base, child: Child::Club }) {
        club_part(tree, base, code, league_id)
    } else {
        Ok(nothing())
    }
}

/// The clubs of a league, in the order of their directories.
pub open spec fn clubs_part(tree: Tree, base: usize, code: Seq<char>, league_id: u64) -> Part {
    in_turn(
        selected((tree.entries)(Place { base, child: Child::Itself }), Keep::Directories),
        |e: EntryView| club_dir_part(tree, e.id, code, league_id),
    )
}

/// A league, which must have an id: its record with the country noted, and its
/// clubs.
pub open spec fn league_part(tree: Tree, base: usize, code: Seq<char>) -> Part {
    let place = Place { base, child: Child::League };
    match tree.document(place) {
        Err(e) => Err(e),
        Ok(league) => match league.u64_at("id"@) {
            None => Err(ErrorView::LeagueId { path: (tree.path)(place) }),
            Some(league_id) => both(
                Ok(one_league(with_country(league, code))),
                clubs_part(tree, base, code, league_id),
            ),
        },
    }
}

/// A directory of a country: a league where it holds a league record.
pub open spec fn league_dir_part(tree: Tree, base: usize, code: Seq<char>) -> Part {
    if (tree.is_file)(Place { base, child: Child::League }) {
        league_part(tree, base, code)
    } else {
        Ok(nothing())
    }
}

/// The leagues of a country, in the order of their directories.
pub open spec fn leagues_part(tree: Tree, base: usize, code: Seq<char>) -> Part {
    in_turn(
        selected((tree.entries)(Place { base, child: Child::Itself }), Keep::Leagues),
        |e: EntryView| league_dir_part(tree, e.id, code),
    )
}

/// The names of a country, with the country noted.
pub open spec fn names_part(tree: Tree, base: usize, code: Seq<char>) -> Part {
    match tree.document(Place { base, child: Child::Names }) {
        Err(e) => Err(e),
        Ok(names) => Ok(one_names(with_country(names, code))),
    }
}

/// Players that belong to no satellite.
pub open spec fn squad_part(tree: Tree, place: Place) -> Part {
    match players_at(tree, place) {
        Err(e) => Err(e),
        Ok(players) => Ok(some_players(players)),
    }
}

/// A country, whose code is the name of its directory: its names if there are
/// any, its free agents, its leagues.
pub open spec fn country_part(tree: Tree, entry: EntryView) -> Part {
    match name_text(entry.name) {
        Some(code) => both(
            if (tree.is_file)(Place { base: entry.id, child: Child::Names }) {
                names_part(tree, entry.id, code)
            } else {
                Ok(nothing())
            },
            both(
                squad_part(tree, Place { base: entry.id, child: Child::FreeAgents }),
                leagues_part(tree, entry.id, code),
            ),
        ),
        None => Err(ErrorView::NonUtf8Name { path: entry.path }),
    }
}

/// The countries, in the order of their directories.
pub open spec fn countries_part(tree: Tree) -> Part {
    in_turn(
        selected((tree.entries)(Place { base: ROOT, child: Child::Itself }), Keep::Directories),
        |e: EntryView| country_part(tree, e),
    )
}

/// The root, which must be a directory.
pub open spec fn root_part(tree: Tree, path: Seq<char>) -> Part {
    if (tree.is_dir)(Place { base: ROOT, child: Child::Itself }) {
        Ok(nothing())
    } else {
        Err(ErrorView::DataDirMissing { path })
    }
}

/// The domestic cups, none where the table is not there.
pub open spec fn cups_part(tree: Tree) -> Part {
    if (tree.is_file)(Table::DomesticCups.place()) {
        table_part(tree, Table::DomesticCups)
    } else {
        Ok(nothing())
    }
}

/// All records of a tree whose root is shown as `path`, or the first error in it.
pub open spec fn whole_tree(tree: Tree, path: Seq<char>) -> Part {
    both(
        root_part(tree, path),
        both(
            table_part(tree, Table::Continents),
            both(
                table_part(tree, Table::Countries),
                both(
                    table_part(tree, Table::NationalCompetitions),
                    both(cups_part(tree), countries_part(tree)),
                ),
            ),
        ),
    )
}

} // verus!
