//! The walk through the data tree.
//!
//! A [`Walk`] decides what to look at and what to make of it; it does not look
//! itself. It asks one [`Action`] at a time, and [`Walk::advance`] takes the
//! [`Reply`], or [`Walk::advance_with_text`] the text of a file.

use crate::codec::{document_in, read_json};
use crate::collected::{
    nothing, one_club, one_league, one_names, one_satellite, some_players, Collected,
    CollectedView,
};
use crate::error::{CompileError, ErrorView};
use crate::json::{items_view, Json, JsonView};
use crate::listing::{
    dir_name, entries_view, name_text, select, selected, Entry, EntryView, Keep,
};
use crate::questions::{fits, Action, Child, Place, Reply, ReplyView, ROOT};
use crate::records::{
    history_check, insert_country_code, parent_of, read_top_level_array,
    stamp_main_team_league_id, stamped_club, take_parent_club, validate_player_history,
};
use crate::satellites::{SatelliteSpec, SatelliteView};
use vstd::prelude::*;

verus! {

/// A table at the top of the tree.
#[derive(Clone, Copy, Debug, PartialEq, Eq, Structural)]
pub enum Table {
    Continents,
    Countries,
    NationalCompetitions,
    DomesticCups,
}

impl Table {
    /// Where the table lies.
    pub open spec fn place(self) -> Place {
        Place {
            base: ROOT,
            child: match self {
                Table::Continents => Child::Continents,
                Table::Countries => Child::Countries,
                Table::NationalCompetitions => Child::NationalCompetitions,
                Table::DomesticCups => Child::DomesticCups,
            },
        }
    }

    /// The rows of the table alone.
    pub open spec fn rows(self, rows: Seq<JsonView>) -> CollectedView {
        match self {
            Table::Continents => CollectedView { continents: rows, ..nothing() },
            Table::Countries => CollectedView { countries: rows, ..nothing() },
            Table::NationalCompetitions => CollectedView {
                national_competitions: rows,
                ..nothing()
            },
            Table::DomesticCups => CollectedView { domestic_cups: rows, ..nothing() },
        }
    }
}

/// Whose players are being read.
#[derive(Debug)]
pub enum Owner {
    /// Nobody that must be kept track of: a club, or no club at all.
    Squad,
    /// A satellite, which takes its players along.
    Satellite(SatelliteSpec),
}

/// What an [`Owner`] says.
pub enum OwnerView {
    Squad,
    Satellite(SatelliteView),
}

impl View for Owner {
    type V = OwnerView;

    open spec fn view(&self) -> OwnerView {
        match *self {
            Owner::Squad => OwnerView::Squad,
            Owner::Satellite(satellite) => OwnerView::Satellite(satellite@),
        }
    }
}

/// What is left to do, each item with one question.
#[derive(Debug)]
pub enum Task {
    /// See that there is a tree at all.
    Root { path: String },
    /// Read a table.
    Table(Table),
    /// Read the domestic cups if they are there.
    Cups,
    /// Go through the countries.
    Countries,
    /// Go through a country.
    Country(Entry),
    /// Read the names of a country.
    Names { base: usize, code: String },
    /// Read the players in a directory if it is there.
    FindPlayers { place: Place, owner: Owner },
    /// Read the players in a directory.
    ListPlayers { place: Place, owner: Owner },
    /// Read the player `next`, then those of `rest`, the last of them first.
    ReadPlayers { next: usize, rest: Vec<usize>, owner: Owner },
    /// Go through the leagues of a country.
    Leagues { base: usize, code: String },
    /// Go through a directory if it is a league.
    FindLeague { base: usize, code: String },
    /// Go through a league.
    League { base: usize, code: String },
    /// Go through the clubs of a league.
    Clubs { base: usize, code: String, league_id: u64 },
    /// Read a directory if it is a club.
    FindClub { base: usize, code: String, league_id: u64 },
    /// Read a club.
    Club { base: usize, code: String, league_id: u64 },
}

/// What a [`Task`] says.
pub enum TaskView {
    Root { path: Seq<char> },
    Table(Table),
    Cups,
    Countries,
    Country(EntryView),
    Names { base: usize, code: Seq<char> },
    FindPlayers { place: Place, owner: OwnerView },
    ListPlayers { place: Place, owner: OwnerView },
    ReadPlayers { files: Seq<usize>, owner: OwnerView },
    Leagues { base: usize, code: Seq<char> },
    FindLeague { base: usize, code: Seq<char> },
    League { base: usize, code: Seq<char> },
    Clubs { base: usize, code: Seq<char>, league_id: u64 },
    FindClub { base: usize, code: Seq<char>, league_id: u64 },
    Club { base: usize, code: Seq<char>, league_id: u64 },
}

impl View for Task {
    type V = TaskView;

    open spec fn view(&self) -> TaskView {
        match *self {
            Task::Root { path } => TaskView::Root { path: path@ },
            Task::Table(table) => TaskView::Table(table),
            Task::Cups => TaskView::Cups,
            Task::Countries => TaskView::Countries,
            Task::Country(entry) => TaskView::Country(entry@),
            Task::Names { base, code } => TaskView::Names { base, code: code@ },
            Task::FindPlayers { place, owner } => TaskView::FindPlayers { place, owner: owner@ },
            Task::ListPlayers { place, owner } => TaskView::ListPlayers { place, owner: owner@ },
            Task::ReadPlayers { next, rest, owner } => TaskView::ReadPlayers {
                files: seq![next] + rest@.reverse(),
                owner: owner@,
            },
            Task::Leagues { base, code } => TaskView::Leagues { base, code: code@ },
            Task::FindLeague { base, code } => TaskView::FindLeague { base, code: code@ },
            Task::League { base, code } => TaskView::League { base, code: code@ },
            Task::Clubs { base, code, league_id } => TaskView::Clubs {
                base,
                code: code@,
                league_id,
            },
            Task::FindClub { base, code, league_id } => TaskView::FindClub {
                base,
                code: code@,
                league_id,
            },
            Task::Club { base, code, league_id } => TaskView::Club { base, code: code@, league_id },
        }
    }
}

/// The view of tasks, one by one.
pub open spec fn tasks_view(tasks: Seq<Task>) -> Seq<TaskView> {
    tasks.map_values(|t: Task| t@)
}

/// The question of a task.
pub open spec fn asks(task: TaskView) -> Action {
    match task {
        TaskView::Root { path } => Action::IsDir(Place { base: ROOT, child: Child::Itself }),
        TaskView::Table(table) => Action::Read(table.place()),
        TaskView::Cups => Action::IsFile(Table::DomesticCups.place()),
        TaskView::Countries => Action::List(Place { base: ROOT, child: Child::Itself }),
        TaskView::Country(entry) => Action::IsFile(Place { base: entry.id, child: Child::Names }),
        TaskView::Names { base, code } => Action::Read(Place { base, child: Child::Names }),
        TaskView::FindPlayers { place, owner } => Action::IsDir(place),
        TaskView::ListPlayers { place, owner } => Action::List(place),
        TaskView::ReadPlayers { files, owner } => Action::Read(
            Place { base: files[0], child: Child::Itself },
        ),
        TaskView::Leagues { base, code } => Action::List(Place { base, child: Child::Itself }),
        TaskView::FindLeague { base, code } => Action::IsFile(Place { base, child: Child::League }),
        TaskView::League { base, code } => Action::Read(Place { base, child: Child::League }),
        TaskView::Clubs { base, code, league_id } => Action::List(
            Place { base, child: Child::Itself },
        ),
        TaskView::FindClub { base, code, league_id } => Action::IsFile(
            Place { base, child: Child::Club },
        ),
        TaskView::Club { base, code, league_id } => Action::Read(
            Place { base, child: Child::Club },
        ),
    }
}

/// A record with the country that it belongs to.
pub open spec fn with_country(record: JsonView, code: Seq<char>) -> JsonView {
    record.with_field("country_code"@, JsonView::String(code))
}

/// The satellite in the club record `club`, which was read at `path` in a
/// directory of the league `league_id` and names `parent`.
pub open spec fn satellite_of(
    club: JsonView,
    parent: (u64, Seq<char>),
    league_id: u64,
    path: Seq<char>,
) -> SatelliteView {
    SatelliteView {
        parent_id: parent.0,
        team_type: parent.1,
        league_id,
        satellite_club: club.without_field("parent_club"@),
        players: Seq::empty(),
        source_path: path,
    }
}

/// What the owner leaves behind once its players are read.
pub open spec fn settled(owner: OwnerView) -> CollectedView {
    match owner {
        OwnerView::Squad => nothing(),
        OwnerView::Satellite(satellite) => one_satellite(satellite),
    }
}

/// What becomes of a player that was read.
pub open spec fn taken(owner: OwnerView, player: JsonView) -> (CollectedView, OwnerView) {
    match owner {
        OwnerView::Squad => (some_players(seq![player]), owner),
        OwnerView::Satellite(satellite) => (
            nothing(),
            OwnerView::Satellite(
                SatelliteView { players: satellite.players.push(player), ..satellite },
            ),
        ),
    }
}

/// The numbers of entries.
pub open spec fn ids(entries: Seq<EntryView>) -> Seq<usize> {
    entries.map_values(|e: EntryView| e.id)
}

/// What is done when the players in `files` are still to be read.
pub open spec fn reading(files: Seq<usize>, owner: OwnerView) -> (CollectedView, Seq<TaskView>) {
    if files.len() == 0 {
        (settled(owner), Seq::empty())
    } else {
        (nothing(), seq![TaskView::ReadPlayers { files, owner }])
    }
}

/// What the reply to the question of a task leads to: the records that it
/// yields, and the tasks that take its place, in order; or the error that ends
/// the walk.
pub open spec fn expand(task: TaskView, reply: ReplyView) -> Result<
    (CollectedView, Seq<TaskView>),
    ErrorView,
> {
    match (task, reply) {
        (TaskView::Root { path }, ReplyView::Answer(yes)) => if yes {
            Ok((nothing(), Seq::empty()))
        } else {
            Err(ErrorView::DataDirMissing { path })
        },
        (TaskView::Table(table), ReplyView::Document { path, value }) => match value {
            JsonView::Array(rows) => Ok((table.rows(rows), Seq::empty())),
            _ => Err(ErrorView::NotAnArray { path }),
        },
        (TaskView::Cups, ReplyView::Answer(yes)) => Ok(
            (
                nothing(),
                if yes {
                    seq![TaskView::Table(Table::DomesticCups)]
                } else {
                    Seq::empty()
                },
            ),
        ),
        (TaskView::Countries, ReplyView::Listing(entries)) => Ok(
            (
                nothing(),
                selected(entries, Keep::Directories).map_values(
                    |e: EntryView| TaskView::Country(e),
                ),
            ),
        ),
        (TaskView::Country(entry), ReplyView::Answer(yes)) => match name_text(entry.name) {
            Some(code) => {
                let names = if yes {
                    seq![TaskView::Names { base: entry.id, code }]
                } else {
                    Seq::empty()
                };
                Ok(
                    (
                        nothing(),
                        names + seq![
                            TaskView::FindPlayers {
                                place: Place { base: entry.id, child: Child::FreeAgents },
                                owner: OwnerView::Squad,
                            },
                            TaskView::Leagues { base: entry.id, code },
                        ],
                    ),
                )
            },
            None => Err(ErrorView::NonUtf8Name { path: entry.path }),
        },
        (TaskView::Names { base, code }, ReplyView::Document { path, value }) => Ok(
            (one_names(with_country(value, code)), Seq::empty()),
        ),
        (TaskView::FindPlayers { place, owner }, ReplyView::Answer(yes)) => Ok(
            if yes {
                (nothing(), seq![TaskView::ListPlayers { place, owner }])
            } else {
                (settled(owner), Seq::empty())
            },
        ),
        (TaskView::ListPlayers { place, owner }, ReplyView::Listing(entries)) => Ok(
            reading(ids(selected(entries, Keep::Players)), owner),
        ),
        (TaskView::ReadPlayers { files, owner }, ReplyView::Document { path, value }) =>
            match history_check(value, path) {
            Ok(()) => {
                let (yielded, owner) = taken(owner, value);
                let (left, tasks) = reading(files.drop_first(), owner);
                Ok((yielded.plus(left), tasks))
            },
            Err(e) => Err(e),
        },
        (TaskView::Leagues { base, code }, ReplyView::Listing(entries)) => Ok(
            (
                nothing(),
                selected(entries, Keep::Leagues).map_values(
                    |e: EntryView| TaskView::FindLeague { base: e.id, code },
                ),
            ),
        ),
        (TaskView::FindLeague { base, code }, ReplyView::Answer(yes)) => Ok(
            (
                nothing(),
                if yes {
                    seq![TaskView::League { base, code }]
                } else {
                    Seq::empty()
                },
            ),
        ),
        (TaskView::League { base, code }, ReplyView::Document { path, value }) =>
            match value.u64_at("id"@) {
            Some(league_id) => Ok(
                (
                    one_league(with_country(value, code)),
                    seq![TaskView::Clubs { base, code, league_id }],
                ),
            ),
            None => Err(ErrorView::LeagueId { path }),
        },
        (TaskView::Clubs { base, code, league_id }, ReplyView::Listing(entries)) => Ok(
            (
                nothing(),
                selected(entries, Keep::Directories).map_values(
                    |e: EntryView| TaskView::FindClub { base: e.id, code, league_id },
                ),
            ),
        ),
        (TaskView::FindClub { base, code, league_id }, ReplyView::Answer(yes)) => Ok(
            (
                nothing(),
                if yes {
                    seq![TaskView::Club { base, code, league_id }]
                } else {
                    Seq::empty()
                },
            ),
        ),
        (TaskView::Club { base, code, league_id }, ReplyView::Document { path, value }) => {
            let club = with_country(value, code);
            let place = Place { base, child: Child::Players };
            Ok(
                match parent_of(club) {
                    Some(parent) => (
                        nothing(),
                        seq![
                            TaskView::FindPlayers {
                                place,
                                owner: OwnerView::Satellite(
                                    satellite_of(club, parent, league_id, path),
                                ),
                            },
                        ],
                    ),
                    None => (
                        one_club(stamped_club(club.without_field("parent_club"@), league_id)),
                        seq![TaskView::FindPlayers { place, owner: OwnerView::Squad }],
                    ),
                },
            )
        },
        _ => Ok((nothing(), Seq::empty())),
    }
}

/// A walk: what it has gathered, and what it still has to do, first thing first.
pub struct WalkView {
    pub collected: CollectedView,
    pub tasks: Seq<TaskView>,
}

/// A walk about to start at the root that `path` shows.
pub open spec fn started(path: Seq<char>) -> WalkView {
    WalkView {
        collected: nothing(),
        tasks: seq![
            TaskView::Root { path },
            TaskView::Table(Table::Continents),
            TaskView::Table(Table::Countries),
            TaskView::Table(Table::NationalCompetitions),
            TaskView::Cups,
            TaskView::Countries,
        ],
    }
}

impl WalkView {
    /// What the walk asks.
    pub open spec fn action(self) -> Action {
        if self.tasks.len() == 0 {
            Action::Finished
        } else {
            asks(self.tasks[0])
        }
    }

    /// The walk after a reply.
    pub open spec fn after(self, reply: ReplyView) -> Result<WalkView, ErrorView> {
        match expand(self.tasks[0], reply) {
            Ok((yielded, tasks)) => Ok(
                WalkView {
                    collected: self.collected.plus(yielded),
                    tasks: tasks + self.tasks.drop_first(),
                },
            ),
            Err(e) => Err(e),
        }
    }

    /// The walk after the text of the file that it wanted to read, which was
    /// found at `path`.
    pub open spec fn after_text(self, text: Seq<char>, path: Seq<char>) -> Result<
        WalkView,
        ErrorView,
    > {
        match document_in(text, path) {
            Ok(value) => self.after(ReplyView::Document { path, value }),
            Err(e) => Err(e),
        }
    }
}

/// A walk through the data tree.
#[derive(Debug)]
pub struct Walk {
    collected: Collected,
    /// The last task comes first.
    tasks: Vec<Task>,
}

impl View for Walk {
    type V = WalkView;

    closed spec fn view(&self) -> WalkView {
        WalkView { collected: self.collected@, tasks: tasks_view(self.tasks@).reverse() }
    }
}

/// `outcome`, and the records `after`, are what was `expected` to come of the
/// records `before`.
spec fn comes_of(
    expected: Result<(CollectedView, Seq<TaskView>), ErrorView>,
    before: CollectedView,
    after: CollectedView,
    outcome: Result<Vec<Task>, CompileError>,
) -> bool {
    match expected {
        Ok((yielded, tasks)) => outcome matches Ok(list) && tasks_view(list@) == tasks && after
            == before.plus(yielded),
        Err(e) => outcome matches Err(error) && error@ == e && after == before,
    }
}

/// No task.
fn no_tasks() -> (tasks: Vec<Task>)
    ensures
        tasks_view(tasks@) == Seq::<TaskView>::empty(),
{
    let tasks: Vec<Task> = Vec::new();
    assert(tasks_view(tasks@) =~= Seq::<TaskView>::empty());
    tasks
}

/// One task.
fn one_task(task: Task) -> (tasks: Vec<Task>)
    ensures
        tasks_view(tasks@) == seq![task@],
{
    let mut tasks: Vec<Task> = Vec::new();
    tasks.push(task);
    assert(tasks_view(tasks@) =~= seq![task@]);
    tasks
}

/// Adding nothing changes nothing.
proof fn lemma_plus_nothing(records: CollectedView)
    ensures
        records.plus(nothing()) == records,
        nothing().plus(records) == records,
{
    assert(records.plus(nothing()) =~= records);
    assert(nothing().plus(records) =~= records);
}

/// Behind some values come others.
proof fn lemma_items_view_add(a: Seq<Json>, b: Seq<Json>)
    ensures
        items_view(a + b) == items_view(a) + items_view(b),
{
    assert(items_view(a + b) =~= items_view(a) + items_view(b));
}

/// Takes in the document of a table.
fn take_table(table: Table, path: String, value: Json, collected: &mut Collected) -> (outcome:
    Result<Vec<Task>, CompileError>)
    ensures
        comes_of(
            expand(
                TaskView::Table(table),
                ReplyView::Document { path: path@, value: value@ },
            ),
            old(collected)@,
            final(collected)@,
            outcome,
        ),
{
    let ghost before = *collected;
    let ghost rows_view = value@->Array_0;
    match read_top_level_array(value, path.as_str()) {
        Ok(list) => {
            let mut rows = list;
            proof {
                lemma_items_view_add(before.continents@, rows@);
                lemma_items_view_add(before.countries@, rows@);
                lemma_items_view_add(before.national_competitions@, rows@);
                lemma_items_view_add(before.domestic_cups@, rows@);
            }
            match table {
                Table::Continents => collected.continents.append(&mut rows),
                Table::Countries => collected.countries.append(&mut rows),
                Table::NationalCompetitions => collected.national_competitions.append(&mut rows),
                Table::DomesticCups => collected.domestic_cups.append(&mut rows),
            }
            assert(collected@ =~= before@.plus(table.rows(rows_view)));
            Ok(no_tasks())
        },
        Err(e) => Err(e),
    }
}

/// Goes on with a country.
fn take_country(entry: Entry, has_names: bool) -> (outcome: Result<Vec<Task>, CompileError>)
    ensures
        match expand(TaskView::Country(entry@), ReplyView::Answer(has_names)) {
            Ok((yielded, tasks)) => outcome matches Ok(list) && tasks_view(list@) == tasks
                && yielded == nothing(),
            Err(e) => outcome matches Err(error) && error@ == e,
        },
{
    match dir_name(&entry) {
        Ok(code) => {
            let mut tasks: Vec<Task> = Vec::new();
            if has_names {
                tasks.push(Task::Names { base: entry.id, code: code.clone() });
            }
            let ghost names = tasks_view(tasks@);
            tasks.push(
                Task::FindPlayers {
                    place: Place { base: entry.id, child: Child::FreeAgents },
                    owner: Owner::Squad,
                },
            );
            tasks.push(Task::Leagues { base: entry.id, code });
            proof {
                let expected = expand(
                    TaskView::Country(entry@),
                    ReplyView::Answer(has_names),
                )->Ok_0.1;
                assert(tasks_view(tasks@) =~= expected);
            }
            Ok(tasks)
        },
        Err(e) => Err(e),
    }
}

/// The countries among the entries of the root, as tasks.
fn country_tasks(entries: Vec<Entry>) -> (tasks: Vec<Task>)
    ensures
        tasks_view(tasks@) == selected(entries_view(entries@), Keep::Directories).map_values(
            |e: EntryView| TaskView::Country(e),
        ),
{
    let chosen = select(entries, Keep::Directories);
    let ghost all = chosen@;
    let mut tasks: Vec<Task> = Vec::new();
    for entry in it: chosen
        invariant
            it.seq() == all,
            tasks@.len() == it.index(),
            forall|k: int|
                0 <= k < tasks@.len() ==> (#[trigger] tasks@[k])@ == TaskView::Country(all[k]@),
    {
        tasks.push(Task::Country(entry));
    }
    assert(tasks_view(tasks@) =~= entries_view(all).map_values(
        |e: EntryView| TaskView::Country(e),
    ));
    tasks
}

/// The possible leagues among the entries of a country, as tasks.
fn league_tasks(entries: Vec<Entry>, code: &String) -> (tasks: Vec<Task>)
    ensures
        tasks_view(tasks@) == selected(entries_view(entries@), Keep::Leagues).map_values(
            |e: EntryView| TaskView::FindLeague { base: e.id, code: code@ },
        ),
{
    let chosen = select(entries, Keep::Leagues);
    let ghost all = chosen@;
    let mut tasks: Vec<Task> = Vec::new();
    for entry in it: chosen
        invariant
            it.seq() == all,
            tasks@.len() == it.index(),
            forall|k: int|
                0 <= k < tasks@.len() ==> (#[trigger] tasks@[k])@ == (TaskView::FindLeague {
                    base: all[k]@.id,
                    code: code@,
                }),
    {
        tasks.push(Task::FindLeague { base: entry.id, code: code.clone() });
    }
    assert(tasks_view(tasks@) =~= entries_view(all).map_values(
        |e: EntryView| TaskView::FindLeague { base: e.id, code: code@ },
    ));
    tasks
}

/// The possible clubs among the entries of a league, as tasks.
fn club_tasks(entries: Vec<Entry>, code: &String, league_id: u64) -> (tasks: Vec<Task>)
    ensures
        tasks_view(tasks@) == selected(entries_view(entries@), Keep::Directories).map_values(
            |e: EntryView| TaskView::FindClub { base: e.id, code: code@, league_id },
        ),
{
    let chosen = select(entries, Keep::Directories);
    let ghost all = chosen@;
    let mut tasks: Vec<Task> = Vec::new();
    for entry in it: chosen
        invariant
            it.seq() == all,
            tasks@.len() == it.index(),
            forall|k: int|
                0 <= k < tasks@.len() ==> (#[trigger] tasks@[k])@ == (TaskView::FindClub {
                    base: all[k]@.id,
                    code: code@,
                    league_id,
                }),
    {
        tasks.push(Task::FindClub { base: entry.id, code: code.clone(), league_id });
    }
    assert(tasks_view(tasks@) =~= entries_view(all).map_values(
        |e: EntryView| TaskView::FindClub { base: e.id, code: code@, league_id },
    ));
    tasks
}

/// Keeps what an owner leaves behind.
fn settle(owner: Owner, collected: &mut Collected)
    ensures
        final(collected)@ == old(collected)@.plus(settled(owner@)),
{
    let ghost before = collected@;
    match owner {
        Owner::Squad => {
            proof {
                lemma_plus_nothing(before);
            }
        },
        Owner::Satellite(satellite) => {
            collected.satellites.push(satellite);
            assert(collected@ =~= before.plus(one_satellite(satellite@)));
        },
    }
}

/// Goes on when the players in `rest`, the last of them first, are still to be
/// read.
fn go_on_reading(rest: Vec<usize>, owner: Owner, collected: &mut Collected) -> (tasks: Vec<Task>)
    ensures
        tasks_view(tasks@) == reading(rest@.reverse(), owner@).1,
        final(collected)@ == old(collected)@.plus(reading(rest@.reverse(), owner@).0),
{
    let ghost files = rest@.reverse();
    let mut rest = rest;
    match rest.pop() {
        Some(next) => {
            proof {
                assert(files =~= seq![next] + rest@.reverse());
                lemma_plus_nothing(collected@);
            }
            one_task(Task::ReadPlayers { next, rest, owner })
        },
        None => {
            settle(owner, collected);
            no_tasks()
        },
    }
}

/// Goes on with the player files among the entries of a directory.
fn take_player_listing(entries: Vec<Entry>, owner: Owner, collected: &mut Collected) -> (tasks: Vec<
    Task,
>)
    ensures
        tasks_view(tasks@) == reading(
            ids(selected(entries_view(entries@), Keep::Players)),
            owner@,
        ).1,
        final(collected)@ == old(collected)@.plus(
            reading(ids(selected(entries_view(entries@), Keep::Players)), owner@).0,
        ),
{
    let chosen = select(entries, Keep::Players);
    let ghost files = ids(entries_view(chosen@));
    let mut rest: Vec<usize> = Vec::new();
    let mut left: usize = chosen.len();
    while left > 0
        invariant
            left <= chosen@.len(),
            files == ids(entries_view(chosen@)),
            rest@.len() == chosen@.len() - left,
            forall|k: int| 0 <= k < rest@.len() ==> #[trigger] rest@[k] == files[files.len() - 1 - k],
        decreases left,
    {
        left -= 1;
        rest.push(chosen[left].id);
    }
    assert(rest@.reverse() =~= files);
    go_on_reading(rest, owner, collected)
}

/// Takes in the document of a player.
fn take_player(
    rest: Vec<usize>,
    owner: Owner,
    path: String,
    value: Json,
    collected: &mut Collected,
) -> (outcome: Result<Vec<Task>, CompileError>)
    ensures
        forall|next: usize| #[trigger]
            comes_of(
                expand(
                    TaskView::ReadPlayers { files: seq![next] + rest@.reverse(), owner: owner@ },
                    ReplyView::Document { path: path@, value: value@ },
                ),
                old(collected)@,
                final(collected)@,
                outcome,
            ),
{
    let ghost before = collected@;
    let ghost files = rest@.reverse();
    let ghost whose = owner@;
    let ghost player = value@;
    match validate_player_history(&value, path.as_str()) {
        Ok(()) => {},
        Err(e) => {
            return Err(e);
        },
    }
    let owner: Owner = match owner {
        Owner::Squad => {
            collected.players.push(value);
            assert(collected@ =~= before.plus(some_players(seq![player])));
            Owner::Squad
        },
        Owner::Satellite(satellite) => {
            let mut satellite = satellite;
            let ghost squad = items_view(satellite.players@);
            satellite.players.push(value);
            proof {
                assert(items_view(satellite.players@) =~= squad.push(player));
                lemma_plus_nothing(before);
            }
            Owner::Satellite(satellite)
        },
    };
    let ghost between = collected@;
    assert(between == before.plus(taken(whose, player).0));
    assert(owner@ == taken(whose, player).1);
    let tasks = go_on_reading(rest, owner, collected);
    proof {
        let left = reading(files, owner@).0;
        assert(collected@ =~= before.plus(taken(whose, player).0.plus(left)));
        assert forall|next: usize| #[trigger]
            comes_of(
                expand(
                    TaskView::ReadPlayers { files: seq![next] + files, owner: whose },
                    ReplyView::Document { path: path@, value: player },
                ),
                before,
                collected@,
                Ok(tasks),
            ) by {
            assert((seq![next] + files).drop_first() =~= files);
        }
    }
    Ok(tasks)
}

/// Takes in the document of a league.
fn take_league(base: usize, code: String, path: String, value: Json, collected: &mut Collected) -> (
outcome: Result<Vec<Task>, CompileError>)
    ensures
        comes_of(
            expand(
                TaskView::League { base, code: code@ },
                ReplyView::Document { path: path@, value: value@ },
            ),
            old(collected)@,
            final(collected)@,
            outcome,
        ),
{
    let ghost before = collected@;
    let mut league = value;
    match league.u64_at("id") {
        Some(league_id) => {
            insert_country_code(&mut league, code.as_str());
            collected.leagues.push(league);
            assert(collected@ =~= before.plus(one_league(league@)));
            Ok(one_task(Task::Clubs { base, code, league_id }))
        },
        None => Err(CompileError::LeagueId { path }),
    }
}

/// Takes in the document of a club.
fn take_club(
    base: usize,
    code: String,
    league_id: u64,
    path: String,
    value: Json,
    collected: &mut Collected,
) -> (outcome: Result<Vec<Task>, CompileError>)
    ensures
        comes_of(
            expand(
                TaskView::Club { base, code: code@, league_id },
                ReplyView::Document { path: path@, value: value@ },
            ),
            old(collected)@,
            final(collected)@,
            outcome,
        ),
{
    let ghost before = collected@;
    let mut club = value;
    insert_country_code(&mut club, code.as_str());
    let place = Place { base, child: Child::Players };
    match take_parent_club(&mut club) {
        Some(parent) => {
            let satellite = SatelliteSpec {
                parent_id: parent.id,
                team_type: parent.team_type,
                league_id,
                satellite_club: club,
                players: Vec::new(),
                source_path: path,
            };
            proof {
                assert(items_view(satellite.players@) =~= Seq::<JsonView>::empty());
                lemma_plus_nothing(before);
            }
            Ok(one_task(Task::FindPlayers { place, owner: Owner::Satellite(satellite) }))
        },
        None => {
            stamp_main_team_league_id(&mut club, league_id);
            collected.clubs.push(club);
            assert(collected@ =~= before.plus(one_club(club@)));
            Ok(one_task(Task::FindPlayers { place, owner: Owner::Squad }))
        },
    }
}

/// Takes in the document of the names of a country.
fn take_names(code: String, value: Json, collected: &mut Collected)
    ensures
        final(collected)@ == old(collected)@.plus(one_names(with_country(value@, code@))),
{
    let ghost before = collected@;
    let mut names = value;
    insert_country_code(&mut names, code.as_str());
    collected.names.push(names);
    assert(collected@ =~= before.plus(one_names(names@)));
}

/// Takes in the reply to the question of a task.
fn take_reply(task: Task, reply: Reply, collected: &mut Collected) -> (outcome: Result<
    Vec<Task>,
    CompileError,
>)
    requires
        fits(asks(task@), reply@),
    ensures
        comes_of(expand(task@, reply@), old(collected)@, final(collected)@, outcome),
{
    proof {
        lemma_plus_nothing(collected@);
    }
    match (task, reply) {
        (Task::Root { path }, Reply::Answer(yes)) => if yes {
            Ok(no_tasks())
        } else {
            Err(CompileError::DataDirMissing { path })
        },
        (Task::Table(table), Reply::Document { path, value }) => take_table(
            table,
            path,
            value,
            collected,
        ),
        (Task::Cups, Reply::Answer(yes)) => if yes {
            Ok(one_task(Task::Table(Table::DomesticCups)))
        } else {
            Ok(no_tasks())
        },
        (Task::Countries, Reply::Listing(entries)) => Ok(country_tasks(entries)),
        (Task::Country(entry), Reply::Answer(yes)) => take_country(entry, yes),
        (Task::Names { base: _, code }, Reply::Document { path: _, value }) => {
            take_names(code, value, collected);
            Ok(no_tasks())
        },
        (Task::FindPlayers { place, owner }, Reply::Answer(yes)) => if yes {
            Ok(one_task(Task::ListPlayers { place, owner }))
        } else {
            settle(owner, collected);
            Ok(no_tasks())
        },
        (Task::ListPlayers { place: _, owner }, Reply::Listing(entries)) => Ok(
            take_player_listing(entries, owner, collected),
        ),
        (Task::ReadPlayers { next, rest, owner }, Reply::Document { path, value }) => {
            let ghost before = collected@;
            let outcome = take_player(rest, owner, path, value, collected);
            assert(comes_of(
                expand(
                    TaskView::ReadPlayers { files: seq![next] + rest@.reverse(), owner: owner@ },
                    ReplyView::Document { path: path@, value: value@ },
                ),
                before,
                collected@,
                outcome,
            ));
            outcome
        },
        (Task::Leagues { base: _, code }, Reply::Listing(entries)) => Ok(
            league_tasks(entries, &code),
        ),
        (Task::FindLeague { base, code }, Reply::Answer(yes)) => if yes {
            Ok(one_task(Task::League { base, code }))
        } else {
            Ok(no_tasks())
        },
        (Task::League { base, code }, Reply::Document { path, value }) => take_league(
            base,
            code,
            path,
            value,
            collected,
        ),
        (Task::Clubs { base: _, code, league_id }, Reply::Listing(entries)) => Ok(
            club_tasks(entries, &code, league_id),
        ),
        (Task::FindClub { base, code, league_id }, Reply::Answer(yes)) => if yes {
            Ok(one_task(Task::Club { base, code, league_id }))
        } else {
            Ok(no_tasks())
        },
        (Task::Club { base, code, league_id }, Reply::Document { path, value }) => take_club(
            base,
            code,
            league_id,
            path,
            value,
            collected,
        ),
        _ => Ok(no_tasks()),
    }
}

/// The question of a task.
fn question(task: &Task) -> (action: Action)
    ensures
        action == asks(task@),
{
    match task {
        Task::Root { path: _ } => Action::IsDir(Place { base: ROOT, child: Child::Itself }),
        Task::Table(table) => Action::Read(
            Place {
                base: ROOT,
                child: match table {
                    Table::Continents => Child::Continents,
                    Table::Countries => Child::Countries,
                    Table::NationalCompetitions => Child::NationalCompetitions,
                    Table::DomesticCups => Child::DomesticCups,
                },
            },
        ),
        Task::Cups => Action::IsFile(Place { base: ROOT, child: Child::DomesticCups }),
        Task::Countries => Action::List(Place { base: ROOT, child: Child::Itself }),
        Task::Country(entry) => Action::IsFile(Place { base: entry.id, child: Child::Names }),
        Task::Names { base, code: _ } => Action::Read(Place { base: *base, child: Child::Names }),
        Task::FindPlayers { place, owner: _ } => Action::IsDir(*place),
        Task::ListPlayers { place, owner: _ } => Action::List(*place),
        Task::ReadPlayers { next, rest: _, owner: _ } => Action::Read(
            Place { base: *next, child: Child::Itself },
        ),
        Task::Leagues { base, code: _ } => Action::List(
            Place { base: *base, child: Child::Itself },
        ),
        Task::FindLeague { base, code: _ } => Action::IsFile(
            Place { base: *base, child: Child::League },
        ),
        Task::League { base, code: _ } => Action::Read(
            Place { base: *base, child: Child::League },
        ),
        Task::Clubs { base, code: _, league_id: _ } => Action::List(
            Place { base: *base, child: Child::Itself },
        ),
        Task::FindClub { base, code: _, league_id: _ } => Action::IsFile(
            Place { base: *base, child: Child::Club },
        ),
        Task::Club { base, code: _, league_id: _ } => Action::Read(
            Place { base: *base, child: Child::Club },
        ),
    }
}

impl Walk {
    /// A walk about to start at the root that `path` shows.
    pub fn new(path: &str) -> (walk: Walk)
        ensures
            walk@ == started(path@),
    {
        let mut tasks: Vec<Task> = Vec::new();
        tasks.push(Task::Countries);
        tasks.push(Task::Cups);
        tasks.push(Task::Table(Table::NationalCompetitions));
        tasks.push(Task::Table(Table::Countries));
        tasks.push(Task::Table(Table::Continents));
        tasks.push(Task::Root { path: path.to_owned() });
        let walk = Walk { collected: Collected::new(), tasks };
        assert(walk@.tasks =~= started(path@).tasks);
        walk
    }

    /// What the walk wants to know next.
    pub fn next_action(&self) -> (action: Action)
        ensures
            action == self@.action(),
    {
        if self.tasks.len() == 0 {
            Action::Finished
        } else {
            let last: usize = self.tasks.len() - 1;
            assert(self@.tasks[0] == self.tasks@[last as int]@);
            question(&self.tasks[last])
        }
    }

    /// Takes the reply to what the walk wanted to know. After an error the walk
    /// is as it was, but for the task that failed.
    pub fn advance(&mut self, reply: Reply) -> (outcome: Result<(), CompileError>)
        requires
            fits(old(self)@.action(), reply@),
        ensures
            match old(self)@.after(reply@) {
                Ok(next) => outcome is Ok && final(self)@ == next,
                Err(e) => outcome matches Err(error) && error@ == e && final(self)@.collected
                    == old(self)@.collected && final(self)@.tasks == old(
                    self,
                )@.tasks.drop_first(),
            },
    {
        let ghost before = self@;
        match self.tasks.pop() {
            Some(task) => {
                assert(before.tasks[0] == task@);
                let ghost left = self@.tasks;
                assert(left =~= before.tasks.drop_first());
                match take_reply(task, reply, &mut self.collected) {
                    Ok(list) => {
                        let mut tasks = list;
                        let ghost all = tasks_view(tasks@);
                        assert(all.skip(tasks@.len() as int) + left =~= left);
                        while tasks.len() > 0
                            invariant
                                tasks@.len() <= all.len(),
                                tasks_view(tasks@) == all.take(tasks@.len() as int),
                                self@.tasks == all.skip(tasks@.len() as int) + left,
                                self@.collected == before.collected.plus(
                                    expand(before.tasks[0], reply@)->Ok_0.0,
                                ),
                            decreases tasks@.len(),
                        {
                            let ghost n = tasks@.len() as int;
                            let ghost earlier = self@.tasks;
                            assert(tasks_view(tasks@)[n - 1] == all[n - 1]);
                            match tasks.pop() {
                                Some(task) => {
                                    assert(task@ == all[n - 1]);
                                    self.tasks.push(task);
                                    assert(self@.tasks =~= seq![task@] + earlier);
                                    assert(self@.tasks =~= all.skip(n - 1) + left);
                                    assert(tasks_view(tasks@) =~= all.take(n - 1));
                                },
                                None => {},
                            }
                        }
                        assert(all.skip(0) =~= all);
                        Ok(())
                    },
                    Err(e) => Err(e),
                }
            },
            None => Ok(()),
        }
    }

    /// Takes the text of the file that the walk wanted to read, which was found
    /// at `path`. After an error the walk is as it was, but for the task that
    /// failed where the text is JSON.
    pub fn advance_with_text(&mut self, text: &str, path: &str) -> (outcome: Result<
        (),
        CompileError,
    >)
        requires
            old(self)@.action() is Read,
        ensures
            match old(self)@.after_text(text@, path@) {
                Ok(next) => outcome is Ok && final(self)@ == next,
                Err(e) => outcome matches Err(error) && error@ == e && final(self)@.collected
                    == old(self)@.collected && final(self)@.tasks == (if document_in(
                    text@,
                    path@,
                ) is Ok {
                    old(self)@.tasks.drop_first()
                } else {
                    old(self)@.tasks
                }),
            },
    {
        match read_json(text, path) {
            Ok(value) => self.advance(Reply::Document { path: path.to_owned(), value }),
            Err(e) => Err(e),
        }
    }

    /// The records that the walk has gathered.
    pub fn into_collected(self) -> (collected: Collected)
        ensures
            collected@ == self@.collected,
    {
        self.collected
    }
}

} // verus!
