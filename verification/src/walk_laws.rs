//! A walk gathers exactly what the tree holds, and ends.

use crate::collected::{nothing, one_satellite, some_players, CollectedView};
use crate::error::ErrorView;
use crate::json::JsonView;
use crate::listing::{name_text, selected, EntryView, Keep};
use crate::questions::{Child, Place, ROOT};
use crate::records::{history_check, parent_of};
use crate::satellites::SatelliteView;
use crate::tree::{
    both, club_dir_part, club_part, clubs_part, countries_part, country_part, cups_part, in_turn,
    league_dir_part, league_part, leagues_part, names_part, players_at, players_in, root_part,
    table_part, whole_tree, Part, Tree,
};
use crate::walk::{
    asks, expand, ids, reading, satellite_of, settled, started, taken, with_country, OwnerView,
    Table, TaskView, WalkView,
};
use vstd::prelude::*;

verus! {

/// What an owner and its players come to.
pub open spec fn owner_part(
    owner: OwnerView,
    players: Result<Seq<JsonView>, ErrorView>,
) -> Part {
    match players {
        Err(e) => Err(e),
        Ok(more) => Ok(
            match owner {
                OwnerView::Squad => some_players(more),
                OwnerView::Satellite(satellite) => one_satellite(
                    SatelliteView { players: satellite.players + more, ..satellite },
                ),
            },
        ),
    }
}

/// What a task comes to in a tree.
pub open spec fn task_part(tree: Tree, task: TaskView) -> Part {
    match task {
        TaskView::Root { path } => root_part(tree, path),
        TaskView::Table(table) => table_part(tree, table),
        TaskView::Cups => cups_part(tree),
        TaskView::Countries => countries_part(tree),
        TaskView::Country(entry) => country_part(tree, entry),
        TaskView::Names { base, code } => names_part(tree, base, code),
        TaskView::FindPlayers { place, owner } => owner_part(owner, players_at(tree, place)),
        TaskView::ListPlayers { place, owner } => owner_part(
            owner,
            players_in(tree, ids(selected((tree.entries)(place), Keep::Players))),
        ),
        TaskView::ReadPlayers { files, owner } => owner_part(owner, players_in(tree, files)),
        TaskView::Leagues { base, code } => leagues_part(tree, base, code),
        TaskView::FindLeague { base, code } => league_dir_part(tree, base, code),
        TaskView::League { base, code } => league_part(tree, base, code),
        TaskView::Clubs { base, code, league_id } => clubs_part(tree, base, code, league_id),
        TaskView::FindClub { base, code, league_id } => club_dir_part(tree, base, code, league_id),
        TaskView::Club { base, code, league_id } => club_part(tree, base, code, league_id),
    }
}

/// What tasks come to, one after the other.
pub open spec fn tasks_part(tree: Tree, tasks: Seq<TaskView>) -> Part
    decreases tasks.len(),
{
    if tasks.len() == 0 {
        Ok(nothing())
    } else {
        both(task_part(tree, tasks[0]), tasks_part(tree, tasks.drop_first()))
    }
}

/// What a walk comes to: what it has gathered, and what its tasks come to.
pub open spec fn walk_part(tree: Tree, walk: WalkView) -> Part {
    both(Ok(walk.collected), tasks_part(tree, walk.tasks))
}

proof fn lemma_plus(a: CollectedView, b: CollectedView, c: CollectedView)
    ensures
        a.plus(b).plus(c) == a.plus(b.plus(c)),
        a.plus(nothing()) == a,
        nothing().plus(a) == a,
{
    assert(a.plus(b).plus(c) =~= a.plus(b.plus(c)));
    assert(a.plus(nothing()) =~= a);
    assert(nothing().plus(a) =~= a);
}

/// It does not matter how parts are grouped, and an empty part adds nothing.
proof fn lemma_both(a: Part, b: Part, c: Part)
    ensures
        both(both(a, b), c) == both(a, both(b, c)),
        both(a, Ok(nothing())) == a,
        both(Ok(nothing()), a) == a,
{
    if a is Ok && b is Ok && c is Ok {
        lemma_plus(a->Ok_0, b->Ok_0, c->Ok_0);
    } else if a is Ok {
        lemma_plus(a->Ok_0, nothing(), nothing());
    }
}

proof fn lemma_tasks_add(tree: Tree, first: Seq<TaskView>, second: Seq<TaskView>)
    ensures
        tasks_part(tree, first + second) == both(
            tasks_part(tree, first),
            tasks_part(tree, second),
        ),
    decreases first.len(),
{
    if first.len() == 0 {
        assert(first + second =~= second);
        lemma_both(tasks_part(tree, second), Ok(nothing()), Ok(nothing()));
    } else {
        assert((first + second).drop_first() =~= first.drop_first() + second);
        lemma_tasks_add(tree, first.drop_first(), second);
        lemma_both(
            task_part(tree, first[0]),
            tasks_part(tree, first.drop_first()),
            tasks_part(tree, second),
        );
    }
}

/// One task comes to what it comes to.
proof fn lemma_one_task(tree: Tree, task: TaskView)
    ensures
        tasks_part(tree, seq![task]) == task_part(tree, task),
{
    reveal_with_fuel(tasks_part, 2);
    assert(seq![task].drop_first() =~= Seq::<TaskView>::empty());
    lemma_both(task_part(tree, task), Ok(nothing()), Ok(nothing()));
}

/// Tasks made of entries come to what the entries stand for.
proof fn lemma_entry_tasks(
    tree: Tree,
    entries: Seq<EntryView>,
    task: spec_fn(EntryView) -> TaskView,
    part: spec_fn(EntryView) -> Part,
)
    requires
        forall|e: EntryView| #[trigger] part(e) == task_part(tree, task(e)),
    ensures
        tasks_part(tree, entries.map_values(task)) == in_turn(entries, part),
    decreases entries.len(),
{
    let tasks = entries.map_values(task);
    if entries.len() > 0 {
        assert(tasks.drop_first() =~= entries.drop_first().map_values(task));
        lemma_entry_tasks(tree, entries.drop_first(), task, part);
        assert(part(entries[0]) == task_part(tree, tasks[0]));
    }
}

/// What is left of reading players comes to what the players come to.
proof fn lemma_reading(tree: Tree, files: Seq<usize>, owner: OwnerView)
    ensures
        both(Ok(reading(files, owner).0), tasks_part(tree, reading(files, owner).1)) == owner_part(
            owner,
            players_in(tree, files),
        ),
{
    lemma_both(owner_part(owner, players_in(tree, files)), Ok(nothing()), Ok(nothing()));
    if files.len() == 0 {
        lemma_settled(owner);
        lemma_both(Ok(settled(owner)), Ok(nothing()), Ok(nothing()));
    } else {
        lemma_one_task(tree, TaskView::ReadPlayers { files, owner });
    }
}

/// An owner without players leaves behind what it is.
proof fn lemma_settled(owner: OwnerView)
    ensures
        owner_part(owner, Ok(Seq::empty())) == Ok::<CollectedView, ErrorView>(settled(owner)),
{
    match owner {
        OwnerView::Squad => {
            assert(some_players(Seq::empty()) =~= nothing());
        },
        OwnerView::Satellite(satellite) => {
            assert(satellite.players + Seq::<JsonView>::empty() =~= satellite.players);
        },
    }
}

/// What the true reply to the question of a task leads to.
pub open spec fn true_expansion(tree: Tree, task: TaskView) -> Result<
    (CollectedView, Seq<TaskView>),
    ErrorView,
> {
    match tree.reply(asks(task)) {
        Ok(reply) => expand(task, reply),
        Err(e) => Err(e),
    }
}

/// The task comes to what the true reply to its question leads to.
spec fn comes_true(tree: Tree, task: TaskView) -> bool {
    match true_expansion(tree, task) {
        Ok((yielded, tasks)) => task_part(tree, task) == both(Ok(yielded), tasks_part(tree, tasks)),
        Err(e) => task_part(tree, task) == Err::<CollectedView, ErrorView>(e),
    }
}

proof fn lemma_countries(tree: Tree)
    ensures
        comes_true(tree, TaskView::Countries),
{
    lemma_both(countries_part(tree), Ok(nothing()), Ok(nothing()));
    lemma_entry_tasks(
        tree,
        selected((tree.entries)(Place { base: ROOT, child: Child::Itself }), Keep::Directories),
        |e: EntryView| TaskView::Country(e),
        |e: EntryView| country_part(tree, e),
    );
}

proof fn lemma_country(tree: Tree, entry: EntryView)
    ensures
        comes_true(tree, TaskView::Country(entry)),
{
    if name_text(entry.name) is Some {
        let code = name_text(entry.name)->0;
        let names = TaskView::Names { base: entry.id, code };
        let agents = TaskView::FindPlayers {
            place: Place { base: entry.id, child: Child::FreeAgents },
            owner: OwnerView::Squad,
        };
        let leagues = TaskView::Leagues { base: entry.id, code };
        let last = seq![agents, leagues];
        lemma_one_task(tree, names);
        lemma_one_task(tree, leagues);
        assert(last.drop_first() =~= seq![leagues]);
        lemma_tasks_add(tree, seq![names], last);
        lemma_both(tasks_part(tree, last), Ok(nothing()), Ok(nothing()));
        lemma_both(country_part(tree, entry), Ok(nothing()), Ok(nothing()));
        assert(Seq::<TaskView>::empty() + last =~= last);
    }
}

proof fn lemma_find_players(tree: Tree, place: Place, owner: OwnerView)
    ensures
        comes_true(tree, TaskView::FindPlayers { place, owner }),
{
    let task = TaskView::FindPlayers { place, owner };
    lemma_both(task_part(tree, task), Ok(nothing()), Ok(nothing()));
    lemma_one_task(tree, TaskView::ListPlayers { place, owner });
    lemma_settled(owner);
}

proof fn lemma_list_players(tree: Tree, place: Place, owner: OwnerView)
    ensures
        comes_true(tree, TaskView::ListPlayers { place, owner }),
{
    lemma_reading(tree, ids(selected((tree.entries)(place), Keep::Players)), owner);
}

proof fn lemma_read_players(tree: Tree, files: Seq<usize>, owner: OwnerView)
    requires
        files.len() > 0,
    ensures
        comes_true(tree, TaskView::ReadPlayers { files, owner }),
{
    let place = Place { base: files[0], child: Child::Itself };
    let player = tree.document(place)->Ok_0;
    if tree.document(place) is Ok && history_check(player, (tree.path)(place)) is Ok {
        let (yielded, next) = taken(owner, player);
        let (left, tasks) = reading(files.drop_first(), next);
        lemma_reading(tree, files.drop_first(), next);
        lemma_both(Ok(yielded), Ok(left), tasks_part(tree, tasks));
        match players_in(tree, files.drop_first()) {
            Ok(rest) => {
                match owner {
                    OwnerView::Squad => {
                        assert(some_players(seq![player]).plus(some_players(rest))
                            =~= some_players(seq![player] + rest));
                    },
                    OwnerView::Satellite(satellite) => {
                        assert(satellite.players.push(player) + rest =~= satellite.players + (
                        seq![player] + rest));
                        let full = SatelliteView {
                            players: satellite.players + (seq![player] + rest),
                            ..satellite
                        };
                        lemma_plus(one_satellite(full), nothing(), nothing());
                    },
                }
            },
            Err(_) => {},
        }
    }
}

proof fn lemma_leagues(tree: Tree, base: usize, code: Seq<char>)
    ensures
        comes_true(tree, TaskView::Leagues { base, code }),
{
    lemma_both(leagues_part(tree, base, code), Ok(nothing()), Ok(nothing()));
    lemma_entry_tasks(
        tree,
        selected((tree.entries)(Place { base, child: Child::Itself }), Keep::Leagues),
        |e: EntryView| TaskView::FindLeague { base: e.id, code },
        |e: EntryView| league_dir_part(tree, e.id, code),
    );
}

proof fn lemma_clubs(tree: Tree, base: usize, code: Seq<char>, league_id: u64)
    ensures
        comes_true(tree, TaskView::Clubs { base, code, league_id }),
{
    lemma_both(clubs_part(tree, base, code, league_id), Ok(nothing()), Ok(nothing()));
    lemma_entry_tasks(
        tree,
        selected((tree.entries)(Place { base, child: Child::Itself }), Keep::Directories),
        |e: EntryView| TaskView::FindClub { base: e.id, code, league_id },
        |e: EntryView| club_dir_part(tree, e.id, code, league_id),
    );
}

proof fn lemma_club(tree: Tree, base: usize, code: Seq<char>, league_id: u64)
    ensures
        comes_true(tree, TaskView::Club { base, code, league_id }),
{
    let record = tree.document(Place { base, child: Child::Club });
    let club = with_country(record->Ok_0, code);
    let place = Place { base, child: Child::Players };
    let path = (tree.path)(Place { base, child: Child::Club });
    match parent_of(club) {
        Some(parent) => {
            let satellite = satellite_of(club, parent, league_id, path);
            let find = TaskView::FindPlayers { place, owner: OwnerView::Satellite(satellite) };
            lemma_one_task(tree, find);
            lemma_both(task_part(tree, find), Ok(nothing()), Ok(nothing()));
            match players_at(tree, place) {
                Ok(players) => {
                    assert(satellite.players + players =~= players);
                },
                Err(_) => {},
            }
        },
        None => {
            lemma_one_task(tree, TaskView::FindPlayers { place, owner: OwnerView::Squad });
        },
    }
}

proof fn lemma_comes_true(tree: Tree, task: TaskView)
    requires
        task matches TaskView::ReadPlayers { files, owner } ==> files.len() > 0,
    ensures
        comes_true(tree, task),
{
    lemma_both(task_part(tree, task), Ok(nothing()), Ok(nothing()));
    match task {
        TaskView::Root { path } => {},
        TaskView::Table(table) => {},
        TaskView::Cups => {
            lemma_one_task(tree, TaskView::Table(Table::DomesticCups));
        },
        TaskView::Countries => {
            lemma_countries(tree);
        },
        TaskView::Country(entry) => {
            lemma_country(tree, entry);
        },
        TaskView::Names { base, code } => {},
        TaskView::FindPlayers { place, owner } => {
            lemma_find_players(tree, place, owner);
        },
        TaskView::ListPlayers { place, owner } => {
            lemma_list_players(tree, place, owner);
        },
        TaskView::ReadPlayers { files, owner } => {
            lemma_read_players(tree, files, owner);
        },
        TaskView::Leagues { base, code } => {
            lemma_leagues(tree, base, code);
        },
        TaskView::FindLeague { base, code } => {
            lemma_one_task(tree, TaskView::League { base, code });
        },
        TaskView::League { base, code } => {
            match tree.document(Place { base, child: Child::League })->Ok_0.u64_at("id"@) {
                Some(league_id) => {
                    lemma_one_task(tree, TaskView::Clubs { base, code, league_id });
                },
                None => {},
            }
        },
        TaskView::Clubs { base, code, league_id } => {
            lemma_clubs(tree, base, code, league_id);
        },
        TaskView::FindClub { base, code, league_id } => {
            lemma_one_task(tree, TaskView::Club { base, code, league_id });
        },
        TaskView::Club { base, code, league_id } => {
            lemma_club(tree, base, code, league_id);
        },
    }
}

/// A task can be asked about: one to read players has players to read.
pub open spec fn sound_task(task: TaskView) -> bool {
    task matches TaskView::ReadPlayers { files, owner } ==> files.len() > 0
}

/// All tasks of a walk can be asked about.
pub open spec fn sound(walk: WalkView) -> bool {
    forall|i: int| 0 <= i < walk.tasks.len() ==> sound_task(#[trigger] walk.tasks[i])
}

/// A walk about to start comes to what the whole tree holds.
pub proof fn fresh_walk_comes_to_whole_tree(tree: Tree, path: Seq<char>)
    ensures
        sound(started(path)),
        walk_part(tree, started(path)) == whole_tree(tree, path),
{
    let tasks = started(path).tasks;
    let after_root = tasks.drop_first();
    let after_continents = after_root.drop_first();
    let after_countries = after_continents.drop_first();
    let after_competitions = after_countries.drop_first();
    assert(after_competitions =~= seq![TaskView::Cups, TaskView::Countries]);
    assert(after_competitions.drop_first() =~= seq![TaskView::Countries]);
    lemma_one_task(tree, TaskView::Countries);
    assert(tasks_part(tree, after_competitions) == both(cups_part(tree), countries_part(tree)));
    assert(tasks_part(tree, after_countries) == both(
        table_part(tree, Table::NationalCompetitions),
        tasks_part(tree, after_competitions),
    ));
    assert(tasks_part(tree, after_continents) == both(
        table_part(tree, Table::Countries),
        tasks_part(tree, after_countries),
    ));
    assert(tasks_part(tree, after_root) == both(
        table_part(tree, Table::Continents),
        tasks_part(tree, after_continents),
    ));
    assert(tasks_part(tree, tasks) == both(root_part(tree, path), tasks_part(tree, after_root)));
    lemma_both(tasks_part(tree, tasks), Ok(nothing()), Ok(nothing()));
}

/// A true reply does not change what a walk comes to; where it ends the walk
/// with an error, that error is what the walk comes to.
pub proof fn true_reply_keeps_what_walk_comes_to(tree: Tree, walk: WalkView)
    requires
        sound(walk),
        walk.tasks.len() > 0,
    ensures
        match tree.step(walk) {
            Ok(next) => sound(next) && walk_part(tree, next) == walk_part(tree, walk),
            Err(e) => walk_part(tree, walk) == Err::<CollectedView, ErrorView>(e),
        },
{
    let task = walk.tasks[0];
    let rest = walk.tasks.drop_first();
    assert(sound_task(task));
    lemma_comes_true(tree, task);
    match true_expansion(tree, task) {
        Ok((yielded, tasks)) => {
            lemma_tasks_add(tree, tasks, rest);
            lemma_both(Ok(yielded), tasks_part(tree, tasks), tasks_part(tree, rest));
            lemma_both(Ok(walk.collected), Ok(yielded), tasks_part(tree, tasks + rest));
            let next = tree.step(walk)->Ok_0;
            assert forall|i: int| 0 <= i < next.tasks.len() implies sound_task(
                #[trigger] next.tasks[i],
            ) by {
                if i < tasks.len() {
                    assert(next.tasks[i] == tasks[i]);
                } else {
                    assert(next.tasks[i] == walk.tasks[i - tasks.len() + 1]);
                }
            }
        },
        Err(_) => {},
    }
}

/// A walk that has nothing more to do has gathered what it comes to.
pub proof fn finished_walk_has_gathered_all(tree: Tree, walk: WalkView)
    requires
        walk.action() is Finished,
    ensures
        walk_part(tree, walk) == Ok::<CollectedView, ErrorView>(walk.collected),
{
    lemma_both(Ok(walk.collected), Ok(nothing()), Ok(nothing()));
    if walk.tasks.len() > 0 {
        assert(asks(walk.tasks[0]) !is Finished);
    }
}

/// A sum over entries.
pub open spec fn sum_in_turn(entries: Seq<EntryView>, size: spec_fn(EntryView) -> nat) -> nat
    decreases entries.len(),
{
    if entries.len() == 0 {
        0
    } else {
        size(entries[0]) + sum_in_turn(entries.drop_first(), size)
    }
}

/// How many questions the players at a place take.
pub open spec fn players_work(tree: Tree, place: Place) -> nat {
    if (tree.is_dir)(place) {
        2 + selected((tree.entries)(place), Keep::Players).len()
    } else {
        1
    }
}

/// How many questions a club takes.
pub open spec fn club_work(tree: Tree, base: usize) -> nat {
    1 + players_work(tree, Place { base, child: Child::Players })
}

/// How many questions a directory of a league takes.
pub open spec fn club_dir_work(tree: Tree, base: usize) -> nat {
    if (tree.is_file)(Place { base, child: Child::Club }) {
        1 + club_work(tree, base)
    } else {
        1
    }
}

/// How many questions the clubs of a league take.
pub open spec fn clubs_work(tree: Tree, base: usize) -> nat {
    1 + sum_in_turn(
        selected((tree.entries)(Place { base, child: Child::Itself }), Keep::Directories),
        |e: EntryView| club_dir_work(tree, e.id),
    )
}

/// How many questions a directory of a country takes.
pub open spec fn league_dir_work(tree: Tree, base: usize) -> nat {
    if (tree.is_file)(Place { base, child: Child::League }) {
        2 + clubs_work(tree, base)
    } else {
        1
    }
}

/// How many questions the leagues of a country take.
pub open spec fn leagues_work(tree: Tree, base: usize) -> nat {
    1 + sum_in_turn(
        selected((tree.entries)(Place { base, child: Child::Itself }), Keep::Leagues),
        |e: EntryView| league_dir_work(tree, e.id),
    )
}

/// How many questions a country takes.
pub open spec fn country_work(tree: Tree, base: usize) -> nat {
    let names: nat = if (tree.is_file)(Place { base, child: Child::Names }) {
        1
    } else {
        0
    };
    1 + names + players_work(tree, Place { base, child: Child::FreeAgents }) + leagues_work(
        tree,
        base,
    )
}

/// How many questions a task takes.
pub open spec fn task_work(tree: Tree, task: TaskView) -> nat {
    match task {
        TaskView::Root { path } => 1,
        TaskView::Table(table) => 1,
        TaskView::Cups => if (tree.is_file)(Table::DomesticCups.place()) {
            2
        } else {
            1
        },
        TaskView::Countries => 1 + sum_in_turn(
            selected((tree.entries)(Place { base: ROOT, child: Child::Itself }), Keep::Directories),
            |e: EntryView| country_work(tree, e.id),
        ),
        TaskView::Country(entry) => country_work(tree, entry.id),
        TaskView::Names { base, code } => 1,
        TaskView::FindPlayers { place, owner } => players_work(tree, place),
        TaskView::ListPlayers { place, owner } => 1 + selected(
            (tree.entries)(place),
            Keep::Players,
        ).len(),
        TaskView::ReadPlayers { files, owner } => files.len(),
        TaskView::Leagues { base, code } => leagues_work(tree, base),
        TaskView::FindLeague { base, code } => league_dir_work(tree, base),
        TaskView::League { base, code } => 1 + clubs_work(tree, base),
        TaskView::Clubs { base, code, league_id } => clubs_work(tree, base),
        TaskView::FindClub { base, code, league_id } => club_dir_work(tree, base),
        TaskView::Club { base, code, league_id } => club_work(tree, base),
    }
}

/// How many questions tasks take.
pub open spec fn tasks_work(tree: Tree, tasks: Seq<TaskView>) -> nat
    decreases tasks.len(),
{
    if tasks.len() == 0 {
        0
    } else {
        task_work(tree, tasks[0]) + tasks_work(tree, tasks.drop_first())
    }
}

proof fn lemma_work_add(tree: Tree, first: Seq<TaskView>, second: Seq<TaskView>)
    ensures
        tasks_work(tree, first + second) == tasks_work(tree, first) + tasks_work(tree, second),
    decreases first.len(),
{
    if first.len() == 0 {
        assert(first + second =~= second);
    } else {
        assert((first + second).drop_first() =~= first.drop_first() + second);
        lemma_work_add(tree, first.drop_first(), second);
    }
}

proof fn lemma_one_work(tree: Tree, task: TaskView)
    ensures
        tasks_work(tree, seq![task]) == task_work(tree, task),
{
    reveal_with_fuel(tasks_work, 2);
    assert(seq![task].drop_first() =~= Seq::<TaskView>::empty());
}

proof fn lemma_entry_work(
    tree: Tree,
    entries: Seq<EntryView>,
    task: spec_fn(EntryView) -> TaskView,
    size: spec_fn(EntryView) -> nat,
)
    requires
        forall|e: EntryView| #[trigger] size(e) == task_work(tree, task(e)),
    ensures
        tasks_work(tree, entries.map_values(task)) == sum_in_turn(entries, size),
    decreases entries.len(),
{
    let tasks = entries.map_values(task);
    if entries.len() > 0 {
        assert(tasks.drop_first() =~= entries.drop_first().map_values(task));
        lemma_entry_work(tree, entries.drop_first(), task, size);
        assert(size(entries[0]) == task_work(tree, tasks[0]));
    }
}

/// Answering the question of a task leaves one question less.
proof fn lemma_work(tree: Tree, task: TaskView)
    requires
        sound_task(task),
    ensures
        match true_expansion(tree, task) {
            Ok((yielded, tasks)) => task_work(tree, task) == 1 + tasks_work(tree, tasks),
            Err(_) => true,
        },
{
    match task {
        TaskView::Root { path } => {},
        TaskView::Table(table) => {},
        TaskView::Cups => {
            lemma_one_work(tree, TaskView::Table(Table::DomesticCups));
        },
        TaskView::Countries => {
            lemma_entry_work(
                tree,
                selected(
                    (tree.entries)(Place { base: ROOT, child: Child::Itself }),
                    Keep::Directories,
                ),
                |e: EntryView| TaskView::Country(e),
                |e: EntryView| country_work(tree, e.id),
            );
        },
        TaskView::Country(entry) => {
            if name_text(entry.name) is Some {
                let code = name_text(entry.name)->0;
                let names = TaskView::Names { base: entry.id, code };
                let agents = TaskView::FindPlayers {
                    place: Place { base: entry.id, child: Child::FreeAgents },
                    owner: OwnerView::Squad,
                };
                let leagues = TaskView::Leagues { base: entry.id, code };
                let last = seq![agents, leagues];
                lemma_one_work(tree, names);
                lemma_one_work(tree, leagues);
                assert(last.drop_first() =~= seq![leagues]);
                lemma_work_add(tree, seq![names], last);
                assert(Seq::<TaskView>::empty() + last =~= last);
            }
        },
        TaskView::Names { base, code } => {},
        TaskView::FindPlayers { place, owner } => {
            lemma_one_work(tree, TaskView::ListPlayers { place, owner });
        },
        TaskView::ListPlayers { place, owner } => {
            let files = ids(selected((tree.entries)(place), Keep::Players));
            lemma_one_work(tree, TaskView::ReadPlayers { files, owner });
        },
        TaskView::ReadPlayers { files, owner } => {
            let place = Place { base: files[0], child: Child::Itself };
            let next = taken(owner, tree.document(place)->Ok_0).1;
            lemma_one_work(tree, TaskView::ReadPlayers { files: files.drop_first(), owner: next });
        },
        TaskView::Leagues { base, code } => {
            lemma_entry_work(
                tree,
                selected((tree.entries)(Place { base, child: Child::Itself }), Keep::Leagues),
                |e: EntryView| TaskView::FindLeague { base: e.id, code },
                |e: EntryView| league_dir_work(tree, e.id),
            );
        },
        TaskView::FindLeague { base, code } => {
            lemma_one_work(tree, TaskView::League { base, code });
        },
        TaskView::League { base, code } => {
            match tree.document(Place { base, child: Child::League })->Ok_0.u64_at("id"@) {
                Some(league_id) => {
                    lemma_one_work(tree, TaskView::Clubs { base, code, league_id });
                },
                None => {},
            }
        },
        TaskView::Clubs { base, code, league_id } => {
            lemma_entry_work(
                tree,
                selected((tree.entries)(Place { base, child: Child::Itself }), Keep::Directories),
                |e: EntryView| TaskView::FindClub { base: e.id, code, league_id },
                |e: EntryView| club_dir_work(tree, e.id),
            );
        },
        TaskView::FindClub { base, code, league_id } => {
            lemma_one_work(tree, TaskView::Club { base, code, league_id });
        },
        TaskView::Club { base, code, league_id } => {
            let record = tree.document(Place { base, child: Child::Club });
            let club = with_country(record->Ok_0, code);
            let place = Place { base, child: Child::Players };
            let path = (tree.path)(Place { base, child: Child::Club });
            match parent_of(club) {
                Some(parent) => {
                    let owner = OwnerView::Satellite(satellite_of(club, parent, league_id, path));
                    lemma_one_work(tree, TaskView::FindPlayers { place, owner });
                },
                None => {
                    lemma_one_work(tree, TaskView::FindPlayers { place, owner: OwnerView::Squad });
                },
            }
        },
    }
}

/// A walk after at most `replies` true replies, or the error that ended it.
pub open spec fn run(tree: Tree, walk: WalkView, replies: nat) -> Result<WalkView, ErrorView>
    decreases replies,
{
    if replies == 0 || walk.tasks.len() == 0 {
        Ok(walk)
    } else {
        match tree.step(walk) {
            Ok(next) => run(tree, next, (replies - 1) as nat),
            Err(e) => Err(e),
        }
    }
}

proof fn lemma_run(tree: Tree, walk: WalkView, replies: nat)
    requires
        sound(walk),
        replies >= tasks_work(tree, walk.tasks),
    ensures
        match run(tree, walk, replies) {
            Ok(end) => end.action() is Finished && walk_part(tree, walk) == Ok::<
                CollectedView,
                ErrorView,
            >(end.collected),
            Err(e) => walk_part(tree, walk) == Err::<CollectedView, ErrorView>(e),
        },
    decreases replies,
{
    if walk.tasks.len() == 0 {
        finished_walk_has_gathered_all(tree, walk);
    } else {
        let task = walk.tasks[0];
        assert(sound_task(task));
        lemma_work(tree, task);
        true_reply_keeps_what_walk_comes_to(tree, walk);
        match true_expansion(tree, task) {
            Ok((yielded, tasks)) => {
                lemma_work_add(tree, tasks, walk.tasks.drop_first());
                let next = tree.step(walk)->Ok_0;
                assert(replies > 0) by {
                    assert(task_work(tree, task) >= 1);
                }
                lemma_run(tree, next, (replies - 1) as nat);
            },
            Err(_) => {
                assert(task_work(tree, task) >= 1);
            },
        }
    }
}

/// A walk through a tree ends after finitely many replies. It then has gathered
/// what the whole tree holds; or it has ended with the first error in the tree.
pub proof fn walk_gathers_whole_tree(tree: Tree, path: Seq<char>, replies: nat)
    requires
        replies >= tasks_work(tree, started(path).tasks),
    ensures
        match run(tree, started(path), replies) {
            Ok(end) => end.action() is Finished && whole_tree(tree, path) == Ok::<
                CollectedView,
                ErrorView,
            >(end.collected),
            Err(e) => whole_tree(tree, path) == Err::<CollectedView, ErrorView>(e),
        },
{
    fresh_walk_comes_to_whole_tree(tree, path);
    lemma_run(tree, started(path), replies);
}

} // verus!
