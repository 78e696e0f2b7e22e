//! A walk ends at the first file that holds no JSON.

use crate::codec::{document_in, parsed};
use crate::collected::CollectedView;
use crate::error::ErrorView;
use crate::json::JsonView;
use crate::questions::{Action, Place};
use crate::tree::{whole_tree, Tree};
use crate::walk::{started, WalkView};
use crate::walk_laws::{run, tasks_work, walk_gathers_whole_tree};
use vstd::prelude::*;

verus! {

/// A text is read as the value that it denotes, and as nothing else; where it
/// denotes none, the error names the file and says what is wrong.
pub proof fn text_is_read_as_what_it_denotes(
    text: Seq<char>,
    path: Seq<char>,
    value: JsonView,
    cause: serde_json::Error,
)
    ensures
        document_in(text, path) == Ok::<JsonView, ErrorView>(value) <==> parsed(text) == Ok::<
            JsonView,
            serde_json::Error,
        >(value),
        document_in(text, path) == Err::<JsonView, ErrorView>(ErrorView::Parse { path, cause })
            <==> parsed(text) == Err::<JsonView, serde_json::Error>(cause),
{
}

/// After `before` true replies and no error, the walk wants to read the file at
/// `place`, whose text is no JSON for the reason `cause`.
pub open spec fn comes_to_no_json(
    tree: Tree,
    walk: WalkView,
    before: nat,
    place: Place,
    cause: serde_json::Error,
) -> bool {
    &&& run(tree, walk, before) matches Ok(at) && at.action() == Action::Read(place)
    &&& parsed((tree.text)(place)) == Err::<JsonView, serde_json::Error>(cause)
}

/// The walk ends with the file that it has come to.
proof fn lemma_ends_there(
    tree: Tree,
    walk: WalkView,
    before: nat,
    place: Place,
    cause: serde_json::Error,
    replies: nat,
)
    requires
        comes_to_no_json(tree, walk, before, place, cause),
        before < replies,
    ensures
        run(tree, walk, replies) == Err::<WalkView, ErrorView>(
            ErrorView::Parse { path: (tree.path)(place), cause },
        ),
    decreases before,
{
    if before > 0 && walk.tasks.len() > 0 {
        let next = tree.step(walk)->Ok_0;
        lemma_ends_there(
            tree,
            next,
            (before - 1) as nat,
            place,
            cause,
            (replies - 1) as nat,
        );
    }
}

/// Only reading finds that a text is no JSON.
proof fn lemma_found_by_reading(tree: Tree, walk: WalkView)
    requires
        walk.tasks.len() > 0,
    ensures
        tree.step(walk) matches Err(ErrorView::Parse { path, cause }) ==> {
            &&& walk.action() matches Action::Read(place) && (tree.path)(place) == path
                && comes_to_no_json(tree, walk, 0, place, cause)
        },
{
}

/// A walk that ends because a file is no JSON has come to that file.
proof fn lemma_came_there(
    tree: Tree,
    walk: WalkView,
    replies: nat,
    path: Seq<char>,
    cause: serde_json::Error,
) -> (found: (nat, Place))
    requires
        run(tree, walk, replies) == Err::<WalkView, ErrorView>(ErrorView::Parse { path, cause }),
    ensures
        found.0 < replies,
        comes_to_no_json(tree, walk, found.0, found.1, cause),
        (tree.path)(found.1) == path,
    decreases replies,
{
    match tree.step(walk) {
        Ok(next) => {
            let found = lemma_came_there(tree, next, (replies - 1) as nat, path, cause);
            (found.0 + 1, found.1)
        },
        Err(_) => {
            lemma_found_by_reading(tree, walk);
            (0, walk.action()->Read_0)
        },
    }
}

/// A walk that comes to a file which is no JSON, before any other error, ends
/// with the error that names that file and says what is wrong with it; and so
/// does what the tree holds.
pub proof fn walk_ends_at_first_file_without_json(
    tree: Tree,
    path: Seq<char>,
    before: nat,
    place: Place,
    cause: serde_json::Error,
    replies: nat,
)
    requires
        before < replies,
    ensures
        comes_to_no_json(tree, started(path), before, place, cause) ==> {
            &&& run(tree, started(path), replies) == Err::<WalkView, ErrorView>(
                ErrorView::Parse { path: (tree.path)(place), cause },
            )
            &&& whole_tree(tree, path) == Err::<CollectedView, ErrorView>(
                ErrorView::Parse { path: (tree.path)(place), cause },
            )
        },
{
    if comes_to_no_json(tree, started(path), before, place, cause) {
        let enough = replies + tasks_work(tree, started(path).tasks);
        lemma_ends_there(tree, started(path), before, place, cause, replies);
        lemma_ends_there(tree, started(path), before, place, cause, enough);
        walk_gathers_whole_tree(tree, path, enough);
    }
}

/// Where a file that is no JSON is reported, the walk has come to that file
/// before any other error, and the reason is why its text is no JSON.
pub proof fn reported_file_holds_no_json(
    tree: Tree,
    path: Seq<char>,
    file: Seq<char>,
    cause: serde_json::Error,
)
    ensures
        whole_tree(tree, path) == Err::<CollectedView, ErrorView>(
            ErrorView::Parse { path: file, cause },
        ) ==> exists|before: nat, place: Place| #[trigger]
            comes_to_no_json(tree, started(path), before, place, cause) && (tree.path)(place)
                == file,
{
    if whole_tree(tree, path) == Err::<CollectedView, ErrorView>(
        ErrorView::Parse { path: file, cause },
    ) {
        let enough = tasks_work(tree, started(path).tasks);
        walk_gathers_whole_tree(tree, path, enough);
        let found = lemma_came_there(tree, started(path), enough, file, cause);
        assert(comes_to_no_json(tree, started(path), found.0, found.1, cause));
    }
}

} // verus!
