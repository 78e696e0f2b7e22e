//! What a command line means.

use crate::args::{invocation, InvocationView};
use vstd::prelude::*;

verus! {

/// The option of the pair `i` of arguments.
pub open spec fn option_at(args: Seq<Seq<char>>, i: int) -> Seq<char> {
    args[2 * i]
}

/// The value of the pair `i` of arguments.
pub open spec fn value_at(args: Seq<Seq<char>>, i: int) -> Seq<char> {
    args[2 * i + 1]
}

/// The argument sets a path.
pub open spec fn is_setting(arg: Seq<char>) -> bool {
    arg == "--data-dir"@ || arg == "--out"@
}

/// The arguments start with `count` settings, each with its value.
pub open spec fn settings_first(args: Seq<Seq<char>>, count: int) -> bool {
    &&& 0 <= 2 * count <= args.len()
    &&& forall|i: int| 0 <= i < count ==> is_setting(#[trigger] option_at(args, i))
}

/// The setting `last` is the last of the first `count` that is for `option`.
pub open spec fn last_setting(
    args: Seq<Seq<char>>,
    count: int,
    option: Seq<char>,
    last: int,
) -> bool {
    &&& 0 <= last < count && option_at(args, last) == option
    &&& forall|i: int| last < i < count ==> #[trigger] option_at(args, i) != option
}

/// `value` is what the first `count` settings give `option`: the value behind
/// the last of them that is for it, or `default` where none is.
pub open spec fn set_to(
    args: Seq<Seq<char>>,
    count: int,
    option: Seq<char>,
    default: Seq<char>,
    value: Seq<char>,
) -> bool {
    ||| value == default && forall|i: int|
        0 <= i < count ==> #[trigger] option_at(args, i) != option
    ||| exists|last: int| #[trigger]
        last_setting(args, count, option, last) && value == value_at(args, last)
}

proof fn lemma_options()
    ensures
        "--data-dir"@ != "--out"@,
        "--data-dir"@ != "-h"@,
        "--data-dir"@ != "--help"@,
        "--out"@ != "-h"@,
        "--out"@ != "--help"@,
{
    reveal_strlit("--data-dir");
    reveal_strlit("--out");
    reveal_strlit("-h");
    reveal_strlit("--help");
    assert("--data-dir"@.len() == 10);
    assert("--out"@.len() == 5);
    assert("-h"@.len() == 2);
    assert("--help"@.len() == 6);
}

/// Behind the first pair the pairs are those of the rest.
proof fn lemma_rest(args: Seq<Seq<char>>, i: int)
    requires
        0 < i,
        2 * i + 1 <= args.len(),
    ensures
        option_at(args.skip(2), i - 1) == option_at(args, i),
        2 * i + 2 <= args.len() ==> value_at(args.skip(2), i - 1) == value_at(args, i),
{
}

/// What is set by the settings behind the first is what all settings set.
proof fn lemma_set_to(
    args: Seq<Seq<char>>,
    count: int,
    option: Seq<char>,
    default: Seq<char>,
    value: Seq<char>,
)
    requires
        count > 0,
        2 * count <= args.len(),
        set_to(
            args.skip(2),
            count - 1,
            option,
            if option_at(args, 0) == option {
                value_at(args, 0)
            } else {
                default
            },
            value,
        ),
    ensures
        set_to(args, count, option, default, value),
{
    let rest = args.skip(2);
    if exists|last: int| #[trigger]
        last_setting(rest, count - 1, option, last) && value == value_at(rest, last) {
        let last = choose|last: int| #[trigger]
            last_setting(rest, count - 1, option, last) && value == value_at(rest, last);
        lemma_rest(args, last + 1);
        assert forall|i: int| last + 1 < i < count implies #[trigger] option_at(args, i)
            != option by {
            lemma_rest(args, i);
        }
        assert(last_setting(args, count, option, last + 1));
    } else {
        assert forall|i: int| 0 < i < count implies #[trigger] option_at(args, i) != option by {
            lemma_rest(args, i);
        }
        if option_at(args, 0) == option {
            assert(last_setting(args, count, option, 0));
        } else {
            assert forall|i: int| 0 <= i < count implies #[trigger] option_at(args, i)
                != option by {}
        }
    }
}

/// What is asked for where `count` settings have come and then an argument that
/// is no setting with its value.
pub open spec fn decided_by(args: Seq<Seq<char>>, count: int, asked: InvocationView) -> bool {
    let arg = option_at(args, count);
    if arg == "--data-dir"@ {
        asked is NoDataDir
    } else if arg == "--out"@ {
        asked is NoOutFile
    } else if arg == "-h"@ || arg == "--help"@ {
        asked is Help
    } else {
        asked == InvocationView::Unknown(arg)
    }
}

/// Settings are taken pair by pair. Where all arguments are settings with their
/// values, the last value for each path counts, and the default where there is
/// none. Else the first argument that is no setting with its value decides:
/// whether a value is missing, help is wanted, or the argument is unknown.
pub proof fn command_line_means_what_it_says(
    args: Seq<Seq<char>>,
    data_dir: Seq<char>,
    out_file: Seq<char>,
    count: int,
)
    requires
        settings_first(args, count),
    ensures
        2 * count == args.len() ==> (invocation(args, data_dir, out_file) matches
            InvocationView::Run { data_dir: d, out_file: o } && set_to(
            args,
            count,
            "--data-dir"@,
            data_dir,
            d,
        ) && set_to(args, count, "--out"@, out_file, o)),
        2 * count < args.len() && (is_setting(option_at(args, count)) ==> 2 * count + 1
            == args.len()) ==> decided_by(args, count, invocation(args, data_dir, out_file)),
    decreases count,
{
    lemma_options();
    if count > 0 {
        let rest = args.skip(2);
        assert(is_setting(option_at(args, 0)));
        assert forall|i: int| 0 <= i < count - 1 implies is_setting(
            #[trigger] option_at(rest, i),
        ) by {
            lemma_rest(args, i + 1);
            assert(is_setting(option_at(args, i + 1)));
        }
        let d = if option_at(args, 0) == "--data-dir"@ {
            value_at(args, 0)
        } else {
            data_dir
        };
        let o = if option_at(args, 0) == "--out"@ {
            value_at(args, 0)
        } else {
            out_file
        };
        command_line_means_what_it_says(rest, d, o, count - 1);
        assert(invocation(args, data_dir, out_file) == invocation(rest, d, o));
        if 2 * count < args.len() {
            lemma_rest(args, count);
        } else {
            match invocation(rest, d, o) {
                InvocationView::Run { data_dir: found_d, out_file: found_o } => {
                    lemma_set_to(args, count, "--data-dir"@, data_dir, found_d);
                    lemma_set_to(args, count, "--out"@, out_file, found_o);
                },
                _ => {},
            }
        }
    }
}

} // verus!
