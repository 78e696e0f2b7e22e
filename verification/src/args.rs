//! The command line.

use crate::text::same_text;
use vstd::prelude::*;
use vstd::string::StringExecFns;

verus! {

/// Where the data tree lies unless the command line says otherwise.
pub const DEFAULT_DATA_DIR: &'static str = "../data";

/// Where the database goes unless the command line says otherwise.
pub const DEFAULT_OUT_FILE: &'static str = r"D:\Projects\open-football\src\database\src\data\database.db";

/// What to compile.
#[derive(Debug)]
pub struct Args {
    /// The root of the data tree.
    pub data_dir: String,
    /// The file to write.
    pub out_file: String,
}

/// What a command line asks for.
#[derive(Debug)]
pub enum Invocation {
    /// To compile.
    Run(Args),
    /// To be told how to use the program.
    Help,
    /// Something unknown.
    Unknown(String),
    /// A value is missing behind `--data-dir`.
    NoDataDir,
    /// A value is missing behind `--out`.
    NoOutFile,
}

/// What an [`Invocation`] says.
pub enum InvocationView {
    Run { data_dir: Seq<char>, out_file: Seq<char> },
    Help,
    Unknown(Seq<char>),
    NoDataDir,
    NoOutFile,
}

impl View for Invocation {
    type V = InvocationView;

    open spec fn view(&self) -> InvocationView {
        match *self {
            Invocation::Run(args) => InvocationView::Run {
                data_dir: args.data_dir@,
                out_file: args.out_file@,
            },
            Invocation::Help => InvocationView::Help,
            Invocation::Unknown(arg) => InvocationView::Unknown(arg@),
            Invocation::NoDataDir => InvocationView::NoDataDir,
            Invocation::NoOutFile => InvocationView::NoOutFile,
        }
    }
}

/// What the arguments ask for, where those before them have set `data_dir` and
/// `out_file`. The last setting counts; the first argument that asks for help,
/// is unknown, or lacks its value decides.
pub open spec fn invocation(
    args: Seq<Seq<char>>,
    data_dir: Seq<char>,
    out_file: Seq<char>,
) -> InvocationView
    decreases args.len(),
{
    if args.len() == 0 {
        InvocationView::Run { data_dir, out_file }
    } else if args[0] == "--data-dir"@ {
        if args.len() == 1 {
            InvocationView::NoDataDir
        } else {
            invocation(args.skip(2), args[1], out_file)
        }
    } else if args[0] == "--out"@ {
        if args.len() == 1 {
            InvocationView::NoOutFile
        } else {
            invocation(args.skip(2), data_dir, args[1])
        }
    } else if args[0] == "-h"@ || args[0] == "--help"@ {
        InvocationView::Help
    } else {
        InvocationView::Unknown(args[0])
    }
}

/// The view of arguments, one by one.
pub open spec fn args_view(args: Seq<String>) -> Seq<Seq<char>> {
    args.map_values(|arg: String| arg@)
}

/// Reads the arguments behind the name of the program.
pub fn parse_args(args: &Vec<String>) -> (asked: Invocation)
    ensures
        asked@ == invocation(args_view(args@), DEFAULT_DATA_DIR@, DEFAULT_OUT_FILE@),
{
    let ghost all = args_view(args@);
    let mut data_dir: String = DEFAULT_DATA_DIR.to_owned();
    let mut out_file: String = DEFAULT_OUT_FILE.to_owned();
    let mut i: usize = 0;
    assert(all.skip(0) =~= all);
    while i < args.len()
        invariant
            i <= args@.len(),
            all == args_view(args@),
            invocation(all, DEFAULT_DATA_DIR@, DEFAULT_OUT_FILE@) == invocation(
                all.skip(i as int),
                data_dir@,
                out_file@,
            ),
        decreases args@.len() - i,
    {
        let arg: &str = args[i].as_str();
        assert(all.skip(i as int)[0] == arg@);
        if i + 1 < args.len() {
            assert(all.skip(i as int)[1] == args@[i + 1]@);
            assert(all.skip(i as int).skip(2) =~= all.skip(i + 2));
        }
        if same_text(arg, "--data-dir") {
            if args.len() - i == 1 {
                return Invocation::NoDataDir;
            }
            data_dir = args[i + 1].clone();
            i += 2;
        } else if same_text(arg, "--out") {
            if args.len() - i == 1 {
                return Invocation::NoOutFile;
            }
            out_file = args[i + 1].clone();
            i += 2;
        } else if same_text(arg, "-h") || same_text(arg, "--help") {
            return Invocation::Help;
        } else {
            return Invocation::Unknown(arg.to_owned());
        }
    }
    Invocation::Run(Args { data_dir, out_file })
}

/// How to use the program.
pub fn help_text() -> (text: String)
    ensures
        text@ == "compiler — build database.db from the data tree\n\n"@
            + "Usage: compiler [--data-dir PATH] [--out PATH]\n\n"@ + "Options:\n"@
            + "  --data-dir PATH   Source tree root (default: ./"@ + DEFAULT_DATA_DIR@ + ")\n"@
            + "  --out PATH        Output file (default: ./"@ + DEFAULT_OUT_FILE@ + ")\n"@,
{
    let mut text = "compiler — build database.db from the data tree\n\n".to_owned();
    text.append("Usage: compiler [--data-dir PATH] [--out PATH]\n\n");
    text.append("Options:\n");
    text.append("  --data-dir PATH   Source tree root (default: ./");
    text.append(DEFAULT_DATA_DIR);
    text.append(")\n");
    text.append("  --out PATH        Output file (default: ./");
    text.append(DEFAULT_OUT_FILE);
    text.append(")\n");
    text
}

} // verus!
