//! The command line: which command was asked for, and the value of an
//! option such as `--schema <file>`.

use vstd::prelude::*;
use crate::text::chars_of;
use crate::sql_script::strings_of;

verus! {

/// Tells whether two texts are the same.
pub fn text_eq(a: &str, b: &str) -> (r: bool)
    ensures
        r == (a@ == b@),
{
    let x = chars_of(a);
    let y = chars_of(b);
    if x.len() != y.len() {
        return false;
    }
    let mut i: usize = 0;
    while i < x.len()
        invariant
            i <= x.len() == y.len(),
            x@ == a@,
            y@ == b@,
            forall|k: int| 0 <= k < i ==> x@[k] == y@[k],
        decreases x.len() - i,
    {
        if x[i] != y[i] {
            return false;
        }
        i = i + 1;
    }
    assert(x@ =~= y@);
    true
}

/// The value given to `flag` in `args`, looking from position `i` on:
/// the argument that follows the first `flag` that has one, or `default`.
pub open spec fn arg_value_from(
    args: Seq<Seq<char>>,
    flag: Seq<char>,
    default: Seq<char>,
    i: int,
) -> Seq<char>
    decreases args.len() - i,
{
    if i < 0 || i >= args.len() {
        default
    } else if args[i] == flag && i + 1 < args.len() {
        args[i + 1]
    } else {
        arg_value_from(args, flag, default, i + 1)
    }
}

/// The value given to `flag` on the command line `args`, or `default`.
pub open spec fn arg_value_spec(args: Seq<Seq<char>>, flag: Seq<char>, default: Seq<char>) -> Seq<
    char,
> {
    arg_value_from(args, flag, default, 0)
}

/// The argument that follows the first `flag` of `args`, or `default` when
/// `flag` is absent or stands last with nothing after it.
pub fn arg_value(args: &Vec<String>, flag: &str, default: &str) -> (r: String)
    ensures
        r@ == arg_value_spec(strings_of(args@), flag@, default@),
{
    let mut i: usize = 0;
    while i < args.len()
        invariant
            i <= args.len(),
            arg_value_spec(strings_of(args@), flag@, default@) == arg_value_from(
                strings_of(args@),
                flag@,
                default@,
                i as int,
            ),
        decreases args.len() - i,
    {
        assert(strings_of(args@)[i as int] == args@[i as int]@);
        if text_eq(args[i].as_str(), flag) && i + 1 < args.len() {
            assert(strings_of(args@)[i + 1] == args@[i + 1]@);
            return args[i + 1].clone();
        }
        i = i + 1;
    }
    String::from_str(default)
}

/// What the program is asked to do.
#[derive(Debug, PartialEq, Eq)]
pub enum Command {
    /// Create the schema from a SQL script.
    InitDb { schema: String },
    /// Load the CSV files of a directory.
    LoadData { data_dir: String },
    /// Run the Mission 1 queries.
    Mission1,
    /// Show the usage.
    Help,
    /// No command was given.
    Missing,
    /// A command that does not exist.
    Unknown { name: String },
}

/// The command that the arguments `args` (program name first) ask for.
pub fn parse_command(args: &Vec<String>) -> (r: Command)
    ensures
        args.len() < 2 ==> r is Missing,
        args.len() >= 2 ==> {
            let c = args@[1]@;
            let all = strings_of(args@);
            if c == "init-db"@ {
                r matches Command::InitDb { schema } && schema@ == arg_value_spec(
                    all,
                    "--schema"@,
                    "schema.sql"@,
                )
            } else if c == "load-data"@ {
                r matches Command::LoadData { data_dir } && data_dir@ == arg_value_spec(
                    all,
                    "--data-dir"@,
                    "data"@,
                )
            } else if c == "mission1"@ {
                r is Mission1
            } else if c == "-h"@ || c == "--help"@ {
                r is Help
            } else {
                r matches Command::Unknown { name } && name@ == c
            }
        },
{
    if args.len() < 2 {
        return Command::Missing;
    }
    let c = args[1].as_str();
    if text_eq(c, "init-db") {
        Command::InitDb { schema: arg_value(args, "--schema", "schema.sql") }
    } else if text_eq(c, "load-data") {
        Command::LoadData { data_dir: arg_value(args, "--data-dir", "data") }
    } else if text_eq(c, "mission1") {
        Command::Mission1
    } else if text_eq(c, "-h") || text_eq(c, "--help") {
        Command::Help
    } else {
        Command::Unknown { name: args[1].clone() }
    }
}

/// The value of a flag is the argument right after its first occurrence
/// that has one, unchanged; with no such occurrence it is the default.
pub proof fn law_arg_value_is_next_argument(
    args: Seq<Seq<char>>,
    flag: Seq<char>,
    default: Seq<char>,
    i: int,
)
    requires
        0 <= i,
        i + 1 < args.len(),
        args[i] == flag,
        forall|j: int| 0 <= j < i ==> !(#[trigger] args[j] == flag && j + 1 < args.len()),
    ensures
        arg_value_spec(args, flag, default) == args[i + 1],
{
    lemma_arg_value_from(args, flag, default, 0, i);
}

/// When no occurrence of the flag has an argument after it, its value is
/// the default.
pub proof fn law_arg_value_default(args: Seq<Seq<char>>, flag: Seq<char>, default: Seq<char>)
    requires
        forall|j: int| 0 <= j < args.len() ==> !(#[trigger] args[j] == flag && j + 1 < args.len()),
    ensures
        arg_value_spec(args, flag, default) == default,
{
    lemma_arg_value_absent(args, flag, default, 0);
}

proof fn lemma_arg_value_from(
    args: Seq<Seq<char>>,
    flag: Seq<char>,
    default: Seq<char>,
    from: int,
    i: int,
)
    requires
        0 <= from <= i,
        i + 1 < args.len(),
        args[i] == flag,
        forall|j: int| from <= j < i ==> !(#[trigger] args[j] == flag && j + 1 < args.len()),
    ensures
        arg_value_from(args, flag, default, from) == args[i + 1],
    decreases i - from,
{
    if from < i {
        lemma_arg_value_from(args, flag, default, from + 1, i);
    }
}

proof fn lemma_arg_value_absent(args: Seq<Seq<char>>, flag: Seq<char>, default: Seq<char>, from: int)
    requires
        0 <= from,
        forall|j: int| from <= j < args.len() ==> !(#[trigger] args[j] == flag && j + 1 < args.len()),
    ensures
        arg_value_from(args, flag, default, from) == default,
    decreases args.len() - from,
{
    if from < args.len() {
        lemma_arg_value_absent(args, flag, default, from + 1);
    }
}

} // verus!
