//! Command-line scanning: a pure pass over the argument strings, specified
//! by a spec-level scan of the same list.

use crate::text::{seq_views, str_eq};
use vstd::prelude::*;

verus! {

/// Parsed command line: the input path, and the CSV output path when a CSV
/// file rather than a table was asked for.
#[derive(Debug, Clone)]
pub struct Args {
    pub input_file: String,
    pub csv_output: Option<String>,
}

/// Why the command line was rejected.
#[derive(Debug, Clone, PartialEq, Eq)]
pub enum ArgError {
    TooFewArgs,
    MissingFileValue,
    MissingCsvValue,
    UnknownArgument(String),
    MissingInputFile,
}

/// Spec-level outcome of scanning an argument list.
pub enum ArgOutcome {
    Parsed(Seq<char>, Option<Seq<char>>),
    TooFew,
    NoFileValue,
    NoCsvValue,
    Unrecognized(Seq<char>),
    NoInputFile,
}

pub open spec fn flag_f() -> Seq<char> {
    seq!['-', 'f']
}

pub open spec fn flag_csv() -> Seq<char> {
    seq!['-', '-', 'c', 's', 'v']
}

pub open spec fn opt_str_view(o: Option<String>) -> Option<Seq<char>> {
    match o {
        Some(s) => Some(s@),
        None => None,
    }
}

/// Scan the arguments from position `i` with the values gathered so far.
/// `-f` and `--csv` each take the following argument as their value; a
/// repeated flag keeps the last value, as the scan overwrites the earlier one.
pub open spec fn scan_args(
    args: Seq<Seq<char>>,
    i: int,
    input: Option<Seq<char>>,
    csv: Option<Seq<char>>,
) -> ArgOutcome
    decreases args.len() - i,
{
    if i >= args.len() {
        match input {
            Some(f) => ArgOutcome::Parsed(f, csv),
            None => ArgOutcome::NoInputFile,
        }
    } else if args[i] == flag_f() {
        if i + 1 >= args.len() {
            ArgOutcome::NoFileValue
        } else {
            scan_args(args, i + 2, Some(args[i + 1]), csv)
        }
    } else if args[i] == flag_csv() {
        if i + 1 >= args.len() {
            ArgOutcome::NoCsvValue
        } else {
            scan_args(args, i + 2, input, Some(args[i + 1]))
        }
    } else {
        ArgOutcome::Unrecognized(args[i])
    }
}

/// What parsing a full argument list (program name first) comes to: fewer
/// than three arguments is a usage error, else the flags are scanned.
pub open spec fn parse_outcome(args: Seq<Seq<char>>) -> ArgOutcome {
    if args.len() < 3 {
        ArgOutcome::TooFew
    } else {
        scan_args(args, 1, None, None)
    }
}

proof fn lemma_flag_lits()
    ensures
        "-f"@ == flag_f(),
        "--csv"@ == flag_csv(),
{
    reveal_strlit("-f");
    reveal_strlit("--csv");
    assert("-f"@ =~= flag_f());
    assert("--csv"@ =~= flag_csv());
}

/// Parse the argument list, program name included, as the CLI defines it.
pub fn parse_args(args: &Vec<String>) -> (r: Result<Args, ArgError>)
    ensures
        (match r {
            Ok(a) => parse_outcome(seq_views(args@)) == ArgOutcome::Parsed(
                a.input_file@,
                opt_str_view(a.csv_output),
            ),
            Err(ArgError::TooFewArgs) => parse_outcome(seq_views(args@)) == ArgOutcome::TooFew,
            Err(ArgError::MissingFileValue) => parse_outcome(seq_views(args@))
                == ArgOutcome::NoFileValue,
            Err(ArgError::MissingCsvValue) => parse_outcome(seq_views(args@))
                == ArgOutcome::NoCsvValue,
            Err(ArgError::UnknownArgument(s)) => parse_outcome(seq_views(args@))
                == ArgOutcome::Unrecognized(s@),
            Err(ArgError::MissingInputFile) => parse_outcome(seq_views(args@))
                == ArgOutcome::NoInputFile,
        }),
{
    if args.len() < 3 {
        return Err(ArgError::TooFewArgs);
    }
    let mut input: Option<String> = None;
    let mut csv: Option<String> = None;
    let mut i: usize = 1;
    while i < args.len()
        invariant
            1 <= i,
            3 <= args@.len(),
            scan_args(seq_views(args@), i as int, opt_str_view(input), opt_str_view(csv))
                == parse_outcome(seq_views(args@)),
        decreases args@.len() - i,
    {
        proof {
            lemma_flag_lits();
        }
        if str_eq(args[i].as_str(), "-f") {
            if i + 1 >= args.len() {
                return Err(ArgError::MissingFileValue);
            }
            input = Some(args[i + 1].clone());
            i = i + 2;
        } else if str_eq(args[i].as_str(), "--csv") {
            if i + 1 >= args.len() {
                return Err(ArgError::MissingCsvValue);
            }
            csv = Some(args[i + 1].clone());
            i = i + 2;
        } else {
            return Err(ArgError::UnknownArgument(args[i].clone()));
        }
    }
    match input {
        Some(f) => Ok(Args { input_file: f, csv_output: csv }),
        None => Err(ArgError::MissingInputFile),
    }
}

} // verus!
