//! Interpretation of command-line arguments: which flags set which settings,
//! their defaults, and which arguments are rejected.
use crate::chunker::collect_chars;
use vstd::prelude::*;

verus! {

/// The chunk size used when none is given.
pub const DEFAULT_CHUNK_SIZE: usize = 100;

/// The largest overlap percentage accepted on the command line.
pub const MAX_REQUESTED_OVERLAP: u8 = 100;

/// Why the arguments could not be used.
#[derive(Debug, Clone, PartialEq, Eq)]
pub enum CliError {
    /// No argument beyond the program name.
    MissingArguments,
    /// The value after the size flag is not a non-negative integer.
    InvalidSize,
    /// The size flag is the last argument.
    MissingSizeValue,
    /// The value after the overlap flag is not an integer from 0 to 100.
    InvalidOverlap,
    /// The overlap flag is the last argument.
    MissingOverlapValue,
    /// An argument that starts with `-` and names no known flag.
    UnknownOption(String),
}

/// The settings of one chunking run.
#[derive(Debug, Clone, PartialEq, Eq)]
pub struct CliSettings {
    pub chunk_size: usize,
    pub overlap_percentage: u8,
    /// The file to read; standard input when absent.
    pub input_file: Option<String>,
}

/// What the arguments ask for.
#[derive(Debug, Clone, PartialEq, Eq)]
pub enum CliAction {
    ShowHelp,
    Chunk(CliSettings),
}

/// The outcome of reading the arguments, over character sequences.
pub ghost enum ArgsOutcome {
    Help,
    Run { chunk_size: usize, overlap_percentage: u8, input_file: Option<Seq<char>> },
    MissingArguments,
    InvalidSize,
    MissingSizeValue,
    InvalidOverlap,
    MissingOverlapValue,
    UnknownOption(Seq<char>),
}

/// What `usize`'s `FromStr` makes of a text, when it accepts it.
pub uninterp spec fn parsed_usize(s: Seq<char>) -> Option<usize>;

/// What `u8`'s `FromStr` makes of a text, when it accepts it.
pub uninterp spec fn parsed_u8(s: Seq<char>) -> Option<u8>;

/// Relies on `<usize as FromStr>::from_str`: the value of a decimal text, or
/// `None` where it is refused; the outcome depends on the text alone.
#[verifier::external_body]
fn parse_usize(s: &String) -> (r: Option<usize>)
    ensures
        r == parsed_usize(s@),
{
    s.parse::<usize>().ok()
}

/// Relies on `<u8 as FromStr>::from_str`: the value of a decimal text, or
/// `None` where it is refused; the outcome depends on the text alone.
#[verifier::external_body]
fn parse_u8(s: &String) -> (r: Option<u8>)
    ensures
        r == parsed_u8(s@),
{
    s.parse::<u8>().ok()
}

pub open spec fn is_help_flag(a: Seq<char>) -> bool {
    a == seq!['-', 'h'] || a == seq!['-', '-', 'h', 'e', 'l', 'p']
}

pub open spec fn is_size_flag(a: Seq<char>) -> bool {
    a == seq!['-', 's'] || a == seq!['-', '-', 's', 'i', 'z', 'e']
}

pub open spec fn is_overlap_flag(a: Seq<char>) -> bool {
    a == seq!['-', 'o'] || a == seq!['-', '-', 'o', 'v', 'e', 'r', 'l', 'a', 'p']
}

/// An argument that does not start with `-` names the input file.
pub open spec fn is_operand(a: Seq<char>) -> bool {
    a.len() == 0 || a[0] != '-'
}

/// Reads `args` from position `i` on, given the settings gathered so far.
/// Arguments are taken in order; a help flag or a fault ends the reading at
/// once, and a later value of a setting replaces an earlier one.
pub open spec fn outcome_from(
    args: Seq<Seq<char>>,
    i: int,
    size: usize,
    overlap: u8,
    file: Option<Seq<char>>,
) -> ArgsOutcome
    decreases args.len() - i,
{
    if i < 0 || i >= args.len() {
        ArgsOutcome::Run { chunk_size: size, overlap_percentage: overlap, input_file: file }
    } else {
        let a = args[i];
        if is_help_flag(a) {
            ArgsOutcome::Help
        } else if is_size_flag(a) {
            if i + 1 < args.len() {
                match parsed_usize(args[i + 1]) {
                    Some(n) => outcome_from(args, i + 2, n, overlap, file),
                    None => ArgsOutcome::InvalidSize,
                }
            } else {
                ArgsOutcome::MissingSizeValue
            }
        } else if is_overlap_flag(a) {
            if i + 1 < args.len() {
                match parsed_u8(args[i + 1]) {
                    Some(v) => if v <= MAX_REQUESTED_OVERLAP {
                        outcome_from(args, i + 2, size, v, file)
                    } else {
                        ArgsOutcome::InvalidOverlap
                    },
                    None => ArgsOutcome::InvalidOverlap,
                }
            } else {
                ArgsOutcome::MissingOverlapValue
            }
        } else if is_operand(a) {
            outcome_from(args, i + 1, size, overlap, Some(a))
        } else {
            ArgsOutcome::UnknownOption(a)
        }
    }
}

/// The outcome for a whole argument list, the program's name first: with no
/// further argument it is a fault; otherwise the chunk size starts at its
/// default, the overlap at zero, and input at standard input.
pub open spec fn args_outcome(args: Seq<Seq<char>>) -> ArgsOutcome {
    if args.len() < 2 {
        ArgsOutcome::MissingArguments
    } else {
        outcome_from(args, 1, DEFAULT_CHUNK_SIZE, 0, None)
    }
}

/// The arguments as character sequences.
pub open spec fn args_view(args: Seq<String>) -> Seq<Seq<char>> {
    args.map_values(|a: String| a@)
}

pub open spec fn file_view(f: Option<String>) -> Option<Seq<char>> {
    match f {
        Some(s) => Some(s@),
        None => None,
    }
}

/// The outcome that a result of `parse_args` stands for.
pub open spec fn outcome_of(r: Result<CliAction, CliError>) -> ArgsOutcome {
    match r {
        Ok(CliAction::ShowHelp) => ArgsOutcome::Help,
        Ok(CliAction::Chunk(c)) => ArgsOutcome::Run {
            chunk_size: c.chunk_size,
            overlap_percentage: c.overlap_percentage,
            input_file: file_view(c.input_file),
        },
        Err(CliError::MissingArguments) => ArgsOutcome::MissingArguments,
        Err(CliError::InvalidSize) => ArgsOutcome::InvalidSize,
        Err(CliError::MissingSizeValue) => ArgsOutcome::MissingSizeValue,
        Err(CliError::InvalidOverlap) => ArgsOutcome::InvalidOverlap,
        Err(CliError::MissingOverlapValue) => ArgsOutcome::MissingOverlapValue,
        Err(CliError::UnknownOption(a)) => ArgsOutcome::UnknownOption(a@),
    }
}

/// An overlap value read from the command line, kept where it is at most
/// 100 and refused otherwise, as is a text that is no number.
pub fn accept_overlap(parsed: Option<u8>) -> (r: Option<u8>)
    ensures
        r == (match parsed {
            Some(v) => if v <= MAX_REQUESTED_OVERLAP {
                Some(v)
            } else {
                None
            },
            None => None,
        }),
{
    match parsed {
        Some(v) => if v <= MAX_REQUESTED_OVERLAP {
            Some(v)
        } else {
            None
        },
        None => None,
    }
}

/// Whether `a` is one of the two spellings of a flag.
fn is_either(a: &String, short: &str, long: &str) -> (r: bool)
    ensures
        r == (a@ == short@ || a@ == long@),
{
    let s = short.to_owned();
    let l = long.to_owned();
    *a == s || *a == l
}

/// Reads the command line: the program's name, then flags and at most one
/// file name, in any order.
pub fn parse_args(args: &Vec<String>) -> (r: Result<CliAction, CliError>)
    ensures
        outcome_of(r) == args_outcome(args_view(args@)),
{
    let ghost av = args_view(args@);
    if args.len() < 2 {
        return Err(CliError::MissingArguments);
    }
    let mut chunk_size: usize = DEFAULT_CHUNK_SIZE;
    let mut overlap: u8 = 0;
    let mut input_file: Option<String> = None;
    let mut i: usize = 1;
    while i < args.len()
        invariant
            av == args_view(args@),
            1 <= i <= args.len(),
            outcome_from(av, i as int, chunk_size, overlap, file_view(input_file)) == args_outcome(
                av,
            ),
        decreases args.len() - i,
    {
        proof {
            reveal_strlit("-h");
            reveal_strlit("--help");
            reveal_strlit("-s");
            reveal_strlit("--size");
            reveal_strlit("-o");
            reveal_strlit("--overlap");
            assert("-h"@ =~= seq!['-', 'h']);
            assert("--help"@ =~= seq!['-', '-', 'h', 'e', 'l', 'p']);
            assert("-s"@ =~= seq!['-', 's']);
            assert("--size"@ =~= seq!['-', '-', 's', 'i', 'z', 'e']);
            assert("-o"@ =~= seq!['-', 'o']);
            assert("--overlap"@ =~= seq!['-', '-', 'o', 'v', 'e', 'r', 'l', 'a', 'p']);
        }
        let arg = &args[i];
        assert(av[i as int] == arg@);
        if is_either(arg, "-h", "--help") {
            return Ok(CliAction::ShowHelp);
        } else if is_either(arg, "-s", "--size") {
            if i + 1 < args.len() {
                assert(av[i + 1] == args[i + 1]@);
                match parse_usize(&args[i + 1]) {
                    Some(n) => chunk_size = n,
                    None => return Err(CliError::InvalidSize),
                }
                i = i + 2;
            } else {
                return Err(CliError::MissingSizeValue);
            }
        } else if is_either(arg, "-o", "--overlap") {
            if i + 1 < args.len() {
                assert(av[i + 1] == args[i + 1]@);
                match accept_overlap(parse_u8(&args[i + 1])) {
                    Some(v) => overlap = v,
                    None => return Err(CliError::InvalidOverlap),
                }
                i = i + 2;
            } else {
                return Err(CliError::MissingOverlapValue);
            }
        } else {
            let chars = collect_chars(arg.as_str());
            if chars.len() == 0 || chars[0] != '-' {
                input_file = Some(arg.clone());
                i = i + 1;
            } else {
                return Err(CliError::UnknownOption(arg.clone()));
            }
        }
    }
    Ok(CliAction::Chunk(CliSettings { chunk_size, overlap_percentage: overlap, input_file }))
}

} // verus!
