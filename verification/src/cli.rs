//! Command-line arguments of the `grrs` search: what clap reads from the
//! command line, and the check that the pattern is not empty.

use vstd::prelude::*;

verus! {

/// The version that a parsed command line carries.
pub const VERSION: &'static str = "0.1.0";

/// The program name that clap reports in usage and help texts.
pub const PROGRAM: &'static str = "grrs";

/// The name of the first positional argument: the pattern to look for.
pub const PATTERN_ARG: &'static str = "pattern";

/// The name of the second positional argument: the file to search.
pub const PATH_ARG: &'static str = "path";

/// What clap's `App::get_matches_from_safe` makes of `args` (the program
/// name first) for the program `program` with two required positional
/// arguments named `first` and `second`: their values, or `None` when clap
/// refuses the arguments or answers a request for help or for the version.
pub uninterp spec fn clap_positionals(
    program: Seq<char>,
    first: Seq<char>,
    second: Seq<char>,
    args: Seq<Seq<char>>,
) -> Option<(Seq<char>, Seq<char>)>;

/// Builds a clap 2 `App` named `program` with the required positional
/// arguments `first` (index 1) and `second` (index 2), parses `args` with
/// `get_matches_from_safe`, and reads both values with `value_of`; a refusal
/// comes back as the text of clap's `Error` through its `Display` impl.
/// clap panics on two arguments of one name, hence the `requires`. Trusted
/// claims: the call succeeds exactly when `clap_positionals` has values,
/// and then both values are present (clap's validator refuses a command
/// line that lacks a required argument) and are those values; a refusal's
/// text is not empty and ends in `\n` (`Display` writes clap's message
/// with `writeln!`). Nothing more is claimed of that text: clap formats it,
/// colours included, when it builds the error. On `--help` the refusal's
/// text is the help text; on `--version` clap itself prints the version to
/// standard output, and the text handed back is just `"\n"`.
#[verifier::external_body]
fn parse_positionals(program: &str, first: &str, second: &str, args: &Vec<String>) -> (res:
    Result<(Option<String>, Option<String>), String>)
    requires
        first@ != second@,
    ensures
        res is Ok <==> clap_positionals(program@, first@, second@, args.deep_view()) is Some,
        res matches Ok(v) ==> {
            &&& v.0 is Some
            &&& v.1 is Some
            &&& clap_positionals(program@, first@, second@, args.deep_view()) == Some(
                (v.0.unwrap()@, v.1.unwrap()@),
            )
        },
        res matches Err(text) ==> text@.len() > 0 && text@.last() == '\n',
{
    let matches = clap::App::new(program)
        .arg(clap::Arg::with_name(first).required(true).index(1))
        .arg(clap::Arg::with_name(second).required(true).index(2))
        .get_matches_from_safe(args.iter())
        .map_err(|error| error.to_string())?;
    Ok((matches.value_of(first).map(String::from), matches.value_of(second).map(String::from)))
}

/// What clap makes of the command line `args` of `grrs`: the pattern and
/// the path.
pub open spec fn cli_values(args: Seq<Seq<char>>) -> Option<(Seq<char>, Seq<char>)> {
    clap_positionals(PROGRAM@, PATTERN_ARG@, PATH_ARG@, args)
}

/// Why a command line was refused.
#[derive(Debug)]
pub enum CliError {
    /// clap refused the arguments, or answered `--help` or `--version`;
    /// the text is clap's report.
    Usage(String),
    /// The pattern to search for is empty.
    InvalidPattern,
}

impl CliError {
    /// The text that reports this error.
    pub fn message(&self) -> (text: String)
        ensures
            match self {
                CliError::Usage(report) => text@ == report@,
                CliError::InvalidPattern => text@ == "Invalid pattern."@,
            },
    {
        match self {
            CliError::Usage(report) => report.clone(),
            CliError::InvalidPattern => String::from_str("Invalid pattern."),
        }
    }
}

/// The validated arguments of a search: the file to read, the pattern to
/// look for, and the tool's version.
#[derive(Debug, PartialEq)]
pub struct CliArgs {
    path: String,
    pattern: String,
    version: String,
}

impl CliArgs {
    /// A parsed command line never carries an empty pattern.
    #[verifier::type_invariant]
    spec fn pattern_is_set(self) -> bool {
        self.pattern@.len() > 0
    }

    /// The path of the file to search.
    pub closed spec fn path_view(self) -> Seq<char> {
        self.path@
    }

    /// The pattern to look for.
    pub closed spec fn pattern_view(self) -> Seq<char> {
        self.pattern@
    }

    /// The version of the tool.
    pub closed spec fn version_view(self) -> Seq<char> {
        self.version@
    }

    /// Reads the command line `args` (the program name first, then the
    /// pattern, then the path): clap's refusal is `Usage`, an empty pattern
    /// is `InvalidPattern`, and otherwise the arguments carry the pattern,
    /// the path and `VERSION`.
    pub fn new_from(args: Vec<String>) -> (res: Result<CliArgs, CliError>)
        ensures
            match cli_values(args.deep_view()) {
                None => res matches Err(CliError::Usage(report)) && report@.len() > 0
                    && report@.last() == '\n',
                Some(values) => if values.0.len() == 0 {
                    res matches Err(CliError::InvalidPattern)
                } else {
                    res matches Ok(parsed) && parsed.pattern_view() == values.0
                        && parsed.path_view() == values.1 && parsed.version_view() == VERSION@
                },
            },
    {
        proof {
            reveal_strlit("pattern");
            reveal_strlit("path");
            assert(PATTERN_ARG@.len() != PATH_ARG@.len());
        }
        match parse_positionals(PROGRAM, PATTERN_ARG, PATH_ARG, &args) {
            Err(error) => Err(CliError::Usage(error)),
            Ok((pattern, path)) => CliArgs::from_values(pattern.unwrap(), path.unwrap()),
        }
    }

    /// Validates the values read from a command line: an empty pattern is
    /// `InvalidPattern`; otherwise the arguments carry the pattern, the
    /// path and `VERSION`.
    pub fn from_values(pattern: String, path: String) -> (res: Result<CliArgs, CliError>)
        ensures
            if pattern@.len() == 0 {
                res matches Err(CliError::InvalidPattern)
            } else {
                res matches Ok(parsed) && parsed.pattern_view() == pattern@ && parsed.path_view()
                    == path@ && parsed.version_view() == VERSION@
            },
    {
        if pattern.as_str().is_empty() {
            Err(CliError::InvalidPattern)
        } else {
            Ok(CliArgs { path, pattern, version: String::from_str(VERSION) })
        }
    }

    /// The path of the file to search.
    pub fn path(&self) -> (path: &str)
        ensures
            path@ == self.path_view(),
    {
        self.path.as_str()
    }

    /// The pattern to look for; never empty.
    pub fn pattern(&self) -> (pattern: &str)
        ensures
            pattern@ == self.pattern_view(),
            pattern@.len() > 0,
    {
        proof {
            use_type_invariant(self);
        }
        self.pattern.as_str()
    }

    /// The version of the tool.
    pub fn version(&self) -> (version: &str)
        ensures
            version@ == self.version_view(),
    {
        self.version.as_str()
    }
}

} // verus!
