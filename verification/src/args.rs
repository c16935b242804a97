//! Command-line argument parsing: input directories and one output
//! directory, whose flag must come either first or last.
use vstd::prelude::*;

verus! {

/// The parsed command line: the directories to scan and the directory the
/// files go to.
#[derive(Debug)]
pub struct Args {
    pub input_dirs: Vec<String>,
    pub output_dir: String,
}

/// Why a command line was rejected.
#[derive(Debug, Clone, Copy, PartialEq, Eq, Structural)]
pub enum ArgsError {
    Usage,
    MissingOutputValue,
    OutputNotSpecified,
    NoInputDirs,
    FlagPosition,
}

impl ArgsError {
    /// The error's description.
    pub fn message(&self) -> (r: String)
        ensures
            match self {
                ArgsError::Usage => r@
                    == "Usage: collect_media <dirs...> -o <output_dir>\n\nExample:\n  collect_media /Volumes/Thumb/One /Volumes/Thumb/Two -o /Users/me/Pictures/Library"@,
                ArgsError::MissingOutputValue => r@
                    == "Output directory flag provided but no directory specified"@,
                ArgsError::OutputNotSpecified => r@
                    == "Output directory must be specified with -o, --output-directory, or --output-dir"@,
                ArgsError::NoInputDirs => r@
                    == "At least one input directory must be specified"@,
                ArgsError::FlagPosition => r@
                    == "Output directory flag must be either first or last in the argument list"@,
            },
    {
        match self {
            ArgsError::Usage => String::from_str(
                "Usage: collect_media <dirs...> -o <output_dir>\n\nExample:\n  collect_media /Volumes/Thumb/One /Volumes/Thumb/Two -o /Users/me/Pictures/Library",
            ),
            ArgsError::MissingOutputValue => String::from_str(
                "Output directory flag provided but no directory specified",
            ),
            ArgsError::OutputNotSpecified => String::from_str(
                "Output directory must be specified with -o, --output-directory, or --output-dir",
            ),
            ArgsError::NoInputDirs => String::from_str(
                "At least one input directory must be specified",
            ),
            ArgsError::FlagPosition => String::from_str(
                "Output directory flag must be either first or last in the argument list",
            ),
        }
    }
}

/// The spellings of the output-directory flag.
pub open spec fn is_output_flag(s: Seq<char>) -> bool {
    s == "-o"@ || s == "--output-directory"@ || s == "--output-dir"@
}

/// The index of the first output flag at or after `i`, or the length when
/// there is none.
pub open spec fn first_flag_from(argv: Seq<Seq<char>>, i: int) -> int
    decreases argv.len() - i,
{
    if i < 0 || i >= argv.len() {
        argv.len() as int
    } else if is_output_flag(argv[i]) {
        i
    } else {
        first_flag_from(argv, i + 1)
    }
}

/// What a command line parses to: with the flag first, everything after its
/// value is an input directory; otherwise the directories run up to the
/// flag, whose value must be the final argument.
pub open spec fn spec_parse_args(argv: Seq<Seq<char>>) -> Result<
    (Seq<Seq<char>>, Seq<char>),
    ArgsError,
> {
    if argv.len() < 3 {
        Err(ArgsError::Usage)
    } else if is_output_flag(argv[1]) {
        let inputs = argv.skip(3);
        if inputs.len() == 0 {
            Err(ArgsError::NoInputDirs)
        } else {
            Ok((inputs, argv[2]))
        }
    } else {
        let j = first_flag_from(argv, 1);
        if j == argv.len() {
            Err(ArgsError::OutputNotSpecified)
        } else if j + 1 >= argv.len() {
            Err(ArgsError::MissingOutputValue)
        } else if j + 2 < argv.len() {
            Err(ArgsError::FlagPosition)
        } else {
            Ok((argv.subrange(1, j), argv[j + 1]))
        }
    }
}

/// Whether `s` spells the output-directory flag.
fn is_flag(s: &str) -> (r: bool)
    ensures
        r == is_output_flag(s@),
{
    crate::text::str_eq(s, "-o") || crate::text::str_eq(s, "--output-directory")
        || crate::text::str_eq(s, "--output-dir")
}

/// Clones the arguments of the range `lo..hi`.
fn clone_range(argv: &Vec<String>, lo: usize, hi: usize) -> (r: Vec<String>)
    requires
        lo <= hi <= argv@.len(),
    ensures
        r.deep_view() == argv.deep_view().subrange(lo as int, hi as int),
{
    let mut r: Vec<String> = Vec::new();
    let mut i: usize = lo;
    while i < hi
        invariant
            lo <= i <= hi <= argv@.len(),
            r@.len() == i - lo,
            forall|k: int| 0 <= k < i - lo ==> (#[trigger] r@[k])@ == argv@[lo + k]@,
        decreases hi - i,
    {
        r.push(argv[i].clone());
        i = i + 1;
    }
    proof {
        assert(r.deep_view() =~= argv.deep_view().subrange(lo as int, hi as int));
    }
    r
}

impl Args {
    /// Parses a command line — its first element is the program name. The
    /// output flag comes either first or last; everything else is an input
    /// directory, of which there must be at least one.
    pub fn parse(argv: &Vec<String>) -> (r: Result<Args, ArgsError>)
        ensures
            match r {
                Ok(a) => spec_parse_args(argv.deep_view()) matches Ok(p) && a.input_dirs.deep_view()
                    == p.0 && a.output_dir@ == p.1,
                Err(e) => spec_parse_args(argv.deep_view()) matches Err(e2) && e2 == e,
            },
    {
        let ghost vs = argv.deep_view();
        let n = argv.len();
        if n < 3 {
            return Err(ArgsError::Usage);
        }
        if is_flag(argv[1].as_str()) {
            let output_dir = argv[2].clone();
            let input_dirs = clone_range(argv, 3, n);
            proof {
                assert(vs.subrange(3, n as int) =~= vs.skip(3));
            }
            if input_dirs.len() == 0 {
                return Err(ArgsError::NoInputDirs);
            }
            Ok(Args { input_dirs, output_dir })
        } else {
            let mut j: usize = 1;
            while j < n && !is_flag(argv[j].as_str())
                invariant
                    1 <= j <= n,
                    n == argv@.len(),
                    vs == argv.deep_view(),
                    first_flag_from(vs, 1) == first_flag_from(vs, j as int),
                decreases n - j,
            {
                j = j + 1;
            }
            if j == n {
                return Err(ArgsError::OutputNotSpecified);
            }
            if j + 1 >= n {
                return Err(ArgsError::MissingOutputValue);
            }
            if j + 2 < n {
                return Err(ArgsError::FlagPosition);
            }
            let output_dir = argv[j + 1].clone();
            let input_dirs = clone_range(argv, 1, j);
            Ok(Args { input_dirs, output_dir })
        }
    }
}

} // verus!
