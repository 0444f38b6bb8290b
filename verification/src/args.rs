//! Command-line argument parsing: the first positional argument names the
//! source schema folder, `--out` the destination folder; both paths are
//! normalized before use.

use vstd::prelude::*;
use crate::ast::string_views;

verus! {

/// The two folders a compilation run works between.
pub struct CliArguments {
    pub proto_folder_path: String,
    pub out_folder_path: String,
}

impl Default for CliArguments {
    /// The current directory, writing to `./out`.
    fn default() -> (r: Self)
        ensures
            r.proto_folder_path@ == "."@,
            r.out_folder_path@ == "./out"@,
    {
        CliArguments { proto_folder_path: ".".to_owned(), out_folder_path: "./out".to_owned() }
    }
}

/// What normalizing a path yields: a pure, lexical function of the path
/// string alone.
pub uninterp spec fn cleaned_of(s: Seq<char>) -> Seq<char>;

/// Relies on path_clean::clean: a lexical normalization — it collapses
/// repeated slashes and resolves `.` and `..` elements without touching the
/// filesystem, and yields `.` for an empty path, so the result depends on
/// the characters alone and is never empty.
#[verifier::external_body]
fn clean_path(s: &str) -> (r: String)
    ensures
        r@ == cleaned_of(s@),
        r@.len() > 0,
{
    match path_clean::clean(s).into_os_string().into_string() {
        Ok(cleaned) => cleaned,
        Err(os) => os.to_string_lossy().into_owned(),
    }
}

/// What parsing the arguments from `i` on leaves the two paths as: `--out`
/// routes its following argument to the destination (a later `--out`
/// winning); the first positional argument — one neither `--out` nor
/// consumed by it — names the source, and later positionals are ignored.
/// `proto` is `Some` once the source has been named; a source never named
/// stays the current directory.
pub open spec fn parse_args_v(
    args: Seq<Seq<char>>,
    i: int,
    expecting_out: bool,
    proto: Option<Seq<char>>,
    out: Seq<char>,
) -> (Seq<char>, Seq<char>)
    decreases args.len() - i,
{
    if i < 0 || i >= args.len() {
        (
            match proto {
                Some(p) => p,
                None => "."@,
            },
            out,
        )
    } else if args[i] == "--out"@ {
        parse_args_v(args, i + 1, true, proto, out)
    } else if expecting_out {
        parse_args_v(args, i + 1, false, proto, cleaned_of(args[i]))
    } else if proto is None {
        parse_args_v(args, i + 1, false, Some(cleaned_of(args[i])), out)
    } else {
        parse_args_v(args, i + 1, false, proto, out)
    }
}

/// Parse a command line (the program name already stripped): the first
/// positional argument names the source schema folder, the argument after
/// `--out` the destination folder; both are normalized, and both default as
/// `CliArguments::default` has them.
pub fn parse_cli_arguments(args: &Vec<String>) -> (r: CliArguments)
    ensures
        (r.proto_folder_path@, r.out_folder_path@) == parse_args_v(
            string_views(args@),
            0,
            false,
            None::<Seq<char>>,
            "./out"@,
        ),
{
    let mut res = CliArguments::default();
    let ghost views = string_views(args@);
    let mut expecting_out = false;
    let mut proto_set = false;
    let mut i: usize = 0;
    while i < args.len()
        invariant
            i <= args@.len(),
            views == string_views(args@),
            !proto_set ==> res.proto_folder_path@ == "."@,
            parse_args_v(
                views,
                i as int,
                expecting_out,
                if proto_set {
                    Some(res.proto_folder_path@)
                } else {
                    None
                },
                res.out_folder_path@,
            ) == parse_args_v(views, 0, false, None::<Seq<char>>, "./out"@),
        decreases args@.len() - i,
    {
        let flag: String = "--out".to_owned();
        if args[i] == flag {
            expecting_out = true;
        } else if expecting_out {
            res.out_folder_path = clean_path(args[i].as_str());
            expecting_out = false;
        } else if !proto_set {
            res.proto_folder_path = clean_path(args[i].as_str());
            proto_set = true;
        }
        i = i + 1;
    }
    res
}

} // verus!
