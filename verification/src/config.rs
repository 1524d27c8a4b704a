//! The argument parser: one left-to-right scan that separates positional
//! tokens from `--min` / `--max` options, with a `--` sentinel that turns
//! option recognition off for the rest of the list.

use vstd::prelude::*;
use crate::numeral::{is_u64_numeral, u64_numeral_value, parse_u64};

verus! {

/// A run configuration: the query, the source to search, and optional
/// line-length bounds.
pub struct Config {
    /// The string to search for.
    pub query: String,
    /// The path of the text to search.
    pub file_path: String,
    /// The minimum line length, when given.
    pub min_line_len: Option<u64>,
    /// The maximum line length, when given.
    pub max_line_len: Option<u64>,
}

/// Which option an error refers to.
#[derive(Clone, Copy, PartialEq, Eq, Structural, Debug)]
pub enum OptionKind {
    /// The `--min` option.
    Min,
    /// The `--max` option.
    Max,
}

/// An error from parsing the argument list.
#[derive(Debug)]
pub enum ParseError {
    /// Fewer than two positional tokens were found.
    NotEnoughArguments,
    /// The named option was the last token, so no value follows it.
    MissingOptionValue(OptionKind),
    /// The token after the named option (carried here) is not a
    /// non-negative integer.
    InvalidOptionValue(OptionKind, String),
}

/// The sentinel token that turns option recognition off.
pub open spec fn sentinel() -> Seq<char> {
    seq!['-', '-']
}

/// True when the token begins with the two-dash option prefix.
pub open spec fn has_option_prefix(tok: Seq<char>) -> bool {
    tok.len() >= 2 && tok[0] == '-' && tok[1] == '-'
}

/// The key of the minimum-length option.
pub open spec fn min_key() -> Seq<char> {
    seq!['m', 'i', 'n']
}

/// The key of the maximum-length option.
pub open spec fn max_key() -> Seq<char> {
    seq!['m', 'a', 'x']
}

/// What a scan of the argument tokens ends in.
pub ghost enum ScanOutcome {
    /// The scan ran to the end of the list.
    Finished { min: Option<u64>, max: Option<u64>, positionals: Seq<Seq<char>> },
    /// An option key was the last token, so no value follows it.
    MissingValue { which: OptionKind },
    /// The token after an option key (carried here) is not a non-negative
    /// integer.
    InvalidValue { which: OptionKind, token: Seq<char> },
}

/// The scan from token `i` on, given the sentinel flag and the values
/// collected so far. A sentinel token sets the flag and is discarded; an
/// option key consumes the following token as its value; an unrecognized
/// option token is dropped; everything else is positional.
pub open spec fn scan_args(
    args: Seq<Seq<char>>,
    i: int,
    ignore_options: bool,
    min: Option<u64>,
    max: Option<u64>,
    positionals: Seq<Seq<char>>,
) -> ScanOutcome
    decreases args.len() - i,
{
    if i >= args.len() {
        ScanOutcome::Finished { min, max, positionals }
    } else {
        let tok = args[i];
        if tok == sentinel() {
            scan_args(args, i + 1, true, min, max, positionals)
        } else if has_option_prefix(tok) && !ignore_options {
            if tok.skip(2) == min_key() {
                if i + 1 >= args.len() {
                    ScanOutcome::MissingValue { which: OptionKind::Min }
                } else if is_u64_numeral(args[i + 1]) {
                    scan_args(args, i + 2, ignore_options, Some(u64_numeral_value(args[i + 1]) as u64), max, positionals)
                } else {
                    ScanOutcome::InvalidValue { which: OptionKind::Min, token: args[i + 1] }
                }
            } else if tok.skip(2) == max_key() {
                if i + 1 >= args.len() {
                    ScanOutcome::MissingValue { which: OptionKind::Max }
                } else if is_u64_numeral(args[i + 1]) {
                    scan_args(args, i + 2, ignore_options, min, Some(u64_numeral_value(args[i + 1]) as u64), positionals)
                } else {
                    ScanOutcome::InvalidValue { which: OptionKind::Max, token: args[i + 1] }
                }
            } else {
                scan_args(args, i + 1, ignore_options, min, max, positionals)
            }
        } else {
            scan_args(args, i + 1, ignore_options, min, max, positionals.push(tok))
        }
    }
}

/// The scan outcome for a whole argument list; the token at index 0 is the
/// program name and is skipped.
pub open spec fn parse_outcome(args: Seq<Seq<char>>) -> ScanOutcome {
    scan_args(args, 1, false, None, None, Seq::empty())
}

/// Reports whether the token is exactly the `--` sentinel.
fn token_is_sentinel(tok: &str) -> (r: bool)
    ensures
        r == (tok@ == sentinel()),
{
    proof {
        assert(sentinel().len() == 2 && sentinel()[0] == '-' && sentinel()[1] == '-');
    }
    let n = tok.unicode_len();
    if n != 2 {
        return false;
    }
    let r = tok.get_char(0) == '-' && tok.get_char(1) == '-';
    proof {
        if r {
            assert(tok@ =~= sentinel());
        }
    }
    r
}

/// Reports whether the token begins with the two-dash option prefix.
fn token_has_option_prefix(tok: &str, n: usize) -> (r: bool)
    requires
        n == tok@.len(),
    ensures
        r == has_option_prefix(tok@),
{
    n >= 2 && tok.get_char(0) == '-' && tok.get_char(1) == '-'
}

/// Reports whether the token's key — what follows the prefix — is `min`.
fn token_key_is_min(tok: &str, n: usize) -> (r: bool)
    requires
        n == tok@.len(),
        n >= 2,
    ensures
        r == (tok@.skip(2) == min_key()),
{
    proof {
        assert(min_key().len() == 3 && min_key()[0] == 'm' && min_key()[1] == 'i' && min_key()[2]
            == 'n');
        assert(tok@.skip(2).len() == n - 2);
    }
    if n != 5 {
        return false;
    }
    proof {
        assert(tok@.skip(2)[0] == tok@[2] && tok@.skip(2)[1] == tok@[3] && tok@.skip(2)[2]
            == tok@[4]);
    }
    let r = tok.get_char(2) == 'm' && tok.get_char(3) == 'i' && tok.get_char(4) == 'n';
    proof {
        if r {
            assert(tok@.skip(2) =~= min_key());
        }
    }
    r
}

/// Reports whether the token's key — what follows the prefix — is `max`.
fn token_key_is_max(tok: &str, n: usize) -> (r: bool)
    requires
        n == tok@.len(),
        n >= 2,
    ensures
        r == (tok@.skip(2) == max_key()),
{
    proof {
        assert(max_key().len() == 3 && max_key()[0] == 'm' && max_key()[1] == 'a' && max_key()[2]
            == 'x');
        assert(tok@.skip(2).len() == n - 2);
    }
    if n != 5 {
        return false;
    }
    proof {
        assert(tok@.skip(2)[0] == tok@[2] && tok@.skip(2)[1] == tok@[3] && tok@.skip(2)[2]
            == tok@[4]);
    }
    let r = tok.get_char(2) == 'm' && tok.get_char(3) == 'a' && tok.get_char(4) == 'x';
    proof {
        if r {
            assert(tok@.skip(2) =~= max_key());
        }
    }
    r
}

impl Config {
    /// Parses the raw argument list. The token at index 0 is the program
    /// name and is skipped. The first two positional tokens become the
    /// query and the source path; further positional tokens are ignored.
    /// `--min` and `--max` each consume the following token as a
    /// non-negative integer, wherever they stand relative to the
    /// positionals; a later occurrence wins. A `--` token is discarded and
    /// makes every later token positional. Any other token beginning with
    /// `--` is dropped, without a value. The errors are exactly: a missing
    /// or non-numeric option value, found eagerly during the scan, and too
    /// few positional tokens, found at its end.
    pub fn build(args: &[String]) -> (result: Result<Config, ParseError>)
        ensures
            ({
                let outcome = parse_outcome(args.deep_view());
                match result {
                    Ok(config) => {
                        &&& outcome matches ScanOutcome::Finished { min, max, positionals }
                        &&& positionals.len() >= 2
                        &&& config.query@ == positionals[0]
                        &&& config.file_path@ == positionals[1]
                        &&& config.min_line_len == min
                        &&& config.max_line_len == max
                    },
                    Err(ParseError::NotEnoughArguments) => {
                        &&& outcome matches ScanOutcome::Finished { positionals, .. }
                        &&& positionals.len() < 2
                    },
                    Err(ParseError::MissingOptionValue(which)) => outcome
                        == (ScanOutcome::MissingValue { which }),
                    Err(ParseError::InvalidOptionValue(which, token)) => outcome
                        == (ScanOutcome::InvalidValue { which, token: token@ }),
                }
            }),
    {
        let ghost argv = args.deep_view();
        let mut min_line_len: Option<u64> = None;
        let mut max_line_len: Option<u64> = None;
        let mut positional_args: Vec<&String> = Vec::new();
        let mut ignore_options = false;
        let mut i: usize = 1;
        proof {
            assert(positional_args.deep_view() =~= Seq::<Seq<char>>::empty());
        }
        while i < args.len()
            invariant
                argv == args.deep_view(),
                argv.len() == args@.len(),
                1 <= i,
                parse_outcome(argv) == scan_args(
                    argv,
                    i as int,
                    ignore_options,
                    min_line_len,
                    max_line_len,
                    positional_args.deep_view(),
                ),
            decreases args.len() - i,
        {
            let arg: &String = &args[i];
            proof {
                assert(argv[i as int] == arg@);
            }
            if token_is_sentinel(arg.as_str()) {
                ignore_options = true;
                i += 1;
                continue;
            }
            let n = arg.as_str().unicode_len();
            if token_has_option_prefix(arg.as_str(), n) && !ignore_options {
                let is_min = token_key_is_min(arg.as_str(), n);
                let is_max = if is_min {
                    false
                } else {
                    token_key_is_max(arg.as_str(), n)
                };
                if is_min || is_max {
                    let which = if is_min {
                        OptionKind::Min
                    } else {
                        OptionKind::Max
                    };
                    if i + 1 >= args.len() {
                        return Err(ParseError::MissingOptionValue(which));
                    }
                    let value_tok: &String = &args[i + 1];
                    proof {
                        assert(argv[i + 1] == value_tok@);
                    }
                    match parse_u64(value_tok.as_str()) {
                        Some(v) => {
                            if is_min {
                                min_line_len = Some(v);
                            } else {
                                max_line_len = Some(v);
                            }
                            i += 2;
                        },
                        None => {
                            return Err(ParseError::InvalidOptionValue(which, value_tok.clone()));
                        },
                    }
                } else {
                    // an unrecognized option token: dropped, no value consumed
                    i += 1;
                }
            } else {
                let ghost prev = positional_args.deep_view();
                positional_args.push(arg);
                proof {
                    assert(positional_args.deep_view() =~= prev.push(arg@));
                }
                i += 1;
            }
        }
        if positional_args.len() < 2 {
            return Err(ParseError::NotEnoughArguments);
        }
        let query = (*positional_args[0]).clone();
        let file_path = (*positional_args[1]).clone();
        proof {
            assert(query@ == positional_args.deep_view()[0]);
            assert(file_path@ == positional_args.deep_view()[1]);
        }
        Ok(Config { query, file_path, min_line_len, max_line_len })
    }
}

} // verus!
