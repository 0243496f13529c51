use vstd::prelude::*;

use crate::search::{matching_lines, matching_lines_folded, search, search_case_insensitive, views};
use crate::text::chars_of;

verus! {

/// Why the arguments could not make a [`Config`].
#[derive(Clone, Copy, Debug, PartialEq, Eq, Structural)]
pub enum ConfigError {
    /// Fewer than three arguments: the program name, the query and the file name.
    InsufficientArguments,
}

impl ConfigError {
    /// A sentence for the user.
    pub fn message(&self) -> &'static str {
        match self {
            ConfigError::InsufficientArguments => "Not enough arguments enterd",
        }
    }
}

/// What one run searches for, where, and how.
pub struct Config {
    pub query: String,
    pub filename: String,
    pub case_insensitive: bool,
}

/// The one word that turns case-insensitive matching on from the command line.
pub open spec fn true_word() -> Seq<char> {
    seq!['t', 'r', 'u', 'e']
}

/// Whether `s` is exactly the word `true`.
pub fn is_true_word(s: &str) -> (r: bool)
    ensures
        r == (s@ == true_word()),
{
    let c = chars_of(s);
    let r = c.len() == 4 && c[0] == 't' && c[1] == 'r' && c[2] == 'u' && c[3] == 'e';
    assert(r ==> c@ == true_word());
    r
}

impl Config {
    /// Builds a run from the command line `args` (program name, query, file name, and an
    /// optional flag) and from whether the variable `CASE_INSENSITIVE` is set. A flag,
    /// where given, decides the mode alone: only `true` makes matching case-insensitive.
    pub fn new(args: &[String], case_insensitive_env: bool) -> (r: Result<Config, ConfigError>)
        ensures
            args@.len() < 3 <==> r == Err::<Config, ConfigError>(
                ConfigError::InsufficientArguments,
            ),
            r matches Ok(c) ==> {
                &&& c.query@ == args@[1]@
                &&& c.filename@ == args@[2]@
                &&& c.case_insensitive == if args@.len() > 3 {
                    args@[3]@ == true_word()
                } else {
                    case_insensitive_env
                }
            },
    {
        if args.len() < 3 {
            return Err(ConfigError::InsufficientArguments);
        }
        let query = args[1].clone();
        let filename = args[2].clone();
        let case_insensitive = if args.len() > 3 {
            is_true_word(args[3].as_str())
        } else {
            case_insensitive_env
        };
        Ok(Config { query, filename, case_insensitive })
    }
}

/// The lines of `contents` that the run `config` asks for, in order.
pub fn matches_for<'a>(config: &Config, contents: &'a str) -> (r: Vec<&'a str>)
    ensures
        views(r@) == if config.case_insensitive {
            matching_lines_folded(config.query@, contents@)
        } else {
            matching_lines(config.query@, contents@)
        },
{
    if config.case_insensitive {
        search_case_insensitive(config.query.as_str(), contents)
    } else {
        search(config.query.as_str(), contents)
    }
}

} // verus!
