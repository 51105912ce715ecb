use vstd::prelude::*;

use crate::lines::lines_of;
use crate::search::{found_view, matching_lines, search, search_case_insensitive};

verus! {

/// Why no configuration could be made from the arguments.
#[derive(Clone, Copy, Debug, PartialEq, Eq, Structural)]
pub enum ConfigError {
    MissingQuery,
    MissingFilename,
}

impl ConfigError {
    /// The text shown to the user for this error.
    pub fn message(&self) -> (r: &'static str)
        ensures
            *self == ConfigError::MissingQuery ==> r@ == "Didn't get a query string!"@,
            *self == ConfigError::MissingFilename ==> r@ == "Didn't get a file name!"@,
    {
        match self {
            ConfigError::MissingQuery => "Didn't get a query string!",
            ConfigError::MissingFilename => "Didn't get a file name!",
        }
    }
}

/// What one run searches for, where, and how.
pub struct Config {
    pub query: String,
    pub filename: String,
    pub case_sensitive: bool,
    pub case_skip_space: bool,
}

/// The text of a variable that may be unset.
pub open spec fn var_view(var: Option<&str>) -> Option<Seq<char>> {
    match var {
        Some(v) => Some(v@),
        None => None,
    }
}

/// Letter case counts unless the variable is set to something other than `0`.
pub open spec fn sensitive_from(var: Option<Seq<char>>) -> bool {
    match var {
        Some(v) => v == seq!['0'],
        None => true,
    }
}

/// Spaces are skipped when the variable is set to something other than `0`.
pub open spec fn skip_space_from(var: Option<Seq<char>>) -> bool {
    match var {
        Some(v) => v != seq!['0'],
        None => false,
    }
}

/// Whether `v` is the text `0`.
fn is_zero(v: &str) -> (r: bool)
    ensures
        r == (v@ == seq!['0']),
{
    if v.unicode_len() == 1 {
        let c = v.get_char(0);
        assert(c == '0' ==> v@ =~= seq!['0']);
        c == '0'
    } else {
        false
    }
}

impl Config {
    /// Builds the configuration from the program's arguments (the first, the
    /// program's name, is passed over: then the query, then the file name) and
    /// the values of `CASE_INSENSITIVE` and `CASE_SKIP_SPACE`, `None` where unset.
    pub fn new(args: Vec<String>, case_insensitive: Option<&str>, case_skip_space: Option<&str>) -> (r:
        Result<Config, ConfigError>)
        ensures
            args@.len() < 2 <==> r == Err::<Config, ConfigError>(ConfigError::MissingQuery),
            args@.len() == 2 <==> r == Err::<Config, ConfigError>(ConfigError::MissingFilename),
            args@.len() > 2 <==> r is Ok,
            r matches Ok(c) ==> {
                &&& c.query@ == args@[1]@
                &&& c.filename@ == args@[2]@
                &&& c.case_sensitive == sensitive_from(var_view(case_insensitive))
                &&& c.case_skip_space == skip_space_from(var_view(case_skip_space))
            },
    {
        if args.len() < 2 {
            return Err(ConfigError::MissingQuery);
        }
        let query = args[1].clone();
        if args.len() < 3 {
            return Err(ConfigError::MissingFilename);
        }
        let filename = args[2].clone();
        let case_sensitive = match case_insensitive {
            Some(v) => is_zero(v),
            None => true,
        };
        let case_skip_space = match case_skip_space {
            Some(v) => !is_zero(v),
            None => false,
        };
        Ok(Config { query, filename, case_sensitive, case_skip_space })
    }

    /// The lines of `contents` that hold the query, each with its number: letter
    /// case counting or not, as the configuration says.
    pub fn find_in<'a>(&self, contents: &'a str) -> (r: Vec<(&'a str, i32)>)
        requires
            lines_of(contents@).len() <= i32::MAX,
        ensures
            found_view(r@) == matching_lines(!self.case_sensitive, self.query@, contents@),
    {
        if self.case_sensitive {
            search(self.query.as_str(), contents)
        } else {
            search_case_insensitive(self.query.as_str(), contents)
        }
    }
}

} // verus!
