//! The settings of one search, built from the command-line arguments.
use vstd::prelude::*;

use crate::search::{
    insensitive_matches,
    search_case_insensitive,
    search_case_sensitive,
    sensitive_matches,
    spells,
};

verus! {

/// What a search looks for, where, and whether letter case counts.
pub struct Config {
    pub query: String,
    pub filename: String,
    pub case_sensitive: bool,
}

/// Why no `Config` could be built.
#[derive(Debug, Clone, Copy, PartialEq, Eq, Structural)]
pub enum ConfigError {
    /// Fewer than two arguments followed the program name.
    InsufficientArguments,
}

impl ConfigError {
    /// The text shown to the user for this error.
    pub fn message(&self) -> (r: &'static str)
        ensures
            r@ == "not enough arguments"@,
    {
        match self {
            ConfigError::InsufficientArguments => "not enough arguments",
        }
    }
}

impl Config {
    /// Builds the settings from the program's arguments: `args[0]` is the
    /// program's name, `args[1]` the query and `args[2]` the file to search;
    /// any further arguments are ignored. `case_insensitive_set` tells
    /// whether the `CASE_INSENSITIVE` environment variable is set, whatever
    /// its value: if it is, letter case does not count.
    pub fn new(args: &[String], case_insensitive_set: bool) -> (r: Result<Config, ConfigError>)
        ensures
            r is Err <==> args@.len() < 3,
            r is Err ==> r == Err::<Config, ConfigError>(ConfigError::InsufficientArguments),
            r matches Ok(c) ==> {
                &&& c.query@ == args@[1]@
                &&& c.filename@ == args@[2]@
                &&& c.case_sensitive == !case_insensitive_set
            },
    {
        if args.len() < 3 {
            return Err(ConfigError::InsufficientArguments);
        }
        let query = args[1].clone();
        let filename = args[2].clone();
        let case_sensitive = !case_insensitive_set;
        Ok(Config { query, filename, case_sensitive })
    }

    /// The lines of `contents` that match this search, exactly or with
    /// letter case folded as `case_sensitive` says, in order.
    pub fn search<'a>(&self, contents: &'a str) -> (r: Vec<&'a str>)
        ensures
            self.case_sensitive ==> spells(r@, sensitive_matches(self.query@, contents@)),
            !self.case_sensitive ==> spells(r@, insensitive_matches(self.query@, contents@)),
    {
        if self.case_sensitive {
            search_case_sensitive(self.query.as_str(), contents)
        } else {
            search_case_insensitive(self.query.as_str(), contents)
        }
    }
}

} // verus!
