//! The settings of one search: what to look for, where, and how to compare.

use vstd::prelude::*;

verus! {

/// The message of the error that `Config::new` returns when the argument
/// list is too short to hold a query and a file name.
pub const MISSING_ARGUMENTS: &'static str = "not enough arguments.";

/// The environment variable whose presence, with any value, turns a search
/// case-insensitive.
pub const CASE_INSENSITIVE_VAR: &'static str = "CASE_INSENSITIVE";

/// The settings of one search.
#[derive(Debug)]
pub struct Config {
    /// The text to look for.
    pub query: String,
    /// The path of the file to search.
    pub filename: String,
    /// Whether letters are compared exactly.
    pub case_sensitive: bool,
}

impl Config {
    /// Whether `args` holds a program name followed by at least a query and a
    /// file name.
    pub open spec fn enough_arguments(args: Seq<String>) -> bool {
        args.len() >= 3
    }

    /// Builds the settings from a program's argument list, `args[0]` being
    /// the program's name, and from whether the variable named
    /// `CASE_INSENSITIVE_VAR` is present in the environment.
    ///
    /// The query and the file name are the first two arguments after the
    /// program's name, taken as they are; further arguments are ignored.
    pub fn new(args: &[String], case_insensitive: bool) -> (r: Result<Config, &'static str>)
        ensures
            Self::enough_arguments(args@) <==> r is Ok,
            r matches Ok(c) ==> c.query@ == args@[1]@ && c.filename@ == args@[2]@
                && c.case_sensitive == !case_insensitive,
            r matches Err(e) ==> e == MISSING_ARGUMENTS,
    {
        if args.len() < 3 {
            return Err(MISSING_ARGUMENTS);
        }
        let query = args[1].clone();
        let filename = args[2].clone();
        Ok(Config { query, filename, case_sensitive: !case_insensitive })
    }
}

} // verus!
