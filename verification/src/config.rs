//! What one search is asked to do.

use vstd::prelude::*;

verus! {

/// The query, the name of the file to search, and the case mode.
pub struct Config {
    pub query: String,
    pub filename: String,
    pub case_sensitive: bool,
}

impl Config {
    /// Reads a configuration from the arguments of a program, of which the
    /// first is the program's own name, the second the query and the third
    /// the file's name; further arguments are passed over.
    ///
    /// `ignore_case` says whether the switch for a search without regard to
    /// case is present: its presence alone counts, not its value.
    pub fn new(args: &[String], ignore_case: bool) -> (made: Result<Config, &'static str>)
        ensures
            match made {
                Ok(config) => {
                    &&& args@.len() >= 3
                    &&& config.query@ == args@[1]@
                    &&& config.filename@ == args@[2]@
                    &&& config.case_sensitive == !ignore_case
                },
                Err(message) => {
                    ||| args@.len() < 2 && message@ == "Didn't get a query string"@
                    ||| args@.len() == 2 && message@ == "Didn't get a file name"@
                },
            },
    {
        if args.len() < 2 {
            return Err("Didn't get a query string");
        }
        if args.len() < 3 {
            return Err("Didn't get a file name");
        }
        Ok(
            Config {
                query: args[1].clone(),
                filename: args[2].clone(),
                case_sensitive: !ignore_case,
            },
        )
    }
}

} // verus!
