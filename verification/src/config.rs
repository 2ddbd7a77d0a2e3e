//! Invocation configuration: query, file name, and comparison mode.
//!
//! The caller decides the comparison mode (for instance from an
//! environment flag) and passes it in; the library never reads ambient
//! state itself.

use vstd::prelude::*;

verus! {

pub struct Config {
    pub query: String,
    pub filename: String,
    pub case_sensitive: bool,
}

impl Config {
    /// Builds a `Config` from positional arguments: `args[1]` is the
    /// query and `args[2]` the file name (`args[0]` being the program
    /// name). Fails exactly when fewer than two positional arguments are
    /// given.
    pub fn new(args: &[String], case_sensitive: bool) -> (r: Result<Config, &'static str>)
        ensures
            r is Ok <==> args@.len() >= 3,
            r matches Ok(c) ==> c.query == args@[1] && c.filename == args@[2]
                && c.case_sensitive == case_sensitive,
            r matches Err(e) ==> e@ == "not enough arguments"@,
    {
        if args.len() < 3 {
            return Err("not enough arguments");
        }
        let query = args[1].clone();
        let filename = args[2].clone();
        Ok(Config { query, filename, case_sensitive })
    }
}

} // verus!
