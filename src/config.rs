//! Start-up settings: the files to preload and whether to run at all.
use vstd::prelude::*;

verus! {

/// The settings the host reads from the command line.
pub struct Config {
    /// A file to load at startup.
    pub loaded_file: Option<String>,
    /// Skip loading the core files.
    pub no_core: bool,
    /// Run the interpreter.
    pub run: bool,
}

impl Config {
    /// The defaults: no extra file, load the core files, run.
    pub fn new() -> (r: Config)
        ensures
            r.loaded_file is None,
            !r.no_core,
            r.run,
    {
        Config { loaded_file: None, no_core: false, run: true }
    }
}

} // verus!
