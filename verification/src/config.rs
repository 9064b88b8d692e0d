//! Server configuration.

use crate::fs_path::FsPath;
use vstd::prelude::*;

verus! {

/// Server configuration, populated from CLI arguments.
#[derive(Debug)]
pub struct Config {
    /// Directory from which files are served and to which uploads are written.
    pub serve_dir: FsPath,
    /// TCP port to listen on.
    pub port: u16,
}

impl Clone for Config {
    fn clone(&self) -> (r: Config)
        ensures
            r.serve_dir@ == self.serve_dir@,
            r.port == self.port,
    {
        Config { serve_dir: self.serve_dir.clone(), port: self.port }
    }
}

} // verus!
