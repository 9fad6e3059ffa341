//! Command-line arguments.
use vstd::prelude::*;

verus! {

/// The server's arguments: its root folder (or configuration file) and
/// whether it logs its routes.
#[derive(Debug, Clone)]
pub struct Args {
    pub root: Option<String>,
    pub verbose: bool,
}

} // verus!
