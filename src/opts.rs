//! What the program is started with.

use vstd::prelude::*;

verus! {

/// What the program was started with: extra font directories, in the order
/// given, and the path of the renderer.
#[derive(Debug)]
pub struct Opts {
    pub font_dirs: Vec<String>,
    pub toilet_exe: String,
}

} // verus!
