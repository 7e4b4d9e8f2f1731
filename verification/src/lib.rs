//! Scaffold new projects from boilerplate templates.
//!
//! A template is a named directory tree of files. Scaffolding copies a
//! template's tree into a fresh destination directory and substitutes the
//! placeholder token `{{project-name}}` with the real project name in every
//! text file, leaving binary files untouched.

use vstd::prelude::*;

pub mod catalog;
pub mod error;
pub mod order;
pub mod paths;
pub mod scaffold;
pub mod select;
pub mod text;

verus! {

/// Returns the crate version.
pub fn version() -> (r: &'static str)
    ensures
        r@ == "0.1.0"@,
{
    "0.1.0"
}

/// The command line of one invocation, as plain values: the template to use
/// (none asks for interactive selection), the name of the new project, and
/// the directory the project folder is created in (none means the current
/// working directory).
pub struct Cli {
    pub template: Option<String>,
    pub name: String,
    pub output_dir: Option<String>,
}

} // verus!
