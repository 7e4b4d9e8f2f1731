//! The errors scaffolding can report.

use vstd::prelude::*;

verus! {

/// Why a scaffold request was refused.
#[derive(Clone, Copy, Debug, PartialEq, Eq, Structural)]
pub enum ScaffoldError {
    /// The destination `output_dir/project_name` already exists.
    AlreadyExists,
    /// The requested template is not in the catalog.
    TemplateNotFound,
    /// The requested template is not among the available names.
    UnknownTemplate,
    /// The active source offers no templates at all.
    NoTemplates,
}

impl ScaffoldError {
    /// A short description of the error.
    pub fn message(&self) -> (r: &'static str)
        ensures
            r@ == (match self {
                ScaffoldError::AlreadyExists => "destination already exists"@,
                ScaffoldError::TemplateNotFound => "template not found"@,
                ScaffoldError::UnknownTemplate => "unknown template"@,
                ScaffoldError::NoTemplates => "no templates found"@,
            }),
    {
        match self {
            ScaffoldError::AlreadyExists => "destination already exists",
            ScaffoldError::TemplateNotFound => "template not found",
            ScaffoldError::UnknownTemplate => "unknown template",
            ScaffoldError::NoTemplates => "no templates found",
        }
    }
}

} // verus!
