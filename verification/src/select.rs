//! Choosing the template to scaffold: either a name given up front, or an
//! index picked from the presented list.

use vstd::prelude::*;

verus! {

use crate::error::ScaffoldError;
use crate::order::str_eq;

/// How the template was chosen: by a name passed on the command line, or by
/// an index into the displayed list of available templates.
pub enum TemplateChoice {
    Named(String),
    Index(usize),
}

/// True when `name` is among the available template names.
pub fn contains_name(available: &Vec<String>, name: &str) -> (r: bool)
    ensures
        r == available.deep_view().contains(name@),
{
    let n = available.len();
    let mut i: usize = 0;
    while i < n
        invariant
            n == available@.len(),
            0 <= i <= n,
            forall|k: int| 0 <= k < i ==> available.deep_view()[k] != name@,
        decreases n - i,
    {
        if str_eq(available[i].as_str(), name) {
            proof {
                assert(available.deep_view()[i as int] == name@);
            }
            return true;
        }
        i += 1;
    }
    proof {
        if available.deep_view().contains(name@) {
            let w = choose|k: int|
                0 <= k < available.deep_view().len() && available.deep_view()[k] == name@;
            assert(false);
        }
    }
    false
}

/// Settles which template to scaffold, before anything is created.
///
/// An empty list of available templates is an error on its own. A requested
/// name that is not in the list is refused — so an unknown template never
/// reaches the scaffolding step — and a selection index out of range is
/// refused the same way.
pub fn choose_template(available: &Vec<String>, choice: &TemplateChoice) -> (r: Result<
    String,
    ScaffoldError,
>)
    ensures
        available@.len() == 0 ==> r == Err::<String, ScaffoldError>(ScaffoldError::NoTemplates),
        available@.len() > 0 ==> match choice {
            TemplateChoice::Named(t) => (if available.deep_view().contains(t@) {
                r is Ok && r->Ok_0@ == t@
            } else {
                r == Err::<String, ScaffoldError>(ScaffoldError::UnknownTemplate)
            }),
            TemplateChoice::Index(idx) => (if *idx < available@.len() {
                r is Ok && r->Ok_0@ == available.deep_view()[*idx as int]
            } else {
                r == Err::<String, ScaffoldError>(ScaffoldError::UnknownTemplate)
            }),
        },
{
    if available.len() == 0 {
        return Err(ScaffoldError::NoTemplates);
    }
    match choice {
        TemplateChoice::Named(t) => {
            if contains_name(available, t.as_str()) {
                Ok(t.clone())
            } else {
                Err(ScaffoldError::UnknownTemplate)
            }
        },
        TemplateChoice::Index(idx) => {
            if *idx < available.len() {
                Ok(available[*idx].clone())
            } else {
                Err(ScaffoldError::UnknownTemplate)
            }
        },
    }
}

} // verus!
