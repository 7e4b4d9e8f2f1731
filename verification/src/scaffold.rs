//! Scaffolding: materializing a template tree under a fresh destination with
//! the placeholder token replaced by the project name.

use vstd::prelude::*;

verus! {

use crate::catalog::Catalog;
use crate::catalog::TemplateFile;
use crate::catalog::TemplateTree;
use crate::catalog::lookup_in;
use crate::error::ScaffoldError;
use crate::paths::join_path;
use crate::text::substituted;
use crate::text::substitute_file;
use vstd::string::StringSliceAdditionalSpecFns;

/// What a successful scaffold produces: the destination directory, the
/// directories to create under it, and the files to write, each with its
/// final contents.
pub struct ScaffoldOutput {
    pub dest: String,
    pub dirs: Vec<Vec<String>>,
    pub files: Vec<TemplateFile>,
}

/// The output files of a scaffold, against the template's files: one output
/// file per template file, at the identical relative path, holding the
/// template file's contents with the placeholder substituted.
pub open spec fn scaffold_files_ok(
    src: Seq<TemplateFile>,
    out: Seq<TemplateFile>,
    name_bytes: Seq<u8>,
) -> bool {
    &&& out.len() == src.len()
    &&& forall|i: int|
        0 <= i < src.len() ==> (#[trigger] out[i]).path.deep_view() == src[i].path.deep_view()
    &&& forall|i: int|
        0 <= i < src.len() ==> (#[trigger] out[i]).contents@ == substituted(
            src[i].contents@,
            name_bytes,
        )
}

/// Clones the components of a path.
fn clone_components(src: &Vec<String>) -> (r: Vec<String>)
    ensures
        r@ == src@,
{
    let mut r: Vec<String> = Vec::new();
    let n = src.len();
    let mut i: usize = 0;
    while i < n
        invariant
            n == src@.len(),
            0 <= i <= n,
            r@.len() == i,
            forall|k: int| 0 <= k < i ==> r@[k] == src@[k],
        decreases n - i,
    {
        r.push(src[i].clone());
        i += 1;
    }
    proof {
        assert(r@ =~= src@);
    }
    r
}

/// Scaffolds `tree` into `output_dir/project_name`.
///
/// `dest_exists` says whether that destination already exists; scaffolding
/// refuses to touch an existing destination, so in that case nothing is
/// produced and the request fails. Otherwise the whole tree is materialized:
/// directory names are kept as they are, never substituted, and every file
/// appears at its template-relative path with the placeholder replaced in
/// text contents and binary contents untouched.
pub fn scaffold(tree: &TemplateTree, output_dir: &str, project_name: &str, dest_exists: bool) -> (r:
    Result<ScaffoldOutput, ScaffoldError>)
    ensures
        dest_exists ==> r == Err::<ScaffoldOutput, ScaffoldError>(ScaffoldError::AlreadyExists),
        !dest_exists ==> r is Ok,
        r is Ok ==> {
            let out = r->Ok_0;
            &&& !dest_exists
            &&& out.dest@ == output_dir@ + "/"@ + project_name@
            &&& out.dirs.deep_view() == tree.dirs.deep_view()
            &&& scaffold_files_ok(tree.files@, out.files@, project_name.spec_bytes())
        },
{
    if dest_exists {
        return Err(ScaffoldError::AlreadyExists);
    }
    let dest = join_path(output_dir, project_name);
    let mut dirs: Vec<Vec<String>> = Vec::new();
    let nd = tree.dirs.len();
    let mut i: usize = 0;
    while i < nd
        invariant
            nd == tree.dirs@.len(),
            0 <= i <= nd,
            dirs@.len() == i,
            forall|k: int| 0 <= k < i ==> #[trigger] dirs@[k]@ == tree.dirs@[k]@,
        decreases nd - i,
    {
        dirs.push(clone_components(&tree.dirs[i]));
        i += 1;
    }
    proof {
        assert(dirs.deep_view() =~= tree.dirs.deep_view());
    }
    let mut files: Vec<TemplateFile> = Vec::new();
    let nf = tree.files.len();
    let mut j: usize = 0;
    while j < nf
        invariant
            nf == tree.files@.len(),
            0 <= j <= nf,
            files@.len() == j,
            forall|k: int|
                0 <= k < j ==> (#[trigger] files@[k]).path@ == tree.files@[k].path@,
            forall|k: int|
                0 <= k < j ==> (#[trigger] files@[k]).contents@ == substituted(
                    tree.files@[k].contents@,
                    project_name.spec_bytes(),
                ),
        decreases nf - j,
    {
        let f = TemplateFile {
            path: clone_components(&tree.files[j].path),
            contents: substitute_file(&tree.files[j].contents, project_name),
        };
        files.push(f);
        j += 1;
    }
    proof {
        assert forall|k: int| 0 <= k < tree.files@.len() implies (#[trigger] files@[k]
        ).path.deep_view() == tree.files@[k].path.deep_view() by {
            assert(files@[k].path@ == tree.files@[k].path@);
            assert(files@[k].path.deep_view() =~= tree.files@[k].path.deep_view());
        }
    }
    Ok(ScaffoldOutput { dest, dirs, files })
}

/// Scaffolds the catalog template called `template_name` into
/// `output_dir/project_name`.
///
/// An existing destination is refused before the template is even looked up;
/// a name the catalog does not hold is refused before anything is produced.
pub fn scaffold_embedded(
    catalog: &Catalog,
    template_name: &str,
    output_dir: &str,
    project_name: &str,
    dest_exists: bool,
) -> (r: Result<ScaffoldOutput, ScaffoldError>)
    ensures
        dest_exists ==> r == Err::<ScaffoldOutput, ScaffoldError>(ScaffoldError::AlreadyExists),
        !dest_exists ==> match lookup_in(catalog.entries@, template_name@) {
            Option::None => r == Err::<ScaffoldOutput, ScaffoldError>(
                ScaffoldError::TemplateNotFound,
            ),
            Option::Some(tree) => {
                let out = r->Ok_0;
                &&& r is Ok
                &&& out.dest@ == output_dir@ + "/"@ + project_name@
                &&& out.dirs.deep_view() == tree.dirs.deep_view()
                &&& scaffold_files_ok(tree.files@, out.files@, project_name.spec_bytes())
            },
        },
{
    if dest_exists {
        return Err(ScaffoldError::AlreadyExists);
    }
    match catalog.resolve(template_name) {
        Option::None => Err(ScaffoldError::TemplateNotFound),
        Option::Some(tree) => scaffold(tree, output_dir, project_name, false),
    }
}

/// True when some file of the list lives at the given relative path.
pub open spec fn has_file_at(files: Seq<TemplateFile>, p: Seq<Seq<char>>) -> bool {
    exists|i: int| 0 <= i < files.len() && (#[trigger] files[i].path).deep_view() == p
}

/// Every file of the template has an output file at the identical relative
/// path, and every output file comes from a template file at the identical
/// relative path: no file is missing and none is added.
pub proof fn lemma_scaffold_preserves_structure(
    src: Seq<TemplateFile>,
    out: Seq<TemplateFile>,
    name_bytes: Seq<u8>,
)
    requires
        scaffold_files_ok(src, out, name_bytes),
    ensures
        forall|p: Seq<Seq<char>>| has_file_at(src, p) <==> #[trigger] has_file_at(out, p),
{
    assert forall|p: Seq<Seq<char>>| has_file_at(src, p) <==> #[trigger] has_file_at(
        out,
        p,
    ) by {
        if has_file_at(src, p) {
            let i = choose|i: int|
                0 <= i < src.len() && (#[trigger] src[i].path).deep_view() == p;
            assert(0 <= i < out.len() && out[i].path.deep_view() == p);
        }
        if has_file_at(out, p) {
            let j = choose|j: int|
                0 <= j < out.len() && (#[trigger] out[j].path).deep_view() == p;
            assert(0 <= j < src.len() && src[j].path.deep_view() == p);
        }
    }
}

/// Two scaffolds of one template are independent: each output is a function
/// of the template tree and its own project name alone, so neither run can
/// disturb the other, whatever order they happen in.
pub proof fn lemma_scaffolds_independent(
    tree: TemplateTree,
    out1: Seq<TemplateFile>,
    out2: Seq<TemplateFile>,
    name1_bytes: Seq<u8>,
    name2_bytes: Seq<u8>,
)
    requires
        scaffold_files_ok(tree.files@, out1, name1_bytes),
        scaffold_files_ok(tree.files@, out2, name2_bytes),
    ensures
        out1.len() == out2.len(),
        forall|i: int|
            0 <= i < out1.len() ==> (#[trigger] out1[i]).path.deep_view() == (#[trigger] out2[i]
            ).path.deep_view(),
        forall|i: int|
            0 <= i < out1.len() ==> (#[trigger] out1[i]).contents@ == substituted(
                tree.files@[i].contents@,
                name1_bytes,
            ),
        forall|i: int|
            0 <= i < out2.len() ==> (#[trigger] out2[i]).contents@ == substituted(
                tree.files@[i].contents@,
                name2_bytes,
            ),
{
}

} // verus!
