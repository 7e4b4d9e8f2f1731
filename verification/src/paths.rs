//! Path computation: joining path segments and locating a `templates`
//! directory by walking up from the working directory.

use vstd::prelude::*;

verus! {

use vstd::string::StringExecFns;

/// Joins two path segments with a separator.
pub fn join_path(base: &str, child: &str) -> (r: String)
    ensures
        r@ == base@ + "/"@ + child@,
{
    let mut s = base.to_owned();
    s.append("/");
    s.append(child);
    s
}

/// Resolves the directory a template of the given name would live in: the
/// child of the templates root named after the template. Whether that
/// directory exists is not checked here; it is deferred to copy time.
pub fn resolve_template_dir(templates_root: &str, template_name: &str) -> (r: String)
    ensures
        r@ == templates_root@ + "/"@ + template_name@,
{
    join_path(templates_root, template_name)
}

/// The name of the directory that holds the template catalog on disk.
pub open spec fn templates_dir_chars() -> Seq<char> {
    "templates"@
}

/// The candidate locations of an on-disk `templates` directory, given the
/// working directory as path components: for the working directory and each
/// of its ancestors, nearest first, the `templates` child of that directory.
pub fn templates_root_candidates(cwd: &Vec<String>) -> (r: Vec<Vec<String>>)
    requires
        cwd@.len() < usize::MAX,
    ensures
        r@.len() == cwd@.len() + 1,
        forall|k: int|
            0 <= k <= cwd@.len() ==> (#[trigger] r@[k]).deep_view() == cwd.deep_view().take(
                cwd@.len() - k,
            ) + seq![templates_dir_chars()],
{
    let n = cwd.len();
    let mut out: Vec<Vec<String>> = Vec::new();
    let mut k: usize = 0;
    while k <= n
        invariant
            n == cwd@.len(),
            n < usize::MAX,
            0 <= k <= n + 1,
            out@.len() == k,
            forall|j: int|
                0 <= j < k ==> (#[trigger] out@[j]).deep_view() == cwd.deep_view().take(
                    n - j,
                ) + seq![templates_dir_chars()],
        decreases n + 1 - k,
    {
        let mut cand: Vec<String> = Vec::new();
        let take_len = n - k;
        let mut j: usize = 0;
        while j < take_len
            invariant
                n == cwd@.len(),
                take_len <= n,
                0 <= j <= take_len,
                cand@.len() == j,
                forall|l: int| 0 <= l < j ==> cand@[l] == cwd@[l],
            decreases take_len - j,
        {
            cand.push(cwd[j].clone());
            j += 1;
        }
        cand.push("templates".to_owned());
        proof {
            assert(cand.deep_view() =~= cwd.deep_view().take(n - k) + seq![
                templates_dir_chars()
            ]);
        }
        out.push(cand);
        k += 1;
    }
    out
}

} // verus!
