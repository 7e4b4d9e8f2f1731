//! The template catalog: the templates a source offers, by name.
//!
//! A template is a directory tree of files. The catalog models both sources
//! alike — an on-disk `templates` directory and a bundle compiled into the
//! binary — as plain data: names paired with their trees.

use vstd::prelude::*;

verus! {

use crate::order::name_lt;
use crate::order::lemma_lex_connex;
use crate::order::lemma_lex_trans;
use crate::order::lemma_lex_irrefl;
use crate::order::lemma_name_eq;
use crate::order::str_lt;
use crate::order::str_eq;

/// One file of a template: its path relative to the template root, as
/// components, and its raw contents.
pub struct TemplateFile {
    pub path: Vec<String>,
    pub contents: Vec<u8>,
}

/// A template's directory tree: the directories to create and the files to
/// materialize, all relative to the template root.
pub struct TemplateTree {
    pub dirs: Vec<Vec<String>>,
    pub files: Vec<TemplateFile>,
}

/// One template of the catalog.
pub struct CatalogEntry {
    pub name: String,
    pub tree: TemplateTree,
}

/// The templates a source offers.
pub struct Catalog {
    pub entries: Vec<CatalogEntry>,
}

/// The tree of the first entry called `name`, if any.
pub open spec fn lookup_in(entries: Seq<CatalogEntry>, name: Seq<char>) -> Option<TemplateTree>
    decreases entries.len(),
{
    if entries.len() == 0 {
        None
    } else if entries[0].name@ == name {
        Some(entries[0].tree)
    } else {
        lookup_in(entries.drop_first(), name)
    }
}

impl Catalog {
    /// The template names, in catalog order.
    pub open spec fn names(&self) -> Seq<Seq<char>> {
        Seq::new(self.entries@.len(), |i: int| self.entries@[i].name@)
    }

    /// A well-formed catalog names each template once.
    pub open spec fn wf(&self) -> bool {
        forall|i: int, j: int|
            0 <= i < j < self.entries@.len() ==> self.entries@[i].name@ != self.entries@[j].name@
    }

    /// Resolves a template name to its tree, or `None` when the source has no
    /// template of that name.
    pub fn resolve(&self, name: &str) -> (r: Option<&TemplateTree>)
        ensures
            match r {
                Some(t) => lookup_in(self.entries@, name@) == Some(*t),
                None => lookup_in(self.entries@, name@) is None,
            },
    {
        let n = self.entries.len();
        let mut i: usize = 0;
        proof {
            assert(self.entries@.skip(0) =~= self.entries@);
        }
        while i < n
            invariant
                n == self.entries@.len(),
                0 <= i <= n,
                forall|k: int| 0 <= k < i ==> self.entries@[k].name@ != name@,
                lookup_in(self.entries@.skip(i as int), name@) == lookup_in(
                    self.entries@,
                    name@,
                ),
            decreases n - i,
        {
            if str_eq(self.entries[i].name.as_str(), name) {
                proof {
                    assert(self.entries@.skip(i as int)[0] == self.entries@[i as int]);
                }
                return Some(&self.entries[i].tree);
            }
            proof {
                assert(self.entries@.skip(i as int)[0] == self.entries@[i as int]);
                assert(self.entries@.skip(i as int).drop_first() =~= self.entries@.skip(i + 1));
            }
            i += 1;
        }
        proof {
            assert(self.entries@.skip(n as int).len() == 0);
        }
        None
    }
}

/// A name found by `lookup_in` is a name of some entry, and the tree it maps
/// to is that entry's tree.
proof fn lemma_lookup_some(entries: Seq<CatalogEntry>, name: Seq<char>)
    requires
        exists|i: int| 0 <= i < entries.len() && (#[trigger] entries[i]).name@ == name,
    ensures
        lookup_in(entries, name) is Some,
        exists|i: int|
            0 <= i < entries.len() && (#[trigger] entries[i]).name@ == name && lookup_in(
                entries,
                name,
            ) == Some(entries[i].tree),
    decreases entries.len(),
{
    if entries[0].name@ == name {
    } else {
        let j = choose|i: int| 0 <= i < entries.len() && (#[trigger] entries[i]).name@ == name;
        assert(entries.drop_first()[j - 1] == entries[j]);
        lemma_lookup_some(entries.drop_first(), name);
        let k = choose|i: int|
            0 <= i < entries.drop_first().len() && (#[trigger] entries.drop_first()[i]).name@
                == name && lookup_in(entries.drop_first(), name) == Some(
                entries.drop_first()[i].tree,
            );
        assert(entries[k + 1] == entries.drop_first()[k]);
    }
}

/// Listing then resolving agrees with the catalog itself: every name the
/// catalog holds resolves to a tree, and in a well-formed catalog that tree is
/// exactly the tree the catalog pairs with the name.
pub proof fn lemma_list_then_resolve(catalog: Catalog, name: Seq<char>)
    requires
        catalog.names().contains(name),
    ensures
        lookup_in(catalog.entries@, name) is Some,
        catalog.wf() ==> forall|i: int|
            0 <= i < catalog.entries@.len() && (#[trigger] catalog.entries@[i]).name@ == name
                ==> lookup_in(catalog.entries@, name) == Some(catalog.entries@[i].tree),
{
    let j = choose|i: int| 0 <= i < catalog.names().len() && catalog.names()[i] == name;
    assert(catalog.entries@[j].name@ == name);
    lemma_lookup_some(catalog.entries@, name);
}

/// Names strictly ordered: every name earlier in the list is lexicographically
/// below every later one. This also rules out duplicates.
pub open spec fn strictly_sorted(names: Seq<Seq<char>>) -> bool {
    forall|i: int, j: int| 0 <= i < j < names.len() ==> name_lt(names[i], names[j])
}

/// A strictly sorted list of names has no duplicates.
pub proof fn lemma_sorted_distinct(names: Seq<Seq<char>>)
    requires
        strictly_sorted(names),
    ensures
        forall|i: int, j: int|
            0 <= i < names.len() && 0 <= j < names.len() && i != j ==> names[i] != names[j],
{
    assert forall|i: int, j: int|
        0 <= i < names.len() && 0 <= j < names.len() && i != j implies names[i] != names[j] by {
        if names[i] == names[j] {
            if i < j {
                assert(name_lt(names[i], names[j]));
            } else {
                assert(name_lt(names[j], names[i]));
            }
            lemma_lex_irrefl(vstd::utf8::encode_utf8(names[i]));
            assert(false);
        }
    }
}

/// Inserts `name` into a strictly sorted list, keeping it strictly sorted;
/// a name already present is not added again.
#[verifier::rlimit(50)]
fn insert_sorted(v: &mut Vec<String>, name: String)
    requires
        strictly_sorted(old(v).deep_view()),
    ensures
        strictly_sorted(final(v).deep_view()),
        forall|n: Seq<char>|
            final(v).deep_view().contains(n) <==> (old(v).deep_view().contains(n) || n == name@),
{
    let n = v.len();
    let mut i: usize = 0;
    while i < n && str_lt(v[i].as_str(), name.as_str())
        invariant
            n == v@.len(),
            *v == *old(v),
            strictly_sorted(v.deep_view()),
            0 <= i <= n,
            forall|k: int| 0 <= k < i ==> name_lt(#[trigger] v.deep_view()[k], name@),
        decreases n - i,
    {
        i += 1;
    }
    if i < n {
        if str_eq(v[i].as_str(), name.as_str()) {
            proof {
                assert(v.deep_view().contains(name@)) by {
                    assert(v.deep_view()[i as int] == name@);
                }
            }
            return ;
        }
    }
    proof {
        if i < v@.len() {
            lemma_lex_connex(
                vstd::utf8::encode_utf8(v.deep_view()[i as int]),
                vstd::utf8::encode_utf8(name@),
            );
            if vstd::utf8::encode_utf8(v.deep_view()[i as int]) == vstd::utf8::encode_utf8(
                name@,
            ) {
                lemma_name_eq(v.deep_view()[i as int], name@);
            }
            assert(name_lt(name@, v.deep_view()[i as int]));
        }
    }
    let ghost olds = v@;
    let ghost oldv = v.deep_view();
    let ghost at = i as int;
    v.insert(i, name);
    proof {
        olds.insert_ensures(at, name);
        let newv = v.deep_view();
        assert(newv.len() == oldv.len() + 1);
        assert forall|k: int| 0 <= k < at implies newv[k] == oldv[k] by {
            assert(v@[k] == olds[k]);
        }
        assert(v@[at] == name);
        assert(newv[at] == name@);
        assert forall|k: int| at < k < newv.len() implies newv[k] == oldv[k - 1] by {
            assert(v@[k] == olds[k - 1]);
        }
        assert forall|p: int, q: int| 0 <= p < q < newv.len() implies name_lt(
            newv[p],
            newv[q],
        ) by {
            if q < at {
            } else if p < at && q == at {
            } else if p < at && q > at {
                assert(name_lt(oldv[p], oldv[q - 1]));
            } else if p == at {
                if q - 1 == at {
                } else {
                    assert(name_lt(oldv[at], oldv[q - 1]));
                    lemma_lex_trans(
                        vstd::utf8::encode_utf8(name@),
                        vstd::utf8::encode_utf8(oldv[at]),
                        vstd::utf8::encode_utf8(oldv[q - 1]),
                    );
                }
            } else {
                assert(name_lt(oldv[p - 1], oldv[q - 1]));
            }
        }
        assert forall|m: Seq<char>| newv.contains(m) implies (oldv.contains(m) || m
            == name@) by {
            let w = choose|k: int| 0 <= k < newv.len() && newv[k] == m;
            if w < at {
                assert(oldv[w] == m);
            } else if w == at {
            } else {
                assert(oldv[w - 1] == m);
            }
        }
        assert forall|m: Seq<char>| (oldv.contains(m) || m == name@) implies newv.contains(
            m,
        ) by {
            if m == name@ {
                assert(newv[at] == m);
            } else {
                let w = choose|k: int| 0 <= k < oldv.len() && oldv[k] == m;
                if w < at {
                    assert(newv[w] == m);
                } else {
                    assert(newv[w + 1] == m);
                }
            }
        }
    }
}

/// Turns the raw directory-entry names of a template source into the list of
/// available templates: lexicographically sorted, without duplicates, holding
/// exactly the names that were given.
pub fn list_templates(names: &Vec<String>) -> (r: Vec<String>)
    ensures
        strictly_sorted(r.deep_view()),
        forall|n: Seq<char>| r.deep_view().contains(n) <==> names.deep_view().contains(n),
{
    let mut out: Vec<String> = Vec::new();
    let n = names.len();
    let mut i: usize = 0;
    while i < n
        invariant
            n == names@.len(),
            0 <= i <= n,
            strictly_sorted(out.deep_view()),
            forall|m: Seq<char>|
                out.deep_view().contains(m) <==> names.deep_view().take(i as int).contains(m),
        decreases n - i,
    {
        let ghost prefix = names.deep_view().take(i as int);
        insert_sorted(&mut out, names[i].clone());
        proof {
            let longer = names.deep_view().take(i + 1);
            assert(longer.drop_last() =~= prefix);
            assert(longer.last() == names.deep_view()[i as int]);
            assert forall|m: Seq<char>| longer.contains(m) implies (prefix.contains(m) || m
                == names.deep_view()[i as int]) by {
                let w = choose|k: int| 0 <= k < longer.len() && longer[k] == m;
                if w < longer.len() - 1 {
                    assert(prefix[w] == m);
                }
            }
            assert forall|m: Seq<char>| (prefix.contains(m) || m == names.deep_view()[i as int])
                implies longer.contains(m) by {
                if m == names.deep_view()[i as int] {
                    assert(longer[longer.len() - 1] == m);
                } else {
                    let w = choose|k: int| 0 <= k < prefix.len() && prefix[k] == m;
                    assert(longer[w] == m);
                }
            }
        }
        i += 1;
    }
    proof {
        assert(names.deep_view().take(n as int) =~= names.deep_view());
    }
    out
}

/// Lists the templates of a catalog: its names, sorted and without
/// duplicates.
pub fn list_templates_embedded(catalog: &Catalog) -> (r: Vec<String>)
    ensures
        strictly_sorted(r.deep_view()),
        forall|n: Seq<char>| r.deep_view().contains(n) <==> catalog.names().contains(n),
{
    let mut raw: Vec<String> = Vec::new();
    let n = catalog.entries.len();
    let mut i: usize = 0;
    while i < n
        invariant
            n == catalog.entries@.len(),
            0 <= i <= n,
            raw@.len() == i,
            forall|k: int| 0 <= k < i ==> raw@[k] == catalog.entries@[k].name,
        decreases n - i,
    {
        raw.push(catalog.entries[i].name.clone());
        i += 1;
    }
    proof {
        assert(raw.deep_view() =~= catalog.names());
    }
    list_templates(&raw)
}

} // verus!
