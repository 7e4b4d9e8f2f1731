use vibe_generate::catalog::{Catalog, CatalogEntry, TemplateFile, TemplateTree};
use vibe_generate::error::ScaffoldError;
use vibe_generate::paths::{resolve_template_dir, templates_root_candidates};
use vibe_generate::scaffold::{scaffold, scaffold_embedded};
use vibe_generate::select::{choose_template, contains_name, TemplateChoice};
use vibe_generate::text::{replace_all, substitute_file};
use vibe_generate::{catalog, version, Cli};

fn s(x: &str) -> String {
    x.to_string()
}

fn path(components: &[&str]) -> Vec<String> {
    components.iter().map(|c| s(c)).collect()
}

fn file(components: &[&str], contents: &[u8]) -> TemplateFile {
    TemplateFile {
        path: path(components),
        contents: contents.to_vec(),
    }
}

fn sample_tree() -> TemplateTree {
    TemplateTree {
        dirs: vec![path(&["src"]), path(&["docs"])],
        files: vec![
            file(&["README.md"], b"Welcome to {{project-name}}!"),
            file(&["src", "main.rs"], b"// {{project-name}} entry point\n"),
            file(&["docs", "logo.bin"], &[0xff, 0xfe, 0x00, 0x80]),
        ],
    }
}

#[test]
fn version_is_fixed() {
    assert_eq!(version(), "0.1.0");
}

#[test]
fn cli_holds_plain_values() {
    let cli = Cli {
        template: Some(s("rust-cli")),
        name: s("acme"),
        output_dir: None,
    };
    assert_eq!(cli.template.as_deref(), Some("rust-cli"));
    assert_eq!(cli.name, "acme");
    assert!(cli.output_dir.is_none());
}

#[test]
fn resolve_template_dir_joins() {
    assert_eq!(resolve_template_dir("work/templates", "rust-cli"), "work/templates/rust-cli");
}

#[test]
fn replace_all_replaces_every_occurrence() {
    let out = replace_all(&b"a {{x}} b {{x}} c".to_vec(), &b"{{x}}".to_vec(), &b"yo".to_vec());
    assert_eq!(out, b"a yo b yo c".to_vec());
}

#[test]
fn replace_all_is_leftmost_non_overlapping() {
    let out = replace_all(&b"aaa".to_vec(), &b"aa".to_vec(), &b"b".to_vec());
    assert_eq!(out, b"ba".to_vec());
}

#[test]
fn replace_all_without_match_is_identity() {
    let out = replace_all(&b"plain".to_vec(), &b"{{x}}".to_vec(), &b"y".to_vec());
    assert_eq!(out, b"plain".to_vec());
}

#[test]
fn substitute_replaces_placeholder_in_text() {
    let out = substitute_file(&b"Welcome to {{project-name}}!".to_vec(), "acme");
    assert_eq!(out, b"Welcome to acme!".to_vec());
}

#[test]
fn substitute_handles_multibyte_text() {
    let src = "caf\u{e9} {{project-name}} caf\u{e9}".as_bytes().to_vec();
    let out = substitute_file(&src, "acme");
    assert_eq!(String::from_utf8(out).unwrap(), "caf\u{e9} acme caf\u{e9}");
}

#[test]
fn substitute_leaves_binary_untouched() {
    let mut raw: Vec<u8> = vec![0xff];
    raw.extend_from_slice(b"{{project-name}}");
    raw.push(0x80);
    let out = substitute_file(&raw, "acme");
    assert_eq!(out, raw);
}

#[test]
fn substitute_accepts_four_byte_scalars_as_text() {
    let src = "\u{1f600} {{project-name}}".as_bytes().to_vec();
    let out = substitute_file(&src, "acme");
    assert_eq!(String::from_utf8(out).unwrap(), "\u{1f600} acme");
}

#[test]
fn substitute_treats_malformed_encodings_as_binary() {
    // Lone continuation byte, overlong two-byte form, surrogate, value above
    // the last scalar, and a truncated sequence: none is text, so each is
    // kept verbatim even though the placeholder appears alongside.
    let malformed: Vec<Vec<u8>> = vec![
        vec![0x80],
        vec![0xc0, 0xaf],
        vec![0xe0, 0x80, 0x80],
        vec![0xed, 0xa0, 0x80],
        vec![0xf4, 0x90, 0x80, 0x80],
        vec![0xf5, 0x80, 0x80, 0x80],
        vec![0xe2, 0x82],
    ];
    for bad in malformed {
        let mut raw = bad.clone();
        raw.extend_from_slice(b"{{project-name}}");
        let out = substitute_file(&raw, "acme");
        assert_eq!(out, raw);
    }
}

#[test]
fn substitute_leaves_empty_content_empty() {
    let out = substitute_file(&Vec::new(), "acme");
    assert!(out.is_empty());
}

#[test]
fn scaffold_refuses_existing_destination() {
    let tree = sample_tree();
    let r = scaffold(&tree, "out", "acme", true);
    assert_eq!(r.err(), Some(ScaffoldError::AlreadyExists));
}

#[test]
fn scaffold_substitutes_and_keeps_structure() {
    let tree = sample_tree();
    let out = scaffold(&tree, "out", "acme", false).unwrap();
    assert_eq!(out.dest, "out/acme");
    assert_eq!(out.dirs, vec![path(&["src"]), path(&["docs"])]);
    assert_eq!(out.files.len(), tree.files.len());
    for (src, dst) in tree.files.iter().zip(out.files.iter()) {
        assert_eq!(src.path, dst.path);
    }
    assert_eq!(out.files[0].contents, b"Welcome to acme!".to_vec());
    assert_eq!(out.files[1].contents, b"// acme entry point\n".to_vec());
    assert_eq!(out.files[2].contents, vec![0xff, 0xfe, 0x00, 0x80]);
    for f in &out.files {
        if let Ok(text) = String::from_utf8(f.contents.clone()) {
            assert!(!text.contains("{{project-name}}"));
        }
    }
}

#[test]
fn scaffolds_are_independent() {
    let tree = sample_tree();
    let first = scaffold(&tree, "alpha", "one", false).unwrap();
    let second = scaffold(&tree, "beta", "two", false).unwrap();
    assert_eq!(first.dest, "alpha/one");
    assert_eq!(second.dest, "beta/two");
    assert_eq!(first.files[0].contents, b"Welcome to one!".to_vec());
    assert_eq!(second.files[0].contents, b"Welcome to two!".to_vec());
    for (a, b) in first.files.iter().zip(second.files.iter()) {
        assert_eq!(a.path, b.path);
    }
}

fn sample_catalog() -> Catalog {
    Catalog {
        entries: vec![
            CatalogEntry {
                name: s("web"),
                tree: TemplateTree {
                    dirs: vec![],
                    files: vec![file(&["index.html"], b"<h1>{{project-name}}</h1>")],
                },
            },
            CatalogEntry {
                name: s("cli"),
                tree: TemplateTree {
                    dirs: vec![path(&["src"])],
                    files: vec![file(&["src", "main.rs"], b"fn main() {}\n")],
                },
            },
        ],
    }
}

#[test]
fn embedded_listing_is_sorted_and_distinct() {
    let catalog = sample_catalog();
    let names = catalog::list_templates_embedded(&catalog);
    assert_eq!(names, vec![s("cli"), s("web")]);
}

#[test]
fn listing_sorts_and_deduplicates() {
    let names = catalog::list_templates(&vec![s("web"), s("cli"), s("web"), s("api")]);
    assert_eq!(names, vec![s("api"), s("cli"), s("web")]);
}

#[test]
fn listed_names_resolve_to_their_trees() {
    let catalog = sample_catalog();
    for name in catalog::list_templates_embedded(&catalog) {
        let tree = catalog.resolve(&name).expect("listed template must resolve");
        let expected = catalog
            .entries
            .iter()
            .find(|e| e.name == name)
            .expect("listed template must be an entry");
        assert_eq!(tree.files.len(), expected.tree.files.len());
        for (a, b) in tree.files.iter().zip(expected.tree.files.iter()) {
            assert_eq!(a.path, b.path);
            assert_eq!(a.contents, b.contents);
        }
    }
}

#[test]
fn resolve_unknown_name_fails() {
    let catalog = sample_catalog();
    assert!(catalog.resolve("nope").is_none());
}

#[test]
fn scaffold_embedded_materializes_the_named_template() {
    let catalog = sample_catalog();
    let out = scaffold_embedded(&catalog, "web", "out", "acme", false).unwrap();
    assert_eq!(out.dest, "out/acme");
    assert_eq!(out.files.len(), 1);
    assert_eq!(out.files[0].path, path(&["index.html"]));
    assert_eq!(out.files[0].contents, b"<h1>acme</h1>".to_vec());
}

#[test]
fn scaffold_embedded_refuses_existing_destination_first() {
    let catalog = sample_catalog();
    let r = scaffold_embedded(&catalog, "nope", "out", "acme", true);
    assert_eq!(r.err(), Some(ScaffoldError::AlreadyExists));
}

#[test]
fn scaffold_embedded_refuses_unknown_template() {
    let catalog = sample_catalog();
    let r = scaffold_embedded(&catalog, "nope", "out", "acme", false);
    assert_eq!(r.err(), Some(ScaffoldError::TemplateNotFound));
}

#[test]
fn choosing_from_empty_list_fails() {
    let r = choose_template(&Vec::new(), &TemplateChoice::Named(s("cli")));
    assert_eq!(r.err(), Some(ScaffoldError::NoTemplates));
}

#[test]
fn choosing_unknown_name_fails_before_any_scaffolding() {
    let available = vec![s("cli"), s("web")];
    let r = choose_template(&available, &TemplateChoice::Named(s("gui")));
    assert_eq!(r.err(), Some(ScaffoldError::UnknownTemplate));
    assert!(!contains_name(&available, "gui"));
}

#[test]
fn choosing_known_name_succeeds() {
    let available = vec![s("cli"), s("web")];
    let r = choose_template(&available, &TemplateChoice::Named(s("web")));
    assert_eq!(r.unwrap(), "web");
}

#[test]
fn choosing_by_index_takes_the_listed_name() {
    let available = vec![s("cli"), s("web")];
    let r = choose_template(&available, &TemplateChoice::Index(1));
    assert_eq!(r.unwrap(), "web");
}

#[test]
fn choosing_out_of_range_index_fails() {
    let available = vec![s("cli"), s("web")];
    let r = choose_template(&available, &TemplateChoice::Index(2));
    assert_eq!(r.err(), Some(ScaffoldError::UnknownTemplate));
}

#[test]
fn candidates_walk_up_to_the_root() {
    let cwd = path(&["home", "user", "proj"]);
    let cands = templates_root_candidates(&cwd);
    assert_eq!(
        cands,
        vec![
            path(&["home", "user", "proj", "templates"]),
            path(&["home", "user", "templates"]),
            path(&["home", "templates"]),
            path(&["templates"]),
        ]
    );
}

#[test]
fn error_messages_name_the_condition() {
    assert_eq!(ScaffoldError::AlreadyExists.message(), "destination already exists");
    assert_eq!(ScaffoldError::TemplateNotFound.message(), "template not found");
    assert_eq!(ScaffoldError::UnknownTemplate.message(), "unknown template");
    assert_eq!(ScaffoldError::NoTemplates.message(), "no templates found");
}
