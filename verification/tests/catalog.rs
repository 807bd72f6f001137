use texsmith::catalog::{build_catalog, Entry, Node};
use texsmith::error::ErrorKind;
use texsmith::templates::template_files;

fn file(name: &str, contents: &[u8]) -> Entry {
    Entry { name: name.to_string(), node: Node::File(contents.to_vec()) }
}

fn folder(name: &str, entries: Vec<Entry>) -> Entry {
    Entry { name: name.to_string(), node: Node::Folder(entries) }
}

fn link(name: &str) -> Entry {
    Entry { name: name.to_string(), node: Node::Other }
}

fn sound() -> Vec<Entry> {
    vec![
        file("README.md", b"catalog notes"),
        folder("apa", vec![file("main.tex", b"@@TITLE@@"), file("references.tex", b"refs")]),
        folder(
            "default",
            vec![
                folder("figures", vec![file("logo.png", b"\xff")]),
                file("main.tex", b"\\title{@@TITLE@@}"),
                folder("sections", vec![file("body.tex", b"body"), folder("empty", vec![])]),
            ],
        ),
    ]
}

#[test]
fn a_sound_catalog_lists_files_in_walk_order_and_serves_every_template() {
    let catalog = build_catalog(&sound()).unwrap();
    let names: Vec<&str> = catalog.iter().map(|t| t.name.as_str()).collect();
    assert_eq!(names, vec!["apa", "default"]);
    let paths: Vec<&str> = catalog[1].files.iter().map(|f| f.path.as_str()).collect();
    assert_eq!(paths, vec!["figures/logo.png", "main.tex", "sections/body.tex"]);
    for t in &catalog {
        let files = template_files(&catalog, &t.name, "T").unwrap();
        assert!(files.iter().any(|f| f.path == "main.tex"));
    }
}

#[test]
fn git_build_and_target_entries_are_passed_over() {
    let mut source = sound();
    source.insert(0, link(".git"));
    source.push(folder("target", vec![link("x")]));
    if let Node::Folder(entries) = &mut source[3].node {
        entries.push(folder("build", vec![file("main.pdf", b"\xff")]));
    }
    let catalog = build_catalog(&source).unwrap();
    assert_eq!(catalog.len(), 2);
    assert_eq!(catalog[1].files.len(), 3);
}

#[test]
fn a_default_template_is_required() {
    let source = vec![folder("apa", vec![file("main.tex", b"x")])];
    assert_eq!(build_catalog(&source).unwrap_err().kind, ErrorKind::MissingDefault);
}

#[test]
fn every_template_needs_main_tex() {
    let mut source = sound();
    source.push(folder("mla", vec![folder("sections", vec![file("main.tex", b"x")])]));
    let e = build_catalog(&source).unwrap_err();
    assert_eq!(e.kind, ErrorKind::MissingMainTex);
    assert_eq!(e.detail, "mla");
}

#[test]
fn template_names_must_be_report_names() {
    let mut source = sound();
    source.insert(1, folder("my-format.v2", vec![file("main.tex", b"x")]));
    let e = build_catalog(&source).unwrap_err();
    assert_eq!(e.kind, ErrorKind::InvalidTemplateName);
    assert_eq!(e.detail, "my-format.v2");
}

#[test]
fn tex_files_must_be_utf8() {
    let source = vec![folder("default", vec![file("body.tex", b"\xc3\x28"), file("main.tex", b"ok")])];
    let e = build_catalog(&source).unwrap_err();
    assert_eq!(e.kind, ErrorKind::TemplateNotUtf8);
    assert_eq!(e.detail, "default/body.tex");
}

#[test]
fn links_and_special_files_are_refused() {
    let mut source = sound();
    source.insert(0, link("shortcut"));
    let e = build_catalog(&source).unwrap_err();
    assert_eq!(e.kind, ErrorKind::UnsupportedTemplateEntry);
    assert_eq!(e.detail, "shortcut");
    let source = vec![folder("default", vec![file("main.tex", b""), link("logo.png")])];
    let e = build_catalog(&source).unwrap_err();
    assert_eq!(e.kind, ErrorKind::UnsupportedTemplateFile);
    assert_eq!(e.detail, "default/logo.png");
}

#[test]
fn names_must_be_portable_and_distinct_in_any_case() {
    let mut source = sound();
    source.push(folder("Default", vec![file("main.tex", b"")]));
    let e = build_catalog(&source).unwrap_err();
    assert_eq!(e.kind, ErrorKind::NonPortablePath);
    assert_eq!(e.detail, "Default");

    // Top-level files are examined too.
    let mut source = sound();
    source.insert(0, file("notes:old.txt", b""));
    assert_eq!(build_catalog(&source).unwrap_err().detail, "notes:old.txt");

    // So are empty folders, and Unicode letters are compared in lower case.
    let source = vec![folder(
        "default",
        vec![folder("ÉTUDE", vec![]), file("main.tex", b""), folder("étude", vec![])],
    )];
    let e = build_catalog(&source).unwrap_err();
    assert_eq!(e.kind, ErrorKind::NonPortablePath);
    assert_eq!(e.detail, "default/étude");

    let source = vec![folder("default", vec![folder("aux", vec![]), file("main.tex", b"")])];
    assert_eq!(build_catalog(&source).unwrap_err().detail, "default/aux");
}

#[test]
fn faults_are_met_in_walk_order() {
    // A non-UTF-8 .tex file beside a sub-folder is met before a bad name in it.
    let source = vec![folder(
        "default",
        vec![file("a.tex", b"\xff"), file("main.tex", b""), folder("z", vec![file("b:c", b"")])],
    )];
    let e = build_catalog(&source).unwrap_err();
    assert_eq!(e.kind, ErrorKind::TemplateNotUtf8);
    assert_eq!(e.detail, "default/a.tex");
    // A folder's own names are examined before any of its files.
    let source = vec![folder("default", vec![file("a.tex", b"\xff"), file("b:c", b"")])];
    assert_eq!(build_catalog(&source).unwrap_err().kind, ErrorKind::NonPortablePath);
    // An earlier template's missing main.tex comes before a later template's bad path.
    let source = vec![
        folder("apa", vec![file("references.tex", b"refs")]),
        folder("default", vec![file("main.tex", b""), file("a:b.tex", b"")]),
    ];
    let e = build_catalog(&source).unwrap_err();
    assert_eq!(e.kind, ErrorKind::MissingMainTex);
    assert_eq!(e.detail, "apa");
}
