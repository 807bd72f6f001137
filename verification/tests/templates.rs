use texsmith::error::ErrorKind;
use texsmith::paths::tex_path;
use texsmith::templates::{replace_title, template_files, Template, TemplateFile};

fn file(path: &str, contents: &[u8]) -> TemplateFile {
    TemplateFile { path: path.to_string(), contents: contents.to_vec() }
}

fn catalog() -> Vec<Template> {
    vec![
        Template {
            name: "default".to_string(),
            files: vec![
                file("main.tex", b"\\title{@@TITLE@@}\n\\begin{document}@@TITLE@@\\end{document}\n"),
                file("figures/logo.png", b"@@TITLE@@\x89PNG"),
                file("sections/body.tex", b"no placeholder"),
            ],
        },
        Template {
            name: "broken".to_string(),
            files: vec![file("notes.txt", b"\xff"), file("main.tex", b"\xff@@TITLE@@")],
        },
        Template { name: "default".to_string(), files: vec![] },
    ]
}

#[test]
fn titles_are_written_into_every_tex_file_and_nowhere_else() {
    let files = template_files(&catalog(), "default", "R&D {2026}").unwrap();
    assert_eq!(files.len(), 3);
    assert_eq!(files[0].path, "main.tex");
    assert_eq!(
        files[0].contents,
        b"\\title{R\\&D \\{2026\\}}\n\\begin{document}R\\&D \\{2026\\}\\end{document}\n".to_vec()
    );
    assert_eq!(files[1].path, "figures/logo.png");
    assert_eq!(files[1].contents, b"@@TITLE@@\x89PNG".to_vec());
    assert_eq!(files[2].contents, b"no placeholder".to_vec());
}

#[test]
fn unicode_titles_are_encoded_as_utf8() {
    let files = template_files(&catalog(), "default", "Größe").unwrap();
    let text = String::from_utf8(files[0].contents.clone()).unwrap();
    assert!(text.starts_with("\\title{Größe}"));
}

#[test]
fn template_errors_come_in_order() {
    let e = template_files(&catalog(), "../default", "x").unwrap_err();
    assert_eq!(e.kind, ErrorKind::InvalidReportName);
    let e = template_files(&catalog(), "missing", "x").unwrap_err();
    assert_eq!(e.kind, ErrorKind::UnknownTemplate);
    assert_eq!(e.detail, "missing");
    let e = template_files(&catalog(), "broken", "x").unwrap_err();
    assert_eq!(e.kind, ErrorKind::TemplateNotUtf8);
    assert_eq!(e.detail, "main.tex");
}

#[test]
fn placeholders_are_replaced_left_to_right_without_overlap() {
    assert_eq!(replace_title(b"@@TITLE@@TITLE@@", b"X"), b"XTITLE@@".to_vec());
    assert_eq!(replace_title(b"@@@TITLE@@", b"X"), b"@X".to_vec());
    assert_eq!(replace_title(b"@@TITLE@", b"X"), b"@@TITLE@".to_vec());
    assert_eq!(replace_title(b"", b"X"), b"".to_vec());
}

#[test]
fn tex_files_are_recognised_by_extension() {
    for path in ["main.tex", "sections/body.tex", "a.b.tex", "..tex", "dir/x.tex/", "x.tex/.", "a//b.tex"] {
        assert!(tex_path(path), "{path}");
    }
    for path in [".tex", "main.TEX", "main.texx", "tex", "dir.tex/..", "", "/", "x.tex/../y", "main.tex.bak"] {
        assert!(!tex_path(path), "{path}");
    }
}
