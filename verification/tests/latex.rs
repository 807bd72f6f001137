use texsmith::latex::escape_tex;

#[test]
fn title_is_literal_latex_text() {
    assert_eq!(
        escape_tex("A&B_50% {x}\\"),
        "A\\&B\\_50\\% \\{x\\}\\textbackslash{}"
    );
}

#[test]
fn every_special_character_has_a_literal_form() {
    assert_eq!(escape_tex("$#~^"), "\\$\\#\\textasciitilde{}\\textasciicircum{}");
    assert_eq!(escape_tex("line\nbreak\r\nend"), "line break  end");
    assert_eq!(escape_tex(""), "");
}

#[test]
fn plain_titles_are_kept() {
    assert_eq!(escape_tex("My Paper: Über Größe (2026)!"), "My Paper: Über Größe (2026)!");
}

#[test]
fn escaping_distributes_over_concatenation() {
    let a = "R&D {draft}";
    let b = "\n50% ~done";
    let joined = format!("{a}{b}");
    assert_eq!(escape_tex(&joined), format!("{}{}", escape_tex(a), escape_tex(b)));
}

#[test]
fn escaped_titles_have_no_line_breaks() {
    let out = escape_tex("a\nb\rc\\\n");
    assert!(!out.contains('\n') && !out.contains('\r'));
}
