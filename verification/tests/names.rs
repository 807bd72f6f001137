use texsmith::names::{portable_component, report_name, validate_name};

#[test]
fn names_cannot_escape_workspace_or_collide_with_tooling() {
    for name in [
        "",
        "..",
        "../outside",
        "/tmp/report",
        "a/b",
        "--all",
        "templates",
        "src",
        "target",
    ] {
        assert!(validate_name(name).is_err(), "{name}");
    }
    assert!(validate_name("2026-example_report").is_ok());
}

#[test]
fn portable_names_reject_windows_devices_on_every_os() {
    for name in [
        "CON",
        "con",
        "NUL",
        "COM1",
        "Lpt9",
        "aux.txt",
        "trailing.",
        "trailing ",
        "a:b",
        "a\\b",
    ] {
        assert!(!portable_component(name), "{name}");
    }
    assert!(report_name("2026-paper"));
    assert!(!report_name("Templates"));
    assert!(portable_component("résumé.tex"));
}

#[test]
fn device_names_with_superscript_digits_and_extensions_are_refused() {
    for name in ["COM¹", "lpt²", "com³.txt", "CONIN$", "conout$.log", "Prn.tar.gz", "nul."] {
        assert!(!portable_component(name), "{name}");
    }
    for name in ["COM0", "COM10", "LPT", "CONSOLE", "nulls", "x.CON", "COM⁴"] {
        assert!(portable_component(name), "{name}");
    }
}

#[test]
fn control_and_forbidden_characters_are_refused() {
    for name in ["a<b", "a>b", "a\"b", "a|b", "a?b", "a*b", "tab\there", "bell\u{7}", "c1\u{85}"] {
        assert!(!portable_component(name), "{name:?}");
    }
    assert!(portable_component("\u{a0}ok"));
    assert!(portable_component(".hidden"));
    assert!(!portable_component(" "));
}

#[test]
fn report_names_are_ascii_words() {
    for name in ["paper", "2026-paper", "my_report", "A1", "x"] {
        assert!(report_name(name), "{name}");
    }
    for name in [
        "-paper", "_paper", "my paper", "résumé", "a.b", "SRC", "Target", "TEMPLATES", "nul",
        "com7",
    ] {
        assert!(!report_name(name), "{name}");
    }
    assert!(report_name("srcs"));
    assert!(report_name("targets"));
}

#[test]
fn every_report_name_is_portable() {
    for name in ["paper", "a-b_c", "Z9", "CONX", "com0"] {
        assert_eq!(report_name(name), true);
        assert!(portable_component(name));
    }
}
