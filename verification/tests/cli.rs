use texsmith::cli::{classify_start, parse_command, parse_new, plan_build, Arg, BuildPlan, Command, Start};
use texsmith::error::ErrorKind;

fn args(texts: &[&str]) -> Vec<Arg> {
    texts.iter().map(|t| Arg { text: t.to_string(), unicode: true }).collect()
}

#[test]
fn new_takes_a_name_an_optional_title_and_a_template() {
    assert_eq!(parse_new(&["paper"]).unwrap(), ("paper", "paper", "default"));
    assert_eq!(parse_new(&["paper", "My Paper"]).unwrap(), ("paper", "My Paper", "default"));
    assert_eq!(parse_new(&["paper", "-t", "mla"]).unwrap(), ("paper", "paper", "mla"));
    assert_eq!(
        parse_new(&["paper", "My Paper", "--template", "apa"]).unwrap(),
        ("paper", "My Paper", "apa")
    );
}

#[test]
fn template_option_may_stand_anywhere() {
    let expected = ("essay", "My Essay", "mla");
    assert_eq!(parse_new(&["-t", "mla", "essay", "My Essay"]).unwrap(), expected);
    assert_eq!(parse_new(&["essay", "-t", "mla", "My Essay"]).unwrap(), expected);
    assert_eq!(parse_new(&["essay", "My Essay", "-t", "mla"]).unwrap(), expected);
    assert_eq!(parse_new(&["essay", "--template", "mla", "My Essay"]).unwrap(), expected);
}

#[test]
fn new_refuses_bad_arguments() {
    assert_eq!(parse_new(&["a", "-t", "x", "-t", "y"]).unwrap_err().kind, ErrorKind::DuplicateTemplateOption);
    assert_eq!(parse_new(&["a", "--template"]).unwrap_err().kind, ErrorKind::MissingTemplateName);
    let e = parse_new(&["a", "--unknown"]).unwrap_err();
    assert_eq!(e.kind, ErrorKind::UnknownOption);
    assert_eq!(e.detail, "--unknown");
    assert_eq!(parse_new(&[]).unwrap_err().kind, ErrorKind::NewUsage);
    assert_eq!(parse_new(&["a", "b", "c"]).unwrap_err().kind, ErrorKind::NewUsage);
    // The value of the template option is taken as it is, even with a dash.
    assert_eq!(parse_new(&["a", "-t", "-x"]).unwrap(), ("a", "a", "-x"));
}

#[test]
fn invocations_start_with_help_a_root_or_a_command() {
    assert_eq!(classify_start(&args(&[])).unwrap(), Start::Help);
    for word in ["help", "h", "--help", "-h"] {
        assert_eq!(classify_start(&args(&[word, "x"])).unwrap(), Start::Help);
    }
    assert_eq!(classify_start(&args(&["--root", "/tmp", "list"])).unwrap(), Start::Root);
    assert_eq!(classify_start(&args(&["-r", "/tmp", "list"])).unwrap(), Start::Root);
    assert_eq!(
        classify_start(&args(&["-r", "/tmp"])).unwrap_err().kind,
        ErrorKind::RootNeedsPathAndCommand
    );
    assert_eq!(classify_start(&args(&["list"])).unwrap(), Start::Here);
    let odd = vec![Arg { text: "help".to_string(), unicode: false }];
    assert_eq!(classify_start(&odd).unwrap(), Start::Here);
}

#[test]
fn commands_have_short_and_long_forms() {
    for word in ["templates", "t"] {
        assert!(matches!(parse_command(&args(&[word])).unwrap(), Command::Templates));
    }
    for word in ["list", "ls", "l"] {
        assert!(matches!(parse_command(&args(&[word])).unwrap(), Command::List));
    }
    for word in ["build", "b"] {
        assert!(matches!(parse_command(&args(&[word, "-a"])).unwrap(), Command::Build));
    }
    assert!(matches!(parse_command(&args(&["help"])).unwrap(), Command::Help));
    match parse_command(&args(&["n", "paper", "Title", "-t", "brief"])).unwrap() {
        Command::New { name, title, template } => {
            assert_eq!((name, title, template), ("paper", "Title", "brief"));
        }
        _ => panic!("expected new"),
    }
}

#[test]
fn commands_refuse_what_they_do_not_know() {
    assert_eq!(parse_command(&args(&["list", "x"])).unwrap_err().kind, ErrorKind::InvalidArguments);
    assert_eq!(parse_command(&args(&["frobnicate"])).unwrap_err().kind, ErrorKind::InvalidArguments);
    assert_eq!(parse_command(&args(&["new"])).unwrap_err().kind, ErrorKind::NewUsage);
    let mixed = vec![
        Arg { text: "new".to_string(), unicode: true },
        Arg { text: "pa\u{fffd}er".to_string(), unicode: false },
    ];
    assert_eq!(parse_command(&mixed).unwrap_err().kind, ErrorKind::NotUnicode);
    let build = vec![
        Arg { text: "build".to_string(), unicode: true },
        Arg { text: "pa\u{fffd}er".to_string(), unicode: false },
    ];
    assert!(matches!(parse_command(&build).unwrap(), Command::Build));
}

#[test]
fn build_selects_current_all_or_named_directories() {
    assert!(matches!(plan_build(&args(&[])).unwrap(), BuildPlan::Current));
    assert!(matches!(plan_build(&args(&["--all"])).unwrap(), BuildPlan::All));
    assert!(matches!(plan_build(&args(&["-a"])).unwrap(), BuildPlan::All));
    match plan_build(&args(&["one", "../two"])).unwrap() {
        BuildPlan::Paths(p) => assert_eq!(p, vec![0, 1]),
        _ => panic!("expected paths"),
    }
    match plan_build(&args(&["one", "--", "-literal", "--", "--all"])).unwrap() {
        BuildPlan::Paths(p) => assert_eq!(p, vec![0, 2, 3, 4]),
        _ => panic!("expected paths"),
    }
}

#[test]
fn build_refuses_bad_arguments() {
    assert_eq!(plan_build(&args(&["one", "--all"])).unwrap_err().kind, ErrorKind::AllWithPaths);
    assert_eq!(plan_build(&args(&["-a", "one"])).unwrap_err().kind, ErrorKind::AllWithPaths);
    let e = plan_build(&args(&["-literal"])).unwrap_err();
    assert_eq!(e.kind, ErrorKind::UnknownBuildOption);
    assert_eq!(e.detail, "-literal");
    assert_eq!(plan_build(&args(&["one", ""])).unwrap_err().kind, ErrorKind::EmptyPath);
    assert_eq!(plan_build(&args(&["--"])).unwrap_err().kind, ErrorKind::NothingAfterSeparator);
}
