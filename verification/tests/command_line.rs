use showfiles::args::{
    parse_args, plan, selected_files, DirItem, ListingError, Matches, Plan, Rejection,
};

fn argv(words: &[&str]) -> Vec<String> {
    words.iter().map(|w| w.to_string()).collect()
}

#[test]
fn named_files_are_shown_in_order() {
    match parse_args(&argv(&["prog", "b", "a", "b"])) {
        Plan::Show(files) => assert_eq!(files, vec!["b", "a", "b"]),
        other => panic!("unexpected plan {:?}", other),
    }
}

#[test]
fn all_flag_selects_the_directory() {
    assert!(matches!(parse_args(&argv(&["prog", "-a"])), Plan::ShowAll));
    assert!(matches!(parse_args(&argv(&["prog", "--all"])), Plan::ShowAll));
}

#[test]
fn no_arguments_is_a_usage_error() {
    match parse_args(&argv(&["prog"])) {
        Plan::Exit { to_stderr, code, message } => {
            assert!(to_stderr);
            assert_eq!(code, 2);
            assert!(message.contains("Usage"));
        }
        other => panic!("unexpected plan {:?}", other),
    }
}

#[test]
fn help_ends_with_success() {
    for flag in ["--help", "-h"] {
        match parse_args(&argv(&["prog", flag])) {
            Plan::Exit { to_stderr, code, message } => {
                assert!(!to_stderr);
                assert_eq!(code, 0);
                assert!(message.contains("Usage"));
                assert!(message.contains("--all"));
                assert!(message.contains("Dump all files in the current directory"));
                assert!(message.contains("File(s) to dump"));
            }
            other => panic!("unexpected plan {:?}", other),
        }
    }
}

#[test]
fn help_wins_over_files() {
    assert!(matches!(
        parse_args(&argv(&["prog", "a", "--help"])),
        Plan::Exit { to_stderr: false, code: 0, .. }
    ));
}

#[test]
fn unknown_flag_is_a_usage_error() {
    assert!(matches!(
        parse_args(&argv(&["prog", "--bogus"])),
        Plan::Exit { to_stderr: true, code: 2, .. }
    ));
    assert!(matches!(
        parse_args(&argv(&["prog", "-x", "file"])),
        Plan::Exit { to_stderr: true, code: 2, .. }
    ));
}

#[test]
fn all_with_files_is_a_usage_error() {
    assert!(matches!(
        parse_args(&argv(&["prog", "-a", "file"])),
        Plan::Exit { to_stderr: true, code: 2, .. }
    ));
}

#[test]
fn plan_of_accepted_command_lines() {
    let files = vec!["x".to_string(), "y".to_string()];
    assert!(matches!(
        plan(Ok(Matches { all: false, files: files.clone() })),
        Plan::Show(f) if f == files
    ));
    assert!(matches!(plan(Ok(Matches { all: true, files: Vec::new() })), Plan::ShowAll));
}

#[test]
fn plan_refuses_both_and_neither() {
    for m in [
        Matches { all: true, files: vec!["x".to_string()] },
        Matches { all: false, files: Vec::new() },
    ] {
        match plan(Ok(m)) {
            Plan::Exit { to_stderr, code, message } => {
                assert!(to_stderr);
                assert_eq!(code, 2);
                assert_eq!(message, "error: give one or more FILEs, or --all\n");
            }
            other => panic!("unexpected plan {:?}", other),
        }
    }
}

#[test]
fn plan_passes_a_rejection_on() {
    let r = Rejection { code: 0, message: "help".to_string() };
    assert!(matches!(
        plan(Err(r)),
        Plan::Exit { to_stderr: false, code: 0, message } if message == "help"
    ));
    let r = Rejection { code: 2, message: "bad".to_string() };
    assert!(matches!(
        plan(Err(r)),
        Plan::Exit { to_stderr: true, code: 2, message } if message == "bad"
    ));
    let r = Rejection { code: -1, message: String::new() };
    assert!(matches!(
        plan(Err(r)),
        Plan::Exit { to_stderr: true, code: -1, message } if message.is_empty()
    ));
}

#[test]
fn double_dash_makes_a_flag_a_file() {
    match parse_args(&argv(&["prog", "--", "-a", "--help"])) {
        Plan::Show(files) => assert_eq!(files, vec!["-a", "--help"]),
        other => panic!("unexpected plan {:?}", other),
    }
}

#[test]
fn no_program_name_is_a_usage_error() {
    assert!(matches!(
        parse_args(&Vec::new()),
        Plan::Exit { to_stderr: true, code: 2, .. }
    ));
}

fn item(name: Option<&str>, is_file: bool) -> DirItem {
    DirItem { name: name.map(String::from), is_file }
}

#[test]
fn regular_files_are_kept_in_order() {
    let listing = vec![
        item(Some("b.txt"), true),
        item(Some("sub"), false),
        item(Some("a.txt"), true),
        item(None, false),
        item(Some("b.txt"), true),
    ];
    assert_eq!(
        selected_files(&listing),
        Ok(vec!["b.txt".to_string(), "a.txt".to_string(), "b.txt".to_string()])
    );
}

#[test]
fn unnamed_regular_file_fails_the_selection() {
    let listing = vec![item(Some("a"), true), item(None, true), item(Some("c"), true)];
    assert_eq!(selected_files(&listing), Err(ListingError::UnnamedFile));
    assert_eq!(selected_files(&vec![item(None, true)]), Err(ListingError::UnnamedFile));
}

#[test]
fn listing_without_regular_files_fails_the_selection() {
    assert_eq!(selected_files(&Vec::new()), Err(ListingError::NoFiles));
    assert_eq!(
        selected_files(&vec![item(Some("d"), false), item(None, false)]),
        Err(ListingError::NoFiles)
    );
}

#[test]
fn rejection_carries_the_rendered_message() {
    match parse_args(&argv(&["prog", "--bogus"])) {
        Plan::Exit { message, .. } => {
            assert!(message.contains("--bogus"));
            assert!(message.contains("Usage"));
            assert!(!message.contains('\u{1b}'));
        }
        other => panic!("unexpected plan {:?}", other),
    }
}

#[test]
fn same_command_line_same_plan() {
    let first = parse_args(&argv(&["prog", "--help"]));
    let second = parse_args(&argv(&["prog", "--help"]));
    match (first, second) {
        (Plan::Exit { message: a, code: 0, .. }, Plan::Exit { message: b, code: 0, .. }) => {
            assert_eq!(a, b)
        }
        other => panic!("unexpected plans {:?}", other),
    }
}

#[test]
fn first_word_is_the_name_whatever_it_holds() {
    for name in ["--help", "-a", "", "some/dir/prog"] {
        assert!(matches!(
            parse_args(&argv(&[name])),
            Plan::Exit { to_stderr: true, code: 2, .. }
        ));
        assert!(matches!(
            parse_args(&argv(&[name, "-h"])),
            Plan::Exit { to_stderr: false, code: 0, .. }
        ));
    }
}
