use pacman_blame::argparse::{
    expand_short, is_long_option, is_option, is_short_option, parse_args, split_short, Api, ArgError,
};
use pacman_blame::help::{option_table, print_argument_group};

fn args(a: &[&str]) -> Vec<String> {
    a.iter().map(|s| s.to_string()).collect()
}

#[test]
fn option_kinds() {
    assert!(is_option("-a"));
    assert!(!is_option("a"));
    assert!(!is_option(""));
    assert!(is_long_option("--list"));
    assert!(!is_long_option("-l"));
    assert!(is_short_option("-l"));
    assert!(!is_short_option("--list"));
}

#[test]
fn bundles_are_split() {
    assert_eq!(split_short(args(&["-Led", "--color", "x", "-"])), args(&["-L", "-e", "-d", "--color", "x"]));
}

#[test]
fn short_options_are_expanded() {
    let out = expand_short(args(&["-L", "-q", "name"]));
    assert_eq!(out.len(), 3);
    assert_eq!(out[0].as_ref().ok().map(|s| s.as_str()), Some("--list"));
    assert!(matches!(&out[1], Err(ArgError::UnknownOption(o)) if o == "-q"));
    assert_eq!(out[2].as_ref().ok().map(|s| s.as_str()), Some("name"));
}

#[test]
fn list_with_defaults() {
    let (api, common) = parse_args(args(&["-L", "foo"])).expect("parses");
    match api {
        Api::List(l) => {
            assert_eq!(l.queries, args(&["foo"]));
            assert!(l.explicit && l.dependency && !l.required_by);
        },
        other => panic!("unexpected: {:?}", other),
    }
    assert!(!common.color && !common.verbose && common.format.is_none());
}

#[test]
fn list_with_flags_and_format() {
    let (api, common) = parse_args(args(&["-Le", "--color", "--format=%n=%v", "-r", "bar"])).expect("parses");
    match api {
        Api::List(l) => {
            assert_eq!(l.queries, args(&["bar"]));
            assert!(l.explicit && !l.dependency && l.required_by);
        },
        other => panic!("unexpected: {:?}", other),
    }
    assert!(common.color);
    assert_eq!(common.format, Some("%n=%v".to_string()));
}

#[test]
fn empty_and_help_commands() {
    assert!(matches!(parse_args(Vec::new()), Ok((Api::Empty, _))));
    assert!(matches!(parse_args(args(&["-h", "-L"])), Ok((Api::Help, _))));
    match parse_args(args(&["-L", "-h"])) {
        Ok((Api::HelpWith(s), _)) => assert_eq!(s, "--list"),
        other => panic!("unexpected: {:?}", other),
    }
}

#[test]
fn argument_errors() {
    assert!(matches!(parse_args(args(&["-x"])), Err(ArgError::UnknownOption(o)) if o == "-x"));
    assert!(matches!(parse_args(args(&["foo"])), Err(ArgError::UnknownOption(o)) if o == "foo"));
    assert!(matches!(parse_args(args(&["-L", "-e", "-e"])), Err(ArgError::DuplicateOption(o)) if o == "--explicit"));
    assert!(matches!(parse_args(args(&["-cc"])), Err(ArgError::DuplicateOption(o)) if o == "--color"));
    assert!(matches!(
        parse_args(args(&["--format=a", "--format=b"])),
        Err(ArgError::DuplicateOption(o)) if o == "--format"
    ));
    assert!(matches!(parse_args(args(&["-L", "--bogus", "-q"])), Err(ArgError::UnknownOption(o)) if o == "--bogus"));
}

#[test]
fn arg_error_messages() {
    assert_eq!(ArgError::UnknownOption("-q".to_string()).message(), "unknown option: -q");
    assert_eq!(ArgError::DuplicateOption("--color".to_string()).message(), "duplicate option: --color");
}

#[test]
fn top_level_help() {
    let text = print_argument_group(None).expect("top level");
    let expected = [
        ("   --format=VALUE", "print using the format"),
        ("-L|--list", "utilities for listing packages"),
        ("-c|--color", "use colors on terminals that support them"),
        ("-h|--help", "display on any item"),
        ("-v|--verbose", "print information of what is going on"),
    ]
    .iter()
    .map(|(o, c)| format!("\t{:17}\t{}", o, c))
    .collect::<Vec<_>>()
    .join("\n");
    assert_eq!(text, expected);
}

#[test]
fn list_group_help() {
    let expected = [
        ("-d|--dependency", "filter on packages installed as a dependency"),
        ("-e|--explicit", "filter on installed packages"),
        ("-r|--required-by", "show packages that requires this package"),
    ]
    .iter()
    .map(|(o, c)| format!("\t{:16}\t{}", o, c))
    .collect::<Vec<_>>()
    .join("\n");
    assert_eq!(print_argument_group(Some("-L")).expect("list group"), expected);
    assert_eq!(print_argument_group(Some("--list")).expect("list group"), expected);
}

#[test]
fn group_without_members_and_unknown_group() {
    assert_eq!(print_argument_group(Some("-h")).expect("known option"), "");
    assert!(matches!(print_argument_group(Some("--nope")), Err(ArgError::UnknownOption(o)) if o == "--nope"));
}

#[test]
fn table_groups() {
    let t = option_table();
    assert_eq!(t.len(), 8);
    assert!(t[5].is_subgroup(&t[4]));
    assert!(!t[0].is_subgroup(&t[4]));
}
