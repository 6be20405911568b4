use hot::args::{announcement, is_help_arg, parse_args, ArgsOutcome, CommandSpec};

fn strings(items: &[&str]) -> Vec<String> {
    items.iter().map(|s| s.to_string()).collect()
}

#[test]
fn no_arguments_asks_for_usage() {
    assert!(matches!(parse_args(vec![]), ArgsOutcome::NoCommand));
}

#[test]
fn lone_help_flag_short() {
    assert!(matches!(parse_args(strings(&["-h"])), ArgsOutcome::Help));
}

#[test]
fn lone_help_flag_long() {
    assert!(matches!(parse_args(strings(&["--help"])), ArgsOutcome::Help));
}

#[test]
fn help_flag_is_case_insensitive() {
    assert!(matches!(parse_args(strings(&["-H"])), ArgsOutcome::Help));
    assert!(matches!(parse_args(strings(&["--HELP"])), ArgsOutcome::Help));
    assert!(matches!(parse_args(strings(&["--Help"])), ArgsOutcome::Help));
}

#[test]
fn help_flag_with_more_arguments_is_a_command() {
    match parse_args(strings(&["-h", "x"])) {
        ArgsOutcome::Run(cs) => {
            assert_eq!(cs.cmd, "-h");
            assert_eq!(cs.args, strings(&["x"]));
        }
        _ => panic!("expected a run"),
    }
}

#[test]
fn command_and_arguments_are_split() {
    match parse_args(strings(&["echo", "hello", "world"])) {
        ArgsOutcome::Run(cs) => {
            assert_eq!(cs.cmd, "echo");
            assert_eq!(cs.args, strings(&["hello", "world"]));
        }
        _ => panic!("expected a run"),
    }
}

#[test]
fn near_miss_flags_are_commands() {
    assert!(matches!(parse_args(strings(&["-help"])), ArgsOutcome::Run(_)));
    assert!(matches!(parse_args(strings(&["--h"])), ArgsOutcome::Run(_)));
}

#[test]
fn help_arg_matching() {
    assert!(is_help_arg(&"-h".to_string()));
    assert!(is_help_arg(&"--hElP".to_string()));
    assert!(!is_help_arg(&"-x".to_string()));
    assert!(!is_help_arg(&"help".to_string()));
}

#[test]
fn announcement_joins_command_and_arguments() {
    let cs = CommandSpec { cmd: "cargo".to_string(), args: strings(&["run", "--quiet"]) };
    assert_eq!(announcement(&cs), "cargo run --quiet");
}

#[test]
fn announcement_without_arguments_keeps_the_separator() {
    let cs = CommandSpec { cmd: "make".to_string(), args: vec![] };
    assert_eq!(announcement(&cs), "make ");
}
