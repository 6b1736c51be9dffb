use drakkar::cli::{exit_code, parse_cli_args, CliArgs, Command};
use drakkar::config::{BuildProfile, ProjectConfig};
use drakkar::error::BuildError;

fn args(v: &[&str]) -> Vec<String> {
    v.iter().map(|s| s.to_string()).collect()
}

fn parse(v: &[&str]) -> CliArgs {
    parse_cli_args(&args(v)).unwrap()
}

fn parse_message(v: &[&str]) -> String {
    match parse_cli_args(&args(v)) {
        Err(BuildError::ParseError(m)) => m,
        other => panic!("expected a parse error, got {:?}", other),
    }
}

#[test]
fn no_arguments_ask_for_help() {
    let cli = parse(&[]);
    assert!(matches!(cli.command, Command::Help));
    assert_eq!(cli.profile, BuildProfile::Debug);
    assert!(cli.extra_flags.is_empty());
    assert_eq!(cli.parallel_override, None);
    assert!(!cli.verbose);
    assert!(!cli.aggregate_errors);
}

#[test]
fn build_and_run_with_profiles() {
    let cli = parse(&["build"]);
    assert!(matches!(cli.command, Command::Build));
    assert_eq!(cli.profile, BuildProfile::Debug);
    let cli = parse(&["build", "release"]);
    assert!(matches!(cli.command, Command::Build));
    assert_eq!(cli.profile, BuildProfile::Release);
    let cli = parse(&["run", "release", "debug"]);
    assert!(matches!(cli.command, Command::Run));
    assert_eq!(cli.profile, BuildProfile::Debug);
}

#[test]
fn help_in_its_three_spellings() {
    for h in ["help", "--help", "-h"] {
        assert!(matches!(parse(&["build", h]).command, Command::Help));
    }
}

#[test]
fn options_without_a_command_ask_for_help() {
    let cli = parse(&["--verbose", "release"]);
    assert!(matches!(cli.command, Command::Help));
    assert!(cli.verbose);
    assert_eq!(cli.profile, BuildProfile::Release);
}

#[test]
fn the_last_command_wins() {
    assert!(matches!(parse(&["build", "run"]).command, Command::Run));
    assert!(matches!(parse(&["run", "build"]).command, Command::Build));
}

#[test]
fn create_takes_a_name() {
    match parse(&["create", "demo"]).command {
        Command::Create(name) => assert_eq!(name, "demo"),
        other => panic!("expected create, got {:?}", other),
    }
    match parse(&["create", "build"]).command {
        Command::Create(name) => assert_eq!(name, "build"),
        other => panic!("expected create, got {:?}", other),
    }
    assert_eq!(parse_message(&["create"]), "'create' requires a project name");
}

#[test]
fn parallel_takes_a_number() {
    assert_eq!(parse(&["build", "--parallel", "8"]).parallel_override, Some(8));
    assert_eq!(parse(&["-j", "2", "build"]).parallel_override, Some(2));
    assert_eq!(parse(&["-j", "2", "-j", "0"]).parallel_override, Some(0));
    assert_eq!(parse_message(&["build", "--parallel"]), "--parallel requires a number");
    assert_eq!(parse_message(&["-j", "many"]), "--parallel: expected number, got 'many'");
    assert_eq!(parse_message(&["-j", "-1"]), "--parallel: expected number, got '-1'");
}

#[test]
fn switches() {
    let cli = parse(&["build", "-v", "--aggregate-errors"]);
    assert!(cli.verbose);
    assert!(cli.aggregate_errors);
    let cli = parse(&["--verbose", "build"]);
    assert!(cli.verbose);
    assert!(!cli.aggregate_errors);
}

#[test]
fn everything_after_the_delimiter_is_passed_through() {
    let cli = parse(&["build", "release", "--", "-fsanitize=address", "build", "--", "-v", "x"]);
    assert!(matches!(cli.command, Command::Build));
    assert_eq!(cli.profile, BuildProfile::Release);
    assert!(!cli.verbose);
    assert_eq!(cli.extra_flags, vec!["-fsanitize=address", "build", "--", "-v", "x"]);
}

#[test]
fn unknown_flags_are_passed_through() {
    let cli = parse(&["-DFOO", "build", "-O3", "--", "-g"]);
    assert!(matches!(cli.command, Command::Build));
    assert_eq!(cli.extra_flags, vec!["-DFOO", "-O3", "-g"]);
}

#[test]
fn unknown_words_are_errors() {
    assert_eq!(
        parse_message(&["build", "fast"]),
        "Unknown command or option: 'fast'. Run `drakkar help`."
    );
    assert_eq!(parse_message(&[""]), "Unknown command or option: ''. Run `drakkar help`.");
}

#[test]
fn parsing_stops_at_the_first_error() {
    assert_eq!(parse_message(&["-j", "x", "bogus"]), "--parallel: expected number, got 'x'");
    assert_eq!(
        parse_message(&["bogus", "-j", "x"]),
        "Unknown command or option: 'bogus'. Run `drakkar help`."
    );
}

#[test]
fn overrides_apply_to_the_configuration() {
    let cli = parse(&["build", "-j", "16", "-v"]);
    let cfg = cli.apply_to(ProjectConfig::default());
    assert_eq!(cfg.parallel_jobs, 16);
    assert!(cfg.verbose);
    assert!(!cfg.aggregate_errors);
    assert_eq!(cfg.app_name, "program");

    let cfg = parse(&["build", "--parallel", "0"]).apply_to(ProjectConfig::default());
    assert_eq!(cfg.parallel_jobs, 1);
    let mut none = ProjectConfig::default();
    none.parallel_jobs = 0;
    assert_eq!(parse(&["build"]).apply_to(none).parallel_jobs, 1);

    let mut base = ProjectConfig::with_parallelism(3);
    base.aggregate_errors = true;
    let cfg = parse(&["build"]).apply_to(base);
    assert_eq!(cfg.parallel_jobs, 3);
    assert!(!cfg.verbose);
    assert!(cfg.aggregate_errors);
}

#[test]
fn exit_codes() {
    assert_eq!(exit_code(None), 0);
    assert_eq!(exit_code(Some(Some(0))), 0);
    assert_eq!(exit_code(Some(Some(42))), 42);
    assert_eq!(exit_code(Some(None)), 1);
}
