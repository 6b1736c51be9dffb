use drakkar::builder::{
    build_compile_args, classify, link_command, object_path_for, Language, SourceFile,
};
use drakkar::config::{
    parse_bool, parse_usize, parse_value_str, read_config, strip_inline_comment, workers_wanted,
    BuildProfile, ProjectConfig, DEFAULT_PARALLEL_JOBS,
};
use drakkar::error::BuildError;

fn parse_message<T: std::fmt::Debug>(r: Result<T, BuildError>) -> String {
    match r {
        Err(BuildError::ParseError(m)) => m,
        other => panic!("expected a parse error, got {:?}", other),
    }
}

#[test]
fn default_config_values() {
    let c = ProjectConfig::default();
    assert_eq!(c.app_name, "program");
    assert_eq!(c.source_dir, "src");
    assert_eq!(c.output_dir, "out");
    assert_eq!(c.temp_dir, "target");
    assert!(c.c_flags.is_empty() && c.cxx_flags.is_empty() && c.ld_flags.is_empty());
    assert!(c.include_dirs.is_empty() && c.link_libs.is_empty());
    assert_eq!(c.c_standard, None);
    assert_eq!(c.cxx_standard, None);
    assert_eq!(c.parallel_jobs, 4);
    assert_eq!(DEFAULT_PARALLEL_JOBS, 4);
    assert!(c.incremental);
    assert!(c.preserve_temp);
    assert!(!c.use_process_groups);
    assert_eq!(c.gcc_path, "gcc");
    assert_eq!(c.gpp_path, "g++");
    assert!(!c.verbose);
    assert!(!c.aggregate_errors);
}

#[test]
fn with_parallelism_sets_the_workers() {
    assert_eq!(ProjectConfig::with_parallelism(12).parallel_jobs, 12);
    assert_eq!(ProjectConfig::with_parallelism(1).parallel_jobs, 1);
}

#[test]
fn a_configuration_has_at_least_one_worker() {
    assert_eq!(ProjectConfig::with_parallelism(0).parallel_jobs, 1);
    assert_eq!(workers_wanted(0), 1);
    assert_eq!(workers_wanted(7), 7);
    let loaded = read_config("parallel_jobs = 0\n", ProjectConfig::default()).unwrap();
    assert_eq!(loaded.config.parallel_jobs, 1);
    let loaded = read_config("parallel_jobs = \"000\"\n", ProjectConfig::default()).unwrap();
    assert_eq!(loaded.config.parallel_jobs, 1);
    let loaded = read_config("parallel_jobs = 2\n", ProjectConfig::default()).unwrap();
    assert_eq!(loaded.config.parallel_jobs, 2);
}

#[test]
fn only_a_pair_of_quotes_around_the_whole_value_is_stripped() {
    assert_eq!(parse_value_str("\"a\" \"b\"", 1).unwrap(), vec!["a", "b"]);
    assert_eq!(parse_value_str("'a' 'b'", 1).unwrap(), vec!["a", "b"]);
    assert_eq!(parse_value_str("\"a b\" \"c\"", 1).unwrap(), vec!["a b", "c"]);
    assert_eq!(parse_value_str("\"a \\\"b\\\" c\"", 1).unwrap(), vec!["a", "\"b\"", "c"]);
    assert_eq!(parse_value_str("\"a 'b c' d\"", 1).unwrap(), vec!["a", "b c", "d"]);
    assert_eq!(parse_value_str("'a \"b c\" d'", 1).unwrap(), vec!["a", "b c", "d"]);
    assert_eq!(parse_value_str("\"a\"b", 1).unwrap(), vec!["ab"]);
    let loaded = read_config("c_flags = \"-DA\" \"-DB C\"\n", ProjectConfig::default()).unwrap();
    assert_eq!(loaded.config.c_flags, vec!["-DA", "-DB C"]);
}

#[test]
fn build_profile_values_differ() {
    assert_ne!(BuildProfile::Debug, BuildProfile::Release);
}

#[test]
fn read_config_sets_every_known_key() {
    let text = "# drakkar config\n\
app_name = \"hello\"\n\
source_dir = \"src/\"\n\
output_dir = \"bin\"\n\
temp_dir = \"obj\"\n\
\n\
c_flags = \"-Wall -std=c11\"\n\
cxx_flags = \"-Wall -Wextra -std=c++17\"\n\
ld_flags = \"-Wl,-O1\"\n\
include_dirs = \"include 'third party/include'\"\n\
link_libs = \"-lm -lpthread\"\n\
c_standard = \"\"\n\
cxx_standard = \"c++17\"   # the standard\n\
parallel_jobs = \"8\"\n\
incremental = \"false\"\n\
preserve_temp = \"No\"\n\
use_process_groups = \"YES\"\n\
gcc_path = \"clang\"\n\
gpp_path = \"clang++\"\n";
    let loaded = read_config(text, ProjectConfig::default()).unwrap();
    let c = loaded.config;
    assert_eq!(c.app_name, "hello");
    assert_eq!(c.source_dir, "src/");
    assert_eq!(c.output_dir, "bin");
    assert_eq!(c.temp_dir, "obj");
    assert_eq!(c.c_flags, vec!["-Wall", "-std=c11"]);
    assert_eq!(c.cxx_flags, vec!["-Wall", "-Wextra", "-std=c++17"]);
    assert_eq!(c.ld_flags, vec!["-Wl,-O1"]);
    assert_eq!(c.include_dirs, vec!["include", "third party/include"]);
    assert_eq!(c.link_libs, vec!["-lm", "-lpthread"]);
    assert_eq!(c.c_standard, None);
    assert_eq!(c.cxx_standard, Some(String::from("c++17")));
    assert_eq!(c.parallel_jobs, 8);
    assert!(!c.incremental);
    assert!(!c.preserve_temp);
    assert!(c.use_process_groups);
    assert_eq!(c.gcc_path, "clang");
    assert_eq!(c.gpp_path, "clang++");
    assert!(!c.verbose);
    assert!(!c.aggregate_errors);
    assert!(loaded.warnings.is_empty());
}

#[test]
fn read_config_keeps_the_base_for_keys_not_set() {
    let loaded = read_config("app_name = demo\n", ProjectConfig::with_parallelism(3)).unwrap();
    assert_eq!(loaded.config.app_name, "demo");
    assert_eq!(loaded.config.parallel_jobs, 3);
    assert_eq!(loaded.config.gpp_path, "g++");
    let same = read_config("", ProjectConfig::default()).unwrap();
    assert_eq!(same.config.app_name, "program");
}

#[test]
fn read_config_last_line_needs_no_line_feed() {
    let loaded = read_config("gcc_path = \"cc\"\ngpp_path = \"c++\"", ProjectConfig::default()).unwrap();
    assert_eq!(loaded.config.gcc_path, "cc");
    assert_eq!(loaded.config.gpp_path, "c++");
}

#[test]
fn read_config_warns_about_unknown_keys() {
    let text = "app_name = \"x\"\nverbose = \"true\"\n\n  # note\naggregate_errors = \"1\"\n";
    let loaded = read_config(text, ProjectConfig::default()).unwrap();
    assert_eq!(
        loaded.warnings,
        vec![
            "Line 2: unknown config key 'verbose'",
            "Line 5: unknown config key 'aggregate_errors'"
        ]
    );
    assert!(!loaded.config.verbose);
    assert!(!loaded.config.aggregate_errors);
}

#[test]
fn read_config_line_without_equals_is_an_error() {
    let r = read_config("\r\n\r\n  just words  \r\napp_name = x\n", ProjectConfig::default());
    assert_eq!(parse_message(r), "Line 3: expected 'key = value', got 'just words'");
}

#[test]
fn read_config_reports_bad_values_with_their_line() {
    let r = read_config("incremental = \"maybe\"\n", ProjectConfig::default());
    assert_eq!(parse_message(r), "Line 1: expected bool (true/false), got 'maybe'");
    let r = read_config("# c\nparallel_jobs = \"many\"\n", ProjectConfig::default());
    assert_eq!(parse_message(r), "Line 2: expected integer, got 'many'");
    let r = read_config("parallel_jobs = \"\"\n", ProjectConfig::default());
    assert_eq!(parse_message(r), "Line 1: expected integer, got ''");
    let r = read_config("a = 1\nb = 2\nc_flags = \"-DX='a\"\n", ProjectConfig::default());
    assert_eq!(parse_message(r), "Line 3: Parse error: Unterminated single quote");
}

#[test]
fn read_config_stops_at_the_first_error() {
    let r = read_config("incremental = 2\nparallel_jobs = x\n", ProjectConfig::default());
    assert_eq!(parse_message(r), "Line 1: expected bool (true/false), got '2'");
}

#[test]
fn read_config_splits_at_the_first_equals() {
    let loaded = read_config("c_flags = \"-DNAME=value -DX=1\"\n", ProjectConfig::default()).unwrap();
    assert_eq!(loaded.config.c_flags, vec!["-DNAME=value", "-DX=1"]);
}

#[test]
fn parse_value_str_strips_outer_quotes() {
    assert_eq!(parse_value_str("  \"flag1 flag2\"  ", 1).unwrap(), vec!["flag1", "flag2"]);
    assert_eq!(parse_value_str("'a b'", 1).unwrap(), vec!["a", "b"]);
    assert_eq!(parse_value_str("bare value", 1).unwrap(), vec!["bare", "value"]);
    assert_eq!(parse_value_str("\"", 1).is_err(), true);
    assert_eq!(parse_value_str("\"\"", 1).unwrap(), Vec::<String>::new());
}

#[test]
fn parse_value_str_reports_the_line() {
    assert_eq!(
        parse_message(parse_value_str("\"a\\", 7)),
        "Line 7: Parse error: Unterminated double quote"
    );
    assert_eq!(
        parse_message(parse_value_str("a\\", 8)),
        "Line 8: Parse error: Trailing backslash in value"
    );
    assert_eq!(
        parse_message(parse_value_str("\"a \"b c\"", 12)),
        "Line 12: Parse error: Unterminated double quote"
    );
}

#[test]
fn parse_bool_accepts_the_six_words_in_any_case() {
    for s in ["true", "1", "yes", "TRUE", "Yes", "yEs"] {
        assert_eq!(parse_bool(s, 1).unwrap(), true);
    }
    for s in ["false", "0", "no", "False", "NO"] {
        assert_eq!(parse_bool(s, 1).unwrap(), false);
    }
}

#[test]
fn parse_bool_rejects_anything_else() {
    assert_eq!(parse_message(parse_bool("on", 4)), "Line 4: expected bool (true/false), got 'on'");
    assert_eq!(parse_message(parse_bool("", 4)), "Line 4: expected bool (true/false), got ''");
    assert_eq!(parse_message(parse_bool(" true", 10)), "Line 10: expected bool (true/false), got ' true'");
}

#[test]
fn parse_usize_reads_decimal_numbers() {
    assert_eq!(parse_usize("0", 1).unwrap(), 0);
    assert_eq!(parse_usize("42", 1).unwrap(), 42);
    assert_eq!(parse_usize("+7", 1).unwrap(), 7);
    assert_eq!(parse_usize("007", 1).unwrap(), 7);
    assert_eq!(parse_usize(&usize::MAX.to_string(), 1).unwrap(), usize::MAX);
}

#[test]
fn parse_usize_rejects_anything_else() {
    for s in ["", "+", "-1", "1 ", " 1", "1_000", "0x10", "++1", "12a", "99999999999999999999999999"] {
        let expected = format!("Line 3: expected integer, got '{}'", s);
        assert_eq!(parse_message(parse_usize(s, 3)), expected);
    }
}

#[test]
fn strip_inline_comment_cuts_after_the_closing_quote() {
    assert_eq!(strip_inline_comment("\"abc\" # comment"), "\"abc\"");
    assert_eq!(strip_inline_comment("\"abc\"#c"), "\"abc\"");
    assert_eq!(strip_inline_comment("\"abc\"   "), "\"abc\"");
    assert_eq!(strip_inline_comment("\"abc\""), "\"abc\"");
}

#[test]
fn strip_inline_comment_leaves_other_values_alone() {
    assert_eq!(strip_inline_comment("abc # comment"), "abc # comment");
    assert_eq!(strip_inline_comment("\"abc\" def"), "\"abc\" def");
    assert_eq!(strip_inline_comment("\"a # b\" c"), "\"a # b\" c");
    assert_eq!(strip_inline_comment(""), "");
}

#[test]
fn linker_flag_with_comma_stays_one_token() {
    let loaded = read_config("ld_flags = \"-Wl,-O1\"\n", ProjectConfig::default()).unwrap();
    assert_eq!(loaded.config.ld_flags, vec!["-Wl,-O1"]);
    let src = SourceFile {
        path: String::from("src/main.cpp"),
        rel_path: String::from("main.cpp"),
        language: Language::Cpp,
    };
    let objects = vec![object_path_for(&src, &loaded.config)];
    let (_, args) = link_command(
        &objects,
        "out/rpath_test",
        &loaded.config,
        &BuildProfile::Debug,
        &Vec::new(),
        "",
    )
    .unwrap();
    assert_eq!(args.iter().filter(|a| a.as_str() == "-Wl,-O1").count(), 1);
    assert_eq!(args, vec!["target/main.o", "-o", "out/rpath_test", "-Wl,-O1"]);
}

#[test]
fn mixed_languages_get_their_own_compilers() {
    let text = "c_standard = \"c11\"\ncxx_standard = \"c++17\"\n";
    let cfg = read_config(text, ProjectConfig::default()).unwrap().config;
    let mut compilers = Vec::new();
    for (path, rel) in [("src/utils.c", "utils.c"), ("src/main.cpp", "main.cpp")] {
        let src = SourceFile {
            path: String::from(path),
            rel_path: String::from(rel),
            language: classify(rel).unwrap(),
        };
        let obj = object_path_for(&src, &cfg);
        let (compiler, args) = build_compile_args(&obj, &cfg, &BuildProfile::Debug, &Vec::new());
        compilers.push((compiler, args[4].clone(), obj.obj_path));
    }
    assert_eq!(
        compilers,
        vec![
            (String::from("gcc"), String::from("-std=c11"), String::from("target/utils.o")),
            (String::from("g++"), String::from("-std=c++17"), String::from("target/main.o")),
        ]
    );
}
