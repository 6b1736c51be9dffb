use drakkar::error::{compile_error_text, BuildError};

#[test]
fn io_error_text() {
    let e = BuildError::IoError(String::from("Cannot read directory \"src\": denied"));
    assert_eq!(e.to_string(), "IO error: Cannot read directory \"src\": denied");
}

#[test]
fn parse_error_text() {
    let e = BuildError::ParseError(String::from("Line 3: expected integer, got 'x'"));
    assert_eq!(e.to_string(), "Parse error: Line 3: expected integer, got 'x'");
}

#[test]
fn config_error_text() {
    let e = BuildError::ConfigError(String::from("No config.txt found"));
    assert_eq!(e.to_string(), "Config error: No config.txt found");
}

#[test]
fn cancelled_text() {
    assert_eq!(BuildError::Cancelled.to_string(), "Build cancelled by user");
}

#[test]
fn text_of_a_compile_error() {
    let e = BuildError::CompileError {
        src: String::from("src/a.cpp"),
        stderr: String::from("a.cpp:1:1: error: expected ';'\n"),
        code: Some(1),
    };
    assert_eq!(
        e.to_string(),
        "Compile error in \"src/a.cpp\" (exit 1)\na.cpp:1:1: error: expected ';'\n"
    );
}

#[test]
fn compile_error_text_without_code_and_output() {
    let e = BuildError::CompileError { src: String::from("src/a.cpp"), stderr: String::new(), code: None };
    assert_eq!(e.to_string(), "Compile error in \"src/a.cpp\"");
    let e = BuildError::CompileError { src: String::from("src/a.cpp"), stderr: String::new(), code: Some(0) };
    assert_eq!(e.to_string(), "Compile error in \"src/a.cpp\" (exit 0)");
}

#[test]
fn compile_error_text_escapes_the_path() {
    let e = BuildError::CompileError {
        src: String::from("src/we\"ird\\name\n.cpp"),
        stderr: String::new(),
        code: None,
    };
    assert_eq!(e.to_string(), "Compile error in \"src/we\\\"ird\\\\name\\n.cpp\"");
}

#[test]
fn link_error_text() {
    let e = BuildError::LinkError { stderr: String::from("undefined reference to `f'"), code: Some(1) };
    assert_eq!(e.to_string(), "Link error (exit 1)\nundefined reference to `f'");
    let e = BuildError::LinkError { stderr: String::from("No object files to link"), code: None };
    assert_eq!(e.to_string(), "Link error\nNo object files to link");
    let e = BuildError::LinkError { stderr: String::new(), code: None };
    assert_eq!(e.to_string(), "Link error");
}

#[test]
fn exit_codes_are_written_in_decimal() {
    for code in [0, 7, 10, 127, 255, 1000, -1, -11, i32::MAX, i32::MIN] {
        let e = BuildError::LinkError { stderr: String::new(), code: Some(code) };
        assert_eq!(e.to_string(), format!("Link error (exit {})", code));
    }
}

#[test]
fn multiple_errors_text_is_a_numbered_list() {
    let e = BuildError::MultipleErrors(vec![
        BuildError::IoError(String::from("a")),
        BuildError::CompileError { src: String::from("b.cpp"), stderr: String::from("bad"), code: Some(2) },
        BuildError::Cancelled,
    ]);
    assert_eq!(
        e.to_string(),
        "3 error(s) occurred:\n  [1] IO error: a\n  [2] Compile error in \"b.cpp\" (exit 2)\nbad\n  [3] Build cancelled by user\n"
    );
}

#[test]
fn multiple_errors_text_nests() {
    let inner = BuildError::MultipleErrors(vec![BuildError::ParseError(String::from("p"))]);
    let e = BuildError::MultipleErrors(vec![inner, BuildError::ConfigError(String::from("c"))]);
    assert_eq!(
        e.to_string(),
        "2 error(s) occurred:\n  [1] 1 error(s) occurred:\n  [1] Parse error: p\n\n  [2] Config error: c\n"
    );
    assert_eq!(BuildError::MultipleErrors(Vec::new()).to_string(), "0 error(s) occurred:\n");
}

#[test]
fn multiple_errors_text_counts_past_nine() {
    let errors: Vec<BuildError> = (0..12).map(|i| BuildError::IoError(format!("e{}", i))).collect();
    let text = BuildError::MultipleErrors(errors).to_string();
    assert!(text.starts_with("12 error(s) occurred:\n  [1] IO error: e0\n"));
    assert!(text.ends_with("  [10] IO error: e9\n  [11] IO error: e10\n  [12] IO error: e11\n"));
}

#[test]
fn compile_error_text_of_a_quoted_path() {
    assert_eq!(
        compile_error_text("\"src/a.cpp\"", Some(1), "boom"),
        "Compile error in \"src/a.cpp\" (exit 1)\nboom"
    );
    assert_eq!(compile_error_text("<a>", None, ""), "Compile error in <a>");
    assert_eq!(compile_error_text("", Some(-2), ""), "Compile error in  (exit -2)");
    assert_eq!(compile_error_text("p", None, "x\n"), "Compile error in p\nx\n");
}
