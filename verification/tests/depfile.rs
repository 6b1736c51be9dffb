use drakkar::depfile::{
    join_continuation_lines, no_colon_message, parse_depfile, split_depfile_deps,
};
use drakkar::error::BuildError;

#[test]
fn test_join_continuation() {
    let s = "target/a.o: src/a.cpp \\\n src/b.h";
    let joined = join_continuation_lines(s);
    assert!(joined.contains("src/b.h"));
    assert!(!joined.contains("\\\n"));
}

#[test]
fn test_split_deps() {
    let deps = split_depfile_deps(" src/a.cpp src/b.h  src/c.h ");
    assert_eq!(deps.len(), 3);
}

#[test]
fn test_escaped_space_in_path() {
    let deps = split_depfile_deps(r" src/a\ b.h src/c.h");
    assert_eq!(deps.len(), 2);
    assert_eq!(deps[0], String::from("src/a b.h"));
}

#[test]
fn join_replaces_each_continuation_by_one_space() {
    assert_eq!(join_continuation_lines("a \\\n b"), "a   b");
    assert_eq!(join_continuation_lines("a\\\r\nb"), "a b");
    assert_eq!(join_continuation_lines("a\\\rb"), "a\\\rb");
    assert_eq!(join_continuation_lines("a\\\r"), "a\\\r");
    assert_eq!(join_continuation_lines("a\\\r\n"), "a ");
    assert_eq!(join_continuation_lines("a\\b\nc\\"), "a\\b\nc\\");
    assert_eq!(join_continuation_lines(""), "");
}

#[test]
fn split_keeps_the_order_and_drops_empty_tokens() {
    let deps = split_depfile_deps("\t src/a.cpp\nsrc/b.h\r\n  src/c.h ");
    assert_eq!(deps, vec!["src/a.cpp", "src/b.h", "src/c.h"]);
    assert_eq!(split_depfile_deps("  \n\t "), Vec::<String>::new());
}

#[test]
fn split_unescapes_backslashes() {
    let deps = split_depfile_deps(r"a\\b c\xd e\");
    assert_eq!(deps, vec![r"a\b", r"c\xd", r"e\"]);
}

#[test]
fn parse_depfile_lists_every_input_after_the_colon() {
    let text = "target/math/utils.o: src/math/utils.cpp src/math/utils.h \\\n src/common.h\n";
    let deps = parse_depfile("target/math/utils.d", text).unwrap();
    assert_eq!(deps, vec!["src/math/utils.cpp", "src/math/utils.h", "src/common.h"]);
}

#[test]
fn parse_depfile_accepts_crlf_continuations() {
    let deps = parse_depfile("a.d", "a.o: b.c \\\r\n c.h\r\n").unwrap();
    assert_eq!(deps, vec!["b.c", "c.h"]);
}

#[test]
fn parse_depfile_splits_at_the_first_colon() {
    let deps = parse_depfile("a.d", "a.o: b.c d:e.h").unwrap();
    assert_eq!(deps, vec!["b.c", "d:e.h"]);
    let none = parse_depfile("a.d", "a.o:").unwrap();
    assert_eq!(none, Vec::<String>::new());
}

#[test]
fn parse_depfile_without_colon_is_a_parse_error() {
    match parse_depfile("target/a.d", "no separator here") {
        Err(BuildError::ParseError(m)) => assert_eq!(m, "Depfile \"target/a.d\" has no ':'"),
        other => panic!("expected a parse error, got {:?}", other),
    }
}

#[test]
fn parse_depfile_twice_gives_the_same_list() {
    let text = "a.o: src/a\\ b.cpp inc/x.h \\\n inc/y.h";
    let first = parse_depfile("a.d", text).unwrap();
    let second = parse_depfile("a.d", text).unwrap();
    assert_eq!(first, second);
    assert_eq!(first, vec!["src/a b.cpp", "inc/x.h", "inc/y.h"]);
}

#[test]
fn backslash_before_a_lone_carriage_return_is_no_continuation() {
    let deps = parse_depfile("a.d", "a: b\\\rc").unwrap();
    assert_eq!(deps, vec!["b\\", "c"]);
    let deps = parse_depfile("a.d", "a: b\\\r\nc").unwrap();
    assert_eq!(deps, vec!["b", "c"]);
    let deps = parse_depfile("a.d", "a: b\\\nc").unwrap();
    assert_eq!(deps, vec!["b", "c"]);
}

#[test]
fn no_colon_message_text() {
    assert_eq!(no_colon_message("\"x y.d\""), "Depfile \"x y.d\" has no ':'");
    assert_eq!(no_colon_message(""), "Depfile  has no ':'");
}
