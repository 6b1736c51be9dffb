use drakkar::builder::{Language, SourceFile};
use drakkar::discovery::{DirEntry, Discovery, EntryKind};

fn file(name: &str) -> DirEntry {
    DirEntry { name: String::from(name), kind: EntryKind::File }
}

fn dir(name: &str) -> DirEntry {
    DirEntry { name: String::from(name), kind: EntryKind::Dir }
}

fn other(name: &str) -> DirEntry {
    DirEntry { name: String::from(name), kind: EntryKind::Other }
}

fn rel_paths(sources: &[SourceFile]) -> Vec<String> {
    sources.iter().map(|s| s.rel_path.clone()).collect()
}

#[test]
fn search_begins_at_the_source_directory() {
    let d = Discovery::new("proj/src");
    assert!(!d.is_done());
    assert_eq!(d.wanted(), Some(String::from("proj/src")));
}

#[test]
fn search_of_an_empty_directory_finds_nothing() {
    let mut d = Discovery::new("src");
    d.supply(Vec::new());
    assert!(d.is_done());
    assert_eq!(d.wanted(), None);
    assert!(d.into_sources().is_empty());
}

#[test]
fn search_skips_hidden_and_build_directories() {
    let mut d = Discovery::new("src");
    d.supply(vec![dir(".git"), file("main.cpp"), dir("target"), dir("out"), dir(".cache")]);
    assert!(d.is_done());
    let sources = d.into_sources();
    assert_eq!(sources.len(), 1);
    assert_eq!(sources[0].rel_path, String::from("main.cpp"));
    assert_eq!(sources[0].path, "src/main.cpp");
    assert_eq!(sources[0].language, Language::Cpp);
}

#[test]
fn search_takes_only_translation_units() {
    let mut d = Discovery::new("src");
    d.supply(vec![
        file("a.c"),
        file("b.h"),
        file("README.md"),
        file("c.CPP"),
        other("d.cpp"),
        file(".cpp"),
        file("e.cc"),
        file("f.cxx"),
        file("g.c++"),
        file("Makefile"),
    ]);
    let sources = d.into_sources();
    assert_eq!(rel_paths(&sources), vec!["a.c", "c.CPP", "e.cc", "f.cxx", "g.c++"]);
    assert_eq!(sources[0].language, Language::C);
    for s in &sources[1..] {
        assert_eq!(s.language, Language::Cpp);
    }
}

#[test]
fn search_descends_in_the_order_of_the_listing() {
    let mut d = Discovery::new("proj/src/");
    d.supply(vec![file("main.cpp"), dir("math"), file("util.c"), dir("network"), dir("empty")]);
    assert_eq!(d.wanted(), Some(String::from("proj/src/math")));
    d.supply(vec![file("utils.cpp"), dir("detail"), file("utils.h")]);
    assert_eq!(d.wanted(), Some(String::from("proj/src/math/detail")));
    d.supply(vec![file("impl.cc")]);
    assert_eq!(d.wanted(), Some(String::from("proj/src/network")));
    d.supply(vec![file("utils.cpp")]);
    assert_eq!(d.wanted(), Some(String::from("proj/src/empty")));
    assert!(!d.is_done());
    d.supply(Vec::new());
    assert!(d.is_done());
    let sources = d.into_sources();
    assert_eq!(
        rel_paths(&sources),
        vec!["main.cpp", "math/utils.cpp", "math/detail/impl.cc", "util.c", "network/utils.cpp"]
    );
    assert_eq!(sources[1].path, "proj/src/math/utils.cpp");
    assert_eq!(sources[2].path, "proj/src/math/detail/impl.cc");
    assert_eq!(sources[3].language, Language::C);
}

#[test]
fn search_skips_nested_hidden_directories() {
    let mut d = Discovery::new("src");
    d.supply(vec![dir("lib")]);
    assert_eq!(d.wanted(), Some(String::from("src/lib")));
    d.supply(vec![dir(".svn"), dir("target"), file("x.cpp"), dir("out")]);
    assert!(d.is_done());
    assert_eq!(rel_paths(&d.into_sources()), vec!["lib/x.cpp"]);
}

#[test]
fn search_that_is_over_ignores_further_listings() {
    let mut d = Discovery::new("src");
    d.supply(vec![file("a.c")]);
    assert!(d.is_done());
    d.supply(vec![file("b.c"), dir("more")]);
    assert!(d.is_done());
    assert_eq!(rel_paths(&d.into_sources()), vec!["a.c"]);
}

#[test]
fn test_collect_sources_skips_hidden() {
    let mut d = Discovery::new("drakkar_test_collect");
    d.supply(vec![dir(".git"), dir("src")]);
    assert_eq!(d.wanted(), Some(String::from("drakkar_test_collect/src")));
    d.supply(vec![file("main.cpp")]);
    assert!(d.is_done());
    let all = d.into_sources();
    assert_eq!(rel_paths(&all), vec!["src/main.cpp"]);

    let mut d = Discovery::new("drakkar_test_collect/src");
    d.supply(vec![file("main.cpp")]);
    let sources = d.into_sources();
    assert_eq!(sources.len(), 1);
    assert_eq!(sources[0].rel_path, String::from("main.cpp"));
}
