use drakkar::builder::{object_path_for, Language, ObjectFile, SourceFile};
use drakkar::config::ProjectConfig;
use drakkar::oracle::{is_newer_than, should_recompile, stamp_for, FileStamp, InputStamp, Snapshot, Timestamp};

fn task() -> ObjectFile {
    let src = SourceFile {
        path: String::from("src/a.cpp"),
        rel_path: String::from("a.cpp"),
        language: Language::Cpp,
    };
    object_path_for(&src, &ProjectConfig::default())
}

fn at(secs: i64) -> FileStamp {
    FileStamp::Modified(Timestamp { secs, nanos: 0 })
}

fn input(path: &str, stamp: FileStamp) -> InputStamp {
    InputStamp { path: String::from(path), stamp }
}

const MANIFEST: &str = "target/a.o: src/a.cpp src/common.h \\\n src/my\\ dir/x.h\n";

fn seen(object: FileStamp, a: FileStamp, common: FileStamp, x: FileStamp) -> Snapshot {
    Snapshot {
        object,
        manifest: Some(String::from(MANIFEST)),
        inputs: vec![input("src/a.cpp", a), input("src/common.h", common), input("src/my dir/x.h", x)],
    }
}

#[test]
fn up_to_date_when_every_input_is_older() {
    let cfg = ProjectConfig::default();
    assert!(!should_recompile(&task(), &cfg, &seen(at(100), at(50), at(60), at(70))));
}

#[test]
fn equal_times_are_not_newer() {
    let cfg = ProjectConfig::default();
    assert!(!should_recompile(&task(), &cfg, &seen(at(100), at(100), at(100), at(100))));
}

#[test]
fn stale_when_an_input_is_newer() {
    let cfg = ProjectConfig::default();
    assert!(should_recompile(&task(), &cfg, &seen(at(100), at(50), at(101), at(70))));
    assert!(should_recompile(&task(), &cfg, &seen(at(100), at(50), at(60), at(1000))));
    let nanos_later = FileStamp::Modified(Timestamp { secs: 100, nanos: 1 });
    assert!(should_recompile(&task(), &cfg, &seen(at(100), nanos_later, at(60), at(70))));
}

#[test]
fn stale_when_the_build_is_not_incremental() {
    let mut cfg = ProjectConfig::default();
    cfg.incremental = false;
    assert!(should_recompile(&task(), &cfg, &seen(at(100), at(50), at(60), at(70))));
}

#[test]
fn stale_when_the_object_is_missing_or_unreadable() {
    let cfg = ProjectConfig::default();
    assert!(should_recompile(&task(), &cfg, &seen(FileStamp::Missing, at(50), at(60), at(70))));
    assert!(should_recompile(&task(), &cfg, &seen(FileStamp::Unreadable, at(50), at(60), at(70))));
}

#[test]
fn stale_when_the_manifest_is_missing() {
    let cfg = ProjectConfig::default();
    let mut s = seen(at(100), at(50), at(60), at(70));
    s.manifest = None;
    assert!(should_recompile(&task(), &cfg, &s));
}

#[test]
fn stale_when_the_manifest_does_not_parse() {
    let cfg = ProjectConfig::default();
    let mut s = seen(at(100), at(50), at(60), at(70));
    s.manifest = Some(String::from("no separator"));
    assert!(should_recompile(&task(), &cfg, &s));
}

#[test]
fn stale_when_a_listed_input_is_deleted() {
    let cfg = ProjectConfig::default();
    assert!(should_recompile(&task(), &cfg, &seen(at(100), at(50), FileStamp::Missing, at(70))));
    let mut s = seen(at(100), at(50), at(60), at(70));
    s.inputs.remove(1);
    assert!(should_recompile(&task(), &cfg, &s));
}

#[test]
fn an_input_with_unreadable_time_is_not_newer() {
    let cfg = ProjectConfig::default();
    assert!(!should_recompile(&task(), &cfg, &seen(at(100), at(50), FileStamp::Unreadable, at(70))));
}

#[test]
fn a_manifest_without_inputs_is_up_to_date() {
    let cfg = ProjectConfig::default();
    let s = Snapshot { object: at(1), manifest: Some(String::from("a.o:")), inputs: Vec::new() };
    assert!(!should_recompile(&task(), &cfg, &s));
}

#[test]
fn inputs_not_listed_do_not_count() {
    let cfg = ProjectConfig::default();
    let mut s = seen(at(100), at(50), at(60), at(70));
    s.inputs.push(input("src/unrelated.h", at(5000)));
    assert!(!should_recompile(&task(), &cfg, &s));
}

#[test]
fn up_to_date_stays_up_to_date_when_only_the_object_gets_newer() {
    let cfg = ProjectConfig::default();
    assert!(!should_recompile(&task(), &cfg, &seen(at(100), at(50), at(60), at(70))));
    assert!(!should_recompile(&task(), &cfg, &seen(at(100), at(50), at(60), at(70))));
    assert!(!should_recompile(&task(), &cfg, &seen(at(200), at(50), at(60), at(70))));
}

#[test]
fn is_newer_than_cases() {
    let reference = Timestamp { secs: 10, nanos: 500 };
    assert!(is_newer_than(&FileStamp::Missing, &reference));
    assert!(!is_newer_than(&FileStamp::Unreadable, &reference));
    assert!(is_newer_than(&FileStamp::Modified(Timestamp { secs: 11, nanos: 0 }), &reference));
    assert!(is_newer_than(&FileStamp::Modified(Timestamp { secs: 10, nanos: 501 }), &reference));
    assert!(!is_newer_than(&FileStamp::Modified(Timestamp { secs: 10, nanos: 500 }), &reference));
    assert!(!is_newer_than(&FileStamp::Modified(Timestamp { secs: 9, nanos: 999 }), &reference));
    assert!(!is_newer_than(&FileStamp::Modified(Timestamp { secs: -5, nanos: 0 }), &reference));
}

#[test]
fn timestamps_order_by_seconds_then_nanoseconds() {
    let a = Timestamp { secs: 1, nanos: 999_999_999 };
    let b = Timestamp { secs: 2, nanos: 0 };
    assert!(b.later_than(&a));
    assert!(!a.later_than(&b));
    assert!(!a.later_than(&a));
}

#[test]
fn stamp_for_takes_the_first_entry() {
    let inputs = vec![input("a", at(1)), input("b", at(2)), input("a", at(3))];
    assert_eq!(stamp_for(&inputs, &String::from("a")), at(1));
    assert_eq!(stamp_for(&inputs, &String::from("b")), at(2));
    assert_eq!(stamp_for(&inputs, &String::from("c")), FileStamp::Missing);
}
