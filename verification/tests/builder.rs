use drakkar::builder::{
    build_compile_args, classify, compile_command, compile_result, link_command, link_result,
    object_path_for, plan_objects, prepare_build_dirs, skips_dir, Language, ObjectFile,
    ProcessOutput, SourceFile,
};
use drakkar::config::{BuildProfile, ProjectConfig};
use drakkar::error::BuildError;

fn source(path: &str, rel_path: &str, language: Language) -> SourceFile {
    SourceFile { path: String::from(path), rel_path: String::from(rel_path), language }
}

fn strings(v: &[&str]) -> Vec<String> {
    v.iter().map(|s| s.to_string()).collect()
}

#[test]
fn test_object_path_for_mirror() {
    let mut cfg = ProjectConfig::default();
    cfg.temp_dir = String::from("target");

    let src = SourceFile {
        path: String::from("src/math/utils.cpp"),
        rel_path: String::from("math/utils.cpp"),
        language: Language::Cpp,
    };

    let obj = object_path_for(&src, &cfg);
    assert_eq!(obj.obj_path, String::from("target/math/utils.o"));
    assert_eq!(obj.dep_path, String::from("target/math/utils.d"));
}

#[test]
fn build_test_no_name_collision() {
    let cfg = ProjectConfig::default();

    let src1 = SourceFile {
        path: String::from("src/math/utils.cpp"),
        rel_path: String::from("math/utils.cpp"),
        language: Language::Cpp,
    };
    let src2 = SourceFile {
        path: String::from("src/network/utils.cpp"),
        rel_path: String::from("network/utils.cpp"),
        language: Language::Cpp,
    };

    let obj1 = object_path_for(&src1, &cfg);
    let obj2 = object_path_for(&src2, &cfg);
    assert_ne!(obj1.obj_path, obj2.obj_path);
}

#[test]
fn object_path_keeps_the_source() {
    let cfg = ProjectConfig::default();
    let obj = object_path_for(&source("src/a.b.c", "a.b.c", Language::C), &cfg);
    assert_eq!(obj.src.path, "src/a.b.c");
    assert_eq!(obj.src.rel_path, "a.b.c");
    assert_eq!(obj.src.language, Language::C);
    assert_eq!(obj.obj_path, "target/a.b.o");
    assert_eq!(obj.dep_path, "target/a.b.d");
}

#[test]
fn object_path_below_a_temp_dir_with_trailing_slash() {
    let mut cfg = ProjectConfig::default();
    cfg.temp_dir = String::from("build/obj/");
    let obj = object_path_for(&source("src/net/tcp.cc", "net/tcp.cc", Language::Cpp), &cfg);
    assert_eq!(obj.obj_path, "build/obj/net/tcp.o");
    assert_eq!(obj.dep_path, "build/obj/net/tcp.d");
}

#[test]
fn object_path_with_an_empty_temp_dir() {
    let mut cfg = ProjectConfig::default();
    cfg.temp_dir = String::new();
    let obj = object_path_for(&source("src/x.c", "x.c", Language::C), &cfg);
    assert_eq!(obj.obj_path, "x.o");
}

#[test]
fn sources_that_differ_in_the_extension_alone_share_an_object() {
    let cfg = ProjectConfig::default();
    let c = object_path_for(&source("src/a.c", "a.c", Language::C), &cfg);
    let cpp = object_path_for(&source("src/a.cpp", "a.cpp", Language::Cpp), &cfg);
    assert_eq!(c.obj_path, cpp.obj_path);
}

#[test]
fn twenty_sources_get_twenty_objects() {
    let cfg = ProjectConfig::default();
    let sources: Vec<SourceFile> = (0..20)
        .map(|i| source(&format!("src/mod{}.cpp", i), &format!("mod{}.cpp", i), Language::Cpp))
        .collect();
    let objects = plan_objects(&sources, &cfg);
    assert_eq!(objects.len(), 20);
    for i in 0..20 {
        assert_eq!(objects[i].obj_path, format!("target/mod{}.o", i));
        for j in 0..i {
            assert_ne!(objects[i].obj_path, objects[j].obj_path);
            assert_ne!(objects[i].dep_path, objects[j].dep_path);
        }
    }
}

#[test]
fn classify_by_extension() {
    assert_eq!(classify("main.c"), Some(Language::C));
    assert_eq!(classify("src/main.cpp"), Some(Language::Cpp));
    assert_eq!(classify("a.cc"), Some(Language::Cpp));
    assert_eq!(classify("a.cxx"), Some(Language::Cpp));
    assert_eq!(classify("a.c++"), Some(Language::Cpp));
    assert_eq!(classify("a.b.cpp"), Some(Language::Cpp));
}

#[test]
fn classify_ignores_letter_case() {
    assert_eq!(classify("LEGACY.C"), Some(Language::C));
    assert_eq!(classify("Mixed.CpP"), Some(Language::Cpp));
    assert_eq!(classify("a.CXX"), Some(Language::Cpp));
}

#[test]
fn classify_rejects_other_files() {
    for p in ["a.h", "a.hpp", "README.md", "Makefile", "a.", ".cpp", "a.cpp/b", "a.cpp.bak", "", "src/.c", "a.c "] {
        assert_eq!(classify(p), None);
    }
}

#[test]
fn skipped_directories() {
    for d in [".git", ".", "..", ".hidden", "target", "out"] {
        assert!(skips_dir(d));
    }
    for d in ["src", "", "Target", "outer", "targets", "a.b"] {
        assert!(!skips_dir(d));
    }
}

#[test]
fn compile_args_for_cpp_debug() {
    let mut cfg = ProjectConfig::default();
    cfg.cxx_flags = strings(&["-Wall", "-Wextra"]);
    cfg.c_flags = strings(&["-pedantic"]);
    cfg.cxx_standard = Some(String::from("c++17"));
    cfg.c_standard = Some(String::from("c11"));
    cfg.include_dirs = strings(&["include", "third party/include"]);
    let obj = object_path_for(&source("src/main.cpp", "main.cpp", Language::Cpp), &cfg);
    let extra = strings(&["-fsanitize=address", "-O3"]);
    let (compiler, args) = build_compile_args(&obj, &cfg, &BuildProfile::Debug, &extra);
    assert_eq!(compiler, "g++");
    assert_eq!(
        args,
        vec![
            "-c", "src/main.cpp", "-o", "target/main.o", "-Wall", "-Wextra", "-std=c++17", "-g",
            "-O0", "-DDEBUG", "-Iinclude", "-Ithird party/include", "-MMD", "-MP", "-MF",
            "target/main.d", "-fsanitize=address", "-O3"
        ]
    );
}

#[test]
fn compile_args_for_c_release() {
    let mut cfg = ProjectConfig::default();
    cfg.cxx_flags = strings(&["-Wall"]);
    cfg.c_flags = strings(&["-pedantic"]);
    cfg.cxx_standard = Some(String::from("c++17"));
    cfg.gcc_path = String::from("/usr/bin/cc");
    let obj = object_path_for(&source("src/utils.c", "utils.c", Language::C), &cfg);
    let (compiler, args) = build_compile_args(&obj, &cfg, &BuildProfile::Release, &Vec::new());
    assert_eq!(compiler, "/usr/bin/cc");
    assert_eq!(
        args,
        vec![
            "-c", "src/utils.c", "-o", "target/utils.o", "-pedantic", "-O2", "-DNDEBUG", "-MMD",
            "-MP", "-MF", "target/utils.d"
        ]
    );
}

#[test]
fn compile_args_are_the_same_for_the_same_inputs() {
    let mut cfg = ProjectConfig::default();
    cfg.include_dirs = strings(&["inc"]);
    let obj = object_path_for(&source("src/a.cpp", "a.cpp", Language::Cpp), &cfg);
    let extra = strings(&["-DX"]);
    let first = build_compile_args(&obj, &cfg, &BuildProfile::Release, &extra);
    let second = build_compile_args(&obj, &cfg, &BuildProfile::Release, &extra);
    assert_eq!(first, second);
}

#[test]
fn compile_args_may_repeat_the_standard() {
    let mut cfg = ProjectConfig::default();
    cfg.cxx_flags = strings(&["-std=c++17"]);
    cfg.cxx_standard = Some(String::from("c++17"));
    let obj = object_path_for(&source("src/a.cpp", "a.cpp", Language::Cpp), &cfg);
    let (_, args) = build_compile_args(&obj, &cfg, &BuildProfile::Debug, &Vec::new());
    assert_eq!(args.iter().filter(|a| a.as_str() == "-std=c++17").count(), 2);
}

#[test]
fn compile_command_of_a_cancelled_build() {
    let cfg = ProjectConfig::default();
    let obj = object_path_for(&source("src/a.cpp", "a.cpp", Language::Cpp), &cfg);
    let r = compile_command(&obj, &cfg, &BuildProfile::Debug, &Vec::new(), true);
    assert!(matches!(r, Err(BuildError::Cancelled)));
    let (compiler, args) = compile_command(&obj, &cfg, &BuildProfile::Debug, &Vec::new(), false).unwrap();
    assert_eq!((compiler, args), build_compile_args(&obj, &cfg, &BuildProfile::Debug, &Vec::new()));
}

#[test]
fn compile_result_cases() {
    let cfg = ProjectConfig::default();
    let obj = object_path_for(&source("src/a.cpp", "a.cpp", Language::Cpp), &cfg);
    let ok = ProcessOutput { success: true, code: Some(0), stderr: String::from("warning: x") };
    assert!(compile_result(&obj, ok, false).is_ok());
    let failed = ProcessOutput { success: false, code: Some(1), stderr: String::from("a.cpp:1: error") };
    match compile_result(&obj, failed, false) {
        Err(BuildError::CompileError { src, stderr, code }) => {
            assert_eq!(src, "src/a.cpp");
            assert_eq!(stderr, "a.cpp:1: error");
            assert_eq!(code, Some(1));
        }
        other => panic!("expected a compile error, got {:?}", other),
    }
    let killed = ProcessOutput { success: false, code: None, stderr: String::new() };
    assert!(matches!(compile_result(&obj, killed, true), Err(BuildError::Cancelled)));
    let fine = ProcessOutput { success: true, code: Some(0), stderr: String::new() };
    assert!(matches!(compile_result(&obj, fine, true), Err(BuildError::Cancelled)));
}

fn two_objects(cfg: &ProjectConfig) -> Vec<ObjectFile> {
    vec![
        object_path_for(&source("src/main.cpp", "main.cpp", Language::Cpp), cfg),
        object_path_for(&source("src/math/utils.cpp", "math/utils.cpp", Language::Cpp), cfg),
    ]
}

#[test]
fn link_command_for_release() {
    let mut cfg = ProjectConfig::default();
    cfg.ld_flags = strings(&["-Wl,-O1"]);
    cfg.link_libs = strings(&["-lm", "-lpthread"]);
    cfg.gpp_path = String::from("clang++");
    let objects = two_objects(&cfg);
    let (program, args) =
        link_command(&objects, "out/app", &cfg, &BuildProfile::Release, &strings(&["-v"]), "").unwrap();
    assert_eq!(program, "clang++");
    assert_eq!(
        args,
        vec![
            "target/main.o", "target/math/utils.o", "-o", "out/app", "-Wl,-O1", "-lm",
            "-lpthread", "-s", "-v"
        ]
    );
}

#[test]
fn link_command_for_debug_has_no_strip_flag() {
    let cfg = ProjectConfig::default();
    let objects = two_objects(&cfg);
    let (program, args) =
        link_command(&objects, "out/app", &cfg, &BuildProfile::Debug, &Vec::new(), "").unwrap();
    assert_eq!(program, "g++");
    assert_eq!(args, vec!["target/main.o", "target/math/utils.o", "-o", "out/app"]);
}

#[test]
fn link_command_adds_the_extension_of_the_host() {
    let cfg = ProjectConfig::default();
    let objects = two_objects(&cfg);
    let (_, args) =
        link_command(&objects, "out/app", &cfg, &BuildProfile::Debug, &Vec::new(), "exe").unwrap();
    assert_eq!(args[3], "out/app.exe");
    let (_, args) =
        link_command(&objects, "out/app.bin", &cfg, &BuildProfile::Debug, &Vec::new(), "exe").unwrap();
    assert_eq!(args[3], "out/app.bin");
}

#[test]
fn link_command_without_objects_is_a_link_error() {
    let cfg = ProjectConfig::default();
    match link_command(&Vec::new(), "out/app", &cfg, &BuildProfile::Debug, &Vec::new(), "") {
        Err(BuildError::LinkError { stderr, code }) => {
            assert_eq!(stderr, "No object files to link");
            assert_eq!(code, None);
        }
        other => panic!("expected a link error, got {:?}", other),
    }
}

#[test]
fn link_result_cases() {
    let ok = ProcessOutput { success: true, code: Some(0), stderr: String::new() };
    assert!(link_result(ok).is_ok());
    let failed = ProcessOutput { success: false, code: Some(2), stderr: String::from("undefined reference") };
    match link_result(failed) {
        Err(BuildError::LinkError { stderr, code }) => {
            assert_eq!(stderr, "undefined reference");
            assert_eq!(code, Some(2));
        }
        other => panic!("expected a link error, got {:?}", other),
    }
}

#[test]
fn build_dirs_in_order() {
    let mut cfg = ProjectConfig::default();
    cfg.output_dir = String::from("bin");
    let objects = two_objects(&cfg);
    let dirs = prepare_build_dirs(&cfg, &objects);
    assert_eq!(dirs, vec!["bin", "target", "target", "target/math"]);
    assert_eq!(prepare_build_dirs(&cfg, &Vec::new()), vec!["bin", "target"]);
}
