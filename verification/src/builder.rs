//! Translation units and what is made of them: the mirrored object tree,
//! the compiler and linker command lines, and the reading of their results.

use vstd::prelude::*;
use crate::config::{BuildProfile, ConfigView, ProjectConfig};
use crate::error::{BuildError, ErrorView};
use crate::paths::{
    extension,
    extension_of,
    is_absolute,
    join,
    join_of,
    lemma_join_injective,
    lemma_with_extension_injective,
    lemma_with_extension_relative,
    parent,
    parent_of,
    with_extension,
    with_extension_of,
    without_extension,
};
use crate::text::{
    append_chars,
    ascii_lowercase,
    chars_are,
    from_chars,
    lowercase_chars,
    texts,
    to_chars,
};

verus! {

/// The language of a translation unit.
#[derive(Debug, Clone, Copy, PartialEq, Eq, Structural)]
pub enum Language {
    C,
    Cpp,
}

/// A C or C++ translation unit found below the source directory.
#[derive(Debug)]
pub struct SourceFile {
    /// Where the file is.
    pub path: String,
    /// The same, relative to the source directory.
    pub rel_path: String,
    pub language: Language,
}

/// The mathematical value of a `SourceFile`.
pub struct SourceView {
    pub path: Seq<char>,
    pub rel_path: Seq<char>,
    pub language: Language,
}

impl View for SourceFile {
    type V = SourceView;

    open spec fn view(&self) -> SourceView {
        SourceView { path: self.path@, rel_path: self.rel_path@, language: self.language }
    }
}

impl Clone for SourceFile {
    fn clone(&self) -> (r: SourceFile)
        ensures
            r@ == self@,
    {
        SourceFile {
            path: self.path.clone(),
            rel_path: self.rel_path.clone(),
            language: self.language,
        }
    }
}

/// A translation unit with the object file and the dependency manifest that
/// are made of it: the unit of scheduling and caching.
#[derive(Debug)]
pub struct ObjectFile {
    pub src: SourceFile,
    pub obj_path: String,
    pub dep_path: String,
}

/// The mathematical value of an `ObjectFile`.
pub struct ObjectView {
    pub src: SourceView,
    pub obj_path: Seq<char>,
    pub dep_path: Seq<char>,
}

impl View for ObjectFile {
    type V = ObjectView;

    open spec fn view(&self) -> ObjectView {
        ObjectView { src: self.src@, obj_path: self.obj_path@, dep_path: self.dep_path@ }
    }
}

impl Clone for ObjectFile {
    fn clone(&self) -> (r: ObjectFile)
        ensures
            r@ == self@,
    {
        ObjectFile {
            src: self.src.clone(),
            obj_path: self.obj_path.clone(),
            dep_path: self.dep_path.clone(),
        }
    }
}

/// The values of a list of object files.
pub open spec fn object_views(v: Seq<ObjectFile>) -> Seq<ObjectView> {
    v.map_values(|o: ObjectFile| o@)
}

/// The values of a list of source files.
pub open spec fn source_views(v: Seq<SourceFile>) -> Seq<SourceView> {
    v.map_values(|s: SourceFile| s@)
}

// ---------------------------------------------------------------------------
// Classification
// ---------------------------------------------------------------------------

/// The language that a file extension stands for, in any letter case:
/// `c` is C; `cpp`, `cc`, `cxx` and `c++` are C++.
pub open spec fn language_of_extension(ext: Seq<char>) -> Option<Language> {
    let l = ascii_lowercase(ext);
    if l == "c"@ {
        Some(Language::C)
    } else if l == "cpp"@ || l == "cc"@ || l == "cxx"@ || l == "c++"@ {
        Some(Language::Cpp)
    } else {
        None
    }
}

/// The language of the file at `path`, if it is a translation unit.
pub open spec fn language_of(path: Seq<char>) -> Option<Language> {
    match extension(path) {
        Some(ext) => language_of_extension(ext),
        None => None,
    }
}

/// Whether a directory of this name is left out of the search for sources:
/// hidden directories and the directories of build products.
pub open spec fn is_skipped_dir(name: Seq<char>) -> bool {
    (name.len() > 0 && name[0] == '.') || name == "target"@ || name == "out"@
}

/// The language of the file at `path`, if it is a translation unit.
pub fn classify_chars(path: &Vec<char>) -> (r: Option<Language>)
    ensures
        r == language_of(path@),
{
    match extension_of(path) {
        None => None,
        Some(ext) => {
            let l = lowercase_chars(&ext);
            if chars_are(&l, "c") {
                Some(Language::C)
            } else if chars_are(&l, "cpp") || chars_are(&l, "cc") || chars_are(&l, "cxx")
                || chars_are(&l, "c++") {
                Some(Language::Cpp)
            } else {
                None
            }
        },
    }
}

/// The language of the file at `path`, if it is a translation unit.
pub fn classify(path: &str) -> (r: Option<Language>)
    ensures
        r == language_of(path@),
{
    let p = to_chars(path);
    classify_chars(&p)
}

/// Whether a directory of this name is left out of the search for sources.
pub fn skips_dir_chars(name: &Vec<char>) -> (r: bool)
    ensures
        r == is_skipped_dir(name@),
{
    (name.len() > 0 && name[0] == '.') || chars_are(name, "target") || chars_are(name, "out")
}

/// Whether a directory of this name is left out of the search for sources.
pub fn skips_dir(name: &str) -> (r: bool)
    ensures
        r == is_skipped_dir(name@),
{
    let n = to_chars(name);
    skips_dir_chars(&n)
}

// ---------------------------------------------------------------------------
// The mirrored object tree
// ---------------------------------------------------------------------------

/// The object file of the source at `rel_path`, below `temp_dir`.
pub open spec fn object_path(temp_dir: Seq<char>, rel_path: Seq<char>) -> Seq<char> {
    join(temp_dir, with_extension(rel_path, "o"@))
}

/// The dependency manifest of the source at `rel_path`, below `temp_dir`.
pub open spec fn manifest_path(temp_dir: Seq<char>, rel_path: Seq<char>) -> Seq<char> {
    join(temp_dir, with_extension(rel_path, "d"@))
}

/// The task made of `src`: its object file and manifest mirror the relative
/// path of the source below `temp_dir`.
pub open spec fn mirrored(src: SourceView, temp_dir: Seq<char>) -> ObjectView {
    ObjectView {
        src,
        obj_path: object_path(temp_dir, src.rel_path),
        dep_path: manifest_path(temp_dir, src.rel_path),
    }
}

/// Whether `rel_path` can be the relative path of a translation unit: it is
/// relative and its extension is that of a C or C++ source.
pub open spec fn is_source_path(rel_path: Seq<char>) -> bool {
    !is_absolute(rel_path) && language_of(rel_path) is Some
}

/// Two sources whose relative paths differ before the extension get
/// different object files and different manifests.
///
/// Relative paths that differ in the extension alone, such as `a.c` and
/// `a.cpp`, share their object file: the extension is replaced, not kept.
pub proof fn lemma_mirror_distinct(temp_dir: Seq<char>, a: Seq<char>, b: Seq<char>)
    requires
        is_source_path(a),
        is_source_path(b),
        without_extension(a) != without_extension(b),
    ensures
        object_path(temp_dir, a) != object_path(temp_dir, b),
        manifest_path(temp_dir, a) != manifest_path(temp_dir, b),
{
    lemma_with_extension_relative(a, "o"@);
    lemma_with_extension_relative(b, "o"@);
    lemma_with_extension_relative(a, "d"@);
    lemma_with_extension_relative(b, "d"@);
    if object_path(temp_dir, a) == object_path(temp_dir, b) {
        lemma_join_injective(temp_dir, with_extension(a, "o"@), with_extension(b, "o"@));
        lemma_with_extension_injective(a, b, "o"@);
    }
    if manifest_path(temp_dir, a) == manifest_path(temp_dir, b) {
        lemma_join_injective(temp_dir, with_extension(a, "d"@), with_extension(b, "d"@));
        lemma_with_extension_injective(a, b, "d"@);
    }
}

/// The task for `src`: its object file and its manifest, below the
/// temporary directory of `config`.
pub fn object_path_for(src: &SourceFile, config: &ProjectConfig) -> (r: ObjectFile)
    ensures
        r@ == mirrored(src@, config@.temp_dir),
{
    let temp = to_chars(config.temp_dir.as_str());
    let rel = to_chars(src.rel_path.as_str());
    let o = to_chars("o");
    let d = to_chars("d");
    let obj = join_of(&temp, &with_extension_of(&rel, &o));
    let dep = join_of(&temp, &with_extension_of(&rel, &d));
    ObjectFile { src: src.clone(), obj_path: from_chars(&obj), dep_path: from_chars(&dep) }
}

/// The tasks for `sources`, in the same order.
pub fn plan_objects(sources: &Vec<SourceFile>, config: &ProjectConfig) -> (r: Vec<ObjectFile>)
    ensures
        r.len() == sources.len(),
        forall|i: int|
            0 <= i < sources.len() ==> (#[trigger] r[i])@ == mirrored(
                sources[i]@,
                config@.temp_dir,
            ),
{
    let mut r: Vec<ObjectFile> = Vec::new();
    let mut i: usize = 0;
    while i < sources.len()
        invariant
            i <= sources.len(),
            r.len() == i,
            forall|k: int|
                0 <= k < i ==> (#[trigger] r[k])@ == mirrored(sources[k]@, config@.temp_dir),
        decreases sources.len() - i,
    {
        r.push(object_path_for(&sources[i], config));
        i = i + 1;
    }
    r
}

/// The directories a build writes into: the output directory, the temporary
/// directory, and the directory of every object file.
pub open spec fn build_dirs(config: ConfigView, objects: Seq<ObjectView>) -> Seq<Seq<char>> {
    seq![config.output_dir, config.temp_dir] + objects.map_values(
        |o: ObjectView| parent(o.obj_path),
    )
}

/// The directories to create before `objects` are compiled, in the order in
/// which they are created.
pub fn prepare_build_dirs(config: &ProjectConfig, objects: &Vec<ObjectFile>) -> (r: Vec<String>)
    ensures
        texts(r@) == build_dirs(config@, object_views(objects@)),
{
    let mut r: Vec<String> = Vec::new();
    push_text(&mut r, config.output_dir.clone());
    push_text(&mut r, config.temp_dir.clone());
    let ghost head = texts(r@);
    assert(head == seq![config@.output_dir, config@.temp_dir]);
    let mut i: usize = 0;
    while i < objects.len()
        invariant
            i <= objects.len(),
            texts(r@) == head + object_views(objects@.take(i as int)).map_values(
                |o: ObjectView| parent(o.obj_path),
            ),
        decreases objects.len() - i,
    {
        let p = to_chars(objects[i].obj_path.as_str());
        let dir = from_chars(&parent_of(&p));
        proof {
            let done = objects@.take(i as int);
            assert(objects@.take(i + 1) == done.push(objects@[i as int]));
            assert(object_views(done.push(objects@[i as int])).map_values(
                |o: ObjectView| parent(o.obj_path),
            ) == object_views(done).map_values(|o: ObjectView| parent(o.obj_path)).push(dir@));
        }
        push_text(&mut r, dir);
        i = i + 1;
    }
    assert(objects@.take(objects.len() as int) == objects@);
    r
}

/// Those of the objects `planned` that are among `handed`, in the order of
/// the plan.
pub open spec fn in_plan_order(planned: Seq<ObjectView>, handed: Seq<ObjectView>) -> Seq<
    ObjectView,
>
    decreases planned.len(),
{
    if planned.len() == 0 {
        Seq::empty()
    } else if handed.contains(planned.last()) {
        in_plan_order(planned.drop_last(), handed).push(planned.last())
    } else {
        in_plan_order(planned.drop_last(), handed)
    }
}

/// The objects in plan order are objects of the plan, each among those
/// handed in, and none more often than the plan has it.
pub proof fn lemma_in_plan_order(planned: Seq<ObjectView>, handed: Seq<ObjectView>)
    ensures
        in_plan_order(planned, handed).len() <= planned.len(),
        forall|k: int|
            0 <= k < in_plan_order(planned, handed).len() ==> planned.contains(
                #[trigger] in_plan_order(planned, handed)[k],
            ) && handed.contains(in_plan_order(planned, handed)[k]),
        (forall|k: int| 0 <= k < planned.len() ==> handed.contains(#[trigger] planned[k]))
            ==> in_plan_order(planned, handed) == planned,
    decreases planned.len(),
{
    if planned.len() > 0 {
        let front = planned.drop_last();
        lemma_in_plan_order(front, handed);
        let kept = in_plan_order(planned, handed);
        assert forall|k: int| 0 <= k < kept.len() implies planned.contains(#[trigger] kept[k])
            && handed.contains(kept[k]) by {
            if k < in_plan_order(front, handed).len() {
                let o = in_plan_order(front, handed)[k];
                assert(kept[k] == o);
                let j = choose|j: int| 0 <= j < front.len() && front[j] == o;
                assert(planned[j] == o);
            } else {
                assert(kept[k] == planned.last());
                assert(planned[planned.len() - 1] == planned.last());
            }
        }
        if forall|k: int| 0 <= k < planned.len() ==> handed.contains(#[trigger] planned[k]) {
            assert forall|k: int| 0 <= k < front.len() implies handed.contains(
                #[trigger] front[k],
            ) by {
                assert(front[k] == planned[k]);
            }
            assert(handed.contains(planned[planned.len() - 1]));
            assert(front.push(planned.last()) == planned);
        }
    }
}

/// Whether two tasks are the same task.
pub fn same_object(a: &ObjectFile, b: &ObjectFile) -> (r: bool)
    ensures
        r == (a@ == b@),
{
    a.src.path == b.src.path && a.src.rel_path == b.src.rel_path && a.src.language
        == b.src.language && a.obj_path == b.obj_path && a.dep_path == b.dep_path
}

/// Whether `object` is among `objects`.
pub fn has_object(objects: &Vec<ObjectFile>, object: &ObjectFile) -> (r: bool)
    ensures
        r == object_views(objects@).contains(object@),
{
    let mut i: usize = 0;
    while i < objects.len()
        invariant
            i <= objects.len(),
            forall|k: int| 0 <= k < i ==> object_views(objects@)[k] != object@,
        decreases objects.len() - i,
    {
        if same_object(&objects[i], object) {
            assert(object_views(objects@)[i as int] == object@);
            return true;
        }
        i = i + 1;
    }
    false
}

/// Those of the objects `planned` that are among `handed`, in the order of
/// the plan.
pub fn objects_in_plan_order(planned: &Vec<ObjectFile>, handed: &Vec<ObjectFile>) -> (r: Vec<
    ObjectFile,
>)
    ensures
        object_views(r@) == in_plan_order(object_views(planned@), object_views(handed@)),
{
    let mut r: Vec<ObjectFile> = Vec::new();
    let mut i: usize = 0;
    assert(object_views(planned@.take(0)) == Seq::<ObjectView>::empty());
    assert(object_views(r@) == Seq::<ObjectView>::empty());
    while i < planned.len()
        invariant
            i <= planned.len(),
            object_views(r@) == in_plan_order(
                object_views(planned@.take(i as int)),
                object_views(handed@),
            ),
        decreases planned.len() - i,
    {
        proof {
            let done = planned@.take(i as int);
            let next = planned@.take(i + 1);
            assert(next == done.push(planned@[i as int]));
            assert(object_views(next).drop_last() == object_views(done));
            assert(object_views(next).last() == planned@[i as int]@);
        }
        if has_object(handed, &planned[i]) {
            let ghost before = r@;
            let object = planned[i].clone();
            r.push(object);
            assert(object_views(before.push(object)) == object_views(before).push(object@));
        }
        i = i + 1;
    }
    assert(planned@.take(planned.len() as int) == planned@);
    r
}

// ---------------------------------------------------------------------------
// Command lines
// ---------------------------------------------------------------------------

/// Appends `s` to a list of strings.
pub fn push_text(list: &mut Vec<String>, s: String)
    ensures
        texts(final(list)@) == texts(old(list)@).push(s@),
{
    let ghost before = list@;
    list.push(s);
    assert(texts(before.push(s)) == texts(before).push(s@));
}

/// Appends the string `s` to a list of strings.
pub fn push_str_text(list: &mut Vec<String>, s: &str)
    ensures
        texts(final(list)@) == texts(old(list)@).push(s@),
{
    push_text(list, s.to_owned());
}

/// Appends copies of the strings of `more` to a list of strings.
pub fn extend_texts(list: &mut Vec<String>, more: &Vec<String>)
    ensures
        texts(final(list)@) == texts(old(list)@) + texts(more@),
{
    let mut i: usize = 0;
    assert(texts(more@.take(0)) == Seq::<Seq<char>>::empty());
    while i < more.len()
        invariant
            i <= more.len(),
            texts(list@) == texts(old(list)@) + texts(more@.take(i as int)),
        decreases more.len() - i,
    {
        proof {
            let done = more@.take(i as int);
            assert(more@.take(i + 1) == done.push(more@[i as int]));
            assert(texts(done.push(more@[i as int])) == texts(done).push(more@[i as int]@));
        }
        push_text(list, more[i].clone());
        i = i + 1;
    }
    assert(more@.take(more.len() as int) == more@);
}

/// The compiler for a language.
pub open spec fn compiler_of(language: Language, config: ConfigView) -> Seq<char> {
    match language {
        Language::C => config.gcc_path,
        Language::Cpp => config.gpp_path,
    }
}

/// The configured flags of a language.
pub open spec fn language_flags(language: Language, config: ConfigView) -> Seq<Seq<char>> {
    match language {
        Language::C => config.c_flags,
        Language::Cpp => config.cxx_flags,
    }
}

/// The `-std=` flag of a language, where a standard is configured.
pub open spec fn standard_flags(language: Language, config: ConfigView) -> Seq<Seq<char>> {
    let standard = match language {
        Language::C => config.c_standard,
        Language::Cpp => config.cxx_standard,
    };
    match standard {
        Some(s) => seq!["-std="@ + s],
        None => Seq::empty(),
    }
}

/// The flags of a build profile.
pub open spec fn profile_flags(profile: BuildProfile) -> Seq<Seq<char>> {
    match profile {
        BuildProfile::Debug => seq!["-g"@, "-O0"@, "-DDEBUG"@],
        BuildProfile::Release => seq!["-O2"@, "-DNDEBUG"@],
    }
}

/// One `-I` flag for every include directory.
pub open spec fn include_flags(dirs: Seq<Seq<char>>) -> Seq<Seq<char>> {
    dirs.map_values(|d: Seq<char>| "-I"@ + d)
}

/// The arguments of the compiler for one task: the source, the object, the
/// flags of the language, its standard, the flags of the profile, the
/// include directories, the flags that make the compiler write the
/// dependency manifest, and last the flags passed through by the user.
pub open spec fn compile_args(
    task: ObjectView,
    config: ConfigView,
    profile: BuildProfile,
    extra_flags: Seq<Seq<char>>,
) -> Seq<Seq<char>> {
    seq!["-c"@, task.src.path, "-o"@, task.obj_path] + language_flags(task.src.language, config)
        + standard_flags(task.src.language, config) + profile_flags(profile) + include_flags(
        config.include_dirs,
    ) + seq!["-MMD"@, "-MP"@, "-MF"@, task.dep_path] + extra_flags
}

/// The command line for a task is a function of the task, the
/// configuration, the profile and the extra flags, and of nothing else.
pub proof fn lemma_compile_args_deterministic(
    task: ObjectView,
    config: ConfigView,
    profile: BuildProfile,
    extra_flags: Seq<Seq<char>>,
    task2: ObjectView,
    config2: ConfigView,
    profile2: BuildProfile,
    extra_flags2: Seq<Seq<char>>,
)
    requires
        task == task2,
        config == config2,
        profile == profile2,
        extra_flags == extra_flags2,
    ensures
        compiler_of(task.src.language, config) == compiler_of(task2.src.language, config2),
        compile_args(task, config, profile, extra_flags) == compile_args(
            task2,
            config2,
            profile2,
            extra_flags2,
        ),
{
}

/// The flags passed through by the user are the last arguments of every
/// compiler command line, in their order.
pub proof fn lemma_extra_flags_last(
    task: ObjectView,
    config: ConfigView,
    profile: BuildProfile,
    extra_flags: Seq<Seq<char>>,
)
    ensures
        compile_args(task, config, profile, extra_flags).len() >= extra_flags.len() + 8,
        compile_args(task, config, profile, extra_flags).skip(
            compile_args(task, config, profile, extra_flags).len() - extra_flags.len(),
        ) == extra_flags,
{
    let all = compile_args(task, config, profile, extra_flags);
    let head = all.take(all.len() - extra_flags.len());
    assert(all.skip(all.len() - extra_flags.len()) == extra_flags);
}

fn push_include_flags(args: &mut Vec<String>, dirs: &Vec<String>)
    ensures
        texts(final(args)@) == texts(old(args)@) + include_flags(texts(dirs@)),
{
    let mut i: usize = 0;
    assert(include_flags(texts(dirs@.take(0))) == Seq::<Seq<char>>::empty());
    while i < dirs.len()
        invariant
            i <= dirs.len(),
            texts(args@) == texts(old(args)@) + include_flags(texts(dirs@.take(i as int))),
        decreases dirs.len() - i,
    {
        let mut flag = to_chars("-I");
        let dir = to_chars(dirs[i].as_str());
        append_chars(&mut flag, &dir);
        proof {
            let done = dirs@.take(i as int);
            assert(dirs@.take(i + 1) == done.push(dirs@[i as int]));
            assert(include_flags(texts(done.push(dirs@[i as int]))) == include_flags(
                texts(done),
            ).push("-I"@ + dirs@[i as int]@));
        }
        push_text(args, from_chars(&flag));
        i = i + 1;
    }
    assert(dirs@.take(dirs.len() as int) == dirs@);
}

/// The compiler and its arguments for one task.
pub fn build_compile_args(
    obj: &ObjectFile,
    config: &ProjectConfig,
    profile: &BuildProfile,
    extra_flags: &Vec<String>,
) -> (r: (String, Vec<String>))
    ensures
        r.0@ == compiler_of(obj@.src.language, config@),
        texts(r.1@) == compile_args(obj@, config@, *profile, texts(extra_flags@)),
{
    let mut args: Vec<String> = Vec::new();
    assert(texts(args@) == Seq::<Seq<char>>::empty());
    push_str_text(&mut args, "-c");
    push_text(&mut args, obj.src.path.clone());
    push_str_text(&mut args, "-o");
    push_text(&mut args, obj.obj_path.clone());
    assert(texts(args@) == seq!["-c"@, obj@.src.path, "-o"@, obj@.obj_path]);
    let compiler = match obj.src.language {
        Language::C => {
            extend_texts(&mut args, &config.c_flags);
            match &config.c_standard {
                Some(s) => {
                    let mut flag = to_chars("-std=");
                    let std = to_chars(s.as_str());
                    append_chars(&mut flag, &std);
                    push_text(&mut args, from_chars(&flag));
                },
                None => {},
            }
            config.gcc_path.clone()
        },
        Language::Cpp => {
            extend_texts(&mut args, &config.cxx_flags);
            match &config.cxx_standard {
                Some(s) => {
                    let mut flag = to_chars("-std=");
                    let std = to_chars(s.as_str());
                    append_chars(&mut flag, &std);
                    push_text(&mut args, from_chars(&flag));
                },
                None => {},
            }
            config.gpp_path.clone()
        },
    };
    assert(texts(args@) == seq!["-c"@, obj@.src.path, "-o"@, obj@.obj_path] + language_flags(
        obj@.src.language,
        config@,
    ) + standard_flags(obj@.src.language, config@));
    match profile {
        BuildProfile::Debug => {
            push_str_text(&mut args, "-g");
            push_str_text(&mut args, "-O0");
            push_str_text(&mut args, "-DDEBUG");
        },
        BuildProfile::Release => {
            push_str_text(&mut args, "-O2");
            push_str_text(&mut args, "-DNDEBUG");
        },
    }
    assert(texts(args@) == seq!["-c"@, obj@.src.path, "-o"@, obj@.obj_path] + language_flags(
        obj@.src.language,
        config@,
    ) + standard_flags(obj@.src.language, config@) + profile_flags(*profile));
    push_include_flags(&mut args, &config.include_dirs);
    let ghost before = texts(args@);
    push_str_text(&mut args, "-MMD");
    push_str_text(&mut args, "-MP");
    push_str_text(&mut args, "-MF");
    push_text(&mut args, obj.dep_path.clone());
    assert(texts(args@) == before + seq!["-MMD"@, "-MP"@, "-MF"@, obj@.dep_path]);
    extend_texts(&mut args, extra_flags);
    (compiler, args)
}

/// What became of a compiler or linker process.
#[derive(Debug)]
pub struct ProcessOutput {
    /// Whether the process ended with exit code 0.
    pub success: bool,
    /// Its exit code, where it has one.
    pub code: Option<i32>,
    /// What it wrote to its standard error stream.
    pub stderr: String,
}

/// The command line of a compile step, unless the build is cancelled.
pub fn compile_command(
    obj: &ObjectFile,
    config: &ProjectConfig,
    profile: &BuildProfile,
    extra_flags: &Vec<String>,
    cancelled: bool,
) -> (r: Result<(String, Vec<String>), BuildError>)
    ensures
        cancelled ==> (r matches Err(e) && e@ == ErrorView::Cancelled),
        !cancelled ==> (r matches Ok(c) && c.0@ == compiler_of(obj@.src.language, config@)
            && texts(c.1@) == compile_args(obj@, config@, *profile, texts(extra_flags@))),
{
    if cancelled {
        Err(BuildError::Cancelled)
    } else {
        Ok(build_compile_args(obj, config, profile, extra_flags))
    }
}

/// The result of a compile step whose compiler has ended. A cancelled build
/// reports the cancellation, whatever the compiler did.
pub fn compile_result(obj: &ObjectFile, output: ProcessOutput, cancelled: bool) -> (r: Result<
    (),
    BuildError,
>)
    ensures
        cancelled ==> (r matches Err(e) && e@ == ErrorView::Cancelled),
        !cancelled && output.success ==> r is Ok,
        !cancelled && !output.success ==> (r matches Err(e) && e@ == (ErrorView::Compile {
            src: obj@.src.path,
            stderr: output.stderr@,
            code: output.code,
        })),
{
    if cancelled {
        Err(BuildError::Cancelled)
    } else if output.success {
        Ok(())
    } else {
        Err(
            BuildError::CompileError {
                src: obj.src.path.clone(),
                stderr: output.stderr,
                code: output.code,
            },
        )
    }
}

/// The executable that the linker writes for `out_exe` on a host whose
/// executables carry the extension `exe_extension` (empty where they carry
/// none): a path without extension gets that of the host.
pub open spec fn executable_path(out_exe: Seq<char>, exe_extension: Seq<char>) -> Seq<char> {
    if exe_extension.len() > 0 && extension(out_exe) is None {
        with_extension(out_exe, exe_extension)
    } else {
        out_exe
    }
}

/// The arguments of the linker: the objects in their order, the output,
/// the linker flags, the libraries, `-s` for a release build, and last the
/// flags passed through by the user.
pub open spec fn link_args(
    objects: Seq<ObjectView>,
    out_exe: Seq<char>,
    config: ConfigView,
    profile: BuildProfile,
    extra_flags: Seq<Seq<char>>,
) -> Seq<Seq<char>> {
    objects.map_values(|o: ObjectView| o.obj_path) + seq!["-o"@, out_exe] + config.ld_flags
        + config.link_libs + (match profile {
        BuildProfile::Release => seq!["-s"@],
        BuildProfile::Debug => Seq::empty(),
    }) + extra_flags
}

/// The error of a link step without objects.
pub open spec fn nothing_to_link() -> ErrorView {
    ErrorView::Link { stderr: "No object files to link"@, code: None }
}

fn push_object_paths(args: &mut Vec<String>, objects: &Vec<ObjectFile>)
    ensures
        texts(final(args)@) == texts(old(args)@) + object_views(objects@).map_values(
            |o: ObjectView| o.obj_path,
        ),
{
    let mut i: usize = 0;
    assert(object_views(objects@.take(0)).map_values(|o: ObjectView| o.obj_path) == Seq::<
        Seq<char>,
    >::empty());
    while i < objects.len()
        invariant
            i <= objects.len(),
            texts(args@) == texts(old(args)@) + object_views(objects@.take(i as int)).map_values(
                |o: ObjectView| o.obj_path,
            ),
        decreases objects.len() - i,
    {
        proof {
            let done = objects@.take(i as int);
            assert(objects@.take(i + 1) == done.push(objects@[i as int]));
            assert(object_views(done.push(objects@[i as int])).map_values(
                |o: ObjectView| o.obj_path,
            ) == object_views(done).map_values(|o: ObjectView| o.obj_path).push(
                objects@[i as int]@.obj_path,
            ));
        }
        push_text(args, objects[i].obj_path.clone());
        i = i + 1;
    }
    assert(objects@.take(objects.len() as int) == objects@);
}

/// The linker and its arguments for `objects`. Without objects there is
/// nothing to link, which is a link error.
pub fn link_command(
    objects: &Vec<ObjectFile>,
    out_exe: &str,
    config: &ProjectConfig,
    profile: &BuildProfile,
    extra_flags: &Vec<String>,
    exe_extension: &str,
) -> (r: Result<(String, Vec<String>), BuildError>)
    ensures
        objects.len() == 0 ==> (r matches Err(e) && e@ == nothing_to_link()),
        objects.len() > 0 ==> (r matches Ok(c) && c.0@ == config@.gpp_path && texts(c.1@)
            == link_args(
            object_views(objects@),
            executable_path(out_exe@, exe_extension@),
            config@,
            *profile,
            texts(extra_flags@),
        )),
{
    if objects.len() == 0 {
        return Err(
            BuildError::LinkError { stderr: "No object files to link".to_owned(), code: None },
        );
    }
    let mut args: Vec<String> = Vec::new();
    assert(texts(args@) == Seq::<Seq<char>>::empty());
    push_object_paths(&mut args, objects);
    assert(texts(args@) == object_views(objects@).map_values(|o: ObjectView| o.obj_path));
    push_str_text(&mut args, "-o");
    let out = to_chars(out_exe);
    let ext = to_chars(exe_extension);
    let exe = if ext.len() > 0 && extension_of(&out).is_none() {
        from_chars(&with_extension_of(&out, &ext))
    } else {
        from_chars(&out)
    };
    assert(exe@ == executable_path(out_exe@, exe_extension@));
    push_text(&mut args, exe);
    assert(texts(args@) == object_views(objects@).map_values(|o: ObjectView| o.obj_path) + seq![
        "-o"@,
        executable_path(out_exe@, exe_extension@),
    ]);
    extend_texts(&mut args, &config.ld_flags);
    extend_texts(&mut args, &config.link_libs);
    let ghost before = texts(args@);
    match profile {
        BuildProfile::Release => {
            push_str_text(&mut args, "-s");
            assert(texts(args@) == before + seq!["-s"@]);
        },
        BuildProfile::Debug => {
            assert(texts(args@) == before + Seq::<Seq<char>>::empty());
        },
    }
    extend_texts(&mut args, extra_flags);
    Ok((config.gpp_path.clone(), args))
}

/// The result of a link step whose linker has ended.
pub fn link_result(output: ProcessOutput) -> (r: Result<(), BuildError>)
    ensures
        output.success ==> r is Ok,
        !output.success ==> (r matches Err(e) && e@ == (ErrorView::Link {
            stderr: output.stderr@,
            code: output.code,
        })),
{
    if output.success {
        Ok(())
    } else {
        Err(BuildError::LinkError { stderr: output.stderr, code: output.code })
    }
}

} // verus!
