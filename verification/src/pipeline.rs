//! The order of a build: find the sources, mirror their paths into the
//! object tree, create the directories, compile, link.
//!
//! A session does none of this itself. After every step it is told what
//! happened, and it answers with what to print and what to do next.

use vstd::prelude::*;
use crate::builder::{
    build_dirs,
    executable_path,
    in_plan_order,
    link_args,
    link_command,
    mirrored,
    nothing_to_link,
    object_views,
    objects_in_plan_order,
    plan_objects,
    prepare_build_dirs,
    source_views,
    ObjectFile,
    ObjectView,
    SourceFile,
    SourceView,
};
use crate::config::{BuildProfile, ConfigView, ProjectConfig};
use crate::error::{debug_quoted, quote_debug, BuildError, ErrorView};
use crate::paths::{extension_of, join, join_of, with_extension_of};
use crate::platform::{reset_cancel, CancelToken};
use crate::text::{append_chars, append_str, decimal, from_chars, push_decimal, texts, to_chars};

verus! {

/// How far a build has come.
#[derive(Debug, Clone, Copy, PartialEq, Eq, Structural)]
pub enum BuildStage {
    /// Nothing has happened yet.
    Start,
    /// The source directory is being looked for.
    Probing,
    /// The sources are being searched.
    Discovering,
    /// The directories are being created.
    Preparing,
    /// The compilers are running.
    Compiling,
    /// The linker is running.
    Linking,
    /// The executable is built.
    Finished,
    /// The build has failed.
    Failed,
}

/// What a session asks for next.
#[derive(Debug)]
pub enum BuildAction {
    /// Find out whether this directory exists.
    Probe { dir: String },
    /// Search this directory for sources.
    Discover { dir: String },
    /// Create these directories, in this order.
    CreateDirs { dirs: Vec<String> },
    /// Compile what is stale among these tasks.
    Compile { objects: Vec<ObjectFile> },
    /// Run this linker command, which writes `exe`.
    Link { program: String, args: Vec<String>, exe: String },
    /// Report success: `exe` is built.
    Finish { exe: String },
    /// Report this error.
    Fail(BuildError),
}

/// The mathematical value of a `BuildAction`.
pub enum ActionView {
    Probe { dir: Seq<char> },
    Discover { dir: Seq<char> },
    CreateDirs { dirs: Seq<Seq<char>> },
    Compile { objects: Seq<ObjectView> },
    Link { program: Seq<char>, args: Seq<Seq<char>>, exe: Seq<char> },
    Finish { exe: Seq<char> },
    Fail(ErrorView),
}

impl View for BuildAction {
    type V = ActionView;

    open spec fn view(&self) -> ActionView {
        match self {
            BuildAction::Probe { dir } => ActionView::Probe { dir: dir@ },
            BuildAction::Discover { dir } => ActionView::Discover { dir: dir@ },
            BuildAction::CreateDirs { dirs } => ActionView::CreateDirs { dirs: texts(dirs@) },
            BuildAction::Compile { objects } => ActionView::Compile {
                objects: object_views(objects@),
            },
            BuildAction::Link { program, args, exe } => ActionView::Link {
                program: program@,
                args: texts(args@),
                exe: exe@,
            },
            BuildAction::Finish { exe } => ActionView::Finish { exe: exe@ },
            BuildAction::Fail(e) => ActionView::Fail(e@),
        }
    }
}

/// The answer of a session: the lines to print, then the thing to do.
#[derive(Debug)]
pub struct BuildStep {
    pub messages: Vec<String>,
    pub action: BuildAction,
}

/// The mathematical value of a `BuildStep`.
pub struct StepView {
    pub messages: Seq<Seq<char>>,
    pub action: ActionView,
}

impl View for BuildStep {
    type V = StepView;

    open spec fn view(&self) -> StepView {
        StepView { messages: texts(self.messages@), action: self.action@ }
    }
}

/// The mathematical value of a session.
pub struct SessionView {
    pub config: ConfigView,
    pub profile: BuildProfile,
    pub extra_flags: Seq<Seq<char>>,
    /// The extension of executables on this host; empty where they have
    /// none.
    pub exe_extension: Seq<char>,
    pub stage: BuildStage,
    /// The tasks of the build, once the sources are found.
    pub objects: Seq<ObjectView>,
    /// The executable, once the linker is started.
    pub exe: Seq<char>,
}

/// The name of a profile.
pub open spec fn profile_name(profile: BuildProfile) -> Seq<char> {
    match profile {
        BuildProfile::Debug => "Debug"@,
        BuildProfile::Release => "Release"@,
    }
}

pub open spec fn building_text(app_name: Seq<char>, profile: BuildProfile) -> Seq<char> {
    "Building "@ + app_name + " ["@ + profile_name(profile) + "]"@
}

pub open spec fn found_text(n: nat) -> Seq<char> {
    "  Found "@ + decimal(n) + " source file(s)"@
}

pub open spec fn compiled_text(n: nat) -> Seq<char> {
    if n == 0 {
        "  All up-to-date - nothing to recompile."@
    } else {
        "  Compiled "@ + decimal(n) + " file(s)"@
    }
}

pub open spec fn linking_text(exe: Seq<char>) -> Seq<char> {
    "  Linking "@ + exe
}

/// The message for a source directory that does not exist, given its
/// quoted path.
pub open spec fn no_source_dir_text_of(quoted_dir: Seq<char>) -> Seq<char> {
    "source_dir "@ + quoted_dir + " does not exist"@
}

pub open spec fn no_source_dir_text(dir: Seq<char>) -> Seq<char> {
    no_source_dir_text_of(debug_quoted(dir))
}

/// The message for a source directory without sources, given its quoted
/// path.
pub open spec fn no_sources_text_of(quoted_dir: Seq<char>) -> Seq<char> {
    "No source files found in "@ + quoted_dir
}

pub open spec fn no_sources_text(dir: Seq<char>) -> Seq<char> {
    no_sources_text_of(debug_quoted(dir))
}

/// The message for a source directory that does not exist, given its
/// quoted path.
pub fn no_source_dir_message(quoted_dir: &str) -> (r: String)
    ensures
        r@ == no_source_dir_text_of(quoted_dir@),
{
    let mut text: Vec<char> = Vec::new();
    append_str(&mut text, "source_dir ");
    append_str(&mut text, quoted_dir);
    append_str(&mut text, " does not exist");
    assert(text@ == no_source_dir_text_of(quoted_dir@));
    from_chars(&text)
}

/// The message for a source directory without sources, given its quoted
/// path.
pub fn no_sources_message(quoted_dir: &str) -> (r: String)
    ensures
        r@ == no_sources_text_of(quoted_dir@),
{
    let mut text: Vec<char> = Vec::new();
    append_str(&mut text, "No source files found in ");
    append_str(&mut text, quoted_dir);
    assert(text@ == no_sources_text_of(quoted_dir@));
    from_chars(&text)
}

pub open spec fn out_of_order_text() -> Seq<char> {
    "Build step out of order"@
}

/// The file name of the executable: the name of the application, with the
/// extension of the host where it has one.
pub open spec fn executable_name(app_name: Seq<char>, exe_extension: Seq<char>) -> Seq<char> {
    if exe_extension.len() > 0 {
        app_name + seq!['.'] + exe_extension
    } else {
        app_name
    }
}

/// The tasks for `sources`, in the same order.
pub open spec fn planned(sources: Seq<SourceView>, temp_dir: Seq<char>) -> Seq<ObjectView> {
    sources.map_values(|s: SourceView| mirrored(s, temp_dir))
}

impl SessionView {
    /// The session at `stage`, otherwise unchanged.
    pub open spec fn at(self, stage: BuildStage) -> SessionView {
        SessionView { stage, ..self }
    }

    /// The answer to anything that comes at the wrong time.
    pub open spec fn refuse(self) -> (SessionView, StepView) {
        (
            self.at(BuildStage::Failed),
            StepView {
                messages: Seq::empty(),
                action: ActionView::Fail(ErrorView::Io(out_of_order_text())),
            },
        )
    }

    /// The build begins: the source directory is looked for.
    pub open spec fn begin(self) -> (SessionView, StepView) {
        if self.stage != BuildStage::Start {
            self.refuse()
        } else {
            (
                self.at(BuildStage::Probing),
                StepView {
                    messages: seq![building_text(self.config.app_name, self.profile)],
                    action: ActionView::Probe { dir: self.config.source_dir },
                },
            )
        }
    }

    /// The source directory was looked for: without it the build fails,
    /// with it the search for sources begins.
    pub open spec fn source_dir_probed(self, exists: bool) -> (SessionView, StepView) {
        if self.stage != BuildStage::Probing {
            self.refuse()
        } else if !exists {
            (
                self.at(BuildStage::Failed),
                StepView {
                    messages: Seq::empty(),
                    action: ActionView::Fail(
                        ErrorView::Io(no_source_dir_text(self.config.source_dir)),
                    ),
                },
            )
        } else {
            (
                self.at(BuildStage::Discovering),
                StepView {
                    messages: Seq::empty(),
                    action: ActionView::Discover { dir: self.config.source_dir },
                },
            )
        }
    }

    /// The sources were found: without any the build fails; otherwise
    /// every source gets its task, and the directories are created.
    pub open spec fn sources_found(self, sources: Seq<SourceView>) -> (SessionView, StepView) {
        if self.stage != BuildStage::Discovering {
            self.refuse()
        } else if sources.len() == 0 {
            (
                self.at(BuildStage::Failed),
                StepView {
                    messages: Seq::empty(),
                    action: ActionView::Fail(ErrorView::Io(no_sources_text(self.config.source_dir))),
                },
            )
        } else {
            let objects = planned(sources, self.config.temp_dir);
            (
                SessionView { stage: BuildStage::Preparing, objects, ..self },
                StepView {
                    messages: seq![found_text(sources.len())],
                    action: ActionView::CreateDirs { dirs: build_dirs(self.config, objects) },
                },
            )
        }
    }

    /// The directories exist: the tasks are compiled.
    pub open spec fn dirs_ready(self) -> (SessionView, StepView) {
        if self.stage != BuildStage::Preparing {
            self.refuse()
        } else {
            (
                self.at(BuildStage::Compiling),
                StepView {
                    messages: Seq::empty(),
                    action: ActionView::Compile { objects: self.objects },
                },
            )
        }
    }

    /// The executable of the build: the application's file below the
    /// output directory.
    pub open spec fn executable(self) -> Seq<char> {
        executable_path(
            join(self.config.output_dir, executable_name(self.config.app_name, self.exe_extension)),
            self.exe_extension,
        )
    }

    /// The objects that are linked when `objects` come back from the
    /// compile step: those of the build's tasks that are among them, in the
    /// order in which the sources were found.
    pub open spec fn linkable(self, objects: Seq<ObjectView>) -> Seq<ObjectView> {
        in_plan_order(self.objects, objects)
    }

    /// The compile step is over, with `count` tasks compiled, and `objects`
    /// have come back from it: those of the build's tasks that are among
    /// them are linked, in the order in which the sources were found. With
    /// none to link the build fails.
    pub open spec fn compiled(self, objects: Seq<ObjectView>, count: nat) -> (SessionView, StepView) {
        if self.stage != BuildStage::Compiling {
            self.refuse()
        } else if self.linkable(objects).len() == 0 {
            (
                self.at(BuildStage::Failed),
                StepView {
                    messages: seq![compiled_text(count), linking_text(self.executable())],
                    action: ActionView::Fail(nothing_to_link()),
                },
            )
        } else {
            (
                SessionView { stage: BuildStage::Linking, exe: self.executable(), ..self },
                StepView {
                    messages: seq![compiled_text(count), linking_text(self.executable())],
                    action: ActionView::Link {
                        program: self.config.gpp_path,
                        args: link_args(
                            self.linkable(objects),
                            self.executable(),
                            self.config,
                            self.profile,
                            self.extra_flags,
                        ),
                        exe: self.executable(),
                    },
                },
            )
        }
    }

    /// The linker has succeeded: the build is finished.
    pub open spec fn linked(self) -> (SessionView, StepView) {
        if self.stage != BuildStage::Linking {
            self.refuse()
        } else {
            (
                self.at(BuildStage::Finished),
                StepView { messages: Seq::empty(), action: ActionView::Finish { exe: self.exe } },
            )
        }
    }

    /// A step has failed: the build fails with the error of the step, as
    /// it is.
    pub open spec fn failed(self, error: ErrorView) -> (SessionView, StepView) {
        (
            self.at(BuildStage::Failed),
            StepView { messages: Seq::empty(), action: ActionView::Fail(error) },
        )
    }
}

/// A build never links before it has compiled, never compiles before the
/// directories exist, and never creates directories before the sources are
/// found: each action is asked for at one stage only.
pub proof fn lemma_steps_in_order(s: SessionView, sources: Seq<SourceView>, objects: Seq<ObjectView>, count: nat)
    ensures
        s.begin().1.action is Probe ==> s.stage == BuildStage::Start,
        s.source_dir_probed(true).1.action is Discover ==> s.stage == BuildStage::Probing,
        s.sources_found(sources).1.action is CreateDirs ==> s.stage == BuildStage::Discovering,
        s.dirs_ready().1.action is Compile ==> s.stage == BuildStage::Preparing,
        s.compiled(objects, count).1.action is Link ==> s.stage == BuildStage::Compiling,
        s.linked().1.action is Finish ==> s.stage == BuildStage::Linking,
{
}

/// A build.
#[derive(Debug)]
pub struct BuildSession {
    config: ProjectConfig,
    profile: BuildProfile,
    extra_flags: Vec<String>,
    exe_extension: String,
    stage: BuildStage,
    objects: Vec<ObjectFile>,
    exe: String,
}

impl View for BuildSession {
    type V = SessionView;

    closed spec fn view(&self) -> SessionView {
        SessionView {
            config: self.config@,
            profile: self.profile,
            extra_flags: texts(self.extra_flags@),
            exe_extension: self.exe_extension@,
            stage: self.stage,
            objects: object_views(self.objects@),
            exe: self.exe@,
        }
    }
}

fn one_message(text: Vec<char>) -> (r: Vec<String>)
    ensures
        texts(r@) == seq![text@],
{
    let mut r: Vec<String> = Vec::new();
    let s = from_chars(&text);
    r.push(s);
    assert(texts(r@) == seq![text@]);
    r
}

fn no_messages() -> (r: Vec<String>)
    ensures
        texts(r@) == Seq::<Seq<char>>::empty(),
{
    let r: Vec<String> = Vec::new();
    assert(texts(r@) == Seq::<Seq<char>>::empty());
    r
}

fn compiled_message(count: usize) -> (r: Vec<char>)
    ensures
        r@ == compiled_text(count as nat),
{
    let mut text: Vec<char> = Vec::new();
    if count == 0 {
        append_str(&mut text, "  All up-to-date - nothing to recompile.");
    } else {
        append_str(&mut text, "  Compiled ");
        push_decimal(&mut text, count as u64);
        append_str(&mut text, " file(s)");
    }
    assert(text@ == compiled_text(count as nat));
    text
}

impl BuildSession {
    /// A build of the project `config`, on a host whose executables carry
    /// the extension `exe_extension` (empty where they carry none).
    pub fn new(
        config: ProjectConfig,
        profile: BuildProfile,
        extra_flags: Vec<String>,
        exe_extension: &str,
    ) -> (r: BuildSession)
        ensures
            r@ == (SessionView {
                config: config@,
                profile,
                extra_flags: texts(extra_flags@),
                exe_extension: exe_extension@,
                stage: BuildStage::Start,
                objects: Seq::empty(),
                exe: Seq::empty(),
            }),
    {
        let r = BuildSession {
            config,
            profile,
            extra_flags,
            exe_extension: exe_extension.to_owned(),
            stage: BuildStage::Start,
            objects: Vec::new(),
            exe: String::new(),
        };
        assert(object_views(r.objects@) == Seq::<ObjectView>::empty());
        r
    }

    /// How far the build has come.
    pub fn stage(&self) -> (r: BuildStage)
        ensures
            r == self@.stage,
    {
        self.stage
    }

    /// The configuration of the build.
    pub fn config(&self) -> (r: &ProjectConfig)
        ensures
            r@ == self@.config,
    {
        &self.config
    }

    fn refuse(&mut self) -> (r: BuildStep)
        ensures
            (final(self)@, r@) == old(self)@.refuse(),
    {
        self.stage = BuildStage::Failed;
        BuildStep {
            messages: no_messages(),
            action: BuildAction::Fail(BuildError::IoError("Build step out of order".to_owned())),
        }
    }

    /// Begins the build. A build that begins clears the cancellation
    /// token, so that an interrupt of an earlier build does not end this
    /// one; a call at the wrong time leaves the token as it is.
    pub fn begin(&mut self, token: &mut CancelToken) -> (r: BuildStep)
        ensures
            (final(self)@, r@) == old(self)@.begin(),
            old(self)@.stage == BuildStage::Start ==> !final(token).is_set(),
            old(self)@.stage != BuildStage::Start ==> *final(token) == *old(token),
    {
        if self.stage != BuildStage::Start {
            return self.refuse();
        }
        reset_cancel(token);
        self.stage = BuildStage::Probing;
        let mut text: Vec<char> = Vec::new();
        append_str(&mut text, "Building ");
        append_str(&mut text, self.config.app_name.as_str());
        append_str(&mut text, " [");
        match self.profile {
            BuildProfile::Debug => {
                append_str(&mut text, "Debug");
            },
            BuildProfile::Release => {
                append_str(&mut text, "Release");
            },
        }
        append_str(&mut text, "]");
        assert(text@ == building_text(self@.config.app_name, self@.profile));
        BuildStep {
            messages: one_message(text),
            action: BuildAction::Probe { dir: self.config.source_dir.clone() },
        }
    }

    /// Tells the build whether the source directory exists.
    pub fn source_dir_probed(&mut self, exists: bool) -> (r: BuildStep)
        ensures
            (final(self)@, r@) == old(self)@.source_dir_probed(exists),
    {
        if self.stage != BuildStage::Probing {
            return self.refuse();
        }
        if !exists {
            self.stage = BuildStage::Failed;
            let quoted = quote_debug(self.config.source_dir.as_str());
            return BuildStep {
                messages: no_messages(),
                action: BuildAction::Fail(
                    BuildError::IoError(no_source_dir_message(quoted.as_str())),
                ),
            };
        }
        self.stage = BuildStage::Discovering;
        BuildStep {
            messages: no_messages(),
            action: BuildAction::Discover { dir: self.config.source_dir.clone() },
        }
    }

    /// Hands the build the sources that were found.
    pub fn sources_found(&mut self, sources: Vec<SourceFile>) -> (r: BuildStep)
        ensures
            (final(self)@, r@) == old(self)@.sources_found(source_views(sources@)),
    {
        if self.stage != BuildStage::Discovering {
            return self.refuse();
        }
        if sources.len() == 0 {
            self.stage = BuildStage::Failed;
            let quoted = quote_debug(self.config.source_dir.as_str());
            return BuildStep {
                messages: no_messages(),
                action: BuildAction::Fail(BuildError::IoError(no_sources_message(quoted.as_str()))),
            };
        }
        let objects = plan_objects(&sources, &self.config);
        assert(object_views(objects@) == planned(source_views(sources@), self@.config.temp_dir));
        let dirs = prepare_build_dirs(&self.config, &objects);
        let mut text: Vec<char> = Vec::new();
        append_str(&mut text, "  Found ");
        push_decimal(&mut text, sources.len() as u64);
        append_str(&mut text, " source file(s)");
        assert(text@ == found_text(sources.len() as nat));
        self.objects = objects;
        self.stage = BuildStage::Preparing;
        BuildStep { messages: one_message(text), action: BuildAction::CreateDirs { dirs } }
    }

    /// Tells the build that the directories exist.
    pub fn dirs_ready(&mut self) -> (r: BuildStep)
        ensures
            (final(self)@, r@) == old(self)@.dirs_ready(),
    {
        if self.stage != BuildStage::Preparing {
            return self.refuse();
        }
        self.stage = BuildStage::Compiling;
        let mut objects: Vec<ObjectFile> = Vec::new();
        let mut i: usize = 0;
        assert(object_views(objects@) == object_views(self.objects@.take(0)));
        while i < self.objects.len()
            invariant
                i <= self.objects.len(),
                object_views(objects@) == object_views(self.objects@.take(i as int)),
            decreases self.objects.len() - i,
        {
            let ghost before = objects@;
            let object = self.objects[i].clone();
            objects.push(object);
            proof {
                let done = self.objects@.take(i as int);
                assert(self.objects@.take(i + 1) == done.push(self.objects@[i as int]));
                assert(object_views(before.push(object)) == object_views(before).push(object@));
                assert(object_views(done.push(self.objects@[i as int])) == object_views(done).push(
                    self.objects@[i as int]@,
                ));
            }
            i = i + 1;
        }
        assert(self.objects@.take(self.objects.len() as int) == self.objects@);
        BuildStep { messages: no_messages(), action: BuildAction::Compile { objects } }
    }

    /// Hands the build the objects to link and the number of tasks that
    /// were compiled.
    pub fn compiled(&mut self, objects: Vec<ObjectFile>, count: usize) -> (r: BuildStep)
        ensures
            (final(self)@, r@) == old(self)@.compiled(object_views(objects@), count as nat),
    {
        if self.stage != BuildStage::Compiling {
            return self.refuse();
        }
        let name = to_chars(self.config.app_name.as_str());
        let ext = to_chars(self.exe_extension.as_str());
        let mut file = name;
        if ext.len() > 0 {
            file.push('.');
            append_chars(&mut file, &ext);
        }
        assert(file@ == executable_name(self@.config.app_name, self@.exe_extension));
        let out_dir = to_chars(self.config.output_dir.as_str());
        let out_exe = from_chars(&join_of(&out_dir, &file));
        let mut messages: Vec<String> = Vec::new();
        let first = from_chars(&compiled_message(count));
        messages.push(first);
        let linkable = objects_in_plan_order(&self.objects, &objects);
        let command = link_command(
            &linkable,
            out_exe.as_str(),
            &self.config,
            &self.profile,
            &self.extra_flags,
            self.exe_extension.as_str(),
        );
        let exe_chars = {
            let out = to_chars(out_exe.as_str());
            if ext.len() > 0 && extension_of(&out).is_none() {
                with_extension_of(&out, &ext)
            } else {
                out
            }
        };
        assert(exe_chars@ == self@.executable());
        let mut text: Vec<char> = Vec::new();
        append_str(&mut text, "  Linking ");
        append_chars(&mut text, &exe_chars);
        assert(text@ == linking_text(self@.executable()));
        let second = from_chars(&text);
        messages.push(second);
        assert(texts(messages@) == seq![
            compiled_text(count as nat),
            linking_text(self@.executable()),
        ]);
        match command {
            Err(e) => {
                self.stage = BuildStage::Failed;
                BuildStep { messages, action: BuildAction::Fail(e) }
            },
            Ok((program, args)) => {
                let exe = from_chars(&exe_chars);
                self.exe = exe.clone();
                self.stage = BuildStage::Linking;
                BuildStep { messages, action: BuildAction::Link { program, args, exe } }
            },
        }
    }

    /// Tells the build that the linker has succeeded.
    pub fn linked(&mut self) -> (r: BuildStep)
        ensures
            (final(self)@, r@) == old(self)@.linked(),
    {
        if self.stage != BuildStage::Linking {
            return self.refuse();
        }
        self.stage = BuildStage::Finished;
        BuildStep { messages: no_messages(), action: BuildAction::Finish { exe: self.exe.clone() } }
    }

    /// Tells the build that a step has failed.
    pub fn failed(&mut self, error: BuildError) -> (r: BuildStep)
        ensures
            (final(self)@, r@) == old(self)@.failed(error@),
    {
        self.stage = BuildStage::Failed;
        BuildStep { messages: no_messages(), action: BuildAction::Fail(error) }
    }
}

} // verus!
