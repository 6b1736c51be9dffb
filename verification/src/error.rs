//! The errors a build can end with, and their one-line or multi-line text.

use vstd::prelude::*;
use crate::text::{append_str, decimal, from_chars, push_decimal, push_signed_decimal, signed_decimal};

verus! {

/// What went wrong in a build.
#[derive(Debug)]
pub enum BuildError {
    /// A file system operation or the start of a process failed.
    IoError(String),
    /// A configuration value, a dependency manifest or the command line is
    /// malformed.
    ParseError(String),
    /// The compiler rejected one translation unit.
    CompileError { src: String, stderr: String, code: Option<i32> },
    /// The linker failed.
    LinkError { stderr: String, code: Option<i32> },
    /// The configuration file is missing or unusable.
    ConfigError(String),
    /// The user interrupted the build.
    Cancelled,
    /// Several translation units failed; collected under the aggregate policy.
    MultipleErrors(Vec<BuildError>),
}

/// The mathematical value of a `BuildError`: the same shape over `Seq<char>`.
pub enum ErrorView {
    Io(Seq<char>),
    Parse(Seq<char>),
    Compile { src: Seq<char>, stderr: Seq<char>, code: Option<i32> },
    Link { stderr: Seq<char>, code: Option<i32> },
    Config(Seq<char>),
    Cancelled,
    Multiple(Seq<ErrorView>),
}

/// The views of a sequence of errors, element by element.
pub open spec fn error_views(errors: Seq<BuildError>) -> Seq<ErrorView>
    decreases errors,
{
    if errors.len() == 0 {
        Seq::empty()
    } else {
        error_views(errors.drop_last()).push(errors.last()@)
    }
}

impl View for BuildError {
    type V = ErrorView;

    open spec fn view(&self) -> ErrorView
        decreases self,
    {
        match self {
            BuildError::IoError(m) => ErrorView::Io(m@),
            BuildError::ParseError(m) => ErrorView::Parse(m@),
            BuildError::CompileError { src, stderr, code } => ErrorView::Compile {
                src: src@,
                stderr: stderr@,
                code: *code,
            },
            BuildError::LinkError { stderr, code } => ErrorView::Link {
                stderr: stderr@,
                code: *code,
            },
            BuildError::ConfigError(m) => ErrorView::Config(m@),
            BuildError::Cancelled => ErrorView::Cancelled,
            BuildError::MultipleErrors(errors) => ErrorView::Multiple(error_views(errors@)),
        }
    }
}

/// `error_views` has one entry per error, the view of that error.
pub proof fn lemma_error_views(errors: Seq<BuildError>)
    ensures
        error_views(errors).len() == errors.len(),
        forall|i: int| 0 <= i < errors.len() ==> (#[trigger] error_views(errors)[i]) == errors[i]@,
    decreases errors.len(),
{
    reveal_with_fuel(error_views, 2);
    if errors.len() > 0 {
        lemma_error_views(errors.drop_last());
    }
}

/// What `{:?}` prints for a string: the text between double quotes, with
/// quotes, backslashes and unprintable characters escaped.
pub uninterp spec fn debug_quoted(s: Seq<char>) -> Seq<char>;

/// Formats `s` with `{:?}`, the `Debug` form of `str`.
///
/// Trusted: the result is a function of the characters of `s` alone; the
/// contract gives it the name `debug_quoted` and claims nothing else of it.
#[verifier::external_body]
pub(crate) fn quote_debug(s: &str) -> (r: String)
    ensures
        r@ == debug_quoted(s@),
{
    format!("{:?}", s)
}

/// ` (exit N)` for a known exit code, nothing for an unknown one.
pub open spec fn exit_suffix(code: Option<i32>) -> Seq<char> {
    match code {
        Some(c) => " (exit "@ + signed_decimal(c as int) + ")"@,
        None => Seq::empty(),
    }
}

/// The captured output on a line of its own, nothing where none was captured.
pub open spec fn output_suffix(stderr: Seq<char>) -> Seq<char> {
    if stderr.len() > 0 {
        "\n"@ + stderr
    } else {
        Seq::empty()
    }
}

/// The text of a compile error, given the quoted path of the source.
pub open spec fn compile_error_text_of(
    quoted_src: Seq<char>,
    code: Option<i32>,
    stderr: Seq<char>,
) -> Seq<char> {
    "Compile error in "@ + quoted_src + exit_suffix(code) + output_suffix(stderr)
}

/// The text of an error.
pub open spec fn error_text(e: ErrorView) -> Seq<char>
    decreases e,
{
    match e {
        ErrorView::Io(m) => "IO error: "@ + m,
        ErrorView::Parse(m) => "Parse error: "@ + m,
        ErrorView::Compile { src, stderr, code } => compile_error_text_of(
            debug_quoted(src),
            code,
            stderr,
        ),
        ErrorView::Link { stderr, code } => "Link error"@ + exit_suffix(code) + output_suffix(
            stderr,
        ),
        ErrorView::Config(m) => "Config error: "@ + m,
        ErrorView::Cancelled => "Build cancelled by user"@,
        ErrorView::Multiple(errors) => decimal(errors.len()) + " error(s) occurred:\n"@
            + numbered_texts(errors, errors.len()),
    }
}

/// The numbered list of the first `n` errors, one `  [i] text` line each.
pub open spec fn numbered_texts(errors: Seq<ErrorView>, n: nat) -> Seq<char>
    decreases errors, n,
{
    if n == 0 || n > errors.len() {
        Seq::empty()
    } else {
        numbered_texts(errors, (n - 1) as nat) + "  ["@ + decimal(n) + "] "@ + error_text(
            errors[n - 1],
        ) + "\n"@
    }
}

impl BuildError {
    /// The text shown to the user for this error.
    pub fn to_string(&self) -> (r: String)
        ensures
            r@ == error_text(self@),
    {
        let mut out: Vec<char> = Vec::new();
        self.write_text(&mut out);
        from_chars(&out)
    }

    /// Appends the text of this error to `out`.
    pub fn write_text(&self, out: &mut Vec<char>)
        ensures
            final(out)@ == old(out)@ + error_text(self@),
        decreases self,
    {
        match self {
            BuildError::IoError(m) => {
                append_str(out, "IO error: ");
                append_str(out, m.as_str());
                assert(out@ == old(out)@ + error_text(self@));
            },
            BuildError::ParseError(m) => {
                append_str(out, "Parse error: ");
                append_str(out, m.as_str());
                assert(out@ == old(out)@ + error_text(self@));
            },
            BuildError::CompileError { src, stderr, code } => {
                let quoted = quote_debug(src.as_str());
                let text = compile_error_text(quoted.as_str(), *code, stderr.as_str());
                append_str(out, text.as_str());
            },
            BuildError::LinkError { stderr, code } => {
                append_str(out, "Link error");
                write_exit_suffix(out, *code);
                write_output_suffix(out, stderr.as_str());
                assert(out@ == old(out)@ + error_text(self@));
            },
            BuildError::ConfigError(m) => {
                append_str(out, "Config error: ");
                append_str(out, m.as_str());
                assert(out@ == old(out)@ + error_text(self@));
            },
            BuildError::Cancelled => {
                append_str(out, "Build cancelled by user");
            },
            BuildError::MultipleErrors(errors) => {
                let ghost views = error_views(errors@);
                proof {
                    lemma_error_views(errors@);
                }
                push_decimal(out, errors.len() as u64);
                append_str(out, " error(s) occurred:\n");
                let ghost head = out@;
                let mut i: usize = 0;
                while i < errors.len()
                    invariant
                        i <= errors.len(),
                        views == error_views(errors@),
                        views.len() == errors.len(),
                        forall|j: int| 0 <= j < errors.len() ==> (#[trigger] views[j]) == errors[j]@,
                        out@ == head + numbered_texts(views, i as nat),
                        decreases_to!(self => errors),
                    decreases errors.len() - i,
                {
                    append_str(out, "  [");
                    push_decimal(out, (i + 1) as u64);
                    append_str(out, "] ");
                    assert(decreases_to!(errors => errors[i as int]));
                    errors[i].write_text(out);
                    append_str(out, "\n");
                    i = i + 1;
                    assert(out@ == head + numbered_texts(views, i as nat));
                }
                assert(out@ == old(out)@ + error_text(self@));
            },
        }
    }
}

/// The text of a compile error: the quoted path of the source, the exit
/// code of the compiler where it has one, and what the compiler wrote.
pub fn compile_error_text(quoted_src: &str, code: Option<i32>, stderr: &str) -> (r: String)
    ensures
        r@ == compile_error_text_of(quoted_src@, code, stderr@),
{
    let mut out: Vec<char> = Vec::new();
    append_str(&mut out, "Compile error in ");
    append_str(&mut out, quoted_src);
    write_exit_suffix(&mut out, code);
    write_output_suffix(&mut out, stderr);
    assert(out@ == compile_error_text_of(quoted_src@, code, stderr@));
    from_chars(&out)
}

fn write_exit_suffix(out: &mut Vec<char>, code: Option<i32>)
    ensures
        final(out)@ == old(out)@ + exit_suffix(code),
{
    match code {
        Some(c) => {
            append_str(out, " (exit ");
            push_signed_decimal(out, c);
            append_str(out, ")");
            assert(out@ == old(out)@ + exit_suffix(code));
        },
        None => {
            assert(out@ == old(out)@ + exit_suffix(code));
        },
    }
}

fn write_output_suffix(out: &mut Vec<char>, stderr: &str)
    ensures
        final(out)@ == old(out)@ + output_suffix(stderr@),
{
    if stderr.unicode_len() > 0 {
        append_str(out, "\n");
        append_str(out, stderr);
        assert(out@ == old(out)@ + output_suffix(stderr@));
    } else {
        assert(out@ == old(out)@ + output_suffix(stderr@));
    }
}

} // verus!
