//! The project configuration: its typed form, and the loader for the
//! line-oriented `key = value` file it is written in.

use vstd::prelude::*;
use crate::error::{BuildError, ErrorView};
use crate::text::{
    append_chars,
    append_str,
    ascii_lowercase,
    char_texts,
    chars_are,
    clone_strings,
    decimal,
    find_first,
    find_last_end,
    first_index,
    from_chars,
    last_index,
    lemma_first_index,
    lemma_last_index,
    lowercase_chars,
    parse_decimal,
    parse_unsigned,
    push_decimal,
    slice_chars,
    strings_of,
    texts,
    to_chars,
    trim,
    trim_chars,
};
use crate::tokenizer::{
    fault_text,
    is_wrapped,
    tokenize,
    tokenize_chars,
    wrapped_in_quotes,
    TokenizeFault,
};

verus! {

/// Which kind of binary a build produces.
#[derive(Debug, Clone, Copy, PartialEq, Eq, Structural)]
pub enum BuildProfile {
    /// Debug information, no optimisation.
    Debug,
    /// Optimised, symbols stripped.
    Release,
}

/// The typed configuration of a project. Paths are kept as text, with `/`
/// between their components.
#[derive(Debug)]
pub struct ProjectConfig {
    pub app_name: String,
    pub source_dir: String,
    pub output_dir: String,
    pub temp_dir: String,
    pub c_flags: Vec<String>,
    pub cxx_flags: Vec<String>,
    pub ld_flags: Vec<String>,
    pub include_dirs: Vec<String>,
    pub link_libs: Vec<String>,
    pub c_standard: Option<String>,
    pub cxx_standard: Option<String>,
    pub parallel_jobs: usize,
    pub incremental: bool,
    pub preserve_temp: bool,
    pub use_process_groups: bool,
    pub gcc_path: String,
    pub gpp_path: String,
    pub verbose: bool,
    pub aggregate_errors: bool,
}

/// The mathematical value of a `ProjectConfig`.
pub struct ConfigView {
    pub app_name: Seq<char>,
    pub source_dir: Seq<char>,
    pub output_dir: Seq<char>,
    pub temp_dir: Seq<char>,
    pub c_flags: Seq<Seq<char>>,
    pub cxx_flags: Seq<Seq<char>>,
    pub ld_flags: Seq<Seq<char>>,
    pub include_dirs: Seq<Seq<char>>,
    pub link_libs: Seq<Seq<char>>,
    pub c_standard: Option<Seq<char>>,
    pub cxx_standard: Option<Seq<char>>,
    pub parallel_jobs: usize,
    pub incremental: bool,
    pub preserve_temp: bool,
    pub use_process_groups: bool,
    pub gcc_path: Seq<char>,
    pub gpp_path: Seq<char>,
    pub verbose: bool,
    pub aggregate_errors: bool,
}

/// The text of an optional string.
pub open spec fn opt_text(o: Option<String>) -> Option<Seq<char>> {
    match o {
        Some(s) => Some(s@),
        None => None,
    }
}

impl View for ProjectConfig {
    type V = ConfigView;

    open spec fn view(&self) -> ConfigView {
        ConfigView {
            app_name: self.app_name@,
            source_dir: self.source_dir@,
            output_dir: self.output_dir@,
            temp_dir: self.temp_dir@,
            c_flags: texts(self.c_flags@),
            cxx_flags: texts(self.cxx_flags@),
            ld_flags: texts(self.ld_flags@),
            include_dirs: texts(self.include_dirs@),
            link_libs: texts(self.link_libs@),
            c_standard: opt_text(self.c_standard),
            cxx_standard: opt_text(self.cxx_standard),
            parallel_jobs: self.parallel_jobs,
            incremental: self.incremental,
            preserve_temp: self.preserve_temp,
            use_process_groups: self.use_process_groups,
            gcc_path: self.gcc_path@,
            gpp_path: self.gpp_path@,
            verbose: self.verbose,
            aggregate_errors: self.aggregate_errors,
        }
    }
}

impl Clone for ProjectConfig {
    fn clone(&self) -> (r: ProjectConfig)
        ensures
            r@ == self@,
    {
        ProjectConfig {
            app_name: self.app_name.clone(),
            source_dir: self.source_dir.clone(),
            output_dir: self.output_dir.clone(),
            temp_dir: self.temp_dir.clone(),
            c_flags: clone_strings(&self.c_flags),
            cxx_flags: clone_strings(&self.cxx_flags),
            ld_flags: clone_strings(&self.ld_flags),
            include_dirs: clone_strings(&self.include_dirs),
            link_libs: clone_strings(&self.link_libs),
            c_standard: clone_optional(&self.c_standard),
            cxx_standard: clone_optional(&self.cxx_standard),
            parallel_jobs: self.parallel_jobs,
            incremental: self.incremental,
            preserve_temp: self.preserve_temp,
            use_process_groups: self.use_process_groups,
            gcc_path: self.gcc_path.clone(),
            gpp_path: self.gpp_path.clone(),
            verbose: self.verbose,
            aggregate_errors: self.aggregate_errors,
        }
    }
}

fn clone_optional(o: &Option<String>) -> (r: Option<String>)
    ensures
        opt_text(r) == opt_text(*o),
{
    match o {
        Some(s) => Some(s.clone()),
        None => None,
    }
}

/// The number of workers of a configuration that names none.
pub const DEFAULT_PARALLEL_JOBS: usize = 4;

/// The number of workers that a request for `n` workers gives: a build has
/// at least one worker, so a request for none gives one.
pub open spec fn at_least_one(n: usize) -> usize {
    if n == 0 {
        1
    } else {
        n
    }
}

/// The number of workers that a request for `n` workers gives.
pub fn workers_wanted(n: usize) -> (r: usize)
    ensures
        r == at_least_one(n),
        r >= 1,
{
    if n == 0 {
        1
    } else {
        n
    }
}

/// The configuration of a project that configures nothing, for a machine
/// that runs `parallel_jobs` compilers side by side.
pub open spec fn default_config(parallel_jobs: usize) -> ConfigView {
    ConfigView {
        app_name: "program"@,
        source_dir: "src"@,
        output_dir: "out"@,
        temp_dir: "target"@,
        c_flags: Seq::empty(),
        cxx_flags: Seq::empty(),
        ld_flags: Seq::empty(),
        include_dirs: Seq::empty(),
        link_libs: Seq::empty(),
        c_standard: None,
        cxx_standard: None,
        parallel_jobs: at_least_one(parallel_jobs),
        incremental: true,
        preserve_temp: true,
        use_process_groups: false,
        gcc_path: "gcc"@,
        gpp_path: "g++"@,
        verbose: false,
        aggregate_errors: false,
    }
}

impl ProjectConfig {
    /// The default configuration for a machine that runs `parallel_jobs`
    /// compilers side by side. It has at least one worker.
    pub fn with_parallelism(parallel_jobs: usize) -> (r: ProjectConfig)
        ensures
            r@ == default_config(parallel_jobs),
            r@.parallel_jobs >= 1,
    {
        let r = ProjectConfig {
            app_name: "program".to_owned(),
            source_dir: "src".to_owned(),
            output_dir: "out".to_owned(),
            temp_dir: "target".to_owned(),
            c_flags: Vec::new(),
            cxx_flags: Vec::new(),
            ld_flags: Vec::new(),
            include_dirs: Vec::new(),
            link_libs: Vec::new(),
            c_standard: None,
            cxx_standard: None,
            parallel_jobs: workers_wanted(parallel_jobs),
            incremental: true,
            preserve_temp: true,
            use_process_groups: false,
            gcc_path: "gcc".to_owned(),
            gpp_path: "g++".to_owned(),
            verbose: false,
            aggregate_errors: false,
        };
        assert(r@.c_flags == Seq::<Seq<char>>::empty());
        assert(r@.cxx_flags == Seq::<Seq<char>>::empty());
        assert(r@.ld_flags == Seq::<Seq<char>>::empty());
        assert(r@.include_dirs == Seq::<Seq<char>>::empty());
        assert(r@.link_libs == Seq::<Seq<char>>::empty());
        r
    }
}

impl Default for ProjectConfig {
    /// The default configuration with `DEFAULT_PARALLEL_JOBS` workers.
    fn default() -> (r: ProjectConfig)
        ensures
            r@ == default_config(DEFAULT_PARALLEL_JOBS),
    {
        ProjectConfig::with_parallelism(DEFAULT_PARALLEL_JOBS)
    }
}

// ---------------------------------------------------------------------------
// Values
// ---------------------------------------------------------------------------

/// `what`, reported for line `n`.
pub open spec fn line_text(n: nat, what: Seq<char>) -> Seq<char> {
    "Line "@ + decimal(n) + ": "@ + what
}

/// `v` without the pair of matching quotes around it, if it has one: a
/// quote at the first character that is closed by the last character. Two
/// words that are quoted one by one, as in `"a" "b"`, keep their quotes.
pub open spec fn unquoted(v: Seq<char>) -> Seq<char> {
    if is_wrapped(v) {
        v.subrange(1, v.len() - 1)
    } else {
        v
    }
}

/// The words of the right-hand side of a configuration line: the value is
/// trimmed, loses the quotes around it, and is then tokenized.
pub open spec fn value_tokens(value: Seq<char>) -> Result<Seq<Seq<char>>, TokenizeFault> {
    tokenize(unquoted(trim(value)))
}

/// `s` without an inline comment. Where nothing but white space or a
/// comment that starts with `#` follows the last double quote of `s`, the
/// result ends with that quote.
pub open spec fn strip_comment(s: Seq<char>) -> Seq<char> {
    let quote = last_index(s, '"');
    let after = trim(s.skip(quote + 1));
    if quote >= 0 && (after.len() == 0 || after[0] == '#') {
        s.take(quote + 1)
    } else {
        s
    }
}

/// The truth value that `s` spells, in any letter case.
pub open spec fn bool_value(s: Seq<char>) -> Option<bool> {
    let l = ascii_lowercase(s);
    if l == "true"@ || l == "1"@ || l == "yes"@ {
        Some(true)
    } else if l == "false"@ || l == "0"@ || l == "no"@ {
        Some(false)
    } else {
        None
    }
}

/// The number that `s` spells, if it is one that fits in `usize`.
pub open spec fn usize_value(s: Seq<char>) -> Option<usize> {
    match parse_unsigned(s) {
        Some(n) => if n <= usize::MAX {
            Some(n as usize)
        } else {
            None
        },
        None => None,
    }
}

pub open spec fn bad_bool_text(n: nat, s: Seq<char>) -> Seq<char> {
    line_text(n, "expected bool (true/false), got '"@ + s + "'"@)
}

pub open spec fn bad_integer_text(n: nat, s: Seq<char>) -> Seq<char> {
    line_text(n, "expected integer, got '"@ + s + "'"@)
}

pub open spec fn bad_line_text(n: nat, line: Seq<char>) -> Seq<char> {
    line_text(n, "expected 'key = value', got '"@ + line + "'"@)
}

pub open spec fn bad_value_text(n: nat, f: TokenizeFault) -> Seq<char> {
    line_text(n, "Parse error: "@ + fault_text(f))
}

pub open spec fn unknown_key_text(n: nat, key: Seq<char>) -> Seq<char> {
    line_text(n, "unknown config key '"@ + key + "'"@)
}

/// The parse error `Line n: ` followed by `what`, then `subject` and a
/// closing apostrophe.
fn line_error(line_no: usize, what: &str, subject: &Vec<char>) -> (e: BuildError)
    ensures
        e@ == ErrorView::Parse(line_text(line_no as nat, what@ + subject@ + "'"@)),
{
    let msg = line_message(line_no, what, subject);
    BuildError::ParseError(from_chars(&msg))
}

fn line_message(line_no: usize, what: &str, subject: &Vec<char>) -> (msg: Vec<char>)
    ensures
        msg@ == line_text(line_no as nat, what@ + subject@ + "'"@),
{
    let mut msg: Vec<char> = Vec::new();
    append_str(&mut msg, "Line ");
    push_decimal(&mut msg, line_no as u64);
    append_str(&mut msg, ": ");
    append_str(&mut msg, what);
    append_chars(&mut msg, subject);
    append_str(&mut msg, "'");
    assert(msg@ == line_text(line_no as nat, what@ + subject@ + "'"@));
    msg
}

fn strip_comment_chars(s: &Vec<char>) -> (r: Vec<char>)
    ensures
        r@ == strip_comment(s@),
{
    let end = find_last_end(s, '"');
    proof {
        lemma_last_index(s@, '"');
    }
    if end > 0 {
        let tail = slice_chars(s, end, s.len());
        assert(tail@ == s@.skip(end as int));
        let after = trim_chars(&tail);
        if after.len() == 0 || after[0] == '#' {
            let r = slice_chars(s, 0, end);
            assert(r@ == s@.take(end as int));
            return r;
        }
    }
    let r = slice_chars(s, 0, s.len());
    assert(r@ == s@);
    r
}

fn unquoted_chars(v: &Vec<char>) -> (r: Vec<char>)
    ensures
        r@ == unquoted(v@),
{
    let n = v.len();
    if wrapped_in_quotes(v) {
        slice_chars(v, 1, n - 1)
    } else {
        let r = slice_chars(v, 0, n);
        assert(r@ == v@);
        r
    }
}

fn value_tokens_chars(value: &Vec<char>) -> (r: Result<Vec<Vec<char>>, TokenizeFault>)
    ensures
        match value_tokens(value@) {
            Ok(words) => r matches Ok(v) && char_texts(v@) == words,
            Err(f) => r == Err::<Vec<Vec<char>>, TokenizeFault>(f),
        },
{
    let v = trim_chars(value);
    let inner = unquoted_chars(&v);
    tokenize_chars(&inner)
}

/// Strips an inline comment that follows the closing quote of a value.
pub fn strip_inline_comment(s: &str) -> (r: String)
    ensures
        r@ == strip_comment(s@),
{
    let v = to_chars(s);
    let r = strip_comment_chars(&v);
    from_chars(&r)
}

/// Splits the right-hand side of line `line_no` into words.
pub fn parse_value_str(value_str: &str, line_no: usize) -> (r: Result<Vec<String>, BuildError>)
    ensures
        match value_tokens(value_str@) {
            Ok(words) => r matches Ok(v) && texts(v@) == words,
            Err(f) => r matches Err(e) && e@ == ErrorView::Parse(
                bad_value_text(line_no as nat, f),
            ),
        },
{
    let v = to_chars(value_str);
    match value_tokens_chars(&v) {
        Ok(words) => Ok(strings_of(&words)),
        Err(f) => Err(bad_value_error(line_no, f)),
    }
}

fn bad_value_error(line_no: usize, f: TokenizeFault) -> (e: BuildError)
    ensures
        e@ == ErrorView::Parse(bad_value_text(line_no as nat, f)),
{
    let mut msg: Vec<char> = Vec::new();
    append_str(&mut msg, "Line ");
    push_decimal(&mut msg, line_no as u64);
    append_str(&mut msg, ": ");
    append_str(&mut msg, "Parse error: ");
    match f {
        TokenizeFault::TrailingBackslash => {
            append_str(&mut msg, "Trailing backslash in value");
        },
        TokenizeFault::UnterminatedSingleQuote => {
            append_str(&mut msg, "Unterminated single quote");
        },
        TokenizeFault::UnterminatedDoubleQuote => {
            append_str(&mut msg, "Unterminated double quote");
        },
    }
    assert(msg@ == bad_value_text(line_no as nat, f));
    BuildError::ParseError(from_chars(&msg))
}

fn bool_of_chars(s: &Vec<char>) -> (r: Option<bool>)
    ensures
        r == bool_value(s@),
{
    let l = lowercase_chars(s);
    if chars_are(&l, "true") || chars_are(&l, "1") || chars_are(&l, "yes") {
        Some(true)
    } else if chars_are(&l, "false") || chars_are(&l, "0") || chars_are(&l, "no") {
        Some(false)
    } else {
        None
    }
}

/// Reads a truth value on line `line_no`: `true`, `1`, `yes`, `false`, `0`
/// or `no`, in any letter case.
pub fn parse_bool(s: &str, line_no: usize) -> (r: Result<bool, BuildError>)
    ensures
        match bool_value(s@) {
            Some(b) => r matches Ok(v) && v == b,
            None => r matches Err(e) && e@ == ErrorView::Parse(bad_bool_text(line_no as nat, s@)),
        },
{
    let v = to_chars(s);
    match bool_of_chars(&v) {
        Some(b) => Ok(b),
        None => Err(line_error(line_no, "expected bool (true/false), got '", &v)),
    }
}

/// Reads a decimal number on line `line_no`.
pub fn parse_usize(s: &str, line_no: usize) -> (r: Result<usize, BuildError>)
    ensures
        match usize_value(s@) {
            Some(n) => r matches Ok(v) && v == n,
            None => r matches Err(e) && e@ == ErrorView::Parse(
                bad_integer_text(line_no as nat, s@),
            ),
        },
{
    let v = to_chars(s);
    match parse_decimal(&v) {
        Some(n) => Ok(n),
        None => Err(line_error(line_no, "expected integer, got '", &v)),
    }
}

// ---------------------------------------------------------------------------
// Lines
// ---------------------------------------------------------------------------

/// A configuration being loaded: the values read so far, and a warning for
/// every key that is not known.
pub struct Loading {
    pub config: ConfigView,
    pub warnings: Seq<Seq<char>>,
}

/// A loaded configuration with the warnings met on the way.
#[derive(Debug)]
pub struct LoadedConfig {
    pub config: ProjectConfig,
    pub warnings: Vec<String>,
}

impl View for LoadedConfig {
    type V = Loading;

    open spec fn view(&self) -> Loading {
        Loading { config: self.config@, warnings: texts(self.warnings@) }
    }
}

/// The first word of a value, or the empty text where it has none.
pub open spec fn first_word(words: Seq<Seq<char>>) -> Seq<char> {
    if words.len() > 0 {
        words[0]
    } else {
        Seq::empty()
    }
}

/// A language standard: none where the value is empty.
pub open spec fn standard_of(word: Seq<char>) -> Option<Seq<char>> {
    if word.len() == 0 {
        None
    } else {
        Some(word)
    }
}

/// The effect of the entry `key = words` on line `n`.
pub open spec fn apply_entry(state: Loading, key: Seq<char>, words: Seq<Seq<char>>, n: nat) -> Result<
    Loading,
    ErrorView,
> {
    let c = state.config;
    let first = first_word(words);
    if key == "app_name"@ {
        Ok(Loading { config: ConfigView { app_name: first, ..c }, ..state })
    } else if key == "source_dir"@ {
        Ok(Loading { config: ConfigView { source_dir: first, ..c }, ..state })
    } else if key == "output_dir"@ {
        Ok(Loading { config: ConfigView { output_dir: first, ..c }, ..state })
    } else if key == "temp_dir"@ {
        Ok(Loading { config: ConfigView { temp_dir: first, ..c }, ..state })
    } else if key == "c_flags"@ {
        Ok(Loading { config: ConfigView { c_flags: words, ..c }, ..state })
    } else if key == "cxx_flags"@ {
        Ok(Loading { config: ConfigView { cxx_flags: words, ..c }, ..state })
    } else if key == "ld_flags"@ {
        Ok(Loading { config: ConfigView { ld_flags: words, ..c }, ..state })
    } else if key == "include_dirs"@ {
        Ok(Loading { config: ConfigView { include_dirs: words, ..c }, ..state })
    } else if key == "link_libs"@ {
        Ok(Loading { config: ConfigView { link_libs: words, ..c }, ..state })
    } else if key == "c_standard"@ {
        Ok(Loading { config: ConfigView { c_standard: standard_of(first), ..c }, ..state })
    } else if key == "cxx_standard"@ {
        Ok(Loading { config: ConfigView { cxx_standard: standard_of(first), ..c }, ..state })
    } else if key == "parallel_jobs"@ {
        match usize_value(first) {
            Some(jobs) => Ok(
                Loading { config: ConfigView { parallel_jobs: at_least_one(jobs), ..c }, ..state },
            ),
            None => Err(ErrorView::Parse(bad_integer_text(n, first))),
        }
    } else if key == "incremental"@ {
        match bool_value(first) {
            Some(b) => Ok(Loading { config: ConfigView { incremental: b, ..c }, ..state }),
            None => Err(ErrorView::Parse(bad_bool_text(n, first))),
        }
    } else if key == "preserve_temp"@ {
        match bool_value(first) {
            Some(b) => Ok(Loading { config: ConfigView { preserve_temp: b, ..c }, ..state }),
            None => Err(ErrorView::Parse(bad_bool_text(n, first))),
        }
    } else if key == "use_process_groups"@ {
        match bool_value(first) {
            Some(b) => Ok(Loading { config: ConfigView { use_process_groups: b, ..c }, ..state }),
            None => Err(ErrorView::Parse(bad_bool_text(n, first))),
        }
    } else if key == "gcc_path"@ {
        Ok(Loading { config: ConfigView { gcc_path: first, ..c }, ..state })
    } else if key == "gpp_path"@ {
        Ok(Loading { config: ConfigView { gpp_path: first, ..c }, ..state })
    } else {
        Ok(Loading { warnings: state.warnings.push(unknown_key_text(n, key)), ..state })
    }
}

/// The effect of line `n` of a configuration file.
///
/// The line is trimmed. An empty line and a line that starts with `#` change
/// nothing. Any other line is split at its first `=` into a key and a value,
/// both trimmed; a line without `=` is an error. The value loses its inline
/// comment and is split into words; then the entry takes effect.
pub open spec fn apply_line(state: Loading, line: Seq<char>, n: nat) -> Result<Loading, ErrorView> {
    let t = trim(line);
    if t.len() == 0 || t[0] == '#' {
        Ok(state)
    } else {
        let eq = first_index(t, '=');
        if eq >= t.len() {
            Err(ErrorView::Parse(bad_line_text(n, t)))
        } else {
            let key = trim(t.take(eq));
            let value = strip_comment(trim(t.skip(eq + 1)));
            match value_tokens(value) {
                Err(f) => Err(ErrorView::Parse(bad_value_text(n, f))),
                Ok(words) => apply_entry(state, key, words, n),
            }
        }
    }
}

/// The index where the line that starts at `i` ends: that of the next line
/// feed, or the length of `s`.
pub open spec fn line_end(s: Seq<char>, i: int) -> int {
    i + first_index(s.skip(i), '\n')
}

/// The effect of the lines of `s` from index `i` on, the first of them
/// being line `n`. Lines end at a line feed; the last may end with the text.
/// The first line in error ends the loading.
pub open spec fn load_from(state: Loading, s: Seq<char>, i: int, n: nat) -> Result<Loading, ErrorView>
    decreases s.len() - i,
    via load_from_decreases
{
    if i < 0 || i >= s.len() {
        Ok(state)
    } else {
        match apply_line(state, s.subrange(i, line_end(s, i)), n) {
            Err(e) => Err(e),
            Ok(next) => if line_end(s, i) >= s.len() {
                Ok(next)
            } else {
                load_from(next, s, line_end(s, i) + 1, n + 1)
            },
        }
    }
}

#[via_fn]
proof fn load_from_decreases(state: Loading, s: Seq<char>, i: int, n: nat) {
    if 0 <= i < s.len() {
        lemma_first_index(s.skip(i), '\n');
    }
}

/// The configuration that the text `content` makes of `base`.
pub open spec fn load(base: ConfigView, content: Seq<char>) -> Result<Loading, ErrorView> {
    load_from(Loading { config: base, warnings: Seq::empty() }, content, 0, 1)
}

fn first_or_empty(words: &Vec<Vec<char>>) -> (r: Vec<char>)
    ensures
        r@ == first_word(char_texts(words@)),
{
    if words.len() > 0 {
        let r = slice_chars(&words[0], 0, words[0].len());
        assert(r@ == words@[0]@);
        r
    } else {
        Vec::new()
    }
}

fn standard_from(first: &Vec<char>) -> (r: Option<String>)
    ensures
        opt_text(r) == standard_of(first@),
{
    if first.len() == 0 {
        None
    } else {
        Some(from_chars(first))
    }
}

/// Applies the entry `key = words` of line `line_no` to `loaded`.
fn apply_entry_chars(
    loaded: LoadedConfig,
    key: &Vec<char>,
    words: &Vec<Vec<char>>,
    line_no: usize,
) -> (r: Result<LoadedConfig, BuildError>)
    ensures
        match apply_entry(loaded@, key@, char_texts(words@), line_no as nat) {
            Ok(next) => r matches Ok(l) && l@ == next,
            Err(e) => r matches Err(err) && err@ == e,
        },
{
    let mut loaded = loaded;
    let first = first_or_empty(words);
    if chars_are(key, "app_name") {
        loaded.config.app_name = from_chars(&first);
    } else if chars_are(key, "source_dir") {
        loaded.config.source_dir = from_chars(&first);
    } else if chars_are(key, "output_dir") {
        loaded.config.output_dir = from_chars(&first);
    } else if chars_are(key, "temp_dir") {
        loaded.config.temp_dir = from_chars(&first);
    } else if chars_are(key, "c_flags") {
        loaded.config.c_flags = strings_of(words);
    } else if chars_are(key, "cxx_flags") {
        loaded.config.cxx_flags = strings_of(words);
    } else if chars_are(key, "ld_flags") {
        loaded.config.ld_flags = strings_of(words);
    } else if chars_are(key, "include_dirs") {
        loaded.config.include_dirs = strings_of(words);
    } else if chars_are(key, "link_libs") {
        loaded.config.link_libs = strings_of(words);
    } else if chars_are(key, "c_standard") {
        loaded.config.c_standard = standard_from(&first);
    } else if chars_are(key, "cxx_standard") {
        loaded.config.cxx_standard = standard_from(&first);
    } else if chars_are(key, "parallel_jobs") {
        match parse_decimal(&first) {
            Some(jobs) => {
                loaded.config.parallel_jobs = workers_wanted(jobs);
            },
            None => {
                return Err(line_error(line_no, "expected integer, got '", &first));
            },
        }
    } else if chars_are(key, "incremental") {
        match bool_of_chars(&first) {
            Some(b) => {
                loaded.config.incremental = b;
            },
            None => {
                return Err(line_error(line_no, "expected bool (true/false), got '", &first));
            },
        }
    } else if chars_are(key, "preserve_temp") {
        match bool_of_chars(&first) {
            Some(b) => {
                loaded.config.preserve_temp = b;
            },
            None => {
                return Err(line_error(line_no, "expected bool (true/false), got '", &first));
            },
        }
    } else if chars_are(key, "use_process_groups") {
        match bool_of_chars(&first) {
            Some(b) => {
                loaded.config.use_process_groups = b;
            },
            None => {
                return Err(line_error(line_no, "expected bool (true/false), got '", &first));
            },
        }
    } else if chars_are(key, "gcc_path") {
        loaded.config.gcc_path = from_chars(&first);
    } else if chars_are(key, "gpp_path") {
        loaded.config.gpp_path = from_chars(&first);
    } else {
        let msg = line_message(line_no, "unknown config key '", key);
        let ghost before = loaded.warnings@;
        let warning = from_chars(&msg);
        loaded.warnings.push(warning);
        assert(texts(before.push(warning)) == texts(before).push(warning@));
    }
    Ok(loaded)
}

/// Applies line `line_no` of a configuration file to `loaded`.
fn apply_line_chars(loaded: LoadedConfig, line: &Vec<char>, line_no: usize) -> (r: Result<
    LoadedConfig,
    BuildError,
>)
    ensures
        match apply_line(loaded@, line@, line_no as nat) {
            Ok(next) => r matches Ok(l) && l@ == next,
            Err(e) => r matches Err(err) && err@ == e,
        },
{
    let t = trim_chars(line);
    if t.len() == 0 || t[0] == '#' {
        return Ok(loaded);
    }
    let eq = find_first(&t, '=');
    if eq >= t.len() {
        return Err(line_error(line_no, "expected 'key = value', got '", &t));
    }
    let left = slice_chars(&t, 0, eq);
    assert(left@ == t@.take(eq as int));
    let key = trim_chars(&left);
    let right = slice_chars(&t, eq + 1, t.len());
    assert(right@ == t@.skip(eq + 1));
    let trimmed = trim_chars(&right);
    let value = strip_comment_chars(&trimmed);
    match value_tokens_chars(&value) {
        Err(f) => Err(bad_value_error(line_no, f)),
        Ok(words) => apply_entry_chars(loaded, &key, &words, line_no),
    }
}

/// A configuration with at least one worker keeps at least one worker,
/// whatever is loaded over it: a file that asks for no worker gets one.
pub proof fn lemma_load_keeps_a_worker(state: Loading, s: Seq<char>, i: int, n: nat)
    requires
        state.config.parallel_jobs >= 1,
    ensures
        load_from(state, s, i, n) matches Ok(loaded) ==> loaded.config.parallel_jobs >= 1,
    decreases s.len() - i,
{
    if 0 <= i < s.len() {
        lemma_first_index(s.skip(i), '\n');
        match apply_line(state, s.subrange(i, line_end(s, i)), n) {
            Err(e) => {},
            Ok(next) => {
                if line_end(s, i) < s.len() {
                    lemma_load_keeps_a_worker(next, s, line_end(s, i) + 1, n + 1);
                }
            },
        }
    }
}

/// Loads a configuration from the text of a configuration file.
///
/// `base` holds the value of every key that the text does not set. Lines are
/// numbered from 1. The result is the configuration after the last line,
/// with one warning for every unknown key, or the error of the first line
/// that is malformed. Over a base with at least one worker the result has
/// at least one worker.
pub fn read_config(content: &str, base: ProjectConfig) -> (r: Result<LoadedConfig, BuildError>)
    ensures
        match load(base@, content@) {
            Ok(loaded) => r matches Ok(l) && l@ == loaded,
            Err(e) => r matches Err(err) && err@ == e,
        },
        base@.parallel_jobs >= 1 ==> (r matches Ok(l) ==> l@.config.parallel_jobs >= 1),
{
    proof {
        if base@.parallel_jobs >= 1 {
            lemma_load_keeps_a_worker(
                Loading { config: base@, warnings: Seq::empty() },
                content@,
                0,
                1,
            );
        }
    }
    let s = to_chars(content);
    let n = s.len();
    let mut loaded = LoadedConfig { config: base, warnings: Vec::new() };
    assert(loaded@.warnings == Seq::<Seq<char>>::empty());
    let mut i: usize = 0;
    let mut line_no: usize = 1;
    while i < n
        invariant
            i <= n == s.len(),
            s@ == content@,
            1 <= line_no <= i + 1,
            load(base@, content@) == load_from(loaded@, s@, i as int, line_no as nat),
            base@.parallel_jobs >= 1 ==> (load(base@, content@) matches Ok(l)
                ==> l.config.parallel_jobs >= 1),
        decreases n - i,
    {
        let tail = slice_chars(&s, i, n);
        assert(tail@ == s@.skip(i as int));
        let len = find_first(&tail, '\n');
        proof {
            lemma_first_index(tail@, '\n');
        }
        let line = slice_chars(&s, i, i + len);
        match apply_line_chars(loaded, &line, line_no) {
            Err(e) => {
                return Err(e);
            },
            Ok(next) => {
                loaded = next;
            },
        }
        if i + len >= n {
            return Ok(loaded);
        }
        let next_start = i + len + 1;
        if next_start >= n {
            proof {
                reveal_with_fuel(load_from, 2);
            }
            return Ok(loaded);
        }
        i = next_start;
        line_no = line_no + 1;
    }
    Ok(loaded)
}

} // verus!
