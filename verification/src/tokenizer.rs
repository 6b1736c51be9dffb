//! The tokenizer for configuration values: blank-separated words with
//! shell-like quoting and escapes. Commas and equals signs are ordinary
//! characters, so `-Wl,-rpath,./lib` and `-DNAME=value` are one word each.

use vstd::prelude::*;
use crate::error::{BuildError, ErrorView};
use crate::text::{char_texts, first_index, lemma_first_index, strings_of, texts, to_chars};

verus! {

/// Why a value cannot be tokenized.
#[derive(Debug, Clone, Copy, PartialEq, Eq, Structural)]
pub enum TokenizeFault {
    /// The value ends in a backslash that escapes nothing.
    TrailingBackslash,
    /// A single quote is never closed.
    UnterminatedSingleQuote,
    /// A double quote is never closed.
    UnterminatedDoubleQuote,
}

/// The message of a tokenizer fault.
pub open spec fn fault_text(f: TokenizeFault) -> Seq<char> {
    match f {
        TokenizeFault::TrailingBackslash => "Trailing backslash in value"@,
        TokenizeFault::UnterminatedSingleQuote => "Unterminated single quote"@,
        TokenizeFault::UnterminatedDoubleQuote => "Unterminated double quote"@,
    }
}

/// The characters that separate words: space and tab.
pub open spec fn is_blank(c: char) -> bool {
    c == ' ' || c == '\t'
}

/// A piece of text read from the input, and the index after it.
pub type Scan = Result<(Seq<char>, int), TokenizeFault>;

/// `rest` with `head` put before its text.
pub open spec fn prepend(head: Seq<char>, rest: Scan) -> Scan {
    match rest {
        Ok((text, end)) => Ok((head + text, end)),
        Err(f) => Err(f),
    }
}

/// What a backslash followed by `c` stands for between double quotes.
pub open spec fn escape_value(c: char) -> Seq<char> {
    if c == '"' || c == '\\' || c == ' ' {
        seq![c]
    } else if c == 'n' {
        seq!['\n']
    } else if c == 't' {
        seq!['\t']
    } else {
        seq!['\\', c]
    }
}

/// The text between double quotes, where `i` is the index after the opening
/// quote: everything up to the closing quote, with escapes replaced. The
/// index returned is the one after the closing quote.
pub open spec fn double_quoted(s: Seq<char>, i: int) -> Scan
    decreases s.len() - i,
{
    if i < 0 || i >= s.len() {
        Err(TokenizeFault::UnterminatedDoubleQuote)
    } else if s[i] == '"' {
        Ok((Seq::empty(), i + 1))
    } else if s[i] == '\\' {
        if i + 1 >= s.len() {
            Err(TokenizeFault::UnterminatedDoubleQuote)
        } else {
            prepend(escape_value(s[i + 1]), double_quoted(s, i + 2))
        }
    } else {
        prepend(seq![s[i]], double_quoted(s, i + 1))
    }
}

/// The text between single quotes, where `i` is the index after the opening
/// quote: everything up to the next single quote, taken literally.
pub open spec fn single_quoted(s: Seq<char>, i: int) -> Scan {
    let close = i + first_index(s.skip(i), '\'');
    if 0 <= i <= s.len() && close < s.len() {
        Ok((s.subrange(i, close), close + 1))
    } else {
        Err(TokenizeFault::UnterminatedSingleQuote)
    }
}

/// The word that starts at `i`: the text of its pieces up to the next blank
/// outside quotes or the end of the input, and the index where it ends.
/// A piece is a backslash and the character it escapes, a quoted run, or
/// any other single character.
pub open spec fn word(s: Seq<char>, i: int) -> Scan
    decreases s.len() - i,
    via word_decreases
{
    if i < 0 || i >= s.len() || is_blank(s[i]) {
        Ok((Seq::empty(), i))
    } else if s[i] == '\\' {
        if i + 1 >= s.len() {
            Err(TokenizeFault::TrailingBackslash)
        } else {
            prepend(seq![s[i + 1]], word(s, i + 2))
        }
    } else if s[i] == '\'' {
        match single_quoted(s, i + 1) {
            Ok((text, end)) => prepend(text, word(s, end)),
            Err(f) => Err(f),
        }
    } else if s[i] == '"' {
        match double_quoted(s, i + 1) {
            Ok((text, end)) => prepend(text, word(s, end)),
            Err(f) => Err(f),
        }
    } else {
        prepend(seq![s[i]], word(s, i + 1))
    }
}

#[via_fn]
proof fn word_decreases(s: Seq<char>, i: int) {
    if 0 <= i < s.len() {
        lemma_single_quoted_end(s, i + 1);
        lemma_double_quoted_end(s, i + 1);
    }
}

/// A closed single-quoted run ends after its start and within the input.
pub proof fn lemma_single_quoted_end(s: Seq<char>, i: int)
    ensures
        single_quoted(s, i) matches Ok((text, end)) ==> i < end <= s.len(),
{
    if 0 <= i <= s.len() {
        lemma_first_index(s.skip(i), '\'');
    }
}

/// A closed double-quoted run ends after its start and within the input.
pub proof fn lemma_double_quoted_end(s: Seq<char>, i: int)
    ensures
        double_quoted(s, i) matches Ok((text, end)) ==> i < end <= s.len(),
    decreases s.len() - i,
{
    if 0 <= i < s.len() {
        if s[i] == '\\' {
            if i + 1 < s.len() {
                lemma_double_quoted_end(s, i + 2);
            }
        } else if s[i] != '"' {
            lemma_double_quoted_end(s, i + 1);
        }
    }
}

/// A word ends within the input, and after its start unless it starts at a
/// blank or at the end of the input.
pub proof fn lemma_word_end(s: Seq<char>, i: int)
    requires
        0 <= i <= s.len(),
    ensures
        word(s, i) matches Ok((text, end)) ==> i <= end <= s.len() && (i < s.len() && !is_blank(
            s[i],
        ) ==> i < end) && (end < s.len() ==> is_blank(s[end])),
    decreases s.len() - i,
{
    if i < s.len() && !is_blank(s[i]) {
        if s[i] == '\\' {
            if i + 1 < s.len() {
                lemma_word_end(s, i + 2);
            }
        } else if s[i] == '\'' {
            lemma_single_quoted_end(s, i + 1);
            if let Ok((text, end)) = single_quoted(s, i + 1) {
                lemma_word_end(s, end);
            }
        } else if s[i] == '"' {
            lemma_double_quoted_end(s, i + 1);
            if let Ok((text, end)) = double_quoted(s, i + 1) {
                lemma_word_end(s, end);
            }
        } else {
            lemma_word_end(s, i + 1);
        }
    }
}

/// `rest` with the word `first` put before its words.
pub open spec fn with_first(first: Seq<char>, rest: Result<Seq<Seq<char>>, TokenizeFault>) -> Result<
    Seq<Seq<char>>,
    TokenizeFault,
> {
    match rest {
        Ok(words) => Ok(seq![first] + words),
        Err(f) => Err(f),
    }
}

/// The words of `s` from index `i` on. Blanks between words are skipped.
/// A word made of empty quotes alone is a word without text, and is kept.
/// The first fault met, reading left to right, is the result.
pub open spec fn tokens_from(s: Seq<char>, i: int) -> Result<Seq<Seq<char>>, TokenizeFault>
    decreases s.len() - i,
    via tokens_from_decreases
{
    if i < 0 || i >= s.len() {
        Ok(Seq::empty())
    } else if is_blank(s[i]) {
        tokens_from(s, i + 1)
    } else {
        match word(s, i) {
            Err(f) => Err(f),
            Ok((text, end)) => with_first(text, tokens_from(s, end)),
        }
    }
}

#[via_fn]
proof fn tokens_from_decreases(s: Seq<char>, i: int) {
    if 0 <= i < s.len() {
        lemma_word_end(s, i);
    }
}

/// The words of a configuration value.
pub open spec fn tokenize(s: Seq<char>) -> Result<Seq<Seq<char>>, TokenizeFault> {
    tokens_from(s, 0)
}

proof fn lemma_prepend_twice(a: Seq<char>, b: Seq<char>, rest: Scan)
    ensures
        prepend(a, prepend(b, rest)) == prepend(a + b, rest),
{
    if let Ok((text, end)) = rest {
        assert(a + (b + text) == (a + b) + text);
    }
}

proof fn lemma_with_first(done: Seq<Seq<char>>, first: Seq<char>, rest: Result<
    Seq<Seq<char>>,
    TokenizeFault,
>)
    ensures
        after(done, with_first(first, rest)) == after(done.push(first), rest),
{
    if let Ok(words) = rest {
        assert(done + (seq![first] + words) == done.push(first) + words);
    }
}

/// `rest` with the words `done` put before its words.
pub open spec fn after(done: Seq<Seq<char>>, rest: Result<Seq<Seq<char>>, TokenizeFault>) -> Result<
    Seq<Seq<char>>,
    TokenizeFault,
> {
    match rest {
        Ok(words) => Ok(done + words),
        Err(f) => Err(f),
    }
}

/// Reads a double-quoted run from `start`, the index after the opening quote,
/// and appends its text to `text`.
fn read_double_quoted(s: &Vec<char>, start: usize, text: &mut Vec<char>) -> (r: Result<
    usize,
    TokenizeFault,
>)
    requires
        start <= s.len(),
    ensures
        match double_quoted(s@, start as int) {
            Ok((run, end)) => r == Ok::<usize, TokenizeFault>(end as usize) && start < end
                <= s.len() && final(text)@ == old(text)@ + run,
            Err(f) => r == Err::<usize, TokenizeFault>(f),
        },
{
    let n = s.len();
    let mut j: usize = start;
    let ghost mut run: Seq<char> = Seq::empty();
    proof {
        assert(old(text)@ + run == old(text)@);
        lemma_double_quoted_end(s@, start as int);
    }
    loop
        invariant
            start <= j <= n == s.len(),
            text@ == old(text)@ + run,
            double_quoted(s@, start as int) == prepend(run, double_quoted(s@, j as int)),
            double_quoted(s@, start as int) matches Ok((t, end)) ==> start < end <= s.len(),
        decreases n - j,
    {
        if j >= n {
            return Err(TokenizeFault::UnterminatedDoubleQuote);
        }
        let c = s[j];
        if c == '"' {
            proof {
                assert(run + Seq::<char>::empty() == run);
            }
            return Ok(j + 1);
        } else if c == '\\' {
            if j + 1 >= n {
                return Err(TokenizeFault::UnterminatedDoubleQuote);
            }
            let e = s[j + 1];
            let ghost prev = run;
            proof {
                lemma_prepend_twice(prev, escape_value(e), double_quoted(s@, j + 2));
                run = prev + escape_value(e);
            }
            if e == '"' || e == '\\' || e == ' ' {
                text.push(e);
            } else if e == 'n' {
                text.push('\n');
            } else if e == 't' {
                text.push('\t');
            } else {
                text.push('\\');
                text.push(e);
            }
            assert(text@ == old(text)@ + run);
            j = j + 2;
        } else {
            let ghost prev = run;
            proof {
                lemma_prepend_twice(prev, seq![c], double_quoted(s@, j + 1));
                run = prev + seq![c];
            }
            text.push(c);
            assert(text@ == old(text)@ + run);
            j = j + 1;
        }
    }
}

/// Reads a single-quoted run from `start`, the index after the opening quote,
/// and appends its text to `text`.
fn read_single_quoted(s: &Vec<char>, start: usize, text: &mut Vec<char>) -> (r: Result<
    usize,
    TokenizeFault,
>)
    requires
        start <= s.len(),
    ensures
        match single_quoted(s@, start as int) {
            Ok((run, end)) => r == Ok::<usize, TokenizeFault>(end as usize) && start < end
                <= s.len() && final(text)@ == old(text)@ + run,
            Err(f) => r == Err::<usize, TokenizeFault>(f),
        },
{
    let n = s.len();
    let mut j: usize = start;
    let ghost tail = s@.skip(start as int);
    proof {
        lemma_first_index(tail, '\'');
        assert(old(text)@ + s@.subrange(start as int, start as int) == old(text)@);
    }
    while j < n && s[j] != '\''
        invariant
            start <= j <= n == s.len(),
            tail == s@.skip(start as int),
            text@ == old(text)@ + s@.subrange(start as int, j as int),
            forall|k: int| 0 <= k < j - start ==> tail[k] != '\'',
        decreases n - j,
    {
        text.push(s[j]);
        proof {
            assert(s@.subrange(start as int, j + 1) == s@.subrange(start as int, j as int).push(
                s@[j as int],
            ));
            assert(tail[j - start] == s@[j as int]);
        }
        j = j + 1;
    }
    proof {
        if j < n {
            assert(tail[j - start] == '\'');
        }
        crate::text::lemma_first_index_is(tail, '\'', j - start);
    }
    if j >= n {
        Err(TokenizeFault::UnterminatedSingleQuote)
    } else {
        Ok(j + 1)
    }
}

/// Reads the word that starts at `start`.
fn read_word(s: &Vec<char>, start: usize) -> (r: Result<(Vec<char>, usize), TokenizeFault>)
    requires
        start <= s.len(),
    ensures
        match word(s@, start as int) {
            Ok((text, end)) => r matches Ok((t, e)) && t@ == text && e == end && start <= e
                <= s.len(),
            Err(f) => r == Err::<(Vec<char>, usize), TokenizeFault>(f),
        },
{
    let n = s.len();
    let mut text: Vec<char> = Vec::new();
    let mut j: usize = start;
    proof {
        lemma_word_end(s@, start as int);
        assert(Seq::<char>::empty() + text@ == text@);
        match word(s@, start as int) {
            Ok((t, e)) => {
                assert(Seq::<char>::empty() + t == t);
            },
            Err(f) => {},
        }
    }
    loop
        invariant
            start <= j <= n == s.len(),
            word(s@, start as int) == prepend(text@, word(s@, j as int)),
            word(s@, start as int) matches Ok((t, end)) ==> start <= end <= s.len(),
        decreases n - j,
    {
        if j >= n {
            proof {
                assert(text@ + Seq::<char>::empty() == text@);
            }
            return Ok((text, j));
        }
        let c = s[j];
        if c == ' ' || c == '\t' {
            proof {
                assert(text@ + Seq::<char>::empty() == text@);
            }
            return Ok((text, j));
        } else if c == '\\' {
            if j + 1 >= n {
                return Err(TokenizeFault::TrailingBackslash);
            }
            proof {
                lemma_prepend_twice(text@, seq![s@[j + 1]], word(s@, j + 2));
                assert(text@.push(s@[j + 1]) == text@ + seq![s@[j + 1]]);
            }
            text.push(s[j + 1]);
            j = j + 2;
        } else if c == '\'' {
            let ghost before = text@;
            match read_single_quoted(s, j + 1, &mut text) {
                Ok(end) => {
                    proof {
                        let run = single_quoted(s@, j + 1)->Ok_0.0;
                        lemma_prepend_twice(before, run, word(s@, end as int));
                    }
                    j = end;
                },
                Err(f) => {
                    return Err(f);
                },
            }
        } else if c == '"' {
            let ghost before = text@;
            match read_double_quoted(s, j + 1, &mut text) {
                Ok(end) => {
                    proof {
                        let run = double_quoted(s@, j + 1)->Ok_0.0;
                        lemma_prepend_twice(before, run, word(s@, end as int));
                    }
                    j = end;
                },
                Err(f) => {
                    return Err(f);
                },
            }
        } else {
            proof {
                lemma_prepend_twice(text@, seq![c], word(s@, j + 1));
                assert(text@.push(c) == text@ + seq![c]);
            }
            text.push(c);
            j = j + 1;
        }
    }
}

/// The error that reports a tokenizer fault.
pub fn fault_error(f: TokenizeFault) -> (e: BuildError)
    ensures
        e@ == ErrorView::Parse(fault_text(f)),
{
    match f {
        TokenizeFault::TrailingBackslash => BuildError::ParseError(
            "Trailing backslash in value".to_owned(),
        ),
        TokenizeFault::UnterminatedSingleQuote => BuildError::ParseError(
            "Unterminated single quote".to_owned(),
        ),
        TokenizeFault::UnterminatedDoubleQuote => BuildError::ParseError(
            "Unterminated double quote".to_owned(),
        ),
    }
}

/// The words of `s`, or the first fault in it.
pub fn tokenize_chars(s: &Vec<char>) -> (r: Result<Vec<Vec<char>>, TokenizeFault>)
    ensures
        match tokenize(s@) {
            Ok(words) => r matches Ok(v) && char_texts(v@) == words,
            Err(f) => r == Err::<Vec<Vec<char>>, TokenizeFault>(f),
        },
{
    let n = s.len();
    let mut words: Vec<Vec<char>> = Vec::new();
    let mut i: usize = 0;
    proof {
        match tokens_from(s@, 0) {
            Ok(w) => {
                assert(char_texts(words@) + w == w);
            },
            Err(f) => {},
        }
    }
    while i < n
        invariant
            i <= n == s.len(),
            tokenize(s@) == after(char_texts(words@), tokens_from(s@, i as int)),
        decreases n - i,
    {
        let c = s[i];
        if c == ' ' || c == '\t' {
            i = i + 1;
        } else {
            proof {
                lemma_word_end(s@, i as int);
            }
            match read_word(s, i) {
                Err(f) => {
                    return Err(f);
                },
                Ok((text, end)) => {
                    proof {
                        lemma_with_first(char_texts(words@), text@, tokens_from(s@, end as int));
                        assert(char_texts(words@).push(text@) == char_texts(words@.push(text)));
                    }
                    words.push(text);
                    i = end;
                },
            }
        }
    }
    proof {
        assert(char_texts(words@) + Seq::<Seq<char>>::empty() == char_texts(words@));
    }
    Ok(words)
}

/// Whether one pair of quotes encloses all of `v`: a quote opens at the
/// first character, and the quote that closes it is the last character.
pub open spec fn is_wrapped(v: Seq<char>) -> bool {
    if v.len() >= 2 && v[0] == '"' {
        match double_quoted(v, 1) {
            Ok((text, end)) => end == v.len(),
            Err(f) => false,
        }
    } else if v.len() >= 2 && v[0] == '\'' {
        match single_quoted(v, 1) {
            Ok((text, end)) => end == v.len(),
            Err(f) => false,
        }
    } else {
        false
    }
}

/// Whether one pair of quotes encloses all of `v`.
pub fn wrapped_in_quotes(v: &Vec<char>) -> (r: bool)
    ensures
        r == is_wrapped(v@),
{
    if v.len() < 2 {
        return false;
    }
    let mut inside: Vec<char> = Vec::new();
    if v[0] == '"' {
        match read_double_quoted(v, 1, &mut inside) {
            Ok(end) => end == v.len(),
            Err(_) => false,
        }
    } else if v[0] == '\'' {
        match read_single_quoted(v, 1, &mut inside) {
            Ok(end) => end == v.len(),
            Err(_) => false,
        }
    } else {
        false
    }
}

/// Splits a configuration value into words.
///
/// Blanks (space, tab) outside quotes separate words. Single quotes enclose
/// literal text. Double quotes enclose text in which `\"`, `\\`, `\ `, `\n`
/// and `\t` are escapes and any other backslash is kept. Outside quotes a
/// backslash makes the next character ordinary. An unclosed quote or a
/// backslash at the very end is a parse error.
pub fn shell_tokenize(input: &str) -> (r: Result<Vec<String>, BuildError>)
    ensures
        match tokenize(input@) {
            Ok(words) => r matches Ok(v) && texts(v@) == words,
            Err(f) => r matches Err(e) && e@ == ErrorView::Parse(fault_text(f)),
        },
{
    let s = to_chars(input);
    match tokenize_chars(&s) {
        Ok(words) => Ok(strings_of(&words)),
        Err(f) => Err(fault_error(f)),
    }
}

// ---------------------------------------------------------------------------
// Quoting
// ---------------------------------------------------------------------------

/// `t` with a backslash put before every double quote and backslash.
pub open spec fn escaped(t: Seq<char>) -> Seq<char>
    decreases t.len(),
{
    if t.len() == 0 {
        Seq::empty()
    } else if t[0] == '"' || t[0] == '\\' {
        seq!['\\', t[0]] + escaped(t.drop_first())
    } else {
        seq![t[0]] + escaped(t.drop_first())
    }
}

/// `t` between double quotes, with its double quotes and backslashes escaped.
pub open spec fn quote(t: Seq<char>) -> Seq<char> {
    seq!['"'] + escaped(t) + seq!['"']
}

proof fn lemma_double_quoted_escaped(s: Seq<char>, i: int, t: Seq<char>)
    requires
        0 <= i,
        i + escaped(t).len() + 1 <= s.len(),
        s.subrange(i, i + escaped(t).len() + 1) == escaped(t) + seq!['"'],
    ensures
        double_quoted(s, i) == Ok::<(Seq<char>, int), TokenizeFault>(
            (t, i + escaped(t).len() + 1),
        ),
    decreases t.len(),
{
    let piece = s.subrange(i, i + escaped(t).len() + 1);
    if t.len() == 0 {
        assert(s[i] == piece[0]);
        assert(t == Seq::<char>::empty());
    } else {
        let rest = t.drop_first();
        let m = escaped(rest).len() as int;
        if t[0] == '"' || t[0] == '\\' {
            assert(s[i] == piece[0]);
            assert(s[i + 1] == piece[1]);
            assert(s.subrange(i + 2, i + 2 + m + 1) == escaped(rest) + seq!['"']) by {
                assert forall|k: int| 0 <= k < m + 1 implies s.subrange(i + 2, i + 2 + m + 1)[k] == (
                escaped(rest) + seq!['"'])[k] by {
                    assert(s[i + 2 + k] == piece[k + 2]);
                }
            }
            lemma_double_quoted_escaped(s, i + 2, rest);
            assert(escape_value(t[0]) == seq![t[0]]);
            assert(seq![t[0]] + rest == t);
        } else {
            assert(s[i] == piece[0]);
            assert(s.subrange(i + 1, i + 1 + m + 1) == escaped(rest) + seq!['"']) by {
                assert forall|k: int| 0 <= k < m + 1 implies s.subrange(i + 1, i + 1 + m + 1)[k] == (
                escaped(rest) + seq!['"'])[k] by {
                    assert(s[i + 1 + k] == piece[k + 1]);
                }
            }
            lemma_double_quoted_escaped(s, i + 1, rest);
            assert(seq![t[0]] + rest == t);
        }
    }
}

/// Quoting a word and tokenizing the result gives the word back, as the only
/// word. This holds of every word, the empty one too.
pub proof fn lemma_quote_round_trip(t: Seq<char>)
    ensures
        tokenize(quote(t)) == Ok::<Seq<Seq<char>>, TokenizeFault>(seq![t]),
{
    let q = quote(t);
    let n = escaped(t).len() as int;
    assert(q.len() == n + 2);
    assert(q[0] == '"');
    assert(q.subrange(1, 1 + n + 1) == escaped(t) + seq!['"']);
    lemma_double_quoted_escaped(q, 1, t);
    assert(word(q, n + 2) == Ok::<(Seq<char>, int), TokenizeFault>((Seq::empty(), n + 2)));
    assert(t + Seq::<char>::empty() == t);
    assert(word(q, 0) == Ok::<(Seq<char>, int), TokenizeFault>((t, n + 2)));
    assert(tokens_from(q, n + 2) == Ok::<Seq<Seq<char>>, TokenizeFault>(Seq::empty()));
    assert(seq![t] + Seq::<Seq<char>>::empty() == seq![t]);
}

// ---------------------------------------------------------------------------
// Plain words
// ---------------------------------------------------------------------------

/// The characters that are ordinary everywhere: all but blanks, quotes and
/// the backslash. Commas and equals signs are among them.
pub open spec fn is_plain(c: char) -> bool {
    !is_blank(c) && c != '\\' && c != '\'' && c != '"'
}

proof fn lemma_plain_word(s: Seq<char>, i: int)
    requires
        0 <= i <= s.len(),
        forall|k: int| 0 <= k < s.len() ==> is_plain(#[trigger] s[k]),
    ensures
        word(s, i) == Ok::<(Seq<char>, int), TokenizeFault>((s.skip(i), s.len() as int)),
    decreases s.len() - i,
{
    if i < s.len() {
        lemma_plain_word(s, i + 1);
        assert(is_plain(s[i]));
        assert(seq![s[i]] + s.skip(i + 1) == s.skip(i));
    } else {
        assert(s.skip(i) == Seq::<char>::empty());
    }
}

/// A text made of plain characters alone is one word, itself. So a flag
/// such as `-Wl,-rpath,./lib` or `-DNAME=value` is never split.
pub proof fn lemma_plain_text_is_one_word(s: Seq<char>)
    requires
        s.len() > 0,
        forall|k: int| 0 <= k < s.len() ==> is_plain(#[trigger] s[k]),
    ensures
        tokenize(s) == Ok::<Seq<Seq<char>>, TokenizeFault>(seq![s]),
{
    lemma_plain_word(s, 0);
    assert(is_plain(s[0]));
    assert(s.skip(0) == s);
    assert(tokens_from(s, s.len() as int) == Ok::<Seq<Seq<char>>, TokenizeFault>(Seq::empty()));
    assert(seq![s] + Seq::<Seq<char>>::empty() == seq![s]);
}

} // verus!
