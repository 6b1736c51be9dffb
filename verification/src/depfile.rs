//! The dependency manifest a compiler writes next to an object file:
//! `target: input input \` and so on, continued over several lines, with
//! spaces inside a path escaped by a backslash.

use vstd::prelude::*;
use crate::error::{debug_quoted, quote_debug, BuildError, ErrorView};
use crate::text::{
    append_str,
    char_texts,
    find_first,
    first_index,
    from_chars,
    slice_chars,
    strings_of,
    texts,
    to_chars,
};

verus! {

/// `s` from index `i` on, with every line continuation replaced by one
/// space. A continuation is a backslash followed by a line feed, or by a
/// carriage return and a line feed. Any other backslash stays.
pub open spec fn join_from(s: Seq<char>, i: int) -> Seq<char>
    decreases s.len() - i,
{
    if i < 0 || i >= s.len() {
        Seq::empty()
    } else if s[i] == '\\' && i + 1 < s.len() && s[i + 1] == '\n' {
        seq![' '] + join_from(s, i + 2)
    } else if s[i] == '\\' && i + 2 < s.len() && s[i + 1] == '\r' && s[i + 2] == '\n' {
        seq![' '] + join_from(s, i + 3)
    } else {
        seq![s[i]] + join_from(s, i + 1)
    }
}

/// `s` with every line continuation replaced by one space.
pub open spec fn join_continuations(s: Seq<char>) -> Seq<char> {
    join_from(s, 0)
}

/// The characters that separate the paths of a manifest.
pub open spec fn is_separator(c: char) -> bool {
    c == ' ' || c == '\t' || c == '\n' || c == '\r'
}

/// The path that starts at `i` and the index where it ends: the characters
/// up to the next unescaped separator, where backslash-space stands for a
/// space, two backslashes for one, and any other backslash for itself.
pub open spec fn path_at(s: Seq<char>, i: int) -> (Seq<char>, int)
    decreases s.len() - i,
{
    if i < 0 || i >= s.len() || is_separator(s[i]) {
        (Seq::empty(), i)
    } else if s[i] == '\\' && i + 1 < s.len() && (s[i + 1] == ' ' || s[i + 1] == '\\') {
        (seq![s[i + 1]] + path_at(s, i + 2).0, path_at(s, i + 2).1)
    } else {
        (seq![s[i]] + path_at(s, i + 1).0, path_at(s, i + 1).1)
    }
}

/// A path ends within the input, after its start unless it starts at a
/// separator, and it is not empty then.
pub proof fn lemma_path_at(s: Seq<char>, i: int)
    requires
        0 <= i <= s.len(),
    ensures
        i <= path_at(s, i).1 <= s.len(),
        i < s.len() && !is_separator(s[i]) ==> i < path_at(s, i).1 && path_at(s, i).0.len() > 0,
    decreases s.len() - i,
{
    if i < s.len() && !is_separator(s[i]) {
        if s[i] == '\\' && i + 1 < s.len() && (s[i + 1] == ' ' || s[i + 1] == '\\') {
            lemma_path_at(s, i + 2);
        } else {
            lemma_path_at(s, i + 1);
        }
    }
}

/// The paths of `s` from index `i` on, in order.
pub open spec fn paths_from(s: Seq<char>, i: int) -> Seq<Seq<char>>
    decreases s.len() - i,
    via paths_from_decreases
{
    if i < 0 || i >= s.len() {
        Seq::empty()
    } else if is_separator(s[i]) {
        paths_from(s, i + 1)
    } else {
        seq![path_at(s, i).0] + paths_from(s, path_at(s, i).1)
    }
}

#[via_fn]
proof fn paths_from_decreases(s: Seq<char>, i: int) {
    if 0 <= i < s.len() {
        lemma_path_at(s, i);
    }
}

/// The paths listed in `s`, separated by unescaped white space.
pub open spec fn split_deps(s: Seq<char>) -> Seq<Seq<char>> {
    paths_from(s, 0)
}

/// No path of a manifest is empty.
pub proof fn lemma_paths_nonempty(s: Seq<char>, i: int)
    requires
        0 <= i <= s.len(),
    ensures
        forall|k: int| 0 <= k < paths_from(s, i).len() ==> (#[trigger] paths_from(s, i)[k]).len() > 0,
    decreases s.len() - i,
{
    if i < s.len() {
        if is_separator(s[i]) {
            lemma_paths_nonempty(s, i + 1);
            assert(paths_from(s, i) == paths_from(s, i + 1));
        } else {
            lemma_path_at(s, i);
            let rest = paths_from(s, path_at(s, i).1);
            lemma_paths_nonempty(s, path_at(s, i).1);
            assert(paths_from(s, i) == seq![path_at(s, i).0] + rest);
            assert forall|k: int| 0 <= k < paths_from(s, i).len() implies (#[trigger] paths_from(
                s,
                i,
            )[k]).len() > 0 by {
                if k > 0 {
                    assert(paths_from(s, i)[k] == rest[k - 1]);
                }
            }
        }
    }
}

/// The inputs that a manifest lists: the paths after the first colon, once
/// continuation lines are joined. `None` for a manifest without a colon.
pub open spec fn manifest_inputs(content: Seq<char>) -> Option<Seq<Seq<char>>> {
    let joined = join_continuations(content);
    let colon = first_index(joined, ':');
    if colon < joined.len() {
        Some(split_deps(joined.skip(colon + 1)))
    } else {
        None
    }
}

/// The message for a manifest without a colon, given the quoted name of
/// the manifest.
pub open spec fn no_colon_text_of(quoted_path: Seq<char>) -> Seq<char> {
    "Depfile "@ + quoted_path + " has no ':'"@
}

/// The message for the manifest `dep_path` without a colon.
pub open spec fn no_colon_text(dep_path: Seq<char>) -> Seq<char> {
    no_colon_text_of(debug_quoted(dep_path))
}

/// The message for a manifest without a colon, given the quoted name of
/// the manifest.
pub fn no_colon_message(quoted_path: &str) -> (r: String)
    ensures
        r@ == no_colon_text_of(quoted_path@),
{
    let mut msg: Vec<char> = Vec::new();
    append_str(&mut msg, "Depfile ");
    append_str(&mut msg, quoted_path);
    append_str(&mut msg, " has no ':'");
    assert(msg@ == no_colon_text_of(quoted_path@));
    from_chars(&msg)
}

/// Two readings of one manifest list the same inputs.
pub proof fn lemma_manifest_inputs_deterministic(first: Seq<char>, second: Seq<char>)
    requires
        first == second,
    ensures
        manifest_inputs(first) == manifest_inputs(second),
{
}

/// A copy of `v` with every line continuation replaced by one space.
pub fn join_chars(v: &Vec<char>) -> (r: Vec<char>)
    ensures
        r@ == join_continuations(v@),
{
    let n = v.len();
    let mut r: Vec<char> = Vec::new();
    let mut i: usize = 0;
    assert(r@ + join_from(v@, 0) == join_from(v@, 0));
    while i < n
        invariant
            i <= n == v.len(),
            join_continuations(v@) == r@ + join_from(v@, i as int),
        decreases n - i,
    {
        let ghost before = r@;
        let c = v[i];
        if c == '\\' && i + 1 < n && v[i + 1] == '\n' {
            r.push(' ');
            assert(before + (seq![' '] + join_from(v@, i + 2)) == r@ + join_from(v@, i + 2));
            i = i + 2;
        } else if c == '\\' && n - i > 2 && v[i + 1] == '\r' && v[i + 2] == '\n' {
            r.push(' ');
            assert(before + (seq![' '] + join_from(v@, i + 3)) == r@ + join_from(v@, i + 3));
            i = i + 3;
        } else {
            r.push(c);
            assert(before + (seq![c] + join_from(v@, i + 1)) == r@ + join_from(v@, i + 1));
            i = i + 1;
        }
    }
    assert(r@ + Seq::<char>::empty() == r@);
    r
}

/// Reads the path that starts at `start`.
fn read_path(v: &Vec<char>, start: usize) -> (r: (Vec<char>, usize))
    requires
        start <= v.len(),
    ensures
        r.0@ == path_at(v@, start as int).0,
        r.1 == path_at(v@, start as int).1,
        start <= r.1 <= v.len(),
{
    let n = v.len();
    let mut path: Vec<char> = Vec::new();
    let mut j: usize = start;
    proof {
        lemma_path_at(v@, start as int);
        assert(path@ + path_at(v@, start as int).0 == path_at(v@, start as int).0);
    }
    loop
        invariant
            start <= j <= n == v.len(),
            path_at(v@, start as int).0 == path@ + path_at(v@, j as int).0,
            path_at(v@, start as int).1 == path_at(v@, j as int).1,
            start <= path_at(v@, start as int).1 <= n,
        decreases n - j,
    {
        if j >= n {
            assert(path@ + Seq::<char>::empty() == path@);
            return (path, j);
        }
        let c = v[j];
        let ghost before = path@;
        if c == ' ' || c == '\t' || c == '\n' || c == '\r' {
            assert(path@ + Seq::<char>::empty() == path@);
            return (path, j);
        } else if c == '\\' && j + 1 < n && (v[j + 1] == ' ' || v[j + 1] == '\\') {
            let e = v[j + 1];
            path.push(e);
            assert(before + (seq![e] + path_at(v@, j + 2).0) == path@ + path_at(v@, j + 2).0);
            j = j + 2;
        } else {
            path.push(c);
            assert(before + (seq![c] + path_at(v@, j + 1).0) == path@ + path_at(v@, j + 1).0);
            j = j + 1;
        }
    }
}

/// The paths listed in `v`. None of them is empty.
pub fn split_chars(v: &Vec<char>) -> (r: Vec<Vec<char>>)
    ensures
        char_texts(r@) == split_deps(v@),
        forall|k: int| 0 <= k < r.len() ==> (#[trigger] r[k]).len() > 0,
{
    proof {
        lemma_paths_nonempty(v@, 0);
    }
    let n = v.len();
    let mut paths: Vec<Vec<char>> = Vec::new();
    let mut i: usize = 0;
    assert(char_texts(paths@) + paths_from(v@, 0) == paths_from(v@, 0));
    while i < n
        invariant
            i <= n == v.len(),
            split_deps(v@) == char_texts(paths@) + paths_from(v@, i as int),
        decreases n - i,
    {
        let c = v[i];
        if c == ' ' || c == '\t' || c == '\n' || c == '\r' {
            i = i + 1;
        } else {
            proof {
                lemma_path_at(v@, i as int);
            }
            let (path, end) = read_path(v, i);
            let ghost before = paths@;
            proof {
                assert(char_texts(before.push(path)) == char_texts(before).push(path@));
                assert(char_texts(before) + (seq![path@] + paths_from(v@, end as int))
                    == char_texts(before).push(path@) + paths_from(v@, end as int));
            }
            paths.push(path);
            i = end;
        }
    }
    assert(char_texts(paths@) + Seq::<Seq<char>>::empty() == char_texts(paths@));
    assert forall|k: int| 0 <= k < paths.len() implies (#[trigger] paths[k]).len() > 0 by {
        assert(char_texts(paths@)[k] == paths[k]@);
    }
    paths
}

/// Replaces every line continuation of `content` by one space.
pub fn join_continuation_lines(content: &str) -> (r: String)
    ensures
        r@ == join_continuations(content@),
{
    let v = to_chars(content);
    let joined = join_chars(&v);
    from_chars(&joined)
}

/// The paths listed in `deps_str`, split at unescaped white space. None of
/// them is empty.
pub fn split_depfile_deps(deps_str: &str) -> (r: Vec<String>)
    ensures
        texts(r@) == split_deps(deps_str@),
        forall|k: int| 0 <= k < r.len() ==> (#[trigger] r[k])@.len() > 0,
{
    let v = to_chars(deps_str);
    let paths = split_chars(&v);
    let r = strings_of(&paths);
    assert(texts(r@).len() == r.len() && char_texts(paths@).len() == paths.len());
    assert forall|k: int| 0 <= k < r.len() implies (#[trigger] r[k])@.len() > 0 by {
        assert(texts(r@)[k] == r[k]@);
        assert(char_texts(paths@)[k] == paths[k]@);
    }
    r
}

/// Reads the inputs listed in a dependency manifest.
///
/// `content` is the text of the manifest and `dep_path` the name it is
/// reported under. The result lists every path after the first colon, in
/// the order of the manifest; a manifest without a colon is a parse error.
pub fn parse_depfile(dep_path: &str, content: &str) -> (r: Result<Vec<String>, BuildError>)
    ensures
        match manifest_inputs(content@) {
            Some(inputs) => r matches Ok(v) && texts(v@) == inputs && forall|k: int|
                0 <= k < v.len() ==> (#[trigger] v[k])@.len() > 0,
            None => r matches Err(e) && e@ == ErrorView::Parse(no_colon_text(dep_path@)),
        },
{
    let v = to_chars(content);
    let joined = join_chars(&v);
    let colon = find_first(&joined, ':');
    if colon >= joined.len() {
        let quoted = quote_debug(dep_path);
        return Err(BuildError::ParseError(no_colon_message(quoted.as_str())));
    }
    let rest = slice_chars(&joined, colon + 1, joined.len());
    assert(rest@ == joined@.skip(colon + 1));
    let paths = split_chars(&rest);
    let listed = strings_of(&paths);
    assert(texts(listed@).len() == listed.len() && char_texts(paths@).len() == paths.len());
    assert forall|k: int| 0 <= k < listed.len() implies (#[trigger] listed[k])@.len() > 0 by {
        assert(texts(listed@)[k] == listed[k]@);
        assert(char_texts(paths@)[k] == paths[k]@);
    }
    Ok(listed)
}

} // verus!
