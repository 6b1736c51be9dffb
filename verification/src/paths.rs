//! Paths as text. A path is a sequence of components with `/` between
//! them; a path that starts with `/` is absolute.

use vstd::prelude::*;
use crate::text::{
    append_chars,
    find_last_end,
    from_chars,
    last_index,
    lemma_last_index,
    slice_chars,
    to_chars,
};

verus! {

/// Whether `p` starts at the root of the file system.
pub open spec fn is_absolute(p: Seq<char>) -> bool {
    p.len() > 0 && p[0] == '/'
}

/// The index at which the last component of `p` starts.
pub open spec fn name_start(p: Seq<char>) -> int {
    last_index(p, '/') + 1
}

/// The last component of `p`: what follows its last `/`.
pub open spec fn file_name(p: Seq<char>) -> Seq<char> {
    p.skip(name_start(p))
}

/// Whether `name` names a file or directory: it is neither empty nor `..`.
pub open spec fn is_plain_name(name: Seq<char>) -> bool {
    name.len() > 0 && name != seq!['.', '.']
}

/// The index in `name` of the dot that starts its extension, or the length
/// of `name` where it has no extension. A dot at the very start of a name
/// starts no extension.
pub open spec fn stem_len(name: Seq<char>) -> int {
    if is_plain_name(name) && last_index(name, '.') > 0 {
        last_index(name, '.')
    } else {
        name.len() as int
    }
}

/// The extension of the last component of `p`, without its dot.
pub open spec fn extension(p: Seq<char>) -> Option<Seq<char>> {
    let name = file_name(p);
    if stem_len(name) < name.len() {
        Some(name.skip(stem_len(name) + 1))
    } else {
        None
    }
}

/// `p` up to the end of the stem of its last component.
pub open spec fn without_extension(p: Seq<char>) -> Seq<char> {
    p.take(name_start(p) + stem_len(file_name(p)))
}

/// `p` with the extension of its last component replaced by `ext`. A path
/// whose last component is no plain name is left as it is.
pub open spec fn with_extension(p: Seq<char>, ext: Seq<char>) -> Seq<char> {
    if is_plain_name(file_name(p)) {
        without_extension(p) + seq!['.'] + ext
    } else {
        p
    }
}

/// What is put between `base` and a relative path joined to it.
pub open spec fn join_gap(base: Seq<char>) -> Seq<char> {
    if base.len() > 0 && base.last() != '/' {
        seq!['/']
    } else {
        Seq::empty()
    }
}

/// `rel` below `base`. An absolute `rel` stands for itself.
pub open spec fn join(base: Seq<char>, rel: Seq<char>) -> Seq<char> {
    if is_absolute(rel) {
        rel
    } else {
        base + join_gap(base) + rel
    }
}

/// The directory that holds `p`: `p` up to its last `/`, the root for a
/// component directly below it, and the empty path for a single component.
pub open spec fn parent(p: Seq<char>) -> Seq<char> {
    let slash = last_index(p, '/');
    if slash == 0 {
        seq!['/']
    } else if slash > 0 {
        p.take(slash)
    } else {
        Seq::empty()
    }
}

/// Below one base, different relative paths are different paths.
pub proof fn lemma_join_injective(base: Seq<char>, a: Seq<char>, b: Seq<char>)
    requires
        !is_absolute(a),
        !is_absolute(b),
        join(base, a) == join(base, b),
    ensures
        a == b,
{
    let prefix = base + join_gap(base);
    assert(join(base, a) == prefix + a);
    assert(join(base, b) == prefix + b);
    assert(a == (prefix + a).skip(prefix.len() as int));
    assert(b == (prefix + b).skip(prefix.len() as int));
}

/// The stem of a path is a prefix of it that ends inside its last component.
pub proof fn lemma_without_extension(p: Seq<char>)
    ensures
        0 <= name_start(p) <= name_start(p) + stem_len(file_name(p)) <= p.len(),
        without_extension(p).len() == name_start(p) + stem_len(file_name(p)),
        forall|i: int| 0 <= i < without_extension(p).len() ==> without_extension(p)[i] == p[i],
{
    lemma_last_index(p, '/');
    lemma_last_index(file_name(p), '.');
}

/// Paths with different stems stay different when both get the extension
/// `ext`.
pub proof fn lemma_with_extension_injective(a: Seq<char>, b: Seq<char>, ext: Seq<char>)
    requires
        is_plain_name(file_name(a)),
        is_plain_name(file_name(b)),
        with_extension(a, ext) == with_extension(b, ext),
    ensures
        without_extension(a) == without_extension(b),
{
    let sa = without_extension(a);
    let sb = without_extension(b);
    let tail = seq!['.'] + ext;
    assert(with_extension(a, ext) == sa + tail);
    assert(with_extension(b, ext) == sb + tail);
    assert((sa + tail).len() == sa.len() + tail.len());
    assert((sb + tail).len() == sb.len() + tail.len());
    assert(sa == (sa + tail).take(sa.len() as int));
    assert(sb == (sb + tail).take(sb.len() as int));
}

/// A relative path stays relative when its extension is replaced.
pub proof fn lemma_with_extension_relative(p: Seq<char>, ext: Seq<char>)
    requires
        !is_absolute(p),
    ensures
        !is_absolute(with_extension(p, ext)),
{
    lemma_without_extension(p);
    if is_plain_name(file_name(p)) {
        let stem = without_extension(p);
        let r = with_extension(p, ext);
        assert(r == stem + seq!['.'] + ext);
        if stem.len() > 0 {
            assert(r[0] == stem[0]);
            assert(stem[0] == p[0]);
        } else {
            assert(r[0] == '.');
        }
    }
}

/// The position in `v` at which its last component starts.
pub fn name_start_of(v: &Vec<char>) -> (k: usize)
    ensures
        k == name_start(v@),
        k <= v.len(),
{
    proof {
        lemma_last_index(v@, '/');
    }
    find_last_end(v, '/')
}

/// The length of the stem of the name `name`.
pub fn stem_len_of(name: &Vec<char>) -> (k: usize)
    ensures
        k == stem_len(name@),
        k <= name.len(),
{
    proof {
        lemma_last_index(name@, '.');
    }
    let n = name.len();
    if n == 0 {
        return 0;
    }
    if n == 2 && name[0] == '.' && name[1] == '.' {
        assert(name@ == seq!['.', '.']);
        return n;
    }
    assert(name@ != seq!['.', '.']) by {
        if name@ == seq!['.', '.'] {
            assert(name@.len() == 2);
            assert(name@[0] == '.');
            assert(name@[1] == '.');
        }
    }
    let dot_end = find_last_end(name, '.');
    if dot_end >= 2 {
        dot_end - 1
    } else {
        n
    }
}

/// The extension of `v`, if its last component has one.
pub fn extension_of(v: &Vec<char>) -> (r: Option<Vec<char>>)
    ensures
        match extension(v@) {
            Some(e) => r matches Some(x) && x@ == e,
            None => r is None,
        },
{
    let start = name_start_of(v);
    let name = slice_chars(v, start, v.len());
    assert(name@ == file_name(v@));
    let stem = stem_len_of(&name);
    if stem < name.len() {
        let e = slice_chars(&name, stem + 1, name.len());
        assert(e@ == name@.skip(stem + 1));
        Some(e)
    } else {
        None
    }
}

/// `v` with the extension of its last component replaced by `ext`.
pub fn with_extension_of(v: &Vec<char>, ext: &Vec<char>) -> (r: Vec<char>)
    ensures
        r@ == with_extension(v@, ext@),
{
    let start = name_start_of(v);
    let name = slice_chars(v, start, v.len());
    assert(name@ == file_name(v@));
    let n = name.len();
    let plain = n > 0 && !(n == 2 && name[0] == '.' && name[1] == '.');
    proof {
        if n == 2 && name[0] == '.' && name[1] == '.' {
            assert(name@ == seq!['.', '.']);
        } else if name@ == seq!['.', '.'] {
            assert(name@.len() == 2);
            assert(name@[0] == '.');
            assert(name@[1] == '.');
        }
    }
    if plain {
        let stem = stem_len_of(&name);
        let mut r = slice_chars(v, 0, start + stem);
        assert(r@ == without_extension(v@));
        r.push('.');
        append_chars(&mut r, ext);
        assert(r@ == without_extension(v@) + seq!['.'] + ext@);
        r
    } else {
        let r = slice_chars(v, 0, v.len());
        assert(r@ == v@);
        r
    }
}

/// `rel` below `base`.
pub fn join_of(base: &Vec<char>, rel: &Vec<char>) -> (r: Vec<char>)
    ensures
        r@ == join(base@, rel@),
{
    if rel.len() > 0 && rel[0] == '/' {
        let r = slice_chars(rel, 0, rel.len());
        assert(r@ == rel@);
        return r;
    }
    let mut r = slice_chars(base, 0, base.len());
    assert(r@ == base@);
    if base.len() > 0 && base[base.len() - 1] != '/' {
        r.push('/');
        assert(r@ == base@ + join_gap(base@));
    } else {
        assert(r@ == base@ + join_gap(base@));
    }
    append_chars(&mut r, rel);
    r
}

/// The directory that holds `v`.
pub fn parent_of(v: &Vec<char>) -> (r: Vec<char>)
    ensures
        r@ == parent(v@),
{
    let end = find_last_end(v, '/');
    proof {
        lemma_last_index(v@, '/');
    }
    if end == 1 {
        let mut r: Vec<char> = Vec::new();
        r.push('/');
        assert(r@ == seq!['/']);
        r
    } else if end > 1 {
        let r = slice_chars(v, 0, end - 1);
        assert(r@ == v@.take(end - 1));
        r
    } else {
        Vec::new()
    }
}

/// `rel` below `base`, as strings.
pub fn join_path(base: &str, rel: &str) -> (r: String)
    ensures
        r@ == join(base@, rel@),
{
    let b = to_chars(base);
    let p = to_chars(rel);
    let r = join_of(&b, &p);
    from_chars(&r)
}

/// `path` with its extension replaced by `ext`, as strings.
pub fn replace_extension(path: &str, ext: &str) -> (r: String)
    ensures
        r@ == with_extension(path@, ext@),
{
    let p = to_chars(path);
    let e = to_chars(ext);
    let r = with_extension_of(&p, &e);
    from_chars(&r)
}

/// The directory that holds `path`, as strings.
pub fn parent_dir(path: &str) -> (r: String)
    ensures
        r@ == parent(path@),
{
    let p = to_chars(path);
    let r = parent_of(&p);
    from_chars(&r)
}

} // verus!
