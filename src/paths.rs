//! Vault paths as plain `/`-separated character sequences. No normalisation
//! is made: `a//b` and `a/./b` stand as written.
use vstd::prelude::*;
use crate::text::{chars_of, occurs_at, push_all, push_str, slice, string_of};

verus! {

/// Index of the last `c` in `p` before position `end`, or -1.
pub open spec fn last_index_before(p: Seq<char>, c: char, end: int) -> int
    decreases end,
{
    if end <= 0 {
        -1
    } else if p[end - 1] == c {
        end - 1
    } else {
        last_index_before(p, c, end - 1)
    }
}

pub open spec fn last_index(p: Seq<char>, c: char) -> int {
    last_index_before(p, c, p.len() as int)
}

/// The last component of a path: what follows its last `/`.
pub open spec fn file_name(p: Seq<char>) -> Seq<char> {
    p.subrange(last_index(p, '/') + 1, p.len() as int)
}

/// Position of the dot that starts a file name's extension, if it has one: the
/// last dot, unless it is the first character or the name is `..`.
pub open spec fn ext_dot(name: Seq<char>) -> int {
    let d = last_index(name, '.');
    if d <= 0 || name =~= seq!['.', '.'] {
        -1
    } else {
        d
    }
}

/// The extension of a path's file name, if any.
pub open spec fn extension(p: Seq<char>) -> Option<Seq<char>> {
    let name = file_name(p);
    let d = ext_dot(name);
    if d < 0 {
        None
    } else {
        Some(name.subrange(d + 1, name.len() as int))
    }
}

/// The path with the extension of its file name (and its dot) removed.
pub open spec fn without_extension(p: Seq<char>) -> Seq<char> {
    let name = file_name(p);
    let d = ext_dot(name);
    if d < 0 {
        p
    } else {
        p.subrange(0, p.len() - name.len() + d)
    }
}

/// `b` appended to `a` as a path: an absolute `b` stands alone.
pub open spec fn join(a: Seq<char>, b: Seq<char>) -> Seq<char> {
    if b.len() > 0 && b[0] == '/' {
        b
    } else if a.len() == 0 {
        b
    } else if a.last() == '/' {
        a + b
    } else {
        a + seq!['/'] + b
    }
}

/// The path made absolute by a leading slash.
pub open spec fn with_slash(p: Seq<char>) -> Seq<char> {
    join(seq!['/'], p)
}

/// `p` with the directory `base` taken off its front, if `p` lies under it.
pub open spec fn strip_base(p: Seq<char>, base: Seq<char>) -> Option<Seq<char>> {
    if base.len() == 0 {
        Some(p)
    } else if p == base {
        Some(Seq::empty())
    } else if base.last() == '/' && occurs_at(p, base, 0) {
        Some(p.subrange(base.len() as int, p.len() as int))
    } else if occurs_at(p, base.push('/'), 0) {
        Some(p.subrange(base.len() as int + 1, p.len() as int))
    } else {
        None
    }
}

/// `p` relative to `base` if it lies under it, else `p` itself.
pub open spec fn relative(p: Seq<char>, base: Seq<char>) -> Seq<char> {
    match strip_base(p, base) {
        Some(r) => r,
        None => p,
    }
}

pub fn last_index_of(p: &Vec<char>, c: char) -> (r: Option<usize>)
    ensures
        match r {
            Some(k) => last_index(p@, c) == k && k < p.len(),
            None => last_index(p@, c) == -1,
        },
{
    let mut end: usize = p.len();
    while end > 0
        invariant
            end <= p.len(),
            last_index(p@, c) == last_index_before(p@, c, end as int),
        decreases end,
    {
        if p[end - 1] == c {
            return Some(end - 1);
        }
        end = end - 1;
    }
    None
}

proof fn lemma_last_index_bounds(p: Seq<char>, c: char, end: int)
    requires
        0 <= end <= p.len(),
    ensures
        -1 <= last_index_before(p, c, end) < end,
        last_index_before(p, c, end) >= 0 ==> p[last_index_before(p, c, end)] == c,
        forall|k: int| last_index_before(p, c, end) < k < end ==> p[k] != c,
    decreases end,
{
    if end > 0 && p[end - 1] != c {
        lemma_last_index_bounds(p, c, end - 1);
    }
}

/// The last component of `p`.
pub fn file_name_of(p: &Vec<char>) -> (r: Vec<char>)
    ensures
        r@ == file_name(p@),
{
    proof { lemma_last_index_bounds(p@, '/', p@.len() as int); }
    match last_index_of(p, '/') {
        Some(k) => slice(p, k + 1, p.len()),
        None => slice(p, 0, p.len()),
    }
}

fn ext_dot_of(name: &Vec<char>) -> (r: Option<usize>)
    ensures
        match r {
            Some(d) => ext_dot(name@) == d && 0 < d < name.len(),
            None => ext_dot(name@) == -1,
        },
{
    proof { lemma_last_index_bounds(name@, '.', name@.len() as int); }
    match last_index_of(name, '.') {
        None => None,
        Some(d) => {
            if d == 0 {
                return None;
            }
            if name.len() == 2 && name[0] == '.' && name[1] == '.' {
                assert(name@ =~= seq!['.', '.']);
                return None;
            }
            assert(!(name@ =~= seq!['.', '.']));
            Some(d)
        },
    }
}

/// The extension of `p`'s file name.
pub fn extension_of(p: &Vec<char>) -> (r: Option<Vec<char>>)
    ensures
        match r {
            Some(e) => extension(p@) == Some(e@),
            None => extension(p@) is None,
        },
{
    let name = file_name_of(p);
    match ext_dot_of(&name) {
        None => None,
        Some(d) => Some(slice(&name, d + 1, name.len())),
    }
}

/// `p` without the extension of its file name.
pub fn without_extension_of(p: &Vec<char>) -> (r: Vec<char>)
    ensures
        r@ == without_extension(p@),
{
    proof { lemma_last_index_bounds(p@, '/', p@.len() as int); }
    let name = file_name_of(p);
    match ext_dot_of(&name) {
        None => slice(p, 0, p.len()),
        Some(d) => slice(p, 0, p.len() - name.len() + d),
    }
}

/// `b` appended to `a` as a path.
pub fn join_paths(a: &Vec<char>, b: &Vec<char>) -> (r: Vec<char>)
    ensures
        r@ == join(a@, b@),
{
    let mut out: Vec<char> = Vec::new();
    if b.len() > 0 && b[0] == '/' {
        push_all(&mut out, b);
    } else if a.len() == 0 {
        push_all(&mut out, b);
    } else if a[a.len() - 1] == '/' {
        push_all(&mut out, a);
        push_all(&mut out, b);
    } else {
        push_all(&mut out, a);
        out.push('/');
        push_all(&mut out, b);
    }
    assert(out@ =~= join(a@, b@));
    out
}

/// The path made absolute by a leading slash.
pub fn slash_prefixed(p: &Vec<char>) -> (r: Vec<char>)
    ensures
        r@ == with_slash(p@),
{
    let slash = vec!['/'];
    assert(slash@ =~= seq!['/']);
    join_paths(&slash, p)
}

/// `p` with `base` taken off its front, if `p` lies under `base`.
pub fn strip_base_of(p: &Vec<char>, base: &Vec<char>) -> (r: Option<Vec<char>>)
    ensures
        match r {
            Some(x) => strip_base(p@, base@) == Some(x@),
            None => strip_base(p@, base@) is None,
        },
{
    if base.len() == 0 {
        return Some(slice(p, 0, p.len()));
    }
    if crate::text::same(p, base) {
        return Some(Vec::new());
    }
    if base[base.len() - 1] == '/' && crate::text::matches_at(p, base, 0) {
        return Some(slice(p, base.len(), p.len()));
    }
    let mut b2 = slice(base, 0, base.len());
    b2.push('/');
    assert(b2@ =~= base@.push('/'));
    if crate::text::matches_at(p, &b2, 0) {
        assert(b2@.len() == base@.len() + 1);
        assert(occurs_at(p@, b2@, 0));
        assert(base.len() + 1 <= p.len());
        return Some(slice(p, base.len() + 1, p.len()));
    }
    None
}

/// `p` relative to `base` if it lies under it, else `p`; the flag tells which.
pub fn relative_with_info(p: &Vec<char>, base: &Vec<char>) -> (r: (Vec<char>, bool))
    ensures
        r.0@ == relative(p@, base@),
        r.1 == strip_base(p@, base@) is Some,
{
    match strip_base_of(p, base) {
        Some(x) => (x, true),
        None => (slice(p, 0, p.len()), false),
    }
}

/// Express `path` relative to `base`; a path outside `base` is returned as it is.
pub fn relative_to(path: &str, base: &str) -> (r: String)
    ensures
        r@ == relative(path@, base@),
{
    let p = chars_of(path);
    let b = chars_of(base);
    let (x, _) = relative_with_info(&p, &b);
    string_of(&x)
}

/// Express `path` relative to `base`, and tell whether it lay under `base`.
pub fn relative_to_with_info(path: &str, base: &str) -> (r: (String, bool))
    ensures
        r.0@ == relative(path@, base@),
        r.1 == strip_base(path@, base@) is Some,
{
    let p = chars_of(path);
    let b = chars_of(base);
    let (x, has) = relative_with_info(&p, &b);
    (string_of(&x), has)
}

/// Prepend a slash to a path, making it absolute.
pub fn prepend_slash(path: &str) -> (r: String)
    ensures
        r@ == with_slash(path@),
{
    let p = chars_of(path);
    string_of(&slash_prefixed(&p))
}

/// A path that relates to `new_ref` as `path` relates to `original`; fails
/// when `path` does not lie under `original`.
pub fn move_to(path: &str, original: &str, new_ref: &str) -> (r: Result<String, crate::errors::PathInputToOutputError>)
    ensures
        match strip_base(path@, original@) {
            Some(rest) => r matches Ok(s) && s@ == join(new_ref@, rest),
            None => r matches Err(crate::errors::PathInputToOutputError::StripPrefixError),
        },
{
    let p = chars_of(path);
    let o = chars_of(original);
    match strip_base_of(&p, &o) {
        Some(rest) => {
            let n = chars_of(new_ref);
            Ok(string_of(&join_paths(&n, &rest)))
        },
        None => Err(crate::errors::PathInputToOutputError::StripPrefixError),
    }
}

} // verus!
