//! Slugs of names and paths, for output file names and anchors.
use vstd::prelude::*;
use crate::errors::NotePathError;
use crate::paths::{extension, extension_of, without_extension, without_extension_of};
use crate::text::{chars_of, push_all, push_str, slice, string_of};

verus! {

/// The slug that `slugify::slugify` makes of a text, with no stop words, `-`
/// as separator and no length limit.
pub uninterp spec fn slug_of(s: Seq<char>) -> Seq<char>;

pub open spec fn is_slug_char(c: char) -> bool {
    ('a' <= c && c <= 'z') || ('0' <= c && c <= '9') || c == '-'
}

/// Relies on `slugify::slugify(s, "", "-", None)`: the result depends on the
/// text alone and holds only ASCII lower-case letters, digits and `-`.
#[verifier::external_body]
pub(crate) fn slugify(s: &str) -> (r: String)
    ensures
        r@ == slug_of(s@),
        forall|i: int| 0 <= i < r@.len() ==> is_slug_char(#[trigger] r@[i]),
{
    slugify::slugify(s, "", "-", None)
}

/// The parts of `p` between slashes.
pub open spec fn split_slash(p: Seq<char>) -> Seq<Seq<char>>
    decreases p.len(),
{
    let k = crate::text::first_index(p, '/');
    match k {
        None => seq![p],
        Some(i) => if 0 <= i < p.len() {
            seq![p.subrange(0, i)] + split_slash(p.subrange(i + 1, p.len() as int))
        } else {
            seq![p]
        },
    }
}

/// Whether a path part names a directory level: not empty, `.` or `..`.
pub open spec fn is_normal(c: Seq<char>) -> bool {
    c.len() > 0 && c != seq!['.'] && c != seq!['.', '.']
}

/// The output path of `p`: each directory level and the file stem slugged, a
/// leading slash kept, and the extension `ext` (or the path's own) put back.
pub open spec fn slug_path(p: Seq<char>, ext: Option<Seq<char>>) -> Seq<char> {
    let base = without_extension(p);
    let start = if base.len() > 0 && base[0] == '/' { seq!['/'] } else { Seq::empty() };
    let body = slug_parts_from(start, split_slash(base));
    let e = match ext {
        Some(e) => Some(e),
        None => extension(p),
    };
    match e {
        Some(x) => if body.len() > 0 && body != seq!['/'] && x.len() > 0 {
            body + seq!['.'] + x
        } else {
            body
        },
        None => body,
    }
}

/// Slugs of the normal parts, joined by `/`, after `start`.
pub open spec fn slug_parts_from(start: Seq<char>, parts: Seq<Seq<char>>) -> Seq<char>
    decreases parts.len(),
{
    if parts.len() == 0 {
        start
    } else {
        let prev = slug_parts_from(start, parts.drop_last());
        let c = parts.last();
        if !is_normal(c) {
            prev
        } else if prev.len() == 0 || prev == seq!['/'] {
            prev + slug_of(c)
        } else {
            prev + seq!['/'] + slug_of(c)
        }
    }
}

/// The parts of `p` between slashes.
pub fn split_at_slash(p: &Vec<char>) -> (r: Vec<Vec<char>>)
    ensures
        r@.len() == split_slash(p@).len(),
        forall|i: int| 0 <= i < r@.len() ==> (#[trigger] r@[i])@ == split_slash(p@)[i],
    decreases p.len(),
{
    match crate::text::find_char(p, '/') {
        None => {
            let mut out: Vec<Vec<char>> = Vec::new();
            out.push(slice(p, 0, p.len()));
            assert(p@.subrange(0, p@.len() as int) =~= p@);
            out
        },
        Some(i) => {
            let head = slice(p, 0, i);
            let tail = slice(p, i + 1, p.len());
            let rest = split_at_slash(&tail);
            let mut out: Vec<Vec<char>> = Vec::new();
            out.push(head);
            let mut k: usize = 0;
            while k < rest.len()
                invariant
                    k <= rest.len(),
                    out@.len() == k + 1,
                    out@[0]@ == p@.subrange(0, i as int),
                    rest@.len() == split_slash(tail@).len(),
                    forall|j: int| 0 <= j < rest@.len() ==> (#[trigger] rest@[j])@ == split_slash(tail@)[j],
                    forall|j: int| 1 <= j <= k ==> (#[trigger] out@[j])@ == split_slash(tail@)[j - 1],
                decreases rest.len() - k,
            {
                out.push(slice(&rest[k], 0, rest[k].len()));
                proof {
                    assert(rest@[k as int]@.subrange(0, rest@[k as int]@.len() as int) =~= rest@[k as int]@);
                }
                k = k + 1;
            }
            out
        },
    }
}

fn is_normal_part(c: &Vec<char>) -> (r: bool)
    ensures
        r == is_normal(c@),
{
    let dot = c.len() == 1 && c[0] == '.';
    let dots = c.len() == 2 && c[0] == '.' && c[1] == '.';
    if dot {
        assert(c@ =~= seq!['.']);
    }
    if dots {
        assert(c@ =~= seq!['.', '.']);
    }
    c.len() > 0 && !dot && !dots
}

/// The output path of `path`, with the extension `extension` if given, else
/// the path's own. The path always has an output path.
pub fn slugify_path(path: &str, extension: Option<&str>) -> (r: Result<String, NotePathError>)
    ensures
        r matches Ok(s) && s@ == slug_path(path@, match extension {
            Some(e) => Some(e@),
            None => None::<Seq<char>>,
        }),
{
    Ok(output_path(path, extension))
}

/// The output path of `path`, with the extension `extension` if given, else
/// the path's own.
pub fn output_path(path: &str, extension: Option<&str>) -> (r: String)
    ensures
        r@ == slug_path(path@, match extension {
            Some(e) => Some(e@),
            None => None::<Seq<char>>,
        }),
{
    let p = chars_of(path);
    let base = without_extension_of(&p);
    let parts = split_at_slash(&base);
    let mut out: Vec<char> = Vec::new();
    if base.len() > 0 && base[0] == '/' {
        out.push('/');
    }
    let ghost start = out@;
    assert(start =~= (if base@.len() > 0 && base@[0] == '/' { seq!['/'] } else { Seq::<char>::empty() }));
    let mut i: usize = 0;
    while i < parts.len()
        invariant
            i <= parts.len(),
            parts@.len() == split_slash(base@).len(),
            forall|j: int| 0 <= j < parts@.len() ==> (#[trigger] parts@[j])@ == split_slash(base@)[j],
            out@ == slug_parts_from(start, split_slash(base@).subrange(0, i as int)),
        decreases parts.len() - i,
    {
        proof {
            let pre = split_slash(base@).subrange(0, i + 1);
            assert(pre.drop_last() =~= split_slash(base@).subrange(0, i as int));
        }
        if is_normal_part(&parts[i]) {
            let c = string_of(&parts[i]);
            let sl = slugify(c.as_str());
            let is_root_only = out.len() == 1 && out[0] == '/';
            if is_root_only {
                assert(out@ =~= seq!['/']);
            }
            if out.len() == 0 || is_root_only {
                push_str(&mut out, sl.as_str());
            } else {
                assert(out@ != seq!['/']);
                out.push('/');
                push_str(&mut out, sl.as_str());
            }
        }
        i = i + 1;
    }
    assert(split_slash(base@).subrange(0, parts@.len() as int) =~= split_slash(base@));
    let e = match extension {
        Some(e) => Some(chars_of(e)),
        None => extension_of(&p),
    };
    match e {
        Some(x) => {
            let root_only = out.len() == 1 && out[0] == '/';
            if root_only {
                assert(out@ =~= seq!['/']);
            }
            if out.len() > 0 && !root_only && x.len() > 0 {
                out.push('.');
                push_all(&mut out, &x);
            }
        },
        None => {},
    }
    string_of(&out)
}

/// The id of a heading: the slug of its text, or none when the slug is empty.
pub fn heading_id(text: &str) -> (r: Option<String>)
    ensures
        slug_of(text@).len() == 0 ==> r is None,
        slug_of(text@).len() > 0 ==> (r matches Some(id) && id@ == slug_of(text@)),
{
    let s = slugify(text);
    if s.unicode_len() == 0 {
        None
    } else {
        Some(s)
    }
}

} // verus!
