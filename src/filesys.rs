//! The vault as a list of files, and the resolution of link targets against it.
use vstd::prelude::*;
use crate::paths::{file_name, file_name_of, join, join_paths, strip_base, strip_base_of, with_slash, slash_prefixed, extension, extension_of};
use crate::text::{chars_of, slice, string_of, same};

verus! {

/// The files of a vault: their paths relative to the vault root, without a
/// leading slash, in the order a directory walk meets them.
pub struct VaultIndex {
    pub files: Vec<String>,
}

impl VaultIndex {
    pub open spec fn view(&self) -> Seq<Seq<char>> {
        Seq::new(self.files@.len(), |i: int| self.files@[i]@)
    }

    /// Every path is relative.
    pub open spec fn wf(&self) -> bool {
        forall|i: int| 0 <= i < self@.len() ==> !(self@[i].len() > 0 && #[trigger] self@[i][0] == '/')
    }

    /// The index of the given files, each made relative by dropping its
    /// leading slashes.
    pub fn new(files: Vec<String>) -> (r: VaultIndex)
        ensures
            r.wf(),
            r@.len() == files@.len(),
            forall|i: int| 0 <= i < files@.len() ==> #[trigger] r@[i] == without_leading_slashes(files@[i]@),
    {
        let mut out: Vec<String> = Vec::new();
        let mut i: usize = 0;
        while i < files.len()
            invariant
                i <= files.len(),
                out@.len() == i,
                forall|j: int| 0 <= j < i ==> (#[trigger] out@[j])@ == without_leading_slashes(files@[j]@),
                forall|j: int| 0 <= j < i ==> !(out@[j]@.len() > 0 && #[trigger] out@[j]@[0] == '/'),
            decreases files.len() - i,
        {
            let v = chars_of(files[i].as_str());
            assert(v@.subrange(0, v@.len() as int) =~= v@);
            let mut k: usize = 0;
            while k < v.len() && v[k] == '/'
                invariant
                    k <= v.len(),
                    without_leading_slashes(v@.subrange(k as int, v@.len() as int)) == without_leading_slashes(v@),
                decreases v.len() - k,
            {
                proof {
                    let r = v@.subrange(k as int, v@.len() as int);
                    assert(r.drop_first() =~= v@.subrange(k + 1, v@.len() as int));
                }
                k = k + 1;
            }
            let rest = slice(&v, k, v.len());
            out.push(string_of(&rest));
            i = i + 1;
        }
        let r = VaultIndex { files: out };
        assert forall|j: int| 0 <= j < r@.len() implies !(r@[j].len() > 0 && #[trigger] r@[j][0] == '/') by {
            assert(r@[j] == out@[j]@);
        }
        r
    }

    /// Whether the vault holds a file at the given relative path.
    pub fn contains(&self, path: &Vec<char>) -> (r: bool)
        ensures
            r == self@.contains(path@),
    {
        let mut i: usize = 0;
        while i < self.files.len()
            invariant
                i <= self.files.len(),
                forall|j: int| 0 <= j < i ==> self@[j] != path@,
            decreases self.files.len() - i,
        {
            let f = chars_of(self.files[i].as_str());
            if same(&f, path) {
                assert(self@[i as int] == path@);
                return true;
            }
            i = i + 1;
        }
        false
    }
}

/// `p` without its leading slashes.
pub open spec fn without_leading_slashes(p: Seq<char>) -> Seq<char>
    decreases p.len(),
{
    if p.len() > 0 && p[0] == '/' { without_leading_slashes(p.drop_first()) } else { p }
}

/// The outcome of resolving a link target.
#[derive(Debug, PartialEq, Eq)]
pub enum ResolvedPath {
    /// The target cannot be found.
    Broken,
    /// The target is right as it stands.
    Unchanged,
    /// The target is found under this absolute path.
    Updated(String),
}

impl ResolvedPath {
    /// `None` for a broken target, `Some(None)` for one left as it is, and
    /// `Some(Some(p))` for one rewritten to `p`.
    pub open spec fn view(&self) -> Option<Option<Seq<char>>> {
        match self {
            ResolvedPath::Broken => None,
            ResolvedPath::Unchanged => Some(None),
            ResolvedPath::Updated(p) => Some(Some(p@)),
        }
    }
}

/// Whether `p` lies under one of the ignored directories.
pub open spec fn is_ignored(p: Seq<char>, ignore: Seq<Seq<char>>) -> bool {
    exists|k: int| 0 <= k < ignore.len() && strip_base(p, #[trigger] ignore[k]) is Some
}

/// The first file of `files`, from index `i` on, that is not ignored and has
/// the file name `name`.
pub open spec fn search_from(files: Seq<Seq<char>>, name: Seq<char>, ignore: Seq<Seq<char>>, i: int) -> Option<Seq<char>>
    decreases files.len() - i,
{
    if i < 0 || i >= files.len() {
        None
    } else if file_name(files[i]) == name && !is_ignored(files[i], ignore) {
        Some(files[i])
    } else {
        search_from(files, name, ignore, i + 1)
    }
}

/// Whether a path names a file at the vault's top level of the reference,
/// without any directory part.
pub open spec fn is_bare(p: Seq<char>) -> bool {
    forall|i: int| 0 <= i < p.len() ==> p[i] != '/'
}

/// Resolution of the reference `r`, written in a note whose directory is `dir`
/// (relative to the vault root), against the vault's files.
pub open spec fn resolve(r: Seq<char>, dir: Seq<char>, files: Seq<Seq<char>>, search: bool, ignore: Seq<Seq<char>>) -> Option<Option<Seq<char>>> {
    if r.len() == 0 {
        Some(None)
    } else if r[0] == '/' {
        if files.contains(r.subrange(1, r.len() as int)) {
            Some(None)
        } else {
            None
        }
    } else if files.contains(join(dir, r)) {
        Some(None)
    } else if files.contains(r) {
        Some(Some(with_slash(r)))
    } else if search && is_bare(r) && search_from(files, r, ignore, 0) is Some {
        Some(Some(with_slash(search_from(files, r, ignore, 0).unwrap())))
    } else {
        None
    }
}

/// Whether `p` lies under one of the ignored directories.
pub fn ignored(p: &Vec<char>, ignore: &Vec<String>) -> (r: bool)
    ensures
        r == is_ignored(p@, Seq::new(ignore@.len(), |k: int| ignore@[k]@)),
{
    let ghost iv = Seq::new(ignore@.len(), |k: int| ignore@[k]@);
    let mut k: usize = 0;
    while k < ignore.len()
        invariant
            k <= ignore.len(),
            iv == Seq::new(ignore@.len(), |k: int| ignore@[k]@),
            forall|j: int| 0 <= j < k ==> strip_base(p@, #[trigger] iv[j]) is None,
        decreases ignore.len() - k,
    {
        let d = chars_of(ignore[k].as_str());
        if strip_base_of(p, &d).is_some() {
            assert(strip_base(p@, iv[k as int]) is Some);
            return true;
        }
        k = k + 1;
    }
    false
}

/// The first file of the vault, not ignored, whose file name is `name`.
pub fn find_recursive(vault: &VaultIndex, name: &Vec<char>, ignore: &Vec<String>) -> (r: Option<Vec<char>>)
    ensures
        match r {
            Some(f) => search_from(vault@, name@, Seq::new(ignore@.len(), |k: int| ignore@[k]@), 0) == Some(f@),
            None => search_from(vault@, name@, Seq::new(ignore@.len(), |k: int| ignore@[k]@), 0) is None,
        },
{
    let ghost iv = Seq::new(ignore@.len(), |k: int| ignore@[k]@);
    let mut i: usize = 0;
    while i < vault.files.len()
        invariant
            i <= vault.files.len(),
            iv == Seq::new(ignore@.len(), |k: int| ignore@[k]@),
            search_from(vault@, name@, iv, i as int) == search_from(vault@, name@, iv, 0),
        decreases vault.files.len() - i,
    {
        let f = chars_of(vault.files[i].as_str());
        assert(vault@[i as int] == f@);
        let n = file_name_of(&f);
        if same(&n, name) && !ignored(&f, ignore) {
            return Some(f);
        }
        i = i + 1;
    }
    None
}

fn bare(p: &Vec<char>) -> (r: bool)
    ensures
        r == is_bare(p@),
{
    let mut i: usize = 0;
    while i < p.len()
        invariant
            i <= p.len(),
            forall|j: int| 0 <= j < i ==> p@[j] != '/',
        decreases p.len() - i,
    {
        if p[i] == '/' {
            return false;
        }
        i = i + 1;
    }
    true
}

/// Resolves the link target `path`, written in a note whose directory is
/// `dir`: an empty target is an anchor on the page; an absolute one must name a
/// vault file; a relative one is tried against `dir`, then against the vault
/// root, and a bare file name is finally searched for in the whole vault when
/// `full_search` is set.
pub fn resolve_path(path: &str, dir: &str, vault: &VaultIndex, full_search: bool, ignore: &Vec<String>) -> (r: ResolvedPath)
    ensures
        r@ == resolve(path@, dir@, vault@, full_search, Seq::new(ignore@.len(), |k: int| ignore@[k]@)),
{
    let p = chars_of(path);
    if p.len() == 0 {
        return ResolvedPath::Unchanged;
    }
    if p[0] == '/' {
        let stripped = slice(&p, 1, p.len());
        if vault.contains(&stripped) {
            return ResolvedPath::Unchanged;
        }
        return ResolvedPath::Broken;
    }
    let d = chars_of(dir);
    let full = join_paths(&d, &p);
    if vault.contains(&full) {
        return ResolvedPath::Unchanged;
    }
    if vault.contains(&p) {
        return ResolvedPath::Updated(string_of(&slash_prefixed(&p)));
    }
    if full_search && bare(&p) {
        if let Some(f) = find_recursive(vault, &p, ignore) {
            return ResolvedPath::Updated(string_of(&slash_prefixed(&f)));
        }
    }
    ResolvedPath::Broken
}

proof fn lemma_search_found(files: Seq<Seq<char>>, name: Seq<char>, ignore: Seq<Seq<char>>, i: int)
    requires
        0 <= i,
        search_from(files, name, ignore, i) is Some,
    ensures
        files.contains(search_from(files, name, ignore, i).unwrap()),
    decreases files.len() - i,
{
    if i < files.len() && !(file_name(files[i]) == name && !is_ignored(files[i], ignore)) {
        lemma_search_found(files, name, ignore, i + 1);
    }
}

/// Resolution is idempotent: a target that resolution rewrote resolves,
/// as rewritten, to itself, and one it kept stays kept.
pub proof fn lemma_resolve_idempotent(
    r: Seq<char>,
    dir: Seq<char>,
    vault: VaultIndex,
    search: bool,
    ignore: Seq<Seq<char>>,
)
    requires
        vault.wf(),
    ensures
        resolve(r, dir, vault@, search, ignore) == Some(None::<Seq<char>>) ==> resolve(r, dir, vault@, search, ignore) == Some(None::<Seq<char>>),
        resolve(r, dir, vault@, search, ignore) matches Some(Some(x)) ==> resolve(x, dir, vault@, search, ignore) == Some(None::<Seq<char>>),
{
    let files = vault@;
    if let Some(Some(x)) = resolve(r, dir, files, search, ignore) {
        let f = if files.contains(join(dir, r)) { r } else if files.contains(r) { r } else {
            search_from(files, r, ignore, 0).unwrap()
        };
        if !files.contains(join(dir, r)) && !files.contains(r) {
            lemma_search_found(files, r, ignore, 0);
        }
        assert(files.contains(f));
        let k = choose|k: int| 0 <= k < files.len() && files[k] == f;
        assert(!(f.len() > 0 && files[k][0] == '/'));
        assert(x == with_slash(f));
        assert(x.subrange(1, x.len() as int) =~= f);
    }
}

/// The notes of the vault, in walk order: files with the extension `md` or
/// `html` (in any case) outside the ignored directories.
pub fn get_all_notes_exclude(vault: &VaultIndex, ignore: &Vec<String>) -> (r: Vec<String>)
    ensures
        Seq::new(r@.len(), |i: int| r@[i]@) == vault@.filter(|p: Seq<char>| crate::exporter::is_note_path(p, crate::note::strings_of(ignore@))),
{
    let ghost pred = |p: Seq<char>| crate::exporter::is_note_path(p, crate::note::strings_of(ignore@));
    let mut out: Vec<String> = Vec::new();
    let mut i: usize = 0;
    while i < vault.files.len()
        invariant
            i <= vault.files.len(),
            pred == (|p: Seq<char>| crate::exporter::is_note_path(p, crate::note::strings_of(ignore@))),
            Seq::new(out@.len(), |k: int| out@[k]@) == vault@.subrange(0, i as int).filter(pred),
        decreases vault.files.len() - i,
    {
        let ghost o0 = out@;
        proof {
            let pre = vault@.subrange(0, i + 1);
            assert(pre.drop_last() =~= vault@.subrange(0, i as int));
            reveal(Seq::filter);
        }
        if crate::exporter::is_note(vault.files[i].as_str(), ignore) {
            out.push(vault.files[i].clone());
        }
        assert(Seq::new(out@.len(), |k: int| out@[k]@) =~= vault@.subrange(0, i + 1).filter(pred));
        i = i + 1;
    }
    assert(vault@.subrange(0, vault@.len() as int) =~= vault@);
    out
}

} // verus!
