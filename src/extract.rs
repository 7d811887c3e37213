//! Extraction of Obsidian links, markdown links, tags and block labels from
//! the text of a note.
use vstd::prelude::*;
use crate::chars::{is_ascii_alpha, is_ascii_digit, is_ws, is_whitespace, lower_seq, lower_all};
use crate::link::{is_obsidian_link, obsidian_parts, Link};
use crate::text::{chars_of, slice, string_of};

verus! {

/// End of an Obsidian link body that starts at `q`: the first `]]`, provided
/// no `[` comes before it.
pub open spec fn body_end(s: Seq<char>, q: int) -> Option<int>
    decreases s.len() - q,
{
    if q < 0 || q + 2 > s.len() {
        None
    } else if s[q] == ']' && s[q + 1] == ']' {
        Some(q)
    } else if s[q] == '[' {
        None
    } else {
        body_end(s, q + 1)
    }
}

/// An Obsidian link starting at `p`: its end, its body and whether it is an attachment.
pub open spec fn obsidian_at(s: Seq<char>, p: int) -> Option<(int, Seq<char>, bool)> {
    if 0 <= p && p + 3 <= s.len() && s[p] == '!' && s[p + 1] == '[' && s[p + 2] == '[' && body_end(
        s,
        p + 3,
    ) is Some {
        let q = body_end(s, p + 3).unwrap();
        Some((q + 2, s.subrange(p + 3, q), true))
    } else if 0 <= p && p + 2 <= s.len() && s[p] == '[' && s[p + 1] == '[' && body_end(s, p + 2) is Some {
        let q = body_end(s, p + 2).unwrap();
        Some((q + 2, s.subrange(p + 2, q), false))
    } else {
        None
    }
}

/// Bodies and attachment flags of the well-formed Obsidian links from `p`
/// on, leftmost first and without overlap.
pub open spec fn obsidian_found(s: Seq<char>, p: int) -> Seq<(Seq<char>, bool)>
    decreases s.len() - p,
{
    if p < 0 || p >= s.len() {
        Seq::empty()
    } else {
        if obsidian_at(s, p) is Some {
            let m = obsidian_at(s, p).unwrap();
            if p < m.0 && m.0 <= s.len() {
                if obsidian_parts(m.1) is Some {
                    seq![(m.1, m.2)] + obsidian_found(s, m.0)
                } else {
                    obsidian_found(s, m.0)
                }
            } else {
                Seq::empty()
            }
        } else {
            obsidian_found(s, p + 1)
        }
    }
}

fn body_end_from(s: &Vec<char>, q0: usize) -> (r: Option<usize>)
    ensures
        match r {
            Some(q) => body_end(s@, q0 as int) == Some(q as int) && q0 <= q && q + 2 <= s.len(),
            None => body_end(s@, q0 as int) is None,
        },
{
    let mut q = q0;
    while q < s.len() && s.len() - q >= 2
        invariant
            q0 <= q,
            body_end(s@, q as int) == body_end(s@, q0 as int),
        decreases s.len() - q,
    {
        if s[q] == ']' && s[q + 1] == ']' {
            return Some(q);
        }
        if s[q] == '[' {
            return None;
        }
        q = q + 1;
    }
    None
}

fn obsidian_at_exec(s: &Vec<char>, p: usize) -> (r: Option<(usize, Vec<char>, bool)>)
    ensures
        match r {
            Some((e, b, att)) => obsidian_at(s@, p as int) == Some((e as int, b@, att)) && p < e
                <= s.len(),
            None => obsidian_at(s@, p as int) is None,
        },
{
    if p < s.len() && s.len() - p >= 3 && s[p] == '!' && s[p + 1] == '[' && s[p + 2] == '[' {
        if let Some(q) = body_end_from(s, p + 3) {
            return Some((q + 2, slice(s, p + 3, q), true));
        }
    }
    if p < s.len() && s.len() - p >= 2 && s[p] == '[' && s[p + 1] == '[' {
        if let Some(q) = body_end_from(s, p + 2) {
            return Some((q + 2, slice(s, p + 2, q), false));
        }
    }
    None
}

/// The Obsidian links of `content`, leftmost first; a candidate whose body does
/// not follow the link grammar is skipped.
pub fn find_obsidian_links(content: &str) -> (r: Vec<Link>)
    ensures
        r@.len() == obsidian_found(content@, 0).len(),
        forall|i: int|
            0 <= i < r@.len() ==> is_obsidian_link(
                #[trigger] r@[i],
                obsidian_found(content@, 0)[i].0,
                obsidian_found(content@, 0)[i].1,
            ),
{
    let s = chars_of(content);
    let mut out: Vec<Link> = Vec::new();
    let ghost mut g: Seq<(Seq<char>, bool)> = Seq::empty();
    let mut p: usize = 0;
    while p < s.len()
        invariant
            s@ == content@,
            p <= s.len(),
            out@.len() == g.len(),
            forall|i: int| 0 <= i < out@.len() ==> is_obsidian_link(#[trigger] out@[i], g[i].0, g[i].1),
            g + obsidian_found(s@, p as int) == obsidian_found(s@, 0),
        decreases s.len() - p,
    {
        match obsidian_at_exec(&s, p) {
            Some((e, body, att)) => {
                let text = string_of(&body);
                match Link::from_obsidian_link(text.as_str(), att) {
                    Ok(l) => {
                        proof {
                            let g0 = g;
                            g = g.push((body@, att));
                            assert(obsidian_found(s@, p as int) == seq![(body@, att)] + obsidian_found(s@, e as int));
                            assert(g + obsidian_found(s@, e as int) =~= g0 + obsidian_found(s@, p as int));
                        }
                        out.push(l);
                    },
                    Err(_) => {},
                }
                p = e;
            },
            None => {
                p = p + 1;
            },
        }
    }
    assert(g + Seq::<(Seq<char>, bool)>::empty() =~= g);
    out
}

/// First position at or after `q` that holds `c`.
pub open spec fn next_char(s: Seq<char>, c: char, q: int) -> Option<int>
    decreases s.len() - q,
{
    if q < 0 || q >= s.len() {
        None
    } else if s[q] == c {
        Some(q)
    } else {
        next_char(s, c, q + 1)
    }
}

/// A markdown link whose `[` stands at `b`: the positions of the `]` that
/// ends its alias and of the `)` that ends its target.
pub open spec fn md_from(s: Seq<char>, b: int) -> Option<(int, int)> {
    if b < 0 || b >= s.len() || s[b] != '[' {
        None
    } else {
        match next_char(s, ']', b + 1) {
            None => None,
            Some(c) => if c + 1 < s.len() && s[c + 1] == '(' {
                match next_char(s, ')', c + 2) {
                    None => None,
                    Some(d) => Some((c, d)),
                }
            } else {
                None
            },
        }
    }
}

/// A markdown link `[alias](target)`, optionally preceded by `!`, starting at
/// `p`: its end, its alias, its target and whether it is an attachment.
pub open spec fn markdown_at(s: Seq<char>, p: int) -> Option<(int, Seq<char>, Seq<char>, bool)> {
    if 0 <= p < s.len() && s[p] == '!' {
        match md_from(s, p + 1) {
            Some((c, d)) => Some((d + 1, s.subrange(p + 2, c), s.subrange(c + 2, d), true)),
            None => None,
        }
    } else {
        match md_from(s, p) {
            Some((c, d)) => Some((d + 1, s.subrange(p + 1, c), s.subrange(c + 2, d), false)),
            None => None,
        }
    }
}

/// Source text, alias, target and attachment flag of each markdown link from
/// `p` on, leftmost first and without overlap.
pub open spec fn markdown_found(s: Seq<char>, p: int) -> Seq<(Seq<char>, Seq<char>, Seq<char>, bool)>
    decreases s.len() - p,
{
    if p < 0 || p >= s.len() {
        Seq::empty()
    } else if markdown_at(s, p) is Some {
        let m = markdown_at(s, p).unwrap();
        if p < m.0 && m.0 <= s.len() {
            seq![(s.subrange(p, m.0), m.1, m.2, m.3)] + markdown_found(s, m.0)
        } else {
            Seq::empty()
        }
    } else {
        markdown_found(s, p + 1)
    }
}

fn next_char_from(s: &Vec<char>, c: char, q0: usize) -> (r: Option<usize>)
    ensures
        match r {
            Some(q) => next_char(s@, c, q0 as int) == Some(q as int) && q0 <= q < s.len(),
            None => next_char(s@, c, q0 as int) is None,
        },
{
    let mut q = q0;
    while q < s.len()
        invariant
            q0 <= q,
            next_char(s@, c, q as int) == next_char(s@, c, q0 as int),
        decreases s.len() - q,
    {
        if s[q] == c {
            return Some(q);
        }
        q = q + 1;
    }
    None
}

fn md_from_exec(s: &Vec<char>, b: usize) -> (r: Option<(usize, usize)>)
    ensures
        match r {
            Some((c, d)) => md_from(s@, b as int) == Some((c as int, d as int)) && b < c && c + 2
                <= d < s.len(),
            None => md_from(s@, b as int) is None,
        },
{
    if b >= s.len() || s[b] != '[' {
        return None;
    }
    match next_char_from(s, ']', b + 1) {
        None => None,
        Some(c) => {
            if c + 1 < s.len() && s[c + 1] == '(' {
                match next_char_from(s, ')', c + 2) {
                    None => None,
                    Some(d) => Some((c, d)),
                }
            } else {
                None
            }
        },
    }
}

/// Whether `l` is the link written in markdown as `md`, with the given
/// target, alias and attachment flag.
pub open spec fn is_md_link(l: Link, md: Seq<char>, target: Seq<char>, alias: Option<Seq<char>>, is_attachment: bool) -> bool {
    &&& match crate::text::first_index(target, '#') {
        Some(h) => l.target@ == target.subrange(0, h) && crate::link::opt_view(l.subtarget) == Some(
            target.subrange(h + 1, target.len() as int),
        ),
        None => l.target@ == target && l.subtarget is None,
    }
    &&& crate::link::opt_view(l.alias) == alias
    &&& l.source_string@ == md
    &&& l.is_attachment == is_attachment
    &&& !l.broken
}

/// The markdown links of `content`, leftmost first.
pub fn find_markdown_links(content: &str) -> (r: Vec<Link>)
    ensures
        r@.len() == markdown_found(content@, 0).len(),
        forall|i: int|
            0 <= i < r@.len() ==> {
                let m = #[trigger] markdown_found(content@, 0)[i];
                is_md_link(r@[i], m.0, m.2, Some(m.1), m.3)
            },
{
    let s = chars_of(content);
    let mut out: Vec<Link> = Vec::new();
    let ghost mut g: Seq<(Seq<char>, Seq<char>, Seq<char>, bool)> = Seq::empty();
    let mut p: usize = 0;
    while p < s.len()
        invariant
            s@ == content@,
            p <= s.len(),
            out@.len() == g.len(),
            forall|i: int| 0 <= i < out@.len() ==> {
                let m = #[trigger] g[i];
                is_md_link(out@[i], m.0, m.2, Some(m.1), m.3)
            },
            g + markdown_found(s@, p as int) == markdown_found(s@, 0),
        decreases s.len() - p,
    {
        let att = s[p] == '!';
        let b = if att { p + 1 } else { p };
        match md_from_exec(&s, b) {
            Some((c, d)) => {
                let src = string_of(&slice(&s, p, d + 1));
                let alias = string_of(&slice(&s, b + 1, c));
                let target = string_of(&slice(&s, c + 2, d));
                let l = Link::from_md_link(src.as_str(), target.as_str(), Some(alias.as_str()), att);
                proof {
                    let g0 = g;
                    let m = (s@.subrange(p as int, d + 1), s@.subrange(b + 1, c as int), s@.subrange(c + 2, d as int), att);
                    assert(markdown_at(s@, p as int) == Some((d + 1, m.1, m.2, att)));
                    g = g.push(m);
                    assert(markdown_found(s@, p as int) == seq![m] + markdown_found(s@, d + 1));
                    assert(g + markdown_found(s@, d + 1) =~= g0 + markdown_found(s@, p as int));
                    assert(g[g.len() - 1] == m);
                }
                out.push(l);
                p = d + 1;
            },
            None => {
                assert(markdown_at(s@, p as int) is None);
                p = p + 1;
            },
        }
    }
    assert(g + Seq::<(Seq<char>, Seq<char>, Seq<char>, bool)>::empty() =~= g);
    out
}

/// A character that may stand in a tag name.
pub open spec fn is_tag_char(c: char) -> bool {
    is_ascii_alpha(c) || is_ascii_digit(c) || c == '_' || c == '-'
}

/// End of the run of tag characters from `q`.
pub open spec fn run_end(s: Seq<char>, q: int) -> int
    decreases s.len() - q,
{
    if q < 0 || q >= s.len() || !is_tag_char(s[q]) {
        q
    } else {
        run_end(s, q + 1)
    }
}

/// End of a tag path whose first segment ends at `e`: further segments each
/// start with `/` and hold at least one tag character.
pub open spec fn segments_end(s: Seq<char>, e: int) -> int
    decreases s.len() - e,
{
    if 0 <= e && e + 1 < s.len() && s[e] == '/' && run_end(s, e + 1) > e + 1 && run_end(s, e + 1) <= s.len() {
        segments_end(s, run_end(s, e + 1))
    } else {
        e
    }
}

/// Whether a `#` at `p` may start a tag: it begins the text or follows white
/// space or a tag character.
pub open spec fn tag_start_ok(s: Seq<char>, p: int) -> bool {
    p == 0 || is_ws(s[p - 1]) || is_tag_char(s[p - 1])
}

/// The end of the tag written at `p`, if one is.
pub open spec fn tag_at(s: Seq<char>, p: int) -> Option<int> {
    if 0 <= p < s.len() && s[p] == '#' && tag_start_ok(s, p) && run_end(s, p + 1) > p + 1 {
        Some(segments_end(s, run_end(s, p + 1)))
    } else {
        None
    }
}

pub open spec fn has_alpha(s: Seq<char>) -> bool {
    exists|i: int| 0 <= i < s.len() && is_ascii_alpha(#[trigger] s[i])
}

/// The tag names written from `p` on, in order. A name without a letter is
/// no tag.
pub open spec fn tags_found(s: Seq<char>, p: int) -> Seq<Seq<char>>
    decreases s.len() - p,
{
    if p < 0 || p >= s.len() {
        Seq::empty()
    } else if tag_at(s, p) is Some {
        let e = tag_at(s, p).unwrap();
        if p < e && e <= s.len() {
            let name = s.subrange(p + 1, e);
            if has_alpha(name) {
                seq![name] + tags_found(s, e)
            } else {
                tags_found(s, e)
            }
        } else {
            Seq::empty()
        }
    } else {
        tags_found(s, p + 1)
    }
}

#[derive(PartialEq, Eq, Debug)]
pub struct Tag {
    /// The tag's path in lower case, segments separated by `/`.
    pub tag_path: String,
    /// The text the tag was written as.
    pub source: String,
}

impl Tag {
    pub open spec fn view(&self) -> (Seq<char>, Seq<char>) {
        (self.tag_path@, self.source@)
    }

    pub fn duplicate(&self) -> (r: Tag)
        ensures
            r@ == self@,
    {
        Tag { tag_path: self.tag_path.clone(), source: self.source.clone() }
    }
}

/// The tag that a name gives: its path in lower case and its source text.
pub open spec fn tag_of(name: Seq<char>) -> (Seq<char>, Seq<char>) {
    (lower_seq(name), seq!['#'] + name)
}

/// Index of the first entry of `sorted` whose path is shorter than `n`.
pub open spec fn first_shorter(sorted: Seq<(Seq<char>, Seq<char>)>, n: nat, i: int) -> int
    decreases sorted.len() - i,
{
    if i < 0 || i >= sorted.len() || sorted[i].0.len() < n {
        i
    } else {
        first_shorter(sorted, n, i + 1)
    }
}

/// `x` put into `sorted` after every entry whose path is at least as long.
pub open spec fn insert_by_len(sorted: Seq<(Seq<char>, Seq<char>)>, x: (Seq<char>, Seq<char>)) -> Seq<(Seq<char>, Seq<char>)> {
    let k = first_shorter(sorted, x.0.len(), 0);
    sorted.subrange(0, k) + seq![x] + sorted.subrange(k, sorted.len() as int)
}

/// Entries ordered by the length of their paths, longest first; entries of
/// equal length keep their order.
pub open spec fn sort_by_len(s: Seq<(Seq<char>, Seq<char>)>) -> Seq<(Seq<char>, Seq<char>)>
    decreases s.len(),
{
    if s.len() == 0 {
        s
    } else {
        insert_by_len(sort_by_len(s.drop_last()), s.last())
    }
}

pub open spec fn tags_view(v: Seq<Tag>) -> Seq<(Seq<char>, Seq<char>)> {
    Seq::new(v.len(), |i: int| v[i]@)
}

proof fn lemma_first_shorter_bounds(sorted: Seq<(Seq<char>, Seq<char>)>, n: nat, i: int)
    requires
        0 <= i <= sorted.len(),
    ensures
        i <= first_shorter(sorted, n, i) <= sorted.len(),
    decreases sorted.len() - i,
{
    if i < sorted.len() && sorted[i].0.len() >= n {
        lemma_first_shorter_bounds(sorted, n, i + 1);
    }
}

/// Puts `t` into `tags` after every tag whose path is at least as long.
fn insert_tag(tags: &mut Vec<Tag>, t: Tag)
    ensures
        tags_view(final(tags)@) == insert_by_len(tags_view(old(tags)@), t@),
{
    let ghost sv = tags_view(tags@);
    let n = t.tag_path.unicode_len();
    let mut k: usize = 0;
    while k < tags.len() && tags[k].tag_path.unicode_len() >= n
        invariant
            k <= tags.len(),
            sv == tags_view(tags@),
            n == t@.0.len(),
            first_shorter(sv, n as nat, k as int) == first_shorter(sv, n as nat, 0),
        decreases tags.len() - k,
    {
        k = k + 1;
    }
    proof { lemma_first_shorter_bounds(sv, n as nat, 0); }
    tags.insert(k, t);
    assert(tags_view(tags@) =~= insert_by_len(sv, t@));
}

/// The tags of `content`: names of letters, digits, `_` and `-`, possibly in
/// several `/`-separated segments, after a `#` that begins the text or
/// follows white space or a tag character. Longest paths first; tags of equal
/// length keep the order in which they are written.
pub fn find_tags(content: &str) -> (r: Vec<Tag>)
    ensures
        tags_view(r@) == sort_by_len(Seq::new(tags_found(content@, 0).len(), |i: int| tag_of(tags_found(content@, 0)[i]))),
{
    let s = chars_of(content);
    let mut found: Vec<Tag> = Vec::new();
    let ghost mut g: Seq<Seq<char>> = Seq::empty();
    let mut p: usize = 0;
    while p < s.len()
        invariant
            s@ == content@,
            p <= s.len(),
            tags_view(found@) == Seq::new(g.len(), |i: int| tag_of(g[i])),
            g + tags_found(s@, p as int) == tags_found(s@, 0),
        decreases s.len() - p,
    {
        match tag_end(&s, p) {
            Some(e) => {
                let name = slice(&s, p + 1, e);
                if any_alpha(&name) {
                    let mut src: Vec<char> = vec!['#'];
                    crate::text::push_all(&mut src, &name);
                    assert(src@ =~= seq!['#'] + name@);
                    let t = Tag { tag_path: string_of(&lower_all(&name)), source: string_of(&src) };
                    assert(t@ == tag_of(name@));
                    let ghost f0 = found@;
                    proof {
                        let g0 = g;
                        g = g.push(name@);
                        assert(tags_found(s@, p as int) == seq![name@] + tags_found(s@, e as int));
                        assert(g + tags_found(s@, e as int) =~= g0 + tags_found(s@, p as int));
                        assert(tags_view(f0).len() == f0.len());
                        assert(tags_view(f0).len() == g0.len());
                    }
                    assert(f0.len() + 1 == g.len());
                    found.push(t);
                    assert forall|i: int| 0 <= i < g.len() implies tags_view(found@)[i] == tag_of(g[i]) by {
                        if i < g.len() - 1 {
                            assert(found@[i] == f0[i]);
                            assert(tags_view(f0)[i] == tag_of(g[i]));
                        }
                    }
                    assert(tags_view(found@) =~= Seq::new(g.len(), |i: int| tag_of(g[i])));
                } else {
                    assert(tags_found(s@, p as int) == tags_found(s@, e as int));
                }
                p = e;
            },
            None => {
                p = p + 1;
            },
        }
    }
    assert(g + Seq::<Seq<char>>::empty() =~= g);
    let mut sorted: Vec<Tag> = Vec::new();
    let mut i: usize = 0;
    while i < found.len()
        invariant
            i <= found.len(),
            tags_view(sorted@) == sort_by_len(tags_view(found@).subrange(0, i as int)),
        decreases found.len() - i,
    {
        let t = found[i].duplicate();
        insert_tag(&mut sorted, t);
        proof {
            let pre = tags_view(found@).subrange(0, i + 1);
            assert(pre.drop_last() =~= tags_view(found@).subrange(0, i as int));
        }
        i = i + 1;
    }
    assert(tags_view(found@).subrange(0, found@.len() as int) =~= tags_view(found@));
    sorted
}

fn is_tag_character(c: char) -> (r: bool)
    ensures
        r == is_tag_char(c),
{
    ('a' <= c && c <= 'z') || ('A' <= c && c <= 'Z') || ('0' <= c && c <= '9') || c == '_' || c == '-'
}

fn run_end_from(s: &Vec<char>, q0: usize) -> (r: usize)
    requires
        q0 <= s.len(),
    ensures
        r == run_end(s@, q0 as int),
        q0 <= r <= s.len(),
        q0 < s.len() && is_tag_char(s@[q0 as int]) ==> r > q0,
{
    let mut q = q0;
    while q < s.len() && is_tag_character(s[q])
        invariant
            q0 <= q <= s.len(),
            run_end(s@, q as int) == run_end(s@, q0 as int),
        decreases s.len() - q,
    {
        q = q + 1;
    }
    q
}

fn tag_end(s: &Vec<char>, p: usize) -> (r: Option<usize>)
    ensures
        match r {
            Some(e) => tag_at(s@, p as int) == Some(e as int) && p + 1 < e <= s.len(),
            None => tag_at(s@, p as int) is None,
        },
{
    if p >= s.len() || s[p] != '#' {
        return None;
    }
    if !(p == 0 || is_whitespace(s[p - 1]) || is_tag_character(s[p - 1])) {
        return None;
    }
    let r1 = run_end_from(s, p + 1);
    if r1 <= p + 1 {
        return None;
    }
    let mut e = r1;
    while e < s.len() && s.len() - e > 1 && s[e] == '/' && is_tag_character(s[e + 1])
        invariant
            p + 1 < e <= s.len(),
            segments_end(s@, e as int) == segments_end(s@, r1 as int),
        decreases s.len() - e,
    {
        e = run_end_from(s, e + 1);
    }
    Some(e)
}

fn any_alpha(v: &Vec<char>) -> (r: bool)
    ensures
        r == has_alpha(v@),
{
    let mut i: usize = 0;
    while i < v.len()
        invariant
            i <= v.len(),
            forall|j: int| 0 <= j < i ==> !is_ascii_alpha(#[trigger] v@[j]),
        decreases v.len() - i,
    {
        let c = v[i];
        if ('a' <= c && c <= 'z') || ('A' <= c && c <= 'Z') {
            assert(is_ascii_alpha(v@[i as int]));
            return true;
        }
        i = i + 1;
    }
    false
}

/// A character that may stand in a block label.
pub open spec fn is_label_char(c: char) -> bool {
    ('A' <= c && c <= 'z') || is_ascii_digit(c) || c == '-'
}

/// White space inside a line.
pub open spec fn is_blank(c: char) -> bool {
    is_ws(c) && c != '\n'
}

pub open spec fn blank_end(s: Seq<char>, q: int) -> int
    decreases s.len() - q,
{
    if q < 0 || q >= s.len() || !is_blank(s[q]) {
        q
    } else {
        blank_end(s, q + 1)
    }
}

pub open spec fn label_run_end(s: Seq<char>, q: int) -> int
    decreases s.len() - q,
{
    if q < 0 || q >= s.len() || !is_label_char(s[q]) {
        q
    } else {
        label_run_end(s, q + 1)
    }
}

/// A block label on the line that starts at `p`: blanks, `^`, the label, then
/// the end of the line. Gives the label's bounds.
pub open spec fn label_line(s: Seq<char>, p: int) -> Option<(int, int)> {
    let c = blank_end(s, p);
    if 0 <= c < s.len() && s[c] == '^' {
        let e = label_run_end(s, c + 1);
        if 0 <= e < s.len() && s[e] == '\n' {
            Some((c + 1, e))
        } else {
            None
        }
    } else {
        None
    }
}

/// The block labels of the lines from `p` on; `p` starts a line.
pub open spec fn labels_found(s: Seq<char>, p: int) -> Seq<Seq<char>>
    decreases s.len() - p,
{
    if p < 0 || p >= s.len() {
        Seq::empty()
    } else {
        let rest = match next_char(s, '\n', p) {
            Some(n) => if p <= n < s.len() { labels_found(s, n + 1) } else { Seq::empty() },
            None => Seq::empty(),
        };
        match label_line(s, p) {
            Some((a, e)) => seq![s.subrange(a, e)] + rest,
            None => rest,
        }
    }
}

#[derive(PartialEq, Eq, Debug)]
pub struct BlockLabel {
    pub label: String,
    /// The text the label was written as: `^` and the label.
    pub source: String,
}

fn blank_end_from(s: &Vec<char>, q0: usize) -> (r: usize)
    requires
        q0 <= s.len(),
    ensures
        r == blank_end(s@, q0 as int),
        q0 <= r <= s.len(),
{
    let mut q = q0;
    while q < s.len() && s[q] != '\n' && is_whitespace(s[q])
        invariant
            q0 <= q <= s.len(),
            blank_end(s@, q as int) == blank_end(s@, q0 as int),
        decreases s.len() - q,
    {
        q = q + 1;
    }
    q
}

fn label_run_end_from(s: &Vec<char>, q0: usize) -> (r: usize)
    requires
        q0 <= s.len(),
    ensures
        r == label_run_end(s@, q0 as int),
        q0 <= r <= s.len(),
{
    let mut q = q0;
    while q < s.len() && (('A' <= s[q] && s[q] <= 'z') || ('0' <= s[q] && s[q] <= '9') || s[q] == '-')
        invariant
            q0 <= q <= s.len(),
            label_run_end(s@, q as int) == label_run_end(s@, q0 as int),
        decreases s.len() - q,
    {
        q = q + 1;
    }
    q
}

fn label_line_exec(s: &Vec<char>, p: usize) -> (r: Option<(usize, usize)>)
    requires
        p <= s.len(),
    ensures
        match r {
            Some((a, e)) => label_line(s@, p as int) == Some((a as int, e as int)) && a <= e < s.len(),
            None => label_line(s@, p as int) is None,
        },
{
    let c = blank_end_from(s, p);
    if c < s.len() && s[c] == '^' {
        let e = label_run_end_from(s, c + 1);
        if e < s.len() && s[e] == '\n' {
            return Some((c + 1, e));
        }
    }
    None
}

/// Labels for block references: `^label` alone at the end of a line, after
/// optional blanks.
pub fn find_labels(content: &str) -> (r: Vec<BlockLabel>)
    ensures
        r@.len() == labels_found(content@, 0).len(),
        forall|i: int| 0 <= i < r@.len() ==> {
            &&& (#[trigger] r@[i]).label@ == labels_found(content@, 0)[i]
            &&& r@[i].source@ == seq!['^'] + labels_found(content@, 0)[i]
        },
{
    let s = chars_of(content);
    let mut out: Vec<BlockLabel> = Vec::new();
    let ghost mut g: Seq<Seq<char>> = Seq::empty();
    let mut p: usize = 0;
    while p < s.len()
        invariant
            s@ == content@,
            p <= s.len(),
            out@.len() == g.len(),
            forall|i: int| 0 <= i < out@.len() ==> {
                &&& (#[trigger] out@[i]).label@ == g[i]
                &&& out@[i].source@ == seq!['^'] + g[i]
            },
            g + labels_found(s@, p as int) == labels_found(s@, 0),
        decreases s.len() - p,
    {
        let line = label_line_exec(&s, p);
        let next = next_char_from(&s, '\n', p);
        let ghost rest = match next_char(s@, '\n', p as int) {
            Some(n) => if p <= n < s@.len() { labels_found(s@, n + 1) } else { Seq::empty() },
            None => Seq::empty(),
        };
        match line {
            Some((a, e)) => {
                let label = slice(&s, a, e);
                let mut src: Vec<char> = vec!['^'];
                crate::text::push_all(&mut src, &label);
                assert(src@ =~= seq!['^'] + label@);
                proof {
                    let g0 = g;
                    g = g.push(label@);
                    assert(g + rest =~= g0 + labels_found(s@, p as int));
                }
                out.push(BlockLabel { label: string_of(&label), source: string_of(&src) });
            },
            None => {},
        }
        match next {
            Some(n) => {
                p = n + 1;
            },
            None => {
                assert(g + Seq::<Seq<char>>::empty() =~= g);
                p = s.len();
            },
        }
    }
    assert(g + Seq::<Seq<char>>::empty() =~= g);
    out
}

/// End of a bare address that starts at `q`: the next white space or the end.
pub open spec fn url_end(s: Seq<char>, q: int) -> int
    decreases s.len() - q,
{
    if q < 0 || q >= s.len() || is_ws(s[q]) {
        q
    } else {
        url_end(s, q + 1)
    }
}

/// Whether a bare address starts at `p`: `http://` or `https://` at the start
/// of the text or after white space.
pub open spec fn url_at(s: Seq<char>, p: int) -> bool {
    0 <= p < s.len() && (p == 0 || is_ws(s[p - 1])) && (crate::text::occurs_at(s, crate::link::http_prefix(), p)
        || crate::text::occurs_at(s, crate::link::https_prefix(), p))
}

/// The bare addresses of a text from `p` on, leftmost first.
pub open spec fn urls_found(s: Seq<char>, p: int) -> Seq<Seq<char>>
    decreases s.len() - p,
{
    if p < 0 || p >= s.len() {
        Seq::empty()
    } else if url_at(s, p) && p < url_end(s, p) <= s.len() {
        seq![s.subrange(p, url_end(s, p))] + urls_found(s, url_end(s, p))
    } else {
        urls_found(s, p + 1)
    }
}

proof fn lemma_url_end_bounds(s: Seq<char>, q: int)
    requires
        0 <= q <= s.len(),
    ensures
        q <= url_end(s, q) <= s.len(),
    decreases s.len() - q,
{
    if q < s.len() && !is_ws(s[q]) {
        lemma_url_end_bounds(s, q + 1);
    }
}

/// Links to the bare addresses of `content`: each its own target and source text.
pub fn find_raw_links(content: &str) -> (r: Vec<Link>)
    ensures
        r@.len() == urls_found(content@, 0).len(),
        forall|i: int| 0 <= i < r@.len() ==> {
            &&& (#[trigger] r@[i]).target@ == urls_found(content@, 0)[i]
            &&& r@[i].source_string@ == urls_found(content@, 0)[i]
            &&& r@[i].subtarget is None
            &&& r@[i].alias is None
            &&& !r@[i].is_attachment
            &&& !r@[i].broken
        },
{
    let s = chars_of(content);
    let http = vec!['h', 't', 't', 'p', ':', '/', '/'];
    let https = vec!['h', 't', 't', 'p', 's', ':', '/', '/'];
    assert(http@ =~= crate::link::http_prefix());
    assert(https@ =~= crate::link::https_prefix());
    let mut out: Vec<Link> = Vec::new();
    let ghost mut g: Seq<Seq<char>> = Seq::empty();
    let mut p: usize = 0;
    while p < s.len()
        invariant
            s@ == content@,
            p <= s.len(),
            http@ == crate::link::http_prefix(),
            https@ == crate::link::https_prefix(),
            out@.len() == g.len(),
            forall|i: int| 0 <= i < out@.len() ==> {
                &&& (#[trigger] out@[i]).target@ == g[i]
                &&& out@[i].source_string@ == g[i]
                &&& out@[i].subtarget is None
                &&& out@[i].alias is None
                &&& !out@[i].is_attachment
                &&& !out@[i].broken
            },
            g + urls_found(s@, p as int) == urls_found(s@, 0),
        decreases s.len() - p,
    {
        let starts = (p == 0 || is_whitespace(s[p - 1])) && (crate::text::matches_at(&s, &http, p) || crate::text::matches_at(&s, &https, p));
        if starts {
            let mut e = p;
            while e < s.len() && !is_whitespace(s[e])
                invariant
                    p <= e <= s.len(),
                    url_end(s@, e as int) == url_end(s@, p as int),
                decreases s.len() - e,
            {
                e = e + 1;
            }
            proof { lemma_url_end_bounds(s@, p as int); }
            assert(p < e) by {
                assert(s@[p as int] == 'h');
            }
            let url = string_of(&slice(&s, p, e));
            let l = Link { target: url.clone(), subtarget: None, alias: None, source_string: url, is_attachment: false, broken: false };
            proof {
                let g0 = g;
                g = g.push(s@.subrange(p as int, e as int));
                assert(urls_found(s@, p as int) == seq![s@.subrange(p as int, e as int)] + urls_found(s@, e as int));
                assert(g + urls_found(s@, e as int) =~= g0 + urls_found(s@, p as int));
            }
            out.push(l);
            p = e;
        } else {
            p = p + 1;
        }
    }
    assert(g + Seq::<Seq<char>>::empty() =~= g);
    out
}

proof fn lemma_first_shorter_props(sorted: Seq<(Seq<char>, Seq<char>)>, n: nat, i: int)
    requires
        0 <= i <= sorted.len(),
    ensures
        i <= first_shorter(sorted, n, i) <= sorted.len(),
        forall|j: int| i <= j < first_shorter(sorted, n, i) ==> sorted[j].0.len() >= n,
        first_shorter(sorted, n, i) < sorted.len() ==> sorted[first_shorter(sorted, n, i)].0.len() < n,
    decreases sorted.len() - i,
{
    if i < sorted.len() && sorted[i].0.len() >= n {
        lemma_first_shorter_props(sorted, n, i + 1);
    }
}

/// Tags sorted by length come longest first, and are the same tags.
pub proof fn lemma_sort_by_len(s: Seq<(Seq<char>, Seq<char>)>)
    ensures
        sort_by_len(s).to_multiset() == s.to_multiset(),
        forall|i: int, j: int| 0 <= i < j < sort_by_len(s).len() ==> #[trigger] sort_by_len(s)[i].0.len() >= #[trigger] sort_by_len(s)[j].0.len(),
    decreases s.len(),
{
    if s.len() > 0 {
        let r = sort_by_len(s.drop_last());
        lemma_sort_by_len(s.drop_last());
        let x = s.last();
        let n = x.0.len();
        lemma_first_shorter_props(r, n, 0);
        let k = first_shorter(r, n, 0);
        let out = insert_by_len(r, x);
        assert(out =~= r.insert(k, x));
        vstd::seq_lib::to_multiset_insert(r, k, x);
        assert(s =~= s.drop_last().push(x));
        vstd::seq_lib::to_multiset_build(s.drop_last(), x);
        assert forall|i: int, j: int| 0 <= i < j < out.len() implies #[trigger] out[i].0.len() >= #[trigger] out[j].0.len() by {
            if j < k {
            } else if i < k && j == k {
            } else if i < k && j > k {
                assert(out[j] == r[j - 1]);
                assert(r[k].0.len() >= r[j - 1].0.len() || j - 1 == k);
            } else if i == k {
                assert(out[j] == r[j - 1]);
                if j - 1 > k {
                    assert(r[k].0.len() >= r[j - 1].0.len());
                }
            } else {
                assert(out[i] == r[i - 1] && out[j] == r[j - 1]);
            }
        }
    }
}

} // verus!
