//! A note: one file of the vault compiled into content ready for the markdown
//! conversion, with its links, tags, placeholder records and title.
use vstd::prelude::*;
use crate::admonitions::{adm_step, AdmonitionParser, AdmonitionState};
use crate::extract::{find_labels, find_markdown_links, find_obsidian_links, find_tags, is_md_link, labels_found, markdown_found, obsidian_found, sort_by_len, tag_of, tags_found, tags_view, BlockLabel, Tag};
use crate::filesys::{resolve, resolve_path, ResolvedPath, VaultIndex};
use crate::frontmatter::{frontmatter_lines, frontmatter_of, parse_frontmatter, remove_first_n_lines, without_lines, Frontmatter};
use crate::headers::{header_step, HeaderParser, HeaderState};
use crate::link::{is_obsidian_link, link_type_of, obsidian_source, opt_view, Link, LinkType};
use crate::placeholders::{disambiguate_protected, protect_upto};
use crate::raw_html::{raw_step, RawHTMLParseState, RawHTMLParser};
use crate::sanitization::{applied, records_view, RecordView, Sanitization};
use crate::text::{chars_of, lines, lines_of, push_all, push_str, slice, string_of};

verus! {

pub open spec fn opt_seq(r: Option<RecordView>) -> Seq<RecordView> {
    match r {
        Some(x) => seq![x],
        None => Seq::empty(),
    }
}

/// Lines through the raw-HTML machine: the text and the records.
pub open spec fn raw_lines(ls: Seq<Seq<char>>, st: RawHTMLParseState) -> (Seq<char>, Seq<RecordView>)
    decreases ls.len(),
{
    if ls.len() == 0 {
        (Seq::empty(), Seq::empty())
    } else {
        let step = raw_step(st, ls[0]);
        let rest = raw_lines(ls.drop_first(), step.0);
        (step.1 + seq!['\n'] + rest.0, opt_seq(step.2) + rest.1)
    }
}

/// Lines through the admonition machine: the text and the records.
pub open spec fn adm_lines(ls: Seq<Seq<char>>, st: AdmonitionState) -> (Seq<char>, Seq<RecordView>)
    decreases ls.len(),
{
    if ls.len() == 0 {
        (Seq::empty(), Seq::empty())
    } else {
        let step = adm_step(st, ls[0]);
        let rest = adm_lines(ls.drop_first(), step.0);
        (step.1 + seq!['\n'] + rest.0, opt_seq(step.2) + rest.1)
    }
}

/// Lines through the heading machine.
pub open spec fn header_lines(ls: Seq<Seq<char>>, st: HeaderState) -> Seq<char>
    decreases ls.len(),
{
    if ls.len() == 0 {
        Seq::empty()
    } else {
        let step = header_step(st, ls[0]);
        step.1 + seq!['\n'] + header_lines(ls.drop_first(), step.0)
    }
}

/// Hides raw HTML blocks behind records.
pub fn replace_raw_html_blocks(content: &Vec<char>, placeholders: &mut Vec<Sanitization>) -> (r: Vec<char>)
    ensures
        r@ == raw_lines(lines_of(content@), RawHTMLParseState::Idle).0,
        records_view(final(placeholders)@) == records_view(old(placeholders)@) + raw_lines(lines_of(content@), RawHTMLParseState::Idle).1,
{
    let ls = lines(content);
    let ghost all = lines_of(content@);
    let ghost whole = raw_lines(all, RawHTMLParseState::Idle);
    let ghost start = records_view(placeholders@);
    let mut parser = RawHTMLParser::new();
    let mut out: Vec<char> = Vec::new();
    let ghost mut recs: Seq<RecordView> = Seq::empty();
    let mut i: usize = 0;
    proof { assert(all.subrange(0, all.len() as int) =~= all); }
    while i < ls.len()
        invariant
            i <= ls.len(),
            ls@.len() == all.len(),
            forall|j: int| 0 <= j < ls@.len() ==> (#[trigger] ls@[j])@ == all[j],
            whole == raw_lines(all, RawHTMLParseState::Idle),
            out@ + raw_lines(all.subrange(i as int, all.len() as int), parser.state).0 == whole.0,
            recs + raw_lines(all.subrange(i as int, all.len() as int), parser.state).1 == whole.1,
            records_view(placeholders@) == start + recs,
        decreases ls.len() - i,
    {
        let line = string_of(&ls[i]);
        let ghost st = parser.state;
        let ghost rest = all.subrange(i as int, all.len() as int);
        assert(rest.drop_first() =~= all.subrange(i + 1, all.len() as int));
        assert(rest[0] == all[i as int]);
        let res = parser.process_line(line.as_str());
        let ghost step = raw_step(st, all[i as int]);
        match res {
            crate::raw_html::ParseOutput::Placeholder { replacement, placeholder } => {
                push_str(&mut out, replacement.as_str());
                match placeholder {
                    Some(ph) => {
                        let ghost prior = placeholders@;
                        placeholders.push(ph);
                        assert(records_view(placeholders@) =~= records_view(prior).push(ph@));
                    },
                    None => {},
                }
            },
            crate::raw_html::ParseOutput::Keep => {
                push_all(&mut out, &ls[i]);
            },
        }
        out.push('\n');
        proof {
            recs = recs + opt_seq(step.2);
            assert(out@ + raw_lines(all.subrange(i + 1, all.len() as int), parser.state).0 =~= whole.0);
            assert(recs + raw_lines(all.subrange(i + 1, all.len() as int), parser.state).1 =~= whole.1);
            assert(records_view(placeholders@) =~= start + recs);
        }
        i = i + 1;
    }
    proof {
        assert(all.subrange(all.len() as int, all.len() as int) =~= Seq::<Seq<char>>::empty());
        assert(out@ + Seq::<char>::empty() =~= out@);
        assert(recs + Seq::<RecordView>::empty() =~= recs);
    }
    out
}

/// Hides admonition markup behind records.
pub fn replace_admonitions(content: &Vec<char>, placeholders: &mut Vec<Sanitization>) -> (r: Vec<char>)
    ensures
        r@ == adm_lines(lines_of(content@), AdmonitionState::Idle).0,
        records_view(final(placeholders)@) == records_view(old(placeholders)@) + adm_lines(lines_of(content@), AdmonitionState::Idle).1,
{
    let ls = lines(content);
    let ghost all = lines_of(content@);
    let ghost whole = adm_lines(all, AdmonitionState::Idle);
    let ghost start = records_view(placeholders@);
    let mut parser = AdmonitionParser::new();
    let mut out: Vec<char> = Vec::new();
    let ghost mut recs: Seq<RecordView> = Seq::empty();
    let mut i: usize = 0;
    proof { assert(all.subrange(0, all.len() as int) =~= all); }
    while i < ls.len()
        invariant
            i <= ls.len(),
            ls@.len() == all.len(),
            forall|j: int| 0 <= j < ls@.len() ==> (#[trigger] ls@[j])@ == all[j],
            whole == adm_lines(all, AdmonitionState::Idle),
            out@ + adm_lines(all.subrange(i as int, all.len() as int), parser.state).0 == whole.0,
            recs + adm_lines(all.subrange(i as int, all.len() as int), parser.state).1 == whole.1,
            records_view(placeholders@) == start + recs,
        decreases ls.len() - i,
    {
        let line = string_of(&ls[i]);
        let ghost st = parser.state;
        let ghost rest = all.subrange(i as int, all.len() as int);
        assert(rest.drop_first() =~= all.subrange(i + 1, all.len() as int));
        assert(rest[0] == all[i as int]);
        let res = parser.process_line(line.as_str());
        let ghost step = adm_step(st, all[i as int]);
        match res {
            crate::admonitions::ParseOutput::Placeholder { replacement, placeholder } => {
                push_str(&mut out, replacement.as_str());
                match placeholder {
                    Some(ph) => {
                        let ghost prior = placeholders@;
                        placeholders.push(ph);
                        assert(records_view(placeholders@) =~= records_view(prior).push(ph@));
                    },
                    None => {},
                }
            },
            crate::admonitions::ParseOutput::Keep => {
                push_all(&mut out, &ls[i]);
            },
        }
        out.push('\n');
        proof {
            recs = recs + opt_seq(step.2);
            assert(out@ + adm_lines(all.subrange(i + 1, all.len() as int), parser.state).0 =~= whole.0);
            assert(recs + adm_lines(all.subrange(i + 1, all.len() as int), parser.state).1 =~= whole.1);
            assert(records_view(placeholders@) =~= start + recs);
        }
        i = i + 1;
    }
    proof {
        assert(all.subrange(all.len() as int, all.len() as int) =~= Seq::<Seq<char>>::empty());
        assert(out@ + Seq::<char>::empty() =~= out@);
        assert(recs + Seq::<RecordView>::empty() =~= recs);
    }
    out
}

/// Puts a blank line before every heading that follows a text line.
pub fn process_headers(content: &Vec<char>) -> (r: Vec<char>)
    ensures
        r@ == header_lines(lines_of(content@), HeaderState::Idle),
{
    let ls = lines(content);
    let ghost all = lines_of(content@);
    let ghost whole = header_lines(all, HeaderState::Idle);
    let mut parser = HeaderParser::new();
    let mut out: Vec<char> = Vec::new();
    let mut i: usize = 0;
    proof { assert(all.subrange(0, all.len() as int) =~= all); }
    while i < ls.len()
        invariant
            i <= ls.len(),
            ls@.len() == all.len(),
            forall|j: int| 0 <= j < ls@.len() ==> (#[trigger] ls@[j])@ == all[j],
            whole == header_lines(all, HeaderState::Idle),
            out@ + header_lines(all.subrange(i as int, all.len() as int), parser.state) == whole,
        decreases ls.len() - i,
    {
        let line = string_of(&ls[i]);
        let ghost rest = all.subrange(i as int, all.len() as int);
        assert(rest.drop_first() =~= all.subrange(i + 1, all.len() as int));
        assert(rest[0] == all[i as int]);
        match parser.process_line(line.as_str()) {
            Some(updated) => push_str(&mut out, updated.as_str()),
            None => push_all(&mut out, &ls[i]),
        }
        out.push('\n');
        assert(out@ + header_lines(all.subrange(i + 1, all.len() as int), parser.state) =~= whole);
        i = i + 1;
    }
    proof {
        assert(all.subrange(all.len() as int, all.len() as int) =~= Seq::<Seq<char>>::empty());
        assert(out@ + Seq::<char>::empty() =~= out@);
    }
    out
}

/// Records that hide each source text until before the markdown conversion.
pub open spec fn source_records(srcs: Seq<Seq<char>>) -> Seq<RecordView> {
    Seq::new(srcs.len(), |i: int| (srcs[i], srcs[i], true))
}

pub open spec fn link_sources(ls: Seq<Link>) -> Seq<Seq<char>> {
    Seq::new(ls.len(), |i: int| ls[i].source_string@)
}

/// Hides the source text of each link behind a record.
pub fn replace_links_by_placeholders(content: &Vec<char>, placeholders: &mut Vec<Sanitization>, links: &Vec<Link>) -> (r: Vec<char>)
    ensures
        r@ == applied(content@, source_records(link_sources(links@))),
        records_view(final(placeholders)@) == records_view(old(placeholders)@) + source_records(link_sources(links@)),
{
    let mut recs: Vec<Sanitization> = Vec::new();
    let mut i: usize = 0;
    while i < links.len()
        invariant
            i <= links.len(),
            records_view(recs@) == source_records(link_sources(links@)).subrange(0, i as int),
        decreases links.len() - i,
    {
        let rec = Sanitization::from(links[i].source_string.as_str());
        let ghost r0 = recs@;
        assert(rec@ == source_records(link_sources(links@))[i as int]);
        recs.push(rec);
        assert(records_view(recs@) =~= records_view(r0).push(rec@));
        assert(records_view(recs@) =~= source_records(link_sources(links@)).subrange(0, i + 1));
        i = i + 1;
    }
    assert(records_view(recs@) =~= source_records(link_sources(links@)));
    let out = crate::sanitization::apply(content, &recs);
    let ghost prior = placeholders@;
    let ghost rr = recs@;
    placeholders.append(&mut recs);
    assert(records_view(placeholders@) =~= records_view(prior) + records_view(rr));
    out
}

/// The empty anchor element that a block label becomes.
pub open spec fn label_anchor(label: Seq<char>) -> Seq<char> {
    "<span id=\""@ + label + "\">  </span>"@
}

pub open spec fn label_records(labels: Seq<Seq<char>>) -> Seq<RecordView> {
    Seq::new(labels.len(), |i: int| (seq!['^'] + labels[i], label_anchor(labels[i]), false))
}

/// Hides each block label behind a record for its anchor element.
pub fn replace_blockrefs_by_placeholders(content: &Vec<char>, placeholders: &mut Vec<Sanitization>, labels: &Vec<BlockLabel>) -> (r: Vec<char>)
    requires
        forall|i: int| 0 <= i < labels@.len() ==> (#[trigger] labels@[i]).source@ == seq!['^'] + labels@[i].label@,
    ensures
        r@ == applied(content@, label_records(Seq::new(labels@.len(), |i: int| labels@[i].label@))),
        records_view(final(placeholders)@) == records_view(old(placeholders)@) + label_records(Seq::new(labels@.len(), |i: int| labels@[i].label@)),
{
    let ghost lv = Seq::new(labels@.len(), |i: int| labels@[i].label@);
    let mut recs: Vec<Sanitization> = Vec::new();
    let mut i: usize = 0;
    while i < labels.len()
        invariant
            i <= labels.len(),
            lv == Seq::new(labels@.len(), |i: int| labels@[i].label@),
            forall|i: int| 0 <= i < labels@.len() ==> (#[trigger] labels@[i]).source@ == seq!['^'] + labels@[i].label@,
            records_view(recs@) == label_records(lv).subrange(0, i as int),
        decreases labels.len() - i,
    {
        let mut a: Vec<char> = Vec::new();
        push_str(&mut a, "<span id=\"");
        push_str(&mut a, labels[i].label.as_str());
        push_str(&mut a, "\">  </span>");
        let anchor = string_of(&a);
        let rec = Sanitization::new(labels[i].source.as_str(), anchor.as_str(), false);
        assert(anchor@ =~= label_anchor(labels@[i as int].label@));
        assert(rec@ == label_records(lv)[i as int]);
        let ghost r0 = recs@;
        recs.push(rec);
        assert(records_view(recs@) =~= records_view(r0).push(rec@));
        assert(records_view(recs@) =~= label_records(lv).subrange(0, i + 1));
        i = i + 1;
    }
    assert(records_view(recs@) =~= label_records(lv));
    let out = crate::sanitization::apply(content, &recs);
    let ghost prior = placeholders@;
    let ghost rr = recs@;
    placeholders.append(&mut recs);
    assert(records_view(placeholders@) =~= records_view(prior) + records_view(rr));
    out
}

/// What resolution makes of a link of a note whose directory is `dir`: notes
/// and in-page anchors are resolved, other links stay.
pub open spec fn resolved_link(before: Link, after: Link, dir: Seq<char>, vault: Seq<Seq<char>>, search: bool, ignore: Seq<Seq<char>>) -> bool {
    &&& opt_view(after.subtarget) == opt_view(before.subtarget)
    &&& opt_view(after.alias) == opt_view(before.alias)
    &&& after.source_string@ == before.source_string@
    &&& after.is_attachment == before.is_attachment
    &&& match link_type_of(before.target@, before.is_attachment) {
        LinkType::Note | LinkType::Internal => match resolve(before.target@, dir, vault, search, ignore) {
            None => after.broken && after.target@ == before.target@,
            Some(None) => after.broken == before.broken && after.target@ == before.target@,
            Some(Some(p)) => after.broken == before.broken && after.target@ == p,
        },
        _ => after.broken == before.broken && after.target@ == before.target@,
    }
}

pub open spec fn strings_of(v: Seq<String>) -> Seq<Seq<char>> {
    Seq::new(v.len(), |i: int| v[i]@)
}

/// Resolves every link against the vault.
pub fn resolve_links(links: &Vec<Link>, dir: &str, vault: &VaultIndex, search_links: bool, ignore: &Vec<String>) -> (r: Vec<Link>)
    ensures
        r@.len() == links@.len(),
        forall|i: int| 0 <= i < r@.len() ==> resolved_link(links@[i], #[trigger] r@[i], dir@, vault@, search_links, strings_of(ignore@)),
{
    let mut out: Vec<Link> = Vec::new();
    let mut i: usize = 0;
    while i < links.len()
        invariant
            i <= links.len(),
            out@.len() == i,
            forall|j: int| 0 <= j < i ==> resolved_link(links@[j], #[trigger] out@[j], dir@, vault@, search_links, strings_of(ignore@)),
        decreases links.len() - i,
    {
        let mut l = links[i].duplicate();
        match l.link_type() {
            LinkType::Note | LinkType::Internal => {
                let res = resolve_path(l.target.as_str(), dir, vault, search_links, ignore);
                assert(Seq::new(ignore@.len(), |k: int| ignore@[k]@) == strings_of(ignore@));
                match res {
                    ResolvedPath::Unchanged => {},
                    ResolvedPath::Broken => l.set_broken(true),
                    ResolvedPath::Updated(p) => l.set_target(p),
                }
            },
            _ => {},
        }
        out.push(l);
        i = i + 1;
    }
    out
}

/// The directory of a vault path: what stands before its last `/`.
pub open spec fn dir_of(p: Seq<char>) -> Seq<char> {
    let k = crate::paths::last_index(p, '/');
    if k < 0 { Seq::empty() } else { p.subrange(0, k) }
}

pub fn directory_of(p: &str) -> (r: String)
    ensures
        r@ == dir_of(p@),
{
    let v = chars_of(p);
    match crate::paths::last_index_of(&v, '/') {
        Some(k) => string_of(&slice(&v, 0, k)),
        None => String::new(),
    }
}

/// The title of a note: the front matter's title, else the file's stem, else
/// `Note`; prefixed by `Author (Year) -` when the front matter names both.
pub open spec fn title_of(path: Seq<char>, fm: Option<Frontmatter>) -> Seq<char> {
    let stem = crate::paths::file_name(crate::paths::without_extension(path));
    let base = match fm {
        Some(f) => match f.title {
            Some(t) => t@,
            None => if stem.len() > 0 { stem } else { "Note"@ },
        },
        None => if stem.len() > 0 { stem } else { "Note"@ },
    };
    let prefix = match fm {
        Some(f) => match (f.author, f.year) {
            (Some(a), Some(y)) => a@ + " ("@ + y@ + ") -"@,
            _ => Seq::empty(),
        },
        None => Seq::empty(),
    };
    prefix + base
}

pub fn get_title(path: &str, fm: &Option<Frontmatter>) -> (r: String)
    ensures
        r@ == title_of(path@, *fm),
{
    let p = chars_of(path);
    let stem = crate::paths::file_name_of(&crate::paths::without_extension_of(&p));
    let mut out: Vec<char> = Vec::new();
    match fm {
        Some(f) => match (&f.author, &f.year) {
            (Some(a), Some(y)) => {
                push_str(&mut out, a.as_str());
                push_str(&mut out, " (");
                push_str(&mut out, y.as_str());
                push_str(&mut out, ") -");
            },
            _ => {},
        },
        None => {},
    }
    let title = match fm {
        Some(f) => match &f.title {
            Some(t) => Some(t),
            None => None,
        },
        None => None,
    };
    match title {
        Some(t) => push_str(&mut out, t.as_str()),
        None => {
            if stem.len() > 0 {
                push_all(&mut out, &stem);
            } else {
                push_str(&mut out, "Note");
            }
        },
    }
    string_of(&out)
}

/// The body of a raw note: the note without its front matter and fences.
pub open spec fn body_of(raw: Seq<char>) -> Seq<char> {
    match frontmatter_lines(raw) {
        Some(n) => without_lines(raw, n + 2),
        None => raw,
    }
}

/// The text after protecting math, code and raw HTML, with the records so far.
pub open spec fn protected_stage(raw: Seq<char>) -> (Seq<char>, Seq<RecordView>) {
    let p = protect_upto(body_of(raw), 6);
    let h = raw_lines(lines_of(p.0), RawHTMLParseState::Idle);
    (h.0, p.1 + h.1)
}

/// Sources of the Obsidian links of a text, then of its markdown links.
pub open spec fn found_sources(t: Seq<char>) -> Seq<Seq<char>> {
    let o = obsidian_found(t, 0);
    let m = markdown_found(t, 0);
    Seq::new(o.len(), |i: int| obsidian_source(o[i].0, o[i].1)) + Seq::new(m.len(), |i: int| m[i].0)
}

/// The text after hiding Obsidian and markdown links.
pub open spec fn linked_stage(raw: Seq<char>) -> Seq<char> {
    let t = protected_stage(raw).0;
    applied(t, source_records(found_sources(t)))
}

/// The text after hiding bare addresses too.
pub open spec fn addressed_stage(raw: Seq<char>) -> Seq<char> {
    let t2 = linked_stage(raw);
    applied(t2, source_records(crate::extract::urls_found(t2, 0)))
}

/// The text after hiding links, bare addresses and block labels.
pub open spec fn labelled_stage(raw: Seq<char>) -> Seq<char> {
    let t3 = addressed_stage(raw);
    applied(t3, label_records(labels_found(t3, 0)))
}

#[derive(Debug)]
pub struct Note {
    /// Path of the note relative to the vault root.
    pub path: String,
    pub links: Vec<Link>,
    pub frontmatter: Option<Frontmatter>,
    pub tags: Vec<Tag>,
    pub content: String,
    pub placeholders: Vec<Sanitization>,
    pub title: String,
    /// Links to the notes that link here; filled from the backlink index.
    pub backlinks: Vec<Link>,
    /// Year, month and day the note was created, once known.
    pub creation_date: Option<(u32, u32, u32)>,
}

impl Note {
    /// Compiles the raw text of the note at `path` (relative to the vault
    /// root): front matter read and removed; math, code and raw HTML
    /// protected; Obsidian and markdown links found, resolved and hidden;
    /// block labels hidden; tags found; admonitions hidden.
    #[verifier::rlimit(40)]
    pub fn new(path: &str, raw: &str, vault: &VaultIndex, search_links: bool, ignore: &Vec<String>) -> (r: Note)
        ensures
            r.path@ == path@,
            r.content@ == adm_lines(lines_of(labelled_stage(raw@)), AdmonitionState::Idle).0,
            records_view(r.placeholders@) == ({
                let t = protected_stage(raw@).0;
                protected_stage(raw@).1 + source_records(found_sources(t)) + source_records(crate::extract::urls_found(linked_stage(raw@), 0))
                    + label_records(labels_found(addressed_stage(raw@), 0))
                    + adm_lines(lines_of(labelled_stage(raw@)), AdmonitionState::Idle).1
            }),
            tags_view(r.tags@) == sort_by_len(Seq::new(tags_found(labelled_stage(raw@), 0).len(), |i: int| tag_of(tags_found(labelled_stage(raw@), 0)[i]))),
            r.title@ == title_of(path@, r.frontmatter),
            crate::frontmatter::frontmatter_block(raw@) is None <==> r.frontmatter is None,
            r.frontmatter matches Some(f) ==> ({
                let fm = crate::frontmatter::frontmatter_block(raw@).unwrap();
                &&& opt_view(f.title) == crate::frontmatter::yaml_field(fm, "title"@)
                &&& opt_view(f.author) == crate::frontmatter::yaml_first_field(fm, "authors"@)
                &&& opt_view(f.year) == crate::frontmatter::scalar_field(fm, "year"@)
                &&& opt_view(f.date_created) == crate::frontmatter::yaml_field(fm, "date_created"@)
            }),
            r.backlinks@.len() == 0,
            r.creation_date is None,
            r.links@.len() == found_sources(protected_stage(raw@).0).len() + crate::extract::urls_found(linked_stage(raw@), 0).len(),
            forall|i: int| 0 <= i < r.links@.len() ==> (#[trigger] r.links@[i]).source_string@ == (found_sources(protected_stage(raw@).0)
                + crate::extract::urls_found(linked_stage(raw@), 0))[i],
            exists|pre: Seq<Link>| #![trigger pre.len()] pre.len() == r.links@.len()
                && (forall|i: int| 0 <= i < pre.len() ==> resolved_link(#[trigger] pre[i], r.links@[i], dir_of(path@), vault@, search_links, strings_of(ignore@)))
                && parsed_links(pre, protected_stage(raw@).0, linked_stage(raw@)),
    {
        let (body, frontmatter) = match frontmatter_of(raw) {
            Some((fm, n)) => {
                let body = remove_first_n_lines(raw, n + 2);
                (body, Some(parse_frontmatter(fm.as_str())))
            },
            None => (raw.to_owned(), None),
        };
        assert(body@ == body_of(raw@));
        let (protected, mut placeholders) = disambiguate_protected(body.as_str());
        let pv = chars_of(protected.as_str());
        let t = replace_raw_html_blocks(&pv, &mut placeholders);
        let mut found = collect_links(&t);
        let t1 = replace_links_by_placeholders(&t, &mut placeholders, &found);
        let t1s = string_of(&t1);
        let raw_links = crate::extract::find_raw_links(t1s.as_str());
        assert(link_sources(raw_links@) =~= crate::extract::urls_found(t1@, 0));
        let t2 = replace_links_by_placeholders(&t1, &mut placeholders, &raw_links);
        append_raw_links(&mut found, &raw_links, Ghost(t@), Ghost(t1@));
        let t2s = string_of(&t2);
        let labels = find_labels(t2s.as_str());
        let t3 = replace_blockrefs_by_placeholders(&t2, &mut placeholders, &labels);
        assert(Seq::new(labels@.len(), |i: int| labels@[i].label@) =~= labels_found(t2@, 0));
        let t3s = string_of(&t3);
        let tags = find_tags(t3s.as_str());
        let content = replace_admonitions(&t3, &mut placeholders);
        let dir = directory_of(path);
        let links = resolve_links(&found, dir.as_str(), vault, search_links, ignore);
        assert(found@.len() == links@.len());
        assert(link_sources(found@).len() == found@.len());
        let title = get_title(path, &frontmatter);
        Note {
            path: path.to_owned(),
            links,
            frontmatter,
            tags,
            content: string_of(&content),
            placeholders,
            title,
            backlinks: Vec::new(),
            creation_date: None,
        }
    }
}

/// What the links found in a note's text are, before resolution: the
/// Obsidian links, then the markdown links of `t`, then the bare addresses of
/// `t1` (the text once those links are hidden).
#[verifier::opaque]
pub open spec fn parsed_links(pre: Seq<Link>, t: Seq<char>, t1: Seq<char>) -> bool {
    let o = obsidian_found(t, 0);
    let m = markdown_found(t, 0);
    let u = crate::extract::urls_found(t1, 0);
    &&& pre.len() == o.len() + m.len() + u.len()
    &&& link_sources(pre) == found_sources(t) + u
    &&& forall|i: int| 0 <= i < o.len() ==> is_obsidian_link(#[trigger] pre[i], o[i].0, o[i].1)
    &&& forall|i: int| 0 <= i < m.len() ==> is_md_link(#[trigger] pre[o.len() + i], m[i].0, m[i].2, Some(m[i].1), m[i].3)
    &&& forall|i: int| 0 <= i < u.len() ==> {
        let l = #[trigger] pre[o.len() + m.len() + i];
        &&& l.target@ == u[i]
        &&& l.subtarget is None
        &&& l.alias is None
        &&& !l.is_attachment
        &&& !l.broken
    }
}

/// The Obsidian links, then the markdown links, of `t`.
fn collect_links(t: &Vec<char>) -> (found: Vec<Link>)
    ensures
        found@.len() == obsidian_found(t@, 0).len() + markdown_found(t@, 0).len(),
        link_sources(found@) == found_sources(t@),
        forall|i: int| 0 <= i < obsidian_found(t@, 0).len() ==> is_obsidian_link(#[trigger] found@[i], obsidian_found(t@, 0)[i].0, obsidian_found(t@, 0)[i].1),
        forall|i: int| 0 <= i < markdown_found(t@, 0).len() ==> is_md_link(#[trigger] found@[obsidian_found(t@, 0).len() + i],
            markdown_found(t@, 0)[i].0, markdown_found(t@, 0)[i].2, Some(markdown_found(t@, 0)[i].1), markdown_found(t@, 0)[i].3),
{
    let ts = string_of(t);
    let obs = find_obsidian_links(ts.as_str());
    let md = find_markdown_links(ts.as_str());
    let mut found: Vec<Link> = Vec::new();
    let mut i: usize = 0;
    while i < obs.len()
        invariant
            i <= obs.len(),
            found@.len() == i,
            obs@.len() == obsidian_found(t@, 0).len(),
            forall|j: int| 0 <= j < obs@.len() ==> is_obsidian_link(#[trigger] obs@[j], obsidian_found(t@, 0)[j].0, obsidian_found(t@, 0)[j].1),
            forall|j: int| 0 <= j < i ==> is_obsidian_link(#[trigger] found@[j], obsidian_found(t@, 0)[j].0, obsidian_found(t@, 0)[j].1),
        decreases obs.len() - i,
    {
        found.push(obs[i].duplicate());
        i = i + 1;
    }
    let mut k: usize = 0;
    while k < md.len()
        invariant
            k <= md.len(),
            found@.len() == obs@.len() + k,
            obs@.len() == obsidian_found(t@, 0).len(),
            md@.len() == markdown_found(t@, 0).len(),
            forall|j: int| 0 <= j < md@.len() ==> ({
                let m = #[trigger] markdown_found(t@, 0)[j];
                is_md_link(md@[j], m.0, m.2, Some(m.1), m.3)
            }),
            forall|j: int| 0 <= j < obs@.len() ==> is_obsidian_link(#[trigger] found@[j], obsidian_found(t@, 0)[j].0, obsidian_found(t@, 0)[j].1),
            forall|j: int| 0 <= j < k ==> is_md_link(#[trigger] found@[obs@.len() + j], markdown_found(t@, 0)[j].0,
                markdown_found(t@, 0)[j].2, Some(markdown_found(t@, 0)[j].1), markdown_found(t@, 0)[j].3),
        decreases md.len() - k,
    {
        proof {
            let m = markdown_found(t@, 0)[k as int];
            assert(is_md_link(md@[k as int], m.0, m.2, Some(m.1), m.3));
        }
        found.push(md[k].duplicate());
        k = k + 1;
    }
    assert(link_sources(found@) =~= found_sources(t@)) by {
        assert forall|j: int| 0 <= j < found@.len() implies link_sources(found@)[j] == found_sources(t@)[j] by {
            if j >= obs@.len() {
                let q = j - obs@.len();
                assert(found@[obs@.len() + q] == found@[j]);
                assert(is_md_link(found@[obs@.len() + q], markdown_found(t@, 0)[q].0, markdown_found(t@, 0)[q].2,
                    Some(markdown_found(t@, 0)[q].1), markdown_found(t@, 0)[q].3));
            } else {
                assert(is_obsidian_link(found@[j], obsidian_found(t@, 0)[j].0, obsidian_found(t@, 0)[j].1));
            }
        }
    }
    found
}

/// Adds the links to bare addresses after the other links.
fn append_raw_links(found: &mut Vec<Link>, raw_links: &Vec<Link>, t: Ghost<Seq<char>>, t1: Ghost<Seq<char>>)
    requires
        old(found)@.len() == obsidian_found(t@, 0).len() + markdown_found(t@, 0).len(),
        link_sources(old(found)@) == found_sources(t@),
        forall|i: int| 0 <= i < obsidian_found(t@, 0).len() ==> is_obsidian_link(#[trigger] old(found)@[i], obsidian_found(t@, 0)[i].0, obsidian_found(t@, 0)[i].1),
        forall|i: int| 0 <= i < markdown_found(t@, 0).len() ==> is_md_link(#[trigger] old(found)@[obsidian_found(t@, 0).len() + i],
            markdown_found(t@, 0)[i].0, markdown_found(t@, 0)[i].2, Some(markdown_found(t@, 0)[i].1), markdown_found(t@, 0)[i].3),
        raw_links@.len() == crate::extract::urls_found(t1@, 0).len(),
        forall|i: int| 0 <= i < raw_links@.len() ==> {
            &&& (#[trigger] raw_links@[i]).target@ == crate::extract::urls_found(t1@, 0)[i]
            &&& raw_links@[i].source_string@ == crate::extract::urls_found(t1@, 0)[i]
            &&& raw_links@[i].subtarget is None
            &&& raw_links@[i].alias is None
            &&& !raw_links@[i].is_attachment
            &&& !raw_links@[i].broken
        },
    ensures
        parsed_links(final(found)@, t@, t1@),
        link_sources(final(found)@) == found_sources(t@) + crate::extract::urls_found(t1@, 0),
{
    let ghost start = found@;
    let ghost n0 = start.len();
    let mut k: usize = 0;
    while k < raw_links.len()
        invariant
            k <= raw_links.len(),
            found@.len() == n0 + k,
            found@.subrange(0, n0 as int) == start,
            n0 == start.len(),
            forall|j: int| 0 <= j < k ==> link_view_eq(#[trigger] found@[n0 + j], raw_links@[j]),
        decreases raw_links.len() - k,
    {
        let ghost f0 = found@;
        found.push(raw_links[k].duplicate());
        assert(found@.subrange(0, n0 as int) =~= f0.subrange(0, n0 as int));
        assert forall|j: int| 0 <= j < k + 1 implies link_view_eq(#[trigger] found@[n0 + j], raw_links@[j]) by {
            if j < k {
                assert(found@[n0 + j] == f0[n0 + j]);
            }
        }
        k = k + 1;
    }
    proof {
        reveal(parsed_links);
        let o = obsidian_found(t@, 0);
        let m = markdown_found(t@, 0);
        let u = crate::extract::urls_found(t1@, 0);
        assert forall|i: int| 0 <= i < o.len() implies is_obsidian_link(#[trigger] found@[i], o[i].0, o[i].1) by {
            assert(found@[i] == found@.subrange(0, n0 as int)[i]);
        }
        assert forall|i: int| 0 <= i < m.len() implies is_md_link(#[trigger] found@[o.len() + i], m[i].0, m[i].2, Some(m[i].1), m[i].3) by {
            assert(found@[o.len() + i] == found@.subrange(0, n0 as int)[o.len() + i]);
        }
        assert forall|i: int| 0 <= i < u.len() implies ({
            let l = #[trigger] found@[o.len() + m.len() + i];
            &&& l.target@ == u[i]
            &&& l.subtarget is None
            &&& l.alias is None
            &&& !l.is_attachment
            &&& !l.broken
        }) by {
            assert(link_view_eq(found@[n0 + i], raw_links@[i]));
        }
        assert(link_sources(found@) =~= found_sources(t@) + u) by {
            assert forall|j: int| 0 <= j < found@.len() implies link_sources(found@)[j] == (found_sources(t@) + u)[j] by {
                if j >= n0 {
                    assert(link_view_eq(found@[n0 + (j - n0)], raw_links@[j - n0]));
                } else {
                    assert(found@[j] == found@.subrange(0, n0 as int)[j]);
                    assert(link_sources(start)[j] == found_sources(t@)[j]);
                }
            }
        }
    }
}

/// Two links with equal fields.
pub open spec fn link_view_eq(a: Link, b: Link) -> bool {
    &&& a.target@ == b.target@
    &&& opt_view(a.subtarget) == opt_view(b.subtarget)
    &&& opt_view(a.alias) == opt_view(b.alias)
    &&& a.source_string@ == b.source_string@
    &&& a.is_attachment == b.is_attachment
    &&& a.broken == b.broken
}

/// A highlighted span.
pub open spec fn highlight_markup(inner: Seq<char>) -> Seq<char> {
    "<span class=\"highlight\">"@ + " "@ + inner + " "@ + "</span>"@
}

/// `content` with each of the given `==`-delimited spans replaced, in turn, by
/// a highlighted span of its inside.
pub open spec fn highlights_applied(content: Seq<char>, spans: Seq<Seq<char>>) -> Seq<char>
    decreases spans.len(),
{
    if spans.len() == 0 {
        content
    } else {
        let s = spans.last();
        crate::text::replaced(highlights_applied(content, spans.drop_last()), s, highlight_markup(
            s.subrange(2, s.len() - 2),
        ))
    }
}

/// The `==`-delimited spans of a text.
pub open spec fn highlight_spans(c: Seq<char>) -> Seq<Seq<char>> {
    let ps = crate::placeholders::pair_scan(c, "=="@, "=="@, 0, None);
    Seq::new(ps.len(), |i: int| c.subrange(ps[i].0, ps[i].1))
}

/// Replace highlights, written `==text==`, by spans of class `highlight`.
pub fn replace_obs_highlights(content: &str) -> (r: String)
    ensures
        r@ == highlights_applied(content@, highlight_spans(content@)),
{
    let delims = crate::placeholders::DelimPair::new("==", "==");
    proof { reveal_strlit("=="); }
    let recs = crate::placeholders::generate_placeholders(content, &delims);
    let ghost spans = highlight_spans(content@);
    assert(records_view(recs@).len() == spans.len());
    let mut cur = chars_of(content);
    let mut i: usize = 0;
    while i < recs.len()
        invariant
            i <= recs.len(),
            records_view(recs@) == crate::placeholders::pair_records(content@, "=="@, "=="@, true),
            spans == highlight_spans(content@),
            recs@.len() == spans.len(),
            "=="@.len() == 2,
            cur@ == highlights_applied(content@, spans.subrange(0, i as int)),
        decreases recs.len() - i,
    {
        let o = chars_of(recs[i].original.as_str());
        assert(records_view(recs@)[i as int].0 == recs@[i as int].original@);
        assert(o@ == spans[i as int]);
        proof { lemma_pair_span_delimited(content@, i as int); }
        let inner = slice(&o, 2, o.len() - 2);
        let mut h: Vec<char> = Vec::new();
        push_str(&mut h, "<span class=\"highlight\">");
        push_str(&mut h, " ");
        push_all(&mut h, &inner);
        push_str(&mut h, " ");
        push_str(&mut h, "</span>");
        cur = crate::text::replace_all(&cur, &o, &h);
        proof {
            let pre = spans.subrange(0, i + 1);
            assert(pre.drop_last() =~= spans.subrange(0, i as int));
        }
        i = i + 1;
    }
    assert(spans.subrange(0, spans.len() as int) =~= spans);
    string_of(&cur)
}

/// Every `==` span is at least four characters long.
proof fn lemma_pair_span_delimited(c: Seq<char>, i: int)
    requires
        0 <= i < highlight_spans(c).len(),
        "=="@.len() == 2,
    ensures
        highlight_spans(c)[i].len() >= 4,
{
    lemma_scan_spans_long(c, 0, None, i);
    crate::placeholders::lemma_pair_scan_bounds(c, "=="@, "=="@, 0, None, i);
}

proof fn lemma_scan_spans_long(c: Seq<char>, start: int, open_at: Option<int>, k: int)
    requires
        0 <= start,
        "=="@.len() == 2,
        open_at matches Some(b) ==> 0 <= b && b + 2 <= start,
        0 <= k < crate::placeholders::pair_scan(c, "=="@, "=="@, start, open_at).len(),
    ensures
        crate::placeholders::pair_scan(c, "=="@, "=="@, start, open_at)[k].1 - crate::placeholders::pair_scan(c, "=="@, "=="@, start, open_at)[k].0 >= 4,
    decreases c.len() + 1 - start,
{
    let o = "=="@;
    match open_at {
        None => match crate::placeholders::first_occurrence(c, o, start) {
            Some(a) => if o.len() > 0 && start <= a && a + o.len() <= c.len() {
                lemma_scan_spans_long(c, a + o.len(), Some(a), k);
            },
            None => {},
        },
        Some(b) => match crate::placeholders::first_occurrence(c, o, start) {
            Some(a) => if o.len() > 0 && start <= a && a + o.len() <= c.len() {
                if k > 0 {
                    lemma_scan_spans_long(c, a + o.len(), None, k - 1);
                }
            },
            None => {},
        },
    }
}

/// `content` with each link's source text replaced, in turn, by the link in HTML.
pub open spec fn links_rendered(content: Seq<char>, links: Seq<Link>) -> Seq<char>
    decreases links.len(),
{
    if links.len() == 0 {
        content
    } else {
        let l = links.last();
        crate::text::replaced(links_rendered(content, links.drop_last()), l.source_string@, crate::formatting::rendered(l, true))
    }
}

/// `content` with each tag's source text replaced, in turn, by the tag's link.
pub open spec fn tags_rendered(content: Seq<char>, tags: Seq<Tag>) -> Seq<char>
    decreases tags.len(),
{
    if tags.len() == 0 {
        content
    } else {
        let t = tags.last();
        crate::text::replaced(tags_rendered(content, tags.drop_last()), t.source@, crate::formatting::tag_markup(t.tag_path@))
    }
}

/// The markdown text of a note, ready for the markdown conversion.
pub open spec fn markdown_of(n: Note) -> Seq<char> {
    let c1 = highlights_applied(n.content@, highlight_spans(n.content@));
    let c2 = crate::sanitization::restored(c1, records_view(n.placeholders@), true);
    let c3 = links_rendered(c2, n.links@);
    let c4 = tags_rendered(c3, n.tags@);
    header_lines(lines_of(c4), HeaderState::Idle)
}

/// The element that lists a note's backlinks, if it has any.
pub open spec fn backlinks_markup(items: Seq<Seq<char>>) -> Seq<char> {
    if items.len() == 0 {
        Seq::empty()
    } else {
        crate::html::div_markup("backlinks"@, crate::html::raw_element(crate::html::list_items(items), "ul"@, Seq::empty()))
    }
}

/// The list entry of one backlink: an anchor to the referring note's page.
pub open spec fn backlink_item(l: Link) -> Seq<char> {
    crate::html::link_element(crate::slug::slug_path(l.target@, Some("html"@)), crate::link::link_text_of(l), Seq::empty())
}

/// The element that shows a creation date, day-month-year.
pub open spec fn date_markup(d: Option<(u32, u32, u32)>) -> Seq<char> {
    match d {
        None => Seq::empty(),
        Some((y, m, day)) => crate::html::div_markup("date-added"@, crate::sanitization::decimal(day as nat) + seq!['-']
            + crate::sanitization::decimal(m as nat) + seq!['-'] + crate::sanitization::decimal(y as nat)),
    }
}

/// The page of a note: the template with its date, content, title and
/// backlinks filled in, in that order.
pub open spec fn page_of(n: Note, html: Seq<char>, template: Seq<char>) -> Seq<char> {
    let body = crate::sanitization::restored_all(html, records_view(n.placeholders@));
    let items = Seq::new(n.backlinks@.len(), |i: int| backlink_item(n.backlinks@[i]));
    let t1 = crate::text::replaced(template, "{{date}}"@, date_markup(n.creation_date));
    let t2 = crate::text::replaced(t1, "{{content}}"@, body);
    let t3 = crate::text::replaced(t2, "{{title}}"@, n.title@);
    crate::text::replaced(t3, "{{backlinks}}"@, backlinks_markup(items))
}

impl Note {
    /// The note's text for the markdown conversion: highlights marked up,
    /// records of the early phase restored, links and tags rendered, and a
    /// blank line put before headings.
    #[verifier::rlimit(40)]
    pub fn markdown_source(&self) -> (r: String)
        ensures
            r@ == markdown_of(*self),
    {
        let c1 = replace_obs_highlights(self.content.as_str());
        let c1v = chars_of(c1.as_str());
        let mut c = crate::sanitization::restore(&c1v, &self.placeholders, true);
        let ghost c2 = c@;
        let mut i: usize = 0;
        while i < self.links.len()
            invariant
                i <= self.links.len(),
                c@ == links_rendered(c2, self.links@.subrange(0, i as int)),
            decreases self.links.len() - i,
        {
            let src = chars_of(self.links[i].source_string.as_str());
            let html = chars_of(crate::formatting::link_to_html(&self.links[i]).as_str());
            c = crate::text::replace_all(&c, &src, &html);
            proof {
                let pre = self.links@.subrange(0, i + 1);
                assert(pre.drop_last() =~= self.links@.subrange(0, i as int));
            }
            i = i + 1;
        }
        assert(self.links@.subrange(0, self.links@.len() as int) =~= self.links@);
        let ghost c3 = c@;
        let mut k: usize = 0;
        while k < self.tags.len()
            invariant
                k <= self.tags.len(),
                c@ == tags_rendered(c3, self.tags@.subrange(0, k as int)),
            decreases self.tags.len() - k,
        {
            let src = chars_of(self.tags[k].source.as_str());
            let html = chars_of(crate::formatting::tag_to_md(&self.tags[k]).as_str());
            c = crate::text::replace_all(&c, &src, &html);
            proof {
                let pre = self.tags@.subrange(0, k + 1);
                assert(pre.drop_last() =~= self.tags@.subrange(0, k as int));
            }
            k = k + 1;
        }
        assert(self.tags@.subrange(0, self.tags@.len() as int) =~= self.tags@);
        string_of(&process_headers(&c))
    }

    /// One list entry per backlink.
    pub fn backlink_items(&self) -> (r: Vec<String>)
        ensures
            crate::html::strings_view(r@) == Seq::new(self.backlinks@.len(), |i: int| backlink_item(self.backlinks@[i])),
    {
        let mut items: Vec<String> = Vec::new();
        let mut i: usize = 0;
        proof { reveal_strlit("html"); reveal_strlit(""); }
        while i < self.backlinks.len()
            invariant
                i <= self.backlinks.len(),
                ""@ =~= Seq::<char>::empty(),
                crate::html::strings_view(items@) =~= Seq::new(i as nat, |j: int| backlink_item(self.backlinks@[j])),
            decreases self.backlinks.len() - i,
        {
            let item = backlink_entry(&self.backlinks[i]);
            let ghost it0 = items@;
            items.push(item);
            assert(crate::html::strings_view(items@) =~= crate::html::strings_view(it0).push(item@));
            i = i + 1;
        }
        items
    }

    /// The element listing the note's backlinks; empty without backlinks.
    pub fn backlinks_html(&self) -> (r: String)
        ensures
            r@ == backlinks_markup(Seq::new(self.backlinks@.len(), |i: int| backlink_item(self.backlinks@[i]))),
    {
        let items = self.backlink_items();
        if items.len() == 0 {
            return String::new();
        }
        let list = crate::html::ul(&items, "");
        let d = crate::html::HtmlTag::div().with_class("backlinks");
        let r = d.wrap(list.as_str());
        proof {
            reveal_strlit("");
            assert(""@ =~= Seq::<char>::empty());
            assert(d.classes() =~= seq!["backlinks"@]);
            crate::html::lemma_div_one_class(d, "backlinks"@, list@);
        }
        r
    }

    /// The page of the note, from the HTML of its markdown text and a
    /// template holding `{{date}}`, `{{content}}`, `{{title}}` and `{{backlinks}}`.
    pub fn render_page(&self, html: &str, template: &str) -> (r: String)
        ensures
            r@ == page_of(*self, html@, template@),
    {
        let hv = chars_of(html);
        let body = crate::sanitization::restore_all(&hv, &self.placeholders);
        let back = self.backlinks_html();
        let date = date_html(self.creation_date);
        let tv = chars_of(template);
        let t1 = crate::text::replace_all(&tv, &chars_of("{{date}}"), &chars_of(date.as_str()));
        let t2 = crate::text::replace_all(&t1, &chars_of("{{content}}"), &body);
        let t3 = crate::text::replace_all(&t2, &chars_of("{{title}}"), &chars_of(self.title.as_str()));
        let t4 = crate::text::replace_all(&t3, &chars_of("{{backlinks}}"), &chars_of(back.as_str()));
        string_of(&t4)
    }

    /// Records a note that links here.
    pub fn add_backlink(&mut self, link: Link)
        ensures
            final(self).backlinks@ == old(self).backlinks@.push(link),
            final(self).path == old(self).path,
            final(self).content == old(self).content,
            final(self).title == old(self).title,
            final(self).links == old(self).links,
            final(self).tags == old(self).tags,
            final(self).placeholders == old(self).placeholders,
            final(self).creation_date == old(self).creation_date,
    {
        self.backlinks.push(link);
    }

    /// The creation date of the note, once known.
    pub fn get_creation_date(&self) -> (r: Option<(u32, u32, u32)>)
        ensures
            r == self.creation_date,
    {
        self.creation_date
    }

    /// Fixes the creation date, unless it is known already: the front matter's
    /// `date_created` in the form year-month-day or day-month-year, else the
    /// date `fallback` that the caller found (version control or the file's
    /// modification time).
    pub fn cache_creation_time(&mut self, fallback: Option<(u32, u32, u32)>)
        ensures
            old(self).creation_date is Some ==> final(self).creation_date == old(self).creation_date,
            old(self).creation_date is None ==> final(self).creation_date == (match old(self).frontmatter {
                Some(f) => match f.date_created {
                    Some(d) => match crate::frontmatter::date_of(d@, "%Y-%m-%d"@) {
                        Some(x) => Some(x),
                        None => match crate::frontmatter::date_of(d@, "%d-%m-%Y"@) {
                            Some(x) => Some(x),
                            None => fallback,
                        },
                    },
                    None => fallback,
                },
                None => fallback,
            }),
            final(self).path == old(self).path,
            final(self).backlinks == old(self).backlinks,
            final(self).title == old(self).title,
    {
        if self.creation_date.is_some() {
            return;
        }
        let from_fm = match &self.frontmatter {
            Some(f) => match &f.date_created {
                Some(d) => match crate::frontmatter::parse_date(d.as_str(), "%Y-%m-%d") {
                    Some(x) => Some(x),
                    None => crate::frontmatter::parse_date(d.as_str(), "%d-%m-%Y"),
                },
                None => None,
            },
            None => None,
        };
        self.creation_date = match from_fm {
            Some(x) => Some(x),
            None => fallback,
        };
    }
}

/// The element that shows a creation date; empty without a date.
pub fn date_html(d: Option<(u32, u32, u32)>) -> (r: String)
    ensures
        r@ == date_markup(d),
{
    match d {
        None => String::new(),
        Some((y, m, day)) => {
            let mut t: Vec<char> = Vec::new();
            crate::sanitization::push_decimal(&mut t, day as u64);
            t.push('-');
            crate::sanitization::push_decimal(&mut t, m as u64);
            t.push('-');
            crate::sanitization::push_decimal(&mut t, y as u64);
            let ts = string_of(&t);
            let div = crate::html::HtmlTag::div().with_class("date-added");
            let r = div.wrap(ts.as_str());
            proof {
                assert(div.classes() =~= seq!["date-added"@]);
                crate::html::lemma_div_one_class(div, "date-added"@, ts@);
            }
            r
        },
    }
}

/// The list entry of one backlink.
fn backlink_entry(l: &Link) -> (r: String)
    ensures
        r@ == backlink_item(*l),
{
    let page = crate::slug::output_path(l.target.as_str(), Some("html"));
    let text = l.link_text();
    proof { reveal_strlit("html"); reveal_strlit(""); }
    assert(""@ =~= Seq::<char>::empty());
    crate::html::link(page.as_str(), text.as_str(), "")
}

} // verus!
