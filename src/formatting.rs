//! Rendering links and tags as markdown or HTML.
use vstd::prelude::*;
use crate::extract::Tag;
use crate::link::{link_text_of, link_type_of, opt_view, FileType, Link, LinkType};
use crate::paths::last_index;
use crate::sanitization::{decimal, push_decimal};
use crate::slug::{output_path, slug_of, slug_path, slugify};
use crate::text::{chars_of, push_all, push_str, slice, string_of};
use crate::utils::dims_of;

verus! {

/// Directory of the tag pages.
pub const TAG_DIR: &'static str = "tags";

/// `[text](target)`.
pub open spec fn md_link_spec(text: Seq<char>, target: Seq<char>) -> Seq<char> {
    "["@ + text + "]("@ + target + ")"@
}

/// An inline anchor, marked broken or not.
pub open spec fn anchor(target: Seq<char>, text: Seq<char>, broken: bool) -> Seq<char> {
    "<a href=\""@ + target + "\""@ + (if broken { " class=\"broken\""@ } else { Seq::empty() }) + ">"@
        + " "@ + text + " "@ + "</a>"@
}

/// A link to `target` showing `text`: an anchor when rendering HTML or when
/// the link is broken, markdown otherwise.
pub open spec fn link_aux(target: Seq<char>, text: Seq<char>, to_html: bool, broken: bool) -> Seq<char> {
    if to_html || broken {
        anchor(target, text, broken)
    } else {
        md_link_spec(text, target)
    }
}

/// Where a link to a note points in the site: the note's output page and the
/// anchor of its subtarget, a block label as written, a heading slugged.
pub open spec fn note_href(l: Link) -> Seq<char> {
    let page = slug_path(l.target@, Some("html"@));
    match opt_view(l.subtarget) {
        None => page,
        Some(s) => page + seq!['#'] + (if s.len() > 0 && s[0] == '^' { s.subrange(1, s.len() as int) } else { slug_of(s) }),
    }
}

/// Size attributes of a media element.
pub open spec fn dims_attrs(alias: Option<Seq<char>>, is_attachment: bool) -> Seq<char> {
    match alias {
        Some(a) if is_attachment => match dims_of(a) {
            Some(d) => " width=\""@ + decimal(d.width as nat) + "\""@ + match d.height {
                Some(h) => " height=\""@ + decimal(h as nat) + "\""@,
                None => Seq::empty(),
            },
            None => Seq::empty(),
        },
        _ => Seq::empty(),
    }
}

/// How a link is rendered.
pub open spec fn rendered(l: Link, to_html: bool) -> Seq<char> {
    let text = link_text_of(l);
    match link_type_of(l.target@, l.is_attachment) {
        LinkType::Note => link_aux(note_href(l), text, to_html, l.broken),
        LinkType::Internal => link_aux(
            match opt_view(l.subtarget) {
                Some(s) => seq!['#'] + s,
                None => Seq::empty(),
            },
            text,
            to_html,
            false,
        ),
        LinkType::External => md_link_spec(text, l.target@),
        LinkType::Attachment(FileType::Image) => "<img src=\""@ + slug_path(l.target@, None) + "\""@
            + dims_attrs(opt_view(l.alias), l.is_attachment) + ">  </img>"@,
        LinkType::Attachment(FileType::Video) => "<video src=\""@ + slug_path(l.target@, None)
            + "\" controls=\"\""@ + dims_attrs(opt_view(l.alias), l.is_attachment) + ">  </video>"@,
        LinkType::Attachment(_) => link_aux(l.target@, text, to_html, false),
    }
}

fn push_link_aux(out: &mut Vec<char>, target: &Vec<char>, text: &Vec<char>, to_html: bool, broken: bool)
    ensures
        final(out)@ == old(out)@ + link_aux(target@, text@, to_html, broken),
{
    let ghost start = out@;
    if to_html || broken {
        push_str(out, "<a href=\"");
        push_all(out, target);
        push_str(out, "\"");
        if broken {
            push_str(out, " class=\"broken\"");
        }
        push_str(out, ">");
        push_str(out, " ");
        push_all(out, text);
        push_str(out, " ");
        push_str(out, "</a>");
        proof { reveal_strlit(""); }
        assert(out@ =~= start + anchor(target@, text@, broken));
    } else {
        push_str(out, "[");
        push_all(out, text);
        push_str(out, "](");
        push_all(out, target);
        push_str(out, ")");
        assert(out@ =~= start + md_link_spec(text@, target@));
    }
}

fn push_dims(out: &mut Vec<char>, l: &Link)
    ensures
        final(out)@ == old(out)@ + dims_attrs(opt_view(l.alias), l.is_attachment),
{
    let ghost start = out@;
    match l.parse_dims() {
        Some(d) => {
            push_str(out, " width=\"");
            push_decimal(out, d.width as u64);
            push_str(out, "\"");
            match d.height {
                Some(h) => {
                    push_str(out, " height=\"");
                    push_decimal(out, h as u64);
                    push_str(out, "\"");
                },
                None => {},
            }
        },
        None => {},
    }
    assert(out@ =~= start + dims_attrs(opt_view(l.alias), l.is_attachment));
}

/// Renders a link as HTML, or as markdown where markdown serves.
pub fn render_link(link: &Link, to_html: bool) -> (r: String)
    ensures
        r@ == rendered(*link, to_html),
{
    let text = chars_of(link.link_text().as_str());
    let target = chars_of(link.target.as_str());
    let mut out: Vec<char> = Vec::new();
    match link.link_type() {
        LinkType::Note => {
            let page = output_path(link.target.as_str(), Some("html"));
            let mut href = chars_of(page.as_str());
            match &link.subtarget {
                Some(s) => {
                    href.push('#');
                    let sv = chars_of(s.as_str());
                    if sv.len() > 0 && sv[0] == '^' {
                        let rest = slice(&sv, 1, sv.len());
                        push_all(&mut href, &rest);
                    } else {
                        let sl = slugify(s.as_str());
                        push_str(&mut href, sl.as_str());
                    }
                },
                None => {},
            }
            assert(href@ =~= note_href(*link));
            push_link_aux(&mut out, &href, &text, to_html, link.broken);
        },
        LinkType::Internal => {
            let mut href: Vec<char> = Vec::new();
            match &link.subtarget {
                Some(s) => {
                    href.push('#');
                    push_str(&mut href, s.as_str());
                },
                None => {},
            }
            push_link_aux(&mut out, &href, &text, to_html, false);
        },
        LinkType::External => {
            push_link_aux(&mut out, &target, &text, false, false);
        },
        LinkType::Attachment(FileType::Image) => {
            let src = output_path(link.target.as_str(), None);
            push_str(&mut out, "<img src=\"");
            push_str(&mut out, src.as_str());
            push_str(&mut out, "\"");
            push_dims(&mut out, link);
            push_str(&mut out, ">  </img>");
        },
        LinkType::Attachment(FileType::Video) => {
            let src = output_path(link.target.as_str(), None);
            push_str(&mut out, "<video src=\"");
            push_str(&mut out, src.as_str());
            push_str(&mut out, "\" controls=\"\"");
            push_dims(&mut out, link);
            push_str(&mut out, ">  </video>");
        },
        LinkType::Attachment(_) => {
            push_link_aux(&mut out, &target, &text, to_html, false);
        },
    }
    proof { reveal_strlit("html"); }
    assert(out@ =~= rendered(*link, to_html));
    string_of(&out)
}

/// A link rendered as HTML.
pub fn link_to_html(link: &Link) -> (r: String)
    ensures
        r@ == rendered(*link, true),
{
    render_link(link, true)
}

/// A link rendered as markdown where markdown serves.
pub fn link_to_md(link: &Link) -> (r: String)
    ensures
        r@ == rendered(*link, false),
{
    render_link(link, false)
}

impl Link {
    pub fn to_html(&self) -> (r: String)
        ensures
            r@ == rendered(*self, true),
    {
        link_to_html(self)
    }

    pub fn to_md(&self) -> (r: String)
        ensures
            r@ == rendered(*self, false),
    {
        link_to_md(self)
    }
}

/// The file name of a tag's page.
pub open spec fn tag_page_name(name: Seq<char>) -> Seq<char> {
    "tag-"@ + name + ".html"@
}

pub fn generate_tag_page_name(name: &str) -> (r: String)
    ensures
        r@ == tag_page_name(name@),
{
    let mut out: Vec<char> = Vec::new();
    push_str(&mut out, "tag-");
    push_str(&mut out, name);
    push_str(&mut out, ".html");
    string_of(&out)
}

/// The site path of a tag's page: the parent segments as directories below
/// the tag directory, then the page of the last segment.
pub open spec fn tag_page_path(path: Seq<char>) -> Seq<char> {
    let k = last_index(path, '/');
    "/"@ + "tags"@ + "/"@ + path.subrange(0, k + 1) + tag_page_name(path.subrange(k + 1, path.len() as int))
}

pub fn format_tag_path(tag: &Tag) -> (r: String)
    ensures
        r@ == tag_page_path(tag.tag_path@),
{
    let p = chars_of(tag.tag_path.as_str());
    let k: usize = match crate::paths::last_index_of(&p, '/') {
        Some(k) => k + 1,
        None => 0,
    };
    let mut out: Vec<char> = Vec::new();
    push_str(&mut out, "/");
    push_str(&mut out, TAG_DIR);
    push_str(&mut out, "/");
    let dir = slice(&p, 0, k);
    push_all(&mut out, &dir);
    let last = string_of(&slice(&p, k, p.len()));
    let page = generate_tag_page_name(last.as_str());
    push_str(&mut out, page.as_str());
    proof { reveal_strlit("tags"); }
    assert(out@ =~= tag_page_path(tag.tag_path@));
    string_of(&out)
}

/// A tag rendered as a link to its page.
pub open spec fn tag_markup(tag_path: Seq<char>) -> Seq<char> {
    "<span class=\"tag\">"@ + " "@ + anchor(tag_page_path(tag_path), tag_path, false) + " "@ + "</span>"@
}

pub fn tag_to_md(tag: &Tag) -> (r: String)
    ensures
        r@ == tag_markup(tag.tag_path@),
{
    let href = chars_of(format_tag_path(tag).as_str());
    let text = chars_of(tag.tag_path.as_str());
    let mut out: Vec<char> = Vec::new();
    push_str(&mut out, "<span class=\"tag\">");
    push_str(&mut out, " ");
    push_link_aux(&mut out, &href, &text, true, false);
    push_str(&mut out, " ");
    push_str(&mut out, "</span>");
    assert(out@ =~= tag_markup(tag.tag_path@));
    string_of(&out)
}

} // verus!
