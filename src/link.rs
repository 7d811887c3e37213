//! Links between notes, to attachments and to outside pages, and the parser of
//! the Obsidian link dialect `target#subtarget|alias`.
use vstd::prelude::*;
use crate::chars::{trim, trimmed, lower_seq, lower_all, is_ascii_digit};
use crate::errors::InvalidObsidianLink;
use crate::paths::{extension, extension_of, file_name, file_name_of, without_extension, without_extension_of};
use crate::text::{chars_of, slice, string_of, push_all, occurs_at};

verus! {

/// Width, and optionally height, in pixels.
#[derive(Debug, PartialEq, Eq, Structural, Clone, Copy, Hash)]
pub struct Dimensions {
    pub width: u32,
    pub height: Option<u32>,
}

impl Dimensions {
    pub fn new(width: u32) -> (r: Dimensions)
        ensures
            r.width == width,
            r.height is None,
    {
        Dimensions { width, height: None }
    }

    pub fn new_with_details(width: u32, height: u32) -> (r: Dimensions)
        ensures
            r.width == width,
            r.height == Some(height),
    {
        Dimensions { width, height: Some(height) }
    }
}

#[derive(Debug, PartialEq, Eq, Hash)]
pub struct Link {
    /// Path of the target, or the address of an outside page.
    pub target: String,
    /// Heading or block label inside the target.
    pub subtarget: Option<String>,
    /// Text shown for the link.
    pub alias: Option<String>,
    /// The text the link was written as.
    pub source_string: String,
    pub is_attachment: bool,
    /// Set by the link resolver when the target cannot be found.
    pub broken: bool,
}

#[derive(Debug, PartialEq, Eq, Structural, Clone, Copy)]
pub enum FileType {
    Pdf,
    Image,
    Video,
    Audio,
    Misc,
}

#[derive(Debug, PartialEq, Eq, Structural, Clone, Copy)]
pub enum LinkType {
    External,
    Note,
    Internal,
    Attachment(FileType),
}

/// What an in-page reference points at.
#[derive(Debug, PartialEq, Eq, Structural, Clone, Copy)]
pub enum InternalType {
    Header,
    Blockref,
}

impl Link {
    /// What the subtarget of the link points at: a block label when it was
    /// written with `^`, a heading otherwise; nothing without a subtarget.
    pub fn internal_type(&self) -> (r: Option<InternalType>)
        ensures
            match opt_view(self.subtarget) {
                None => r is None,
                Some(s) => r == Some(if s.len() > 0 && s[0] == '^' { InternalType::Blockref } else { InternalType::Header }),
            },
    {
        match &self.subtarget {
            None => None,
            Some(s) => {
                let v = chars_of(s.as_str());
                if v.len() > 0 && v[0] == '^' {
                    Some(InternalType::Blockref)
                } else {
                    Some(InternalType::Header)
                }
            },
        }
    }
}

pub open spec fn opt_view(o: Option<String>) -> Option<Seq<char>> {
    match o {
        Some(s) => Some(s@),
        None => None,
    }
}

pub fn clone_opt(o: &Option<String>) -> (r: Option<String>)
    ensures
        opt_view(r) == opt_view(*o),
{
    match o {
        Some(s) => Some(s.clone()),
        None => None,
    }
}

pub open spec fn is_img_ext(x: Seq<char>) -> bool {
    x == seq!['j', 'p', 'g'] || x == seq!['j', 'p', 'e', 'g'] || x == seq!['p', 'n', 'g'] || x
        == seq!['g', 'i', 'f'] || x == seq!['b', 'm', 'p'] || x == seq!['s', 'v', 'g'] || x
        == seq!['i', 'c', 'o'] || x == seq!['w', 'e', 'b', 'p']
}

pub open spec fn is_video_ext(x: Seq<char>) -> bool {
    x == seq!['m', 'p', '4'] || x == seq!['w', 'e', 'b', 'm'] || x == seq!['o', 'g', 'v'] || x
        == seq!['m', 'o', 'v'] || x == seq!['a', 'v', 'i'] || x == seq!['w', 'm', 'v'] || x
        == seq!['f', 'l', 'v'] || x == seq!['m', 'k', 'v']
}

pub open spec fn is_audio_ext(x: Seq<char>) -> bool {
    x == seq!['m', 'p', '3'] || x == seq!['o', 'g', 'g'] || x == seq!['w', 'a', 'v'] || x
        == seq!['a', 'a', 'c'] || x == seq!['m', '4', 'a'] || x == seq!['w', 'e', 'b', 'm']
}

/// Kind of attachment, from the extension of its path taken in ASCII lower
/// case. A missing extension, or one of five characters or more, gives `Misc`.
pub open spec fn file_type_of(path: Seq<char>) -> FileType {
    match extension(path) {
        None => FileType::Misc,
        Some(e) => {
            let x = lower_seq(e);
            if x.len() >= 5 {
                FileType::Misc
            } else if is_img_ext(x) {
                FileType::Image
            } else if is_video_ext(x) {
                FileType::Video
            } else if is_audio_ext(x) {
                FileType::Audio
            } else if x == seq!['p', 'd', 'f'] {
                FileType::Pdf
            } else {
                FileType::Misc
            }
        },
    }
}

fn is3(x: &Vec<char>, a: char, b: char, c: char) -> (r: bool)
    ensures
        r == (x@ == seq![a, b, c]),
{
    let r = x.len() == 3 && x[0] == a && x[1] == b && x[2] == c;
    if r {
        assert(x@ =~= seq![a, b, c]);
    }
    r
}

fn is4(x: &Vec<char>, a: char, b: char, c: char, d: char) -> (r: bool)
    ensures
        r == (x@ == seq![a, b, c, d]),
{
    let r = x.len() == 4 && x[0] == a && x[1] == b && x[2] == c && x[3] == d;
    if r {
        assert(x@ =~= seq![a, b, c, d]);
    }
    r
}

/// Kind of attachment that the file at `path` holds.
pub fn attachment_type_from_file(path: &Vec<char>) -> (r: FileType)
    ensures
        r == file_type_of(path@),
{
    let e = match extension_of(path) {
        None => { return FileType::Misc; },
        Some(e) => e,
    };
    let x = lower_all(&e);
    if x.len() >= 5 {
        return FileType::Misc;
    }
    if is3(&x, 'j', 'p', 'g')
        || is4(&x, 'j', 'p', 'e', 'g')
        || is3(&x, 'p', 'n', 'g')
        || is3(&x, 'g', 'i', 'f')
        || is3(&x, 'b', 'm', 'p')
        || is3(&x, 's', 'v', 'g')
        || is3(&x, 'i', 'c', 'o')
        || is4(&x, 'w', 'e', 'b', 'p') {
        FileType::Image
    } else if is3(&x, 'm', 'p', '4')
        || is4(&x, 'w', 'e', 'b', 'm')
        || is3(&x, 'o', 'g', 'v')
        || is3(&x, 'm', 'o', 'v')
        || is3(&x, 'a', 'v', 'i')
        || is3(&x, 'w', 'm', 'v')
        || is3(&x, 'f', 'l', 'v')
        || is3(&x, 'm', 'k', 'v') {
        FileType::Video
    } else if is3(&x, 'm', 'p', '3')
        || is3(&x, 'o', 'g', 'g')
        || is3(&x, 'w', 'a', 'v')
        || is3(&x, 'a', 'a', 'c')
        || is3(&x, 'm', '4', 'a')
        || is4(&x, 'w', 'e', 'b', 'm') {
        FileType::Audio
    } else if is3(&x, 'p', 'd', 'f') {
        FileType::Pdf
    } else {
        FileType::Misc
    }
}

pub open spec fn http_prefix() -> Seq<char> {
    seq!['h', 't', 't', 'p', ':', '/', '/']
}

pub open spec fn https_prefix() -> Seq<char> {
    seq!['h', 't', 't', 'p', 's', ':', '/', '/']
}

/// Whether a target is the address of an outside page.
pub open spec fn is_external(t: Seq<char>) -> bool {
    occurs_at(t, http_prefix(), 0) || occurs_at(t, https_prefix(), 0)
}

/// The kind of a link, a function of its target and attachment flag.
pub open spec fn link_type_of(target: Seq<char>, is_attachment: bool) -> LinkType {
    if is_attachment {
        LinkType::Attachment(file_type_of(target))
    } else if is_external(target) {
        LinkType::External
    } else if target.len() == 0 {
        LinkType::Internal
    } else {
        LinkType::Note
    }
}

pub fn is_external_target(t: &Vec<char>) -> (r: bool)
    ensures
        r == is_external(t@),
{
    let a = vec!['h', 't', 't', 'p', ':', '/', '/'];
    let b = vec!['h', 't', 't', 'p', 's', ':', '/', '/'];
    assert(a@ =~= http_prefix());
    assert(b@ =~= https_prefix());
    crate::text::starts_with(t, &a) || crate::text::starts_with(t, &b)
}

/// Text shown for a link without alias.
pub open spec fn default_text(l: Link) -> Seq<char> {
    match link_type_of(l.target@, l.is_attachment) {
        LinkType::Internal => match l.subtarget {
            Some(s) => s@,
            None => seq!['.'],
        },
        LinkType::Note => file_name(without_extension(l.target@)),
        _ => l.target@,
    }
}

/// Text shown for a link: its alias, or else a text taken from its target.
pub open spec fn link_text_of(l: Link) -> Seq<char> {
    match l.alias {
        Some(a) => a@,
        None => default_text(l),
    }
}

/// Whether a note target needs the markdown extension added: it is not an
/// attachment, not empty, and has no `md` or `html` extension.
pub open spec fn needs_md_ext(target: Seq<char>, is_attachment: bool) -> bool {
    !is_attachment && target.len() > 0 && match extension(target) {
        None => true,
        Some(e) => e != seq!['m', 'd'] && e != seq!['h', 't', 'm', 'l'],
    }
}

pub open spec fn md_ext() -> Seq<char> {
    seq!['.', 'm', 'd']
}

pub open spec fn is_file_char(c: char) -> bool {
    c != '#' && c != '^' && c != '|'
}

pub open spec fn is_section_char(c: char) -> bool {
    c != '^' && c != ']' && c != '[' && c != '#'
}

/// The first position at or after `i` that ends the file part.
pub open spec fn file_end(s: Seq<char>, i: int) -> int
    decreases s.len() - i,
{
    if i < 0 || i >= s.len() || !is_file_char(s[i]) {
        i
    } else {
        file_end(s, i + 1)
    }
}

/// Whether an alias starts at `m`: a bar followed by at least one character,
/// none of them a line break.
pub open spec fn label_at(s: Seq<char>, m: int) -> bool {
    0 <= m && m + 1 < s.len() && s[m] == '|' && forall|k: int| m < k < s.len() ==> s[k] != '\n'
}

/// The shortest section from `j` whose end, at or after `m`, is followed by an
/// alias or the end of the text.
pub open spec fn section_end(s: Seq<char>, m: int) -> Option<int>
    decreases s.len() + 1 - m,
{
    if m < 1 || m > s.len() || !is_section_char(s[m - 1]) {
        None
    } else if m == s.len() || label_at(s, m) {
        Some(m)
    } else {
        section_end(s, m + 1)
    }
}

/// The parts of an Obsidian link: file, section and alias, as the link
/// grammar splits them, or `None` when the text does not follow it.
pub open spec fn obsidian_parts(s: Seq<char>) -> Option<(Seq<char>, Option<Seq<char>>, Option<Seq<char>>)> {
    let k = file_end(s, 0);
    let file = s.subrange(0, k);
    if k >= s.len() {
        Some((s, None, None))
    } else if s[k] == '^' {
        None
    } else if s[k] == '|' {
        if label_at(s, k) {
            Some((file, None, Some(s.subrange(k + 1, s.len() as int))))
        } else {
            None
        }
    } else {
        let j = if k + 1 < s.len() && s[k + 1] == '^' { k + 2 } else { k + 1 };
        if j >= s.len() {
            None
        } else {
            match section_end(s, j + 1) {
                None => None,
                Some(m) => Some(
                    (
                        file,
                        Some(s.subrange(j, m)),
                        if m == s.len() { None } else { Some(s.subrange(m + 1, s.len() as int)) },
                    ),
                ),
            }
        }
    }
}

/// The target that a link's file part gives.
pub open spec fn target_of(file: Seq<char>, is_attachment: bool) -> Seq<char> {
    let t = trimmed(file);
    if needs_md_ext(t, is_attachment) {
        t + md_ext()
    } else {
        t
    }
}

/// The text an Obsidian link is written as.
pub open spec fn obsidian_source(s: Seq<char>, is_attachment: bool) -> Seq<char> {
    (if is_attachment { seq!['!'] } else { Seq::empty() }) + seq!['[', '['] + s + seq![']', ']']
}

/// Whether `l` is the link that the Obsidian link text `s` describes.
pub open spec fn is_obsidian_link(l: Link, s: Seq<char>, is_attachment: bool) -> bool {
    match obsidian_parts(s) {
        None => false,
        Some((file, section, label)) => {
            &&& l.target@ == target_of(file, is_attachment)
            &&& opt_view(l.subtarget) == match section {
                Some(x) => Some(trimmed(x)),
                None => None,
            }
            &&& opt_view(l.alias) == label
            &&& l.source_string@ == obsidian_source(s, is_attachment)
            &&& l.is_attachment == is_attachment
            &&& !l.broken
        },
    }
}

fn file_end_from(s: &Vec<char>) -> (r: usize)
    ensures
        r == file_end(s@, 0),
        r <= s.len(),
{
    let mut i: usize = 0;
    while i < s.len() && s[i] != '#' && s[i] != '^' && s[i] != '|'
        invariant
            i <= s.len(),
            file_end(s@, i as int) == file_end(s@, 0),
        decreases s.len() - i,
    {
        i = i + 1;
    }
    i
}

fn label_starts(s: &Vec<char>, m: usize) -> (r: bool)
    ensures
        r == label_at(s@, m as int),
{
    if m >= s.len() || s.len() - m < 2 || s[m] != '|' {
        return false;
    }
    let mut k: usize = m + 1;
    while k < s.len()
        invariant
            m < k <= s.len(),
            forall|q: int| m < q < k ==> s@[q] != '\n',
        decreases s.len() - k,
    {
        if s[k] == '\n' {
            return false;
        }
        k = k + 1;
    }
    true
}

fn section_end_from(s: &Vec<char>, m0: usize) -> (r: Option<usize>)
    requires
        m0 >= 1,
    ensures
        match r {
            Some(m) => section_end(s@, m0 as int) == Some(m as int) && m0 <= m <= s.len(),
            None => section_end(s@, m0 as int) is None,
        },
{
    let mut m: usize = m0;
    while m <= s.len()
        invariant
            m >= m0 >= 1,
            section_end(s@, m as int) == section_end(s@, m0 as int),
        decreases s.len() + 1 - m,
    {
        let c = s[m - 1];
        if c == '^' || c == ']' || c == '[' || c == '#' {
            return None;
        }
        if m == s.len() || label_starts(s, m) {
            return Some(m);
        }
        m = m + 1;
    }
    None
}

fn parts_of(s: &Vec<char>) -> (r: Option<(Vec<char>, Option<Vec<char>>, Option<Vec<char>>)>)
    ensures
        match r {
            None => obsidian_parts(s@) is None,
            Some((f, sec, lab)) => obsidian_parts(s@) == Some(
                (
                    f@,
                    match sec {
                        Some(x) => Some(x@),
                        None => None::<Seq<char>>,
                    },
                    match lab {
                        Some(x) => Some(x@),
                        None => None::<Seq<char>>,
                    },
                ),
            ),
        },
{
    let k = file_end_from(s);
    if k >= s.len() {
        return Some((slice(s, 0, s.len()), None, None));
    }
    let file = slice(s, 0, k);
    if s[k] == '^' {
        return None;
    }
    if s[k] == '|' {
        if label_starts(s, k) {
            return Some((file, None, Some(slice(s, k + 1, s.len()))));
        }
        return None;
    }
    let j = if k + 1 < s.len() && s[k + 1] == '^' { k + 2 } else { k + 1 };
    if j >= s.len() {
        return None;
    }
    match section_end_from(s, j + 1) {
        None => None,
        Some(m) => {
            let label = if m == s.len() { None } else { Some(slice(s, m + 1, s.len())) };
            Some((file, Some(slice(s, j, m)), label))
        },
    }
}

fn needs_md_extension(t: &Vec<char>, is_attachment: bool) -> (r: bool)
    ensures
        r == needs_md_ext(t@, is_attachment),
{
    if is_attachment || t.len() == 0 {
        return false;
    }
    match extension_of(t) {
        None => true,
        Some(e) => {
            let md = vec!['m', 'd'];
            let html = vec!['h', 't', 'm', 'l'];
            assert(md@ =~= seq!['m', 'd']);
            assert(html@ =~= seq!['h', 't', 'm', 'l']);
            !crate::text::same(&e, &md) && !crate::text::same(&e, &html)
        },
    }
}

fn opt_string(o: Option<Vec<char>>) -> (r: Option<String>)
    ensures
        opt_view(r) == match o {
            Some(x) => Some(x@),
            None => None::<Seq<char>>,
        },
{
    match o {
        Some(x) => Some(string_of(&x)),
        None => None,
    }
}

impl Link {
    /// The kind of the link.
    pub fn link_type(&self) -> (r: LinkType)
        ensures
            r == link_type_of(self.target@, self.is_attachment),
    {
        let t = chars_of(self.target.as_str());
        if self.is_attachment {
            return LinkType::Attachment(attachment_type_from_file(&t));
        }
        if is_external_target(&t) {
            return LinkType::External;
        }
        if t.len() == 0 {
            return LinkType::Internal;
        }
        LinkType::Note
    }

    pub fn set_broken(&mut self, is_broken: bool)
        ensures
            final(self).broken == is_broken,
            final(self).target == old(self).target,
            final(self).subtarget == old(self).subtarget,
            final(self).alias == old(self).alias,
            final(self).source_string == old(self).source_string,
            final(self).is_attachment == old(self).is_attachment,
    {
        self.broken = is_broken;
    }

    pub fn set_target(&mut self, target: String)
        ensures
            final(self).target == target,
            final(self).broken == old(self).broken,
            final(self).subtarget == old(self).subtarget,
            final(self).alias == old(self).alias,
            final(self).source_string == old(self).source_string,
            final(self).is_attachment == old(self).is_attachment,
    {
        self.target = target;
    }

    /// The link with its target expressed relative to `dir` and made absolute;
    /// a target outside `dir` only gains the leading slash.
    pub fn set_relative(self, dir: &str) -> (r: Link)
        ensures
            r.target@ == crate::paths::with_slash(crate::paths::relative(self.target@, dir@)),
            r.subtarget == self.subtarget,
            r.alias == self.alias,
            r.source_string == self.source_string,
            r.is_attachment == self.is_attachment,
            r.broken == self.broken,
    {
        let mut l = self;
        let rel = crate::paths::relative_to(l.target.as_str(), dir);
        l.target = crate::paths::prepend_slash(rel.as_str());
        l
    }

    /// A link with the given alias and target.
    pub fn new(name: &str, target: &str) -> (r: Link)
        ensures
            r.target@ == target@,
            r.subtarget is None,
            opt_view(r.alias) == Some(name@),
            r.source_string@ == Seq::<char>::empty(),
            !r.is_attachment,
            !r.broken,
    {
        Link {
            target: target.to_owned(),
            subtarget: None,
            alias: Some(name.to_owned()),
            source_string: String::new(),
            is_attachment: false,
            broken: false,
        }
    }

    /// A field-by-field copy.
    pub fn duplicate(&self) -> (r: Link)
        ensures
            r.target@ == self.target@,
            opt_view(r.subtarget) == opt_view(self.subtarget),
            opt_view(r.alias) == opt_view(self.alias),
            r.source_string@ == self.source_string@,
            r.is_attachment == self.is_attachment,
            r.broken == self.broken,
    {
        Link {
            target: self.target.clone(),
            subtarget: clone_opt(&self.subtarget),
            alias: clone_opt(&self.alias),
            source_string: self.source_string.clone(),
            is_attachment: self.is_attachment,
            broken: self.broken,
        }
    }

    /// The text shown for the link.
    pub fn link_text(&self) -> (r: String)
        ensures
            r@ == link_text_of(*self),
    {
        match &self.alias {
            Some(a) => a.clone(),
            None => {
                match self.link_type() {
                    LinkType::Internal => match &self.subtarget {
                        Some(s) => s.clone(),
                        None => {
                            let dot = vec!['.'];
                            assert(dot@ =~= seq!['.']);
                            string_of(&dot)
                        },
                    },
                    LinkType::Note => {
                        let t = chars_of(self.target.as_str());
                        let stem = without_extension_of(&t);
                        string_of(&file_name_of(&stem))
                    },
                    _ => self.target.clone(),
                }
            },
        }
    }

    /// A link written in markdown as `[alias](target)`; a `#` in the target
    /// starts the subtarget.
    pub fn from_md_link(md_link: &str, target: &str, alias: Option<&str>, is_attachment: bool) -> (r: Link)
        ensures
            ({
                let t = target@;
                match crate::text::first_index(t, '#') {
                    Some(h) => r.target@ == t.subrange(0, h) && opt_view(r.subtarget) == Some(
                        t.subrange(h + 1, t.len() as int),
                    ),
                    None => r.target@ == t && r.subtarget is None,
                }
            }),
            opt_view(r.alias) == match alias {
                Some(a) => Some(a@),
                None => None::<Seq<char>>,
            },
            r.source_string@ == md_link@,
            r.is_attachment == is_attachment,
            !r.broken,
    {
        let t = chars_of(target);
        let (tgt, sub) = match crate::text::find_char(&t, '#') {
            Some(h) => (slice(&t, 0, h), Some(string_of(&slice(&t, h + 1, t.len())))),
            None => (slice(&t, 0, t.len()), None),
        };
        Link {
            target: string_of(&tgt),
            subtarget: sub,
            alias: match alias {
                Some(a) => Some(a.to_owned()),
                None => None,
            },
            source_string: md_link.to_owned(),
            is_attachment,
            broken: false,
        }
    }

    /// The size given in the alias of an attachment, `W` or `WxH`.
    pub fn parse_dims(&self) -> (r: Option<Dimensions>)
        ensures
            r == (if self.is_attachment && self.alias is Some {
                crate::utils::dims_of(self.alias.unwrap()@)
            } else {
                None
            }),
    {
        if !self.is_attachment {
            return None;
        }
        match &self.alias {
            None => None,
            Some(a) => crate::utils::parse_dims(a.as_str()),
        }
    }

    /// The link that the Obsidian link text `obs_link` (what stands between the
    /// double brackets) describes.
    pub fn from_obsidian_link(obs_link: &str, is_attachment: bool) -> (r: Result<Link, InvalidObsidianLink>)
        ensures
            match r {
                Ok(l) => is_obsidian_link(l, obs_link@, is_attachment),
                Err(e) => obsidian_parts(obs_link@) is None && (e matches InvalidObsidianLink::ParseError(
                    s,
                ) && s@ == obs_link@),
            },
            obsidian_parts(obs_link@) is Some ==> r is Ok,
    {
        let s = chars_of(obs_link);
        match parts_of(&s) {
            None => Err(InvalidObsidianLink::ParseError(obs_link.to_owned())),
            Some((file, section, label)) => {
                let t = trim(&file);
                let mut target = slice(&t, 0, t.len());
                if needs_md_extension(&t, is_attachment) {
                    target.push('.');
                    target.push('m');
                    target.push('d');
                }
                assert(target@ =~= target_of(file@, is_attachment));
                let sub = match section {
                    Some(x) => Some(trim(&x)),
                    None => None,
                };
                let mut src: Vec<char> = Vec::new();
                if is_attachment {
                    src.push('!');
                }
                src.push('[');
                src.push('[');
                push_all(&mut src, &s);
                src.push(']');
                src.push(']');
                assert(src@ =~= obsidian_source(obs_link@, is_attachment));
                Ok(
                    Link {
                        target: string_of(&target),
                        subtarget: opt_string(sub),
                        alias: opt_string(label),
                        source_string: string_of(&src),
                        is_attachment,
                        broken: false,
                    },
                )
            },
        }
    }
}

} // verus!
