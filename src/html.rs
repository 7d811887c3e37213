//! Building HTML elements as text.
use vstd::prelude::*;
use crate::text::{chars_of, push_all, push_str, string_of};
use crate::sanitization::push_decimal;
use crate::sanitization::decimal;

verus! {

/// `<tag options>content</tag>`.
pub open spec fn raw_element(content: Seq<char>, tag: Seq<char>, options: Seq<char>) -> Seq<char> {
    "<"@ + tag + " "@ + options + ">"@ + content + "</"@ + tag + ">"@
}

/// Wrap `content` into the element `tag` with the attribute text `options`.
pub fn wrap_html_raw(content: &str, tag: &str, options: &str) -> (r: String)
    ensures
        r@ == raw_element(content@, tag@, options@),
{
    let mut out: Vec<char> = Vec::new();
    push_str(&mut out, "<");
    push_str(&mut out, tag);
    push_str(&mut out, " ");
    push_str(&mut out, options);
    push_str(&mut out, ">");
    push_str(&mut out, content);
    push_str(&mut out, "</");
    push_str(&mut out, tag);
    push_str(&mut out, ">");
    assert(out@ =~= raw_element(content@, tag@, options@));
    string_of(&out)
}

/// `src="..."`.
pub open spec fn src_attr(src: Seq<char>) -> Seq<char> {
    "src=\""@ + src + "\""@
}

/// A video element without content.
pub fn video_tag(src: &str) -> (r: String)
    ensures
        r@ == raw_element(Seq::empty(), "video"@, src_attr(src@)),
{
    let mut o: Vec<char> = Vec::new();
    push_str(&mut o, "src=\"");
    push_str(&mut o, src);
    push_str(&mut o, "\"");
    let opts = string_of(&o);
    let r = wrap_html_raw("", "video", opts.as_str());
    proof { reveal_strlit(""); }
    assert(""@ =~= Seq::<char>::empty());
    r
}

/// An image element without content.
pub fn img_tag(src: &str) -> (r: String)
    ensures
        r@ == raw_element(Seq::empty(), "img"@, src_attr(src@)),
{
    let mut o: Vec<char> = Vec::new();
    push_str(&mut o, "src=\"");
    push_str(&mut o, src);
    push_str(&mut o, "\"");
    let opts = string_of(&o);
    let r = wrap_html_raw("", "img", opts.as_str());
    proof { reveal_strlit(""); }
    assert(""@ =~= Seq::<char>::empty());
    r
}

/// `<a href="dst" options>text</a>`.
pub open spec fn link_element(dst: Seq<char>, text: Seq<char>, options: Seq<char>) -> Seq<char> {
    raw_element(text, "a"@, "href=\""@ + dst + "\" "@ + options)
}

/// An anchor to `dst` showing `text`.
pub fn link(dst: &str, text: &str, options: &str) -> (r: String)
    ensures
        r@ == link_element(dst@, text@, options@),
{
    let mut o: Vec<char> = Vec::new();
    push_str(&mut o, "href=\"");
    push_str(&mut o, dst);
    push_str(&mut o, "\" ");
    push_str(&mut o, options);
    assert(o@ =~= "href=\""@ + dst@ + "\" "@ + options@);
    let opts = string_of(&o);
    wrap_html_raw(text, "a", opts.as_str())
}

/// List items, one per line.
pub open spec fn list_items(items: Seq<Seq<char>>) -> Seq<char>
    decreases items.len(),
{
    if items.len() == 0 {
        Seq::empty()
    } else if items.len() == 1 {
        "<li> "@ + items[0]
    } else {
        list_items(items.drop_last()) + "\n"@ + "<li> "@ + items.last()
    }
}

pub open spec fn strings_view(v: Seq<String>) -> Seq<Seq<char>> {
    Seq::new(v.len(), |i: int| v[i]@)
}

/// An unordered list of the given items.
pub fn ul(items: &Vec<String>, options: &str) -> (r: String)
    ensures
        r@ == raw_element(list_items(strings_view(items@)), "ul"@, options@),
{
    let mut inner: Vec<char> = Vec::new();
    let mut i: usize = 0;
    while i < items.len()
        invariant
            i <= items.len(),
            inner@ == list_items(strings_view(items@).subrange(0, i as int)),
        decreases items.len() - i,
    {
        if i > 0 {
            push_str(&mut inner, "\n");
        }
        push_str(&mut inner, "<li> ");
        push_str(&mut inner, items[i].as_str());
        proof {
            let pre = strings_view(items@).subrange(0, i + 1);
            assert(pre.drop_last() =~= strings_view(items@).subrange(0, i as int));
            assert(pre.last() == items@[i as int]@);
            if i == 0 {
                assert(inner@ =~= "<li> "@ + pre[0]);
            }
        }
        i = i + 1;
    }
    assert(strings_view(items@).subrange(0, items@.len() as int) =~= strings_view(items@));
    let s = string_of(&inner);
    wrap_html_raw(s.as_str(), "ul", options)
}

/// A heading element of the given level.
pub fn header(level: u8, content: &str, options: &str) -> (r: String)
    ensures
        r@ == raw_element(content@, seq!['h'] + decimal(level as nat), options@),
{
    let mut t: Vec<char> = vec!['h'];
    push_decimal(&mut t, level as u64);
    let tag = string_of(&t);
    wrap_html_raw(content, tag.as_str(), options)
}

/// The kind of an element, with the address that images, videos and anchors carry.
#[derive(Debug, PartialEq, Eq)]
pub enum TagType {
    Header(u8),
    Ul,
    Li,
    Img(String),
    Video(String),
    A(String),
    Div,
    Span,
    Summary,
    Details,
}

/// An element under construction: its kind, classes, id and further attributes.
#[derive(Debug, PartialEq, Eq)]
pub struct HtmlTag {
    pub tag_type: TagType,
    /// Class names, each once, in the order they were added.
    pub class: Vec<String>,
    pub id: Option<String>,
    /// Attribute names and values, each name once, in the order they were added.
    pub options: Vec<(String, String)>,
    /// Whether the content stands on the tag's line.
    pub inline: bool,
}

/// The element name of a tag kind.
pub open spec fn tag_name(t: TagType) -> Seq<char> {
    match t {
        TagType::Header(l) => seq!['h'] + decimal(l as nat),
        TagType::Ul => "ul"@,
        TagType::Li => "li"@,
        TagType::Img(_) => "img"@,
        TagType::Video(_) => "video"@,
        TagType::A(_) => "a"@,
        TagType::Div => "div"@,
        TagType::Span => "span"@,
        TagType::Summary => "summary"@,
        TagType::Details => "details"@,
    }
}

/// The attribute that a tag kind carries itself.
pub open spec fn kind_attr(t: TagType) -> Seq<char> {
    match t {
        TagType::Img(s) => " src=\""@ + s@ + "\""@,
        TagType::Video(s) => " src=\""@ + s@ + "\""@,
        TagType::A(s) => " href=\""@ + s@ + "\""@,
        _ => Seq::empty(),
    }
}

/// Class names separated by spaces.
pub open spec fn joined(v: Seq<Seq<char>>) -> Seq<char>
    decreases v.len(),
{
    if v.len() == 0 {
        Seq::empty()
    } else if v.len() == 1 {
        v[0]
    } else {
        joined(v.drop_last()) + " "@ + v.last()
    }
}

pub open spec fn class_attr(classes: Seq<Seq<char>>) -> Seq<char> {
    if classes.len() == 0 {
        Seq::empty()
    } else {
        " class=\""@ + joined(classes) + "\""@
    }
}

pub open spec fn id_attr(id: Option<Seq<char>>) -> Seq<char> {
    match id {
        Some(i) => " id=\""@ + i + "\""@,
        None => Seq::empty(),
    }
}

pub open spec fn options_attr(opts: Seq<(Seq<char>, Seq<char>)>) -> Seq<char>
    decreases opts.len(),
{
    if opts.len() == 0 {
        Seq::empty()
    } else {
        options_attr(opts.drop_last()) + " "@ + opts.last().0 + "=\""@ + opts.last().1 + "\""@
    }
}

pub open spec fn pairs_view(v: Seq<(String, String)>) -> Seq<(Seq<char>, Seq<char>)> {
    Seq::new(v.len(), |i: int| (v[i].0@, v[i].1@))
}

impl HtmlTag {
    pub open spec fn classes(&self) -> Seq<Seq<char>> {
        strings_view(self.class@)
    }

    pub open spec fn attrs(&self) -> Seq<(Seq<char>, Seq<char>)> {
        pairs_view(self.options@)
    }

    /// The element with the given content.
    pub open spec fn wrapped(&self, content: Seq<char>) -> Seq<char> {
        let name = tag_name(self.tag_type);
        let lb = if self.inline { " "@ } else { "\n"@ };
        "<"@ + name + kind_attr(self.tag_type) + class_attr(self.classes()) + id_attr(
            crate::link::opt_view(self.id),
        ) + options_attr(self.attrs()) + ">"@ + lb + content + lb + "</"@ + name + ">"@
    }

    pub fn new(tag_type: TagType) -> (r: HtmlTag)
        ensures
            r.tag_type == tag_type,
            r.class@.len() == 0,
            r.id is None,
            r.options@.len() == 0,
            !r.inline,
    {
        HtmlTag { tag_type, class: Vec::new(), id: None, options: Vec::new(), inline: false }
    }

    pub fn set_inline(self, is_it: bool) -> (r: HtmlTag)
        ensures
            r.inline == is_it,
            r.tag_type == self.tag_type,
            r.class == self.class,
            r.id == self.id,
            r.options == self.options,
    {
        let mut s = self;
        s.inline = is_it;
        s
    }

    pub fn header(level: u8) -> (r: HtmlTag)
        ensures
            r.is_fresh(TagType::Header(level), false),
    {
        Self::new(TagType::Header(level))
    }

    pub fn div() -> (r: HtmlTag)
        ensures
            r.is_fresh(TagType::Div, false),
    {
        Self::new(TagType::Div)
    }

    pub fn span() -> (r: HtmlTag)
        ensures
            r.is_fresh(TagType::Span, true),
    {
        Self::new(TagType::Span).set_inline(true)
    }

    pub fn ul() -> (r: HtmlTag)
        ensures
            r.is_fresh(TagType::Ul, false),
    {
        Self::new(TagType::Ul)
    }

    pub fn li() -> (r: HtmlTag)
        ensures
            r.is_fresh(TagType::Li, false),
    {
        Self::new(TagType::Li)
    }

    pub fn summary() -> (r: HtmlTag)
        ensures
            r.is_fresh(TagType::Summary, false),
    {
        Self::new(TagType::Summary)
    }

    pub fn details() -> (r: HtmlTag)
        ensures
            r.is_fresh(TagType::Details, false),
    {
        Self::new(TagType::Details)
    }

    pub fn a(href: &str) -> (r: HtmlTag)
        ensures
            r.tag_type matches TagType::A(h) && h@ == href@,
            r.class@.len() == 0 && r.id is None && r.options@.len() == 0 && r.inline,
    {
        Self::new(TagType::A(href.to_owned())).set_inline(true)
    }

    pub fn img(src: &str) -> (r: HtmlTag)
        ensures
            r.tag_type matches TagType::Img(h) && h@ == src@,
            r.class@.len() == 0 && r.id is None && r.options@.len() == 0 && r.inline,
    {
        Self::new(TagType::Img(src.to_owned())).set_inline(true)
    }

    pub fn video(src: &str) -> (r: HtmlTag)
        ensures
            r.tag_type matches TagType::Video(h) && h@ == src@,
            r.class@.len() == 0 && r.id is None && r.options@.len() == 0 && r.inline,
    {
        Self::new(TagType::Video(src.to_owned())).set_inline(true)
    }

    /// An element of the given kind with no class, id or attribute yet.
    pub open spec fn is_fresh(&self, t: TagType, inline: bool) -> bool {
        self.tag_type == t && self.class@.len() == 0 && self.id is None && self.options@.len() == 0
            && self.inline == inline
    }

    /// The element with one more class; a class it has already is not repeated.
    pub fn with_class(self, class_name: &str) -> (r: HtmlTag)
        ensures
            r.classes() == (if self.classes().contains(class_name@) {
                self.classes()
            } else {
                self.classes().push(class_name@)
            }),
            r.tag_type == self.tag_type,
            r.id == self.id,
            r.options == self.options,
            r.inline == self.inline,
    {
        if contains_string(&self.class, class_name) {
            return self;
        }
        let mut s = self;
        s.class.push(class_name.to_owned());
        assert(strings_view(s.class@) =~= self.classes().push(class_name@));
        s
    }

    /// The element with the given id.
    pub fn with_id(self, id: &str) -> (r: HtmlTag)
        ensures
            crate::link::opt_view(r.id) == Some(id@),
            r.tag_type == self.tag_type,
            r.class == self.class,
            r.options == self.options,
            r.inline == self.inline,
    {
        let mut s = self;
        s.id = Some(id.to_owned());
        s
    }

    /// The element with the attribute `name` set to `value`, replacing an
    /// earlier value of it in place.
    pub fn with_attr(self, name: &str, value: &str) -> (r: HtmlTag)
        ensures
            (exists|k: int| 0 <= k < self.attrs().len() && self.attrs()[k].0 == name@) ==> (exists|k: int|
                0 <= k < self.attrs().len() && self.attrs()[k].0 == name@ && r.attrs() == self.attrs().update(k, (name@, value@))),
            !(exists|k: int| 0 <= k < self.attrs().len() && self.attrs()[k].0 == name@) ==> r.attrs()
                == self.attrs().push((name@, value@)),
            r.tag_type == self.tag_type,
            r.class == self.class,
            r.id == self.id,
            r.inline == self.inline,
    {
        let found = key_index(&self.options, name);
        let mut s = self;
        match found {
            Some(i) => {
                s.options.set(i, (name.to_owned(), value.to_owned()));
                assert(pairs_view(s.options@) =~= self.attrs().update(i as int, (name@, value@)));
            },
            None => {
                s.options.push((name.to_owned(), value.to_owned()));
                assert(pairs_view(s.options@) =~= self.attrs().push((name@, value@)));
            },
        }
        s
    }

    fn push_name(&self, out: &mut Vec<char>)
        ensures
            final(out)@ == old(out)@ + tag_name(self.tag_type),
    {
        match &self.tag_type {
            TagType::Header(l) => {
                out.push('h');
                push_decimal(out, *l as u64);
            },
            TagType::Ul => push_str(out, "ul"),
            TagType::Li => push_str(out, "li"),
            TagType::Img(_) => push_str(out, "img"),
            TagType::Video(_) => push_str(out, "video"),
            TagType::A(_) => push_str(out, "a"),
            TagType::Div => push_str(out, "div"),
            TagType::Span => push_str(out, "span"),
            TagType::Summary => push_str(out, "summary"),
            TagType::Details => push_str(out, "details"),
        }
    }

    fn push_attrs(&self, out: &mut Vec<char>)
        ensures
            final(out)@ == old(out)@ + kind_attr(self.tag_type) + class_attr(self.classes()) + id_attr(
                crate::link::opt_view(self.id),
            ) + options_attr(self.attrs()),
    {
        let ghost start = out@;
        match &self.tag_type {
            TagType::Img(s) | TagType::Video(s) => {
                push_str(out, " src=\"");
                push_str(out, s.as_str());
                push_str(out, "\"");
            },
            TagType::A(s) => {
                push_str(out, " href=\"");
                push_str(out, s.as_str());
                push_str(out, "\"");
            },
            _ => {},
        }
        assert(out@ =~= start + kind_attr(self.tag_type));
        let ghost a1 = out@;
        if self.class.len() > 0 {
            push_str(out, " class=\"");
            let mut i: usize = 0;
            while i < self.class.len()
                invariant
                    i <= self.class.len(),
                    self.class.len() > 0,
                    out@ == a1 + " class=\""@ + joined(self.classes().subrange(0, i as int)),
                decreases self.class.len() - i,
            {
                if i > 0 {
                    push_str(out, " ");
                }
                push_str(out, self.class[i].as_str());
                proof {
                    let pre = self.classes().subrange(0, i + 1);
                    assert(pre.drop_last() =~= self.classes().subrange(0, i as int));
                    if i == 0 {
                        assert(joined(self.classes().subrange(0, 0)) =~= Seq::<char>::empty());
                    }
                }
                i = i + 1;
            }
            assert(self.classes().subrange(0, self.class@.len() as int) =~= self.classes());
            push_str(out, "\"");
        }
        assert(out@ =~= a1 + class_attr(self.classes()));
        let ghost a2 = out@;
        match &self.id {
            Some(i) => {
                push_str(out, " id=\"");
                push_str(out, i.as_str());
                push_str(out, "\"");
            },
            None => {},
        }
        assert(out@ =~= a2 + id_attr(crate::link::opt_view(self.id)));
        let ghost a3 = out@;
        let mut k: usize = 0;
        while k < self.options.len()
            invariant
                k <= self.options.len(),
                out@ == a3 + options_attr(self.attrs().subrange(0, k as int)),
            decreases self.options.len() - k,
        {
            push_str(out, " ");
            push_str(out, self.options[k].0.as_str());
            push_str(out, "=\"");
            push_str(out, self.options[k].1.as_str());
            push_str(out, "\"");
            proof {
                let pre = self.attrs().subrange(0, k + 1);
                assert(pre.drop_last() =~= self.attrs().subrange(0, k as int));
            }
            k = k + 1;
        }
        assert(self.attrs().subrange(0, self.options@.len() as int) =~= self.attrs());
    }

    /// The element, with `content` inside.
    pub fn wrap(&self, content: &str) -> (r: String)
        ensures
            r@ == self.wrapped(content@),
    {
        let mut out: Vec<char> = Vec::new();
        push_str(&mut out, "<");
        self.push_name(&mut out);
        self.push_attrs(&mut out);
        push_str(&mut out, ">");
        let lb = if self.inline { " " } else { "\n" };
        push_str(&mut out, lb);
        push_str(&mut out, content);
        push_str(&mut out, lb);
        push_str(&mut out, "</");
        self.push_name(&mut out);
        push_str(&mut out, ">");
        assert(out@ =~= self.wrapped(content@));
        string_of(&out)
    }
}

/// Whether `v` holds the string `x`.
pub fn contains_string(v: &Vec<String>, x: &str) -> (r: bool)
    ensures
        r == strings_view(v@).contains(x@),
{
    let c = chars_of(x);
    let mut i: usize = 0;
    while i < v.len()
        invariant
            i <= v.len(),
            c@ == x@,
            forall|j: int| 0 <= j < i ==> strings_view(v@)[j] != x@,
        decreases v.len() - i,
    {
        let y = chars_of(v[i].as_str());
        if crate::text::same(&y, &c) {
            assert(strings_view(v@)[i as int] == x@);
            return true;
        }
        i = i + 1;
    }
    false
}

/// Index of the pair whose first element is `key`.
fn key_index(v: &Vec<(String, String)>, key: &str) -> (r: Option<usize>)
    ensures
        match r {
            Some(i) => i < v.len() && pairs_view(v@)[i as int].0 == key@,
            None => forall|j: int| 0 <= j < v.len() ==> pairs_view(v@)[j].0 != key@,
        },
{
    let c = chars_of(key);
    let mut i: usize = 0;
    while i < v.len()
        invariant
            i <= v.len(),
            c@ == key@,
            forall|j: int| 0 <= j < i ==> pairs_view(v@)[j].0 != key@,
        decreases v.len() - i,
    {
        let y = chars_of(v[i].0.as_str());
        if crate::text::same(&y, &c) {
            return Some(i);
        }
        i = i + 1;
    }
    None
}

/// A block `div` of one class around `content`.
pub open spec fn div_markup(class: Seq<char>, content: Seq<char>) -> Seq<char> {
    "<"@ + "div"@ + " class=\""@ + class + "\""@ + ">"@ + "\n"@ + content + "\n"@ + "</"@ + "div"@ + ">"@
}

/// A `div` with one class, no id and no attribute wraps as `div_markup`.
pub proof fn lemma_div_one_class(t: HtmlTag, class: Seq<char>, content: Seq<char>)
    requires
        t.tag_type == TagType::Div,
        t.classes() == seq![class],
        t.id is None,
        t.options@.len() == 0,
        !t.inline,
    ensures
        t.wrapped(content) == div_markup(class, content),
{
    assert(joined(t.classes()) == class);
    assert(t.attrs() =~= Seq::<(Seq<char>, Seq<char>)>::empty());
    assert(options_attr(t.attrs()) == Seq::<char>::empty());
    assert(kind_attr(t.tag_type) == Seq::<char>::empty());
    assert(id_attr(crate::link::opt_view(t.id)) == Seq::<char>::empty());
    assert(t.wrapped(content) =~= div_markup(class, content));
}

} // verus!
