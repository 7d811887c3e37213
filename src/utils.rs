//! Small text helpers: initials, capitals, line removal, tag page names and
//! attachment sizes.
use vstd::prelude::*;
use crate::link::Dimensions;
use crate::text::{chars_of, slice, string_of, push_all, push_str};

verus! {

pub open spec fn digit_value(c: char) -> nat {
    ((c as u32) - ('0' as u32)) as nat
}

/// Value of a run of ASCII digits.
pub open spec fn digits_value(s: Seq<char>) -> nat
    decreases s.len(),
{
    if s.len() == 0 {
        0
    } else {
        digits_value(s.drop_last()) * 10 + digit_value(s.last())
    }
}

pub open spec fn all_digits(s: Seq<char>) -> bool {
    forall|i: int| 0 <= i < s.len() ==> '0' <= #[trigger] s[i] && s[i] <= '9'
}

/// What `str::parse::<u32>` gives: an optional `+`, then at least one ASCII
/// digit, with a value that fits.
pub open spec fn parse_u32_spec(s: Seq<char>) -> Option<u32> {
    let d = if s.len() > 0 && s[0] == '+' { s.subrange(1, s.len() as int) } else { s };
    if d.len() > 0 && all_digits(d) && digits_value(d) <= u32::MAX {
        Some(digits_value(d) as u32)
    } else {
        None
    }
}

/// Parses a decimal `u32`.
pub fn parse_u32(s: &Vec<char>) -> (r: Option<u32>)
    ensures
        r == parse_u32_spec(s@),
{
    let start: usize = if s.len() > 0 && s[0] == '+' { 1 } else { 0 };
    let ghost d = s@.subrange(start as int, s@.len() as int);
    assert(d =~= (if s@.len() > 0 && s@[0] == '+' { s@.subrange(1, s@.len() as int) } else { s@ }));
    if start >= s.len() {
        return None;
    }
    let mut v: u64 = 0;
    let mut i: usize = start;
    while i < s.len()
        invariant
            start <= i <= s.len(),
            d == s@.subrange(start as int, s@.len() as int),
            d == (if s@.len() > 0 && s@[0] == '+' { s@.subrange(1, s@.len() as int) } else { s@ }),
            all_digits(s@.subrange(start as int, i as int)),
            v == digits_value(s@.subrange(start as int, i as int)),
            v <= u32::MAX,
        decreases s.len() - i,
    {
        let c = s[i];
        if c < '0' || c > '9' {
            assert(d[i - start] == c);
            assert(!all_digits(d));
            assert(parse_u32_spec(s@) is None);
            return None;
        }
        let dv = (c as u32 - '0' as u32) as u64;
        let ghost p = s@.subrange(start as int, i + 1);
        assert(p.drop_last() =~= s@.subrange(start as int, i as int));
        assert(p.last() == c);
        assert(digits_value(p) == v * 10 + dv);
        if v * 10 + dv > u32::MAX as u64 {
            proof {
                if all_digits(d) {
                    assert(p =~= d.subrange(0, i + 1 - start));
                    lemma_prefix_value_grows(d, i + 1 - start);
                    assert(digits_value(d) > u32::MAX);
                }
            }
            assert(parse_u32_spec(s@) is None);
            return None;
        }
        v = v * 10 + dv;
        i = i + 1;
        assert(all_digits(s@.subrange(start as int, i as int))) by {
            assert(s@.subrange(start as int, i as int) =~= p);
        }
    }
    Some(v as u32)
}

/// A longer run of digits has at least the value of its prefix.
proof fn lemma_prefix_value_grows(d: Seq<char>, k: int)
    requires
        0 <= k <= d.len(),
        all_digits(d),
    ensures
        digits_value(d) >= digits_value(d.subrange(0, k)),
    decreases d.len() - k,
{
    if k < d.len() {
        lemma_prefix_value_grows(d, k + 1);
        let p = d.subrange(0, k + 1);
        assert(p.drop_last() =~= d.subrange(0, k));
        assert(digits_value(p) >= digits_value(p.drop_last())) by (nonlinear_arith)
            requires
                digits_value(p) == digits_value(p.drop_last()) * 10 + digit_value(p.last());
    } else {
        assert(d.subrange(0, k) =~= d);
    }
}

/// `s` without one trailing white-space character, if it ends with one.
pub open spec fn drop_one_trailing_ws(s: Seq<char>) -> Seq<char> {
    if s.len() > 0 && crate::chars::is_ws(s.last()) { s.drop_last() } else { s }
}

/// `s` without one leading white-space character, if it starts with one.
pub open spec fn drop_one_leading_ws(s: Seq<char>) -> Seq<char> {
    if s.len() > 0 && crate::chars::is_ws(s[0]) { s.drop_first() } else { s }
}

/// Size of an attachment from its alias: `W`, or `WxH` with one optional
/// blank on each side of the first `x`; a height that does not parse is left
/// out.
#[verifier::opaque]
pub open spec fn dims_of(alias: Seq<char>) -> Option<Dimensions> {
    match crate::text::first_index(alias, 'x') {
        None => match parse_u32_spec(alias) {
            None => None,
            Some(w) => Some(Dimensions { width: w, height: None }),
        },
        Some(i) => match parse_u32_spec(drop_one_trailing_ws(alias.subrange(0, i))) {
            None => None,
            Some(w) => {
                let rest = drop_one_leading_ws(alias.subrange(i + 1, alias.len() as int));
                let second = match crate::text::first_index(rest, 'x') {
                    Some(j) => rest.subrange(0, j),
                    None => rest,
                };
                Some(Dimensions { width: w, height: parse_u32_spec(second) })
            },
        },
    }
}

/// Parse dimensions given as `W` or `W x H` in pixels.
pub fn parse_dims(alias: &str) -> (r: Option<Dimensions>)
    ensures
        r == dims_of(alias@),
{
    let a = chars_of(alias);
    assert(a@.subrange(0, a@.len() as int) =~= a@);
    reveal(dims_of);
    match crate::text::find_char(&a, 'x') {
        None => match parse_u32(&a) {
            None => None,
            Some(w) => Some(Dimensions { width: w, height: None }),
        },
        Some(i) => {
            let mut first = slice(&a, 0, i);
            if first.len() > 0 && crate::chars::is_whitespace(first[first.len() - 1]) {
                let ghost f0 = first@;
                first.pop();
                assert(first@ =~= f0.drop_last());
            }
            match parse_u32(&first) {
                None => None,
                Some(w) => {
                    let raw = slice(&a, i + 1, a.len());
                    let rest = if raw.len() > 0 && crate::chars::is_whitespace(raw[0]) {
                        let r = slice(&raw, 1, raw.len());
                        assert(r@ =~= raw@.drop_first());
                        r
                    } else {
                        raw
                    };
                    assert(rest@.subrange(0, rest@.len() as int) =~= rest@);
                    let second = match crate::text::find_char(&rest, 'x') {
                        Some(j) => slice(&rest, 0, j),
                        None => slice(&rest, 0, rest.len()),
                    };
                    Some(Dimensions { width: w, height: parse_u32(&second) })
                },
            }
        },
    }
}

/// Whether `char::is_alphabetic` holds of a character.
pub uninterp spec fn alphabetic(c: char) -> bool;

/// What `str::to_uppercase` makes of a text.
pub uninterp spec fn upper_of(s: Seq<char>) -> Seq<char>;

/// What `str::to_lowercase` makes of a text.
pub uninterp spec fn lower_of(s: Seq<char>) -> Seq<char>;

/// Relies on `char::is_alphabetic`: Unicode's `Alphabetic` property, which
/// every ASCII letter has.
#[verifier::external_body]
fn is_alphabetic(c: char) -> (r: bool)
    ensures
        r == alphabetic(c),
        crate::chars::is_ascii_alpha(c) ==> r,
{
    c.is_alphabetic()
}

/// Relies on `str::to_uppercase`: the result depends on the text alone, and
/// the empty text stays empty.
#[verifier::external_body]
fn to_uppercase(s: &str) -> (r: String)
    ensures
        r@ == upper_of(s@),
        s@.len() == 0 ==> r@.len() == 0,
{
    s.to_uppercase()
}

/// Relies on `str::to_lowercase`: the result depends on the text alone, and
/// the empty text stays empty.
#[verifier::external_body]
fn to_lowercase(s: &str) -> (r: String)
    ensures
        r@ == lower_of(s@),
        s@.len() == 0 ==> r@.len() == 0,
{
    s.to_lowercase()
}

/// Index of the first alphabetic character from `i` on.
pub open spec fn first_alpha(s: Seq<char>, i: int) -> Option<int>
    decreases s.len() - i,
{
    if i < 0 || i >= s.len() {
        None
    } else if alphabetic(s[i]) {
        Some(i)
    } else {
        first_alpha(s, i + 1)
    }
}

/// The first alphabetic character of a text, or a space when there is none.
pub fn initial(text: &str) -> (r: char)
    ensures
        r == match first_alpha(text@, 0) {
            Some(i) => text@[i],
            None => ' ',
        },
{
    let s = chars_of(text);
    let mut i: usize = 0;
    while i < s.len()
        invariant
            i <= s.len(),
            s@ == text@,
            first_alpha(s@, i as int) == first_alpha(s@, 0),
        decreases s.len() - i,
    {
        if is_alphabetic(s[i]) {
            return s[i];
        }
        i = i + 1;
    }
    ' '
}

/// A text with its first character in upper case and the rest in lower case.
pub open spec fn capitalized(s: Seq<char>) -> Seq<char> {
    if s.len() == 0 {
        Seq::empty()
    } else {
        upper_of(seq![s[0]]) + lower_of(s.subrange(1, s.len() as int))
    }
}

/// Capitalize the first character of a text and lower the others.
pub fn capitalize_first(input: &str) -> (r: String)
    ensures
        r@ == capitalized(input@),
{
    let s = chars_of(input);
    if s.len() == 0 {
        return String::new();
    }
    let first = string_of(&slice(&s, 0, 1));
    let rest = string_of(&slice(&s, 1, s.len()));
    assert(s@.subrange(0, 1) =~= seq![s@[0]]);
    let mut out = chars_of(to_uppercase(first.as_str()).as_str());
    push_str(&mut out, to_lowercase(rest.as_str()).as_str());
    string_of(&out)
}

/// A link to the page of a full tag path, showing its last segment
/// capitalized.
pub open spec fn full_tag_link(tag: Seq<char>, tag_dir: Seq<char>) -> Seq<char> {
    let k = crate::paths::last_index(tag, '/');
    let last = tag.subrange(k + 1, tag.len() as int);
    let href = crate::paths::join(tag_dir, tag.subrange(0, k + 1) + crate::formatting::tag_page_name(last));
    crate::formatting::anchor(href, capitalized(last), false)
}

/// Render a link to the page of a tag given with its parents, `a/b/c`.
pub fn render_full_tag_link(tag: &str, tag_dir: &str) -> (r: String)
    ensures
        r@ == full_tag_link(tag@, tag_dir@),
{
    let t = chars_of(tag);
    let k: usize = match crate::paths::last_index_of(&t, '/') {
        Some(k) => k + 1,
        None => 0,
    };
    let last = string_of(&slice(&t, k, t.len()));
    let mut rel = slice(&t, 0, k);
    push_str(&mut rel, crate::formatting::generate_tag_page_name(last.as_str()).as_str());
    let href = crate::paths::join_paths(&chars_of(tag_dir), &rel);
    let text = chars_of(capitalize_first(last.as_str()).as_str());
    let mut out: Vec<char> = Vec::new();
    push_str(&mut out, "<a href=\"");
    push_all(&mut out, &href);
    push_str(&mut out, "\"");
    push_str(&mut out, ">");
    push_str(&mut out, " ");
    push_all(&mut out, &text);
    push_str(&mut out, " ");
    push_str(&mut out, "</a>");
    assert(out@ =~= full_tag_link(tag@, tag_dir@));
    string_of(&out)
}

} // verus!
