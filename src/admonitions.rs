//! Admonitions: a `[!type] Title` line opens a block whose lines start with
//! `>`. The block's wrapper markup is hidden from the markdown conversion
//! behind placeholder records.
use vstd::prelude::*;
use crate::chars::{is_ws, is_whitespace, lead_ws, lower_seq, lower_all};
use crate::html::{raw_element, wrap_html_raw};
use crate::sanitization::{record_token, RecordView, Sanitization};
use crate::text::{chars_of, push_all, push_str, slice, string_of};

verus! {

/// A character of an admonition type: the class `[aA-zZ)]`, that is `A`
/// through `z` and `)`.
pub open spec fn is_type_char(c: char) -> bool {
    ('A' <= c && c <= 'z') || c == ')'
}

pub open spec fn type_run_end(s: Seq<char>, q: int) -> int
    decreases s.len() - q,
{
    if q < 0 || q >= s.len() || !is_type_char(s[q]) {
        q
    } else {
        type_run_end(s, q + 1)
    }
}

/// The last `]` in `s` strictly between `lo` and `hi`.
pub open spec fn last_bracket(s: Seq<char>, lo: int, hi: int) -> Option<int>
    decreases hi - lo,
{
    if hi <= lo + 1 {
        None
    } else if s[hi - 1] == ']' {
        Some(hi - 1)
    } else {
        last_bracket(s, lo, hi - 1)
    }
}

/// End of a title that starts at `q`: the first line break or `*`.
pub open spec fn title_end(s: Seq<char>, q: int) -> int
    decreases s.len() - q,
{
    if q < 0 || q >= s.len() || s[q] == '\n' || s[q] == '*' {
        q
    } else {
        title_end(s, q + 1)
    }
}

/// The type and title of an admonition opener that starts at `p`: `[!`, the
/// longest run of type characters that a `]` can close, then the title.
pub open spec fn opener_at(s: Seq<char>, p: int) -> Option<(Seq<char>, Seq<char>)> {
    if 0 <= p && p + 2 < s.len() && s[p] == '[' && s[p + 1] == '!' {
        match last_bracket(s, p + 2, type_run_end(s, p + 2)) {
            Some(t) => Some((s.subrange(p + 2, t), s.subrange(t + 1, title_end(s, t + 1)))),
            None => None,
        }
    } else {
        None
    }
}

/// The first admonition opener in `s` at or after `p`.
pub open spec fn opener_from(s: Seq<char>, p: int) -> Option<(Seq<char>, Seq<char>)>
    decreases s.len() - p,
{
    if p < 0 || p >= s.len() {
        None
    } else if opener_at(s, p) is Some {
        opener_at(s, p)
    } else {
        opener_from(s, p + 1)
    }
}

/// Whether a line is a heading: an optional blank, `#`s, then white space.
pub open spec fn is_heading_line(s: Seq<char>) -> bool {
    let h = if s.len() > 0 && (s[0] == ' ' || s[0] == '\t') { 1int } else { 0int };
    h < s.len() && s[h] == '#' && {
        let e = hashes_end(s, h);
        e < s.len() && is_ws(s[e])
    }
}

pub open spec fn hashes_end(s: Seq<char>, q: int) -> int
    decreases s.len() - q,
{
    if q < 0 || q >= s.len() || s[q] != '#' {
        q
    } else {
        hashes_end(s, q + 1)
    }
}

/// The markup that opens an admonition of the given type and title.
pub open spec fn opening_markup(ad_type: Seq<char>, title: Seq<char>) -> Seq<char> {
    "<div class=\"admonition admonition-note "@ + ad_type + "\">\n"@ + raw_element(
        title,
        "div"@,
        "class=\"admonition-title "@ + ad_type + "\""@,
    ) + "<div class=\"admonition-content\">"@
}

/// The markup that closes an admonition.
pub open spec fn closing_markup() -> Seq<char> {
    "</div></div>"@
}

#[derive(Debug, PartialEq, Eq, Structural, Clone, Copy)]
pub enum AdmonitionState {
    Idle,
    Body,
    SingleBreak,
}

/// What a line becomes: either a replacement text, with perhaps a record to
/// register, or the line unchanged.
#[derive(Debug, PartialEq, Eq)]
pub enum ParseOutput {
    Placeholder { replacement: String, placeholder: Option<Sanitization> },
    /// The line stays as it is.
    Keep,
}

pub struct AdmonitionParser {
    pub state: AdmonitionState,
}

/// Whether `out` replaces a line by the closing record's token, a line break
/// and the line itself.
pub open spec fn is_close(out: ParseOutput, line: Seq<char>) -> bool {
    match out {
        ParseOutput::Placeholder { replacement, placeholder: Some(s) } => {
            &&& s.original@ == closing_markup()
            &&& s.replacement@ == closing_markup()
            &&& !s.before_markdown
            &&& replacement@ == s.token() + "\n"@ + line
        },
        _ => false,
    }
}

/// One step of the admonition line machine: next state, the text that stands
/// for the line, and the record to register, if any.
pub open spec fn adm_step(st: AdmonitionState, line: Seq<char>) -> (AdmonitionState, Seq<char>, Option<RecordView>) {
    let t = line.subrange(lead_ws(line, 0), line.len() as int);
    match st {
        AdmonitionState::Idle => match opener_from(line, 0) {
            Some((ty, ti)) => {
                let rec = (line, opening_markup(lower_seq(ty), ti), false);
                (AdmonitionState::Body, record_token(rec), Some(rec))
            },
            None => (AdmonitionState::Idle, line, None),
        },
        _ => if t.len() > 0 && t[0] == '>' {
            (AdmonitionState::Body, t.subrange(1, t.len() as int), None)
        } else if st == AdmonitionState::Body && !is_heading_line(line) {
            (AdmonitionState::SingleBreak, line, None)
        } else {
            let rec = (closing_markup(), closing_markup(), false);
            (AdmonitionState::Idle, record_token(rec) + "\n"@ + line, Some(rec))
        },
    }
}

/// The text that a parse output gives for a line.
pub open spec fn output_text(out: ParseOutput, line: Seq<char>) -> Seq<char> {
    match out {
        ParseOutput::Placeholder { replacement, .. } => replacement@,
        ParseOutput::Keep => line,
    }
}

/// The record that a parse output registers.
pub open spec fn output_record(out: ParseOutput) -> Option<RecordView> {
    match out {
        ParseOutput::Placeholder { placeholder: Some(s), .. } => Some(s@),
        _ => None,
    }
}

impl AdmonitionParser {
    pub fn new() -> (r: AdmonitionParser)
        ensures
            r.state == AdmonitionState::Idle,
    {
        AdmonitionParser { state: AdmonitionState::Idle }
    }

    /// The markup that opens an admonition.
    pub fn start_admonition(ad_type: &str, title: &str) -> (r: String)
        ensures
            r@ == opening_markup(ad_type@, title@),
    {
        let mut out: Vec<char> = Vec::new();
        push_str(&mut out, "<div class=\"admonition admonition-note ");
        push_str(&mut out, ad_type);
        push_str(&mut out, "\">\n");
        let mut cls: Vec<char> = Vec::new();
        push_str(&mut cls, "class=\"admonition-title ");
        push_str(&mut cls, ad_type);
        push_str(&mut cls, "\"");
        let cls_s = string_of(&cls);
        let t = wrap_html_raw(title, "div", cls_s.as_str());
        push_str(&mut out, t.as_str());
        push_str(&mut out, "<div class=\"admonition-content\">");
        assert(out@ =~= opening_markup(ad_type@, title@));
        string_of(&out)
    }

    fn close(line: &str) -> (r: ParseOutput)
        ensures
            is_close(r, line@),
    {
        let s = Sanitization::new("</div></div>", "</div></div>", false);
        let mut rep: Vec<char> = chars_of(s.get_placeholder().as_str());
        push_str(&mut rep, "\n");
        push_str(&mut rep, line);
        ParseOutput::Placeholder { replacement: string_of(&rep), placeholder: Some(s) }
    }

    /// Feeds one line (without its line break) to the parser. An opener line
    /// becomes the token of a record for the opening markup; a `>` line of the
    /// block loses its `>`; a heading closes the block at once; two lines in
    /// a row without `>` close it too.
    pub fn process_line(&mut self, line: &str) -> (r: ParseOutput)
        ensures
            ({
                let t = line@.subrange(lead_ws(line@, 0), line@.len() as int);
                match old(self).state {
                    AdmonitionState::Idle => match opener_from(line@, 0) {
                        Some((ty, ti)) => final(self).state == AdmonitionState::Body && (r matches ParseOutput::Placeholder {
                            replacement,
                            placeholder: Some(s),
                        } && s.original@ == line@ && s.replacement@ == opening_markup(lower_seq(ty), ti)
                            && !s.before_markdown && replacement@ == s.token()),
                        None => final(self).state == AdmonitionState::Idle && r is Keep,
                    },
                    _ => if t.len() > 0 && t[0] == '>' {
                        final(self).state == AdmonitionState::Body && (r matches ParseOutput::Placeholder {
                            replacement,
                            placeholder: None,
                        } && replacement@ == t.subrange(1, t.len() as int))
                    } else if old(self).state == AdmonitionState::Body && !is_heading_line(line@) {
                        final(self).state == AdmonitionState::SingleBreak && r is Keep
                    } else {
                        final(self).state == AdmonitionState::Idle && is_close(r, line@)
                    },
                }
            }),
            (final(self).state, output_text(r, line@), output_record(r)) == adm_step(old(self).state, line@),
    {
        let s = chars_of(line);
        match self.state {
            AdmonitionState::Idle => {
                match find_opener(&s) {
                    Some((ty, ti)) => {
                        let ty_l = string_of(&lower_all(&ty));
                        let ti_s = string_of(&ti);
                        let rep = Self::start_admonition(ty_l.as_str(), ti_s.as_str());
                        let san = Sanitization::new(line, rep.as_str(), false);
                        self.state = AdmonitionState::Body;
                        ParseOutput::Placeholder { replacement: san.get_placeholder(), placeholder: Some(san) }
                    },
                    None => ParseOutput::Keep,
                }
            },
            _ => {
                let a = skip_ws(&s);
                if a < s.len() && s[a] == '>' {
                    self.state = AdmonitionState::Body;
                    ParseOutput::Placeholder { replacement: string_of(&slice(&s, a + 1, s.len())), placeholder: None }
                } else if self.state == AdmonitionState::Body && !heading_line(&s) {
                    self.state = AdmonitionState::SingleBreak;
                    ParseOutput::Keep
                } else {
                    self.state = AdmonitionState::Idle;
                    Self::close(line)
                }
            },
        }
    }
}

pub fn skip_ws(s: &Vec<char>) -> (r: usize)
    ensures
        r == lead_ws(s@, 0),
        r <= s.len(),
{
    let mut a: usize = 0;
    while a < s.len() && is_whitespace(s[a])
        invariant
            a <= s.len(),
            lead_ws(s@, a as int) == lead_ws(s@, 0),
        decreases s.len() - a,
    {
        a = a + 1;
    }
    a
}

fn heading_line(s: &Vec<char>) -> (r: bool)
    ensures
        r == is_heading_line(s@),
{
    let h: usize = if s.len() > 0 && (s[0] == ' ' || s[0] == '\t') { 1 } else { 0 };
    if h >= s.len() || s[h] != '#' {
        return false;
    }
    let mut e = h;
    while e < s.len() && s[e] == '#'
        invariant
            h <= e <= s.len(),
            hashes_end(s@, e as int) == hashes_end(s@, h as int),
        decreases s.len() - e,
    {
        e = e + 1;
    }
    e < s.len() && is_whitespace(s[e])
}

fn opener_exec(s: &Vec<char>, p: usize) -> (r: Option<(Vec<char>, Vec<char>)>)
    ensures
        match r {
            Some((a, b)) => opener_at(s@, p as int) == Some((a@, b@)),
            None => opener_at(s@, p as int) is None,
        },
{
    if !(p < s.len() && s.len() - p > 2 && s[p] == '[' && s[p + 1] == '!') {
        return None;
    }
    let mut e = p + 2;
    while e < s.len() && (('A' <= s[e] && s[e] <= 'z') || s[e] == ')')
        invariant
            p + 2 <= e <= s.len(),
            type_run_end(s@, e as int) == type_run_end(s@, p + 2),
        decreases s.len() - e,
    {
        e = e + 1;
    }
    let mut hi = e;
    while hi > p + 3 && s[hi - 1] != ']'
        invariant
            p + 2 < s.len(),
            e <= s.len(),
            p + 2 <= hi <= e,
            last_bracket(s@, p + 2, hi as int) == last_bracket(s@, p + 2, e as int),
        decreases hi,
    {
        hi = hi - 1;
    }
    if hi <= p + 3 {
        return None;
    }
    let t = hi - 1;
    let mut q = t + 1;
    while q < s.len() && s[q] != '\n' && s[q] != '*'
        invariant
            t + 1 <= q <= s.len(),
            title_end(s@, q as int) == title_end(s@, t + 1),
        decreases s.len() - q,
    {
        q = q + 1;
    }
    Some((slice(s, p + 2, t), slice(s, t + 1, q)))
}

/// The first admonition opener in the line.
fn find_opener(s: &Vec<char>) -> (r: Option<(Vec<char>, Vec<char>)>)
    ensures
        match r {
            Some((a, b)) => opener_from(s@, 0) == Some((a@, b@)),
            None => opener_from(s@, 0) is None,
        },
{
    let mut p: usize = 0;
    while p < s.len()
        invariant
            p <= s.len(),
            opener_from(s@, p as int) == opener_from(s@, 0),
        decreases s.len() - p,
    {
        if let Some(x) = opener_exec(s, p) {
            return Some(x);
        }
        p = p + 1;
    }
    None
}

} // verus!
