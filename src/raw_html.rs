//! Raw HTML blocks: lines between two `%%RAW_HTML` marker lines are hidden
//! from the markdown conversion, each behind its own record.
use vstd::prelude::*;
use crate::chars::lead_ws;
use crate::sanitization::{record_token, RecordView, Sanitization};
use crate::text::{chars_of, same, slice};

verus! {

pub open spec fn marker() -> Seq<char> {
    "%%RAW_HTML"@
}

#[derive(Debug, PartialEq, Eq, Structural, Clone, Copy)]
pub enum RawHTMLParseState {
    Idle,
    Body,
}

/// What a line becomes: the token of a record to register, or the line unchanged.
#[derive(Debug, PartialEq, Eq)]
pub enum ParseOutput {
    Placeholder { replacement: String, placeholder: Option<Sanitization> },
    /// The line stays as it is.
    Keep,
}

pub struct RawHTMLParser {
    pub state: RawHTMLParseState,
}

/// Whether `out` is the token of a record that replaces `line` by `rep` after
/// the markdown conversion.
pub open spec fn hides(out: ParseOutput, line: Seq<char>, rep: Seq<char>) -> bool {
    match out {
        ParseOutput::Placeholder { replacement, placeholder: Some(s) } => {
            &&& s.original@ == line
            &&& s.replacement@ == rep
            &&& !s.before_markdown
            &&& replacement@ == s.token()
        },
        _ => false,
    }
}

/// One step of the raw-HTML line machine: next state, the text that stands
/// for the line, and the record to register, if any.
pub open spec fn raw_step(st: RawHTMLParseState, line: Seq<char>) -> (RawHTMLParseState, Seq<char>, Option<RecordView>) {
    if line.subrange(lead_ws(line, 0), line.len() as int) == marker() {
        let rec = (line, Seq::<char>::empty(), false);
        (if st == RawHTMLParseState::Idle { RawHTMLParseState::Body } else { RawHTMLParseState::Idle }, record_token(rec), Some(rec))
    } else if st == RawHTMLParseState::Body {
        let rec = (line, line, false);
        (RawHTMLParseState::Body, record_token(rec), Some(rec))
    } else {
        (RawHTMLParseState::Idle, line, None)
    }
}

pub open spec fn output_text(out: ParseOutput, line: Seq<char>) -> Seq<char> {
    match out {
        ParseOutput::Placeholder { replacement, .. } => replacement@,
        ParseOutput::Keep => line,
    }
}

pub open spec fn output_record(out: ParseOutput) -> Option<RecordView> {
    match out {
        ParseOutput::Placeholder { placeholder: Some(s), .. } => Some(s@),
        _ => None,
    }
}

impl RawHTMLParser {
    pub fn new() -> (r: RawHTMLParser)
        ensures
            r.state == RawHTMLParseState::Idle,
    {
        RawHTMLParser { state: RawHTMLParseState::Idle }
    }

    /// Feeds one line to the parser. A marker line (after leading white
    /// space) opens or closes a block and vanishes; a line inside a block is
    /// hidden unchanged; other lines stay.
    pub fn process_line(&mut self, line: &str) -> (r: ParseOutput)
        ensures
            ({
                let is_marker = line@.subrange(lead_ws(line@, 0), line@.len() as int) == marker();
                if is_marker {
                    final(self).state == (if old(self).state == RawHTMLParseState::Idle {
                        RawHTMLParseState::Body
                    } else {
                        RawHTMLParseState::Idle
                    }) && hides(r, line@, Seq::empty())
                } else if old(self).state == RawHTMLParseState::Body {
                    final(self).state == RawHTMLParseState::Body && hides(r, line@, line@)
                } else {
                    final(self).state == RawHTMLParseState::Idle && r is Keep
                }
            }),
            (final(self).state, output_text(r, line@), output_record(r)) == raw_step(old(self).state, line@),
    {
        let s = chars_of(line);
        let a = crate::admonitions::skip_ws(&s);
        let t = slice(&s, a, s.len());
        let m = chars_of("%%RAW_HTML");
        let is_marker = same(&t, &m);
        if is_marker {
            self.state = if self.state == RawHTMLParseState::Idle {
                RawHTMLParseState::Body
            } else {
                RawHTMLParseState::Idle
            };
            let san = Sanitization::new(line, "", false);
            proof { reveal_strlit(""); }
            assert(""@ =~= Seq::<char>::empty());
            ParseOutput::Placeholder { replacement: san.get_placeholder(), placeholder: Some(san) }
        } else if self.state == RawHTMLParseState::Body {
            let san = Sanitization::new(line, line, false);
            ParseOutput::Placeholder { replacement: san.get_placeholder(), placeholder: Some(san) }
        } else {
            ParseOutput::Keep
        }
    }
}

} // verus!
