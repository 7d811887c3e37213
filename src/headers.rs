//! Obsidian headings need no blank line before them; the markdown engine
//! does. This pass adds the blank line where a heading follows a text line.
use vstd::prelude::*;
use crate::text::{chars_of, push_str, string_of};

verus! {

/// Space or tab.
pub open spec fn is_blank(c: char) -> bool {
    c == ' ' || c == '\t'
}

/// A line of blanks only.
pub open spec fn is_empty_line(s: Seq<char>) -> bool {
    forall|i: int| 0 <= i < s.len() ==> is_blank(#[trigger] s[i])
}

/// A line that starts, after at most one blank, with `#`.
pub open spec fn is_header_line(s: Seq<char>) -> bool {
    (s.len() > 0 && s[0] == '#') || (s.len() > 1 && is_blank(s[0]) && s[1] == '#')
}

#[derive(Debug, PartialEq, Eq, Structural, Clone, Copy)]
pub enum HeaderState {
    Idle,
    PrecedingEmptyLine,
    PrecedingRegLine,
}

pub struct HeaderParser {
    pub state: HeaderState,
}

/// One step of the heading line machine: next state and the text that stands
/// for the line.
pub open spec fn header_step(st: HeaderState, line: Seq<char>) -> (HeaderState, Seq<char>) {
    if is_empty_line(line) {
        (HeaderState::PrecedingEmptyLine, line)
    } else if !is_header_line(line) {
        (HeaderState::PrecedingRegLine, line)
    } else if st == HeaderState::PrecedingRegLine {
        (HeaderState::Idle, seq!['\n'] + line)
    } else {
        (HeaderState::Idle, line)
    }
}

impl HeaderParser {
    pub fn new() -> (r: HeaderParser)
        ensures
            r.state == HeaderState::Idle,
    {
        HeaderParser { state: HeaderState::Idle }
    }

    /// Feeds one line; gives the line with a line break in front when it is a
    /// heading right after a text line, and nothing when it stays as it is.
    pub fn process_line(&mut self, line: &str) -> (r: Option<String>)
        ensures
            is_empty_line(line@) ==> final(self).state == HeaderState::PrecedingEmptyLine && r is None,
            !is_empty_line(line@) && !is_header_line(line@) ==> final(self).state
                == HeaderState::PrecedingRegLine && r is None,
            !is_empty_line(line@) && is_header_line(line@) ==> final(self).state == HeaderState::Idle
                && (if old(self).state == HeaderState::PrecedingRegLine {
                r matches Some(x) && x@ == seq!['\n'] + line@
            } else {
                r is None
            }),
            header_step(old(self).state, line@) == (final(self).state, match r {
                Some(x) => x@,
                None => line@,
            }),
    {
        let s = chars_of(line);
        let mut i: usize = 0;
        while i < s.len() && (s[i] == ' ' || s[i] == '\t')
            invariant
                i <= s.len(),
                forall|j: int| 0 <= j < i ==> is_blank(#[trigger] s@[j]),
            decreases s.len() - i,
        {
            i = i + 1;
        }
        if i == s.len() {
            self.state = HeaderState::PrecedingEmptyLine;
            return None;
        }
        let header = (s.len() > 0 && s[0] == '#') || (s.len() > 1 && (s[0] == ' ' || s[0] == '\t') && s[1] == '#');
        if !header {
            self.state = HeaderState::PrecedingRegLine;
            return None;
        }
        let before = self.state;
        self.state = HeaderState::Idle;
        if before == HeaderState::PrecedingRegLine {
            let mut out: Vec<char> = vec!['\n'];
            push_str(&mut out, line);
            assert(out@ =~= seq!['\n'] + line@);
            Some(string_of(&out))
        } else {
            None
        }
    }
}

} // verus!
