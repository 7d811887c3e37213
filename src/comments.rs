//! Obsidian comments.
use vstd::prelude::*;
use crate::placeholders::first_occurrence;
use crate::text::{chars_of, matches_at, slice, string_of};

verus! {

/// The part of a line before the comment marker `%%%%`, or the whole line.
pub fn process_line(line: &str) -> (r: String)
    ensures
        r@ == match first_occurrence(line@, "%%%%"@, 0) {
            Some(k) => line@.subrange(0, k),
            None => line@,
        },
{
    let s = chars_of(line);
    let m = chars_of("%%%%");
    let mut i: usize = 0;
    while i < s.len() && m.len() <= s.len() - i
        invariant
            m@ == "%%%%"@,
            s@ == line@,
            first_occurrence(s@, m@, i as int) == first_occurrence(s@, m@, 0),
        decreases s.len() - i,
    {
        if matches_at(&s, &m, i) {
            assert(first_occurrence(s@, m@, i as int) == Some(i as int));
            return string_of(&slice(&s, 0, i));
        }
        i = i + 1;
    }
    proof { reveal_strlit("%%%%"); }
    assert(first_occurrence(s@, m@, i as int) is None);
    assert(s@.subrange(0, s@.len() as int) =~= s@);
    string_of(&s)
}

} // verus!
