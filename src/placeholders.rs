//! Spans between delimiter pairs (math and code) and their protection behind
//! placeholder records.
use vstd::prelude::*;
use crate::sanitization::{applied, records_view, RecordView, Sanitization};
use crate::text::{chars_of, matches_at, occurs_at, slice, string_of};

verus! {

/// An opening and a closing delimiter, and the phase in which the protected
/// spans come back.
pub struct DelimPair {
    pub open: String,
    pub close: String,
    pub before_md: bool,
}

impl DelimPair {
    pub fn new(open: &str, close: &str) -> (r: DelimPair)
        ensures
            r.open@ == open@,
            r.close@ == close@,
            r.before_md,
    {
        DelimPair { open: open.to_owned(), close: close.to_owned(), before_md: true }
    }

    pub fn new_after_md(open: &str, close: &str) -> (r: DelimPair)
        ensures
            r.open@ == open@,
            r.close@ == close@,
            !r.before_md,
    {
        DelimPair { open: open.to_owned(), close: close.to_owned(), before_md: false }
    }
}

/// The first occurrence of `n` in `h` at or after `start`.
pub open spec fn first_occurrence(h: Seq<char>, n: Seq<char>, start: int) -> Option<int>
    decreases h.len() + 1 - start,
{
    if start < 0 || start + n.len() > h.len() {
        None
    } else if occurs_at(h, n, start) {
        Some(start)
    } else {
        first_occurrence(h, n, start + 1)
    }
}

/// The spans from an opening delimiter to the next closing one, searching
/// from `start`; `open_at` holds where the pending opening delimiter stands.
pub open spec fn pair_scan(s: Seq<char>, o: Seq<char>, c: Seq<char>, start: int, open_at: Option<int>) -> Seq<(int, int)>
    decreases s.len() + 1 - start,
{
    match open_at {
        None => match first_occurrence(s, o, start) {
            Some(a) => if o.len() > 0 && start <= a && a + o.len() <= s.len() {
                pair_scan(s, o, c, a + o.len(), Some(a))
            } else {
                Seq::empty()
            },
            None => Seq::empty(),
        },
        Some(b) => match first_occurrence(s, c, start) {
            Some(a) => if c.len() > 0 && start <= a && a + c.len() <= s.len() {
                seq![(b, a + c.len())] + pair_scan(s, o, c, a + c.len(), None)
            } else {
                Seq::empty()
            },
            None => Seq::empty(),
        },
    }
}

fn first_occurrence_exec(h: &Vec<char>, n: &Vec<char>, start: usize) -> (r: Option<usize>)
    ensures
        match r {
            Some(a) => first_occurrence(h@, n@, start as int) == Some(a as int) && start <= a && a + n.len() <= h.len(),
            None => first_occurrence(h@, n@, start as int) is None,
        },
{
    if n.len() == 0 {
        if start <= h.len() {
            assert(occurs_at(h@, n@, start as int)) by {
                assert(h@.subrange(start as int, start as int) =~= n@);
            }
            return Some(start);
        }
        return None;
    }
    let mut i = start;
    while i < h.len() && n.len() <= h.len() - i
        invariant
            n.len() > 0,
            start <= i,
            first_occurrence(h@, n@, i as int) == first_occurrence(h@, n@, start as int),
        decreases h.len() + 1 - i,
    {
        if matches_at(h, n, i) {
            return Some(i);
        }
        i = i + 1;
    }
    None
}

/// The character spans `(start, end)` of the text enclosed by the delimiter
/// pair, delimiters included, leftmost first.
pub fn find_pair_ids(content: &str, delim: &DelimPair) -> (r: Vec<(usize, usize)>)
    requires
        delim.open@.len() > 0,
        delim.close@.len() > 0,
    ensures
        r@ == Seq::new(pair_scan(content@, delim.open@, delim.close@, 0, None).len(), |i: int| {
            let p = pair_scan(content@, delim.open@, delim.close@, 0, None)[i];
            (p.0 as usize, p.1 as usize)
        }),
        forall|i: int| 0 <= i < r@.len() ==> #[trigger] r@[i].0 <= r@[i].1 <= content@.len(),
{
    let s = chars_of(content);
    let o = chars_of(delim.open.as_str());
    let c = chars_of(delim.close.as_str());
    let ghost whole = pair_scan(s@, o@, c@, 0, None);
    let mut out: Vec<(usize, usize)> = Vec::new();
    let ghost mut g: Seq<(int, int)> = Seq::empty();
    let mut start: usize = 0;
    let mut open_at: Option<usize> = None;
    let mut done = false;
    while !done
        invariant
            s@ == content@,
            o@ == delim.open@,
            c@ == delim.close@,
            o@.len() > 0,
            c@.len() > 0,
            whole == pair_scan(s@, o@, c@, 0, None),
            out@ == Seq::new(g.len(), |i: int| (g[i].0 as usize, g[i].1 as usize)),
            forall|i: int| 0 <= i < g.len() ==> 0 <= #[trigger] g[i].0 <= g[i].1 <= s@.len(),
            match open_at {
                Some(b) => b < start <= s.len(),
                None => start <= s.len(),
            },
            g + pair_scan(s@, o@, c@, start as int, match open_at {
                Some(b) => Some(b as int),
                None => None,
            }) == whole,
            done ==> pair_scan(s@, o@, c@, start as int, match open_at {
                Some(b) => Some(b as int),
                None => None,
            }) =~= Seq::<(int, int)>::empty(),
        decreases (if done { 0int } else { 1int }) + s.len() + 1 - start,
    {
        match open_at {
            None => match first_occurrence_exec(&s, &o, start) {
                Some(a) => {
                    open_at = Some(a);
                    start = a + o.len();
                },
                None => {
                    done = true;
                },
            },
            Some(b) => match first_occurrence_exec(&s, &c, start) {
                Some(a) => {
                    let e = a + c.len();
                    proof {
                        let g0 = g;
                        g = g.push((b as int, e as int));
                        assert(g + pair_scan(s@, o@, c@, e as int, None) =~= g0 + pair_scan(s@, o@, c@, start as int, Some(b as int)));
                    }
                    out.push((b, e));
                    assert(out@ =~= Seq::new(g.len(), |i: int| (g[i].0 as usize, g[i].1 as usize)));
                    open_at = None;
                    start = e;
                },
                None => {
                    done = true;
                },
            },
        }
    }
    proof {
        assert(g + Seq::<(int, int)>::empty() =~= g);
        assert(g =~= whole);
    }
    assert(out@ =~= Seq::new(whole.len(), |i: int| (whole[i].0 as usize, whole[i].1 as usize)));
    out
}

/// The records that protect each delimited span of `s`: span and replacement
/// are the span itself, in the pair's phase.
pub open spec fn pair_records(s: Seq<char>, o: Seq<char>, c: Seq<char>, before: bool) -> Seq<RecordView> {
    let spans = pair_scan(s, o, c, 0, None);
    Seq::new(spans.len(), |i: int| {
        let t = s.subrange(spans[i].0, spans[i].1);
        (t, t, before)
    })
}

/// One record per delimited span, each protecting the span unchanged.
pub fn generate_placeholders(content: &str, delim: &DelimPair) -> (r: Vec<Sanitization>)
    requires
        delim.open@.len() > 0,
        delim.close@.len() > 0,
    ensures
        records_view(r@) == pair_records(content@, delim.open@, delim.close@, delim.before_md),
{
    let ids = find_pair_ids(content, delim);
    let s = chars_of(content);
    let ghost spans = pair_scan(content@, delim.open@, delim.close@, 0, None);
    let mut out: Vec<Sanitization> = Vec::new();
    let mut i: usize = 0;
    while i < ids.len()
        invariant
            s@ == content@,
            i <= ids.len(),
            ids@.len() == spans.len(),
            spans == pair_scan(content@, delim.open@, delim.close@, 0, None),
            forall|k: int| 0 <= k < ids@.len() ==> #[trigger] ids@[k] == (spans[k].0 as usize, spans[k].1 as usize),
            records_view(out@) =~= pair_records(content@, delim.open@, delim.close@, delim.before_md).subrange(0, i as int),
        decreases ids.len() - i,
    {
        let (a, b) = ids[i];
        assert(ids@[i as int] == (spans[i as int].0 as usize, spans[i as int].1 as usize));
        proof { lemma_pair_scan_bounds(content@, delim.open@, delim.close@, 0, None, i as int); }
        assert(0 <= spans[i as int].0 <= spans[i as int].1 <= content@.len());
        assert(content@.len() == s.len());
        assert(a as int == spans[i as int].0);
        assert(b as int == spans[i as int].1);
        let t = string_of(&slice(&s, a, b));
        let rec = Sanitization::new(t.as_str(), t.as_str(), delim.before_md);
        let ghost o0 = out@;
        out.push(rec);
        assert(records_view(out@) =~= records_view(o0).push(rec@));
        i = i + 1;
    }
    out
}

pub proof fn lemma_pair_scan_bounds(s: Seq<char>, o: Seq<char>, c: Seq<char>, start: int, open_at: Option<int>, k: int)
    requires
        0 <= start,
        open_at matches Some(b) ==> 0 <= b < start,
        0 <= k < pair_scan(s, o, c, start, open_at).len(),
    ensures
        0 <= pair_scan(s, o, c, start, open_at)[k].0 <= pair_scan(s, o, c, start, open_at)[k].1 <= s.len(),
    decreases s.len() + 1 - start,
{
    match open_at {
        None => match first_occurrence(s, o, start) {
            Some(a) => if o.len() > 0 && start <= a && a + o.len() <= s.len() {
                lemma_pair_scan_bounds(s, o, c, a + o.len(), Some(a), k);
            },
            None => {},
        },
        Some(b) => match first_occurrence(s, c, start) {
            Some(a) => if c.len() > 0 && start <= a && a + c.len() <= s.len() {
                if k > 0 {
                    lemma_pair_scan_bounds(s, o, c, a + c.len(), None, k - 1);
                }
            },
            None => {},
        },
    }
}

/// The delimiter pairs whose content is protected, longest delimiters first:
/// display and inline math, then fenced and inline code; all of them are
/// restored only after the markdown conversion.
pub open spec fn protected_pairs() -> Seq<(Seq<char>, Seq<char>, bool)> {
    seq![
        ("$$"@, "$$"@, false),
        ("\\["@, "\\]"@, false),
        ("$"@, "$"@, false),
        ("\\("@, "\\)"@, false),
        ("```"@, "```"@, false),
        ("`"@, "`"@, false),
    ]
}

/// Text and records after protecting the spans of the first `n` pairs, each
/// pair working on the text the previous ones left.
pub open spec fn protect_upto(content: Seq<char>, n: int) -> (Seq<char>, Seq<RecordView>)
    decreases n,
{
    if n <= 0 {
        (content, Seq::empty())
    } else {
        let prev = protect_upto(content, n - 1);
        let p = protected_pairs()[n - 1];
        let recs = pair_records(prev.0, p.0, p.1, p.2);
        (applied(prev.0, recs), prev.1 + recs)
    }
}

/// Hides math and code spans behind placeholder records, so that tags and
/// other markup inside them are not seen by later passes.
pub fn disambiguate_protected(content: &str) -> (r: (String, Vec<Sanitization>))
    ensures
        r.0@ == protect_upto(content@, 6).0,
        records_view(r.1@) == protect_upto(content@, 6).1,
{
    let pairs: Vec<DelimPair> = vec![
        DelimPair::new_after_md("$$", "$$"),
        DelimPair::new_after_md("\\[", "\\]"),
        DelimPair::new_after_md("$", "$"),
        DelimPair::new_after_md("\\(", "\\)"),
        DelimPair::new_after_md("```", "```"),
        DelimPair::new_after_md("`", "`"),
    ];
    proof {
        reveal_strlit("$$"); reveal_strlit("\\["); reveal_strlit("\\]"); reveal_strlit("$");
        reveal_strlit("\\("); reveal_strlit("\\)"); reveal_strlit("```"); reveal_strlit("`");
    }
    let mut text = content.to_owned();
    let mut result: Vec<Sanitization> = Vec::new();
    let mut i: usize = 0;
    while i < pairs.len()
        invariant
            pairs@.len() == 6,
            i <= 6,
            forall|k: int| 0 <= k < 6 ==> (#[trigger] pairs@[k]).open@ == protected_pairs()[k].0
                && pairs@[k].close@ == protected_pairs()[k].1 && pairs@[k].before_md == protected_pairs()[k].2,
            text@ == protect_upto(content@, i as int).0,
            records_view(result@) == protect_upto(content@, i as int).1,
        decreases 6 - i,
    {
        proof {
            reveal_strlit("$$"); reveal_strlit("\\["); reveal_strlit("\\]"); reveal_strlit("$");
            reveal_strlit("\\("); reveal_strlit("\\)"); reveal_strlit("```"); reveal_strlit("`");
        }
        let ghost p = protected_pairs()[i as int];
        assert(p.0.len() > 0 && p.1.len() > 0);
        let mut recs = generate_placeholders(text.as_str(), &pairs[i]);
        let cur = chars_of(text.as_str());
        let next = crate::sanitization::apply(&cur, &recs);
        text = string_of(&next);
        let ghost r0 = result@;
        result.append(&mut recs);
        assert(records_view(result@) =~= records_view(r0) + pair_records(protect_upto(content@, i as int).0, p.0, p.1, p.2));
        i = i + 1;
    }
    (text, result)
}

} // verus!
