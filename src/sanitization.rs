//! Protection of text spans across passes. A record pairs a span of the note
//! with the text that finally stands for it; while the note is processed the
//! span is hidden behind a token, and the token is later exchanged for the
//! replacement, before or after the markdown conversion.
use vstd::prelude::*;
use crate::text::{chars_of, occurs_at, replace_all, replaced, string_of};

verus! {

pub const FNV_OFFSET: u64 = 0xcbf2_9ce4_8422_2325;

pub const FNV_PRIME: u64 = 0x0000_0100_0000_01b3;

/// One step of the FNV-1a hash.
pub open spec fn fnv_step(h: u64, c: char) -> u64 {
    (h ^ (c as u32 as u64)).wrapping_mul(FNV_PRIME)
}

/// FNV-1a hash of a character sequence.
pub open spec fn fnv(s: Seq<char>) -> u64
    decreases s.len(),
{
    if s.len() == 0 {
        FNV_OFFSET
    } else {
        fnv_step(fnv(s.drop_last()), s.last())
    }
}

/// The sequence that a record's three parts are hashed as.
pub open spec fn record_key(original: Seq<char>, replacement: Seq<char>, before: bool) -> Seq<char> {
    original + seq!['\u{0}'] + replacement + seq![if before { '1' } else { '0' }]
}

pub open spec fn digit_char(d: nat) -> char {
    if d == 0 { '0' }
    else if d == 1 { '1' }
    else if d == 2 { '2' }
    else if d == 3 { '3' }
    else if d == 4 { '4' }
    else if d == 5 { '5' }
    else if d == 6 { '6' }
    else if d == 7 { '7' }
    else if d == 8 { '8' }
    else { '9' }
}

/// Decimal digits of `n`, most significant first.
pub open spec fn decimal(n: nat) -> Seq<char>
    decreases n,
{
    if n < 10 {
        seq![digit_char(n)]
    } else {
        decimal(n / 10).push(digit_char(n % 10))
    }
}

/// The token of a record: the hash of its three parts, in decimal.
#[verifier::opaque]
pub open spec fn token_of(original: Seq<char>, replacement: Seq<char>, before: bool) -> Seq<char> {
    decimal(fnv(record_key(original, replacement, before)) as nat)
}

#[derive(Debug, PartialEq, Eq)]
pub struct Sanitization {
    pub original: String,
    pub replacement: String,
    /// Whether the token is exchanged before the markdown conversion.
    pub before_markdown: bool,
}

impl Sanitization {
    pub open spec fn token(&self) -> Seq<char> {
        token_of(self.original@, self.replacement@, self.before_markdown)
    }

    pub fn new(original: &str, replacement: &str, before: bool) -> (r: Sanitization)
        ensures
            r.original@ == original@,
            r.replacement@ == replacement@,
            r.before_markdown == before,
    {
        Sanitization {
            original: original.to_owned(),
            replacement: replacement.to_owned(),
            before_markdown: before,
        }
    }

    /// A record that protects `s` until before the markdown conversion and
    /// then gives it back unchanged.
    pub fn from(s: &str) -> (r: Sanitization)
        ensures
            r.original@ == s@,
            r.replacement@ == s@,
            r.before_markdown,
    {
        Self::new(s, s, true)
    }

    /// A record that gives `s` back unchanged before the markdown conversion.
    pub fn before_md(s: &str) -> (r: Sanitization)
        ensures
            r.original@ == s@,
            r.replacement@ == s@,
            r.before_markdown,
    {
        Self::new(s, s, true)
    }

    /// A record that hides `s` from the markdown conversion and gives it back
    /// unchanged afterwards.
    pub fn after_md(s: &str) -> (r: Sanitization)
        ensures
            r.original@ == s@,
            r.replacement@ == s@,
            !r.before_markdown,
    {
        Self::new(s, s, false)
    }

    pub fn duplicate(&self) -> (r: Sanitization)
        ensures
            r == *self,
    {
        Sanitization {
            original: self.original.clone(),
            replacement: self.replacement.clone(),
            before_markdown: self.before_markdown,
        }
    }

    /// The token that stands for the original span.
    pub fn get_placeholder(&self) -> (r: String)
        ensures
            r@ == self.token(),
    {
        let v = token_chars(&self.original, &self.replacement, self.before_markdown);
        string_of(&v)
    }

    /// Replaces every occurrence of the original span in `content` by the token.
    pub fn apply_to(&self, content: &Vec<char>) -> (r: Vec<char>)
        ensures
            r@ == replaced(content@, self.original@, self.token()),
    {
        let o = chars_of(self.original.as_str());
        let t = token_chars(&self.original, &self.replacement, self.before_markdown);
        replace_all(content, &o, &t)
    }

    /// Replaces every occurrence of the token in `content` by the replacement.
    pub fn restore_in(&self, content: &Vec<char>) -> (r: Vec<char>)
        ensures
            r@ == replaced(content@, self.token(), self.replacement@),
    {
        let t = token_chars(&self.original, &self.replacement, self.before_markdown);
        let rep = chars_of(self.replacement.as_str());
        replace_all(content, &t, &rep)
    }
}

fn hash_record(original: &Vec<char>, replacement: &Vec<char>, before: bool) -> (r: u64)
    ensures
        r == fnv(record_key(original@, replacement@, before)),
{
    let mut key: Vec<char> = Vec::new();
    crate::text::push_all(&mut key, original);
    key.push('\u{0}');
    crate::text::push_all(&mut key, replacement);
    key.push(if before { '1' } else { '0' });
    assert(key@ =~= record_key(original@, replacement@, before));
    let mut h: u64 = FNV_OFFSET;
    let mut i: usize = 0;
    while i < key.len()
        invariant
            i <= key.len(),
            h == fnv(key@.subrange(0, i as int)),
        decreases key.len() - i,
    {
        let c = key[i];
        proof {
            let s = key@.subrange(0, i + 1);
            assert(s.drop_last() =~= key@.subrange(0, i as int));
        }
        h = (h ^ (c as u32 as u64)).wrapping_mul(FNV_PRIME);
        i = i + 1;
    }
    assert(key@.subrange(0, key@.len() as int) =~= key@);
    h
}

fn digit(d: u64) -> (c: char)
    requires
        d < 10,
    ensures
        c == digit_char(d as nat),
{
    if d == 0 { '0' }
    else if d == 1 { '1' }
    else if d == 2 { '2' }
    else if d == 3 { '3' }
    else if d == 4 { '4' }
    else if d == 5 { '5' }
    else if d == 6 { '6' }
    else if d == 7 { '7' }
    else if d == 8 { '8' }
    else { '9' }
}

/// Appends the decimal digits of `n` to `out`.
pub fn push_decimal(out: &mut Vec<char>, n: u64)
    ensures
        final(out)@ == old(out)@ + decimal(n as nat),
    decreases n,
{
    if n < 10 {
        out.push(digit(n));
    } else {
        push_decimal(out, n / 10);
        out.push(digit(n % 10));
    }
}

fn token_chars(original: &String, replacement: &String, before: bool) -> (r: Vec<char>)
    ensures
        r@ == token_of(original@, replacement@, before),
{
    let o = chars_of(original.as_str());
    let rep = chars_of(replacement.as_str());
    let h = hash_record(&o, &rep, before);
    let mut out: Vec<char> = Vec::new();
    push_decimal(&mut out, h);
    reveal(token_of);
    assert(out@ =~= token_of(original@, replacement@, before));
    out
}

/// A record as three values: original span, replacement, phase.
pub type RecordView = (Seq<char>, Seq<char>, bool);

pub open spec fn record_token(r: RecordView) -> Seq<char> {
    token_of(r.0, r.1, r.2)
}

pub open spec fn records_view(v: Seq<Sanitization>) -> Seq<RecordView> {
    Seq::new(v.len(), |i: int| v[i]@)
}

impl Sanitization {
    pub open spec fn view(&self) -> RecordView {
        (self.original@, self.replacement@, self.before_markdown)
    }
}

/// What `content` becomes when every record, in order, hides its span behind its token.
pub open spec fn applied(content: Seq<char>, records: Seq<RecordView>) -> Seq<char>
    decreases records.len(),
{
    if records.len() == 0 {
        content
    } else {
        let last = records.last();
        replaced(applied(content, records.drop_last()), last.0, record_token(last))
    }
}

/// What `content` becomes when every record of the given phase, from the
/// last registered to the first, exchanges its token for its replacement. A
/// token that a later record's replacement brings in is thus exchanged too.
pub open spec fn restored(content: Seq<char>, records: Seq<RecordView>, before: bool) -> Seq<char>
    decreases records.len(),
{
    if records.len() == 0 {
        content
    } else {
        let last = records.last();
        let c1 = if last.2 == before { replaced(content, record_token(last), last.1) } else { content };
        restored(c1, records.drop_last(), before)
    }
}

/// What `content` becomes when every record, whatever its phase, from the
/// last registered to the first, exchanges its token for its replacement.
pub open spec fn restored_all(content: Seq<char>, records: Seq<RecordView>) -> Seq<char>
    decreases records.len(),
{
    if records.len() == 0 {
        content
    } else {
        let last = records.last();
        restored_all(replaced(content, record_token(last), last.1), records.drop_last())
    }
}

/// Hides the span of every record, in order, behind its token.
pub fn apply(content: &Vec<char>, records: &Vec<Sanitization>) -> (r: Vec<char>)
    ensures
        r@ == applied(content@, records_view(records@)),
{
    let mut cur = crate::text::slice(content, 0, content.len());
    assert(cur@ =~= content@);
    let mut i: usize = 0;
    while i < records.len()
        invariant
            i <= records.len(),
            cur@ == applied(content@, records_view(records@).subrange(0, i as int)),
        decreases records.len() - i,
    {
        cur = records[i].apply_to(&cur);
        proof {
            assert(records_view(records@).subrange(0, i + 1).drop_last() =~= records_view(records@).subrange(0, i as int));
        }
        i = i + 1;
    }
    assert(records_view(records@).subrange(0, records@.len() as int) =~= records_view(records@));
    cur
}

/// Exchanges the token of every record of the given phase for its
/// replacement, the last registered first.
pub fn restore(content: &Vec<char>, records: &Vec<Sanitization>, before: bool) -> (r: Vec<char>)
    ensures
        r@ == restored(content@, records_view(records@), before),
{
    let mut cur = crate::text::slice(content, 0, content.len());
    assert(cur@ =~= content@);
    let mut i: usize = records.len();
    assert(records_view(records@).subrange(0, records@.len() as int) =~= records_view(records@));
    while i > 0
        invariant
            i <= records.len(),
            restored(cur@, records_view(records@).subrange(0, i as int), before) == restored(content@, records_view(records@), before),
        decreases i,
    {
        let ghost pre = records_view(records@).subrange(0, i as int);
        assert(pre.drop_last() =~= records_view(records@).subrange(0, i - 1));
        assert(pre.last() == records@[i - 1]@);
        if records[i - 1].before_markdown == before {
            cur = records[i - 1].restore_in(&cur);
        }
        i = i - 1;
    }
    cur
}

/// Exchanges the token of every record, whatever its phase, for its
/// replacement, the last registered first.
pub fn restore_all(content: &Vec<char>, records: &Vec<Sanitization>) -> (r: Vec<char>)
    ensures
        r@ == restored_all(content@, records_view(records@)),
{
    let mut cur = crate::text::slice(content, 0, content.len());
    assert(cur@ =~= content@);
    let mut i: usize = records.len();
    assert(records_view(records@).subrange(0, records@.len() as int) =~= records_view(records@));
    while i > 0
        invariant
            i <= records.len(),
            restored_all(cur@, records_view(records@).subrange(0, i as int)) == restored_all(content@, records_view(records@)),
        decreases i,
    {
        let ghost pre = records_view(records@).subrange(0, i as int);
        assert(pre.drop_last() =~= records_view(records@).subrange(0, i - 1));
        assert(pre.last() == records@[i - 1]@);
        cur = records[i - 1].restore_in(&cur);
        i = i - 1;
    }
    cur
}

/// Text without the first character of a pattern is left alone by a
/// replacement of that pattern.
proof fn lemma_replace_absent(h: Seq<char>, t: Seq<char>, r: Seq<char>)
    requires
        t.len() > 0,
        !h.contains(t[0]),
    ensures
        replaced(h, t, r) == h,
    decreases h.len(),
{
    if h.len() >= t.len() {
        assert(h.subrange(0, t.len() as int)[0] == h[0]);
        assert(h.contains(h[0]));
        let tail = h.subrange(1, h.len() as int);
        assert forall|c: char| tail.contains(c) implies h.contains(c) by {
            let k = choose|k: int| 0 <= k < tail.len() && tail[k] == c;
            assert(h[k + 1] == c);
        }
        lemma_replace_absent(tail, t, r);
        assert(seq![h[0]] + tail =~= h);
    }
}

/// Hiding spans behind a token and then exchanging the token for a
/// replacement is the same as replacing the spans directly, as long as the
/// text does not already hold the token's first character.
pub proof fn lemma_hide_then_restore(c: Seq<char>, o: Seq<char>, t: Seq<char>, r: Seq<char>)
    requires
        o.len() > 0,
        t.len() > 0,
        !c.contains(t[0]),
    ensures
        replaced(replaced(c, o, t), t, r) == replaced(c, o, r),
    decreases c.len(),
{
    if c.len() < o.len() {
        lemma_replace_absent(c, t, r);
    } else {
        let tail_o = c.subrange(o.len() as int, c.len() as int);
        let tail_1 = c.subrange(1, c.len() as int);
        assert forall|x: char| tail_o.contains(x) implies c.contains(x) by {
            let k = choose|k: int| 0 <= k < tail_o.len() && tail_o[k] == x;
            assert(c[k + o.len()] == x);
        }
        assert forall|x: char| tail_1.contains(x) implies c.contains(x) by {
            let k = choose|k: int| 0 <= k < tail_1.len() && tail_1[k] == x;
            assert(c[k + 1] == x);
        }
        if c.subrange(0, o.len() as int) == o {
            lemma_hide_then_restore(tail_o, o, t, r);
            let x = replaced(tail_o, o, t);
            let whole = t + x;
            assert(whole.subrange(0, t.len() as int) =~= t);
            assert(whole.subrange(t.len() as int, whole.len() as int) =~= x);
        } else {
            lemma_hide_then_restore(tail_1, o, t, r);
            let x = replaced(tail_1, o, t);
            let whole = seq![c[0]] + x;
            assert(c.contains(c[0]));
            if whole.len() >= t.len() {
                assert(whole.subrange(0, t.len() as int)[0] == c[0]);
                assert(whole.subrange(1, whole.len() as int) =~= x);
            } else {
                lemma_replace_absent_short(x, t, r);
            }
        }
    }
}

/// Text shorter than the pattern is left alone.
proof fn lemma_replace_absent_short(h: Seq<char>, t: Seq<char>, r: Seq<char>)
    requires
        h.len() < t.len(),
    ensures
        replaced(h, t, r) == h,
{
}

proof fn lemma_decimal_digits(n: nat)
    ensures
        decimal(n).len() > 0,
        forall|i: int| 0 <= i < decimal(n).len() ==> '0' <= #[trigger] decimal(n)[i] <= '9',
    decreases n,
{
    if n >= 10 {
        lemma_decimal_digits(n / 10);
        assert forall|i: int| 0 <= i < decimal(n).len() implies '0' <= #[trigger] decimal(n)[i] <= '9' by {
            if i < decimal(n / 10).len() {
                assert(decimal(n)[i] == decimal(n / 10)[i]);
            }
        }
    }
}

/// A record's token is a non-empty run of ASCII digits.
pub proof fn lemma_token_is_decimal(s: RecordView)
    ensures
        record_token(s).len() > 0,
        forall|i: int| 0 <= i < record_token(s).len() ==> '0' <= #[trigger] record_token(s)[i] <= '9',
{
    reveal(token_of);
    lemma_decimal_digits(fnv(record_key(s.0, s.1, s.2)) as nat);
}

/// Round trip of a single record: hiding its span and then restoring its
/// phase yields the content with the replacement in place of the span, for
/// any content without the token's first digit (so that no occurrence of the
/// token can be in the content or arise across a boundary). Restoring the
/// other phase leaves the hidden content as it is.
pub proof fn lemma_round_trip(content: Seq<char>, s: RecordView)
    requires
        s.0.len() > 0,
        !content.contains(record_token(s)[0]),
    ensures
        restored(applied(content, seq![s]), seq![s], s.2) == replaced(content, s.0, s.1),
        restored(applied(content, seq![s]), seq![s], !s.2) == applied(content, seq![s]),
        restored_all(applied(content, seq![s]), seq![s]) == replaced(content, s.0, s.1),
{
    let one = seq![s];
    assert(one.drop_last() =~= Seq::<RecordView>::empty());
    assert(one.last() == s);
    lemma_token_is_decimal(s);
    assert(applied(content, one.drop_last()) == content);
    assert(applied(content, one) == replaced(content, s.0, record_token(s)));
    let hidden = applied(content, one);
    let back = replaced(hidden, record_token(s), s.1);
    assert(restored(back, one.drop_last(), s.2) == back);
    assert(restored(hidden, one.drop_last(), !s.2) == hidden);
    assert(restored_all(back, one.drop_last()) == back);
    lemma_hide_then_restore(content, s.0, record_token(s), s.1);
}

/// Records with the same three parts have the same token.
pub proof fn lemma_token_deterministic(a: Sanitization, b: Sanitization)
    requires
        a.original@ == b.original@,
        a.replacement@ == b.replacement@,
        a.before_markdown == b.before_markdown,
    ensures
        a.token() == b.token(),
{
}

} // verus!
