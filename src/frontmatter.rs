//! The YAML block at the start of a note, and the values read from it.
use vstd::prelude::*;
use chrono::Datelike;
use crate::link::opt_view;
use crate::text::{chars_of, lines, lines_of, push_all, slice, string_of};

verus! {

/// What `yaml_rust` reads for `key` in the first document of `doc`, as a string.
pub uninterp spec fn yaml_field(doc: Seq<char>, key: Seq<char>) -> Option<Seq<char>>;

/// What `yaml_rust` reads for the first element of the list under `key` in the
/// first document of `doc`, as a string.
pub uninterp spec fn yaml_first_field(doc: Seq<char>, key: Seq<char>) -> Option<Seq<char>>;

/// A calendar date parsed by `chrono` from a text with a format.
pub uninterp spec fn date_of(s: Seq<char>, fmt: Seq<char>) -> Option<(u32, u32, u32)>;

/// Relies on `yaml_rust::YamlLoader::load_from_str`, indexing the first
/// document by `key` and `Yaml::as_str`: the string stored under the key, if
/// the text parses and the value is a string.
#[verifier::external_body]
fn yaml_string(doc: &str, key: &str) -> (r: Option<String>)
    ensures
        opt_view(r) == yaml_field(doc@, key@),
{
    match yaml_rust::YamlLoader::load_from_str(doc) {
        Ok(docs) => match docs.first() {
            Some(y) => y[key].as_str().map(String::from),
            None => None,
        },
        Err(_) => None,
    }
}

/// What `yaml_rust` reads for `key` in the first document of `doc`, as an integer.
pub uninterp spec fn yaml_int_field(doc: Seq<char>, key: Seq<char>) -> Option<i64>;

/// Relies on `yaml_rust::YamlLoader::load_from_str`, indexing the first
/// document by `key` and `Yaml::as_i64`: the integer stored under the key, if
/// the text parses and the value is an integer.
#[verifier::external_body]
fn yaml_integer(doc: &str, key: &str) -> (r: Option<i64>)
    ensures
        r == yaml_int_field(doc@, key@),
{
    match yaml_rust::YamlLoader::load_from_str(doc) {
        Ok(docs) => match docs.first() {
            Some(y) => y[key].as_i64(),
            None => None,
        },
        Err(_) => None,
    }
}

/// An integer in decimal, with a minus sign when negative.
pub open spec fn int_text(n: i64) -> Seq<char> {
    if n < 0 { seq!['-'] + crate::sanitization::decimal((-n) as nat) } else { crate::sanitization::decimal(n as nat) }
}

/// A value of the front matter that may be written as a string or as an
/// integer, as text.
pub open spec fn scalar_field(doc: Seq<char>, key: Seq<char>) -> Option<Seq<char>> {
    match yaml_field(doc, key) {
        Some(s) => Some(s),
        None => match yaml_int_field(doc, key) {
            Some(n) => Some(int_text(n)),
            None => None,
        },
    }
}

fn yaml_scalar(doc: &str, key: &str) -> (r: Option<String>)
    ensures
        opt_view(r) == scalar_field(doc@, key@),
{
    match yaml_string(doc, key) {
        Some(s) => Some(s),
        None => match yaml_integer(doc, key) {
            None => None,
            Some(n) => {
                let mut out: Vec<char> = Vec::new();
                if n < 0 {
                    out.push('-');
                    let m: u64 = ((-(n + 1)) as u64) + 1;
                    assert(m as nat == (-n) as nat);
                    crate::sanitization::push_decimal(&mut out, m);
                } else {
                    crate::sanitization::push_decimal(&mut out, n as u64);
                }
                Some(string_of(&out))
            },
        },
    }
}

/// Relies on `yaml_rust::YamlLoader::load_from_str`, indexing the first
/// document by `key` then by 0, and `Yaml::as_str`: the first string of the
/// list stored under the key.
#[verifier::external_body]
fn yaml_first_string(doc: &str, key: &str) -> (r: Option<String>)
    ensures
        opt_view(r) == yaml_first_field(doc@, key@),
{
    match yaml_rust::YamlLoader::load_from_str(doc) {
        Ok(docs) => match docs.first() {
            Some(y) => y[key][0].as_str().map(String::from),
            None => None,
        },
        Err(_) => None,
    }
}

/// Relies on `chrono::NaiveDate::parse_from_str` and the date's `year_ce`,
/// `month` and `day`: year, month (1 to 12) and day (1 to 31) of the date the
/// text gives in the format, if it gives one.
#[verifier::external_body]
pub(crate) fn parse_date(s: &str, fmt: &str) -> (r: Option<(u32, u32, u32)>)
    ensures
        r == date_of(s@, fmt@),
        r matches Some((y, m, d)) ==> 1 <= m <= 12 && 1 <= d <= 31,
{
    match chrono::NaiveDate::parse_from_str(s, fmt) {
        Ok(d) => Some((d.year_ce().1, d.month(), d.day())),
        Err(_) => None,
    }
}

/// The calendar date of a date and time parsed by `chrono` from a text with a format.
pub uninterp spec fn datetime_date_of(s: Seq<char>, fmt: Seq<char>) -> Option<(u32, u32, u32)>;

/// Relies on `chrono::NaiveDateTime::parse_from_str` and the `year_ce`,
/// `month` and `day` of its date: the date of the moment the text gives in
/// the format, if it gives one.
#[verifier::external_body]
pub(crate) fn parse_datetime_date(s: &str, fmt: &str) -> (r: Option<(u32, u32, u32)>)
    ensures
        r == datetime_date_of(s@, fmt@),
        r matches Some((y, m, d)) ==> 1 <= m <= 12 && 1 <= d <= 31,
{
    match chrono::NaiveDateTime::parse_from_str(s, fmt) {
        Ok(t) => Some((t.date().year_ce().1, t.date().month(), t.date().day())),
        Err(_) => None,
    }
}

/// `s` without trailing white space.
pub open spec fn trimmed_end(s: Seq<char>) -> Seq<char> {
    s.subrange(0, crate::chars::trail_ws(s, 0, s.len() as int))
}

/// The date of the first commit of a file, from the output of
/// `git log -1 --format=%ai --reverse`: the line without trailing white space
/// and without its last six characters (the zone offset), read as
/// `%Y-%m-%d %H:%M:%S`.
pub open spec fn git_date(output: Seq<char>) -> Option<(u32, u32, u32)> {
    let t = trimmed_end(output);
    if t.len() < 6 {
        None
    } else {
        datetime_date_of(t.subrange(0, t.len() - 6), "%Y-%m-%d %H:%M:%S"@)
    }
}

/// The creation date that version control gives for a file.
pub fn git_creation_date(output: &str) -> (r: Option<(u32, u32, u32)>)
    ensures
        r == git_date(output@),
{
    let s = chars_of(output);
    let mut e: usize = s.len();
    while e > 0 && crate::chars::is_whitespace(s[e - 1])
        invariant
            e <= s.len(),
            crate::chars::trail_ws(s@, 0, e as int) == crate::chars::trail_ws(s@, 0, s@.len() as int),
        decreases e,
    {
        e = e - 1;
    }
    assert(crate::chars::trail_ws(s@, 0, e as int) == e);
    assert(trimmed_end(output@) == s@.subrange(0, e as int));
    if e < 6 {
        return None;
    }
    let t = string_of(&slice(&s, 0, e - 6));
    assert(t@ =~= trimmed_end(output@).subrange(0, e - 6));
    parse_datetime_date(t.as_str(), "%Y-%m-%d %H:%M:%S")
}

/// The values a note's front matter gives.
#[derive(Debug, PartialEq, Eq)]
pub struct Frontmatter {
    pub title: Option<String>,
    pub author: Option<String>,
    pub year: Option<String>,
    pub date_created: Option<String>,
}

/// Reads the values of the front matter text `fm`. Text that is no YAML gives
/// no values.
pub fn parse_frontmatter(fm: &str) -> (r: Frontmatter)
    ensures
        opt_view(r.title) == yaml_field(fm@, "title"@),
        opt_view(r.author) == yaml_first_field(fm@, "authors"@),
        opt_view(r.year) == scalar_field(fm@, "year"@),
        opt_view(r.date_created) == yaml_field(fm@, "date_created"@),
{
    Frontmatter {
        title: yaml_string(fm, "title"),
        author: yaml_first_string(fm, "authors"),
        year: yaml_scalar(fm, "year"),
        date_created: yaml_string(fm, "date_created"),
    }
}

/// Each line followed by a line break.
pub open spec fn joined_lines(ls: Seq<Seq<char>>) -> Seq<char>
    decreases ls.len(),
{
    if ls.len() == 0 {
        Seq::empty()
    } else {
        joined_lines(ls.drop_last()) + ls.last() + seq!['\n']
    }
}

/// Index of the first line from `i` on that is `---`.
pub open spec fn fence_from(ls: Seq<Seq<char>>, i: int) -> Option<int>
    decreases ls.len() - i,
{
    if i < 0 || i >= ls.len() {
        None
    } else if ls[i] == "---"@ {
        Some(i)
    } else {
        fence_from(ls, i + 1)
    }
}

/// The front matter of a note: the lines between a first line `---` and the
/// next line `---`.
pub open spec fn frontmatter_block(content: Seq<char>) -> Option<Seq<char>> {
    let ls = lines_of(content);
    if ls.len() == 0 || ls[0] != "---"@ {
        None
    } else {
        match fence_from(ls, 1) {
            Some(k) => if 1 <= k { Some(joined_lines(ls.subrange(1, k))) } else { None },
            None => None,
        }
    }
}

/// The number of front matter lines, if there is front matter.
pub open spec fn frontmatter_lines(content: Seq<char>) -> Option<int> {
    let ls = lines_of(content);
    if ls.len() == 0 || ls[0] != "---"@ {
        None
    } else {
        match fence_from(ls, 1) {
            Some(k) => Some(k - 1),
            None => None,
        }
    }
}

/// The front matter text of a note, and how many lines it has.
pub fn frontmatter_of(content: &str) -> (r: Option<(String, usize)>)
    ensures
        match r {
            Some((fm, n)) => frontmatter_block(content@) == Some(fm@) && frontmatter_lines(content@)
                == Some(n as int) && n <= usize::MAX - 2,
            None => frontmatter_block(content@) is None && frontmatter_lines(content@) is None,
        },
{
    let s = chars_of(content);
    let ls = lines(&s);
    let fence = chars_of("---");
    if ls.len() == 0 || !crate::text::same(&ls[0], &fence) {
        return None;
    }
    let mut out: Vec<char> = Vec::new();
    let mut i: usize = 1;
    while i < ls.len()
        invariant
            1 <= i <= ls.len(),
            fence@ == "---"@,
            lines_of(s@).len() > 0,
            lines_of(s@)[0] == "---"@,
            ls@.len() == lines_of(s@).len(),
            s@ == content@,
            forall|j: int| 0 <= j < ls@.len() ==> (#[trigger] ls@[j])@ == lines_of(s@)[j],
            fence_from(lines_of(s@), i as int) == fence_from(lines_of(s@), 1),
            out@ == joined_lines(lines_of(s@).subrange(1, i as int)),
        decreases ls.len() - i,
    {
        if crate::text::same(&ls[i], &fence) {
            assert(fence_from(lines_of(s@), i as int) == Some(i as int));
            return Some((string_of(&out), i - 1));
        }
        let ghost pre = lines_of(s@).subrange(1, i + 1);
        assert(pre.drop_last() =~= lines_of(s@).subrange(1, i as int));
        push_all(&mut out, &ls[i]);
        out.push('\n');
        i = i + 1;
    }
    None
}

/// Extract the front matter text of a note, without its fences.
pub fn extract_yaml_frontmatter(content: &str) -> (r: Option<String>)
    ensures
        opt_view(r) == frontmatter_block(content@),
{
    match frontmatter_of(content) {
        Some((fm, _)) => Some(fm),
        None => None,
    }
}

/// Where the line after the first `n` lines starts: each line with its line
/// break, never beyond the end of the text.
pub open spec fn lines_offset(ls: Seq<Seq<char>>, n: int) -> int
    decreases n,
{
    if n <= 0 || n > ls.len() {
        0
    } else {
        lines_offset(ls, n - 1) + ls[n - 1].len() + 1
    }
}

/// `input` without its first `n` lines; empty when it has fewer.
pub open spec fn without_lines(input: Seq<char>, n: int) -> Seq<char> {
    let ls = lines_of(input);
    let off = lines_offset(ls, n);
    if ls.len() < n || off >= input.len() {
        Seq::empty()
    } else {
        input.subrange(off, input.len() as int)
    }
}

/// Remove the first `n` lines of a text.
pub fn remove_first_n_lines(input: &str, n: usize) -> (r: String)
    ensures
        r@ == without_lines(input@, n as int),
{
    let s = chars_of(input);
    let ls = lines(&s);
    if ls.len() < n {
        return String::new();
    }
    let mut off: usize = 0;
    let mut i: usize = 0;
    while i < n
        invariant
            i <= n <= ls.len(),
            ls@.len() == lines_of(s@).len(),
            forall|j: int| 0 <= j < ls@.len() ==> (#[trigger] ls@[j])@ == lines_of(s@)[j],
            off == lines_offset(lines_of(s@), i as int),
            off <= s.len(),
            s@ == input@,
        decreases n - i,
    {
        if ls[i].len() >= s.len() - off {
            // the remaining lines cannot fit: nothing is left
            proof {
                assert(ls@[i as int]@ == lines_of(s@)[i as int]);
                assert(lines_offset(lines_of(s@), i + 1) == off + lines_of(s@)[i as int].len() + 1);
                lemma_offset_grows(lines_of(s@), i + 1, n as int);
            }
            return String::new();
        }
        off = off + ls[i].len() + 1;
        i = i + 1;
    }
    if off >= s.len() {
        return String::new();
    }
    string_of(&slice(&s, off, s.len()))
}

proof fn lemma_offset_grows(ls: Seq<Seq<char>>, a: int, b: int)
    requires
        1 <= a <= b <= ls.len(),
    ensures
        lines_offset(ls, a) <= lines_offset(ls, b),
    decreases b - a,
{
    if a < b {
        lemma_offset_grows(ls, a, b - 1);
    }
}

} // verus!
