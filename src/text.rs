//! Character-sequence helpers shared by the matching engine.
use vstd::prelude::*;

verus! {

/// ASCII lower-casing of one character; everything else is left alone.
pub open spec fn lower_char(c: char) -> char {
    if 'A' <= c && c <= 'Z' {
        ((c as u32) + 32) as char
    } else {
        c
    }
}

/// ASCII lower-casing of a whole text.
pub open spec fn lower_seq(s: Seq<char>) -> Seq<char> {
    s.map_values(|c: char| lower_char(c))
}

/// Whether the glob literal `lit` (where `?` stands for any one character)
/// matches `text` starting at offset `from`.
pub open spec fn matches_at(lit: Seq<char>, text: Seq<char>, from: int) -> bool {
    &&& 0 <= from
    &&& from + lit.len() <= text.len()
    &&& forall|k: int| 0 <= k < lit.len() ==> (#[trigger] lit[k] == '?' || lit[k] == text[from + k])
}

/// Whether `needle` occurs in `hay` as a plain substring.
pub open spec fn contains_seq(hay: Seq<char>, needle: Seq<char>) -> bool {
    exists|i: int| 0 <= i && i + needle.len() <= hay.len() && #[trigger] hay.subrange(i, i + needle.len()) == needle
}

/// Whether `s` begins with `p`, character for character.
pub open spec fn starts_with_seq(s: Seq<char>, p: Seq<char>) -> bool {
    p.len() <= s.len() && s.subrange(0, p.len() as int) == p
}

pub fn lower_char_exec(c: char) -> (r: char)
    ensures
        r == lower_char(c),
{
    if 'A' <= c && c <= 'Z' {
        let b: u8 = (c as u32 + 32) as u8;
        b as char
    } else {
        c
    }
}

/// The characters of `s`, in order.
pub fn chars_of(s: &str) -> (r: Vec<char>)
    ensures
        r@ == s@,
{
    let mut out: Vec<char> = Vec::new();
    for c in it: s.chars()
        invariant
            it.seq() == s@,
            out@ == s@.take(it.index() as int),
    {
        out.push(c);
    }
    out
}

} // verus!

verus! {

/// Every run of `*` in `s` cut down to a single `*`.
pub open spec fn collapse_stars(s: Seq<char>) -> Seq<char>
    decreases s.len(),
{
    if s.len() == 0 {
        s
    } else if s.len() >= 2 && s[0] == '*' && s[1] == '*' {
        collapse_stars(s.drop_first())
    } else {
        seq![s[0]] + collapse_stars(s.drop_first())
    }
}

/// No two `*` stand side by side in `s`.
pub open spec fn no_double_star(s: Seq<char>) -> bool {
    forall|i: int| 0 <= i < s.len() - 1 ==> !(#[trigger] s[i] == '*' && s[i + 1] == '*')
}

pub proof fn lemma_collapse_first(s: Seq<char>)
    requires
        s.len() > 0,
    ensures
        collapse_stars(s).len() > 0,
        collapse_stars(s)[0] == s[0],
    decreases s.len(),
{
    if s.len() >= 2 && s[0] == '*' && s[1] == '*' {
        lemma_collapse_first(s.drop_first());
    }
}

pub proof fn lemma_collapse_no_double(s: Seq<char>)
    ensures
        no_double_star(collapse_stars(s)),
    decreases s.len(),
{
    if s.len() == 0 {
    } else if s.len() >= 2 && s[0] == '*' && s[1] == '*' {
        lemma_collapse_no_double(s.drop_first());
    } else {
        let rest = s.drop_first();
        lemma_collapse_no_double(rest);
        let r = collapse_stars(s);
        assert(r == seq![s[0]] + collapse_stars(rest));
        assert forall|i: int| 0 <= i < r.len() - 1 implies !(#[trigger] r[i] == '*' && r[i + 1] == '*') by {
            if i == 0 {
                lemma_collapse_first(rest);
                assert(r[1] == rest[0]);
            } else {
                assert(r[i] == collapse_stars(rest)[i - 1]);
                assert(r[i + 1] == collapse_stars(rest)[i]);
            }
        }
    }
}

/// Relies on `regex::Regex::replace_all` with the expression `\*+` and the
/// replacement `*`: each maximal run of `*` becomes one `*`, the rest of the
/// text is copied.
#[verifier::external_body]
pub(crate) fn collapse_star_runs(s: &str) -> (r: String)
    ensures
        r@ == collapse_stars(s@),
{
    let re = regex::Regex::new(r"\*+").unwrap();
    re.replace_all(s, "*").to_string()
}

/// Relies on `FromIterator<char>` for `String`: the characters, in order.
#[verifier::external_body]
pub(crate) fn string_of(cs: &Vec<char>) -> (r: String)
    ensures
        r@ == cs@,
{
    cs.iter().collect()
}

/// ASCII lower-casing of a text.
pub fn ascii_lowercase(s: &str) -> (r: String)
    ensures
        r@ == lower_seq(s@),
{
    let cs = chars_of(s);
    let mut out: Vec<char> = Vec::new();
    let mut i: usize = 0;
    while i < cs.len()
        invariant
            i <= cs@.len(),
            cs@ == s@,
            out@ == lower_seq(cs@.take(i as int)),
        decreases cs@.len() - i,
    {
        out.push(lower_char_exec(cs[i]));
        i = i + 1;
        proof {
            assert(out@ =~= lower_seq(cs@.take(i as int)));
        }
    }
    proof {
        assert(cs@.take(i as int) =~= cs@);
    }
    string_of(&out)
}

/// A catalogue pattern in normal form: lower-cased, runs of `*` collapsed.
pub fn normalize_pattern(pattern: &str) -> (r: String)
    ensures
        r@ == collapse_stars(lower_seq(pattern@)),
        no_double_star(r@),
{
    let lower = ascii_lowercase(pattern);
    proof {
        lemma_collapse_no_double(lower@);
    }
    collapse_star_runs(lower.as_str())
}

/// Unicode white space (the `White_Space` property): the ASCII tab, line
/// feed, vertical tab, form feed, carriage return and space, next line,
/// no-break space, Ogham space mark, the spaces from en quad to hair space,
/// the line and paragraph separators, narrow no-break space, medium
/// mathematical space and ideographic space.
pub open spec fn is_white_space(c: char) -> bool {
    ('\u{9}' <= c && c <= '\u{d}') || c == ' ' || c == '\u{85}' || c == '\u{a0}' || c == '\u{1680}' || (
    '\u{2000}' <= c && c <= '\u{200a}') || c == '\u{2028}' || c == '\u{2029}' || c == '\u{202f}' || c
        == '\u{205f}' || c == '\u{3000}'
}

/// `s` without its leading white space.
pub open spec fn trim_front(s: Seq<char>) -> Seq<char>
    decreases s.len(),
{
    if s.len() > 0 && is_white_space(s[0]) {
        trim_front(s.drop_first())
    } else {
        s
    }
}

/// `s` without its trailing white space.
pub open spec fn trim_back(s: Seq<char>) -> Seq<char>
    decreases s.len(),
{
    if s.len() > 0 && is_white_space(s.last()) {
        trim_back(s.drop_last())
    } else {
        s
    }
}

/// A text without the white space at its two ends.
pub open spec fn trimmed(s: Seq<char>) -> Seq<char> {
    trim_back(trim_front(s))
}

/// Relies on `str::trim`: the text with its leading and trailing white
/// space removed, white space being the Unicode `White_Space` property.
#[verifier::external_body]
pub(crate) fn trim_text(s: &str) -> (r: &str)
    ensures
        r@ == trimmed(s@),
{
    s.trim()
}

} // verus!
