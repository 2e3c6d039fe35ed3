//! Properties that relate several operations of the library, proved once
//! for all inputs.
use vstd::prelude::*;
use crate::literal::{intern_step, texts_distinct};
use crate::parser::{UserAgentParser, first_accepting, is_catch_all};
use crate::rule::{Rule, opt_seq, opt_text, star_free};
use crate::text::{collapse_stars, lower_char, lower_seq, matches_at};

verus! {

proof fn lemma_some_accepts(rules: Seq<Rule>, text: Seq<char>, from: int, j: int)
    requires
        0 <= from <= j < rules.len(),
        rules[j].accepts(text),
    ensures
        first_accepting(rules, text, from) matches Some(i) && from <= i <= j,
    decreases j - from,
{
    if !rules[from].accepts(text) {
        lemma_some_accepts(rules, text, from + 1, j);
    }
}

proof fn lemma_first_props(rules: Seq<Rule>, text: Seq<char>, from: int)
    requires
        0 <= from,
        first_accepting(rules, text, from) is Some,
    ensures
        from <= first_accepting(rules, text, from)->0 < rules.len(),
        rules[first_accepting(rules, text, from)->0].accepts(text),
        forall|j: int| from <= j < first_accepting(rules, text, from)->0 ==> !(#[trigger] rules[j]).accepts(text),
    decreases rules.len() - from,
{
    if from < rules.len() && !rules[from].accepts(text) {
        lemma_first_props(rules, text, from + 1);
    }
}

/// The catch-all rule accepts every text.
pub proof fn lemma_catch_all_accepts(r: Rule, text: Seq<char>)
    requires
        is_catch_all(r),
    ensures
        r.accepts(text),
{
    assert(r.interior_texts() == Some(Seq::<Seq<char>>::empty())) by {
        assert(r.interior()->0.map_values(|l: crate::literal::Literal| l@) =~= Seq::<Seq<char>>::empty());
    }
}

/// Every non-empty input is accepted by some rule, so `parse` gives the
/// record of a rule (a catalogue rule's, or the catch-all's) and never the
/// all-unknown default.
pub proof fn lemma_nonempty_input_has_rule(p: UserAgentParser, user_agent: Seq<char>)
    requires
        p.wf(),
        user_agent.len() > 0,
    ensures
        first_accepting(p.rules(), lower_seq(user_agent), 0) matches Some(i) && 0 <= i < p.rules().len()
            && p.result_for(user_agent) == p.record(p.rules()[i].capabilities() as int),
{
    p.lemma_rules();
    let rules = p.rules();
    let last = rules.len() - 1;
    lemma_catch_all_accepts(rules[last], lower_seq(user_agent));
    lemma_some_accepts(rules, lower_seq(user_agent), 0, last);
}

/// The rule whose record `parse` gives accepts the lower-cased input, and no
/// rule before it in the global order does.
pub proof fn lemma_result_is_first_match(p: UserAgentParser, user_agent: Seq<char>)
    requires
        p.wf(),
        user_agent.len() > 0,
    ensures
        first_accepting(p.rules(), lower_seq(user_agent), 0) matches Some(i) && {
            &&& p.rules()[i].accepts(lower_seq(user_agent))
            &&& forall|j: int| 0 <= j < i ==> !(#[trigger] p.rules()[j]).accepts(lower_seq(user_agent))
            &&& p.result_for(user_agent) == p.record(p.rules()[i].capabilities() as int)
        },
{
    lemma_nonempty_input_has_rule(p, user_agent);
    lemma_first_props(p.rules(), lower_seq(user_agent), 0);
}

/// Lower-casing twice is lower-casing once.
pub proof fn lemma_lower_idempotent(s: Seq<char>)
    ensures
        lower_seq(lower_seq(s)) == lower_seq(s),
{
    assert forall|i: int| 0 <= i < s.len() implies #[trigger] lower_char(lower_char(s[i])) == lower_char(s[i]) by {}
    assert(lower_seq(lower_seq(s)) =~= lower_seq(s));
}

/// Parsing does not depend on the case of ASCII letters: an input and its
/// lower-cased form give the same record.
pub proof fn lemma_parse_case_insensitive(p: UserAgentParser, user_agent: Seq<char>)
    ensures
        p.result_for(user_agent) == p.result_for(lower_seq(user_agent)),
{
    lemma_lower_idempotent(user_agent);
}

/// Interning the same value twice hands out the same id and leaves the table
/// as it was; interning a different value hands out a different id. This
/// holds of the literal interner and of the capability interner alike.
pub proof fn lemma_intern_same_id<T>(a: Seq<T>, s: T, b: Seq<T>, i: int, t: T, c: Seq<T>, j: int)
    requires
        intern_step(a, s, b, i),
        intern_step(b, t, c, j),
        texts_distinct(b),
    ensures
        s == t ==> i == j && c == b,
        s != t ==> i != j,
{
    if s == t {
        assert(b.contains(s)) by {
            assert(b[i] == s);
        }
        if i != j {
            assert(b[i] == b[j]);
        }
    } else {
        if b.contains(t) {
            assert(c[i] == b[i]);
        } else {
            assert(c[i] == b[i]);
        }
    }
}

/// The decomposition of a pattern can be read back: the pattern text of the
/// rule is the pattern; the text by which rules are ordered is the pattern
/// too, unless the pattern has exactly one `*`, which that text leaves out.
pub proof fn lemma_pattern_round_trip(r: Rule, pattern: Seq<char>)
    requires
        r.well_formed(),
        r.pattern_text() == pattern,
        (forall|i: int| 0 <= i < pattern.len() ==> #[trigger] pattern[i] != '*') || exists|i: int, j: int|
            0 <= i < j < pattern.len() && #[trigger] pattern[i] == '*' && #[trigger] pattern[j] == '*',
    ensures
        r.sort_key() == pattern,
{
    if r.interior() is Some {
        let ls = r.interior()->0;
        if ls.len() == 0 {
            let a = opt_seq(opt_text(r.prefix()));
            let b = opt_seq(opt_text(r.postfix()));
            assert(r.interior_texts()->0 =~= Seq::<Seq<char>>::empty());
            assert(pattern =~= a + seq!['*'] + b);
            assert(star_free(a)) by {
                if r.prefix() is Some {
                }
            }
            assert(star_free(b)) by {
                if r.postfix() is Some {
                }
            }
            assert(pattern[a.len() as int] == '*');
            if exists|i: int, j: int| 0 <= i < j < pattern.len() && #[trigger] pattern[i] == '*' && #[trigger] pattern[j] == '*' {
                let (i, j) = choose|i: int, j: int| 0 <= i < j < pattern.len() && #[trigger] pattern[i] == '*' && #[trigger] pattern[j] == '*';
                if i < a.len() {
                    assert(pattern[i] == a[i]);
                } else if i > a.len() {
                    assert(pattern[i] == b[i - a.len() - 1]);
                } else {
                    assert(pattern[j] == b[j - a.len() - 1]);
                }
            }
        }
    }
}

/// A pattern with no `*` and no `?` accepts exactly the text equal to it.
pub proof fn lemma_plain_pattern_exact(r: Rule, pattern: Seq<char>, text: Seq<char>)
    requires
        r.well_formed(),
        r.pattern_text() == pattern,
        forall|i: int| 0 <= i < pattern.len() ==> #[trigger] pattern[i] != '*' && pattern[i] != '?',
    ensures
        r.accepts(text) <==> text == pattern,
{
    if r.interior() is Some {
        let a = opt_seq(opt_text(r.prefix()));
        assert(pattern[a.len() as int] == '*');
    } else {
        let p = r.prefix()->0;
        assert(pattern =~= p@);
        if r.accepts(text) {
            assert forall|k: int| 0 <= k < text.len() implies text[k] == pattern[k] by {
                assert(p@[k] == '?' || p@[k] == text[0 + k]);
            }
            assert(text =~= pattern);
        }
        if text == pattern {
            assert forall|k: int| 0 <= k < p@.len() implies (#[trigger] p@[k] == '?' || p@[k] == text[0 + k]) by {}
        }
    }
}

/// A `?` stands for exactly one character, whatever it is: a literal with a
/// `?` between `x` and `y` matches where `x` matches, one more character
/// follows, and then `y` matches.
pub proof fn lemma_question_mark_one_char(x: Seq<char>, y: Seq<char>, text: Seq<char>, from: int)
    ensures
        matches_at(x + seq!['?'] + y, text, from) <==> {
            &&& from + x.len() + 1 + y.len() <= text.len()
            &&& matches_at(x, text, from)
            &&& matches_at(y, text, from + x.len() + 1)
        },
{
    let lit = x + seq!['?'] + y;
    if matches_at(lit, text, from) {
        assert forall|k: int| 0 <= k < x.len() implies (#[trigger] x[k] == '?' || x[k] == text[from + k]) by {
            assert(lit[k] == x[k]);
        }
        assert forall|k: int| 0 <= k < y.len() implies (#[trigger] y[k] == '?' || y[k] == text[from + x.len() + 1 + k]) by {
            assert(lit[x.len() + 1 + k] == y[k]);
        }
    }
    if from + x.len() + 1 + y.len() <= text.len() && matches_at(x, text, from) && matches_at(y, text, from + x.len() + 1) {
        assert forall|k: int| 0 <= k < lit.len() implies (#[trigger] lit[k] == '?' || lit[k] == text[from + k]) by {
            if k < x.len() {
                assert(lit[k] == x[k]);
            } else if k > x.len() {
                assert(lit[k] == y[k - x.len() - 1]);
                assert(y[k - x.len() - 1] == '?' || y[k - x.len() - 1] == text[from + x.len() + 1 + (k - x.len() - 1)]);
            }
        }
    }
}

proof fn lemma_collapse_star_pair(x: Seq<char>, y: Seq<char>)
    ensures
        collapse_stars(x + seq!['*', '*'] + y) == collapse_stars(x + seq!['*'] + y),
    decreases x.len(),
{
    let s2 = x + seq!['*', '*'] + y;
    let s1 = x + seq!['*'] + y;
    if x.len() == 0 {
        assert(s2.drop_first() =~= s1);
    } else {
        lemma_collapse_star_pair(x.drop_first(), y);
        assert(s2.drop_first() =~= x.drop_first() + seq!['*', '*'] + y);
        assert(s1.drop_first() =~= x.drop_first() + seq!['*'] + y);
        assert(s2[0] == s1[0]);
        assert(s2[1] == s1[1]);
    }
}

/// Two `*` side by side in a catalogue pattern mean the same as one.
pub proof fn lemma_double_star_collapses(x: Seq<char>, y: Seq<char>)
    ensures
        collapse_stars(lower_seq(x + seq!['*', '*'] + y)) == collapse_stars(lower_seq(x + seq!['*'] + y)),
{
    assert(lower_seq(x + seq!['*', '*'] + y) =~= lower_seq(x) + seq!['*', '*'] + lower_seq(y));
    assert(lower_seq(x + seq!['*'] + y) =~= lower_seq(x) + seq!['*'] + lower_seq(y));
    lemma_collapse_star_pair(lower_seq(x), lower_seq(y));
}

} // verus!
