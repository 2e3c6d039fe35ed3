//! Rules: a pattern taken apart into anchored and floating literals, and the
//! procedure that tries it on an input.
use vstd::prelude::*;
use crate::error::ParseError;
use crate::literal::{Literal, LiteralPool, intern_step};
use crate::searchable::{SearchableString, all_positions, ends_at_end, grows_within};
use crate::text::{chars_of, contains_seq, matches_at, no_double_star, string_of};

verus! {

/// The least offset, from `from` on, at which `lit` matches `text`.
pub open spec fn first_match_from(lit: Seq<char>, text: Seq<char>, from: int) -> Option<int>
    decreases text.len() - from,
{
    if from < 0 || from >= text.len() {
        None
    } else if matches_at(lit, text, from) {
        Some(from)
    } else {
        first_match_from(lit, text, from + 1)
    }
}

/// The floating literals are found in order, each at its earliest place after
/// the one before, and all of them end by `end`.
pub open spec fn interior_accepts(lits: Seq<Seq<char>>, text: Seq<char>, from: int, end: int) -> bool
    decreases lits.len(),
{
    if lits.len() == 0 {
        true
    } else {
        match first_match_from(lits[0], text, from) {
            None => false,
            Some(p) => p + lits[0].len() <= end && interior_accepts(lits.drop_first(), text, p + lits[0].len(), end),
        }
    }
}

/// Whether a decomposed pattern accepts `text`.
pub open spec fn glob_accepts(
    prefix: Option<Seq<char>>,
    interior: Option<Seq<Seq<char>>>,
    postfix: Option<Seq<char>>,
    text: Seq<char>,
) -> bool {
    let start: int = match prefix {
        Some(p) => p.len() as int,
        None => 0,
    };
    let end: int = match postfix {
        Some(q) => text.len() - q.len(),
        None => text.len() as int,
    };
    &&& (prefix matches Some(p) ==> matches_at(p, text, 0))
    &&& (postfix matches Some(q) ==> ends_at_end(q, text))
    &&& match interior {
        None => start == end,
        Some(ls) => if ls.len() == 0 {
            start <= end
        } else {
            interior_accepts(ls, text, start, end)
        },
    }
}

proof fn lemma_first_match(v: Seq<usize>, lit: Seq<char>, text: Seq<char>, from: int, k: int)
    requires
        all_positions(v, lit, text),
        lit.len() > 0,
        0 <= from,
        0 <= k <= v.len(),
        forall|j: int| 0 <= j < k ==> #[trigger] v[j] < from,
        k < v.len() ==> v[k] >= from,
    ensures
        first_match_from(lit, text, from) == if k < v.len() {
            Some(v[k] as int)
        } else {
            None::<int>
        },
    decreases text.len() - from,
{
    if from >= text.len() {
        if k < v.len() {
            assert(v[k] < text.len());
        }
    } else if matches_at(lit, text, from) {
        let j = choose|j: int| 0 <= j < v.len() && v[j] == from;
        if k < v.len() {
            if j > k {
                assert(v[k] < v[j]);
            }
        }
    } else {
        if k < v.len() {
            assert(matches_at(lit, text, v[k] as int));
        }
        lemma_first_match(v, lit, text, from + 1, k);
    }
}

pub open spec fn opt_seq(l: Option<Seq<char>>) -> Seq<char> {
    match l {
        Some(x) => x,
        None => Seq::empty(),
    }
}

/// Each floating literal followed by a `*`.
pub open spec fn join_interior(ls: Seq<Seq<char>>) -> Seq<char>
    decreases ls.len(),
{
    if ls.len() == 0 {
        Seq::empty()
    } else {
        join_interior(ls.drop_last()) + ls.last() + seq!['*']
    }
}

/// The pattern that a decomposition stands for.
pub open spec fn glob_text(prefix: Option<Seq<char>>, interior: Option<Seq<Seq<char>>>, postfix: Option<Seq<char>>) -> Seq<char> {
    match interior {
        None => opt_seq(prefix) + opt_seq(postfix),
        Some(ls) => opt_seq(prefix) + seq!['*'] + join_interior(ls) + opt_seq(postfix),
    }
}

/// The text by which rules of one length are ordered: the pattern, save that
/// a decomposition with no floating literal drops its `*`.
pub open spec fn sort_text(prefix: Option<Seq<char>>, interior: Option<Seq<Seq<char>>>, postfix: Option<Seq<char>>) -> Seq<char> {
    match interior {
        Some(ls) => if ls.len() > 0 {
            glob_text(prefix, interior, postfix)
        } else {
            opt_seq(prefix) + opt_seq(postfix)
        },
        None => opt_seq(prefix) + opt_seq(postfix),
    }
}

/// The pieces joined back with a `*` between each two.
pub open spec fn join_with_stars(segs: Seq<Seq<char>>) -> Seq<char>
    decreases segs.len(),
{
    if segs.len() == 0 {
        Seq::empty()
    } else if segs.len() == 1 {
        segs[0]
    } else {
        join_with_stars(segs.drop_last()) + seq!['*'] + segs.last()
    }
}

pub open spec fn star_free(s: Seq<char>) -> bool {
    forall|i: int| 0 <= i < s.len() ==> #[trigger] s[i] != '*'
}

proof fn lemma_join_split(segs: Seq<Seq<char>>)
    requires
        segs.len() >= 2,
    ensures
        join_with_stars(segs) == segs[0] + seq!['*'] + join_interior(segs.subrange(1, segs.len() - 1)) + segs.last(),
    decreases segs.len(),
{
    if segs.len() == 2 {
        assert(segs.drop_last().len() == 1);
        assert(join_with_stars(segs.drop_last()) == segs[0]);
        assert(join_interior(segs.subrange(1, 1)) == Seq::<char>::empty());
        assert(segs[0] + seq!['*'] + Seq::<char>::empty() + segs.last() =~= segs[0] + seq!['*'] + segs.last());
    } else {
        let d = segs.drop_last();
        lemma_join_split(d);
        let mid = segs.subrange(1, segs.len() - 1);
        assert(mid.drop_last() =~= d.subrange(1, d.len() - 1));
        assert(mid.last() == d.last());
        assert(join_with_stars(segs) =~= segs[0] + seq!['*'] + join_interior(mid) + segs.last());
    }
}

/// Splits `p` at every `*`: the pieces are free of `*`, and joined back with
/// a `*` between each two they give `p`. In a text with no two `*` side by
/// side, every piece but the first and the last is non-empty.
fn split_on_stars(p: &Vec<char>) -> (r: Vec<Vec<char>>)
    ensures
        r@.len() >= 1,
        join_with_stars(r@.map_values(|v: Vec<char>| v@)) == p@,
        forall|k: int| 0 <= k < r@.len() ==> star_free(#[trigger] r@[k]@),
        no_double_star(p@) ==> forall|k: int| 0 < k < r@.len() - 1 ==> (#[trigger] r@[k]@).len() > 0,
{
    let mut segs: Vec<Vec<char>> = Vec::new();
    let mut cur: Vec<char> = Vec::new();
    let mut i: usize = 0;
    while i < p.len()
        invariant
            i <= p@.len(),
            join_with_stars(segs@.map_values(|v: Vec<char>| v@).push(cur@)) == p@.take(i as int),
            forall|k: int| 0 <= k < segs@.len() ==> star_free(#[trigger] segs@[k]@),
            star_free(cur@),
            no_double_star(p@) ==> forall|k: int| 0 < k < segs@.len() ==> (#[trigger] segs@[k]@).len() > 0,
            segs@.len() > 0 && cur@.len() == 0 ==> i > 0 && p@[i - 1] == '*',
        decreases p@.len() - i,
    {
        let c = p[i];
        let ghost before = segs@.map_values(|v: Vec<char>| v@);
        if c == '*' {
            let ghost old_cur = cur@;
            let done = cur;
            segs.push(done);
            cur = Vec::new();
            proof {
                let now = segs@.map_values(|v: Vec<char>| v@).push(cur@);
                assert(segs@.map_values(|v: Vec<char>| v@) =~= before.push(old_cur));
                assert(now.drop_last() =~= before.push(old_cur));
                assert(now.len() >= 2);
                assert(join_with_stars(now) =~= join_with_stars(before.push(old_cur)) + seq!['*'] + Seq::<char>::empty());
                assert(p@.take(i + 1) =~= p@.take(i as int) + seq!['*']);
                if no_double_star(p@) && segs@.len() > 1 {
                    if old_cur.len() == 0 {
                        assert(p@[i - 1] == '*');
                    }
                }
            }
        } else {
            let ghost old_cur = cur@;
            cur.push(c);
            proof {
                let b2 = before.push(old_cur);
                let now = before.push(cur@);
                if before.len() == 0 {
                    assert(join_with_stars(now) == cur@);
                    assert(join_with_stars(b2) == old_cur);
                } else {
                    assert(now.drop_last() =~= before);
                    assert(b2.drop_last() =~= before);
                }
                assert(join_with_stars(now) =~= join_with_stars(b2) + seq![c]);
                assert(p@.take(i + 1) =~= p@.take(i as int) + seq![c]);
            }
        }
        i = i + 1;
    }
    let ghost before = segs@.map_values(|v: Vec<char>| v@);
    let ghost last = cur@;
    segs.push(cur);
    proof {
        assert(segs@.map_values(|v: Vec<char>| v@) =~= before.push(last));
        assert(p@.take(i as int) =~= p@);
    }
    segs
}

/// `after` is `before` with perhaps more texts at its end.
pub open spec fn pool_extends<T>(before: Seq<T>, after: Seq<T>) -> bool {
    before.len() <= after.len() && forall|i: int| 0 <= i < before.len() ==> #[trigger] after[i] == before[i]
}

/// An interning step only adds at the end, and the id names the value.
pub proof fn lemma_intern_extends<T>(before: Seq<T>, s: T, after: Seq<T>, id: int)
    requires
        intern_step(before, s, after, id),
    ensures
        pool_extends(before, after),
        0 <= id < after.len(),
        after[id] == s,
{
}

/// Interns the text of `seg` and hands back its literal.
fn literal_of(pool: &mut LiteralPool, seg: &Vec<char>) -> (r: Literal)
    requires
        old(pool).wf(),
    ensures
        final(pool).wf(),
        r@ == seg@,
        pool_extends(old(pool)@, final(pool)@),
        r.index() < final(pool)@.len(),
        final(pool)@[r.index() as int] == seg@,
{
    let text = string_of(seg);
    let r = pool.get_literal(text.as_str());
    proof {
        lemma_intern_extends(old(pool)@, seg@, pool@, r.index() as int);
    }
    r
}

/// Takes a normalised pattern apart into a rule: the text before the first
/// `*` is anchored at the start, the text after the last `*` at the end, and
/// the pieces in between float. A pattern with no `*` is one literal that
/// must match the whole input.
pub fn create_rule(pool: &mut LiteralPool, pattern: &str, capabilities: usize) -> (r: Result<Rule, ParseError>)
    requires
        old(pool).wf(),
        no_double_star(pattern@),
    ensures
        final(pool).wf(),
        pool_extends(old(pool)@, final(pool)@),
        r matches Err(ParseError::EmptyPattern) <==> pattern@.len() == 0,
        r matches Err(ParseError::FixedPattern) <==> pattern@ == seq!['*'],
        r is Ok <==> (pattern@.len() > 0 && pattern@ != seq!['*']),
        r matches Ok(rule) ==> {
            &&& rule.pattern_text() == pattern@
            &&& rule.size() == pattern@.len()
            &&& rule.capabilities() == capabilities
            &&& rule.well_formed()
            &&& rule.drawn_from(final(pool)@)
        },
{
    let chars = chars_of(pattern);
    let n = chars.len();
    if n == 0 {
        return Err(ParseError::EmptyPattern);
    }
    if n == 1 && chars[0] == '*' {
        proof {
            assert(pattern@ =~= seq!['*']);
        }
        return Err(ParseError::FixedPattern);
    }
    proof {
        if pattern@ == seq!['*'] {
            assert(chars@[0] == '*');
        }
    }
    let parts = split_on_stars(&chars);
    let ghost segs = parts@.map_values(|v: Vec<char>| v@);
    if parts.len() == 1 {
        let lit = literal_of(pool, &parts[0]);
        let rule = Rule::new(Some(lit), None, None, n, capabilities);
        proof {
            assert(segs[0] == parts@[0]@);
            assert(rule.lits() =~= seq![lit]);
            assert(rule.pattern_text() =~= lit@);
        }
        return Ok(rule);
    }
    let ghost pool0 = pool@;
    let last = parts.len() - 1;
    let prefix = if parts[0].len() > 0 {
        Some(literal_of(pool, &parts[0]))
    } else {
        None
    };
    let ghost pool1 = pool@;
    let postfix = if parts[last].len() > 0 {
        Some(literal_of(pool, &parts[last]))
    } else {
        None
    };
    let ghost pool2 = pool@;
    let mut suffixes: Vec<Literal> = Vec::new();
    let mut k: usize = 1;
    while k < last
        invariant
            pool.wf(),
            1 <= k <= last,
            last == parts@.len() - 1,
            pool_extends(pool2, pool@),
            suffixes@.len() == k - 1,
            forall|j: int| 0 <= j < suffixes@.len() ==> {
                &&& (#[trigger] suffixes@[j])@ == parts@[j + 1]@
                &&& suffixes@[j].index() < pool@.len()
                &&& pool@[suffixes@[j].index() as int] == suffixes@[j]@
            },
        decreases last - k,
    {
        let ghost pb = pool@;
        let lit = literal_of(pool, &parts[k]);
        suffixes.push(lit);
        k = k + 1;
        proof {
            assert forall|j: int| 0 <= j < suffixes@.len() implies {
                &&& (#[trigger] suffixes@[j])@ == parts@[j + 1]@
                &&& suffixes@[j].index() < pool@.len()
                &&& pool@[suffixes@[j].index() as int] == suffixes@[j]@
            } by {
                if j < suffixes@.len() - 1 {
                    assert(pb[suffixes@[j].index() as int] == suffixes@[j]@);
                }
            }
        }
    }
    let rule = Rule::new(prefix, Some(suffixes), postfix, n, capabilities);
    proof {
        lemma_join_split(segs);
        let mid = segs.subrange(1, segs.len() - 1);
        let texts = rule.interior_texts()->0;
        assert(texts =~= mid);
        assert(opt_seq(opt_text(rule.prefix())) == segs[0]);
        assert(opt_seq(opt_text(rule.postfix())) == segs.last());
        assert(rule.pattern_text() =~= pattern@);
        let lits = rule.lits();
        assert forall|i: int| 0 <= i < lits.len() implies (#[trigger] lits[i]).index() < pool@.len()
            && pool@[lits[i].index() as int] == lits[i]@ by {
            if prefix is Some && i == 0 {
                assert(lits[i] == prefix->0);
                assert(pool1[lits[i].index() as int] == lits[i]@);
            } else if postfix is Some && i == lits.len() - 1 {
                assert(lits[i] == postfix->0);
                assert(pool2[lits[i].index() as int] == lits[i]@);
            } else {
                let off: int = if prefix is Some { 1 } else { 0 };
                assert(lits[i] == suffixes@[i - off]);
            }
        }
        assert forall|i: int| 0 <= i < suffixes@.len() implies (#[trigger] suffixes@[i])@.len() > 0 && star_free(suffixes@[i]@) by {
            assert(suffixes@[i]@ == parts@[i + 1]@);
        }
    }
    Ok(rule)
}

proof fn lemma_grows_refl(a: Map<nat, Seq<char>>, lits: Seq<Literal>)
    ensures
        grows_within(a, a, lits),
{
}

pub proof fn lemma_grows_trans(a: Map<nat, Seq<char>>, b: Map<nat, Seq<char>>, c: Map<nat, Seq<char>>, lits: Seq<Literal>)
    requires
        grows_within(a, b, lits),
        grows_within(b, c, lits),
    ensures
        grows_within(a, c, lits),
{
    assert forall|id: nat| #[trigger] c.contains_key(id) implies a.contains_key(id) || exists|i: int|
        0 <= i < lits.len() && (#[trigger] lits[i]).index() == id && lits[i]@ == c[id] by {
        if !a.contains_key(id) && b.contains_key(id) {
            assert(c[id] == b[id]);
        }
    }
}

/// The earliest offset, from `start` on, at which `suffix` matches the input.
#[verifier::loop_isolation(false)]
fn check_wild_card(value: &mut SearchableString, suffix: &Literal, start: usize) -> (r: Option<usize>)
    requires
        old(value).wf(),
        old(value).agrees(suffix),
        suffix.index() < old(value).capacity(),
        suffix@.len() > 0,
    ensures
        final(value).after_lookup(old(value), suffix),
        match r {
            Some(p) => first_match_from(suffix@, old(value).text(), start as int) == Some(p as int),
            None => first_match_from(suffix@, old(value).text(), start as int) is None,
        },
{
    let ghost text = value.text();
    let x = value.get_indices(suffix);
    let mut k: usize = 0;
    while k < x.len()
        invariant
            all_positions(x@, suffix@, text),
            suffix@.len() > 0,
            k <= x@.len(),
            forall|j: int| 0 <= j < k ==> #[trigger] x@[j] < start,
        decreases x@.len() - k,
    {
        if x[k] >= start {
            proof {
                lemma_first_match(x@, suffix@, text, start as int, k as int);
            }
            return Some(x[k]);
        }
        k = k + 1;
    }
    proof {
        lemma_first_match(x@, suffix@, text, start as int, k as int);
    }
    None
}

proof fn lemma_first_match_found(lit: Seq<char>, text: Seq<char>, from: int)
    requires
        first_match_from(lit, text, from) is Some,
    ensures
        0 <= first_match_from(lit, text, from)->0 < text.len(),
        matches_at(lit, text, first_match_from(lit, text, from)->0),
    decreases text.len() - from,
{
    if from < 0 || from >= text.len() {
    } else if matches_at(lit, text, from) {
    } else {
        lemma_first_match_found(lit, text, from + 1);
    }
}

proof fn lemma_interior_found(ls: Seq<Seq<char>>, text: Seq<char>, from: int, end: int, k: int)
    requires
        interior_accepts(ls, text, from, end),
        0 <= k < ls.len(),
    ensures
        exists|p: int| 0 <= p < text.len() && #[trigger] matches_at(ls[k], text, p),
    decreases ls.len(),
{
    let m = first_match_from(ls[0], text, from);
    lemma_first_match_found(ls[0], text, from);
    let p = m->0;
    if k == 0 {
        assert(matches_at(ls[k], text, p));
    } else {
        lemma_interior_found(ls.drop_first(), text, p + ls[0].len(), end, k - 1);
        assert(ls.drop_first()[k - 1] == ls[k]);
    }
}

/// When a rule accepts a text, each of its literals matches somewhere in it.
pub proof fn lemma_accepts_lits_match(rule: Rule, text: Seq<char>, i: int)
    requires
        rule.well_formed(),
        rule.accepts(text),
        0 <= i < rule.lits().len(),
    ensures
        exists|p: int| 0 <= p < text.len() && #[trigger] matches_at(rule.lits()[i]@, text, p),
{
    let lits = rule.lits();
    if rule.prefix() is Some && i == 0 {
        let p = rule.prefix()->0;
        assert(lits[i] == p);
        assert(matches_at(p@, text, 0));
    } else if rule.postfix() is Some && i == lits.len() - 1 {
        let q = rule.postfix()->0;
        assert(lits[i] == q);
        assert(matches_at(q@, text, text.len() - q@.len()));
    } else {
        let off: int = if rule.prefix() is Some { 1 } else { 0 };
        let ls = rule.interior()->0;
        let texts = rule.interior_texts()->0;
        assert(lits[i] == ls[i - off]);
        assert(texts[i - off] == ls[i - off]@);
        let start: int = match opt_text(rule.prefix()) {
            Some(p) => p.len() as int,
            None => 0,
        };
        let end: int = match opt_text(rule.postfix()) {
            Some(q) => text.len() - q.len(),
            None => text.len() as int,
        };
        lemma_interior_found(texts, text, start, end, i - off);
    }
}

/// A catalogue pattern taken apart: an anchored start, the literals that float
/// in between (absent when the pattern has no `*`), an anchored end, the
/// pattern's length, and the index of the capability record it leads to.
#[derive(Debug)]
pub struct Rule {
    my_prefix: Option<Literal>,
    my_suffixes: Option<Vec<Literal>>,
    my_postfix: Option<Literal>,
    pattern_len: usize,
    my_capabilities: usize,
}

pub open spec fn opt_text(l: Option<Literal>) -> Option<Seq<char>> {
    match l {
        Some(x) => Some(x@),
        None => None,
    }
}

impl Rule {
    pub closed spec fn prefix(&self) -> Option<Literal> {
        self.my_prefix
    }

    pub closed spec fn interior(&self) -> Option<Seq<Literal>> {
        match self.my_suffixes {
            Some(v) => Some(v@),
            None => None,
        }
    }

    pub closed spec fn postfix(&self) -> Option<Literal> {
        self.my_postfix
    }

    pub closed spec fn size(&self) -> nat {
        self.pattern_len as nat
    }

    pub closed spec fn capabilities(&self) -> nat {
        self.my_capabilities as nat
    }

    /// The texts of the floating literals.
    pub open spec fn interior_texts(&self) -> Option<Seq<Seq<char>>> {
        match self.interior() {
            Some(ls) => Some(ls.map_values(|l: Literal| l@)),
            None => None,
        }
    }

    /// The pattern that the rule was made from.
    pub open spec fn pattern_text(&self) -> Seq<char> {
        glob_text(opt_text(self.prefix()), self.interior_texts(), opt_text(self.postfix()))
    }

    /// The text by which rules of one length are ordered.
    pub open spec fn sort_key(&self) -> Seq<char> {
        sort_text(opt_text(self.prefix()), self.interior_texts(), opt_text(self.postfix()))
    }

    /// The shape that decomposition gives: no literal is empty or holds a
    /// `*`, and a pattern with no `*` is one anchored literal.
    pub open spec fn well_formed(&self) -> bool {
        &&& self.size() >= 1
        &&& (self.prefix() matches Some(p) ==> p@.len() > 0 && star_free(p@))
        &&& (self.postfix() matches Some(q) ==> q@.len() > 0 && star_free(q@))
        &&& (self.interior() matches Some(ls) ==> forall|i: int|
            0 <= i < ls.len() ==> (#[trigger] ls[i])@.len() > 0 && star_free(ls[i]@))
        &&& (self.interior() is None ==> self.postfix() is None && self.prefix() is Some)
    }

    /// Every literal of the rule is the one that `pool` holds under its id.
    pub open spec fn drawn_from(&self, pool: Seq<Seq<char>>) -> bool {
        forall|i: int|
            0 <= i < self.lits().len() ==> (#[trigger] self.lits()[i]).index() < pool.len()
                && pool[self.lits()[i].index() as int] == self.lits()[i]@
    }

    /// Whether this rule accepts `text`.
    pub open spec fn accepts(&self, text: Seq<char>) -> bool {
        glob_accepts(opt_text(self.prefix()), self.interior_texts(), opt_text(self.postfix()), text)
    }

    /// All literals of the rule: the start, the floating ones, the end.
    pub open spec fn lits(&self) -> Seq<Literal> {
        let a: Seq<Literal> = match self.prefix() {
            Some(p) => seq![p],
            None => Seq::empty(),
        };
        let b: Seq<Literal> = match self.interior() {
            Some(ls) => ls,
            None => Seq::empty(),
        };
        let c: Seq<Literal> = match self.postfix() {
            Some(q) => seq![q],
            None => Seq::empty(),
        };
        a + b + c
    }

    /// Conditions under which the rule can be tried on `s`: its floating
    /// literals are not empty, all its ids are within the tables of `s`, and
    /// no id stands for two texts.
    pub open spec fn can_try(&self, s: &SearchableString) -> bool {
        &&& s.wf()
        &&& (self.interior() matches Some(ls) ==> forall|i: int| 0 <= i < ls.len() ==> (#[trigger] ls[i])@.len() > 0)
        &&& forall|i: int| 0 <= i < self.lits().len() ==> (#[trigger] self.lits()[i]).index() < s.capacity()
        &&& forall|i: int| 0 <= i < self.lits().len() ==> s.agrees(&#[trigger] self.lits()[i])
        &&& forall|i: int, j: int|
            0 <= i < self.lits().len() && 0 <= j < self.lits().len() && (#[trigger] self.lits()[i]).index()
                == (#[trigger] self.lits()[j]).index() ==> self.lits()[i]@ == self.lits()[j]@
    }

    pub fn new(
        prefix: Option<Literal>,
        suffixes: Option<Vec<Literal>>,
        postfix: Option<Literal>,
        pattern_len: usize,
        capabilities: usize,
    ) -> (r: Rule)
        ensures
            r.prefix() == prefix,
            r.interior() == (match suffixes {
                Some(v) => Some(v@),
                None => None::<Seq<Literal>>,
            }),
            r.postfix() == postfix,
            r.size() == pattern_len,
            r.capabilities() == capabilities,
    {
        Rule {
            my_prefix: prefix,
            my_suffixes: suffixes,
            my_postfix: postfix,
            pattern_len,
            my_capabilities: capabilities,
        }
    }

    pub fn get_size(&self) -> (r: usize)
        ensures
            r == self.size(),
    {
        self.pattern_len
    }

    pub fn get_capabilities(&self) -> (r: usize)
        ensures
            r == self.capabilities(),
    {
        self.my_capabilities
    }

    pub fn get_prefix(&self) -> (r: &Option<Literal>)
        ensures
            *r == self.prefix(),
    {
        &self.my_prefix
    }

    /// Tries the rule on the input of `value`: the start must match, then the
    /// end, then the floating literals must be found in order, each at its
    /// earliest place, between the two.
    pub fn matches(&self, value: &mut SearchableString) -> (r: bool)
        requires
            self.can_try(old(value)),
        ensures
            r == self.accepts(old(value).text()),
            self.can_try(final(value)),
            final(value).text() == old(value).text(),
            final(value).capacity() == old(value).capacity(),
            grows_within(old(value).seen(), final(value).seen(), self.lits()),
    {
        let ghost s0 = *value;
        proof {
            lemma_grows_refl(s0.seen(), self.lits());
            value.lemma_capacity();
        }
        let n = value.get_size();
        let start: usize = match &self.my_prefix {
            None => 0,
            Some(p) => {
                proof {
                    assert(self.lits()[0] == *p);
                }
                let ghost s1 = *value;
                let hit = value.starts_with(p);
                proof {
                    self.lemma_step(s1, *value, 0);
                }
                if !hit {
                    return false;
                }
                p.get_length()
            },
        };
        let end: usize = match &self.my_postfix {
            None => n,
            Some(q) => {
                let ghost last = self.lits().len() - 1;
                proof {
                    assert(self.lits()[last] == *q);
                }
                let ghost s1 = *value;
                let hit = value.ends_with(q);
                proof {
                    self.lemma_step(s1, *value, last);
                    lemma_grows_trans(s0.seen(), s1.seen(), value.seen(), self.lits());
                }
                if !hit {
                    return false;
                }
                n - q.get_length()
            },
        };
        match &self.my_suffixes {
            None => start == end,
            Some(suffix_list) => {
                if suffix_list.len() == 0 {
                    return start <= end;
                }
                let ghost texts = self.interior_texts()->0;
                let ghost off: int = if self.my_prefix is Some { 1 } else { 0 };
                let mut from: usize = start;
                let mut k: usize = 0;
                proof {
                    assert(texts.skip(0) =~= texts);
                    assert(self.accepts(s0.text()) == interior_accepts(texts, s0.text(), start as int, end as int));
                }
                while k < suffix_list.len()
                    invariant
                        self.can_try(value),
                        value.text() == s0.text(),
                        value.capacity() == s0.capacity(),
                        grows_within(s0.seen(), value.seen(), self.lits()),
                        self.interior() == Some(suffix_list@),
                        texts == suffix_list@.map_values(|l: Literal| l@),
                        off == (if self.prefix() is Some { 1int } else { 0int }),
                        k <= suffix_list@.len(),
                        s0 == *old(value),
                        self.accepts(s0.text()) == interior_accepts(texts, s0.text(), start as int, end as int),
                        k < suffix_list@.len() ==> texts.skip(k as int).len() > 0,
                        end <= s0.text().len(),
                        interior_accepts(texts, s0.text(), start as int, end as int)
                            == interior_accepts(texts.skip(k as int), s0.text(), from as int, end as int),
                    decreases suffix_list@.len() - k,
                {
                    let suffix = &suffix_list[k];
                    proof {
                        assert(self.lits()[off + k] == *suffix);
                        assert(texts.skip(k as int)[0] == suffix@);
                        assert(texts.skip(k as int).drop_first() =~= texts.skip(k + 1));
                    }
                    let ghost s1 = *value;
                    let found = check_wild_card(value, suffix, from);
                    proof {
                        self.lemma_step(s1, *value, off + k);
                        lemma_grows_trans(s0.seen(), s1.seen(), value.seen(), self.lits());
                    }
                    match found {
                        None => {
                            return false;
                        },
                        Some(p) => {
                            let len = suffix.get_length();
                            if len > end || p > end - len {
                                return false;
                            }
                            from = p + len;
                        },
                    }
                    k = k + 1;
                }
                proof {
                    assert(texts.skip(k as int).len() == 0);
                }
                true
            },
        }
    }

    proof fn lemma_step(&self, before: SearchableString, after: SearchableString, i: int)
        requires
            self.can_try(&before),
            0 <= i < self.lits().len(),
            after.after_lookup(&before, &self.lits()[i]),
        ensures
            self.can_try(&after),
            grows_within(before.seen(), after.seen(), self.lits()),
    {
        let lits = self.lits();
        assert(before.agrees(&lits[i]));
        assert forall|j: int| 0 <= j < lits.len() implies after.agrees(&#[trigger] lits[j]) by {
            assert(before.agrees(&lits[j]));
            if lits[j].index() == lits[i].index() {
                assert(lits[j]@ == lits[i]@);
            }
        }
        assert forall|id: nat| #[trigger] after.seen().contains_key(id) implies before.seen().contains_key(id)
            || exists|m: int| 0 <= m < lits.len() && (#[trigger] lits[m]).index() == id && lits[m]@ == after.seen()[id] by {
            if !before.seen().contains_key(id) {
                assert(id == lits[i].index());
            }
        }
    }

    /// The characters of the text by which rules of one length are ordered.
    pub fn pattern_chars(&self) -> (r: Vec<char>)
        ensures
            r@ == self.sort_key(),
    {
        let mut out: Vec<char> = Vec::new();
        if let Some(p) = &self.my_prefix {
            p.append_to(&mut out);
        }
        proof {
            assert(out@ =~= opt_seq(opt_text(self.prefix())));
        }
        if let Some(suffixes) = &self.my_suffixes {
            if suffixes.len() > 0 {
                let ghost base = out@;
                let ghost texts = self.interior_texts()->0;
                out.push('*');
                let mut k: usize = 0;
                while k < suffixes.len()
                    invariant
                        k <= suffixes@.len(),
                        texts == suffixes@.map_values(|l: Literal| l@),
                        out@ == base + seq!['*'] + join_interior(texts.take(k as int)),
                    decreases suffixes@.len() - k,
                {
                    suffixes[k].append_to(&mut out);
                    out.push('*');
                    proof {
                        assert(texts.take(k + 1).drop_last() =~= texts.take(k as int));
                        assert(texts.take(k + 1).last() == suffixes@[k as int]@);
                    }
                    k = k + 1;
                    proof {
                        assert(out@ =~= base + seq!['*'] + join_interior(texts.take(k as int)));
                    }
                }
                proof {
                    assert(texts.take(k as int) =~= texts);
                }
            }
        }
        if let Some(q) = &self.my_postfix {
            q.append_to(&mut out);
        }
        proof {
            assert(out@ =~= self.sort_key());
        }
        out
    }

    /// The pattern text by which rules of one length are ordered: the pattern
    /// itself, save that one whose `*` has no floating literal beside it is
    /// written without its `*`.
    pub fn get_pattern(&self) -> (r: String)
        ensures
            r@ == self.sort_key(),
    {
        let cs = self.pattern_chars();
        string_of(&cs)
    }

    /// Whether one of the rule's literals contains `value` as a plain
    /// substring, so that an input without `value` cannot match the rule.
    pub fn requires_substring(&self, value: &str) -> (r: bool)
        ensures
            r == exists|i: int| 0 <= i < self.lits().len() && contains_seq((#[trigger] self.lits()[i])@, value@),
    {
        let ghost lits = self.lits();
        if let Some(p) = &self.my_prefix {
            if p.requires_substring(value) {
                proof {
                    assert(lits[0] == *p);
                }
                return true;
            }
        }
        if let Some(q) = &self.my_postfix {
            if q.requires_substring(value) {
                proof {
                    assert(lits[lits.len() - 1] == *q);
                }
                return true;
            }
        }
        let ghost off: int = if self.my_prefix is Some { 1 } else { 0 };
        if let Some(suffixes) = &self.my_suffixes {
            let mut k: usize = 0;
            while k < suffixes.len()
                invariant
                    k <= suffixes@.len(),
                    self.interior() == Some(suffixes@),
                    lits == self.lits(),
                    off == (if self.prefix() is Some { 1int } else { 0int }),
                    forall|j: int| 0 <= j < k ==> !contains_seq((#[trigger] suffixes@[j])@, value@),
                decreases suffixes@.len() - k,
            {
                if suffixes[k].requires_substring(value) {
                    proof {
                        assert(lits[off + k] == suffixes@[k as int]);
                    }
                    return true;
                }
                k = k + 1;
            }
        }
        proof {
            assert forall|i: int| 0 <= i < lits.len() implies !contains_seq((#[trigger] lits[i])@, value@) by {
                if self.prefix() is Some && i == 0 {
                } else if self.postfix() is Some && i == lits.len() - 1 {
                } else {
                    assert(lits[i] == self.interior()->0[i - off]);
                }
            }
        }
        false
    }
}

} // verus!
