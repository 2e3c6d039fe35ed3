//! The pre-filter: for each probe, the rules that an input without the probe
//! cannot match.
use vstd::prelude::*;
use crate::bits::{Bits, bits_not, bits_of, bits_or_assign, bits_repeat, bits_set};
use crate::literal::Literal;
use crate::rule::{Rule, lemma_grows_trans};
use crate::searchable::{SearchableString, grows_within};
use crate::text::{contains_seq, matches_at, starts_with_seq};

verus! {

/// What a probe looks for in an input.
#[derive(Debug)]
pub enum FilterType {
    /// The input begins with the literal.
    Prefix(Literal),
    /// The literal matches somewhere in the input.
    Contains(Literal),
}

impl FilterType {
    pub open spec fn literal(&self) -> Literal {
        match self {
            FilterType::Prefix(l) => *l,
            FilterType::Contains(l) => *l,
        }
    }

    /// Whether the input `text` has what the probe looks for.
    pub open spec fn hit(&self, text: Seq<char>) -> bool {
        match self {
            FilterType::Prefix(l) => matches_at(l@, text, 0),
            FilterType::Contains(l) => exists|p: int| 0 <= p < text.len() && #[trigger] matches_at(l@, text, p),
        }
    }
}

/// A probe and the rules it rules out: bit `i` of the mask is set when rule
/// `i` cannot match an input that lacks the probe.
#[derive(Debug)]
pub struct Filter {
    filter_type: FilterType,
    my_mask: Bits,
}

impl Filter {
    pub closed spec fn kind(&self) -> FilterType {
        self.filter_type
    }

    pub closed spec fn mask(&self) -> Seq<bool> {
        bits_of(self.my_mask)
    }

    pub fn new(filter_type: FilterType, my_mask: Bits) -> (r: Filter)
        ensures
            r.kind() == filter_type,
            r.mask() == bits_of(my_mask),
    {
        Filter { filter_type, my_mask }
    }
}

/// The literals of the probes, in order.
pub open spec fn filter_lits(filters: Seq<Filter>) -> Seq<Literal> {
    filters.map_values(|f: Filter| f.kind().literal())
}

/// The start-probe mask: rule `i` is marked when its start begins with
/// `probe`.
pub open spec fn prefix_mask(rules: Seq<Rule>, probe: Seq<char>) -> Seq<bool> {
    Seq::new(rules.len(), |i: int| rules[i].prefix() matches Some(p) && starts_with_seq(p@, probe))
}

/// The contains-probe mask: rule `i` is marked when one of its literals
/// holds `probe` as a plain substring.
pub open spec fn contains_mask(rules: Seq<Rule>, probe: Seq<char>) -> Seq<bool> {
    Seq::new(
        rules.len(),
        |i: int| exists|j: int| 0 <= j < rules[i].lits().len() && contains_seq((#[trigger] rules[i].lits()[j])@, probe),
    )
}

/// Bit `i` is set when rule `i` has a start whose text begins with `pattern`.
pub fn create_prefix_masker(rules: &Vec<Rule>, pattern: &str) -> (r: Bits)
    ensures
        bits_of(r).len() == rules@.len(),
        forall|i: int| 0 <= i < rules@.len() ==> #[trigger] bits_of(r)[i] == (rules@[i].prefix() matches Some(p)
            && starts_with_seq(p@, pattern@)),
        bits_of(r) == prefix_mask(rules@, pattern@),
{
    let mut my_mask = bits_repeat(false, rules.len());
    let mut i: usize = 0;
    while i < rules.len()
        invariant
            i <= rules@.len(),
            bits_of(my_mask).len() == rules@.len(),
            forall|k: int| 0 <= k < i ==> #[trigger] bits_of(my_mask)[k] == (rules@[k].prefix() matches Some(p)
                && starts_with_seq(p@, pattern@)),
            forall|k: int| i <= k < rules@.len() ==> !#[trigger] bits_of(my_mask)[k],
        decreases rules@.len() - i,
    {
        let hit = match rules[i].get_prefix() {
            Some(prefix) => prefix.begins_with(pattern),
            None => false,
        };
        if hit {
            bits_set(&mut my_mask, i, true);
        }
        i = i + 1;
    }
    proof {
        assert(bits_of(my_mask) =~= prefix_mask(rules@, pattern@));
    }
    my_mask
}

/// Bit `i` is set when one of the literals of rule `i` contains `pattern`.
pub fn create_contains_masker(rules: &Vec<Rule>, pattern: &str) -> (r: Bits)
    ensures
        bits_of(r).len() == rules@.len(),
        forall|i: int| 0 <= i < rules@.len() ==> #[trigger] bits_of(r)[i] == exists|j: int|
            0 <= j < rules@[i].lits().len() && contains_seq((#[trigger] rules@[i].lits()[j])@, pattern@),
        bits_of(r) == contains_mask(rules@, pattern@),
{
    let mut my_mask = bits_repeat(false, rules.len());
    let mut i: usize = 0;
    while i < rules.len()
        invariant
            i <= rules@.len(),
            bits_of(my_mask).len() == rules@.len(),
            forall|k: int| 0 <= k < i ==> #[trigger] bits_of(my_mask)[k] == exists|j: int|
                0 <= j < rules@[k].lits().len() && contains_seq((#[trigger] rules@[k].lits()[j])@, pattern@),
            forall|k: int| i <= k < rules@.len() ==> !#[trigger] bits_of(my_mask)[k],
        decreases rules@.len() - i,
    {
        if rules[i].requires_substring(pattern) {
            bits_set(&mut my_mask, i, true);
        }
        i = i + 1;
    }
    proof {
        assert(bits_of(my_mask) =~= contains_mask(rules@, pattern@));
    }
    my_mask
}

/// Conditions under which the probes can be run on `s`: their literals are
/// not empty, their ids are within the tables of `s`, and no id stands for
/// two texts.
pub open spec fn filters_can_run(filters: Seq<Filter>, s: &SearchableString) -> bool {
    let lits = filter_lits(filters);
    &&& s.wf()
    &&& forall|i: int| 0 <= i < lits.len() ==> (#[trigger] lits[i])@.len() > 0
    &&& forall|i: int| 0 <= i < lits.len() ==> (#[trigger] lits[i]).index() < s.capacity()
    &&& forall|i: int| 0 <= i < lits.len() ==> s.agrees(&#[trigger] lits[i])
    &&& forall|i: int, j: int|
        0 <= i < lits.len() && 0 <= j < lits.len() && (#[trigger] lits[i]).index() == (#[trigger] lits[j]).index()
            ==> lits[i]@ == lits[j]@
}

proof fn lemma_filter_step(filters: Seq<Filter>, before: SearchableString, after: SearchableString, i: int)
    requires
        filters_can_run(filters, &before),
        0 <= i < filters.len(),
        after.after_lookup(&before, &filter_lits(filters)[i]),
    ensures
        filters_can_run(filters, &after),
        grows_within(before.seen(), after.seen(), filter_lits(filters)),
{
    let lits = filter_lits(filters);
    assert forall|j: int| 0 <= j < lits.len() implies after.agrees(&#[trigger] lits[j]) by {
        assert(before.agrees(&lits[j]));
        if lits[j].index() == lits[i].index() {
            assert(lits[j]@ == lits[i]@);
        }
    }
    assert forall|id: nat| #[trigger] after.seen().contains_key(id) implies before.seen().contains_key(id)
        || exists|m: int| 0 <= m < lits.len() && (#[trigger] lits[m]).index() == id && lits[m]@ == after.seen()[id] by {
        if !before.seen().contains_key(id) {
            assert(id == lits[i].index());
        }
    }
}

/// The rules still in the running for the input of `searchable_string`: bit
/// `i` is clear exactly when some probe that the input lacks marks rule `i`.
pub fn filter(searchable_string: &mut SearchableString, filters: &Vec<Filter>, excludes_len: usize) -> (r: Bits)
    requires
        filters_can_run(filters@, old(searchable_string)),
        forall|k: int| 0 <= k < filters@.len() ==> (#[trigger] filters@[k]).mask().len() == excludes_len,
    ensures
        filters_can_run(filters@, final(searchable_string)),
        final(searchable_string).text() == old(searchable_string).text(),
        final(searchable_string).capacity() == old(searchable_string).capacity(),
        grows_within(old(searchable_string).seen(), final(searchable_string).seen(), filter_lits(filters@)),
        bits_of(r).len() == excludes_len,
        forall|i: int| 0 <= i < excludes_len ==> (#[trigger] bits_of(r)[i] <==> forall|k: int|
            0 <= k < filters@.len() ==> !((#[trigger] filters@[k]).mask()[i] && !filters@[k].kind().hit(old(searchable_string).text()))),
{
    let ghost s0 = *searchable_string;
    let ghost text = s0.text();
    let ghost lits = filter_lits(filters@);
    let mut bit_vec = bits_repeat(false, excludes_len);
    let mut k: usize = 0;
    while k < filters.len()
        invariant
            s0 == *old(searchable_string),
            text == s0.text(),
            lits == filter_lits(filters@),
            filters_can_run(filters@, searchable_string),
            searchable_string.text() == text,
            searchable_string.capacity() == s0.capacity(),
            grows_within(s0.seen(), searchable_string.seen(), lits),
            forall|m: int| 0 <= m < filters@.len() ==> (#[trigger] filters@[m]).mask().len() == excludes_len,
            k <= filters@.len(),
            bits_of(bit_vec).len() == excludes_len,
            forall|i: int| 0 <= i < excludes_len ==> (#[trigger] bits_of(bit_vec)[i] <==> exists|m: int|
                0 <= m < k && (#[trigger] filters@[m]).mask()[i] && !filters@[m].kind().hit(text)),
        decreases filters@.len() - k,
    {
        let f = &filters[k];
        proof {
            searchable_string.lemma_capacity();
            assert(lits[k as int] == f.kind().literal());
        }
        let ghost s1 = *searchable_string;
        let present = match &f.filter_type {
            FilterType::Prefix(literal) => searchable_string.starts_with(literal),
            FilterType::Contains(literal) => {
                let x = searchable_string.get_indices(literal);
                let found = x.len() > 0;
                proof {
                    if found {
                        assert(matches_at(literal@, text, x@[0] as int));
                    } else {
                        assert forall|p: int| 0 <= p < text.len() implies !#[trigger] matches_at(literal@, text, p) by {
                            if matches_at(literal@, text, p) {
                            }
                        }
                    }
                }
                found
            },
        };
        proof {
            lemma_filter_step(filters@, s1, *searchable_string, k as int);
            lemma_grows_trans(s0.seen(), s1.seen(), searchable_string.seen(), lits);
            assert(present == f.kind().hit(text));
        }
        let ghost before = bits_of(bit_vec);
        if !present {
            bits_or_assign(&mut bit_vec, &f.my_mask);
        }
        proof {
            assert forall|i: int| 0 <= i < excludes_len implies (#[trigger] bits_of(bit_vec)[i] <==> exists|m: int|
                0 <= m < k + 1 && (#[trigger] filters@[m]).mask()[i] && !filters@[m].kind().hit(text)) by {
                if before[i] {
                    let m = choose|m: int| 0 <= m < k && (#[trigger] filters@[m]).mask()[i] && !filters@[m].kind().hit(text);
                }
                if !present && f.mask()[i] {
                    assert(filters@[k as int].mask()[i]);
                }
            }
        }
        k = k + 1;
    }
    let r = bits_not(bit_vec);
    proof {
        assert forall|i: int| 0 <= i < excludes_len implies (#[trigger] bits_of(r)[i] <==> forall|m: int|
            0 <= m < filters@.len() ==> !((#[trigger] filters@[m]).mask()[i] && !filters@[m].kind().hit(text))) by {
            if !bits_of(r)[i] {
                assert(bits_of(bit_vec)[i]);
            }
        }
    }
    r
}

/// Soundness of a contains probe: when one of the literals of a rule holds
/// `probe` as a plain substring and the probe matches nowhere in `text`, the
/// rule does not accept `text`.
pub proof fn lemma_contains_probe_sound(rule: Rule, probe: Seq<char>, text: Seq<char>)
    requires
        rule.well_formed(),
        exists|j: int| 0 <= j < rule.lits().len() && contains_seq((#[trigger] rule.lits()[j])@, probe),
        !exists|p: int| 0 <= p < text.len() && #[trigger] matches_at(probe, text, p),
    ensures
        !rule.accepts(text),
{
    if rule.accepts(text) {
        let j = choose|j: int| 0 <= j < rule.lits().len() && contains_seq((#[trigger] rule.lits()[j])@, probe);
        let lit = rule.lits()[j]@;
        crate::rule::lemma_accepts_lits_match(rule, text, j);
        let p = choose|p: int| 0 <= p < text.len() && #[trigger] matches_at(lit, text, p);
        let o = choose|o: int| 0 <= o && o + probe.len() <= lit.len() && #[trigger] lit.subrange(o, o + probe.len()) == probe;
        assert forall|k: int| 0 <= k < probe.len() implies (#[trigger] probe[k] == '?' || probe[k] == text[p + o + k]) by {
            assert(probe[k] == lit.subrange(o, o + probe.len())[k]);
            assert(lit[o + k] == '?' || lit[o + k] == text[p + (o + k)]);
        }
        if probe.len() == 0 {
            assert(matches_at(probe, text, p));
        } else {
            assert(matches_at(probe, text, p + o));
            assert(p + o < text.len());
        }
    }
}

/// Soundness of a start probe: when the start of a rule begins with `probe`
/// and the text does not, the rule does not accept the text.
pub proof fn lemma_prefix_probe_sound(rule: Rule, probe: Seq<char>, text: Seq<char>)
    requires
        rule.prefix() matches Some(p) && starts_with_seq(p@, probe),
        !matches_at(probe, text, 0),
    ensures
        !rule.accepts(text),
{
    if rule.accepts(text) {
        let p = rule.prefix()->0;
        assert(matches_at(p@, text, 0));
        assert forall|k: int| 0 <= k < probe.len() implies (#[trigger] probe[k] == '?' || probe[k] == text[0 + k]) by {
            assert(probe[k] == p@.subrange(0, probe.len() as int)[k]);
            assert(p@[k] == '?' || p@[k] == text[0 + k]);
        }
    }
}

} // verus!
