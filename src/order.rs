//! The global order of rules: longer patterns first, then by pattern text.
use vstd::prelude::*;
use crate::rule::Rule;

verus! {

/// Lexicographic order on texts, character by character by code point; a
/// proper prefix comes first.
pub open spec fn lex_lt(a: Seq<char>, b: Seq<char>) -> bool
    decreases a.len(),
{
    if b.len() == 0 {
        false
    } else if a.len() == 0 {
        true
    } else if a[0] < b[0] {
        true
    } else if a[0] > b[0] {
        false
    } else {
        lex_lt(a.drop_first(), b.drop_first())
    }
}

pub proof fn lemma_lex_irreflexive(a: Seq<char>)
    ensures
        !lex_lt(a, a),
    decreases a.len(),
{
    if a.len() > 0 {
        lemma_lex_irreflexive(a.drop_first());
    }
}

pub proof fn lemma_lex_trans(a: Seq<char>, b: Seq<char>, c: Seq<char>)
    requires
        lex_lt(a, b),
        lex_lt(b, c),
    ensures
        lex_lt(a, c),
    decreases a.len(),
{
    if a.len() > 0 && b.len() > 0 && c.len() > 0 {
        if a[0] == b[0] && b[0] == c[0] {
            lemma_lex_trans(a.drop_first(), b.drop_first(), c.drop_first());
        }
    }
}

pub proof fn lemma_lex_total(a: Seq<char>, b: Seq<char>)
    ensures
        lex_lt(a, b) || lex_lt(b, a) || a == b,
    decreases a.len(),
{
    if a.len() > 0 && b.len() > 0 {
        if a[0] == b[0] {
            lemma_lex_total(a.drop_first(), b.drop_first());
            if a.drop_first() == b.drop_first() {
                assert(a =~= seq![a[0]] + a.drop_first());
                assert(b =~= seq![b[0]] + b.drop_first());
            }
        }
    } else if a.len() == 0 && b.len() == 0 {
        assert(a =~= b);
    }
}

pub proof fn lemma_lex_asym(a: Seq<char>, b: Seq<char>)
    requires
        lex_lt(a, b),
    ensures
        !lex_lt(b, a),
{
    if lex_lt(b, a) {
        lemma_lex_trans(a, b, a);
        lemma_lex_irreflexive(a);
    }
}

/// Whether `a` comes strictly before `b` in the order of rules.
pub open spec fn rule_before(a: Rule, b: Rule) -> bool {
    a.size() > b.size() || (a.size() == b.size() && lex_lt(a.sort_key(), b.sort_key()))
}

/// No rule of `s` comes strictly before one that stands ahead of it.
pub open spec fn sorted_rules(s: Seq<Rule>) -> bool {
    forall|i: int, j: int| 0 <= i < j < s.len() ==> !rule_before(#[trigger] s[j], #[trigger] s[i])
}

proof fn lemma_before_asym(a: Rule, b: Rule)
    requires
        rule_before(a, b),
    ensures
        !rule_before(b, a),
{
    if a.size() == b.size() {
        lemma_lex_asym(a.sort_key(), b.sort_key());
    }
}

proof fn lemma_not_before_trans(a: Rule, b: Rule, c: Rule)
    requires
        !rule_before(a, b),
        !rule_before(b, c),
    ensures
        !rule_before(a, c),
{
    if rule_before(a, c) {
        if a.size() == b.size() && b.size() == c.size() {
            lemma_lex_total(a.sort_key(), b.sort_key());
            lemma_lex_total(b.sort_key(), c.sort_key());
            if lex_lt(b.sort_key(), a.sort_key()) {
                if lex_lt(c.sort_key(), b.sort_key()) {
                    lemma_lex_trans(c.sort_key(), b.sort_key(), a.sort_key());
                    lemma_lex_asym(a.sort_key(), c.sort_key());
                }
            }
        }
    }
}

/// Whether text `a` comes strictly before text `b`.
pub fn lex_less(a: &Vec<char>, b: &Vec<char>) -> (r: bool)
    ensures
        r == lex_lt(a@, b@),
{
    let mut i: usize = 0;
    proof {
        assert(a@.skip(0) =~= a@);
        assert(b@.skip(0) =~= b@);
    }
    while i < a.len() && i < b.len()
        invariant
            i <= a@.len(),
            i <= b@.len(),
            lex_lt(a@, b@) == lex_lt(a@.skip(i as int), b@.skip(i as int)),
        decreases a@.len() - i,
    {
        let x = a[i];
        let y = b[i];
        proof {
            assert(a@.skip(i as int)[0] == x);
            assert(b@.skip(i as int)[0] == y);
        }
        if x < y {
            return true;
        }
        if x > y {
            return false;
        }
        proof {
            assert(a@.skip(i as int).drop_first() =~= a@.skip(i + 1));
            assert(b@.skip(i as int).drop_first() =~= b@.skip(i + 1));
        }
        i = i + 1;
    }
    i < b.len()
}

/// Whether a rule of length `size_a` with text `key_a` comes strictly before
/// one of length `size_b` with text `key_b`.
fn comes_before(size_a: usize, key_a: &Vec<char>, size_b: usize, key_b: &Vec<char>) -> (r: bool)
    ensures
        r == (size_a > size_b || (size_a == size_b && lex_lt(key_a@, key_b@))),
{
    if size_a != size_b {
        size_a > size_b
    } else {
        lex_less(key_a, key_b)
    }
}

/// `r[k]` is the rule of `rs` at position `order[k]`, and no position
/// stands twice in `order`.
pub open spec fn permuted_by(r: Seq<Rule>, rs: Seq<Rule>, order: Seq<usize>) -> bool {
    &&& order.len() == r.len()
    &&& order.no_duplicates()
    &&& forall|k: int| 0 <= k < r.len() ==> order[k] < rs.len() && #[trigger] r[k] == rs[order[k] as int]
}

/// `r` holds the rules of `rs`, each once, in some order.
pub open spec fn permutes(r: Seq<Rule>, rs: Seq<Rule>) -> bool {
    &&& r.len() == rs.len()
    &&& exists|order: Seq<usize>| permuted_by(r, rs, order)
}

/// Positions into `rs`, in the order of their rules.
pub open spec fn sorted_positions(rs: Seq<Rule>, v: Seq<usize>) -> bool {
    forall|p: int, q: int| 0 <= p < q < v.len() ==> !rule_before(rs[#[trigger] v[q] as int], rs[#[trigger] v[p] as int])
}

/// Every position of `v` is below `n`.
pub open spec fn positions_below(v: Seq<usize>, n: int) -> bool {
    forall|p: int| 0 <= p < v.len() ==> #[trigger] v[p] < n
}

/// `sizes` and `keys` hold the length and the ordering text of each rule.
pub open spec fn keys_of(rs: Seq<Rule>, sizes: Seq<usize>, keys: Seq<Vec<char>>) -> bool {
    &&& sizes.len() == rs.len()
    &&& keys.len() == rs.len()
    &&& forall|i: int| 0 <= i < rs.len() ==> #[trigger] sizes[i] == rs[i].size() && keys[i]@ == rs[i].sort_key()
}

/// Merges two ordered lists of positions into one.
fn merge(a: Vec<usize>, b: Vec<usize>, sizes: &Vec<usize>, keys: &Vec<Vec<char>>, Ghost(rs): Ghost<Seq<Rule>>) -> (r: Vec<usize>)
    requires
        keys_of(rs, sizes@, keys@),
        positions_below(a@, rs.len() as int),
        positions_below(b@, rs.len() as int),
        sorted_positions(rs, a@),
        sorted_positions(rs, b@),
    ensures
        positions_below(r@, rs.len() as int),
        sorted_positions(rs, r@),
        r@.to_multiset() == a@.to_multiset().add(b@.to_multiset()),
{
    broadcast use vstd::multiset::group_multiset_axioms, vstd::seq_lib::group_seq_properties;
    let mut out: Vec<usize> = Vec::new();
    let mut i: usize = 0;
    let mut j: usize = 0;
    proof {
        assert(a@.take(0) =~= Seq::<usize>::empty());
        assert(b@.take(0) =~= Seq::<usize>::empty());
        assert(out@.to_multiset() =~= a@.take(0).to_multiset().add(b@.take(0).to_multiset()));
    }
    while i < a.len() || j < b.len()
        invariant
            keys_of(rs, sizes@, keys@),
            positions_below(a@, rs.len() as int),
            positions_below(b@, rs.len() as int),
            sorted_positions(rs, a@),
            sorted_positions(rs, b@),
            i <= a@.len(),
            j <= b@.len(),
            positions_below(out@, rs.len() as int),
            sorted_positions(rs, out@),
            out@.to_multiset() == a@.take(i as int).to_multiset().add(b@.take(j as int).to_multiset()),
            forall|p: int, q: int|
                0 <= p < out@.len() && i <= q < a@.len() ==> !rule_before(rs[#[trigger] a@[q] as int], rs[#[trigger] out@[p] as int]),
            forall|p: int, q: int|
                0 <= p < out@.len() && j <= q < b@.len() ==> !rule_before(rs[#[trigger] b@[q] as int], rs[#[trigger] out@[p] as int]),
        decreases a@.len() + b@.len() - i - j,
    {
        let take_a = if i < a.len() && j < b.len() {
            let x = a[i];
            let y = b[j];
            !comes_before(sizes[y], &keys[y], sizes[x], &keys[x])
        } else {
            i < a.len()
        };
        let ghost old_out = out@;
        if take_a {
            let x = a[i];
            out.push(x);
            proof {
                vstd::seq_lib::to_multiset_build(old_out, x);
                assert(a@.take(i + 1) =~= a@.take(i as int).push(x));
                vstd::seq_lib::to_multiset_build(a@.take(i as int), x);
                assert forall|p: int, q: int| 0 <= p < out@.len() && i + 1 <= q < a@.len() implies !rule_before(
                    rs[#[trigger] a@[q] as int],
                    rs[#[trigger] out@[p] as int],
                ) by {
                    if p == old_out.len() {
                        assert(out@[p] == a@[i as int]);
                    } else {
                        assert(out@[p] == old_out[p]);
                    }
                }
                assert forall|p: int, q: int| 0 <= p < out@.len() && j <= q < b@.len() implies !rule_before(
                    rs[#[trigger] b@[q] as int],
                    rs[#[trigger] out@[p] as int],
                ) by {
                    if p == old_out.len() {
                        if q > j {
                            lemma_not_before_trans(rs[b@[q] as int], rs[b@[j as int] as int], rs[x as int]);
                        }
                    } else {
                        assert(out@[p] == old_out[p]);
                    }
                }
            }
            i = i + 1;
        } else {
            let y = b[j];
            out.push(y);
            proof {
                vstd::seq_lib::to_multiset_build(old_out, y);
                assert(b@.take(j + 1) =~= b@.take(j as int).push(y));
                vstd::seq_lib::to_multiset_build(b@.take(j as int), y);
                assert forall|p: int, q: int| 0 <= p < out@.len() && j + 1 <= q < b@.len() implies !rule_before(
                    rs[#[trigger] b@[q] as int],
                    rs[#[trigger] out@[p] as int],
                ) by {
                    if p == old_out.len() {
                        assert(out@[p] == b@[j as int]);
                    } else {
                        assert(out@[p] == old_out[p]);
                    }
                }
                assert forall|p: int, q: int| 0 <= p < out@.len() && i <= q < a@.len() implies !rule_before(
                    rs[#[trigger] a@[q] as int],
                    rs[#[trigger] out@[p] as int],
                ) by {
                    if p == old_out.len() {
                        lemma_before_asym(rs[y as int], rs[a@[i as int] as int]);
                        if q > i {
                            lemma_not_before_trans(rs[a@[q] as int], rs[a@[i as int] as int], rs[y as int]);
                        }
                    } else {
                        assert(out@[p] == old_out[p]);
                    }
                }
            }
            j = j + 1;
        }
    }
    proof {
        assert(a@.take(i as int) =~= a@);
        assert(b@.take(j as int) =~= b@);
    }
    out
}

/// Sorts positions by their rules, keeping the order of ties.
fn merge_sort(v: Vec<usize>, sizes: &Vec<usize>, keys: &Vec<Vec<char>>, Ghost(rs): Ghost<Seq<Rule>>) -> (r: Vec<usize>)
    requires
        keys_of(rs, sizes@, keys@),
        positions_below(v@, rs.len() as int),
    ensures
        positions_below(r@, rs.len() as int),
        sorted_positions(rs, r@),
        r@.to_multiset() == v@.to_multiset(),
    decreases v@.len(),
{
    if v.len() <= 1 {
        return v;
    }
    let mid = v.len() / 2;
    let ghost whole = v@;
    let mut left = v;
    let right = left.split_off(mid);
    proof {
        assert(whole =~= left@ + right@);
        vstd::seq_lib::lemma_multiset_commutative(left@, right@);
    }
    let l = merge_sort(left, sizes, keys, Ghost(rs));
    let r = merge_sort(right, sizes, keys, Ghost(rs));
    merge(l, r, sizes, keys, Ghost(rs))
}

/// The rules in the global order: longer patterns first, then by pattern
/// text; rules that tie keep the order they came in.
pub fn get_ordered_rules(rules: Vec<Rule>) -> (r: Vec<Rule>)
    ensures
        sorted_rules(r@),
        permutes(r@, rules@),
{
    let ghost rs = rules@;
    let n = rules.len();
    let mut sizes: Vec<usize> = Vec::new();
    let mut keys: Vec<Vec<char>> = Vec::new();
    let mut idx: Vec<usize> = Vec::new();
    let mut i: usize = 0;
    while i < n
        invariant
            n == rs.len(),
            rules@ == rs,
            i <= n,
            sizes@.len() == i,
            keys@.len() == i,
            idx@.len() == i,
            forall|k: int| 0 <= k < i ==> #[trigger] sizes@[k] == rs[k].size(),
            forall|k: int| 0 <= k < i ==> (#[trigger] keys@[k])@ == rs[k].sort_key(),
            forall|k: int| 0 <= k < i ==> #[trigger] idx@[k] == k,
        decreases n - i,
    {
        sizes.push(rules[i].get_size());
        keys.push(rules[i].pattern_chars());
        idx.push(i);
        i = i + 1;
    }
    proof {
        assert(idx@.no_duplicates());
        idx@.lemma_multiset_has_no_duplicates();
    }
    let order = merge_sort(idx, &sizes, &keys, Ghost(rs));
    proof {
        assert forall|x: usize| order@.to_multiset().contains(x) implies order@.to_multiset().count(x) == 1 by {
            assert(idx@.to_multiset().contains(x));
        }
        order@.lemma_multiset_has_no_duplicates_conv();
        assert(order@.len() == n) by {
            vstd::seq_lib::to_multiset_len(order@);
            vstd::seq_lib::to_multiset_len(idx@);
        }
    }
    let mut slots: Vec<Option<Rule>> = Vec::new();
    for rule in it: rules
        invariant
            it.seq() == rs,
            slots@.len() == it.index(),
            forall|k: int| 0 <= k < slots@.len() ==> #[trigger] slots@[k] == Some(rs[k]),
    {
        slots.push(Some(rule));
    }
    let mut out: Vec<Rule> = Vec::new();
    let mut k: usize = 0;
    while k < n
        invariant
            n == rs.len(),
            order@.len() == n,
            order@.no_duplicates(),
            positions_below(order@, n as int),
            sorted_positions(rs, order@),
            slots@.len() == n,
            k <= n,
            out@.len() == k,
            forall|m: int| 0 <= m < k ==> #[trigger] out@[m] == rs[order@[m] as int],
            forall|m: int| k <= m < n ==> #[trigger] slots@[order@[m] as int] == Some(rs[order@[m] as int]),
        decreases n - k,
    {
        let p = order[k];
        let ghost before = slots@;
        let taken = slots[p].take();
        proof {
            assert(before[p as int] == Some(rs[p as int]));
            assert forall|m: int| k + 1 <= m < n implies #[trigger] slots@[order@[m] as int] == Some(rs[order@[m] as int]) by {
                assert(order@[m] != order@[k as int]);
                assert(slots@[order@[m] as int] == before[order@[m] as int]);
            }
        }
        match taken {
            Some(rule) => {
                out.push(rule);
            },
            None => {
                proof {
                    assert(false);
                }
            },
        }
        k = k + 1;
    }
    proof {
        assert(permuted_by(out@, rs, order@));
        assert forall|p: int, q: int| 0 <= p < q < out@.len() implies !rule_before(#[trigger] out@[q], #[trigger] out@[p]) by {
            assert(!rule_before(rs[order@[q] as int], rs[order@[p] as int]));
        }
    }
    out
}

} // verus!
