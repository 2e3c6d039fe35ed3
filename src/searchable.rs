//! The per-query view of an input: its characters and memo tables of the
//! literal lookups made on it.
use vstd::prelude::*;
use crate::bits::{Bits, bits_get, bits_len, bits_of, bits_repeat, bits_resize, bits_set};
use crate::literal::Literal;
use crate::text::{chars_of, matches_at};

verus! {

/// A table of yes / no / not yet known answers, keyed by literal id.
#[derive(Debug)]
pub struct Cache {
    my_values: Bits,
    my_is_known: Bits,
}

impl Cache {
    pub closed spec fn wf(&self) -> bool {
        &&& bits_of(self.my_values).len() == bits_of(self.my_is_known).len()
        &&& forall|i: int|
            0 <= i < bits_of(self.my_values).len() && #[trigger] bits_of(self.my_values)[i]
                ==> bits_of(self.my_is_known)[i]
    }

    /// The answer stored under `i`, if any.
    pub closed spec fn lookup(&self, i: int) -> Option<bool> {
        if 0 <= i < bits_of(self.my_is_known).len() && bits_of(self.my_is_known)[i] {
            Some(bits_of(self.my_values)[i])
        } else {
            None
        }
    }

    pub fn new() -> (r: Cache)
        ensures
            r.wf(),
            forall|i: int| #[trigger] r.lookup(i) == None::<bool>,
    {
        Cache { my_values: bits_repeat(false, 0), my_is_known: bits_repeat(false, 0) }
    }

    pub fn get(&self, index: usize) -> (r: Option<bool>)
        requires
            self.wf(),
        ensures
            r == self.lookup(index as int),
    {
        if let Some(v) = bits_get(&self.my_values, index) {
            if v {
                return Some(true);
            }
        }
        if let Some(k) = bits_get(&self.my_is_known, index) {
            if k {
                return Some(false);
            }
        }
        None
    }

    pub fn set(&mut self, index: usize, flag: bool)
        requires
            old(self).wf(),
            index < usize::MAX,
        ensures
            final(self).wf(),
            forall|i: int| #[trigger] final(self).lookup(i) == if i == index {
                Some(flag)
            } else {
                old(self).lookup(i)
            },
    {
        bitset_set(&mut self.my_values, index, flag);
        bitset_set(&mut self.my_is_known, index, true);
        assert forall|i: int| #[trigger] self.lookup(i) == if i == index {
            Some(flag)
        } else {
            old(self).lookup(i)
        } by {
            if i != index && 0 <= i < bits_of(self.my_is_known).len() {
                if i >= bits_of(old(self).my_is_known).len() {
                    assert(!bits_of(self.my_is_known)[i]);
                }
            }
        }
    }
}

/// Sets bit `index`, first growing the vector with unset bits if it is short.
fn bitset_set(bitset: &mut Bits, index: usize, value: bool)
    requires
        index < usize::MAX,
    ensures
        bits_of(*final(bitset)).len() == if index < bits_of(*old(bitset)).len() {
            bits_of(*old(bitset)).len()
        } else {
            (index + 1) as nat
        },
        forall|i: int|
            0 <= i < bits_of(*final(bitset)).len() ==> #[trigger] bits_of(*final(bitset))[i] == if i == index {
                value
            } else if i < bits_of(*old(bitset)).len() {
                bits_of(*old(bitset))[i]
            } else {
                false
            },
{
    if index >= bits_len(bitset) {
        bits_resize(bitset, index + 1, false);
    }
    bits_set(bitset, index, value);
}

/// `v` lists, in increasing order, every offset of `text` at which `lit`
/// matches, and nothing else.
pub open spec fn all_positions(v: Seq<usize>, lit: Seq<char>, text: Seq<char>) -> bool {
    &&& forall|k: int| 0 <= k < v.len() ==> #[trigger] v[k] < text.len() && matches_at(lit, text, v[k] as int)
    &&& forall|k: int, l: int| 0 <= k < l < v.len() ==> #[trigger] v[k] < #[trigger] v[l]
    &&& forall|p: int| 0 <= p < text.len() && #[trigger] matches_at(lit, text, p)
        ==> exists|k: int| 0 <= k < v.len() && v[k] == p
}

/// Whether a literal ends `text`.
pub open spec fn ends_at_end(lit: Seq<char>, text: Seq<char>) -> bool {
    lit.len() <= text.len() && matches_at(lit, text, text.len() - lit.len())
}

/// `after` keeps every entry of `before`, and each entry it adds is the text
/// of one of `lits` under that literal's id.
pub open spec fn grows_within(before: Map<nat, Seq<char>>, after: Map<nat, Seq<char>>, lits: Seq<Literal>) -> bool {
    &&& forall|id: nat| #[trigger] before.contains_key(id) ==> after.contains_key(id) && after[id] == before[id]
    &&& forall|id: nat|
        #[trigger] after.contains_key(id) ==> before.contains_key(id) || exists|i: int|
            0 <= i < lits.len() && (#[trigger] lits[i]).index() == id && lits[i]@ == after[id]
}

/// One input, lower-cased, and the answers already worked out on it.
pub struct SearchableString {
    my_str: Vec<char>,
    my_indices: Vec<Option<Vec<usize>>>,
    my_prefix_cache: Cache,
    my_postfix_cache: Cache,
    my_buffer: Vec<usize>,
    my_seen: Ghost<Map<nat, Seq<char>>>,
}

impl SearchableString {
    /// The characters of the input.
    pub closed spec fn text(&self) -> Seq<char> {
        self.my_str@
    }

    /// The ids below this bound can be looked up.
    pub closed spec fn capacity(&self) -> nat {
        self.my_indices@.len()
    }

    /// The text of each literal whose answers are stored, by id.
    pub closed spec fn seen(&self) -> Map<nat, Seq<char>> {
        self.my_seen@
    }

    /// `lit` has not been confused with another literal under its id.
    pub open spec fn agrees(&self, lit: &Literal) -> bool {
        self.seen().contains_key(lit.index()) ==> self.seen()[lit.index()] == lit@
    }

    pub closed spec fn wf(&self) -> bool {
        &&& self.my_prefix_cache.wf()
        &&& self.my_postfix_cache.wf()
        &&& self.my_buffer@.len() == self.my_str@.len()
        &&& self.my_indices@.len() <= usize::MAX
        &&& forall|i: int| #[trigger] self.my_prefix_cache.lookup(i) is Some ==> {
            &&& i >= 0
            &&& self.my_seen@.contains_key(i as nat)
            &&& self.my_prefix_cache.lookup(i) == Some(matches_at(self.my_seen@[i as nat], self.my_str@, 0))
        }
        &&& forall|i: int| #[trigger] self.my_postfix_cache.lookup(i) is Some ==> {
            &&& i >= 0
            &&& self.my_seen@.contains_key(i as nat)
            &&& self.my_postfix_cache.lookup(i) == Some(ends_at_end(self.my_seen@[i as nat], self.my_str@))
        }
        &&& forall|i: int| 0 <= i < self.my_indices@.len() && #[trigger] self.my_indices@[i] is Some ==> {
            &&& self.my_seen@.contains_key(i as nat)
            &&& all_positions(self.my_indices@[i]->0@, self.my_seen@[i as nat], self.my_str@)
        }
    }

    /// Same input, same lookup bound, and the answers recorded for `lit`.
    pub open spec fn after_lookup(&self, before: &SearchableString, lit: &Literal) -> bool {
        &&& self.wf()
        &&& self.text() == before.text()
        &&& self.capacity() == before.capacity()
        &&& self.seen() == before.seen().insert(lit.index(), lit@)
    }

    pub fn new(string_value: String, max_index: usize) -> (r: SearchableString)
        ensures
            r.wf(),
            r.text() == string_value@,
            r.capacity() == max_index,
            r.seen() == Map::<nat, Seq<char>>::empty(),
    {
        let chars = chars_of(string_value.as_str());
        let mut my_buffer: Vec<usize> = Vec::new();
        let mut i: usize = 0;
        while i < chars.len()
            invariant
                i <= chars@.len(),
                my_buffer@.len() == i,
            decreases chars@.len() - i,
        {
            my_buffer.push(0);
            i = i + 1;
        }
        let mut my_indices: Vec<Option<Vec<usize>>> = Vec::new();
        let mut j: usize = 0;
        while j < max_index
            invariant
                j <= max_index,
                my_indices@.len() == j,
                forall|k: int| 0 <= k < j ==> #[trigger] my_indices@[k] is None,
            decreases max_index - j,
        {
            my_indices.push(None);
            j = j + 1;
        }
        SearchableString {
            my_str: chars,
            my_indices,
            my_prefix_cache: Cache::new(),
            my_postfix_cache: Cache::new(),
            my_buffer,
            my_seen: Ghost(Map::empty()),
        }
    }

    /// The lookup bound is the length of a table, so it fits in a `usize`.
    pub proof fn lemma_capacity(&self)
        requires
            self.wf(),
        ensures
            self.capacity() <= usize::MAX,
    {
    }

    pub fn get_size(&self) -> (n: usize)
        ensures
            n == self.text().len(),
    {
        self.my_str.len()
    }

    /// Whether the input begins with `literal`; worked out once per id.
    pub fn starts_with(&mut self, literal: &Literal) -> (r: bool)
        requires
            old(self).wf(),
            old(self).agrees(literal),
            literal.index() < usize::MAX,
        ensures
            final(self).after_lookup(old(self), literal),
            r == matches_at(literal@, old(self).text(), 0),
    {
        let index = literal.get_index();
        let cached = self.my_prefix_cache.get(index);
        if let Some(c) = cached {
            proof {
                assert(self.my_prefix_cache.lookup(index as int) is Some);
                assert(self.my_seen@.insert(index as nat, literal@) =~= self.my_seen@);
            }
            return c;
        }
        let result = literal.matches(&self.my_str, 0);
        self.my_prefix_cache.set(index, result);
        proof {
            self.my_seen@ = self.my_seen@.insert(index as nat, literal@);
            assert forall|i: int| #[trigger] self.my_postfix_cache.lookup(i) is Some implies {
                &&& i >= 0
                &&& self.my_seen@.contains_key(i as nat)
                &&& self.my_postfix_cache.lookup(i) == Some(ends_at_end(self.my_seen@[i as nat], self.my_str@))
            } by {
                assert(old(self).my_postfix_cache.lookup(i) is Some);
            }
            assert forall|i: int| 0 <= i < self.my_indices@.len() && #[trigger] self.my_indices@[i] is Some implies {
                &&& self.my_seen@.contains_key(i as nat)
                &&& all_positions(self.my_indices@[i]->0@, self.my_seen@[i as nat], self.my_str@)
            } by {
                assert(old(self).my_indices@[i] is Some);
            }
        }
        result
    }

    /// Whether the input ends with `literal`; worked out once per id.
    pub fn ends_with(&mut self, literal: &Literal) -> (r: bool)
        requires
            old(self).wf(),
            old(self).agrees(literal),
            literal.index() < usize::MAX,
        ensures
            final(self).after_lookup(old(self), literal),
            r == ends_at_end(literal@, old(self).text()),
    {
        let index = literal.get_index();
        let cached = self.my_postfix_cache.get(index);
        if let Some(c) = cached {
            proof {
                assert(self.my_postfix_cache.lookup(index as int) is Some);
                assert(self.my_seen@.insert(index as nat, literal@) =~= self.my_seen@);
            }
            return c;
        }
        let n = self.my_str.len();
        let len = literal.get_length();
        let result = if len <= n {
            literal.matches(&self.my_str, n - len)
        } else {
            false
        };
        self.my_postfix_cache.set(index, result);
        proof {
            self.my_seen@ = self.my_seen@.insert(index as nat, literal@);
            assert forall|i: int| #[trigger] self.my_prefix_cache.lookup(i) is Some implies {
                &&& i >= 0
                &&& self.my_seen@.contains_key(i as nat)
                &&& self.my_prefix_cache.lookup(i) == Some(matches_at(self.my_seen@[i as nat], self.my_str@, 0))
            } by {
                assert(old(self).my_prefix_cache.lookup(i) is Some);
            }
            assert forall|i: int| 0 <= i < self.my_indices@.len() && #[trigger] self.my_indices@[i] is Some implies {
                &&& self.my_seen@.contains_key(i as nat)
                &&& all_positions(self.my_indices@[i]->0@, self.my_seen@[i as nat], self.my_str@)
            } by {
                assert(old(self).my_indices@[i] is Some);
            }
        }
        result
    }

    /// Every offset at which `literal` matches, in increasing order.
    pub fn find_indices(&mut self, literal: &Literal) -> (r: Vec<usize>)
        requires
            old(self).wf(),
            literal@.len() > 0,
        ensures
            final(self).wf(),
            final(self).text() == old(self).text(),
            final(self).capacity() == old(self).capacity(),
            final(self).seen() == old(self).seen(),
            all_positions(r@, literal@, old(self).text()),
    {
        let mut count: usize = 0;
        let s = literal.get_first_char();
        let n = self.my_str.len();
        let mut i: usize = 0;
        while i < n
            invariant
                self.wf(),
                self.my_str@ == old(self).my_str@,
                self.my_indices@ == old(self).my_indices@,
                self.my_prefix_cache == old(self).my_prefix_cache,
                self.my_postfix_cache == old(self).my_postfix_cache,
                self.my_seen@ == old(self).my_seen@,
                n == self.my_str@.len(),
                s == literal@[0],
                literal@.len() > 0,
                i <= n,
                count <= i,
                forall|k: int| 0 <= k < count ==> #[trigger] self.my_buffer@[k] < i && matches_at(literal@, self.my_str@, self.my_buffer@[k] as int),
                forall|k: int, l: int| 0 <= k < l < count ==> #[trigger] self.my_buffer@[k] < #[trigger] self.my_buffer@[l],
                forall|p: int| 0 <= p < i && #[trigger] matches_at(literal@, self.my_str@, p)
                    ==> exists|k: int| 0 <= k < count && self.my_buffer@[k] == p,
            decreases n - i,
        {
            if (self.my_str[i] == s || s == '?') && literal.matches(&self.my_str, i) {
                let ghost buf0 = self.my_buffer@;
                self.my_buffer.set(count, i);
                count = count + 1;
                proof {
                    assert forall|p: int| 0 <= p < i + 1 && #[trigger] matches_at(literal@, self.my_str@, p)
                        implies exists|k: int| 0 <= k < count && self.my_buffer@[k] == p by {
                        if p < i {
                            let k0 = choose|k: int| 0 <= k < count - 1 && buf0[k] == p;
                            assert(self.my_buffer@[k0] == buf0[k0]);
                        } else {
                            assert(self.my_buffer@[count - 1] == p);
                        }
                    }
                }
            } else {
                proof {
                    if matches_at(literal@, self.my_str@, i as int) {
                        assert(literal@[0] == '?' || literal@[0] == self.my_str@[i as int + 0]);
                    }
                }
            }
            i = i + 1;
        }
        let mut values: Vec<usize> = Vec::new();
        let mut j: usize = 0;
        while j < count
            invariant
                count <= self.my_buffer@.len(),
                j <= count,
                values@ == self.my_buffer@.take(j as int),
            decreases count - j,
        {
            values.push(self.my_buffer[j]);
            j = j + 1;
            proof {
                assert(values@ =~= self.my_buffer@.take(j as int));
            }
        }
        proof {
            assert(values@ =~= self.my_buffer@.take(count as int));
            assert forall|p: int| 0 <= p < self.my_str@.len() && #[trigger] matches_at(literal@, self.my_str@, p)
                implies exists|k: int| 0 <= k < values@.len() && values@[k] == p by {
                let k0 = choose|k: int| 0 <= k < count && self.my_buffer@[k] == p;
                assert(values@[k0] == self.my_buffer@[k0]);
            }
        }
        values
    }

    /// Every offset at which `literal` matches, in increasing order; worked
    /// out once per id.
    pub fn get_indices(&mut self, literal: &Literal) -> (r: &Vec<usize>)
        requires
            old(self).wf(),
            old(self).agrees(literal),
            literal.index() < old(self).capacity(),
            literal@.len() > 0,
        ensures
            final(self).after_lookup(old(self), literal),
            all_positions(r@, literal@, old(self).text()),
    {
        let index = literal.get_index();
        if self.my_indices[index].is_none() {
            let values = self.find_indices(literal);
            let ghost mid = *self;
            self.my_indices.set(index, Some(values));
            proof {
                self.my_seen@ = self.my_seen@.insert(index as nat, literal@);
                assert forall|i: int| #[trigger] self.my_prefix_cache.lookup(i) is Some implies {
                    &&& i >= 0
                    &&& self.my_seen@.contains_key(i as nat)
                    &&& self.my_prefix_cache.lookup(i) == Some(matches_at(self.my_seen@[i as nat], self.my_str@, 0))
                } by {
                    assert(mid.my_prefix_cache.lookup(i) is Some);
                }
                assert forall|i: int| #[trigger] self.my_postfix_cache.lookup(i) is Some implies {
                    &&& i >= 0
                    &&& self.my_seen@.contains_key(i as nat)
                    &&& self.my_postfix_cache.lookup(i) == Some(ends_at_end(self.my_seen@[i as nat], self.my_str@))
                } by {
                    assert(mid.my_postfix_cache.lookup(i) is Some);
                }
                assert forall|i: int| 0 <= i < self.my_indices@.len() && #[trigger] self.my_indices@[i] is Some implies {
                    &&& self.my_seen@.contains_key(i as nat)
                    &&& all_positions(self.my_indices@[i]->0@, self.my_seen@[i as nat], self.my_str@)
                } by {
                    if i != index {
                        assert(mid.my_indices@[i] is Some);
                    }
                }
            }
        } else {
            proof {
                assert(self.my_seen@.insert(index as nat, literal@) =~= self.my_seen@);
            }
        }
        self.my_indices[index].as_ref().unwrap()
    }
}

} // verus!
