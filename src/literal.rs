//! Interned pattern fragments and their glob matching.
use vstd::prelude::*;
use crate::text::{chars_of, contains_seq, matches_at, starts_with_seq};
use dashmap::DashMap;

verus! {

/// A fragment of a pattern with no `*` in it, together with the dense id
/// that its interner gave it. A `?` in it stands for any one character.
#[derive(Debug)]
pub struct Literal {
    my_string: String,
    my_chars: Vec<char>,
    my_index: usize,
}

impl View for Literal {
    type V = Seq<char>;

    closed spec fn view(&self) -> Seq<char> {
        self.my_chars@
    }
}

impl Literal {
    #[verifier::type_invariant]
    spec fn inv(&self) -> bool {
        self.my_string@ == self.my_chars@
    }

    /// The id under which caches keyed by literal look this one up.
    pub closed spec fn index(&self) -> nat {
        self.my_index as nat
    }

    pub fn create_literal(contents: &str, index: usize) -> (r: Literal)
        ensures
            r@ == contents@,
            r.index() == index,
    {
        Literal { my_string: contents.to_owned(), my_chars: chars_of(contents), my_index: index }
    }

    pub fn get_first_char(&self) -> (c: char)
        requires
            self@.len() > 0,
        ensures
            c == self@[0],
    {
        self.my_chars[0]
    }

    pub fn get_length(&self) -> (n: usize)
        ensures
            n == self@.len(),
    {
        self.my_chars.len()
    }

    pub fn get_index(&self) -> (i: usize)
        ensures
            i == self.index(),
    {
        self.my_index
    }

    /// Whether this literal matches `value` at offset `from`: every character
    /// is equal to the one of `value` at its place, or is a `?`.
    pub fn matches(&self, value: &Vec<char>, from: usize) -> (r: bool)
        ensures
            r == matches_at(self@, value@, from as int),
    {
        let len = self.my_chars.len();
        if from > value.len() || len > value.len() - from {
            return false;
        }
        let mut i: usize = 0;
        while i < len
            invariant
                len == self.my_chars@.len(),
                from + len <= value.len(),
                i <= len,
                forall|k: int| 0 <= k < i ==> (#[trigger] self.my_chars@[k] == '?' || self.my_chars@[k] == value@[from + k]),
            decreases len - i,
        {
            let ci = self.my_chars[i];
            if ci != value[from + i] && ci != '?' {
                return false;
            }
            i = i + 1;
        }
        true
    }

    /// Whether the text of this literal contains `value` as a plain substring.
    pub fn requires_substring(&self, value: &str) -> (r: bool)
        ensures
            r == contains_seq(self@, value@),
    {
        let needle = chars_of(value);
        let n = needle.len();
        let len = self.my_chars.len();
        if n > len {
            proof {
                assert forall|i: int| 0 <= i && i + n <= len implies
                    #[trigger] self.my_chars@.subrange(i, i + n) != needle@ by {}
            }
            return false;
        }
        let mut i: usize = 0;
        while i <= len - n
            invariant
                n == needle@.len(),
                needle@ == value@,
                len == self.my_chars@.len(),
                n <= len,
                i <= len - n + 1,
                forall|j: int| 0 <= j < i ==> #[trigger] self.my_chars@.subrange(j, j + n) != needle@,
            decreases len - n + 1 - i,
        {
            let mut k: usize = 0;
            let mut same = true;
            while k < n
                invariant
                    n == needle@.len(),
                    len == self.my_chars@.len(),
                    i + n <= len,
                    k <= n,
                    same <==> forall|m: int| 0 <= m < k ==> #[trigger] self.my_chars@[i + m] == needle@[m],
                decreases n - k,
            {
                if self.my_chars[i + k] != needle[k] {
                    same = false;
                }
                k = k + 1;
            }
            if same {
                proof {
                    assert forall|m: int| 0 <= m < n implies
                        #[trigger] self.my_chars@.subrange(i as int, i + n)[m] == needle@[m] by {
                        assert(self.my_chars@[i + m] == needle@[m]);
                    }
                    assert(self.my_chars@.subrange(i as int, i + n) =~= needle@);
                    assert(self@.subrange(i as int, i + value@.len()) == value@);
                }
                return true;
            }
            proof {
                assert(self.my_chars@.subrange(i as int, i + n) != needle@) by {
                    let m = choose|m: int| 0 <= m < n && self.my_chars@[i + m] != needle@[m];
                    assert(self.my_chars@.subrange(i as int, i + n)[m] == self.my_chars@[i + m]);
                }
            }
            i = i + 1;
        }
        false
    }

    /// Whether the text of this literal begins with `value`.
    pub fn begins_with(&self, value: &str) -> (r: bool)
        ensures
            r == starts_with_seq(self@, value@),
    {
        let needle = chars_of(value);
        if needle.len() > self.my_chars.len() {
            return false;
        }
        let mut k: usize = 0;
        while k < needle.len()
            invariant
                needle@ == value@,
                needle@.len() <= self.my_chars@.len(),
                k <= needle@.len(),
                forall|m: int| 0 <= m < k ==> #[trigger] self.my_chars@[m] == needle@[m],
            decreases needle@.len() - k,
        {
            if self.my_chars[k] != needle[k] {
                proof {
                    assert(self.my_chars@.subrange(0, needle@.len() as int)[k as int] != needle@[k as int]);
                }
                return false;
            }
            k = k + 1;
        }
        proof {
            assert(self.my_chars@.subrange(0, needle@.len() as int) =~= needle@);
        }
        true
    }

    /// Appends the characters of this literal to `out`.
    pub fn append_to(&self, out: &mut Vec<char>)
        ensures
            final(out)@ == old(out)@ + self@,
    {
        let mut i: usize = 0;
        while i < self.my_chars.len()
            invariant
                i <= self.my_chars@.len(),
                out@ == old(out)@ + self.my_chars@.take(i as int),
            decreases self.my_chars@.len() - i,
        {
            out.push(self.my_chars[i]);
            i = i + 1;
            proof {
                assert(out@ =~= old(out)@ + self.my_chars@.take(i as int));
            }
        }
        proof {
            assert(self.my_chars@.take(i as int) =~= self.my_chars@);
        }
    }

    pub fn get_string(&self) -> (r: &str)
        ensures
            r@ == self@,
    {
        proof {
            use_type_invariant(self);
        }
        self.my_string.as_str()
    }
}

} // verus!

verus! {

#[verifier::external_type_specification]
#[verifier::external_body]
#[verifier::reject_recursive_types(K)]
#[verifier::reject_recursive_types(V)]
#[verifier::reject_recursive_types(S)]
pub struct ExDashMap<K, V, S>(DashMap<K, V, S>);

/// What a map from literal text to literal id holds.
pub uninterp spec fn literal_ids(m: DashMap<String, usize>) -> Map<Seq<char>, usize>;

/// Relies on `DashMap::new`: a map with no entries.
#[verifier::external_body]
fn ids_new() -> (r: DashMap<String, usize>)
    ensures
        literal_ids(r).dom() == Set::<Seq<char>>::empty(),
{
    DashMap::new()
}

/// Relies on `DashMap::get`: the value stored under `key`, if there is one.
#[verifier::external_body]
fn ids_get(m: &DashMap<String, usize>, key: &str) -> (r: Option<usize>)
    ensures
        r == (if literal_ids(*m).contains_key(key@) {
            Some(literal_ids(*m)[key@])
        } else {
            None::<usize>
        }),
{
    m.get(key).map(|e| *e.value())
}

/// Relies on `DashMap::insert`: `key` maps to `v` afterwards, every other key
/// keeps its value.
#[verifier::external_body]
fn ids_insert(m: &mut DashMap<String, usize>, key: String, v: usize)
    ensures
        literal_ids(*final(m)) == literal_ids(*old(m)).insert(key@, v),
{
    m.insert(key, v);
}

/// One interning step: `after` is the table once `s` has been interned into
/// `before`, and `id` is the id handed out for it.
pub open spec fn intern_step<T>(before: Seq<T>, s: T, after: Seq<T>, id: int) -> bool {
    if before.contains(s) {
        &&& after == before
        &&& 0 <= id < before.len()
        &&& before[id] == s
    } else {
        &&& after == before.push(s)
        &&& id == before.len()
    }
}

/// No entry stands twice in `s`.
pub open spec fn texts_distinct<T>(s: Seq<T>) -> bool {
    forall|i: int, j: int| 0 <= i < s.len() && 0 <= j < s.len() && i != j ==> #[trigger] s[i] != #[trigger] s[j]
}

/// The interner of literals: each distinct text gets one dense id, the
/// position at which it was first seen, and keeps it.
#[derive(Debug)]
pub struct LiteralPool {
    ids: DashMap<String, usize>,
    literals: Vec<Literal>,
}

impl View for LiteralPool {
    type V = Seq<Seq<char>>;

    closed spec fn view(&self) -> Seq<Seq<char>> {
        self.literals@.map_values(|l: Literal| l@)
    }
}

impl LiteralPool {
    /// Every id names the literal at its position, and the map agrees.
    pub closed spec fn wf(&self) -> bool {
        &&& forall|i: int|
            0 <= i < self.literals@.len() ==> {
                &&& (#[trigger] self.literals@[i]).index() == i
                &&& literal_ids(self.ids).contains_key(self.literals@[i]@)
                &&& literal_ids(self.ids)[self.literals@[i]@] == i
            }
        &&& forall|k: Seq<char>|
            #[trigger] literal_ids(self.ids).contains_key(k) ==> {
                &&& literal_ids(self.ids)[k] < self.literals@.len()
                &&& self.literals@[literal_ids(self.ids)[k] as int]@ == k
            }
    }

    pub fn new() -> (r: LiteralPool)
        ensures
            r.wf(),
            r@ == Seq::<Seq<char>>::empty(),
    {
        let r = LiteralPool { ids: ids_new(), literals: Vec::new() };
        proof {
            assert(r@ =~= Seq::<Seq<char>>::empty());
        }
        r
    }

    /// The number of ids handed out so far; every id is below it.
    pub fn len(&self) -> (n: usize)
        ensures
            n == self@.len(),
    {
        self.literals.len()
    }

    proof fn lemma_distinct(&self)
        requires
            self.wf(),
        ensures
            texts_distinct(self@),
    {
        assert forall|i: int, j: int|
            0 <= i < self@.len() && 0 <= j < self@.len() && i != j implies #[trigger] self@[i] != #[trigger] self@[j] by {
            assert(self.literals@[i].index() == i);
            assert(self.literals@[j].index() == j);
            assert(self@[i] == self.literals@[i]@);
            assert(self@[j] == self.literals@[j]@);
        }
    }

    /// The literal for `value`: the one already interned for that text, or a
    /// new one under the next id.
    pub fn get_literal(&mut self, value: &str) -> (r: Literal)
        requires
            old(self).wf(),
        ensures
            final(self).wf(),
            r@ == value@,
            intern_step(old(self)@, value@, final(self)@, r.index() as int),
            texts_distinct(old(self)@),
            texts_distinct(final(self)@),
    {
        proof {
            self.lemma_distinct();
        }
        match ids_get(&self.ids, value) {
            Some(id) => {
                proof {
                    assert(self@[id as int] == value@);
                    assert(self@.contains(value@));
                }
                let r = Literal::create_literal(value, id);
                proof {
                    self.lemma_distinct();
                }
                r
            },
            None => {
                let id = self.literals.len();
                proof {
                    assert(!self@.contains(value@)) by {
                        if self@.contains(value@) {
                            let j = choose|j: int| 0 <= j < self@.len() && self@[j] == value@;
                            assert(self.literals@[j]@ == value@);
                        }
                    }
                }
                let ghost before = self@;
                self.literals.push(Literal::create_literal(value, id));
                ids_insert(&mut self.ids, value.to_owned(), id);
                proof {
                    assert(self@ =~= before.push(value@));
                    self.lemma_distinct();
                }
                Literal::create_literal(value, id)
            },
        }
    }
}

} // verus!
