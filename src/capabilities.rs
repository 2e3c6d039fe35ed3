//! Capability records: the values of the projected fields that a rule leads
//! to, interned so that equal records are stored once.
use vstd::prelude::*;
use crate::field::{BrowsCapField, BROWSER, BROWSER_TYPE, ordered_fields};
use crate::literal::{intern_step, texts_distinct};

verus! {

/// The value that stands for an empty or missing cell.
pub const UNKNOWN_BROWSCAP_VALUE: &'static str = "Unknown";

/// The value that the catch-all rule gives the browser fields.
pub const DEFAULT_BROWSER_VALUE: &'static str = "Default Browser";

/// Relies on `ustr::Ustr::from` and `Ustr::as_str`: the interned copy of the
/// text, which lives as long as the process.
#[verifier::external_body]
pub fn pool_str(s: &str) -> (r: &'static str)
    ensures
        r@ == s@,
{
    ustr::Ustr::from(s).as_str()
}

/// The texts of a list of values.
pub open spec fn values_view(v: Seq<&'static str>) -> Seq<Seq<char>> {
    v.map_values(|s: &'static str| s@)
}

/// Maps each field of a projection to its position in it.
#[derive(Debug)]
pub struct Mapper {
    fields: Vec<BrowsCapField>,
}

impl View for Mapper {
    type V = Seq<BrowsCapField>;

    closed spec fn view(&self) -> Seq<BrowsCapField> {
        self.fields@
    }
}

impl Mapper {
    /// A mapper over the projection `fields`, given in order of position.
    pub fn new(fields: Vec<BrowsCapField>) -> (r: Mapper)
        ensures
            r@ == fields@,
    {
        Mapper { fields }
    }

    pub fn len(&self) -> (r: usize)
        ensures
            r == self@.len(),
    {
        self.fields.len()
    }

    /// A second mapper over the same projection.
    pub fn copy(&self) -> (r: Mapper)
        ensures
            r@ == self@,
    {
        let mut fields: Vec<BrowsCapField> = Vec::new();
        let mut i: usize = 0;
        while i < self.fields.len()
            invariant
                i <= self.fields@.len(),
                fields@ == self.fields@.take(i as int),
            decreases self.fields@.len() - i,
        {
            fields.push(self.fields[i]);
            i = i + 1;
            proof {
                assert(fields@ =~= self.fields@.take(i as int));
            }
        }
        proof {
            assert(self.fields@.take(i as int) =~= self.fields@);
        }
        Mapper { fields }
    }

    /// The position of `field` in the projection, if it is there.
    pub fn position(&self, field: BrowsCapField) -> (r: Option<usize>)
        ensures
            match r {
                Some(i) => i < self@.len() && self@[i as int] == field,
                None => !self@.contains(field),
            },
    {
        let mut i: usize = 0;
        while i < self.fields.len()
            invariant
                i <= self.fields@.len(),
                forall|j: int| 0 <= j < i ==> #[trigger] self.fields@[j] != field,
            decreases self.fields@.len() - i,
        {
            if self.fields[i] == field {
                return Some(i);
            }
            i = i + 1;
        }
        None
    }

    /// The value of `field` among `values`, laid out by this projection.
    pub fn get_value(&self, values: &Vec<&'static str>, field: BrowsCapField) -> (r: Option<&'static str>)
        requires
            values@.len() == self@.len(),
        ensures
            match r {
                Some(v) => exists|i: int| 0 <= i < self@.len() && self@[i] == field && v == values@[i],
                None => !self@.contains(field),
            },
    {
        match self.position(field) {
            None => None,
            Some(i) => Some(values[i]),
        }
    }

    /// The field at a position of the projection, if there is one.
    pub fn position_field(&self, index: usize) -> (r: Option<BrowsCapField>)
        ensures
            r == if index < self@.len() {
                Some(self@[index as int])
            } else {
                None::<BrowsCapField>
            },
    {
        if index < self.fields.len() {
            Some(self.fields[index])
        } else {
            None
        }
    }
}

/// The mapper of a projection.
pub fn init_mapper(fields: &Vec<BrowsCapField>) -> (r: Mapper)
    ensures
        r@ == fields@,
{
    let mut out = Mapper { fields: Vec::new() };
    let mut i: usize = 0;
    while i < fields.len()
        invariant
            i <= fields@.len(),
            out@ == fields@.take(i as int),
        decreases fields@.len() - i,
    {
        out.fields.push(fields[i]);
        i = i + 1;
        proof {
            assert(out@ =~= fields@.take(i as int));
        }
    }
    proof {
        assert(fields@.take(i as int) =~= fields@);
    }
    out
}

/// The values of the projected fields for one class of inputs.
#[derive(Debug)]
pub struct Capabilities {
    my_values: Vec<&'static str>,
    my_mapper: Mapper,
}

impl Capabilities {
    /// The projection the values are laid out by.
    pub closed spec fn fields(&self) -> Seq<BrowsCapField> {
        self.my_mapper@
    }

    /// The values, one per field of the projection.
    pub closed spec fn values(&self) -> Seq<Seq<char>> {
        values_view(self.my_values@)
    }

    pub closed spec fn wf(&self) -> bool {
        &&& self.my_values@.len() == self.my_mapper@.len()
        &&& ordered_fields(self.my_mapper@)
    }

    /// One value per field of the projection, whose fields are ordered.
    pub proof fn lemma_wf(&self)
        requires
            self.wf(),
        ensures
            self.values().len() == self.fields().len(),
            ordered_fields(self.fields()),
    {
    }

    /// The value of `field`, when the projection holds it.
    pub open spec fn value_of(&self, field: BrowsCapField) -> Option<Seq<char>> {
        if self.fields().contains(field) {
            Some(self.values()[choose|i: int| 0 <= i < self.fields().len() && self.fields()[i] == field])
        } else {
            None
        }
    }

    pub fn new(values: Vec<&'static str>, mapper: Mapper) -> (r: Capabilities)
        requires
            values@.len() == mapper@.len(),
            ordered_fields(mapper@),
        ensures
            r.wf(),
            r.values() == values_view(values@),
            r.fields() == mapper@,
    {
        Capabilities { my_values: values, my_mapper: mapper }
    }

    /// A copy of the values.
    pub fn values_vec(&self) -> (r: Vec<&'static str>)
        ensures
            values_view(r@) == self.values(),
            r@.len() == self.values().len(),
    {
        let mut r: Vec<&'static str> = Vec::new();
        let mut i: usize = 0;
        while i < self.my_values.len()
            invariant
                i <= self.my_values@.len(),
                r@ == self.my_values@.take(i as int),
            decreases self.my_values@.len() - i,
        {
            r.push(self.my_values[i]);
            i = i + 1;
            proof {
                assert(r@ =~= self.my_values@.take(i as int));
            }
        }
        proof {
            assert(self.my_values@.take(i as int) =~= self.my_values@);
        }
        r
    }

    /// The value of `field`, or nothing when it is not projected.
    pub fn get_value(&self, field: &BrowsCapField) -> (r: Option<&str>)
        requires
            self.wf(),
        ensures
            match r {
                Some(v) => self.value_of(*field) == Some(v@),
                None => self.value_of(*field) is None,
            },
    {
        let r = self.my_mapper.get_value(&self.my_values, *field);
        proof {
            if let Some(v) = r {
                let i = choose|i: int| 0 <= i < self.fields().len() && self.fields()[i] == *field && v == self.my_values@[i];
                let j = choose|j: int| 0 <= j < self.fields().len() && self.fields()[j] == *field;
                if i < j {
                    assert(crate::field::ordinal_of(self.fields()[i]) < crate::field::ordinal_of(self.fields()[j]));
                } else if j < i {
                    assert(crate::field::ordinal_of(self.fields()[j]) < crate::field::ordinal_of(self.fields()[i]));
                }
            }
        }
        r
    }

    pub fn get_browser(&self) -> (r: Option<&str>)
        requires
            self.wf(),
        ensures
            match r {
                Some(v) => self.value_of(BROWSER) == Some(v@),
                None => self.value_of(BROWSER) is None,
            },
    {
        self.get_value(&BROWSER)
    }

    pub fn get_browser_type(&self) -> (r: Option<&str>)
        requires
            self.wf(),
        ensures
            match r {
                Some(v) => self.value_of(BROWSER_TYPE) == Some(v@),
                None => self.value_of(BROWSER_TYPE) is None,
            },
    {
        self.get_value(&BROWSER_TYPE)
    }

    pub fn get_browser_major_version(&self) -> (r: Option<&str>)
        requires
            self.wf(),
        ensures
            match r {
                Some(v) => self.value_of(crate::field::BROWSER_MAJOR_VERSION) == Some(v@),
                None => self.value_of(crate::field::BROWSER_MAJOR_VERSION) is None,
            },
    {
        self.get_value(&crate::field::BROWSER_MAJOR_VERSION)
    }

    pub fn get_platform(&self) -> (r: Option<&str>)
        requires
            self.wf(),
        ensures
            match r {
                Some(v) => self.value_of(crate::field::PLATFORM) == Some(v@),
                None => self.value_of(crate::field::PLATFORM) is None,
            },
    {
        self.get_value(&crate::field::PLATFORM)
    }

    pub fn get_platform_version(&self) -> (r: Option<&str>)
        requires
            self.wf(),
        ensures
            match r {
                Some(v) => self.value_of(crate::field::PLATFORM_VERSION) == Some(v@),
                None => self.value_of(crate::field::PLATFORM_VERSION) is None,
            },
    {
        self.get_value(&crate::field::PLATFORM_VERSION)
    }

    pub fn get_device_type(&self) -> (r: Option<&str>)
        requires
            self.wf(),
        ensures
            match r {
                Some(v) => self.value_of(crate::field::DEVICE_TYPE) == Some(v@),
                None => self.value_of(crate::field::DEVICE_TYPE) is None,
            },
    {
        self.get_value(&crate::field::DEVICE_TYPE)
    }
}

/// The record given for an empty input: every projected field unknown.
pub fn init_default_capa(fields: &Vec<BrowsCapField>) -> (r: Capabilities)
    requires
        ordered_fields(fields@),
    ensures
        r.wf(),
        r.fields() == fields@,
        r.values().len() == fields@.len(),
        forall|i: int| 0 <= i < fields@.len() ==> #[trigger] r.values()[i] == UNKNOWN_BROWSCAP_VALUE@,
{
    let mut values: Vec<&'static str> = Vec::new();
    let mut i: usize = 0;
    while i < fields.len()
        invariant
            i <= fields@.len(),
            values@.len() == i,
            forall|k: int| 0 <= k < i ==> #[trigger] values@[k] == UNKNOWN_BROWSCAP_VALUE,
        decreases fields@.len() - i,
    {
        values.push(UNKNOWN_BROWSCAP_VALUE);
        i = i + 1;
    }
    Capabilities::new(values, init_mapper(fields))
}

/// The record of the catch-all rule: the browser and browser type fields say
/// `Default Browser`, every other projected field is unknown.
pub fn init_wild_card_capa(fields: &Vec<BrowsCapField>) -> (r: Capabilities)
    requires
        ordered_fields(fields@),
    ensures
        r.wf(),
        r.fields() == fields@,
        r.values().len() == fields@.len(),
        forall|i: int| 0 <= i < fields@.len() ==> #[trigger] r.values()[i] == if fields@[i] == BROWSER
            || fields@[i] == BROWSER_TYPE {
            DEFAULT_BROWSER_VALUE@
        } else {
            UNKNOWN_BROWSCAP_VALUE@
        },
{
    let mut values: Vec<&'static str> = Vec::new();
    let mut i: usize = 0;
    while i < fields.len()
        invariant
            i <= fields@.len(),
            values@.len() == i,
            forall|k: int| 0 <= k < i ==> #[trigger] values@[k] == if fields@[k] == BROWSER || fields@[k]
                == BROWSER_TYPE {
                DEFAULT_BROWSER_VALUE
            } else {
                UNKNOWN_BROWSCAP_VALUE
            },
        decreases fields@.len() - i,
    {
        let f = fields[i];
        if f == BROWSER || f == BROWSER_TYPE {
            values.push(DEFAULT_BROWSER_VALUE);
        } else {
            values.push(UNKNOWN_BROWSCAP_VALUE);
        }
        i = i + 1;
    }
    Capabilities::new(values, init_mapper(fields))
}

/// A `hashbrown` map from a list of values to the position of its record.
/// Verus cannot take the declaration of `hashbrown::HashMap` itself (it is
/// bound by that crate's allocator trait), so it is held here, and the
/// functions below are the only way in.
#[derive(Debug)]
#[verifier::external_body]
pub struct CapaIndex {
    map: hashbrown::HashMap<Vec<&'static str>, usize>,
}

/// What a map from value lists to record positions holds.
pub uninterp spec fn capa_ids(m: CapaIndex) -> Map<Seq<Seq<char>>, usize>;

/// Relies on `hashbrown::HashMap::new`: a map with no entries.
#[verifier::external_body]
fn capa_index_new() -> (r: CapaIndex)
    ensures
        capa_ids(r).dom() == Set::<Seq<Seq<char>>>::empty(),
{
    CapaIndex { map: hashbrown::HashMap::new() }
}

/// Relies on `hashbrown::HashMap::get`: the value stored under `key`, if
/// there is one. Lists of texts are equal when their texts are.
#[verifier::external_body]
fn capa_index_get(m: &CapaIndex, key: &Vec<&'static str>) -> (r: Option<usize>)
    ensures
        r == (if capa_ids(*m).contains_key(values_view(key@)) {
            Some(capa_ids(*m)[values_view(key@)])
        } else {
            None::<usize>
        }),
{
    m.map.get(key).map(|v| *v)
}

/// Relies on `hashbrown::HashMap::insert`: `key` maps to `v` afterwards,
/// every other key keeps its value.
#[verifier::external_body]
fn capa_index_insert(m: &mut CapaIndex, key: Vec<&'static str>, v: usize)
    ensures
        capa_ids(*final(m)) == capa_ids(*old(m)).insert(values_view(key@), v),
{
    m.map.insert(key, v);
}

/// The interner of capability records: one record per distinct list of
/// values, all laid out by one projection.
#[derive(Debug)]
pub struct CapaCache {
    index: CapaIndex,
    table: Vec<Capabilities>,
    mapper: Mapper,
}

impl View for CapaCache {
    type V = Seq<Seq<Seq<char>>>;

    closed spec fn view(&self) -> Seq<Seq<Seq<char>>> {
        self.table@.map_values(|c: Capabilities| c.values())
    }
}

impl CapaCache {
    pub closed spec fn wf(&self) -> bool {
        &&& ordered_fields(self.mapper@)
        &&& forall|i: int|
            0 <= i < self.table@.len() ==> {
                &&& (#[trigger] self.table@[i]).wf()
                &&& self.table@[i].fields() == self.mapper@
                &&& capa_ids(self.index).contains_key(self.table@[i].values())
                &&& capa_ids(self.index)[self.table@[i].values()] == i
            }
        &&& forall|k: Seq<Seq<char>>|
            #[trigger] capa_ids(self.index).contains_key(k) ==> {
                &&& capa_ids(self.index)[k] < self.table@.len()
                &&& self.table@[capa_ids(self.index)[k] as int].values() == k
            }
    }

    /// The projection every record of the cache is laid out by.
    pub closed spec fn fields(&self) -> Seq<BrowsCapField> {
        self.mapper@
    }

    /// The record at a position.
    pub closed spec fn record(&self, i: int) -> Capabilities {
        self.table@[i]
    }

    pub proof fn lemma_record(&self, i: int)
        requires
            self.wf(),
            0 <= i < self@.len(),
        ensures
            self.record(i).wf(),
            self.record(i).fields() == self.fields(),
            self.record(i).values() == self@[i],
    {
    }

    pub fn new(fields: &Vec<BrowsCapField>) -> (r: CapaCache)
        requires
            ordered_fields(fields@),
        ensures
            r.wf(),
            r@ == Seq::<Seq<Seq<char>>>::empty(),
            r.fields() == fields@,
    {
        let r = CapaCache { index: capa_index_new(), table: Vec::new(), mapper: init_mapper(fields) };
        proof {
            assert(r@ =~= Seq::<Seq<Seq<char>>>::empty());
        }
        r
    }

    pub fn len(&self) -> (r: usize)
        ensures
            r == self@.len(),
    {
        self.table.len()
    }

    /// The projection, as a list.
    pub fn field_list(&self) -> (r: Vec<BrowsCapField>)
        requires
            self.wf(),
        ensures
            r@ == self.fields(),
            ordered_fields(r@),
    {
        self.mapper.copy().fields
    }

    proof fn lemma_records(&self)
        requires
            self.wf(),
        ensures
            texts_distinct(self@),
            forall|i: int| 0 <= i < self@.len() ==> #[trigger] self.record(i).wf() && self.record(i).fields() == self.fields()
                && self.record(i).values() == self@[i],
    {
        assert forall|i: int, j: int| 0 <= i < self@.len() && 0 <= j < self@.len() && i != j implies #[trigger] self@[i]
            != #[trigger] self@[j] by {
            assert(self@[i] == self.table@[i].values());
            assert(self@[j] == self.table@[j].values());
        }
    }

    /// The position of the record with these values: the one already stored,
    /// or a new one at the end.
    pub fn get_or_insert(&mut self, values: Vec<&'static str>) -> (r: usize)
        requires
            old(self).wf(),
            values@.len() == old(self).fields().len(),
        ensures
            final(self).wf(),
            final(self).fields() == old(self).fields(),
            intern_step(old(self)@, values_view(values@), final(self)@, r as int),
            texts_distinct(final(self)@),
            forall|i: int| 0 <= i < final(self)@.len() ==> #[trigger] final(self).record(i).wf()
                && final(self).record(i).fields() == final(self).fields() && final(self).record(i).values() == final(self)@[i],
    {
        proof {
            self.lemma_records();
        }
        match capa_index_get(&self.index, &values) {
            Some(id) => {
                proof {
                    assert(self@[id as int] == values_view(values@));
                    assert(self@.contains(values_view(values@)));
                }
                id
            },
            None => {
                let id = self.table.len();
                let ghost key = values_view(values@);
                proof {
                    assert(!self@.contains(key)) by {
                        if self@.contains(key) {
                            let j = choose|j: int| 0 <= j < self@.len() && self@[j] == key;
                            assert(self.table@[j].values() == key);
                        }
                    }
                }
                let mut key_copy: Vec<&'static str> = Vec::new();
                let mut i: usize = 0;
                while i < values.len()
                    invariant
                        i <= values@.len(),
                        key_copy@ == values@.take(i as int),
                    decreases values@.len() - i,
                {
                    key_copy.push(values[i]);
                    i = i + 1;
                    proof {
                        assert(key_copy@ =~= values@.take(i as int));
                    }
                }
                proof {
                    assert(values@.take(i as int) =~= values@);
                }
                let capa = Capabilities::new(values, self.mapper.copy());
                let ghost before = self@;
                self.table.push(capa);
                capa_index_insert(&mut self.index, key_copy, id);
                proof {
                    assert(self@ =~= before.push(key));
                    self.lemma_records();
                }
                id
            },
        }
    }

    /// The record at position `i`.
    pub fn get(&self, i: usize) -> (r: &Capabilities)
        requires
            i < self@.len(),
        ensures
            *r == self.record(i as int),
    {
        &self.table[i]
    }
}

/// Interns a list of values and hands back the position of its record.
pub fn get_capabilities(values: Vec<&'static str>, capa_cache: &mut CapaCache) -> (r: usize)
    requires
        old(capa_cache).wf(),
        values@.len() == old(capa_cache).fields().len(),
    ensures
        final(capa_cache).wf(),
        final(capa_cache).fields() == old(capa_cache).fields(),
        intern_step(old(capa_cache)@, values_view(values@), final(capa_cache)@, r as int),
{
    capa_cache.get_or_insert(values)
}

} // verus!
