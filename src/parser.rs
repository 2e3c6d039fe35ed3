//! The parser: rules in global order, the pre-filter over them, and the
//! capability records they lead to.
use vstd::prelude::*;
use crate::bits::{bits_of, bits_ones};
use crate::capabilities::{
    CapaCache, Capabilities, DEFAULT_BROWSER_VALUE, UNKNOWN_BROWSCAP_VALUE, init_default_capa, init_wild_card_capa,
    values_view,
};
use crate::error::ParseError;
use crate::field::{BrowsCapField, BROWSER, BROWSER_TYPE, merge_fields, ordered_fields, ordinal_of};
use crate::filter::{
    Filter, FilterType, contains_mask, prefix_mask, create_contains_masker, create_prefix_masker, filter, filter_lits, filters_can_run,
    lemma_contains_probe_sound, lemma_prefix_probe_sound,
};
use crate::literal::{Literal, LiteralPool};
use crate::order::{get_ordered_rules, permutes, sorted_rules};
use crate::rule::{Rule, create_rule, pool_extends};
use crate::searchable::{SearchableString, grows_within};
use crate::text::{ascii_lowercase, collapse_stars, lower_seq, matches_at, normalize_pattern, trim_text, trimmed};

verus! {

/// The first rule, from position `from` on, that accepts `text`.
pub open spec fn first_accepting(rules: Seq<Rule>, text: Seq<char>, from: int) -> Option<int>
    decreases rules.len() - from,
{
    if from < 0 || from >= rules.len() {
        None
    } else if rules[from].accepts(text) {
        Some(from)
    } else {
        first_accepting(rules, text, from + 1)
    }
}

proof fn lemma_first_accepting(rules: Seq<Rule>, text: Seq<char>, from: int, i: int)
    requires
        0 <= from <= i <= rules.len(),
        forall|j: int| from <= j < i ==> !(#[trigger] rules[j]).accepts(text),
        i < rules.len() ==> rules[i].accepts(text),
    ensures
        first_accepting(rules, text, from) == if i < rules.len() {
            Some(i)
        } else {
            None::<int>
        },
    decreases i - from,
{
    if from < i {
        lemma_first_accepting(rules, text, from + 1, i);
    }
}

/// Every entry of `seen` is the text that `pool` holds under that id.
pub open spec fn seen_in_pool(seen: Map<nat, Seq<char>>, pool: Seq<Seq<char>>) -> bool {
    forall|id: nat| #[trigger] seen.contains_key(id) ==> id < pool.len() && seen[id] == pool[id as int]
}

/// A literal that `pool` holds under its id.
pub open spec fn lit_in_pool(l: Literal, pool: Seq<Seq<char>>) -> bool {
    l.index() < pool.len() && pool[l.index() as int] == l@
}

proof fn lemma_seen_grows(before: Map<nat, Seq<char>>, after: Map<nat, Seq<char>>, lits: Seq<Literal>, pool: Seq<Seq<char>>)
    requires
        seen_in_pool(before, pool),
        grows_within(before, after, lits),
        forall|i: int| 0 <= i < lits.len() ==> lit_in_pool(#[trigger] lits[i], pool),
    ensures
        seen_in_pool(after, pool),
{
    assert forall|id: nat| #[trigger] after.contains_key(id) implies id < pool.len() && after[id] == pool[id as int] by {
        if !before.contains_key(id) {
            let i = choose|i: int| 0 <= i < lits.len() && (#[trigger] lits[i]).index() == id && lits[i]@ == after[id];
            assert(lit_in_pool(lits[i], pool));
        }
    }
}

/// No input without the probe of `f` is accepted by a rule that `f` marks.
pub open spec fn mask_sound(f: Filter, rules: Seq<Rule>) -> bool {
    forall|i: int, text: Seq<char>|
        #![trigger f.mask()[i], rules[i].accepts(text)]
        0 <= i < rules.len() && f.mask()[i] && !f.kind().hit(text) ==> !rules[i].accepts(text)
}

/// The catch-all rule: no literal, one bare `*`.
pub open spec fn is_catch_all(r: Rule) -> bool {
    &&& r.prefix() is None
    &&& r.postfix() is None
    &&& r.interior() == Some(Seq::<Literal>::empty())
    &&& r.size() == 1
}

/// Classifies User-Agent strings: the first rule in global order that
/// accepts the lower-cased input gives the capability record.
#[derive(Debug)]
pub struct UserAgentParser {
    my_rules: Vec<Rule>,
    my_filters: Vec<Filter>,
    my_capabilities: CapaCache,
    my_default: Capabilities,
    my_literals: LiteralPool,
}

impl UserAgentParser {
    pub closed spec fn rules(&self) -> Seq<Rule> {
        self.my_rules@
    }

    pub closed spec fn filters(&self) -> Seq<Filter> {
        self.my_filters@
    }

    /// The capability record at a position of the interner.
    pub closed spec fn record(&self, i: int) -> Capabilities {
        self.my_capabilities.record(i)
    }

    /// The values of the records the parser holds, by position.
    pub closed spec fn records(&self) -> Seq<Seq<Seq<char>>> {
        self.my_capabilities@
    }

    /// The record given when no rule applies: every field unknown.
    pub closed spec fn default_record(&self) -> Capabilities {
        self.my_default
    }

    /// The literal interner the rules and probes draw from.
    pub closed spec fn pool(&self) -> Seq<Seq<char>> {
        self.my_literals@
    }

    /// The projection of the parser.
    pub closed spec fn fields(&self) -> Seq<crate::field::BrowsCapField> {
        self.my_capabilities.fields()
    }

    /// The record that `parse` gives for `user_agent`.
    pub open spec fn result_for(&self, user_agent: Seq<char>) -> Capabilities {
        if user_agent.len() == 0 {
            self.default_record()
        } else {
            match first_accepting(self.rules(), lower_seq(user_agent), 0) {
                Some(i) => self.record(self.rules()[i].capabilities() as int),
                None => self.default_record(),
            }
        }
    }

    pub closed spec fn wf(&self) -> bool {
        let rules = self.my_rules@;
        let pool = self.my_literals@;
        &&& self.my_literals.wf()
        &&& self.my_capabilities.wf()
        &&& self.my_default.wf()
        &&& self.my_default.fields() == self.my_capabilities.fields()
        &&& forall|i: int| 0 <= i < self.my_default.values().len() ==> #[trigger] self.my_default.values()[i] == UNKNOWN_BROWSCAP_VALUE@
        &&& rules.len() >= 1
        &&& is_catch_all(rules.last())
        &&& sorted_rules(rules.drop_last())
        &&& forall|i: int| 0 <= i < rules.len() ==> {
            &&& (#[trigger] rules[i]).well_formed()
            &&& rules[i].drawn_from(pool)
            &&& rules[i].capabilities() < self.my_capabilities@.len()
        }
        &&& standard_filters(self.my_filters@, rules)
        &&& forall|k: int| 0 <= k < self.my_filters@.len() ==> usable_filter(#[trigger] self.my_filters@[k], rules, pool)
    }

    /// The last rule is the catch-all, and every rule is well formed.
    pub proof fn lemma_rules(&self)
        requires
            self.wf(),
        ensures
            self.rules().len() >= 1,
            is_catch_all(self.rules().last()),
            forall|i: int| 0 <= i < self.rules().len() ==> (#[trigger] self.rules()[i]).well_formed(),
            sorted_rules(self.rules().drop_last()),
    {
    }

    /// The records that the parser holds are well formed and laid out by its
    /// projection.
    pub proof fn lemma_records(&self)
        requires
            self.wf(),
        ensures
            self.default_record().wf(),
            self.default_record().fields() == self.fields(),
            self.default_record().values().len() == self.fields().len(),
            forall|i: int| 0 <= i < self.default_record().values().len() ==> #[trigger] self.default_record().values()[i] == UNKNOWN_BROWSCAP_VALUE@,
            forall|i: int| 0 <= i < self.rules().len() ==> #[trigger] self.record(self.rules()[i].capabilities() as int).wf()
                && self.record(self.rules()[i].capabilities() as int).fields() == self.fields(),
    {
        self.my_default.lemma_wf();
        assert forall|i: int| 0 <= i < self.rules().len() implies #[trigger] self.record(self.rules()[i].capabilities() as int).wf()
            && self.record(self.rules()[i].capabilities() as int).fields() == self.fields() by {
            let c = self.my_rules@[i].capabilities() as int;
            self.my_capabilities.lemma_record(c);
        }
    }

    /// A parser over `rules`: they are put in global order, the catch-all
    /// rule is appended, and the probes are built over the result.
    pub fn new(rules: Vec<Rule>, literals: LiteralPool, capabilities: CapaCache) -> (r: UserAgentParser)
        requires
            literals.wf(),
            capabilities.wf(),
            forall|i: int| 0 <= i < rules@.len() ==> {
                &&& (#[trigger] rules@[i]).well_formed()
                &&& rules@[i].drawn_from(literals@)
                &&& rules@[i].capabilities() < capabilities@.len()
            },
        ensures
            r.wf(),
            r.rules().len() == rules@.len() + 1,
            permutes(r.rules().drop_last(), rules@),
            sorted_rules(r.rules().drop_last()),
            is_catch_all(r.rules().last()),
            standard_filters(r.filters(), r.rules()),
            r.fields() == capabilities.fields(),
            pool_extends(capabilities@, r.records()),
    {
        let ghost input = rules@;
        let sorted = get_ordered_rules(rules);
        let mut caps = capabilities;
        let fields = caps.field_list();
        let ghost c0 = caps@;
        let wild = get_wild_card_rule(&fields, &mut caps);
        let ghost sorted_view = sorted@;
        let mut all = sorted;
        all.push(wild);
        let ghost pool0 = literals@;
        let mut literals = literals;
        proof {
            assert forall|i: int| 0 <= i < all@.len() implies {
                &&& (#[trigger] all@[i]).well_formed()
                &&& all@[i].drawn_from(pool0)
                &&& all@[i].capabilities() < caps@.len()
            } by {
                if i < sorted_view.len() {
                    let x = sorted_view[i];
                    assert(all@[i] == x);
                    let order = choose|order: Seq<usize>| crate::order::permuted_by(sorted_view, input, order);
                    let j = order[i] as int;
                    assert(sorted_view[i] == input[j]);
                    assert(input[j].capabilities() < c0.len());
                } else {
                    assert(all@[i] == wild);
                    assert(wild.lits() =~= Seq::<Literal>::empty());
                }
            }
        }
        let filters = build_filters(&all, &mut literals);
        proof {
            lemma_lits_extend(all@, pool0, literals@);
        }
        let default = init_default_capa(&fields);
        let r = UserAgentParser { my_rules: all, my_filters: filters, my_capabilities: caps, my_default: default, my_literals: literals };
        proof {
            assert(all@.drop_last() =~= sorted_view);
            assert(r.my_rules@.last() == wild);
        }
        r
    }

    /// The capability record of the first rule, in global order, that accepts
    /// the lower-cased input; the all-unknown record for an empty input.
    pub fn parse(&self, user_agent: &str) -> (r: &Capabilities)
        requires
            self.wf(),
        ensures
            *r == self.result_for(user_agent@),
            r.wf(),
            r.fields() == self.fields(),
            r.values().len() == r.fields().len(),
            user_agent@.len() == 0 ==> forall|i: int| 0 <= i < r.values().len() ==> #[trigger] r.values()[i] == UNKNOWN_BROWSCAP_VALUE@,
    {
        proof {
            self.lemma_records();
        }
        if user_agent.is_empty() {
            return &self.my_default;
        }
        let ghost rules = self.my_rules@;
        let ghost pool = self.my_literals@;
        let lower = ascii_lowercase(user_agent);
        let ghost text = lower@;
        let mut search_string = SearchableString::new(lower, self.my_literals.len());
        proof {
            let lits = filter_lits(self.my_filters@);
            assert forall|i: int| 0 <= i < lits.len() implies lit_in_pool(#[trigger] lits[i], pool) by {
                assert(lits[i] == self.my_filters@[i].kind().literal());
            }
            assert forall|i: int| 0 <= i < lits.len() implies search_string.agrees(&#[trigger] lits[i]) by {
                assert(lits[i] == self.my_filters@[i].kind().literal());
            }
            assert forall|i: int| 0 <= i < lits.len() implies (#[trigger] lits[i])@.len() > 0 by {
                assert(lits[i] == self.my_filters@[i].kind().literal());
            }
            assert forall|i: int, j: int|
                0 <= i < lits.len() && 0 <= j < lits.len() && (#[trigger] lits[i]).index() == (#[trigger] lits[j]).index()
                    implies lits[i]@ == lits[j]@ by {
                assert(lit_in_pool(lits[i], pool));
                assert(lit_in_pool(lits[j], pool));
            }
            assert(filters_can_run(self.my_filters@, &search_string));
        }
        let ghost s0 = search_string;
        let includes = filter(&mut search_string, &self.my_filters, self.my_rules.len());
        proof {
            let lits = filter_lits(self.my_filters@);
            assert forall|i: int| 0 <= i < lits.len() implies lit_in_pool(#[trigger] lits[i], pool) by {
                assert(lits[i] == self.my_filters@[i].kind().literal());
            }
            lemma_seen_grows(s0.seen(), search_string.seen(), lits, pool);
        }
        let ones = bits_ones(&includes);
        let ghost cand = bits_of(includes);
        let n = self.my_rules.len();
        proof {
            assert forall|j: int| 0 <= j < n && !cand[j] implies !(#[trigger] rules[j]).accepts(text) by {
                self.lemma_not_candidate(text, cand, j);
            }
        }
        let mut k: usize = 0;
        while k < ones.len()
            invariant
                self.wf(),
                rules == self.my_rules@,
                pool == self.my_literals@,
                n == rules.len(),
                text == lower_seq(user_agent@),
                user_agent@.len() > 0,
                search_string.wf(),
                search_string.text() == text,
                search_string.capacity() == pool.len(),
                seen_in_pool(search_string.seen(), pool),
                cand.len() == n,
                forall|j: int| 0 <= j < n && !cand[j] ==> !(#[trigger] rules[j]).accepts(text),
                forall|m: int| 0 <= m < ones@.len() ==> #[trigger] ones@[m] < n && cand[ones@[m] as int],
                forall|m: int, l: int| 0 <= m < l < ones@.len() ==> #[trigger] ones@[m] < #[trigger] ones@[l],
                forall|j: int| 0 <= j < n && #[trigger] cand[j] ==> exists|m: int| 0 <= m < ones@.len() && ones@[m] == j,
                k <= ones@.len(),
                forall|m: int| 0 <= m < k ==> !(#[trigger] rules[ones@[m] as int]).accepts(text),
            decreases ones@.len() - k,
        {
            let i = ones[k];
            let rule = &self.my_rules[i];
            proof {
                assert(rules[i as int].drawn_from(pool));
                assert(rules[i as int].well_formed());
                let lits = rule.lits();
                assert forall|a: int, b: int|
                    0 <= a < lits.len() && 0 <= b < lits.len() && (#[trigger] lits[a]).index() == (#[trigger] lits[b]).index()
                        implies lits[a]@ == lits[b]@ by {
                }
                assert(rule.can_try(&search_string));
            }
            let ghost s1 = search_string;
            if rule.matches(&mut search_string) {
                proof {
                    assert forall|j: int| 0 <= j < i implies !(#[trigger] rules[j]).accepts(text) by {
                        if cand[j] {
                            let m = choose|m: int| 0 <= m < ones@.len() && ones@[m] == j;
                            if m >= k {
                                if m > k {
                                    assert(ones@[k as int] < ones@[m]);
                                }
                            }
                        }
                    }
                    lemma_first_accepting(rules, text, 0, i as int);
                    self.my_capabilities.lemma_record(rule.capabilities() as int);
                    self.record(rule.capabilities() as int).lemma_wf();
                }
                return self.my_capabilities.get(rule.get_capabilities());
            }
            proof {
                let lits = rule.lits();
                assert forall|a: int| 0 <= a < lits.len() implies lit_in_pool(#[trigger] lits[a], pool) by {
                }
                lemma_seen_grows(s1.seen(), search_string.seen(), lits, pool);
            }
            k = k + 1;
        }
        proof {
            assert forall|j: int| 0 <= j < n implies !(#[trigger] rules[j]).accepts(text) by {
                if cand[j] {
                    let m = choose|m: int| 0 <= m < ones@.len() && ones@[m] == j;
                    assert(!rules[ones@[m] as int].accepts(text));
                }
            }
            lemma_first_accepting(rules, text, 0, n as int);
        }
        &self.my_default
    }

    proof fn lemma_not_candidate(&self, text: Seq<char>, cand: Seq<bool>, j: int)
        requires
            self.wf(),
            0 <= j < self.my_rules@.len(),
            cand.len() == self.my_rules@.len(),
            forall|i: int| 0 <= i < self.my_rules@.len() ==> (#[trigger] cand[i] <==> forall|k: int|
                0 <= k < self.my_filters@.len() ==> !((#[trigger] self.my_filters@[k]).mask()[i] && !self.my_filters@[k].kind().hit(text))),
            !cand[j],
        ensures
            !self.my_rules@[j].accepts(text),
    {
        let k = choose|k: int| 0 <= k < self.my_filters@.len() && (#[trigger] self.my_filters@[k]).mask()[j] && !self.my_filters@[k].kind().hit(text);
        let f = self.my_filters@[k];
        assert(mask_sound(f, self.my_rules@));
        assert(f.mask()[j]);
        assert(!self.my_rules@[j].accepts(text));
    }
}

/// The texts of the start probes.
pub open spec fn prefix_probe_texts() -> Seq<&'static str> {
    seq![
        "mozilla/5.0",
        "mozilla/4",
    ]
}

/// The texts of the contains probes.
pub open spec fn common_probe_texts() -> Seq<&'static str> {
    seq![
        "-",
        "0",
        "1",
        "2",
        "3",
        "4",
        "5",
        "6",
        "7",
        "8",
        "9",
        "profile",
        "player",
        "compatible",
        "android",
        "google",
        "tab",
        "transformer",
        "lenovo",
        "micro",
        "edge",
        "safari",
        "opera",
        "chrome",
        "firefox",
        "msie",
        "chromium",
        "cpu os ",
        "cpu iphone os ",
        "windows nt ",
        "mac os x ",
        "linux",
        "bsd",
        "windows phone",
        "iphone",
        "pad",
        "blackberry",
        "nokia",
        "alcatel",
        "ucbrowser",
        "mobile",
        "ie",
        "mercury",
        "samsung",
        "browser",
        "wow64",
        "silk",
        "lunascape",
        "crios",
        "epiphany",
        "konqueror",
        "version",
        "rv:",
        "build",
        "bot",
        "like gecko",
        "applewebkit",
        "trident",
        "mozilla",
        "windows nt 4",
        "windows nt 5.0",
        "windows nt 5.1",
        "windows nt 5.2",
        "windows nt 6.0",
        "windows nt 6.1",
        "windows nt 6.2",
        "windows nt 6.3",
        "windows nt 10.0",
        "android?4.0",
        "android?4.1",
        "android?4.2",
        "android?4.3",
        "android?4.4",
        "android?2.3",
        "android?5",
    ]
}

/// The start probes: an input that begins with neither rules out every rule
/// whose start begins with one of them.
pub fn filter_prefixes() -> (r: Vec<&'static str>)
    ensures
        r@ == prefix_probe_texts(),
        forall|k: int| 0 <= k < r@.len() ==> (#[trigger] r@[k])@.len() > 0,
{
    proof {
        reveal_strlit("mozilla/5.0");
        reveal_strlit("mozilla/4");
    }
    let r = vec!["mozilla/5.0", "mozilla/4"];
    proof {
        assert(r@ =~= prefix_probe_texts());
    }
    r
}

/// The contains probes: common tokens of User-Agent strings.
pub fn common_probes() -> (r: Vec<&'static str>)
    ensures
        r@ == common_probe_texts(),
        forall|k: int| 0 <= k < r@.len() ==> (#[trigger] r@[k])@.len() > 0,
{
    proof {
        reveal_strlit("-");
        reveal_strlit("0");
        reveal_strlit("1");
        reveal_strlit("2");
        reveal_strlit("3");
        reveal_strlit("4");
        reveal_strlit("5");
        reveal_strlit("6");
        reveal_strlit("7");
        reveal_strlit("8");
        reveal_strlit("9");
        reveal_strlit("profile");
        reveal_strlit("player");
        reveal_strlit("compatible");
        reveal_strlit("android");
        reveal_strlit("google");
        reveal_strlit("tab");
        reveal_strlit("transformer");
        reveal_strlit("lenovo");
        reveal_strlit("micro");
        reveal_strlit("edge");
        reveal_strlit("safari");
        reveal_strlit("opera");
        reveal_strlit("chrome");
        reveal_strlit("firefox");
        reveal_strlit("msie");
        reveal_strlit("chromium");
        reveal_strlit("cpu os ");
        reveal_strlit("cpu iphone os ");
        reveal_strlit("windows nt ");
        reveal_strlit("mac os x ");
        reveal_strlit("linux");
        reveal_strlit("bsd");
        reveal_strlit("windows phone");
        reveal_strlit("iphone");
        reveal_strlit("pad");
        reveal_strlit("blackberry");
        reveal_strlit("nokia");
        reveal_strlit("alcatel");
        reveal_strlit("ucbrowser");
        reveal_strlit("mobile");
        reveal_strlit("ie");
        reveal_strlit("mercury");
        reveal_strlit("samsung");
        reveal_strlit("browser");
        reveal_strlit("wow64");
        reveal_strlit("silk");
        reveal_strlit("lunascape");
        reveal_strlit("crios");
        reveal_strlit("epiphany");
        reveal_strlit("konqueror");
        reveal_strlit("version");
        reveal_strlit("rv:");
        reveal_strlit("build");
        reveal_strlit("bot");
        reveal_strlit("like gecko");
        reveal_strlit("applewebkit");
        reveal_strlit("trident");
        reveal_strlit("mozilla");
        reveal_strlit("windows nt 4");
        reveal_strlit("windows nt 5.0");
        reveal_strlit("windows nt 5.1");
        reveal_strlit("windows nt 5.2");
        reveal_strlit("windows nt 6.0");
        reveal_strlit("windows nt 6.1");
        reveal_strlit("windows nt 6.2");
        reveal_strlit("windows nt 6.3");
        reveal_strlit("windows nt 10.0");
        reveal_strlit("android?4.0");
        reveal_strlit("android?4.1");
        reveal_strlit("android?4.2");
        reveal_strlit("android?4.3");
        reveal_strlit("android?4.4");
        reveal_strlit("android?2.3");
        reveal_strlit("android?5");
    }
    let r = vec![
        "-", "0", "1", "2", "3", "4", "5", "6", "7", "8", "9", "profile", "player", "compatible", "android", "google", "tab", "transformer", "lenovo", "micro", "edge", "safari", "opera", "chrome", "firefox", "msie", "chromium", "cpu os ", "cpu iphone os ", "windows nt ", "mac os x ", "linux", "bsd", "windows phone", "iphone", "pad", "blackberry", "nokia", "alcatel", "ucbrowser", "mobile", "ie", "mercury", "samsung", "browser", "wow64", "silk", "lunascape", "crios", "epiphany", "konqueror", "version", "rv:", "build", "bot", "like gecko", "applewebkit", "trident", "mozilla", "windows nt 4", "windows nt 5.0", "windows nt 5.1", "windows nt 5.2", "windows nt 6.0", "windows nt 6.1", "windows nt 6.2", "windows nt 6.3", "windows nt 10.0", "android?4.0", "android?4.1", "android?4.2", "android?4.3", "android?4.4", "android?2.3", "android?5",
    ];
    proof {
        assert(r@ =~= common_probe_texts());
    }
    r
}

proof fn lemma_lits_extend(rules: Seq<Rule>, a: Seq<Seq<char>>, b: Seq<Seq<char>>)
    requires
        pool_extends(a, b),
        forall|i: int| 0 <= i < rules.len() ==> (#[trigger] rules[i]).drawn_from(a),
    ensures
        forall|i: int| 0 <= i < rules.len() ==> (#[trigger] rules[i]).drawn_from(b),
{
    assert forall|i: int| 0 <= i < rules.len() implies (#[trigger] rules[i]).drawn_from(b) by {
        let r = rules[i];
        assert forall|j: int| 0 <= j < r.lits().len() implies (#[trigger] r.lits()[j]).index() < b.len()
            && b[r.lits()[j].index() as int] == r.lits()[j]@ by {
            assert(r.drawn_from(a));
        }
    }
}

/// `filters` are the probes over `rules`, in order: the two start probes,
/// then the contains probes, each with the mask its kind gives.
pub open spec fn standard_filters(filters: Seq<Filter>, rules: Seq<Rule>) -> bool {
    &&& filters.len() == 77
    &&& forall|k: int|
        0 <= k < 2 ==> {
            &&& (#[trigger] filters[k]).kind() is Prefix
            &&& filters[k].kind().literal()@ == prefix_probe_texts()[k]@
            &&& filters[k].mask() == prefix_mask(rules, prefix_probe_texts()[k]@)
        }
    &&& forall|k: int|
        2 <= k < 77 ==> {
            &&& (#[trigger] filters[k]).kind() is Contains
            &&& filters[k].kind().literal()@ == common_probe_texts()[k - 2]@
            &&& filters[k].mask() == contains_mask(rules, common_probe_texts()[k - 2]@)
        }
}

/// What every probe of a parser satisfies: a non-empty literal of the pool,
/// a mask over all rules, and soundness.
pub open spec fn usable_filter(f: Filter, rules: Seq<Rule>, pool: Seq<Seq<char>>) -> bool {
    &&& f.kind().literal()@.len() > 0
    &&& lit_in_pool(f.kind().literal(), pool)
    &&& f.mask().len() == rules.len()
    &&& mask_sound(f, rules)
}

proof fn lemma_prefix_filter_sound(f: Filter, rules: Seq<Rule>, lit: Literal)
    requires
        f.kind() == FilterType::Prefix(lit),
        f.mask() == prefix_mask(rules, lit@),
    ensures
        mask_sound(f, rules),
{
    assert forall|i: int, text: Seq<char>|
        #![trigger f.mask()[i], rules[i].accepts(text)]
        0 <= i < rules.len() && f.mask()[i] && !f.kind().hit(text) implies !rules[i].accepts(text) by {
        lemma_prefix_probe_sound(rules[i], lit@, text);
    }
}

proof fn lemma_contains_filter_sound(f: Filter, rules: Seq<Rule>, lit: Literal)
    requires
        f.kind() == FilterType::Contains(lit),
        f.mask() == contains_mask(rules, lit@),
        forall|i: int| 0 <= i < rules.len() ==> (#[trigger] rules[i]).well_formed(),
    ensures
        mask_sound(f, rules),
{
    assert forall|i: int, text: Seq<char>|
        #![trigger f.mask()[i], rules[i].accepts(text)]
        0 <= i < rules.len() && f.mask()[i] && !f.kind().hit(text) implies !rules[i].accepts(text) by {
        assert forall|p: int| 0 <= p < text.len() implies !#[trigger] matches_at(lit@, text, p) by {
            if matches_at(lit@, text, p) {
                let kk = FilterType::Contains(lit);
                assert(kk.literal() == lit);
                assert(kk.hit(text));
            }
        }
        lemma_contains_probe_sound(rules[i], lit@, text);
    }
}

/// The probes over `rules`: the start probes, then the contains probes,
/// each with the mask of the rules that an input without it cannot match.
pub fn build_filters(my_rules: &Vec<Rule>, pool: &mut LiteralPool) -> (r: Vec<Filter>)
    requires
        old(pool).wf(),
        forall|i: int| 0 <= i < my_rules@.len() ==> (#[trigger] my_rules@[i]).well_formed(),
    ensures
        final(pool).wf(),
        pool_extends(old(pool)@, final(pool)@),
        standard_filters(r@, my_rules@),
        forall|k: int| 0 <= k < r@.len() ==> usable_filter(#[trigger] r@[k], my_rules@, final(pool)@),
{
    let ghost pool0 = pool@;
    let ghost rules = my_rules@;
    let mut result: Vec<Filter> = Vec::new();
    let prefixes = filter_prefixes();
    let mut j: usize = 0;
    while j < prefixes.len()
        invariant
            pool.wf(),
            pool_extends(pool0, pool@),
            rules == my_rules@,
            forall|i: int| 0 <= i < rules.len() ==> (#[trigger] rules[i]).well_formed(),
            prefixes@ == prefix_probe_texts(),
            forall|k: int| 0 <= k < prefixes@.len() ==> (#[trigger] prefixes@[k])@.len() > 0,
            j <= prefixes@.len(),
            result@.len() == j,
            forall|k: int| 0 <= k < result@.len() ==> usable_filter(#[trigger] result@[k], rules, pool@),
            forall|k: int|
                0 <= k < j ==> {
                    &&& (#[trigger] result@[k]).kind() is Prefix
                    &&& result@[k].kind().literal()@ == prefixes@[k]@
                    &&& result@[k].mask() == prefix_mask(rules, prefixes@[k]@)
                },
        decreases prefixes@.len() - j,
    {
        let pattern = prefixes[j];
        let ghost pb = pool@;
        let literal = pool.get_literal(pattern);
        let ghost lit = literal;
        proof {
            crate::rule::lemma_intern_extends(pb, pattern@, pool@, literal.index() as int);
        }
        let mask = create_prefix_masker(my_rules, pattern);
        let f = Filter::new(FilterType::Prefix(literal), mask);
        proof {
            lemma_prefix_filter_sound(f, rules, lit);
        }
        result.push(f);
        proof {
            assert forall|k: int| 0 <= k < result@.len() implies usable_filter(#[trigger] result@[k], rules, pool@) by {
                if k < j {
                    assert(usable_filter(result@[k], rules, pb));
                }
            }
        }
        j = j + 1;
    }
    let commons = common_probes();
    let mut j: usize = 0;
    while j < commons.len()
        invariant
            pool.wf(),
            pool_extends(pool0, pool@),
            rules == my_rules@,
            forall|i: int| 0 <= i < rules.len() ==> (#[trigger] rules[i]).well_formed(),
            commons@ == common_probe_texts(),
            forall|k: int| 0 <= k < commons@.len() ==> (#[trigger] commons@[k])@.len() > 0,
            j <= commons@.len(),
            result@.len() == 2 + j,
            forall|k: int| 0 <= k < result@.len() ==> usable_filter(#[trigger] result@[k], rules, pool@),
            forall|k: int|
                0 <= k < 2 ==> {
                    &&& (#[trigger] result@[k]).kind() is Prefix
                    &&& result@[k].kind().literal()@ == prefix_probe_texts()[k]@
                    &&& result@[k].mask() == prefix_mask(rules, prefix_probe_texts()[k]@)
                },
            forall|k: int|
                2 <= k < 2 + j ==> {
                    &&& (#[trigger] result@[k]).kind() is Contains
                    &&& result@[k].kind().literal()@ == commons@[k - 2]@
                    &&& result@[k].mask() == contains_mask(rules, commons@[k - 2]@)
                },
        decreases commons@.len() - j,
    {
        let pattern = commons[j];
        let ghost pb = pool@;
        let literal = pool.get_literal(pattern);
        let ghost lit = literal;
        proof {
            crate::rule::lemma_intern_extends(pb, pattern@, pool@, literal.index() as int);
        }
        let mask = create_contains_masker(my_rules, pattern);
        let f = Filter::new(FilterType::Contains(literal), mask);
        proof {
            lemma_contains_filter_sound(f, rules, lit);
        }
        result.push(f);
        proof {
            assert forall|k: int| 0 <= k < result@.len() implies usable_filter(#[trigger] result@[k], rules, pool@) by {
                if k < 2 + j {
                    assert(usable_filter(result@[k], rules, pb));
                }
            }
        }
        j = j + 1;
    }
    result
}

/// The catch-all rule: it accepts every input, and leads to the record in
/// which the browser fields say `Default Browser` and the others are unknown.
pub fn get_wild_card_rule(fields: &Vec<BrowsCapField>, capa_cache: &mut CapaCache) -> (r: Rule)
    requires
        old(capa_cache).wf(),
        old(capa_cache).fields() == fields@,
        ordered_fields(fields@),
    ensures
        final(capa_cache).wf(),
        final(capa_cache).fields() == old(capa_cache).fields(),
        pool_extends(old(capa_cache)@, final(capa_cache)@),
        is_catch_all(r),
        r.well_formed(),
        r.capabilities() < final(capa_cache)@.len(),
        final(capa_cache)@[r.capabilities() as int] == Seq::new(fields@.len(), |i: int| if fields@[i] == BROWSER || fields@[i] == BROWSER_TYPE {
            DEFAULT_BROWSER_VALUE@
        } else {
            UNKNOWN_BROWSCAP_VALUE@
        }),
{
    let capa = init_wild_card_capa(fields);
    let values = capa.values_vec();
    let ghost before = capa_cache@;
    let id = capa_cache.get_or_insert(values);
    proof {
        crate::rule::lemma_intern_extends(before, values_view(values@), capa_cache@, id as int);
        assert(capa.values() =~= Seq::new(fields@.len(), |i: int| if fields@[i] == BROWSER || fields@[i] == BROWSER_TYPE {
            DEFAULT_BROWSER_VALUE@
        } else {
            UNKNOWN_BROWSCAP_VALUE@
        }));
    }
    let r = Rule::new(None, Some(Vec::new()), None, 1, id);
    proof {
        assert(r.interior() == Some(Seq::<Literal>::empty()));
    }
    r
}

/// The value a row gives a field: its cell without surrounding white space,
/// or `Unknown` when the cell is missing or blank.
pub open spec fn cell_value(record: Seq<String>, field: BrowsCapField) -> Seq<char> {
    let col = ordinal_of(field) + 1;
    if col < record.len() && trimmed(record[col as int]@).len() > 0 {
        trimmed(record[col as int]@)
    } else {
        UNKNOWN_BROWSCAP_VALUE@
    }
}

/// The pattern of a row, normalised.
pub open spec fn row_pattern(record: Seq<String>) -> Seq<char> {
    collapse_stars(lower_seq(record[0]@))
}

/// The least number of columns a catalogue row must have.
pub const MIN_COLUMNS: usize = 48;

/// Whether a row yields a rule: it has enough columns, and its normalised
/// pattern is neither empty nor a bare `*`.
pub open spec fn row_accepted(record: Seq<String>) -> bool {
    record.len() >= MIN_COLUMNS && row_pattern(record).len() > 0 && row_pattern(record) != seq!['*']
}

/// `rule` is the rule of `record` under the projection `fields`, drawing on
/// the literal texts `pool` and the record values `records`.
pub open spec fn rule_of_row(
    rule: Rule,
    record: Seq<String>,
    fields: Seq<BrowsCapField>,
    pool: Seq<Seq<char>>,
    records: Seq<Seq<Seq<char>>>,
) -> bool {
    &&& rule.pattern_text() == row_pattern(record)
    &&& rule.size() == row_pattern(record).len()
    &&& rule.well_formed()
    &&& rule.drawn_from(pool)
    &&& rule.capabilities() < records.len()
    &&& records[rule.capabilities() as int] == Seq::new(fields.len(), |i: int| cell_value(record, fields[i]))
}

/// The rows of `records` that yield a rule, in order.
pub open spec fn accepted_rows(records: Seq<Vec<String>>) -> Seq<Seq<String>>
    decreases records.len(),
{
    if records.len() == 0 {
        Seq::empty()
    } else if row_accepted(records.last()@) {
        accepted_rows(records.drop_last()).push(records.last()@)
    } else {
        accepted_rows(records.drop_last())
    }
}

proof fn lemma_rule_of_row_extends(
    rule: Rule,
    record: Seq<String>,
    fields: Seq<BrowsCapField>,
    pool_a: Seq<Seq<char>>,
    recs_a: Seq<Seq<Seq<char>>>,
    pool_b: Seq<Seq<char>>,
    recs_b: Seq<Seq<Seq<char>>>,
)
    requires
        rule_of_row(rule, record, fields, pool_a, recs_a),
        pool_extends(pool_a, pool_b),
        pool_extends(recs_a, recs_b),
    ensures
        rule_of_row(rule, record, fields, pool_b, recs_b),
{
    assert forall|j: int| 0 <= j < rule.lits().len() implies (#[trigger] rule.lits()[j]).index() < pool_b.len()
        && pool_b[rule.lits()[j].index() as int] == rule.lits()[j]@ by {
        assert(rule.drawn_from(pool_a));
    }
}

/// Builds rules from catalogue rows, interning literals and capability
/// records along the way.
pub struct FileParser {
    fields: Vec<BrowsCapField>,
    rules: Vec<Rule>,
    capa_cache: CapaCache,
    literals: LiteralPool,
}

impl FileParser {
    pub closed spec fn fields(&self) -> Seq<BrowsCapField> {
        self.fields@
    }

    pub closed spec fn rules(&self) -> Seq<Rule> {
        self.rules@
    }

    /// The values of the records interned so far, by position.
    pub closed spec fn records(&self) -> Seq<Seq<Seq<char>>> {
        self.capa_cache@
    }

    /// The texts of the literals interned so far, by id.
    pub closed spec fn pool(&self) -> Seq<Seq<char>> {
        self.literals@
    }

    pub closed spec fn wf(&self) -> bool {
        &&& self.literals.wf()
        &&& self.capa_cache.wf()
        &&& self.capa_cache.fields() == self.fields@
        &&& ordered_fields(self.fields@)
        &&& forall|i: int| 0 <= i < self.rules@.len() ==> {
            &&& (#[trigger] self.rules@[i]).well_formed()
            &&& self.rules@[i].drawn_from(self.literals@)
            &&& self.rules@[i].capabilities() < self.capa_cache@.len()
        }
    }

    /// A builder whose projection is the requested fields together with the
    /// default ones.
    pub fn new(requested: Vec<BrowsCapField>) -> (r: FileParser)
        ensures
            r.wf(),
            r.rules().len() == 0,
            ordered_fields(r.fields()),
            forall|f: BrowsCapField| r.fields().contains(f) <==> (crate::field::default_field(f) || requested@.contains(f)),
    {
        let fields = merge_fields(requested);
        let capa_cache = CapaCache::new(&fields);
        FileParser { fields, rules: Vec::new(), capa_cache, literals: LiteralPool::new() }
    }

    /// The rule of one catalogue row: column 0 holds the pattern, the
    /// projected fields are read from their columns. The record is interned
    /// even when the pattern is refused.
    pub fn get_rule(&mut self, record: &Vec<String>) -> (r: Result<Rule, ParseError>)
        requires
            old(self).wf(),
        ensures
            final(self).wf(),
            final(self).fields() == old(self).fields(),
            final(self).rules() == old(self).rules(),
            pool_extends(old(self).records(), final(self).records()),
            r matches Err(ParseError::InvalidRecord) <==> record@.len() < MIN_COLUMNS,
            r matches Err(ParseError::EmptyPattern) <==> (record@.len() >= MIN_COLUMNS && row_pattern(record@).len() == 0),
            r matches Err(ParseError::FixedPattern) <==> (record@.len() >= MIN_COLUMNS && row_pattern(record@) == seq!['*']),
            r is Ok <==> row_accepted(record@),
            pool_extends(old(self).pool(), final(self).pool()),
            r matches Ok(rule) ==> rule_of_row(rule, record@, old(self).fields(), final(self).pool(), final(self).records()),
    {
        if record.len() < MIN_COLUMNS {
            return Err(ParseError::InvalidRecord);
        }
        let pattern = normalize_pattern(record[0].as_str());
        let mut values: Vec<&'static str> = Vec::new();
        let mut k: usize = 0;
        while k < self.fields.len()
            invariant
                k <= self.fields@.len(),
                values@.len() == k,
                forall|m: int| 0 <= m < k ==> (#[trigger] values@[m])@ == cell_value(record@, self.fields@[m]),
            decreases self.fields@.len() - k,
        {
            let col = self.fields[k].index();
            let value: &'static str = if col < record.len() {
                let t = trim_text(record[col].as_str());
                if t.is_empty() {
                    crate::capabilities::UNKNOWN_BROWSCAP_VALUE
                } else {
                    crate::capabilities::pool_str(t)
                }
            } else {
                crate::capabilities::UNKNOWN_BROWSCAP_VALUE
            };
            values.push(value);
            k = k + 1;
        }
        let ghost want = Seq::new(self.fields@.len(), |i: int| cell_value(record@, self.fields@[i]));
        proof {
            assert(values_view(values@) =~= want);
        }
        let ghost c0 = self.capa_cache@;
        let capa = self.capa_cache.get_or_insert(values);
        proof {
            crate::rule::lemma_intern_extends(c0, want, self.capa_cache@, capa as int);
        }
        let ghost pool_a = self.literals@;
        let rule = create_rule(&mut self.literals, pattern.as_str(), capa);
        proof {
            lemma_lits_extend(self.rules@, pool_a, self.literals@);
            if rule is Ok {
                assert(row_accepted(record@));
            }
        }
        rule
    }

    /// Adds the rule of one row; a row that yields none is passed over.
    pub fn add_record(&mut self, record: &Vec<String>)
        requires
            old(self).wf(),
        ensures
            final(self).wf(),
            final(self).fields() == old(self).fields(),
            pool_extends(old(self).pool(), final(self).pool()),
            pool_extends(old(self).records(), final(self).records()),
            row_accepted(record@) ==> {
                &&& final(self).rules().len() == old(self).rules().len() + 1
                &&& final(self).rules().drop_last() == old(self).rules()
                &&& rule_of_row(final(self).rules().last(), record@, old(self).fields(), final(self).pool(), final(self).records())
            },
            !row_accepted(record@) ==> final(self).rules() == old(self).rules(),
    {
        match self.get_rule(record) {
            Ok(rule) => {
                self.rules.push(rule);
                proof {
                    assert(self.rules@.drop_last() =~= old(self).rules@);
                }
            },
            Err(_) => {},
        }
    }

    /// Adds the rules of all rows, in order: one for each row that yields
    /// one.
    pub fn parse(&mut self, records: &Vec<Vec<String>>)
        requires
            old(self).wf(),
        ensures
            final(self).wf(),
            final(self).fields() == old(self).fields(),
            pool_extends(old(self).pool(), final(self).pool()),
            pool_extends(old(self).records(), final(self).records()),
            final(self).rules().len() == old(self).rules().len() + accepted_rows(records@).len(),
            final(self).rules().take(old(self).rules().len() as int) == old(self).rules(),
            forall|m: int|
                0 <= m < accepted_rows(records@).len() ==> rule_of_row(
                    #[trigger] final(self).rules()[old(self).rules().len() + m],
                    accepted_rows(records@)[m],
                    old(self).fields(),
                    final(self).pool(),
                    final(self).records(),
                ),
    {
        let ghost rules_before = self.rules@;
        let ghost n0 = rules_before.len();
        let mut i: usize = 0;
        proof {
            assert(records@.take(0) =~= Seq::<Vec<String>>::empty());
            assert(self.rules@.take(n0 as int) =~= rules_before);
        }
        while i < records.len()
            invariant
                self.wf(),
                self.fields() == old(self).fields(),
                rules_before == old(self).rules(),
                n0 == rules_before.len(),
                pool_extends(old(self).pool(), self.pool()),
                pool_extends(old(self).records(), self.records()),
                i <= records@.len(),
                self.rules().len() == n0 + accepted_rows(records@.take(i as int)).len(),
                self.rules().take(n0 as int) == rules_before,
                forall|m: int|
                    0 <= m < accepted_rows(records@.take(i as int)).len() ==> rule_of_row(
                        #[trigger] self.rules()[n0 + m],
                        accepted_rows(records@.take(i as int))[m],
                        old(self).fields(),
                        self.pool(),
                        self.records(),
                    ),
            decreases records@.len() - i,
        {
            let ghost before = self.rules();
            let ghost pool_a = self.pool();
            let ghost recs_a = self.records();
            let ghost acc = accepted_rows(records@.take(i as int));
            self.add_record(&records[i]);
            proof {
                let t1 = records@.take(i + 1);
                assert(t1.drop_last() =~= records@.take(i as int));
                assert(t1.last() == records@[i as int]);
                let acc1 = accepted_rows(t1);
                assert forall|m: int| 0 <= m < acc1.len() implies rule_of_row(
                    #[trigger] self.rules()[n0 + m],
                    acc1[m],
                    old(self).fields(),
                    self.pool(),
                    self.records(),
                ) by {
                    if m < acc.len() {
                        assert(acc1[m] == acc[m]);
                        assert(self.rules()[n0 + m] == before[n0 + m]) by {
                            if row_accepted(records@[i as int]@) {
                                assert(self.rules().drop_last()[n0 + m] == self.rules()[n0 + m]);
                            }
                        }
                        lemma_rule_of_row_extends(before[n0 + m], acc[m], old(self).fields(), pool_a, recs_a, self.pool(), self.records());
                    } else {
                        assert(row_accepted(records@[i as int]@));
                        assert(acc1[m] == records@[i as int]@);
                    }
                }
                assert(self.rules().take(n0 as int) =~= rules_before) by {
                    if row_accepted(records@[i as int]@) {
                        assert forall|k: int| 0 <= k < n0 implies self.rules()[k] == before[k] by {
                            assert(self.rules().drop_last()[k] == self.rules()[k]);
                        }
                    }
                }
            }
            i = i + 1;
        }
        proof {
            assert(records@.take(i as int) =~= records@);
        }
    }
}

/// The parser over the rules a builder has gathered.
pub fn create_agent_parser(file_parser: FileParser) -> (r: UserAgentParser)
    requires
        file_parser.wf(),
    ensures
        r.wf(),
        r.rules().len() == file_parser.rules().len() + 1,
        permutes(r.rules().drop_last(), file_parser.rules()),
        sorted_rules(r.rules().drop_last()),
        is_catch_all(r.rules().last()),
        standard_filters(r.filters(), r.rules()),
        r.fields() == file_parser.fields(),
        pool_extends(file_parser.records(), r.records()),
{
    UserAgentParser::new(file_parser.rules, file_parser.literals, file_parser.capa_cache)
}

} // verus!
