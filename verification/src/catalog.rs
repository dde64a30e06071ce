//! Insertion-ordered, name-keyed catalogs, their aggregation from several
//! sources, and the process-lifetime result cache.
//!
//! A catalog maps entity names to entity records.  Merging follows the
//! precedence rule of the catalog pipeline: a later source overwrites the
//! value of a colliding name, but the name keeps the position given to it
//! by the earliest source that defined it.

use vstd::prelude::*;

verus! {

/// The abstract content of a catalog: entity names with their records,
/// in display order.
pub type CatalogSeq<T> = Seq<(Seq<char>, T)>;

/// Position of the first entry named `k`, or `-1` when no entry is.
pub open spec fn first_index_of<T>(s: CatalogSeq<T>, k: Seq<char>) -> int
    decreases s.len(),
{
    if s.len() == 0 {
        -1
    } else if s[0].0 == k {
        0
    } else {
        let r = first_index_of(s.drop_first(), k);
        if r < 0 {
            -1
        } else {
            r + 1
        }
    }
}

/// Whether some entry is named `k`.
pub open spec fn contains_key<T>(s: CatalogSeq<T>, k: Seq<char>) -> bool {
    exists|i: int| 0 <= i < s.len() && s[i].0 == k
}

/// `first_index_of` finds exactly the first entry named `k`.
pub proof fn lemma_first_index_of<T>(s: CatalogSeq<T>, k: Seq<char>)
    ensures
        first_index_of(s, k) >= 0 <==> contains_key(s, k),
        first_index_of(s, k) >= 0 ==> {
            let r = first_index_of(s, k);
            &&& r < s.len()
            &&& s[r].0 == k
            &&& forall|j: int| 0 <= j < r ==> s[j].0 != k
        },
    decreases s.len(),
{
    if s.len() > 0 {
        lemma_first_index_of(s.drop_first(), k);
        if s[0].0 != k {
            let r = first_index_of(s.drop_first(), k);
            if r >= 0 {
                assert(s[r + 1].0 == s.drop_first()[r].0);
                assert(forall|j: int|
                    1 <= j < r + 1 ==> s[j].0 == s.drop_first()[j - 1].0 && s.drop_first()[j
                        - 1].0 != k);
            } else {
                assert(forall|i: int|
                    1 <= i < s.len() ==> s[i].0 == s.drop_first()[i - 1].0 && s.drop_first()[i
                        - 1].0 != k);
            }
        }
    }
}

/// The content after `(k, v)` arrives: an existing name keeps its position
/// and takes the new value; a new name goes to the end.
pub open spec fn spec_insert<T>(s: CatalogSeq<T>, k: Seq<char>, v: T) -> CatalogSeq<T> {
    let i = first_index_of(s, k);
    if i >= 0 {
        s.update(i, (k, v))
    } else {
        s.push((k, v))
    }
}

/// The content after every entry of `b` arrives in order.
pub open spec fn spec_merge<T>(a: CatalogSeq<T>, b: CatalogSeq<T>) -> CatalogSeq<T>
    decreases b.len(),
{
    if b.len() == 0 {
        a
    } else {
        spec_merge(spec_insert(a, b[0].0, b[0].1), b.drop_first())
    }
}

/// No two entries share a name.
pub open spec fn unique_keys<T>(s: CatalogSeq<T>) -> bool {
    forall|i: int, j: int| 0 <= i < j < s.len() ==> s[i].0 != s[j].0
}

/// Position of the last entry named `k`, or `-1` when no entry is.
pub open spec fn last_index_of<T>(s: CatalogSeq<T>, k: Seq<char>) -> int
    decreases s.len(),
{
    if s.len() == 0 {
        -1
    } else {
        let r = last_index_of(s.drop_first(), k);
        if r >= 0 {
            r + 1
        } else if s[0].0 == k {
            0
        } else {
            -1
        }
    }
}

/// `last_index_of` finds exactly the last entry named `k`.
pub proof fn lemma_last_index_of<T>(s: CatalogSeq<T>, k: Seq<char>)
    ensures
        last_index_of(s, k) >= 0 <==> contains_key(s, k),
        last_index_of(s, k) >= 0 ==> {
            let r = last_index_of(s, k);
            &&& r < s.len()
            &&& s[r].0 == k
            &&& forall|j: int| r < j < s.len() ==> s[j].0 != k
        },
    decreases s.len(),
{
    if s.len() > 0 {
        lemma_last_index_of(s.drop_first(), k);
        let r = last_index_of(s.drop_first(), k);
        assert(forall|j: int| 1 <= j < s.len() ==> s[j] == s.drop_first()[j - 1]);
        if r < 0 && s[0].0 != k {
            assert(forall|i: int| 0 <= i < s.len() ==> s[i].0 != k);
        }
    }
}

/// When index `i` holds `k` and no earlier index does, `i` is the first index.
pub proof fn lemma_first_index_is<T>(s: CatalogSeq<T>, k: Seq<char>, i: int)
    requires
        0 <= i < s.len(),
        s[i].0 == k,
        forall|j: int| 0 <= j < i ==> s[j].0 != k,
    ensures
        first_index_of(s, k) == i,
{
    lemma_first_index_of(s, k);
}

/// Inserting `(k, v)` keeps every other entry in place: an old name keeps
/// its position and record, `k` carries `v`, a fresh `k` stands at the end.
pub proof fn lemma_insert_props<T>(s: CatalogSeq<T>, k: Seq<char>, v: T)
    requires
        unique_keys(s),
    ensures
        ({
            let t = spec_insert(s, k, v);
            &&& unique_keys(t)
            &&& t.len() == if contains_key(s, k) {
                s.len() as int
            } else {
                s.len() + 1 as int
            }
            &&& forall|k2: Seq<char>|
                #[trigger] contains_key(t, k2) <==> contains_key(s, k2) || k2 == k
            &&& forall|k2: Seq<char>|
                contains_key(s, k2) ==> #[trigger] first_index_of(t, k2) == first_index_of(s, k2)
            &&& !contains_key(s, k) ==> first_index_of(t, k) == s.len()
            &&& t[first_index_of(t, k)].1 == v
            &&& forall|k2: Seq<char>|
                contains_key(s, k2) && k2 != k ==> t[#[trigger] first_index_of(t, k2)] == s[
                    first_index_of(s, k2)]
        }),
{
    let t = spec_insert(s, k, v);
    lemma_first_index_of(s, k);
    if contains_key(s, k) {
        let i = first_index_of(s, k);
        assert(t =~= s.update(i, (k, v)));
        assert(forall|j: int| 0 <= j < s.len() ==> t[j].0 == s[j].0);
        assert forall|k2: Seq<char>| contains_key(s, k2) implies #[trigger] first_index_of(
            t,
            k2,
        ) == first_index_of(s, k2) by {
            lemma_first_index_of(s, k2);
            lemma_first_index_is(t, k2, first_index_of(s, k2));
        }
        assert forall|k2: Seq<char>| #[trigger] contains_key(t, k2) <==> contains_key(s, k2) || k2
            == k by {
            if contains_key(t, k2) {
                let w = choose|w: int| 0 <= w < t.len() && t[w].0 == k2;
                assert(s[w].0 == k2);
            }
            if contains_key(s, k2) {
                let w = choose|w: int| 0 <= w < s.len() && s[w].0 == k2;
                assert(t[w].0 == k2);
            }
            if k2 == k {
                assert(t[i].0 == k);
            }
        }
        lemma_first_index_is(t, k, i);
        assert forall|k2: Seq<char>| contains_key(s, k2) && k2 != k implies t[#[trigger] first_index_of(
            t,
            k2,
        )] == s[first_index_of(s, k2)] by {
            lemma_first_index_of(s, k2);
            let f = first_index_of(s, k2);
            assert(s[f].0 == k2);
            assert(f != i);
            assert(t[f] == s[f]);
        }
    } else {
        assert(t =~= s.push((k, v)));
        assert forall|k2: Seq<char>| contains_key(s, k2) implies #[trigger] first_index_of(
            t,
            k2,
        ) == first_index_of(s, k2) by {
            lemma_first_index_of(s, k2);
            lemma_first_index_is(t, k2, first_index_of(s, k2));
        }
        lemma_first_index_is(t, k, s.len() as int);
        assert forall|k2: Seq<char>| #[trigger] contains_key(t, k2) <==> contains_key(s, k2) || k2
            == k by {
            if contains_key(t, k2) {
                let w = choose|w: int| 0 <= w < t.len() && t[w].0 == k2;
                if w < s.len() {
                    assert(s[w].0 == k2);
                }
            }
            if contains_key(s, k2) {
                let w = choose|w: int| 0 <= w < s.len() && s[w].0 == k2;
                assert(t[w].0 == k2);
            }
            assert(t[s.len() as int].0 == k);
        }
        assert forall|k2: Seq<char>| contains_key(s, k2) && k2 != k implies t[#[trigger] first_index_of(
            t,
            k2,
        )] == s[first_index_of(s, k2)] by {
            lemma_first_index_of(s, k2);
            let f = first_index_of(s, k2);
            assert(s[f].0 == k2);
            assert(t[f] == s[f]);
        }
    }
}

/// What merging settles for every name: a name of `a` keeps `a`'s display
/// position; the record is the one of the name's last occurrence in `b`,
/// or `a`'s own when `b` never names it.
pub proof fn lemma_merge_props<T>(a: CatalogSeq<T>, b: CatalogSeq<T>)
    requires
        unique_keys(a),
    ensures
        ({
            let m = spec_merge(a, b);
            &&& unique_keys(m)
            &&& forall|k: Seq<char>|
                #[trigger] contains_key(m, k) <==> contains_key(a, k) || contains_key(b, k)
            &&& forall|k: Seq<char>|
                contains_key(a, k) ==> #[trigger] first_index_of(m, k) == first_index_of(a, k)
            &&& forall|k: Seq<char>|
                contains_key(a, k) || contains_key(b, k) ==> m[#[trigger] first_index_of(
                    m,
                    k,
                )].1 == if contains_key(b, k) {
                    b[last_index_of(b, k)].1
                } else {
                    a[first_index_of(a, k)].1
                }
        }),
    decreases b.len(),
{
    let m = spec_merge(a, b);
    if b.len() == 0 {
        assert forall|k: Seq<char>| contains_key(b, k) implies false by {}
    } else {
        let k0 = b[0].0;
        let v0 = b[0].1;
        let ins = spec_insert(a, k0, v0);
        let bt = b.drop_first();
        lemma_insert_props(a, k0, v0);
        lemma_merge_props(ins, bt);
        assert(forall|j: int| 1 <= j < b.len() ==> b[j] == bt[j - 1]);
        assert forall|k: Seq<char>| #[trigger] contains_key(b, k) implies contains_key(bt, k) || k
            == k0 by {
            let w = choose|w: int| 0 <= w < b.len() && b[w].0 == k;
            if w >= 1 {
                assert(bt[w - 1].0 == k);
            }
        }
        assert(forall|k: Seq<char>|
            #[trigger] contains_key(bt, k) ==> contains_key(b, k));
        assert(contains_key(b, k0));
        assert forall|k: Seq<char>|
            contains_key(a, k) || contains_key(b, k) implies m[#[trigger] first_index_of(
            m,
            k,
        )].1 == if contains_key(b, k) {
            b[last_index_of(b, k)].1
        } else {
            a[first_index_of(a, k)].1
        } by {
            lemma_last_index_of(bt, k);
            lemma_last_index_of(b, k);
            if contains_key(bt, k) {
                assert(last_index_of(b, k) == last_index_of(bt, k) + 1);
                assert(b[last_index_of(b, k)] == bt[last_index_of(bt, k)]);
            } else if k == k0 {
                assert(last_index_of(b, k) == 0);
                assert(ins[first_index_of(ins, k)].1 == v0);
            } else {
                assert(!contains_key(b, k));
                assert(contains_key(a, k));
                assert(ins[first_index_of(ins, k)] == a[first_index_of(a, k)]);
            }
        }
    }
}

/// A name-keyed collection of entity records that remembers the order in
/// which names first appeared.
#[derive(Debug)]
pub struct Catalog<T> {
    entries: Vec<(String, T)>,
}

impl<T> Catalog<T> {
    /// The catalog's content, in display order.
    pub closed spec fn view(&self) -> CatalogSeq<T> {
        self.entries@.map_values(|p: (String, T)| (p.0@, p.1))
    }

    /// Internal invariant: names are unique.
    pub open spec fn wf(&self) -> bool {
        unique_keys(self@)
    }

    /// The empty catalog.
    pub fn new() -> (r: Catalog<T>)
        ensures
            r@ =~= Seq::<(Seq<char>, T)>::empty(),
            r.wf(),
    {
        Catalog { entries: Vec::new() }
    }

    /// Number of entries.
    pub fn len(&self) -> (r: usize)
        ensures
            r == self@.len(),
    {
        self.entries.len()
    }

    /// The name at display position `i`.
    pub fn key_at(&self, i: usize) -> (r: &String)
        requires
            i < self@.len(),
        ensures
            r@ == self@[i as int].0,
    {
        &self.entries[i].0
    }

    /// The record at display position `i`.
    pub fn value_at(&self, i: usize) -> (r: &T)
        requires
            i < self@.len(),
        ensures
            *r == self@[i as int].1,
    {
        &self.entries[i].1
    }

    /// Display position of `name`, when some entry carries it.
    pub fn find(&self, name: &String) -> (r: Option<usize>)
        ensures
            match r {
                Some(i) => first_index_of(self@, name@) == i,
                None => !contains_key(self@, name@),
            },
    {
        proof {
            lemma_first_index_of(self@, name@);
        }
        let n = self.entries.len();
        let mut i: usize = 0;
        while i < n
            invariant
                n == self@.len(),
                i <= n,
                forall|j: int| 0 <= j < i ==> self@[j].0 != name@,
            decreases n - i,
        {
            if self.entries[i].0.eq(name) {
                proof {
                    lemma_first_index_of(self@, name@);
                    let r = first_index_of(self@, name@);
                    assert(self@[i as int].0 == name@);
                    assert(r >= 0);
                    assert(!(r < i) && !(i < r));
                }
                return Some(i);
            }
            i += 1;
        }
        return None;
    }

    /// The record named `name`, when there is one.
    pub fn get(&self, name: &String) -> (r: Option<&T>)
        ensures
            match r {
                Some(v) => contains_key(self@, name@) && *v == self@[first_index_of(
                    self@,
                    name@,
                )].1,
                None => !contains_key(self@, name@),
            },
    {
        proof {
            lemma_first_index_of(self@, name@);
        }
        match self.find(name) {
            Some(i) => Some(&self.entries[i].1),
            None => None,
        }
    }

    /// Record `(name, v)`: an already-known name keeps its display position
    /// and takes the new record, a new name is appended.
    pub fn insert(&mut self, name: String, v: T)
        requires
            old(self).wf(),
        ensures
            final(self).wf(),
            final(self)@ =~= spec_insert(old(self)@, name@, v),
    {
        proof {
            lemma_first_index_of(self@, name@);
        }
        let ghost s_old = self@;
        match self.find(&name) {
            Some(i) => {
                let _ = self.entries.remove(i);
                self.entries.insert(i, (name, v));
                proof {
                    assert(self@.len() == s_old.len());
                    assert(forall|j: int|
                        0 <= j < s_old.len() && j != i ==> self@[j] == s_old[j]);
                    assert(self@[i as int] == (name@, v));
                    assert(self@ =~= s_old.update(i as int, (name@, v)));
                    assert(s_old[i as int].0 == name@);
                }
            },
            None => {
                self.entries.push((name, v));
                proof {
                    assert(self@ =~= s_old.push((name@, v)));
                }
            },
        }
    }

    /// A catalog holding the given entries in the given order, merged as
    /// if they arrived one by one.
    pub fn from_entries(entries: Vec<(String, T)>) -> (r: Catalog<T>)
        ensures
            r.wf(),
            r@ =~= spec_merge(
                Seq::<(Seq<char>, T)>::empty(),
                entries@.map_values(|p: (String, T)| (p.0@, p.1)),
            ),
    {
        let mut r = Catalog::new();
        r.merge(Catalog { entries });
        r
    }

    /// Merge `other` into `self`, entry by entry in `other`'s order.
    pub fn merge(&mut self, other: Catalog<T>)
        requires
            old(self).wf(),
        ensures
            final(self).wf(),
            final(self)@ =~= spec_merge(old(self)@, other@),
    {
        let mut rest = other.entries;
        while rest.len() > 0
            invariant
                self.wf(),
                spec_merge(self@, rest@.map_values(|p: (String, T)| (p.0@, p.1))) =~= spec_merge(
                    old(self)@,
                    other@,
                ),
            decreases rest.len(),
        {
            let ghost prev = rest@.map_values(|p: (String, T)| (p.0@, p.1));
            let (k, v) = rest.remove(0);
            proof {
                assert(rest@.map_values(|p: (String, T)| (p.0@, p.1)) =~= prev.drop_first());
                assert(prev[0] == (k@, v));
            }
            self.insert(k, v);
        }
        proof {
            assert(rest@.map_values(|p: (String, T)| (p.0@, p.1)) =~= Seq::<(
                Seq<char>,
                T,
            )>::empty());
        }
    }
}

/// What loading one declared catalog source produced: the fetch failed, the
/// fetched text did not parse, or a list of entries came out of it.
pub enum SourceLoad<T> {
    FetchFailed,
    ParseFailed,
    Parsed(Vec<(String, T)>),
}

/// The entries a source contributes: none when it failed.
pub open spec fn load_entries<T>(l: SourceLoad<T>) -> Option<CatalogSeq<T>> {
    match l {
        SourceLoad::Parsed(v) => Some(v@.map_values(|p: (String, T)| (p.0@, p.1))),
        _ => None,
    }
}

/// Folding the sources into an accumulator, skipping the failed ones.
pub open spec fn spec_aggregate<T>(acc: CatalogSeq<T>, loads: Seq<SourceLoad<T>>) -> CatalogSeq<T>
    decreases loads.len(),
{
    if loads.len() == 0 {
        acc
    } else {
        let step = match load_entries(loads[0]) {
            Some(e) => spec_merge(acc, e),
            None => acc,
        };
        spec_aggregate(step, loads.drop_first())
    }
}

/// Build one catalog out of the outcome of every declared source, in
/// declared order.  Failed sources are skipped; the call itself never
/// fails, and all sources failing gives the empty catalog.
pub fn aggregate<T>(loads: Vec<SourceLoad<T>>) -> (r: Catalog<T>)
    ensures
        r.wf(),
        r@ =~= spec_aggregate(Seq::<(Seq<char>, T)>::empty(), loads@),
{
    let ghost all = loads@;
    let mut result = Catalog::new();
    let mut rest = loads;
    while rest.len() > 0
        invariant
            result.wf(),
            spec_aggregate(result@, rest@) =~= spec_aggregate(
                Seq::<(Seq<char>, T)>::empty(),
                all,
            ),
        decreases rest.len(),
    {
        let ghost prev = rest@;
        let l = rest.remove(0);
        proof {
            assert(rest@ =~= prev.drop_first());
            assert(prev[0] == l);
        }
        match l {
            SourceLoad::FetchFailed => {},
            SourceLoad::ParseFailed => {},
            SourceLoad::Parsed(entries) => {
                result.merge(Catalog { entries });
            },
        }
    }
    result
}

/// A source that failed to fetch or to parse contributes nothing: the
/// aggregate equals the aggregate of the successfully parsed sources alone.
pub proof fn lemma_failed_sources_ignored<T>(acc: CatalogSeq<T>, loads: Seq<SourceLoad<T>>)
    ensures
        spec_aggregate(acc, loads) == spec_aggregate(
            acc,
            loads.filter(|l: SourceLoad<T>| load_entries(l) is Some),
        ),
    decreases loads.len(),
{
    let pred = |l: SourceLoad<T>| load_entries(l) is Some;
    if loads.len() == 0 {
        assert(loads.filter(pred) =~= loads);
    } else {
        let last = loads.last();
        let front = loads.drop_last();
        lemma_aggregate_push(acc, front, last);
        lemma_failed_sources_ignored(acc, front);
        assert(loads =~= front.push(last));
        reveal_with_fuel(Seq::filter, 2);
        if pred(last) {
            assert(loads.filter(pred) =~= front.filter(pred).push(last));
            lemma_aggregate_push(acc, front.filter(pred), last);
        } else {
            assert(loads.filter(pred) =~= front.filter(pred));
        }
    }
}

/// Unrolling `spec_aggregate` at the back.
pub proof fn lemma_aggregate_push<T>(
    acc: CatalogSeq<T>,
    loads: Seq<SourceLoad<T>>,
    l: SourceLoad<T>,
)
    ensures
        spec_aggregate(acc, loads.push(l)) == match load_entries(l) {
            Some(e) => spec_merge(spec_aggregate(acc, loads), e),
            None => spec_aggregate(acc, loads),
        },
    decreases loads.len(),
{
    let lifted = match load_entries(l) {
        Some(e) => spec_merge(spec_aggregate(acc, loads), e),
        None => spec_aggregate(acc, loads),
    };
    if loads.len() == 0 {
        assert(spec_aggregate(acc, loads) == acc);
        assert(loads.push(l).drop_first() =~= Seq::<SourceLoad<T>>::empty());
        assert(loads.push(l)[0] == l);
        let step = match load_entries(l) {
            Some(e) => spec_merge(acc, e),
            None => acc,
        };
        assert(spec_aggregate(acc, loads.push(l)) == spec_aggregate(
            step,
            loads.push(l).drop_first(),
        ));
        assert(spec_aggregate(step, Seq::<SourceLoad<T>>::empty()) == step);
    } else {
        let step = match load_entries(loads[0]) {
            Some(e) => spec_merge(acc, e),
            None => acc,
        };
        assert(loads.push(l)[0] == loads[0]);
        assert(loads.push(l).drop_first() =~= loads.drop_first().push(l));
        assert(spec_aggregate(acc, loads.push(l)) == spec_aggregate(
            step,
            loads.drop_first().push(l),
        ));
        assert(spec_aggregate(acc, loads) == spec_aggregate(step, loads.drop_first()));
        lemma_aggregate_push(step, loads.drop_first(), l);
    }
    assert(spec_aggregate(acc, loads.push(l)) == lifted);
}

/// The process-lifetime memo for one catalog kind: the aggregation runs at
/// most once, and every later resolution reads the stored result.  `fill`
/// demands a cache that was never filled, so a driver can only run the
/// fetch/parse pipeline for a kind whose `needs_fetch` still answers true.
pub struct CatalogCache<T> {
    value: Option<Catalog<T>>,
    fills: Ghost<nat>,
}

impl<T> CatalogCache<T> {
    /// A catalog is stored exactly when the pipeline ran once, and it
    /// never runs twice.
    #[verifier::type_invariant]
    closed spec fn inv(&self) -> bool {
        self.fills@ <= 1 && (self.value is Some <==> self.fills@ == 1)
    }

    /// Whether a catalog is stored.
    pub closed spec fn is_filled(&self) -> bool {
        self.value is Some
    }

    /// The stored catalog.
    pub closed spec fn stored(&self) -> Catalog<T> {
        self.value->Some_0
    }

    /// How many times the aggregation pipeline ran for this cache.
    pub closed spec fn times_filled(&self) -> nat {
        self.fills@
    }

    /// A cache holding nothing yet: the pipeline never ran.
    pub fn new() -> (r: CatalogCache<T>)
        ensures
            !r.is_filled(),
            r.times_filled() == 0,
    {
        CatalogCache { value: None, fills: Ghost(0) }
    }

    /// Whether the aggregation still has to run for this kind: true
    /// exactly while the pipeline never ran.
    pub fn needs_fetch(&self) -> (r: bool)
        ensures
            r == !self.is_filled(),
            r <==> self.times_filled() == 0,
            !r <==> self.times_filled() == 1,
    {
        proof {
            use_type_invariant(&*self);
        }
        self.value.is_none()
    }

    /// Store the aggregated catalog; only possible while nothing is
    /// stored, so the pipeline behind it can only run on a cache whose
    /// `needs_fetch` still answered true.
    pub fn fill(&mut self, c: Catalog<T>)
        requires
            !old(self).is_filled(),
        ensures
            final(self).is_filled(),
            final(self).stored() == c,
            final(self).times_filled() == old(self).times_filled() + 1,
    {
        proof {
            use_type_invariant(&*self);
        }
        let ghost prev = self.fills@;
        *self = CatalogCache { value: Some(c), fills: Ghost(prev + 1) };
    }

    /// Read the stored catalog.  Whoever reads it holds a cache whose
    /// pipeline ran exactly once, however the cache was driven.
    pub fn get(&self) -> (r: &Catalog<T>)
        requires
            self.is_filled(),
        ensures
            *r == self.stored(),
            self.times_filled() == 1,
    {
        proof {
            use_type_invariant(&*self);
        }
        match &self.value {
            Some(c) => c,
            None => unreached(),
        }
    }
}

} // verus!
