//! Per-day usage counters: for each calendar date, field and observed value,
//! the total number of requests and the approximate number of distinct
//! clients, with an associative and commutative merge.
use vstd::prelude::*;
use vstd::set_lib::lemma_len_union;
use vstd::std_specs::hash::group_hash_axioms;
use std::collections::HashSet;
use crate::platform::str_eq;

verus! {

broadcast use group_hash_axioms;

/// The closed set of fields that statistics are kept for.
#[allow(non_camel_case_types)]
#[derive(Debug, Clone, Copy, PartialEq, Eq, Structural)]
pub enum FieldName {
    tls_cipher,
    server_region,
    rubygems,
    bundler,
    ruby,
    platform,
    ci,
    gemstash,
}

/// The identity a client is counted under: its address as an IPv6 number,
/// an IPv4 address taking its IPv4-mapped IPv6 form.
pub type UserIdentifier = u128;

/// The model of a counter: how many occurrences were counted (saturating at
/// `usize::MAX`) and the identities seen. `unique` is the number of
/// identities.
pub struct CounterView {
    pub total: nat,
    pub index: Set<UserIdentifier>,
}

pub open spec fn sat_add(a: nat, b: nat) -> nat {
    if a + b > usize::MAX {
        usize::MAX as nat
    } else {
        a + b
    }
}

pub open spec fn empty_counter() -> CounterView {
    CounterView { total: 0, index: Set::empty() }
}

/// One more occurrence, by client `key`.
pub open spec fn counter_bump(c: CounterView, key: UserIdentifier) -> CounterView {
    CounterView { total: sat_add(c.total, 1), index: c.index.insert(key) }
}

/// Two counters taken together.
pub open spec fn counter_merge(a: CounterView, b: CounterView) -> CounterView {
    CounterView { total: sat_add(a.total, b.total), index: a.index.union(b.index) }
}

/// Counts occurrences of one value: the total, and the distinct clients.
pub struct ValueUniqueCounter {
    total: usize,
    unique: usize,
    index: HashSet<UserIdentifier>,
    members: Vec<UserIdentifier>,
}

impl View for ValueUniqueCounter {
    type V = CounterView;

    closed spec fn view(&self) -> CounterView {
        CounterView { total: self.total as nat, index: self.index@ }
    }
}

impl ValueUniqueCounter {
    /// `unique` is the size of the identity set, which never exceeds `total`.
    pub closed spec fn wf(&self) -> bool {
        &&& self.index@.finite()
        &&& self.unique == self.index@.len()
        &&& self.unique <= self.total
        &&& self.members@.to_set() == self.index@
    }

    pub fn new() -> (r: Self)
        ensures
            r.wf(),
            r@ == empty_counter(),
    {
        let r = ValueUniqueCounter { total: 0, unique: 0, index: HashSet::new(), members: Vec::new() };
        assert(r.members@.to_set() =~= Set::empty());
        r
    }

    pub fn total(&self) -> (r: usize)
        ensures
            r == self@.total,
    {
        self.total
    }

    pub fn unique(&self) -> (r: usize)
        requires
            self.wf(),
        ensures
            r == self@.index.len(),
            r <= self@.total,
    {
        self.unique
    }

    /// Counts one more occurrence, by client `key`. Neither `total` nor
    /// `unique` goes down, and `unique <= total` still holds.
    pub fn increment(&mut self, key: UserIdentifier)
        requires
            old(self).wf(),
        ensures
            final(self).wf(),
            final(self)@ == counter_bump(old(self)@, key),
            old(self)@.total <= final(self)@.total,
            old(self)@.index.len() <= final(self)@.index.len(),
    {
        self.total = if self.total < usize::MAX {
            self.total + 1
        } else {
            usize::MAX
        };
        let fresh = self.index.insert(key);
        if fresh {
            let ghost m = self.members@;
            self.members.push(key);
            proof {
                assert(self.members@.to_set() =~= m.to_set().insert(key)) by {
                    assert forall|x| #[trigger] self.members@.contains(x) implies m.contains(x) || x == key by {
                        let j = choose|j: int| 0 <= j < self.members@.len() && self.members@[j] == x;
                        if j < m.len() {
                            assert(m[j] == x);
                        }
                    }
                    assert forall|x| m.contains(x) implies #[trigger] self.members@.contains(x) by {
                        let j = choose|j: int| 0 <= j < m.len() && m[j] == x;
                        assert(self.members@[j] == x);
                    }
                    assert(self.members@.last() == key);
                }
            }
        } else {
            assert(self.index@ =~= old(self).index@.insert(key));
        }
        self.unique = self.index.len();
        proof {
            vstd::set::axiom_set_insert_len(old(self).index@, key);
            vstd::set::axiom_set_insert_finite(old(self).index@, key);
            assert(self.index@.finite());
            assert(self.unique == self.index@.len());
            assert(self.members@.to_set() == self.index@);
            assert(self.unique <= self.total);
        }
    }

    /// Adds `other`'s occurrences and clients to this counter. Neither
    /// `total` nor `unique` goes down, and `unique <= total` still holds.
    pub fn combine(&mut self, other: &ValueUniqueCounter)
        requires
            old(self).wf(),
            other.wf(),
        ensures
            final(self).wf(),
            final(self)@ == counter_merge(old(self)@, other@),
            old(self)@.total <= final(self)@.total,
            old(self)@.index.len() <= final(self)@.index.len(),
    {
        let ghost start = self.index@;
        let n = other.members.len();
        let mut i: usize = 0;
        while i < n
            invariant
                n == other.members@.len(),
                i <= n,
                self.index@ == start.union(other.members@.take(i as int).to_set()),
                self.members@.to_set() == self.index@,
                start.finite(),
                self.total == old(self).total,
            decreases n - i,
        {
            let k = other.members[i];
            let fresh = self.index.insert(k);
            if fresh {
                let ghost m = self.members@;
                self.members.push(k);
                proof {
                    assert(self.members@.to_set() =~= m.to_set().insert(k)) by {
                        assert(forall|x| m.to_set().contains(x) ==> m.contains(x));
                        assert(self.members@.last() == k);
                        assert forall|x| #[trigger] self.members@.contains(x) implies m.contains(x) || x == k by {
                            let j = choose|j: int| 0 <= j < self.members@.len() && self.members@[j] == x;
                            if j < m.len() {
                                assert(m[j] == x);
                            }
                        }
                        assert forall|x| m.contains(x) implies #[trigger] self.members@.contains(x) by {
                            let j = choose|j: int| 0 <= j < m.len() && m[j] == x;
                            assert(self.members@[j] == x);
                        }
                    }
                }
            }
            proof {
                let t = other.members@.take(i as int);
                assert(other.members@.take(i + 1) =~= t.push(k));
                assert(t.push(k).to_set() =~= t.to_set().insert(k)) by {
                    assert forall|x| #[trigger] t.push(k).contains(x) implies t.contains(x) || x == k by {
                        let j = choose|j: int| 0 <= j < t.push(k).len() && t.push(k)[j] == x;
                        if j < t.len() {
                            assert(t[j] == x);
                        }
                    }
                    assert forall|x| t.contains(x) implies #[trigger] t.push(k).contains(x) by {
                        let j = choose|j: int| 0 <= j < t.len() && t[j] == x;
                        assert(t.push(k)[j] == x);
                    }
                    assert(t.push(k)[t.len() as int] == k);
                }
                assert(self.index@ =~= start.union(other.members@.take(i + 1).to_set()));
            }
            i = i + 1;
        }
        proof {
            assert(other.members@.take(n as int) =~= other.members@);
        }
        self.total = if self.total <= usize::MAX - other.total {
            self.total + other.total
        } else {
            usize::MAX
        };
        self.unique = self.index.len();
        proof {
            assert(self.index@ == start.union(other.index@));
            vstd::set_lib::lemma_set_union_finite_iff(start, other.index@);
            lemma_len_union(start, other.index@);
            vstd::set_lib::lemma_len_subset(start, self.index@);
            assert(self.index@.len() <= self.total);
        }
    }
}

impl Clone for ValueUniqueCounter {
    /// A copy with the same total and the same identities.
    fn clone(&self) -> (r: Self)
        ensures
            self.wf() ==> r.wf() && r@ == self@,
    {
        let mut r = ValueUniqueCounter::new();
        let n = self.members.len();
        let mut i: usize = 0;
        while i < n
            invariant
                n == self.members@.len(),
                i <= n,
                r.index@.finite(),
                r.unique == r.index@.len(),
                r.members@.to_set() == r.index@,
                r.index@ == self.members@.take(i as int).to_set(),
            decreases n - i,
        {
            let k = self.members[i];
            let ghost before = r.index@;
            let fresh = r.index.insert(k);
            if fresh {
                let ghost m = r.members@;
                r.members.push(k);
                proof {
                    assert(r.members@.to_set() =~= m.to_set().insert(k)) by {
                        assert forall|x| #[trigger] r.members@.contains(x) implies m.contains(x) || x == k by {
                            let j = choose|j: int| 0 <= j < r.members@.len() && r.members@[j] == x;
                            if j < m.len() {
                                assert(m[j] == x);
                            }
                        }
                        assert forall|x| m.contains(x) implies #[trigger] r.members@.contains(x) by {
                            let j = choose|j: int| 0 <= j < m.len() && m[j] == x;
                            assert(r.members@[j] == x);
                        }
                        assert(r.members@.last() == k);
                    }
                }
            }
            r.unique = r.index.len();
            proof {
                let t = self.members@.take(i as int);
                assert(self.members@.take(i + 1) =~= t.push(k));
                assert(t.push(k).to_set() =~= t.to_set().insert(k)) by {
                    assert forall|x| #[trigger] t.push(k).contains(x) implies t.contains(x) || x == k by {
                        let j = choose|j: int| 0 <= j < t.push(k).len() && t.push(k)[j] == x;
                        if j < t.len() {
                            assert(t[j] == x);
                        }
                    }
                    assert forall|x| t.contains(x) implies #[trigger] t.push(k).contains(x) by {
                        assert(t.push(k).len() == t.len() + 1);
                        let j = choose|j: int| 0 <= j < t.len() && t[j] == x;
                        assert(t.push(k)[j] == x);
                    }
                    assert(t.push(k)[t.len() as int] == k);
                }
                if !fresh {
                    assert(r.index@ =~= before.insert(k));
                }
                vstd::set::axiom_set_insert_finite(before, k);
            }
            i = i + 1;
        }
        proof {
            assert(self.members@.take(n as int) =~= self.members@);
        }
        r.total = self.total;
        r
    }
}

/// A counter's place in the table: date, field and value.
pub type StatKey = (Seq<char>, FieldName, Seq<char>);

/// The model of a statistics table.
pub type StatsView = Map<StatKey, CounterView>;

/// One more occurrence of `k` by client `id`; a missing counter starts empty.
pub open spec fn bump(m: StatsView, k: StatKey, id: UserIdentifier) -> StatsView {
    m.insert(
        k,
        counter_bump(
            if m.contains_key(k) {
                m[k]
            } else {
                empty_counter()
            },
            id,
        ),
    )
}

/// The merge of two tables: every key of either, with the counters of keys
/// in both taken together.
pub open spec fn merge_tables(a: StatsView, b: StatsView) -> StatsView {
    Map::new(
        |k: StatKey| a.contains_key(k) || b.contains_key(k),
        |k: StatKey|
            if a.contains_key(k) && b.contains_key(k) {
                counter_merge(a[k], b[k])
            } else if a.contains_key(k) {
                a[k]
            } else {
                b[k]
            },
    )
}

struct Entry {
    date: String,
    field: FieldName,
    value: String,
    counter: ValueUniqueCounter,
}

spec fn key_of(e: Entry) -> StatKey {
    (e.date@, e.field, e.value@)
}

spec fn entries_map(s: Seq<Entry>) -> StatsView
    decreases s.len(),
{
    if s.len() == 0 {
        Map::empty()
    } else {
        entries_map(s.drop_last()).insert(key_of(s.last()), s.last().counter@)
    }
}

spec fn keys_unique(s: Seq<Entry>) -> bool {
    forall|i: int, j: int| 0 <= i < j < s.len() ==> key_of(#[trigger] s[i]) != key_of(#[trigger] s[j])
}

proof fn lemma_entries_map_dom(s: Seq<Entry>, k: StatKey)
    ensures
        entries_map(s).contains_key(k) <==> exists|i: int| 0 <= i < s.len() && key_of(s[i]) == k,
    decreases s.len(),
{
    if s.len() > 0 {
        lemma_entries_map_dom(s.drop_last(), k);
        if exists|i: int| 0 <= i < s.drop_last().len() && key_of(s.drop_last()[i]) == k {
            let i = choose|i: int| 0 <= i < s.drop_last().len() && key_of(s.drop_last()[i]) == k;
            assert(key_of(s[i]) == k);
        }
        if exists|i: int| 0 <= i < s.len() && key_of(s[i]) == k {
            let i = choose|i: int| 0 <= i < s.len() && key_of(s[i]) == k;
            if i < s.len() - 1 {
                assert(key_of(s.drop_last()[i]) == k);
            }
        }
    }
}

proof fn lemma_entries_map_value(s: Seq<Entry>, i: int)
    requires
        keys_unique(s),
        0 <= i < s.len(),
    ensures
        entries_map(s).contains_key(key_of(s[i])),
        entries_map(s)[key_of(s[i])] == s[i].counter@,
    decreases s.len(),
{
    if i < s.len() - 1 {
        assert(s.drop_last()[i] == s[i]);
        lemma_entries_map_value(s.drop_last(), i);
        assert(key_of(s[i]) != key_of(s[s.len() - 1]));
    }
}

proof fn lemma_entries_map_update(s: Seq<Entry>, i: int, e: Entry)
    requires
        keys_unique(s),
        0 <= i < s.len(),
        key_of(e) == key_of(s[i]),
    ensures
        entries_map(s.update(i, e)) == entries_map(s).insert(key_of(e), e.counter@),
    decreases s.len(),
{
    let t = s.update(i, e);
    if i == s.len() - 1 {
        assert(t.drop_last() =~= s.drop_last());
        assert(entries_map(t) =~= entries_map(s).insert(key_of(e), e.counter@));
    } else {
        assert(t.drop_last() =~= s.drop_last().update(i, e));
        lemma_entries_map_update(s.drop_last(), i, e);
        assert(key_of(s[i]) != key_of(s[s.len() - 1]));
        assert(entries_map(t) =~= entries_map(s).insert(key_of(e), e.counter@));
    }
}

proof fn lemma_entries_map_len(s: Seq<Entry>)
    requires
        keys_unique(s),
    ensures
        entries_map(s).dom().finite(),
        entries_map(s).len() == s.len(),
    decreases s.len(),
{
    if s.len() > 0 {
        let t = s.drop_last();
        assert(keys_unique(t)) by {
            assert forall|i: int, j: int| 0 <= i < j < t.len() implies key_of(#[trigger] t[i]) != key_of(
                #[trigger] t[j],
            ) by {
                assert(t[i] == s[i] && t[j] == s[j]);
            }
        }
        lemma_entries_map_len(t);
        lemma_entries_map_dom(t, key_of(s.last()));
        if entries_map(t).contains_key(key_of(s.last())) {
            let i = choose|i: int| 0 <= i < t.len() && key_of(t[i]) == key_of(s.last());
            assert(key_of(s[i]) != key_of(s[s.len() - 1]));
        }
    }
}

/// Counters by date, field and value. Created empty, it grows by counting
/// and by merging.
pub struct StatsTable {
    entries: Vec<Entry>,
}

impl View for StatsTable {
    type V = StatsView;

    closed spec fn view(&self) -> StatsView {
        entries_map(self.entries@)
    }
}

impl StatsTable {
    pub closed spec fn wf(&self) -> bool {
        &&& keys_unique(self.entries@)
        &&& forall|i: int| 0 <= i < self.entries@.len() ==> (#[trigger] self.entries@[i]).counter.wf()
    }

    pub fn new() -> (r: Self)
        ensures
            r.wf(),
            r@ == StatsView::empty(),
    {
        StatsTable { entries: Vec::new() }
    }

    /// Where the counter of `date`, `field`, `value` stands, if there is one.
    fn position(&self, date: &str, field: FieldName, value: &str) -> (r: Option<usize>)
        requires
            self.wf(),
        ensures
            match r {
                Some(i) => i < self.entries@.len() && key_of(self.entries@[i as int]) == (date@, field, value@),
                None => !self@.contains_key((date@, field, value@)),
            },
    {
        let mut i: usize = 0;
        while i < self.entries.len()
            invariant
                i <= self.entries@.len(),
                forall|j: int| 0 <= j < i ==> key_of(#[trigger] self.entries@[j]) != (date@, field, value@),
            decreases self.entries@.len() - i,
        {
            let e = &self.entries[i];
            if e.field == field && str_eq(e.date.as_str(), date) && str_eq(e.value.as_str(), value) {
                return Some(i);
            }
            i = i + 1;
        }
        proof {
            lemma_entries_map_dom(self.entries@, (date@, field, value@));
        }
        None
    }

    /// The counter of `date`, `field`, `value`, if anything was counted there.
    pub fn get(&self, date: &str, field: FieldName, value: &str) -> (r: Option<&ValueUniqueCounter>)
        requires
            self.wf(),
        ensures
            match r {
                Some(c) => self@.contains_key((date@, field, value@)) && c@ == self@[(date@, field, value@)]
                    && c.wf(),
                None => !self@.contains_key((date@, field, value@)),
            },
    {
        match self.position(date, field, value) {
            Some(i) => {
                proof {
                    lemma_entries_map_value(self.entries@, i as int);
                }
                Some(&self.entries[i].counter)
            },
            None => None,
        }
    }

    /// How many counters the table holds.
    pub fn len(&self) -> (r: usize)
        requires
            self.wf(),
        ensures
            r == self@.len(),
    {
        proof {
            lemma_entries_map_len(self.entries@);
        }
        self.entries.len()
    }

    /// The `i`-th counter of the table, with its date, field and value; every
    /// counter is at exactly one position below `len()`.
    pub fn entry_at(&self, i: usize) -> (r: (&str, FieldName, &str, &ValueUniqueCounter))
        requires
            self.wf(),
            i < self@.len(),
        ensures
            self@.contains_key((r.0@, r.1, r.2@)),
            self@[(r.0@, r.1, r.2@)] == r.3@,
            r.3.wf(),
    {
        proof {
            lemma_entries_map_len(self.entries@);
            lemma_entries_map_value(self.entries@, i as int);
        }
        let e = &self.entries[i];
        (e.date.as_str(), e.field, e.value.as_str(), &e.counter)
    }

    /// Counts one occurrence of `value` for `field` on `date`, by client `id`.
    pub fn increment(&mut self, date: &str, field: FieldName, value: &str, id: UserIdentifier)
        requires
            old(self).wf(),
        ensures
            final(self).wf(),
            final(self)@ == bump(old(self)@, (date@, field, value@), id),
    {
        let k = Ghost((date@, field, value@));
        match self.position(date, field, value) {
            Some(i) => {
                proof {
                    lemma_entries_map_value(self.entries@, i as int);
                }
                let ghost s = self.entries@;
                let mut e = self.entries.remove(i);
                e.counter.increment(id);
                self.entries.insert(i, e);
                proof {
                    assert(self.entries@ =~= s.update(i as int, e));
                    lemma_entries_map_update(s, i as int, e);
                    assert forall|a: int, b: int| 0 <= a < b < self.entries@.len() implies key_of(
                        #[trigger] self.entries@[a],
                    ) != key_of(#[trigger] self.entries@[b]) by {
                        assert(key_of(self.entries@[a]) == key_of(s[a]));
                        assert(key_of(self.entries@[b]) == key_of(s[b]));
                    }
                }
            },
            None => {
                let mut counter = ValueUniqueCounter::new();
                counter.increment(id);
                let e = Entry {
                    date: date.to_owned(),
                    field,
                    value: value.to_owned(),
                    counter,
                };
                let ghost s = self.entries@;
                self.entries.push(e);
                proof {
                    assert(self.entries@.drop_last() =~= s);
                    lemma_entries_map_dom(s, k@);
                    assert forall|a: int, b: int| 0 <= a < b < self.entries@.len() implies key_of(
                        #[trigger] self.entries@[a],
                    ) != key_of(#[trigger] self.entries@[b]) by {
                        if b == s.len() {
                            assert(key_of(s[a]) != k@);
                        } else {
                            assert(self.entries@[a] == s[a]);
                            assert(self.entries@[b] == s[b]);
                        }
                    }
                    assert(counter_bump(empty_counter(), id).index =~= e.counter@.index);
                }
            },
        }
    }
}

/// `c` added to the counter at `k`; a missing counter is taken as `c`.
pub open spec fn merge_into(m: StatsView, k: StatKey, c: CounterView) -> StatsView {
    m.insert(
        k,
        if m.contains_key(k) {
            counter_merge(m[k], c)
        } else {
            c
        },
    )
}

proof fn lemma_merge_insert(a: StatsView, b: StatsView, k: StatKey, c: CounterView)
    requires
        !b.contains_key(k),
    ensures
        merge_tables(a, b.insert(k, c)) == merge_into(merge_tables(a, b), k, c),
{
    assert(merge_tables(a, b.insert(k, c)) =~= merge_into(merge_tables(a, b), k, c));
}

impl StatsTable {
    /// Adds counter `c` to the one at `date`, `field`, `value`.
    fn merge_counter(&mut self, date: &String, field: FieldName, value: &String, c: &ValueUniqueCounter)
        requires
            old(self).wf(),
            c.wf(),
        ensures
            final(self).wf(),
            final(self)@ == merge_into(old(self)@, (date@, field, value@), c@),
    {
        let k = Ghost((date@, field, value@));
        match self.position(date.as_str(), field, value.as_str()) {
            Some(i) => {
                proof {
                    lemma_entries_map_value(self.entries@, i as int);
                }
                let ghost s = self.entries@;
                let mut e = self.entries.remove(i);
                e.counter.combine(c);
                self.entries.insert(i, e);
                proof {
                    assert(self.entries@ =~= s.update(i as int, e));
                    lemma_entries_map_update(s, i as int, e);
                    assert forall|a: int, b: int| 0 <= a < b < self.entries@.len() implies key_of(
                        #[trigger] self.entries@[a],
                    ) != key_of(#[trigger] self.entries@[b]) by {
                        assert(key_of(self.entries@[a]) == key_of(s[a]));
                        assert(key_of(self.entries@[b]) == key_of(s[b]));
                    }
                }
            },
            None => {
                let mut counter = ValueUniqueCounter::new();
                counter.combine(c);
                let e = Entry { date: date.clone(), field, value: value.clone(), counter };
                let ghost s = self.entries@;
                self.entries.push(e);
                proof {
                    assert(self.entries@.drop_last() =~= s);
                    lemma_entries_map_dom(s, k@);
                    assert forall|a: int, b: int| 0 <= a < b < self.entries@.len() implies key_of(
                        #[trigger] self.entries@[a],
                    ) != key_of(#[trigger] self.entries@[b]) by {
                        if b == s.len() {
                            assert(key_of(s[a]) != k@);
                        } else {
                            assert(self.entries@[a] == s[a]);
                            assert(self.entries@[b] == s[b]);
                        }
                    }
                    assert(e.counter@.index =~= c@.index);
                }
            },
        }
    }
}

/// Merges two tables: every counter of either, with the counters that both
/// hold for one date, field and value taken together.
pub fn combine_stats(left: StatsTable, right: StatsTable) -> (r: StatsTable)
    requires
        left.wf(),
        right.wf(),
    ensures
        r.wf(),
        r@ == merge_tables(left@, right@),
{
    let mut out = left;
    let n = right.entries.len();
    let mut i: usize = 0;
    proof {
        assert(right.entries@.take(0) =~= Seq::<Entry>::empty());
        assert(merge_tables(left@, Map::empty()) =~= left@);
    }
    while i < n
        invariant
            n == right.entries@.len(),
            i <= n,
            right.wf(),
            out.wf(),
            out@ == merge_tables(left@, entries_map(right.entries@.take(i as int))),
        decreases n - i,
    {
        let e = &right.entries[i];
        proof {
            let t = right.entries@.take(i as int);
            assert(right.entries@.take(i + 1).drop_last() =~= t);
            lemma_entries_map_dom(t, key_of(*e));
            if entries_map(t).contains_key(key_of(*e)) {
                let j = choose|j: int| 0 <= j < t.len() && key_of(t[j]) == key_of(*e);
                assert(key_of(right.entries@[j]) != key_of(right.entries@[i as int]));
            }
            lemma_merge_insert(left@, entries_map(t), key_of(*e), e.counter@);
        }
        out.merge_counter(&e.date, e.field, &e.value, &e.counter);
        i = i + 1;
    }
    proof {
        assert(right.entries@.take(n as int) =~= right.entries@);
    }
    out
}

// ---------------------------------------------------------------------
// Laws
// ---------------------------------------------------------------------
proof fn lemma_counter_merge_associative(a: CounterView, b: CounterView, c: CounterView)
    ensures
        counter_merge(counter_merge(a, b), c) == counter_merge(a, counter_merge(b, c)),
{
    assert(a.index.union(b.index).union(c.index) =~= a.index.union(b.index.union(c.index)));
}

proof fn lemma_counter_merge_commutative(a: CounterView, b: CounterView)
    ensures
        counter_merge(a, b) == counter_merge(b, a),
{
    assert(a.index.union(b.index) =~= b.index.union(a.index));
}

/// Merging tables is associative: the grouping of a reduction over shards
/// does not change the result.
pub proof fn lemma_combine_stats_associative(a: StatsView, b: StatsView, c: StatsView)
    ensures
        merge_tables(merge_tables(a, b), c) == merge_tables(a, merge_tables(b, c)),
{
    let l = merge_tables(merge_tables(a, b), c);
    let r = merge_tables(a, merge_tables(b, c));
    assert forall|k: StatKey| #[trigger] l.contains_key(k) implies l[k] == r[k] by {
        if a.contains_key(k) && b.contains_key(k) && c.contains_key(k) {
            lemma_counter_merge_associative(a[k], b[k], c[k]);
        }
    }
    assert(l =~= r);
}

/// Merging tables is commutative: the order of a reduction over shards does
/// not change the result.
pub proof fn lemma_combine_stats_commutative(a: StatsView, b: StatsView)
    ensures
        merge_tables(a, b) == merge_tables(b, a),
{
    let l = merge_tables(a, b);
    let r = merge_tables(b, a);
    assert forall|k: StatKey| #[trigger] l.contains_key(k) implies l[k] == r[k] by {
        if a.contains_key(k) && b.contains_key(k) {
            lemma_counter_merge_commutative(a[k], b[k]);
        }
    }
    assert(l =~= r);
}

/// What a counter promises: a finite identity set no larger than the total.
pub open spec fn counter_valid(c: CounterView) -> bool {
    c.index.finite() && c.index.len() <= c.total && c.total <= usize::MAX
}

/// Counting and merging keep `unique <= total`, and neither `unique` nor
/// `total` goes down. (An identity set is held in memory, so it has at most
/// `usize::MAX` members.)
pub proof fn lemma_counter_monotone(c: CounterView, d: CounterView, id: UserIdentifier)
    requires
        counter_valid(c),
        counter_valid(d),
        c.index.insert(id).len() <= usize::MAX,
        c.index.union(d.index).len() <= usize::MAX,
    ensures
        counter_valid(counter_bump(c, id)),
        c.total <= counter_bump(c, id).total,
        c.index.len() <= counter_bump(c, id).index.len(),
        counter_valid(counter_merge(c, d)),
        c.total <= counter_merge(c, d).total,
        c.index.len() <= counter_merge(c, d).index.len(),
{
    vstd::set::axiom_set_insert_len(c.index, id);
    vstd::set::axiom_set_insert_finite(c.index, id);
    vstd::set_lib::lemma_set_union_finite_iff(c.index, d.index);
    lemma_len_union(c.index, d.index);
    vstd::set_lib::lemma_len_subset(c.index, c.index.union(d.index));
    vstd::set_lib::lemma_len_subset(d.index, c.index.union(d.index));
}

} // verus!
