//! Small verified lookup structures keyed by strings.
//!
//! `String` has no hashing model in vstd, so the score tables and
//! nullifier sets of this crate are kept as vectors whose keys are
//! pairwise distinct, viewed as a `Map` / `Set` over the keys' character
//! sequences.

use vstd::prelude::*;

verus! {

/// The key under which a score is kept: an indicator (by its text) and an epoch.
pub type ScoreKey = (Seq<char>, u64);

/// Looks a key up in a sequence of (key, value) entries, latest entry first.
pub open spec fn lookup<K, V>(entries: Seq<(K, V)>, k: K) -> Option<V>
    decreases entries.len(),
{
    if entries.len() == 0 {
        None
    } else if entries.last().0 == k {
        Some(entries.last().1)
    } else {
        lookup(entries.drop_last(), k)
    }
}

/// The keys of the entries, in order.
pub open spec fn entry_keys(entries: Seq<((String, u64), u32)>) -> Seq<(ScoreKey, u32)> {
    entries.map_values(|e: ((String, u64), u32)| ((e.0.0@, e.0.1), e.1))
}

pub open spec fn keys_distinct<K, V>(entries: Seq<(K, V)>) -> bool {
    forall|i: int, j: int|
        0 <= i < entries.len() && 0 <= j < entries.len() && i != j ==> entries[i].0 != entries[j].0
}

pub proof fn lemma_lookup_found<K, V>(entries: Seq<(K, V)>, i: int)
    requires
        keys_distinct(entries),
        0 <= i < entries.len(),
    ensures
        lookup(entries, entries[i].0) == Some(entries[i].1),
    decreases entries.len(),
{
    if i != entries.len() - 1 {
        let prefix = entries.drop_last();
        assert(prefix[i] == entries[i]);
        assert(keys_distinct(prefix));
        lemma_lookup_found(prefix, i);
    }
}

pub proof fn lemma_lookup_absent<K, V>(entries: Seq<(K, V)>, k: K)
    requires
        forall|i: int| 0 <= i < entries.len() ==> entries[i].0 != k,
    ensures
        lookup(entries, k) is None,
    decreases entries.len(),
{
    if entries.len() > 0 {
        let prefix = entries.drop_last();
        assert forall|i: int| 0 <= i < prefix.len() implies prefix[i].0 != k by {
            assert(prefix[i] == entries[i]);
        }
        lemma_lookup_absent(prefix, k);
    }
}

pub proof fn lemma_lookup_some_index<K, V>(entries: Seq<(K, V)>, k: K)
    requires
        lookup(entries, k) is Some,
    ensures
        exists|i: int| 0 <= i < entries.len() && entries[i].0 == k,
    decreases entries.len(),
{
    if entries.last().0 != k {
        lemma_lookup_some_index(entries.drop_last(), k);
        let i = choose|i: int| 0 <= i < entries.drop_last().len() && entries.drop_last()[i].0 == k;
        assert(entries[i] == entries.drop_last()[i]);
    }
}

/// A table of scores keyed by (indicator, epoch), with distinct keys.
pub struct ScoreTable {
    entries: Vec<((String, u64), u32)>,
}

impl View for ScoreTable {
    type V = Map<ScoreKey, u32>;

    closed spec fn view(&self) -> Map<ScoreKey, u32> {
        let e = entry_keys(self.entries@);
        Map::new(|k: ScoreKey| lookup(e, k) is Some, |k: ScoreKey| lookup(e, k)->0)
    }
}

impl ScoreTable {
    /// Distinct keys.
    pub closed spec fn wf(&self) -> bool {
        keys_distinct(entry_keys(self.entries@))
    }

    /// The keys, in the order they were first added.
    pub closed spec fn keys(&self) -> Seq<ScoreKey> {
        entry_keys(self.entries@).map_values(|p: (ScoreKey, u32)| p.0)
    }

    /// The key order lists every key of the table exactly once.
    pub proof fn lemma_keys(&self)
        requires
            self.wf(),
        ensures
            self.keys().no_duplicates(),
            forall|k: ScoreKey| self@.dom().contains(k) <==> self.keys().contains(k),
    {
        let e = entry_keys(self.entries@);
        let keys = self.keys();
        assert forall|k: ScoreKey| self@.dom().contains(k) <==> keys.contains(k) by {
            if self@.dom().contains(k) {
                lemma_lookup_some_index(e, k);
                let i = choose|i: int| 0 <= i < e.len() && e[i].0 == k;
                assert(keys[i] == k);
            }
            if keys.contains(k) {
                let i = choose|i: int| 0 <= i < keys.len() && keys[i] == k;
                lemma_lookup_found(e, i);
            }
        }
        assert forall|i: int, j: int| 0 <= i < keys.len() && 0 <= j < keys.len() && i != j
            implies keys[i] != keys[j] by {
            assert(keys[i] == e[i].0);
            assert(keys[j] == e[j].0);
        }
    }

    /// The key at position `i` of the key order.
    pub fn key_at(&self, i: usize) -> (r: &(String, u64))
        requires
            i < self.keys().len(),
        ensures
            (r.0@, r.1) == self.keys()[i as int],
    {
        &self.entries[i].0
    }

    /// An empty table.
    pub fn new() -> (t: ScoreTable)
        ensures
            t.wf(),
            t@ == Map::<ScoreKey, u32>::empty(),
            t.keys() == Seq::<ScoreKey>::empty(),
    {
        let t = ScoreTable { entries: Vec::new() };
        assert(t@ =~= Map::<ScoreKey, u32>::empty());
        assert(t.keys() =~= Seq::<ScoreKey>::empty());
        t
    }

    /// Number of keys.
    pub fn len(&self) -> (n: usize)
        requires
            self.wf(),
        ensures
            n == self@.dom().len(),
            n == self.keys().len(),
    {
        proof { self.lemma_dom_len(); }
        self.entries.len()
    }

    /// Whether the table holds no key.
    pub fn is_empty(&self) -> (b: bool)
        requires
            self.wf(),
        ensures
            b == (self@.dom().len() == 0),
            b == (self@ == Map::<ScoreKey, u32>::empty()),
    {
        proof {
            self.lemma_dom_len();
            if self.entries.len() == 0 {
                assert(self@ =~= Map::<ScoreKey, u32>::empty());
            } else {
                let e = entry_keys(self.entries@);
                lemma_lookup_found(e, 0);
                assert(self@.dom().contains(e[0].0));
            }
        }
        self.entries.len() == 0
    }

    proof fn lemma_dom_len(&self)
        requires
            self.wf(),
        ensures
            self@.dom().finite(),
            self@.dom().len() == self.entries@.len(),
    {
        let e = entry_keys(self.entries@);
        let keys = e.map_values(|p: (ScoreKey, u32)| p.0);
        assert forall|k: ScoreKey| self@.dom().contains(k) <==> keys.contains(k) by {
            if self@.dom().contains(k) {
                lemma_lookup_some_index(e, k);
                let i = choose|i: int| 0 <= i < e.len() && e[i].0 == k;
                assert(keys[i] == k);
            }
            if keys.contains(k) {
                let i = choose|i: int| 0 <= i < keys.len() && keys[i] == k;
                lemma_lookup_found(e, i);
            }
        }
        assert(self@.dom() =~= keys.to_set());
        assert(keys.no_duplicates()) by {
            assert forall|i: int, j: int| 0 <= i < keys.len() && 0 <= j < keys.len() && i != j
                implies keys[i] != keys[j] by {
                assert(keys[i] == e[i].0);
                assert(keys[j] == e[j].0);
            }
        }
        keys.unique_seq_to_set();
    }

    /// Index of the entry whose key is `(ind, epoch)`, if any.
    fn find(&self, ind: &String, epoch: u64) -> (r: Option<usize>)
        requires
            self.wf(),
        ensures
            match r {
                Some(i) => i < self.entries@.len() && self.entries@[i as int].0.0@ == ind@
                    && self.entries@[i as int].0.1 == epoch,
                None => !self@.dom().contains((ind@, epoch)),
            },
    {
        let mut i: usize = 0;
        while i < self.entries.len()
            invariant
                i <= self.entries@.len(),
                forall|j: int|
                    0 <= j < i ==> entry_keys(self.entries@)[j].0 != (ind@, epoch),
            decreases self.entries@.len() - i,
        {
            if self.entries[i].0.1 == epoch && self.entries[i].0.0 == *ind {
                return Some(i);
            }
            i = i + 1;
        }
        proof {
            lemma_lookup_absent(entry_keys(self.entries@), (ind@, epoch));
        }
        None
    }

    /// The score kept under `key`, if any.
    pub fn get(&self, key: &(String, u64)) -> (r: Option<&u32>)
        requires
            self.wf(),
        ensures
            match r {
                Some(v) => self@.dom().contains((key.0@, key.1)) && self@[(key.0@, key.1)] == *v,
                None => !self@.dom().contains((key.0@, key.1)),
            },
    {
        match self.find(&key.0, key.1) {
            Some(i) => {
                proof {
                    lemma_lookup_found(entry_keys(self.entries@), i as int);
                }
                Some(&self.entries[i].1)
            },
            None => None,
        }
    }

    /// The score kept under `(ind, epoch)`, or 0.
    pub fn get_or_zero(&self, ind: &String, epoch: u64) -> (r: u32)
        requires
            self.wf(),
        ensures
            r == (if self@.dom().contains((ind@, epoch)) { self@[(ind@, epoch)] } else { 0 }),
    {
        match self.find(ind, epoch) {
            Some(i) => {
                proof {
                    lemma_lookup_found(entry_keys(self.entries@), i as int);
                }
                self.entries[i].1
            },
            None => 0,
        }
    }

    /// Adds `delta` to the score under `(ind, epoch)`, starting from 0 when absent.
    pub fn add(&mut self, ind: &String, epoch: u64, delta: u32)
        requires
            old(self).wf(),
            (if old(self)@.dom().contains((ind@, epoch)) { old(self)@[(ind@, epoch)] as int } else { 0 })
                + delta <= u32::MAX,
        ensures
            final(self).wf(),
            final(self)@ == old(self)@.insert(
                (ind@, epoch),
                ((if old(self)@.dom().contains((ind@, epoch)) { old(self)@[(ind@, epoch)] as int } else { 0 })
                    + delta) as u32,
            ),
            final(self).keys() == (if old(self)@.dom().contains((ind@, epoch)) { old(self).keys() } else {
                old(self).keys().push((ind@, epoch))
            }),
    {
        let ghost k = (ind@, epoch);
        let ghost old_e = entry_keys(self.entries@);
        match self.find(ind, epoch) {
            Some(i) => {
                proof {
                    lemma_lookup_found(old_e, i as int);
                }
                let cur = self.entries[i].1;
                let key = (self.entries[i].0.0.clone(), self.entries[i].0.1);
                self.entries.set(i, (key, cur + delta));
                proof {
                    let e = entry_keys(self.entries@);
                    assert(e =~= old_e.update(i as int, (k, (cur + delta) as u32)));
                    assert(keys_distinct(e)) by {
                        assert forall|a: int, b: int| 0 <= a < e.len() && 0 <= b < e.len() && a != b
                            implies e[a].0 != e[b].0 by {
                            assert(e[a].0 == old_e[a].0);
                            assert(e[b].0 == old_e[b].0);
                        }
                    }
                    assert forall|k2: ScoreKey| #[trigger] lookup(e, k2) == (if k2 == k { Some((cur + delta) as u32) } else { lookup(old_e, k2) }) by {
                        if k2 == k {
                            lemma_lookup_found(e, i as int);
                        } else {
                            if lookup(old_e, k2) is Some {
                                lemma_lookup_some_index(old_e, k2);
                                let j = choose|j: int| 0 <= j < old_e.len() && old_e[j].0 == k2;
                                lemma_lookup_found(old_e, j);
                                lemma_lookup_found(e, j);
                            } else {
                                assert forall|j: int| 0 <= j < e.len() implies e[j].0 != k2 by {
                                    if e[j].0 == k2 {
                                        lemma_lookup_found(old_e, j);
                                    }
                                }
                                lemma_lookup_absent(e, k2);
                            }
                        }
                    }
                    assert(self@ =~= old(self)@.insert(k, (cur + delta) as u32));
                    assert(self.keys() =~= old(self).keys()) by {
                        assert forall|j: int| 0 <= j < e.len() implies #[trigger] e[j].0 == old_e[j].0 by {}
                    }
                }
            },
            None => {
                self.entries.push(((ind.clone(), epoch), delta));
                proof {
                    let e = entry_keys(self.entries@);
                    assert(e =~= old_e.push((k, delta)));
                    assert(keys_distinct(e)) by {
                        assert forall|a: int, b: int| 0 <= a < e.len() && 0 <= b < e.len() && a != b
                            implies e[a].0 != e[b].0 by {
                            if a == e.len() - 1 && b < old_e.len() {
                                if e[b].0 == k { lemma_lookup_found(old_e, b); }
                            } else if b == e.len() - 1 && a < old_e.len() {
                                if e[a].0 == k { lemma_lookup_found(old_e, a); }
                            } else {
                                assert(e[a] == old_e[a]);
                                assert(e[b] == old_e[b]);
                            }
                        }
                    }
                    assert forall|k2: ScoreKey| #[trigger] lookup(e, k2) == (if k2 == k { Some(delta) } else { lookup(old_e, k2) }) by {
                        assert(e.drop_last() =~= old_e);
                    }
                    assert(self@ =~= old(self)@.insert(k, delta));
                    assert(self.keys() =~= old(self).keys().push(k));
                }
            },
        }
    }
}

/// A set of strings, kept as a vector without repeated text.
pub struct StringSet {
    items: Vec<String>,
}

impl View for StringSet {
    type V = Set<Seq<char>>;

    closed spec fn view(&self) -> Set<Seq<char>> {
        self.items@.map_values(|s: String| s@).to_set()
    }
}

impl StringSet {
    /// No text occurs twice.
    pub closed spec fn wf(&self) -> bool {
        self.items@.map_values(|s: String| s@).no_duplicates()
    }

    /// An empty set.
    pub fn new() -> (s: StringSet)
        ensures
            s.wf(),
            s@ == Set::<Seq<char>>::empty(),
    {
        let s = StringSet { items: Vec::new() };
        assert(s@ =~= Set::<Seq<char>>::empty());
        s
    }

    /// Number of members.
    pub fn len(&self) -> (n: usize)
        requires
            self.wf(),
        ensures
            n == self@.len(),
    {
        proof {
            self.items@.map_values(|s: String| s@).unique_seq_to_set();
        }
        self.items.len()
    }

    /// Whether `s` is a member (by its text).
    pub fn contains(&self, s: &String) -> (b: bool)
        ensures
            b == self@.contains(s@),
    {
        let ghost v = self.items@.map_values(|x: String| x@);
        let mut i: usize = 0;
        while i < self.items.len()
            invariant
                i <= self.items@.len(),
                v == self.items@.map_values(|x: String| x@),
                forall|j: int| 0 <= j < i ==> v[j] != s@,
            decreases self.items@.len() - i,
        {
            if self.items[i] == *s {
                proof {
                    assert(v[i as int] == s@);
                }
                return true;
            }
            i = i + 1;
        }
        proof {
            assert(!v.contains(s@));
        }
        false
    }

    /// Adds `s`; returns whether it was absent before.
    pub fn insert(&mut self, s: String) -> (added: bool)
        requires
            old(self).wf(),
        ensures
            final(self).wf(),
            final(self)@ == old(self)@.insert(s@),
            added == !old(self)@.contains(s@),
    {
        if self.contains(&s) {
            proof {
                assert(self@.insert(s@) =~= self@);
            }
            false
        } else {
            let ghost old_v = self.items@.map_values(|x: String| x@);
            self.items.push(s);
            proof {
                let v = self.items@.map_values(|x: String| x@);
                assert(v =~= old_v.push(s@));
                assert(v.to_set() =~= old_v.to_set().insert(s@)) by {
                    assert forall|x: Seq<char>| v.contains(x) <==> old_v.contains(x) || x == s@ by {
                        if v.contains(x) {
                            let i = choose|i: int| 0 <= i < v.len() && v[i] == x;
                            if i < old_v.len() {
                                assert(old_v[i] == x);
                            }
                        }
                        if old_v.contains(x) {
                            let i = choose|i: int| 0 <= i < old_v.len() && old_v[i] == x;
                            assert(v[i] == x);
                        }
                        if x == s@ {
                            assert(v[v.len() - 1] == x);
                        }
                    }
                }
                assert(v.no_duplicates()) by {
                    assert forall|i: int, j: int| 0 <= i < v.len() && 0 <= j < v.len() && i != j
                        implies v[i] != v[j] by {
                        if i == v.len() - 1 && j < old_v.len() {
                            assert(v[j] == old_v[j]);
                            assert(old_v.contains(v[j]));
                        } else if j == v.len() - 1 && i < old_v.len() {
                            assert(v[i] == old_v[i]);
                            assert(old_v.contains(v[i]));
                        } else {
                            assert(v[i] == old_v[i]);
                            assert(v[j] == old_v[j]);
                        }
                    }
                }
            }
            true
        }
    }
}


/// Text entries, by their views.
pub open spec fn text_entries(entries: Seq<(String, String)>) -> Seq<(Seq<char>, Seq<char>)> {
    entries.map_values(|e: (String, String)| (e.0@, e.1@))
}

/// A map from texts to texts, kept as a vector of entries with distinct keys.
pub struct TextMap {
    entries: Vec<(String, String)>,
}

impl View for TextMap {
    type V = Map<Seq<char>, Seq<char>>;

    closed spec fn view(&self) -> Map<Seq<char>, Seq<char>> {
        let e = text_entries(self.entries@);
        Map::new(|k: Seq<char>| lookup(e, k) is Some, |k: Seq<char>| lookup(e, k)->0)
    }
}

impl TextMap {
    /// No key occurs twice.
    pub closed spec fn wf(&self) -> bool {
        keys_distinct(text_entries(self.entries@))
    }

    /// An empty map.
    pub fn new() -> (m: TextMap)
        ensures
            m.wf(),
            m@ == Map::<Seq<char>, Seq<char>>::empty(),
    {
        let m = TextMap { entries: Vec::new() };
        assert(m@ =~= Map::<Seq<char>, Seq<char>>::empty());
        m
    }

    /// The value kept under `k`, if any.
    pub fn get(&self, k: &String) -> (r: Option<&String>)
        requires
            self.wf(),
        ensures
            match r {
                Some(v) => self@.contains_key(k@) && self@[k@] == v@,
                None => !self@.contains_key(k@),
            },
    {
        let ghost e = text_entries(self.entries@);
        let mut i: usize = 0;
        while i < self.entries.len()
            invariant
                self.wf(),
                e == text_entries(self.entries@),
                i <= self.entries@.len(),
                forall|j: int| 0 <= j < i ==> e[j].0 != k@,
            decreases self.entries@.len() - i,
        {
            if self.entries[i].0 == *k {
                proof { lemma_lookup_found(e, i as int); }
                return Some(&self.entries[i].1);
            }
            i = i + 1;
        }
        proof { lemma_lookup_absent(e, k@); }
        None
    }

    /// Records `v` under `k` unless `k` already has a value; returns
    /// whether it was recorded.
    pub fn insert_if_absent(&mut self, k: String, v: String) -> (added: bool)
        requires
            old(self).wf(),
        ensures
            final(self).wf(),
            added == !old(self)@.contains_key(k@),
            final(self)@ == (if added { old(self)@.insert(k@, v@) } else { old(self)@ }),
    {
        let present = self.get(&k).is_some();
        if present {
            false
        } else {
            let ghost old_e = text_entries(self.entries@);
            let ghost kv = k@;
            let ghost vv = v@;
            proof {
                assert forall|j: int| 0 <= j < old_e.len() implies old_e[j].0 != kv by {
                    if old_e[j].0 == kv {
                        lemma_lookup_found(old_e, j);
                    }
                }
            }
            self.entries.push((k, v));
            proof {
                let e = text_entries(self.entries@);
                assert(e =~= old_e.push((kv, vv)));
                assert(keys_distinct(e)) by {
                    assert forall|a: int, b: int| 0 <= a < e.len() && 0 <= b < e.len() && a != b
                        implies e[a].0 != e[b].0 by {
                        if a < old_e.len() {
                            assert(e[a] == old_e[a]);
                        }
                        if b < old_e.len() {
                            assert(e[b] == old_e[b]);
                        }
                    }
                }
                assert forall|k2: Seq<char>| #[trigger] lookup(e, k2) == (if k2 == kv { Some(vv) } else { lookup(old_e, k2) }) by {
                    assert(e.drop_last() =~= old_e);
                }
                assert(self@ =~= old(self)@.insert(kv, vv));
            }
            true
        }
    }
}

} // verus!
