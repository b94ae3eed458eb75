use vstd::prelude::*;

verus! {

/// Lexicographic order of strings by code point, which is the order of
/// `str`'s `Ord` (UTF-8 preserves code point order).
pub open spec fn seq_lt(a: Seq<char>, b: Seq<char>) -> bool
    decreases a.len(),
{
    if b.len() == 0 {
        false
    } else if a.len() == 0 {
        true
    } else if a[0] != b[0] {
        a[0] < b[0]
    } else {
        seq_lt(a.skip(1), b.skip(1))
    }
}

pub proof fn lemma_lt_irreflexive(a: Seq<char>)
    ensures
        !seq_lt(a, a),
    decreases a.len(),
{
    if a.len() > 0 {
        lemma_lt_irreflexive(a.skip(1));
    }
}

pub proof fn lemma_lt_asymmetric(a: Seq<char>, b: Seq<char>)
    ensures
        seq_lt(a, b) ==> !seq_lt(b, a),
    decreases a.len(),
{
    if a.len() > 0 && b.len() > 0 && a[0] == b[0] {
        lemma_lt_asymmetric(a.skip(1), b.skip(1));
    }
}

pub proof fn lemma_lt_total(a: Seq<char>, b: Seq<char>)
    ensures
        a != b ==> seq_lt(a, b) || seq_lt(b, a),
    decreases a.len(),
{
    if a.len() > 0 && b.len() > 0 {
        if a[0] == b[0] {
            lemma_lt_total(a.skip(1), b.skip(1));
            if a.skip(1) == b.skip(1) {
                assert(a =~= seq![a[0]] + a.skip(1));
                assert(b =~= seq![b[0]] + b.skip(1));
            }
        }
    } else if a.len() == 0 && b.len() == 0 {
        assert(a =~= b);
    }
}

pub proof fn lemma_lt_transitive(a: Seq<char>, b: Seq<char>, c: Seq<char>)
    requires
        seq_lt(a, b),
        seq_lt(b, c),
    ensures
        seq_lt(a, c),
    decreases a.len(),
{
    if a.len() > 0 && b.len() > 0 && c.len() > 0 && a[0] == b[0] && b[0] == c[0] {
        lemma_lt_transitive(a.skip(1), b.skip(1), c.skip(1));
    }
}

/// Whether `a` sorts strictly before `b`.
pub fn str_lt(a: &str, b: &str) -> (res: bool)
    ensures
        res == seq_lt(a@, b@),
{
    let av = crate::text::chars_of(a);
    let bv = crate::text::chars_of(b);
    let mut i: usize = 0;
    assert(av@.skip(0) =~= av@);
    assert(bv@.skip(0) =~= bv@);
    loop
        invariant
            i <= av.len(),
            i <= bv.len(),
            av@ == a@,
            bv@ == b@,
            seq_lt(a@, b@) == seq_lt(av@.skip(i as int), bv@.skip(i as int)),
        decreases av.len() - i,
    {
        if i == bv.len() {
            return false;
        }
        if i == av.len() {
            return true;
        }
        let x = av[i];
        let y = bv[i];
        assert(av@.skip(i as int)[0] == x);
        assert(bv@.skip(i as int)[0] == y);
        if x != y {
            return x < y;
        }
        assert(av@.skip(i as int).skip(1) =~= av@.skip(i + 1));
        assert(bv@.skip(i as int).skip(1) =~= bv@.skip(i + 1));
        i += 1;
    }
}

/// A map from strings to values that keeps its entries sorted by key, as a
/// `BTreeMap<String, V>` does.
#[derive(Clone, Debug, PartialEq, Eq)]
pub struct StrMap<V> {
    entries: Vec<(String, V)>,
}

pub open spec fn keys_of<V>(s: Seq<(String, V)>) -> Seq<Seq<char>> {
    s.map_values(|e: (String, V)| e.0@)
}

pub open spec fn sorted_keys(k: Seq<Seq<char>>) -> bool {
    forall|i: int, j: int| 0 <= i < j < k.len() ==> seq_lt(#[trigger] k[i], #[trigger] k[j])
}

/// The value of the first entry of `s` with key `k`.
pub open spec fn lookup_in<V>(s: Seq<(String, V)>, k: Seq<char>) -> Option<V>
    decreases s.len(),
{
    if s.len() == 0 {
        None
    } else if s[0].0@ == k {
        Some(s[0].1)
    } else {
        lookup_in(s.skip(1), k)
    }
}

pub proof fn lemma_lookup_absent<V>(s: Seq<(String, V)>, k: Seq<char>)
    requires
        forall|i: int| 0 <= i < s.len() ==> s[i].0@ != k,
    ensures
        lookup_in(s, k) is None,
    decreases s.len(),
{
    if s.len() > 0 {
        assert(s[0].0@ != k);
        assert forall|i: int| 0 <= i < s.skip(1).len() implies s.skip(1)[i].0@ != k by {
            assert(s.skip(1)[i] == s[i + 1]);
        }
        lemma_lookup_absent(s.skip(1), k);
    }
}

pub proof fn lemma_lookup_at<V>(s: Seq<(String, V)>, p: int, k: Seq<char>)
    requires
        0 <= p < s.len(),
        s[p].0@ == k,
        forall|i: int| 0 <= i < p ==> s[i].0@ != k,
    ensures
        lookup_in(s, k) == Some(s[p].1),
    decreases p,
{
    if p > 0 {
        assert forall|i: int| 0 <= i < p - 1 implies s.skip(1)[i].0@ != k by {
            assert(s.skip(1)[i] == s[i + 1]);
        }
        lemma_lookup_at(s.skip(1), p - 1, k);
    }
}

/// `lookup_in` finds `k` at its position, or not at all.
pub proof fn lemma_lookup_found<V>(s: Seq<(String, V)>, k: Seq<char>)
    ensures
        match lookup_in(s, k) {
            Some(v) => exists|p: int| 0 <= p < s.len() && s[p].0@ == k && s[p].1 == v,
            None => forall|i: int| 0 <= i < s.len() ==> s[i].0@ != k,
        },
    decreases s.len(),
{
    if s.len() > 0 && s[0].0@ != k {
        lemma_lookup_found(s.skip(1), k);
        match lookup_in(s.skip(1), k) {
            Some(v) => {
                let p = choose|p: int| 0 <= p < s.skip(1).len() && s.skip(1)[p].0@ == k && s.skip(1)[p].1 == v;
                assert(s[p + 1] == s.skip(1)[p]);
            },
            None => {
                assert forall|i: int| 0 <= i < s.len() implies s[i].0@ != k by {
                    if i > 0 {
                        assert(s[i] == s.skip(1)[i - 1]);
                    }
                }
            },
        }
    } else if s.len() > 0 {
        assert(s[0].0@ == k);
    }
}

/// Inserting or updating at a position whose old and new keys differ from `k`
/// leaves the lookup of `k` as it was.
proof fn lemma_lookup_other_update<V>(s: Seq<(String, V)>, p: int, e: (String, V), k: Seq<char>)
    requires
        0 <= p < s.len(),
        s[p].0@ != k,
        e.0@ != k,
    ensures
        lookup_in(s.update(p, e), k) == lookup_in(s, k),
    decreases s.len(),
{
    if p == 0 {
        assert(s.update(p, e).skip(1) =~= s.skip(1));
    } else if s[0].0@ != k {
        assert(s.update(p, e).skip(1) =~= s.skip(1).update(p - 1, e));
        lemma_lookup_other_update(s.skip(1), p - 1, e, k);
    } else {
        assert(s.update(p, e)[0] == s[0]);
    }
}

proof fn lemma_lookup_other_insert<V>(s: Seq<(String, V)>, p: int, e: (String, V), k: Seq<char>)
    requires
        0 <= p <= s.len(),
        e.0@ != k,
    ensures
        lookup_in(s.insert(p, e), k) == lookup_in(s, k),
    decreases s.len(),
{
    if p == 0 {
        assert(s.insert(p, e).skip(1) =~= s);
    } else if s[0].0@ != k {
        assert(s.insert(p, e).skip(1) =~= s.skip(1).insert(p - 1, e));
        lemma_lookup_other_insert(s.skip(1), p - 1, e, k);
    } else {
        assert(s.insert(p, e)[0] == s[0]);
    }
}

proof fn lemma_lookup_other_remove<V>(s: Seq<(String, V)>, p: int, k: Seq<char>)
    requires
        0 <= p < s.len(),
        s[p].0@ != k,
    ensures
        lookup_in(s.remove(p), k) == lookup_in(s, k),
    decreases s.len(),
{
    if p == 0 {
        assert(s.remove(p) =~= s.skip(1));
    } else if s[0].0@ != k {
        assert(s.remove(p).skip(1) =~= s.skip(1).remove(p - 1));
        lemma_lookup_other_remove(s.skip(1), p - 1, k);
    } else {
        assert(s.remove(p)[0] == s[0]);
    }
}

impl<V> StrMap<V> {
    /// The entries, sorted by key.
    pub closed spec fn entry_seq(&self) -> Seq<(String, V)> {
        self.entries@
    }

    /// The keys, in sorted order.
    pub open spec fn key_seq(&self) -> Seq<Seq<char>> {
        keys_of(self.entry_seq())
    }

    /// The values, in the order of their keys.
    pub open spec fn value_seq(&self) -> Seq<V> {
        self.entry_seq().map_values(|e: (String, V)| e.1)
    }

    /// Keys are strictly increasing.
    pub open spec fn wf(&self) -> bool {
        sorted_keys(self.key_seq())
    }

    /// The value stored under `k`.
    pub open spec fn lookup(&self, k: Seq<char>) -> Option<V> {
        lookup_in(self.entry_seq(), k)
    }

    pub open spec fn len_spec(&self) -> nat {
        self.entry_seq().len()
    }

    /// An empty map.
    pub fn new() -> (res: Self)
        ensures
            res.wf(),
            res.entry_seq().len() == 0,
            forall|k: Seq<char>| res.lookup(k) is None,
    {
        StrMap { entries: Vec::new() }
    }

    /// The number of entries.
    pub fn len(&self) -> (n: usize)
        ensures
            n == self.entry_seq().len(),
    {
        self.entries.len()
    }

    /// Whether the map has no entries.
    pub fn is_empty(&self) -> (b: bool)
        ensures
            b == (self.entry_seq().len() == 0),
    {
        self.entries.len() == 0
    }

    /// The key of the `i`-th entry in key order.
    pub fn key_at(&self, i: usize) -> (k: &String)
        requires
            i < self.entry_seq().len(),
        ensures
            *k == self.entry_seq()[i as int].0,
    {
        &self.entries[i].0
    }

    /// The value of the `i`-th entry in key order.
    pub fn value_at(&self, i: usize) -> (v: &V)
        requires
            i < self.entry_seq().len(),
        ensures
            *v == self.entry_seq()[i as int].1,
    {
        &self.entries[i].1
    }

    /// The position of the first entry whose key does not sort before `k`.
    fn lower_bound(&self, k: &str) -> (p: usize)
        requires
            self.wf(),
        ensures
            p <= self.entry_seq().len(),
            forall|i: int| 0 <= i < p ==> seq_lt(#[trigger] self.key_seq()[i], k@),
            p < self.entry_seq().len() ==> !seq_lt(self.key_seq()[p as int], k@),
    {
        let mut i: usize = 0;
        while i < self.entries.len()
            invariant
                i <= self.entries@.len(),
                forall|j: int| 0 <= j < i ==> seq_lt(#[trigger] self.key_seq()[j], k@),
            decreases self.entries.len() - i,
        {
            if !str_lt(self.entries[i].0.as_str(), k) {
                return i;
            }
            i += 1;
        }
        i
    }

    proof fn lemma_keys_below(&self, p: int, k: Seq<char>)
        requires
            self.wf(),
            0 <= p <= self.entry_seq().len(),
            forall|i: int| 0 <= i < p ==> seq_lt(#[trigger] self.key_seq()[i], k),
            p < self.entry_seq().len() ==> !seq_lt(self.key_seq()[p], k),
        ensures
            forall|i: int| 0 <= i < p ==> self.entry_seq()[i].0@ != k,
            forall|i: int| p < i < self.entry_seq().len() ==> self.entry_seq()[i].0@ != k,
            p < self.entry_seq().len() && self.entry_seq()[p].0@ != k ==> forall|i: int|
                0 <= i < self.entry_seq().len() ==> self.entry_seq()[i].0@ != k,
    {
        let ks = self.key_seq();
        assert forall|i: int| 0 <= i < p implies self.entry_seq()[i].0@ != k by {
            assert(ks[i] == self.entry_seq()[i].0@);
            assert(seq_lt(ks[i], k));
            lemma_lt_irreflexive(k);
        }
        if p < self.entry_seq().len() {
            assert(ks[p] == self.entry_seq()[p].0@);
            lemma_lt_total(ks[p], k);
            assert forall|i: int| p < i < self.entry_seq().len() implies self.entry_seq()[i].0@ != k by {
                assert(ks[i] == self.entry_seq()[i].0@);
                assert(seq_lt(ks[p], ks[i]));
                if ks[i] == k {
                    if ks[p] == k {
                        lemma_lt_irreflexive(k);
                    } else {
                        lemma_lt_asymmetric(ks[p], k);
                    }
                }
            }
        }
    }

    /// The value stored under `k`.
    pub fn get(&self, k: &str) -> (res: Option<&V>)
        requires
            self.wf(),
        ensures
            match res {
                Some(v) => self.lookup(k@) == Some(*v),
                None => self.lookup(k@) is None,
            },
    {
        let p = self.lower_bound(k);
        proof {
            self.lemma_keys_below(p as int, k@);
        }
        if p < self.entries.len() && crate::text::chars_eq(
            crate::text::chars_of(self.entries[p].0.as_str()).as_slice(),
            crate::text::chars_of(k).as_slice(),
        ) {
            proof {
                lemma_lookup_at(self.entry_seq(), p as int, k@);
            }
            Some(&self.entries[p].1)
        } else {
            proof {
                lemma_lookup_absent(self.entry_seq(), k@);
            }
            None
        }
    }

    /// Whether some entry has key `k`.
    pub fn contains_key(&self, k: &str) -> (b: bool)
        requires
            self.wf(),
        ensures
            b == self.lookup(k@) is Some,
    {
        self.get(k).is_some()
    }

    /// Stores `v` under `k`, replacing the value stored there before.
    pub fn insert(&mut self, k: String, v: V)
        requires
            old(self).wf(),
        ensures
            final(self).wf(),
            final(self).lookup(k@) == Some(v),
            forall|j: Seq<char>| j != k@ ==> final(self).lookup(j) == old(self).lookup(j),
            final(self).len_spec() == old(self).len_spec() + (if old(self).lookup(k@) is Some {
                0int
            } else {
                1int
            }),
    {
        let p = self.lower_bound(k.as_str());
        proof {
            self.lemma_keys_below(p as int, k@);
        }
        let ghost s = self.entries@;
        let ghost ks = self.key_seq();
        if p < self.entries.len() && crate::text::chars_eq(
            crate::text::chars_of(self.entries[p].0.as_str()).as_slice(),
            crate::text::chars_of(k.as_str()).as_slice(),
        ) {
            proof {
                lemma_lookup_at(s, p as int, k@);
            }
            let ghost e = (k, v);
            self.entries.set(p, (k, v));
            proof {
                assert(self.entries@ == s.update(p as int, e));
                assert(keys_of(self.entries@) =~= ks);
                lemma_lookup_at(self.entries@, p as int, k@);
                assert forall|j: Seq<char>| j != k@ implies self.lookup(j) == lookup_in(s, j) by {
                    lemma_lookup_other_update(s, p as int, e, j);
                }
            }
        } else {
            proof {
                lemma_lookup_absent(s, k@);
            }
            let ghost e = (k, v);
            self.entries.insert(p, (k, v));
            proof {
                assert(self.entries@ == s.insert(p as int, e));
                let nk = keys_of(self.entries@);
                assert(nk =~= ks.insert(p as int, k@));
                if p < s.len() {
                    lemma_lt_total(ks[p as int], k@);
                    assert(seq_lt(k@, ks[p as int]));
                }
                assert forall|i: int, j: int| 0 <= i < j < nk.len() implies seq_lt(
                    #[trigger] nk[i],
                    #[trigger] nk[j],
                ) by {
                    if j < p {
                        assert(nk[i] == ks[i] && nk[j] == ks[j]);
                    } else if j == p {
                        assert(nk[i] == ks[i]);
                    } else if i == p {
                        assert(nk[j] == ks[j - 1]);
                        if j - 1 > p {
                            lemma_lt_transitive(k@, ks[p as int], ks[j - 1]);
                        }
                    } else if i < p {
                        assert(nk[i] == ks[i] && nk[j] == ks[j - 1]);
                        if p < s.len() {
                            lemma_lt_transitive(ks[i], k@, ks[p as int]);
                            if j - 1 > p {
                                lemma_lt_transitive(ks[i], ks[p as int], ks[j - 1]);
                            }
                        }
                    } else {
                        assert(nk[i] == ks[i - 1] && nk[j] == ks[j - 1]);
                    }
                }
                assert forall|i: int| 0 <= i < p implies self.entries@[i].0@ != k@ by {
                    assert(self.entries@[i] == s[i]);
                }
                lemma_lookup_at(self.entries@, p as int, k@);
                assert forall|j: Seq<char>| j != k@ implies self.lookup(j) == lookup_in(s, j) by {
                    lemma_lookup_other_insert(s, p as int, e, j);
                }
            }
        }
    }

    /// Removes the entry with key `k`; says whether there was one.
    pub fn remove(&mut self, k: &str) -> (removed: Option<V>)
        requires
            old(self).wf(),
        ensures
            final(self).wf(),
            removed == old(self).lookup(k@),
            final(self).lookup(k@) is None,
            forall|j: Seq<char>| j != k@ ==> final(self).lookup(j) == old(self).lookup(j),
    {
        let p = self.lower_bound(k);
        proof {
            self.lemma_keys_below(p as int, k@);
        }
        let ghost s = self.entries@;
        let ghost ks = self.key_seq();
        if p < self.entries.len() && crate::text::chars_eq(
            crate::text::chars_of(self.entries[p].0.as_str()).as_slice(),
            crate::text::chars_of(k).as_slice(),
        ) {
            proof {
                lemma_lookup_at(s, p as int, k@);
            }
            let (_, v) = self.entries.remove(p);
            proof {
                assert(self.entries@ == s.remove(p as int));
                let nk = keys_of(self.entries@);
                assert(nk =~= ks.remove(p as int));
                assert forall|i: int, j: int| 0 <= i < j < nk.len() implies seq_lt(
                    #[trigger] nk[i],
                    #[trigger] nk[j],
                ) by {
                    if j < p {
                        assert(nk[i] == ks[i] && nk[j] == ks[j]);
                    } else if i < p {
                        assert(nk[i] == ks[i] && nk[j] == ks[j + 1]);
                    } else {
                        assert(nk[i] == ks[i + 1] && nk[j] == ks[j + 1]);
                    }
                }
                assert forall|i: int| 0 <= i < self.entries@.len() implies self.entries@[i].0@
                    != k@ by {
                    if i < p {
                        assert(self.entries@[i] == s[i]);
                    } else {
                        assert(self.entries@[i] == s[i + 1]);
                    }
                }
                lemma_lookup_absent(self.entries@, k@);
                assert forall|j: Seq<char>| j != k@ implies self.lookup(j) == lookup_in(s, j) by {
                    lemma_lookup_other_remove(s, p as int, j);
                }
            }
            Some(v)
        } else {
            proof {
                lemma_lookup_absent(s, k@);
            }
            None
        }
    }

    /// Removes every entry.
    pub fn clear(&mut self)
        ensures
            final(self).wf(),
            final(self).entry_seq().len() == 0,
            forall|k: Seq<char>| final(self).lookup(k) is None,
    {
        self.entries.clear();
    }
}

impl<V: View> StrMap<V> {
    /// The map from each key's text to the view of its value.
    pub open spec fn map_view(&self) -> Map<Seq<char>, V::V> {
        Map::new(|k: Seq<char>| self.lookup(k) is Some, |k: Seq<char>| self.lookup(k)->0@)
    }

    /// In a well-formed map the keys are distinct, each entry is what its
    /// key maps to, and the keys of the map are those of its entries.
    pub proof fn lemma_entries_view(&self)
        requires
            self.wf(),
        ensures
            self.key_seq().no_duplicates(),
            forall|i: int|
                0 <= i < self.len_spec() ==> #[trigger] self.map_view().contains_key(self.key_seq()[i])
                    && self.map_view()[self.key_seq()[i]] == self.value_seq()[i]@,
            self.map_view().dom() == self.key_seq().to_set(),
            self.map_view().dom().len() == self.len_spec(),
    {
        let es = self.entry_seq();
        let ks = self.key_seq();
        assert forall|i: int, j: int| 0 <= i < ks.len() && 0 <= j < ks.len() && i != j implies ks[i] != ks[j] by {
            lemma_lt_irreflexive(ks[i]);
            if i < j {
                assert(seq_lt(ks[i], ks[j]));
            } else {
                assert(seq_lt(ks[j], ks[i]));
            }
        }
        assert forall|i: int| 0 <= i < self.len_spec() implies #[trigger] self.map_view().contains_key(ks[i])
            && self.map_view()[ks[i]] == self.value_seq()[i]@ by {
            assert forall|j: int| 0 <= j < i implies es[j].0@ != ks[i] by {
                assert(ks[j] == es[j].0@);
            }
            lemma_lookup_at(es, i, ks[i]);
        }
        assert forall|k: Seq<char>| self.map_view().dom().contains(k) <==> ks.to_set().contains(k) by {
            lemma_lookup_found(es, k);
            if ks.to_set().contains(k) {
                let i = choose|i: int| 0 <= i < ks.len() && ks[i] == k;
                assert(self.map_view().contains_key(ks[i]));
            }
            if self.map_view().dom().contains(k) {
                let p = choose|p: int| 0 <= p < es.len() && es[p].0@ == k && es[p].1 == self.lookup(k)->0;
                assert(ks[p] == k);
            }
        }
        assert(self.map_view().dom() =~= ks.to_set());
        ks.unique_seq_to_set();
    }
}

impl StrMap<String> {
    /// A copy of the map.
    pub fn duplicate(&self) -> (res: Self)
        ensures
            res.entry_seq() == self.entry_seq(),
    {
        let mut entries: Vec<(String, String)> = Vec::new();
        let mut i: usize = 0;
        while i < self.entries.len()
            invariant
                i <= self.entries@.len(),
                entries@ == self.entries@.take(i as int),
            decreases self.entries.len() - i,
        {
            let e = (self.entries[i].0.clone(), self.entries[i].1.clone());
            entries.push(e);
            assert(entries@ =~= self.entries@.take(i + 1));
            i += 1;
        }
        assert(self.entries@.take(i as int) =~= self.entries@);
        StrMap { entries }
    }
}

} // verus!
