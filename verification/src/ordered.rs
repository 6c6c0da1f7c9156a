//! Text-keyed maps and sets kept in ascending byte order, as `BTreeMap<String, _>`
//! and `BTreeSet<String>` order their keys.

use vstd::prelude::*;
use vstd::string::StringSliceAdditionalSpecFns;

use crate::text::{lemma_utf8_injective, utf8};

verus! {

/// Lexicographic order on byte strings, with a proper prefix first.
pub open spec fn bytes_lt(a: Seq<u8>, b: Seq<u8>) -> bool
    decreases a.len(),
{
    if b.len() == 0 {
        false
    } else if a.len() == 0 {
        true
    } else if a[0] != b[0] {
        a[0] < b[0]
    } else {
        bytes_lt(a.drop_first(), b.drop_first())
    }
}

/// Order on texts by their UTF-8 bytes.
pub open spec fn text_lt(a: Seq<char>, b: Seq<char>) -> bool {
    bytes_lt(utf8(a), utf8(b))
}

pub proof fn lemma_bytes_lt_irreflexive(a: Seq<u8>)
    ensures
        !bytes_lt(a, a),
    decreases a.len(),
{
    if a.len() > 0 {
        lemma_bytes_lt_irreflexive(a.drop_first());
    }
}

pub proof fn lemma_bytes_lt_trans(a: Seq<u8>, b: Seq<u8>, c: Seq<u8>)
    requires
        bytes_lt(a, b),
        bytes_lt(b, c),
    ensures
        bytes_lt(a, c),
    decreases a.len(),
{
    if a.len() > 0 && b.len() > 0 && c.len() > 0 && a[0] == b[0] && b[0] == c[0] {
        lemma_bytes_lt_trans(a.drop_first(), b.drop_first(), c.drop_first());
    }
}

pub proof fn lemma_bytes_lt_total(a: Seq<u8>, b: Seq<u8>)
    ensures
        a == b || bytes_lt(a, b) || bytes_lt(b, a),
    decreases a.len(),
{
    if a.len() > 0 && b.len() > 0 && a[0] == b[0] {
        lemma_bytes_lt_total(a.drop_first(), b.drop_first());
        if a.drop_first() == b.drop_first() {
            assert(a =~= seq![a[0]] + a.drop_first());
            assert(b =~= seq![b[0]] + b.drop_first());
        }
    } else if a.len() == 0 && b.len() == 0 {
        assert(a =~= b);
    }
}

pub proof fn lemma_bytes_lt_asym(a: Seq<u8>, b: Seq<u8>)
    requires
        bytes_lt(a, b),
    ensures
        !bytes_lt(b, a),
{
    if bytes_lt(b, a) {
        lemma_bytes_lt_trans(a, b, a);
        lemma_bytes_lt_irreflexive(a);
    }
}

/// Three-way comparison of two byte strings: `-1`, `0` or `1`.
pub fn compare_bytes(a: &[u8], b: &[u8]) -> (order: i8)
    ensures
        order == 0 <==> a@ == b@,
        order < 0 <==> bytes_lt(a@, b@),
        order > 0 <==> bytes_lt(b@, a@),
{
    let mut i: usize = 0;
    assert(a@.skip(0) =~= a@);
    assert(b@.skip(0) =~= b@);
    while i < a.len() && i < b.len()
        invariant
            i <= a@.len(),
            i <= b@.len(),
            a@.subrange(0, i as int) == b@.subrange(0, i as int),
            bytes_lt(a@, b@) == bytes_lt(a@.skip(i as int), b@.skip(i as int)),
            bytes_lt(b@, a@) == bytes_lt(b@.skip(i as int), a@.skip(i as int)),
        decreases a@.len() - i,
    {
        assert(a@.skip(i as int).drop_first() =~= a@.skip(i + 1));
        assert(b@.skip(i as int).drop_first() =~= b@.skip(i + 1));
        if a[i] != b[i] {
            proof {
                if a@ == b@ {
                    assert(a@[i as int] == b@[i as int]);
                }
            }
            if a[i] < b[i] {
                return -1;
            } else {
                return 1;
            }
        }
        assert(a@.subrange(0, i + 1) =~= a@.subrange(0, i as int).push(a@[i as int]));
        assert(b@.subrange(0, i + 1) =~= b@.subrange(0, i as int).push(b@[i as int]));
        i = i + 1;
    }
    if a.len() == b.len() {
        assert(a@ =~= a@.subrange(0, i as int));
        assert(b@ =~= b@.subrange(0, i as int));
        proof {
            lemma_bytes_lt_irreflexive(a@);
        }
        0
    } else if a.len() < b.len() {
        proof {
            if a@ == b@ {
                assert(false);
            }
        }
        -1
    } else {
        1
    }
}

/// Three-way comparison of two texts by their UTF-8 bytes.
pub fn compare_text(a: &str, b: &str) -> (order: i8)
    ensures
        order == 0 <==> a@ == b@,
        order < 0 <==> text_lt(a@, b@),
        order > 0 <==> text_lt(b@, a@),
{
    proof {
        lemma_utf8_injective(a@, b@);
    }
    compare_bytes(a.as_bytes(), b.as_bytes())
}

/// Keys in strictly ascending byte order.
pub open spec fn strictly_sorted(keys: Seq<Seq<char>>) -> bool {
    forall|i: int, j: int| 0 <= i < j < keys.len() ==> text_lt(#[trigger] keys[i], #[trigger] keys[j])
}

/// Two strictly ascending key sequences that hold the same keys are the same sequence.
pub proof fn lemma_sorted_keys_unique(a: Seq<Seq<char>>, b: Seq<Seq<char>>)
    requires
        strictly_sorted(a),
        strictly_sorted(b),
        forall|k: Seq<char>| a.contains(k) <==> b.contains(k),
    ensures
        a == b,
    decreases a.len(),
{
    if a.len() == 0 {
        if b.len() > 0 {
            assert(b.contains(b[0]));
        }
        assert(a =~= b);
    } else {
        assert(a.contains(a[0]));
        let j = choose|j: int| 0 <= j < b.len() && b[j] == a[0];
        assert(b.contains(b[0]));
        let i = choose|i: int| 0 <= i < a.len() && a[i] == b[0];
        if j > 0 {
            assert(text_lt(b[0], b[j]));
            if i > 0 {
                assert(text_lt(a[0], a[i]));
                lemma_bytes_lt_asym(utf8(a[0]), utf8(a[i]));
            } else {
                lemma_bytes_lt_irreflexive(utf8(a[0]));
            }
        }
        assert(a[0] == b[0]);
        let ra = a.drop_first();
        let rb = b.drop_first();
        assert forall|k: Seq<char>| ra.contains(k) <==> rb.contains(k) by {
            if ra.contains(k) {
                let x = choose|x: int| 0 <= x < ra.len() && ra[x] == k;
                assert(a[x + 1] == k);
                assert(text_lt(a[0], a[x + 1]));
                lemma_bytes_lt_irreflexive(utf8(a[0]));
                assert(a.contains(k));
                let y = choose|y: int| 0 <= y < b.len() && b[y] == k;
                assert(y != 0);
                assert(rb[y - 1] == k);
            }
            if rb.contains(k) {
                let x = choose|x: int| 0 <= x < rb.len() && rb[x] == k;
                assert(b[x + 1] == k);
                assert(text_lt(b[0], b[x + 1]));
                lemma_bytes_lt_irreflexive(utf8(b[0]));
                assert(b.contains(k));
                let y = choose|y: int| 0 <= y < a.len() && a[y] == k;
                assert(y != 0);
                assert(ra[y - 1] == k);
            }
        }
        assert forall|p: int, q: int| 0 <= p < q < ra.len() implies text_lt(#[trigger] ra[p], #[trigger] ra[q]) by {
            assert(ra[p] == a[p + 1] && ra[q] == a[q + 1]);
        }
        assert forall|p: int, q: int| 0 <= p < q < rb.len() implies text_lt(#[trigger] rb[p], #[trigger] rb[q]) by {
            assert(rb[p] == b[p + 1] && rb[q] == b[q + 1]);
        }
        lemma_sorted_keys_unique(ra, rb);
        assert(a =~= seq![a[0]] + ra);
        assert(b =~= seq![b[0]] + rb);
    }
}

/// A map from text keys to values whose entries are kept in ascending key order.
#[derive(Debug, Clone, PartialEq, Eq)]
pub struct TextMap<V> {
    entries: Vec<(String, V)>,
}

impl<V> TextMap<V> {
    /// The keys, in ascending order.
    pub closed spec fn key_seq(&self) -> Seq<Seq<char>> {
        self.entries@.map_values(|entry: (String, V)| entry.0@)
    }

    /// The values, in key order.
    pub closed spec fn value_seq(&self) -> Seq<V> {
        self.entries@.map_values(|entry: (String, V)| entry.1)
    }

    pub closed spec fn wf(&self) -> bool {
        strictly_sorted(self.key_seq())
    }

    /// The map as a mathematical map from texts to values.
    pub open spec fn view_map(&self) -> Map<Seq<char>, V> {
        Map::new(
            |key: Seq<char>| self.key_seq().contains(key),
            |key: Seq<char>| self.value_seq()[self.key_seq().index_of(key)],
        )
    }

    pub proof fn lemma_len(&self)
        ensures
            self.key_seq().len() == self.value_seq().len(),
    {
    }

    /// An empty map.
    pub fn new() -> (map: Self)
        ensures
            map.wf(),
            map.key_seq() == Seq::<Seq<char>>::empty(),
            map.value_seq() == Seq::<V>::empty(),
    {
        let map = TextMap { entries: Vec::new() };
        assert(map.key_seq() =~= Seq::<Seq<char>>::empty());
        assert(map.value_seq() =~= Seq::<V>::empty());
        map
    }

    /// The number of entries.
    pub fn len(&self) -> (count: usize)
        ensures
            count == self.key_seq().len(),
            count == self.value_seq().len(),
    {
        self.entries.len()
    }

    /// The key of the `index`-th entry in ascending order.
    pub fn key_at(&self, index: usize) -> (key: &String)
        requires
            index < self.key_seq().len(),
        ensures
            key@ == self.key_seq()[index as int],
    {
        &self.entries[index].0
    }

    /// The value of the `index`-th entry in ascending key order.
    pub fn value_at(&self, index: usize) -> (value: &V)
        requires
            index < self.key_seq().len(),
        ensures
            *value == self.value_seq()[index as int],
    {
        &self.entries[index].1
    }

    /// The `index`-th entry in ascending key order.
    pub fn entry_at(&self, index: usize) -> (entry: (&String, &V))
        requires
            self.wf(),
            index < self.key_seq().len(),
        ensures
            entry.0@ == self.key_seq()[index as int],
            self.view_map().contains_key(entry.0@),
            self.view_map()[entry.0@] == *entry.1,
    {
        proof {
            self.lemma_index_of(index as int);
        }
        let entry = &self.entries[index];
        (&entry.0, &entry.1)
    }

    /// Where `key` is, or where it would be inserted.
    fn search(&self, key: &str) -> (found: (bool, usize))
        requires
            self.wf(),
        ensures
            found.1 <= self.key_seq().len(),
            found.0 ==> found.1 < self.key_seq().len() && self.key_seq()[found.1 as int] == key@,
            !found.0 ==> !self.key_seq().contains(key@),
            forall|i: int| 0 <= i < found.1 ==> text_lt(#[trigger] self.key_seq()[i], key@),
            !found.0 ==> forall|i: int|
                found.1 <= i < self.key_seq().len() ==> text_lt(key@, #[trigger] self.key_seq()[i]),
    {
        let mut i: usize = 0;
        while i < self.entries.len()
            invariant
                self.wf(),
                i <= self.key_seq().len(),
                self.key_seq().len() == self.entries@.len(),
                forall|k: int| 0 <= k < i ==> text_lt(#[trigger] self.key_seq()[k], key@),
            decreases self.entries@.len() - i,
        {
            assert(self.key_seq()[i as int] == self.entries@[i as int].0@);
            let order = compare_text(self.entries[i].0.as_str(), key);
            if order == 0 {
                return (true, i);
            }
            if order > 0 {
                proof {
                    assert forall|k: int| i <= k < self.key_seq().len() implies text_lt(
                        key@,
                        #[trigger] self.key_seq()[k],
                    ) by {
                        if k > i {
                            assert(text_lt(self.key_seq()[i as int], self.key_seq()[k]));
                            lemma_bytes_lt_trans(
                                utf8(key@),
                                utf8(self.key_seq()[i as int]),
                                utf8(self.key_seq()[k]),
                            );
                        }
                    }
                    assert forall|k: int| 0 <= k < self.key_seq().len() implies self.key_seq()[k]
                        != key@ by {
                        if k >= i {
                            lemma_bytes_lt_irreflexive(utf8(key@));
                        } else {
                            lemma_bytes_lt_irreflexive(utf8(key@));
                        }
                    }
                }
                return (false, i);
            }
            i = i + 1;
        }
        proof {
            assert forall|k: int| 0 <= k < self.key_seq().len() implies self.key_seq()[k]
                != key@ by {
                lemma_bytes_lt_irreflexive(utf8(key@));
            }
        }
        (false, i)
    }

    /// The value stored for `key`.
    pub fn get(&self, key: &str) -> (value: Option<&V>)
        requires
            self.wf(),
        ensures
            value is Some <==> self.key_seq().contains(key@),
            value matches Some(v) ==> *v == self.view_map()[key@],
    {
        let (found, index) = self.search(key);
        if found {
            proof {
                self.lemma_index_of(index as int);
            }
            Some(&self.entries[index].1)
        } else {
            None
        }
    }

    /// The stored key equal to `key`, with its value.
    pub fn get_key_value(&self, key: &str) -> (entry: Option<(&String, &V)>)
        requires
            self.wf(),
        ensures
            entry is Some <==> self.key_seq().contains(key@),
            entry matches Some(e) ==> e.0@ == key@ && *e.1 == self.view_map()[key@],
    {
        let (found, index) = self.search(key);
        if found {
            proof {
                self.lemma_index_of(index as int);
            }
            let entry = &self.entries[index];
            Some((&entry.0, &entry.1))
        } else {
            None
        }
    }

    /// The `i`-th entry is stored in the map.
    pub proof fn lemma_entry(&self, i: int)
        requires
            self.wf(),
            0 <= i < self.key_seq().len(),
        ensures
            self.view_map().contains_key(self.key_seq()[i]),
            self.view_map()[self.key_seq()[i]] == self.value_seq()[i],
    {
        self.lemma_index_of(i);
    }

    /// The map holds exactly as many keys as there are entries.
    pub proof fn lemma_dom_len(&self)
        requires
            self.wf(),
        ensures
            self.view_map().dom().finite(),
            self.view_map().dom().len() == self.key_seq().len(),
    {
        let keys = self.key_seq();
        assert(self.view_map().dom() =~= keys.to_set());
        assert(keys.no_duplicates()) by {
            assert forall|i: int, j: int| 0 <= i < keys.len() && 0 <= j < keys.len() && i != j implies keys[i]
                != keys[j] by {
                lemma_bytes_lt_irreflexive(utf8(keys[i]));
                if i < j {
                    assert(text_lt(keys[i], keys[j]));
                } else {
                    assert(text_lt(keys[j], keys[i]));
                }
            }
        }
        keys.unique_seq_to_set();
        vstd::seq_lib::seq_to_set_is_finite(keys);
    }

    /// The keys are in strictly ascending order.
    pub proof fn lemma_sorted(&self)
        requires
            self.wf(),
        ensures
            strictly_sorted(self.key_seq()),
    {
    }

    /// Every stored key is one of the ordered keys.
    pub proof fn lemma_keys(&self)
        ensures
            forall|k: Seq<char>| self.view_map().contains_key(k) ==> self.key_seq().contains(k),
    {
    }

    proof fn lemma_index_of_old(&self, keys: Seq<Seq<char>>, index: int)
        requires
            strictly_sorted(keys),
            0 <= index < keys.len(),
        ensures
            keys.index_of(keys[index]) == index,
    {
        assert(keys.contains(keys[index]));
        let j = keys.index_of(keys[index]);
        if j != index {
            lemma_bytes_lt_irreflexive(utf8(keys[index]));
        }
    }

    proof fn lemma_index_of(&self, index: int)
        requires
            self.wf(),
            0 <= index < self.key_seq().len(),
        ensures
            self.key_seq().index_of(self.key_seq()[index]) == index,
    {
        let keys = self.key_seq();
        assert(keys.contains(keys[index]));
        let j = keys.index_of(keys[index]);
        if j != index {
            if j < index {
                assert(text_lt(keys[j], keys[index]));
            } else {
                assert(text_lt(keys[index], keys[j]));
            }
            lemma_bytes_lt_irreflexive(utf8(keys[index]));
        }
    }

    /// Remove the entry for `key`, returning its value.
    pub fn remove(&mut self, key: &str) -> (removed: Option<V>)
        requires
            old(self).wf(),
        ensures
            final(self).wf(),
            final(self).view_map() == old(self).view_map().remove(key@),
            removed is Some <==> old(self).key_seq().contains(key@),
            removed matches Some(v) ==> v == old(self).view_map()[key@],
            final(self).key_seq().len() == if old(self).key_seq().contains(key@) {
                old(self).key_seq().len() - 1
            } else {
                old(self).key_seq().len() as int
            },
            removed is None ==> final(self).value_seq() == old(self).value_seq(),
            removed matches Some(v) ==> exists|i: int|
                0 <= i < old(self).value_seq().len() && old(self).value_seq()[i] == v
                    && #[trigger] final(self).value_seq() == old(self).value_seq().remove(i),
    {
        let (found, index) = self.search(key);
        if !found {
            assert(self.view_map() =~= self.view_map().remove(key@));
            return None;
        }
        proof {
            self.lemma_index_of(index as int);
        }
        let ghost old_keys = self.key_seq();
        let ghost old_values = self.value_seq();
        let ghost old_map = self.view_map();
        let (_, value) = self.entries.remove(index);
        assert(self.key_seq() =~= old_keys.remove(index as int));
        assert(self.value_seq() =~= old_values.remove(index as int));
        proof {
            let keys = self.key_seq();
            assert forall|i: int, j: int| 0 <= i < j < keys.len() implies text_lt(
                #[trigger] keys[i],
                #[trigger] keys[j],
            ) by {
                if i >= index {
                    assert(keys[i] == old_keys[i + 1]);
                    assert(keys[j] == old_keys[j + 1]);
                } else if j >= index {
                    assert(keys[j] == old_keys[j + 1]);
                }
            }
            assert forall|k: Seq<char>| #[trigger] self.view_map().contains_key(k)
                <==> old_map.remove(key@).contains_key(k) by {
                if k != key@ && old_keys.contains(k) {
                    let j = old_keys.index_of(k);
                    if j < index {
                        assert(keys[j] == k);
                    } else {
                        assert(keys[j - 1] == k);
                    }
                }
                if keys.contains(k) {
                    let j = keys.index_of(k);
                    if j < index {
                        assert(old_keys[j] == k);
                    } else {
                        assert(old_keys[j + 1] == k);
                    }
                    if k == key@ {
                        assert(old_keys[index as int] == key@);
                        if j < index {
                            lemma_bytes_lt_irreflexive(utf8(k));
                        } else {
                            lemma_bytes_lt_irreflexive(utf8(k));
                        }
                    }
                }
            }
            assert forall|k: Seq<char>| self.view_map().contains_key(k) implies #[trigger] self.view_map()[k]
                == old_map.remove(key@)[k] by {
                let n = keys.index_of(k);
                self.lemma_index_of(n);
                if n < index {
                    assert(old_keys[n] == k);
                    self.lemma_index_of_old(old_keys, n);
                } else {
                    assert(old_keys[n + 1] == k);
                    self.lemma_index_of_old(old_keys, n + 1);
                }
            }
            assert(self.view_map() =~= old_map.remove(key@));
        }
        Some(value)
    }

    /// Store `value` for `key`, returning the value it replaced.
    pub fn insert(&mut self, key: String, value: V) -> (previous: Option<V>)
        requires
            old(self).wf(),
        ensures
            final(self).wf(),
            final(self).view_map() == old(self).view_map().insert(key@, value),
            previous is Some <==> old(self).key_seq().contains(key@),
            previous matches Some(p) ==> p == old(self).view_map()[key@],
            previous matches Some(p) ==> exists|i: int|
                0 <= i < old(self).value_seq().len() && old(self).value_seq()[i] == p
                    && #[trigger] final(self).value_seq() == old(self).value_seq().update(i, value),
            previous is None ==> exists|i: int|
                0 <= i <= old(self).value_seq().len() && #[trigger] final(self).value_seq()
                    == old(self).value_seq().insert(i, value),
    {
        let (found, index) = self.search(key.as_str());
        let ghost old_keys = self.key_seq();
        let ghost old_values = self.value_seq();
        let ghost old_map = self.view_map();
        if found {
            proof {
                self.lemma_index_of(index as int);
            }
            let (_, previous) = self.entries.remove(index);
            self.entries.insert(index, (key, value));
            assert(self.key_seq() =~= old_keys);
            assert(self.value_seq() =~= old_values.update(index as int, value));
            proof {
                assert forall|k: Seq<char>| #[trigger] self.view_map().contains_key(k)
                    <==> old_map.insert(key@, value).contains_key(k) by {}
                assert forall|k: Seq<char>| self.view_map().contains_key(k) implies #[trigger] self.view_map()[k]
                    == old_map.insert(key@, value)[k] by {
                    let j = old_keys.index_of(k);
                    if k == key@ {
                    } else {
                        assert(old_keys.contains(k));
                        assert(j != index);
                    }
                }
                assert(self.view_map() =~= old_map.insert(key@, value));
                assert(old_values[index as int] == previous);
                assert(0 <= index < old_values.len());
                assert(self.value_seq() == old_values.update(index as int, value));
            }
            Some(previous)
        } else {
            self.entries.insert(index, (key, value));
            assert(self.key_seq() =~= old_keys.insert(index as int, key@));
            assert(self.value_seq() =~= old_values.insert(index as int, value));
            proof {
                let keys = self.key_seq();
                assert forall|i: int, j: int| 0 <= i < j < keys.len() implies text_lt(
                    #[trigger] keys[i],
                    #[trigger] keys[j],
                ) by {
                    if j < index {
                    } else if i > index {
                        assert(keys[i] == old_keys[i - 1]);
                        assert(keys[j] == old_keys[j - 1]);
                    } else if i == index {
                        assert(keys[j] == old_keys[j - 1]);
                    } else if j == index {
                    } else {
                        assert(keys[j] == old_keys[j - 1]);
                    }
                }
                assert forall|k: Seq<char>| #[trigger] self.view_map().contains_key(k)
                    <==> old_map.insert(key@, value).contains_key(k) by {
                    if k == key@ {
                        assert(keys[index as int] == key@);
                    } else if old_keys.contains(k) {
                        let j = old_keys.index_of(k);
                        if j < index {
                            assert(keys[j] == k);
                        } else {
                            assert(keys[j + 1] == k);
                        }
                    }
                }
                assert forall|k: Seq<char>| self.view_map().contains_key(k) implies #[trigger] self.view_map()[k]
                    == old_map.insert(key@, value)[k] by {
                    let n = keys.index_of(k);
                    self.lemma_index_of(n);
                    if k == key@ {
                        self.lemma_index_of(index as int);
                    } else {
                        let j = old_keys.index_of(k);
                        if j < index {
                            assert(keys[j] == k);
                            self.lemma_index_of(j);
                        } else {
                            assert(keys[j + 1] == k);
                            self.lemma_index_of(j + 1);
                        }
                    }
                }
                assert(self.view_map() =~= old_map.insert(key@, value));
                assert(0 <= index <= old_values.len());
                assert(self.value_seq() == old_values.insert(index as int, value));
            }
            None
        }
    }
}

} // verus!
