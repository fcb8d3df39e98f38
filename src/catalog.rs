//! A read-only mapping from names to values, kept in ascending name order.

use crate::names::{
    compare_names, lemma_name_lt_transitive, lemma_strictly_sorted_no_duplicates, lists, name_lt,
    strictly_sorted,
};
use std::cmp::Ordering;
use vstd::prelude::*;

verus! {

/// What a list of `(name, value)` pairs means when a name may come twice:
/// the later pair wins.
pub open spec fn map_of<W>(s: Seq<(Seq<char>, W)>) -> Map<Seq<char>, W>
    decreases s.len(),
{
    if s.len() == 0 {
        Map::empty()
    } else {
        map_of(s.drop_last()).insert(s.last().0, s.last().1)
    }
}

/// The models of a list of `(name, value)` pairs.
pub open spec fn entry_models<V: View>(s: Seq<(String, V)>) -> Seq<(Seq<char>, V::V)> {
    s.map_values(|e: (String, V)| (e.0@, e.1@))
}

/// Names mapped to values, each name at most once.
pub struct Catalog<V: View> {
    entries: Vec<(String, V)>,
    model: Ghost<Map<Seq<char>, V::V>>,
}

/// The names of a list of `(name, value)` pairs, in the list's order.
pub open spec fn key_seq_of<V>(entries: Seq<(String, V)>) -> Seq<Seq<char>> {
    entries.map_values(|e: (String, V)| e.0@)
}

/// The pairs list distinct names in ascending order and agree with `m`.
pub open spec fn entries_match<V: View>(entries: Seq<(String, V)>, m: Map<Seq<char>, V::V>) -> bool {
    &&& strictly_sorted(key_seq_of(entries))
    &&& forall|i: int|
        0 <= i < entries.len() ==> #[trigger] m.contains_key(entries[i].0@) && m[entries[i].0@]
            == entries[i].1@
    &&& forall|k: Seq<char>| #[trigger]
        m.contains_key(k) ==> exists|i: int| 0 <= i < entries.len() && entries[i].0@ == k
}

proof fn lemma_keys_list<V: View>(entries: Seq<(String, V)>, m: Map<Seq<char>, V::V>)
    requires
        entries_match(entries, m),
    ensures
        lists(key_seq_of(entries), m.dom()),
{
    let ks = key_seq_of(entries);
    assert forall|n: Seq<char>| ks.contains(n) <==> m.dom().contains(n) by {
        if ks.contains(n) {
            let i = choose|i: int| 0 <= i < ks.len() && ks[i] == n;
            assert(m.contains_key(entries[i].0@));
        }
        if m.dom().contains(n) {
            assert(m.contains_key(n));
            let i = choose|i: int| 0 <= i < entries.len() && entries[i].0@ == n;
            assert(ks[i] == n);
        }
    }
}

impl<V: View> View for Catalog<V> {
    type V = Map<Seq<char>, V::V>;

    closed spec fn view(&self) -> Map<Seq<char>, V::V> {
        self.model@
    }
}

impl<V: View> Catalog<V> {
    #[verifier::type_invariant]
    spec fn well_formed(self) -> bool {
        entries_match(self.entries@, self.model@)
    }

    /// The names of the catalog in ascending order.
    pub closed spec fn key_seq(self) -> Seq<Seq<char>> {
        key_seq_of(self.entries@)
    }

    /// How many names the catalog holds; `key_seq` lists them, each once,
    /// in ascending order.
    pub fn len(&self) -> (n: usize)
        ensures
            n == self.key_seq().len(),
            lists(self.key_seq(), self@.dom()),
    {
        proof {
            use_type_invariant(self);
            lemma_keys_list(self.entries@, self.model@);
        }
        self.entries.len()
    }

    /// The name at position `i` of `key_seq`, with its value.
    pub fn entry(&self, i: usize) -> (r: (&String, &V))
        requires
            i < self.key_seq().len(),
        ensures
            r.0@ == self.key_seq()[i as int],
            self@.contains_key(r.0@),
            r.1@ == self@[r.0@],
    {
        proof {
            use_type_invariant(self);
        }
        let e = &self.entries[i];
        (&e.0, &e.1)
    }

    /// A catalog of no names.
    pub fn new() -> (r: Self)
        ensures
            r@ == Map::<Seq<char>, V::V>::empty(),
    {
        Catalog { entries: Vec::new(), model: Ghost(Map::empty()) }
    }

    /// The catalog of the given pairs; where a name comes more than once the
    /// last of its pairs wins.
    pub fn from_entries(pairs: Vec<(String, V)>) -> (r: Self)
        ensures
            r@ == map_of(entry_models(pairs@)),
    {
        let ghost all = pairs@;
        let total = pairs.len();
        let mut rest = pairs;
        let mut entries: Vec<(String, V)> = Vec::new();
        let ghost mut m: Map<Seq<char>, V::V> = Map::empty();
        let mut done: usize = 0;
        assert(entry_models(all).take(0) =~= Seq::<(Seq<char>, V::V)>::empty());
        while rest.len() > 0
            invariant
                done + rest@.len() == all.len(),
                all.len() <= usize::MAX,
                rest@ == all.skip(done as int),
                entries_match(entries@, m),
                m == map_of(entry_models(all).take(done as int)),
            decreases rest@.len(),
        {
            let (name, value) = rest.remove(0);
            assert(all[done as int] == (name, value));
            proof {
                let ms = entry_models(all).take(done as int + 1);
                assert(ms.drop_last() =~= entry_models(all).take(done as int));
            }
            Self::place(&mut entries, Ghost(m), name, value);
            proof {
                m = m.insert(all[done as int].0@, all[done as int].1@);
            }
            done = done + 1;
        }
        assert(entry_models(all).take(done as int) =~= entry_models(all));
        Catalog { entries, model: Ghost(m) }
    }

    /// The value of `name`, or `None` where the catalog lacks that name.
    pub fn get(&self, name: &str) -> (r: Option<&V>)
        ensures
            r is None <==> !self@.contains_key(name@),
            r matches Some(v) ==> v@ == self@[name@],
    {
        proof {
            use_type_invariant(self);
        }
        let mut i: usize = 0;
        while i < self.entries.len()
            invariant
                entries_match(self.entries@, self.model@),
                i <= self.entries.len(),
                forall|j: int| 0 <= j < i ==> #[trigger] self.entries@[j].0@ != name@,
            decreases self.entries.len() - i,
        {
            let e = &self.entries[i];
            if let Ordering::Equal = compare_names(e.0.as_str(), name) {
                return Some(&e.1);
            }
            i = i + 1;
        }
        None
    }

    /// The catalog's names, each once, in ascending order.
    pub fn names(&self) -> (r: Vec<String>)
        ensures
            lists(r.deep_view(), self@.dom()),
            r.deep_view().no_duplicates(),
    {
        proof {
            use_type_invariant(self);
            lemma_keys_list(self.entries@, self.model@);
        }
        let mut r: Vec<String> = Vec::new();
        let mut i: usize = 0;
        while i < self.entries.len()
            invariant
                i <= self.entries.len(),
                r@.len() == i,
                forall|k: int| 0 <= k < i ==> (#[trigger] r@[k])@ == self.entries@[k].0@,
            decreases self.entries.len() - i,
        {
            r.push(self.entries[i].0.clone());
            i = i + 1;
        }
        assert(r.deep_view() =~= key_seq_of(self.entries@));
        proof {
            lemma_strictly_sorted_no_duplicates(r.deep_view());
        }
        r
    }

    /// Puts one pair into a sorted list, replacing the pair of the same name.
    fn place(entries: &mut Vec<(String, V)>, m: Ghost<Map<Seq<char>, V::V>>, name: String, value: V)
        requires
            entries_match(old(entries)@, m@),
        ensures
            entries_match(final(entries)@, m@.insert(name@, value@)),
    {
        let ghost key = name@;
        let ghost m2 = m@.insert(key, value@);
        let mut i: usize = 0;
        while i < entries.len()
            invariant
                entries@ == old(entries)@,
                entries_match(entries@, m@),
                key == name@,
                m2 == m@.insert(key, value@),
                i <= entries.len(),
                forall|j: int| 0 <= j < i ==> name_lt(#[trigger] entries@[j].0@, key),
            ensures
                entries@ == old(entries)@,
                i <= entries.len(),
                forall|j: int| 0 <= j < i ==> name_lt(#[trigger] entries@[j].0@, key),
                i < entries.len() ==> name_lt(key, entries@[i as int].0@),
            decreases entries.len() - i,
        {
            let cur: &String = &entries[i].0;
            assert(cur@ == entries@[i as int].0@);
            let order = compare_names(cur.as_str(), name.as_str());
            match order {
                Ordering::Less => {
                    i = i + 1;
                },
                Ordering::Equal => {
                    let ghost before = entries@;
                    entries.set(i, (name, value));
                    proof {
                        let ks = key_seq_of(entries@);
                        assert(ks =~= key_seq_of(before));
                        assert forall|j: int| 0 <= j < entries@.len() implies #[trigger] m2.contains_key(
                            entries@[j].0@,
                        ) && m2[entries@[j].0@] == entries@[j].1@ by {
                            if j != i {
                                assert(key_seq_of(before)[j] == before[j].0@);
                                assert(key_seq_of(before)[i as int] == key);
                                if j < i {
                                    assert(name_lt(ks[j], ks[i as int]));
                                } else {
                                    assert(name_lt(ks[i as int], ks[j]));
                                }
                            }
                        }
                        assert forall|k: Seq<char>| #[trigger] m2.contains_key(k) implies exists|
                            j: int,
                        | 0 <= j < entries@.len() && entries@[j].0@ == k by {
                            if k != key {
                                assert(m@.contains_key(k));
                                let j = choose|j: int| 0 <= j < before.len() && before[j].0@ == k;
                                assert(entries@[j].0@ == k);
                            } else {
                                assert(entries@[i as int].0@ == k);
                            }
                        }
                    }
                    return ;
                },
                Ordering::Greater => {
                    break;
                },
            }
        }
        let ghost before = entries@;
        entries.insert(i, (name, value));
        proof {
            let ks = key_seq_of(entries@);
            let kb = key_seq_of(before);
            assert(ks =~= kb.insert(i as int, key));
            assert forall|j: int| 0 <= j < before.len() implies key != #[trigger] before[j].0@ by {
                if j < i {
                    assert(name_lt(before[j].0@, key));
                } else {
                    assert(name_lt(key, kb[i as int]));
                    if j > i {
                        assert(name_lt(kb[i as int], kb[j]));
                        lemma_name_lt_transitive(key, kb[i as int], kb[j]);
                    }
                }
            }
            assert forall|a: int, b: int| 0 <= a < b < ks.len() implies name_lt(
                #[trigger] ks[a],
                #[trigger] ks[b],
            ) by {
                if b < i {
                    assert(ks[a] == kb[a] && ks[b] == kb[b]);
                } else if b == i {
                    assert(name_lt(before[a].0@, key));
                } else if a == i {
                    assert(name_lt(key, kb[i as int]));
                    if b - 1 > i {
                        assert(name_lt(kb[i as int], kb[b - 1]));
                        lemma_name_lt_transitive(key, kb[i as int], kb[b - 1]);
                    }
                } else if a < i {
                    if b - 1 == i as int {
                        assert(name_lt(kb[a], kb[b - 1]));
                    } else {
                        assert(name_lt(kb[a], kb[b - 1]));
                    }
                } else {
                    assert(name_lt(kb[a - 1], kb[b - 1]));
                }
            }
            assert forall|j: int| 0 <= j < entries@.len() implies #[trigger] m2.contains_key(
                entries@[j].0@,
            ) && m2[entries@[j].0@] == entries@[j].1@ by {
                if j < i {
                    assert(entries@[j] == before[j]);
                    assert(key != before[j].0@);
                    assert(m@.contains_key(before[j].0@));
                } else if j > i {
                    assert(entries@[j] == before[j - 1]);
                    assert(key != before[j - 1].0@);
                    assert(m@.contains_key(before[j - 1].0@));
                } else {
                    assert(entries@[j] == (name, value));
                }
            }
            assert forall|k: Seq<char>| #[trigger] m2.contains_key(k) implies exists|j: int|
                0 <= j < entries@.len() && entries@[j].0@ == k by {
                if k != key {
                    assert(m@.contains_key(k));
                    let j = choose|j: int| 0 <= j < before.len() && before[j].0@ == k;
                    if j < i {
                        assert(entries@[j].0@ == k);
                    } else {
                        assert(entries@[j + 1].0@ == k);
                    }
                } else {
                    assert(entries@[i as int].0@ == k);
                }
            }
        }
    }
}

} // verus!
