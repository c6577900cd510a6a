//! Tables keyed by text: a vector of entries in which each key stands once,
//! looked up by its first occurrence.
use vstd::prelude::*;

verus! {

/// The keys of a sequence of entries, as character sequences.
pub open spec fn keys<V>(e: Seq<(String, V)>) -> Seq<Seq<char>> {
    e.map_values(|p: (String, V)| p.0@)
}

/// The first position at or after `i` whose key is `k`.
pub open spec fn index_in(ks: Seq<Seq<char>>, k: Seq<char>, i: int) -> Option<int>
    decreases ks.len() - i,
{
    if i < 0 || i >= ks.len() {
        None
    } else if ks[i] == k {
        Some(i)
    } else {
        index_in(ks, k, i + 1)
    }
}

/// The position of the entry whose key is `k`.
pub open spec fn position<V>(e: Seq<(String, V)>, k: Seq<char>) -> Option<int> {
    index_in(keys(e), k, 0)
}

/// A found position holds the key, and no earlier position does.
pub proof fn lemma_index_in(ks: Seq<Seq<char>>, k: Seq<char>, i: int)
    requires
        0 <= i,
    ensures
        index_in(ks, k, i) matches Some(x) ==> i <= x < ks.len() && ks[x] == k && forall|y: int|
            i <= y < x ==> ks[y] != k,
        index_in(ks, k, i) is None ==> forall|y: int| i <= y < ks.len() ==> ks[y] != k,
    decreases ks.len() - i,
{
    if i < ks.len() && ks[i] != k {
        lemma_index_in(ks, k, i + 1);
    }
}

/// Where a key is first found does not change when a key is added at the end,
/// and the added key is found at the end when it was absent.
pub proof fn lemma_index_in_push(ks: Seq<Seq<char>>, k: Seq<char>, j: Seq<char>)
    ensures
        index_in(ks.push(k), j, 0) == (match index_in(ks, j, 0) {
            Some(x) => Some(x),
            None => if j == k {
                Some(ks.len() as int)
            } else {
                None
            },
        }),
{
    lemma_index_in(ks, j, 0);
    lemma_index_in(ks.push(k), j, 0);
    let a = index_in(ks, j, 0);
    let b = index_in(ks.push(k), j, 0);
    if a is Some {
        assert(ks.push(k)[a->0] == j);
        if b is Some {
            assert(ks.push(k)[b->0] == j);
        }
    } else if b is Some {
        assert(ks.push(k)[b->0] == j);
    } else if j == k {
        assert(ks.push(k)[ks.len() as int] == j);
    }
}

/// The first position of the key `k` among the entries `e`.
pub fn find_key<V>(e: &Vec<(String, V)>, k: &String) -> (r: Option<usize>)
    ensures
        r matches Some(i) ==> position(e@, k@) == Some(i as int) && i < e.len(),
        r is None ==> position(e@, k@) is None,
{
    let mut i: usize = 0;
    while i < e.len()
        invariant
            i <= e.len(),
            position(e@, k@) == index_in(keys(e@), k@, i as int),
        decreases e.len() - i,
    {
        assert(keys(e@)[i as int] == e@[i as int].0@);
        if e[i].0 == *k {
            return Some(i);
        }
        i += 1;
    }
    None
}

/// The keys of a sequence of viewed entries.
pub open spec fn skeys<V>(e: Seq<(Seq<char>, V)>) -> Seq<Seq<char>> {
    e.map_values(|p: (Seq<char>, V)| p.0)
}

/// The value of the key `k` among the viewed entries `e`.
pub open spec fn lookup<V>(e: Seq<(Seq<char>, V)>, k: Seq<char>) -> Option<V> {
    match index_in(skeys(e), k, 0) {
        Some(i) => Some(e[i].1),
        None => None,
    }
}

/// The entries `e` with `k` set to `v`: in place when the key is there,
/// at the end when it is not.
pub open spec fn insert_entry<V>(e: Seq<(Seq<char>, V)>, k: Seq<char>, v: V) -> Seq<
    (Seq<char>, V),
> {
    match index_in(skeys(e), k, 0) {
        Some(i) => e.update(i, (k, v)),
        None => e.push((k, v)),
    }
}

/// Whether no key stands twice among the entries.
pub open spec fn distinct_keys<V>(e: Seq<(Seq<char>, V)>) -> bool {
    forall|i: int, j: int| 0 <= i < j < e.len() ==> #[trigger] e[i].0 != #[trigger] e[j].0
}

/// Setting a key keeps the keys distinct.
pub proof fn lemma_insert_distinct<V>(e: Seq<(Seq<char>, V)>, k: Seq<char>, v: V)
    requires
        distinct_keys(e),
    ensures
        distinct_keys(insert_entry(e, k, v)),
{
    let ks = skeys(e);
    lemma_index_in(ks, k, 0);
    let r = insert_entry(e, k, v);
    match index_in(ks, k, 0) {
        Some(x) => {
            assert(ks[x] == e[x].0);
            assert forall|i: int, j: int| 0 <= i < j < r.len() implies #[trigger] r[i].0
                != #[trigger] r[j].0 by {
                assert(r[i].0 == e[i].0 && r[j].0 == e[j].0);
            };
        },
        None => {
            assert forall|i: int, j: int| 0 <= i < j < r.len() implies #[trigger] r[i].0
                != #[trigger] r[j].0 by {
                if j == e.len() {
                    assert(ks[i] == e[i].0);
                } else {
                    assert(r[i] == e[i] && r[j] == e[j]);
                }
            };
        },
    }
}

/// The views of a sequence of entries.
pub open spec fn pairs_view<V: View>(e: Seq<(String, V)>) -> Seq<(Seq<char>, V::V)> {
    e.map_values(|p: (String, V)| (p.0@, p.1@))
}

/// Sets the key `k` to `v` among the entries `e`.
pub fn insert_in<V: View>(e: &mut Vec<(String, V)>, k: String, v: V)
    ensures
        pairs_view(final(e)@) == insert_entry(pairs_view(old(e)@), k@, v@),
{
    let ghost before = e@;
    let ghost kv = k@;
    let ghost vv = v@;
    assert(keys(before) =~= skeys(pairs_view(before)));
    match find_key(e, &k) {
        Some(i) => {
            proof {
                lemma_index_in(keys(before), kv, 0);
            }
            e.set(i, (k, v));
            assert(pairs_view(e@) =~= pairs_view(before).update(i as int, (kv, vv)));
        },
        None => {
            e.push((k, v));
            assert(pairs_view(e@) =~= pairs_view(before).push((kv, vv)));
        },
    }
}

/// The value of the key `k` among the entries `e`.
pub fn get_in<'a, V: View>(e: &'a Vec<(String, V)>, k: &String) -> (r: Option<&'a V>)
    ensures
        match lookup(pairs_view(e@), k@) {
            Some(x) => r matches Some(y) && y@ == x,
            None => r is None,
        },
{
    assert(keys(e@) =~= skeys(pairs_view(e@)));
    match find_key(e, k) {
        Some(i) => Some(&e[i].1),
        None => None,
    }
}

/// The map that a sequence of text entries stands for.
pub open spec fn map_of(e: Seq<(String, String)>) -> Map<Seq<char>, Seq<char>> {
    Map::new(|k: Seq<char>| position(e, k) is Some, |k: Seq<char>| e[position(e, k)->0].1@)
}

/// A map from text to text, such as headers or cookies; setting a key again
/// replaces its value.
#[derive(Debug)]
pub struct StrMap {
    entries: Vec<(String, String)>,
}

impl View for StrMap {
    type V = Map<Seq<char>, Seq<char>>;

    closed spec fn view(&self) -> Map<Seq<char>, Seq<char>> {
        map_of(self.entries@)
    }
}

impl StrMap {
    /// The entries, in the order in which their keys were first set.
    pub closed spec fn entry_seq(&self) -> Seq<(String, String)> {
        self.entries@
    }

    /// An empty map.
    pub fn new() -> (r: StrMap)
        ensures
            r@ == Map::<Seq<char>, Seq<char>>::empty(),
            r.entry_seq().len() == 0,
    {
        let r = StrMap { entries: Vec::new() };
        assert(r@ =~= Map::<Seq<char>, Seq<char>>::empty());
        r
    }

    /// Sets `key` to `value`, replacing an earlier value of that key.
    pub fn set(&mut self, key: String, value: String)
        ensures
            final(self)@ == old(self)@.insert(key@, value@),
    {
        let ghost before = self.entries@;
        let ghost k = key@;
        let ghost v = value@;
        proof {
            lemma_index_in(keys(before), k, 0);
        }
        match find_key(&self.entries, &key) {
            Some(i) => {
                self.entries.set(i, (key, value));
                let ghost after = self.entries@;
                assert(keys(after) =~= keys(before));
                assert forall|j: Seq<char>|
                    #![auto]
                    map_of(after).contains_key(j) == map_of(before).insert(k, v).contains_key(j)
                        && (map_of(after).contains_key(j) ==> map_of(after)[j] == map_of(
                        before,
                    ).insert(k, v)[j]) by {
                    lemma_index_in(keys(before), j, 0);
                };
                assert(map_of(after) =~= map_of(before).insert(k, v));
            },
            None => {
                self.entries.push((key, value));
                let ghost after = self.entries@;
                assert(keys(after) =~= keys(before).push(k));
                let ghost m1 = map_of(after);
                let ghost m2 = map_of(before).insert(k, v);
                assert forall|j: Seq<char>|
                    #![trigger m1.dom().contains(j)]
                    #![trigger m2.dom().contains(j)]
                    m1.dom().contains(j) == m2.dom().contains(j) && (m1.dom().contains(j) ==> m1[j]
                        == m2[j]) by {
                    lemma_index_in_push(keys(before), k, j);
                    lemma_index_in(keys(before), j, 0);
                    assert(position(after, j) == index_in(keys(before).push(k), j, 0));
                    if position(before, j) is Some {
                        let x = position(before, j)->0;
                        assert(after[x] == before[x]);
                    } else if j == k {
                        assert(after[before.len() as int].1@ == v);
                    }
                };
                assert(m1.dom() =~= m2.dom());
                assert(map_of(after) =~= map_of(before).insert(k, v));
            },
        }
    }

    /// The value of `key`, if it is set.
    pub fn get(&self, key: &String) -> (r: Option<&String>)
        ensures
            r matches Some(v) ==> self@.contains_key(key@) && self@[key@] == v@,
            r is None ==> !self@.contains_key(key@),
    {
        match find_key(&self.entries, key) {
            Some(i) => Some(&self.entries[i].1),
            None => None,
        }
    }

    /// Whether no key is set.
    pub fn is_empty(&self) -> (r: bool)
        ensures
            r == (self@.dom() =~= Set::<Seq<char>>::empty()),
    {
        proof {
            if self.entries@.len() > 0 {
                let k = self.entries@[0].0@;
                lemma_index_in(keys(self.entries@), k, 0);
                assert(self@.contains_key(k));
            } else {
                assert forall|j: Seq<char>| !self@.contains_key(j) by {};
            }
        }
        self.entries.len() == 0
    }

    /// The entries, each key once, in the order in which they were first set.
    pub fn entries(&self) -> (r: &Vec<(String, String)>)
        ensures
            r@ == self.entry_seq(),
    {
        &self.entries
    }
}

} // verus!
