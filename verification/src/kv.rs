//! An ordered string-to-string map kept as a vector of pairs whose keys
//! strictly increase in byte order (the order of `str`).

use vstd::prelude::*;
use vstd::utf8::{decode_utf8, encode_utf8, encode_utf8_decode_utf8};

use crate::bytes::{
    bytes_lt, compare_bytes, lemma_bytes_lt_asymmetric, lemma_bytes_lt_irreflexive,
    lemma_bytes_lt_total, lemma_bytes_lt_transitive, Cmp,
};
use crate::std_hash::pairs_view;

verus! {

/// The UTF-8 bytes of a string, by which keys are ordered.
pub open spec fn key_bytes(k: Seq<char>) -> Seq<u8> {
    encode_utf8(k)
}

/// Keys strictly increase in byte order.
pub open spec fn keys_sorted(s: Seq<(Seq<char>, Seq<char>)>) -> bool {
    forall|i: int, j: int|
        0 <= i < j < s.len() ==> bytes_lt(key_bytes(#[trigger] s[i].0), key_bytes(#[trigger] s[j].0))
}

/// No key occurs twice.
pub open spec fn keys_unique(s: Seq<(Seq<char>, Seq<char>)>) -> bool {
    forall|i: int, j: int| 0 <= i < s.len() && 0 <= j < s.len() && i != j ==> #[trigger] s[i].0 != #[trigger] s[j].0
}

/// The map that a list of pairs collects into, a later pair overriding an earlier
/// one with the same key.
pub open spec fn pairs_to_map(s: Seq<(Seq<char>, Seq<char>)>) -> Map<Seq<char>, Seq<char>>
    decreases s.len(),
{
    if s.len() == 0 {
        Map::empty()
    } else {
        pairs_to_map(s.drop_last()).insert(s.last().0, s.last().1)
    }
}

/// Two strings with the same UTF-8 bytes are the same string.
pub proof fn lemma_key_bytes_injective(a: Seq<char>, b: Seq<char>)
    requires
        key_bytes(a) == key_bytes(b),
    ensures
        a == b,
{
    encode_utf8_decode_utf8(a);
    encode_utf8_decode_utf8(b);
}

/// Whether two strings are equal, compared by their bytes.
pub fn str_eq(a: &str, b: &str) -> (res: bool)
    ensures
        res == (a@ == b@),
{
    match compare_bytes(a.as_bytes(), b.as_bytes()) {
        Cmp::Equal => {
            proof {
                lemma_key_bytes_injective(a@, b@);
            }
            true
        },
        _ => false,
    }
}

/// Sorted keys are unique.
pub proof fn lemma_sorted_unique(s: Seq<(Seq<char>, Seq<char>)>)
    requires
        keys_sorted(s),
    ensures
        keys_unique(s),
{
    assert forall|i: int, j: int| 0 <= i < s.len() && 0 <= j < s.len() && i != j implies #[trigger] s[i].0
        != #[trigger] s[j].0 by {
        if i < j {
            assert(bytes_lt(key_bytes(s[i].0), key_bytes(s[j].0)));
            lemma_bytes_lt_irreflexive(key_bytes(s[i].0));
        } else {
            assert(bytes_lt(key_bytes(s[j].0), key_bytes(s[i].0)));
            lemma_bytes_lt_irreflexive(key_bytes(s[j].0));
        }
    }
}

/// With unique keys, the map holds exactly the pairs of the list.
pub proof fn lemma_map_of_unique(s: Seq<(Seq<char>, Seq<char>)>)
    requires
        keys_unique(s),
    ensures
        forall|k: Seq<char>|
            pairs_to_map(s).contains_key(k) <==> exists|i: int| 0 <= i < s.len() && #[trigger] s[i].0 == k,
        forall|i: int| 0 <= i < s.len() ==> pairs_to_map(s)[#[trigger] s[i].0] == s[i].1,
        pairs_to_map(s).dom().len() == s.len(),
        pairs_to_map(s).dom().finite(),
    decreases s.len(),
{
    if s.len() > 0 {
        let t = s.drop_last();
        assert(keys_unique(t));
        lemma_map_of_unique(t);
        let m = pairs_to_map(t);
        let n = s.len() - 1;
        assert(!m.contains_key(s[n].0)) by {
            if m.contains_key(s[n].0) {
                let i = choose|i: int| 0 <= i < t.len() && #[trigger] t[i].0 == s[n].0;
                assert(s[i].0 == s[n].0);
            }
        }
        assert forall|k: Seq<char>|
            pairs_to_map(s).contains_key(k) <==> exists|i: int| 0 <= i < s.len() && #[trigger] s[i].0
                == k by {
            if pairs_to_map(s).contains_key(k) && k != s[n].0 {
                let i = choose|i: int| 0 <= i < t.len() && #[trigger] t[i].0 == k;
                assert(s[i].0 == k);
            }
            if exists|i: int| 0 <= i < s.len() && #[trigger] s[i].0 == k {
                let i = choose|i: int| 0 <= i < s.len() && #[trigger] s[i].0 == k;
                if i < n {
                    assert(t[i].0 == k);
                }
            }
        }
        assert forall|i: int| 0 <= i < s.len() implies pairs_to_map(s)[#[trigger] s[i].0] == s[i].1 by {
            if i < n {
                assert(t[i] == s[i]);
                assert(s[i].0 != s[n].0);
            }
        }
        assert(pairs_to_map(s).dom() =~= m.dom().insert(s[n].0));
    } else {
        assert(pairs_to_map(s).dom() =~= Set::empty());
    }
}

/// Two sorted lists that collect into the same map are the same list.
pub proof fn lemma_sorted_determined(s1: Seq<(Seq<char>, Seq<char>)>, s2: Seq<(Seq<char>, Seq<char>)>)
    requires
        keys_sorted(s1),
        keys_sorted(s2),
        pairs_to_map(s1) == pairs_to_map(s2),
    ensures
        s1 == s2,
{
    lemma_sorted_unique(s1);
    lemma_sorted_unique(s2);
    lemma_map_of_unique(s1);
    lemma_map_of_unique(s2);
    assert(s1.len() == s2.len());
    assert forall|i: int| 0 <= i < s1.len() implies s1[i] == s2[i] by {
        lemma_sorted_position(s1, s2, i);
    }
    assert(s1 =~= s2);
}

/// In two sorted lists with the same keys, a key has the same position.
proof fn lemma_sorted_position(s1: Seq<(Seq<char>, Seq<char>)>, s2: Seq<(Seq<char>, Seq<char>)>, i: int)
    requires
        keys_sorted(s1),
        keys_sorted(s2),
        keys_unique(s1),
        keys_unique(s2),
        pairs_to_map(s1) == pairs_to_map(s2),
        s1.len() == s2.len(),
        0 <= i < s1.len(),
        forall|k: Seq<char>|
            pairs_to_map(s1).contains_key(k) <==> exists|j: int| 0 <= j < s1.len() && #[trigger] s1[j].0 == k,
        forall|k: Seq<char>|
            pairs_to_map(s2).contains_key(k) <==> exists|j: int| 0 <= j < s2.len() && #[trigger] s2[j].0 == k,
        forall|j: int| 0 <= j < s1.len() ==> pairs_to_map(s1)[#[trigger] s1[j].0] == s1[j].1,
        forall|j: int| 0 <= j < s2.len() ==> pairs_to_map(s2)[#[trigger] s2[j].0] == s2[j].1,
    ensures
        s1[i] == s2[i],
    decreases i,
{
    if i > 0 {
        lemma_sorted_position(s1, s2, i - 1);
    }
    // s1[i].0 occurs in s2 at some position p; positions below i hold the same keys.
    let k = s1[i].0;
    assert(pairs_to_map(s1).contains_key(k));
    let p = choose|j: int| 0 <= j < s2.len() && #[trigger] s2[j].0 == k;
    let k2 = s2[i].0;
    assert(pairs_to_map(s2).contains_key(k2));
    let q = choose|j: int| 0 <= j < s1.len() && #[trigger] s1[j].0 == k2;
    if p < i {
        lemma_sorted_position(s1, s2, p);
        assert(s1[p].0 == k);
    } else if p > i {
        // k2 = s2[i] precedes s2[p] = k; k2 sits in s1 at q
        assert(bytes_lt(key_bytes(k2), key_bytes(k)));
        if q < i {
            lemma_sorted_position(s1, s2, q);
            assert(s2[q].0 == k2);
        } else if q > i {
            assert(bytes_lt(key_bytes(k), key_bytes(k2)));
            lemma_bytes_lt_asymmetric(key_bytes(k2), key_bytes(k));
        }
    }
    assert(s1[i].0 == s2[i].0);
    assert(s1[i].1 == pairs_to_map(s1)[k]);
    assert(s2[i].1 == pairs_to_map(s2)[k]);
}

/// A string-to-string map ordered by key bytes, as a `BTreeMap<String, String>`
/// orders it.
pub struct OrderedEntries {
    entries: Vec<(String, String)>,
}

impl OrderedEntries {
    /// The pairs in key order.
    pub closed spec fn spec_entries(&self) -> Seq<(Seq<char>, Seq<char>)> {
        pairs_view(self.entries@)
    }

    /// The map the entries represent.
    pub open spec fn view(&self) -> Map<Seq<char>, Seq<char>> {
        pairs_to_map(self.spec_entries())
    }

    pub closed spec fn wf(&self) -> bool {
        keys_sorted(self.spec_entries())
    }

    pub proof fn lemma_wf(&self)
        requires
            self.wf(),
        ensures
            keys_sorted(self.spec_entries()),
            keys_unique(self.spec_entries()),
            forall|i: int|
                0 <= i < self.spec_entries().len() ==> self@[#[trigger] self.spec_entries()[i].0]
                    == self.spec_entries()[i].1,
            forall|k: Seq<char>|
                self@.contains_key(k) <==> exists|i: int|
                    0 <= i < self.spec_entries().len() && #[trigger] self.spec_entries()[i].0 == k,
            self@.dom().finite(),
            self@.dom().len() == self.spec_entries().len(),
    {
        lemma_sorted_unique(self.spec_entries());
        lemma_map_of_unique(self.spec_entries());
    }

    pub fn new() -> (res: Self)
        ensures
            res.wf(),
            res@ == Map::<Seq<char>, Seq<char>>::empty(),
            res.spec_entries() == Seq::<(Seq<char>, Seq<char>)>::empty(),
    {
        let res = OrderedEntries { entries: Vec::new() };
        assert(res.spec_entries() =~= Seq::<(Seq<char>, Seq<char>)>::empty());
        res
    }

    pub fn len(&self) -> (res: usize)
        ensures
            res == self.spec_entries().len(),
    {
        self.entries.len()
    }

    /// The pairs in key order.
    pub fn entries(&self) -> (res: &Vec<(String, String)>)
        ensures
            pairs_view(res@) == self.spec_entries(),
    {
        &self.entries
    }

    /// The first position whose key is not below `key`, and whether it holds `key`.
    fn search(&self, key: &str) -> (res: (usize, bool))
        requires
            self.wf(),
        ensures
            res.0 <= self.spec_entries().len(),
            forall|j: int|
                0 <= j < res.0 ==> bytes_lt(
                    key_bytes(#[trigger] self.spec_entries()[j].0),
                    key_bytes(key@),
                ),
            forall|j: int|
                res.0 <= j < self.spec_entries().len() ==> !bytes_lt(
                    key_bytes(#[trigger] self.spec_entries()[j].0),
                    key_bytes(key@),
                ),
            res.1 <==> (res.0 < self.spec_entries().len() && self.spec_entries()[res.0 as int].0
                == key@),
            !res.1 ==> forall|j: int|
                res.0 <= j < self.spec_entries().len() ==> bytes_lt(
                    key_bytes(key@),
                    key_bytes(#[trigger] self.spec_entries()[j].0),
                ),
    {
        let ghost s = self.spec_entries();
        let kb = key.as_bytes();
        let mut lo: usize = 0;
        let mut hi: usize = self.entries.len();
        while lo < hi
            invariant
                s == self.spec_entries(),
                keys_sorted(s),
                kb@ == key_bytes(key@),
                lo <= hi <= s.len(),
                s.len() == self.entries@.len(),
                forall|j: int| 0 <= j < lo ==> bytes_lt(key_bytes(#[trigger] s[j].0), kb@),
                forall|j: int| hi <= j < s.len() ==> !bytes_lt(key_bytes(#[trigger] s[j].0), kb@),
            decreases hi - lo,
        {
            let mid = lo + (hi - lo) / 2;
            let mb = self.entries[mid].0.as_str().as_bytes();
            assert(s[mid as int].0 == self.entries@[mid as int].0@);
            match compare_bytes(mb, kb) {
                Cmp::Less => {
                    assert forall|j: int| 0 <= j < mid + 1 implies bytes_lt(
                        key_bytes(#[trigger] s[j].0),
                        kb@,
                    ) by {
                        if j < mid {
                            lemma_bytes_lt_transitive(
                                key_bytes(s[j].0),
                                key_bytes(s[mid as int].0),
                                kb@,
                            );
                        }
                    }
                    lo = mid + 1;
                },
                _ => {
                    assert forall|j: int| mid <= j < s.len() implies !bytes_lt(
                        key_bytes(#[trigger] s[j].0),
                        kb@,
                    ) by {
                        if j > mid && bytes_lt(key_bytes(s[j].0), kb@) {
                            lemma_bytes_lt_transitive(
                                key_bytes(s[mid as int].0),
                                key_bytes(s[j].0),
                                kb@,
                            );
                        }
                    }
                    hi = mid;
                },
            }
        }
        if lo < self.entries.len() {
            let lb = self.entries[lo].0.as_str().as_bytes();
            assert(s[lo as int].0 == self.entries@[lo as int].0@);
            match compare_bytes(lb, kb) {
                Cmp::Equal => {
                    proof {
                        lemma_key_bytes_injective(s[lo as int].0, key@);
                    }
                    (lo, true)
                },
                _ => {
                    assert(s[lo as int].0 != key@);
                    proof {
                    assert forall|j: int| lo <= j < s.len() implies bytes_lt(
                        key_bytes(key@),
                        key_bytes(#[trigger] s[j].0),
                    ) by {
                        assert(!bytes_lt(key_bytes(s[j].0), kb@));
                        if j == lo {
                            lemma_bytes_lt_total(key_bytes(s[j].0), kb@);
                        } else {
                            lemma_bytes_lt_total(key_bytes(s[lo as int].0), kb@);
                            lemma_bytes_lt_transitive(kb@, key_bytes(s[lo as int].0), key_bytes(s[j].0));
                        }
                    }
                    }
                    (lo, false)
                },
            }
        } else {
            (lo, false)
        }
    }

    /// The value stored under `key`.
    pub fn get(&self, key: &str) -> (res: Option<&String>)
        requires
            self.wf(),
        ensures
            match res {
                Some(v) => self@.contains_key(key@) && self@[key@] == v@,
                None => !self@.contains_key(key@),
            },
    {
        proof {
            self.lemma_wf();
        }
        let (i, found) = self.search(key);
        if found {
            Some(&self.entries[i].1)
        } else {
            proof {
                let s = self.spec_entries();
                if self@.contains_key(key@) {
                    let j = choose|j: int| 0 <= j < s.len() && #[trigger] s[j].0 == key@;
                    if j < i {
                        lemma_bytes_lt_irreflexive(key_bytes(key@));
                    } else {
                        lemma_bytes_lt_irreflexive(key_bytes(key@));
                    }
                }
            }
            None
        }
    }

    /// Stores `value` under `key`, replacing a previous value.
    pub fn insert(&mut self, key: String, value: String)
        requires
            old(self).wf(),
        ensures
            final(self).wf(),
            final(self)@ == old(self)@.insert(key@, value@),
    {
        proof {
            self.lemma_wf();
        }
        let ghost s = self.spec_entries();
        let (i, found) = self.search(key.as_str());
        let ghost kv = (key@, value@);
        if found {
            self.entries.set(i, (key, value));
            proof {
                let t = self.spec_entries();
                assert(t =~= s.update(i as int, kv));
                assert(keys_sorted(t)) by {
                    assert forall|a: int, b: int| 0 <= a < b < t.len() implies bytes_lt(
                        key_bytes(#[trigger] t[a].0),
                        key_bytes(#[trigger] t[b].0),
                    ) by {
                        assert(s[a].0 == t[a].0 && s[b].0 == t[b].0);
                    }
                }
                self.lemma_wf();
                assert(self@ =~= old(self)@.insert(key@, value@)) by {
                    assert forall|k: Seq<char>| #[trigger] self@.contains_key(k) == old(self)@.insert(
                        key@,
                        value@,
                    ).contains_key(k) by {
                        if self@.contains_key(k) {
                            let j = choose|j: int| 0 <= j < t.len() && #[trigger] t[j].0 == k;
                            assert(s[j].0 == k);
                        }
                        if old(self)@.contains_key(k) {
                            let j = choose|j: int| 0 <= j < s.len() && #[trigger] s[j].0 == k;
                            assert(t[j].0 == k);
                        }
                    }
                    assert forall|k: Seq<char>| #[trigger] self@.contains_key(k) implies self@[k]
                        == old(self)@.insert(key@, value@)[k] by {
                        let j = choose|j: int| 0 <= j < t.len() && #[trigger] t[j].0 == k;
                        if j != i {
                            assert(s[j] == t[j]);
                        }
                    }
                }
            }
        } else {
            self.entries.insert(i, (key, value));
            proof {
                let t = self.spec_entries();
                assert(t =~= s.insert(i as int, kv));
                assert(keys_sorted(t)) by {
                    assert forall|a: int, b: int| 0 <= a < b < t.len() implies bytes_lt(
                        key_bytes(#[trigger] t[a].0),
                        key_bytes(#[trigger] t[b].0),
                    ) by {
                        if b < i {
                            assert(t[a] == s[a] && t[b] == s[b]);
                        } else if a > i {
                            assert(t[a] == s[a - 1] && t[b] == s[b - 1]);
                        } else if a == i {
                            assert(t[b] == s[b - 1]);
                        } else if b == i {
                            assert(t[a] == s[a]);
                        } else {
                            assert(t[a] == s[a] && t[b] == s[b - 1]);
                            lemma_bytes_lt_transitive(key_bytes(s[a].0), key_bytes(key@), key_bytes(s[b - 1].0));
                        }
                    }
                }
                self.lemma_wf();
                assert(self@ =~= old(self)@.insert(key@, value@)) by {
                    assert forall|k: Seq<char>| #[trigger] self@.contains_key(k) == old(self)@.insert(
                        key@,
                        value@,
                    ).contains_key(k) by {
                        if self@.contains_key(k) && k != key@ {
                            let j = choose|j: int| 0 <= j < t.len() && #[trigger] t[j].0 == k;
                            if j < i {
                                assert(s[j].0 == k);
                            } else if j > i {
                                assert(s[j - 1].0 == k);
                            }
                        }
                        if old(self)@.contains_key(k) {
                            let j = choose|j: int| 0 <= j < s.len() && #[trigger] s[j].0 == k;
                            if j < i {
                                assert(t[j].0 == k);
                            } else {
                                assert(t[j + 1].0 == k);
                            }
                        }
                        if k == key@ {
                            assert(t[i as int].0 == k);
                        }
                    }
                    assert forall|k: Seq<char>| #[trigger] self@.contains_key(k) implies self@[k]
                        == old(self)@.insert(key@, value@)[k] by {
                        let j = choose|j: int| 0 <= j < t.len() && #[trigger] t[j].0 == k;
                        if j < i {
                            assert(s[j] == t[j]);
                            assert(bytes_lt(key_bytes(s[j].0), key_bytes(key@)));
                            lemma_bytes_lt_irreflexive(key_bytes(key@));
                            assert(old(self)@[s[j].0] == s[j].1);
                        } else if j > i {
                            assert(s[j - 1] == t[j]);
                            assert(bytes_lt(key_bytes(key@), key_bytes(s[j - 1].0)));
                            lemma_bytes_lt_irreflexive(key_bytes(key@));
                            assert(old(self)@[s[j - 1].0] == s[j - 1].1);
                        } else {
                            assert(t[j] == kv);
                        }
                    }
                }
            }
        }
    }

    /// Removes `key` and its value, if present.
    pub fn remove(&mut self, key: &str)
        requires
            old(self).wf(),
        ensures
            final(self).wf(),
            final(self)@ == old(self)@.remove(key@),
    {
        proof {
            self.lemma_wf();
        }
        let ghost s = self.spec_entries();
        let (i, found) = self.search(key);
        if found {
            let _gone = self.entries.remove(i);
            proof {
                let t = self.spec_entries();
                assert(t =~= s.remove(i as int));
                assert(keys_sorted(t)) by {
                    assert forall|a: int, b: int| 0 <= a < b < t.len() implies bytes_lt(
                        key_bytes(#[trigger] t[a].0),
                        key_bytes(#[trigger] t[b].0),
                    ) by {
                        if b < i {
                            assert(t[a] == s[a] && t[b] == s[b]);
                        } else if a >= i {
                            assert(t[a] == s[a + 1] && t[b] == s[b + 1]);
                        } else {
                            assert(t[a] == s[a] && t[b] == s[b + 1]);
                        }
                    }
                }
                self.lemma_wf();
                assert(self@ =~= old(self)@.remove(key@)) by {
                    assert forall|k: Seq<char>| #[trigger] self@.contains_key(k) == old(self)@.remove(
                        key@,
                    ).contains_key(k) by {
                        if self@.contains_key(k) {
                            let j = choose|j: int| 0 <= j < t.len() && #[trigger] t[j].0 == k;
                            if j < i {
                                assert(s[j].0 == k);
                                assert(s[j].0 != s[i as int].0);
                            } else {
                                assert(s[j + 1].0 == k);
                                assert(s[j + 1].0 != s[i as int].0);
                            }
                        }
                        if old(self)@.contains_key(k) && k != key@ {
                            let j = choose|j: int| 0 <= j < s.len() && #[trigger] s[j].0 == k;
                            if j < i {
                                assert(t[j].0 == k);
                            } else {
                                assert(j != i);
                                assert(t[j - 1].0 == k);
                            }
                        }
                    }
                    assert forall|k: Seq<char>| #[trigger] self@.contains_key(k) implies self@[k]
                        == old(self)@.remove(key@)[k] by {
                        let j = choose|j: int| 0 <= j < t.len() && #[trigger] t[j].0 == k;
                        if j < i {
                            assert(s[j] == t[j]);
                        } else {
                            assert(s[j + 1] == t[j]);
                        }
                    }
                }
            }
        } else {
            proof {
                if old(self)@.contains_key(key@) {
                    let j = choose|j: int| 0 <= j < s.len() && #[trigger] s[j].0 == key@;
                    lemma_bytes_lt_irreflexive(key_bytes(key@));
                }
                assert(old(self)@.remove(key@) =~= old(self)@);
            }
        }
    }
}

} // verus!
