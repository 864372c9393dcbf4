//! In-memory model of the favorites key-value store: records keyed by
//! session token, each value the canonical encoding of a duplicate-free
//! favorites list. The deployment's store is external; this model carries
//! the same interface (get, put, delete) and is what the session manager
//! is verified against.

use vstd::prelude::*;
use crate::models::GoatId;
use crate::codec::{json_of, encode_favorites};

verus! {

pub open spec fn keys_unique(s: Seq<(String, String)>) -> bool {
    forall|i: int, j: int| 0 <= i < j < s.len() ==> (#[trigger] s[i]).0@ != (#[trigger] s[j]).0@
}

pub open spec fn pairs_map(s: Seq<(String, String)>) -> Map<Seq<char>, Seq<char>>
    decreases s.len(),
{
    if s.len() == 0 {
        Map::<Seq<char>, Seq<char>>::empty()
    } else {
        pairs_map(s.drop_last()).insert(s.last().0@, s.last().1@)
    }
}

/// A stored record is the canonical encoding of some duplicate-free list.
pub open spec fn wf_record(v: Seq<char>) -> bool {
    exists|l: Seq<u32>| l.no_duplicates() && v == json_of(l)
}

/// The favorites store, viewed as a map from token text to record text.
pub struct FavStore {
    entries: Vec<(String, String)>,
}

impl View for FavStore {
    type V = Map<Seq<char>, Seq<char>>;

    closed spec fn view(&self) -> Map<Seq<char>, Seq<char>> {
        pairs_map(self.entries@)
    }
}

proof fn lemma_pairs_map_domain(s: Seq<(String, String)>, k: Seq<char>)
    ensures
        pairs_map(s).contains_key(k) <==> exists|i: int|
            0 <= i < s.len() && (#[trigger] s[i]).0@ == k,
    decreases s.len(),
{
    if s.len() > 0 {
        lemma_pairs_map_domain(s.drop_last(), k);
        if s.last().0@ == k {
            assert(s[s.len() - 1].0@ == k);
        } else {
            if pairs_map(s).contains_key(k) {
                let i = choose|i: int|
                    0 <= i < s.drop_last().len() && (#[trigger] s.drop_last()[i]).0@ == k;
                assert(s[i].0@ == k);
            }
            if exists|i: int| 0 <= i < s.len() && (#[trigger] s[i]).0@ == k {
                let i = choose|i: int| 0 <= i < s.len() && (#[trigger] s[i]).0@ == k;
                assert(i < s.len() - 1);
                assert(s.drop_last()[i].0@ == k);
            }
        }
    }
}

proof fn lemma_pairs_map_value(s: Seq<(String, String)>, i: int)
    requires
        keys_unique(s),
        0 <= i < s.len(),
    ensures
        pairs_map(s).contains_key(s[i].0@),
        pairs_map(s)[s[i].0@] == s[i].1@,
    decreases s.len(),
{
    if i == s.len() - 1 {
    } else {
        lemma_pairs_map_value(s.drop_last(), i);
        assert(s.drop_last()[i] == s[i]);
        assert(s.last().0@ != s[i].0@);
    }
}

proof fn lemma_pairs_map_remove(s: Seq<(String, String)>, i: int)
    requires
        keys_unique(s),
        0 <= i < s.len(),
    ensures
        pairs_map(s.remove(i)) =~= pairs_map(s).remove(s[i].0@),
    decreases s.len(),
{
    lemma_pairs_map_domain(s.drop_last(), s[i].0@);
    if i == s.len() - 1 {
        assert(s.remove(i) =~= s.drop_last());
        assert(!pairs_map(s.drop_last()).contains_key(s[i].0@));
        assert(pairs_map(s.drop_last()) =~= pairs_map(s.drop_last()).remove(s[i].0@));
    } else {
        assert(s.remove(i).drop_last() =~= s.drop_last().remove(i));
        assert(s.remove(i).last() == s.last());
        lemma_pairs_map_remove(s.drop_last(), i);
        assert(s.drop_last()[i] == s[i]);
        assert(s.last().0@ != s[i].0@);
    }
}

impl FavStore {
    /// One record per token text.
    pub closed spec fn inv(&self) -> bool {
        keys_unique(self.entries@)
    }

    /// Unique keys, and every record well formed.
    pub open spec fn wf(&self) -> bool {
        &&& self.inv()
        &&& forall|k: Seq<char>| self@.contains_key(k) ==> wf_record(#[trigger] self@[k])
    }

    /// An empty store: no token has a record.
    pub fn new() -> (r: FavStore)
        ensures
            r@ == Map::<Seq<char>, Seq<char>>::empty(),
            r.wf(),
    {
        let r = FavStore { entries: Vec::new() };
        proof {
            assert(r@ =~= Map::<Seq<char>, Seq<char>>::empty());
        }
        r
    }

    /// Read the record stored under `key`, if there is one.
    pub fn get(&self, key: &String) -> (r: Option<String>)
        requires
            self.wf(),
        ensures
            match r {
                Some(v) => self@.contains_key(key@) && v@ == self@[key@],
                None => !self@.contains_key(key@),
            },
    {
        let mut i: usize = 0;
        while i < self.entries.len()
            invariant
                0 <= i <= self.entries@.len(),
                self.wf(),
                forall|j: int| 0 <= j < i ==> (#[trigger] self.entries@[j]).0@ != key@,
            decreases self.entries@.len() - i,
        {
            if self.entries[i].0 == *key {
                proof {
                    lemma_pairs_map_value(self.entries@, i as int);
                }
                return Some(self.entries[i].1.clone());
            }
            i = i + 1;
        }
        proof {
            lemma_pairs_map_domain(self.entries@, key@);
        }
        None
    }

    /// Whether a record exists under `key`.
    pub fn contains(&self, key: &String) -> (r: bool)
        requires
            self.wf(),
        ensures
            r == self@.contains_key(key@),
    {
        self.get(key).is_some()
    }

    /// Delete the record under `key`; a missing key is a no-op.
    pub fn delete(&mut self, key: &String)
        requires
            old(self).wf(),
        ensures
            final(self)@ =~= old(self)@.remove(key@),
            final(self).wf(),
    {
        let mut i: usize = 0;
        while i < self.entries.len()
            invariant
                0 <= i <= self.entries@.len(),
                self.wf(),
                self == old(self),
                forall|j: int| 0 <= j < i ==> (#[trigger] self.entries@[j]).0@ != key@,
            decreases self.entries@.len() - i,
        {
            if self.entries[i].0 == *key {
                proof {
                    lemma_pairs_map_remove(self.entries@, i as int);
                }
                let ghost pre = self.entries@;
                self.entries.remove(i);
                proof {
                    assert(keys_unique(self.entries@)) by {
                        assert(forall|a: int|
                            0 <= a < self.entries@.len() ==> #[trigger] self.entries@[a] == if a
                                < i { pre[a] } else { pre[a + 1] });
                    }
                }
                return ;
            }
            i = i + 1;
        }
        proof {
            lemma_pairs_map_domain(self.entries@, key@);
            assert(self@ =~= old(self)@.remove(key@));
        }
    }

    /// Write `list`'s canonical record under `key`, replacing any record
    /// already there.
    pub fn put_list(&mut self, key: String, list: &Vec<GoatId>)
        requires
            old(self).wf(),
            list@.no_duplicates(),
        ensures
            final(self)@ =~= old(self)@.insert(key@, json_of(list@)),
            final(self).wf(),
    {
        self.delete(&key);
        let ghost mid = self.entries@;
        let value = encode_favorites(list);
        self.entries.push((key, value));
        proof {
            assert(self.entries@.drop_last() =~= mid);
            lemma_pairs_map_domain(mid, self.entries@.last().0@);
            assert(keys_unique(self.entries@)) by {
                assert(forall|a: int|
                    0 <= a < mid.len() ==> #[trigger] self.entries@[a] == mid[a]);
            }
            assert(self@ =~= old(self)@.insert(self.entries@.last().0@, json_of(list@)));
            assert(wf_record(json_of(list@)));
        }
    }
}

} // verus!
