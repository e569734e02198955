//! The table of captured group texts.
//!
//! [`CaptureMap`] maps group indices to the texts their groups captured. Its
//! view is a `Map<nat, Seq<char>>`; insertion and merging follow
//! `Map::insert` and `Map::union_prefer_right`, so a later entry for a group
//! wins. The table is kept as a vector of entries in insertion order, and
//! lookups scan from the back.

use vstd::prelude::*;
use vstd::map_lib::lemma_union_insert_right;

verus! {

/// What a run of entries means: each entry overwrites any earlier entry with
/// the same key.
pub open spec fn entries_map(s: Seq<(usize, Vec<char>)>) -> Map<nat, Seq<char>>
    decreases s.len(),
{
    if s.len() == 0 {
        Map::empty()
    } else {
        entries_map(s.drop_last()).insert(s.last().0 as nat, s.last().1@)
    }
}

/// Captured texts by group index; later captures of a group replace earlier
/// ones.
pub struct CaptureMap {
    entries: Vec<(usize, Vec<char>)>,
}

impl View for CaptureMap {
    type V = Map<nat, Seq<char>>;

    closed spec fn view(&self) -> Map<nat, Seq<char>> {
        entries_map(self.entries@)
    }
}

/// An entry whose key has no later duplicate decides the map at that key.
proof fn lemma_entries_map_hit(s: Seq<(usize, Vec<char>)>, j: int)
    requires
        0 <= j < s.len(),
        forall|jj: int| j < jj < s.len() ==> s[jj].0 != s[j].0,
    ensures
        entries_map(s).dom().contains(s[j].0 as nat),
        entries_map(s)[s[j].0 as nat] == s[j].1@,
    decreases s.len(),
{
    if j == s.len() - 1 {
    } else {
        assert(s.drop_last()[j] == s[j]);
        lemma_entries_map_hit(s.drop_last(), j);
        assert(s.last().0 != s[j].0);
    }
}

/// A key that appears in no entry is not in the map.
proof fn lemma_entries_map_miss(s: Seq<(usize, Vec<char>)>, key: usize)
    requires
        forall|j: int| 0 <= j < s.len() ==> s[j].0 != key,
    ensures
        !entries_map(s).dom().contains(key as nat),
    decreases s.len(),
{
    if s.len() > 0 {
        lemma_entries_map_miss(s.drop_last(), key);
        assert(s.last() == s[s.len() - 1]);
        assert(s.last().0 as nat != key as nat);
    }
}

impl CaptureMap {
    /// The empty table.
    pub fn new() -> (r: CaptureMap)
        ensures
            r@ == Map::<nat, Seq<char>>::empty(),
    {
        CaptureMap { entries: Vec::new() }
    }

    /// Records `text` as the capture of group `group_index`, replacing any
    /// earlier capture of that group.
    pub fn insert(&mut self, group_index: usize, text: Vec<char>)
        ensures
            final(self)@ == old(self)@.insert(group_index as nat, text@),
    {
        let ghost old_entries = self.entries@;
        let ghost t = text@;
        self.entries.push((group_index, text));
        proof {
            assert(self.entries@.drop_last() =~= old_entries);
            assert(self.entries@.last() == (group_index, self.entries@.last().1));
            assert(self.entries@.last().1@ == t);
        }
    }

    /// Looks up the text captured by `group_index`, if any.
    pub fn get(&self, group_index: usize) -> (r: Option<&Vec<char>>)
        ensures
            match r {
                Some(text) => self@.dom().contains(group_index as nat)
                    && self@[group_index as nat] == text@,
                None => !self@.dom().contains(group_index as nat),
            },
    {
        let mut j: usize = self.entries.len();
        while j > 0
            invariant
                j <= self.entries.len(),
                forall|jj: int| j <= jj < self.entries@.len() ==> self.entries@[jj].0 != group_index,
            decreases j,
        {
            j = j - 1;
            if self.entries[j].0 == group_index {
                proof {
                    lemma_entries_map_hit(self.entries@, j as int);
                }
                return Some(&self.entries[j].1);
            }
        }
        proof {
            lemma_entries_map_miss(self.entries@, group_index);
        }
        None
    }

    /// Merges `other` into `self`; on a shared group index the entry of
    /// `other` wins.
    pub fn merge(&mut self, other: &CaptureMap)
        ensures
            final(self)@ == old(self)@.union_prefer_right(other@),
    {
        let ghost m0 = old(self)@;
        let mut k: usize = 0;
        proof {
            assert(other.entries@.subrange(0, 0) =~= Seq::<(usize, Vec<char>)>::empty());
            assert(m0.union_prefer_right(Map::empty()) =~= m0);
        }
        while k < other.entries.len()
            invariant
                k <= other.entries.len(),
                self@ == m0.union_prefer_right(entries_map(other.entries@.subrange(0, k as int))),
            decreases other.entries.len() - k,
        {
            let ghost pre = other.entries@.subrange(0, k as int);
            let key = other.entries[k].0;
            let text = copy_chars(&other.entries[k].1);
            self.insert(key, text);
            proof {
                let post = other.entries@.subrange(0, k as int + 1);
                assert(post.drop_last() =~= pre);
                assert(post.last() == other.entries@[k as int]);
                lemma_union_insert_right(m0, entries_map(pre), key as nat, other.entries@[k as int].1@);
            }
            k = k + 1;
        }
        proof {
            assert(other.entries@.subrange(0, other.entries@.len() as int) =~= other.entries@);
        }
    }

    /// A copy of the table with the same contents.
    pub fn duplicate(&self) -> (r: CaptureMap)
        ensures
            r@ == self@,
    {
        let mut r = CaptureMap::new();
        r.merge(self);
        proof {
            assert(Map::<nat, Seq<char>>::empty().union_prefer_right(self@) =~= self@);
        }
        r
    }
}

/// A copy of a text.
pub fn copy_chars(v: &Vec<char>) -> (r: Vec<char>)
    ensures
        r@ == v@,
{
    let mut r: Vec<char> = Vec::new();
    let mut k: usize = 0;
    while k < v.len()
        invariant
            k <= v.len(),
            r@ == v@.subrange(0, k as int),
        decreases v.len() - k,
    {
        r.push(v[k]);
        proof {
            assert(v@.subrange(0, k as int + 1) =~= v@.subrange(0, k as int).push(v@[k as int]));
        }
        k = k + 1;
    }
    proof {
        assert(v@.subrange(0, v@.len() as int) =~= v@);
    }
    r
}

} // verus!
