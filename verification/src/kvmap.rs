//! An association map from strings to strings with a mathematical `Map` view.
//!
//! One type serves two roles: the shared output context of a chain run, and
//! the in-memory file store that the repository works on.

use vstd::prelude::*;

verus! {

/// The map denoted by an entry sequence: later entries win, though a
/// well-formed value never holds a key twice.
pub open spec fn entries_map(s: Seq<(String, String)>) -> Map<Seq<char>, Seq<char>>
    decreases s.len(),
{
    if s.len() == 0 {
        Map::empty()
    } else {
        entries_map(s.drop_last()).insert(s.last().0@, s.last().1@)
    }
}

/// A key occurs in the map exactly when some entry carries it.
pub proof fn lemma_entries_dom(s: Seq<(String, String)>, k: Seq<char>)
    ensures
        entries_map(s).dom().contains(k) <==> exists|i: int| 0 <= i < s.len() && s[i].0@ == k,
    decreases s.len(),
{
    if s.len() > 0 {
        lemma_entries_dom(s.drop_last(), k);
        if s.last().0@ == k {
            assert(s[s.len() - 1].0@ == k);
        } else {
            if exists|i: int| 0 <= i < s.len() && s[i].0@ == k {
                let i = choose|i: int| 0 <= i < s.len() && s[i].0@ == k;
                assert(s.drop_last()[i].0@ == k);
            }
        }
    }
}

/// With unique keys, the map sends each entry's key to that entry's value.
pub proof fn lemma_entries_get(s: Seq<(String, String)>, i: int)
    requires
        forall|p: int, q: int| 0 <= p < q < s.len() ==> s[p].0@ != s[q].0@,
        0 <= i < s.len(),
    ensures
        entries_map(s).dom().contains(s[i].0@),
        entries_map(s)[s[i].0@] == s[i].1@,
    decreases s.len(),
{
    lemma_entries_dom(s, s[i].0@);
    if i < s.len() - 1 {
        assert(s.last().0@ != s[i].0@);
        lemma_entries_get(s.drop_last(), i);
    }
}

/// A string-keyed, string-valued map.
pub struct StrMap {
    pub entries: Vec<(String, String)>,
}

impl View for StrMap {
    type V = Map<Seq<char>, Seq<char>>;

    open spec fn view(&self) -> Map<Seq<char>, Seq<char>> {
        entries_map(self.entries@)
    }
}

impl StrMap {
    /// No key occurs twice.
    pub open spec fn wf(&self) -> bool {
        forall|p: int, q: int|
            0 <= p < q < self.entries@.len() ==> self.entries@[p].0@ != self.entries@[q].0@
    }

    pub fn new() -> (r: StrMap)
        ensures
            r@ == Map::<Seq<char>, Seq<char>>::empty(),
            r.wf(),
            r.entries@.len() == 0,
    {
        StrMap { entries: Vec::new() }
    }

    pub fn len(&self) -> (r: usize)
        ensures
            r == self.entries@.len(),
    {
        self.entries.len()
    }

    /// The position of the entry carrying the key, if any.
    pub fn get_index(&self, key: &String) -> (r: Option<usize>)
        ensures
            r matches Some(i) ==> 0 <= i < self.entries@.len() && self.entries@[i as int].0@
                == key@,
            r is None ==> forall|i: int|
                0 <= i < self.entries@.len() ==> self.entries@[i].0@ != key@,
    {
        let mut i: usize = 0;
        while i < self.entries.len()
            invariant
                0 <= i <= self.entries@.len(),
                forall|j: int| 0 <= j < i ==> self.entries@[j].0@ != key@,
            decreases self.entries@.len() - i,
        {
            if self.entries[i].0 == *key {
                return Some(i);
            }
            i += 1;
        }
        None
    }

    pub fn contains_key(&self, key: &String) -> (r: bool)
        ensures
            r == self@.dom().contains(key@),
    {
        proof {
            lemma_entries_dom(self.entries@, key@);
        }
        self.get_index(key).is_some()
    }

    pub fn get<'a>(&'a self, key: &String) -> (r: Option<&'a String>)
        requires
            self.wf(),
        ensures
            r matches Some(v) ==> self@.dom().contains(key@) && v@ == self@[key@],
            r is None ==> !self@.dom().contains(key@),
    {
        proof {
            lemma_entries_dom(self.entries@, key@);
        }
        match self.get_index(key) {
            Some(i) => {
                proof {
                    lemma_entries_get(self.entries@, i as int);
                }
                Some(&self.entries[i].1)
            },
            None => None,
        }
    }

    /// Inserts or overwrites; a later insert for the same key wins.
    pub fn insert(&mut self, key: String, value: String)
        requires
            old(self).wf(),
        ensures
            final(self)@ == old(self)@.insert(key@, value@),
            final(self).wf(),
            final(self).entries@.len() == old(self).entries@.len() + (
            if old(self)@.dom().contains(key@) {
                0int
            } else {
                1int
            }),
    {
        proof {
            lemma_entries_dom(self.entries@, key@);
        }
        match self.get_index(&key) {
            Some(i) => {
                self.entries[i] = (key, value);
                proof {
                    lemma_strmap_equiv(self.entries@, old(self).entries@.update(
                        i as int,
                        self.entries@[i as int],
                    ));
                    lemma_update_is_insert(old(self).entries@, i as int, self.entries@[i as int]);
                }
            },
            None => {
                self.entries.push((key, value));
                proof {
                    assert(self.entries@.drop_last() =~= old(self).entries@);
                }
            },
        }
    }

    /// Removes the key if present; reports whether it was there.
    pub fn remove(&mut self, key: &String) -> (r: bool)
        requires
            old(self).wf(),
        ensures
            final(self)@ == old(self)@.remove(key@),
            final(self).wf(),
            r == old(self)@.dom().contains(key@),
    {
        proof {
            lemma_entries_dom(self.entries@, key@);
        }
        match self.get_index(key) {
            Some(i) => {
                self.entries.remove(i);
                proof {
                    lemma_remove_entry(old(self).entries@, i as int);
                    assert(self.entries@ =~= old(self).entries@.remove(i as int));
                    lemma_strmap_equiv(
                        self.entries@,
                        old(self).entries@.remove(i as int),
                    );
                    assert(entries_map(self.entries@) =~= old(self)@.remove(key@));
                }
                true
            },
            None => {
                proof {
                    lemma_remove_absent(self.entries@, key@);
                    assert(entries_map(self.entries@) =~= old(self)@.remove(key@));
                }
                false
            },
        }
    }

    /// Structural copy; spec equality with the original is part of the contract.
    pub fn duplicate(&self) -> (r: StrMap)
        ensures
            r.entries@ == self.entries@,
            r@ == self@,
            r.wf() == self.wf(),
    {
        let mut entries: Vec<(String, String)> = Vec::new();
        let mut i: usize = 0;
        while i < self.entries.len()
            invariant
                0 <= i <= self.entries@.len(),
                entries@ =~= self.entries@.subrange(0, i as int),
            decreases self.entries@.len() - i,
        {
            let k = self.entries[i].0.clone();
            let v = self.entries[i].1.clone();
            entries.push((k, v));
            i += 1;
        }
        proof {
            assert(entries@ =~= self.entries@);
        }
        StrMap { entries }
    }
}

/// Equal entry sequences denote equal maps.
pub proof fn lemma_strmap_equiv(a: Seq<(String, String)>, b: Seq<(String, String)>)
    requires
        a =~= b,
    ensures
        entries_map(a) == entries_map(b),
{
}

/// Updating the entry at a position whose key had no later duplicate inserts
/// that entry's binding into the map.
pub proof fn lemma_update_is_insert(s: Seq<(String, String)>, i: int, e: (String, String))
    requires
        0 <= i < s.len(),
        forall|p: int, q: int| 0 <= p < q < s.len() ==> s[p].0@ != s[q].0@,
        e.0@ == s[i].0@,
    ensures
        entries_map(s.update(i, e)) == entries_map(s).insert(e.0@, e.1@),
    decreases s.len(),
{
    if i == s.len() - 1 {
        assert(s.update(i, e).drop_last() =~= s.drop_last());
        lemma_strmap_equiv(s.update(i, e).drop_last(), s.drop_last());
        assert(entries_map(s.update(i, e)) =~= entries_map(s).insert(e.0@, e.1@));
    } else {
        assert(s.update(i, e).drop_last() =~= s.drop_last().update(i, e));
        lemma_strmap_equiv(s.update(i, e).drop_last(), s.drop_last().update(i, e));
        lemma_update_is_insert(s.drop_last(), i, e);
        assert(s.last().0@ != e.0@);
        assert(s.update(i, e).last() == s.last());
        assert(entries_map(s.update(i, e)) =~= entries_map(s).insert(e.0@, e.1@));
    }
}

/// Removing the entry at a position whose key is unique removes that key from
/// the map.
pub proof fn lemma_remove_entry(s: Seq<(String, String)>, i: int)
    requires
        0 <= i < s.len(),
        forall|p: int, q: int| 0 <= p < q < s.len() ==> s[p].0@ != s[q].0@,
    ensures
        entries_map(s.remove(i)) == entries_map(s).remove(s[i].0@),
    decreases s.len(),
{
    if i == s.len() - 1 {
        assert(s.remove(i) =~= s.drop_last());
        lemma_strmap_equiv(s.remove(i), s.drop_last());
        lemma_remove_absent(s.drop_last(), s[i].0@);
        assert(entries_map(s.remove(i)) =~= entries_map(s).remove(s[i].0@));
    } else {
        assert(s.remove(i).drop_last() =~= s.drop_last().remove(i));
        lemma_strmap_equiv(s.remove(i).drop_last(), s.drop_last().remove(i));
        lemma_remove_entry(s.drop_last(), i);
        assert(s.remove(i).last() == s.last());
        assert(s.last().0@ != s[i].0@);
        assert(entries_map(s.remove(i)) =~= entries_map(s).remove(s[i].0@));
    }
}

/// Removing a key that no entry carries leaves the map unchanged.
pub proof fn lemma_remove_absent(s: Seq<(String, String)>, k: Seq<char>)
    requires
        forall|i: int| 0 <= i < s.len() ==> s[i].0@ != k,
    ensures
        entries_map(s).remove(k) == entries_map(s),
{
    lemma_entries_dom(s, k);
    assert(entries_map(s).remove(k) =~= entries_map(s));
}

} // verus!
