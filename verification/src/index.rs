//! Hash collections over 32-bit words.
//!
//! Both collections live in `hashbrown`. The functions of this module are the only ones that call
//! it; what they claim of it is stated over the contents of the collection, a map or a set.
use vstd::prelude::*;

verus! {

/// The entries of a [`WordIndex`].
pub uninterp spec fn index_entries(index: WordIndex) -> Map<u32, usize>;

/// The members of a [`WordSet`].
pub uninterp spec fn set_members(set: WordSet) -> Set<u32>;

/// A `hashbrown::HashMap` from words to positions.
#[verifier::external_body]
pub struct WordIndex {
    inner: hashbrown::HashMap<u32, usize>,
}

impl WordIndex {
    /// Calls `hashbrown::HashMap::new`: the new map has no entries.
    #[verifier::external_body]
    pub(crate) fn new() -> (index: WordIndex)
        ensures
            (index_entries(index) == Map::<u32, usize>::empty()),
    {
        WordIndex { inner: hashbrown::HashMap::new() }
    }

    /// Calls `hashbrown::HashMap::get`: the value stored under `key`, if there is one.
    #[verifier::external_body]
    pub(crate) fn get(&self, key: u32) -> (position: Option<usize>)
        ensures
            position == if index_entries(*self).contains_key(key) {
                Some(index_entries(*self)[key])
            } else {
                None
            },
    {
        self.inner.get(&key).copied()
    }

    /// Calls `hashbrown::HashMap::insert`: `position` is stored under `key`, in place of whatever
    /// was there; no other entry changes.
    #[verifier::external_body]
    pub(crate) fn insert(&mut self, key: u32, position: usize)
        ensures
            index_entries(*final(self)) == index_entries(*old(self)).insert(key, position),
    {
        self.inner.insert(key, position);
    }

    /// Calls `hashbrown::HashMap::remove`: the entry under `key` is gone; no other entry changes.
    #[verifier::external_body]
    pub(crate) fn remove(&mut self, key: u32)
        ensures
            index_entries(*final(self)) == index_entries(*old(self)).remove(key),
    {
        self.inner.remove(&key);
    }

    /// Calls `hashbrown::HashMap::clear`: no entry is left.
    #[verifier::external_body]
    pub(crate) fn clear(&mut self)
        ensures
            (index_entries(*final(self)) == Map::<u32, usize>::empty()),
    {
        self.inner.clear();
    }
}

/// A `hashbrown::HashSet` of words.
#[verifier::external_body]
pub struct WordSet {
    inner: hashbrown::HashSet<u32>,
}

impl View for WordSet {
    type V = Set<u32>;

    open spec fn view(&self) -> Set<u32> {
        set_members(*self)
    }
}

impl WordSet {
    /// Calls `hashbrown::HashSet::new`: the new set is empty.
    #[verifier::external_body]
    pub(crate) fn new() -> (set: WordSet)
        ensures
            set_members(set) == Set::<u32>::empty(),
    {
        WordSet { inner: hashbrown::HashSet::new() }
    }

    /// Calls `hashbrown::HashSet::contains`: whether `word` is a member.
    #[verifier::external_body]
    pub(crate) fn contains(&self, word: u32) -> (found: bool)
        ensures
            found == set_members(*self).contains(word),
    {
        self.inner.contains(&word)
    }

    /// Calls `hashbrown::HashSet::insert`: `word` is a member afterwards; nothing else changes.
    #[verifier::external_body]
    pub(crate) fn insert(&mut self, word: u32)
        ensures
            set_members(*final(self)) == set_members(*old(self)).insert(word),
    {
        self.inner.insert(word);
    }

    /// Calls `hashbrown::HashSet::clear`: no member is left.
    #[verifier::external_body]
    pub(crate) fn clear(&mut self)
        ensures
            set_members(*final(self)) == Set::<u32>::empty(),
    {
        self.inner.clear();
    }

    /// Calls `hashbrown::HashSet::len`: the number of members.
    #[verifier::external_body]
    pub(crate) fn len(&self) -> (count: usize)
        ensures
            count == set_members(*self).len(),
    {
        self.inner.len()
    }
}

impl Clone for WordSet {
    /// Calls `hashbrown::HashSet::clone`: the copy has the same members.
    #[verifier::external_body]
    fn clone(&self) -> (set: WordSet)
        ensures
            set_members(set) == set_members(*self),
    {
        WordSet { inner: self.inner.clone() }
    }
}

} // verus!
