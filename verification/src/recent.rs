//! Bounded histories of words.
use std::collections::VecDeque;

use vstd::prelude::*;

verus! {

/// A history after one more entry; at its limit it forgets its oldest entry.
pub open spec fn remembered(history: Seq<u32>, limit: nat, entry: u32) -> Seq<u32> {
    if history.len() >= limit && history.len() > 0 {
        history.drop_first().push(entry)
    } else {
        history.push(entry)
    }
}

/// Adds an entry to a history.
pub(crate) fn remember(history: &mut VecDeque<u32>, limit: usize, entry: u32)
    ensures
        final(history)@ == remembered(old(history)@, limit as nat, entry),
{
    if history.len() >= limit {
        history.pop_front();
    }
    history.push_back(entry);
    assert(history@ =~= remembered(old(history)@, limit as nat, entry));
}

/// Whether a history has an entry.
pub(crate) fn contains_word(history: &VecDeque<u32>, word: u32) -> (found: bool)
    ensures
        found == history@.contains(word),
{
    let mut i: usize = 0;
    while i < history.len()
        invariant
            i <= history@.len(),
            forall|j: int| 0 <= j < i ==> #[trigger] history@[j] != word,
        decreases history@.len() - i,
    {
        if history[i] == word {
            assert(history@[i as int] == word);
            return true;
        }
        i = i + 1;
    }
    false
}

/// A history never grows beyond its limit, and its latest entry is in it.
pub proof fn law_bounded(history: Seq<u32>, limit: nat, entry: u32)
    requires
        0 < limit,
        history.len() <= limit,
    ensures
        remembered(history, limit, entry).len() <= limit,
        remembered(history, limit, entry).last() == entry,
        remembered(history, limit, entry).contains(entry),
{
    let after = remembered(history, limit, entry);
    assert(after[after.len() - 1] == entry);
}

/// A history takes a new entry at its end. Where it was full, its first entry is gone; otherwise it is one
/// longer. All other entries stay in order.
pub proof fn law_remembered(history: Seq<u32>, limit: nat, entry: u32, i: int)
    requires
        0 < limit,
        history.len() <= limit,
        0 <= i < remembered(history, limit, entry).len() - 1,
    ensures
        remembered(history, limit, entry).len() == if history.len() == limit {
            limit
        } else {
            history.len() + 1
        },
        remembered(history, limit, entry)[remembered(history, limit, entry).len() - 1] == entry,
        remembered(history, limit, entry)[i] == if history.len() == limit {
            history[i + 1]
        } else {
            history[i]
        },
{
}

} // verus!
