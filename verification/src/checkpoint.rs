//! Checkpoints of memory: what memory was before a batch of cycles.
use vstd::prelude::*;

use crate::events::MemoryRecord;
use crate::table::Table;

verus! {

/// The records of a checkpoint: those that were there before the batch. Where the program has
/// ended, all memory is in it; otherwise only what the batch has touched.
pub open spec fn checkpoint_records(
    current: Map<u32, MemoryRecord>,
    touched: Map<u32, Option<MemoryRecord>>,
    done: bool,
) -> Map<u32, MemoryRecord> {
    Map::new(
        |addr: u32|
            if touched.contains_key(addr) {
                touched[addr] is Some
            } else {
                done && current.contains_key(addr)
            },
        |addr: u32|
            if touched.contains_key(addr) {
                touched[addr].unwrap()
            } else {
                current[addr]
            },
    )
}

/// The initial values of a checkpoint. Where the program has ended, those that were not there
/// before the batch are left out; otherwise only those that the batch has used are in it.
pub open spec fn checkpoint_initial_values(
    current: Map<u32, u32>,
    touched: Map<u32, bool>,
    done: bool,
) -> Map<u32, u32> {
    if done {
        current.remove_keys(touched.dom().filter(|addr: u32| !touched[addr]))
    } else {
        current.restrict(touched.dom().filter(|addr: u32| touched[addr]))
    }
}

/// Where the batch has left a word alone a checkpoint of an ended program has its current record;
/// where it has touched a word, the checkpoint has the record that the word had first, and none
/// where it had none.
pub proof fn law_checkpoint_records(
    current: Map<u32, MemoryRecord>,
    touched: Map<u32, Option<MemoryRecord>>,
    addr: u32,
)
    ensures
        !touched.contains_key(addr) ==> checkpoint_records(current, touched, true).get(addr)
            == current.get(addr),
        touched.contains_key(addr) ==> checkpoint_records(current, touched, true).get(addr)
            == touched[addr],
        checkpoint_records(current, touched, false).submap_of(
            checkpoint_records(current, touched, true),
        ),
{
}

/// The records of a checkpoint.
pub fn build_records(
    current: &Table<MemoryRecord>,
    touched: &Table<Option<MemoryRecord>>,
    done: bool,
) -> (records: Table<MemoryRecord>)
    ensures
        records@ == checkpoint_records(current@, touched@, done),
{
    let mut records: Table<MemoryRecord> = if done {
        current.duplicate()
    } else {
        Table::new()
    };
    let ghost mut seen: Map<u32, Option<MemoryRecord>> = Map::empty();
    assert(records@ =~= checkpoint_records(current@, seen, done));
    let count: usize = touched.len();
    let mut i: usize = 0;
    while i < count
        invariant
            i <= count,
            count == touched.keys().len(),
            touched.keys_are_domain(),
            records@ == checkpoint_records(current@, seen, done),
            seen.submap_of(touched@),
            forall|j: int| 0 <= j < i ==> seen.contains_key(#[trigger] touched.keys()[j]),
        decreases count - i,
    {
        let (addr, record) = touched.entry_at(i);
        match record {
            Some(record) => {
                records.insert(addr, *record);
            },
            None => {
                records.remove(addr);
            },
        }
        proof {
            let before = seen;
            seen = before.insert(addr, *record);
            assert(records@ =~= checkpoint_records(current@, seen, done));
        }
        i = i + 1;
    }
    assert(seen =~= touched@) by {
        assert forall|addr: u32| touched@.contains_key(addr) implies seen.contains_key(addr) by {
            let j = choose|j: int| 0 <= j < touched.keys().len() && touched.keys()[j] == addr;
            assert(seen.contains_key(touched.keys()[j]));
        }
    }
    records
}

/// The initial values of a checkpoint.
pub fn build_initial_values(current: &Table<u32>, touched: &Table<bool>, done: bool) -> (values:
    Table<u32>)
    requires
        !done ==> forall|addr: u32| #[trigger]
            touched@.contains_key(addr) && touched@[addr] ==> current@.contains_key(addr),
    ensures
        values@ == checkpoint_initial_values(current@, touched@, done),
{
    let mut values: Table<u32> = if done {
        current.duplicate()
    } else {
        Table::new()
    };
    let ghost mut seen: Map<u32, bool> = Map::empty();
    assert(values@ =~= checkpoint_initial_values(current@, seen, done));
    let count: usize = touched.len();
    let mut i: usize = 0;
    while i < count
        invariant
            i <= count,
            count == touched.keys().len(),
            touched.keys_are_domain(),
            values@ == checkpoint_initial_values(current@, seen, done),
            seen.submap_of(touched@),
            forall|j: int| 0 <= j < i ==> seen.contains_key(#[trigger] touched.keys()[j]),
            !done ==> forall|addr: u32| #[trigger]
                touched@.contains_key(addr) && touched@[addr] ==> current@.contains_key(addr),
        decreases count - i,
    {
        let (addr, is_old) = touched.entry_at(i);
        if done && !*is_old {
            values.remove(addr);
        }
        if !done && *is_old {
            if let Some(value) = current.get(addr) {
                values.insert(addr, *value);
            }
        }
        proof {
            let before = seen;
            seen = before.insert(addr, *is_old);
            assert(values@ =~= checkpoint_initial_values(current@, seen, done));
        }
        i = i + 1;
    }
    assert(seen =~= touched@) by {
        assert forall|addr: u32| touched@.contains_key(addr) implies seen.contains_key(addr) by {
            let j = choose|j: int| 0 <= j < touched.keys().len() && touched.keys()[j] == addr;
            assert(seen.contains_key(touched.keys()[j]));
        }
    }
    values
}

/// A checkpoint has the record that a word had at its first access in the batch, and none where it had
/// none. Of the words that the batch has left alone it has the current records where the program has
/// ended, and none where it has not.
pub proof fn law_checkpoint_contents(
    current: Map<u32, MemoryRecord>,
    touched: Map<u32, Option<MemoryRecord>>,
    done: bool,
    addr: u32,
)
    ensures
        checkpoint_records(current, touched, done).get(addr) == if touched.contains_key(addr) {
            touched[addr]
        } else if done {
            current.get(addr)
        } else {
            None
        },
{
}

/// Of the initial values a checkpoint of an ended program leaves out those that are marked as new, and no
/// others; that of a program that has not ended has just those that are marked as old.
pub proof fn law_checkpoint_values(
    current: Map<u32, u32>,
    touched: Map<u32, bool>,
    done: bool,
    addr: u32,
)
    ensures
        ({
            let values = checkpoint_initial_values(current, touched, done);
            let old_one = touched.get(addr) == Some(true);
            let new_one = touched.get(addr) == Some(false);
            &&& done ==> values.get(addr) == if new_one {
                None
            } else {
                current.get(addr)
            }
            &&& !done ==> values.get(addr) == if old_one {
                current.get(addr)
            } else {
                None
            }
        }),
{
}

} // verus!
