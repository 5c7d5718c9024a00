//! Memory records and the events that accesses leave behind.
use vstd::prelude::*;

verus! {

/// A word of memory, or a register, with the time of its last access.
#[derive(Clone, Copy, PartialEq, Eq, Structural, Debug)]
pub struct MemoryRecord {
    /// The value.
    pub value: u32,
    /// The shard of the last access.
    pub shard: u32,
    /// The time of the last access within its shard.
    pub timestamp: u32,
}

impl MemoryRecord {
    /// A record that nothing has accessed yet.
    pub open spec fn untouched(value: u32) -> MemoryRecord {
        MemoryRecord { value, shard: 0, timestamp: 0 }
    }
}

impl Default for MemoryRecord {
    fn default() -> (record: MemoryRecord)
        ensures
            record == MemoryRecord::untouched(0),
    {
        MemoryRecord { value: 0, shard: 0, timestamp: 0 }
    }
}

/// The place of an access within the four time steps of an instruction.
#[derive(Clone, Copy, PartialEq, Eq, Structural, Debug)]
pub enum MemoryAccessPosition {
    /// A word of memory.
    Memory,
    /// The register of operand `c`.
    C,
    /// The register of operand `b`.
    B,
    /// The register of operand `a`.
    A,
}

/// What a read of a word gives back.
#[derive(Clone, Copy, PartialEq, Eq, Structural, Debug)]
pub struct MemoryReadRecord {
    /// The value read.
    pub value: u32,
    /// The shard of the read.
    pub shard: u32,
    /// The time of the read.
    pub timestamp: u32,
    /// The shard of the access before.
    pub prev_shard: u32,
    /// The time of the access before.
    pub prev_timestamp: u32,
}

/// What a write of a word gives back.
#[derive(Clone, Copy, PartialEq, Eq, Structural, Debug)]
pub struct MemoryWriteRecord {
    /// The value written.
    pub value: u32,
    /// The shard of the write.
    pub shard: u32,
    /// The time of the write.
    pub timestamp: u32,
    /// The value before.
    pub prev_value: u32,
    /// The shard of the access before.
    pub prev_shard: u32,
    /// The time of the access before.
    pub prev_timestamp: u32,
}

/// The first and the last record of a word within a shard.
#[derive(Clone, Copy, PartialEq, Eq, Structural, Debug)]
pub struct MemoryLocalEvent {
    /// The address of the word.
    pub addr: u32,
    /// The record before the first access.
    pub initial_mem_access: MemoryRecord,
    /// The record after the last access.
    pub final_mem_access: MemoryRecord,
}

} // verus!
