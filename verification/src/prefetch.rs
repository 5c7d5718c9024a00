//! The prefetch buffer, which keeps recently read memory records at hand, and the stride predictor,
//! which proposes the next address to fetch.
use vstd::prelude::*;

use crate::events::MemoryRecord;

verus! {

/// The number of records that the prefetch buffer holds.
pub const PREFETCH_BUFFER_SIZE: usize = 32;

/// The number of addresses that the stride predictor remembers.
pub const PREFETCH_STRIDE_TABLE_SIZE: usize = 16;

/// What a prefetch buffer holds: slots, whether each is in use, and the slot to fill next.
#[verifier::ext_equal]
pub ghost struct PrefetchView {
    pub entries: Seq<(u32, MemoryRecord)>,
    pub valid: Seq<bool>,
    pub next_slot: int,
}

impl PrefetchView {
    /// The sizes are right and the next slot is one.
    pub open spec fn wf(self) -> bool {
        &&& self.entries.len() == PREFETCH_BUFFER_SIZE
        &&& self.valid.len() == PREFETCH_BUFFER_SIZE
        &&& 0 <= self.next_slot < PREFETCH_BUFFER_SIZE
    }

    /// No slot is in use.
    pub open spec fn initial() -> PrefetchView {
        PrefetchView {
            entries: Seq::new(
                PREFETCH_BUFFER_SIZE as nat,
                |i: int| (0u32, MemoryRecord::untouched(0)),
            ),
            valid: Seq::new(PREFETCH_BUFFER_SIZE as nat, |i: int| false),
            next_slot: 0,
        }
    }

    /// Slot `i` is in use and holds a record of the word at `addr`.
    pub open spec fn hit(self, i: int, addr: u32) -> bool {
        &&& 0 <= i < PREFETCH_BUFFER_SIZE
        &&& self.valid[i]
        &&& self.entries[i].0 == addr
    }

    /// Slot `i` is the first that holds a record of the word at `addr`.
    pub open spec fn first_hit(self, i: int, addr: u32) -> bool {
        &&& self.hit(i, addr)
        &&& forall|j: int| 0 <= j < i ==> !#[trigger] self.hit(j, addr)
    }

    /// The buffer holds a record of the word at `addr`.
    pub open spec fn holds(self, addr: u32) -> bool {
        exists|i: int| #[trigger] self.hit(i, addr)
    }

    /// The record that the buffer gives for the word at `addr`: that of the first slot that holds
    /// one.
    pub open spec fn record(self, addr: u32) -> Option<MemoryRecord> {
        if self.holds(addr) {
            Some(self.entries[choose|i: int| #[trigger] self.first_hit(i, addr)].1)
        } else {
            None
        }
    }

    /// The buffer after a record has taken the next slot.
    pub open spec fn inserted(self, addr: u32, record: MemoryRecord) -> PrefetchView {
        PrefetchView {
            entries: self.entries.update(self.next_slot, (addr, record)),
            valid: self.valid.update(self.next_slot, true),
            next_slot: (self.next_slot + 1) % PREFETCH_BUFFER_SIZE as int,
        }
    }

    /// The buffer after every record of the word at `addr` has been replaced.
    pub open spec fn refreshed(self, addr: u32, record: MemoryRecord) -> PrefetchView {
        PrefetchView {
            entries: Seq::new(
                self.entries.len(),
                |i: int|
                    if self.hit(i, addr) {
                        (addr, record)
                    } else {
                        self.entries[i]
                    },
            ),
            ..self
        }
    }

    /// A first hit is the only one, and there is one where there is any hit.
    pub proof fn lemma_first_hit(self, i: int, addr: u32)
        requires
            self.hit(i, addr),
        ensures
            exists|j: int| #[trigger] self.first_hit(j, addr),
            forall|j: int, k: int| #[trigger]
                self.first_hit(j, addr) && #[trigger] self.first_hit(k, addr) ==> j == k,
        decreases i,
    {
        if forall|j: int| 0 <= j < i ==> !#[trigger] self.hit(j, addr) {
            assert(self.first_hit(i, addr));
        } else {
            let j = choose|j: int| 0 <= j < i && #[trigger] self.hit(j, addr);
            self.lemma_first_hit(j, addr);
        }
    }

    /// A record that the buffer gives stands in a slot.
    pub proof fn lemma_record(self, addr: u32)
        ensures
            self.record(addr) matches Some(r) ==> exists|i: int| #[trigger]
                self.hit(i, addr) && self.entries[i].1 == r,
    {
        if self.holds(addr) {
            let i = choose|i: int| #[trigger] self.hit(i, addr);
            self.lemma_first_hit(i, addr);
            let j = choose|j: int| #[trigger] self.first_hit(j, addr);
            assert(self.hit(j, addr));
        }
    }

    /// A record that has just been put in is given back, unless the buffer held another one of the
    /// same word before; it displaces at most the record of its slot, so that every other word is
    /// given as before unless its record stood there.
    pub proof fn law_insert_lookup(self, addr: u32, record: MemoryRecord, other: u32)
        requires
            self.wf(),
        ensures
            self.inserted(addr, record).wf(),
            !self.holds(addr) ==> self.inserted(addr, record).record(addr) == Some(record),
            other != addr && !self.hit(self.next_slot, other) ==> self.inserted(
                addr,
                record,
            ).record(other) == self.record(other),
    {
        let after = self.inserted(addr, record);
        assert(after.hit(self.next_slot, addr));
        after.lemma_first_hit(self.next_slot, addr);
        let j = choose|j: int| #[trigger] after.first_hit(j, addr);
        if j != self.next_slot && !self.holds(addr) {
            assert(self.hit(j, addr));
        }
        if other != addr && !self.hit(self.next_slot, other) {
            assert forall|i: int| after.hit(i, other) == self.hit(i, other) by {}
            if self.holds(other) {
                let i = choose|i: int| #[trigger] self.hit(i, other);
                assert(after.hit(i, other));
                self.lemma_first_hit(i, other);
                after.lemma_first_hit(i, other);
                let k = choose|k: int| #[trigger] self.first_hit(k, other);
                assert(after.first_hit(k, other));
            } else if after.holds(other) {
                let i = choose|i: int| #[trigger] after.hit(i, other);
                assert(self.hit(i, other));
            }
        }
    }

    /// After a refresh the buffer gives the new record of the word, if it gives any, and the old
    /// records of all other words.
    pub proof fn law_refresh_lookup(self, addr: u32, record: MemoryRecord, other: u32)
        requires
            self.wf(),
        ensures
            self.refreshed(addr, record).wf(),
            self.refreshed(addr, record).holds(other) == self.holds(other),
            self.refreshed(addr, record).record(other) == if other == addr && self.holds(addr) {
                Some(record)
            } else {
                self.record(other)
            },
    {
        let after = self.refreshed(addr, record);
        assert forall|i: int| after.hit(i, other) == self.hit(i, other) by {}
        if self.holds(other) {
            let i = choose|i: int| #[trigger] self.hit(i, other);
            assert(after.hit(i, other));
            self.lemma_first_hit(i, other);
            after.lemma_first_hit(i, other);
            let j = choose|j: int| #[trigger] self.first_hit(j, other);
            assert(after.first_hit(j, other));
        } else {
            assert(!after.holds(other)) by {
                if after.holds(other) {
                    let i = choose|i: int| #[trigger] after.hit(i, other);
                    assert(self.hit(i, other));
                }
            }
        }
    }
}

/// Prefetch buffer for memory accesses.
pub struct PrefetchBuffer {
    entries: Box<[(u32, MemoryRecord); PREFETCH_BUFFER_SIZE]>,
    valid: Box<[bool; PREFETCH_BUFFER_SIZE]>,
    next_slot: usize,
}

impl View for PrefetchBuffer {
    type V = PrefetchView;

    closed spec fn view(&self) -> PrefetchView {
        PrefetchView {
            entries: self.entries@,
            valid: self.valid@,
            next_slot: self.next_slot as int,
        }
    }
}

impl Default for PrefetchBuffer {
    fn default() -> (buffer: PrefetchBuffer)
        ensures
            buffer@ == PrefetchView::initial(),
    {
        let buffer = PrefetchBuffer {
            entries: Box::new([(0u32, MemoryRecord { value: 0, shard: 0, timestamp: 0 }); 32]),
            valid: Box::new([false; 32]),
            next_slot: 0,
        };
        assert(buffer@ =~= PrefetchView::initial());
        buffer
    }
}

impl Clone for PrefetchBuffer {
    fn clone(&self) -> (buffer: PrefetchBuffer)
        ensures
            buffer@ == self@,
    {
        proof {
            use_type_invariant(self);
        }
        PrefetchBuffer {
            entries: Box::new(*self.entries),
            valid: Box::new(*self.valid),
            next_slot: self.next_slot,
        }
    }
}

impl PrefetchBuffer {
    #[verifier::type_invariant]
    spec fn in_range(&self) -> bool {
        self.next_slot < PREFETCH_BUFFER_SIZE
    }

    /// The record that the buffer gives for the word at `addr`.
    pub fn lookup(&self, addr: u32) -> (record: Option<&MemoryRecord>)
        ensures
            self@.wf(),
            match record {
                Some(r) => self@.record(addr) == Some(*r),
                None => self@.record(addr) is None,
            },
    {
        proof {
            use_type_invariant(self);
        }
        let mut i: usize = 0;
        while i < PREFETCH_BUFFER_SIZE
            invariant
                i <= PREFETCH_BUFFER_SIZE,
                self@.wf(),
                forall|j: int| 0 <= j < i ==> !#[trigger] self@.hit(j, addr),
            decreases PREFETCH_BUFFER_SIZE - i,
        {
            if self.valid[i] && self.entries[i].0 == addr {
                proof {
                    assert(self@.hit(i as int, addr));
                    self@.lemma_first_hit(i as int, addr);
                    assert(self@.first_hit(i as int, addr));
                }
                return Some(&self.entries[i].1);
            }
            i = i + 1;
        }
        None
    }

    /// Puts a record into the next slot, in the place of what the slot held.
    pub fn insert(&mut self, addr: u32, record: MemoryRecord)
        ensures
            old(self)@.wf(),
            final(self)@ == old(self)@.inserted(addr, record),
    {
        proof {
            use_type_invariant(&*self);
        }
        let slot: usize = self.next_slot;
        self.entries[slot] = (addr, record);
        self.valid[slot] = true;
        self.next_slot = (slot + 1) % PREFETCH_BUFFER_SIZE;
        assert(self@ =~= old(self)@.inserted(addr, record));
    }

    /// Replaces every record of the word at `addr`.
    pub fn refresh(&mut self, addr: u32, record: MemoryRecord)
        ensures
            old(self)@.wf(),
            final(self)@ == old(self)@.refreshed(addr, record),
    {
        proof {
            use_type_invariant(&*self);
        }
        let mut i: usize = 0;
        while i < PREFETCH_BUFFER_SIZE
            invariant
                i <= PREFETCH_BUFFER_SIZE,
                old(self)@.wf(),
                self.next_slot < PREFETCH_BUFFER_SIZE,
                self@.valid == old(self)@.valid,
                self@.next_slot == old(self)@.next_slot,
                self@.entries.len() == PREFETCH_BUFFER_SIZE,
                forall|j: int|
                    0 <= j < PREFETCH_BUFFER_SIZE ==> #[trigger] self@.entries[j] == if j < i
                        && old(self)@.hit(j, addr) {
                        (addr, record)
                    } else {
                        old(self)@.entries[j]
                    },
            decreases PREFETCH_BUFFER_SIZE - i,
        {
            assert(self@.entries[i as int] == old(self)@.entries[i as int]);
            if self.valid[i] && self.entries[i].0 == addr {
                assert(old(self)@.hit(i as int, addr));
                self.entries[i] = (addr, record);
            }
            i = i + 1;
        }
        assert(self@ =~= old(self)@.refreshed(addr, record));
    }
}

/// What a stride predictor remembers: addresses with their strides, and the slot to fill next.
#[verifier::ext_equal]
pub ghost struct StrideView {
    pub entries: Seq<(u32, i32)>,
    pub next_slot: int,
}

impl StrideView {
    /// The size is right and the next slot is one.
    pub open spec fn wf(self) -> bool {
        &&& self.entries.len() == PREFETCH_STRIDE_TABLE_SIZE
        &&& 0 <= self.next_slot < PREFETCH_STRIDE_TABLE_SIZE
    }

    /// Nothing is remembered; address zero marks a free slot.
    pub open spec fn initial() -> StrideView {
        StrideView {
            entries: Seq::new(PREFETCH_STRIDE_TABLE_SIZE as nat, |i: int| (0u32, 0i32)),
            next_slot: 0,
        }
    }

    /// The access to `addr` continues the stride of slot `i`.
    pub open spec fn continues(self, i: int, addr: u32) -> bool {
        &&& 0 <= i < PREFETCH_STRIDE_TABLE_SIZE
        &&& self.entries[i].0 != 0
        &&& (addr as i32).wrapping_sub(self.entries[i].0 as i32) == self.entries[i].1
    }

    /// Slot `i` is the first whose stride the access to `addr` continues.
    pub open spec fn first_continued(self, i: int, addr: u32) -> bool {
        &&& self.continues(i, addr)
        &&& forall|j: int| 0 <= j < i ==> !#[trigger] self.continues(j, addr)
    }

    /// The access to `addr` continues some stride.
    pub open spec fn continued(self, addr: u32) -> bool {
        exists|i: int| #[trigger] self.first_continued(i, addr)
    }

    /// The address that follows `addr`: one stride on, where the access continues a stride.
    pub open spec fn prediction(self, addr: u32) -> Option<u32> {
        if self.continued(addr) {
            let i = choose|i: int| #[trigger] self.first_continued(i, addr);
            Some(addr.wrapping_add(self.entries[i].1 as u32))
        } else {
            None
        }
    }

    /// What is remembered after an access: a new address with stride zero, unless the access
    /// continues a stride.
    pub open spec fn after(self, addr: u32) -> StrideView {
        if self.continued(addr) {
            self
        } else {
            StrideView {
                entries: self.entries.update(self.next_slot, (addr, 0i32)),
                next_slot: (self.next_slot + 1) % PREFETCH_STRIDE_TABLE_SIZE as int,
            }
        }
    }

    /// All strides are zero.
    pub open spec fn still(self) -> bool {
        &&& self.wf()
        &&& forall|i: int|
            0 <= i < PREFETCH_STRIDE_TABLE_SIZE ==> (#[trigger] self.entries[i]).1 == 0
    }

    /// The predictor starts with zero strides and never learns another one: what it predicts is
    /// the accessed address itself.
    pub proof fn law_still(self, addr: u32)
        ensures
            StrideView::initial().still(),
            self.still() ==> self.after(addr).still(),
            self.still() ==> (self.prediction(addr) matches Some(next) ==> next == addr),
    {
        if self.still() && self.continued(addr) {
            let i = choose|i: int| #[trigger] self.first_continued(i, addr);
            assert(self.entries[i].1 == 0);
            assert(addr.wrapping_add(0i32 as u32) == addr);
        }
    }
}

/// Stride predictor for memory accesses.
pub struct StridePredictor {
    entries: Box<[(u32, i32); PREFETCH_STRIDE_TABLE_SIZE]>,
    next_slot: usize,
}

impl View for StridePredictor {
    type V = StrideView;

    closed spec fn view(&self) -> StrideView {
        StrideView { entries: self.entries@, next_slot: self.next_slot as int }
    }
}

impl Default for StridePredictor {
    fn default() -> (predictor: StridePredictor)
        ensures
            predictor@ == StrideView::initial(),
    {
        let predictor = StridePredictor { entries: Box::new([(0u32, 0i32); 16]), next_slot: 0 };
        assert(predictor@ =~= StrideView::initial());
        predictor
    }
}

impl Clone for StridePredictor {
    fn clone(&self) -> (predictor: StridePredictor)
        ensures
            predictor@ == self@,
    {
        proof {
            use_type_invariant(self);
        }
        StridePredictor { entries: Box::new(*self.entries), next_slot: self.next_slot }
    }
}

impl StridePredictor {
    #[verifier::type_invariant]
    spec fn in_range(&self) -> bool {
        self.next_slot < PREFETCH_STRIDE_TABLE_SIZE
    }

    /// The address that is likely to be accessed after `addr`.
    pub fn predict_next_addr(&mut self, addr: u32) -> (next: Option<u32>)
        ensures
            old(self)@.wf(),
            next == old(self)@.prediction(addr),
            final(self)@ == old(self)@.after(addr),
    {
        proof {
            use_type_invariant(&*self);
        }
        let mut i: usize = 0;
        while i < PREFETCH_STRIDE_TABLE_SIZE
            invariant
                i <= PREFETCH_STRIDE_TABLE_SIZE,
                self.next_slot < PREFETCH_STRIDE_TABLE_SIZE,
                *self == *old(self),
                self@.wf(),
                forall|j: int| 0 <= j < i ==> !#[trigger] self@.continues(j, addr),
            decreases PREFETCH_STRIDE_TABLE_SIZE - i,
        {
            let (last_addr, stride) = self.entries[i];
            if last_addr != 0 && (addr as i32).wrapping_sub(last_addr as i32) == stride {
                proof {
                    assert(self@.first_continued(i as int, addr));
                    assert forall|j: int| #[trigger] self@.first_continued(j, addr) implies j
                        == i by {
                        assert(self@.continues(i as int, addr));
                        assert(self@.continues(j, addr));
                    }
                }
                return Some(addr.wrapping_add(stride as u32));
            }
            i = i + 1;
        }
        proof {
            assert forall|j: int| !#[trigger] self@.first_continued(j, addr) by {
                assert(0 <= j < PREFETCH_STRIDE_TABLE_SIZE ==> !self@.continues(j, addr));
            }
        }
        let slot: usize = self.next_slot;
        self.entries[slot] = (addr, 0);
        self.next_slot = (slot + 1) % PREFETCH_STRIDE_TABLE_SIZE;
        assert(self@ =~= old(self)@.after(addr));
        None
    }
}

impl PrefetchView {
    /// The buffer gives the record of the first slot in use that has the address, and none where no slot
    /// in use has it.
    pub proof fn law_lookup(self, addr: u32, i: int)
        requires
            self.wf(),
            0 <= i < 32,
        ensures
            self.valid[i] && self.entries[i].0 == addr && (forall|j: int|
                0 <= j < i ==> !(#[trigger] self.valid[j] && self.entries[j].0 == addr))
                ==> self.record(addr) == Some(self.entries[i].1),
            (forall|j: int|
                0 <= j < 32 ==> !(#[trigger] self.valid[j] && self.entries[j].0 == addr))
                ==> self.record(addr) is None,
    {
        if self.valid[i] && self.entries[i].0 == addr && (forall|j: int|
            0 <= j < i ==> !(#[trigger] self.valid[j] && self.entries[j].0 == addr)) {
            assert(self.hit(i, addr));
            self.lemma_first_hit(i, addr);
            assert forall|j: int| 0 <= j < i implies !#[trigger] self.hit(j, addr) by {
                assert(!(self.valid[j] && self.entries[j].0 == addr));
            }
            assert(self.first_hit(i, addr));
        }
        if forall|j: int| 0 <= j < 32 ==> !(#[trigger] self.valid[j] && self.entries[j].0 == addr) {
            if self.holds(addr) {
                let j = choose|j: int| #[trigger] self.hit(j, addr);
                assert(self.valid[j] && self.entries[j].0 == addr);
            }
        }
    }

    /// A record that is put in takes the next slot, and the slot behind it is the next one; a refresh
    /// changes the records of one address where they stand. All other slots stay.
    pub proof fn law_slots(self, addr: u32, record: MemoryRecord, i: int)
        requires
            self.wf(),
            0 <= i < 32,
        ensures
            ({
                let put = self.inserted(addr, record);
                let fresh = self.refreshed(addr, record);
                &&& put.entries.len() == 32 && put.valid.len() == 32
                &&& put.next_slot == if self.next_slot == 31 {
                    0
                } else {
                    self.next_slot + 1
                }
                &&& put.entries[i] == if i == self.next_slot {
                    (addr, record)
                } else {
                    self.entries[i]
                }
                &&& put.valid[i] == (i == self.next_slot || self.valid[i])
                &&& fresh.entries.len() == 32
                &&& fresh.valid == self.valid
                &&& fresh.next_slot == self.next_slot
                &&& fresh.entries[i] == if self.valid[i] && self.entries[i].0 == addr {
                    (addr, record)
                } else {
                    self.entries[i]
                }
            }),
    {
    }
}

impl StrideView {
    /// An access that lies a remembered stride behind a remembered address proposes the address one
    /// stride on, by the first slot for which this is so, and nothing new is remembered. Any other
    /// access proposes nothing, and is remembered in the next slot with a stride of zero.
    pub proof fn law_stride(self, addr: u32, i: int)
        requires
            self.wf(),
            0 <= i < 16,
        ensures
            self.entries[i].0 != 0 && (addr as i32).wrapping_sub(self.entries[i].0 as i32)
                == self.entries[i].1 && (forall|j: int|
                0 <= j < i ==> (#[trigger] self.entries[j]).0 == 0 || (addr as i32).wrapping_sub(
                    self.entries[j].0 as i32,
                ) != self.entries[j].1) ==> {
                &&& self.prediction(addr) == Some(addr.wrapping_add(self.entries[i].1 as u32))
                &&& self.after(addr) == self
            },
            (forall|j: int|
                0 <= j < 16 ==> (#[trigger] self.entries[j]).0 == 0 || (addr as i32).wrapping_sub(
                    self.entries[j].0 as i32,
                ) != self.entries[j].1) ==> {
                let after = self.after(addr);
                &&& self.prediction(addr) is None
                &&& after.entries == self.entries.update(self.next_slot, (addr, 0i32))
                &&& after.next_slot == if self.next_slot == 15 {
                    0
                } else {
                    self.next_slot + 1
                }
            },
    {
        if self.continues(i, addr) && (forall|j: int|
            0 <= j < i ==> (#[trigger] self.entries[j]).0 == 0 || (addr as i32).wrapping_sub(
                self.entries[j].0 as i32,
            ) != self.entries[j].1) {
            assert(self.first_continued(i, addr));
            assert forall|j: int| #[trigger] self.first_continued(j, addr) implies j == i by {
                assert(self.continues(j, addr));
            }
        }
        if forall|j: int|
            0 <= j < 16 ==> (#[trigger] self.entries[j]).0 == 0 || (addr as i32).wrapping_sub(
                self.entries[j].0 as i32,
            ) != self.entries[j].1 {
            assert forall|j: int| !#[trigger] self.first_continued(j, addr) by {
                assert(!self.continues(j, addr));
            }
        }
    }
}

} // verus!
