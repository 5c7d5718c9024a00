//! Memory accesses: reads and writes of words, with the log that they leave for checkpoints, for
//! unconstrained mode and for the shard.
use vstd::prelude::*;

#[allow(unused_imports)]
use crate::access::region_of;
use crate::access::SPATIAL_REGION_SIZE;
use crate::events::{MemoryLocalEvent, MemoryReadRecord, MemoryRecord, MemoryWriteRecord};
use crate::mode::ExecutorMode;
#[allow(unused_imports)]
use crate::prefetch::{PrefetchView, PREFETCH_BUFFER_SIZE};
use crate::state::ExecutionState;
#[allow(unused_imports)]
use crate::state::{page_of, StateView};
use crate::table::Table;

verus! {

/// What is known of the machine at a fork point.
#[verifier::ext_equal]
pub ghost struct ForkView {
    pub global_clk: u64,
    pub clk: u32,
    pub pc: u32,
    pub memory_diff: Map<u32, Option<MemoryRecord>>,
    pub executor_mode: ExecutorMode,
}

impl ForkView {
    /// Nothing is known.
    pub open spec fn initial() -> ForkView {
        ForkView {
            global_clk: 0,
            clk: 0,
            pc: 0,
            memory_diff: Map::empty(),
            executor_mode: ExecutorMode::Simple,
        }
    }
}

/// Holds data to track changes made to the runtime since a fork point.
pub struct ForkState {
    /// The `global_clk` value at the fork point.
    pub global_clk: u64,
    /// The original `clk` value at the fork point.
    pub clk: u32,
    /// The original `pc` value at the fork point.
    pub pc: u32,
    /// All memory changes since the fork point.
    pub memory_diff: Table<Option<MemoryRecord>>,
    /// The mode of the executor at the fork point.
    pub executor_mode: ExecutorMode,
}

impl View for ForkState {
    type V = ForkView;

    open spec fn view(&self) -> ForkView {
        ForkView {
            global_clk: self.global_clk,
            clk: self.clk,
            pc: self.pc,
            memory_diff: self.memory_diff@,
            executor_mode: self.executor_mode,
        }
    }
}

impl Default for ForkState {
    fn default() -> (fork: ForkState)
        ensures
            fork@ == ForkView::initial(),
    {
        ForkState {
            global_clk: 0,
            clk: 0,
            pc: 0,
            memory_diff: Table::new(),
            executor_mode: ExecutorMode::Simple,
        }
    }
}

/// An entry that is kept where a key has one already.
pub open spec fn first_kept<V>(map: Map<u32, V>, key: u32, value: V) -> Map<u32, V> {
    if map.contains_key(key) {
        map
    } else {
        map.insert(key, value)
    }
}

/// The events of a shard after an access that turned one record of a word into another.
pub open spec fn events_after(
    events: Map<u32, MemoryLocalEvent>,
    addr: u32,
    before: MemoryRecord,
    after: MemoryRecord,
) -> Map<u32, MemoryLocalEvent> {
    if events.contains_key(addr) {
        events.insert(addr, MemoryLocalEvent { final_mem_access: after, ..events[addr] })
    } else {
        events.insert(
            addr,
            MemoryLocalEvent { addr, initial_mem_access: before, final_mem_access: after },
        )
    }
}

/// The mode of execution and what memory accesses and output have left behind.
#[verifier::ext_equal]
pub ghost struct LogView {
    pub executor_mode: ExecutorMode,
    pub unconstrained: bool,
    pub memory_checkpoint: Map<u32, Option<MemoryRecord>>,
    pub uninitialized_memory_checkpoint: Map<u32, bool>,
    pub local_memory_access: Map<u32, MemoryLocalEvent>,
    pub unconstrained_state: ForkView,
    pub io_buf: Map<u32, String>,
}

impl LogView {
    /// Nothing has been accessed; events are traced.
    pub open spec fn initial() -> LogView {
        LogView {
            executor_mode: ExecutorMode::Trace,
            unconstrained: false,
            memory_checkpoint: Map::empty(),
            uninitialized_memory_checkpoint: Map::empty(),
            local_memory_access: Map::empty(),
            unconstrained_state: ForkView::initial(),
            io_buf: Map::empty(),
        }
    }

    /// The first record of each word is to be kept.
    pub open spec fn checkpointing(self) -> bool {
        self.executor_mode == ExecutorMode::Checkpoint || self.unconstrained
    }

    /// The log after a word that held `record` has been touched.
    pub open spec fn checkpointed(self, addr: u32, record: Option<MemoryRecord>) -> LogView {
        if self.checkpointing() {
            LogView {
                memory_checkpoint: first_kept(self.memory_checkpoint, addr, record),
                ..self
            }
        } else {
            self
        }
    }

    /// The log after an access has turned one record of a word into another; `stored` is what memory
    /// held, nothing where the word was not there. Events go to the log's own list where `own` says
    /// so; in unconstrained mode there are none.
    pub open spec fn accessed(
        self,
        addr: u32,
        stored: Option<MemoryRecord>,
        before: MemoryRecord,
        after: MemoryRecord,
        own: bool,
    ) -> LogView {
        let log = self.checkpointed(addr, stored);
        if self.unconstrained {
            LogView {
                unconstrained_state: ForkView {
                    memory_diff: first_kept(
                        log.unconstrained_state.memory_diff,
                        addr,
                        Some(before),
                    ),
                    ..log.unconstrained_state
                },
                ..log
            }
        } else if own {
            LogView {
                local_memory_access: events_after(log.local_memory_access, addr, before, after),
                ..log
            }
        } else {
            log
        }
    }
}

/// The state of the machine together with the log of its memory accesses.
#[verifier::ext_equal]
pub ghost struct MachineView {
    pub state: StateView,
    pub log: LogView,
}

impl StateView {
    /// The value that an uninitialized word is to be initialized with.
    pub open spec fn initial_value(self, addr: u32) -> u32 {
        if self.uninitialized_memory.contains_key(addr) {
            self.uninitialized_memory[addr]
        } else {
            0
        }
    }

    /// The record of a word, where nothing has been stored the one that it is initialized with.
    pub open spec fn effective_record(self, addr: u32) -> MemoryRecord {
        match self.record_at(addr) {
            Some(record) => record,
            None => MemoryRecord::untouched(self.initial_value(addr)),
        }
    }

    /// The state after a record has been put into the prefetch buffer.
    pub open spec fn buffered(self, addr: u32, record: MemoryRecord) -> StateView {
        StateView { prefetch: self.prefetch.inserted(addr, record), ..self }
    }

    /// The state after a word has been prefetched, where its address is aligned and it has a
    /// record.
    pub open spec fn prefetched(self, addr: u32) -> StateView {
        match self.record_at(addr) {
            Some(record) => if addr % 4 == 0 {
                self.buffered(addr, record)
            } else {
                self
            },
            None => self,
        }
    }

    /// The state after the first `count` words of a list have been prefetched.
    pub open spec fn all_prefetched(self, addrs: Seq<u32>, count: nat) -> StateView
        decreases count,
    {
        if count == 0 {
            self
        } else {
            self.all_prefetched(addrs, (count - 1) as nat).prefetched(addrs[count - 1])
        }
    }

    /// The state after the first `count` words of a line have been prefetched, where the buffer
    /// does not hold them.
    pub open spec fn line_prefetched(self, line: u32, count: nat) -> StateView
        decreases count,
    {
        if count == 0 {
            self
        } else {
            let before = self.line_prefetched(line, (count - 1) as nat);
            let addr = line.wrapping_add(((count - 1) * 4) as u32);
            match before.record_at(addr) {
                Some(record) => if before.prefetch.record(addr) is None {
                    before.buffered(addr, record)
                } else {
                    before
                },
                None => before,
            }
        }
    }
}

impl MachineView {
    /// The machine after the value of an uninitialized word has been looked up.
    pub open spec fn initialized(self, addr: u32) -> MachineView {
        if self.state.record_at(addr) is None {
            MachineView {
                log: LogView {
                    uninitialized_memory_checkpoint: first_kept(
                        self.log.uninitialized_memory_checkpoint,
                        addr,
                        self.state.initial_value(addr) != 0,
                    ),
                    ..self.log
                },
                ..self
            }
        } else {
            self
        }
    }

    /// The record that a read of a word finds: the buffered one before the stored one.
    pub open spec fn found(self, addr: u32) -> MemoryRecord {
        match self.state.prefetch.record(addr) {
            Some(record) => record,
            None => self.state.effective_record(addr),
        }
    }

    /// The machine after a read has found its record: where the buffer did not hold it, it does
    /// now, and so it does the word that the stride predictor proposes.
    pub open spec fn looked_up(self, addr: u32) -> MachineView {
        if self.state.prefetch.record(addr) is Some {
            self
        } else {
            let machine = self.initialized(addr);
            let state = StateView {
                stride: self.state.stride.after(addr),
                ..self.state.buffered(addr, self.state.effective_record(addr))
            };
            MachineView {
                state: match self.state.stride.prediction(addr) {
                    Some(next) => state.prefetched(next),
                    None => state,
                },
                ..machine
            }
        }
    }

    /// The machine after a word has been read.
    pub open spec fn read(self, addr: u32, shard: u32, timestamp: u32, own: bool) -> MachineView {
        let before = self.found(addr);
        let after = MemoryRecord { shard, timestamp, ..before };
        let machine = self.looked_up(addr);
        MachineView {
            state: machine.state.written(addr, after),
            log: machine.log.accessed(addr, self.state.record_at(addr), before, after, own),
        }
    }

    /// What a read of a word gives back.
    pub open spec fn read_record(
        self,
        addr: u32,
        shard: u32,
        timestamp: u32,
    ) -> MemoryReadRecord {
        let before = self.found(addr);
        MemoryReadRecord {
            value: before.value,
            shard,
            timestamp,
            prev_shard: before.shard,
            prev_timestamp: before.timestamp,
        }
    }

    /// The machine after a word has been written.
    pub open spec fn wrote(
        self,
        addr: u32,
        value: u32,
        shard: u32,
        timestamp: u32,
        own: bool,
    ) -> MachineView {
        let before = self.state.effective_record(addr);
        let after = MemoryRecord { value, shard, timestamp };
        let machine = self.initialized(addr);
        MachineView {
            state: machine.state.written(addr, after),
            log: machine.log.accessed(addr, self.state.record_at(addr), before, after, own),
        }
    }

    /// What a write of a word gives back.
    pub open spec fn write_record(
        self,
        addr: u32,
        value: u32,
        shard: u32,
        timestamp: u32,
    ) -> MemoryWriteRecord {
        let before = self.state.effective_record(addr);
        MemoryWriteRecord {
            value,
            shard,
            timestamp,
            prev_value: before.value,
            prev_shard: before.shard,
            prev_timestamp: before.timestamp,
        }
    }

    /// The value that a look at a word gives: that of the buffered record before that of the stored
    /// one, zero where there is none.
    pub open spec fn word(self, addr: u32) -> u32 {
        match self.state.prefetch.record(addr) {
            Some(record) => record.value,
            None => match self.state.record_at(addr) {
                Some(record) => record.value,
                None => 0,
            },
        }
    }

    /// The machine after a look at a word. The access is tracked. Where the buffer did not hold the
    /// word, it holds it now together with the words that the tracker predicts and those of the
    /// next line, and the word is checkpointed.
    pub open spec fn looked_at(self, addr: u32) -> MachineView {
        let noted = StateView { accesses: self.state.accesses.recorded(addr), ..self.state };
        if self.state.prefetch.record(addr) is Some {
            MachineView { state: noted, ..self }
        } else {
            let line = region_of(addr).wrapping_add(SPATIAL_REGION_SIZE);
            let near = match self.state.record_at(addr) {
                Some(record) => {
                    let predictions = noted.accesses.predictions(addr);
                    noted.buffered(addr, record).all_prefetched(predictions, predictions.len())
                },
                None => noted,
            };
            MachineView {
                state: near.line_prefetched(line, 16),
                log: self.log.checkpointed(addr, self.state.record_at(addr)),
            }
        }
    }

    /// Every page is in use and the prefetch buffer holds the current records.
    pub open spec fn sound(self) -> bool {
        self.state.paged() && self.state.coherent()
    }
}

impl StateView {
    /// Both states store the same words.
    pub open spec fn same_memory(self, other: StateView) -> bool {
        &&& self.pages == other.pages
        &&& self.memory == other.memory
        &&& self.page_cache == other.page_cache
    }

    /// The prefetch buffer holds the current records of all words but possibly one.
    pub open spec fn coherent_but(self, addr: u32) -> bool {
        &&& self.prefetch.wf()
        &&& forall|i: int|
            0 <= i < PREFETCH_BUFFER_SIZE && #[trigger] self.prefetch.valid[i]
                && self.prefetch.entries[i].0 != addr ==> self.record_at(
                self.prefetch.entries[i].0,
            ) == Some(self.prefetch.entries[i].1)
    }

    proof fn lemma_buffered_but(self, addr: u32, at: u32, record: MemoryRecord)
        requires
            self.coherent_but(addr),
            at == addr || self.record_at(at) == Some(record),
        ensures
            self.buffered(at, record).coherent_but(addr),
            self.buffered(at, record).same_memory(self),
    {
    }

    proof fn lemma_buffered_current(self, addr: u32, record: MemoryRecord)
        requires
            self.coherent(),
            self.record_at(addr) == Some(record),
        ensures
            self.buffered(addr, record).coherent(),
            self.buffered(addr, record).same_memory(self),
    {
    }

    proof fn lemma_all_prefetched(self, addrs: Seq<u32>, count: nat)
        requires
            self.coherent(),
            count <= addrs.len(),
        ensures
            self.all_prefetched(addrs, count).coherent(),
            self.all_prefetched(addrs, count).same_memory(self),
        decreases count,
    {
        if count > 0 {
            self.lemma_all_prefetched(addrs, (count - 1) as nat);
            let before = self.all_prefetched(addrs, (count - 1) as nat);
            let addr = addrs[count - 1];
            if let Some(record) = before.record_at(addr) {
                before.lemma_buffered_current(addr, record);
            }
        }
    }

    proof fn lemma_line_prefetched(self, line: u32, count: nat)
        requires
            self.coherent(),
        ensures
            self.line_prefetched(line, count).coherent(),
            self.line_prefetched(line, count).same_memory(self),
        decreases count,
    {
        if count > 0 {
            self.lemma_line_prefetched(line, (count - 1) as nat);
            let before = self.line_prefetched(line, (count - 1) as nat);
            let addr = line.wrapping_add(((count - 1) * 4) as u32);
            if let Some(record) = before.record_at(addr) {
                before.lemma_buffered_current(addr, record);
            }
        }
    }

    proof fn lemma_written_coherent(self, addr: u32, record: MemoryRecord)
        requires
            self.paged(),
            self.coherent_but(addr),
        ensures
            self.written(addr, record).coherent(),
    {
        let after = self.written(addr, record);
        assert forall|i: int|
            0 <= i < PREFETCH_BUFFER_SIZE && #[trigger] after.prefetch.valid[i] implies after.record_at(
            after.prefetch.entries[i].0,
        ) == Some(after.prefetch.entries[i].1) by {
            self.law_write_read(addr, record, after.prefetch.entries[i].0);
            assert(self.prefetch.valid[i]);
            assert(self.prefetch.hit(i, addr) <==> self.prefetch.entries[i].0 == addr);
        }
    }
}

impl MachineView {
    /// A look at a word gives its current value, zero where there is none, and changes no word.
    pub proof fn law_look(self, addr: u32, other: u32)
        requires
            self.sound(),
        ensures
            self.word(addr) == match self.state.record_at(addr) {
                Some(record) => record.value,
                None => 0,
            },
            self.looked_at(addr).sound(),
            self.looked_at(addr).state.record_at(other) == self.state.record_at(other),
    {
        self.state.lemma_buffered(addr);
        let noted = StateView { accesses: self.state.accesses.recorded(addr), ..self.state };
        assert(noted.coherent());
        let line = region_of(addr).wrapping_add(SPATIAL_REGION_SIZE);
        match self.state.record_at(addr) {
            Some(record) => {
                let predictions = noted.accesses.predictions(addr);
                noted.lemma_buffered_current(addr, record);
                let buffered = noted.buffered(addr, record);
                buffered.lemma_all_prefetched(predictions, predictions.len());
                buffered.all_prefetched(predictions, predictions.len()).lemma_line_prefetched(
                    line,
                    16,
                );
            },
            None => {
                noted.lemma_line_prefetched(line, 16);
            },
        }
    }

    /// A read gives the current value of a word, or the one that it is initialized with; it sets
    /// the time of the word and changes no other word.
    pub proof fn law_read(self, addr: u32, shard: u32, timestamp: u32, own: bool, other: u32)
        requires
            self.sound(),
        ensures
            self.found(addr) == self.state.effective_record(addr),
            self.read(addr, shard, timestamp, own).sound(),
            self.read(addr, shard, timestamp, own).state.record_at(other) == if other == addr {
                Some(
                    MemoryRecord {
                        value: self.state.effective_record(addr).value,
                        shard,
                        timestamp,
                    },
                )
            } else {
                self.state.record_at(other)
            },
    {
        self.state.lemma_buffered(addr);
        let before = self.found(addr);
        let after = MemoryRecord { shard, timestamp, ..before };
        let looked = self.looked_up(addr).state;
        assert(self.state.coherent_but(addr));
        if self.state.prefetch.record(addr) is None {
            let record = self.state.effective_record(addr);
            self.state.lemma_buffered_but(addr, addr, record);
            let state = StateView {
                stride: self.state.stride.after(addr),
                ..self.state.buffered(addr, record)
            };
            assert(state.coherent_but(addr));
            if let Some(next) = self.state.stride.prediction(addr) {
                if let Some(near) = state.record_at(next) {
                    state.lemma_buffered_but(addr, next, near);
                }
            }
        }
        assert(looked.coherent_but(addr) && looked.same_memory(self.state));
        assert(looked.paged());
        looked.lemma_written_coherent(addr, after);
        looked.law_write_read(addr, after, other);
    }

    /// A write sets the value and the time of a word and changes no other word.
    pub proof fn law_write(
        self,
        addr: u32,
        value: u32,
        shard: u32,
        timestamp: u32,
        own: bool,
        other: u32,
    )
        requires
            self.sound(),
        ensures
            self.wrote(addr, value, shard, timestamp, own).sound(),
            self.wrote(addr, value, shard, timestamp, own).state.record_at(other) == if other
                == addr {
                Some(MemoryRecord { value, shard, timestamp })
            } else {
                self.state.record_at(other)
            },
    {
        let after = MemoryRecord { value, shard, timestamp };
        self.state.law_write_read(addr, after, other);
        self.state.law_write_coherent(addr, after);
    }

    /// What has been written to a word is what a read and a look give afterwards; all other words
    /// are read as before.
    pub proof fn law_write_read(
        self,
        addr: u32,
        value: u32,
        shard: u32,
        timestamp: u32,
        own: bool,
        other: u32,
        later_shard: u32,
        later: u32,
    )
        requires
            self.sound(),
        ensures
            ({
                let after = self.wrote(addr, value, shard, timestamp, own);
                &&& after.word(addr) == value
                &&& after.read_record(addr, later_shard, later) == (MemoryReadRecord {
                    value,
                    shard: later_shard,
                    timestamp: later,
                    prev_shard: shard,
                    prev_timestamp: timestamp,
                })
                &&& other != addr ==> after.word(other) == self.word(other)
                &&& other != addr ==> after.read_record(other, later_shard, later)
                    == self.read_record(other, later_shard, later)
            }),
    {
        let after = self.wrote(addr, value, shard, timestamp, own);
        self.law_write(addr, value, shard, timestamp, own, addr);
        self.law_write(addr, value, shard, timestamp, own, other);
        after.law_look(addr, addr);
        after.law_look(other, other);
        self.law_look(other, other);
        after.law_read(addr, later_shard, later, own, addr);
        after.law_read(other, later_shard, later, own, other);
        self.law_read(other, later_shard, later, own, other);
        assert(after.state.uninitialized_memory == self.state.uninitialized_memory);
    }

    /// A checkpoint keeps the record that a word had at its first access, and that it had none where
    /// it had none: later accesses do not change what is kept.
    pub proof fn law_checkpoint_first(
        self,
        addr: u32,
        value: u32,
        shard: u32,
        timestamp: u32,
        own: bool,
    )
        requires
            self.log.checkpointing(),
        ensures
            self.log.memory_checkpoint.contains_key(addr) ==> {
                &&& self.wrote(addr, value, shard, timestamp, own).log.memory_checkpoint
                    == self.log.memory_checkpoint
                &&& self.read(addr, shard, timestamp, own).log.memory_checkpoint
                    == self.log.memory_checkpoint
                &&& self.looked_at(addr).log.memory_checkpoint == self.log.memory_checkpoint
            },
            !self.log.memory_checkpoint.contains_key(addr) ==> {
                let kept = self.log.memory_checkpoint.insert(addr, self.state.record_at(addr));
                &&& self.wrote(addr, value, shard, timestamp, own).log.memory_checkpoint == kept
                &&& self.read(addr, shard, timestamp, own).log.memory_checkpoint == kept
            },
    {
    }
}

impl MachineView {
    /// Outside unconstrained mode an access leaves one event for its word: the record from before
    /// the first access of the word, and the record after the last one. The events of other words
    /// stay.
    pub proof fn law_events(
        self,
        addr: u32,
        value: u32,
        shard: u32,
        timestamp: u32,
        other: u32,
    )
        requires
            !self.log.unconstrained,
        ensures
            ({
                let events = self.log.local_memory_access;
                let read = self.read(addr, shard, timestamp, true).log.local_memory_access;
                let wrote = self.wrote(addr, value, shard, timestamp, true).log.local_memory_access;
                &&& read.contains_key(addr) && wrote.contains_key(addr)
                &&& read[addr].final_mem_access == (MemoryRecord {
                    value: self.found(addr).value,
                    shard,
                    timestamp,
                })
                &&& wrote[addr].final_mem_access == (MemoryRecord { value, shard, timestamp })
                &&& read[addr].initial_mem_access == if events.contains_key(addr) {
                    events[addr].initial_mem_access
                } else {
                    self.found(addr)
                }
                &&& wrote[addr].initial_mem_access == if events.contains_key(addr) {
                    events[addr].initial_mem_access
                } else {
                    self.state.effective_record(addr)
                }
                &&& other != addr ==> read.get(other) == events.get(other) && wrote.get(other)
                    == events.get(other)
            }),
    {
    }

    /// In unconstrained mode an access leaves no event, and the first record of each word is kept
    /// for the way back.
    pub proof fn law_unconstrained(self, addr: u32, value: u32, shard: u32, timestamp: u32)
        requires
            self.log.unconstrained,
        ensures
            ({
                let read = self.read(addr, shard, timestamp, true).log;
                let wrote = self.wrote(addr, value, shard, timestamp, true).log;
                let diff = self.log.unconstrained_state.memory_diff;
                &&& read.local_memory_access == self.log.local_memory_access
                &&& wrote.local_memory_access == self.log.local_memory_access
                &&& read.unconstrained_state.memory_diff == first_kept(
                    diff,
                    addr,
                    Some(self.found(addr)),
                )
                &&& wrote.unconstrained_state.memory_diff == first_kept(
                    diff,
                    addr,
                    Some(self.state.effective_record(addr)),
                )
            }),
    {
    }
}

/// The state before the first instruction is sound.
pub proof fn law_initial_sound(pc_start: u32)
    ensures
        (MachineView { state: StateView::initial(pc_start), log: LogView::initial() }).sound(),
{
}

/// The mode of execution and what memory accesses and output have left behind.
pub struct RuntimeLog {
    /// The mode the executor is running in.
    pub executor_mode: ExecutorMode,
    /// Whether the runtime is in unconstrained mode.
    ///
    /// In unconstrained mode, any events, clock, register, or memory changes are reset after
    /// leaving the unconstrained block. The only thing preserved is writes to the input stream.
    pub unconstrained: bool,
    /// Memory addresses that were touched in this batch of shards, with the records that they had
    /// before.
    pub memory_checkpoint: Table<Option<MemoryRecord>>,
    /// Memory addresses that were initialized in this batch of shards. The value is whether or not
    /// it had a value at the beginning of the batch.
    pub uninitialized_memory_checkpoint: Table<bool>,
    /// Local memory access events.
    pub local_memory_access: Table<MemoryLocalEvent>,
    /// The state of the runtime when in unconstrained mode.
    pub unconstrained_state: ForkState,
    /// A buffer for output by file descriptor.
    pub io_buf: Table<String>,
}

impl View for RuntimeLog {
    type V = LogView;

    open spec fn view(&self) -> LogView {
        LogView {
            executor_mode: self.executor_mode,
            unconstrained: self.unconstrained,
            memory_checkpoint: self.memory_checkpoint@,
            uninitialized_memory_checkpoint: self.uninitialized_memory_checkpoint@,
            local_memory_access: self.local_memory_access@,
            unconstrained_state: self.unconstrained_state@,
            io_buf: self.io_buf@,
        }
    }
}

/// The view of a state together with a log.
pub open spec fn machine(state: ExecutionState, log: RuntimeLog) -> MachineView {
    MachineView { state: state@, log: log@ }
}

impl RuntimeLog {
    /// An empty log; events are traced.
    pub fn new() -> (log: RuntimeLog)
        ensures
            log@ == LogView::initial(),
    {
        RuntimeLog {
            executor_mode: ExecutorMode::Trace,
            unconstrained: false,
            memory_checkpoint: Table::new(),
            uninitialized_memory_checkpoint: Table::new(),
            local_memory_access: Table::new(),
            unconstrained_state: ForkState::default(),
            io_buf: Table::new(),
        }
    }

    /// Keeps the record of a word that is touched, where records are to be kept.
    fn checkpoint(&mut self, addr: u32, record: Option<MemoryRecord>)
        ensures
            final(self)@ == old(self)@.checkpointed(addr, record),
    {
        if self.executor_mode == ExecutorMode::Checkpoint || self.unconstrained {
            self.memory_checkpoint.insert_if_absent(addr, record);
        }
    }

    /// The record of a word, where nothing has been stored the one that it is initialized with.
    fn effective_record(&mut self, state: &ExecutionState, addr: u32) -> (record: MemoryRecord)
        ensures
            record == state@.effective_record(addr),
            final(self)@ == machine(*state, *old(self)).initialized(addr).log,
    {
        match state.get_memory(addr) {
            Some(record) => *record,
            None => {
                let value: u32 = match state.uninitialized_memory.get(addr) {
                    Some(value) => *value,
                    None => 0,
                };
                self.uninitialized_memory_checkpoint.insert_if_absent(addr, value != 0);
                MemoryRecord { value, shard: 0, timestamp: 0 }
            },
        }
    }

    /// Logs an access that turned one record of a word into another.
    fn log_access(
        &mut self,
        addr: u32,
        stored: Option<MemoryRecord>,
        before: MemoryRecord,
        after: MemoryRecord,
        local_memory_access: Option<&mut Table<MemoryLocalEvent>>,
    )
        ensures
            final(self)@ == old(self)@.accessed(
                addr,
                stored,
                before,
                after,
                local_memory_access is None,
            ),
            match local_memory_access {
                Some(events) => final(events)@ == if old(self)@.unconstrained {
                    events@
                } else {
                    events_after(events@, addr, before, after)
                },
                None => true,
            },
    {
        self.checkpoint(addr, stored);
        if self.unconstrained {
            self.unconstrained_state.memory_diff.insert_if_absent(addr, Some(before));
        } else {
            match local_memory_access {
                Some(events) => {
                    add_event(events, addr, before, after);
                },
                None => {
                    add_event(&mut self.local_memory_access, addr, before, after);
                },
            }
        }
    }
}

/// The record behind a reference.
fn copy_record(record: Option<&MemoryRecord>) -> (copy: Option<MemoryRecord>)
    ensures
        copy == match record {
            Some(found) => Some(*found),
            None => None,
        },
{
    match record {
        Some(found) => Some(*found),
        None => None,
    }
}

/// Adds an access to the events of a shard.
fn add_event(
    events: &mut Table<MemoryLocalEvent>,
    addr: u32,
    before: MemoryRecord,
    after: MemoryRecord,
)
    ensures
        final(events)@ == events_after(old(events)@, addr, before, after),
{
    let event = match events.get(addr) {
        Some(event) => MemoryLocalEvent {
            addr: event.addr,
            initial_mem_access: event.initial_mem_access,
            final_mem_access: after,
        },
        None => MemoryLocalEvent { addr, initial_mem_access: before, final_mem_access: after },
    };
    events.insert(addr, event);
}

/// Prefetches a word, where its address is aligned and it has a record.
fn prefetch(state: &mut ExecutionState, addr: u32)
    ensures
        final(state)@ == old(state)@.prefetched(addr),
{
    if addr % 4 == 0 {
        let record = copy_record(state.get_memory(addr));
        if let Some(record) = record {
            state.prefetch_buffer.insert(addr, record);
        }
    }
}

/// Prefetches the words of a line that the buffer does not hold.
fn prefetch_line(state: &mut ExecutionState, line: u32)
    ensures
        final(state)@ == old(state)@.line_prefetched(line, 16),
{
    let mut i: u32 = 0;
    while i < 16
        invariant
            i <= 16,
            state@ == old(state)@.line_prefetched(line, i as nat),
        decreases 16 - i,
    {
        let addr: u32 = line.wrapping_add(i * 4);
        if state.prefetch_buffer.lookup(addr).is_none() {
            let record = copy_record(state.get_memory(addr));
            if let Some(record) = record {
                state.prefetch_buffer.insert(addr, record);
            }
        }
        i = i + 1;
    }
}

impl RuntimeLog {
    /// The value of a word.
    pub fn word(&mut self, state: &mut ExecutionState, addr: u32) -> (value: u32)
        ensures
            value == machine(*old(state), *old(self)).word(addr),
            machine(*final(state), *final(self)) == machine(*old(state), *old(self)).looked_at(
                addr,
            ),
    {
        state.memory_access_patterns.record_access(addr);
        if let Some(record) = state.prefetch_buffer.lookup(addr) {
            return record.value;
        }
        let found = copy_record(state.get_memory(addr));
        let value: u32 = match found {
            Some(record) => {
                state.prefetch_buffer.insert(addr, record);
                let ghost buffered = state@;
                let predictions = state.memory_access_patterns.predict_next_access(addr);
                let mut i: usize = 0;
                while i < predictions.len()
                    invariant
                        i <= predictions@.len(),
                        state@ == buffered.all_prefetched(predictions@, i as nat),
                    decreases predictions@.len() - i,
                {
                    prefetch(state, predictions[i]);
                    i = i + 1;
                }
                self.checkpoint(addr, Some(record));
                record.value
            },
            None => {
                self.checkpoint(addr, None);
                0
            },
        };
        let line: u32 = (addr - addr % SPATIAL_REGION_SIZE).wrapping_add(SPATIAL_REGION_SIZE);
        prefetch_line(state, line);
        value
    }

    /// Reads a word from memory and creates an access record. Events go to the given list, to the
    /// log's own where there is none.
    pub fn mr(
        &mut self,
        state: &mut ExecutionState,
        addr: u32,
        shard: u32,
        timestamp: u32,
        local_memory_access: Option<&mut Table<MemoryLocalEvent>>,
    ) -> (record: MemoryReadRecord)
        ensures
            record == machine(*old(state), *old(self)).read_record(addr, shard, timestamp),
            machine(*final(state), *final(self)) == machine(*old(state), *old(self)).read(
                addr,
                shard,
                timestamp,
                local_memory_access is None,
            ),
            match local_memory_access {
                Some(events) => final(events)@ == if old(self)@.unconstrained {
                    events@
                } else {
                    events_after(
                        events@,
                        addr,
                        machine(*old(state), *old(self)).found(addr),
                        MemoryRecord { value: record.value, shard, timestamp },
                    )
                },
                None => true,
            },
    {
        let ghost before = machine(*state, *self);
        let stored = copy_record(state.get_memory(addr));
        let buffered = copy_record(state.prefetch_buffer.lookup(addr));
        let prev_record = match buffered {
            Some(record) => record,
            None => {
                let record = self.effective_record(state, addr);
                state.prefetch_buffer.insert(addr, record);
                if let Some(next_addr) = state.stride_predictor.predict_next_addr(addr) {
                    prefetch(state, next_addr);
                }
                record
            },
        };
        assert(machine(*state, *self) =~= before.looked_up(addr));
        let record = MemoryRecord { value: prev_record.value, shard, timestamp };
        state.set_memory(addr, record);
        self.log_access(addr, stored, prev_record, record, local_memory_access);
        MemoryReadRecord {
            value: record.value,
            shard: record.shard,
            timestamp: record.timestamp,
            prev_shard: prev_record.shard,
            prev_timestamp: prev_record.timestamp,
        }
    }

    /// Writes a word to memory and creates an access record. Events go to the given list, to the
    /// log's own where there is none.
    pub fn mw(
        &mut self,
        state: &mut ExecutionState,
        addr: u32,
        value: u32,
        shard: u32,
        timestamp: u32,
        local_memory_access: Option<&mut Table<MemoryLocalEvent>>,
    ) -> (record: MemoryWriteRecord)
        ensures
            record == machine(*old(state), *old(self)).write_record(addr, value, shard, timestamp),
            machine(*final(state), *final(self)) == machine(*old(state), *old(self)).wrote(
                addr,
                value,
                shard,
                timestamp,
                local_memory_access is None,
            ),
            match local_memory_access {
                Some(events) => final(events)@ == if old(self)@.unconstrained {
                    events@
                } else {
                    events_after(
                        events@,
                        addr,
                        old(state)@.effective_record(addr),
                        MemoryRecord { value, shard, timestamp },
                    )
                },
                None => true,
            },
    {
        let stored = copy_record(state.get_memory(addr));
        let prev_record = self.effective_record(state, addr);
        let record = MemoryRecord { value, shard, timestamp };
        state.set_memory(addr, record);
        self.log_access(addr, stored, prev_record, record, local_memory_access);
        MemoryWriteRecord {
            value: record.value,
            shard: record.shard,
            timestamp: record.timestamp,
            prev_value: prev_record.value,
            prev_shard: prev_record.shard,
            prev_timestamp: prev_record.timestamp,
        }
    }
}

/// The event of a word goes from the record before its first access to the record after its last one; the
/// events of other words stay. What is kept for a word is what was put there first.
pub proof fn law_kept_events(
    events: Map<u32, MemoryLocalEvent>,
    kept: Map<u32, Option<MemoryRecord>>,
    addr: u32,
    before: MemoryRecord,
    after: MemoryRecord,
    later: MemoryRecord,
    other: u32,
)
    ensures
        ({
            let once = events_after(events, addr, before, after);
            let twice = events_after(once, addr, after, later);
            &&& once.contains_key(addr)
            &&& once[addr].final_mem_access == after
            &&& !events.contains_key(addr) ==> once[addr].addr == addr
                && once[addr].initial_mem_access == before
            &&& events.contains_key(addr) ==> once[addr].addr == events[addr].addr
                && once[addr].initial_mem_access == events[addr].initial_mem_access
            &&& twice[addr].initial_mem_access == once[addr].initial_mem_access
            &&& twice[addr].final_mem_access == later
            &&& other != addr ==> once.get(other) == events.get(other)
            &&& first_kept(kept, addr, Some(before)).get(addr) == if kept.contains_key(addr) {
                Some(kept[addr])
            } else {
                Some(Some(before))
            }
            &&& other != addr ==> first_kept(kept, addr, Some(before)).get(other) == kept.get(other)
        }),
{
}

} // verus!
