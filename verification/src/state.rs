//! The state of a program's execution.
use vstd::prelude::*;

use crate::access::MemoryAccessTracker;
#[allow(unused_imports)]
use crate::access::AccessView;
use crate::branch::BranchPredictor;
#[allow(unused_imports)]
use crate::branch::BranchView;
use crate::events::MemoryRecord;
use crate::icache::InstructionCache;
#[allow(unused_imports)]
use crate::icache::IcacheView;
use crate::index::WordSet;
use crate::loops::LoopTracker;
#[allow(unused_imports)]
use crate::loops::LoopView;
use crate::prefetch::{PrefetchBuffer, StridePredictor};
#[allow(unused_imports)]
use crate::prefetch::{PrefetchView, StrideView, PREFETCH_BUFFER_SIZE};
use crate::regalloc::RegisterAllocator;
#[allow(unused_imports)]
use crate::regalloc::{AllocatorView, NUM_REGISTERS};
use crate::scheduler::InstructionScheduler;
#[allow(unused_imports)]
use crate::scheduler::SchedulerView;
use crate::syscalls::SyscallStats;
#[allow(unused_imports)]
use crate::syscalls::SyscallStatsView;
use crate::table::Table;

verus! {

/// The number of addresses of a page.
pub const MEMORY_PAGE_SIZE: u32 = 4096;

/// The start of the page of an address.
pub open spec fn page_of(addr: u32) -> u32 {
    (addr - addr % MEMORY_PAGE_SIZE) as u32
}

/// A page of memory.
#[verifier::ext_equal]
pub ghost struct PageView {
    pub values: Seq<MemoryRecord>,
    /// The addresses of the page that hold a record.
    pub initialized: Set<u32>,
    pub access_count: u32,
    pub last_access: u64,
}

impl PageView {
    /// A page that holds nothing.
    pub open spec fn empty() -> PageView {
        PageView {
            values: Seq::new(MEMORY_PAGE_SIZE as nat, |i: int| MemoryRecord::untouched(0)),
            initialized: Set::empty(),
            access_count: 0,
            last_access: 0,
        }
    }

    /// The size is right.
    pub open spec fn wf(self) -> bool {
        self.values.len() == MEMORY_PAGE_SIZE
    }

    /// The page after a record has been put at an address.
    pub open spec fn with(self, addr: u32, record: MemoryRecord) -> PageView {
        PageView {
            values: self.values.update(addr as int % MEMORY_PAGE_SIZE as int, record),
            initialized: self.initialized.insert(addr),
            ..self
        }
    }
}

/// A page of memory.
pub struct MemoryPage {
    values: Box<[MemoryRecord; 4096]>,
    initialized: WordSet,
    access_count: u32,
    last_access: u64,
}

impl View for MemoryPage {
    type V = PageView;

    closed spec fn view(&self) -> PageView {
        PageView {
            values: self.values@,
            initialized: self.initialized@,
            access_count: self.access_count,
            last_access: self.last_access,
        }
    }
}

impl Clone for MemoryPage {
    fn clone(&self) -> (page: MemoryPage)
        ensures
            page@ == self@,
    {
        MemoryPage {
            values: Box::new(*self.values),
            initialized: self.initialized.clone(),
            access_count: self.access_count,
            last_access: self.last_access,
        }
    }
}

impl MemoryPage {
    /// A page that holds nothing.
    pub fn new() -> (page: MemoryPage)
        ensures
            page@ == PageView::empty(),
    {
        let page = MemoryPage {
            values: Box::new([MemoryRecord { value: 0, shard: 0, timestamp: 0 }; 4096]),
            initialized: WordSet::new(),
            access_count: 0,
            last_access: 0,
        };
        assert(page@ =~= PageView::empty());
        page
    }

    /// The record at an address of the page.
    pub fn get(&self, addr: u32) -> (record: Option<&MemoryRecord>)
        ensures
            self@.wf(),
            match record {
                Some(r) => self@.initialized.contains(addr) && *r == self@.values[addr as int
                    % MEMORY_PAGE_SIZE as int],
                None => !self@.initialized.contains(addr),
            },
    {
        if self.initialized.contains(addr) {
            Some(&self.values[(addr % 4096) as usize])
        } else {
            None
        }
    }

    /// Puts a record at an address of the page.
    pub fn set(&mut self, addr: u32, record: MemoryRecord)
        ensures
            final(self)@ == old(self)@.with(addr, record),
    {
        self.values[(addr % 4096) as usize] = record;
        self.initialized.insert(addr);
        assert(self@ =~= old(self)@.with(addr, record));
    }
}

/// The state of a program's execution.
#[verifier::ext_equal]
pub ghost struct StateView {
    pub scheduler: SchedulerView,
    pub prefetch: PrefetchView,
    pub stride: StrideView,
    pub syscall_stats: SyscallStatsView,
    pub icache: IcacheView,
    pub branch: BranchView,
    pub pc: u32,
    pub current_shard: u32,
    /// The registers, the hot ones before the cold ones.
    pub registers: Seq<MemoryRecord>,
    pub register_access_count: Seq<u32>,
    pub allocator: AllocatorView,
    pub pages: Map<u32, PageView>,
    pub accesses: AccessView,
    pub loops: LoopView,
    pub memory: Map<u32, MemoryRecord>,
    pub page_cache: Set<u32>,
    pub global_clk: u64,
    pub clk: u32,
    pub uninitialized_memory: Map<u32, u32>,
    pub input_stream: Seq<Seq<u8>>,
    pub input_stream_ptr: usize,
    pub proof_stream_ptr: usize,
    pub public_values_stream: Seq<u8>,
    pub public_values_stream_ptr: usize,
    pub syscall_counts: Map<u32, u64>,
}

impl StateView {
    /// The state before the first instruction.
    pub open spec fn initial(pc_start: u32) -> StateView {
        StateView {
            scheduler: SchedulerView::initial(),
            prefetch: PrefetchView::initial(),
            stride: StrideView::initial(),
            syscall_stats: SyscallStatsView::initial(),
            icache: IcacheView::initial(),
            branch: BranchView::initial(),
            pc: pc_start,
            current_shard: 1,
            registers: Seq::new(NUM_REGISTERS as nat, |i: int| MemoryRecord::untouched(0)),
            register_access_count: Seq::new(NUM_REGISTERS as nat, |i: int| 0u32),
            allocator: AllocatorView::initial(),
            pages: Map::empty(),
            accesses: AccessView::initial(),
            loops: LoopView::initial(),
            memory: Map::empty(),
            page_cache: Set::empty(),
            global_clk: 0,
            clk: 0,
            uninitialized_memory: Map::empty(),
            input_stream: Seq::empty(),
            input_stream_ptr: 0,
            proof_stream_ptr: 0,
            public_values_stream: Seq::empty(),
            public_values_stream_ptr: 0,
            syscall_counts: Map::empty(),
        }
    }

    /// The record of the word at an address: that of its page or, where the page holds none, that
    /// of the sparse memory.
    pub open spec fn record_at(self, addr: u32) -> Option<MemoryRecord> {
        let page = page_of(addr);
        if self.pages.contains_key(page) && self.pages[page].initialized.contains(addr) {
            Some(self.pages[page].values[addr as int % MEMORY_PAGE_SIZE as int])
        } else if self.memory.contains_key(addr) {
            Some(self.memory[addr])
        } else {
            None
        }
    }

    /// The page of an address, where there is one; otherwise a new one.
    pub open spec fn page_at(self, addr: u32) -> PageView {
        if self.pages.contains_key(page_of(addr)) {
            self.pages[page_of(addr)]
        } else {
            PageView::empty()
        }
    }

    /// The state after a record has been put at an address: into the page where the page is in
    /// use, into the sparse memory otherwise; the prefetch buffer follows.
    pub open spec fn written(self, addr: u32, record: MemoryRecord) -> StateView {
        let page = page_of(addr);
        let prefetch = self.prefetch.refreshed(addr, record);
        if self.page_cache.contains(page) {
            StateView {
                pages: self.pages.insert(page, self.page_at(addr).with(addr, record)),
                prefetch,
                ..self
            }
        } else {
            StateView { memory: self.memory.insert(addr, record), prefetch, ..self }
        }
    }

    /// The state after a register has been read.
    pub open spec fn register_counted(self, register: int) -> StateView {
        StateView {
            register_access_count: self.register_access_count.update(
                register,
                self.register_access_count[register].wrapping_add(1),
            ),
            ..self
        }
    }

    /// The state after a register has been set.
    pub open spec fn register_set(self, register: int, record: MemoryRecord) -> StateView {
        StateView { registers: self.registers.update(register, record), ..self }
    }

    /// Every page is in use.
    pub open spec fn paged(self) -> bool {
        &&& forall|page: u32| #[trigger]
            self.pages.contains_key(page) ==> self.page_cache.contains(page)
                && self.pages[page].wf()
    }

    /// The prefetch buffer holds the current records.
    pub open spec fn coherent(self) -> bool {
        &&& self.prefetch.wf()
        &&& forall|i: int|
            0 <= i < PREFETCH_BUFFER_SIZE && #[trigger] self.prefetch.valid[i] ==> self.record_at(
                self.prefetch.entries[i].0,
            ) == Some(self.prefetch.entries[i].1)
    }

    /// What is read at an address is what was last put there: a record that has been put at one
    /// address is there, and all other addresses keep theirs.
    pub proof fn law_write_read(self, addr: u32, record: MemoryRecord, other: u32)
        requires
            self.paged(),
        ensures
            self.written(addr, record).paged(),
            self.written(addr, record).record_at(other) == if other == addr {
                Some(record)
            } else {
                self.record_at(other)
            },
    {
        let after = self.written(addr, record);
        if other != addr && page_of(other) == page_of(addr) {
            assert(other as int % 4096 != addr as int % 4096);
        }
    }

    /// A write keeps the prefetch buffer current.
    pub proof fn law_write_coherent(self, addr: u32, record: MemoryRecord)
        requires
            self.paged(),
            self.coherent(),
        ensures
            self.written(addr, record).coherent(),
    {
        let after = self.written(addr, record);
        assert forall|i: int|
            0 <= i < PREFETCH_BUFFER_SIZE && #[trigger] after.prefetch.valid[i] implies after.record_at(
            after.prefetch.entries[i].0,
        ) == Some(after.prefetch.entries[i].1) by {
            self.law_write_read(addr, record, after.prefetch.entries[i].0);
            assert(self.prefetch.valid[i]);
            assert(self.prefetch.hit(i, addr) <==> self.prefetch.entries[i].0 == addr);
        }
    }

    /// A coherent prefetch buffer gives the current record of a word, if it gives any.
    pub proof fn lemma_buffered(self, addr: u32)
        requires
            self.coherent(),
        ensures
            self.prefetch.record(addr) is Some ==> self.prefetch.record(addr) == self.record_at(
                addr,
            ),
    {
        self.prefetch.lemma_record(addr);
        if let Some(r) = self.prefetch.record(addr) {
            let i = choose|i: int| #[trigger]
                self.prefetch.hit(i, addr) && self.prefetch.entries[i].1 == r;
            assert(self.prefetch.valid[i]);
        }
    }

    /// A register that has been set holds what it was set to, and all others keep theirs.
    pub proof fn law_register_set_get(self, register: int, record: MemoryRecord, other: int)
        requires
            self.registers.len() == NUM_REGISTERS,
            0 <= register < NUM_REGISTERS,
            0 <= other < NUM_REGISTERS,
        ensures
            self.register_set(register, record).registers[other] == if other == register {
                record
            } else {
                self.registers[other]
            },
    {
    }
}

/// The contents of pages.
pub open spec fn page_views(pages: Map<u32, MemoryPage>) -> Map<u32, PageView> {
    Map::new(|page: u32| pages.contains_key(page), |page: u32| pages[page]@)
}

/// The contents of a list of byte strings.
pub open spec fn stream_contents(stream: Seq<Vec<u8>>) -> Seq<Seq<u8>> {
    Seq::new(stream.len(), |i: int| stream[i]@)
}

/// Holds data describing the current state of a program's execution.
pub struct ExecutionState {
    /// Instruction scheduler.
    pub scheduler: InstructionScheduler,
    /// Prefetch buffer for memory accesses.
    pub prefetch_buffer: PrefetchBuffer,
    /// Stride predictor for memory accesses.
    pub stride_predictor: StridePredictor,
    /// System call tracking.
    pub syscall_stats: SyscallStats,
    /// Instruction cache for faster instruction fetch.
    pub icache: InstructionCache,
    /// Branch predictor for better branch handling.
    pub branch_predictor: BranchPredictor,
    /// The program counter.
    pub pc: u32,
    /// The shard clock keeps track of how many shards have been executed.
    pub current_shard: u32,
    /// The most frequently used registers (x0-x7).
    pub hot_registers: [MemoryRecord; 8],
    /// The less frequently used registers (x8-x31).
    pub cold_registers: [MemoryRecord; 24],
    /// How often each register has been looked at.
    pub register_access_count: [u32; 32],
    /// Register allocation tracking.
    pub register_allocator: RegisterAllocator,
    /// Memory pages.
    pub memory_pages: Table<MemoryPage>,
    /// Memory access pattern tracking.
    pub memory_access_patterns: MemoryAccessTracker,
    /// Loop tracking.
    pub loop_tracker: LoopTracker,
    /// Memory for sparsely accessed addresses.
    pub memory: Table<MemoryRecord>,
    /// The pages that are in use.
    pub page_cache: WordSet,
    /// The global clock keeps track of how many instructions have been executed through all shards.
    pub global_clk: u64,
    /// The clock increments by 4 (possibly more in system calls) for each instruction that has been
    /// executed in this shard.
    pub clk: u32,
    /// Uninitialized memory addresses that have a specific value they should be initialized with.
    pub uninitialized_memory: Table<u32>,
    /// A stream of input values (global to the entire program).
    pub input_stream: Vec<Vec<u8>>,
    /// A position in the input stream.
    pub input_stream_ptr: usize,
    /// A position in the proof stream.
    pub proof_stream_ptr: usize,
    /// A stream of public values from the program (global to entire program).
    pub public_values_stream: Vec<u8>,
    /// A position in the public values stream.
    pub public_values_stream_ptr: usize,
    /// Keeps track of how many times a certain system call has been called.
    pub syscall_counts: Table<u64>,
}

impl View for ExecutionState {
    type V = StateView;

    open spec fn view(&self) -> StateView {
        StateView {
            scheduler: self.scheduler@,
            prefetch: self.prefetch_buffer@,
            stride: self.stride_predictor@,
            syscall_stats: self.syscall_stats@,
            icache: self.icache@,
            branch: self.branch_predictor@,
            pc: self.pc,
            current_shard: self.current_shard,
            registers: self.hot_registers@ + self.cold_registers@,
            register_access_count: self.register_access_count@,
            allocator: self.register_allocator@,
            pages: page_views(self.memory_pages@),
            accesses: self.memory_access_patterns@,
            loops: self.loop_tracker@,
            memory: self.memory@,
            page_cache: self.page_cache@,
            global_clk: self.global_clk,
            clk: self.clk,
            uninitialized_memory: self.uninitialized_memory@,
            input_stream: stream_contents(self.input_stream@),
            input_stream_ptr: self.input_stream_ptr,
            proof_stream_ptr: self.proof_stream_ptr,
            public_values_stream: self.public_values_stream@,
            public_values_stream_ptr: self.public_values_stream_ptr,
            syscall_counts: self.syscall_counts@,
        }
    }
}

impl Clone for ExecutionState {
    fn clone(&self) -> (state: ExecutionState)
        ensures
            state@ == self@,
    {
        let public_values_stream = self.public_values_stream.clone();
        assert(public_values_stream@ =~= self.public_values_stream@);
        ExecutionState {
            scheduler: self.scheduler.clone(),
            prefetch_buffer: self.prefetch_buffer.clone(),
            stride_predictor: self.stride_predictor.clone(),
            syscall_stats: self.syscall_stats.clone(),
            icache: self.icache.clone(),
            branch_predictor: self.branch_predictor.clone(),
            pc: self.pc,
            current_shard: self.current_shard,
            hot_registers: self.hot_registers,
            cold_registers: self.cold_registers,
            register_access_count: self.register_access_count,
            register_allocator: self.register_allocator.clone(),
            memory_pages: clone_pages(&self.memory_pages),
            memory_access_patterns: self.memory_access_patterns.clone(),
            loop_tracker: self.loop_tracker.clone(),
            memory: self.memory.duplicate(),
            page_cache: self.page_cache.clone(),
            global_clk: self.global_clk,
            clk: self.clk,
            uninitialized_memory: self.uninitialized_memory.duplicate(),
            input_stream: clone_stream(&self.input_stream),
            input_stream_ptr: self.input_stream_ptr,
            proof_stream_ptr: self.proof_stream_ptr,
            public_values_stream,
            public_values_stream_ptr: self.public_values_stream_ptr,
            syscall_counts: self.syscall_counts.duplicate(),
        }
    }
}

fn clone_pages(pages: &Table<MemoryPage>) -> (copy: Table<MemoryPage>)
    ensures
        page_views(copy@) == page_views(pages@),
{
    let mut copy: Table<MemoryPage> = Table::new();
    let count: usize = pages.len();
    let mut i: usize = 0;
    while i < count
        invariant
            i <= count,
            count == pages.keys().len(),
            pages.keys_are_domain(),
            forall|page: u32| #[trigger]
                copy@.contains_key(page) ==> pages@.contains_key(page) && copy@[page]@
                    == pages@[page]@,
            forall|j: int| 0 <= j < i ==> copy@.contains_key(#[trigger] pages.keys()[j]),
        decreases count - i,
    {
        let (addr, page) = pages.entry_at(i);
        copy.insert(addr, page.clone());
        i = i + 1;
    }
    proof {
        assert forall|page: u32| pages@.contains_key(page) implies copy@.contains_key(page) by {
            assert(pages.keys().contains(page));
            let j = choose|j: int| 0 <= j < pages.keys().len() && pages.keys()[j] == page;
            assert(copy@.contains_key(pages.keys()[j]));
        }
        assert(page_views(copy@) =~= page_views(pages@));
    }
    copy
}

fn clone_stream(stream: &Vec<Vec<u8>>) -> (copy: Vec<Vec<u8>>)
    ensures
        stream_contents(copy@) == stream_contents(stream@),
{
    let mut copy: Vec<Vec<u8>> = Vec::new();
    let mut i: usize = 0;
    while i < stream.len()
        invariant
            i <= stream@.len(),
            copy@.len() == i,
            forall|j: int| 0 <= j < i ==> (#[trigger] copy@[j])@ == stream@[j]@,
        decreases stream@.len() - i,
    {
        let bytes = stream[i].clone();
        assert(bytes@ =~= stream@[i as int]@);
        copy.push(bytes);
        i = i + 1;
    }
    assert(stream_contents(copy@) =~= stream_contents(stream@));
    copy
}

impl ExecutionState {
    /// The state before the first instruction of a program. It starts at shard 1, since shard 0 is
    /// reserved for memory initialization.
    #[must_use]
    pub fn new(pc_start: u32) -> (state: ExecutionState)
        ensures
            state@ == StateView::initial(pc_start),
    {
        let state = ExecutionState {
            scheduler: InstructionScheduler::default(),
            prefetch_buffer: PrefetchBuffer::default(),
            stride_predictor: StridePredictor::default(),
            syscall_stats: SyscallStats::default(),
            icache: InstructionCache::default(),
            branch_predictor: BranchPredictor::default(),
            pc: pc_start,
            current_shard: 1,
            hot_registers: [MemoryRecord { value: 0, shard: 0, timestamp: 0 }; 8],
            cold_registers: [MemoryRecord { value: 0, shard: 0, timestamp: 0 }; 24],
            register_access_count: [0u32; 32],
            register_allocator: RegisterAllocator::default(),
            memory_pages: Table::new(),
            memory_access_patterns: MemoryAccessTracker::default(),
            loop_tracker: LoopTracker::default(),
            memory: Table::new(),
            page_cache: WordSet::new(),
            global_clk: 0,
            clk: 0,
            uninitialized_memory: Table::new(),
            input_stream: Vec::new(),
            input_stream_ptr: 0,
            proof_stream_ptr: 0,
            public_values_stream: Vec::new(),
            public_values_stream_ptr: 0,
            syscall_counts: Table::new(),
        };
        proof {
            assert(state@.registers =~= StateView::initial(pc_start).registers);
            assert(state@.register_access_count =~= StateView::initial(
                pc_start,
            ).register_access_count);
            assert(state@.pages =~= StateView::initial(pc_start).pages);
            assert(state@.input_stream =~= StateView::initial(pc_start).input_stream);
        }
        state
    }

    /// The record of a register; the look is counted.
    pub fn get_register(&mut self, reg: usize) -> (record: &MemoryRecord)
        requires
            reg < NUM_REGISTERS,
        ensures
            *record == old(self)@.registers[reg as int],
            final(self)@ == old(self)@.register_counted(reg as int),
    {
        self.register_access_count[reg] = self.register_access_count[reg].wrapping_add(1);
        assert(self@ =~= old(self)@.register_counted(reg as int));
        if reg < 8 {
            &self.hot_registers[reg]
        } else {
            &self.cold_registers[reg - 8]
        }
    }

    /// Sets the record of a register.
    pub fn set_register(&mut self, reg: usize, value: MemoryRecord)
        requires
            reg < NUM_REGISTERS,
        ensures
            final(self)@ == old(self)@.register_set(reg as int, value),
    {
        if reg < 8 {
            self.hot_registers[reg] = value;
        } else {
            self.cold_registers[reg - 8] = value;
        }
        assert(self@.registers =~= old(self)@.registers.update(reg as int, value));
    }

    /// The page of an address; a new page is put in use where there is none.
    pub fn get_or_create_page(&mut self, addr: u32) -> (page: &mut MemoryPage)
        ensures
            page@ == old(self)@.page_at(addr),
            final(self)@ == (StateView {
                pages: old(self)@.pages.insert(page_of(addr), final(page)@),
                page_cache: old(self)@.page_cache.insert(page_of(addr)),
                ..old(self)@
            }),
    {
        let page_addr: u32 = addr - addr % MEMORY_PAGE_SIZE;
        self.page_cache.insert(page_addr);
        if !self.memory_pages.contains(page_addr) {
            self.memory_pages.insert(page_addr, MemoryPage::new());
        }
        assert(page_views(self.memory_pages@) =~= old(self)@.pages.insert(
            page_addr,
            old(self)@.page_at(addr),
        ));
        let page = self.memory_pages.get_mut(page_addr).unwrap();
        page
    }

    /// The record of the word at an address, that of the page before that of the sparse memory.
    pub fn get_memory(&self, addr: u32) -> (record: Option<&MemoryRecord>)
        ensures
            match record {
                Some(r) => self@.record_at(addr) == Some(*r),
                None => self@.record_at(addr) is None,
            },
    {
        let page_addr: u32 = addr - addr % MEMORY_PAGE_SIZE;
        if let Some(page) = self.memory_pages.get(page_addr) {
            if let Some(record) = page.get(addr) {
                return Some(record);
            }
        }
        self.memory.get(addr)
    }

    /// Puts a record at an address: into the page where the page is in use, into the sparse memory
    /// otherwise. The prefetch buffer follows.
    pub fn set_memory(&mut self, addr: u32, record: MemoryRecord)
        ensures
            final(self)@ == old(self)@.written(addr, record),
    {
        let page_addr: u32 = addr - addr % MEMORY_PAGE_SIZE;
        self.prefetch_buffer.refresh(addr, record);
        if self.page_cache.contains(page_addr) {
            let page = self.get_or_create_page(addr);
            page.set(addr, record);
        } else {
            self.memory.insert(addr, record);
        }
        assert(self@ =~= old(self)@.written(addr, record));
    }
}

} // verus!
