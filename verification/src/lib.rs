//! An executor for RISC-V programs of 32-bit words, with the optimizations of a processor: a
//! scheduler, an instruction cache, branch prediction, prefetching, register allocation and loop
//! detection.
//!
//! Every component has a view, a value of a ghost type, and functions on views that say what an
//! operation does. The contracts of the executable functions are stated over these, up to
//! [`executor::Executor`], whose machine is described in [`machine`] and whose cycles are described
//! in [`cycle`]. [`laws`] and [`runs`] prove what follows: that memory gives back what was written,
//! that register zero stays zero, that a run is determined by its program, that runs with and without
//! events agree, and that a checkpoint gives back the memory from before.
//!
//! What is not proved is what [`index`] claims of the hash tables that hold words.

pub mod access;
pub mod alu;
pub mod branch;
pub mod checkpoint;
pub mod conduct;
pub mod context;
pub mod cycle;
pub mod error;
pub mod events;
pub mod executor;
pub mod hooks;
pub mod icache;
pub mod index;
pub mod isa;
pub mod lanes;
pub mod laws;
pub mod loops;
pub mod machine;
pub mod meaning;
pub mod memory;
pub mod mode;
pub mod prefetch;
pub mod recent;
pub mod regalloc;
pub mod replay;
pub mod runs;
pub mod scheduler;
pub mod state;
pub mod syscalls;
pub mod table;
