//! What an executor is given besides its program.
use std::sync::Arc;

use vstd::prelude::*;

#[allow(unused_imports)]
use crate::hooks::HookImpl;
use crate::hooks::HookRegistry;
use crate::syscalls::SyscallImpl;
use crate::table::Table;

verus! {

/// What programs find in an executor, whatever their context: the system calls, and the hooks where
/// the context has none of its own.
pub struct Environment {
    /// The implementations of the system calls by code.
    pub syscall_map: Table<Arc<SyscallImpl>>,
    /// The code that a system call is counted under, where it is not its own.
    pub syscall_aliases: Table<u32>,
    /// The hooks by file descriptor.
    pub hook_registry: HookRegistry,
}

impl Environment {
    /// An environment without system calls and hooks, to be filled.
    pub fn empty() -> (environment: Environment)
        ensures
            environment.syscall_map@ == Map::<u32, Arc<SyscallImpl>>::empty(),
            environment.syscall_aliases@ == Map::<u32, u32>::empty(),
            environment.hook_registry@ == Map::<u32, Arc<HookImpl>>::empty(),
    {
        Environment {
            syscall_map: Table::new(),
            syscall_aliases: Table::new(),
            hook_registry: HookRegistry::empty(),
        }
    }
}

/// Context to run a program inside the executor.
pub struct SP1Context {
    /// The registry of hooks invocable from inside the executor.
    ///
    /// Note: `None` denotes the hooks of the environment.
    pub hook_registry: Option<HookRegistry>,
    /// The maximum number of cpu cycles to use for execution.
    pub max_cycles: Option<u64>,
}

impl Default for SP1Context {
    fn default() -> (context: SP1Context)
        ensures
            context.hook_registry is None,
            context.max_cycles is None,
    {
        SP1Context { hook_registry: None, max_cycles: None }
    }
}

} // verus!
