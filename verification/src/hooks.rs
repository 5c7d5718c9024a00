//! Hooks: what is invoked when a program writes to certain file descriptors.
use std::sync::Arc;

use vstd::prelude::*;

use crate::memory::RuntimeLog;
use crate::state::ExecutionState;
use crate::table::Table;

verus! {

/// What a hook may see of the machine.
pub struct HookEnv<'b> {
    /// The state of the execution.
    pub state: &'b ExecutionState,
    /// The mode of execution and what it has left behind.
    pub log: &'b RuntimeLog,
}

/// The byte strings of a reply.
pub open spec fn reply_contents(reply: Seq<Vec<u8>>) -> Seq<Seq<u8>> {
    Seq::new(reply.len(), |i: int| reply[i]@)
}

/// A hook, to be invoked with the bytes that a program writes.
pub trait Hook: Send + Sync {
    /// A name for what a hook does: it may answer bytes with `reply`. Of a hook that says nothing
    /// more, any reply may be.
    open spec fn replies(
        &self,
        state: ExecutionState,
        log: RuntimeLog,
        buf: Seq<u8>,
        reply: Seq<Seq<u8>>,
    ) -> bool {
        true
    }

    /// Invokes the hook.
    fn invoke_hook(&self, env: HookEnv<'_>, buf: &[u8]) -> (reply: Vec<Vec<u8>>)
        ensures
            self.replies(*env.state, *env.log, buf@, reply_contents(reply@)),
    ;
}

/// A hook, to be shared.
pub struct HookImpl {
    pub implementation: Box<dyn Hook>,
}

/// The hooks by file descriptor.
pub struct HookRegistry {
    table: Table<Arc<HookImpl>>,
}

impl View for HookRegistry {
    type V = Map<u32, Arc<HookImpl>>;

    closed spec fn view(&self) -> Map<u32, Arc<HookImpl>> {
        self.table@
    }
}

impl HookRegistry {
    /// A registry without hooks.
    pub fn empty() -> (registry: HookRegistry)
        ensures
            registry@ == Map::<u32, Arc<HookImpl>>::empty(),
    {
        HookRegistry { table: Table::new() }
    }

    /// Registers a hook for a file descriptor, in place of the one that was there.
    pub fn register(&mut self, fd: u32, hook: Arc<HookImpl>)
        ensures
            final(self)@ == old(self)@.insert(fd, hook),
    {
        self.table.insert(fd, hook);
    }

    /// The hook of a file descriptor.
    pub fn get(&self, fd: u32) -> (hook: Option<&Arc<HookImpl>>)
        ensures
            match hook {
                Some(found) => self@.contains_key(fd) && *found == self@[fd],
                None => !self@.contains_key(fd),
            },
    {
        self.table.get(fd)
    }
}

/// Why a hook could not be invoked.
#[derive(Clone, Copy, PartialEq, Eq, Structural, Debug)]
pub enum HookError {
    /// No hook is registered for the file descriptor.
    NotFound(u32),
}

} // verus!
