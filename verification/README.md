# rv32_executor

An executor for RISC-V programs of 32-bit words, verified with Verus. It runs a program instruction
by instruction and keeps track of what happens: memory accesses with their times, the events of a
shard, checkpoints of memory, and the changes made in unconstrained mode.

## Layout

- `src/` is the verified library.
  - `isa`, `alu`, `lanes`: instructions and programs, register operations, parts of words.
  - `state`, `memory`, `events`, `mode`, `checkpoint`: the state of the machine, reads and writes of
    words and the log that they leave, checkpoints.
  - `scheduler`, `icache`, `branch`, `prefetch`, `access`, `regalloc`, `loops`, `recent`: the
    optimizations. Each is a component of its own.
  - `syscalls`, `hooks`, `context`: what a program's surroundings provide. An executor has the system
    calls and hooks of the environment that it is made with.
  - `machine`, `cycle`: what an instruction does, what a cycle does, what a run does.
  - `executor`: the executor itself. `error`: its errors and their messages.
  - `laws`, `runs`: what follows for instructions and for runs.
  - `table`, `index`: hash tables over words. `index` calls `hashbrown` and is trusted.
- `tests/` runs the library.
- `app/` puts the executor into its surroundings: trace files, messages, saved states, errors that
  print.

## How contracts are written

A component `X` has a ghost type `XView` and functions on it that give the value after an operation.
The executable operation ensures that its view afterwards is that value. Where a system call decides
what comes next, the contracts are relations: they hold of every effect that the implementation of
the call may have.

The prefetch buffer follows every write, so what a look or a read gives is the current value of a
word. Counters and clocks wrap.
