# go_vm

A virtual machine for programs in the Go language that have been compiled to bytecode.
Verus proves what every instruction does.

## Layout

- `src/` is the machine, every part of it verified.
  - `value`, `bytecode`, `trap`, `panic`: values, programs, and what can go wrong.
  - `machine`: the tables that hold everything that is shared. A value is a small word that
    names what it refers to by its position there.
  - `num`, `text`, `content`, `dict`, `slices`, `meta`: integers, characters, copying and
    comparing, maps, slices, type descriptions.
  - `place`, `embed`, `closure`, `frame`, `range`: where values are read and written, embedded
    fields and methods, captured variables, call frames, walks over collections.
  - `effect`, `ops_place`, `ops_word`, `ops_type`, `ops_make`: the instructions that compute.
  - `fiber`, `ops_call`, `run`, `reply`: goroutines, calls, panics and deferred calls, the main
    loop, and the answers of the host.
  - `laws_*`: what holds of the machine as a whole.
- `tests/` runs programs and single instructions.
- `app/` drives the machine: it schedules the fibers on an executor, hands channels and calls to
  the host, and calculates with floating-point numbers.

## How a program runs

`start` makes the first fiber, and `Fiber::main_loop` runs it until its turn is over, it ends, it
starts another fiber, or the host has to do something (`Step`). The host does what is asked
(`Ask`) and answers with `Fiber::resume`. What a program did wrong is a Go panic, which can be
recovered; bytecode that no compiler makes is a `Trap::Fault`, and the machine stops.

## What the contracts say

Each instruction has a specification over the mathematical view of the tables (`VmView`) and the
fiber (`FiberView`): a function from the state before to the state after, the step that follows,
or the mistake. The code is proved to do exactly that. The laws follow from these functions, among
them:

- nothing goes from the tables, and every value leads somewhere after every instruction;
- a captured variable is the slot of its frame until the frame returns, and keeps its value after;
- deferred calls run last first, also when a panic passes, and a panic is recovered once;
- a turn ends after a fixed number of instructions;
- a mistake of the program changes nothing before the panic starts.
