use vstd::prelude::*;

verus! {

/// A point of CPU state at which a batched run halts: the A register, the D register or the
/// program counter holding a value, or a memory word (address, value) holding a value.
#[derive(Debug, Clone, Copy, PartialEq, Eq, Hash, Structural)]
pub enum Breakpoint {
    A(i16),
    D(i16),
    PC(u16),
    RAM(u16, i16),
}

/// The kinds of breakpoint, to choose which one to build.
#[derive(Debug, Clone, Copy, PartialEq, Eq, Structural)]
pub enum BreakpointSelector {
    A,
    D,
    PC,
    RAM,
}

} // verus!
