use crate::debug::Breakpoint;
use crate::instructions::{Comp, Destination, Instruction, Jump, A, C};
use crate::parser::MAX_RAM;
use crate::screen::KBD_LOCATION;
use crate::symbol_table::{predefined_symbols, SymbolTable};
use vstd::prelude::*;

verus! {

/// The value that a computation yields from the A register, the D register and the memory word
/// M = RAM[A], in 16-bit two's-complement arithmetic that wraps on overflow. Shifts move by one
/// bit; a right shift keeps the sign bit. `D-1` and `A-1` compute `D+1` and `A+1`, a deliberate
/// compatibility choice of this machine; `M-1` does subtract one.
pub open spec fn comp_value(c: Comp, a: i16, d: i16, m: i16) -> i16 {
    match c {
        Comp::Zero => 0i16,
        Comp::One => 1i16,
        Comp::MinusOne => -1i16,
        Comp::D => d,
        Comp::A => a,
        Comp::NotD => !d,
        Comp::NotA => !a,
        Comp::MinusD => 0i16.wrapping_sub(d),
        Comp::MinusA => 0i16.wrapping_sub(a),
        Comp::DPlusOne => d.wrapping_add(1),
        Comp::APlusOne => a.wrapping_add(1),
        Comp::DMinusOne => d.wrapping_add(1),
        Comp::AMinusOne => a.wrapping_add(1),
        Comp::DPlusA => d.wrapping_add(a),
        Comp::DMinusA => d.wrapping_sub(a),
        Comp::AMinusD => a.wrapping_sub(d),
        Comp::DAndA => d & a,
        Comp::DOrA => d | a,
        Comp::M => m,
        Comp::NotM => !m,
        Comp::MinusM => 0i16.wrapping_sub(m),
        Comp::MPlusOne => m.wrapping_add(1),
        Comp::MMinusOne => m.wrapping_sub(1),
        Comp::DPlusM => d.wrapping_add(m),
        Comp::DMinusM => d.wrapping_sub(m),
        Comp::MMinusD => m.wrapping_sub(d),
        Comp::DAndM => m & d,
        Comp::DOrM => m | d,
        Comp::LeftShiftA => a.wrapping_shl(1),
        Comp::LeftShiftD => d.wrapping_shl(1),
        Comp::LeftShiftM => m.wrapping_shl(1),
        Comp::RightShiftA => a.wrapping_shr(1),
        Comp::RightShiftD => d.wrapping_shr(1),
        Comp::RightShiftM => m.wrapping_shr(1),
    }
}

/// Whether a computation reads the memory word M.
pub open spec fn reads_memory(c: Comp) -> bool {
    match c {
        Comp::M | Comp::NotM | Comp::MinusM | Comp::MPlusOne | Comp::MMinusOne | Comp::DPlusM
        | Comp::DMinusM | Comp::MMinusD | Comp::DAndM | Comp::DOrM | Comp::LeftShiftM
        | Comp::RightShiftM => true,
        _ => false,
    }
}

/// Whether a destination names the A register.
pub open spec fn stores_a(dest: Destination) -> bool {
    dest is A || dest is AM || dest is AD || dest is AMD
}

/// Whether a destination names the memory word M.
pub open spec fn stores_m(dest: Destination) -> bool {
    dest is M || dest is MD || dest is AM || dest is AMD
}

/// Whether a destination names the D register.
pub open spec fn stores_d(dest: Destination) -> bool {
    dest is D || dest is MD || dest is AD || dest is AMD
}

/// Whether a jump condition holds of a computed value, read as a signed number.
pub open spec fn jump_taken(j: Jump, v: i16) -> bool {
    match j {
        Jump::Null => false,
        Jump::JGT => v > 0,
        Jump::JEQ => v == 0,
        Jump::JGE => v >= 0,
        Jump::JLT => v < 0,
        Jump::JNE => v != 0,
        Jump::JLE => v <= 0,
        Jump::JMP => true,
    }
}

/// What a compute instruction does to (A, D, M, PC), given their values before it: the value is
/// stored in each named destination, then the program counter moves to the address now held in
/// A if the jump condition holds, and on by one otherwise.
pub open spec fn c_outcome(c: C, a: i16, d: i16, m: i16, pc: u16) -> (i16, i16, i16, u16) {
    let v = comp_value(c.comp, a, d, m);
    let a2 = if stores_a(c.dest) { v } else { a };
    let d2 = if stores_d(c.dest) { v } else { d };
    let m2 = if stores_m(c.dest) { v } else { m };
    let pc2 = if jump_taken(c.jump, v) { a2 as u16 } else { (pc + 1) as u16 };
    (a2, d2, m2, pc2)
}

/// The registers and memory of the machine.
pub struct MachineState {
    pub a: i16,
    pub d: i16,
    pub pc: u16,
    pub ram: Seq<i16>,
}

/// A fault raised by an instruction that cannot be carried out.
#[derive(Debug, Clone, Copy, PartialEq, Eq, Structural)]
pub enum RuntimeFault {
    /// The instruction reads or writes M while A holds no memory address.
    AddressOutOfRange(i16),
}

/// Whether A holds the address of a memory word.
pub open spec fn addresses_memory(s: MachineState) -> bool {
    0 <= s.a < s.ram.len()
}

/// The state after one instruction, or the fault that it raises; a faulting instruction changes
/// nothing.
pub open spec fn step(s: MachineState, instr: Instruction) -> Result<MachineState, RuntimeFault> {
    match instr {
        Instruction::A(x) => Ok(MachineState { a: x.dest, pc: (s.pc + 1) as u16, ..s }),
        Instruction::C(c) => {
            if (reads_memory(c.comp) || stores_m(c.dest)) && !addresses_memory(s) {
                Err(RuntimeFault::AddressOutOfRange(s.a))
            } else {
                let m = if addresses_memory(s) { s.ram[s.a as int] } else { 0i16 };
                let (a2, d2, m2, pc2) = c_outcome(c, s.a, s.d, m, s.pc);
                Ok(
                    MachineState {
                        a: a2,
                        d: d2,
                        pc: pc2,
                        ram: if stores_m(c.dest) { s.ram.update(s.a as int, m2) } else { s.ram },
                    },
                )
            }
        },
        _ => Ok(MachineState { pc: (s.pc + 1) as u16, ..s }),
    }
}

/// Whether a breakpoint's condition holds in a state.
pub open spec fn breakpoint_matches(b: Breakpoint, s: MachineState) -> bool {
    match b {
        Breakpoint::A(v) => s.a == v,
        Breakpoint::D(v) => s.d == v,
        Breakpoint::PC(v) => s.pc == v,
        Breakpoint::RAM(n, v) => n < s.ram.len() && s.ram[n as int] == v,
    }
}

/// Whether any of the breakpoints matches a state.
pub open spec fn any_breakpoint_matches(bps: Seq<Breakpoint>, s: MachineState) -> bool {
    exists|i: int| 0 <= i < bps.len() && breakpoint_matches(#[trigger] bps[i], s)
}

/// The breakpoints other than `b`.
pub open spec fn other_than(b: Breakpoint) -> spec_fn(Breakpoint) -> bool {
    |x: Breakpoint| x != b
}

/// Why a batched run stopped.
#[derive(Debug, Clone, Copy, PartialEq, Eq, Structural)]
pub enum StopReason {
    /// The batch used all its steps; the program may go on in the next batch.
    BatchDone,
    /// The program counter ran past the program; it was put back on the last slot.
    EndOfProgram,
    /// A breakpoint matched the state after the last instruction.
    BreakpointHit,
    /// The last instruction raised a fault and changed nothing.
    Fault(RuntimeFault),
}

/// At most `budget` steps of `program` from `s`, checking the breakpoints after each one.
pub open spec fn run(s: MachineState, program: Seq<Instruction>, bps: Seq<Breakpoint>, budget: nat) -> (
    MachineState,
    StopReason,
)
    decreases budget,
{
    if budget == 0 {
        (s, StopReason::BatchDone)
    } else if s.pc >= program.len() {
        (MachineState { pc: (program.len() - 1) as u16, ..s }, StopReason::EndOfProgram)
    } else {
        match step(s, program[s.pc as int]) {
            Err(f) => (s, StopReason::Fault(f)),
            Ok(s2) => if any_breakpoint_matches(bps, s2) {
                (s2, StopReason::BreakpointHit)
            } else {
                run(s2, program, bps, (budget - 1) as nat)
            },
        }
    }
}

/// The value of a computation, as [comp_value] states it.
fn alu(c: Comp, a: i16, d: i16, m: i16) -> (r: i16)
    ensures
        r == comp_value(c, a, d, m),
{
    match c {
        Comp::Zero => 0i16,
        Comp::One => 1i16,
        Comp::MinusOne => -1i16,
        Comp::D => d,
        Comp::A => a,
        Comp::NotD => !d,
        Comp::NotA => !a,
        Comp::MinusD => 0i16.wrapping_sub(d),
        Comp::MinusA => 0i16.wrapping_sub(a),
        Comp::DPlusOne => d.wrapping_add(1),
        Comp::APlusOne => a.wrapping_add(1),
        Comp::DMinusOne => d.wrapping_add(1),
        Comp::AMinusOne => a.wrapping_add(1),
        Comp::DPlusA => d.wrapping_add(a),
        Comp::DMinusA => d.wrapping_sub(a),
        Comp::AMinusD => a.wrapping_sub(d),
        Comp::DAndA => d & a,
        Comp::DOrA => d | a,
        Comp::M => m,
        Comp::NotM => !m,
        Comp::MinusM => 0i16.wrapping_sub(m),
        Comp::MPlusOne => m.wrapping_add(1),
        Comp::MMinusOne => m.wrapping_sub(1),
        Comp::DPlusM => d.wrapping_add(m),
        Comp::DMinusM => d.wrapping_sub(m),
        Comp::MMinusD => m.wrapping_sub(d),
        Comp::DAndM => m & d,
        Comp::DOrM => m | d,
        Comp::LeftShiftA => a.wrapping_shl(1),
        Comp::LeftShiftD => d.wrapping_shl(1),
        Comp::LeftShiftM => m.wrapping_shl(1),
        Comp::RightShiftA => a.wrapping_shr(1),
        Comp::RightShiftD => d.wrapping_shr(1),
        Comp::RightShiftM => m.wrapping_shr(1),
    }
}

/// The Hack CPU: registers, memory, the symbol table of the loaded program and the breakpoints.
#[derive(Debug)]
pub struct CPUState {
    pub a: i16,
    pub d: i16,
    pub pc: u16,
    pub ram: Vec<i16>,
    pub address_table: SymbolTable,
    pub breakpoints: Vec<Breakpoint>,
}

impl View for CPUState {
    type V = MachineState;

    open spec fn view(&self) -> MachineState {
        MachineState { a: self.a, d: self.d, pc: self.pc, ram: self.ram@ }
    }
}

impl CPUState {
    /// A machine with zeroed registers and memory, a fresh symbol table and no breakpoints.
    pub fn new() -> (r: CPUState)
        ensures
            r.a == 0,
            r.d == 0,
            r.pc == 0,
            r.ram@ == Seq::new(MAX_RAM as nat, |i: int| 0i16),
            r.address_table@ == predefined_symbols(),
            r.address_table.current_variable == 16,
            r.breakpoints@ == Seq::<Breakpoint>::empty(),
    {
        let mut ram: Vec<i16> = Vec::new();
        let mut i: usize = 0;
        while i < MAX_RAM
            invariant
                i <= MAX_RAM,
                ram@ == Seq::new(i as nat, |j: int| 0i16),
            decreases MAX_RAM - i,
        {
            ram.push(0);
            i += 1;
            proof {
                assert(ram@ =~= Seq::new(i as nat, |j: int| 0i16));
            }
        }
        CPUState {
            a: 0,
            d: 0,
            pc: 0,
            ram,
            address_table: SymbolTable::new(),
            breakpoints: Vec::new(),
        }
    }

    /// Replaces the symbol table with a fresh one, as before a new program is loaded.
    pub fn reset_address_table(&mut self)
        ensures
            final(self)@ == old(self)@,
            final(self).address_table@ == predefined_symbols(),
            final(self).address_table.current_variable == 16,
            final(self).breakpoints == old(self).breakpoints,
    {
        self.address_table = SymbolTable::new();
    }

    /// Executes one instruction. An instruction that reads or writes M while A holds no memory
    /// address raises a fault and changes nothing.
    pub fn interpret(&mut self, instruction: &Instruction) -> (r: Result<(), RuntimeFault>)
        requires
            old(self).pc < u16::MAX,
        ensures
            match step(old(self)@, *instruction) {
                Ok(s) => r is Ok && final(self)@ == s,
                Err(f) => r == Err::<(), RuntimeFault>(f) && final(self)@ == old(self)@,
            },
            final(self).address_table == old(self).address_table,
            final(self).breakpoints == old(self).breakpoints,
    {
        match instruction {
            Instruction::A(a) => {
                self.a_instruction(a);
                Ok(())
            },
            Instruction::C(c) => self.c_instruction(c),
            _ => {
                self.pc = self.pc + 1;
                Ok(())
            },
        }
    }

    /// Executes an address instruction.
    fn a_instruction(&mut self, a: &A)
        requires
            old(self).pc < u16::MAX,
        ensures
            step(old(self)@, Instruction::A(*a)) == Ok::<MachineState, RuntimeFault>(final(self)@),
            final(self).address_table == old(self).address_table,
            final(self).breakpoints == old(self).breakpoints,
    {
        self.a = a.dest;
        self.pc = self.pc + 1;
    }

    /// Executes a compute instruction.
    fn c_instruction(&mut self, c: &C) -> (r: Result<(), RuntimeFault>)
        requires
            old(self).pc < u16::MAX,
        ensures
            match step(old(self)@, Instruction::C(*c)) {
                Ok(s) => r is Ok && final(self)@ == s,
                Err(f) => r == Err::<(), RuntimeFault>(f) && final(self)@ == old(self)@,
            },
            final(self).address_table == old(self).address_table,
            final(self).breakpoints == old(self).breakpoints,
    {
        let in_range = 0 <= self.a && (self.a as usize) < self.ram.len();
        let m_read = match c.comp {
            Comp::M | Comp::NotM | Comp::MinusM | Comp::MPlusOne | Comp::MMinusOne | Comp::DPlusM
            | Comp::DMinusM | Comp::MMinusD | Comp::DAndM | Comp::DOrM | Comp::LeftShiftM
            | Comp::RightShiftM => true,
            _ => false,
        };
        let m_write = match c.dest {
            Destination::M | Destination::MD | Destination::AM | Destination::AMD => true,
            _ => false,
        };
        if (m_read || m_write) && !in_range {
            return Err(RuntimeFault::AddressOutOfRange(self.a));
        }
        let m = if in_range { self.ram[self.a as usize] } else { 0 };
        let v = alu(c.comp, self.a, self.d, m);
        if m_write {
            let addr = self.a as usize;
            self.ram.set(addr, v);
        }
        match c.dest {
            Destination::A | Destination::AM | Destination::AD | Destination::AMD => {
                self.a = v;
            },
            _ => {},
        }
        match c.dest {
            Destination::D | Destination::MD | Destination::AD | Destination::AMD => {
                self.d = v;
            },
            _ => {},
        }
        let taken = match c.jump {
            Jump::Null => false,
            Jump::JGT => v > 0,
            Jump::JEQ => v == 0,
            Jump::JGE => v >= 0,
            Jump::JLT => v < 0,
            Jump::JNE => v != 0,
            Jump::JLE => v <= 0,
            Jump::JMP => true,
        };
        if taken {
            self.pc = self.a as u16;
        } else {
            self.pc = self.pc + 1;
        }
        Ok(())
    }

    /// Sets every memory word to zero; registers, program counter and the rest stay.
    pub fn reset_ram(&mut self)
        ensures
            final(self).ram@ == Seq::new(old(self).ram@.len(), |i: int| 0i16),
            final(self).a == old(self).a,
            final(self).d == old(self).d,
            final(self).pc == old(self).pc,
            final(self).address_table == old(self).address_table,
            final(self).breakpoints == old(self).breakpoints,
    {
        let n = self.ram.len();
        let mut i: usize = 0;
        while i < n
            invariant
                n == self.ram@.len(),
                n == old(self).ram@.len(),
                i <= n,
                forall|j: int| 0 <= j < i ==> self.ram@[j] == 0i16,
                self.a == old(self).a,
                self.d == old(self).d,
                self.pc == old(self).pc,
                self.address_table == old(self).address_table,
                self.breakpoints == old(self).breakpoints,
            decreases n - i,
        {
            self.ram.set(i, 0);
            i += 1;
        }
        proof {
            assert(self.ram@ =~= Seq::new(old(self).ram@.len(), |i: int| 0i16));
        }
    }

    /// Whether any breakpoint matches the current state.
    pub fn breakpoint_hit(&self) -> (r: bool)
        ensures
            r == any_breakpoint_matches(self.breakpoints@, self@),
    {
        let mut i: usize = 0;
        while i < self.breakpoints.len()
            invariant
                i <= self.breakpoints@.len(),
                forall|j: int| 0 <= j < i ==> !breakpoint_matches(#[trigger] self.breakpoints@[j], self@),
            decreases self.breakpoints@.len() - i,
        {
            let hit = match self.breakpoints[i] {
                Breakpoint::A(v) => self.a == v,
                Breakpoint::D(v) => self.d == v,
                Breakpoint::PC(v) => self.pc == v,
                Breakpoint::RAM(n, v) => (n as usize) < self.ram.len() && self.ram[n as usize] == v,
            };
            if hit {
                return true;
            }
            i += 1;
        }
        false
    }

    /// Adds a breakpoint; adding one that is already there changes nothing.
    pub fn add_breakpoint(&mut self, b: Breakpoint)
        ensures
            final(self).breakpoints@.to_set() == old(self).breakpoints@.to_set().insert(b),
            old(self).breakpoints@.contains(b) ==> final(self).breakpoints == old(self).breakpoints,
            final(self)@ == old(self)@,
            final(self).address_table == old(self).address_table,
    {
        let mut i: usize = 0;
        while i < self.breakpoints.len()
            invariant
                i <= self.breakpoints@.len(),
                forall|j: int| 0 <= j < i ==> self.breakpoints@[j] != b,
            decreases self.breakpoints@.len() - i,
        {
            if self.breakpoints[i] == b {
                proof {
                    assert(self.breakpoints@.to_set() =~= self.breakpoints@.to_set().insert(b));
                }
                return;
            }
            i += 1;
        }
        let ghost s0 = self.breakpoints@;
        self.breakpoints.push(b);
        proof {
            let s1 = self.breakpoints@;
            assert forall|x: Breakpoint| s1.contains(x) <==> (s0.contains(x) || x == b) by {
                if s0.contains(x) {
                    let k = choose|k: int| 0 <= k < s0.len() && s0[k] == x;
                    assert(s1[k] == x);
                }
                if x == b {
                    assert(s1[s0.len() as int] == x);
                }
                if s1.contains(x) && x != b {
                    let k = choose|k: int| 0 <= k < s1.len() && s1[k] == x;
                    assert(s0[k] == x);
                }
            }
            assert(s1.to_set() =~= s0.to_set().insert(b));
        }
    }

    /// Removes a breakpoint, if it is there.
    pub fn remove_breakpoint(&mut self, b: Breakpoint)
        ensures
            final(self).breakpoints@ == old(self).breakpoints@.filter(other_than(b)),
            final(self).breakpoints@.to_set() == old(self).breakpoints@.to_set().remove(b),
            final(self)@ == old(self)@,
            final(self).address_table == old(self).address_table,
    {
        let ghost pred = other_than(b);
        let ghost s0 = self.breakpoints@;
        let mut kept: Vec<Breakpoint> = Vec::new();
        let mut i: usize = 0;
        while i < self.breakpoints.len()
            invariant
                s0 == self.breakpoints@,
                pred == other_than(b),
                i <= s0.len(),
                kept@ == s0.take(i as int).filter(pred),
            decreases s0.len() - i,
        {
            let x = self.breakpoints[i];
            proof {
                let t = s0.take(i + 1);
                assert(t.drop_last() =~= s0.take(i as int));
                assert(t.last() == x);
                assert(pred(x) == (x != b));
                reveal(Seq::filter);
                assert(t.filter(pred) == if pred(t.last()) {
                    t.drop_last().filter(pred).push(t.last())
                } else {
                    t.drop_last().filter(pred)
                });
            }
            if x != b {
                kept.push(x);
            }
            i += 1;
        }
        proof {
            assert(s0.take(s0.len() as int) =~= s0);
        }
        self.breakpoints = kept;
        proof {
            let s1 = self.breakpoints@;
            broadcast use vstd::seq_lib::group_filter_ensures;
            assert forall|x: Breakpoint| s1.contains(x) <==> (s0.contains(x) && x != b) by {
                if s1.contains(x) {
                    let k = choose|k: int| 0 <= k < s1.len() && s1[k] == x;
                    assert(pred(s1[k]));
                    s0.lemma_filter_contains_rev(pred, x);
                }
                if s0.contains(x) && x != b {
                    let k = choose|k: int| 0 <= k < s0.len() && s0[k] == x;
                    assert(pred(s0[k]));
                }
            }
            assert(s1.to_set() =~= s0.to_set().remove(b));
        }
    }

    /// Executes the instruction at the program counter, without checking breakpoints; a program
    /// counter past the program is put back on its last slot instead.
    pub fn single_step(&mut self, program: &Vec<Instruction>) -> (r: StopReason)
        requires
            0 < program@.len() <= u16::MAX,
        ensures
            (final(self)@, r) == run(old(self)@, program@, Seq::empty(), 1),
            final(self).address_table == old(self).address_table,
            final(self).breakpoints == old(self).breakpoints,
    {
        if (self.pc as usize) >= program.len() {
            self.pc = (program.len() - 1) as u16;
            return StopReason::EndOfProgram;
        }
        let pc = self.pc as usize;
        match self.interpret(&program[pc]) {
            Err(f) => StopReason::Fault(f),
            Ok(()) => {
                proof {
                    assert(!any_breakpoint_matches(Seq::empty(), self@));
                    assert(run(self@, program@, Seq::empty(), 0) == (self@, StopReason::BatchDone));
                }
                StopReason::BatchDone
            },
        }
    }

    /// Runs at most `budget` instructions of `program`, stopping as soon as a breakpoint matches
    /// the state after an instruction, when an instruction faults, or when the program counter
    /// has run past the program (it is then put back on the last slot).
    pub fn run_batch(&mut self, program: &Vec<Instruction>, budget: usize) -> (r: StopReason)
        requires
            0 < program@.len() <= u16::MAX,
        ensures
            (final(self)@, r) == run(old(self)@, program@, old(self).breakpoints@, budget as nat),
            final(self).address_table == old(self).address_table,
            final(self).breakpoints == old(self).breakpoints,
    {
        let mut i: usize = 0;
        while i < budget
            invariant
                0 < program@.len() <= u16::MAX,
                i <= budget,
                run(old(self)@, program@, old(self).breakpoints@, budget as nat) == run(
                    self@,
                    program@,
                    self.breakpoints@,
                    (budget - i) as nat,
                ),
                self.address_table == old(self).address_table,
                self.breakpoints == old(self).breakpoints,
            decreases budget - i,
        {
            if (self.pc as usize) >= program.len() {
                self.pc = (program.len() - 1) as u16;
                return StopReason::EndOfProgram;
            }
            let pc = self.pc as usize;
            match self.interpret(&program[pc]) {
                Err(f) => {
                    return StopReason::Fault(f);
                },
                Ok(()) => {},
            }
            if self.breakpoint_hit() {
                return StopReason::BreakpointHit;
            }
            i += 1;
        }
        StopReason::BatchDone
    }

    /// Writes a key code into the keyboard register (0 when no key is down).
    pub fn press_key(&mut self, code: i16)
        ensures
            final(self).ram@ == if KBD_LOCATION < old(self).ram@.len() {
                old(self).ram@.update(KBD_LOCATION as int, code)
            } else {
                old(self).ram@
            },
            final(self).a == old(self).a,
            final(self).d == old(self).d,
            final(self).pc == old(self).pc,
            final(self).address_table == old(self).address_table,
            final(self).breakpoints == old(self).breakpoints,
    {
        if KBD_LOCATION < self.ram.len() {
            self.ram.set(KBD_LOCATION, code);
        }
    }
}

/// A compute instruction's outcome depends on A, D, M = RAM[A], the program counter and the
/// instruction alone: two machines that agree on these agree afterwards on A, D, the program
/// counter and the word at the old address, or raise the same fault.
pub proof fn lemma_compute_is_pure(s1: MachineState, s2: MachineState, c: C)
    requires
        s1.a == s2.a,
        s1.d == s2.d,
        s1.pc == s2.pc,
        addresses_memory(s1) == addresses_memory(s2),
        addresses_memory(s1) ==> s1.ram[s1.a as int] == s2.ram[s2.a as int],
    ensures
        match (step(s1, Instruction::C(c)), step(s2, Instruction::C(c))) {
            (Ok(t1), Ok(t2)) => t1.a == t2.a && t1.d == t2.d && t1.pc == t2.pc && (addresses_memory(
                s1,
            ) ==> t1.ram[s1.a as int] == t2.ram[s2.a as int]),
            (Err(f1), Err(f2)) => f1 == f2,
            _ => false,
        },
{
}

/// A batch that stops at a breakpoint stops in a state that one of its breakpoints matches, so
/// a breakpoint that has been removed never stops a run by itself.
pub proof fn lemma_breakpoint_stop_matches(
    s: MachineState,
    program: Seq<Instruction>,
    bps: Seq<Breakpoint>,
    budget: nat,
)
    ensures
        run(s, program, bps, budget).1 == StopReason::BreakpointHit ==> any_breakpoint_matches(
            bps,
            run(s, program, bps, budget).0,
        ),
    decreases budget,
{
    if budget > 0 && s.pc < program.len() {
        if let Ok(s2) = step(s, program[s.pc as int]) {
            lemma_breakpoint_stop_matches(s2, program, bps, (budget - 1) as nat);
        }
    }
}

/// A batch stops at the first state after an instruction that a breakpoint matches: every step
/// it runs without stopping leaves a state that no breakpoint matches, and the step that
/// reaches a matching state is the last one.
pub proof fn lemma_breakpoint_stops_at_first_match(
    s: MachineState,
    program: Seq<Instruction>,
    bps: Seq<Breakpoint>,
    budget: nat,
)
    requires
        budget > 0,
        s.pc < program.len(),
        step(s, program[s.pc as int]) is Ok,
    ensures
        any_breakpoint_matches(bps, step(s, program[s.pc as int])->Ok_0) ==> run(
            s,
            program,
            bps,
            budget,
        ) == (step(s, program[s.pc as int])->Ok_0, StopReason::BreakpointHit),
        !any_breakpoint_matches(bps, step(s, program[s.pc as int])->Ok_0) ==> run(
            s,
            program,
            bps,
            budget,
        ) == run(step(s, program[s.pc as int])->Ok_0, program, bps, (budget - 1) as nat),
{
}

/// Without breakpoints a batch never stops at one.
pub proof fn lemma_no_breakpoints_no_stop(s: MachineState, program: Seq<Instruction>, budget: nat)
    ensures
        run(s, program, Seq::empty(), budget).1 != StopReason::BreakpointHit,
{
    lemma_breakpoint_stop_matches(s, program, Seq::empty(), budget);
}

/// A batch that runs past the program leaves the program counter on its last slot.
pub proof fn lemma_end_of_program_clamps(
    s: MachineState,
    program: Seq<Instruction>,
    bps: Seq<Breakpoint>,
    budget: nat,
)
    requires
        0 < program.len() <= u16::MAX,
    ensures
        run(s, program, bps, budget).1 == StopReason::EndOfProgram ==> run(
            s,
            program,
            bps,
            budget,
        ).0.pc == program.len() - 1,
    decreases budget,
{
    if budget > 0 && s.pc < program.len() {
        if let Ok(s2) = step(s, program[s.pc as int]) {
            lemma_end_of_program_clamps(s2, program, bps, (budget - 1) as nat);
        }
    }
}

/// A batch depends on its breakpoints as a set: their order and repetition make no difference.
pub proof fn lemma_breakpoint_order_irrelevant(
    s: MachineState,
    program: Seq<Instruction>,
    b1: Seq<Breakpoint>,
    b2: Seq<Breakpoint>,
    budget: nat,
)
    requires
        b1.to_set() == b2.to_set(),
    ensures
        run(s, program, b1, budget) == run(s, program, b2, budget),
    decreases budget,
{
    assert forall|t: MachineState| any_breakpoint_matches(b1, t) == any_breakpoint_matches(b2, t) by {
        if any_breakpoint_matches(b1, t) {
            let i = choose|i: int| 0 <= i < b1.len() && breakpoint_matches(#[trigger] b1[i], t);
            assert(b1.to_set().contains(b1[i]));
            assert(b2.contains(b1[i]));
        }
        if any_breakpoint_matches(b2, t) {
            let i = choose|i: int| 0 <= i < b2.len() && breakpoint_matches(#[trigger] b2[i], t);
            assert(b2.to_set().contains(b2[i]));
            assert(b1.contains(b2[i]));
        }
    }
    if budget > 0 && s.pc < program.len() {
        if let Ok(s2) = step(s, program[s.pc as int]) {
            lemma_breakpoint_order_irrelevant(s2, program, b1, b2, (budget - 1) as nat);
        }
    }
}

} // verus!
