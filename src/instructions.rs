use crate::text::str_eq;
use crate::text::{decimal_text, i16_literal, parse_i16, signed_decimal};
use vstd::prelude::*;
use vstd::string::StringExecFns;

verus! {

/// Which of the A register, the memory word `RAM[A]` and the D register receive the value
/// computed by a [C] instruction.
#[derive(Debug, Clone, Copy, PartialEq, Eq, Structural)]
pub enum Destination {
    Null,
    A,
    M,
    D,
    MD,
    AM,
    AD,
    AMD,
}

/// The mnemonic of a destination; the empty destination is written as nothing.
pub open spec fn destination_text(x: Destination) -> Seq<char> {
    match x {
        Destination::Null => Seq::<char>::empty(),
        Destination::A => "A"@,
        Destination::M => "M"@,
        Destination::D => "D"@,
        Destination::MD => "MD"@,
        Destination::AM => "AM"@,
        Destination::AD => "AD"@,
        Destination::AMD => "AMD"@,
    }
}

/// The destination that a mnemonic names.
pub open spec fn destination_of(s: Seq<char>) -> Option<Destination> {
    if s == Seq::<char>::empty() {
        Some(Destination::Null)
    } else if s == "A"@ {
        Some(Destination::A)
    } else if s == "M"@ {
        Some(Destination::M)
    } else if s == "D"@ {
        Some(Destination::D)
    } else if s == "MD"@ {
        Some(Destination::MD)
    } else if s == "AM"@ {
        Some(Destination::AM)
    } else if s == "AD"@ {
        Some(Destination::AD)
    } else if s == "AMD"@ {
        Some(Destination::AMD)
    } else {
        None
    }
}

impl Destination {
    /// The destination named by a mnemonic, if any.
    pub fn new(s: &str) -> (r: Option<Destination>)
        ensures
            r == destination_of(s@),
    {
        if s.unicode_len() == 0 {
            assert(s@ =~= Seq::<char>::empty());
            return Some(Destination::Null);
        }
        if str_eq(s, "A") {
            return Some(Destination::A);
        }
        if str_eq(s, "M") {
            return Some(Destination::M);
        }
        if str_eq(s, "D") {
            return Some(Destination::D);
        }
        if str_eq(s, "MD") {
            return Some(Destination::MD);
        }
        if str_eq(s, "AM") {
            return Some(Destination::AM);
        }
        if str_eq(s, "AD") {
            return Some(Destination::AD);
        }
        if str_eq(s, "AMD") {
            return Some(Destination::AMD);
        }
        None
    }

    /// The mnemonic that names this value in source text.
    pub fn text(&self) -> (r: String)
        ensures
            r@ == destination_text(*self),
    {
        match self {
            Destination::Null => String::new(),
            Destination::A => "A".to_owned(),
            Destination::M => "M".to_owned(),
            Destination::D => "D".to_owned(),
            Destination::MD => "MD".to_owned(),
            Destination::AM => "AM".to_owned(),
            Destination::AD => "AD".to_owned(),
            Destination::AMD => "AMD".to_owned(),
        }
    }
}
/// The condition under which a [C] instruction transfers control to the address held in A.
/// `Null` never jumps: the program counter moves on by one.
#[derive(Debug, Clone, Copy, PartialEq, Eq, Structural)]
pub enum Jump {
    Null,
    JGT,
    JEQ,
    JGE,
    JLT,
    JNE,
    JLE,
    JMP,
}

/// The mnemonic of a jump condition; the absent jump is written as nothing.
pub open spec fn jump_text(x: Jump) -> Seq<char> {
    match x {
        Jump::Null => Seq::<char>::empty(),
        Jump::JGT => "JGT"@,
        Jump::JEQ => "JEQ"@,
        Jump::JGE => "JGE"@,
        Jump::JLT => "JLT"@,
        Jump::JNE => "JNE"@,
        Jump::JLE => "JLE"@,
        Jump::JMP => "JMP"@,
    }
}

/// The jump condition that a mnemonic names.
pub open spec fn jump_of(s: Seq<char>) -> Option<Jump> {
    if s == Seq::<char>::empty() {
        Some(Jump::Null)
    } else if s == "JGT"@ {
        Some(Jump::JGT)
    } else if s == "JEQ"@ {
        Some(Jump::JEQ)
    } else if s == "JGE"@ {
        Some(Jump::JGE)
    } else if s == "JLT"@ {
        Some(Jump::JLT)
    } else if s == "JNE"@ {
        Some(Jump::JNE)
    } else if s == "JLE"@ {
        Some(Jump::JLE)
    } else if s == "JMP"@ {
        Some(Jump::JMP)
    } else {
        None
    }
}

impl Jump {
    /// The jump condition named by a mnemonic, if any.
    pub fn new(s: &str) -> (r: Option<Jump>)
        ensures
            r == jump_of(s@),
    {
        if s.unicode_len() == 0 {
            assert(s@ =~= Seq::<char>::empty());
            return Some(Jump::Null);
        }
        if str_eq(s, "JGT") {
            return Some(Jump::JGT);
        }
        if str_eq(s, "JEQ") {
            return Some(Jump::JEQ);
        }
        if str_eq(s, "JGE") {
            return Some(Jump::JGE);
        }
        if str_eq(s, "JLT") {
            return Some(Jump::JLT);
        }
        if str_eq(s, "JNE") {
            return Some(Jump::JNE);
        }
        if str_eq(s, "JLE") {
            return Some(Jump::JLE);
        }
        if str_eq(s, "JMP") {
            return Some(Jump::JMP);
        }
        None
    }

    /// The mnemonic that names this value in source text.
    pub fn text(&self) -> (r: String)
        ensures
            r@ == jump_text(*self),
    {
        match self {
            Jump::Null => String::new(),
            Jump::JGT => "JGT".to_owned(),
            Jump::JEQ => "JEQ".to_owned(),
            Jump::JGE => "JGE".to_owned(),
            Jump::JLT => "JLT".to_owned(),
            Jump::JNE => "JNE".to_owned(),
            Jump::JLE => "JLE".to_owned(),
            Jump::JMP => "JMP".to_owned(),
        }
    }
}
/// The computation that a [C] instruction carries out: the classic operand forms over A and D,
/// their mirrors over the memory word M, and one-bit shifts of A, D and M.
#[derive(Debug, Clone, Copy, PartialEq, Eq, Structural)]
pub enum Comp {
    Zero,
    One,
    MinusOne,
    D,
    A,
    NotD,
    NotA,
    MinusD,
    MinusA,
    DPlusOne,
    APlusOne,
    DMinusOne,
    AMinusOne,
    DPlusA,
    DMinusA,
    AMinusD,
    DAndA,
    DOrA,
    M,
    NotM,
    MinusM,
    MPlusOne,
    MMinusOne,
    DPlusM,
    DMinusM,
    MMinusD,
    DAndM,
    DOrM,
    LeftShiftA,
    LeftShiftD,
    LeftShiftM,
    RightShiftA,
    RightShiftD,
    RightShiftM,
}

/// The mnemonic of a computation.
pub open spec fn comp_text(x: Comp) -> Seq<char> {
    match x {
        Comp::Zero => "0"@,
        Comp::One => "1"@,
        Comp::MinusOne => "-1"@,
        Comp::D => "D"@,
        Comp::A => "A"@,
        Comp::NotD => "!D"@,
        Comp::NotA => "!A"@,
        Comp::MinusD => "-D"@,
        Comp::MinusA => "-A"@,
        Comp::DPlusOne => "D+1"@,
        Comp::APlusOne => "A+1"@,
        Comp::DMinusOne => "D-1"@,
        Comp::AMinusOne => "A-1"@,
        Comp::DPlusA => "D+A"@,
        Comp::DMinusA => "D-A"@,
        Comp::AMinusD => "A-D"@,
        Comp::DAndA => "D&A"@,
        Comp::DOrA => "D|A"@,
        Comp::M => "M"@,
        Comp::NotM => "!M"@,
        Comp::MinusM => "-M"@,
        Comp::MPlusOne => "M+1"@,
        Comp::MMinusOne => "M-1"@,
        Comp::DPlusM => "D+M"@,
        Comp::DMinusM => "D-M"@,
        Comp::MMinusD => "M-D"@,
        Comp::DAndM => "D&M"@,
        Comp::DOrM => "D|M"@,
        Comp::LeftShiftA => "A<<"@,
        Comp::LeftShiftD => "D<<"@,
        Comp::LeftShiftM => "M<<"@,
        Comp::RightShiftA => "A>>"@,
        Comp::RightShiftD => "D>>"@,
        Comp::RightShiftM => "M>>"@,
    }
}

/// The computation that a mnemonic names.
pub open spec fn comp_of(s: Seq<char>) -> Option<Comp> {
    if s == "0"@ {
        Some(Comp::Zero)
    } else if s == "1"@ {
        Some(Comp::One)
    } else if s == "-1"@ {
        Some(Comp::MinusOne)
    } else if s == "D"@ {
        Some(Comp::D)
    } else if s == "A"@ {
        Some(Comp::A)
    } else if s == "!D"@ {
        Some(Comp::NotD)
    } else if s == "!A"@ {
        Some(Comp::NotA)
    } else if s == "-D"@ {
        Some(Comp::MinusD)
    } else if s == "-A"@ {
        Some(Comp::MinusA)
    } else if s == "D+1"@ {
        Some(Comp::DPlusOne)
    } else if s == "A+1"@ {
        Some(Comp::APlusOne)
    } else if s == "D-1"@ {
        Some(Comp::DMinusOne)
    } else if s == "A-1"@ {
        Some(Comp::AMinusOne)
    } else if s == "D+A"@ {
        Some(Comp::DPlusA)
    } else if s == "D-A"@ {
        Some(Comp::DMinusA)
    } else if s == "A-D"@ {
        Some(Comp::AMinusD)
    } else if s == "D&A"@ {
        Some(Comp::DAndA)
    } else if s == "D|A"@ {
        Some(Comp::DOrA)
    } else if s == "M"@ {
        Some(Comp::M)
    } else if s == "!M"@ {
        Some(Comp::NotM)
    } else if s == "-M"@ {
        Some(Comp::MinusM)
    } else if s == "M+1"@ {
        Some(Comp::MPlusOne)
    } else if s == "M-1"@ {
        Some(Comp::MMinusOne)
    } else if s == "D+M"@ {
        Some(Comp::DPlusM)
    } else if s == "D-M"@ {
        Some(Comp::DMinusM)
    } else if s == "M-D"@ {
        Some(Comp::MMinusD)
    } else if s == "D&M"@ {
        Some(Comp::DAndM)
    } else if s == "D|M"@ {
        Some(Comp::DOrM)
    } else if s == "A<<"@ {
        Some(Comp::LeftShiftA)
    } else if s == "D<<"@ {
        Some(Comp::LeftShiftD)
    } else if s == "M<<"@ {
        Some(Comp::LeftShiftM)
    } else if s == "A>>"@ {
        Some(Comp::RightShiftA)
    } else if s == "D>>"@ {
        Some(Comp::RightShiftD)
    } else if s == "M>>"@ {
        Some(Comp::RightShiftM)
    } else {
        None
    }
}

impl Comp {
    /// The computation named by a mnemonic, if any.
    pub fn new(s: &str) -> (r: Option<Comp>)
        ensures
            r == comp_of(s@),
    {
        if str_eq(s, "0") {
            return Some(Comp::Zero);
        }
        if str_eq(s, "1") {
            return Some(Comp::One);
        }
        if str_eq(s, "-1") {
            return Some(Comp::MinusOne);
        }
        if str_eq(s, "D") {
            return Some(Comp::D);
        }
        if str_eq(s, "A") {
            return Some(Comp::A);
        }
        if str_eq(s, "!D") {
            return Some(Comp::NotD);
        }
        if str_eq(s, "!A") {
            return Some(Comp::NotA);
        }
        if str_eq(s, "-D") {
            return Some(Comp::MinusD);
        }
        if str_eq(s, "-A") {
            return Some(Comp::MinusA);
        }
        if str_eq(s, "D+1") {
            return Some(Comp::DPlusOne);
        }
        if str_eq(s, "A+1") {
            return Some(Comp::APlusOne);
        }
        if str_eq(s, "D-1") {
            return Some(Comp::DMinusOne);
        }
        if str_eq(s, "A-1") {
            return Some(Comp::AMinusOne);
        }
        if str_eq(s, "D+A") {
            return Some(Comp::DPlusA);
        }
        if str_eq(s, "D-A") {
            return Some(Comp::DMinusA);
        }
        if str_eq(s, "A-D") {
            return Some(Comp::AMinusD);
        }
        if str_eq(s, "D&A") {
            return Some(Comp::DAndA);
        }
        if str_eq(s, "D|A") {
            return Some(Comp::DOrA);
        }
        if str_eq(s, "M") {
            return Some(Comp::M);
        }
        if str_eq(s, "!M") {
            return Some(Comp::NotM);
        }
        if str_eq(s, "-M") {
            return Some(Comp::MinusM);
        }
        if str_eq(s, "M+1") {
            return Some(Comp::MPlusOne);
        }
        if str_eq(s, "M-1") {
            return Some(Comp::MMinusOne);
        }
        if str_eq(s, "D+M") {
            return Some(Comp::DPlusM);
        }
        if str_eq(s, "D-M") {
            return Some(Comp::DMinusM);
        }
        if str_eq(s, "M-D") {
            return Some(Comp::MMinusD);
        }
        if str_eq(s, "D&M") {
            return Some(Comp::DAndM);
        }
        if str_eq(s, "D|M") {
            return Some(Comp::DOrM);
        }
        if str_eq(s, "A<<") {
            return Some(Comp::LeftShiftA);
        }
        if str_eq(s, "D<<") {
            return Some(Comp::LeftShiftD);
        }
        if str_eq(s, "M<<") {
            return Some(Comp::LeftShiftM);
        }
        if str_eq(s, "A>>") {
            return Some(Comp::RightShiftA);
        }
        if str_eq(s, "D>>") {
            return Some(Comp::RightShiftD);
        }
        if str_eq(s, "M>>") {
            return Some(Comp::RightShiftM);
        }
        None
    }

    /// The mnemonic that names this value in source text.
    pub fn text(&self) -> (r: String)
        ensures
            r@ == comp_text(*self),
    {
        match self {
            Comp::Zero => "0".to_owned(),
            Comp::One => "1".to_owned(),
            Comp::MinusOne => "-1".to_owned(),
            Comp::D => "D".to_owned(),
            Comp::A => "A".to_owned(),
            Comp::NotD => "!D".to_owned(),
            Comp::NotA => "!A".to_owned(),
            Comp::MinusD => "-D".to_owned(),
            Comp::MinusA => "-A".to_owned(),
            Comp::DPlusOne => "D+1".to_owned(),
            Comp::APlusOne => "A+1".to_owned(),
            Comp::DMinusOne => "D-1".to_owned(),
            Comp::AMinusOne => "A-1".to_owned(),
            Comp::DPlusA => "D+A".to_owned(),
            Comp::DMinusA => "D-A".to_owned(),
            Comp::AMinusD => "A-D".to_owned(),
            Comp::DAndA => "D&A".to_owned(),
            Comp::DOrA => "D|A".to_owned(),
            Comp::M => "M".to_owned(),
            Comp::NotM => "!M".to_owned(),
            Comp::MinusM => "-M".to_owned(),
            Comp::MPlusOne => "M+1".to_owned(),
            Comp::MMinusOne => "M-1".to_owned(),
            Comp::DPlusM => "D+M".to_owned(),
            Comp::DMinusM => "D-M".to_owned(),
            Comp::MMinusD => "M-D".to_owned(),
            Comp::DAndM => "D&M".to_owned(),
            Comp::DOrM => "D|M".to_owned(),
            Comp::LeftShiftA => "A<<".to_owned(),
            Comp::LeftShiftD => "D<<".to_owned(),
            Comp::LeftShiftM => "M<<".to_owned(),
            Comp::RightShiftA => "A>>".to_owned(),
            Comp::RightShiftD => "D>>".to_owned(),
            Comp::RightShiftM => "M>>".to_owned(),
        }
    }
}
/// Loads a constant or an address into the A register.
#[derive(Debug, Clone, Copy, PartialEq, Eq, Structural)]
pub struct A {
    pub dest: i16,
}

impl A {
    /// An address instruction from the decimal text of its operand. The operand must be a
    /// number that fits in 16 signed bits: a symbolic operand has to be resolved first.
    pub fn new(dest: &str) -> (r: A)
        requires
            i16_literal(dest@) is Some,
        ensures
            r.dest == i16_literal(dest@)->0,
    {
        let v = parse_i16(dest);
        A { dest: v.unwrap() }
    }

    /// The source text of this instruction: `@` and the decimal operand.
    pub fn text(&self) -> (r: String)
        ensures
            r@ == seq!['@'] + signed_decimal(self.dest as int),
    {
        let mut r = "@".to_owned();
        proof {
            reveal_strlit("@");
        }
        let v = decimal_text(self.dest);
        r.append(v.as_str());
        r
    }
}

/// Computes a value, stores it in its destinations, then may jump.
#[derive(Debug, Clone, Copy, PartialEq, Eq, Structural)]
pub struct C {
    pub dest: Destination,
    pub comp: Comp,
    pub jump: Jump,
}

/// The canonical source text of a compute instruction: `dest=comp;jump`, where the `dest=`
/// part is left out when nothing is stored and the `;jump` part when nothing jumps.
pub open spec fn c_text(c: C) -> Seq<char> {
    let head = if c.dest is Null {
        Seq::<char>::empty()
    } else {
        destination_text(c.dest) + seq!['=']
    };
    let tail = if c.jump is Null {
        Seq::<char>::empty()
    } else {
        seq![';'] + jump_text(c.jump)
    };
    head + comp_text(c.comp) + tail
}

impl C {
    /// A compute instruction from the mnemonics of its three parts, each of which must be valid
    /// (the empty text stands for no destination and for no jump).
    pub fn new(dest: &str, comp: &str, jump: &str) -> (r: C)
        requires
            destination_of(dest@) is Some,
            comp_of(comp@) is Some,
            jump_of(jump@) is Some,
        ensures
            r.dest == destination_of(dest@)->0,
            r.comp == comp_of(comp@)->0,
            r.jump == jump_of(jump@)->0,
    {
        let d = Destination::new(dest);
        let c = Comp::new(comp);
        let j = Jump::new(jump);
        C { dest: d.unwrap(), comp: c.unwrap(), jump: j.unwrap() }
    }

    /// The canonical source text of this instruction.
    pub fn text(&self) -> (r: String)
        ensures
            r@ == c_text(*self),
    {
        let mut r = String::new();
        if self.dest != Destination::Null {
            let d = self.dest.text();
            r.append(d.as_str());
            r.append("=");
            proof {
                reveal_strlit("=");
            }
        }
        let c = self.comp.text();
        r.append(c.as_str());
        if self.jump != Jump::Null {
            r.append(";");
            proof {
                reveal_strlit(";");
            }
            let j = self.jump.text();
            r.append(j.as_str());
        }
        proof {
            assert(r@ =~= c_text(*self));
        }
        r
    }
}

/// One line of a program, decoded. Labels are consumed by the assembler and never reach the
/// final instruction array; `None` fills the slots past the end of a program and blank lines.
#[derive(Debug, Clone, PartialEq, Eq)]
pub enum Instruction {
    A(A),
    Label(String),
    C(C),
    Empty,
}

/// The source text of an instruction; an empty slot has none.
pub open spec fn instruction_text(i: Instruction) -> Seq<char> {
    match i {
        Instruction::A(a) => seq!['@'] + signed_decimal(a.dest as int),
        Instruction::Label(l) => seq!['('] + l@ + seq![')'],
        Instruction::C(c) => c_text(c),
        Instruction::Empty => Seq::empty(),
    }
}

impl Instruction {
    /// The source text of this instruction.
    pub fn text(&self) -> (r: String)
        ensures
            r@ == instruction_text(*self),
    {
        match self {
            Instruction::A(a) => a.text(),
            Instruction::C(c) => c.text(),
            Instruction::Label(l) => {
                let mut r = "(".to_owned();
                r.append(l.as_str());
                r.append(")");
                proof {
                    reveal_strlit("(");
                    reveal_strlit(")");
                }
                assert(r@ =~= instruction_text(*self));
                r
            },
            Instruction::Empty => String::new(),
        }
    }
}

} // verus!
