use cpuemulator::debug::Breakpoint;
use cpuemulator::hack_cpu::{CPUState, RuntimeFault, StopReason};
use cpuemulator::instructions::{Comp, Destination, Instruction, Jump, A, C};
use cpuemulator::parser::{parse, LineParsingError, MAX_INSTRUCTIONS};
use cpuemulator::screen::{hack_to_rgba, KBD_LOCATION, SCREEN_LENGTH};
use cpuemulator::symbol_table::SymbolTable;
use cpuemulator::text::parse_u16;

fn lines(src: &[&str]) -> Vec<String> {
    src.iter().map(|s| s.to_string()).collect()
}

fn load(src: &[&str]) -> (CPUState, Vec<Instruction>) {
    let mut cpu = CPUState::new();
    let program = parse(lines(src), &mut cpu.address_table).expect("program should assemble");
    (cpu, program)
}

fn step(cpu: &mut CPUState, program: &[Instruction]) {
    let pc = cpu.pc as usize;
    cpu.interpret(&program[pc]).expect("instruction should not fault");
}

fn compute(dest: Destination, comp: Comp, jump: Jump) -> Instruction {
    Instruction::C(C { dest, comp, jump })
}

#[test]
fn truth_itself() {
    assert_eq!("Veer Gala woz 'ere", "Veer Gala woz 'ere");
}

#[test]
fn add_and_store_program() {
    let (mut cpu, program) = load(&["@2", "D=A", "@3", "D=D+A", "@0", "M=D"]);
    for _ in 0..3 {
        step(&mut cpu, &program);
    }
    assert_eq!(cpu.pc, 3);
    assert_eq!(cpu.a, 3);
    assert_eq!(cpu.d, 2);
    assert_eq!(cpu.ram[0], 0);
    for _ in 0..3 {
        step(&mut cpu, &program);
    }
    assert_eq!(cpu.ram[0], 5);
    assert_eq!(cpu.pc, 6);
}

#[test]
fn forward_label_skips_instruction() {
    let (mut cpu, program) = load(&["@END", "0;JMP", "D=1", "(END)", "D=-1"]);
    assert_eq!(cpu.address_table.lookup("END"), Some(3));
    assert_eq!(program[0], Instruction::A(A { dest: 3 }));
    assert_eq!(program[3], compute(Destination::D, Comp::MinusOne, Jump::Null));
    assert_eq!(program[4], Instruction::Empty);
    let mut seen_one = false;
    for _ in 0..3 {
        step(&mut cpu, &program);
        if cpu.d == 1 {
            seen_one = true;
        }
    }
    assert!(!seen_one);
    assert_eq!(cpu.d, -1);
    assert_eq!(cpu.pc, 4);
}

#[test]
fn constant_two_is_not_a_computation() {
    let mut table = SymbolTable::new();
    let r = parse(lines(&["@END", "0;JMP", "D=1", "(END)", "D=2"]), &mut table);
    match r {
        Err(LineParsingError::InvalidLine(n, text)) => {
            assert_eq!(n, 4);
            assert_eq!(text, "D=2");
        }
        Ok(_) => panic!("D=2 should be rejected"),
    }
    assert_eq!(table.lookup("END"), Some(3));
}

#[test]
fn label_on_first_line_is_slot_zero() {
    let (mut cpu, program) = load(&["(START)", "@START", "0;JMP"]);
    assert_eq!(cpu.address_table.lookup("START"), Some(0));
    assert_eq!(program[0], Instruction::A(A { dest: 0 }));
    step(&mut cpu, &program);
    step(&mut cpu, &program);
    assert_eq!(cpu.pc, 0);
}

#[test]
fn labels_take_no_slot() {
    let (cpu, program) = load(&["@1", "(A1)", "(A2)", "D=A", "(A3)", "@A1", "@A2", "@A3"]);
    assert_eq!(cpu.address_table.lookup("A1"), Some(1));
    assert_eq!(cpu.address_table.lookup("A2"), Some(1));
    assert_eq!(cpu.address_table.lookup("A3"), Some(2));
    assert_eq!(program[1], compute(Destination::D, Comp::A, Jump::Null));
    assert_eq!(program[2], Instruction::A(A { dest: 1 }));
    assert_eq!(program[4], Instruction::A(A { dest: 2 }));
    assert_eq!(program[5], Instruction::Empty);
}

#[test]
fn variables_are_allocated_from_sixteen() {
    let (cpu, program) = load(&["@foo", "@bar", "@foo", "@16", "@baz", "@R2", "@SCREEN"]);
    assert_eq!(program[0], Instruction::A(A { dest: 16 }));
    assert_eq!(program[1], Instruction::A(A { dest: 17 }));
    assert_eq!(program[2], Instruction::A(A { dest: 16 }));
    assert_eq!(program[3], Instruction::A(A { dest: 16 }));
    assert_eq!(program[4], Instruction::A(A { dest: 18 }));
    assert_eq!(program[5], Instruction::A(A { dest: 2 }));
    assert_eq!(program[6], Instruction::A(A { dest: 16384 }));
    assert_eq!(cpu.address_table.current_variable, 19);
    assert_eq!(cpu.address_table.lookup("16"), Some(16));
}

#[test]
fn numeric_operand_does_not_move_cursor() {
    let (cpu, program) = load(&["@100", "@x", "@+7", "@y"]);
    assert_eq!(program[0], Instruction::A(A { dest: 100 }));
    assert_eq!(program[1], Instruction::A(A { dest: 16 }));
    assert_eq!(program[2], Instruction::A(A { dest: 7 }));
    assert_eq!(program[3], Instruction::A(A { dest: 17 }));
    assert_eq!(cpu.address_table.current_variable, 18);
}

#[test]
fn address_beyond_fifteen_bits_is_rejected() {
    let mut table = SymbolTable::new();
    match parse(lines(&["@40000"]), &mut table) {
        Err(LineParsingError::InvalidLine(n, text)) => {
            assert_eq!(n, 0);
            assert_eq!(text, "@40000");
        }
        Ok(_) => panic!("@40000 should be rejected"),
    }
    let mut table = SymbolTable::new();
    let ok = parse(lines(&["@32767"]), &mut table).unwrap();
    assert_eq!(ok[0], Instruction::A(A { dest: 32767 }));
}

#[test]
fn destination_with_jump_is_rejected() {
    let mut table = SymbolTable::new();
    match parse(lines(&["// counts down", "", "@1", "D=D+1;JGT"]), &mut table) {
        Err(LineParsingError::InvalidLine(n, text)) => {
            assert_eq!(n, 1);
            assert_eq!(text, "D=D+1;JGT");
        }
        Ok(_) => panic!("dest=comp;jump should be rejected"),
    }
}

#[test]
fn bad_mnemonic_is_rejected() {
    let mut table = SymbolTable::new();
    match parse(lines(&["D=X"]), &mut table) {
        Err(LineParsingError::InvalidLine(n, text)) => {
            assert_eq!(n, 0);
            assert_eq!(text, "D=X");
        }
        Ok(_) => panic!("D=X should be rejected"),
    }
    let mut table = SymbolTable::new();
    assert!(parse(lines(&["0;JMPX"]), &mut table).is_err());
    let mut table = SymbolTable::new();
    assert!(parse(lines(&["D"]), &mut table).is_err());
}

#[test]
fn comments_and_spaces_are_stripped() {
    let (_, program) = load(&["// header", "D = D + A  // add", "  0 ; JMP", "", "M=D//x"]);
    assert_eq!(program[0], compute(Destination::D, Comp::DPlusA, Jump::Null));
    assert_eq!(program[1], compute(Destination::Null, Comp::Zero, Jump::JMP));
    assert_eq!(program[2], compute(Destination::M, Comp::D, Jump::Null));
    assert_eq!(program.len(), MAX_INSTRUCTIONS);
}

#[test]
fn blank_cleaned_line_leaves_an_empty_slot() {
    let (_, program) = load(&["@1", "   // only a comment after spaces", "D=A"]);
    assert_eq!(program[0], Instruction::A(A { dest: 1 }));
    assert_eq!(program[1], Instruction::Empty);
    assert_eq!(program[2], compute(Destination::D, Comp::A, Jump::Null));
}

#[test]
fn canonical_text_round_trip() {
    let (_, program) = load(&["AMD = M - 1", "D ; JLE", "A,D|M", "@-3"]);
    let texts: Vec<String> = program[..4].iter().map(|i| i.text()).collect();
    assert_eq!(texts, vec!["AMD=M-1", "D;JLE", "A=D|M", "@16"]);
    let (_, again) = load(&["AMD=M-1", "D;JLE", "A=D|M"]);
    assert_eq!(again[..3], program[..3]);
}

#[test]
fn mnemonic_tables() {
    assert_eq!(Destination::new("AMD"), Some(Destination::AMD));
    assert_eq!(Destination::new(""), Some(Destination::Null));
    assert_eq!(Destination::new("DA"), None);
    assert_eq!(Jump::new("JNE"), Some(Jump::JNE));
    assert_eq!(Jump::new("jmp"), None);
    assert_eq!(Comp::new("M>>"), Some(Comp::RightShiftM));
    assert_eq!(Comp::new("2"), None);
    assert_eq!(Comp::DMinusA.text(), "D-A");
    assert_eq!(Jump::Null.text(), "");
    let c = C::new("MD", "!A", "");
    assert_eq!(c, C { dest: Destination::MD, comp: Comp::NotA, jump: Jump::Null });
    assert_eq!(c.text(), "MD=!A");
    assert_eq!(C::new("", "D-1", "JGE").text(), "D-1;JGE");
    assert_eq!(A::new("-123").dest, -123);
    assert_eq!(A::new("+77").dest, 77);
    assert_eq!(A { dest: -32768 }.text(), "@-32768");
    assert_eq!(Instruction::Label("LOOP".to_string()).text(), "(LOOP)");
    assert_eq!(Instruction::Empty.text(), "");
}

#[test]
fn unsigned_literal_rules() {
    assert_eq!(parse_u16("65535"), Some(65535));
    assert_eq!(parse_u16("65536"), None);
    assert_eq!(parse_u16("+016"), Some(16));
    assert_eq!(parse_u16("-0"), None);
    assert_eq!(parse_u16(""), None);
    assert_eq!(parse_u16("+"), None);
    assert_eq!(parse_u16("1a"), None);
}

fn run_one(a: i16, d: i16, m: i16, c: Instruction) -> CPUState {
    let mut cpu = CPUState::new();
    cpu.a = a;
    cpu.d = d;
    if a >= 0 {
        cpu.ram[a as usize] = m;
    }
    cpu.interpret(&c).unwrap();
    cpu
}

#[test]
fn addition_wraps() {
    let cpu = run_one(1, 32767, 0, compute(Destination::D, Comp::DPlusA, Jump::Null));
    assert_eq!(cpu.d, -32768);
    assert_eq!(cpu.pc, 1);
}

#[test]
fn not_of_zero_is_minus_one() {
    let cpu = run_one(0, 0, 0, compute(Destination::D, Comp::NotD, Jump::Null));
    assert_eq!(cpu.d, -1);
}

#[test]
fn shifts_by_one_bit() {
    let cpu = run_one(0, -1, 0, compute(Destination::D, Comp::LeftShiftD, Jump::Null));
    assert_eq!(cpu.d, -2);
    let cpu = run_one(0, -2, 0, compute(Destination::D, Comp::RightShiftD, Jump::Null));
    assert_eq!(cpu.d, -1);
    let cpu = run_one(0, -32768, 0, compute(Destination::D, Comp::RightShiftD, Jump::Null));
    assert_eq!(cpu.d, -16384);
    assert_eq!(cpu.d as u16, 0xC000);
    let cpu = run_one(3, 0, 0x4001, compute(Destination::M, Comp::LeftShiftM, Jump::Null));
    assert_eq!(cpu.ram[3], -32766);
    let cpu = run_one(12, 0, 0, compute(Destination::A, Comp::RightShiftA, Jump::Null));
    assert_eq!(cpu.a, 6);
}

#[test]
fn minus_one_forms() {
    let cpu = run_one(0, 5, 0, compute(Destination::D, Comp::DMinusOne, Jump::Null));
    assert_eq!(cpu.d, 6);
    let cpu = run_one(9, 0, 0, compute(Destination::A, Comp::AMinusOne, Jump::Null));
    assert_eq!(cpu.a, 10);
    let cpu = run_one(4, 0, 5, compute(Destination::M, Comp::MMinusOne, Jump::Null));
    assert_eq!(cpu.ram[4], 4);
}

#[test]
fn alu_values() {
    let cases = [
        (Comp::Zero, 0),
        (Comp::One, 1),
        (Comp::MinusOne, -1),
        (Comp::D, 12),
        (Comp::A, 10),
        (Comp::NotA, -11),
        (Comp::MinusD, -12),
        (Comp::MinusA, -10),
        (Comp::DPlusOne, 13),
        (Comp::APlusOne, 11),
        (Comp::DMinusA, 2),
        (Comp::AMinusD, -2),
        (Comp::DAndA, 8),
        (Comp::DOrA, 14),
        (Comp::M, 7),
        (Comp::NotM, -8),
        (Comp::MinusM, -7),
        (Comp::MPlusOne, 8),
        (Comp::DPlusM, 19),
        (Comp::DMinusM, 5),
        (Comp::MMinusD, -5),
        (Comp::DAndM, 4),
        (Comp::DOrM, 15),
        (Comp::LeftShiftA, 20),
        (Comp::LeftShiftD, 24),
        (Comp::RightShiftM, 3),
    ];
    for (comp, expected) in cases {
        let cpu = run_one(10, 12, 7, compute(Destination::D, comp, Jump::Null));
        assert_eq!(cpu.d, expected, "{:?}", comp);
    }
}

#[test]
fn multiple_destinations_and_jump_to_new_a() {
    let cpu = run_one(5, 0, 0, compute(Destination::AMD, Comp::APlusOne, Jump::JGT));
    assert_eq!(cpu.ram[5], 6);
    assert_eq!(cpu.a, 6);
    assert_eq!(cpu.d, 6);
    assert_eq!(cpu.pc, 6);
}

#[test]
fn jump_conditions() {
    let table = [
        (Jump::JGT, [false, false, true]),
        (Jump::JEQ, [false, true, false]),
        (Jump::JGE, [false, true, true]),
        (Jump::JLT, [true, false, false]),
        (Jump::JNE, [true, false, true]),
        (Jump::JLE, [true, true, false]),
        (Jump::JMP, [true, true, true]),
        (Jump::Null, [false, false, false]),
    ];
    for (jump, expect) in table {
        for (k, d) in [-3i16, 0, 3].iter().enumerate() {
            let cpu = run_one(40, *d, 0, compute(Destination::Null, Comp::D, jump));
            let pc = if expect[k] { 40 } else { 1 };
            assert_eq!(cpu.pc, pc, "{:?} at {}", jump, d);
        }
    }
    let cpu = run_one(-1, 0, 0, compute(Destination::Null, Comp::Zero, Jump::JMP));
    assert_eq!(cpu.pc, 65535);
}

#[test]
fn memory_access_out_of_range_faults() {
    let mut cpu = CPUState::new();
    cpu.a = -1;
    cpu.d = 9;
    let r = cpu.interpret(&compute(Destination::M, Comp::D, Jump::Null));
    assert_eq!(r, Err(RuntimeFault::AddressOutOfRange(-1)));
    assert_eq!(cpu.pc, 0);
    assert_eq!(cpu.d, 9);
    cpu.a = 24577;
    let r = cpu.interpret(&compute(Destination::D, Comp::M, Jump::Null));
    assert_eq!(r, Err(RuntimeFault::AddressOutOfRange(24577)));
    let r = cpu.interpret(&compute(Destination::D, Comp::A, Jump::Null));
    assert_eq!(r, Ok(()));
    assert_eq!(cpu.d, 24577);
}

#[test]
fn breakpoint_on_pc_stops_batch() {
    let src = ["D=D+1"; 10];
    let (mut cpu, program) = load(&src);
    cpu.add_breakpoint(Breakpoint::PC(5));
    cpu.add_breakpoint(Breakpoint::PC(5));
    assert_eq!(cpu.breakpoints.len(), 1);
    let r = cpu.run_batch(&program, 100);
    assert_eq!(r, StopReason::BreakpointHit);
    assert_eq!(cpu.pc, 5);
    assert_eq!(cpu.d, 5);
    assert!(cpu.breakpoint_hit());

    cpu.remove_breakpoint(Breakpoint::PC(5));
    assert!(cpu.breakpoints.is_empty());
    cpu.pc = 0;
    cpu.d = 0;
    let r = cpu.run_batch(&program, 100);
    assert_eq!(r, StopReason::BatchDone);
    assert_eq!(cpu.pc, 100);
    assert_eq!(cpu.d, 10);
}

#[test]
fn breakpoint_on_registers_and_memory() {
    let (mut cpu, program) = load(&["@7", "D=A", "@3", "M=D", "D=0"]);
    cpu.add_breakpoint(Breakpoint::RAM(3, 7));
    cpu.add_breakpoint(Breakpoint::D(99));
    assert_eq!(cpu.run_batch(&program, 50), StopReason::BreakpointHit);
    assert_eq!(cpu.pc, 4);
    assert_eq!(cpu.ram[3], 7);

    let (mut cpu, program) = load(&["@7", "D=A", "@3"]);
    cpu.add_breakpoint(Breakpoint::A(3));
    assert_eq!(cpu.run_batch(&program, 50), StopReason::BreakpointHit);
    assert_eq!(cpu.pc, 3);

    let (mut cpu, program) = load(&["@7", "D=A"]);
    cpu.add_breakpoint(Breakpoint::RAM(60000, 0));
    assert_eq!(cpu.run_batch(&program, 5), StopReason::BatchDone);
}

#[test]
fn run_past_end_clamps_pc() {
    let (mut cpu, program) = load(&["@1"]);
    cpu.pc = (MAX_INSTRUCTIONS - 2) as u16;
    let r = cpu.run_batch(&program, 10);
    assert_eq!(r, StopReason::EndOfProgram);
    assert_eq!(cpu.pc, (MAX_INSTRUCTIONS - 1) as u16);
}

#[test]
fn run_stops_on_fault() {
    let (mut cpu, program) = load(&["@5", "A=-1", "M=1"]);
    let r = cpu.run_batch(&program, 10);
    assert_eq!(r, StopReason::Fault(RuntimeFault::AddressOutOfRange(-1)));
    assert_eq!(cpu.pc, 2);
}

#[test]
fn fresh_symbol_table() {
    let t = SymbolTable::new();
    assert_eq!(t.current_variable, 16);
    assert_eq!(t.lookup("R0"), Some(0));
    assert_eq!(t.lookup("R15"), Some(15));
    assert_eq!(t.lookup("SP"), Some(0));
    assert_eq!(t.lookup("LCL"), Some(1));
    assert_eq!(t.lookup("ARG"), Some(2));
    assert_eq!(t.lookup("THIS"), Some(3));
    assert_eq!(t.lookup("THAT"), Some(4));
    assert_eq!(t.lookup("SCREEN"), Some(16384));
    assert_eq!(t.lookup("KBD"), Some(24576));
    assert_eq!(t.lookup("R16"), None);
}

#[test]
fn symbol_table_insert_if_absent() {
    let mut t = SymbolTable::new();
    t.insert_if_absent("x");
    t.insert_if_absent("x");
    t.insert_if_absent("123");
    t.insert_if_absent("R1");
    t.insert_if_absent("y");
    assert_eq!(t.lookup("x"), Some(16));
    assert_eq!(t.lookup("123"), Some(123));
    assert_eq!(t.lookup("R1"), Some(1));
    assert_eq!(t.lookup("y"), Some(17));
    assert_eq!(t.current_variable, 18);
    t.insert("x".to_string(), 5);
    assert_eq!(t.lookup("x"), Some(5));
    assert!(t.contains("y"));
    assert!(!t.contains("z"));
}

#[test]
fn resets() {
    let (mut cpu, program) = load(&["@5", "M=1", "@foo"]);
    step(&mut cpu, &program);
    step(&mut cpu, &program);
    assert_eq!(cpu.ram[5], 1);
    cpu.reset_ram();
    assert_eq!(cpu.ram[5], 0);
    assert_eq!(cpu.a, 5);
    assert_eq!(cpu.pc, 2);
    assert_eq!(cpu.address_table.lookup("foo"), Some(16));
    cpu.reset_address_table();
    assert_eq!(cpu.address_table.lookup("foo"), None);
    assert_eq!(cpu.address_table.current_variable, 16);
    cpu.press_key(65);
    assert_eq!(cpu.ram[KBD_LOCATION], 65);
}

#[test]
fn screen_words_become_pixels() {
    let mut screen = vec![0i16; SCREEN_LENGTH];
    screen[0] = 1;
    screen[1] = -1;
    screen[32] = 0b100;
    let img = hack_to_rgba(&screen);
    assert_eq!(img.len(), 512 * 256 * 3);
    assert_eq!(&img[0..3], &[0, 0, 0]);
    assert_eq!(&img[3..6], &[255, 255, 255]);
    for p in 16..32 {
        assert_eq!(img[p * 3], 0);
    }
    assert_eq!(img[32 * 3], 255);
    let p = 512 + 2;
    assert_eq!(&img[p * 3..p * 3 + 3], &[0, 0, 0]);
    assert_eq!(img[(512 + 1) * 3], 255);
}


#[test]
fn single_step_ignores_breakpoints_and_clamps() {
    let (mut cpu, program) = load(&["@3", "D=A"]);
    cpu.add_breakpoint(Breakpoint::A(3));
    assert_eq!(cpu.single_step(&program), StopReason::BatchDone);
    assert_eq!(cpu.a, 3);
    assert_eq!(cpu.pc, 1);
    cpu.pc = MAX_INSTRUCTIONS as u16;
    assert_eq!(cpu.single_step(&program), StopReason::EndOfProgram);
    assert_eq!(cpu.pc, (MAX_INSTRUCTIONS - 1) as u16);
}
