use leg_cpu_emulator::assembler::{Assembler, BinaryParts};
use leg_cpu_emulator::components::{alu, jump_condition, shift};
use leg_cpu_emulator::emulator::{Emulator, WrappingNum};
use leg_cpu_emulator::error::{AsmError, EmulatorError};
use leg_cpu_emulator::instruction::{Opcode, Operand, OperandSymbol};
use leg_cpu_emulator::parse_u8_literal;

fn image(code: &str) -> Vec<u8> {
    Assembler::new(code).unwrap().assemble().binary.merge()
}

fn run(code: &str, input: Vec<u8>) -> (Emulator, Vec<u8>) {
    let mut emulator = Emulator::new(image(code)).unwrap();
    emulator.set_input(input);
    let output = emulator.run_to_halt().unwrap();
    (emulator, output)
}

fn asm_error(code: &str) -> AsmError {
    Assembler::new(code).unwrap_err()
}

#[test]
fn alu_add_carry_marks_overflow() {
    let r = alu(0b000, 200, 100);
    assert_eq!((r.out, r.carry), (44, true));
    let r = alu(0b000, 100, 100);
    assert_eq!((r.out, r.carry), (200, false));
    let r = alu(0b000, 255, 1);
    assert_eq!((r.out, r.carry), (0, true));
}

#[test]
fn alu_sub_carry_means_no_borrow() {
    let r = alu(0b001, 5, 3);
    assert_eq!((r.out, r.carry), (2, true));
    let r = alu(0b001, 3, 5);
    assert_eq!((r.out, r.carry), (254, false));
    let r = alu(0b001, 9, 9);
    assert_eq!((r.out, r.carry), (0, true));
    let r = alu(0b001, 7, 0);
    assert_eq!((r.out, r.carry), (7, true));
    let r = alu(0b001, 0, 0);
    assert_eq!((r.out, r.carry), (0, true));
}

#[test]
fn alu_logic_and_multiplication() {
    assert_eq!(alu(0b010, 0b1100, 0b1010).out, 0b1000);
    assert_eq!(alu(0b011, 0b1100, 0b1010).out, 0b1110);
    assert_eq!(alu(0b100, 0b1100, 0).out, 0b1111_0011);
    assert_eq!(alu(0b101, 0b1100, 0b1010).out, 0b0110);
    assert_eq!(alu(0b110, 7, 3).out, 5);
    assert_eq!(alu(0b111, 200, 100).out, 226);
    assert!(!alu(0b101, 255, 255).carry);
    // only the low three bits select the operation
    assert_eq!(alu(0b1000, 1, 2).out, 3);
}

#[test]
fn jump_conditions() {
    assert!(!jump_condition(0b000, 1, 1));
    assert!(jump_condition(0b001, 4, 4));
    assert!(!jump_condition(0b001, 4, 5));
    assert!(jump_condition(0b010, 4, 5));
    assert!(!jump_condition(0b010, 5, 5));
    assert!(jump_condition(0b011, 5, 5));
    assert!(jump_condition(0b100, 0, 0));
    assert!(jump_condition(0b101, 4, 5));
    assert!(jump_condition(0b110, 5, 5));
    assert!(!jump_condition(0b110, 4, 5));
    assert!(jump_condition(0b111, 6, 5));
    assert!(!jump_condition(0b111, 5, 5));
    assert!(jump_condition(0b010, 200, 201));
}

#[test]
fn shifter() {
    assert_eq!(shift(0b000, 1, 3), 8);
    assert_eq!(shift(0b000, 0b1100_0000, 1), 0b1000_0000);
    assert_eq!(shift(0b000, 1, 9), 0);
    assert_eq!(shift(0b001, 128, 7), 1);
    assert_eq!(shift(0b001, 128, 8), 0);
    assert_eq!(shift(0b010, 1, 9), 2);
    assert_eq!(shift(0b011, 128, 9), 64);
    assert_eq!(shift(0b100, 77, 3), 77);
}

#[test]
fn u8_literals() {
    assert_eq!(parse_u8_literal("123"), Some(123));
    assert_eq!(parse_u8_literal("0x7b"), Some(123));
    assert_eq!(parse_u8_literal("0xFF"), Some(255));
    assert_eq!(parse_u8_literal("0b01111011"), Some(123));
    assert_eq!(parse_u8_literal("+5"), Some(5));
    assert_eq!(parse_u8_literal("0007"), Some(7));
    assert_eq!(parse_u8_literal("256"), None);
    assert_eq!(parse_u8_literal("0x100"), None);
    assert_eq!(parse_u8_literal("0b2"), None);
    assert_eq!(parse_u8_literal("0x"), None);
    assert_eq!(parse_u8_literal(""), None);
    assert_eq!(parse_u8_literal("-1"), None);
    assert_eq!(parse_u8_literal("12a"), None);
}

#[test]
fn encode_copy_immediate_to_register() {
    let word = Opcode::Copy
        .binary(&[Operand::Immediate(123), Operand::Symbol(OperandSymbol::R1)])
        .unwrap();
    assert_eq!(word, [0b1000_0011, 123, 0, 0b001]);
}

#[test]
fn encode_marks_only_immediate_slots() {
    let word = Opcode::Add
        .binary(&[
            Operand::Symbol(OperandSymbol::R0),
            Operand::Immediate(0),
            Operand::Symbol(OperandSymbol::InOut),
        ])
        .unwrap();
    assert_eq!(word, [0b0100_1000, 0, 0, 12]);
    let word = Opcode::JpLt
        .binary(&[Operand::Immediate(3), Operand::Symbol(OperandSymbol::Fss)])
        .unwrap();
    assert_eq!(word, [0b1010_0010, 3, 15, 0]);
    let word = Opcode::Mvc.binary(&[Operand::Symbol(OperandSymbol::R7)]).unwrap();
    assert_eq!(word, [0b0001_1101, 0, 0, 7]);
    let word = Opcode::Halt.binary(&[]).unwrap();
    assert_eq!(word, [0b0000_0010, 0, 0, 0]);
}

#[test]
fn encode_missing_operand() {
    assert_eq!(
        Opcode::Add.binary(&[Operand::Immediate(1), Operand::Immediate(2)]),
        Err(AsmError::MissingOperand)
    );
}

#[test]
fn opcode_codes_round_trip() {
    for c in 0..64u8 {
        if let Some(op) = Opcode::from_code(c) {
            assert_eq!(op.code(), c);
        }
    }
    assert_eq!(Opcode::from_code(0x24), Some(Opcode::Jp));
    assert_eq!(Opcode::from_code(0x01), None);
    let m: Vec<char> = "JAMV".chars().collect();
    assert_eq!(Opcode::from_mnemonic(&m), Some(Opcode::JumpAddrMove));
    let m: Vec<char> = "copy".chars().collect();
    assert_eq!(Opcode::from_mnemonic(&m), None);
    let m: Vec<char> = "OUT".chars().collect();
    assert_eq!(OperandSymbol::from_name(&m), Some(OperandSymbol::InOut));
}

#[test]
fn header_prefix_and_static_data() {
    let code = "\
.data 16
first [1, 2, 3,] first_len
second 'a''b' _
third 0x09
.code
start:
  halt
.entry start
";
    let target = Assembler::new(code).unwrap().assemble();
    let data = vec![1, 2, 3, b'a', b'\'', b'b', 9];
    assert_eq!(&target.binary.header[..4], &[0x01, 7, 16, 11]);
    assert_eq!(&target.binary.header[4..], &data[..]);
    assert_eq!(target.binary.code, vec![0x02, 0, 0, 0]);
}

#[test]
fn data_names_bind_addresses_and_lengths() {
    let code = "\
.data 100
text 'hé' text_len
.code
main:
  cp text r0
  cp text_len r1
  halt
.entry main
";
    let target = Assembler::new(code).unwrap().assemble();
    assert_eq!(&target.binary.header[4..], &[b'h', 0xc3, 0xa9]);
    assert_eq!(&target.binary.code[..8], &[0x83, 100, 0, 0, 0x83, 3, 0, 1]);
}

#[test]
fn label_points_at_next_instruction() {
    let code = "\
.data 0
pad [0, 0, 0]
.code
main:
  jamv target
  jp
  nop
target:   ; the label line

  cp 7 out
  halt
.entry main
";
    let bin = image(code);
    let jamv = &bin[7..11];
    assert_eq!(jamv[0], 0x44);
    let addr = jamv[2] as usize + 256 * jamv[3] as usize;
    assert_eq!(addr, 4 + 3 + 12);
    assert_eq!(bin[addr], 0x83);
    assert_eq!(&bin[addr..addr + 4], &[0x83, 7, 0, 12]);
}

#[test]
fn listing_rows() {
    let code = ".code\nmain:\n  add r1 2 out ; sum\n  halt\n.entry main\n";
    let target = Assembler::new(code).unwrap().assemble();
    assert_eq!(
        target.commented_binary,
        "0x01 0x00 0x00 0x04 # copystatic\n# data\n# main:\n0x48 0x01 0x02 0x0c # add r1 2 out\n0x02 0x00 0x00 0x00 # halt\n"
    );
}

#[test]
fn merge_concatenates_parts() {
    let parts = BinaryParts { header: vec![1, 2], code: vec![3] };
    assert_eq!(parts.merge(), vec![1, 2, 3]);
}

#[test]
fn stack_discipline_reverses_order() {
    let code = "\
.code
main:
  push 10
  push 20
  push 30
  pop r0
  pop r1
  pop r2
  pop r3
  halt
.entry main
";
    let (emulator, _) = run(code, vec![]);
    assert_eq!(&emulator.registers.tier1[..4], &[30, 20, 10, 0]);
    assert!(emulator.stack.is_empty());
}

#[test]
fn input_read_in_order_then_zero() {
    let code = ".code\nmain:\n  cp in out\n  cp in out\n  cp in out\n  cp in out\n  halt\n.entry main\n";
    let (_, output) = run(code, vec![7, 8, 9]);
    assert_eq!(output, vec![7, 8, 9, 0]);
}

#[test]
fn output_in_order_of_writes() {
    let code = ".code\nmain:\n  cp 3 out\n  cp 1 out\n  cp 2 out\n  halt\n.entry main\n";
    let (_, output) = run(code, vec![]);
    assert_eq!(output, vec![3, 1, 2]);
}

#[test]
fn constant_registers_and_carry() {
    let code = "\
.code
main:
  cp aor r0
  cp azr r1
  cp 5 aor
  cp aor r2
  add 250 10 r3
  mvc r4
  cadd 1 1 r5
  mvc r6
  anc 250 10 r7
  snc 3 5 r8
  div 17 5 r9
  mod 17 5 r10
  cp 42 fss
  halt
.entry main
";
    let (emulator, _) = run(code, vec![]);
    assert_eq!(
        &emulator.registers.tier1[..],
        &[1, 0, 1, 4, 1, 3, 0, 4, 254, 3, 2, 0, 0, 0, 0, 42]
    );
}

#[test]
fn call_and_return() {
    let code = "\
.code
main:
  call f
  cp 2 out
  halt
f:
  cp 1 out
  ret
.entry main
";
    let (emulator, output) = run(code, vec![]);
    assert_eq!(output, vec![1, 2]);
    assert!(emulator.f_call_stack.is_empty());
}

#[test]
fn runs_are_deterministic() {
    let code = "\
.code
main:
  add in in r0
  st 3 r0
  cp r0 out
  halt
.entry main
";
    let a = run(code, vec![4, 5]);
    let b = run(code, vec![4, 5]);
    assert_eq!(a.1, b.1);
    assert_eq!(a.0.ram, b.0.ram);
    assert_eq!(a.1, vec![9]);
    assert_eq!(a.0.ram[3], 9);
}

#[test]
fn runaway_pc_executes_null_words() {
    // a program counter beyond the program reads a null word and moves on
    let mut emulator = Emulator::new(vec![0x01, 0, 0, 4, 0x02, 0, 0, 0]).unwrap();
    emulator.pc = WrappingNum(8);
    emulator.tick().unwrap();
    assert_eq!(emulator.pc.0, 12);
    assert!(!emulator.halted);
}

#[test]
fn emulator_load_errors() {
    assert_eq!(Emulator::new(vec![]).unwrap_err(), EmulatorError::BadHeader);
    assert_eq!(Emulator::new(vec![0x02, 0, 0, 4]).unwrap_err(), EmulatorError::BadHeader);
    assert_eq!(Emulator::new(vec![0x01, 3, 0, 4, 1]).unwrap_err(), EmulatorError::BadHeader);
    assert_eq!(
        Emulator::new(vec![0x01, 2, 255, 4, 1, 2]).unwrap_err(),
        EmulatorError::DataOverflow
    );
    let emulator = Emulator::new(vec![0x01, 2, 254, 6, 1, 2]).unwrap();
    assert_eq!(&emulator.ram[254..], &[1, 2]);
    assert_eq!(emulator.pc.0, 6);
}

#[test]
fn emulator_runtime_errors() {
    let mut emulator = Emulator::new(image(".code\nmain:\n  halt\n.entry main\n")).unwrap();
    emulator.tick().unwrap();
    assert!(emulator.halted);
    assert_eq!(emulator.tick(), Err(EmulatorError::AlreadyHalted));
    let mut emulator = Emulator::new(image(".code\nmain:\n  div 1 0 r0\n.entry main\n")).unwrap();
    assert_eq!(emulator.run_to_halt(), Err(EmulatorError::DivisionByZero));
}

#[test]
fn assembler_section_errors() {
    assert_eq!(asm_error(".code\n.code\n.entry x\n"), AsmError::DuplicateSection);
    assert_eq!(asm_error(".entry main\n"), AsmError::MissingRequiredSection);
    assert_eq!(asm_error(".code\nmain:\n  halt\n"), AsmError::MissingRequiredSection);
    assert_eq!(asm_error(".code\nmain:\n  halt\n.entry\n"), AsmError::SectionSyntax);
    assert_eq!(asm_error(".data\nx 1\n.code\n.entry main\n"), AsmError::SectionSyntax);
    assert_eq!(asm_error(".consts\nLONELY\n.code\n.entry main\n"), AsmError::SectionSyntax);
}

#[test]
fn assembler_literal_and_data_errors() {
    assert_eq!(asm_error(".consts\nX 300\n.code\n.entry main\n"), AsmError::BadU8Literal);
    assert_eq!(asm_error(".data zero\n.code\n.entry main\n"), AsmError::BadU8Literal);
    assert_eq!(asm_error(".data 0\nx abc\n.code\n.entry main\n"), AsmError::BadDataValue);
    assert_eq!(asm_error(".data 0\nx [1, 300]\n.code\n.entry main\n"), AsmError::BadArrayLiteral);
    assert_eq!(asm_error(".data 0\nx 'abc\n.code\n.entry main\n"), AsmError::BadQuotedString);
    assert_eq!(asm_error(".data 0\nlonely\n.code\n.entry main\n"), AsmError::SectionSyntax);
    assert_eq!(asm_error(".data 250\nx [1, 2, 3, 4, 5, 6, 7]\n.code\n.entry main\n"), AsmError::DataOverflow);
}

#[test]
fn assembler_statement_errors() {
    assert_eq!(asm_error(".code\nmain:\n  frob r1\n.entry main\n"), AsmError::UnknownMnemonic);
    assert_eq!(asm_error(".code\nmain:\n  add r1 r99 r2\n.entry main\n"), AsmError::UnknownOperand);
    assert_eq!(asm_error(".code\nmain:\n  add r1 r2\n.entry main\n"), AsmError::MissingOperand);
    assert_eq!(asm_error(".code\nmain:\n  call\n.entry main\n"), AsmError::MissingOperand);
    assert_eq!(asm_error(".code\nmain:\n  call nowhere\n.entry main\n"), AsmError::UnknownLabel);
    assert_eq!(asm_error(".code\nmain:\n  halt\n.entry other\n"), AsmError::UnknownLabel);
}

#[test]
fn assembler_address_errors() {
    let mut code = String::from(".code\n");
    for _ in 0..70 {
        code.push_str("  nop\n");
    }
    code.push_str("late:\n  halt\n.entry late\n");
    assert_eq!(asm_error(&code), AsmError::EntrypointOutOfRange);
    let mut code = String::from(".code\nmain:\n");
    for _ in 0..16384 {
        code.push_str("nop\n");
    }
    code.push_str(".entry main\n");
    assert_eq!(asm_error(&code), AsmError::ProgramTooLarge);
}

#[test]
fn program_counter_wraps_at_sixteen_bits() {
    let mut pc = WrappingNum(65534_u16);
    pc.add_assign(4);
    assert_eq!(pc.0, 2);
    assert_eq!(pc.usize(), 2);
}

#[test]
fn string_data_is_utf8() {
    let code = ".data 0\ns 'a\u{e9}\u{20ac}\u{1f600}' _\n.code\nmain:\n  halt\n.entry main\n";
    let target = Assembler::new(code).unwrap().assemble();
    assert_eq!(
        &target.binary.header[4..],
        &[b'a', 0xc3, 0xa9, 0xe2, 0x82, 0xac, 0xf0, 0x9f, 0x98, 0x80]
    );
    assert_eq!(target.binary.header[1], 10);
}
