#![allow(dead_code)]

use leg_cpu_emulator::assembler::Assembler;

const HELLO_WORLD: &str = "\
.data 0
msg 'hello, world' text_len
newline 10 _
.code
main:
  cp msg r0        ; address of the next byte
  cp text_len r1
  add r1 1 r1      ; the newline after the text
loop:
  ld r0 r2
  cp r2 out
  add r0 1 r0
  sub r1 1 r1
  jamv loop
  jpne r1 0
  halt
.entry main
";

const FIBONACCI: &str = "\
.code
main:
  cp 1 r0
  cp 1 r1
  cp 0 r2
loop:
  st r2 r0        ; ram[i] = a
  add r0 r1 r3
  cp r1 r0
  cp r3 r1
  add r2 1 r2
  jamv loop
  jplt r2 10
  halt
.entry main
";

const SELECTION_SORT: &str = "\
.data 0
array [7, 3, 15, 0, 12, 1, 9, 4, 14, 2, 11, 6, 13, 5, 10, 8] _
.code
main:
  cp 0 r0
outer:
  cp r0 r1
  add r0 1 r2
inner:
  jamv inner_end
  jpge r2 16
  ld r2 r3
  ld r1 r4
  jamv no_update
  jpge r3 r4
  cp r2 r1
no_update:
  add r2 1 r2
  jamv inner
  jp
inner_end:
  ld r0 r3
  ld r1 r4
  st r0 r4
  st r1 r3
  add r0 1 r0
  jamv outer
  jplt r0 15
  halt
.entry main
";

fn sixteen_bits_program() -> String {
    let mut code = String::from(
        "\
.code
main:
  fpush 2
  fpush 3
  call add_fn
  jamv far
  jp
add_fn:
  fpop r0
  fpop r1
  add r0 r1 r2
  cp r2 out
  ret
",
    );
    for _ in 0..80 {
        code.push_str("  nop\n");
    }
    code.push_str("far:\n  halt\n.entry main\n");
    code
}

const MULTIBYTE_INTEGER_ADD: &str = "\
.consts
A_LOW 0xff
A_HIGH 0x01
.code
main:
  cp A_LOW r0
  cp A_HIGH r1
  cp 0x02 r2
  cp 0x03 r3
  add r0 r2 r4
  cadd r1 r3 r5
  jamv bad
  jpne r4 0x01
  jpne r5 0b101
  cp 0 out
  halt
bad:
  cp 1 out
  halt
.entry main
";

const FUNCTION_STACK: &str = "\
.code
main:
  cp 0 r0
loop:
  fpush r0
  add r0 6 r1
  fpush r1
  call store
  add r0 1 r0
  jamv loop
  jplt r0 5
  halt
store:
  fpop r2
  fpop r3
  st r3 r2
  ret
.entry main
";

const INPUT_OUTPUT: &str = "\
.consts
COUNT 3
.code
main:
  cp 0 r0
loop:
  add in 1 out
  add r0 1 r0
  jamv loop
  jplt r0 COUNT
  halt
.entry main
";

const WATER_WORLD: &str = "\
.code
main:
  cp 0 r0
read:
  cp in r1
  sub r1 48 r1
  st r0 r1
  add r0 1 r0
  cp in r2
  jamv read
  jplt r0 16
  cp 0 r0
  cp 0 r5
outer:
  cp 0 r1
  cp 0 r3
lm:
  ld r1 r4
  jamv lm_skip
  jple r4 r3
  cp r4 r3
lm_skip:
  add r1 1 r1
  jamv lm
  jple r1 r0
  cp r0 r1
  cp 0 r6
rm:
  ld r1 r4
  jamv rm_skip
  jple r4 r6
  cp r4 r6
rm_skip:
  add r1 1 r1
  jamv rm
  jplt r1 16
  jamv min_done
  jple r3 r6
  cp r6 r3
min_done:
  ld r0 r4
  sub r3 r4 r3
  add r5 r3 r5
  add r0 1 r0
  jamv outer
  jplt r0 16
  div r5 100 r1
  mod r5 100 r2
  div r2 10 r3
  mod r2 10 r4
  jamv tens
  jpeq r1 0
  add r1 48 out
  jamv print_tens
  jp
tens:
  jamv ones
  jpeq r3 0
print_tens:
  add r3 48 out
ones:
  add r4 48 out
  cp 10 out
  halt
.entry main
";

const PRIME_NUMBERS: &str = "\
.code
main:
  cp 50 out
  cp 10 out
  cp 0 r0
sieve:
  ld r0 r1
  jamv next_k
  jpne r1 0
  add r0 r0 r2
  add r2 3 r2
  add r0 r2 r3
  sub 249 r2 r4
mark:
  jamv next_k
  jpge r3 249
  st r3 aor
  jpge r3 r4
  add r3 r2 r3
  jamv mark
  jp
next_k:
  add r0 1 r0
  jamv sieve
  jplt r0 10
  cp 0 r0
  cp 0 r5
  cp 0 r6
  cp 3 r7
print:
  ld r0 r1
  jamv advance
  jpne r1 0
  jamv tens_check
  jpeq r5 0
  add r5 48 out
  jamv print_tens
  jp
tens_check:
  jamv print_ones
  jpeq r6 0
print_tens:
  add r6 48 out
print_ones:
  add r7 48 out
  cp 10 out
advance:
  add r7 2 r7
  jamv advanced
  jplt r7 10
  sub r7 10 r7
  add r6 1 r6
  jplt r6 10
  sub r6 10 r6
  add r5 1 r5
advanced:
  add r0 1 r0
  jamv print
  jplt r0 249
  halt
.entry main
";

fn assemble_to_commented_binary(code: &str) -> String {
    Assembler::new(code).unwrap().assemble().commented_binary
}

#[test]
fn assembler_asm_hello_world() {
    let assembler = Assembler::new(HELLO_WORLD).unwrap();
    let target = assembler.assemble();
    println!("{}", target.commented_binary);
    assert!(target.commented_binary.starts_with("0x01 0x0d 0x00 0x11 # copystatic\n"));
}

#[test]
fn assembler_asm_fibonacci() {
    let target = Assembler::new(FIBONACCI).unwrap().assemble();
    println!("{}", target.commented_binary);
    assert_eq!(target.binary.header, vec![0x01, 0, 0, 4]);
    assert_eq!(target.binary.code.len(), 4 * 11);
}

#[test]
fn assembler_asm_selection_sort() {
    let assembler = Assembler::new(SELECTION_SORT).unwrap();
    let target = assembler.assemble();
    println!("{}", target.commented_binary);
    assert_eq!(&target.binary.header[..4], &[0x01, 16, 0, 20]);
    assert_eq!(target.binary.header[4], 7);
}

#[test]
fn assembler_sixteen_bits_addressing() {
    let code = sixteen_bits_program();
    let assembler = Assembler::new(&code).unwrap();
    let target = assembler.assemble();
    println!("{}", target.commented_binary);
    // `jamv far` carries the 16-bit address 364 = 0x016c, low byte first.
    assert_eq!(&target.binary.code[12..16], &[0x44, 0, 0x6c, 0x01]);
}

#[test]
fn assembler_multibyte_integer_add() {
    let listing = assemble_to_commented_binary(MULTIBYTE_INTEGER_ADD);
    println!("{}", listing);
    assert!(listing.contains("0x83 0xff 0x00 0x00 # cp A_LOW r0\n"));
}

#[test]
fn assembler_function_stack() {
    let listing = assemble_to_commented_binary(FUNCTION_STACK);
    println!("{}", listing);
    assert!(listing.contains("# store:\n"));
}
