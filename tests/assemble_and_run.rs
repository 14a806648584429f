use leg_cpu_emulator::assembler::Assembler;
use leg_cpu_emulator::emulator::Emulator;

const HELLO_WORLD: &str = "\
.data 0
msg 'hello, world' text_len
newline 10 _
.code
main:
  cp msg r0        ; address of the next byte
  cp text_len r1
  add r1 1 r1      ; the newline after the text
loop:
  ld r0 r2
  cp r2 out
  add r0 1 r0
  sub r1 1 r1
  jamv loop
  jpne r1 0
  halt
.entry main
";

const FIBONACCI: &str = "\
.code
main:
  cp 1 r0
  cp 1 r1
  cp 0 r2
loop:
  st r2 r0        ; ram[i] = a
  add r0 r1 r3
  cp r1 r0
  cp r3 r1
  add r2 1 r2
  jamv loop
  jplt r2 10
  halt
.entry main
";

const SELECTION_SORT: &str = "\
.data 0
array [7, 3, 15, 0, 12, 1, 9, 4, 14, 2, 11, 6, 13, 5, 10, 8] _
.code
main:
  cp 0 r0
outer:
  cp r0 r1
  add r0 1 r2
inner:
  jamv inner_end
  jpge r2 16
  ld r2 r3
  ld r1 r4
  jamv no_update
  jpge r3 r4
  cp r2 r1
no_update:
  add r2 1 r2
  jamv inner
  jp
inner_end:
  ld r0 r3
  ld r1 r4
  st r0 r4
  st r1 r3
  add r0 1 r0
  jamv outer
  jplt r0 15
  halt
.entry main
";

fn sixteen_bits_program() -> String {
    let mut code = String::from(
        "\
.code
main:
  fpush 2
  fpush 3
  call add_fn
  jamv far
  jp
add_fn:
  fpop r0
  fpop r1
  add r0 r1 r2
  cp r2 out
  ret
",
    );
    for _ in 0..80 {
        code.push_str("  nop\n");
    }
    code.push_str("far:\n  halt\n.entry main\n");
    code
}

const MULTIBYTE_INTEGER_ADD: &str = "\
.consts
A_LOW 0xff
A_HIGH 0x01
.code
main:
  cp A_LOW r0
  cp A_HIGH r1
  cp 0x02 r2
  cp 0x03 r3
  add r0 r2 r4
  cadd r1 r3 r5
  jamv bad
  jpne r4 0x01
  jpne r5 0b101
  cp 0 out
  halt
bad:
  cp 1 out
  halt
.entry main
";

const FUNCTION_STACK: &str = "\
.code
main:
  cp 0 r0
loop:
  fpush r0
  add r0 6 r1
  fpush r1
  call store
  add r0 1 r0
  jamv loop
  jplt r0 5
  halt
store:
  fpop r2
  fpop r3
  st r3 r2
  ret
.entry main
";

const INPUT_OUTPUT: &str = "\
.consts
COUNT 3
.code
main:
  cp 0 r0
loop:
  add in 1 out
  add r0 1 r0
  jamv loop
  jplt r0 COUNT
  halt
.entry main
";

const WATER_WORLD: &str = "\
.code
main:
  cp 0 r0
read:
  cp in r1
  sub r1 48 r1
  st r0 r1
  add r0 1 r0
  cp in r2
  jamv read
  jplt r0 16
  cp 0 r0
  cp 0 r5
outer:
  cp 0 r1
  cp 0 r3
lm:
  ld r1 r4
  jamv lm_skip
  jple r4 r3
  cp r4 r3
lm_skip:
  add r1 1 r1
  jamv lm
  jple r1 r0
  cp r0 r1
  cp 0 r6
rm:
  ld r1 r4
  jamv rm_skip
  jple r4 r6
  cp r4 r6
rm_skip:
  add r1 1 r1
  jamv rm
  jplt r1 16
  jamv min_done
  jple r3 r6
  cp r6 r3
min_done:
  ld r0 r4
  sub r3 r4 r3
  add r5 r3 r5
  add r0 1 r0
  jamv outer
  jplt r0 16
  div r5 100 r1
  mod r5 100 r2
  div r2 10 r3
  mod r2 10 r4
  jamv tens
  jpeq r1 0
  add r1 48 out
  jamv print_tens
  jp
tens:
  jamv ones
  jpeq r3 0
print_tens:
  add r3 48 out
ones:
  add r4 48 out
  cp 10 out
  halt
.entry main
";

const PRIME_NUMBERS: &str = "\
.code
main:
  cp 50 out
  cp 10 out
  cp 0 r0
sieve:
  ld r0 r1
  jamv next_k
  jpne r1 0
  add r0 r0 r2
  add r2 3 r2
  add r0 r2 r3
  sub 249 r2 r4
mark:
  jamv next_k
  jpge r3 249
  st r3 aor
  jpge r3 r4
  add r3 r2 r3
  jamv mark
  jp
next_k:
  add r0 1 r0
  jamv sieve
  jplt r0 10
  cp 0 r0
  cp 0 r5
  cp 0 r6
  cp 3 r7
print:
  ld r0 r1
  jamv advance
  jpne r1 0
  jamv tens_check
  jpeq r5 0
  add r5 48 out
  jamv print_tens
  jp
tens_check:
  jamv print_ones
  jpeq r6 0
print_tens:
  add r6 48 out
print_ones:
  add r7 48 out
  cp 10 out
advance:
  add r7 2 r7
  jamv advanced
  jplt r7 10
  sub r7 10 r7
  add r6 1 r6
  jplt r6 10
  sub r6 10 r6
  add r5 1 r5
advanced:
  add r0 1 r0
  jamv print
  jplt r0 249
  halt
.entry main
";

fn emulator_run(bin: Vec<u8>) -> (Emulator, Vec<u8>) {
    let mut emulator = Emulator::new(bin).unwrap();
    let mut output = Vec::new();
    loop {
        emulator.tick().unwrap();
        if emulator.halted {
            break;
        }
        if let Some(x) = emulator.output {
            output.push(x.0);
        }
    }
    (emulator, output)
}

fn assemble_binary(code: &str) -> Vec<u8> {
    Assembler::new(code).unwrap().assemble().binary.merge()
}

fn assemble_and_run(code: &str) -> (Emulator, Vec<u8>) {
    let target = Assembler::new(code).unwrap().assemble();
    println!("{}", target.commented_binary);
    emulator_run(target.binary.merge())
}

#[test]
fn assemble_and_run_asm_hello_world() {
    let assembler = Assembler::new(HELLO_WORLD).unwrap();
    let target = assembler.assemble();
    println!("{}", target.commented_binary);
    let output = emulator_run(target.binary.merge()).1;
    assert_eq!(&output, b"hello, world\n");
}

#[test]
fn assemble_and_run_asm_fibonacci() {
    let target = Assembler::new(FIBONACCI).unwrap().assemble();
    println!("{}", target.commented_binary);
    let emulator = emulator_run(target.binary.merge()).0;
    assert_eq!(&emulator.ram[..10], &[1, 1, 2, 3, 5, 8, 13, 21, 34, 55]);
}

#[test]
fn assemble_and_run_asm_selection_sort() {
    let ram = assemble_and_run(SELECTION_SORT).0.ram;
    assert_eq!(&ram[..16], &(0..16).collect::<Vec<u8>>())
}

#[test]
fn assemble_and_run_sixteen_bits_addressing() {
    let output = assemble_and_run(&sixteen_bits_program()).1[0];
    assert_eq!(output, 5 /* 2 + 3 */);
}

#[test]
fn assemble_and_run_multibyte_integer_add() {
    let target = Assembler::new(MULTIBYTE_INTEGER_ADD).unwrap().assemble();
    let status = emulator_run(target.binary.merge()).1[0];
    assert_eq!(status, 0);
}

#[test]
fn assemble_and_run_function_stack() {
    let ram = assemble_and_run(FUNCTION_STACK).0.ram;
    assert_eq!(&ram[0..5], &[6, 7, 8, 9, 10]);
}

#[test]
fn input_output() {
    let input = vec![0, 1, 2];
    let binary = assemble_binary(INPUT_OUTPUT);
    let output = Emulator::new(binary)
        .unwrap()
        .set_input(input)
        .run_to_halt()
        .unwrap();
    assert_eq!(&output, &[1, 2, 3]);
}

#[test]
fn water_world() {
    let data = [
        ("4,6,1,4,6,5,1,4,1,2,6,5,6,1,4,2", 28_u8),
        ("2,5,1,5,1,2,1,5,1,2,2,4,5,5,4,1", 26),
        ("6,1,1,1,2,1,1,1,1,1,3,1,1,1,1,6", 67),
        ("4,4,5,6,1,1,3,1,2,1,1,1,1,1,1,1", 5),
        ("1,2,3,4,5,6,6,6,6,6,6,5,4,3,2,1", 0),
        ("1,1,1,1,1,1,1,1,1,1,1,3,6,2,2,1", 0),
        ("5,6,2,5,1,3,2,1,1,1,1,1,1,1,1,1", 5),
    ];

    let target = Assembler::new(WATER_WORLD).unwrap().assemble();
    for (line, expected) in data {
        let mut emulator = Emulator::new(target.binary.merge()).unwrap();
        emulator.set_input(format!("{line}\n").into_bytes());
        let output = emulator.run_to_halt().unwrap();
        let output = String::from_utf8(output).unwrap();
        assert_eq!(output.trim().parse::<u8>().unwrap(), expected);
    }
}

#[test]
fn prime_numbers() {
    fn is_prime(n: u16) -> bool {
        for i in 2..n {
            if n % i == 0 {
                return false;
            }
        }
        true
    }
    let expected = (2..=500).filter(|&x| is_prime(x)).collect::<Vec<_>>();

    let mut list = Vec::new();
    let (_emulator, output) = assemble_and_run(PRIME_NUMBERS);
    let output = String::from_utf8(output).unwrap();
    let output = output.trim();
    for line in output.lines() {
        list.push(line.parse::<u16>().unwrap());
    }
    assert_eq!(expected, list);
}
