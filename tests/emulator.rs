use leg_cpu_emulator::assembler::Assembler;
use leg_cpu_emulator::emulator::{Emulator, WrappingNum};

const FIBONACCI: &str = "\
.code
main:
  cp 1 r0
  cp 1 r1
  cp 0 r2
loop:
  st r2 r0        ; ram[i] = a
  add r0 r1 r3
  cp r1 r0
  cp r3 r1
  add r2 1 r2
  jamv loop
  jplt r2 10
  halt
.entry main
";

#[test]
fn fibonacci() {
    let target = Assembler::new(FIBONACCI).unwrap().assemble();

    let binary = target.binary.merge();
    let mut emulator = Emulator::new(binary).unwrap();

    loop {
        emulator.tick().unwrap();
        if emulator.halted {
            break;
        }
    }

    assert_eq!(&emulator.ram[..10], &[1, 1, 2, 3, 5, 8, 13, 21, 34, 55]);
}

#[test]
fn size() {
    println!("{}", std::mem::size_of::<Emulator>());
}

#[test]
fn wrapping_add_assign() {
    let mut a = WrappingNum(0_u8);
    a.add_assign(255);
    assert_eq!(a.0, 255);
    a.add_assign(2);
    assert_eq!(a.0, 1);
}
