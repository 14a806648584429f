//! The CPU: state, the `copystatic` loader, one tick of fetch, decode and
//! execute, and running until `halt`.
use crate::components::{alu, alu_spec, jump_condition, jump_condition_spec, shift, shift_spec};
use crate::error::EmulatorError;
use crate::instruction::{
    encode, opcode_from_code, symbol_index, Opcode, OpcodeType, Operand, OperandSymbol,
    COPY_STATIC_HEADER,
};
use vstd::prelude::*;

verus! {

/// The register file as the program sees it.
#[derive(Debug)]
pub struct Registers {
    /// The 16 operand-addressable registers, indexed by their 4-bit code.
    /// Codes 12 to 14 are served specially and leave their cells unused.
    pub tier1: Vec<u8>,
    /// The carry flag, read only through `mvc`.
    pub carry: bool,
    /// The 16-bit jump target, written only through `jamv`.
    pub jump_address: u16,
}

impl Registers {
    /// All registers zero, carry clear.
    pub fn new() -> (r: Registers)
        ensures
            r.tier1@ == Seq::new(16, |i: int| 0u8),
            !r.carry,
            r.jump_address == 0,
    {
        let mut tier1: Vec<u8> = Vec::new();
        let mut i: usize = 0;
        while i < 16
            invariant
                i <= 16,
                tier1@ == Seq::new(i as nat, |k: int| 0u8),
            decreases 16 - i,
        {
            tier1.push(0);
            i = i + 1;
            assert(tier1@ =~= Seq::new(i as nat, |k: int| 0u8));
        }
        Registers { tier1, carry: false, jump_address: 0 }
    }

    /// The carry flag as a byte, 1 or 0.
    fn carry_u8(&self) -> (r: u8)
        ensures
            r == (if self.carry {
                1u8
            } else {
                0u8
            }),
    {
        if self.carry {
            1
        } else {
            0
        }
    }
}

impl Default for Registers {
    fn default() -> (r: Registers)
        ensures
            r.tier1@ == Seq::new(16, |i: int| 0u8),
            !r.carry,
            r.jump_address == 0,
    {
        Registers::new()
    }
}

/// A number whose additions wrap around at the width of its type.
#[derive(Debug, Clone, Copy)]
pub struct WrappingNum<T>(pub T);

impl WrappingNum<u8> {
    /// Adds `rhs`, wrapping around at 256.
    pub fn add_assign(&mut self, rhs: u8)
        ensures
            final(self).0 == (old(self).0 + rhs) % 256,
    {
        self.0 = ((self.0 as u16 + rhs as u16) % 256) as u8;
    }

    /// The value as an index.
    pub fn usize(&self) -> (r: usize)
        ensures
            r == self.0,
    {
        self.0 as usize
    }
}

impl WrappingNum<u16> {
    /// Adds `rhs`, wrapping around at 65536.
    pub fn add_assign(&mut self, rhs: u16)
        ensures
            final(self).0 == (old(self).0 + rhs) % 65536,
    {
        self.0 = ((self.0 as u32 + rhs as u32) % 65536) as u16;
    }

    /// The value as an index.
    pub fn usize(&self) -> (r: usize)
        ensures
            r == self.0,
    {
        self.0 as usize
    }
}

/// A byte written to the output register during the last tick.
#[derive(Debug, Clone, Copy, PartialEq, Eq, Structural)]
pub struct Output(pub u8);

/// The CPU with its program, memory, stacks and I/O.
#[derive(Debug)]
pub struct Emulator {
    pub program: Vec<u8>,
    /// The program counter; it wraps around at 16 bits.
    pub pc: WrappingNum<u16>,
    /// 256 bytes of RAM.
    pub ram: Vec<u8>,
    /// The data stack of `push` and `pop`.
    pub stack: Vec<u8>,
    /// The return addresses of `call` and `ret`.
    pub f_call_stack: Vec<u16>,
    /// The argument stack of `fpush` and `fpop`.
    pub f_args_stack: Vec<u8>,
    pub registers: Registers,
    pub halted: bool,
    /// What the last tick wrote to the output register, if anything.
    pub output: Option<Output>,
    /// The pending input, last byte first, so that the next byte to read is
    /// at the end.
    pub input: Vec<u8>,
}

/// The state of the CPU as a mathematical value.
pub struct EmuState {
    pub program: Seq<u8>,
    pub pc: u16,
    pub ram: Seq<u8>,
    pub stack: Seq<u8>,
    pub f_call_stack: Seq<u16>,
    pub f_args_stack: Seq<u8>,
    pub tier1: Seq<u8>,
    pub carry: bool,
    pub jump_address: u16,
    pub halted: bool,
    pub output: Option<u8>,
    /// The pending input, next byte first.
    pub input: Seq<u8>,
}

/// `v` read from its end: the order in which `pop` hands its items out.
pub open spec fn reversed(v: Seq<u8>) -> Seq<u8> {
    Seq::new(v.len(), |i: int| v[v.len() - 1 - i])
}

impl View for Emulator {
    type V = EmuState;

    open spec fn view(&self) -> EmuState {
        EmuState {
            program: self.program@,
            pc: self.pc.0,
            ram: self.ram@,
            stack: self.stack@,
            f_call_stack: self.f_call_stack@,
            f_args_stack: self.f_args_stack@,
            tier1: self.registers.tier1@,
            carry: self.registers.carry,
            jump_address: self.registers.jump_address,
            halted: self.halted,
            output: match self.output {
                Some(o) => Some(o.0),
                None => None,
            },
            input: reversed(self.input@),
        }
    }
}

/// RAM holds 256 bytes and the register file 16 cells.
pub open spec fn state_wf(s: EmuState) -> bool {
    s.ram.len() == 256 && s.tier1.len() == 16
}

pub open spec fn wrap16(x: int) -> u16 {
    (x % 65536) as u16
}

/// The 16-bit little-endian value of two bytes.
pub open spec fn le16(lo: u8, hi: u8) -> u16 {
    (lo + 256 * hi) as u16
}

/// The program counter moved to the next instruction.
pub open spec fn advance(s: EmuState) -> EmuState {
    EmuState { pc: wrap16(s.pc + 4), ..s }
}

/// The four bytes at the program counter, or a null word where they would
/// reach beyond the program.
pub open spec fn word_at(s: EmuState) -> Seq<u8> {
    if s.pc + 4 > s.program.len() {
        seq![0u8, 0u8, 0u8, 0u8]
    } else {
        s.program.subrange(s.pc as int, s.pc + 4)
    }
}

/// Reads register `r`: the input register hands out the next input byte
/// (0 once the input is exhausted), `aor` reads 1, `azr` and codes above
/// 15 read 0.
pub open spec fn read_reg(s: EmuState, r: u8) -> (u8, EmuState) {
    if r <= 11 || r == 15 {
        (s.tier1[r as int], s)
    } else if r == 12 {
        if s.input.len() > 0 {
            (s.input[0], EmuState { input: s.input.drop_first(), ..s })
        } else {
            (0, s)
        }
    } else if r == 13 {
        (1, s)
    } else {
        (0, s)
    }
}

/// Writes register `r`: the output register emits the byte, writes to the
/// constant registers and to codes above 15 go nowhere.
pub open spec fn write_reg(s: EmuState, r: u8, v: u8) -> EmuState {
    if r <= 11 || r == 15 {
        EmuState { tier1: s.tier1.update(r as int, v), ..s }
    } else if r == 12 {
        EmuState { output: Some(v), ..s }
    } else {
        s
    }
}

/// The value of operand byte `k`: the byte itself when it is marked
/// immediate, else the register it names; `None` for a code above 15.
pub open spec fn read_operand(s: EmuState, w: Seq<u8>, imm: bool, k: int) -> Option<(u8, EmuState)> {
    if imm {
        Some((w[k], s))
    } else if w[k] >= 16 {
        None
    } else {
        Some(read_reg(s, w[k]))
    }
}

pub open spec fn ok_advance(s: EmuState) -> (Result<(), EmulatorError>, EmuState) {
    (Ok(()), advance(s))
}

/// The effect of a decoded instruction with code `code` and operand values
/// `a` and `b`.
pub open spec fn execute_spec(s: EmuState, w: Seq<u8>, code: u8, a: u8, b: u8) -> (
    Result<(), EmulatorError>,
    EmuState,
) {
    let family = code / 8;
    let sub = code % 8;
    if family == 1 {
        let (o, c) = alu_spec(code, a, b);
        ok_advance(EmuState { carry: c, ..write_reg(s, w[3], o) })
    } else if family == 4 {
        if jump_condition_spec(code, a, b) {
            (Ok(()), EmuState { pc: s.jump_address, ..s })
        } else {
            ok_advance(s)
        }
    } else if family == 5 {
        if sub == 0 {
            ok_advance(write_reg(s, w[2], s.ram[a as int]))
        } else if sub == 1 {
            let (v, t) = read_reg(s, w[2]);
            ok_advance(EmuState { ram: t.ram.update(a as int, v), ..t })
        } else {
            ok_advance(s)
        }
    } else if family == 6 {
        if sub == 0 {
            ok_advance(EmuState { stack: s.stack.push(a), ..s })
        } else if sub == 1 {
            if s.stack.len() > 0 {
                ok_advance(write_reg(EmuState { stack: s.stack.drop_last(), ..s }, w[1], s.stack.last()))
            } else {
                ok_advance(write_reg(s, w[1], 0))
            }
        } else {
            ok_advance(s)
        }
    } else if family == 7 {
        if sub == 0 {
            (
                Ok(()),
                EmuState {
                    f_call_stack: s.f_call_stack.push(wrap16(s.pc + 4)),
                    pc: le16(w[2], w[3]),
                    ..s
                },
            )
        } else if sub == 1 {
            if s.f_call_stack.len() > 0 {
                (
                    Ok(()),
                    EmuState {
                        f_call_stack: s.f_call_stack.drop_last(),
                        pc: s.f_call_stack.last(),
                        ..s
                    },
                )
            } else {
                (Ok(()), EmuState { pc: 0, ..s })
            }
        } else if sub == 2 {
            ok_advance(EmuState { f_args_stack: s.f_args_stack.push(a), ..s })
        } else if sub == 3 {
            if s.f_args_stack.len() > 0 {
                ok_advance(
                    write_reg(
                        EmuState { f_args_stack: s.f_args_stack.drop_last(), ..s },
                        w[1],
                        s.f_args_stack.last(),
                    ),
                )
            } else {
                ok_advance(write_reg(s, w[1], 0))
            }
        } else {
            ok_advance(s)
        }
    } else if family == 2 {
        ok_advance(write_reg(s, w[3], shift_spec(code, a, b)))
    } else if family == 3 {
        if sub == 0 || sub == 1 {
            if b == 0 {
                (Err(EmulatorError::DivisionByZero), s)
            } else if sub == 0 {
                ok_advance(write_reg(s, w[3], a / b))
            } else {
                ok_advance(write_reg(s, w[3], a % b))
            }
        } else if sub == 2 {
            let c: int = if s.carry {
                1
            } else {
                0
            };
            let r1 = (a + b) % 256;
            ok_advance(
                EmuState {
                    carry: a + b >= 256 || r1 + c >= 256,
                    ..write_reg(s, w[3], ((r1 + c) % 256) as u8)
                },
            )
        } else if sub == 3 {
            ok_advance(write_reg(s, w[3], ((a + b) % 256) as u8))
        } else if sub == 4 {
            ok_advance(write_reg(s, w[3], ((a - b + 256) % 256) as u8))
        } else if sub == 5 {
            ok_advance(
                write_reg(
                    s,
                    w[3],
                    if s.carry {
                        1u8
                    } else {
                        0u8
                    },
                ),
            )
        } else {
            ok_advance(s)
        }
    } else {
        if sub == 2 {
            ok_advance(EmuState { halted: true, ..s })
        } else if sub == 3 {
            ok_advance(write_reg(s, w[3], a))
        } else if sub == 4 {
            ok_advance(EmuState { jump_address: le16(w[2], w[3]), ..s })
        } else {
            ok_advance(s)
        }
    }
}

#[verifier::opaque]
/// One tick: fetch the word at the program counter, clear the output, skip
/// unknown opcodes and register codes above 15, resolve both operand
/// bytes, and execute.
pub open spec fn tick_spec(s0: EmuState) -> (Result<(), EmulatorError>, EmuState) {
    if s0.halted {
        (Err(EmulatorError::AlreadyHalted), s0)
    } else {
        let s = EmuState { output: None, ..s0 };
        let w = word_at(s);
        let code = (w[0] % 64) as u8;
        if opcode_from_code(code) is None {
            ok_advance(s)
        } else {
            match read_operand(s, w, w[0] >= 128, 1) {
                None => ok_advance(s),
                Some((a, s1)) => match read_operand(s1, w, (w[0] / 64) % 2 == 1, 2) {
                    None => ok_advance(s1),
                    Some((b, s2)) => execute_spec(s2, w, code, a, b),
                },
            }
        }
    }
}

/// Running for at most `fuel` ticks, until `halt`: the bytes written to
/// the output register on the way, in order, and the final state.
pub open spec fn run_spec(s: EmuState, fuel: nat) -> (Result<Seq<u8>, EmulatorError>, EmuState)
    decreases fuel,
{
    if fuel == 0 {
        (Ok(seq![]), s)
    } else {
        let (r, t) = tick_spec(s);
        match r {
            Err(e) => (Err(e), t),
            Ok(_) => if t.halted {
                (Ok(seq![]), t)
            } else {
                let (r2, u) = run_spec(t, (fuel - 1) as nat);
                (
                    match r2 {
                        Ok(o) => Ok(
                            match t.output {
                                Some(x) => seq![x],
                                None => seq![],
                            } + o,
                        ),
                        Err(e) => Err(e),
                    },
                    u,
                )
            },
        }
    }
}

/// The largest number of ticks that `run_to_halt` makes.
pub open spec fn max_ticks() -> nat {
    u64::MAX as nat
}

/// The state that loading an image gives, or why the image is refused.
pub open spec fn load_spec(program: Seq<u8>) -> Result<EmuState, EmulatorError> {
    if program.len() < 4 || program[0] != COPY_STATIC_HEADER {
        Err(EmulatorError::BadHeader)
    } else {
        let len = program[1] as int;
        let start = program[2] as int;
        if program.len() < 4 + len {
            Err(EmulatorError::BadHeader)
        } else if start + len > 256 {
            Err(EmulatorError::DataOverflow)
        } else {
            Ok(
                EmuState {
                    program,
                    pc: program[3] as u16,
                    ram: Seq::new(
                        256,
                        |i: int|
                            if start <= i < start + len {
                                program[4 + i - start]
                            } else {
                                0u8
                            },
                    ),
                    stack: seq![],
                    f_call_stack: seq![],
                    f_args_stack: seq![],
                    tier1: Seq::new(16, |i: int| 0u8),
                    carry: false,
                    jump_address: 0,
                    halted: false,
                    output: None,
                    input: seq![],
                },
            )
        }
    }
}

impl Emulator {
    pub open spec fn wf(&self) -> bool {
        state_wf(self@)
    }

    /// Loads an image: checks its `copystatic` header, copies the static
    /// data into RAM and sets the program counter to the entry point.
    pub fn new(binary: Vec<u8>) -> (r: Result<Emulator, EmulatorError>)
        ensures
            match r {
                Ok(e) => e.wf() && load_spec(binary@) == Ok::<EmuState, EmulatorError>(e@),
                Err(err) => load_spec(binary@) == Err::<EmuState, EmulatorError>(err),
            },
    {
        let mut ram: Vec<u8> = Vec::new();
        let mut i: usize = 0;
        while i < 256
            invariant
                i <= 256,
                ram@ == Seq::new(i as nat, |k: int| 0u8),
            decreases 256 - i,
        {
            ram.push(0);
            i = i + 1;
            assert(ram@ =~= Seq::new(i as nat, |k: int| 0u8));
        }
        let mut emulator = Emulator {
            program: binary,
            pc: WrappingNum(0),
            ram,
            stack: Vec::new(),
            f_call_stack: Vec::new(),
            f_args_stack: Vec::new(),
            registers: Registers::new(),
            halted: false,
            output: None,
            input: Vec::new(),
        };
        match emulator.parse_header() {
            Ok(()) => {
                assert(emulator@.input =~= Seq::<u8>::empty());
                assert(load_spec(emulator.program@) matches Ok(s) && s =~= emulator@);
                Ok(emulator)
            },
            Err(e) => Err(e),
        }
    }

    fn parse_header(&mut self) -> (r: Result<(), EmulatorError>)
        requires
            old(self).ram@ == Seq::new(256, |k: int| 0u8),
            old(self).pc.0 == 0,
        ensures
            final(self).program == old(self).program,
            final(self).stack == old(self).stack,
            final(self).f_call_stack == old(self).f_call_stack,
            final(self).f_args_stack == old(self).f_args_stack,
            final(self).registers == old(self).registers,
            final(self).halted == old(self).halted,
            final(self).output == old(self).output,
            final(self).input == old(self).input,
            match load_spec(old(self).program@) {
                Ok(s) => r is Ok && final(self).ram@ == s.ram && final(self).pc.0 == s.pc,
                Err(e) => r == Err::<(), EmulatorError>(e),
            },
    {
        if self.program.len() < 4 || self.program[0] != COPY_STATIC_HEADER {
            return Err(EmulatorError::BadHeader);
        }
        let data_len = self.program[1] as usize;
        let mem_start = self.program[2] as usize;
        let entrypoint = self.program[3] as u16;
        if self.program.len() < 4 + data_len {
            return Err(EmulatorError::BadHeader);
        }
        if mem_start + data_len > 256 {
            return Err(EmulatorError::DataOverflow);
        }
        let ghost p = self.program@;
        let mut i: usize = 0;
        while i < data_len
            invariant
                i <= data_len,
                data_len == p[1],
                mem_start == p[2],
                mem_start + data_len <= 256,
                4 + data_len <= p.len(),
                self.program@ == p,
                self.ram@.len() == 256,
                self.stack == old(self).stack,
                self.f_call_stack == old(self).f_call_stack,
                self.f_args_stack == old(self).f_args_stack,
                self.registers == old(self).registers,
                self.halted == old(self).halted,
                self.output == old(self).output,
                self.input == old(self).input,
                self.program == old(self).program,
                forall|k: int|
                    0 <= k < 256 ==> #[trigger] self.ram@[k] == (if mem_start <= k < mem_start + i {
                        p[4 + k - mem_start]
                    } else {
                        0u8
                    }),
            decreases data_len - i,
        {
            let v = self.program[4 + i];
            self.ram.set(mem_start + i, v);
            i = i + 1;
        }
        self.pc = WrappingNum(entrypoint);
        proof {
            let s = load_spec(p)->Ok_0;
            assert(self.ram@ =~= s.ram);
        }
        Ok(())
    }

    /// Supplies the program's input; the first byte given is read first.
    pub fn set_input(&mut self, input: Vec<u8>) -> (r: &mut Self)
        ensures
            (*r)@ == (EmuState { input: input@, ..old(self)@ }),
            *final(self) == *final(r),
            (*r).registers.tier1@.len() == old(self).registers.tier1@.len(),
    {
        let mut rev: Vec<u8> = Vec::new();
        let mut i: usize = input.len();
        while i > 0
            invariant
                i <= input@.len(),
                rev@.len() == input@.len() - i,
                forall|k: int| 0 <= k < rev@.len() ==> rev@[k] == input@[input@.len() - 1 - k],
            decreases i,
        {
            i = i - 1;
            rev.push(input[i]);
        }
        self.input = rev;
        assert(reversed(self.input@) =~= input@);
        self
    }

    fn advance(&mut self)
        ensures
            final(self)@ == advance(old(self)@),
    {
        self.pc.add_assign(4);
    }

    fn fetch_word(&self) -> (r: [u8; 4])
        ensures
            r@ == word_at(self@),
    {
        let pc = self.pc.usize();
        if pc + 4 > self.program.len() {
            let w: [u8; 4] = [0, 0, 0, 0];
            assert(w@ =~= seq![0u8, 0u8, 0u8, 0u8]);
            w
        } else {
            let w: [u8; 4] = [
                self.program[pc],
                self.program[pc + 1],
                self.program[pc + 2],
                self.program[pc + 3],
            ];
            assert(w@ =~= self.program@.subrange(pc as int, pc + 4));
            w
        }
    }

    fn reg_fetch(&mut self, reg: u8) -> (r: u8)
        requires
            old(self).wf(),
        ensures
            final(self).wf(),
            (r, final(self)@) == read_reg(old(self)@, reg),
    {
        if reg <= 11 || reg == 15 {
            self.registers.tier1[reg as usize]
        } else if reg == 12 {
            match self.input.pop() {
                Some(v) => {
                    assert(reversed(self.input@) =~= reversed(old(self).input@).drop_first());
                    v
                },
                None => 0,
            }
        } else if reg == 13 {
            1
        } else {
            0
        }
    }

    fn reg_write(&mut self, reg: u8, n: u8)
        requires
            old(self).wf(),
        ensures
            final(self).wf(),
            final(self)@ == write_reg(old(self)@, reg, n),
    {
        if reg <= 11 || reg == 15 {
            self.registers.tier1.set(reg as usize, n);
        } else if reg == 12 {
            self.output = Some(Output(n));
        }
    }

    /// Executes one instruction. A halted CPU refuses to tick; `div` and
    /// `mod` by zero stop the tick with an error.
    pub fn tick(&mut self) -> (r: Result<(), EmulatorError>)
        requires
            old(self).wf(),
        ensures
            final(self).wf(),
            (r, final(self)@) == tick_spec(old(self)@),
    {
        reveal(tick_spec);
        if self.halted {
            return Err(EmulatorError::AlreadyHalted);
        }
        self.output = None;
        let w = self.fetch_word();
        let code = w[0] % 64;
        match Opcode::from_code(code) {
            None => {
                self.advance();
                return Ok(());
            },
            Some(_) => {},
        }
        let imm1 = w[0] >= 128;
        let imm2 = (w[0] / 64) % 2 == 1;
        let a = if imm1 {
            w[1]
        } else if w[1] >= 16 {
            self.advance();
            return Ok(());
        } else {
            self.reg_fetch(w[1])
        };
        let b = if imm2 {
            w[2]
        } else if w[2] >= 16 {
            self.advance();
            return Ok(());
        } else {
            self.reg_fetch(w[2])
        };
        self.execute(w, code, a, b)
    }

    fn execute(&mut self, w: [u8; 4], code: u8, a: u8, b: u8) -> (r: Result<(), EmulatorError>)
        requires
            old(self).wf(),
            code < 64,
        ensures
            final(self).wf(),
            (r, final(self)@) == execute_spec(old(self)@, w@, code, a, b),
    {
        let family = code / 8;
        let sub = code % 8;
        match OpcodeType::from_family(family) {
            OpcodeType::Compute => {
                let out = alu(code, a, b);
                self.reg_write(w[3], out.out);
                self.registers.carry = out.carry;
            },
            OpcodeType::ConditionalJumping => {
                if jump_condition(code, a, b) {
                    self.pc = WrappingNum(self.registers.jump_address);
                    return Ok(());
                }
            },
            OpcodeType::Memory => {
                if sub == 0 {
                    let v = self.ram[a as usize];
                    self.reg_write(w[2], v);
                } else if sub == 1 {
                    let v = self.reg_fetch(w[2]);
                    self.ram.set(a as usize, v);
                }
            },
            OpcodeType::Stack => {
                if sub == 0 {
                    self.stack.push(a);
                } else if sub == 1 {
                    let v = match self.stack.pop() {
                        Some(v) => v,
                        None => 0,
                    };
                    self.reg_write(w[1], v);
                }
            },
            OpcodeType::Functions => {
                if sub == 0 {
                    let ret = ((self.pc.0 as u32 + 4) % 65536) as u16;
                    self.f_call_stack.push(ret);
                    self.pc = WrappingNum(w[2] as u16 + 256 * (w[3] as u16));
                    return Ok(());
                } else if sub == 1 {
                    let addr = match self.f_call_stack.pop() {
                        Some(x) => x,
                        None => 0,
                    };
                    self.pc = WrappingNum(addr);
                    return Ok(());
                } else if sub == 2 {
                    self.f_args_stack.push(a);
                } else if sub == 3 {
                    let v = match self.f_args_stack.pop() {
                        Some(v) => v,
                        None => 0,
                    };
                    self.reg_write(w[1], v);
                }
            },
            OpcodeType::Shifts => {
                let v = shift(code, a, b);
                self.reg_write(w[3], v);
            },
            OpcodeType::ArithmeticSupplementary => {
                if sub == 0 || sub == 1 {
                    if b == 0 {
                        return Err(EmulatorError::DivisionByZero);
                    }
                    let v = if sub == 0 {
                        a / b
                    } else {
                        a % b
                    };
                    self.reg_write(w[3], v);
                } else if sub == 2 {
                    let c = self.registers.carry_u8();
                    let s1: u16 = a as u16 + b as u16;
                    let r1: u16 = s1 % 256;
                    let s2: u16 = r1 + c as u16;
                    self.reg_write(w[3], (s2 % 256) as u8);
                    self.registers.carry = s1 >= 256 || s2 >= 256;
                } else if sub == 3 {
                    self.reg_write(w[3], ((a as u16 + b as u16) % 256) as u8);
                } else if sub == 4 {
                    self.reg_write(w[3], ((a as u16 + 256 - b as u16) % 256) as u8);
                } else if sub == 5 {
                    let c = self.registers.carry_u8();
                    self.reg_write(w[3], c);
                }
            },
            OpcodeType::Miscellaneous => {
                if sub == 2 {
                    self.halted = true;
                } else if sub == 3 {
                    self.reg_write(w[3], a);
                } else if sub == 4 {
                    self.registers.jump_address = w[2] as u16 + 256 * (w[3] as u16);
                }
            },
        }
        self.advance();
        Ok(())
    }

    /// Ticks until `halt` (at most `u64::MAX` times) and returns the bytes
    /// written to the output register, in order.
    pub fn run_to_halt(&mut self) -> (r: Result<Vec<u8>, EmulatorError>)
        requires
            old(self).wf(),
        ensures
            final(self).wf(),
            final(self)@ == run_spec(old(self)@, max_ticks()).1,
            match r {
                Ok(v) => run_spec(old(self)@, max_ticks()).0 == Ok::<Seq<u8>, EmulatorError>(v@),
                Err(e) => run_spec(old(self)@, max_ticks()).0 == Err::<Seq<u8>, EmulatorError>(e),
            },
    {
        let mut output: Vec<u8> = Vec::new();
        let mut left: u64 = u64::MAX;
        let ghost s0 = self@;
        while left > 0
            invariant
                self.wf(),
                s0 == old(self)@,
                run_spec(s0, max_ticks()).1 == run_spec(self@, left as nat).1,
                run_spec(s0, max_ticks()).0 == (match run_spec(self@, left as nat).0 {
                    Ok(o) => Ok(output@ + o),
                    Err(e) => Err::<Seq<u8>, EmulatorError>(e),
                }),
            decreases left,
        {
            let ghost before = self@;
            let ticked = self.tick();
            match ticked {
                Err(e) => {
                    assert(run_spec(before, left as nat) == (
                        Err::<Seq<u8>, EmulatorError>(e),
                        self@,
                    ));
                    return Err(e);
                },
                Ok(()) => {},
            }
            if self.halted {
                assert(run_spec(before, left as nat) == (Ok::<Seq<u8>, EmulatorError>(seq![]), self@));
                assert(output@ + seq![] =~= output@);
                return Ok(output);
            }
            let ghost prev_out = output@;
            match self.output {
                Some(x) => {
                    output.push(x.0);
                },
                None => {},
            }
            left = left - 1;
            proof {
                match run_spec(self@, left as nat).0 {
                    Ok(o) => {
                        assert(output@ + o =~= prev_out + (match self@.output {
                            Some(x) => seq![x],
                            None => seq![],
                        } + o));
                    },
                    Err(_) => {},
                }
            }
        }
        assert(output@ + seq![] =~= output@);
        Ok(output)
    }
}

/// The state after `n` ticks.
pub open spec fn ticks(s: EmuState, n: nat) -> EmuState
    decreases n,
{
    if n == 0 {
        s
    } else {
        ticks(tick_spec(s).1, (n - 1) as nat)
    }
}

proof fn lemma_ticks_succ(s: EmuState, n: nat)
    ensures
        ticks(s, n + 1) == tick_spec(ticks(s, n)).1,
    decreases n,
{
    assert(ticks(s, n + 1) == ticks(tick_spec(s).1, n));
    if n > 0 {
        lemma_ticks_succ(tick_spec(s).1, (n - 1) as nat);
        assert(ticks(s, n) == ticks(tick_spec(s).1, (n - 1) as nat));
    }
}

/// The state in which a program starts on the given input, if the image is
/// accepted.
pub open spec fn started(program: Seq<u8>, input: Seq<u8>) -> Option<EmuState> {
    match load_spec(program) {
        Ok(s) => Some(EmuState { input, ..s }),
        Err(_) => None,
    }
}

/// Two runs of one program on one input produce the same output and end
/// with the same RAM.
pub proof fn lemma_run_deterministic(program: Seq<u8>, input: Seq<u8>, a: EmuState, b: EmuState)
    requires
        started(program, input) == Some(a),
        started(program, input) == Some(b),
    ensures
        run_spec(a, max_ticks()).0 == run_spec(b, max_ticks()).0,
        run_spec(a, max_ticks()).1.ram == run_spec(b, max_ticks()).1.ram,
{
}

/// The word at `pc + 4 * i` of the program.
pub open spec fn word_at_index(s: EmuState, i: int) -> Seq<u8> {
    s.program.subrange(s.pc + 4 * i, s.pc + 4 * i + 4)
}

proof fn lemma_push_phase(s: EmuState, vs: Seq<u8>, j: nat)
    requires
        state_wf(s),
        !s.halted,
        j <= vs.len(),
        s.pc + 4 * vs.len() <= s.program.len(),
        s.pc + 4 * vs.len() <= 65535,
        forall|i: int|
            0 <= i < vs.len() ==> #[trigger] word_at_index(s, i) == encode(
                Opcode::Push,
                seq![Operand::Immediate(vs[i])],
            ),
    ensures
        ticks(s, j).pc == s.pc + 4 * j,
        ticks(s, j).stack == s.stack + vs.take(j as int),
        ticks(s, j).program == s.program,
        ticks(s, j).tier1 == s.tier1,
        ticks(s, j).ram == s.ram,
        !ticks(s, j).halted,
    decreases j,
{
    if j == 0 {
        assert(s.stack + vs.take(0) =~= s.stack);
    } else {
        lemma_push_phase(s, vs, (j - 1) as nat);
        lemma_ticks_succ(s, (j - 1) as nat);
        let t = ticks(s, (j - 1) as nat);
        let w = word_at(EmuState { output: None, ..t });
        assert(w == word_at_index(s, j - 1));
        assert(w == encode(Opcode::Push, seq![Operand::Immediate(vs[j - 1])]));
        assert(w[0] == 176);
        reveal(tick_spec);
        assert(s.stack + vs.take(j as int) =~= (s.stack + vs.take(j - 1)).push(vs[j - 1]));
    }
}

proof fn lemma_pop_phase(s: EmuState, vs: Seq<u8>, rs: Seq<OperandSymbol>, j: nat)
    requires
        state_wf(s),
        !s.halted,
        vs.len() == rs.len(),
        j <= vs.len(),
        s.pc + 8 * vs.len() <= s.program.len(),
        s.pc + 8 * vs.len() <= 65535,
        forall|i: int|
            0 <= i < vs.len() ==> #[trigger] word_at_index(s, i) == encode(
                Opcode::Push,
                seq![Operand::Immediate(vs[i])],
            ),
        forall|i: int|
            vs.len() <= i < 2 * vs.len() ==> #[trigger] word_at_index(s, i) == encode(
                Opcode::Pop,
                seq![Operand::Symbol(rs[i - vs.len()])],
            ),
        forall|i: int| 0 <= i < rs.len() ==> symbol_index(#[trigger] rs[i]) <= 11,
    ensures
        ticks(s, vs.len() + j).pc == s.pc + 4 * (vs.len() + j),
        ticks(s, vs.len() + j).stack == s.stack + vs.take(vs.len() - j),
        ticks(s, vs.len() + j).program == s.program,
        ticks(s, vs.len() + j).tier1.len() == 16,
        !ticks(s, vs.len() + j).halted,
        j > 0 ==> ticks(s, vs.len() + j).tier1[symbol_index(rs[j - 1]) as int] == vs[vs.len() - j],
    decreases j,
{
    let n = vs.len();
    if j == 0 {
        lemma_push_phase(s, vs, n);
        assert(vs.take(n as int) =~= vs);
    } else {
        lemma_pop_phase(s, vs, rs, (j - 1) as nat);
        lemma_ticks_succ(s, (n + j - 1) as nat);
        let t = ticks(s, (n + j - 1) as nat);
        let w = word_at(EmuState { output: None, ..t });
        assert(w == word_at_index(s, n + j - 1));
        assert(w == encode(Opcode::Pop, seq![Operand::Symbol(rs[j - 1])]));
        assert(w[0] == 49);
        assert(w[1] == symbol_index(rs[j - 1]));
        reveal(tick_spec);
        let st = s.stack + vs.take(n - j + 1);
        assert(st.last() == vs[n - j]);
        assert(st.drop_last() =~= s.stack + vs.take(n - j));
    }
}

/// Pushing the bytes `vs[0], ..., vs[n-1]` and then popping `n` times hands
/// them out in reverse order: the `k`-th pop puts `vs[n-k]` into its
/// register, and the stack is as before.
pub proof fn lemma_stack_discipline(s: EmuState, vs: Seq<u8>, rs: Seq<OperandSymbol>, k: nat)
    requires
        state_wf(s),
        !s.halted,
        vs.len() == rs.len(),
        1 <= k <= vs.len(),
        s.pc + 8 * vs.len() <= s.program.len(),
        s.pc + 8 * vs.len() <= 65535,
        forall|i: int|
            0 <= i < vs.len() ==> #[trigger] word_at_index(s, i) == encode(
                Opcode::Push,
                seq![Operand::Immediate(vs[i])],
            ),
        forall|i: int|
            vs.len() <= i < 2 * vs.len() ==> #[trigger] word_at_index(s, i) == encode(
                Opcode::Pop,
                seq![Operand::Symbol(rs[i - vs.len()])],
            ),
        forall|i: int| 0 <= i < rs.len() ==> symbol_index(#[trigger] rs[i]) <= 11,
    ensures
        ticks(s, vs.len() + k).tier1[symbol_index(rs[k - 1]) as int] == vs[vs.len() - k],
        ticks(s, 2 * vs.len()).stack == s.stack,
{
    lemma_pop_phase(s, vs, rs, k);
    lemma_pop_phase(s, vs, rs, vs.len());
    assert(vs.take(0) =~= Seq::<u8>::empty());
    assert(s.stack + Seq::<u8>::empty() =~= s.stack);
}

/// The bytes that `n` successive reads of the input register return.
pub open spec fn read_inputs(s: EmuState, n: nat) -> Seq<u8>
    decreases n,
{
    if n == 0 {
        seq![]
    } else {
        let (v, t) = read_reg(s, 12);
        seq![v] + read_inputs(t, (n - 1) as nat)
    }
}

/// Successive reads of the input register return the input bytes in the
/// order in which they were supplied, then zeros.
pub proof fn lemma_input_order(s: EmuState, n: nat)
    ensures
        n <= s.input.len() ==> read_inputs(s, n) == s.input.take(n as int),
        n > s.input.len() ==> read_inputs(s, n) == s.input + Seq::new(
            (n - s.input.len()) as nat,
            |i: int| 0u8,
        ),
    decreases n,
{
    if n > 0 {
        let t = read_reg(s, 12).1;
        lemma_input_order(t, (n - 1) as nat);
        if s.input.len() > 0 {
            assert(read_inputs(s, n) =~= (if n <= s.input.len() {
                s.input.take(n as int)
            } else {
                s.input + Seq::new((n - s.input.len()) as nat, |i: int| 0u8)
            }));
        } else {
            assert(read_inputs(s, n) =~= Seq::new(n, |i: int| 0u8));
            assert(s.input + Seq::new(n, |i: int| 0u8) =~= Seq::new(n, |i: int| 0u8));
        }
    } else {
        assert(s.input.take(0) =~= Seq::<u8>::empty());
    }
}

/// A program whose words from the program counter on are `cp c out` for
/// each byte `c` of `cs`, then `halt`, outputs exactly `cs`, in order.
pub proof fn lemma_output_order(s: EmuState, cs: Seq<u8>, fuel: nat)
    requires
        state_wf(s),
        !s.halted,
        fuel > cs.len(),
        s.pc + 4 * cs.len() + 4 <= s.program.len(),
        s.pc + 4 * cs.len() + 4 <= 65535,
        forall|i: int|
            0 <= i < cs.len() ==> #[trigger] word_at_index(s, i) == encode(
                Opcode::Copy,
                seq![Operand::Immediate(cs[i]), Operand::Symbol(OperandSymbol::InOut)],
            ),
        word_at_index(s, cs.len() as int) == encode(Opcode::Halt, seq![]),
    ensures
        run_spec(s, fuel).0 == Ok::<Seq<u8>, EmulatorError>(cs),
    decreases cs.len(),
{
    reveal(tick_spec);
    let w = word_at(EmuState { output: None, ..s });
    assert(w == word_at_index(s, 0));
    if cs.len() == 0 {
        assert(w == encode(Opcode::Halt, seq![]));
        assert(w[0] == 2);
        assert(tick_spec(s).1.halted);
        assert(cs =~= Seq::<u8>::empty());
    } else {
        assert(w == encode(
            Opcode::Copy,
            seq![Operand::Immediate(cs[0]), Operand::Symbol(OperandSymbol::InOut)],
        ));
        assert(w[0] == 131);
        assert(w[3] == 12);
        let t = tick_spec(s).1;
        assert(t.output == Some(cs[0]));
        assert(t.pc == s.pc + 4);
        assert forall|i: int| 0 <= i < cs.drop_first().len() implies #[trigger] word_at_index(t, i)
            == encode(
            Opcode::Copy,
            seq![Operand::Immediate(cs.drop_first()[i]), Operand::Symbol(OperandSymbol::InOut)],
        ) by {
            assert(word_at_index(t, i) =~= word_at_index(s, i + 1));
        }
        assert(word_at_index(t, cs.drop_first().len() as int) =~= word_at_index(s, cs.len() as int));
        lemma_output_order(t, cs.drop_first(), (fuel - 1) as nat);
        assert(tick_spec(s).0 is Ok);
        assert(!t.halted);
        assert(run_spec(s, fuel).0 == Ok::<Seq<u8>, EmulatorError>(
            seq![cs[0]] + cs.drop_first(),
        ));
        assert(seq![cs[0]] + cs.drop_first() =~= cs);
    }
}

/// The bytes written to the output register by the first `n` ticks, in
/// order.
pub open spec fn outputs_upto(s: EmuState, n: nat) -> Seq<u8>
    decreases n,
{
    if n == 0 {
        seq![]
    } else {
        let t = tick_spec(s).1;
        (match t.output {
            Some(x) => seq![x],
            None => seq![],
        }) + outputs_upto(t, (n - 1) as nat)
    }
}

/// A run whose first `m` ticks succeed without halting and whose next tick
/// halts returns exactly the bytes that those `m` ticks wrote to the output
/// register: one per write, in the order of execution.
pub proof fn lemma_run_outputs(s: EmuState, m: nat, fuel: nat)
    requires
        fuel > m,
        forall|k: nat| k <= m ==> (#[trigger] tick_spec(ticks(s, k))).0 is Ok,
        forall|k: nat| 1 <= k <= m ==> !(#[trigger] ticks(s, k)).halted,
        ticks(s, m + 1).halted,
    ensures
        run_spec(s, fuel).0 == Ok::<Seq<u8>, EmulatorError>(outputs_upto(s, m)),
    decreases m,
{
    let t = tick_spec(s).1;
    assert(ticks(s, 0) == s);
    assert(tick_spec(ticks(s, 0)).0 is Ok);
    assert(ticks(s, 1) == ticks(t, 0));
    if m == 0 {
        assert(t.halted);
    } else {
        assert(!ticks(s, 1).halted);
        assert forall|k: nat| k <= m - 1 implies (#[trigger] tick_spec(ticks(t, k))).0 is Ok by {
            assert(ticks(s, k + 1) == ticks(t, k));
            assert(tick_spec(ticks(s, k + 1)).0 is Ok);
        }
        assert forall|k: nat| 1 <= k <= m - 1 implies !(#[trigger] ticks(t, k)).halted by {
            assert(ticks(s, k + 1) == ticks(t, k));
            assert(!ticks(s, k + 1).halted);
        }
        assert(ticks(s, m + 1) == ticks(t, m));
        lemma_run_outputs(t, (m - 1) as nat, (fuel - 1) as nat);
    }
}

/// `b` is what is left of `a` once some bytes were taken from its front.
pub open spec fn taken_from_front(a: Seq<u8>, b: Seq<u8>) -> bool {
    b.len() <= a.len() && b == a.skip(a.len() - b.len())
}

proof fn lemma_read_reg_input(s: EmuState, r: u8)
    ensures
        taken_from_front(s.input, read_reg(s, r).1.input),
        read_reg(s, r).1.stack == s.stack,
        read_reg(s, r).1.tier1 == s.tier1,
        r == 12 && s.input.len() > 0 ==> read_reg(s, r).0 == s.input[0]
            && read_reg(s, r).1.input == s.input.drop_first(),
        r != 12 ==> read_reg(s, r).1 == s,
{
    assert(s.input.skip(0) =~= s.input);
    if r == 12 && s.input.len() > 0 {
        assert(s.input.skip(1) =~= s.input.drop_first());
    }
}

proof fn lemma_taken_trans(a: Seq<u8>, b: Seq<u8>, c: Seq<u8>)
    requires
        taken_from_front(a, b),
        taken_from_front(b, c),
    ensures
        taken_from_front(a, c),
{
    assert(c =~= a.skip(a.len() - c.len()));
}

proof fn lemma_execute_input(s: EmuState, w: Seq<u8>, code: u8, a: u8, b: u8)
    ensures
        taken_from_front(s.input, execute_spec(s, w, code, a, b).1.input),
{
    assert(s.input.skip(0) =~= s.input);
    lemma_read_reg_input(s, w[2]);
}

/// A tick takes input only from the front of the queue, oldest byte first;
/// a read of the input register with input left yields its first byte and
/// removes exactly that byte.
#[verifier::rlimit(40)]
pub proof fn lemma_tick_input(s: EmuState)
    requires
        state_wf(s),
    ensures
        taken_from_front(s.input, tick_spec(s).1.input),
{
    reveal(tick_spec);
    let s0 = EmuState { output: None, ..s };
    let w = word_at(s0);
    assert(taken_from_front(s.input, s.input)) by {
        assert(s.input.skip(0) =~= s.input);
    }
    if !s.halted && opcode_from_code((w[0] % 64) as u8) is Some {
        lemma_read_reg_input(s0, w[1]);
        match read_operand(s0, w, w[0] >= 128, 1) {
            None => {},
            Some((a, s1)) => {
                lemma_read_reg_input(s1, w[2]);
                match read_operand(s1, w, (w[0] / 64) % 2 == 1, 2) {
                    None => {},
                    Some((b, s2)) => {
                        assert(s1.input.skip(0) =~= s1.input);
                        lemma_taken_trans(s.input, s1.input, s2.input);
                        let code = (w[0] % 64) as u8;
                        lemma_execute_input(s2, w, code, a, b);
                        assert(tick_spec(s).1 == execute_spec(s2, w, code, a, b).1);
                        lemma_taken_trans(
                            s.input,
                            s2.input,
                            execute_spec(s2, w, code, a, b).1.input,
                        );
                    },
                }
            },
        }
    }
}

/// A tick changes the data stack only through `push`, which puts one byte
/// on top, and `pop`, which takes the top byte off and writes it to the
/// register named by byte 1: last in, first out. Every other instruction
/// leaves the stack as it is.
pub proof fn lemma_tick_stack(s: EmuState)
    requires
        state_wf(s),
        !s.halted,
    ensures
        ({
            let w = word_at(EmuState { output: None, ..s });
            let op = opcode_from_code((w[0] % 64) as u8);
            let t = tick_spec(s).1;
            &&& op != Some(Opcode::Push) && op != Some(Opcode::Pop) ==> t.stack == s.stack
            &&& op == Some(Opcode::Push) ==> t.stack == s.stack || (t.stack.len() == s.stack.len()
                + 1 && t.stack.drop_last() == s.stack)
            &&& op == Some(Opcode::Pop) ==> t.stack == s.stack || (s.stack.len() > 0 && t.stack
                == s.stack.drop_last() && (w[1] <= 11 ==> t.tier1[w[1] as int]
                == s.stack.last()))
        }),
{
    reveal(tick_spec);
    let s0 = EmuState { output: None, ..s };
    let w = word_at(s0);
    lemma_read_reg_input(s0, w[1]);
    match read_operand(s0, w, w[0] >= 128, 1) {
        None => {},
        Some((a, s1)) => {
            lemma_read_reg_input(s1, w[2]);
            match read_operand(s1, w, (w[0] / 64) % 2 == 1, 2) {
                None => {},
                Some((b, s2)) => {
                    lemma_read_reg_input(s2, w[2]);
                },
            }
        },
    }
}

} // verus!
