//! Pure byte-level building blocks of the CPU: the ALU, the jump-condition
//! evaluator and the shifter.
use vstd::prelude::*;

verus! {

/// Two's-complement negation of a byte, computed in 8 bits.
pub open spec fn neg_spec(n: u8) -> u8 {
    ((256 - n as int) % 256) as u8
}

/// What the ALU computes for an opcode (only its low 3 bits matter) and
/// two operands: the result byte and the carry-out. Subtraction adds the
/// two's complement of the second operand; its carry means no borrow, so it
/// is set exactly when the first operand is at least the second.
pub open spec fn alu_spec(opcode: u8, n1: u8, n2: u8) -> (u8, bool) {
    let sub = opcode % 8;
    if sub == 0 {
        (((n1 + n2) % 256) as u8, n1 + n2 >= 256)
    } else if sub == 1 {
        (((n1 - n2 + 256) % 256) as u8, n1 >= n2)
    } else if sub == 2 {
        (n1 & n2, false)
    } else if sub == 3 {
        (n1 | n2, false)
    } else if sub == 4 {
        (!n1, false)
    } else if sub == 5 {
        (n1 ^ n2, false)
    } else if sub == 6 {
        (((n1 * n2) % 16) as u8, false)
    } else {
        ((((n1 * n2) / 16) % 256) as u8, false)
    }
}

/// The base relation selected by the low two bits of a condition code,
/// inverted when bit 2 is set.
pub open spec fn jump_condition_spec(opcode: u8, n1: u8, n2: u8) -> bool {
    let cond = opcode % 8;
    let base = if cond % 4 == 0 {
        false
    } else if cond % 4 == 1 {
        n1 == n2
    } else if cond % 4 == 2 {
        n1 < n2
    } else {
        n1 <= n2
    };
    if cond >= 4 {
        !base
    } else {
        base
    }
}

/// Logical shift left by `k` bits; every bit leaves once `k >= 8`.
pub open spec fn shl_spec(n: u8, k: nat) -> u8 {
    if k >= 8 {
        0
    } else {
        ((n as nat * pow2(k)) % 256) as u8
    }
}

/// Logical shift right by `k` bits.
pub open spec fn shr_spec(n: u8, k: nat) -> u8 {
    if k >= 8 {
        0
    } else {
        (n as nat / pow2(k)) as u8
    }
}

pub open spec fn pow2(k: nat) -> nat
    decreases k,
{
    if k == 0 {
        1
    } else {
        2 * pow2((k - 1) as nat)
    }
}

/// The shifter: subtypes 0 and 1 shift by the full count, 2 and 3 by the
/// count reduced modulo 8; other subtypes leave the operand as it is.
pub open spec fn shift_spec(opcode: u8, n1: u8, n2: u8) -> u8 {
    let sub = opcode % 8;
    if sub == 0 {
        shl_spec(n1, n2 as nat)
    } else if sub == 1 {
        shr_spec(n1, n2 as nat)
    } else if sub == 2 {
        shl_spec(n1, (n2 % 8) as nat)
    } else if sub == 3 {
        shr_spec(n1, (n2 % 8) as nat)
    } else {
        n1
    }
}

fn neg(n: u8) -> (r: u8)
    ensures
        r == neg_spec(n),
{
    if n == 0 {
        0
    } else {
        (256 - n as u16) as u8
    }
}

/// The 16-bit product of two bytes, split as (low four bits, product >> 4).
fn u8_multiply(n1: u8, n2: u8) -> (r: (u8, u8))
    ensures
        r.0 == (n1 * n2) % 16,
        r.1 == ((n1 * n2) / 16) % 256,
{
    assert(n1 * n2 <= 255 * 255) by (nonlinear_arith)
        requires
            n1 <= 255,
            n2 <= 255,
    ;
    let product: u16 = n1 as u16 * n2 as u16;
    let low = (product % 16) as u8;
    let high = ((product / 16) % 256) as u8;
    (low, high)
}

#[derive(Debug, Clone, Copy, PartialEq, Eq)]
pub struct AluOutput {
    pub out: u8,
    pub carry: bool,
}

/// Runs the ALU operation selected by the low 3 bits of `opcode`.
pub fn alu(opcode: u8, n1: u8, n2: u8) -> (r: AluOutput)
    ensures
        (r.out, r.carry) == alu_spec(opcode, n1, n2),
{
    let low3 = opcode % 8;
    if low3 == 0 {
        let s: u16 = n1 as u16 + n2 as u16;
        AluOutput { out: (s % 256) as u8, carry: s >= 256 }
    } else if low3 == 1 {
        let s: u16 = n1 as u16 + neg(n2) as u16;
        AluOutput { out: (s % 256) as u8, carry: n1 >= n2 }
    } else if low3 == 2 {
        AluOutput { out: n1 & n2, carry: false }
    } else if low3 == 3 {
        AluOutput { out: n1 | n2, carry: false }
    } else if low3 == 4 {
        AluOutput { out: !n1, carry: false }
    } else if low3 == 5 {
        AluOutput { out: n1 ^ n2, carry: false }
    } else if low3 == 6 {
        AluOutput { out: u8_multiply(n1, n2).0, carry: false }
    } else {
        AluOutput { out: u8_multiply(n1, n2).1, carry: false }
    }
}

/// Evaluates the condition of a conditional jump on two unsigned bytes.
pub fn jump_condition(opcode: u8, n1: u8, n2: u8) -> (r: bool)
    ensures
        r == jump_condition_spec(opcode, n1, n2),
{
    let cond = opcode % 8;
    let not_bit = cond >= 4;
    let base = cond % 4;
    let mut out = if base == 0 {
        false
    } else if base == 1 {
        n1 == n2
    } else if base == 2 {
        n1 < n2
    } else {
        n1 <= n2
    };
    if not_bit {
        out = !out;
    }
    out
}

fn shl_by(n: u8, k: u8) -> (r: u8)
    ensures
        r == shl_spec(n, k as nat),
{
    let mut v: u16 = n as u16;
    let mut i: u8 = 0;
    if k >= 8 {
        return 0;
    }
    assert(pow2(0) == 1);
    while i < k
        invariant
            i <= k < 8,
            v < 256,
            v == (n as nat * pow2(i as nat)) % 256,
        decreases k - i,
    {
        assert(((n as nat * pow2(i as nat)) % 256) * 2 % 256 == (n as nat * pow2((i + 1) as nat)) % 256) by {
            assert(pow2((i + 1) as nat) == 2 * pow2(i as nat));
            let p = pow2(i as nat);
            assert(n as nat * (2 * p) == (n as nat * p) * 2) by (nonlinear_arith);
            vstd::arithmetic::div_mod::lemma_mul_mod_noop_left((n as nat * p) as int, 2, 256);
        }
        v = (v * 2) % 256;
        i = i + 1;
    }
    v as u8
}

fn shr_by(n: u8, k: u8) -> (r: u8)
    ensures
        r == shr_spec(n, k as nat),
{
    let mut v: u8 = n;
    let mut i: u8 = 0;
    if k >= 8 {
        return 0;
    }
    assert(pow2(0) == 1);
    while i < k
        invariant
            i <= k < 8,
            v == n as nat / pow2(i as nat),
        decreases k - i,
    {
        assert(pow2(i as nat) > 0) by {
            lemma_pow2_pos(i as nat);
        }
        assert((n as nat / pow2(i as nat)) / 2 == n as nat / pow2((i + 1) as nat)) by {
            vstd::arithmetic::div_mod::lemma_div_denominator(n as int, pow2(i as nat) as int, 2);
        }
        v = v / 2;
        i = i + 1;
    }
    v
}

proof fn lemma_pow2_pos(k: nat)
    ensures
        pow2(k) > 0,
    decreases k,
{
    if k > 0 {
        lemma_pow2_pos((k - 1) as nat);
    }
}

/// Runs the shifter selected by the low 3 bits of `opcode`.
pub fn shift(opcode: u8, n1: u8, n2: u8) -> (r: u8)
    ensures
        r == shift_spec(opcode, n1, n2),
{
    let sub = opcode % 8;
    if sub == 0 {
        shl_by(n1, n2)
    } else if sub == 1 {
        shr_by(n1, n2)
    } else if sub == 2 {
        shl_by(n1, n2 % 8)
    } else if sub == 3 {
        shr_by(n1, n2 % 8)
    } else {
        n1
    }
}

/// Adding sets the carry exactly when the true sum leaves the byte range;
/// subtracting sets it exactly when no borrow is needed.
pub proof fn lemma_alu_carry(a: u8, b: u8)
    ensures
        alu_spec(0, a, b).1 <==> a + b >= 256,
        alu_spec(1, a, b).1 <==> a >= b,
        alu_spec(0, a, b).0 == (a + b) % 256,
        alu_spec(1, a, b).0 == (a - b) % 256,
{
}

} // verus!
