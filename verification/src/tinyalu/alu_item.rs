//! TinyALU transactions and the golden model the scoreboard predicts with.

use vstd::prelude::*;

verus! {

/// The ALU's operations, with their opcodes 1 to 4.
#[derive(Copy, Clone, Debug, PartialEq, Eq, Structural, Hash)]
pub enum Ops {
    Add,
    And,
    Xor,
    Mul,
}

/// The opcode of an operation.
pub open spec fn opcode(op: Ops) -> u64 {
    match op {
        Ops::Add => 1,
        Ops::And => 2,
        Ops::Xor => 3,
        Ops::Mul => 4,
    }
}

impl Ops {
    /// Every operation, in opcode order.
    pub fn all() -> (ops: [Ops; 4])
        ensures
            ops@ == seq![Ops::Add, Ops::And, Ops::Xor, Ops::Mul],
    {
        [Ops::Add, Ops::And, Ops::Xor, Ops::Mul]
    }

    pub fn as_u64(self) -> (v: u64)
        ensures
            v == opcode(self),
    {
        match self {
            Ops::Add => 1,
            Ops::And => 2,
            Ops::Xor => 3,
            Ops::Mul => 4,
        }
    }

    /// The operation with opcode `v`; `None` for any other number.
    pub fn from_u64(v: u64) -> (r: Option<Ops>)
        ensures
            r == decode(v),
    {
        if v == 1 {
            Some(Ops::Add)
        } else if v == 2 {
            Some(Ops::And)
        } else if v == 3 {
            Some(Ops::Xor)
        } else if v == 4 {
            Some(Ops::Mul)
        } else {
            None
        }
    }
}

/// The operation an opcode names, if any.
pub open spec fn decode(v: u64) -> Option<Ops> {
    if v == 1 {
        Some(Ops::Add)
    } else if v == 2 {
        Some(Ops::And)
    } else if v == 3 {
        Some(Ops::Xor)
    } else if v == 4 {
        Some(Ops::Mul)
    } else {
        None
    }
}

/// Decoding an operation's opcode gives the operation back, and only the
/// four opcodes decode.
pub proof fn law_opcode_round_trip(op: Ops, v: u64)
    ensures
        decode(opcode(op)) == Some(op),
        decode(v) is Some <==> 1 <= v <= 4,
{
}

#[derive(Copy, Clone, Debug, PartialEq, Eq, Structural)]
pub struct AluCommand {
    pub a: u8,
    pub b: u8,
    pub op: Ops,
}

#[derive(Copy, Clone, Debug, PartialEq, Eq, Structural)]
pub struct AluResult {
    pub result: u16,
}

/// The result TinyALU produces: the single-cycle operations zero-extend
/// their operands to 16 bits, and the multiply is a plain 8x8 to 16.
pub open spec fn spec_predict(cmd: AluCommand) -> u16 {
    let a = cmd.a as u16;
    let b = cmd.b as u16;
    match cmd.op {
        Ops::Add => (a + b) as u16,
        Ops::And => a & b,
        Ops::Xor => a ^ b,
        Ops::Mul => (a * b) as u16,
    }
}

/// The golden model (the scoreboard's predictor).
pub fn predict(cmd: &AluCommand) -> (r: AluResult)
    ensures
        r.result == spec_predict(*cmd),
        cmd.op is Add ==> r.result == cmd.a + cmd.b,
        cmd.op is Mul ==> r.result == cmd.a * cmd.b,
        cmd.op is And ==> r.result == (cmd.a as u16) & (cmd.b as u16),
        cmd.op is Xor ==> r.result == (cmd.a as u16) ^ (cmd.b as u16),
{
    let a = cmd.a as u16;
    let b = cmd.b as u16;
    let result = match cmd.op {
        Ops::Add => a + b,
        Ops::And => a & b,
        Ops::Xor => a ^ b,
        Ops::Mul => {
            assert(a * b <= 255 * 255) by (nonlinear_arith)
                requires
                    a <= 255,
                    b <= 255,
            ;
            a * b
        },
    };
    AluResult { result }
}

/// The AND prediction is bitwise: each of the result's bits is set exactly
/// when both operands have it, and none above the operands' eight; so an
/// operand AND itself, or AND all ones, is that operand, and the order of
/// the operands does not matter.
pub proof fn law_and_is_bitwise(cmd: AluCommand, swapped: AluCommand, k: u16)
    requires
        cmd.op is And,
        swapped.op is And,
        swapped.a == cmd.b,
        swapped.b == cmd.a,
        k < 16,
    ensures
        ((spec_predict(cmd) >> k) & 1 == 1) <==> (k < 8 && ((cmd.a as u16 >> k) & 1 == 1) && ((
            cmd.b as u16 >> k) & 1 == 1)),
        cmd.b == cmd.a ==> spec_predict(cmd) == cmd.a as u16,
        cmd.b == 0xff ==> spec_predict(cmd) == cmd.a as u16,
        spec_predict(swapped) == spec_predict(cmd),
{
    let x = cmd.a as u16;
    let y = cmd.b as u16;
    let r = spec_predict(cmd);
    assert(((r >> k) & 1 == 1) <==> (k < 8 && ((x >> k) & 1 == 1) && ((y >> k) & 1 == 1))) by (bit_vector)
        requires
            r == x & y,
            x <= 0xff,
            y <= 0xff,
            k < 16,
    ;
    assert(x & x == x) by (bit_vector);
    assert(x & 0xff == x) by (bit_vector)
        requires
            x <= 0xff,
    ;
    assert(x & y == y & x) by (bit_vector);
}

/// The XOR prediction is bitwise: a bit is set exactly when the operands
/// differ there; an operand XOR itself is zero and XOR zero is itself.
pub proof fn law_xor_is_bitwise(cmd: AluCommand, k: u16)
    requires
        cmd.op is Xor,
        k < 16,
    ensures
        ((spec_predict(cmd) >> k) & 1 == 1) <==> (((cmd.a as u16 >> k) & 1 == 1) != ((cmd.b as u16
            >> k) & 1 == 1)),
        cmd.b == cmd.a ==> spec_predict(cmd) == 0,
        cmd.b == 0 ==> spec_predict(cmd) == cmd.a as u16,
{
    let x = cmd.a as u16;
    let y = cmd.b as u16;
    let r = spec_predict(cmd);
    assert(((r >> k) & 1 == 1) <==> (((x >> k) & 1 == 1) != ((y >> k) & 1 == 1))) by (bit_vector)
        requires
            r == x ^ y,
            k < 16,
    ;
    assert(x ^ x == 0) by (bit_vector);
    assert(x ^ 0 == x) by (bit_vector);
}

/// The ADD and MUL predictions are the arithmetic sum and product, which
/// always fit in the 16-bit result.
pub proof fn law_add_and_mul_are_arithmetic(cmd: AluCommand)
    ensures
        cmd.op is Add ==> spec_predict(cmd) == cmd.a + cmd.b,
        cmd.op is Mul ==> spec_predict(cmd) == cmd.a * cmd.b,
{
    let a = cmd.a;
    let b = cmd.b;
    assert(a * b <= 255 * 255) by (nonlinear_arith)
        requires
            a <= 255,
            b <= 255,
    ;
}

} // verus!