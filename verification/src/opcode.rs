//! Bytecode opcodes and the encoding of 32-bit instructions.
//!
//! Every instruction is one 32-bit word, least significant byte first:
//!
//! - `iABC`:  `[opcode:8][A:8][B:8][C:8]`, three operands;
//! - `iABx`:  `[opcode:8][A:8][Bx:16]`, an operand and a 16-bit index;
//! - `iAsBx`: `[opcode:8][A:8][sBx:16]`, an operand and a signed 16-bit
//!   offset stored in two's complement.
//!
//! The B and C operands of arithmetic and comparison instructions are
//! "RK" operands: below 128 they name a register, from 128 up they name
//! the constant whose index is the low seven bits.

use vstd::prelude::*;

verus! {

/// Bytecode opcodes, numbered from 0 in the order listed.
#[derive(Debug, Clone, Copy, PartialEq, Eq, Structural)]
#[non_exhaustive]
pub enum Opcode {
    /// Copy register: `R[A] = R[B]` (iABC, C unused).
    Move,
    /// Load constant: `R[A] = K[Bx]` (iABx).
    LoadK,
    /// Load nil: `R[A]..R[A+B] = nil` (iABC, C unused).
    LoadNil,
    /// Load true: `R[A] = true` (iABC, B and C unused).
    LoadTrue,
    /// Load false: `R[A] = false` (iABC, B and C unused).
    LoadFalse,
    /// Read a global: `R[A] = globals[K[Bx]]` (iABx).
    GetGlobal,
    /// Write a global: `globals[K[Bx]] = R[A]` (iABx).
    SetGlobal,
    /// Addition: `R[A] = RK[B] + RK[C]` (iABC).
    Add,
    /// Subtraction: `R[A] = RK[B] - RK[C]` (iABC).
    Sub,
    /// Multiplication: `R[A] = RK[B] * RK[C]` (iABC).
    Mul,
    /// Division: `R[A] = RK[B] / RK[C]` (iABC).
    Div,
    /// Modulo: `R[A] = RK[B] % RK[C]` (iABC).
    Mod,
    /// Negation: `R[A] = -R[B]` (iABC, C unused).
    Neg,
    /// Equality: `R[A] = RK[B] == RK[C]` (iABC).
    Eq,
    /// Less than: `R[A] = RK[B] < RK[C]` (iABC).
    Lt,
    /// Less or equal: `R[A] = RK[B] <= RK[C]` (iABC).
    Le,
    /// Greater than: `R[A] = RK[B] > RK[C]` (iABC).
    Gt,
    /// Greater or equal: `R[A] = RK[B] >= RK[C]` (iABC).
    Ge,
    /// Logical not: `R[A] = not R[B]` (iABC, C unused).
    Not,
    /// Unconditional jump: `PC += sBx` (iAsBx, A unused).
    Jump,
    /// Conditional jump: `if R[A] then PC += sBx` (iAsBx).
    JumpIf,
    /// Negated conditional jump: `if not R[A] then PC += sBx` (iAsBx).
    JumpIfNot,
    /// Call: `R[A]..R[A+C-1] = R[A](R[A+1]..R[A+B])` (iABC; C = 0 for
    /// multiple results).
    Call,
    /// Tail call: `return R[A](R[A+1]..R[A+B])` (iABC, C unused).
    TailCall,
    /// Return: `return R[A]..R[A+B-1]` (iABC, C unused; B = 0 returns to
    /// the top of the stack).
    Return,
}

impl Opcode {
    /// The largest opcode number.
    pub const MAX: u8 = 24;

    /// The number of an opcode.
    pub open spec fn code(self) -> u8 {
        match self {
            Opcode::Move => 0,
            Opcode::LoadK => 1,
            Opcode::LoadNil => 2,
            Opcode::LoadTrue => 3,
            Opcode::LoadFalse => 4,
            Opcode::GetGlobal => 5,
            Opcode::SetGlobal => 6,
            Opcode::Add => 7,
            Opcode::Sub => 8,
            Opcode::Mul => 9,
            Opcode::Div => 10,
            Opcode::Mod => 11,
            Opcode::Neg => 12,
            Opcode::Eq => 13,
            Opcode::Lt => 14,
            Opcode::Le => 15,
            Opcode::Gt => 16,
            Opcode::Ge => 17,
            Opcode::Not => 18,
            Opcode::Jump => 19,
            Opcode::JumpIf => 20,
            Opcode::JumpIfNot => 21,
            Opcode::Call => 22,
            Opcode::TailCall => 23,
            Opcode::Return => 24,
        }
    }

    /// The name of an opcode: its variant's name.
    pub open spec fn name_text(self) -> Seq<char> {
        match self {
            Opcode::Move => "Move"@,
            Opcode::LoadK => "LoadK"@,
            Opcode::LoadNil => "LoadNil"@,
            Opcode::LoadTrue => "LoadTrue"@,
            Opcode::LoadFalse => "LoadFalse"@,
            Opcode::GetGlobal => "GetGlobal"@,
            Opcode::SetGlobal => "SetGlobal"@,
            Opcode::Add => "Add"@,
            Opcode::Sub => "Sub"@,
            Opcode::Mul => "Mul"@,
            Opcode::Div => "Div"@,
            Opcode::Mod => "Mod"@,
            Opcode::Neg => "Neg"@,
            Opcode::Eq => "Eq"@,
            Opcode::Lt => "Lt"@,
            Opcode::Le => "Le"@,
            Opcode::Gt => "Gt"@,
            Opcode::Ge => "Ge"@,
            Opcode::Not => "Not"@,
            Opcode::Jump => "Jump"@,
            Opcode::JumpIf => "JumpIf"@,
            Opcode::JumpIfNot => "JumpIfNot"@,
            Opcode::Call => "Call"@,
            Opcode::TailCall => "TailCall"@,
            Opcode::Return => "Return"@,
        }
    }

    /// The opcode numbered `byte`, or `None` past [`Opcode::MAX`].
    pub fn from_u8(byte: u8) -> (r: Option<Self>)
        ensures
            match r {
                Some(op) => op.code() == byte,
                None => byte > 24,
            },
    {
        match byte {
            0 => Some(Opcode::Move),
            1 => Some(Opcode::LoadK),
            2 => Some(Opcode::LoadNil),
            3 => Some(Opcode::LoadTrue),
            4 => Some(Opcode::LoadFalse),
            5 => Some(Opcode::GetGlobal),
            6 => Some(Opcode::SetGlobal),
            7 => Some(Opcode::Add),
            8 => Some(Opcode::Sub),
            9 => Some(Opcode::Mul),
            10 => Some(Opcode::Div),
            11 => Some(Opcode::Mod),
            12 => Some(Opcode::Neg),
            13 => Some(Opcode::Eq),
            14 => Some(Opcode::Lt),
            15 => Some(Opcode::Le),
            16 => Some(Opcode::Gt),
            17 => Some(Opcode::Ge),
            18 => Some(Opcode::Not),
            19 => Some(Opcode::Jump),
            20 => Some(Opcode::JumpIf),
            21 => Some(Opcode::JumpIfNot),
            22 => Some(Opcode::Call),
            23 => Some(Opcode::TailCall),
            24 => Some(Opcode::Return),
            _ => None,
        }
    }

    /// The number of the opcode.
    pub fn code_byte(self) -> (r: u8)
        ensures
            r == self.code(),
    {
        match self {
            Opcode::Move => 0,
            Opcode::LoadK => 1,
            Opcode::LoadNil => 2,
            Opcode::LoadTrue => 3,
            Opcode::LoadFalse => 4,
            Opcode::GetGlobal => 5,
            Opcode::SetGlobal => 6,
            Opcode::Add => 7,
            Opcode::Sub => 8,
            Opcode::Mul => 9,
            Opcode::Div => 10,
            Opcode::Mod => 11,
            Opcode::Neg => 12,
            Opcode::Eq => 13,
            Opcode::Lt => 14,
            Opcode::Le => 15,
            Opcode::Gt => 16,
            Opcode::Ge => 17,
            Opcode::Not => 18,
            Opcode::Jump => 19,
            Opcode::JumpIf => 20,
            Opcode::JumpIfNot => 21,
            Opcode::Call => 22,
            Opcode::TailCall => 23,
            Opcode::Return => 24,
        }
    }

    /// The opcode's name.
    pub fn name(self) -> (r: &'static str)
        ensures
            r@ == self.name_text(),
    {
        match self {
            Opcode::Move => "Move",
            Opcode::LoadK => "LoadK",
            Opcode::LoadNil => "LoadNil",
            Opcode::LoadTrue => "LoadTrue",
            Opcode::LoadFalse => "LoadFalse",
            Opcode::GetGlobal => "GetGlobal",
            Opcode::SetGlobal => "SetGlobal",
            Opcode::Add => "Add",
            Opcode::Sub => "Sub",
            Opcode::Mul => "Mul",
            Opcode::Div => "Div",
            Opcode::Mod => "Mod",
            Opcode::Neg => "Neg",
            Opcode::Eq => "Eq",
            Opcode::Lt => "Lt",
            Opcode::Le => "Le",
            Opcode::Gt => "Gt",
            Opcode::Ge => "Ge",
            Opcode::Not => "Not",
            Opcode::Jump => "Jump",
            Opcode::JumpIf => "JumpIf",
            Opcode::JumpIfNot => "JumpIfNot",
            Opcode::Call => "Call",
            Opcode::TailCall => "TailCall",
            Opcode::Return => "Return",
        }
    }
}

// ---------------------------------------------------------------------------
// Instruction words
// ---------------------------------------------------------------------------

/// The iABC word for opcode number `op` and operands `a`, `b`, `c`.
pub open spec fn abc_word(op: u8, a: u8, b: u8, c: u8) -> int {
    op + 0x100 * a + 0x1_0000 * b + 0x100_0000 * c
}

/// The iABx word for opcode number `op` and operands `a`, `bx`.
pub open spec fn abx_word(op: u8, a: u8, bx: u16) -> int {
    op + 0x100 * a + 0x1_0000 * bx
}

/// A signed 16-bit offset in two's complement.
pub open spec fn offset_bits(sbx: i16) -> u16 {
    if sbx < 0 {
        (sbx + 0x1_0000) as u16
    } else {
        sbx as u16
    }
}

/// The signed 16-bit offset whose two's complement is `u`.
pub open spec fn offset_of_bits(u: u16) -> i16 {
    if u >= 0x8000 {
        (u - 0x1_0000) as i16
    } else {
        u as i16
    }
}

/// The opcode byte of a word.
pub open spec fn field_op(w: u32) -> u8 {
    (w % 0x100) as u8
}

/// Operand A of a word.
pub open spec fn field_a(w: u32) -> u8 {
    ((w / 0x100) % 0x100) as u8
}

/// Operand B of an iABC word.
pub open spec fn field_b(w: u32) -> u8 {
    ((w / 0x1_0000) % 0x100) as u8
}

/// Operand C of an iABC word.
pub open spec fn field_c(w: u32) -> u8 {
    (w / 0x100_0000) as u8
}

/// Operand Bx of an iABx or iAsBx word.
pub open spec fn field_bx(w: u32) -> u16 {
    (w / 0x1_0000) as u16
}

/// Encodes an iABC instruction.
pub fn encode_abc(op: Opcode, dest: u8, op_b: u8, op_c: u8) -> (r: u32)
    ensures
        r == abc_word(op.code(), dest, op_b, op_c),
{
    let x = op.code_byte();
    let r = (x as u32) | ((dest as u32) << 8u32) | ((op_b as u32) << 16u32) | ((op_c as u32) << 24u32);
    assert(r == x + 0x100 * dest + 0x1_0000 * op_b + 0x100_0000 * op_c) by (bit_vector)
        requires
            r == (x as u32) | ((dest as u32) << 8u32) | ((op_b as u32) << 16u32) | ((op_c as u32) << 24u32),
    ;
    r
}

/// Encodes an iABx instruction.
pub fn encode_abx(op: Opcode, dest: u8, bx: u16) -> (r: u32)
    ensures
        r == abx_word(op.code(), dest, bx),
{
    let x = op.code_byte();
    let r = (x as u32) | ((dest as u32) << 8u32) | ((bx as u32) << 16u32);
    assert(r == x + 0x100 * dest + 0x1_0000 * bx) by (bit_vector)
        requires
            r == (x as u32) | ((dest as u32) << 8u32) | ((bx as u32) << 16u32),
    ;
    r
}

/// Encodes an iAsBx instruction; the offset is stored in two's complement.
pub fn encode_asbx(op: Opcode, dest: u8, sbx: i16) -> (r: u32)
    ensures
        r == abx_word(op.code(), dest, offset_bits(sbx)),
{
    let u = sbx as u16;
    assert(u == offset_bits(sbx)) by (bit_vector)
        requires
            u == sbx as u16,
    ;
    encode_abx(op, dest, u)
}

/// The opcode of an instruction, or `None` for an unknown opcode byte.
pub fn decode_op(instruction: u32) -> (r: Option<Opcode>)
    ensures
        match r {
            Some(op) => op.code() == field_op(instruction),
            None => field_op(instruction) > 24,
        },
{
    Opcode::from_u8(decode_opcode_byte(instruction))
}

/// The opcode byte of an instruction, whether or not it names an opcode.
pub fn decode_opcode_byte(instruction: u32) -> (r: u8)
    ensures
        r == field_op(instruction),
{
    let r = (instruction & 0xff) as u8;
    assert(r == (instruction % 0x100) as u8) by (bit_vector)
        requires
            r == (instruction & 0xff) as u8,
    ;
    r
}

/// Operand A (bits 8 to 15).
pub fn decode_a(instruction: u32) -> (r: u8)
    ensures
        r == field_a(instruction),
{
    let r = ((instruction >> 8u32) & 0xff) as u8;
    assert(r == ((instruction / 0x100) % 0x100) as u8) by (bit_vector)
        requires
            r == ((instruction >> 8u32) & 0xff) as u8,
    ;
    r
}

/// Operand B of an iABC instruction (bits 16 to 23).
pub fn decode_b(instruction: u32) -> (r: u8)
    ensures
        r == field_b(instruction),
{
    let r = ((instruction >> 16u32) & 0xff) as u8;
    assert(r == ((instruction / 0x1_0000) % 0x100) as u8) by (bit_vector)
        requires
            r == ((instruction >> 16u32) & 0xff) as u8,
    ;
    r
}

/// Operand C of an iABC instruction (bits 24 to 31).
pub fn decode_c(instruction: u32) -> (r: u8)
    ensures
        r == field_c(instruction),
{
    let r = ((instruction >> 24u32) & 0xff) as u8;
    assert(r == (instruction / 0x100_0000) as u8) by (bit_vector)
        requires
            r == ((instruction >> 24u32) & 0xff) as u8,
    ;
    r
}

/// Operand Bx of an iABx instruction (bits 16 to 31).
pub fn decode_bx(instruction: u32) -> (r: u16)
    ensures
        r == field_bx(instruction),
{
    let r = (instruction >> 16u32) as u16;
    assert(r == (instruction / 0x1_0000) as u16) by (bit_vector)
        requires
            r == (instruction >> 16u32) as u16,
    ;
    r
}

/// Operand sBx of an iAsBx instruction: bits 16 to 31 as a signed offset.
pub fn decode_sbx(instruction: u32) -> (r: i16)
    ensures
        r == offset_of_bits(field_bx(instruction)),
{
    let u = decode_bx(instruction);
    let r = u as i16;
    assert(r == offset_of_bits(u)) by (bit_vector)
        requires
            r == u as i16,
    ;
    r
}

// ---------------------------------------------------------------------------
// RK operands
// ---------------------------------------------------------------------------

/// The bit that marks an RK operand as a constant index.
pub const RK_CONSTANT_BIT: u8 = 0x80;

/// The largest register an RK operand can name.
pub const RK_MAX_REGISTER: u8 = 127;

/// The largest constant index an RK operand can name.
pub const RK_MAX_CONSTANT: u8 = 127;

/// The RK operand naming register `register`, or `None` past 127.
pub fn rk_register(register: u8) -> (r: Option<u8>)
    ensures
        r == (if register > 127 { None } else { Some(register) }),
{
    if register > RK_MAX_REGISTER {
        None
    } else {
        Some(register)
    }
}

/// The RK operand naming constant `constant`, or `None` past 127.
pub fn rk_constant(constant: u8) -> (r: Option<u8>)
    ensures
        r == (if constant > 127 { None } else { Some((constant + 0x80) as u8) }),
{
    if constant > RK_MAX_CONSTANT {
        None
    } else {
        let r = constant | RK_CONSTANT_BIT;
        assert(r == constant + 0x80) by (bit_vector)
            requires
                r == constant | 0x80u8,
                constant <= 127,
        ;
        Some(r)
    }
}

/// Whether an RK operand names a constant.
pub fn rk_is_constant(rk: u8) -> (r: bool)
    ensures
        r == (rk >= 0x80),
{
    let r = (rk & RK_CONSTANT_BIT) != 0;
    assert(r == (rk >= 0x80)) by (bit_vector)
        requires
            r == ((rk & 0x80u8) != 0),
    ;
    r
}

/// The register or constant index of an RK operand: its low seven bits.
pub fn rk_index(rk: u8) -> (r: u8)
    ensures
        r == rk % 0x80,
{
    let r = rk & 0x7f;
    assert(r == rk % 0x80) by (bit_vector)
        requires
            r == rk & 0x7fu8,
    ;
    r
}

// ---------------------------------------------------------------------------
// Laws
// ---------------------------------------------------------------------------

/// Every opcode number up to [`Opcode::MAX`] names exactly one opcode.
pub proof fn law_opcode_numbers(a: Opcode, b: Opcode)
    ensures
        a.code() <= 24,
        a.code() == b.code() ==> a == b,
{
}

/// Decoding an iABC word gives back the opcode and the three operands.
pub proof fn law_abc_round_trip(op: u8, a: u8, b: u8, c: u8)
    ensures
        0 <= abc_word(op, a, b, c) <= u32::MAX,
        field_op(abc_word(op, a, b, c) as u32) == op,
        field_a(abc_word(op, a, b, c) as u32) == a,
        field_b(abc_word(op, a, b, c) as u32) == b,
        field_c(abc_word(op, a, b, c) as u32) == c,
{
    let w = abc_word(op, a, b, c);
    assert(0 <= w <= u32::MAX) by (nonlinear_arith)
        requires
            w == op + 0x100 * a + 0x1_0000 * b + 0x100_0000 * c,
            op <= 255,
            a <= 255,
            b <= 255,
            c <= 255,
    ;
    let x = w as u32;
    assert(x % 0x100 == op && (x / 0x100) % 0x100 == a && (x / 0x1_0000) % 0x100 == b && x / 0x100_0000 == c) by (nonlinear_arith)
        requires
            x == op + 0x100 * a + 0x1_0000 * b + 0x100_0000 * c,
            op <= 255,
            a <= 255,
            b <= 255,
            c <= 255,
    ;
}

/// Decoding an iABx word gives back the opcode and both operands.
pub proof fn law_abx_round_trip(op: u8, a: u8, bx: u16)
    ensures
        0 <= abx_word(op, a, bx) <= u32::MAX,
        field_op(abx_word(op, a, bx) as u32) == op,
        field_a(abx_word(op, a, bx) as u32) == a,
        field_bx(abx_word(op, a, bx) as u32) == bx,
{
    let w = abx_word(op, a, bx);
    assert(0 <= w <= u32::MAX) by (nonlinear_arith)
        requires
            w == op + 0x100 * a + 0x1_0000 * bx,
            op <= 255,
            a <= 255,
            bx <= 65535,
    ;
    let x = w as u32;
    assert(x % 0x100 == op && (x / 0x100) % 0x100 == a && x / 0x1_0000 == bx) by (nonlinear_arith)
        requires
            x == op + 0x100 * a + 0x1_0000 * bx,
            op <= 255,
            a <= 255,
            bx <= 65535,
    ;
}

/// A signed offset survives its two's complement encoding.
pub proof fn law_offset_round_trip(sbx: i16)
    ensures
        offset_of_bits(offset_bits(sbx)) == sbx,
{
}

/// RK operands: a register operand names that register, a constant
/// operand names that constant, and the two never coincide.
pub proof fn law_rk_round_trip(i: u8)
    requires
        i <= 127,
    ensures
        i < 0x80,
        ((i + 0x80) as u8) >= 0x80,
        ((i + 0x80) as u8) % 0x80 == i,
        i % 0x80 == i,
{
}

} // verus!
