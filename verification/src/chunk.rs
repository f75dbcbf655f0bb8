//! Compiled code: a chunk holds a function's instructions, the source
//! span of each, and its constant pool, and can be listed as text.
//!
//! A chunk is generic over its constants; the listing takes each
//! constant's text from the caller.

use vstd::prelude::*;
use crate::opcode::{
    decode_a, decode_b, decode_bx, decode_c, decode_op, decode_sbx, field_a, field_b, field_bx,
    field_c, field_op, offset_of_bits, Opcode, rk_index, rk_is_constant, abc_word, law_abc_round_trip,
    law_opcode_numbers,
};
use crate::span::Span;
use crate::text::{
    decimal_string, decimal_text, hex8_upper, pad_left, pad_right, push_char, push_decimal,
    push_hex8_upper, push_pad_left, push_pad_right, push_str_chars,
};

verus! {

/// Where a closure captures one of its values from.
#[derive(Debug, Clone, Copy, PartialEq, Eq, Structural)]
pub enum UpvalueSource {
    /// A register of the enclosing function's frame.
    Local(u8),
    /// An upvalue of the enclosing function (for values captured from
    /// further out).
    ParentUpvalue(u8),
}

/// A chunk's constant pool already holds the 65535 constants it can.
#[derive(Debug, Clone, PartialEq, Eq, Structural)]
#[non_exhaustive]
pub struct ConstantPoolFullError {
    /// Where in the source the constant that did not fit was.
    pub span: Span,
}

impl ConstantPoolFullError {
    /// The error for the constant at `span`.
    pub fn new(span: Span) -> (r: Self)
        ensures
            r.span == span,
    {
        ConstantPoolFullError { span }
    }

    /// The error message.
    pub fn to_string(&self) -> (r: String)
        ensures
            r@ == "too many constants in chunk (maximum 65535) at "@ + decimal_text(self.span.start as nat) + ".."@
                + decimal_text(self.span.end as nat),
    {
        let mut s = String::new();
        push_str_chars(&mut s, "too many constants in chunk (maximum 65535) at ");
        push_decimal(&mut s, self.span.start as u64);
        push_str_chars(&mut s, "..");
        push_decimal(&mut s, self.span.end as u64);
        s
    }
}


// ---------------------------------------------------------------------------
// Chunks
// ---------------------------------------------------------------------------

/// A compiled function body.
#[derive(Debug, Clone, PartialEq)]
#[non_exhaustive]
pub struct Chunk<K> {
    code: Vec<u32>,
    constants: Vec<K>,
    max_registers: u8,
    arity: u8,
    has_rest: bool,
    spans: Vec<Span>,
    name: String,
}

/// One arity of a function: its code, fixed parameter count, whether it
/// takes the rest of the arguments, and where its captured values come
/// from.
#[derive(Debug, Clone, PartialEq)]
#[non_exhaustive]
pub struct FunctionBodyData<K> {
    /// The compiled code.
    pub chunk: Box<Chunk<K>>,
    /// The number of fixed parameters.
    pub arity: u8,
    /// Whether the body takes the remaining arguments as a list.
    pub has_rest: bool,
    /// Where each captured value comes from.
    pub upvalue_sources: Vec<UpvalueSource>,
}

impl<K> FunctionBodyData<K> {
    /// A body from its parts.
    pub fn new(chunk: Box<Chunk<K>>, arity: u8, has_rest: bool, upvalue_sources: Vec<UpvalueSource>) -> (r: Self)
        ensures
            r.chunk == chunk,
            r.arity == arity,
            r.has_rest == has_rest,
            r.upvalue_sources == upvalue_sources,
    {
        FunctionBodyData { chunk, arity, has_rest, upvalue_sources }
    }
}

/// The text of an RK operand: `K` and the constant index, or `R` and the
/// register.
pub open spec fn rk_text(rk: u8) -> Seq<char> {
    if rk >= 0x80 {
        seq!['K'] + decimal_text((rk % 0x80) as nat)
    } else {
        seq!['R'] + decimal_text(rk as nat)
    }
}

/// A register's text.
pub open spec fn reg_text(n: nat) -> Seq<char> {
    seq!['R'] + decimal_text(n)
}

/// The decimal numeral of `x`, with a minus sign when negative.
pub open spec fn int_text(x: int) -> Seq<char> {
    if x < 0 {
        seq!['-'] + decimal_text((-x) as nat)
    } else {
        decimal_text(x as nat)
    }
}

/// A comment after the operands.
pub open spec fn note(t: Seq<char>) -> Seq<char> {
    "        ; "@ + t
}

/// `x` clamped to the range of `i64`.
pub open spec fn clamp_i64(x: int) -> int {
    if x > i64::MAX {
        i64::MAX as int
    } else if x < i64::MIN {
        i64::MIN as int
    } else {
        x
    }
}

/// The instruction a jump at `offset` by `sbx` lands on: the offset read
/// as an `i64` (wrapping), plus one, plus the jump, each step saturating.
pub open spec fn jump_target(offset: usize, sbx: i16) -> int {
    let o = if offset as int > i64::MAX { offset as int - 0x1_0000_0000_0000_0000 } else { offset as int };
    clamp_i64(clamp_i64(o + 1) + sbx)
}

/// The operands of instruction `w` of opcode `op` at `offset`; `k` is the
/// text of the constant it loads, if there is one.
pub open spec fn operands_text(op: Opcode, w: u32, offset: usize, k: Option<Seq<char>>) -> Seq<char> {
    let a = field_a(w);
    let b = field_b(w);
    let c = field_c(w);
    let bx = field_bx(w);
    let sbx = offset_of_bits(bx);
    match op {
        Opcode::Add | Opcode::Sub | Opcode::Mul | Opcode::Div | Opcode::Mod | Opcode::Eq | Opcode::Lt
        | Opcode::Le | Opcode::Gt | Opcode::Ge => reg_text(a as nat) + ", "@ + rk_text(b) + ", "@ + rk_text(c),
        Opcode::Move | Opcode::Neg | Opcode::Not => reg_text(a as nat) + ", "@ + reg_text(b as nat),
        Opcode::LoadNil => reg_text(a as nat) + ".."@ + reg_text((a + b) as nat),
        Opcode::LoadTrue | Opcode::LoadFalse => reg_text(a as nat),
        Opcode::LoadK | Opcode::GetGlobal | Opcode::SetGlobal => reg_text(a as nat) + seq![',', ' ', 'K']
            + decimal_text(bx as nat) + match k {
            Some(t) => note(t),
            None => Seq::empty(),
        },
        Opcode::Jump => int_text(sbx as int) + note("-> "@ + int_text(jump_target(offset, sbx))),
        Opcode::JumpIf | Opcode::JumpIfNot => reg_text(a as nat) + ", "@ + int_text(sbx as int) + note(
            "-> "@ + int_text(jump_target(offset, sbx)),
        ),
        Opcode::Call => reg_text(a as nat) + ", "@ + decimal_text(b as nat) + ", "@ + decimal_text(c as nat)
            + note(decimal_text(b as nat) + " args, "@ + decimal_text(c as nat) + " results"@),
        Opcode::TailCall => reg_text(a as nat) + ", "@ + decimal_text(b as nat) + note(
            decimal_text(b as nat) + " args"@,
        ),
        Opcode::Return => reg_text(a as nat) + ", "@ + decimal_text(b as nat) + if b == 0 {
            note("return all"@)
        } else {
            note("return "@ + decimal_text(b as nat) + " values"@)
        },
    }
}

/// The listing line of instruction `w` at `offset`: the offset in four
/// digits, the source byte offset (or `?`), the opcode's name in twelve
/// columns and the operands; an unknown opcode shows the word in hex.
pub open spec fn line_text(offset: usize, w: u32, span_start: Option<usize>, k: Option<Seq<char>>) -> Seq<char> {
    pad_left(decimal_text(offset as nat), 4, '0') + "    "@ + match span_start {
        Some(st) => pad_left(decimal_text(st as nat), 4, ' ') + seq![' '],
        None => "   ? "@,
    } + if field_op(w) <= 24 {
        let op = choose|op: Opcode| op.code() == field_op(w);
        pad_right(op.name_text(), 12) + operands_text(op, w, offset, k)
    } else {
        "INVALID     0x"@ + hex8_upper(w)
    }
}

/// The text of constant `i`, if there is one.
pub open spec fn text_at(texts: Seq<Seq<char>>, i: int) -> Option<Seq<char>> {
    if 0 <= i < texts.len() {
        Some(texts[i])
    } else {
        None
    }
}

/// The constant text an instruction shows: that of the constant a load
/// or global access names.
pub open spec fn shown_constant(w: u32, texts: Seq<Seq<char>>) -> Option<Seq<char>> {
    if field_op(w) == 1 || field_op(w) == 5 || field_op(w) == 6 {
        text_at(texts, field_bx(w) as int)
    } else {
        None
    }
}

/// The views of a list of strings.
pub open spec fn texts_of(v: Seq<String>) -> Seq<Seq<char>> {
    v.map_values(|s: String| s@)
}

/// Appends the decimal numeral of `x`, with a minus sign when negative.
fn push_int(s: &mut String, x: i128)
    requires
        -0x1_0000_0000_0000_0000 < x < 0x1_0000_0000_0000_0000,
    ensures
        final(s)@ == old(s)@ + int_text(x as int),
{
    if x < 0 {
        push_char(s, '-');
        push_decimal(s, (-x) as u64);
    } else {
        push_decimal(s, x as u64);
    }
    assert(final(s)@ =~= old(s)@ + int_text(x as int));
}

/// Appends a register's text.
fn push_reg(s: &mut String, n: u64)
    ensures
        final(s)@ == old(s)@ + reg_text(n as nat),
{
    push_char(s, 'R');
    push_decimal(s, n);
    assert(final(s)@ =~= old(s)@ + reg_text(n as nat));
}

/// Appends an RK operand's text.
fn push_rk(s: &mut String, rk: u8)
    ensures
        final(s)@ == old(s)@ + rk_text(rk),
{
    if rk_is_constant(rk) {
        push_char(s, 'K');
        push_decimal(s, rk_index(rk) as u64);
    } else {
        push_char(s, 'R');
        push_decimal(s, rk as u64);
    }
    assert(final(s)@ =~= old(s)@ + rk_text(rk));
}

/// The target of a jump at `offset` by `sbx`.
fn compute_jump_target(offset: usize, sbx: i16) -> (r: i128)
    ensures
        r == jump_target(offset, sbx),
{
    let o: i128 = if offset as i128 > 0x7fff_ffff_ffff_ffff {
        offset as i128 - 0x1_0000_0000_0000_0000
    } else {
        offset as i128
    };
    let t1: i128 = if o + 1 > 0x7fff_ffff_ffff_ffff { 0x7fff_ffff_ffff_ffff } else { o + 1 };
    let t2: i128 = t1 + sbx as i128;
    if t2 > 0x7fff_ffff_ffff_ffff {
        0x7fff_ffff_ffff_ffff
    } else if t2 < -0x8000_0000_0000_0000 {
        -0x8000_0000_0000_0000
    } else {
        t2
    }
}

fn push_three(s: &mut String, a: u8, b: u8, c: u8)
    ensures
        final(s)@ == old(s)@ + reg_text(a as nat) + ", "@ + rk_text(b) + ", "@ + rk_text(c),
{
    push_reg(s, a as u64);
    push_str_chars(s, ", ");
    push_rk(s, b);
    push_str_chars(s, ", ");
    push_rk(s, c);
    assert(final(s)@ =~= old(s)@ + reg_text(a as nat) + ", "@ + rk_text(b) + ", "@ + rk_text(c));
}

fn push_two(s: &mut String, a: u8, b: u8)
    ensures
        final(s)@ == old(s)@ + reg_text(a as nat) + ", "@ + reg_text(b as nat),
{
    push_reg(s, a as u64);
    push_str_chars(s, ", ");
    push_reg(s, b as u64);
    assert(final(s)@ =~= old(s)@ + reg_text(a as nat) + ", "@ + reg_text(b as nat));
}

fn push_range(s: &mut String, a: u8, b: u8)
    ensures
        final(s)@ == old(s)@ + reg_text(a as nat) + ".."@ + reg_text((a + b) as nat),
{
    push_reg(s, a as u64);
    push_str_chars(s, "..");
    push_reg(s, a as u64 + b as u64);
    assert(final(s)@ =~= old(s)@ + reg_text(a as nat) + ".."@ + reg_text((a + b) as nat));
}

fn push_load(s: &mut String, a: u8, bx: u16, k: Option<&String>)
    ensures
        final(s)@ == old(s)@ + reg_text(a as nat) + seq![',', ' ', 'K'] + decimal_text(bx as nat) + match k {
            Some(t) => note(t@),
            None => Seq::empty(),
        },
{
    push_reg(s, a as u64);
    push_char(s, ',');
    push_char(s, ' ');
    push_char(s, 'K');
    push_decimal(s, bx as u64);
    match k {
        Some(t) => {
            push_str_chars(s, "        ; ");
            push_str_chars(s, t.as_str());
        },
        None => {},
    }
    assert(final(s)@ =~= old(s)@ + reg_text(a as nat) + seq![',', ' ', 'K'] + decimal_text(bx as nat) + match k {
        Some(t) => note(t@),
        None => Seq::empty(),
    });
}

fn push_jump(s: &mut String, sbx: i16, offset: usize)
    ensures
        final(s)@ == old(s)@ + int_text(sbx as int) + note("-> "@ + int_text(jump_target(offset, sbx))),
{
    push_int(s, sbx as i128);
    push_str_chars(s, "        ; ");
    push_str_chars(s, "-> ");
    push_int(s, compute_jump_target(offset, sbx));
    assert(final(s)@ =~= old(s)@ + int_text(sbx as int) + note("-> "@ + int_text(jump_target(offset, sbx))));
}

fn push_call(s: &mut String, a: u8, b: u8, c: u8)
    ensures
        final(s)@ == old(s)@ + reg_text(a as nat) + ", "@ + decimal_text(b as nat) + ", "@ + decimal_text(c as nat)
            + note(decimal_text(b as nat) + " args, "@ + decimal_text(c as nat) + " results"@),
{
    push_reg(s, a as u64);
    push_str_chars(s, ", ");
    push_decimal(s, b as u64);
    push_str_chars(s, ", ");
    push_decimal(s, c as u64);
    push_str_chars(s, "        ; ");
    push_decimal(s, b as u64);
    push_str_chars(s, " args, ");
    push_decimal(s, c as u64);
    push_str_chars(s, " results");
    assert(final(s)@ =~= old(s)@ + reg_text(a as nat) + ", "@ + decimal_text(b as nat) + ", "@ + decimal_text(c as nat)
        + note(decimal_text(b as nat) + " args, "@ + decimal_text(c as nat) + " results"@));
}

fn push_tail_call(s: &mut String, a: u8, b: u8)
    ensures
        final(s)@ == old(s)@ + reg_text(a as nat) + ", "@ + decimal_text(b as nat) + note(decimal_text(b as nat) + " args"@),
{
    push_reg(s, a as u64);
    push_str_chars(s, ", ");
    push_decimal(s, b as u64);
    push_str_chars(s, "        ; ");
    push_decimal(s, b as u64);
    push_str_chars(s, " args");
    assert(final(s)@ =~= old(s)@ + reg_text(a as nat) + ", "@ + decimal_text(b as nat) + note(decimal_text(b as nat) + " args"@));
}

fn push_return(s: &mut String, a: u8, b: u8)
    ensures
        final(s)@ == old(s)@ + reg_text(a as nat) + ", "@ + decimal_text(b as nat) + if b == 0 {
            note("return all"@)
        } else {
            note("return "@ + decimal_text(b as nat) + " values"@)
        },
{
    push_reg(s, a as u64);
    push_str_chars(s, ", ");
    push_decimal(s, b as u64);
    push_str_chars(s, "        ; ");
    if b == 0 {
        push_str_chars(s, "return all");
    } else {
        push_str_chars(s, "return ");
        push_decimal(s, b as u64);
        push_str_chars(s, " values");
    }
    assert(final(s)@ =~= old(s)@ + reg_text(a as nat) + ", "@ + decimal_text(b as nat) + if b == 0 {
        note("return all"@)
    } else {
        note("return "@ + decimal_text(b as nat) + " values"@)
    });
}

/// Appends the operands of instruction `w` of opcode `op` at `offset`.
fn push_operands(s: &mut String, op: Opcode, w: u32, offset: usize, k: Option<&String>)
    ensures
        final(s)@ == old(s)@ + operands_text(op, w, offset, match k {
            Some(t) => Some(t@),
            None => None,
        }),
{
    let a = decode_a(w);
    let b = decode_b(w);
    let c = decode_c(w);
    let bx = decode_bx(w);
    let sbx = decode_sbx(w);
    match op {
        Opcode::Add | Opcode::Sub | Opcode::Mul | Opcode::Div | Opcode::Mod | Opcode::Eq | Opcode::Lt
        | Opcode::Le | Opcode::Gt | Opcode::Ge => push_three(s, a, b, c),
        Opcode::Move | Opcode::Neg | Opcode::Not => push_two(s, a, b),
        Opcode::LoadNil => push_range(s, a, b),
        Opcode::LoadTrue | Opcode::LoadFalse => push_reg(s, a as u64),
        Opcode::LoadK | Opcode::GetGlobal | Opcode::SetGlobal => push_load(s, a, bx, k),
        Opcode::Jump => push_jump(s, sbx, offset),
        Opcode::JumpIf | Opcode::JumpIfNot => {
            push_two_prefix(s, a);
            push_jump(s, sbx, offset);
            assert(final(s)@ =~= old(s)@ + operands_text(op, w, offset, match k {
                Some(t) => Some(t@),
                None => None,
            }));
        },
        Opcode::Call => push_call(s, a, b, c),
        Opcode::TailCall => push_tail_call(s, a, b),
        Opcode::Return => push_return(s, a, b),
    }
}

/// Appends a register and a comma.
fn push_two_prefix(s: &mut String, a: u8)
    ensures
        final(s)@ == old(s)@ + reg_text(a as nat) + ", "@,
{
    push_reg(s, a as u64);
    push_str_chars(s, ", ");
}


/// The source byte offset listed for instruction `i`.
pub open spec fn span_start_at(spans: Seq<Span>, i: int) -> Option<usize> {
    if 0 <= i < spans.len() {
        Some(spans[i].start)
    } else {
        None
    }
}

/// The listing's header: name, arity and register count.
pub open spec fn header_text(name: Seq<char>, arity: u8, rest: bool, regs: u8) -> Seq<char> {
    "== "@ + (if name.len() == 0 { "<anonymous>"@ } else { name }) + " ==\n"@ + "arity: "@ + decimal_text(
        arity as nat,
    ) + (if rest { " (variadic)"@ } else { Seq::empty() }) + ", max_registers: "@ + decimal_text(regs as nat)
        + "\n\n"@
}

/// The listing lines of the first `k` instructions, each ending a line.
pub open spec fn lines_text(code: Seq<u32>, spans: Seq<Span>, texts: Seq<Seq<char>>, k: nat) -> Seq<char>
    decreases k,
{
    if k == 0 || k > code.len() {
        Seq::empty()
    } else {
        let i = (k - 1) as int;
        lines_text(code, spans, texts, (k - 1) as nat) + line_text(i as usize, code[i], span_start_at(spans, i), shown_constant(code[i], texts))
            + "\n"@
    }
}

/// The lines `  K<i>: <text>` of the first `k` constants.
pub open spec fn constant_lines(texts: Seq<Seq<char>>, k: nat) -> Seq<char>
    decreases k,
{
    if k == 0 || k > texts.len() {
        Seq::empty()
    } else {
        constant_lines(texts, (k - 1) as nat) + "  K"@ + decimal_text((k - 1) as nat) + ": "@ + texts[k - 1] + "\n"@
    }
}

/// The constants section, absent when there is no constant.
pub open spec fn constants_text(texts: Seq<Seq<char>>) -> Seq<char> {
    if texts.len() == 0 {
        Seq::empty()
    } else {
        "\nConstants:\n"@ + constant_lines(texts, texts.len())
    }
}

impl<K> Chunk<K> {
    /// The instruction words.
    pub closed spec fn words(self) -> Seq<u32> {
        self.code@
    }

    /// The constant pool.
    pub closed spec fn pool(self) -> Seq<K> {
        self.constants@
    }

    /// The source span of each instruction.
    pub closed spec fn span_list(self) -> Seq<Span> {
        self.spans@
    }

    /// The function's name.
    pub closed spec fn label(self) -> Seq<char> {
        self.name@
    }

    /// The number of fixed parameters.
    pub closed spec fn params(self) -> u8 {
        self.arity
    }

    /// Whether the function takes the remaining arguments.
    pub closed spec fn rest(self) -> bool {
        self.has_rest
    }

    /// The number of registers the function uses.
    pub closed spec fn registers(self) -> u8 {
        self.max_registers
    }

    /// An empty, unnamed chunk.
    pub fn new() -> (r: Self)
        ensures
            r.words() == Seq::<u32>::empty(),
            r.pool() == Seq::<K>::empty(),
            r.span_list() == Seq::<Span>::empty(),
            r.label() == Seq::<char>::empty(),
            r.params() == 0,
            !r.rest(),
            r.registers() == 0,
    {
        Chunk::with_name(String::new())
    }

    /// An empty chunk with a name.
    pub fn with_name(name: String) -> (r: Self)
        ensures
            r.words() == Seq::<u32>::empty(),
            r.pool() == Seq::<K>::empty(),
            r.span_list() == Seq::<Span>::empty(),
            r.label() == name@,
            r.params() == 0,
            !r.rest(),
            r.registers() == 0,
    {
        Chunk {
            code: Vec::new(),
            constants: Vec::new(),
            max_registers: 0,
            arity: 0,
            has_rest: false,
            spans: Vec::new(),
            name,
        }
    }

    /// The function's name.
    pub fn name(&self) -> (r: &str)
        ensures
            r@ == self.label(),
    {
        self.name.as_str()
    }

    /// Renames the function.
    pub fn set_name(&mut self, name: String)
        ensures
            final(self).label() == name@,
            final(self).words() == old(self).words(),
            final(self).pool() == old(self).pool(),
            final(self).span_list() == old(self).span_list(),
            final(self).params() == old(self).params(),
            final(self).rest() == old(self).rest(),
            final(self).registers() == old(self).registers(),
    {
        self.name = name;
    }

    /// The number of fixed parameters.
    pub fn arity(&self) -> (r: u8)
        ensures
            r == self.params(),
    {
        self.arity
    }

    /// Sets the number of fixed parameters.
    pub fn set_arity(&mut self, arity: u8)
        ensures
            final(self).params() == arity,
            final(self).words() == old(self).words(),
            final(self).pool() == old(self).pool(),
            final(self).span_list() == old(self).span_list(),
            final(self).label() == old(self).label(),
            final(self).rest() == old(self).rest(),
            final(self).registers() == old(self).registers(),
    {
        self.arity = arity;
    }

    /// Whether the function takes the remaining arguments.
    pub fn has_rest(&self) -> (r: bool)
        ensures
            r == self.rest(),
    {
        self.has_rest
    }

    /// Sets whether the function takes the remaining arguments.
    pub fn set_has_rest(&mut self, has_rest: bool)
        ensures
            final(self).rest() == has_rest,
            final(self).words() == old(self).words(),
            final(self).pool() == old(self).pool(),
            final(self).span_list() == old(self).span_list(),
            final(self).label() == old(self).label(),
            final(self).params() == old(self).params(),
            final(self).registers() == old(self).registers(),
    {
        self.has_rest = has_rest;
    }

    /// The number of registers the function uses.
    pub fn max_registers(&self) -> (r: u8)
        ensures
            r == self.registers(),
    {
        self.max_registers
    }

    /// Sets the number of registers the function uses.
    pub fn set_max_registers(&mut self, count: u8)
        ensures
            final(self).registers() == count,
            final(self).words() == old(self).words(),
            final(self).pool() == old(self).pool(),
            final(self).span_list() == old(self).span_list(),
            final(self).label() == old(self).label(),
            final(self).params() == old(self).params(),
            final(self).rest() == old(self).rest(),
    {
        self.max_registers = count;
    }

    /// The number of instructions.
    pub fn len(&self) -> (r: usize)
        ensures
            r == self.words().len(),
    {
        self.code.len()
    }

    /// Whether there is no instruction.
    pub fn is_empty(&self) -> (r: bool)
        ensures
            r == (self.words().len() == 0),
    {
        self.code.len() == 0
    }

    /// The instruction words.
    pub fn code(&self) -> (r: &[u32])
        ensures
            r@ == self.words(),
    {
        self.code.as_slice()
    }

    /// The constant pool.
    pub fn constants(&self) -> (r: &[K])
        ensures
            r@ == self.pool(),
    {
        self.constants.as_slice()
    }

    /// The source span of each instruction.
    pub fn spans(&self) -> (r: &[Span])
        ensures
            r@ == self.span_list(),
    {
        self.spans.as_slice()
    }

    /// The source span of instruction `index`, if it has one.
    pub fn span_at(&self, index: usize) -> (r: Option<Span>)
        ensures
            r == (if index < self.span_list().len() { Some(self.span_list()[index as int]) } else { None::<Span> }),
    {
        if index < self.spans.len() {
            Some(self.spans[index])
        } else {
            None
        }
    }

    /// Appends an instruction with its source span; returns its index.
    pub fn emit(&mut self, instruction: u32, span: Span) -> (r: usize)
        ensures
            r == old(self).words().len(),
            final(self).words() == old(self).words().push(instruction),
            final(self).span_list() == old(self).span_list().push(span),
            final(self).pool() == old(self).pool(),
            final(self).label() == old(self).label(),
            final(self).params() == old(self).params(),
            final(self).rest() == old(self).rest(),
            final(self).registers() == old(self).registers(),
    {
        let index = self.code.len();
        self.code.push(instruction);
        self.spans.push(span);
        index
    }

    /// Replaces instruction `index`; an index past the end changes nothing.
    pub fn patch(&mut self, index: usize, instruction: u32)
        ensures
            final(self).words() == (if index < old(self).words().len() {
                old(self).words().update(index as int, instruction)
            } else {
                old(self).words()
            }),
            final(self).span_list() == old(self).span_list(),
            final(self).pool() == old(self).pool(),
            final(self).label() == old(self).label(),
            final(self).params() == old(self).params(),
            final(self).rest() == old(self).rest(),
            final(self).registers() == old(self).registers(),
    {
        if index < self.code.len() {
            self.code.set(index, instruction);
        }
    }

    /// Adds a constant and returns its index; refused once the pool holds
    /// 65536 constants, with an error at no particular place.
    pub fn add_constant(&mut self, constant: K) -> (r: Result<u16, ConstantPoolFullError>)
        ensures
            match r {
                Ok(i) => i == old(self).pool().len() && final(self).pool() == old(self).pool().push(constant),
                Err(e) => old(self).pool().len() > 0xffff && final(self).pool() == old(self).pool() && e.span
                    == Span { start: 0, end: 0 },
            },
            final(self).words() == old(self).words(),
            final(self).span_list() == old(self).span_list(),
            final(self).label() == old(self).label(),
    {
        self.add_constant_at(constant, Span::new(0, 0))
    }

    /// Adds a constant written at `span` and returns its index; refused
    /// once the pool holds 65536 constants.
    pub fn add_constant_at(&mut self, constant: K, span: Span) -> (r: Result<u16, ConstantPoolFullError>)
        ensures
            match r {
                Ok(i) => i == old(self).pool().len() && final(self).pool() == old(self).pool().push(constant),
                Err(e) => old(self).pool().len() > 0xffff && final(self).pool() == old(self).pool() && e.span
                    == span,
            },
            final(self).words() == old(self).words(),
            final(self).span_list() == old(self).span_list(),
            final(self).label() == old(self).label(),
    {
        let index = self.constants.len();
        if index > 0xffff {
            return Err(ConstantPoolFullError { span });
        }
        self.constants.push(constant);
        Ok(index as u16)
    }

    /// Constant `index`, if there is one.
    pub fn get_constant(&self, index: u16) -> (r: Option<&K>)
        ensures
            r == (if (index as int) < self.pool().len() { Some(&self.pool()[index as int]) } else { None::<&K> }),
    {
        let i = index as usize;
        if i < self.constants.len() {
            Some(&self.constants[i])
        } else {
            None
        }
    }

    /// The listing line of `instruction` at `offset`, with `texts` giving
    /// each constant's text.
    pub fn disassemble_instruction(&self, offset: usize, instruction: u32, texts: &Vec<String>) -> (r: String)
        ensures
            r@ == line_text(offset, instruction, span_start_at(self.span_list(), offset as int), shown_constant(
                instruction,
                texts_of(texts@),
            )),
    {
        let mut out = String::new();
        let off = decimal_string(offset as u64);
        push_pad_left(&mut out, off.as_str(), 4, '0');
        push_str_chars(&mut out, "    ");
        if offset < self.spans.len() {
            let st = decimal_string(self.spans[offset].start as u64);
            push_pad_left(&mut out, st.as_str(), 4, ' ');
            push_char(&mut out, ' ');
        } else {
            push_str_chars(&mut out, "   ? ");
        }
        let ghost prefix = out@;
        match decode_op(instruction) {
            Some(op) => {
                push_pad_right(&mut out, op.name(), 12);
                let bx = decode_bx(instruction);
                let loads = match op {
                    Opcode::LoadK | Opcode::GetGlobal | Opcode::SetGlobal => true,
                    _ => false,
                };
                let k = if loads && (bx as usize) < texts.len() {
                    Some(&texts[bx as usize])
                } else {
                    None
                };
                push_operands(&mut out, op, instruction, offset, k);
                proof {
                    let c = choose|c: Opcode| c.code() == field_op(instruction);
                    crate::opcode::law_opcode_numbers(c, op);
                    assert(match k {
                        Some(t) => Some(t@),
                        None => None,
                    } == shown_constant(instruction, texts_of(texts@)));
                }
            },
            None => {
                push_str_chars(&mut out, "INVALID     0x");
                push_hex8_upper(&mut out, instruction);
            },
        }
        assert(out@ =~= line_text(offset, instruction, span_start_at(self.span_list(), offset as int), shown_constant(
            instruction,
            texts_of(texts@),
        )));
        out
    }

    /// The listing: a header, one line per instruction and, when there
    /// are constants, one line per constant; `texts` gives each
    /// constant's text.
    pub fn disassemble(&self, texts: &Vec<String>) -> (r: String)
        requires
            texts@.len() == self.pool().len(),
        ensures
            r@ == header_text(self.label(), self.params(), self.rest(), self.registers()) + lines_text(
                self.words(),
                self.span_list(),
                texts_of(texts@),
                self.words().len(),
            ) + constants_text(texts_of(texts@)),
    {
        let mut out = String::new();
        push_str_chars(&mut out, "== ");
        if self.name.as_str().is_empty() {
            push_str_chars(&mut out, "<anonymous>");
        } else {
            push_str_chars(&mut out, self.name.as_str());
        }
        push_str_chars(&mut out, " ==\n");
        push_str_chars(&mut out, "arity: ");
        push_decimal(&mut out, self.arity as u64);
        if self.has_rest {
            push_str_chars(&mut out, " (variadic)");
        }
        push_str_chars(&mut out, ", max_registers: ");
        push_decimal(&mut out, self.max_registers as u64);
        push_str_chars(&mut out, "\n\n");
        let ghost head = out@;
        proof {
            assert(head =~= header_text(self.label(), self.params(), self.rest(), self.registers()));
        }
        let ghost tx = texts_of(texts@);
        let mut i: usize = 0;
        while i < self.code.len()
            invariant
                i <= self.code@.len(),
                tx == texts_of(texts@),
                out@ == head + lines_text(self.code@, self.spans@, tx, i as nat),
            decreases self.code@.len() - i,
        {
            let line = self.disassemble_instruction(i, self.code[i], texts);
            push_str_chars(&mut out, line.as_str());
            push_char(&mut out, '\n');
            proof {
                reveal_strlit("\n");
                assert(((i as int) as usize) == i);
                assert(out@ =~= head + lines_text(self.code@, self.spans@, tx, (i + 1) as nat));
            }
            i = i + 1;
        }
        let ghost body = out@;
        if texts.len() > 0 {
            push_str_chars(&mut out, "\nConstants:\n");
            let ghost start = out@;
            let mut j: usize = 0;
            while j < texts.len()
                invariant
                    j <= texts@.len(),
                    tx == texts_of(texts@),
                    out@ == start + constant_lines(tx, j as nat),
                decreases texts@.len() - j,
            {
                push_str_chars(&mut out, "  K");
                push_decimal(&mut out, j as u64);
                push_str_chars(&mut out, ": ");
                push_str_chars(&mut out, texts[j].as_str());
                push_char(&mut out, '\n');
                proof {
                    reveal_strlit("\n");
                    assert(texts@[j as int]@ == tx[j as int]);
                    assert(out@ =~= start + constant_lines(tx, (j + 1) as nat));
                }
                j = j + 1;
            }
        }
        assert(out@ =~= header_text(self.label(), self.params(), self.rest(), self.registers()) + lines_text(
            self.words(),
            self.span_list(),
            texts_of(texts@),
            self.words().len(),
        ) + constants_text(texts_of(texts@)));
        out
    }
}

impl<K> Default for Chunk<K> {
    fn default() -> (r: Self)
        ensures
            r.words() == Seq::<u32>::empty(),
            r.pool() == Seq::<K>::empty(),
            r.label() == Seq::<char>::empty(),
    {
        Chunk::new()
    }
}

/// The start of a listing line: the offset in four digits, then the
/// source byte offset in four columns (or `?`).
pub open spec fn line_head(offset: usize, span_start: Option<usize>) -> Seq<char> {
    pad_left(decimal_text(offset as nat), 4, '0') + "    "@ + match span_start {
        Some(st) => pad_left(decimal_text(st as nat), 4, ' ') + seq![' '],
        None => "   ? "@,
    }
}

/// A valid instruction's line: the head, the opcode's name in twelve
/// columns, the operands.
proof fn lemma_line_of(op: Opcode, w: u32, offset: usize, span_start: Option<usize>, k: Option<Seq<char>>)
    requires
        field_op(w) == op.code(),
    ensures
        line_text(offset, w, span_start, k) == line_head(offset, span_start) + pad_right(op.name_text(), 12)
            + operands_text(op, w, offset, k),
{
    law_opcode_numbers(op, op);
    let o = choose|o: Opcode| o.code() == field_op(w);
    law_opcode_numbers(o, op);
}

/// A tail call of register `a` lists `Ra, B` and notes `B args`: its
/// argument count is operand B, whatever operand C holds.
pub proof fn law_tail_call_listing(offset: usize, a: u8, b: u8, c: u8, span_start: Option<usize>, k: Option<Seq<char>>)
    ensures
        line_text(offset, abc_word(Opcode::TailCall.code(), a, b, c) as u32, span_start, k)
            == line_head(offset, span_start) + pad_right("TailCall"@, 12) + (seq!['R'] + decimal_text(a as nat)
            + ", "@ + decimal_text(b as nat) + ("        ; "@ + (decimal_text(b as nat) + " args"@))),
{
    let w = abc_word(Opcode::TailCall.code(), a, b, c) as u32;
    law_abc_round_trip(Opcode::TailCall.code(), a, b, c);
    lemma_line_of(Opcode::TailCall, w, offset, span_start, k);
}

/// A call of register `a` lists `Ra, B, C` and notes `B args, C results`:
/// its argument count is operand B and its result count operand C.
pub proof fn law_call_listing(offset: usize, a: u8, b: u8, c: u8, span_start: Option<usize>, k: Option<Seq<char>>)
    ensures
        line_text(offset, abc_word(Opcode::Call.code(), a, b, c) as u32, span_start, k)
            == line_head(offset, span_start) + pad_right("Call"@, 12) + (seq!['R'] + decimal_text(a as nat) + ", "@
            + decimal_text(b as nat) + ", "@ + decimal_text(c as nat) + ("        ; "@ + (decimal_text(b as nat)
            + " args, "@ + decimal_text(c as nat) + " results"@))),
{
    let w = abc_word(Opcode::Call.code(), a, b, c) as u32;
    law_abc_round_trip(Opcode::Call.code(), a, b, c);
    lemma_line_of(Opcode::Call, w, offset, span_start, k);
}

/// A return from register `a` lists `Ra, B` and notes the B values it
/// returns, or that it returns all of them when B is 0.
pub proof fn law_return_listing(offset: usize, a: u8, b: u8, c: u8, span_start: Option<usize>, k: Option<Seq<char>>)
    ensures
        line_text(offset, abc_word(Opcode::Return.code(), a, b, c) as u32, span_start, k)
            == line_head(offset, span_start) + pad_right("Return"@, 12) + (seq!['R'] + decimal_text(a as nat)
            + ", "@ + decimal_text(b as nat) + ("        ; "@ + (if b == 0 {
            "return all"@
        } else {
            "return "@ + decimal_text(b as nat) + " values"@
        }))),
{
    let w = abc_word(Opcode::Return.code(), a, b, c) as u32;
    law_abc_round_trip(Opcode::Return.code(), a, b, c);
    lemma_line_of(Opcode::Return, w, offset, span_start, k);
}

} // verus!
