//! Symbolic register instructions and their assembly into DEX code units.
use vstd::prelude::*;
use crate::encoding::DexError;

verus! {

#[derive(Clone, Copy, Debug, PartialEq, Eq, PartialOrd, Ord, Structural)]
pub enum ValueKind {
    I32,
    Bool,
    Reference,
}

#[derive(Clone, Copy, Debug, PartialEq, Eq, PartialOrd, Ord, Structural)]
pub struct Register {
    pub index: u8,
    pub kind: ValueKind,
}

#[derive(Clone, Copy, Debug, PartialEq, Eq, PartialOrd, Ord, Structural)]
pub struct Label(pub u16);

#[derive(Clone, Debug, PartialEq, Eq)]
pub enum Instruction {
    Label(Label),
    Const4 { dst: Register, value: i8 },
    Const16 { dst: Register, value: i16 },
    Const32 { dst: Register, value: i32 },
    ConstString { dst: Register, string: u16 },
    ConstNull { dst: Register },
    Move { dst: Register, src: Register },
    MoveObject { dst: Register, src: Register },
    NewInstance { dst: Register, ty: u16 },
    NewArray { dst: Register, size: Register, ty: u16 },
    AputObject { value: Register, array: Register, index: Register },
    IGet { dst: Register, object: Register, field: u16 },
    SGet { dst: Register, field: u16 },
    IPut { src: Register, object: Register, field: u16 },
    AddInt { dst: Register, left: Register, right: Register },
    SubInt { dst: Register, left: Register, right: Register },
    MulInt { dst: Register, left: Register, right: Register },
    DivInt { dst: Register, left: Register, right: Register },
    RemInt { dst: Register, left: Register, right: Register },
    RemIntLit8 { dst: Register, src: Register, value: i8 },
    AddInt2Addr { dst: Register, src: Register },
    AddIntLit8 { dst: Register, src: Register, value: i8 },
    IfGe { left: Register, right: Register, target: Label },
    IfNez { value: Register, target: Label },
    IfEqz { value: Register, target: Label },
    IfLt { left: Register, right: Register, target: Label },
    IfLe { left: Register, right: Register, target: Label },
    IfGt { left: Register, right: Register, target: Label },
    IfNe { left: Register, right: Register, target: Label },
    InvokeStatic { method: u16, args: Vec<Register> },
    InvokeVirtual { method: u16, args: Vec<Register> },
    InvokeSuper { method: u16, args: Vec<Register> },
    InvokeDirect { method: u16, args: Vec<Register> },
    InvokeInterface { method: u16, args: Vec<Register> },
    MoveResult { dst: Register },
    MoveResultObject { dst: Register },
    MoveResultWide { dst: u8 },
    LongToInt { dst: Register, src: u8 },
    Goto16 { target: Label },
    Return { value: Register },
    ReturnObject { value: Register },
    ReturnVoid,
}

/// Number of 16-bit code units an instruction occupies.
pub open spec fn spec_width(i: Instruction) -> nat {
    match i {
        Instruction::Label(_) => 0,
        Instruction::Const4 { .. } | Instruction::Move { .. } | Instruction::MoveObject { .. }
        | Instruction::MoveResult { .. } | Instruction::MoveResultObject { .. }
        | Instruction::MoveResultWide { .. } | Instruction::LongToInt { .. }
        | Instruction::ConstNull { .. } | Instruction::AddInt2Addr { .. }
        | Instruction::Return { .. } | Instruction::ReturnObject { .. }
        | Instruction::ReturnVoid => 1,
        Instruction::Const32 { .. } | Instruction::InvokeStatic { .. }
        | Instruction::InvokeVirtual { .. } | Instruction::InvokeSuper { .. }
        | Instruction::InvokeDirect { .. } | Instruction::InvokeInterface { .. } => 3,
        _ => 2,
    }
}

/// Code units occupied by a sequence of instructions.
pub open spec fn code_len(s: Seq<Instruction>) -> nat
    decreases s.len(),
{
    if s.len() == 0 {
        0
    } else {
        code_len(s.drop_last()) + spec_width(s.last())
    }
}

/// Index of the first definition of label `l`.
pub open spec fn label_index(s: Seq<Instruction>, l: u16) -> Option<int>
    decreases s.len(),
{
    if s.len() == 0 {
        None
    } else {
        match label_index(s.drop_last(), l) {
            Some(k) => Some(k),
            None => match s.last() {
                Instruction::Label(Label(m)) => if m == l { Some(s.len() - 1) } else { None },
                _ => None,
            },
        }
    }
}

/// First pass: labels are unique and the code size fits a `u32` cursor.
pub open spec fn resolve_labels(s: Seq<Instruction>) -> Result<(), DexError>
    decreases s.len(),
{
    if s.len() == 0 {
        Ok(())
    } else {
        match resolve_labels(s.drop_last()) {
            Err(e) => Err(e),
            Ok(_) => match s.last() {
                Instruction::Label(Label(l)) => if label_index(s.drop_last(), l) is Some {
                    Err(DexError::InvalidInput("duplicate DEX label"))
                } else {
                    Ok(())
                },
                _ => if code_len(s) > u32::MAX {
                    Err(DexError::ArithmeticOverflow)
                } else {
                    Ok(())
                },
            },
        }
    }
}

pub open spec fn spec_reference(r: Register) -> Result<u8, DexError> {
    if r.index > 15 {
        Err(DexError::InvalidInput("M2 register index exceeds 15"))
    } else if r.kind == ValueKind::Reference {
        Ok(r.index)
    } else {
        Err(DexError::InvalidInput("object instruction received a scalar register"))
    }
}

pub open spec fn spec_integer(r: Register) -> Result<u8, DexError> {
    if r.index > 15 {
        Err(DexError::InvalidInput("M2 register index exceeds 15"))
    } else if r.kind == ValueKind::I32 || r.kind == ValueKind::Bool {
        Ok(r.index)
    } else {
        Err(DexError::InvalidInput("integer instruction received a reference register"))
    }
}

/// Relative branch offset from code unit `at` to label `target` of `s`.
pub open spec fn spec_branch(s: Seq<Instruction>, target: Label, at: nat) -> Result<u16, DexError> {
    match label_index(s, target.0) {
        None => Err(DexError::InvalidInput("undefined DEX label")),
        Some(k) => {
            let delta = code_len(s.take(k)) - at;
            if -32768 <= delta <= 32767 {
                Ok((delta as i16) as u16)
            } else {
                Err(DexError::InvalidInput("DEX branch offset exceeds i16"))
            }
        },
    }
}

/// Register nibble `a` placed after `opcode`, and nibble `b` above it.
pub open spec fn op_ab(opcode: u16, a: u8, b: u8) -> u16 {
    opcode | (a as u16) << 8u16 | (b as u16) << 12u16
}

pub open spec fn op_a(opcode: u16, a: u8) -> u16 {
    opcode | (a as u16) << 8u16
}

/// Two-register operation followed by a second code unit.
pub open spec fn spec_two_reg(op: u16, a: Result<u8, DexError>, b: Result<u8, DexError>, second: Result<u16, DexError>) -> Result<Seq<u16>, DexError> {
    match a {
        Err(e) => Err(e),
        Ok(x) => match b {
            Err(e) => Err(e),
            Ok(y) => match second {
                Err(e) => Err(e),
                Ok(w) => Ok(seq![op_ab(op, x, y), w]),
            },
        },
    }
}

/// Three-register arithmetic `op dst, left, right`.
pub open spec fn spec_three_reg(op: u16, d: Register, l: Register, r: Register) -> Result<Seq<u16>, DexError> {
    match spec_integer(d) {
        Err(e) => Err(e),
        Ok(x) => match spec_integer(l) {
            Err(e) => Err(e),
            Ok(y) => match spec_integer(r) {
                Err(e) => Err(e),
                Ok(z) => Ok(seq![op_a(op, x), (y as u16) | (z as u16) << 8u16]),
            },
        },
    }
}

/// Literal-operand arithmetic `op dst, src, #value`.
pub open spec fn spec_lit8(op: u16, d: Register, s: Register, v: i8) -> Result<Seq<u16>, DexError> {
    match spec_integer(d) {
        Err(e) => Err(e),
        Ok(x) => match spec_integer(s) {
            Err(e) => Err(e),
            Ok(y) => Ok(seq![op_a(op, x), (y as u16) | ((v as u8) as u16) << 8u16]),
        },
    }
}

/// Packs the first four argument registers, four bits each.
pub open spec fn arg_nibbles(args: Seq<Register>, n: nat) -> u16
    decreases n,
{
    if n == 0 {
        0
    } else {
        arg_nibbles(args, (n - 1) as nat) | (args[n - 1].index as u16) << (((n - 1) * 4) as u16)
    }
}

pub open spec fn spec_invoke(op: u16, method: u16, args: Seq<Register>) -> Result<Seq<u16>, DexError> {
    if args.len() > 5 {
        Err(DexError::InvalidInput("invoke-static exceeds five arguments"))
    } else if exists|k: int| 0 <= k < args.len() && k < 4 && #[trigger] args[k].index > 15 {
        Err(DexError::InvalidInput("M2 register index exceeds 15"))
    } else {
        let n: nat = if args.len() < 4 { args.len() } else { 4 };
        let fifth: u8 = if args.len() == 5 { args[4].index } else { 0 };
        Ok(seq![op | (fifth as u16) << 8u16 | (args.len() as u16) << 12u16, method, arg_nibbles(args, n)])
    }
}

/// The code units of one instruction at code offset `at` of program `s`.
pub open spec fn spec_encode(i: Instruction, s: Seq<Instruction>, at: nat) -> Result<Seq<u16>, DexError> {
    match i {
        Instruction::Label(_) => Ok(Seq::empty()),
        Instruction::Const4 { dst, value } => match spec_integer(dst) {
            Err(e) => Err(e),
            Ok(d) => if -8 <= value <= 7 {
                Ok(seq![op_ab(0x12, d, (value as u8) & 0x0f)])
            } else {
                Err(DexError::InvalidInput("const/4 literal outside range"))
            },
        },
        Instruction::Const16 { dst, value } => match spec_integer(dst) {
            Err(e) => Err(e),
            Ok(d) => Ok(seq![op_a(0x13, d), value as u16]),
        },
        Instruction::Const32 { dst, value } => match spec_integer(dst) {
            Err(e) => Err(e),
            Ok(d) => Ok(seq![op_a(0x14, d), (value as u32) as u16, ((value as u32) >> 16u32) as u16]),
        },
        Instruction::ConstString { dst, string } => match spec_reference(dst) {
            Err(e) => Err(e),
            Ok(d) => Ok(seq![op_a(0x1a, d), string]),
        },
        Instruction::ConstNull { dst } => if dst.kind != ValueKind::Reference || dst.index > 15 {
            Err(DexError::InvalidInput("invalid null register"))
        } else {
            Ok(seq![op_a(0x12, dst.index)])
        },
        Instruction::Move { dst, src } => match spec_integer(dst) {
            Err(e) => Err(e),
            Ok(d) => match spec_integer(src) {
                Err(e) => Err(e),
                Ok(r) => Ok(seq![op_ab(0x01, d, r)]),
            },
        },
        Instruction::MoveObject { dst, src } => match spec_reference(dst) {
            Err(e) => Err(e),
            Ok(d) => match spec_reference(src) {
                Err(e) => Err(e),
                Ok(r) => Ok(seq![op_ab(0x07, d, r)]),
            },
        },
        Instruction::NewInstance { dst, ty } => match spec_reference(dst) {
            Err(e) => Err(e),
            Ok(d) => Ok(seq![op_a(0x22, d), ty]),
        },
        Instruction::NewArray { dst, size, ty } => spec_two_reg(0x23, spec_reference(dst), spec_integer(size), Ok(ty)),
        Instruction::AputObject { value, array, index } => match spec_reference(value) {
            Err(e) => Err(e),
            Ok(v) => match spec_reference(array) {
                Err(e) => Err(e),
                Ok(a) => match spec_integer(index) {
                    Err(e) => Err(e),
                    Ok(x) => Ok(seq![op_a(0x4d, v), (a as u16) | (x as u16) << 8u16]),
                },
            },
        },
        Instruction::IGet { dst, object, field } => {
            let opcode: u16 = if dst.kind == ValueKind::Reference { 0x54 } else if dst.kind == ValueKind::Bool { 0x55 } else { 0x52 };
            if object.kind != ValueKind::Reference || dst.index > 15 || object.index > 15 {
                Err(DexError::InvalidInput("invalid instance field register"))
            } else {
                Ok(seq![op_ab(opcode, dst.index, object.index), field])
            }
        },
        Instruction::IPut { src, object, field } => {
            let opcode: u16 = if src.kind == ValueKind::Reference { 0x5b } else if src.kind == ValueKind::Bool { 0x5c } else { 0x59 };
            if object.kind != ValueKind::Reference || src.index > 15 || object.index > 15 {
                Err(DexError::InvalidInput("invalid instance field register"))
            } else {
                Ok(seq![op_ab(opcode, src.index, object.index), field])
            }
        },
        Instruction::SGet { dst, field } => if dst.kind == ValueKind::Reference {
            Err(DexError::InvalidInput("invalid static field register"))
        } else {
            let opcode: u16 = if dst.kind == ValueKind::Bool { 0x63 } else { 0x60 };
            Ok(seq![op_a(opcode, dst.index), field])
        },
        Instruction::AddInt { dst, left, right } => spec_three_reg(0x90, dst, left, right),
        Instruction::SubInt { dst, left, right } => spec_three_reg(0x91, dst, left, right),
        Instruction::MulInt { dst, left, right } => spec_three_reg(0x92, dst, left, right),
        Instruction::DivInt { dst, left, right } => spec_three_reg(0x93, dst, left, right),
        Instruction::RemInt { dst, left, right } => spec_three_reg(0x94, dst, left, right),
        Instruction::RemIntLit8 { dst, src, value } => spec_lit8(0xdc, dst, src, value),
        Instruction::AddInt2Addr { dst, src } => match spec_integer(dst) {
            Err(e) => Err(e),
            Ok(d) => match spec_integer(src) {
                Err(e) => Err(e),
                Ok(r) => Ok(seq![op_ab(0xb0, d, r)]),
            },
        },
        Instruction::AddIntLit8 { dst, src, value } => spec_lit8(0xd8, dst, src, value),
        Instruction::IfGe { left, right, target } => spec_two_reg(0x35, spec_integer(left), spec_integer(right), spec_branch(s, target, at)),
        Instruction::IfLt { left, right, target } => spec_two_reg(0x34, spec_integer(left), spec_integer(right), spec_branch(s, target, at)),
        Instruction::IfLe { left, right, target } => spec_two_reg(0x37, spec_integer(left), spec_integer(right), spec_branch(s, target, at)),
        Instruction::IfGt { left, right, target } => spec_two_reg(0x36, spec_integer(left), spec_integer(right), spec_branch(s, target, at)),
        Instruction::IfNez { value, target } => match spec_integer(value) {
            Err(e) => Err(e),
            Ok(v) => match spec_branch(s, target, at) {
                Err(e) => Err(e),
                Ok(b) => Ok(seq![op_a(0x39, v), b]),
            },
        },
        Instruction::IfEqz { value, target } => match spec_integer(value) {
            Err(e) => Err(e),
            Ok(v) => match spec_branch(s, target, at) {
                Err(e) => Err(e),
                Ok(b) => Ok(seq![op_a(0x38, v), b]),
            },
        },
        Instruction::IfNe { left, right, target } => if left.kind != right.kind || left.index > 15 || right.index > 15 {
            Err(DexError::InvalidInput("if-ne register mismatch"))
        } else {
            match spec_branch(s, target, at) {
                Err(e) => Err(e),
                Ok(b) => Ok(seq![op_ab(0x33, left.index, right.index), b]),
            }
        },
        Instruction::InvokeStatic { method, args } => spec_invoke(0x71, method, args@),
        Instruction::InvokeVirtual { method, args } => spec_invoke(0x6e, method, args@),
        Instruction::InvokeSuper { method, args } => spec_invoke(0x6f, method, args@),
        Instruction::InvokeDirect { method, args } => spec_invoke(0x70, method, args@),
        Instruction::InvokeInterface { method, args } => spec_invoke(0x72, method, args@),
        Instruction::MoveResult { dst } => match spec_integer(dst) {
            Err(e) => Err(e),
            Ok(d) => Ok(seq![op_a(0x0a, d)]),
        },
        Instruction::MoveResultObject { dst } => match spec_reference(dst) {
            Err(e) => Err(e),
            Ok(d) => Ok(seq![op_a(0x0c, d)]),
        },
        Instruction::MoveResultWide { dst } => if dst > 14 {
            Err(DexError::InvalidInput("wide result register exceeds 14"))
        } else {
            Ok(seq![op_a(0x0b, dst)])
        },
        Instruction::LongToInt { dst, src } => if src > 14 {
            Err(DexError::InvalidInput("wide source register exceeds 14"))
        } else {
            match spec_integer(dst) {
                Err(e) => Err(e),
                Ok(d) => Ok(seq![op_ab(0x84, d, src)]),
            }
        },
        Instruction::Goto16 { target } => match spec_branch(s, target, at) {
            Err(e) => Err(e),
            Ok(b) => Ok(seq![0x29u16, b]),
        },
        Instruction::Return { value } => match spec_integer(value) {
            Err(e) => Err(e),
            Ok(v) => Ok(seq![op_a(0x0f, v)]),
        },
        Instruction::ReturnObject { value } => match spec_reference(value) {
            Err(e) => Err(e),
            Ok(v) => Ok(seq![op_a(0x11, v)]),
        },
        Instruction::ReturnVoid => Ok(seq![0x0eu16]),
    }
}

/// Second pass over the first `k` instructions of `s`.
pub open spec fn encode_prefix(s: Seq<Instruction>, k: nat) -> Result<Seq<u16>, DexError>
    decreases k,
{
    if k == 0 {
        Ok(Seq::empty())
    } else {
        match encode_prefix(s, (k - 1) as nat) {
            Err(e) => Err(e),
            Ok(w) => match spec_encode(s[k - 1], s, code_len(s.take(k - 1))) {
                Err(e) => Err(e),
                Ok(x) => Ok(w + x),
            },
        }
    }
}

/// The assembled code of a whole instruction sequence.
pub open spec fn spec_assemble(s: Seq<Instruction>) -> Result<Seq<u16>, DexError> {
    match resolve_labels(s) {
        Err(e) => Err(e),
        Ok(_) => if code_len(s) > usize::MAX {
            Err(DexError::ArithmeticOverflow)
        } else {
            encode_prefix(s, s.len())
        },
    }
}

/// Code offset of a label in a table of `(label, offset)` definitions.
pub open spec fn table_dest(t: Seq<(u16, u32)>, l: u16) -> Option<nat>
    decreases t.len(),
{
    if t.len() == 0 {
        None
    } else {
        match table_dest(t.drop_last(), l) {
            Some(v) => Some(v),
            None => if t.last().0 == l { Some(t.last().1 as nat) } else { None },
        }
    }
}

/// Code offset of the definition of label `l` among the first `k` instructions.
pub open spec fn prefix_dest(s: Seq<Instruction>, k: int, l: u16) -> Option<nat> {
    match label_index(s.take(k), l) {
        Some(j) => Some(code_len(s.take(j))),
        None => None,
    }
}

/// A register that integer instructions accept.
pub open spec fn small_integer_register(r: Register) -> bool {
    r.index <= 15 && (r.kind == ValueKind::I32 || r.kind == ValueKind::Bool)
}

/// The first code unit of an instruction with register `a` in its high byte.
proof fn op_a_value(op: u16, a: u8)
    requires
        op < 256,
    ensures
        op_a(op, a) == op + 256 * a,
{
    assert((op | (a as u16) << 8u16) == op + (a as u16) * 256) by (bit_vector)
        requires
            op < 256,
    ;
}

/// A unit holding register `a` in its low byte and `b` in its high byte.
proof fn pair_value(a: u8, b: u8)
    ensures
        (a as u16) | (b as u16) << 8u16 == a + 256 * b,
{
    assert(((a as u16) | (b as u16) << 8u16) == (a as u16) + (b as u16) * 256) by (bit_vector);
}

/// A unit holding nibbles `a` and `b` above the opcode byte.
proof fn op_ab_value(op: u16, a: u8, b: u8)
    requires
        op < 256,
        a < 16,
        b < 16,
    ensures
        op_ab(op, a, b) == op + 256 * a + 4096 * b,
{
    assert((op | (a as u16) << 8u16 | (b as u16) << 12u16) == op + (a as u16) * 256 + (b as u16) * 4096) by (bit_vector)
        requires
            op < 256,
            a < 16,
            b < 16,
    ;
}

/// One instruction that is not a label assembles alone to its own encoding at offset 0.
proof fn single_assembles(i: Instruction)
    requires
        !(i is Label),
        spec_encode(i, seq![i], 0) is Ok,
    ensures
        spec_assemble(seq![i]) == spec_encode(i, seq![i], 0),
{
    let s = seq![i];
    reveal_with_fuel(resolve_labels, 2);
    reveal_with_fuel(code_len, 2);
    reveal_with_fuel(encode_prefix, 2);
    assert(s.drop_last() =~= Seq::<Instruction>::empty());
    assert(s.take(0) =~= Seq::<Instruction>::empty());
    assert(code_len(s) == spec_width(i));
    assert(Seq::<u16>::empty() + spec_encode(i, s, 0)->Ok_0 =~= spec_encode(i, s, 0)->Ok_0);
}

/// The Dalvik three-register integer operations (format 23x): the opcode — `add-int` 0x90,
/// `sub-int` 0x91, `mul-int` 0x92, `div-int` 0x93, `rem-int` 0x94 — with the destination in
/// the high byte, then the left operand in the low byte and the right one in the high byte.
pub proof fn arithmetic_encodings(d: Register, l: Register, r: Register)
    requires
        small_integer_register(d),
        small_integer_register(l),
        small_integer_register(r),
    ensures
        spec_assemble(seq![Instruction::AddInt { dst: d, left: l, right: r }]) == Ok::<Seq<u16>, DexError>(
            seq![(0x90 + 256 * d.index) as u16, (l.index + 256 * r.index) as u16],
        ),
        spec_assemble(seq![Instruction::SubInt { dst: d, left: l, right: r }]) == Ok::<Seq<u16>, DexError>(
            seq![(0x91 + 256 * d.index) as u16, (l.index + 256 * r.index) as u16],
        ),
        spec_assemble(seq![Instruction::MulInt { dst: d, left: l, right: r }]) == Ok::<Seq<u16>, DexError>(
            seq![(0x92 + 256 * d.index) as u16, (l.index + 256 * r.index) as u16],
        ),
        spec_assemble(seq![Instruction::DivInt { dst: d, left: l, right: r }]) == Ok::<Seq<u16>, DexError>(
            seq![(0x93 + 256 * d.index) as u16, (l.index + 256 * r.index) as u16],
        ),
        spec_assemble(seq![Instruction::RemInt { dst: d, left: l, right: r }]) == Ok::<Seq<u16>, DexError>(
            seq![(0x94 + 256 * d.index) as u16, (l.index + 256 * r.index) as u16],
        ),
{
    op_a_value(0x90, d.index);
    op_a_value(0x91, d.index);
    op_a_value(0x92, d.index);
    op_a_value(0x93, d.index);
    op_a_value(0x94, d.index);
    pair_value(l.index, r.index);
    single_assembles(Instruction::AddInt { dst: d, left: l, right: r });
    single_assembles(Instruction::SubInt { dst: d, left: l, right: r });
    single_assembles(Instruction::MulInt { dst: d, left: l, right: r });
    single_assembles(Instruction::DivInt { dst: d, left: l, right: r });
    single_assembles(Instruction::RemInt { dst: d, left: l, right: r });
}

/// A register that object instructions accept.
pub open spec fn small_reference_register(r: Register) -> bool {
    r.index <= 15 && r.kind == ValueKind::Reference
}

/// The Dalvik moves, returns and literal loads of one register: `move` 0x01 (12x),
/// `move-result` 0x0a, `move-result-object` 0x0c, `return` 0x0f, `return-object` 0x11
/// (11x), `return-void` 0x0e, `const/16` 0x13 (21s: the literal as the second unit),
/// `add-int/2addr` 0xb0 (12x), and `add-int/lit8` 0xd8 and `rem-int/lit8` 0xdc (22b: source
/// register in the low byte, literal in the high byte of the second unit).
pub proof fn register_encodings(d: Register, x: Register, o: Register, v: i16, w: i8)
    requires
        small_integer_register(d),
        small_integer_register(x),
        small_reference_register(o),
    ensures
        spec_assemble(seq![Instruction::Move { dst: d, src: x }]) == Ok::<Seq<u16>, DexError>(
            seq![(0x01 + 256 * d.index + 4096 * x.index) as u16],
        ),
        spec_assemble(seq![Instruction::MoveResult { dst: d }]) == Ok::<Seq<u16>, DexError>(
            seq![(0x0a + 256 * d.index) as u16],
        ),
        spec_assemble(seq![Instruction::MoveResultObject { dst: o }]) == Ok::<Seq<u16>, DexError>(
            seq![(0x0c + 256 * o.index) as u16],
        ),
        spec_assemble(seq![Instruction::Return { value: d }]) == Ok::<Seq<u16>, DexError>(
            seq![(0x0f + 256 * d.index) as u16],
        ),
        spec_assemble(seq![Instruction::ReturnObject { value: o }]) == Ok::<Seq<u16>, DexError>(
            seq![(0x11 + 256 * o.index) as u16],
        ),
        spec_assemble(seq![Instruction::ReturnVoid]) == Ok::<Seq<u16>, DexError>(seq![0x0eu16]),
        spec_assemble(seq![Instruction::Const16 { dst: d, value: v }]) == Ok::<Seq<u16>, DexError>(
            seq![(0x13 + 256 * d.index) as u16, v as u16],
        ),
        spec_assemble(seq![Instruction::AddInt2Addr { dst: d, src: x }]) == Ok::<Seq<u16>, DexError>(
            seq![(0xb0 + 256 * d.index + 4096 * x.index) as u16],
        ),
        spec_assemble(seq![Instruction::AddIntLit8 { dst: d, src: x, value: w }]) == Ok::<Seq<u16>, DexError>(
            seq![(0xd8 + 256 * d.index) as u16, (x.index + 256 * (w as u8)) as u16],
        ),
        spec_assemble(seq![Instruction::RemIntLit8 { dst: d, src: x, value: w }]) == Ok::<Seq<u16>, DexError>(
            seq![(0xdc + 256 * d.index) as u16, (x.index + 256 * (w as u8)) as u16],
        ),
{
    op_ab_value(0x01, d.index, x.index);
    op_ab_value(0xb0, d.index, x.index);
    op_a_value(0x0a, d.index);
    op_a_value(0x0c, o.index);
    op_a_value(0x0f, d.index);
    op_a_value(0x11, o.index);
    op_a_value(0x13, d.index);
    op_a_value(0xd8, d.index);
    op_a_value(0xdc, d.index);
    pair_value(x.index, w as u8);
    single_assembles(Instruction::Move { dst: d, src: x });
    single_assembles(Instruction::MoveResult { dst: d });
    single_assembles(Instruction::MoveResultObject { dst: o });
    single_assembles(Instruction::Return { value: d });
    single_assembles(Instruction::ReturnObject { value: o });
    single_assembles(Instruction::ReturnVoid);
    single_assembles(Instruction::Const16 { dst: d, value: v });
    single_assembles(Instruction::AddInt2Addr { dst: d, src: x });
    single_assembles(Instruction::AddIntLit8 { dst: d, src: x, value: w });
    single_assembles(Instruction::RemIntLit8 { dst: d, src: x, value: w });
}

/// An instruction followed by a label assembles to the instruction's encoding at offset 0.
proof fn jump_assembles(i: Instruction, n: u16)
    requires
        !(i is Label),
        spec_width(i) == 2,
        spec_encode(i, seq![i, Instruction::Label(Label(n))], 0) is Ok,
    ensures
        spec_assemble(seq![i, Instruction::Label(Label(n))]) == spec_encode(i, seq![i, Instruction::Label(Label(n))], 0),
{
    let s = seq![i, Instruction::Label(Label(n))];
    reveal_with_fuel(resolve_labels, 3);
    reveal_with_fuel(code_len, 3);
    reveal_with_fuel(encode_prefix, 3);
    reveal_with_fuel(label_index, 3);
    assert(s.drop_last() =~= seq![i]);
    assert(s.drop_last().drop_last() =~= Seq::<Instruction>::empty());
    assert(s.take(0) =~= Seq::<Instruction>::empty());
    assert(s.take(1) =~= seq![i]);
    assert(code_len(s) == 2);
    assert(Seq::<u16>::empty() + spec_encode(i, s, 0)->Ok_0 =~= spec_encode(i, s, 0)->Ok_0);
}

/// The offset of a jump over itself: the label right after a two-unit branch is 2 units on.
proof fn forward_offset(i: Instruction, n: u16)
    requires
        !(i is Label),
        spec_width(i) == 2,
    ensures
        spec_branch(seq![i, Instruction::Label(Label(n))], Label(n), 0) == Ok::<u16, DexError>(2),
{
    let s = seq![i, Instruction::Label(Label(n))];
    reveal_with_fuel(label_index, 3);
    reveal_with_fuel(code_len, 3);
    assert(s.drop_last() =~= seq![i]);
    assert(s.drop_last().drop_last() =~= Seq::<Instruction>::empty());
    assert(s.take(1) =~= seq![i]);
    assert(s.take(1).drop_last() =~= Seq::<Instruction>::empty());
    assert(label_index(s, n) == Some(1int));
    assert(code_len(s.take(1)) == 2);
    assert(((2int as i16) as u16) == 2u16) by (bit_vector);
}

/// The Dalvik conditional branches and `goto/16`, jumping forward to the label right after
/// them: `if-ne` 0x33, `if-lt` 0x34, `if-ge` 0x35, `if-gt` 0x36, `if-le` 0x37 (22t: the two
/// registers in the high nibbles), `if-eqz` 0x38, `if-nez` 0x39 (21t), and `goto/16` 0x29;
/// the second unit is the offset in code units from the branch, here 2.
#[verifier::spinoff_prover]
#[verifier::rlimit(50)]
pub proof fn branch_encodings(a: Register, b: Register, n: u16)
    requires
        small_integer_register(a),
        small_integer_register(b),
        a.kind == b.kind,
    ensures
        spec_assemble(seq![Instruction::IfNe { left: a, right: b, target: Label(n) }, Instruction::Label(Label(n))])
            == Ok::<Seq<u16>, DexError>(seq![(0x33 + 256 * a.index + 4096 * b.index) as u16, 2u16]),
        spec_assemble(seq![Instruction::IfLt { left: a, right: b, target: Label(n) }, Instruction::Label(Label(n))])
            == Ok::<Seq<u16>, DexError>(seq![(0x34 + 256 * a.index + 4096 * b.index) as u16, 2u16]),
        spec_assemble(seq![Instruction::IfGe { left: a, right: b, target: Label(n) }, Instruction::Label(Label(n))])
            == Ok::<Seq<u16>, DexError>(seq![(0x35 + 256 * a.index + 4096 * b.index) as u16, 2u16]),
        spec_assemble(seq![Instruction::IfGt { left: a, right: b, target: Label(n) }, Instruction::Label(Label(n))])
            == Ok::<Seq<u16>, DexError>(seq![(0x36 + 256 * a.index + 4096 * b.index) as u16, 2u16]),
        spec_assemble(seq![Instruction::IfLe { left: a, right: b, target: Label(n) }, Instruction::Label(Label(n))])
            == Ok::<Seq<u16>, DexError>(seq![(0x37 + 256 * a.index + 4096 * b.index) as u16, 2u16]),
        spec_assemble(seq![Instruction::IfEqz { value: a, target: Label(n) }, Instruction::Label(Label(n))])
            == Ok::<Seq<u16>, DexError>(seq![(0x38 + 256 * a.index) as u16, 2u16]),
        spec_assemble(seq![Instruction::IfNez { value: a, target: Label(n) }, Instruction::Label(Label(n))])
            == Ok::<Seq<u16>, DexError>(seq![(0x39 + 256 * a.index) as u16, 2u16]),
        spec_assemble(seq![Instruction::Goto16 { target: Label(n) }, Instruction::Label(Label(n))])
            == Ok::<Seq<u16>, DexError>(seq![0x29u16, 2u16]),
{
    op_ab_value(0x33, a.index, b.index);
    op_ab_value(0x34, a.index, b.index);
    op_ab_value(0x35, a.index, b.index);
    op_ab_value(0x36, a.index, b.index);
    op_ab_value(0x37, a.index, b.index);
    op_a_value(0x38, a.index);
    op_a_value(0x39, a.index);
    let l = Label(n);
    forward_offset(Instruction::IfNe { left: a, right: b, target: l }, n);
    jump_assembles(Instruction::IfNe { left: a, right: b, target: l }, n);
    forward_offset(Instruction::IfLt { left: a, right: b, target: l }, n);
    jump_assembles(Instruction::IfLt { left: a, right: b, target: l }, n);
    forward_offset(Instruction::IfGe { left: a, right: b, target: l }, n);
    jump_assembles(Instruction::IfGe { left: a, right: b, target: l }, n);
    forward_offset(Instruction::IfGt { left: a, right: b, target: l }, n);
    jump_assembles(Instruction::IfGt { left: a, right: b, target: l }, n);
    forward_offset(Instruction::IfLe { left: a, right: b, target: l }, n);
    jump_assembles(Instruction::IfLe { left: a, right: b, target: l }, n);
    forward_offset(Instruction::IfEqz { value: a, target: l }, n);
    jump_assembles(Instruction::IfEqz { value: a, target: l }, n);
    forward_offset(Instruction::IfNez { value: a, target: l }, n);
    jump_assembles(Instruction::IfNez { value: a, target: l }, n);
    forward_offset(Instruction::Goto16 { target: l }, n);
    jump_assembles(Instruction::Goto16 { target: l }, n);
}

/// The Dalvik constant loads: `const/4` 0x12 (11n: the literal's low four bits, two's
/// complement, in the top nibble), `const-string` 0x1a and `new-instance` 0x22 (21c: the
/// pool index as the second unit).
pub proof fn constant_encodings(d: Register, o: Register, v: i8, index: u16)
    requires
        small_integer_register(d),
        small_reference_register(o),
        -8 <= v <= 7,
    ensures
        spec_assemble(seq![Instruction::Const4 { dst: d, value: v }]) == Ok::<Seq<u16>, DexError>(
            seq![(0x12 + 256 * d.index + 4096 * (if v < 0 { v + 16 } else { v as int })) as u16],
        ),
        spec_assemble(seq![Instruction::ConstString { dst: o, string: index }]) == Ok::<Seq<u16>, DexError>(
            seq![(0x1a + 256 * o.index) as u16, index],
        ),
        spec_assemble(seq![Instruction::NewInstance { dst: o, ty: index }]) == Ok::<Seq<u16>, DexError>(
            seq![(0x22 + 256 * o.index) as u16, index],
        ),
{
    let nib = (v as u8) & 0x0f;
    assert(-8 <= v <= 7 ==> nib as int == (if v < 0 { v + 16 } else { v as int })) by (bit_vector)
        requires
            nib == (v as u8) & 0x0f;
    op_ab_value(0x12, d.index, nib);
    op_a_value(0x1a, o.index);
    op_a_value(0x22, o.index);
    single_assembles(Instruction::Const4 { dst: d, value: v });
    single_assembles(Instruction::ConstString { dst: o, string: index });
    single_assembles(Instruction::NewInstance { dst: o, ty: index });
}

/// The Dalvik invocations of one method with two argument registers (format 35c): the opcode
/// — `invoke-virtual` 0x6e, `invoke-super` 0x6f, `invoke-direct` 0x70, `invoke-static` 0x71,
/// `invoke-interface` 0x72 — with the argument count in the top nibble, then the method
/// index, then the argument registers a nibble each, first argument lowest.
pub proof fn invoke_encodings(method: u16, args: Vec<Register>, a: Register, b: Register)
    requires
        args@ == seq![a, b],
        a.index <= 15,
        b.index <= 15,
    ensures
        spec_assemble(seq![Instruction::InvokeVirtual { method, args }]) == Ok::<Seq<u16>, DexError>(
            seq![(0x6e + 0x2000) as u16, method, (a.index + 16 * b.index) as u16],
        ),
        spec_assemble(seq![Instruction::InvokeSuper { method, args }]) == Ok::<Seq<u16>, DexError>(
            seq![(0x6f + 0x2000) as u16, method, (a.index + 16 * b.index) as u16],
        ),
        spec_assemble(seq![Instruction::InvokeDirect { method, args }]) == Ok::<Seq<u16>, DexError>(
            seq![(0x70 + 0x2000) as u16, method, (a.index + 16 * b.index) as u16],
        ),
        spec_assemble(seq![Instruction::InvokeStatic { method, args }]) == Ok::<Seq<u16>, DexError>(
            seq![(0x71 + 0x2000) as u16, method, (a.index + 16 * b.index) as u16],
        ),
        spec_assemble(seq![Instruction::InvokeInterface { method, args }]) == Ok::<Seq<u16>, DexError>(
            seq![(0x72 + 0x2000) as u16, method, (a.index + 16 * b.index) as u16],
        ),
{
    let x = a.index;
    let y = b.index;
    reveal_with_fuel(arg_nibbles, 3);
    assert(((0u16 | (x as u16) << 0u16) | (y as u16) << 4u16) == (x as u16) + 16 * (y as u16)) by (bit_vector)
        requires
            x <= 15,
            y <= 15,
    ;
    assert((0x6eu16 | (0u8 as u16) << 8u16 | (2u16) << 12u16) == 0x6eu16 + 0x2000) by (bit_vector);
    assert((0x6fu16 | (0u8 as u16) << 8u16 | (2u16) << 12u16) == 0x6fu16 + 0x2000) by (bit_vector);
    assert((0x70u16 | (0u8 as u16) << 8u16 | (2u16) << 12u16) == 0x70u16 + 0x2000) by (bit_vector);
    assert((0x71u16 | (0u8 as u16) << 8u16 | (2u16) << 12u16) == 0x71u16 + 0x2000) by (bit_vector);
    assert((0x72u16 | (0u8 as u16) << 8u16 | (2u16) << 12u16) == 0x72u16 + 0x2000) by (bit_vector);
    assert(!(exists|k: int| 0 <= k < args@.len() && k < 4 && #[trigger] args@[k].index > 15));
    assert(args@.len() == 2);
    assert(arg_nibbles(args@, 2) == (a.index + 16 * b.index) as u16);
    single_assembles(Instruction::InvokeVirtual { method, args });
    single_assembles(Instruction::InvokeSuper { method, args });
    single_assembles(Instruction::InvokeDirect { method, args });
    single_assembles(Instruction::InvokeStatic { method, args });
    single_assembles(Instruction::InvokeInterface { method, args });
}

/// A label placed twice makes the sequence unassemblable.
pub proof fn duplicate_label_refused(s: Seq<Instruction>, i: int, j: int, l: u16)
    requires
        0 <= i < j < s.len(),
        s[i] == Instruction::Label(Label(l)),
        s[j] == Instruction::Label(Label(l)),
    ensures
        (spec_assemble(s) is Err),
        (resolve_labels(s) is Err),
    decreases s.len(),
{
    if j < s.len() - 1 {
        let t = s.drop_last();
        assert(t[i] == s[i] && t[j] == s[j]);
        duplicate_label_refused(t, i, j, l);
    } else {
        label_found(s.drop_last(), i, l);
    }
}

/// A label placed at position `i` is found at or before `i`.
proof fn label_found(s: Seq<Instruction>, i: int, l: u16)
    requires
        0 <= i < s.len(),
        s[i] == Instruction::Label(Label(l)),
    ensures
        (label_index(s, l) is Some),
    decreases s.len(),
{
    if i < s.len() - 1 {
        let t = s.drop_last();
        assert(t[i] == s[i]);
        label_found(t, i, l);
    }
}

/// A jump to a label that the sequence never places makes it unassemblable.
pub proof fn undefined_label_refused(s: Seq<Instruction>, k: int, l: u16)
    requires
        0 <= k < s.len(),
        s[k] == (Instruction::Goto16 { target: Label(l) }),
        (label_index(s, l) is None),
    ensures
        (spec_assemble(s) is Err),
{
    if resolve_labels(s) is Ok && code_len(s) <= usize::MAX {
        if encode_prefix(s, k as nat) is Err {
            encode_error_persists(s, k as nat, s.len());
        } else {
            assert(encode_prefix(s, (k + 1) as nat) is Err);
            encode_error_persists(s, (k + 1) as nat, s.len());
        }
    }
}

proof fn table_dest_prefix(t: Seq<(u16, u32)>, i: int, l: u16)
    requires
        0 <= i <= t.len(),
        table_dest(t.take(i), l) is Some,
    ensures
        table_dest(t, l) == table_dest(t.take(i), l),
    decreases t.len() - i,
{
    if i < t.len() {
        assert(t.take(i + 1).drop_last() =~= t.take(i));
        table_dest_prefix(t, i + 1, l);
    } else {
        assert(t.take(i) =~= t);
    }
}

proof fn code_len_monotone(s: Seq<Instruction>, k: int, m: int)
    requires
        0 <= k <= m <= s.len(),
    ensures
        code_len(s.take(k)) <= code_len(s.take(m)),
    decreases m - k,
{
    if k < m {
        code_len_monotone(s, k, m - 1);
        assert(s.take(m).drop_last() =~= s.take(m - 1));
    }
}

proof fn label_index_in_bounds(s: Seq<Instruction>, l: u16)
    ensures
        label_index(s, l) matches Some(j) ==> 0 <= j < s.len(),
    decreases s.len(),
{
    if s.len() > 0 {
        label_index_in_bounds(s.drop_last(), l);
    }
}

proof fn resolve_labels_error_persists(s: Seq<Instruction>, j: int)
    requires
        0 <= j <= s.len(),
        resolve_labels(s.take(j)) is Err,
    ensures
        resolve_labels(s) == resolve_labels(s.take(j)),
    decreases s.len() - j,
{
    if j < s.len() {
        assert(s.take(j + 1).drop_last() =~= s.take(j));
        resolve_labels_error_persists(s, j + 1);
    } else {
        assert(s.take(j) =~= s);
    }
}

proof fn encode_error_persists(s: Seq<Instruction>, j: nat, m: nat)
    requires
        j <= m,
        encode_prefix(s, j) is Err,
    ensures
        encode_prefix(s, m) == encode_prefix(s, j),
    decreases m - j,
{
    if j < m {
        encode_error_persists(s, j, (m - 1) as nat);
    }
}

fn one(a: u16) -> (r: Vec<u16>)
    ensures
        r@ == seq![a],
{
    let mut v = Vec::new();
    v.push(a);
    assert(v@ =~= seq![a]);
    v
}

fn two(a: u16, b: u16) -> (r: Vec<u16>)
    ensures
        r@ == seq![a, b],
{
    let mut v = Vec::new();
    v.push(a);
    v.push(b);
    assert(v@ =~= seq![a, b]);
    v
}

fn three(a: u16, b: u16, c: u16) -> (r: Vec<u16>)
    ensures
        r@ == seq![a, b, c],
{
    let mut v = Vec::new();
    v.push(a);
    v.push(b);
    v.push(c);
    assert(v@ =~= seq![a, b, c]);
    v
}

fn find_label(labels: &Vec<(u16, u32)>, l: u16) -> (r: Option<u32>)
    ensures
        r matches Some(v) ==> table_dest(labels@, l) == Some(v as nat),
        r is None ==> table_dest(labels@, l) is None,
{
    let mut i: usize = 0;
    while i < labels.len()
        invariant
            i <= labels@.len(),
            table_dest(labels@.take(i as int), l) is None,
        decreases labels@.len() - i,
    {
        assert(labels@.take(i + 1).drop_last() =~= labels@.take(i as int));
        if labels[i].0 == l {
            proof {
                table_dest_prefix(labels@, i + 1, l);
            }
            return Some(labels[i].1);
        }
        i = i + 1;
    }
    assert(labels@.take(i as int) =~= labels@);
    None
}

fn reference(register: Register) -> (r: Result<u8, DexError>)
    ensures
        r == spec_reference(register),
{
    if register.index > 15 {
        return Err(DexError::InvalidInput("M2 register index exceeds 15"));
    }
    if register.kind == ValueKind::Reference {
        Ok(register.index)
    } else {
        Err(DexError::InvalidInput("object instruction received a scalar register"))
    }
}

fn integer(register: Register) -> (r: Result<u8, DexError>)
    ensures
        r == spec_integer(register),
{
    if register.index > 15 {
        return Err(DexError::InvalidInput("M2 register index exceeds 15"));
    }
    if register.kind == ValueKind::I32 || register.kind == ValueKind::Bool {
        Ok(register.index)
    } else {
        Err(DexError::InvalidInput("integer instruction received a reference register"))
    }
}

fn branch(labels: &Vec<(u16, u32)>, target: Label, at: u32, Ghost(s): Ghost<Seq<Instruction>>) -> (r: Result<u16, DexError>)
    requires
        forall|l: u16| table_dest(labels@, l) == prefix_dest(s, s.len() as int, l),
    ensures
        r == spec_branch(s, target, at as nat),
{
    assert(s.take(s.len() as int) =~= s);
    let destination = match find_label(labels, target.0) {
        Some(d) => d,
        None => return Err(DexError::InvalidInput("undefined DEX label")),
    };
    let delta: i64 = destination as i64 - at as i64;
    if delta < -32768 || delta > 32767 {
        return Err(DexError::InvalidInput("DEX branch offset exceeds i16"));
    }
    Ok((delta as i16) as u16)
}

fn two_reg(op: u16, a: Result<u8, DexError>, b: Result<u8, DexError>, second: Result<u16, DexError>) -> (r: Result<Vec<u16>, DexError>)
    ensures
        match r {
            Ok(v) => spec_two_reg(op, a, b, second) == Ok::<Seq<u16>, DexError>(v@),
            Err(e) => spec_two_reg(op, a, b, second) == Err::<Seq<u16>, DexError>(e),
        },
{
    let x = a?;
    let y = b?;
    let w = second?;
    Ok(two(op | (x as u16) << 8u16 | (y as u16) << 12u16, w))
}

fn three_reg(op: u16, d: Register, l: Register, rr: Register) -> (r: Result<Vec<u16>, DexError>)
    ensures
        match r {
            Ok(v) => spec_three_reg(op, d, l, rr) == Ok::<Seq<u16>, DexError>(v@),
            Err(e) => spec_three_reg(op, d, l, rr) == Err::<Seq<u16>, DexError>(e),
        },
{
    let x = integer(d)?;
    let y = integer(l)?;
    let z = integer(rr)?;
    Ok(two(op | (x as u16) << 8u16, (y as u16) | (z as u16) << 8u16))
}

fn lit8(op: u16, d: Register, src: Register, v: i8) -> (r: Result<Vec<u16>, DexError>)
    ensures
        match r {
            Ok(w) => spec_lit8(op, d, src, v) == Ok::<Seq<u16>, DexError>(w@),
            Err(e) => spec_lit8(op, d, src, v) == Err::<Seq<u16>, DexError>(e),
        },
{
    let x = integer(d)?;
    let y = integer(src)?;
    Ok(two(op | (x as u16) << 8u16, (y as u16) | ((v as u8) as u16) << 8u16))
}

fn invoke(op: u16, method: u16, args: &Vec<Register>) -> (r: Result<Vec<u16>, DexError>)
    ensures
        match r {
            Ok(w) => spec_invoke(op, method, args@) == Ok::<Seq<u16>, DexError>(w@),
            Err(e) => spec_invoke(op, method, args@) == Err::<Seq<u16>, DexError>(e),
        },
{
    if args.len() > 5 {
        return Err(DexError::InvalidInput("invoke-static exceeds five arguments"));
    }
    let n: usize = if args.len() < 4 { args.len() } else { 4 };
    let mut registers: u16 = 0;
    let mut slot: usize = 0;
    while slot < n
        invariant
            n <= args@.len(),
            n <= 4,
            args@.len() <= 5,
            slot <= n,
            registers == arg_nibbles(args@, slot as nat),
            forall|k: int| 0 <= k < slot ==> args@[k].index <= 15,
        decreases n - slot,
    {
        if args[slot].index > 15 {
            assert(0 <= slot < args@.len() && slot < 4 && args@[slot as int].index > 15);
            assert(exists|k: int| 0 <= k < args@.len() && k < 4 && #[trigger] args@[k].index > 15);

            return Err(DexError::InvalidInput("M2 register index exceeds 15"));
        }
        registers = registers | (args[slot].index as u16) << ((slot * 4) as u16);
        slot = slot + 1;
    }
    let fifth: u8 = if args.len() == 5 { args[4].index } else { 0 };
    Ok(three(op | (fifth as u16) << 8u16 | (args.len() as u16) << 12u16, method, registers))
}

#[verifier::rlimit(60)]
fn encode_data(ins: &Instruction, labels: &Vec<(u16, u32)>, at: u32, Ghost(s): Ghost<Seq<Instruction>>) -> (r: Result<Vec<u16>, DexError>)
    requires
        family(*ins) == 0,
        forall|l: u16| table_dest(labels@, l) == prefix_dest(s, s.len() as int, l),
    ensures
        match r {
            Ok(w) => spec_encode(*ins, s, at as nat) == Ok::<Seq<u16>, DexError>(w@),
            Err(e) => spec_encode(*ins, s, at as nat) == Err::<Seq<u16>, DexError>(e),
        },
{
    match ins {
        Instruction::Label(_) => Ok(Vec::new()),
        Instruction::Const4 { dst, value } => {
            let d = integer(*dst)?;
            if *value < -8 || *value > 7 {
                return Err(DexError::InvalidInput("const/4 literal outside range"));
            }
            let literal = (*value as u8) & 0x0f;
            Ok(one(0x12u16 | (d as u16) << 8u16 | (literal as u16) << 12u16))
        },
        Instruction::Const16 { dst, value } => {
            let d = integer(*dst)?;
            Ok(two(0x13u16 | (d as u16) << 8u16, *value as u16))
        },
        Instruction::Const32 { dst, value } => {
            let d = integer(*dst)?;
            let bits = *value as u32;
            Ok(three(0x14u16 | (d as u16) << 8u16, bits as u16, (bits >> 16u32) as u16))
        },
        Instruction::ConstString { dst, string } => {
            let d = reference(*dst)?;
            Ok(two(0x1au16 | (d as u16) << 8u16, *string))
        },
        Instruction::ConstNull { dst } => {
            if dst.kind != ValueKind::Reference || dst.index > 15 {
                return Err(DexError::InvalidInput("invalid null register"));
            }
            Ok(one(0x12u16 | (dst.index as u16) << 8u16))
        },
        Instruction::Move { dst, src } => {
            let d = integer(*dst)?;
            let r = integer(*src)?;
            Ok(one(0x01u16 | (d as u16) << 8u16 | (r as u16) << 12u16))
        },
        Instruction::MoveObject { dst, src } => {
            let d = reference(*dst)?;
            let r = reference(*src)?;
            Ok(one(0x07u16 | (d as u16) << 8u16 | (r as u16) << 12u16))
        },
        Instruction::NewInstance { dst, ty } => {
            let d = reference(*dst)?;
            Ok(two(0x22u16 | (d as u16) << 8u16, *ty))
        },
        Instruction::NewArray { dst, size, ty } => two_reg(0x23, reference(*dst), integer(*size), Ok(*ty)),
        Instruction::AputObject { value, array, index } => {
            let v = reference(*value)?;
            let a = reference(*array)?;
            let x = integer(*index)?;
            Ok(two(0x4du16 | (v as u16) << 8u16, (a as u16) | (x as u16) << 8u16))
        },
        _ => Err(DexError::ArithmeticOverflow),
    }
}

#[verifier::rlimit(60)]
fn encode_fields(ins: &Instruction, labels: &Vec<(u16, u32)>, at: u32, Ghost(s): Ghost<Seq<Instruction>>) -> (r: Result<Vec<u16>, DexError>)
    requires
        family(*ins) == 1,
        forall|l: u16| table_dest(labels@, l) == prefix_dest(s, s.len() as int, l),
    ensures
        match r {
            Ok(w) => spec_encode(*ins, s, at as nat) == Ok::<Seq<u16>, DexError>(w@),
            Err(e) => spec_encode(*ins, s, at as nat) == Err::<Seq<u16>, DexError>(e),
        },
{
    match ins {
        Instruction::IGet { dst, object, field } => {
            let opcode: u16 = if dst.kind == ValueKind::Reference { 0x54 } else if dst.kind == ValueKind::Bool { 0x55 } else { 0x52 };
            if object.kind != ValueKind::Reference || dst.index > 15 || object.index > 15 {
                return Err(DexError::InvalidInput("invalid instance field register"));
            }
            Ok(two(opcode | (dst.index as u16) << 8u16 | (object.index as u16) << 12u16, *field))
        },
        Instruction::IPut { src, object, field } => {
            let opcode: u16 = if src.kind == ValueKind::Reference { 0x5b } else if src.kind == ValueKind::Bool { 0x5c } else { 0x59 };
            if object.kind != ValueKind::Reference || src.index > 15 || object.index > 15 {
                return Err(DexError::InvalidInput("invalid instance field register"));
            }
            Ok(two(opcode | (src.index as u16) << 8u16 | (object.index as u16) << 12u16, *field))
        },
        Instruction::SGet { dst, field } => {
            if dst.kind == ValueKind::Reference {
                return Err(DexError::InvalidInput("invalid static field register"));
            }
            let opcode: u16 = if dst.kind == ValueKind::Bool { 0x63 } else { 0x60 };
            Ok(two(opcode | (dst.index as u16) << 8u16, *field))
        },
        Instruction::AddInt { dst, left, right } => three_reg(0x90, *dst, *left, *right),
        Instruction::SubInt { dst, left, right } => three_reg(0x91, *dst, *left, *right),
        Instruction::MulInt { dst, left, right } => three_reg(0x92, *dst, *left, *right),
        Instruction::DivInt { dst, left, right } => three_reg(0x93, *dst, *left, *right),
        Instruction::RemInt { dst, left, right } => three_reg(0x94, *dst, *left, *right),
        Instruction::RemIntLit8 { dst, src, value } => lit8(0xdc, *dst, *src, *value),
        Instruction::AddInt2Addr { dst, src } => {
            let d = integer(*dst)?;
            let r = integer(*src)?;
            Ok(one(0xb0u16 | (d as u16) << 8u16 | (r as u16) << 12u16))
        },
        Instruction::AddIntLit8 { dst, src, value } => lit8(0xd8, *dst, *src, *value),
        _ => Err(DexError::ArithmeticOverflow),
    }
}

#[verifier::rlimit(60)]
fn encode_control(ins: &Instruction, labels: &Vec<(u16, u32)>, at: u32, Ghost(s): Ghost<Seq<Instruction>>) -> (r: Result<Vec<u16>, DexError>)
    requires
        family(*ins) == 2,
        forall|l: u16| table_dest(labels@, l) == prefix_dest(s, s.len() as int, l),
    ensures
        match r {
            Ok(w) => spec_encode(*ins, s, at as nat) == Ok::<Seq<u16>, DexError>(w@),
            Err(e) => spec_encode(*ins, s, at as nat) == Err::<Seq<u16>, DexError>(e),
        },
{
    match ins {
        Instruction::IfGe { left, right, target } => two_reg(0x35, integer(*left), integer(*right), branch(labels, *target, at, Ghost(s))),
        Instruction::IfLt { left, right, target } => two_reg(0x34, integer(*left), integer(*right), branch(labels, *target, at, Ghost(s))),
        Instruction::IfLe { left, right, target } => two_reg(0x37, integer(*left), integer(*right), branch(labels, *target, at, Ghost(s))),
        Instruction::IfGt { left, right, target } => two_reg(0x36, integer(*left), integer(*right), branch(labels, *target, at, Ghost(s))),
        Instruction::IfNez { value, target } => {
            let v = integer(*value)?;
            let b = branch(labels, *target, at, Ghost(s))?;
            Ok(two(0x39u16 | (v as u16) << 8u16, b))
        },
        Instruction::IfEqz { value, target } => {
            let v = integer(*value)?;
            let b = branch(labels, *target, at, Ghost(s))?;
            Ok(two(0x38u16 | (v as u16) << 8u16, b))
        },
        Instruction::IfNe { left, right, target } => {
            if left.kind != right.kind || left.index > 15 || right.index > 15 {
                return Err(DexError::InvalidInput("if-ne register mismatch"));
            }
            let b = branch(labels, *target, at, Ghost(s))?;
            Ok(two(0x33u16 | (left.index as u16) << 8u16 | (right.index as u16) << 12u16, b))
        },
        Instruction::InvokeStatic { method, args } => invoke(0x71, *method, args),
        Instruction::InvokeVirtual { method, args } => invoke(0x6e, *method, args),
        Instruction::InvokeSuper { method, args } => invoke(0x6f, *method, args),
        Instruction::InvokeDirect { method, args } => invoke(0x70, *method, args),
        Instruction::InvokeInterface { method, args } => invoke(0x72, *method, args),
        Instruction::MoveResult { dst } => {
            let d = integer(*dst)?;
            Ok(one(0x0au16 | (d as u16) << 8u16))
        },
        Instruction::MoveResultObject { dst } => {
            let d = reference(*dst)?;
            Ok(one(0x0cu16 | (d as u16) << 8u16))
        },
        Instruction::MoveResultWide { dst } => {
            if *dst > 14 {
                return Err(DexError::InvalidInput("wide result register exceeds 14"));
            }
            Ok(one(0x0bu16 | (*dst as u16) << 8u16))
        },
        Instruction::LongToInt { dst, src } => {
            if *src > 14 {
                return Err(DexError::InvalidInput("wide source register exceeds 14"));
            }
            let d = integer(*dst)?;
            Ok(one(0x84u16 | (d as u16) << 8u16 | (*src as u16) << 12u16))
        },
        Instruction::Goto16 { target } => {
            let b = branch(labels, *target, at, Ghost(s))?;
            Ok(two(0x29u16, b))
        },
        Instruction::Return { value } => {
            let v = integer(*value)?;
            Ok(one(0x0fu16 | (v as u16) << 8u16))
        },
        Instruction::ReturnObject { value } => {
            let v = reference(*value)?;
            Ok(one(0x11u16 | (v as u16) << 8u16))
        },
        Instruction::ReturnVoid => Ok(one(0x0eu16)),

        _ => Err(DexError::ArithmeticOverflow),
    }
}

#[verifier::rlimit(60)]
fn encode_one(ins: &Instruction, labels: &Vec<(u16, u32)>, at: u32, Ghost(s): Ghost<Seq<Instruction>>) -> (r: Result<Vec<u16>, DexError>)
    requires
        forall|l: u16| table_dest(labels@, l) == prefix_dest(s, s.len() as int, l),
    ensures
        match r {
            Ok(w) => spec_encode(*ins, s, at as nat) == Ok::<Seq<u16>, DexError>(w@),
            Err(e) => spec_encode(*ins, s, at as nat) == Err::<Seq<u16>, DexError>(e),
        },
{
    match ins {
        Instruction::Label(_) => encode_data(ins, labels, at, Ghost(s)),
        Instruction::Const4 { .. } => encode_data(ins, labels, at, Ghost(s)),
        Instruction::Const16 { .. } => encode_data(ins, labels, at, Ghost(s)),
        Instruction::Const32 { .. } => encode_data(ins, labels, at, Ghost(s)),
        Instruction::ConstString { .. } => encode_data(ins, labels, at, Ghost(s)),
        Instruction::ConstNull { .. } => encode_data(ins, labels, at, Ghost(s)),
        Instruction::Move { .. } => encode_data(ins, labels, at, Ghost(s)),
        Instruction::MoveObject { .. } => encode_data(ins, labels, at, Ghost(s)),
        Instruction::NewInstance { .. } => encode_data(ins, labels, at, Ghost(s)),
        Instruction::NewArray { .. } => encode_data(ins, labels, at, Ghost(s)),
        Instruction::AputObject { .. } => encode_data(ins, labels, at, Ghost(s)),
        Instruction::IGet { .. } => encode_fields(ins, labels, at, Ghost(s)),
        Instruction::IPut { .. } => encode_fields(ins, labels, at, Ghost(s)),
        Instruction::SGet { .. } => encode_fields(ins, labels, at, Ghost(s)),
        Instruction::AddInt { .. } => encode_fields(ins, labels, at, Ghost(s)),
        Instruction::SubInt { .. } => encode_fields(ins, labels, at, Ghost(s)),
        Instruction::MulInt { .. } => encode_fields(ins, labels, at, Ghost(s)),
        Instruction::DivInt { .. } => encode_fields(ins, labels, at, Ghost(s)),
        Instruction::RemInt { .. } => encode_fields(ins, labels, at, Ghost(s)),
        Instruction::RemIntLit8 { .. } => encode_fields(ins, labels, at, Ghost(s)),
        Instruction::AddInt2Addr { .. } => encode_fields(ins, labels, at, Ghost(s)),
        Instruction::AddIntLit8 { .. } => encode_fields(ins, labels, at, Ghost(s)),
        Instruction::IfGe { .. } => encode_control(ins, labels, at, Ghost(s)),
        Instruction::IfLt { .. } => encode_control(ins, labels, at, Ghost(s)),
        Instruction::IfLe { .. } => encode_control(ins, labels, at, Ghost(s)),
        Instruction::IfGt { .. } => encode_control(ins, labels, at, Ghost(s)),
        Instruction::IfNez { .. } => encode_control(ins, labels, at, Ghost(s)),
        Instruction::IfEqz { .. } => encode_control(ins, labels, at, Ghost(s)),
        Instruction::IfNe { .. } => encode_control(ins, labels, at, Ghost(s)),
        Instruction::InvokeStatic { .. } => encode_control(ins, labels, at, Ghost(s)),
        Instruction::InvokeVirtual { .. } => encode_control(ins, labels, at, Ghost(s)),
        Instruction::InvokeSuper { .. } => encode_control(ins, labels, at, Ghost(s)),
        Instruction::InvokeDirect { .. } => encode_control(ins, labels, at, Ghost(s)),
        Instruction::InvokeInterface { .. } => encode_control(ins, labels, at, Ghost(s)),
        Instruction::MoveResult { .. } => encode_control(ins, labels, at, Ghost(s)),
        Instruction::MoveResultObject { .. } => encode_control(ins, labels, at, Ghost(s)),
        Instruction::MoveResultWide { .. } => encode_control(ins, labels, at, Ghost(s)),
        Instruction::LongToInt { .. } => encode_control(ins, labels, at, Ghost(s)),
        Instruction::Goto16 { .. } => encode_control(ins, labels, at, Ghost(s)),
        Instruction::Return { .. } => encode_control(ins, labels, at, Ghost(s)),
        Instruction::ReturnObject { .. } => encode_control(ins, labels, at, Ghost(s)),
        Instruction::ReturnVoid => encode_control(ins, labels, at, Ghost(s)),
    }
}

/// Instruction families handled by separate encoders.
pub open spec fn family(i: Instruction) -> int {
    match i {
        Instruction::Label(_) | Instruction::Const4 { .. } | Instruction::Const16 { .. } | Instruction::Const32 { .. } | Instruction::ConstString { .. } | Instruction::ConstNull { .. } | Instruction::Move { .. } | Instruction::MoveObject { .. } | Instruction::NewInstance { .. } | Instruction::NewArray { .. } | Instruction::AputObject { .. } => 0,
        Instruction::IGet { .. } | Instruction::IPut { .. } | Instruction::SGet { .. } | Instruction::AddInt { .. } | Instruction::SubInt { .. } | Instruction::MulInt { .. } | Instruction::DivInt { .. } | Instruction::RemInt { .. } | Instruction::RemIntLit8 { .. } | Instruction::AddInt2Addr { .. } | Instruction::AddIntLit8 { .. } => 1,
        _ => 2,
    }
}

fn width(instruction: &Instruction) -> (r: u32)
    ensures
        r == spec_width(*instruction),
{
    match instruction {
        Instruction::Label(_) => 0,
        Instruction::Const4 { .. } | Instruction::Move { .. } | Instruction::MoveObject { .. }
        | Instruction::MoveResult { .. } | Instruction::MoveResultObject { .. }
        | Instruction::MoveResultWide { .. } | Instruction::LongToInt { .. }
        | Instruction::ConstNull { .. } | Instruction::AddInt2Addr { .. }
        | Instruction::Return { .. } | Instruction::ReturnObject { .. }
        | Instruction::ReturnVoid => 1,
        Instruction::Const32 { .. } | Instruction::InvokeStatic { .. }
        | Instruction::InvokeVirtual { .. } | Instruction::InvokeSuper { .. }
        | Instruction::InvokeDirect { .. } | Instruction::InvokeInterface { .. } => 3,
        _ => 2,
    }
}

/// Resolves symbolic labels and assembles the supported instruction subset.
#[verifier::rlimit(60)]
pub fn assemble(instructions: &[Instruction]) -> (r: Result<Vec<u16>, DexError>)
    ensures
        match r {
            Ok(code) => spec_assemble(instructions@) == Ok::<Seq<u16>, DexError>(code@),
            Err(e) => spec_assemble(instructions@) == Err::<Seq<u16>, DexError>(e),
        },
{
    let ghost s = instructions@;
    let n = instructions.len();
    let mut labels: Vec<(u16, u32)> = Vec::new();
    let mut cursor: u32 = 0;
    let mut k: usize = 0;
    while k < n
        invariant
            s == instructions@,
            n == s.len(),
            k <= n,
            cursor == code_len(s.take(k as int)),
            resolve_labels(s.take(k as int)) == Ok::<(), DexError>(()),
            forall|l: u16| table_dest(labels@, l) == prefix_dest(s, k as int, l),
        decreases n - k,
    {
        let ghost before = labels@;
        assert(s.take(k + 1).drop_last() =~= s.take(k as int));
        assert(s.take(k + 1).last() == s[k as int]);
        match &instructions[k] {
            Instruction::Label(label) => {
                if find_label(&labels, label.0).is_some() {
                    proof {
                        resolve_labels_error_persists(s, k + 1);
                    }
                    return Err(DexError::InvalidInput("duplicate DEX label"));
                }
                labels.push((label.0, cursor));
                assert(labels@.drop_last() =~= before);
                assert(labels@.last() == (label.0, cursor));
                assert forall|l: u16| table_dest(labels@, l) == prefix_dest(s, k + 1, l) by {
                    assert(table_dest(before, l) == prefix_dest(s, k as int, l));
                    assert(label_index(s.take(k + 1), l) == match label_index(s.take(k as int), l) {
                        Some(j) => Some(j),
                        None => if l == label.0 { Some(k as int) } else { None },
                    });
                    assert(s.take(k + 1).take(k as int) =~= s.take(k as int));
                }
            },
            other => {
                let w = width(other);
                if cursor > u32::MAX - w {
                    proof {
                        resolve_labels_error_persists(s, k + 1);
                    }
                    return Err(DexError::ArithmeticOverflow);
                }
                cursor = cursor + w;
                assert forall|l: u16| table_dest(labels@, l) == prefix_dest(s, k + 1, l) by {}
            },
        }
        k = k + 1;
    }
    assert(s.take(n as int) =~= s);
    if cursor as u64 > usize::MAX as u64 {
        return Err(DexError::ArithmeticOverflow);
    }
    let mut output: Vec<u16> = Vec::new();
    let mut at: u32 = 0;
    let mut k: usize = 0;
    while k < n
        invariant
            s == instructions@,
            n == s.len(),
            k <= n,
            at == code_len(s.take(k as int)),
            code_len(s) <= u32::MAX,
            code_len(s) <= usize::MAX,
            resolve_labels(s) == Ok::<(), DexError>(()),
            encode_prefix(s, k as nat) == Ok::<Seq<u16>, DexError>(output@),
            forall|l: u16| table_dest(labels@, l) == prefix_dest(s, s.len() as int, l),
        decreases n - k,
    {
        let words = match encode_one(&instructions[k], &labels, at, Ghost(s)) {
            Ok(w) => w,
            Err(e) => {
                proof {
                    assert(encode_prefix(s, (k + 1) as nat) == Err::<Seq<u16>, DexError>(e));
                    encode_error_persists(s, (k + 1) as nat, n as nat);
                }
                return Err(e);
            },
        };
        let ghost before = output@;
        let mut i: usize = 0;
        while i < words.len()
            invariant
                i <= words@.len(),
                output@ == before + words@.take(i as int),
            decreases words@.len() - i,
        {
            output.push(words[i]);
            i = i + 1;
            assert(output@ =~= before + words@.take(i as int));
        }
        assert(words@.take(i as int) =~= words@);
        proof {
            code_len_monotone(s, k + 1, n as int);
            assert(s.take(n as int) =~= s);
            assert(s.take(k + 1).drop_last() =~= s.take(k as int));
        }
        at = at + width(&instructions[k]);
        k = k + 1;
    }
    Ok(output)
}

} // verus!
