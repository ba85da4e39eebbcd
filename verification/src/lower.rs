//! Lowering of user functions to register code.
use vstd::prelude::*;
use crate::encoding::DexError;
use crate::ir::{Parameter, BinaryOp, UnaryOp, Expression, ExpressionKind, Function, Statement, StatementKind, Type, Value,
    Table, is_word};
use crate::lir::{assemble, spec_assemble, Instruction, Label, Register, ValueKind};
use crate::text::{owned, concat};

verus! {

/// The validated-integer pattern that `valid_i32` lowers to.
pub const VALID_I32_PATTERN: &'static str = "(?:[+-]?0*[0-9]{1,9}|[+]?0*(?:1[0-9]{9}|20[0-9]{8}|21[0-3][0-9]{7}|214[0-6][0-9]{6}|2147[0-3][0-9]{5}|21474[0-7][0-9]{4}|214748[0-2][0-9]{3}|2147483[0-5][0-9]{2}|21474836[0-3][0-9]|214748364[0-7])|-0*(?:1[0-9]{9}|20[0-9]{8}|21[0-3][0-9]{7}|214[0-6][0-9]{6}|2147[0-3][0-9]{5}|21474[0-7][0-9]{4}|214748[0-2][0-9]{3}|2147483[0-5][0-9]{2}|21474836[0-3][0-9]|214748364[0-8]))";

/// Assembled code of one method with its register frame.
pub struct LoweredMethod {
    pub code: Vec<u16>,
    pub registers: u16,
    pub ins: u16,
    pub outs: u16,
}

/// A callable user function: its method index and signature.
#[derive(Clone, Debug)]
pub struct FunctionTarget {
    pub method: u16,
    pub params: Vec<Type>,
    pub result: Type,
}

/// Method indexes of the platform string operations.
#[derive(Clone, Copy, Debug)]
pub struct StringLowering {
    pub value_of_i32: u16,
    pub value_of_bool: u16,
    pub builder_type: u16,
    pub builder_init: u16,
    pub builder_append: u16,
    pub builder_to_string: u16,
    pub equals: u16,
    pub text_view_get_text: u16,
    pub object_to_string: u16,
    pub string_matches: u16,
    pub integer_parse_int: u16,
    pub context_get_string: u16,
}

/// The register kind of a type.
pub open spec fn spec_kind(t: Type) -> ValueKind {
    match t {
        Type::String => ValueKind::Reference,
        Type::Bool => ValueKind::Bool,
        Type::I32 => ValueKind::I32,
    }
}

pub fn kind(t: Type) -> (r: ValueKind)
    ensures
        r == spec_kind(t),
{
    match t {
        Type::String => ValueKind::Reference,
        Type::Bool => ValueKind::Bool,
        Type::I32 => ValueKind::I32,
    }
}

#[derive(Clone, Copy)]
struct Binding {
    register: Register,
    ty: Type,
}

/// The instruction that loads the small integer `v` into `d`.
pub open spec fn const_code(d: Register, v: i32) -> Instruction {
    if -8 <= v <= 7 {
        Instruction::Const4 { dst: d, value: v as i8 }
    } else {
        Instruction::Const16 { dst: d, value: v as i16 }
    }
}

/// The label a conditional branch jumps to.
pub open spec fn branch_target(i: Instruction) -> Option<Label> {
    match i {
        Instruction::IfLt { target, .. } => Some(target),
        Instruction::IfLe { target, .. } => Some(target),
        Instruction::IfGt { target, .. } => Some(target),
        Instruction::IfGe { target, .. } => Some(target),
        Instruction::IfEqz { target, .. } => Some(target),
        Instruction::IfNez { target, .. } => Some(target),
        _ => None,
    }
}

/// Code `c` ends by setting `d` from a test: `d = 0` at `first`, then the test, whose branch
/// (five from the end) jumps to where `d = 1` is set; without the jump, `goto` the final label.
pub open spec fn set_by_test(c: Seq<Instruction>, d: Register, first: int) -> bool {
    &&& 0 <= first
    &&& first + 6 <= c.len()
    &&& c[first] == (Instruction::Const4 { dst: d, value: 0 })
    &&& branch_target(c[c.len() - 5]) matches Some(yes) && c[c.len() - 3] == Instruction::Label(yes)
    &&& c[c.len() - 2] == (Instruction::Const4 { dst: d, value: 1 })
    &&& match (c[c.len() - 4], c[c.len() - 1]) {
        (Instruction::Goto16 { target: e }, Instruction::Label(f)) => e == f,
        _ => false,
    }
}

/// Code `c` ends by setting `d` to whether the two operands compare as `op` does: `if-lt`,
/// `if-le`, `if-gt` or `if-ge` on the operands, or for `==` and `!=` their difference tested
/// with `if-eqz` or `if-nez`.
pub open spec fn compared(c: Seq<Instruction>, d: Register, op: BinaryOp) -> bool {
    match op {
        BinaryOp::Less => set_by_test(c, d, c.len() - 6) && match c[c.len() - 5] {
            Instruction::IfLt { left, right, .. } => left.index + 1 == right.index,
            _ => false,
        },
        BinaryOp::LessEqual => set_by_test(c, d, c.len() - 6) && match c[c.len() - 5] {
            Instruction::IfLe { left, right, .. } => left.index + 1 == right.index,
            _ => false,
        },
        BinaryOp::Greater => set_by_test(c, d, c.len() - 6) && match c[c.len() - 5] {
            Instruction::IfGt { left, right, .. } => left.index + 1 == right.index,
            _ => false,
        },
        BinaryOp::GreaterEqual => set_by_test(c, d, c.len() - 6) && match c[c.len() - 5] {
            Instruction::IfGe { left, right, .. } => left.index + 1 == right.index,
            _ => false,
        },
        BinaryOp::Equal => set_by_test(c, d, c.len() - 7) && match (c[c.len() - 6], c[c.len() - 5]) {
            (Instruction::SubInt { dst, left, right }, Instruction::IfEqz { value, .. }) => value == dst && left.index + 1
                == right.index,
            _ => false,
        },
        BinaryOp::NotEqual => set_by_test(c, d, c.len() - 7) && match (c[c.len() - 6], c[c.len() - 5]) {
            (Instruction::SubInt { dst, left, right }, Instruction::IfNez { value, .. }) => value == dst && left.index + 1
                == right.index,
            _ => false,
        },
        _ => false,
    }
}

/// Code `c` short-circuits into `d` from `k` on: after the left operand, a test of `d` at `k`
/// jumps to the final label `end` — `if-eqz` for `&&` (a false left side decides), `if-nez`
/// for `||` (a true one does) — and the right operand's code runs between them.
pub open spec fn short_circuit_at(c: Seq<Instruction>, k: int, d: Register, end: Label, and: bool) -> bool {
    &&& 0 <= k < c.len() - 1
    &&& c[k] == (if and { Instruction::IfEqz { value: d, target: end } } else { Instruction::IfNez { value: d, target: end } })
    &&& c[c.len() - 1] == Instruction::Label(end)
}

/// Code `c` short-circuits into `d`.
pub open spec fn short_circuit(c: Seq<Instruction>, d: Register, and: bool) -> bool {
    exists|k: int, end: Label| #[trigger] short_circuit_at(c, k, d, end, and)
}

/// The instructions that end the code of an operator expression lowered into `d`: for a
/// unary operator, `d = k - s` with `k` loaded as 1 for `!` and 0 for `-`; for arithmetic,
/// the operation itself into `d` (or the string builder's result for string `+`).
spec fn operator_tail(k: ExpressionKind, d: Register, code: Seq<Instruction>) -> bool {
    match k {
        ExpressionKind::Unary { op, .. } => code.len() >= 2 && match code.last() {
            Instruction::SubInt { dst, left, right } => dst == d && left.index == right.index + 1 && code[code.len() - 2]
                == Instruction::Const4 {
                dst: left,
                value: if op == UnaryOp::Not { 1i8 } else { 0i8 },
            },
            _ => false,
        },
        ExpressionKind::Binary { op, .. } => code.len() >= 1 && match op {
            BinaryOp::Add => match code.last() {
                Instruction::AddInt { dst, left, right } => dst == d && left.index + 1 == right.index,
                Instruction::MoveResultObject { dst } => dst == d,
                _ => false,
            },
            BinaryOp::Subtract => match code.last() {
                Instruction::SubInt { dst, left, right } => dst == d && left.index + 1 == right.index,
                _ => false,
            },
            BinaryOp::Multiply => match code.last() {
                Instruction::MulInt { dst, left, right } => dst == d && left.index + 1 == right.index,
                _ => false,
            },
            BinaryOp::Divide => match code.last() {
                Instruction::DivInt { dst, left, right } => dst == d && left.index + 1 == right.index,
                _ => false,
            },
            BinaryOp::Remainder => match code.last() {
                Instruction::RemInt { dst, left, right } => dst == d && left.index + 1 == right.index,
                _ => false,
            },
            BinaryOp::And => short_circuit(code, d, true),
            BinaryOp::Or => short_circuit(code, d, false),
            BinaryOp::Less | BinaryOp::LessEqual | BinaryOp::Greater | BinaryOp::GreaterEqual => compared(code, d, op),
            BinaryOp::Equal => compared(code, d, op) || code.last() == (Instruction::MoveResult { dst: d }),
            BinaryOp::NotEqual => compared(code, d, op) || match code.last() {
                Instruction::SubInt { dst, right, .. } => dst == d && right == d,
                _ => false,
            },
        },
        _ => true,
    }
}

/// Code `b` continues code `a`: everything in `a` stays where it was.
pub open spec fn code_grows(a: Seq<Instruction>, b: Seq<Instruction>) -> bool {
    &&& a.len() <= b.len()
    &&& forall|k: int| 0 <= k < a.len() ==> #[trigger] b[k] == a[k]
}

/// Code `c` ends with a counting loop placed after `a`: at `k` the loop head `top` tests
/// `if-ge iv, bound` and leaves to `done` once the counter reaches the bound (the range is
/// exclusive), the body follows, and the loop ends by adding one to the counter, jumping back
/// to `top`, and placing `done`.
pub open spec fn counting_loop_at(a: Seq<Instruction>, c: Seq<Instruction>, k: int, iv: Register, bound: Register,
    top: Label, done: Label) -> bool {
    &&& a.len() <= k
    &&& k + 5 <= c.len()
    &&& top != done
    &&& c[k] == Instruction::Label(top)
    &&& c[k + 1] == (Instruction::IfGe { left: iv, right: bound, target: done })
    &&& c[c.len() - 3] == (Instruction::AddIntLit8 { dst: iv, src: iv, value: 1 })
    &&& c[c.len() - 2] == (Instruction::Goto16 { target: top })
    &&& c[c.len() - 1] == Instruction::Label(done)
}

/// Code `c` continues `a` with a counting loop.
pub open spec fn counting_loop(a: Seq<Instruction>, c: Seq<Instruction>) -> bool {
    exists|k: int, iv: Register, bound: Register, top: Label, done: Label|
        #[trigger] counting_loop_at(a, c, k, iv, bound, top, done)
}

/// Code `c` ends with a conditional placed after `a`: at `k` a test of the condition's
/// register `r` jumps to `other` when it is false (`if-eqz`); the then-branch follows and
/// jumps at `j` over the else-branch to `end`; `other` starts the else-branch and `end` ends it.
pub open spec fn conditional_at(a: Seq<Instruction>, c: Seq<Instruction>, k: int, j: int, r: Register, other: Label,
    end: Label) -> bool {
    &&& a.len() <= k < j
    &&& j + 3 <= c.len()
    &&& other != end
    &&& c[k] == (Instruction::IfEqz { value: r, target: other })
    &&& c[j] == (Instruction::Goto16 { target: end })
    &&& c[j + 1] == Instruction::Label(other)
    &&& c[c.len() - 1] == Instruction::Label(end)
}

/// Code `c` continues `a` with a conditional.
pub open spec fn conditional(a: Seq<Instruction>, c: Seq<Instruction>) -> bool {
    exists|k: int, j: int, r: Register, other: Label, end: Label| #[trigger] conditional_at(a, c, k, j, r, other, end)
}

/// A body made of one `if` statement.
pub open spec fn single_if(body: Seq<Statement>) -> bool {
    body.len() == 1 && body[0].kind is If
}

/// A body made of one `for` statement.
pub open spec fn single_for(body: Seq<Statement>) -> bool {
    body.len() == 1 && body[0].kind is For
}

/// The value of a body that is one `return` of an integer literal that fits in 16 bits.
pub open spec fn small_return(body: Seq<Statement>) -> Option<i32> {
    if body.len() == 1 {
        match body[0].kind {
            StatementKind::Return(e) => match e.kind {
                ExpressionKind::Literal(Value::I32(v)) => if -32768 <= v <= 32767 { Some(v) } else { None },
                _ => None,
            },
            _ => None,
        }
    } else {
        None
    }
}

/// The code returning the small integer `v` through register `d`.
pub open spec fn return_code(d: Register, v: i32) -> Seq<Instruction> {
    seq![const_code(d, v), Instruction::Return { value: d }]
}

/// Returning a small integer assembles.
proof fn small_return_assembles(v: i32)
    requires
        -32768 <= v <= 32767,
    ensures
        spec_assemble(return_code(Register { index: 0, kind: ValueKind::I32 }, v)) is Ok,
{
    let d = Register { index: 0, kind: ValueKind::I32 };
    let s = return_code(d, v);
    reveal_with_fuel(crate::lir::resolve_labels, 3);
    reveal_with_fuel(crate::lir::code_len, 3);
    reveal_with_fuel(crate::lir::encode_prefix, 3);
    assert(s.drop_last() =~= seq![const_code(d, v)]);
    assert(s.drop_last().drop_last() =~= Seq::<Instruction>::empty());
    assert(s.take(0) =~= Seq::<Instruction>::empty());
    assert(s.take(1) =~= seq![const_code(d, v)]);
}

/// How an integer or boolean literal is lowered into `d`: one constant load, or an error for
/// an integer beyond 16 bits with the code unchanged.
spec fn literal_lowered(k: ExpressionKind, d: Register, r: Result<(), DexError>, before: Seq<Instruction>,
    after: Seq<Instruction>) -> bool {
    match k {
        ExpressionKind::Literal(Value::I32(v)) => if v < -32768 || v > 32767 {
            r == Err::<(), DexError>(DexError::InvalidInput("integer constant exceeds current const/16 lowering"))
                && after == before
        } else {
            r is Ok && after == before.push(const_code(d, v))
        },
        ExpressionKind::Literal(Value::Bool(b)) => r is Ok && after == before.push(
            Instruction::Const4 { dst: d, value: if b { 1i8 } else { 0i8 } },
        ),
        _ => true,
    }
}

/// Lowering state of one function body; `R`, `T` and `S` resolve methods, call targets
/// and string indexes.
struct Lowerer<'a, R, T, S> {
    code: Vec<Instruction>,
    locals: Vec<(String, Binding)>,
    next: u8,
    limit: u8,
    label: u16,
    outs: u16,
    resolve: &'a R,
    target: Option<&'a T>,
    string_index: Option<&'a S>,
    strings: Option<StringLowering>,
}

/// The scope after binding `n` to `b`: the first entry of that name is replaced, or one is
/// added at the end.
spec fn bound(m: Seq<(String, Binding)>, n: String, b: Binding) -> Seq<(String, Binding)> {
    match crate::ir::check::key_index(m, n@) {
        Some(i) => m.update(i, (n, b)),
        None => m.push((n, b)),
    }
}

/// The parameters bound in order to consecutive registers from `first` on.
spec fn param_frame(ps: Seq<Parameter>, first: int) -> Seq<(String, Binding)>
    decreases ps.len(),
{
    if ps.len() == 0 {
        Seq::empty()
    } else {
        let p = ps.last();
        bound(
            param_frame(ps.drop_last(), first),
            p.name,
            Binding { register: Register { index: (first + ps.len() - 1) as u8, kind: spec_kind(p.ty) }, ty: p.ty },
        )
    }
}

/// An operator that lowers to a comparison.
spec fn comparison(op: BinaryOp) -> bool {
    op == BinaryOp::Less || op == BinaryOp::LessEqual || op == BinaryOp::Greater || op == BinaryOp::GreaterEqual
        || op == BinaryOp::Equal || op == BinaryOp::NotEqual
}

/// The code of a comparison into `d`: 0, a branch to `yes` when it holds, else on to `end`;
/// `x` holds the difference for (in)equality.
spec fn compare_code(op: BinaryOp, a: Register, b: Register, d: Register, yes: Label, end: Label, x: Register) -> Seq<
    Instruction,
> {
    let test = match op {
        BinaryOp::Less => seq![Instruction::IfLt { left: a, right: b, target: yes }],
        BinaryOp::LessEqual => seq![Instruction::IfLe { left: a, right: b, target: yes }],
        BinaryOp::Greater => seq![Instruction::IfGt { left: a, right: b, target: yes }],
        BinaryOp::GreaterEqual => seq![Instruction::IfGe { left: a, right: b, target: yes }],
        BinaryOp::Equal => seq![
            Instruction::SubInt { dst: x, left: a, right: b },
            Instruction::IfEqz { value: x, target: yes },
        ],
        _ => seq![Instruction::SubInt { dst: x, left: a, right: b }, Instruction::IfNez { value: x, target: yes }],
    };
    seq![Instruction::Const4 { dst: d, value: 0 }] + test + seq![
        Instruction::Goto16 { target: end },
        Instruction::Label(yes),
        Instruction::Const4 { dst: d, value: 1 },
        Instruction::Label(end),
    ]
}

/// No resolver, typed after the one given.
fn absent<'a, F>(_like: &'a F) -> (r: Option<&'a F>)
    ensures
        r is None,
{
    None
}

fn invalid(m: &'static str) -> (e: DexError)
    ensures
        e == DexError::InvalidInput(m),
{
    DexError::InvalidInput(m)
}

impl<'a, R, T, S> Lowerer<'a, R, T, S> where
    R: Fn(&str) -> Result<u16, DexError>,
    T: Fn(&str) -> Result<FunctionTarget, DexError>,
    S: Fn(&str) -> Result<u16, DexError>,
 {
    /// The resolvers accept every name.
    spec fn callable(&self) -> bool {
        &&& forall|s: &str| self.resolve.requires((s,))
        &&& (self.target matches Some(t) ==> forall|s: &str| t.requires((s,)))
        &&& (self.string_index matches Some(f) ==> forall|s: &str| f.requires((s,)))
    }

    /// `r` is a static type that `e` can have in this state, or an error it gives: a call of
    /// a user function takes its type from what the call target answers for its name.
    spec fn typed(&self, e: Expression, r: Result<Type, DexError>) -> bool
        decreases e,
    {
        match e.kind {
            ExpressionKind::Literal(v) => r == Ok::<Type, DexError>(crate::ir::value_type(v@)),
            ExpressionKind::Name(n) => r == (match crate::ir::check::key_index(self.locals@, n@) {
                Some(i) => Ok::<Type, DexError>(self.locals@[i].1.ty),
                None => Err(DexError::InvalidInput("unknown lowered local")),
            }),
            ExpressionKind::Unary { op, .. } => r == Ok::<Type, DexError>(
                if op == UnaryOp::Not { Type::Bool } else { Type::I32 },
            ),
            ExpressionKind::Binary { op, left, .. } => match op {
                BinaryOp::Equal | BinaryOp::NotEqual | BinaryOp::Less | BinaryOp::LessEqual | BinaryOp::Greater
                | BinaryOp::GreaterEqual | BinaryOp::And | BinaryOp::Or => r == Ok::<Type, DexError>(Type::Bool),
                BinaryOp::Add => match r {
                    Ok(Type::String) => self.typed(*left, Ok(Type::String)),
                    Ok(Type::I32) => self.typed(*left, Ok(Type::I32)) || self.typed(*left, Ok(Type::Bool)),
                    Ok(Type::Bool) => false,
                    Err(_) => self.typed(*left, r),
                },
                _ => r == Ok::<Type, DexError>(Type::I32),
            },
            ExpressionKind::Call { name, .. } => if name@ == "string"@ {
                r == Ok::<Type, DexError>(Type::String)
            } else if name@ == "valid_i32"@ {
                r == Ok::<Type, DexError>(Type::Bool)
            } else if name@ == "i32"@ {
                r == Ok::<Type, DexError>(Type::I32)
            } else {
                match self.target {
                    Some(t) => exists|s: &str, c: Result<FunctionTarget, DexError>|
                        s@ == name@ && #[trigger] call_ensures(t, (s,), c) && r == (match c {
                            Ok(f) => Ok::<Type, DexError>(f.result),
                            Err(x) => Err(x),
                        }),
                    None => r == Ok::<Type, DexError>(Type::I32),
                }
            },
            ExpressionKind::AndroidText { .. } => r == Ok::<Type, DexError>(Type::String),
            ExpressionKind::PreferenceGet { .. } => r == Err::<Type, DexError>(DexError::InvalidInput("unknown preference")),
            ExpressionKind::DatabaseInsert { .. } => r == Ok::<Type, DexError>(Type::I32),
            ExpressionKind::DatabaseExists { .. } => r == Ok::<Type, DexError>(Type::Bool),
            ExpressionKind::DatabaseGet { .. } => r == Err::<Type, DexError>(
                DexError::InvalidInput("unknown database column"),
            ),
        }
    }

    /// Context that lowering never changes.
    spec fn same_context(&self, other: &Self) -> bool {
        self.resolve == other.resolve && self.target == other.target && self.string_index == other.string_index
            && self.strings == other.strings && self.limit == other.limit
    }

    fn allocate(&mut self, t: Type) -> (r: Result<Register, DexError>)
        ensures
            final(self).same_context(old(self)),
            final(self).code == old(self).code,
            final(self).locals == old(self).locals,
            r is Err ==> final(self).next == old(self).next,
            r is Err <==> old(self).next >= old(self).limit,
            final(self).label == old(self).label,
            final(self).outs == old(self).outs,
            r matches Ok(reg) ==> reg.index == old(self).next && reg.kind == spec_kind(t) && final(self).next
                == old(self).next + 1 && reg.index < old(self).limit,
            old(self).next >= old(self).limit ==> r == Err::<Register, DexError>(
                DexError::InvalidInput("M2 register allocation exhausted"),
            ),
    {
        if self.next >= self.limit {
            return Err(invalid("M2 register allocation exhausted"));
        }
        let r = Register { index: self.next, kind: kind(t) };
        self.next = self.next + 1;
        Ok(r)
    }

    fn label(&mut self) -> (r: Result<Label, DexError>)
        ensures
            final(self).same_context(old(self)),
            final(self).code == old(self).code,
            final(self).locals == old(self).locals,
            final(self).next == old(self).next,
            final(self).outs == old(self).outs,
            old(self).label == 0xffff ==> r == Err::<Label, DexError>(DexError::InvalidInput("label space exhausted"))
                && final(self).label == old(self).label,
            old(self).label != 0xffff ==> r == Ok::<Label, DexError>(Label(old(self).label)) && final(self).label
                == old(self).label + 1,
    {
        if self.label == 0xffff {
            return Err(invalid("label space exhausted"));
        }
        let l = Label(self.label);
        self.label = self.label + 1;
        Ok(l)
    }

    fn local(&self, n: &String) -> (r: Option<Binding>)
        ensures
            r == (match crate::ir::check::key_index(self.locals@, n@) {
                Some(i) => Some(self.locals@[i].1),
                None => None,
            }),
    {
        proof {
            crate::ir::check::key_index_bounds(self.locals@, n@);
        }
        match crate::ir::check::find_key(&self.locals, n.as_str()) {
            Some(i) => Some(self.locals[i].1),
            None => None,
        }
    }

    fn bind(&mut self, n: &String, b: Binding)
        ensures
            final(self).same_context(old(self)),
            final(self).next == old(self).next,
            final(self).code == old(self).code,
            final(self).label == old(self).label,
            final(self).outs == old(self).outs,
            final(self).locals@ == bound(old(self).locals@, *n, b),
    {
        proof {
            crate::ir::check::key_index_bounds(self.locals@, n@);
        }
        match crate::ir::check::find_key(&self.locals, n.as_str()) {
            Some(i) => self.locals.set(i, (n.clone(), b)),
            None => self.locals.push((n.clone(), b)),
        }
    }

    fn unbind(&mut self, n: &String)
        ensures
            final(self).same_context(old(self)),
            final(self).next == old(self).next,
            final(self).code == old(self).code,
            final(self).label == old(self).label,
            final(self).outs == old(self).outs,
            final(self).locals@ == (match crate::ir::check::key_index(old(self).locals@, n@) {
                Some(i) => old(self).locals@.remove(i),
                None => old(self).locals@,
            }),
    {
        proof {
            crate::ir::check::key_index_bounds(self.locals@, n@);
        }
        match crate::ir::check::find_key(&self.locals, n.as_str()) {
            Some(i) => {
                self.locals.remove(i);
            },
            None => {},
        }
    }

    fn note_outs(&mut self, n: usize)
        ensures
            final(self).same_context(old(self)),
            final(self).next == old(self).next,
            final(self).code == old(self).code,
            final(self).locals == old(self).locals,
            final(self).label == old(self).label,
            final(self).outs == (if n > old(self).outs { if n > 0xffff { 0xffffu16 } else { n as u16 } } else {
                old(self).outs
            }),
    {
        let n16: u16 = if n > 0xffff { 0xffff } else { n as u16 };
        if n16 > self.outs {
            self.outs = n16;
        }
    }

    /// The type of an expression.
    #[verifier::spinoff_prover]
    #[verifier::rlimit(30)]
    fn ty(&self, e: &Expression) -> (r: Result<Type, DexError>)
        requires
            self.callable(),
        ensures
            self.typed(*e, r),
        decreases e,
    {
        match &e.kind {
            ExpressionKind::Literal(v) => Ok(v.ty()),
            ExpressionKind::Name(n) => match self.local(n) {
                Some(b) => Ok(b.ty),
                None => Err(invalid("unknown lowered local")),
            },
            ExpressionKind::Unary { op, .. } => Ok(if *op == UnaryOp::Not { Type::Bool } else { Type::I32 }),
            ExpressionKind::Binary { op, left, right } => match op {
                BinaryOp::Equal | BinaryOp::NotEqual | BinaryOp::Less | BinaryOp::LessEqual | BinaryOp::Greater
                | BinaryOp::GreaterEqual | BinaryOp::And | BinaryOp::Or => Ok(Type::Bool),
                BinaryOp::Add => {
                    let l = self.ty(left);
                    let res = match l {
                        Ok(t) => if t == Type::String {
                            Ok(Type::String)
                        } else {
                            Ok(Type::I32)
                        },
                        Err(x) => Err(x),
                    };
                    res
                },
                _ => Ok(Type::I32),
            },
            ExpressionKind::Call { name, .. } => {
                if is_word(name, "string") {
                    Ok(Type::String)
                } else if is_word(name, "valid_i32") {
                    Ok(Type::Bool)
                } else if is_word(name, "i32") {
                    Ok(Type::I32)
                } else {
                    match self.target {
                        Some(t) => {
                            let s = name.as_str();
                            let c = t(s);
                            let res = match c {
                                Ok(f) => Ok(f.result),
                                Err(x) => Err(x),
                            };
                            assert(call_ensures(t, (s,), c));
                            res
                        },
                        None => Ok(Type::I32),
                    }
                }
            },
            ExpressionKind::AndroidText { .. } => Ok(Type::String),
            ExpressionKind::PreferenceGet { .. } => Err(invalid("unknown preference")),
            ExpressionKind::DatabaseInsert { .. } => Ok(Type::I32),
            ExpressionKind::DatabaseExists { .. } => Ok(Type::Bool),
            ExpressionKind::DatabaseGet { .. } => Err(invalid("unknown database column")),
        }
    }

    fn mov(&mut self, d: Register, s: Register) -> (r: Result<(), DexError>)
        ensures
            final(self).same_context(old(self)),
            final(self).next == old(self).next,
            final(self).locals == old(self).locals,
            final(self).label == old(self).label,
            final(self).outs == old(self).outs,
            r is Ok <==> d.kind == s.kind,
            r is Err ==> r == Err::<(), DexError>(DexError::InvalidInput("mismatched move register kinds"))
                && final(self).code == old(self).code,
            r is Ok ==> final(self).code@ == old(self).code@.push(
                if d.kind == ValueKind::Reference {
                    Instruction::MoveObject { dst: d, src: s }
                } else {
                    Instruction::Move { dst: d, src: s }
                },
            ),
    {
        if d.kind != s.kind {
            return Err(invalid("mismatched move register kinds"));
        }
        if d.kind == ValueKind::Reference {
            self.code.push(Instruction::MoveObject { dst: d, src: s });
        } else {
            self.code.push(Instruction::Move { dst: d, src: s });
        }
        Ok(())
    }

    /// Lowers an expression into register `d`; temporaries are released afterwards.
    fn expr(&mut self, e: &Expression, d: Register) -> (r: Result<(), DexError>)
        requires
            old(self).callable(),
        ensures
            final(self).same_context(old(self)),
            final(self).callable(),
            final(self).next == old(self).next,
            match e.kind {
                ExpressionKind::Literal(v) => if spec_kind(crate::ir::value_type(v@)) != d.kind {
                    r == Err::<(), DexError>(DexError::InvalidInput("expression destination kind mismatch"))
                        && final(self).code == old(self).code
                } else {
                    literal_lowered(e.kind, d, r, old(self).code@, final(self).code@)
                },
                _ => true,
            },
            r is Ok ==> operator_tail(e.kind, d, final(self).code@),
            code_grows(old(self).code@, final(self).code@),
        decreases e, 1int,
    {
        let t = self.ty(e)?;
        if kind(t) != d.kind {
            return Err(invalid("expression destination kind mismatch"));
        }
        let n = self.next;
        let r = self.expr0(e, d);
        self.next = n;
        r
    }

    fn compare(&mut self, op: BinaryOp, a: Register, b: Register, d: Register) -> (r: Result<(), DexError>)
        ensures
            final(self).same_context(old(self)),
            final(self).next >= old(self).next,
            r is Ok <==> comparison(op) && old(self).label < 0xfffe && ((op == BinaryOp::Equal || op
                == BinaryOp::NotEqual) ==> old(self).next < old(self).limit),
            r is Ok ==> final(self).code@ == old(self).code@ + compare_code(
                op,
                a,
                b,
                d,
                Label(old(self).label),
                Label((old(self).label + 1) as u16),
                Register { index: old(self).next, kind: ValueKind::I32 },
            ) && final(self).label == old(self).label + 2 && final(self).locals == old(self).locals,
            code_grows(old(self).code@, final(self).code@),
    {
        let yes = self.label()?;
        let end = self.label()?;
        self.code.push(Instruction::Const4 { dst: d, value: 0 });
        match op {
            BinaryOp::Less => self.code.push(Instruction::IfLt { left: a, right: b, target: yes }),
            BinaryOp::LessEqual => self.code.push(Instruction::IfLe { left: a, right: b, target: yes }),
            BinaryOp::Greater => self.code.push(Instruction::IfGt { left: a, right: b, target: yes }),
            BinaryOp::GreaterEqual => self.code.push(Instruction::IfGe { left: a, right: b, target: yes }),
            BinaryOp::Equal | BinaryOp::NotEqual => {
                let x = self.allocate(Type::I32)?;
                self.code.push(Instruction::SubInt { dst: x, left: a, right: b });
                if op == BinaryOp::Equal {
                    self.code.push(Instruction::IfEqz { value: x, target: yes });
                } else {
                    self.code.push(Instruction::IfNez { value: x, target: yes });
                }
            },
            _ => return Err(invalid("invalid comparison operator")),
        }
        self.code.push(Instruction::Goto16 { target: end });
        self.code.push(Instruction::Label(yes));
        self.code.push(Instruction::Const4 { dst: d, value: 1 });
        self.code.push(Instruction::Label(end));
        assert(self.code@ =~= old(self).code@ + compare_code(
            op,
            a,
            b,
            d,
            Label(old(self).label),
            Label((old(self).label + 1) as u16),
            Register { index: old(self).next, kind: ValueKind::I32 },
        ));
        Ok(())
    }

    fn two(a: Register, b: Register) -> (r: Vec<Register>)
        ensures
            r@ == seq![a, b],
    {
        let mut v: Vec<Register> = Vec::new();
        v.push(a);
        v.push(b);
        assert(v@ =~= seq![a, b]);
        v
    }

    fn one(a: Register) -> (r: Vec<Register>)
        ensures
            r@ == seq![a],
    {
        let mut v: Vec<Register> = Vec::new();
        v.push(a);
        assert(v@ =~= seq![a]);
        v
    }

    /// Lowers an expression without releasing its temporaries.
    #[verifier::loop_isolation(false)]
    fn expr0(&mut self, e: &Expression, d: Register) -> (r: Result<(), DexError>)
        requires
            old(self).callable(),
        ensures
            final(self).same_context(old(self)),
            final(self).callable(),
            literal_lowered(e.kind, d, r, old(self).code@, final(self).code@),
            r is Ok ==> operator_tail(e.kind, d, final(self).code@),
            code_grows(old(self).code@, final(self).code@),
        decreases e, 0int,
    {
        match &e.kind {
            ExpressionKind::Literal(Value::I32(v)) => {
                if *v < -32768 || *v > 32767 {
                    return Err(invalid("integer constant exceeds current const/16 lowering"));
                }
                let v16 = *v as i16;
                if -8 <= v16 && v16 <= 7 {
                    self.code.push(Instruction::Const4 { dst: d, value: v16 as i8 });
                } else {
                    self.code.push(Instruction::Const16 { dst: d, value: v16 });
                }
            },
            ExpressionKind::Literal(Value::Bool(v)) => {
                self.code.push(Instruction::Const4 { dst: d, value: if *v { 1 } else { 0 } });
            },
            ExpressionKind::Literal(Value::String(value)) => {
                let index = match self.string_index {
                    Some(f) => f(value.as_str())?,
                    None => return Err(invalid("string literal requires indexed lowering context")),
                };
                self.code.push(Instruction::ConstString { dst: d, string: index });
            },
            ExpressionKind::Name(n) => match self.local(n) {
                Some(b) => self.mov(d, b.register)?,
                None => return Err(invalid("unknown lowered local")),
            },
            ExpressionKind::Unary { op, value } => {
                let t = self.ty(value)?;
                let s = self.allocate(t)?;
                self.expr(value, s)?;
                let z = self.allocate(Type::I32)?;
                self.code.push(Instruction::Const4 { dst: z, value: if *op == UnaryOp::Not { 1 } else { 0 } });
                self.code.push(Instruction::SubInt { dst: d, left: z, right: s });
            },
            ExpressionKind::Binary { op, left, right } => {
                if *op == BinaryOp::And || *op == BinaryOp::Or {
                    self.expr(left, d)?;
                    let end = self.label()?;
                    let ghost k = self.code@.len() as int;
                    if *op == BinaryOp::And {
                        self.code.push(Instruction::IfEqz { value: d, target: end });
                    } else {
                        self.code.push(Instruction::IfNez { value: d, target: end });
                    }
                    let ghost test = self.code@[k];
                    self.expr(right, d)?;
                    self.code.push(Instruction::Label(end));
                    proof {
                        assert(self.code@[k] == test);
                        assert(short_circuit_at(self.code@, k, d, end, *op == BinaryOp::And));
                    }
                    return Ok(());
                }
                if self.ty(left)? == Type::String {
                    if *op == BinaryOp::Add {
                        let strings = match self.strings {
                            Some(s) => s,
                            None => return Err(invalid("string concatenation requires platform methods")),
                        };
                        let l = self.allocate(Type::String)?;
                        let r = self.allocate(Type::String)?;
                        let builder = self.allocate(Type::String)?;
                        self.expr(left, l)?;
                        self.expr(right, r)?;
                        self.code.push(Instruction::NewInstance { dst: builder, ty: strings.builder_type });
                        self.code.push(Instruction::InvokeDirect { method: strings.builder_init, args: Self::one(builder) });
                        self.code.push(Instruction::InvokeVirtual { method: strings.builder_append, args: Self::two(builder, l) });
                        self.code.push(Instruction::MoveResultObject { dst: builder });
                        self.code.push(Instruction::InvokeVirtual { method: strings.builder_append, args: Self::two(builder, r) });
                        self.code.push(Instruction::MoveResultObject { dst: builder });
                        self.code.push(Instruction::InvokeVirtual { method: strings.builder_to_string, args: Self::one(builder) });
                        self.code.push(Instruction::MoveResultObject { dst: d });
                        self.note_outs(2);
                        return Ok(());
                    }
                    if *op == BinaryOp::Equal || *op == BinaryOp::NotEqual {
                        let strings = match self.strings {
                            Some(s) => s,
                            None => return Err(invalid("string equality requires platform methods")),
                        };
                        let l = self.allocate(Type::String)?;
                        let r = self.allocate(Type::String)?;
                        self.expr(left, l)?;
                        self.expr(right, r)?;
                        self.code.push(Instruction::InvokeVirtual { method: strings.equals, args: Self::two(l, r) });
                        self.code.push(Instruction::MoveResult { dst: d });
                        if *op == BinaryOp::NotEqual {
                            let one = self.allocate(Type::Bool)?;
                            self.code.push(Instruction::Const4 { dst: one, value: 1 });
                            self.code.push(Instruction::SubInt { dst: d, left: one, right: d });
                        }
                        self.note_outs(2);
                        return Ok(());
                    }
                    return Err(invalid("invalid string lowering operator"));
                }
                let lt = self.ty(left)?;
                let a = self.allocate(lt)?;
                let rt = self.ty(right)?;
                let b = self.allocate(rt)?;
                self.expr(left, a)?;
                self.expr(right, b)?;
                match op {
                    BinaryOp::Add => self.code.push(Instruction::AddInt { dst: d, left: a, right: b }),
                    BinaryOp::Subtract => self.code.push(Instruction::SubInt { dst: d, left: a, right: b }),
                    BinaryOp::Multiply => self.code.push(Instruction::MulInt { dst: d, left: a, right: b }),
                    BinaryOp::Divide => self.code.push(Instruction::DivInt { dst: d, left: a, right: b }),
                    BinaryOp::Remainder => self.code.push(Instruction::RemInt { dst: d, left: a, right: b }),
                    _ => self.compare(*op, a, b, d)?,
                }
            },
            ExpressionKind::Call { name, args } => {
                if is_word(name, "string") || is_word(name, "valid_i32") || is_word(name, "i32") {
                    if args.len() == 0 {
                        return Err(invalid("built-in call without an argument"));
                    }
                    proof {
                        vstd::std_specs::vec::axiom_vec_index_decreases(*args, 0);
                    }
                    if is_word(name, "string") {
                        let at = self.ty(&args[0])?;
                        let source = self.allocate(at)?;
                        self.expr(&args[0], source)?;
                        let strings = match self.strings {
                            Some(s) => s,
                            None => return Err(invalid("string conversion requires platform methods")),
                        };
                        let method = if at == Type::Bool { strings.value_of_bool } else { strings.value_of_i32 };
                        self.code.push(Instruction::InvokeStatic { method, args: Self::one(source) });
                        self.code.push(Instruction::MoveResultObject { dst: d });
                        self.note_outs(1);
                    } else if is_word(name, "valid_i32") {
                        let source = self.allocate(Type::String)?;
                        self.expr(&args[0], source)?;
                        let pattern = self.allocate(Type::String)?;
                        let index = match self.string_index {
                            Some(f) => f(VALID_I32_PATTERN)?,
                            None => return Err(invalid("missing string index")),
                        };
                        self.code.push(Instruction::ConstString { dst: pattern, string: index });
                        let methods = match self.strings {
                            Some(s) => s,
                            None => return Err(invalid("missing input methods")),
                        };
                        self.code.push(Instruction::InvokeVirtual { method: methods.string_matches, args: Self::two(source, pattern) });
                        self.code.push(Instruction::MoveResult { dst: d });
                        self.note_outs(2);
                    } else {
                        let source = self.allocate(Type::String)?;
                        self.expr(&args[0], source)?;
                        let methods = match self.strings {
                            Some(s) => s,
                            None => return Err(invalid("missing input methods")),
                        };
                        self.code.push(Instruction::InvokeStatic { method: methods.integer_parse_int, args: Self::one(source) });
                        self.code.push(Instruction::MoveResult { dst: d });
                        self.note_outs(1);
                    }
                    return Ok(());
                }
                let target = match self.target {
                    Some(t) => Some(t(name.as_str())?),
                    None => None,
                };
                match &target {
                    Some(t) => if t.params.len() != args.len() {
                        return Err(invalid("mismatched lowered call arguments"));
                    },
                    None => {},
                }
                let mut rs: Vec<Register> = Vec::new();
                let mut i: usize = 0;
                while i < args.len()
                    invariant
                        i <= args@.len(),
                        self.callable(),
                        self.same_context(old(self)),
                        code_grows(old(self).code@, self.code@),
                        target matches Some(t) ==> t.params@.len() == args@.len(),
                    decreases args@.len() - i,
                {
                    proof {
                        vstd::std_specs::vec::axiom_vec_index_decreases(*args, i as int);
                    }
                    let at = self.ty(&args[i])?;
                    match &target {
                        Some(t) => if at != t.params[i] {
                            return Err(invalid("mismatched lowered call argument kind"));
                        },
                        None => {},
                    }
                    let r = self.allocate(at)?;
                    self.expr(&args[i], r)?;
                    rs.push(r);
                    i = i + 1;
                }
                self.note_outs(rs.len());
                let method = match &target {
                    Some(t) => t.method,
                    None => (self.resolve)(name.as_str())?,
                };
                self.code.push(Instruction::InvokeStatic { method, args: rs });
                if self.ty(e)? == Type::String {
                    self.code.push(Instruction::MoveResultObject { dst: d });
                } else {
                    self.code.push(Instruction::MoveResult { dst: d });
                }
            },
            ExpressionKind::AndroidText { .. } => {
                self.allocate(Type::String)?;
                return Err(invalid("unknown input view"));
            },
            ExpressionKind::PreferenceGet { .. } => return Err(invalid("missing persistence lowering")),
            ExpressionKind::DatabaseInsert { .. } => return Err(invalid("missing persistence lowering")),
            ExpressionKind::DatabaseExists { .. } => return Err(invalid("missing primary key")),
            ExpressionKind::DatabaseGet { .. } => return Err(invalid("missing primary key")),
        }
        Ok(())
    }

    /// Lowers a block of a user function.
    #[verifier::loop_isolation(false)]
    fn stmts(&mut self, body: &Vec<Statement>) -> (r: Result<(), DexError>)
        requires
            old(self).callable(),
        ensures
            final(self).same_context(old(self)),
            final(self).callable(),
            body@.len() == 0 ==> r is Ok && final(self).code@ == old(self).code@,
            code_grows(old(self).code@, final(self).code@),
            r is Ok && single_for(body@) ==> counting_loop(old(self).code@, final(self).code@),
            r is Ok && single_if(body@) ==> conditional(old(self).code@, final(self).code@),
            match small_return(body@) {
                Some(v) => old(self).next < old(self).limit ==> r is Ok && final(self).code@ == old(self).code@
                    + return_code(Register { index: old(self).next, kind: ValueKind::I32 }, v),
                None => true,
            },
        decreases body,
    {
        let ghost single = small_return(body@);
        let ghost sf = single_for(body@);
        let ghost si = single_if(body@);
        let ghost c0 = self.code@;
        let ghost n0 = self.next;
        let mut i: usize = 0;
        while i < body.len()
            invariant
                i <= body@.len(),
                self.callable(),
                self.same_context(old(self)),
                single == small_return(body@),
                c0 == old(self).code@,
                code_grows(c0, self.code@),
                sf == single_for(body@),
                sf && i == 1 ==> counting_loop(c0, self.code@),
                si == single_if(body@),
                si && i == 1 ==> conditional(c0, self.code@),
                n0 == old(self).next,
                i == 0 ==> self.code@ == c0 && self.next == n0,
                single is Some && i == 1 && n0 < self.limit ==> self.code@ == c0 + return_code(
                    Register { index: n0, kind: ValueKind::I32 },
                    single->0,
                ),
            decreases body@.len() - i,
        {
            proof {
                vstd::std_specs::vec::axiom_vec_index_decreases(*body, i as int);
            }
            let s = &body[i];
            match &s.kind {
                StatementKind::Declare { name, ty, value, .. } => {
                    let vt = self.ty(value)?;
                    let t = match ty {
                        Some(t) => *t,
                        None => vt,
                    };
                    let r = self.allocate(t)?;
                    self.expr(value, r)?;
                    self.bind(name, Binding { register: r, ty: t });
                },
                StatementKind::Assign { name, value } => {
                    let b = match self.local(name) {
                        Some(b) => b,
                        None => return Err(invalid("assignment to unknown lowered local")),
                    };
                    self.expr(value, b.register)?;
                },
                StatementKind::Return(v) => {
                    let t = self.ty(v)?;
                    let r = self.allocate(t)?;
                    self.expr(v, r)?;
                    if t == Type::String {
                        self.code.push(Instruction::ReturnObject { value: r });
                    } else {
                        self.code.push(Instruction::Return { value: r });
                    }
                },
                StatementKind::If { condition, then_body, else_body } => {
                    let r = self.allocate(Type::Bool)?;
                    self.expr(condition, r)?;
                    let other = self.label()?;
                    let end = self.label()?;
                    let ghost before = self.code@;
                    let ghost k = self.code@.len() as int;
                    self.code.push(Instruction::IfEqz { value: r, target: other });
                    let ghost test = self.code@[k];
                    self.stmts(then_body)?;
                    let ghost j = self.code@.len() as int;
                    self.code.push(Instruction::Goto16 { target: end });
                    self.code.push(Instruction::Label(other));
                    let ghost mid = self.code@;
                    self.stmts(else_body)?;
                    self.code.push(Instruction::Label(end));
                    proof {
                        if si {
                            assert(code_grows(c0, before));
                            assert(self.code@[k] == test);
                            assert(self.code@[j] == mid[j] && self.code@[j + 1] == mid[j + 1]);
                            assert(conditional_at(c0, self.code@, k, j, r, other, end));
                        }
                    }
                },
                StatementKind::For { variable, start, end, body } => {
                    let iv = self.allocate(Type::I32)?;
                    let bound = self.allocate(Type::I32)?;
                    self.expr(start, iv)?;
                    self.expr(end, bound)?;
                    self.bind(variable, Binding { register: iv, ty: Type::I32 });
                    let top = self.label()?;
                    let done = self.label()?;
                    let ghost k = self.code@.len() as int;
                    let ghost before = self.code@;
                    self.code.push(Instruction::Label(top));
                    self.code.push(Instruction::IfGe { left: iv, right: bound, target: done });
                    let ghost head = self.code@;
                    self.stmts(body)?;
                    assert(self.code@[k] == head[k] && self.code@[k + 1] == head[k + 1]);
                    self.code.push(Instruction::AddIntLit8 { dst: iv, src: iv, value: 1 });
                    self.code.push(Instruction::Goto16 { target: top });
                    self.code.push(Instruction::Label(done));
                    self.unbind(variable);
                    proof {
                        if sf {
                            assert(code_grows(c0, before));
                            assert(counting_loop_at(c0, self.code@, k, iv, bound, top, done));
                        }
                    }
                },
                _ => return Err(invalid("Android operation inside user function")),
            }
            i = i + 1;
        }
        Ok(())
    }
}

/// Binds the parameters to the top registers of a sixteen-register frame.
fn parameter_locals(function: &Function) -> (r: Vec<(String, Binding)>)
    requires
        function.params@.len() <= 5,
    ensures
        r@ == param_frame(function.params@, 16 - function.params@.len()),
{
    let n = function.params.len();
    let first: u8 = 16 - n as u8;
    let mut locals: Vec<(String, Binding)> = Vec::new();
    let mut i: usize = 0;
    while i < n
        invariant
            i <= n <= 5,
            n == function.params@.len(),
            first == 16 - n,
            locals@ == param_frame(function.params@.take(i as int), first as int),
        decreases n - i,
    {
        let p = &function.params[i];
        proof {
            assert(function.params@.take(i + 1).drop_last() =~= function.params@.take(i as int));
            assert(function.params@.take(i + 1).last() == function.params@[i as int]);
        }
        let b = Binding { register: Register { index: first + i as u8, kind: kind(p.ty) }, ty: p.ty };
        proof {
            crate::ir::check::key_index_bounds(locals@, p.name@);
        }
        match crate::ir::check::find_key(&locals, p.name.as_str()) {
            Some(k) => locals.set(k, (p.name.clone(), b)),
            None => locals.push((p.name.clone(), b)),
        }
        i = i + 1;
    }
    assert(function.params@.take(i as int) =~= function.params@);
    locals
}

/// Lowers a user function whose calls are resolved by `resolve`, without string support.
pub fn lower_function<R>(function: &Function, resolve: &R) -> (r: Result<LoweredMethod, DexError>) where
    R: Fn(&str) -> Result<u16, DexError>,

    requires
        forall|s: &str| resolve.requires((s,)),
    ensures
        function.params@.len() > 5 ==> r == Err::<LoweredMethod, DexError>(
            DexError::InvalidInput("M2 function exceeds five parameters"),
        ),
        r matches Ok(m) ==> m.registers == 16 && m.ins == function.params@.len() && exists|code: Seq<Instruction>|
            spec_assemble(code) == Ok::<Seq<u16>, DexError>(m.code@),
        function.params@.len() <= 5 && small_return(function.body@) is Some ==> (r matches Ok(m) && spec_assemble(
            return_code(Register { index: 0, kind: ValueKind::I32 }, small_return(function.body@)->0),
        ) == Ok::<Seq<u16>, DexError>(m.code@)),
{
    if function.params.len() > 5 {
        return Err(invalid("M2 function exceeds five parameters"));
    }
    proof {
        if small_return(function.body@) is Some {
            small_return_assembles(small_return(function.body@)->0);
        }
    }
    let no_target = |name: &str| -> (r: Result<FunctionTarget, DexError>) { Err(invalid("no call targets")) };
    let no_strings = |name: &str| -> (r: Result<u16, DexError>) { Err(invalid("no string pool")) };
    let n = function.params.len();
    let mut l = Lowerer {
        code: Vec::new(),
        locals: parameter_locals(function),
        next: 0,
        limit: 16 - n as u8,
        label: 0,
        outs: 0,
        resolve,
        target: absent(&no_target),
        string_index: absent(&no_strings),
        strings: None,
    };
    l.stmts(&function.body)?;
    let code = assemble(l.code.as_slice())?;
    Ok(LoweredMethod { code, registers: 16, ins: n as u16, outs: l.outs })
}

/// Lowers a user function with typed call targets, an indexed string pool and the
/// platform string methods.
pub fn lower_function_typed<T, S>(function: &Function, target: &T, string_index: &S, strings: StringLowering)
    -> (r: Result<LoweredMethod, DexError>) where
    T: Fn(&str) -> Result<FunctionTarget, DexError>,
    S: Fn(&str) -> Result<u16, DexError>,

    requires
        forall|s: &str| target.requires((s,)),
        forall|s: &str| string_index.requires((s,)),
    ensures
        function.params@.len() > 5 ==> r == Err::<LoweredMethod, DexError>(
            DexError::InvalidInput("M2 function exceeds five parameters"),
        ),
        r matches Ok(m) ==> m.registers == 16 && m.ins == function.params@.len() && exists|code: Seq<Instruction>|
            spec_assemble(code) == Ok::<Seq<u16>, DexError>(m.code@),
        function.params@.len() <= 5 && small_return(function.body@) is Some ==> (r matches Ok(m) && spec_assemble(
            return_code(Register { index: 0, kind: ValueKind::I32 }, small_return(function.body@)->0),
        ) == Ok::<Seq<u16>, DexError>(m.code@)),
{
    if function.params.len() > 5 {
        return Err(invalid("M2 function exceeds five parameters"));
    }
    proof {
        if small_return(function.body@) is Some {
            small_return_assembles(small_return(function.body@)->0);
        }
    }
    let fallback = |name: &str| -> (r: Result<u16, DexError>)
        requires
            forall|s: &str| target.requires((s,)),
        {
            match target(name) {
                Ok(t) => Ok(t.method),
                Err(e) => Err(e),
            }
        };
    let n = function.params.len();
    let mut l = Lowerer {
        code: Vec::new(),
        locals: parameter_locals(function),
        next: 0,
        limit: 16 - n as u8,
        label: 0,
        outs: 0,
        resolve: &fallback,
        target: Some(target),
        string_index: Some(string_index),
        strings: Some(strings),
    };
    l.stmts(&function.body)?;
    let code = assemble(l.code.as_slice())?;
    Ok(LoweredMethod { code, registers: 16, ins: n as u16, outs: l.outs })
}

/// The SQL column type of a value type.
pub open spec fn sql_type(t: Type) -> Seq<char> {
    match t {
        Type::String => "TEXT"@,
        _ => "INTEGER"@,
    }
}

/// The SQL definition of one column.
pub open spec fn column_sql(c: crate::ir::Column) -> Seq<char> {
    c.name@ + " "@ + sql_type(c.ty) + if c.primary_key { " PRIMARY KEY AUTOINCREMENT"@ } else { " NOT NULL"@ }
}

/// The column definitions, separated by commas.
pub open spec fn columns_sql(cs: Seq<crate::ir::Column>) -> Seq<char>
    decreases cs.len(),
{
    if cs.len() == 0 {
        Seq::empty()
    } else if cs.len() == 1 {
        column_sql(cs[0])
    } else {
        columns_sql(cs.drop_last()) + ","@ + column_sql(cs.last())
    }
}

/// The statement that creates a table of the schema.
pub fn create_table_sql(table: &Table) -> (r: String)
    ensures
        r@ == "CREATE TABLE IF NOT EXISTS "@ + table.name@ + " ("@ + columns_sql(table.columns@) + ")"@,
{
    let mut out = concat(concat("CREATE TABLE IF NOT EXISTS ", table.name.as_str()).as_str(), " (");
    let ghost head = out@;
    let mut i: usize = 0;
    while i < table.columns.len()
        invariant
            i <= table.columns@.len(),
            out@ == head + columns_sql(table.columns@.take(i as int)),
        decreases table.columns@.len() - i,
    {
        let c = &table.columns[i];
        proof {
            reveal_strlit("TEXT");
            reveal_strlit("INTEGER");
        }
        let ty = match c.ty {
            Type::String => "TEXT",
            _ => "INTEGER",
        };
        let suffix = if c.primary_key { " PRIMARY KEY AUTOINCREMENT" } else { " NOT NULL" };
        let column = concat(concat(concat(c.name.as_str(), " ").as_str(), ty).as_str(), suffix);
        assert(column@ == column_sql(*c));
        let ghost before = out@;
        if i > 0 {
            out = concat(out.as_str(), ",");
        }
        out = concat(out.as_str(), column.as_str());
        proof {
            let t = table.columns@.take(i + 1);
            assert(t.drop_last() =~= table.columns@.take(i as int));
            assert(t.last() == *c);
            if i == 0 {
                assert(t =~= seq![*c]);
            }
        }
        i = i + 1;
    }
    assert(table.columns@.take(i as int) =~= table.columns@);
    concat(out.as_str(), ")")
}

} // verus!
