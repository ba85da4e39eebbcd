//! Compile-time evaluation of a verified program's first text view.
use vstd::prelude::*;
use crate::ir::{Diagnostic, Fault, SourceSpan, Expression, ExpressionKind, BinaryOp, UnaryOp, Value, ValueView,
    Statement, StatementKind, Program, Function, Parameter, clone_value, value_eq, is_word};
use crate::ir::check::{key_index, key_index_bounds, find_key};
use crate::text::{owned, concat, i32_to_string};

verus! {

/// The value of a binary operator on two values, when it has one.
pub open spec fn binary_value(op: BinaryOp, l: ValueView, r: ValueView) -> Option<ValueView> {
    match (op, l, r) {
        (BinaryOp::Add, ValueView::I32(a), ValueView::I32(b)) => Some(ValueView::I32(a.wrapping_add(b))),
        (BinaryOp::Subtract, ValueView::I32(a), ValueView::I32(b)) => Some(ValueView::I32(a.wrapping_sub(b))),
        (BinaryOp::Multiply, ValueView::I32(a), ValueView::I32(b)) => Some(ValueView::I32(a.wrapping_mul(b))),
        (BinaryOp::Divide, ValueView::I32(a), ValueView::I32(b)) => if b != 0 {
            Some(ValueView::I32(
                match a.checked_div(b) {
                    Some(q) => q,
                    None => i32::MIN,
                },
            ))
        } else {
            None
        },
        (BinaryOp::Remainder, ValueView::I32(a), ValueView::I32(b)) => if b != 0 {
            Some(ValueView::I32(
                match a.checked_rem(b) {
                    Some(q) => q,
                    None => 0,
                },
            ))
        } else {
            None
        },
        (BinaryOp::Add, ValueView::Str(a), ValueView::Str(b)) => Some(ValueView::Str(a + b)),
        (BinaryOp::Equal, a, b) => Some(ValueView::Bool(a == b)),
        (BinaryOp::NotEqual, a, b) => Some(ValueView::Bool(a != b)),
        (BinaryOp::Less, ValueView::I32(a), ValueView::I32(b)) => Some(ValueView::Bool(a < b)),
        (BinaryOp::LessEqual, ValueView::I32(a), ValueView::I32(b)) => Some(ValueView::Bool(a <= b)),
        (BinaryOp::Greater, ValueView::I32(a), ValueView::I32(b)) => Some(ValueView::Bool(a > b)),
        (BinaryOp::GreaterEqual, ValueView::I32(a), ValueView::I32(b)) => Some(ValueView::Bool(a >= b)),
        (BinaryOp::And, ValueView::Bool(a), ValueView::Bool(b)) => Some(ValueView::Bool(a && b)),
        (BinaryOp::Or, ValueView::Bool(a), ValueView::Bool(b)) => Some(ValueView::Bool(a || b)),
        _ => None,
    }
}

/// The integer result of a binary operator on two integers, when it has one.
pub open spec fn int_result(op: BinaryOp, a: i32, b: i32) -> Option<int> {
    match binary_value(op, ValueView::I32(a), ValueView::I32(b)) {
        Some(ValueView::I32(x)) => Some(x as int),
        _ => None,
    }
}

/// The boolean result of a binary operator on two values, when it has one.
pub open spec fn bool_result(op: BinaryOp, a: ValueView, b: ValueView) -> Option<bool> {
    match binary_value(op, a, b) {
        Some(ValueView::Bool(x)) => Some(x),
        _ => None,
    }
}

/// Integer arithmetic is 32-bit two's complement: `+`, `-` and `*` give the mathematical
/// result reduced modulo 2^32 into the `i32` range (exactly it, when it fits), in the order
/// of the operands; `/` and `%` of a non-negative number by a positive one give the integer
/// quotient and remainder, they truncate toward zero (negating the dividend negates both),
/// and a zero divisor gives no value.
pub proof fn integer_arithmetic_law(a: i32, b: i32)
    ensures
        int_result(BinaryOp::Add, a, b) matches Some(x) && (x - (a + b)) % 0x1_0000_0000 == 0,
        int_result(BinaryOp::Subtract, a, b) matches Some(x) && (x - (a - b)) % 0x1_0000_0000 == 0,
        int_result(BinaryOp::Multiply, a, b) matches Some(x) && (x - a * b) % 0x1_0000_0000 == 0,
        i32::MIN <= a + b <= i32::MAX ==> int_result(BinaryOp::Add, a, b) == Some(a + b),
        i32::MIN <= a - b <= i32::MAX ==> int_result(BinaryOp::Subtract, a, b) == Some(a - b),
        i32::MIN <= a * b <= i32::MAX ==> int_result(BinaryOp::Multiply, a, b) == Some(a * b),
        b == 0 ==> int_result(BinaryOp::Divide, a, b) is None && int_result(BinaryOp::Remainder, a, b) is None,
        a >= 0 && b > 0 ==> int_result(BinaryOp::Divide, a, b) == Some((a as int) / (b as int)) && int_result(
            BinaryOp::Remainder,
            a,
            b,
        ) == Some((a as int) % (b as int)),
        a > i32::MIN && b != 0 ==> int_result(BinaryOp::Divide, -a as i32, b) == (match int_result(BinaryOp::Divide, a, b) {
            Some(q) => Some(-q),
            None => None,
        }) && int_result(BinaryOp::Remainder, -a as i32, b) == (match int_result(BinaryOp::Remainder, a, b) {
            Some(q) => Some(-q),
            None => None,
        }),
{
    let m: int = 0x1_0000_0000;
    let p = a * b;
    assert(p % m == p - m * (p / m)) by (nonlinear_arith)
        requires
            m > 0,
    ;
    assert(0 <= p % m < m) by (nonlinear_arith)
        requires
            m > 0,
    ;
    let k = -(p / m);
    vstd::arithmetic::div_mod::lemma_mod_multiples_basic(k, m);
    vstd::arithmetic::div_mod::lemma_mod_multiples_basic(k - 1, m);
    assert((p % m) - p == k * m) by (nonlinear_arith)
        requires
            p % m == p - m * (p / m),
            k == -(p / m),
    ;
    assert((p % m) - m - p == (k - 1) * m) by (nonlinear_arith)
        requires
            (p % m) - p == k * m,
    ;
    if a >= 0 && b > 0 {
        let x = a as int;
        let d = b as int;
        assert(0 <= x / d <= x) by (nonlinear_arith)
            requires
                x >= 0,
                d > 0,
        ;
        assert(0 <= x % d < d) by (nonlinear_arith)
            requires
                x >= 0,
                d > 0,
        ;
        if x == 0 {
            assert(x / d == 0 && x % d == 0) by (nonlinear_arith)
                requires
                    x == 0,
                    d > 0,
            ;
        }
    }
    if i32::MIN <= p <= i32::MAX {
        if p >= 0 {
            assert(p % m == p) by (nonlinear_arith)
                requires
                    m > 0,
                    0 <= p < m,
            ;
        } else {
            assert(p % m == p + m) by (nonlinear_arith)
                requires
                    m > 0,
                    -m < p < 0,
            ;
        }
    }
    assert((0int) % m == 0);
    assert((m) % m == 0);
    assert((-m) % m == 0);
}

/// Evaluating an operator on two integer literals: `-` gives the left value minus the right
/// one (modulo 2^32), `*` their product, `<` whether the left is below the right, whatever
/// the scope and the program; and `-` on one integer literal gives its negation.
pub proof fn literal_operator_law(a: i32, b: i32, sa: SourceSpan, sb: SourceSpan, sx: SourceSpan, s: Scope, p: Program, d: nat)
    ensures
        ({
            let l = Expression { kind: ExpressionKind::Literal(Value::I32(a)), span: sa };
            let r = Expression { kind: ExpressionKind::Literal(Value::I32(b)), span: sb };
            &&& eval_expr(
                Expression { kind: ExpressionKind::Binary { op: BinaryOp::Subtract, left: Box::new(l), right: Box::new(r) }, span: sx },
                s,
                p,
                d,
            ) matches Ok(ValueView::I32(x)) && (x - (a - b)) % 0x1_0000_0000 == 0
            &&& eval_expr(
                Expression { kind: ExpressionKind::Binary { op: BinaryOp::Multiply, left: Box::new(l), right: Box::new(r) }, span: sx },
                s,
                p,
                d,
            ) matches Ok(ValueView::I32(x)) && (x - a * b) % 0x1_0000_0000 == 0
            &&& eval_expr(
                Expression { kind: ExpressionKind::Binary { op: BinaryOp::Less, left: Box::new(l), right: Box::new(r) }, span: sx },
                s,
                p,
                d,
            ) == Ok::<ValueView, Fault>(ValueView::Bool(a < b))
            &&& eval_expr(
                Expression { kind: ExpressionKind::Unary { op: UnaryOp::Negate, value: Box::new(l) }, span: sx },
                s,
                p,
                d,
            ) matches Ok(ValueView::I32(x)) && (x + a) % 0x1_0000_0000 == 0
        }),
{
    reveal_with_fuel(eval_expr, 2);
    let l = Expression { kind: ExpressionKind::Literal(Value::I32(a)), span: sa };
    let r = Expression { kind: ExpressionKind::Literal(Value::I32(b)), span: sb };
    assert(eval_expr(l, s, p, d) == Ok::<ValueView, Fault>(ValueView::I32(a)));
    assert(eval_expr(r, s, p, d) == Ok::<ValueView, Fault>(ValueView::I32(b)));
    integer_arithmetic_law(a, b);
    integer_arithmetic_law(0, a);
    let m: int = 0x1_0000_0000;
    let x = 0i32.wrapping_sub(a);
    assert((x - (0 - a)) % m == 0);
    assert(x + a == x - (0 - a));
}

/// Comparisons and logic give the truth of the relation between their operands, in order.
pub proof fn comparison_law(a: i32, b: i32, p: bool, q: bool, x: ValueView, y: ValueView)
    ensures
        bool_result(BinaryOp::Less, ValueView::I32(a), ValueView::I32(b)) == Some(a < b),
        bool_result(BinaryOp::LessEqual, ValueView::I32(a), ValueView::I32(b)) == Some(a <= b),
        bool_result(BinaryOp::Greater, ValueView::I32(a), ValueView::I32(b)) == Some(a > b),
        bool_result(BinaryOp::GreaterEqual, ValueView::I32(a), ValueView::I32(b)) == Some(a >= b),
        bool_result(BinaryOp::Equal, x, y) == Some(x == y),
        bool_result(BinaryOp::NotEqual, x, y) == Some(x != y),
        bool_result(BinaryOp::And, ValueView::Bool(p), ValueView::Bool(q)) == Some(p && q),
        bool_result(BinaryOp::Or, ValueView::Bool(p), ValueView::Bool(q)) == Some(p || q),
{
}

/// Applies a binary operator; `AIC1123` where it has no value.
pub fn value(op: BinaryOp, l: Value, r: Value, s: SourceSpan) -> (res: Result<Value, Diagnostic>)
    ensures
        res matches Err(d) ==> eval_code(d.code),
        binary_value(op, l@, r@) matches Some(v) ==> (res matches Ok(x) && x@ == v),
        binary_value(op, l@, r@) is None ==> (res matches Err(d) && d.code == "AIC1123" && d.location == Some(s)),
{
    match (op, &l, &r) {
        (BinaryOp::Add, Value::I32(a), Value::I32(b)) => Ok(Value::I32(a.wrapping_add(*b))),
        (BinaryOp::Subtract, Value::I32(a), Value::I32(b)) => Ok(Value::I32(a.wrapping_sub(*b))),
        (BinaryOp::Multiply, Value::I32(a), Value::I32(b)) => Ok(Value::I32(a.wrapping_mul(*b))),
        (BinaryOp::Divide, Value::I32(a), Value::I32(b)) if *b != 0 => Ok(Value::I32(
            match a.checked_div(*b) {
                Some(q) => q,
                None => i32::MIN,
            },
        )),
        (BinaryOp::Remainder, Value::I32(a), Value::I32(b)) if *b != 0 => Ok(Value::I32(
            match a.checked_rem(*b) {
                Some(q) => q,
                None => 0,
            },
        )),
        (BinaryOp::Add, Value::String(a), Value::String(b)) => Ok(Value::String(concat(a.as_str(), b.as_str()))),
        (BinaryOp::Equal, _, _) => Ok(Value::Bool(value_eq(&l, &r))),
        (BinaryOp::NotEqual, _, _) => Ok(Value::Bool(!value_eq(&l, &r))),
        (BinaryOp::Less, Value::I32(a), Value::I32(b)) => Ok(Value::Bool(*a < *b)),
        (BinaryOp::LessEqual, Value::I32(a), Value::I32(b)) => Ok(Value::Bool(*a <= *b)),
        (BinaryOp::Greater, Value::I32(a), Value::I32(b)) => Ok(Value::Bool(*a > *b)),
        (BinaryOp::GreaterEqual, Value::I32(a), Value::I32(b)) => Ok(Value::Bool(*a >= *b)),
        (BinaryOp::And, Value::Bool(a), Value::Bool(b)) => Ok(Value::Bool(*a && *b)),
        (BinaryOp::Or, Value::Bool(a), Value::Bool(b)) => Ok(Value::Bool(*a || *b)),
        _ => Err(Diagnostic::at("AIC1123", s, owned("invalid binary value"))),
    }
}

/// The diagnostics that evaluation reports.
pub open spec fn eval_code(c: &str) -> bool {
    c == "AIC1120" || c == "AIC1107" || c == "AIC1104" || c == "AIC1112" || c == "AIC1114" || c == "AIC1119"
        || c == "AIC1121" || c == "AIC1122" || c == "AIC1123" || c == "AIC1129"
}

/// The text `string()` gives for a value.
pub open spec fn display(v: ValueView) -> Seq<char> {
    match v {
        ValueView::I32(i) => crate::text::decimal(i as int),
        ValueView::Bool(b) => if b { "true"@ } else { "false"@ },
        ValueView::Str(s) => s,
    }
}

/// Named values in scope, earliest binding first.
pub type Scope = Seq<(Seq<char>, ValueView)>;

/// The mathematical content of a runtime scope.
pub open spec fn scope_of(e: Seq<(String, Value)>) -> Scope {
    e.map_values(|b: (String, Value)| (b.0@, b.1@))
}

/// Index of the first binding of `k`.
pub open spec fn lookup(s: Scope, k: Seq<char>) -> Option<int>
    decreases s.len(),
{
    if s.len() == 0 {
        None
    } else {
        match lookup(s.drop_last(), k) {
            Some(i) => Some(i),
            None => if s.last().0 == k { Some(s.len() - 1) } else { None },
        }
    }
}

/// `s` with `k` set to `v`: its first binding replaced, or a new one added last.
pub open spec fn bind(s: Scope, k: Seq<char>, v: ValueView) -> Scope {
    match lookup(s, k) {
        Some(i) => s.update(i, (k, v)),
        None => s.push((k, v)),
    }
}

/// `s` without the first binding of `k`.
pub open spec fn unbind(s: Scope, k: Seq<char>) -> Scope {
    match lookup(s, k) {
        Some(i) => s.remove(i),
        None => s,
    }
}

/// Index of the first function named `n`.
pub open spec fn find_function(fs: Seq<Function>, n: Seq<char>) -> Option<int>
    decreases fs.len(),
{
    if fs.len() == 0 {
        None
    } else {
        match find_function(fs.drop_last(), n) {
            Some(i) => Some(i),
            None => if fs.last().name@ == n { Some(fs.len() - 1) } else { None },
        }
    }
}

/// The scope a call starts in: each parameter bound to its argument, as far as both go.
pub open spec fn call_scope(ps: Seq<Parameter>, a: Seq<ValueView>) -> Scope {
    Seq::new(if ps.len() < a.len() { ps.len() } else { a.len() }, |j: int| (ps[j].name@, a[j]))
}

/// The value of an expression in scope `s`, with at most `d` nested calls.
pub open spec fn eval_expr(x: Expression, s: Scope, p: Program, d: nat) -> Result<ValueView, Fault>
    decreases d, 0int, x, 0int,
{
    match x.kind {
        ExpressionKind::Literal(v) => Ok(v@),
        ExpressionKind::Name(n) => match lookup(s, n@) {
            Some(i) => Ok(s[i].1),
            None => Err(("AIC1107", Some(x.span))),
        },
        ExpressionKind::Unary { op, value } => match eval_expr(*value, s, p, d) {
            Err(f) => Err(f),
            Ok(v) => match (op, v) {
                (UnaryOp::Negate, ValueView::I32(i)) => Ok(ValueView::I32(0i32.wrapping_sub(i))),
                (UnaryOp::Not, ValueView::Bool(b)) => Ok(ValueView::Bool(!b)),
                _ => Err(("AIC1121", Some(x.span))),
            },
        },
        ExpressionKind::Binary { op, left, right } => match eval_expr(*left, s, p, d) {
            Err(f) => Err(f),
            Ok(l) => if (op == BinaryOp::And && l == ValueView::Bool(false)) || (op == BinaryOp::Or && l
                == ValueView::Bool(true)) {
                Ok(l)
            } else {
                match eval_expr(*right, s, p, d) {
                    Err(f) => Err(f),
                    Ok(r) => match binary_value(op, l, r) {
                        Some(v) => Ok(v),
                        None => Err(("AIC1123", Some(x.span))),
                    },
                }
            },
        },
        ExpressionKind::Call { name, args } => match eval_args(args@, s, p, d) {
            Err(f) => Err(f),
            Ok(a) => if name@ == "string"@ {
                if a.len() == 0 {
                    Err(("AIC1112", Some(x.span)))
                } else {
                    Ok(ValueView::Str(display(a[0])))
                }
            } else {
                match find_function(p.functions@, name@) {
                    None => Err(("AIC1114", Some(x.span))),
                    Some(k) => if d == 0 {
                        Err(("AIC1119", Some(x.span)))
                    } else {
                        let f = p.functions@[k];
                        match run_block(f.body@, call_scope(f.params@, a), p, (d - 1) as nat) {
                            Err(e) => Err(e),
                            Ok((_, Some(v))) => Ok(v),
                            Ok((_, None)) => Err(("AIC1104", Some(f.span))),
                        }
                    },
                }
            },
        },
        _ => Err(("AIC1129", Some(x.span))),
    }
}

/// The values of a list of arguments, evaluated left to right.
pub open spec fn eval_args(args: Seq<Expression>, s: Scope, p: Program, d: nat) -> Result<Seq<ValueView>, Fault>
    decreases d, 0int, args, 0int,
{
    if args.len() == 0 {
        Ok(Seq::empty())
    } else {
        match eval_args(args.drop_last(), s, p, d) {
            Err(f) => Err(f),
            Ok(vs) => match eval_expr(args[args.len() - 1], s, p, d) {
                Err(f) => Err(f),
                Ok(v) => Ok(vs.push(v)),
            },
        }
    }
}

/// Runs a block: the scope after it and the value of the `return` that ended it.
pub open spec fn run_block(b: Seq<Statement>, s: Scope, p: Program, d: nat) -> Result<(Scope, Option<ValueView>), Fault>
    decreases d, 1int, b, 0int,
{
    if b.len() == 0 {
        Ok((s, None))
    } else {
        match run_block(b.drop_last(), s, p, d) {
            Err(f) => Err(f),
            Ok((t, Some(v))) => Ok((t, Some(v))),
            Ok((t, None)) => exec_stmt(b[b.len() - 1], t, p, d),
        }
    }
}

/// Runs one statement.
pub open spec fn exec_stmt(st: Statement, s: Scope, p: Program, d: nat) -> Result<(Scope, Option<ValueView>), Fault>
    decreases d, 1int, st, 0int,
{
    match st.kind {
        StatementKind::Declare { name, value, .. } => match eval_expr(value, s, p, d) {
            Err(f) => Err(f),
            Ok(v) => Ok((bind(s, name@, v), None)),
        },
        StatementKind::Assign { name, value } => match eval_expr(value, s, p, d) {
            Err(f) => Err(f),
            Ok(v) => Ok((bind(s, name@, v), None)),
        },
        StatementKind::Return(x) => match eval_expr(x, s, p, d) {
            Err(f) => Err(f),
            Ok(v) => Ok((s, Some(v))),
        },
        StatementKind::If { condition, then_body, else_body } => match eval_expr(condition, s, p, d) {
            Err(f) => Err(f),
            Ok(c) => if c == ValueView::Bool(true) {
                run_block(then_body@, s, p, d)
            } else {
                run_block(else_body@, s, p, d)
            },
        },
        StatementKind::For { variable, start, end, body } => match eval_expr(start, s, p, d) {
            Err(f) => Err(f),
            Ok(a) => match eval_expr(end, s, p, d) {
                Err(f) => Err(f),
                Ok(z) => match (a, z) {
                    (ValueView::I32(a), ValueView::I32(z)) => run_loop(variable@, a as int, z as int, body, s, p, d),
                    _ => Err(("AIC1122", Some(st.span))),
                },
            },
        },
        _ => Ok((s, None)),
    }
}

/// Runs a `for` body for each counter value from `k` up to, not including, `z`.
pub open spec fn run_loop(v: Seq<char>, k: int, z: int, body: Vec<Statement>, s: Scope, p: Program, d: nat)
    -> Result<(Scope, Option<ValueView>), Fault>
    decreases d, 1int, body, z - k,
{
    if k >= z {
        Ok((unbind(s, v), None))
    } else {
        match run_block(body@, bind(s, v, ValueView::I32(k as i32)), p, d) {
            Err(f) => Err(f),
            Ok((t, Some(r))) => Ok((t, Some(r))),
            Ok((t, None)) => run_loop(v, k + 1, z, body, t, p, d),
        }
    }
}

/// The runtime result `r` is the evaluated `m`: the same value, or a diagnostic with its code and place.
pub open spec fn agrees<T: View>(r: Result<T, Diagnostic>, m: Result<T::V, Fault>) -> bool {
    match (r, m) {
        (Ok(a), Ok(b)) => a@ == b,
        (Err(e), Err(f)) => e.code == f.0 && e.location == f.1,
        _ => false,
    }
}

fn display_value(v: &Value) -> (r: String)
    ensures
        r@ == display(v@),
{
    match v {
        Value::I32(i) => i32_to_string(*i),
        Value::Bool(b) => if *b { owned("true") } else { owned("false") },
        Value::String(s) => s.clone(),
    }
}

/// Looking a name up in a runtime scope finds what it finds in the scope's content.
proof fn lookup_scope(m: Seq<(String, Value)>, k: Seq<char>)
    ensures
        key_index(m, k) == lookup(scope_of(m), k),
    decreases m.len(),
{
    if m.len() > 0 {
        assert(scope_of(m.drop_last()) =~= scope_of(m).drop_last());
        lookup_scope(m.drop_last(), k);
    }
}

/// Sets `name` to `v`, replacing an earlier value.
fn assign(e: &mut Vec<(String, Value)>, name: &String, v: Value)
    ensures
        scope_of(final(e)@) == bind(scope_of(old(e)@), name@, v@),
{
    proof {
        key_index_bounds(e@, name@);
        lookup_scope(e@, name@);
    }
    let ghost s = scope_of(e@);
    match find_key(e, name.as_str()) {
        Some(i) => {
            e.set(i, (name.clone(), v));
            assert(scope_of(e@) =~= s.update(i as int, (name@, v@)));
        },
        None => {
            e.push((name.clone(), v));
            assert(scope_of(e@) =~= s.push((name@, v@)));
        },
    }
}

/// Removes the first binding of `name`.
fn unassign(e: &mut Vec<(String, Value)>, name: &String)
    ensures
        scope_of(final(e)@) == unbind(scope_of(old(e)@), name@),
{
    proof {
        key_index_bounds(e@, name@);
        lookup_scope(e@, name@);
    }
    let ghost s = scope_of(e@);
    match find_key(e, name.as_str()) {
        Some(i) => {
            e.remove(i);
            assert(scope_of(e@) =~= s.remove(i as int));
        },
        None => {},
    }
}

fn call_depth_error(s: SourceSpan) -> (d: Diagnostic)
    ensures
        d.code == "AIC1119",
        d.location == Some(s),
{
    Diagnostic::at("AIC1119", s, owned("recursive or cyclic calls are unsupported"))
}

/// The runtime result of a block, with the scope `e` it left, is the block run by `m`.
pub open spec fn ran(r: Result<Option<Value>, Diagnostic>, e: Seq<(String, Value)>, m: Result<(Scope, Option<ValueView>), Fault>) -> bool {
    match (r, m) {
        (Ok(o), Ok((t, mo))) => scope_of(e) == t && match (o, mo) {
            (Some(a), Some(b)) => a@ == b,
            (None, None) => true,
            _ => false,
        },
        (Err(x), Err(f)) => x.code == f.0 && x.location == f.1,
        _ => false,
    }
}

/// The text of the first text view of `on_create` whose text is a string, the statements
/// before it declaring values in order.
pub open spec fn text_upto(b: Seq<Statement>, s: Scope, p: Program, d: nat) -> Result<(Scope, Option<Seq<char>>), Fault>
    decreases b.len(),
{
    if b.len() == 0 {
        Ok((s, None))
    } else {
        match text_upto(b.drop_last(), s, p, d) {
            Err(f) => Err(f),
            Ok((t, Some(x))) => Ok((t, Some(x))),
            Ok((t, None)) => match b.last().kind {
                StatementKind::Declare { name, value, .. } => match eval_expr(value, t, p, d) {
                    Err(f) => Err(f),
                    Ok(v) => Ok((bind(t, name@, v), None)),
                },
                StatementKind::TextView { text, .. } => match eval_expr(text, t, p, d) {
                    Err(f) => Err(f),
                    Ok(ValueView::Str(x)) => Ok((t, Some(x))),
                    Ok(_) => Ok((t, None)),
                },
                _ => Ok((t, None)),
            },
        }
    }
}

/// What compile-time evaluation of a program's first text gives.
pub open spec fn first_text(p: Program) -> Result<Seq<char>, Fault> {
    match text_upto(p.activity.on_create@, Seq::empty(), p, p.functions@.len()) {
        Err(f) => Err(f),
        Ok((_, Some(x))) => Ok(x),
        Ok((_, None)) => Err(("AIC1120", None)),
    }
}

proof fn args_error_persists(args: Seq<Expression>, j: int, n: int, s: Scope, p: Program, d: nat)
    requires
        0 <= j <= n <= args.len(),
        eval_args(args.take(j), s, p, d) is Err,
    ensures
        eval_args(args.take(n), s, p, d) == eval_args(args.take(j), s, p, d),
    decreases n - j,
{
    if n > j {
        args_error_persists(args, j, n - 1, s, p, d);
        assert(args.take(n).drop_last() =~= args.take(n - 1));
    }
}

pub(crate) proof fn block_settled(b: Seq<Statement>, j: int, n: int, s: Scope, p: Program, d: nat)
    requires
        0 <= j <= n <= b.len(),
        run_block(b.take(j), s, p, d) is Err || run_block(b.take(j), s, p, d)->Ok_0.1 is Some,
    ensures
        run_block(b.take(n), s, p, d) == run_block(b.take(j), s, p, d),
    decreases n - j,
{
    if n > j {
        block_settled(b, j, n - 1, s, p, d);
        assert(b.take(n).drop_last() =~= b.take(n - 1));
    }
}

proof fn text_settled(b: Seq<Statement>, j: int, n: int, s: Scope, p: Program, d: nat)
    requires
        0 <= j <= n <= b.len(),
        text_upto(b.take(j), s, p, d) is Err || text_upto(b.take(j), s, p, d)->Ok_0.1 is Some,
    ensures
        text_upto(b.take(n), s, p, d) == text_upto(b.take(j), s, p, d),
    decreases n - j,
{
    if n > j {
        text_settled(b, j, n - 1, s, p, d);
        assert(b.take(n).drop_last() =~= b.take(n - 1));
    }
}

proof fn function_found(fs: Seq<Function>, k: int, n: Seq<char>)
    requires
        0 <= k < fs.len(),
        find_function(fs.take(k), n) is None,
        fs[k].name@ == n,
    ensures
        find_function(fs, n) == Some(k),
{
    assert(fs.take(k + 1).drop_last() =~= fs.take(k));
    function_kept(fs, k + 1, fs.len() as int, n);
    assert(fs.take(fs.len() as int) =~= fs);
}

proof fn function_kept(fs: Seq<Function>, j: int, n: int, name: Seq<char>)
    requires
        0 <= j <= n <= fs.len(),
        find_function(fs.take(j), name) is Some,
    ensures
        find_function(fs.take(n), name) == find_function(fs.take(j), name),
    decreases n - j,
{
    if n > j {
        function_kept(fs, j, n - 1, name);
        assert(fs.take(n).drop_last() =~= fs.take(n - 1));
    }
}

/// Evaluates an expression in scope `e`; `depth` bounds how deeply calls nest.
#[verifier::loop_isolation(false)]
#[verifier::spinoff_prover]
fn eval(x: &Expression, e: &Vec<(String, Value)>, p: &Program, depth: usize) -> (r: Result<Value, Diagnostic>)
    ensures
        agrees(r, eval_expr(*x, scope_of(e@), *p, depth as nat)),
        r matches Err(d) ==> eval_code(d.code),
    decreases depth, 0int, x,
{
    let ghost s = scope_of(e@);
    match &x.kind {
        ExpressionKind::Literal(v) => Ok(clone_value(v)),
        ExpressionKind::Name(n) => {
            proof {
                key_index_bounds(e@, n@);
                lookup_scope(e@, n@);
            }
            match find_key(e, n.as_str()) {
                Some(i) => Ok(clone_value(&e[i].1)),
                None => Err(Diagnostic::at("AIC1107", x.span, owned("undefined value"))),
            }
        },
        ExpressionKind::Unary { op, value } => {
            let v = eval(value, e, p, depth)?;
            match (op, v) {
                (UnaryOp::Negate, Value::I32(v)) => Ok(Value::I32(0i32.wrapping_sub(v))),
                (UnaryOp::Not, Value::Bool(v)) => Ok(Value::Bool(!v)),
                _ => Err(Diagnostic::at("AIC1121", x.span, owned("invalid unary value"))),
            }
        },
        ExpressionKind::Binary { op, left, right } => {
            let l = eval(left, e, p, depth)?;
            let short = match (op, &l) {
                (BinaryOp::And, Value::Bool(false)) => true,
                (BinaryOp::Or, Value::Bool(true)) => true,
                _ => false,
            };
            if short {
                return Ok(l);
            }
            let r = eval(right, e, p, depth)?;
            value(*op, l, r, x.span)
        },
        ExpressionKind::Call { name, args } => {
            let mut a: Vec<Value> = Vec::new();
            let mut i: usize = 0;
            assert(args@.take(0) =~= Seq::<Expression>::empty());
            assert(a@.map_values(|v: Value| v@) =~= Seq::<ValueView>::empty());
            while i < args.len()
                invariant
                    i <= args@.len(),
                    eval_args(args@.take(i as int), s, *p, depth as nat) == Ok::<Seq<ValueView>, Fault>(
                        a@.map_values(|v: Value| v@),
                    ),
                decreases args@.len() - i,
            {
                proof {
                    vstd::std_specs::vec::axiom_vec_index_decreases(*args, i as int);
                    assert(args@.take(i + 1).drop_last() =~= args@.take(i as int));
                }
                let v = match eval(&args[i], e, p, depth) {
                    Ok(v) => v,
                    Err(d) => {
                        proof {
                            args_error_persists(args@, i + 1, args@.len() as int, s, *p, depth as nat);
                            assert(args@.take(args@.len() as int) =~= args@);
                        }
                        return Err(d);
                    },
                };
                let ghost before = a@;
                let ghost w = v@;
                a.push(v);
                i = i + 1;
                assert(a@.map_values(|v: Value| v@) =~= before.map_values(|v: Value| v@).push(w));
            }
            proof {
                assert(args@.take(args@.len() as int) =~= args@);
            }
            let ghost av = a@.map_values(|v: Value| v@);
            if is_word(name, "string") {
                if a.len() == 0 {
                    return Err(Diagnostic::at("AIC1112", x.span, owned("string() expects one argument")));
                }
                return Ok(Value::String(display_value(&a[0])));
            }
            let mut k: usize = 0;
            let mut found = false;
            while k < p.functions.len() && !found
                invariant
                    k <= p.functions@.len(),
                    found ==> k < p.functions@.len() && p.functions@[k as int].name@ == name@,
                    find_function(p.functions@.take(k as int), name@) is None,
                decreases p.functions@.len() - k + (if found { 0int } else { 1 }),
            {
                if crate::text::str_eq(p.functions[k].name.as_str(), name.as_str()) {
                    found = true;
                } else {
                    proof {
                        assert(p.functions@.take(k + 1).drop_last() =~= p.functions@.take(k as int));
                    }
                    k = k + 1;
                }
            }
            if !found {
                proof {
                    assert(p.functions@.take(k as int) =~= p.functions@);
                }
                return Err(Diagnostic::at("AIC1114", x.span, owned("unknown function")));
            }
            proof {
                function_found(p.functions@, k as int, name@);
            }
            if depth == 0 {
                return Err(call_depth_error(x.span));
            }
            let f = &p.functions[k];
            let mut q: Vec<(String, Value)> = Vec::new();
            let mut j: usize = 0;
            while j < f.params.len() && j < a.len()
                invariant
                    j <= f.params@.len(),
                    j <= a@.len(),
                    scope_of(q@) =~= call_scope(f.params@, av).take(j as int),
                decreases f.params@.len() - j,
            {
                q.push((f.params[j].name.clone(), clone_value(&a[j])));
                j = j + 1;
            }
            proof {
                assert(scope_of(q@) =~= call_scope(f.params@, av));
            }
            match run(&f.body, &mut q, p, depth - 1) {
                Err(d) => Err(d),
                Ok(Some(v)) => Ok(v),
                Ok(None) => Err(Diagnostic::at("AIC1104", f.span, owned("missing return"))),
            }
        },
        ExpressionKind::AndroidText { .. } | ExpressionKind::PreferenceGet { .. } | ExpressionKind::DatabaseInsert { .. }
        | ExpressionKind::DatabaseExists { .. } | ExpressionKind::DatabaseGet { .. } => Err(
            Diagnostic::at("AIC1129", x.span, owned("UI text is available only at runtime")),
        ),
    }
}

/// Runs a block; `Some` carries the value of the `return` that ended it.
#[verifier::spinoff_prover]
fn run(b: &Vec<Statement>, e: &mut Vec<(String, Value)>, p: &Program, depth: usize)
    -> (r: Result<Option<Value>, Diagnostic>)
    ensures
        ran(r, final(e)@, run_block(b@, scope_of(old(e)@), *p, depth as nat)),
        r matches Err(d) ==> eval_code(d.code),
    decreases depth, 1int, b,
{
    let ghost s0 = scope_of(e@);
    let mut i: usize = 0;
    while i < b.len()
        invariant
            i <= b@.len(),
            s0 == scope_of(old(e)@),
            run_block(b@.take(i as int), s0, *p, depth as nat) == Ok::<(Scope, Option<ValueView>), Fault>(
                (scope_of(e@), None),
            ),
        decreases b@.len() - i,
    {
        proof {
            vstd::std_specs::vec::axiom_vec_index_decreases(*b, i as int);
            assert(b@.take(i + 1).drop_last() =~= b@.take(i as int));
            assert(b@.take(i + 1).last() == b@[i as int]);
            assert(b@.take(b@.len() as int) =~= b@);
        }
        let ghost before = scope_of(e@);
        assert(run_block(b@.take(i + 1), s0, *p, depth as nat) == exec_stmt(b@[i as int], before, *p, depth as nat));
        match step(&b[i], e, p, depth) {
            Err(d) => {
                proof {
                    assert(run_block(b@.take(i + 1), s0, *p, depth as nat) is Err);
                    block_settled(b@, i + 1, b@.len() as int, s0, *p, depth as nat);
                    assert(run_block(b@, s0, *p, depth as nat) == run_block(b@.take(i + 1), s0, *p, depth as nat));
                }
                return Err(d);
            },
            Ok(Some(v)) => {
                proof {
                    assert(run_block(b@.take(i + 1), s0, *p, depth as nat)->Ok_0.1 is Some);
                    block_settled(b@, i + 1, b@.len() as int, s0, *p, depth as nat);
                    assert(run_block(b@, s0, *p, depth as nat) == run_block(b@.take(i + 1), s0, *p, depth as nat));
                }
                return Ok(Some(v));
            },
            Ok(None) => {},
        }
        i = i + 1;
    }
    proof {
        assert(b@.take(b@.len() as int) =~= b@);
    }
    Ok(None)
}

/// Runs one statement; `Some` carries the value of a `return` it reached.
#[verifier::loop_isolation(false)]
#[verifier::spinoff_prover]
fn step(s: &Statement, e: &mut Vec<(String, Value)>, p: &Program, depth: usize)
    -> (r: Result<Option<Value>, Diagnostic>)
    ensures
        ran(r, final(e)@, exec_stmt(*s, scope_of(old(e)@), *p, depth as nat)),
        r matches Err(d) ==> eval_code(d.code),
    decreases depth, 1int, s,
{
    match &s.kind {
        StatementKind::Declare { name, value, .. } => {
            let v = eval(value, e, p, depth)?;
            assign(e, name, v);
            Ok(None)
        },
        StatementKind::Assign { name, value } => {
            let v = eval(value, e, p, depth)?;
            assign(e, name, v);
            Ok(None)
        },
        StatementKind::Return(x) => {
            let v = eval(x, e, p, depth)?;
            Ok(Some(v))
        },
        StatementKind::If { condition, then_body, else_body } => {
            let c = eval(condition, e, p, depth)?;
            let taken = match c {
                Value::Bool(true) => true,
                _ => false,
            };
            if taken {
                run(then_body, e, p, depth)
            } else {
                run(else_body, e, p, depth)
            }
        },
        StatementKind::For { variable, start, end, body } => {
            let ghost s0 = scope_of(e@);
            let a = eval(start, e, p, depth)?;
            let z = eval(end, e, p, depth)?;
            let (a, z) = match (a, z) {
                (Value::I32(a), Value::I32(z)) => (a, z),
                _ => return Err(Diagnostic::at("AIC1122", s.span, owned("invalid loop bounds"))),
            };
            let mut k: i32 = a;
            while k < z
                invariant
                    a <= k,
                    exec_stmt(*s, s0, *p, depth as nat) == run_loop(variable@, k as int, z as int, *body, scope_of(e@),
                        *p, depth as nat),
                decreases z - k,
            {
                assign(e, variable, Value::I32(k));
                match run(body, e, p, depth) {
                    Err(d) => return Err(d),
                    Ok(Some(v)) => return Ok(Some(v)),
                    Ok(None) => {},
                }
                k = k + 1;
            }
            unassign(e, variable);
            Ok(None)
        },
        _ => Ok(None),
    }
}

/// The text of the first text view that `on_create` creates, evaluated at compile time.
#[verifier::spinoff_prover]
pub fn evaluate_text(p: &Program) -> (r: Result<String, Diagnostic>)
    ensures
        agrees(r, first_text(*p)),
        r matches Err(d) ==> eval_code(d.code),
{
    let mut e: Vec<(String, Value)> = Vec::new();
    let depth = p.functions.len();
    let ghost b = p.activity.on_create@;
    let ghost s0 = scope_of(e@);
    assert(s0 =~= Seq::<(Seq<char>, ValueView)>::empty());
    let mut i: usize = 0;
    while i < p.activity.on_create.len()
        invariant
            i <= b.len(),
            b == p.activity.on_create@,
            depth == p.functions@.len(),
            s0 == Seq::<(Seq<char>, ValueView)>::empty(),
            text_upto(b.take(i as int), s0, *p, depth as nat) == Ok::<(Scope, Option<Seq<char>>), Fault>(
                (scope_of(e@), None),
            ),
        decreases b.len() - i,
    {
        proof {
            assert(b.take(i + 1).drop_last() =~= b.take(i as int));
            assert(b.take(i + 1).last() == b[i as int]);
            assert(b.take(b.len() as int) =~= b);
        }
        match &p.activity.on_create[i].kind {
            StatementKind::Declare { name, value, .. } => {
                match eval(value, &e, p, depth) {
                    Ok(v) => {
                        assign(&mut e, name, v);
                    },
                    Err(d) => {
                        proof {
                            text_settled(b, i + 1, b.len() as int, s0, *p, depth as nat);
                        }
                        return Err(d);
                    },
                }
            },
            StatementKind::TextView { text, .. } => {
                match eval(text, &e, p, depth) {
                    Ok(Value::String(v)) => {
                        proof {
                            text_settled(b, i + 1, b.len() as int, s0, *p, depth as nat);
                        }
                        return Ok(v);
                    },
                    Ok(_) => {},
                    Err(d) => {
                        proof {
                            text_settled(b, i + 1, b.len() as int, s0, *p, depth as nat);
                        }
                        return Err(d);
                    },
                }
            },
            _ => {},
        }
        i = i + 1;
    }
    proof {
        assert(b.take(b.len() as int) =~= b);
    }
    Err(Diagnostic::global("AIC1120", owned("on_create must create a TextView")))
}

} // verus!
