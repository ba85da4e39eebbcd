//! Whole-program optimizations of verified programs: constant folding, dead branch and
//! dead code removal, and pruning of unreachable functions, preferences and tables.
pub mod preserve;
use vstd::prelude::*;
use crate::ir::{BinaryOp, UnaryOp, Capability, Expression, ExpressionKind, Statement, StatementKind, Value,
    Program, Function, Activity, State, ClickHandler, Database, Table, Preference, clone_value, value_eq,
    clone_expression, clone_expressions, clone_named, clone_statement, clone_statements};
use crate::ir::eval::{binary_value, eval_expr, eval_args, exec_stmt, run_block, run_loop, bind, Scope};
use crate::ir::Fault;
use crate::ir::Parameter;
use crate::ir::ValueView;
use crate::text::{insert_sorted, strictly_sorted, str_eq, concat};
use crate::ir::program::distinct_names;

verus! {

/// How much the optimizer does.
#[derive(Clone, Copy, Debug, PartialEq, Eq, Structural)]
pub enum OptimizationLevel {
    Off,
    Basic,
}

impl Default for OptimizationLevel {
    fn default() -> (r: Self)
        ensures
            r == OptimizationLevel::Basic,
    {
        OptimizationLevel::Basic
    }
}

/// Compiler options.
#[derive(Clone, Copy, Debug, PartialEq, Eq, Structural)]
pub struct CompilerOptions {
    pub optimization_level: OptimizationLevel,
}

impl Default for CompilerOptions {
    fn default() -> (r: Self)
        ensures
            r.optimization_level == OptimizationLevel::Basic,
    {
        CompilerOptions { optimization_level: OptimizationLevel::Basic }
    }
}

/// What a program reaches: functions, capabilities, view ids, preference keys, tables and
/// the columns used of each table. Each list is sorted and free of duplicates.
#[derive(Clone, Debug, PartialEq, Eq)]
pub struct Reachability {
    pub functions: Vec<String>,
    pub capabilities: Vec<Capability>,
    pub views: Vec<String>,
    pub preferences: Vec<String>,
    pub tables: Vec<String>,
    pub columns: Vec<(String, Vec<String>)>,
}

/// The reachability and sizes of a program before and after optimization.
#[derive(Clone, Debug, PartialEq, Eq)]
pub struct OptimizationReport {
    pub before: Reachability,
    pub after: Reachability,
    pub functions_before: usize,
    pub functions_after: usize,
    pub preferences_before: usize,
    pub preferences_after: usize,
    pub tables_before: usize,
    pub tables_after: usize,
}

impl OptimizationReport {
    /// Number of functions removed.
    pub fn removed_functions(&self) -> (r: usize)
        ensures
            r == (if self.functions_before >= self.functions_after {
                self.functions_before - self.functions_after
            } else {
                0
            }),
    {
        self.functions_before.saturating_sub(self.functions_after)
    }

    /// Number of preferences and tables removed.
    pub fn removed_resources(&self) -> (r: usize)
        requires
            (if self.preferences_before >= self.preferences_after {
                self.preferences_before - self.preferences_after
            } else {
                0
            }) + (if self.tables_before >= self.tables_after {
                self.tables_before - self.tables_after
            } else {
                0
            }) <= usize::MAX,
        ensures
            r == (if self.preferences_before >= self.preferences_after {
                self.preferences_before - self.preferences_after
            } else {
                0
            }) + (if self.tables_before >= self.tables_after {
                self.tables_before - self.tables_after
            } else {
                0
            }),
    {
        self.preferences_before.saturating_sub(self.preferences_after) + self.tables_before.saturating_sub(
            self.tables_after,
        )
    }
}

/// The value of a unary operator on a literal, when it has one.
pub open spec fn unary_value(op: UnaryOp, v: crate::ir::ValueView) -> Option<crate::ir::ValueView> {
    match (op, v) {
        (UnaryOp::Negate, crate::ir::ValueView::I32(x)) => Some(crate::ir::ValueView::I32(0i32.wrapping_sub(x))),
        (UnaryOp::Not, crate::ir::ValueView::Bool(x)) => Some(crate::ir::ValueView::Bool(!x)),
        _ => None,
    }
}

/// No operator of the expression is left that constant folding would replace: no unary or
/// binary operator on literals that have a value, and no `&&` after a literal `false` or `||`
/// after a literal `true`.
pub open spec fn folded(e: Expression) -> bool
    decreases e,
{
    match e.kind {
        ExpressionKind::Unary { op, value } => folded(*value) && !(value.kind is Literal && unary_value(
            op,
            value.kind->Literal_0@,
        ) is Some),
        ExpressionKind::Binary { op, left, right } => {
            &&& folded(*left)
            &&& folded(*right)
            &&& !(left.kind is Literal && right.kind is Literal && binary_value(
                op,
                left.kind->Literal_0@,
                right.kind->Literal_0@,
            ) is Some)
            &&& !(op == BinaryOp::And && left.kind == ExpressionKind::Literal(Value::Bool(false)))
            &&& !(op == BinaryOp::Or && left.kind == ExpressionKind::Literal(Value::Bool(true)))
        },
        ExpressionKind::Call { args, .. } => forall|i: int| 0 <= i < args@.len() ==> folded(#[trigger] args@[i]),
        ExpressionKind::DatabaseInsert { values, .. } => forall|i: int|
            0 <= i < values@.len() ==> folded(#[trigger] values@[i].1),
        ExpressionKind::DatabaseExists { id, .. } => folded(*id),
        ExpressionKind::DatabaseGet { id, default, .. } => folded(*id) && folded(*default),
        _ => true,
    }
}

/// Folds a unary operator applied to a literal.
pub fn fold_unary(op: UnaryOp, v: &ExpressionKind) -> (r: Option<Value>)
    ensures
        match *v {
            ExpressionKind::Literal(x) => match unary_value(op, x@) {
                Some(w) => r matches Some(y) && y@ == w,
                None => r is None,
            },
            _ => r is None,
        },
{
    match (op, v) {
        (UnaryOp::Negate, ExpressionKind::Literal(Value::I32(x))) => Some(Value::I32(0i32.wrapping_sub(*x))),
        (UnaryOp::Not, ExpressionKind::Literal(Value::Bool(x))) => Some(Value::Bool(!*x)),
        _ => None,
    }
}

/// Folds a binary operator applied to two literals; it gives what evaluation gives.
pub fn fold_binary(op: BinaryOp, l: &ExpressionKind, r: &ExpressionKind) -> (res: Option<Value>)
    ensures
        match (*l, *r) {
            (ExpressionKind::Literal(a), ExpressionKind::Literal(b)) => match binary_value(op, a@, b@) {
                Some(w) => res matches Some(y) && y@ == w,
                None => res is None,
            },
            _ => res is None,
        },
{
    match (l, r) {
        (ExpressionKind::Literal(a), ExpressionKind::Literal(b)) => {
            match crate::ir::eval::value(op, clone_value(a), clone_value(b), crate::ir::SourceSpan {
                start: crate::ir::SourceLocation { line: 0, column: 0 },
                end: crate::ir::SourceLocation { line: 0, column: 0 },
            }) {
                Ok(v) => Some(v),
                Err(_) => None,
            }
        },
        _ => None,
    }
}

/// A literal `true` or `false`.
fn literal_bool(k: &ExpressionKind) -> (r: Option<bool>)
    ensures
        r matches Some(b) ==> *k == ExpressionKind::Literal(Value::Bool(b)),
        r is None ==> !(k is Literal && k->Literal_0 is Bool),
{
    match k {
        ExpressionKind::Literal(Value::Bool(b)) => Some(*b),
        _ => None,
    }
}

/// Argument lists whose members evaluate alike evaluate alike.
proof fn args_alike(a: Seq<Expression>, b: Seq<Expression>, s: Scope, p: Program, d: nat)
    requires
        a.len() == b.len(),
        forall|k: int, s: Scope, p: Program, d: nat| 0 <= k < a.len() ==> #[trigger] eval_expr(a[k], s, p, d)
            == eval_expr(b[k], s, p, d),
    ensures
        eval_args(a, s, p, d) == eval_args(b, s, p, d),
    decreases a.len(),
{
    if a.len() > 0 {
        assert(eval_expr(a[a.len() - 1], s, p, d) == eval_expr(b[b.len() - 1], s, p, d));
        args_alike(a.drop_last(), b.drop_last(), s, p, d);
    }
}

/// Folds constants in an expression and short-circuits `false && x` and `true || x`;
/// the result evaluates as `e` does, in every scope.
#[verifier::loop_isolation(false)]
#[verifier::spinoff_prover]
pub fn expression(e: &Expression) -> (r: Expression)
    ensures
        r.span == e.span,
        folded(r),
        forall|s: Scope, p: Program, d: nat| #[trigger] eval_expr(r, s, p, d) == eval_expr(*e, s, p, d),
    decreases e,
{
    match &e.kind {
        ExpressionKind::Unary { op, value } => {
            let v = expression(value);
            let kind = match fold_unary(*op, &v.kind) {
                Some(x) => ExpressionKind::Literal(x),
                None => ExpressionKind::Unary { op: *op, value: Box::new(v) },
            };
            let r = Expression { kind, span: e.span };
            proof {
                assert forall|s: Scope, p: Program, d: nat| #[trigger] eval_expr(r, s, p, d) == eval_expr(*e, s, p, d) by {
                    assert(eval_expr(v, s, p, d) == eval_expr(**value, s, p, d));
                }
            }
            r
        },
        ExpressionKind::Binary { op, left, right } => {
            let l = expression(left);
            let short = match (op, literal_bool(&l.kind)) {
                (BinaryOp::And, Some(false)) => true,
                (BinaryOp::Or, Some(true)) => true,
                _ => false,
            };
            if short {
                let r = Expression { kind: l.kind, span: e.span };
                proof {
                    assert forall|s: Scope, p: Program, d: nat| #[trigger] eval_expr(r, s, p, d) == eval_expr(*e, s, p, d) by {
                        assert(eval_expr(l, s, p, d) == eval_expr(**left, s, p, d));
                    }
                }
                return r;
            }
            let q = expression(right);
            let kind = match fold_binary(*op, &l.kind, &q.kind) {
                Some(x) => ExpressionKind::Literal(x),
                None => ExpressionKind::Binary { op: *op, left: Box::new(l), right: Box::new(q) },
            };
            let r = Expression { kind, span: e.span };
            proof {
                assert forall|s: Scope, p: Program, d: nat| #[trigger] eval_expr(r, s, p, d) == eval_expr(*e, s, p, d) by {
                    assert(eval_expr(l, s, p, d) == eval_expr(**left, s, p, d));
                    assert(eval_expr(q, s, p, d) == eval_expr(**right, s, p, d));
                }
            }
            r
        },
        ExpressionKind::Call { name, args } => {
            let mut out: Vec<Expression> = Vec::new();
            let mut i: usize = 0;
            while i < args.len()
                invariant
                    i <= args@.len(),
                    out@.len() == i,
                    forall|k: int, s: Scope, p: Program, d: nat| 0 <= k < i ==> #[trigger] eval_expr(out@[k], s, p, d)
                        == eval_expr(args@[k], s, p, d),
                    forall|k: int| 0 <= k < i ==> folded(#[trigger] out@[k]),
                decreases args@.len() - i,
            {
                proof {
                    vstd::std_specs::vec::axiom_vec_index_decreases(*args, i as int);
                }
                out.push(expression(&args[i]));
                i = i + 1;
            }
            let r = Expression { kind: ExpressionKind::Call { name: name.clone(), args: out }, span: e.span };
            proof {
                assert forall|s: Scope, p: Program, d: nat| #[trigger] eval_expr(r, s, p, d) == eval_expr(*e, s, p, d) by {
                    args_alike(out@, args@, s, p, d);
                }
            }
            r
        },
        ExpressionKind::Literal(v) => Expression { kind: ExpressionKind::Literal(clone_value(v)), span: e.span },
        ExpressionKind::Name(n) => Expression { kind: ExpressionKind::Name(n.clone()), span: e.span },
        ExpressionKind::AndroidText { view } => Expression {
            kind: ExpressionKind::AndroidText { view: view.clone() },
            span: e.span,
        },
        ExpressionKind::PreferenceGet { key } => Expression {
            kind: ExpressionKind::PreferenceGet { key: key.clone() },
            span: e.span,
        },
        ExpressionKind::DatabaseInsert { table, values } => Expression {
            kind: ExpressionKind::DatabaseInsert { table: table.clone(), values: named(values) },
            span: e.span,
        },
        ExpressionKind::DatabaseExists { table, id } => Expression {
            kind: ExpressionKind::DatabaseExists { table: table.clone(), id: Box::new(expression(id)) },
            span: e.span,
        },
        ExpressionKind::DatabaseGet { table, id, column, default } => Expression {
            kind: ExpressionKind::DatabaseGet {
                table: table.clone(),
                id: Box::new(expression(id)),
                column: column.clone(),
                default: Box::new(expression(default)),
            },
            span: e.span,
        },
    }
}

/// Folds the values of a list of named expressions.
fn named(values: &Vec<(String, Expression)>) -> (r: Vec<(String, Expression)>)
    ensures
        r@.len() == values@.len(),
        forall|k: int| 0 <= k < r@.len() ==> folded(#[trigger] r@[k].1),
        forall|k: int| 0 <= k < values@.len() ==> (#[trigger] r@[k]).0 == values@[k].0 && r@[k].1.span
            == values@[k].1.span && forall|s: Scope, p: Program, d: nat| #[trigger] eval_expr(r@[k].1, s, p, d)
            == eval_expr(values@[k].1, s, p, d),
    decreases values,
{
    let mut out: Vec<(String, Expression)> = Vec::new();
    let mut i: usize = 0;
    while i < values.len()
        invariant
            i <= values@.len(),
            out@.len() == i,
            forall|k: int| 0 <= k < i ==> folded(#[trigger] out@[k].1),
            forall|k: int| 0 <= k < i ==> (#[trigger] out@[k]).0 == values@[k].0 && out@[k].1.span
                == values@[k].1.span && forall|s: Scope, p: Program, d: nat| #[trigger] eval_expr(out@[k].1, s, p, d)
                == eval_expr(values@[k].1, s, p, d),
        decreases values@.len() - i,
    {
        proof {
            vstd::std_specs::vec::axiom_vec_index_decreases(*values, i as int);
        }
        out.push((values[i].0.clone(), expression(&values[i].1)));
        i = i + 1;
    }
    out
}

/// Whether a statement returns on every path through it.
pub open spec fn spec_terminal(s: Statement) -> bool
    decreases s,
{
    match s.kind {
        StatementKind::Return(_) => true,
        StatementKind::If { then_body, else_body, .. } => then_body@.len() > 0 && else_body@.len() > 0
            && spec_terminal(then_body@.last()) && spec_terminal(else_body@.last()),
        _ => false,
    }
}

/// Whether a statement returns on every path through it.
pub fn terminal(s: &Statement) -> (r: bool)
    ensures
        r == spec_terminal(*s),
    decreases s,
{
    match &s.kind {
        StatementKind::Return(_) => true,
        StatementKind::If { then_body, else_body, .. } => {
            if then_body.len() == 0 || else_body.len() == 0 {
                return false;
            }
            proof {
                vstd::std_specs::vec::axiom_vec_index_decreases(*then_body, then_body@.len() - 1);
                vstd::std_specs::vec::axiom_vec_index_decreases(*else_body, else_body@.len() - 1);
            }
            terminal(&then_body[then_body.len() - 1]) && terminal(&else_body[else_body.len() - 1])
        },
        _ => false,
    }
}

/// A block result that no later statement can change: a failure or a `return`.
pub open spec fn settled(m: Result<(Scope, Option<ValueView>), Fault>) -> bool {
    m is Err || m->Ok_0.1 is Some
}

/// Running `a` then `b` is running `a + b`.
proof fn block_concat(a: Seq<Statement>, b: Seq<Statement>, s: Scope, p: Program, d: nat)
    ensures
        run_block(a + b, s, p, d) == match run_block(a, s, p, d) {
            Ok((t, None)) => run_block(b, t, p, d),
            other => other,
        },
    decreases b.len(),
{
    if b.len() == 0 {
        assert(a + b =~= a);
    } else {
        block_concat(a, b.drop_last(), s, p, d);
        assert((a + b).drop_last() =~= a + b.drop_last());
        assert((a + b).last() == b.last());
    }
}

/// Blocks whose statements run alike run alike.
proof fn block_alike(a: Seq<Statement>, b: Seq<Statement>, s: Scope, p: Program, d: nat)
    requires
        a.len() == b.len(),
        forall|k: int, s: Scope, p: Program, d: nat| 0 <= k < a.len() ==> #[trigger] exec_stmt(a[k], s, p, d)
            == exec_stmt(b[k], s, p, d),
    ensures
        run_block(a, s, p, d) == run_block(b, s, p, d),
    decreases a.len(),
{
    if a.len() > 0 {
        block_alike(a.drop_last(), b.drop_last(), s, p, d);
        match run_block(a.drop_last(), s, p, d) {
            Ok((t, None)) => {
                assert(exec_stmt(a[a.len() - 1], t, p, d) == exec_stmt(b[b.len() - 1], t, p, d));
            },
            _ => {},
        }
    }
}

/// A statement that returns on every path settles the block it ends.
proof fn terminal_settles(st: Statement, s: Scope, p: Program, d: nat)
    requires
        spec_terminal(st),
    ensures
        settled(exec_stmt(st, s, p, d)),
    decreases st,
{
    match st.kind {
        StatementKind::If { condition, then_body, else_body } => {
            match eval_expr(condition, s, p, d) {
                Ok(c) => {
                    if c == ValueView::Bool(true) {
                        last_settles(then_body@, s, p, d);
                    } else {
                        last_settles(else_body@, s, p, d);
                    }
                },
                Err(_) => {},
            }
        },
        _ => {},
    }
}

/// A block whose last statement returns on every path is settled once run.
proof fn last_settles(b: Seq<Statement>, s: Scope, p: Program, d: nat)
    requires
        b.len() > 0,
        spec_terminal(b.last()),
    ensures
        settled(run_block(b, s, p, d)),
    decreases b,
{
    match run_block(b.drop_last(), s, p, d) {
        Ok((t, None)) => {
            terminal_settles(b[b.len() - 1], t, p, d);
        },
        _ => {},
    }
}

/// Loops over bodies that run alike run alike.
proof fn loop_alike(v: Seq<char>, k: int, z: int, a: Vec<Statement>, b: Vec<Statement>, s: Scope, p: Program, d: nat)
    requires
        forall|s: Scope| #[trigger] run_block(a@, s, p, d) == run_block(b@, s, p, d),
    ensures
        run_loop(v, k, z, a, s, p, d) == run_loop(v, k, z, b, s, p, d),
    decreases z - k,
{
    if k < z {
        let t = bind(s, v, ValueView::I32(k as i32));
        assert(run_block(a@, t, p, d) == run_block(b@, t, p, d));
        match run_block(a@, t, p, d) {
            Ok((u, None)) => loop_alike(v, k + 1, z, a, b, u, p, d),
            _ => {},
        }
    }
}

/// Folds the expressions of one statement other than an `if` on a literal; the result
/// runs as `s` does.
#[verifier::spinoff_prover]
fn statement(s: &Statement) -> (r: Statement)
    ensures
        r.span == s.span,
        forall|sc: Scope, p: Program, d: nat| #[trigger] exec_stmt(r, sc, p, d) == exec_stmt(*s, sc, p, d),
    decreases s, 1int,
{
    match &s.kind {
        StatementKind::Declare { mutable, name, ty, value } => {
            let v = expression(value);
            let r = Statement {
                kind: StatementKind::Declare { mutable: *mutable, name: name.clone(), ty: *ty, value: v },
                span: s.span,
            };
            proof {
                assert forall|sc: Scope, p: Program, d: nat| #[trigger] exec_stmt(r, sc, p, d) == exec_stmt(*s, sc, p, d) by {
                    assert(eval_expr(v, sc, p, d) == eval_expr(*value, sc, p, d));
                }
            }
            r
        },
        StatementKind::Assign { name, value } => {
            let v = expression(value);
            let r = Statement { kind: StatementKind::Assign { name: name.clone(), value: v }, span: s.span };
            proof {
                assert forall|sc: Scope, p: Program, d: nat| #[trigger] exec_stmt(r, sc, p, d) == exec_stmt(*s, sc, p, d) by {
                    assert(eval_expr(v, sc, p, d) == eval_expr(*value, sc, p, d));
                }
            }
            r
        },
        StatementKind::Return(x) => {
            let v = expression(x);
            let r = Statement { kind: StatementKind::Return(v), span: s.span };
            proof {
                assert forall|sc: Scope, p: Program, d: nat| #[trigger] exec_stmt(r, sc, p, d) == exec_stmt(*s, sc, p, d) by {
                    assert(eval_expr(v, sc, p, d) == eval_expr(*x, sc, p, d));
                }
            }
            r
        },
        StatementKind::For { variable, start, end, body } => {
            let a = expression(start);
            let z = expression(end);
            let b = statements(body);
            let r = Statement {
                kind: StatementKind::For { variable: variable.clone(), start: a, end: z, body: b },
                span: s.span,
            };
            proof {
                assert forall|sc: Scope, p: Program, d: nat| #[trigger] exec_stmt(r, sc, p, d) == exec_stmt(*s, sc, p, d) by {
                    assert(eval_expr(a, sc, p, d) == eval_expr(*start, sc, p, d));
                    assert(eval_expr(z, sc, p, d) == eval_expr(*end, sc, p, d));
                    match (eval_expr(*start, sc, p, d), eval_expr(*end, sc, p, d)) {
                        (Ok(ValueView::I32(x)), Ok(ValueView::I32(y))) => {
                            assert forall|t: Scope| #[trigger] run_block(b@, t, p, d) == run_block(body@, t, p, d) by {
                                assert(run_block(b@, t, p, d) == run_block(body@, t, p, d));
                            }
                            loop_alike(variable@, x as int, y as int, b, *body, sc, p, d);
                        },
                        _ => {},
                    }
                }
            }
            r
        },
        StatementKind::If { condition, then_body, else_body } => {
            let c = expression(condition);
            let t = statements(then_body);
            let f = statements(else_body);
            let r = Statement {
                kind: StatementKind::If { condition: c, then_body: t, else_body: f },
                span: s.span,
            };
            proof {
                assert forall|sc: Scope, p: Program, d: nat| #[trigger] exec_stmt(r, sc, p, d) == exec_stmt(*s, sc, p, d) by {
                    assert(eval_expr(c, sc, p, d) == eval_expr(*condition, sc, p, d));
                    assert(run_block(t@, sc, p, d) == run_block(then_body@, sc, p, d));
                    assert(run_block(f@, sc, p, d) == run_block(else_body@, sc, p, d));
                }
            }
            r
        },
        StatementKind::TextView { id, text } => Statement {
            kind: StatementKind::TextView { id: id.clone(), text: expression(text) },
            span: s.span,
        },
        StatementKind::Button { id, text } => Statement {
            kind: StatementKind::Button { id: id.clone(), text: expression(text) },
            span: s.span,
        },
        StatementKind::EditText { id, hint } => Statement {
            kind: StatementKind::EditText { id: id.clone(), hint: expression(hint) },
            span: s.span,
        },
        StatementKind::TextInput { id, hint } => Statement {
            kind: StatementKind::TextInput { id: id.clone(), hint: expression(hint) },
            span: s.span,
        },
        StatementKind::SetText { view, text } => Statement {
            kind: StatementKind::SetText { view: view.clone(), text: expression(text) },
            span: s.span,
        },
        StatementKind::PreferenceSet { key, value } => Statement {
            kind: StatementKind::PreferenceSet { key: key.clone(), value: expression(value) },
            span: s.span,
        },
        StatementKind::DatabaseUpdate { table, id, values } => Statement {
            kind: StatementKind::DatabaseUpdate { table: table.clone(), id: expression(id), values: named(values) },
            span: s.span,
        },
        StatementKind::DatabaseDelete { table, id } => Statement {
            kind: StatementKind::DatabaseDelete { table: table.clone(), id: expression(id) },
            span: s.span,
        },
        StatementKind::LinearLayout { id, orientation } => Statement {
            kind: StatementKind::LinearLayout { id: id.clone(), orientation: *orientation },
            span: s.span,
        },
        StatementKind::ScrollView { id } => Statement { kind: StatementKind::ScrollView { id: id.clone() }, span: s.span },
        StatementKind::AddView { parent, child } => Statement {
            kind: StatementKind::AddView { parent: parent.clone(), child: child.clone() },
            span: s.span,
        },
        StatementKind::SetContentView { view } => Statement {
            kind: StatementKind::SetContentView { view: view.clone() },
            span: s.span,
        },
        StatementKind::SetLayout { view, width, height, weight } => Statement {
            kind: StatementKind::SetLayout { view: view.clone(), width: *width, height: *height, weight: *weight },
            span: s.span,
        },
        StatementKind::SetTextColor { view, color } => Statement {
            kind: StatementKind::SetTextColor { view: view.clone(), color: color.clone() },
            span: s.span,
        },
        StatementKind::SetBackgroundColor { view, color } => Statement {
            kind: StatementKind::SetBackgroundColor { view: view.clone(), color: color.clone() },
            span: s.span,
        },
    }
}

/// Optimizes a block: folds constants, replaces an `if` on a literal by the branch taken,
/// and drops the statements after one that returns on every path. The result runs as
/// `body` does, in every scope.
#[verifier::loop_isolation(false)]
#[verifier::spinoff_prover]
pub fn statements(body: &Vec<Statement>) -> (r: Vec<Statement>)
    ensures
        forall|i: int| 0 <= i < r@.len() - 1 ==> !spec_terminal(#[trigger] r@[i]),
        forall|s: Scope, p: Program, d: nat| #[trigger] run_block(r@, s, p, d) == run_block(body@, s, p, d),
    decreases body, 0int,
{
    let mut out: Vec<Statement> = Vec::new();
    let mut i: usize = 0;
    let mut done = false;
    assert(body@.take(0) =~= out@);
    while i < body.len() && !done
        invariant
            i <= body@.len(),
            forall|k: int| 0 <= k < out@.len() - 1 ==> !spec_terminal(#[trigger] out@[k]),
            !done ==> out@.len() == 0 || !spec_terminal(out@.last()),
            done ==> out@.len() > 0 && spec_terminal(out@.last()),
            forall|s: Scope, p: Program, d: nat| #[trigger] run_block(out@, s, p, d) == run_block(
                body@.take(i as int),
                s,
                p,
                d,
            ),
        decreases body@.len() - i,
    {
        proof {
            vstd::std_specs::vec::axiom_vec_index_decreases(*body, i as int);
            assert(body@.take(i + 1).drop_last() =~= body@.take(i as int));
            assert(body@.take(i + 1).last() == body@[i as int]);
        }
        let s = &body[i];
        let mut handled = false;
        if let StatementKind::If { condition, then_body, else_body } = &s.kind {
            let c = expression(condition);
            if let Some(v) = literal_bool(&c.kind) {
                let branch = if v { statements(then_body) } else { statements(else_body) };
                let ghost start = out@;
                let ghost whole = branch@;
                proof {
                    assert forall|sc: Scope, p: Program, d: nat| #[trigger] run_block(whole, sc, p, d) == exec_stmt(*s, sc, p, d) by {
                        assert(eval_expr(c, sc, p, d) == eval_expr(*condition, sc, p, d));
                    }
                }
                let mut branch = branch;
                let ghost mut m: int = 0;
                while branch.len() > 0 && !done
                    invariant
                        forall|j: int| 0 <= j < out@.len() - 1 ==> !spec_terminal(#[trigger] out@[j]),
                        !done ==> out@.len() == 0 || !spec_terminal(out@.last()),
                        done ==> out@.len() > 0 && spec_terminal(out@.last()),
                        forall|j: int| 0 <= j < whole.len() - 1 ==> !spec_terminal(#[trigger] whole[j]),
                        0 <= m <= whole.len(),
                        out@ == start + whole.take(m),
                        branch@ == whole.skip(m),
                        done ==> m == whole.len(),
                    decreases branch@.len(),
                {
                    let x = branch.remove(0);
                    let t = terminal(&x);
                    out.push(x);
                    proof {
                        assert(x == whole[m]);
                        m = m + 1;
                        assert(out@ =~= start + whole.take(m));
                        assert(branch@ =~= whole.skip(m));
                    }
                    if t {
                        done = true;
                    }
                }
                proof {
                    assert(whole.take(m) =~= whole);
                    assert forall|sc: Scope, p: Program, d: nat| #[trigger] run_block(out@, sc, p, d) == run_block(
                        body@.take(i + 1),
                        sc,
                        p,
                        d,
                    ) by {
                        block_concat(start, whole, sc, p, d);
                        assert(run_block(start, sc, p, d) == run_block(body@.take(i as int), sc, p, d));
                        match run_block(start, sc, p, d) {
                            Ok((t, None)) => {
                                assert(run_block(whole, t, p, d) == exec_stmt(*s, t, p, d));
                            },
                            _ => {},
                        }
                    }
                }
                handled = true;
            }
        }
        if !handled {
            let t = statement(s);
            let end = terminal(&t);
            let ghost before = out@;
            let ghost tg = t;
            out.push(t);
            proof {
                assert(out@.drop_last() =~= before);
                assert(out@.last() == tg);
                assert forall|sc: Scope, p: Program, d: nat| #[trigger] run_block(out@, sc, p, d) == run_block(
                    body@.take(i + 1),
                    sc,
                    p,
                    d,
                ) by {
                    assert(run_block(before, sc, p, d) == run_block(body@.take(i as int), sc, p, d));
                    match run_block(before, sc, p, d) {
                        Ok((u, None)) => {
                            assert(exec_stmt(tg, u, p, d) == exec_stmt(*s, u, p, d));
                        },
                        _ => {},
                    }
                }
            }
            if end {
                done = true;
            }
        }
        i = i + 1;
    }
    proof {
        if done {
            assert forall|sc: Scope, p: Program, d: nat| #[trigger] run_block(out@, sc, p, d) == run_block(
                body@,
                sc,
                p,
                d,
            ) by {
                last_settles(out@, sc, p, d);
                assert(run_block(out@, sc, p, d) == run_block(body@.take(i as int), sc, p, d));
                crate::ir::eval::block_settled(body@, i as int, body@.len() as int, sc, p, d);
                assert(body@.take(body@.len() as int) =~= body@);
            }
        }
    }
    proof {
        if !done {
            assert(body@.take(body@.len() as int) =~= body@);
        }
    }
    out
}

/// The capabilities in their order, each once.
pub open spec fn capabilities_sorted(v: Seq<Capability>) -> bool {
    v == Seq::<Capability>::empty() || v == seq![Capability::KeyValue] || v == seq![Capability::Sqlite] || v
        == seq![Capability::KeyValue, Capability::Sqlite]
}

/// Views of a list of names.
pub open spec fn views_of(v: Seq<String>) -> Seq<Seq<char>> {
    v.map_values(|s: String| s@)
}

impl Reachability {
    /// Every list is sorted and free of duplicates.
    pub open spec fn wf(&self) -> bool {
        &&& strictly_sorted(views_of(self.functions@))
        &&& capabilities_sorted(self.capabilities@)
        &&& strictly_sorted(views_of(self.views@))
        &&& strictly_sorted(views_of(self.preferences@))
        &&& strictly_sorted(views_of(self.tables@))
        &&& strictly_sorted(self.columns@.map_values(|e: (String, Vec<String>)| e.0@))
        &&& forall|i: int| 0 <= i < self.columns@.len() ==> strictly_sorted(views_of((#[trigger] self.columns@[i]).1@))
        &&& forall|i: int| 0 <= i < self.columns@.len() ==> (#[trigger] self.columns@[i]).1@.len() > 0
    }

    /// Nothing reached.
    pub fn new() -> (r: Self)
        ensures
            r.wf(),
            r.functions@.len() == 0,
            used_set(r) == Set::<Used>::empty(),
    {
        let r = Reachability {
            functions: Vec::new(),
            capabilities: Vec::new(),
            views: Vec::new(),
            preferences: Vec::new(),
            tables: Vec::new(),
            columns: Vec::new(),
        };
        assert(views_of(r.functions@) =~= Seq::<Seq<char>>::empty());
        assert(views_of(r.views@) =~= Seq::<Seq<char>>::empty());
        assert(views_of(r.preferences@) =~= Seq::<Seq<char>>::empty());
        assert(views_of(r.tables@) =~= Seq::<Seq<char>>::empty());
        assert(r.columns@.map_values(|e: (String, Vec<String>)| e.0@) =~= Seq::<Seq<char>>::empty());
        assert(r.capabilities@ =~= Seq::<Capability>::empty());
        assert(used_set(r) =~= Set::<Used>::empty());
        r
    }
}

fn add_capability(v: &mut Vec<Capability>, c: Capability)
    requires
        capabilities_sorted(old(v)@),
    ensures
        capabilities_sorted(final(v)@),
        forall|d: Capability| final(v)@.contains(d) <==> old(v)@.contains(d) || d == c,
{
    let has_kv = v.len() > 0 && v[0] == Capability::KeyValue;
    let has_sql = v.len() > 0 && v[v.len() - 1] == Capability::Sqlite;
    let kv = has_kv || c == Capability::KeyValue;
    let sql = has_sql || c == Capability::Sqlite;
    let mut out: Vec<Capability> = Vec::new();
    if kv {
        out.push(Capability::KeyValue);
    }
    if sql {
        out.push(Capability::Sqlite);
    }
    proof {
        if kv && sql {
            assert(out@ =~= seq![Capability::KeyValue, Capability::Sqlite]);
            assert(out@[0] == Capability::KeyValue && out@[1] == Capability::Sqlite);
        } else if kv {
            assert(out@ =~= seq![Capability::KeyValue]);
            assert(out@[0] == Capability::KeyValue);
        } else if sql {
            assert(out@ =~= seq![Capability::Sqlite]);
            assert(out@[0] == Capability::Sqlite);
        }
        assert forall|d: Capability| old(v)@.contains(d) implies out@.contains(d) by {
            let k = choose|k: int| 0 <= k < old(v)@.len() && old(v)@[k] == d;
        }
        assert forall|d: Capability| out@.contains(d) implies old(v)@.contains(d) || d == c by {
            let k = choose|k: int| 0 <= k < out@.len() && out@[k] == d;
            if d == Capability::KeyValue && c != Capability::KeyValue {
                assert(old(v)@[0] == Capability::KeyValue);
            }
            if d == Capability::Sqlite && c != Capability::Sqlite {
                assert(old(v)@[old(v)@.len() - 1] == Capability::Sqlite);
            }
        }
    }
    *v = out;
}

/// Records a view as used.
fn note_view(r: &mut Reachability, id: &String)
    requires
        old(r).wf(),
    ensures
        final(r).wf(),
        final(r).functions == old(r).functions,
        used_set(*final(r)) == used_set(*old(r)).insert(Used::View(id@)),
{
    add_name(&mut r.views, id);
    assert(used_set(*r) =~= used_set(*old(r)).insert(Used::View(id@)));
}

/// Records a preference key, and the key-value capability, as used.
fn note_preference(r: &mut Reachability, key: &String)
    requires
        old(r).wf(),
    ensures
        final(r).wf(),
        final(r).functions == old(r).functions,
        used_set(*final(r)) == used_set(*old(r)).insert(Used::Capability(Capability::KeyValue)).insert(
            Used::Preference(key@),
        ),
{
    add_capability(&mut r.capabilities, Capability::KeyValue);
    add_name(&mut r.preferences, key);
    assert(used_set(*r) =~= used_set(*old(r)).insert(Used::Capability(Capability::KeyValue)).insert(
        Used::Preference(key@),
    ));
}

/// Records a table, and the database capability, as used.
fn note_table(r: &mut Reachability, table: &String)
    requires
        old(r).wf(),
    ensures
        final(r).wf(),
        final(r).functions == old(r).functions,
        used_set(*final(r)) == used_set(*old(r)).insert(Used::Capability(Capability::Sqlite)).insert(
            Used::Table(table@),
        ),
{
    add_capability(&mut r.capabilities, Capability::Sqlite);
    add_name(&mut r.tables, table);
    assert(used_set(*r) =~= used_set(*old(r)).insert(Used::Capability(Capability::Sqlite)).insert(
        Used::Table(table@),
    ));
}

fn add_name(v: &mut Vec<String>, s: &String)
    requires
        strictly_sorted(views_of(old(v)@)),
    ensures
        strictly_sorted(views_of(final(v)@)),
        views_of(final(v)@).to_set() == views_of(old(v)@).to_set().insert(s@),
{
    insert_sorted(v, s);
}

/// Whether the column list records column `c` of table `t`.
pub open spec fn column_has(cols: Seq<(String, Vec<String>)>, t: Seq<char>, c: Seq<char>) -> bool {
    exists|i: int| 0 <= i < cols.len() && (#[trigger] cols[i]).0@ == t && name_set(cols[i].1@).contains(c)
}

/// Replacing the entry of a table by one with one more column records that column too.
proof fn column_added(
    o: Seq<(String, Vec<String>)>,
    n: Seq<(String, Vec<String>)>,
    j: int,
    t: Seq<char>,
    c: Seq<char>,
)
    requires
        0 <= j < o.len(),
        n.len() == o.len(),
        forall|i: int| 0 <= i < o.len() && i != j ==> n[i] == o[i],
        n[j].0@ == t,
        o[j].0@ == t,
        name_set(n[j].1@) == name_set(o[j].1@).insert(c),
    ensures
        forall|a: Seq<char>, b: Seq<char>| column_has(n, a, b) <==> column_has(o, a, b) || (a == t && b == c),
{
    assert forall|a: Seq<char>, b: Seq<char>| column_has(n, a, b) implies column_has(o, a, b) || (a == t && b == c) by {
        let i = choose|i: int| 0 <= i < n.len() && (#[trigger] n[i]).0@ == a && name_set(n[i].1@).contains(b);
        if i != j {
            assert(o[i] == n[i]);
        } else if !(a == t && b == c) {
            assert(name_set(o[j].1@).contains(b));
        }
    }
    assert forall|a: Seq<char>, b: Seq<char>| column_has(o, a, b) || (a == t && b == c) implies column_has(n, a, b) by {
        if a == t && b == c {
            assert(name_set(n[j].1@).contains(b));
        } else {
            let i = choose|i: int| 0 <= i < o.len() && (#[trigger] o[i]).0@ == a && name_set(o[i].1@).contains(b);
            if i != j {
                assert(o[i] == n[i]);
            } else {
                assert(name_set(n[j].1@).contains(b));
            }
        }
    }
}

/// Inserting an entry of a table with one column records that column too.
proof fn column_inserted(
    o: Seq<(String, Vec<String>)>,
    n: Seq<(String, Vec<String>)>,
    j: int,
    t: Seq<char>,
    c: Seq<char>,
)
    requires
        0 <= j <= o.len(),
        n.len() == o.len() + 1,
        forall|i: int| 0 <= i < j ==> n[i] == o[i],
        forall|i: int| j < i < n.len() ==> n[i] == o[i - 1],
        n[j].0@ == t,
        name_set(n[j].1@) == set![c],
    ensures
        forall|a: Seq<char>, b: Seq<char>| column_has(n, a, b) <==> column_has(o, a, b) || (a == t && b == c),
{
    assert forall|a: Seq<char>, b: Seq<char>| column_has(n, a, b) implies column_has(o, a, b) || (a == t && b == c) by {
        let i = choose|i: int| 0 <= i < n.len() && (#[trigger] n[i]).0@ == a && name_set(n[i].1@).contains(b);
        if i < j {
            assert(o[i] == n[i]);
        } else if i > j {
            assert(o[i - 1] == n[i]);
        }
    }
    assert forall|a: Seq<char>, b: Seq<char>| column_has(o, a, b) || (a == t && b == c) implies column_has(n, a, b) by {
        if a == t && b == c {
            assert(name_set(n[j].1@).contains(b));
        } else {
            let i = choose|i: int| 0 <= i < o.len() && (#[trigger] o[i]).0@ == a && name_set(o[i].1@).contains(b);
            if i < j {
                assert(o[i] == n[i]);
            } else {
                assert(o[i] == n[i + 1]);
            }
        }
    }
}

/// Records a column of `table` as used.
fn add_column(r: &mut Reachability, table: &String, column: &String)
    requires
        old(r).wf(),
    ensures
        final(r).wf(),
        final(r).functions == old(r).functions,
        used_set(*final(r)) == used_set(*old(r)).insert(Used::Column(table@, column@)),
{
    let mut j: usize = 0;
    let ghost keys = r.columns@.map_values(|e: (String, Vec<String>)| e.0@);
    while j < r.columns.len() && crate::text::str_lt(r.columns[j].0.as_str(), table.as_str())
        invariant
            j <= r.columns@.len(),
            keys == r.columns@.map_values(|e: (String, Vec<String>)| e.0@),
            forall|k: int| 0 <= k < j ==> crate::text::seq_char_lt(#[trigger] keys[k], table@),
        decreases r.columns@.len() - j,
    {
        j = j + 1;
    }
    if j < r.columns.len() && str_eq(r.columns[j].0.as_str(), table.as_str()) {
        let (name, mut cols) = r.columns.remove(j);
        add_name(&mut cols, column);
        r.columns.insert(j, (name, cols));
        proof {
            let nk = r.columns@.map_values(|e: (String, Vec<String>)| e.0@);
            assert(nk =~= keys);
            assert forall|i: int| 0 <= i < r.columns@.len() implies strictly_sorted(views_of((#[trigger] r.columns@[i]).1@)) by {
                if i != j {
                    assert(r.columns@[i] == old(r).columns@[i]);
                }
            }
            assert(name_set(cols@).contains(column@));
            assert forall|i: int| 0 <= i < r.columns@.len() implies (#[trigger] r.columns@[i]).1@.len() > 0 by {
                if i != j {
                    assert(r.columns@[i] == old(r).columns@[i]);
                } else {
                    assert(views_of(cols@).contains(column@));
                }
            }
            assert(keys[j as int] == old(r).columns@[j as int].0@);
            column_added(old(r).columns@, r.columns@, j as int, table@, column@);
            assert(used_set(*r) =~= used_set(*old(r)).insert(Used::Column(table@, column@)));
        }
        return;
    }
    proof {
        if j < keys.len() {
            crate::text::lt_total(keys[j as int], table@);
        }
        assert forall|k: int| j <= k < keys.len() implies crate::text::seq_char_lt(table@, #[trigger] keys[k]) by {
            if k > j {
                crate::text::lt_transitive(table@, keys[j as int], keys[k]);
            }
        }
    }
    let mut cols: Vec<String> = Vec::new();
    cols.push(column.clone());
    proof {
        assert(views_of(cols@) =~= seq![column@]);
        assert forall|x: Seq<char>| #[trigger] name_set(cols@).contains(x) <==> x == column@ by {
            if x == column@ {
                assert(views_of(cols@)[0] == x);
            }
        }
        assert(name_set(cols@) =~= set![column@]);
    }
    r.columns.insert(j, (table.clone(), cols));
    proof {
        let nk = r.columns@.map_values(|e: (String, Vec<String>)| e.0@);
        assert(nk =~= keys.insert(j as int, table@));
        assert forall|a: int, b: int| 0 <= a < b < nk.len() implies crate::text::seq_char_lt(#[trigger] nk[a], #[trigger] nk[b]) by {
            if a < j && b > j {
                crate::text::lt_transitive(nk[a], table@, nk[b]);
            }
        }
        assert forall|i: int| 0 <= i < r.columns@.len() implies strictly_sorted(views_of((#[trigger] r.columns@[i]).1@)) by {
            if i < j {
                assert(r.columns@[i] == old(r).columns@[i]);
            } else if i > j {
                assert(r.columns@[i] == old(r).columns@[i - 1]);
            }
        }
        assert forall|i: int| 0 <= i < r.columns@.len() implies (#[trigger] r.columns@[i]).1@.len() > 0 by {
            if i < j {
                assert(r.columns@[i] == old(r).columns@[i]);
            } else if i > j {
                assert(r.columns@[i] == old(r).columns@[i - 1]);
            }
        }
        column_inserted(old(r).columns@, r.columns@, j as int, table@, column@);
        assert(used_set(*r) =~= used_set(*old(r)).insert(Used::Column(table@, column@)));
    }
}

/// The set of names in a name list.
pub open spec fn name_set(v: Seq<String>) -> Set<Seq<char>> {
    views_of(v).to_set()
}

/// The names an expression calls.
pub open spec fn calls_expr(e: Expression) -> Set<Seq<char>>
    decreases e, 0int,
{
    match e.kind {
        ExpressionKind::Unary { value, .. } => calls_expr(*value),
        ExpressionKind::Binary { left, right, .. } => calls_expr(*left) + calls_expr(*right),
        ExpressionKind::Call { name, args } => set![name@] + calls_args(args@),
        ExpressionKind::DatabaseInsert { values, .. } => calls_values(values@),
        ExpressionKind::DatabaseExists { id, .. } => calls_expr(*id),
        ExpressionKind::DatabaseGet { id, default, .. } => calls_expr(*id) + calls_expr(*default),
        _ => Set::empty(),
    }
}

/// The names a list of expressions calls.
pub open spec fn calls_args(a: Seq<Expression>) -> Set<Seq<char>>
    decreases a, 1int,
{
    if a.len() == 0 {
        Set::empty()
    } else {
        calls_args(a.drop_last()) + calls_expr(a[a.len() - 1])
    }
}

/// The names the values of a list of named expressions call.
pub open spec fn calls_values(v: Seq<(String, Expression)>) -> Set<Seq<char>>
    decreases v, 1int,
{
    if v.len() == 0 {
        Set::empty()
    } else {
        calls_values(v.drop_last()) + calls_expr(v[v.len() - 1].1)
    }
}

/// The names a statement calls.
pub open spec fn calls_stmt(s: Statement) -> Set<Seq<char>>
    decreases s, 2int,
{
    match s.kind {
        StatementKind::Declare { value, .. } => calls_expr(value),
        StatementKind::Assign { value, .. } => calls_expr(value),
        StatementKind::Return(value) => calls_expr(value),
        StatementKind::SetText { text, .. } => calls_expr(text),
        StatementKind::TextView { text, .. } => calls_expr(text),
        StatementKind::Button { text, .. } => calls_expr(text),
        StatementKind::EditText { hint, .. } => calls_expr(hint),
        StatementKind::TextInput { hint, .. } => calls_expr(hint),
        StatementKind::PreferenceSet { value, .. } => calls_expr(value),
        StatementKind::If { condition, then_body, else_body } => calls_expr(condition) + calls_block(then_body@)
            + calls_block(else_body@),
        StatementKind::For { start, end, body, .. } => calls_expr(start) + calls_expr(end) + calls_block(body@),
        StatementKind::DatabaseUpdate { id, values, .. } => calls_values(values@) + calls_expr(id),
        StatementKind::DatabaseDelete { id, .. } => calls_expr(id),
        _ => Set::empty(),
    }
}

/// The names a block calls.
pub open spec fn calls_block(b: Seq<Statement>) -> Set<Seq<char>>
    decreases b, 3int,
{
    if b.len() == 0 {
        Set::empty()
    } else {
        calls_block(b.drop_last()) + calls_stmt(b[b.len() - 1])
    }
}

/// The names the state initializers call.
pub open spec fn calls_state(v: Seq<State>) -> Set<Seq<char>>
    decreases v.len(),
{
    if v.len() == 0 {
        Set::empty()
    } else {
        calls_state(v.drop_last()) + calls_expr(v.last().initial)
    }
}

/// The names the click handlers call.
pub open spec fn calls_handlers(v: Seq<ClickHandler>) -> Set<Seq<char>>
    decreases v.len(),
{
    if v.len() == 0 {
        Set::empty()
    } else {
        calls_handlers(v.drop_last()) + calls_block(v.last().body@)
    }
}

/// The names the activity calls: from its state initializers, `on_create` and click handlers.
pub open spec fn root_calls(p: Program) -> Set<Seq<char>> {
    calls_state(p.activity.state@) + calls_block(p.activity.on_create@) + calls_handlers(p.activity.on_click@)
}

/// No later function has the name of function `i`.
pub open spec fn last_named(fs: Seq<Function>, i: int) -> bool {
    forall|k: int| i < k < fs.len() ==> (#[trigger] fs[k]).name@ != fs[i].name@
}

/// `s` holds what the activity calls and, for each function named in it (the last of its
/// name), what that function's body calls.
pub open spec fn call_closed(p: Program, s: Set<Seq<char>>) -> bool {
    &&& root_calls(p).subset_of(s)
    &&& forall|i: int|
        0 <= i < p.functions@.len() && last_named(p.functions@, i) && s.contains(#[trigger] p.functions@[i].name@)
            ==> calls_block(p.functions@[i].body@).subset_of(s)
}

/// Something a program reaches besides its functions: a view, a preference key, a table, a
/// column of a table, or a capability.
pub enum Used {
    View(Seq<char>),
    Preference(Seq<char>),
    Table(Seq<char>),
    Column(Seq<char>, Seq<char>),
    Capability(Capability),
}

/// What an expression uses.
pub open spec fn used_expr(e: Expression) -> Set<Used>
    decreases e, 0int,
{
    match e.kind {
        ExpressionKind::Unary { value, .. } => used_expr(*value),
        ExpressionKind::Binary { left, right, .. } => used_expr(*left) + used_expr(*right),
        ExpressionKind::Call { args, .. } => used_args(args@),
        ExpressionKind::AndroidText { view } => set![Used::View(view@)],
        ExpressionKind::PreferenceGet { key } => set![Used::Capability(Capability::KeyValue), Used::Preference(key@)],
        ExpressionKind::DatabaseInsert { table, values } => used_values(table@, values@),
        ExpressionKind::DatabaseExists { table, id } => set![Used::Capability(Capability::Sqlite), Used::Table(table@)]
            + used_expr(*id),
        ExpressionKind::DatabaseGet { table, id, column, default } => set![
            Used::Capability(Capability::Sqlite),
            Used::Table(table@),
            Used::Column(table@, column@),
        ] + used_expr(*id) + used_expr(*default),
        _ => Set::empty(),
    }
}

/// What a list of expressions uses.
pub open spec fn used_args(a: Seq<Expression>) -> Set<Used>
    decreases a, 1int,
{
    if a.len() == 0 {
        Set::empty()
    } else {
        used_args(a.drop_last()) + used_expr(a[a.len() - 1])
    }
}

/// What writing the named values into table `t` uses: the table, each column named and
/// what each value uses.
pub open spec fn used_values(t: Seq<char>, v: Seq<(String, Expression)>) -> Set<Used>
    decreases v, 1int,
{
    if v.len() == 0 {
        set![Used::Capability(Capability::Sqlite), Used::Table(t)]
    } else {
        used_values(t, v.drop_last()) + set![Used::Column(t, v[v.len() - 1].0@)] + used_expr(v[v.len() - 1].1)
    }
}

/// What a statement uses.
pub open spec fn used_stmt(s: Statement) -> Set<Used>
    decreases s, 2int,
{
    match s.kind {
        StatementKind::Declare { value, .. } => used_expr(value),
        StatementKind::Assign { value, .. } => used_expr(value),
        StatementKind::Return(value) => used_expr(value),
        StatementKind::SetText { text, .. } => used_expr(text),
        StatementKind::TextView { id, text } => set![Used::View(id@)] + used_expr(text),
        StatementKind::Button { id, text } => set![Used::View(id@)] + used_expr(text),
        StatementKind::EditText { id, hint } => set![Used::View(id@)] + used_expr(hint),
        StatementKind::TextInput { id, hint } => set![Used::View(id@)] + used_expr(hint),
        StatementKind::If { condition, then_body, else_body } => used_expr(condition) + used_block(then_body@)
            + used_block(else_body@),
        StatementKind::For { start, end, body, .. } => used_expr(start) + used_expr(end) + used_block(body@),
        StatementKind::LinearLayout { id, .. } => set![Used::View(id@)],
        StatementKind::ScrollView { id } => set![Used::View(id@)],
        StatementKind::SetContentView { view } => set![Used::View(view@)],
        StatementKind::SetLayout { view, .. } => set![Used::View(view@)],
        StatementKind::SetTextColor { view, .. } => set![Used::View(view@)],
        StatementKind::SetBackgroundColor { view, .. } => set![Used::View(view@)],
        StatementKind::AddView { parent, child } => set![Used::View(parent@), Used::View(child@)],
        StatementKind::PreferenceSet { key, value } => set![
            Used::Capability(Capability::KeyValue),
            Used::Preference(key@),
        ] + used_expr(value),
        StatementKind::DatabaseUpdate { table, id, values } => used_values(table@, values@) + used_expr(id),
        StatementKind::DatabaseDelete { table, id } => set![Used::Capability(Capability::Sqlite), Used::Table(table@)]
            + used_expr(id),
    }
}

/// What a block uses.
pub open spec fn used_block(b: Seq<Statement>) -> Set<Used>
    decreases b, 3int,
{
    if b.len() == 0 {
        Set::empty()
    } else {
        used_block(b.drop_last()) + used_stmt(b[b.len() - 1])
    }
}

/// What the state initializers use.
pub open spec fn used_state(v: Seq<State>) -> Set<Used>
    decreases v.len(),
{
    if v.len() == 0 {
        Set::empty()
    } else {
        used_state(v.drop_last()) + used_expr(v.last().initial)
    }
}

/// What the click handlers use.
pub open spec fn used_handlers(v: Seq<ClickHandler>) -> Set<Used>
    decreases v.len(),
{
    if v.len() == 0 {
        Set::empty()
    } else {
        used_handlers(v.drop_last()) + used_block(v.last().body@)
    }
}

/// What the activity uses: its state initializers, `on_create` and click handlers.
pub open spec fn root_used(p: Program) -> Set<Used> {
    used_state(p.activity.state@) + used_block(p.activity.on_create@) + used_handlers(p.activity.on_click@)
}

/// What the functions of `p` whose names are in `s` use in their bodies.
pub open spec fn functions_used(p: Program, s: Set<Seq<char>>) -> Set<Used> {
    Set::new(
        |u: Used|
            exists|i: int|
                0 <= i < p.functions@.len() && s.contains(#[trigger] p.functions@[i].name@) && used_block(
                    p.functions@[i].body@,
                ).contains(u),
    )
}

/// What the lists of a reachability record hold, besides its functions.
pub open spec fn used_set(r: Reachability) -> Set<Used> {
    used_of(r.capabilities@, r.views@, r.preferences@, r.tables@, r.columns@)
}

/// The uses that lists of capabilities, views, preference keys, tables and columns hold.
pub open spec fn used_of(
    caps: Seq<Capability>,
    views: Seq<String>,
    prefs: Seq<String>,
    tables: Seq<String>,
    cols: Seq<(String, Vec<String>)>,
) -> Set<Used> {
    Set::new(
        |u: Used|
            match u {
                Used::View(n) => name_set(views).contains(n),
                Used::Preference(n) => name_set(prefs).contains(n),
                Used::Table(n) => name_set(tables).contains(n),
                Used::Column(t, c) => column_has(cols, t, c),
                Used::Capability(c) => caps.contains(c),
            },
    )
}

/// What `r` records of `p`: the least call-closed set of functions where names are distinct,
/// and exactly what the activity and those functions use.
pub open spec fn analysis_of(r: Reachability, p: Program) -> bool {
    &&& r.wf()
    &&& distinct_names(p.functions@) ==> used_set(r) == root_used(p) + functions_used(p, name_set(r.functions@))
    &&& distinct_names(p.functions@) ==> call_closed(p, name_set(r.functions@))
    &&& distinct_names(p.functions@) ==> forall|s: Set<Seq<char>>| call_closed(p, s) ==> name_set(
        r.functions@,
    ).subset_of(s)
}

fn database_values(table: &String, values: &Vec<(String, Expression)>, r: &mut Reachability)
    requires
        old(r).wf(),
    ensures
        final(r).wf(),
        name_set(final(r).functions@) == name_set(old(r).functions@) + calls_values(values@),
        used_set(*final(r)) == used_set(*old(r)) + used_values(table@, values@),
    decreases values, 1int,
{
    let ghost u0 = used_set(*r);
    note_table(r, table);
    let ghost start = name_set(r.functions@);
    let mut i: usize = 0;
    assert(start + calls_values(values@.take(0)) =~= start);
    assert(used_set(*r) =~= u0 + used_values(table@, values@.take(0)));
    while i < values.len()
        invariant
            i <= values@.len(),
            r.wf(),
            name_set(r.functions@) == start + calls_values(values@.take(i as int)),
            used_set(*r) == u0 + used_values(table@, values@.take(i as int)),
        decreases values@.len() - i,
    {
        add_column(r, table, &values[i].0);
        proof {
            vstd::std_specs::vec::axiom_vec_index_decreases(*values, i as int);
            assert(values@.take(i + 1).drop_last() =~= values@.take(i as int));
            assert(values@.take(i + 1)[i as int] == values@[i as int]);
        }
        inspect_expression(&values[i].1, r);
        i = i + 1;
        assert(name_set(r.functions@) =~= start + calls_values(values@.take(i as int)));
        assert(used_set(*r) =~= u0 + used_values(table@, values@.take(i as int)));
    }
    assert(values@.take(i as int) =~= values@);
}

/// Records what an expression reaches.
#[verifier::loop_isolation(false)]
fn inspect_expression(e: &Expression, r: &mut Reachability)
    requires
        old(r).wf(),
    ensures
        final(r).wf(),
        name_set(final(r).functions@) == name_set(old(r).functions@) + calls_expr(*e),
        used_set(*final(r)) == used_set(*old(r)) + used_expr(*e),
    decreases e, 0int,
{
    let ghost start = name_set(r.functions@);
    let ghost u0 = used_set(*r);
    match &e.kind {
        ExpressionKind::Unary { value, .. } => inspect_expression(value, r),
        ExpressionKind::Binary { left, right, .. } => {
            inspect_expression(left, r);
            inspect_expression(right, r);
            assert(name_set(r.functions@) =~= start + calls_expr(*e));
            assert(used_set(*r) =~= u0 + used_expr(*e));
        },
        ExpressionKind::Call { name, args } => {
            add_name(&mut r.functions, name);
            let ghost named = name_set(r.functions@);
            let mut i: usize = 0;
            assert(named + calls_args(args@.take(0)) =~= named);
            assert(used_set(*r) =~= u0 + used_args(args@.take(0)));
            while i < args.len()
                invariant
                    i <= args@.len(),
                    r.wf(),
                    name_set(r.functions@) == named + calls_args(args@.take(i as int)),
                    used_set(*r) == u0 + used_args(args@.take(i as int)),
                decreases args@.len() - i,
            {
                proof {
                    vstd::std_specs::vec::axiom_vec_index_decreases(*args, i as int);
                    assert(args@.take(i + 1).drop_last() =~= args@.take(i as int));
                    assert(args@.take(i + 1)[i as int] == args@[i as int]);
                }
                inspect_expression(&args[i], r);
                i = i + 1;
                assert(name_set(r.functions@) =~= named + calls_args(args@.take(i as int)));
                assert(used_set(*r) =~= u0 + used_args(args@.take(i as int)));
            }
            assert(args@.take(i as int) =~= args@);
            assert(name_set(r.functions@) =~= start + calls_expr(*e));
        },
        ExpressionKind::AndroidText { view } => note_view(r, view),
        ExpressionKind::PreferenceGet { key } => note_preference(r, key),
        ExpressionKind::DatabaseInsert { table, values } => database_values(table, values, r),
        ExpressionKind::DatabaseExists { table, id } => {
            note_table(r, table);
            inspect_expression(id, r);
        },
        ExpressionKind::DatabaseGet { table, id, column, default } => {
            note_table(r, table);
            add_column(r, table, column);
            inspect_expression(id, r);
            inspect_expression(default, r);
            assert(name_set(r.functions@) =~= start + calls_expr(*e));
        },
        ExpressionKind::Literal(_) | ExpressionKind::Name(_) => {
            assert(name_set(r.functions@) =~= start + calls_expr(*e));
        },
    }
    assert(name_set(r.functions@) =~= start + calls_expr(*e));
    assert(used_set(*r) =~= u0 + used_expr(*e));
}

/// Records what one statement reaches.
fn inspect_statement(s: &Statement, r: &mut Reachability)
    requires
        old(r).wf(),
    ensures
        final(r).wf(),
        name_set(final(r).functions@) == name_set(old(r).functions@) + calls_stmt(*s),
        used_set(*final(r)) == used_set(*old(r)) + used_stmt(*s),
    decreases s, 2int,
{
    let ghost start = name_set(r.functions@);
    let ghost u0 = used_set(*r);
    match &s.kind {
        StatementKind::Declare { value, .. } | StatementKind::Assign { value, .. } | StatementKind::Return(value)
        | StatementKind::SetText { text: value, .. } => inspect_expression(value, r),
        StatementKind::TextView { id, text } | StatementKind::Button { id, text } | StatementKind::EditText {
            id,
            hint: text,
        } | StatementKind::TextInput { id, hint: text } => {
            note_view(r, id);
            inspect_expression(text, r);
        },
        StatementKind::If { condition, then_body, else_body } => {
            inspect_expression(condition, r);
            inspect_statements(then_body, r);
            inspect_statements(else_body, r);
        },
        StatementKind::For { start, end, body, .. } => {
            inspect_expression(start, r);
            inspect_expression(end, r);
            inspect_statements(body, r);
        },
        StatementKind::LinearLayout { id, .. } | StatementKind::ScrollView { id } | StatementKind::SetContentView {
            view: id,
        } | StatementKind::SetLayout { view: id, .. } | StatementKind::SetTextColor { view: id, .. }
        | StatementKind::SetBackgroundColor { view: id, .. } => note_view(r, id),
        StatementKind::AddView { parent, child } => {
            note_view(r, parent);
            note_view(r, child);
        },
        StatementKind::PreferenceSet { key, value } => {
            note_preference(r, key);
            inspect_expression(value, r);
        },
        StatementKind::DatabaseUpdate { table, id, values } => {
            database_values(table, values, r);
            inspect_expression(id, r);
        },
        StatementKind::DatabaseDelete { table, id } => {
            note_table(r, table);
            inspect_expression(id, r);
        },
    }
    assert(name_set(r.functions@) =~= start + calls_stmt(*s));
    assert(used_set(*r) =~= u0 + used_stmt(*s));
}

/// Records what a block reaches.
fn inspect_statements(xs: &Vec<Statement>, r: &mut Reachability)
    requires
        old(r).wf(),
    ensures
        final(r).wf(),
        name_set(final(r).functions@) == name_set(old(r).functions@) + calls_block(xs@),
        used_set(*final(r)) == used_set(*old(r)) + used_block(xs@),
    decreases xs, 3int,
{
    let ghost start = name_set(r.functions@);
    let ghost u0 = used_set(*r);
    let mut i: usize = 0;
    assert(start + calls_block(xs@.take(0)) =~= start);
    assert(u0 + used_block(xs@.take(0)) =~= u0);
    while i < xs.len()
        invariant
            i <= xs@.len(),
            r.wf(),
            name_set(r.functions@) == start + calls_block(xs@.take(i as int)),
            used_set(*r) == u0 + used_block(xs@.take(i as int)),
        decreases xs@.len() - i,
    {
        proof {
            vstd::std_specs::vec::axiom_vec_index_decreases(*xs, i as int);
            assert(xs@.take(i + 1).drop_last() =~= xs@.take(i as int));
            assert(xs@.take(i + 1)[i as int] == xs@[i as int]);
        }
        inspect_statement(&xs[i], r);
        i = i + 1;
        assert(name_set(r.functions@) =~= start + calls_block(xs@.take(i as int)));
        assert(used_set(*r) =~= u0 + used_block(xs@.take(i as int)));
    }
    assert(xs@.take(i as int) =~= xs@);
}

/// Records what the activity reaches: state initializers, `on_create` and click handlers.
fn roots(p: &Program, r: &mut Reachability)
    requires
        old(r).wf(),
    ensures
        final(r).wf(),
        name_set(final(r).functions@) == name_set(old(r).functions@) + root_calls(*p),
        used_set(*final(r)) == used_set(*old(r)) + root_used(*p),
{
    let ghost start = name_set(r.functions@);
    let ghost u0 = used_set(*r);
    let ghost st = p.activity.state@;
    let mut i: usize = 0;
    assert(start + calls_state(st.take(0)) =~= start);
    assert(u0 + used_state(st.take(0)) =~= u0);
    while i < p.activity.state.len()
        invariant
            i <= st.len(),
            st == p.activity.state@,
            r.wf(),
            name_set(r.functions@) == start + calls_state(st.take(i as int)),
            used_set(*r) == u0 + used_state(st.take(i as int)),
        decreases st.len() - i,
    {
        inspect_expression(&p.activity.state[i].initial, r);
        proof {
            assert(st.take(i + 1).drop_last() =~= st.take(i as int));
        }
        i = i + 1;
        assert(name_set(r.functions@) =~= start + calls_state(st.take(i as int)));
        assert(used_set(*r) =~= u0 + used_state(st.take(i as int)));
    }
    assert(st.take(i as int) =~= st);
    inspect_statements(&p.activity.on_create, r);
    let ghost mid = name_set(r.functions@);
    let ghost umid = used_set(*r);
    let ghost hs = p.activity.on_click@;
    let mut i: usize = 0;
    assert(mid + calls_handlers(hs.take(0)) =~= mid);
    assert(umid + used_handlers(hs.take(0)) =~= umid);
    while i < p.activity.on_click.len()
        invariant
            i <= hs.len(),
            hs == p.activity.on_click@,
            r.wf(),
            name_set(r.functions@) == mid + calls_handlers(hs.take(i as int)),
            used_set(*r) == umid + used_handlers(hs.take(i as int)),
        decreases hs.len() - i,
    {
        inspect_statements(&p.activity.on_click[i].body, r);
        proof {
            assert(hs.take(i + 1).drop_last() =~= hs.take(i as int));
        }
        i = i + 1;
        assert(name_set(r.functions@) =~= mid + calls_handlers(hs.take(i as int)));
        assert(used_set(*r) =~= umid + used_handlers(hs.take(i as int)));
    }
    assert(hs.take(i as int) =~= hs);
    assert(name_set(r.functions@) =~= start + root_calls(*p));
    assert(used_set(*r) =~= u0 + root_used(*p));
}

/// Whether `name` is in a sorted name list.
fn has_name(v: &Vec<String>, name: &String) -> (r: bool)
    ensures
        r == views_of(v@).contains(name@),
{
    let mut i: usize = 0;
    while i < v.len()
        invariant
            i <= v@.len(),
            forall|k: int| 0 <= k < i ==> (#[trigger] v@[k])@ != name@,
        decreases v@.len() - i,
    {
        if str_eq(v[i].as_str(), name.as_str()) {
            assert(views_of(v@)[i as int] == name@);
            return true;
        }
        i = i + 1;
    }
    proof {
        if views_of(v@).contains(name@) {
            let k = choose|k: int| 0 <= k < views_of(v@).len() && views_of(v@)[k] == name@;
            assert(v@[k]@ == name@);
        }
    }
    false
}

/// Whether function `i` is the last one named as it is.
fn last_of_name(fs: &Vec<Function>, i: usize) -> (r: bool)
    requires
        i < fs@.len(),
    ensures
        r == last_named(fs@, i as int),
{
    let n = fs.len();
    let mut k: usize = i + 1;
    while k < n
        invariant
            i < k <= n,
            n == fs@.len(),
            forall|j: int| i < j < k ==> (#[trigger] fs@[j]).name@ != fs@[i as int].name@,
        decreases n - k,
    {
        if str_eq(fs[k].name.as_str(), fs[i].name.as_str()) {
            return false;
        }
        k = k + 1;
    }
    true
}

/// Names called from the activity and, transitively, from the functions called: the least
/// set that holds the activity's calls and, for each function named in it, that function's calls.
#[verifier::spinoff_prover]
pub fn reachable_functions(p: &Program) -> (r: Vec<String>)
    ensures
        strictly_sorted(views_of(r@)),
        call_closed(*p, name_set(r@)),
        forall|s: Set<Seq<char>>| call_closed(*p, s) ==> name_set(r@).subset_of(s),
{
    let mut u = Reachability::new();
    assert(name_set(u.functions@) =~= Set::<Seq<char>>::empty());
    roots(p, &mut u);
    assert(name_set(u.functions@) =~= root_calls(*p));
    let n = p.functions.len();
    let ghost fs = p.functions@;
    let mut expanded: Vec<bool> = Vec::new();
    let mut k: usize = 0;
    while k < n
        invariant
            k <= n,
            n == p.functions@.len(),
            expanded@.len() == k,
            forall|t: int| 0 <= t < k ==> !expanded@[t],
        decreases n - k,
    {
        expanded.push(false);
        k = k + 1;
    }
    proof {
        crate::ir::graph::lemma_count_true_none(expanded@);
    }
    let mut changed = true;
    while changed
        invariant
            n == p.functions@.len(),
            fs == p.functions@,
            expanded@.len() == n,
            u.wf(),
            root_calls(*p).subset_of(name_set(u.functions@)),
            forall|s: Set<Seq<char>>| call_closed(*p, s) ==> name_set(u.functions@).subset_of(s),
            forall|t: int| 0 <= t < n && #[trigger] expanded@[t] ==> last_named(fs, t) && calls_block(
                fs[t].body@,
            ).subset_of(name_set(u.functions@)),
            !changed ==> forall|t: int| 0 <= t < n && last_named(fs, t) && name_set(u.functions@).contains(
                #[trigger] fs[t].name@,
            ) ==> expanded@[t],
        decreases n - crate::ir::graph::count_true(expanded@) + (if changed { 1int } else { 0 }),
    {
        proof {
            crate::ir::graph::lemma_count_true_bound(expanded@);
        }
        changed = false;
        let ghost start = crate::ir::graph::count_true(expanded@);
        let mut i: usize = 0;
        while i < n
            invariant
                n == p.functions@.len(),
                fs == p.functions@,
                expanded@.len() == n,
                i <= n,
                u.wf(),
                crate::ir::graph::count_true(expanded@) >= start + (if changed { 1int } else { 0 }),
                crate::ir::graph::count_true(expanded@) <= n,
                root_calls(*p).subset_of(name_set(u.functions@)),
                forall|s: Set<Seq<char>>| call_closed(*p, s) ==> name_set(u.functions@).subset_of(s),
                forall|t: int| 0 <= t < n && #[trigger] expanded@[t] ==> last_named(fs, t) && calls_block(
                    fs[t].body@,
                ).subset_of(name_set(u.functions@)),
                !changed ==> forall|t: int| 0 <= t < i && last_named(fs, t) && name_set(u.functions@).contains(
                    #[trigger] fs[t].name@,
                ) ==> expanded@[t],
            decreases n - i,
        {
            if !expanded[i] && last_of_name(&p.functions, i) && has_name(&u.functions, &p.functions[i].name) {
                proof {
                    crate::ir::graph::lemma_count_true_update(expanded@, i as int);
                }
                expanded.set(i, true);
                proof {
                    crate::ir::graph::lemma_count_true_bound(expanded@);
                }
                changed = true;
                let ghost before = name_set(u.functions@);
                inspect_statements(&p.functions[i].body, &mut u);
                proof {
                    assert forall|s: Set<Seq<char>>| call_closed(*p, s) implies name_set(u.functions@).subset_of(s) by {
                        assert(before.subset_of(s));
                        assert(s.contains(fs[i as int].name@));
                    }
                    assert forall|t: int| 0 <= t < n && #[trigger] expanded@[t] implies last_named(fs, t)
                        && calls_block(fs[t].body@).subset_of(name_set(u.functions@)) by {
                        if t != i {
                            assert(calls_block(fs[t].body@).subset_of(before));
                        }
                    }
                }
            }
            i = i + 1;
        }
    }
    proof {
        assert forall|t: int| 0 <= t < n && last_named(fs, t) && name_set(u.functions@).contains(
            #[trigger] fs[t].name@,
        ) implies calls_block(fs[t].body@).subset_of(name_set(u.functions@)) by {
            assert(expanded@[t]);
        }
    }
    u.functions
}

/// Adding a name that only function `k` has adds what that function's body uses.
proof fn functions_used_insert(p: Program, s: Set<Seq<char>>, k: int)
    requires
        distinct_names(p.functions@),
        0 <= k < p.functions@.len(),
    ensures
        functions_used(p, s.insert(p.functions@[k].name@)) == functions_used(p, s) + used_block(
            p.functions@[k].body@,
        ),
{
    let fs = p.functions@;
    let n = fs[k].name@;
    assert forall|u: Used| functions_used(p, s.insert(n)).contains(u) implies (functions_used(p, s) + used_block(
        fs[k].body@,
    )).contains(u) by {
        let i = choose|i: int|
            0 <= i < fs.len() && s.insert(n).contains(#[trigger] fs[i].name@) && used_block(fs[i].body@).contains(u);
        if !s.contains(fs[i].name@) && i != k {
            if i < k {
                assert(fs[i].name@ != fs[k].name@);
            } else {
                assert(fs[k].name@ != fs[i].name@);
            }
        }
    }
    assert forall|u: Used| (functions_used(p, s) + used_block(fs[k].body@)).contains(u) implies functions_used(
        p,
        s.insert(n),
    ).contains(u) by {
        if used_block(fs[k].body@).contains(u) {
            assert(s.insert(n).contains(fs[k].name@));
        } else {
            let i = choose|i: int| 0 <= i < fs.len() && s.contains(#[trigger] fs[i].name@) && used_block(fs[i].body@).contains(u);
            assert(s.insert(n).contains(fs[i].name@));
        }
    }
    assert(functions_used(p, s.insert(n)) =~= functions_used(p, s) + used_block(fs[k].body@));
}

/// Adding a name no function has adds nothing.
proof fn functions_used_absent(p: Program, s: Set<Seq<char>>, n: Seq<char>)
    requires
        forall|j: int| 0 <= j < p.functions@.len() ==> (#[trigger] p.functions@[j]).name@ != n,
    ensures
        functions_used(p, s.insert(n)) == functions_used(p, s),
{
    let fs = p.functions@;
    assert forall|u: Used| functions_used(p, s.insert(n)).contains(u) implies functions_used(p, s).contains(u) by {
        let i = choose|i: int|
            0 <= i < fs.len() && s.insert(n).contains(#[trigger] fs[i].name@) && used_block(fs[i].body@).contains(u);
        assert(s.contains(fs[i].name@));
    }
    assert forall|u: Used| functions_used(p, s).contains(u) implies functions_used(p, s.insert(n)).contains(u) by {
        let i = choose|i: int| 0 <= i < fs.len() && s.contains(#[trigger] fs[i].name@) && used_block(fs[i].body@).contains(u);
        assert(s.insert(n).contains(fs[i].name@));
    }
    assert(functions_used(p, s.insert(n)) =~= functions_used(p, s));
}

/// What a program reaches: the functions the activity calls, directly or through other
/// functions, and what the activity and those functions use.
pub fn analyze(p: &Program) -> (r: Reachability)
    ensures
        analysis_of(r, *p),
{
    let mut r = Reachability::new();
    roots(p, &mut r);
    let ghost uroot = used_set(r);
    let reachable = reachable_functions(p);
    let ghost reach = name_set(reachable@);
    r.functions = reachable;
    let ghost rv = r.functions@;
    let mut i: usize = 0;
    let n = r.functions.len();
    let mut names: Vec<String> = Vec::new();
    while i < n
        invariant
            i <= n,
            n == r.functions@.len(),
            rv == r.functions@,
            names@.len() == i,
            forall|t: int| 0 <= t < i ==> (#[trigger] names@[t])@ == r.functions@[t]@,
        decreases n - i,
    {
        names.push(r.functions[i].clone());
        i = i + 1;
    }
    let ghost fs = p.functions@;
    proof {
        assert forall|t: int| 0 <= t < n implies reach.contains((#[trigger] names@[t])@) by {
            assert(views_of(r.functions@)[t] == names@[t]@);
            assert(views_of(r.functions@).contains(names@[t]@));
        }
        assert(name_set(names@.take(0)) =~= Set::<Seq<char>>::empty());
        assert(functions_used(*p, Set::<Seq<char>>::empty()) =~= Set::<Used>::empty());
        assert(used_set(r) =~= uroot + functions_used(*p, name_set(names@.take(0))));
    }
    let mut i: usize = 0;
    while i < names.len()
        invariant
            i <= names@.len(),
            names@.len() == n,
            fs == p.functions@,
            r.wf(),
            forall|t: int| 0 <= t < n ==> reach.contains((#[trigger] names@[t])@),
            call_closed(*p, reach),
            distinct_names(fs) ==> name_set(r.functions@) == reach,
            uroot == root_used(*p),
            distinct_names(fs) ==> used_set(r) == uroot + functions_used(*p, name_set(names@.take(i as int))),
            forall|t: int| 0 <= t < n ==> (#[trigger] names@[t])@ == rv[t]@,
            n == rv.len(),
            reach == name_set(rv),
        decreases names@.len() - i,
    {
        let mut k: usize = 0;
        let mut found = false;
        while k < p.functions.len() && !found
            invariant
                k <= p.functions@.len(),
                fs == p.functions@,
                i < names@.len(),
                found ==> k < p.functions@.len() && fs[k as int].name@ == names@[i as int]@,
                forall|j: int| 0 <= j < k ==> (#[trigger] fs[j]).name@ != names@[i as int]@,
            decreases p.functions@.len() - k + (if found { 0int } else { 1 }),
        {
            if str_eq(p.functions[k].name.as_str(), names[i].as_str()) {
                found = true;
            } else {
                k = k + 1;
            }
        }
        let ghost done = name_set(names@.take(i as int));
        proof {
            assert(name_set(names@.take(i + 1)) =~= done.insert(names@[i as int]@)) by {
                assert(views_of(names@.take(i + 1)) =~= views_of(names@.take(i as int)).push(names@[i as int]@));
                views_of(names@.take(i as int)).lemma_push_to_set_commute(names@[i as int]@);
            }
        }
        if found {
            let ghost before = name_set(r.functions@);
            inspect_statements(&p.functions[k].body, &mut r);
            proof {
                if distinct_names(fs) {
                    assert(last_named(fs, k as int));
                    assert(reach.contains(fs[k as int].name@));
                    assert(calls_block(fs[k as int].body@).subset_of(reach));
                    assert(name_set(r.functions@) =~= reach);
                    functions_used_insert(*p, done, k as int);
                    assert(used_set(r) =~= uroot + functions_used(*p, name_set(names@.take(i + 1))));
                }
            }
        } else {
            proof {
                functions_used_absent(*p, done, names@[i as int]@);
            }
        }
        i = i + 1;
    }
    proof {
        assert(names@.take(n as int) =~= names@);
        assert forall|x: Seq<char>| #[trigger] name_set(names@).contains(x) <==> reach.contains(x) by {
            if name_set(names@).contains(x) {
                let t = choose|t: int| 0 <= t < views_of(names@).len() && views_of(names@)[t] == x;
                assert(names@[t]@ == x);
            }
            if reach.contains(x) {
                let t = choose|t: int| 0 <= t < views_of(rv).len() && views_of(rv)[t] == x;
                assert(views_of(names@)[t] == x);
            }
        }
        assert(name_set(names@) =~= reach);
        if distinct_names(fs) {
            assert(used_set(r) == root_used(*p) + functions_used(*p, name_set(r.functions@)));
        }
    }
    r
}

/// The number of tables a program declares.
pub open spec fn table_total(p: Program) -> nat {
    match p.database {
        Some(d) => d.tables@.len(),
        None => 0,
    }
}

fn table_count(p: &Program) -> (r: usize)
    ensures
        r == table_total(*p),
{
    match &p.database {
        Some(d) => d.tables.len(),
        None => 0,
    }
}

fn copy_params(v: &Vec<Parameter>) -> (r: Vec<Parameter>)
    ensures
        r@ == v@,
{
    let mut out: Vec<Parameter> = Vec::new();
    let mut i: usize = 0;
    while i < v.len()
        invariant
            i <= v@.len(),
            out@ == v@.take(i as int),
        decreases v@.len() - i,
    {
        out.push(Parameter { name: v[i].name.clone(), ty: v[i].ty, span: v[i].span });
        i = i + 1;
        assert(out@ =~= v@.take(i as int));
    }
    assert(v@.take(i as int) =~= v@);
    out
}

/// `q` runs as `p`: its `on_create`, its click handlers and its state initializers give
/// what `p`'s give, in every scope and at every call-depth bound, and each of its functions
/// stands for one of `p`'s.
pub open spec fn runs_alike(q: Program, p: Program) -> bool {
    &&& forall|s: Scope, d: nat| #[trigger] run_block(q.activity.on_create@, s, q, d) == run_block(
        p.activity.on_create@,
        s,
        p,
        d,
    )
    &&& q.activity.on_click@.len() == p.activity.on_click@.len()
    &&& forall|i: int, s: Scope, d: nat| 0 <= i < q.activity.on_click@.len() ==> {
        &&& (#[trigger] q.activity.on_click@[i]).view == p.activity.on_click@[i].view
        &&& q.activity.on_click@[i].span == p.activity.on_click@[i].span
        &&& #[trigger] run_block(q.activity.on_click@[i].body@, s, q, d) == run_block(
            p.activity.on_click@[i].body@,
            s,
            p,
            d,
        )
    }
    &&& q.activity.state@.len() == p.activity.state@.len()
    &&& forall|i: int, s: Scope, d: nat| 0 <= i < q.activity.state@.len() ==> {
        &&& (#[trigger] q.activity.state@[i]).name == p.activity.state@[i].name
        &&& q.activity.state@[i].ty == p.activity.state@[i].ty
        &&& #[trigger] eval_expr(q.activity.state@[i].initial, s, q, d) == eval_expr(
            p.activity.state@[i].initial,
            s,
            p,
            d,
        )
    }
    &&& forall|j: int| 0 <= j < q.functions@.len() ==> exists|k: int| 0 <= k < p.functions@.len() && {
        &&& (#[trigger] q.functions@[j]).name@ == p.functions@[k].name@
        &&& q.functions@[j].params@ == p.functions@[k].params@
        &&& q.functions@[j].span == p.functions@[k].span
        &&& forall|s: Scope, d: nat| #[trigger] run_block(q.functions@[j].body@, s, q, d) == run_block(
            p.functions@[k].body@,
            s,
            p,
            d,
        )
    }
}

/// Optimizes the bodies of a program and prunes what it no longer reaches. Where function
/// names are distinct, the result runs as the program does.
#[verifier::spinoff_prover]
fn optimize_program(p: Program) -> (r: (Program, Reachability))
    ensures
        r.0.version == p.version,
        r.0.label == p.label,
        r.0.package == p.package,
        r.0.functions@.len() <= p.functions@.len(),
        r.0.preferences@.len() <= p.preferences@.len(),
        r.0.activity.name == p.activity.name,
        distinct_names(p.functions@) ==> runs_alike(r.0, p),
        analysis_of(r.1, r.0),
        pruned(r.0, p, r.1),
{
    let ghost pf = p.functions@;
    let mut functions: Vec<Function> = Vec::new();
    let mut i: usize = 0;
    while i < p.functions.len()
        invariant
            i <= p.functions@.len(),
            pf == p.functions@,
            functions@.len() == i,
            forall|k: int| 0 <= k < i ==> preserve::runs_as(#[trigger] functions@[k], pf[k]),
        decreases p.functions@.len() - i,
    {
        let f = &p.functions[i];
        functions.push(Function {
            name: f.name.clone(),
            params: copy_params(&f.params),
            return_type: f.return_type,
            body: statements(&f.body),
            span: f.span,
        });
        i = i + 1;
    }
    let mut state: Vec<State> = Vec::new();
    let mut i: usize = 0;
    while i < p.activity.state.len()
        invariant
            i <= p.activity.state@.len(),
            state@.len() == i,
            forall|k: int| 0 <= k < i ==> {
                &&& (#[trigger] state@[k]).name == p.activity.state@[k].name
                &&& state@[k].ty == p.activity.state@[k].ty
                &&& state@[k].span == p.activity.state@[k].span
                &&& forall|s: Scope, q: Program, d: nat| #[trigger] eval_expr(state@[k].initial, s, q, d) == eval_expr(
                    p.activity.state@[k].initial,
                    s,
                    q,
                    d,
                )
            },
        decreases p.activity.state@.len() - i,
    {
        let st = &p.activity.state[i];
        state.push(State { name: st.name.clone(), ty: st.ty, initial: expression(&st.initial), span: st.span });
        i = i + 1;
    }
    let on_create = statements(&p.activity.on_create);
    let mut on_click: Vec<ClickHandler> = Vec::new();
    let mut i: usize = 0;
    while i < p.activity.on_click.len()
        invariant
            i <= p.activity.on_click@.len(),
            on_click@.len() == i,
            forall|k: int| 0 <= k < i ==> {
                &&& (#[trigger] on_click@[k]).view == p.activity.on_click@[k].view
                &&& on_click@[k].span == p.activity.on_click@[k].span
                &&& forall|s: Scope, q: Program, d: nat| #[trigger] run_block(on_click@[k].body@, s, q, d) == run_block(
                    p.activity.on_click@[k].body@,
                    s,
                    q,
                    d,
                )
            },
        decreases p.activity.on_click@.len() - i,
    {
        let h = &p.activity.on_click[i];
        on_click.push(ClickHandler { view: h.view.clone(), body: statements(&h.body), span: h.span });
        i = i + 1;
    }
    let ghost p0 = p;
    let mut q = Program {
        version: p.version,
        label: p.label,
        package: p.package,
        capabilities: p.capabilities,
        preferences: p.preferences,
        database: p.database,
        functions,
        activity: Activity { name: p.activity.name, state, on_create, on_click },
    };
    let ghost q0 = q;
    let reachable = reachable_functions(&q);
    let ghost reach = name_set(reachable@);
    let mut kept: Vec<Function> = Vec::new();
    let mut fs = q.functions;
    q.functions = Vec::new();
    let ghost all = fs@;
    let total = fs.len();
    let ghost mut m: int = 0;
    assert(all.take(0) =~= Seq::<Function>::empty());
    while fs.len() > 0
        invariant
            kept@.len() + fs@.len() <= total,
            total == all.len(),
            total <= p0.functions@.len(),
            0 <= m <= all.len(),
            fs@ == all.skip(m),
            kept@ == preserve::keep(all.take(m), reach),
            reach == name_set(reachable@),
        decreases fs@.len(),
    {
        let f = fs.remove(0);
        proof {
            assert(f == all[m]);
            assert(all.take(m + 1).drop_last() =~= all.take(m));
            assert(all.take(m + 1).last() == all[m]);
        }
        if has_name(&reachable, &f.name) {
            kept.push(f);
        }
        proof {
            m = m + 1;
            assert(fs@ =~= all.skip(m));
        }
    }
    assert(all.take(m) =~= all);
    q.functions = kept;
    let ghost q1 = q;
    let used = analyze(&q);
    q.capabilities = copy_capabilities(&used.capabilities);
    let ghost keep = name_set(used.preferences@);
    let mut prefs: Vec<Preference> = Vec::new();
    let mut ps = q.preferences;
    q.preferences = Vec::new();
    let ghost allp = ps@;
    let ghost mut m: int = 0;
    proof {
        reveal(Seq::filter);
        assert(allp.take(0).filter(preference_in(keep)) =~= Seq::<Preference>::empty());
    }
    while ps.len() > 0
        invariant
            0 <= m <= allp.len(),
            ps@ == allp.skip(m),
            prefs@ == allp.take(m).filter(preference_in(keep)),
            keep == name_set(used.preferences@),
        decreases ps@.len(),
    {
        let x = ps.remove(0);
        proof {
            assert(x == allp[m]);
            assert(allp.take(m + 1) =~= allp.take(m).push(allp[m]));
            allp.take(m).lemma_filter_push(allp[m], preference_in(keep));
        }
        if has_name(&used.preferences, &x.name) {
            prefs.push(x);
        }
        proof {
            m = m + 1;
            assert(ps@ =~= allp.skip(m));
        }
    }
    assert(allp.take(m) =~= allp);
    proof {
        allp.lemma_filter_len(preference_in(keep));
    }
    q.preferences = prefs;
    let ghost tkeep = name_set(used.tables@);
    let database = match q.database {
        Some(db) => {
            let mut tables: Vec<Table> = Vec::new();
            let mut ts = db.tables;
            let ghost allt = ts@;
            let ghost mut m: int = 0;
            proof {
                reveal(Seq::filter);
                assert(allt.take(0).filter(table_in(tkeep)) =~= Seq::<Table>::empty());
            }
            while ts.len() > 0
                invariant
                    0 <= m <= allt.len(),
                    ts@ == allt.skip(m),
                    tables@ == allt.take(m).filter(table_in(tkeep)),
                    tkeep == name_set(used.tables@),
                decreases ts@.len(),
            {
                let t = ts.remove(0);
                proof {
                    assert(t == allt[m]);
                    assert(allt.take(m + 1) =~= allt.take(m).push(allt[m]));
                    allt.take(m).lemma_filter_push(allt[m], table_in(tkeep));
                }
                if has_name(&used.tables, &t.name) {
                    tables.push(t);
                }
                proof {
                    m = m + 1;
                    assert(ts@ =~= allt.skip(m));
                }
            }
            assert(allt.take(m) =~= allt);
            if tables.len() == 0 {
                None
            } else {
                Some(Database { name: db.name, version: db.version, tables, span: db.span })
            }
        },
        None => None,
    };
    q.database = database;
    proof {
        if distinct_names(p0.functions@) {
            preservation(p0, q0, q, reach);
        }
        analysis_transfer(used, q1, q);
    }
    (q, used)
}

/// A copy of a capability list.
fn copy_capabilities(v: &Vec<Capability>) -> (r: Vec<Capability>)
    ensures
        r@ == v@,
{
    let mut out: Vec<Capability> = Vec::new();
    let mut i: usize = 0;
    while i < v.len()
        invariant
            i <= v@.len(),
            out@ == v@.take(i as int),
        decreases v@.len() - i,
    {
        out.push(v[i]);
        i = i + 1;
        assert(out@ =~= v@.take(i as int));
    }
    assert(v@.take(i as int) =~= v@);
    out
}

/// Whether a preference's key is among `keep`.
pub open spec fn preference_in(keep: Set<Seq<char>>) -> spec_fn(Preference) -> bool {
    |x: Preference| keep.contains(x.name@)
}

/// Whether a table's name is among `keep`.
pub open spec fn table_in(keep: Set<Seq<char>>) -> spec_fn(Table) -> bool {
    |x: Table| keep.contains(x.name@)
}

/// What pruning keeps of `p` in `q`, given what `q` reaches: exactly the capabilities
/// used, the preferences whose keys are read or written, and the tables used (no database
/// when none is).
pub open spec fn pruned(q: Program, p: Program, used: Reachability) -> bool {
    &&& q.capabilities@ == used.capabilities@
    &&& q.preferences@ == p.preferences@.filter(preference_in(name_set(used.preferences@)))
    &&& match p.database {
        None => q.database is None,
        Some(db) => {
            let t = db.tables@.filter(table_in(name_set(used.tables@)));
            if t.len() == 0 {
                q.database is None
            } else {
                &&& q.database is Some
                &&& q.database->0.name == db.name
                &&& q.database->0.version == db.version
                &&& q.database->0.span == db.span
                &&& q.database->0.tables@ == t
            }
        },
    }
}

/// What an analysis states of a program holds of any program with the same functions and
/// activity.
proof fn analysis_transfer(r: Reachability, a: Program, b: Program)
    requires
        analysis_of(r, a),
        a.functions == b.functions,
        a.activity == b.activity,
    ensures
        analysis_of(r, b),
{
    assert(root_used(a) == root_used(b));
    assert(root_calls(a) == root_calls(b));
    assert(functions_used(a, name_set(r.functions@)) =~= functions_used(b, name_set(r.functions@)));
    assert forall|s: Set<Seq<char>>| call_closed(a, s) == call_closed(b, s) by {}
}

/// The program optimization builds runs as the original: folding keeps how every body runs,
/// and pruning keeps every function the activity can reach.
proof fn preservation(p: Program, q0: Program, q: Program, reach: Set<Seq<char>>)
    requires
        distinct_names(p.functions@),
        preserve::refolded(q0.functions@, p.functions@),
        q0.activity.state@.len() == p.activity.state@.len(),
        forall|k: int| 0 <= k < q0.activity.state@.len() ==> {
            &&& (#[trigger] q0.activity.state@[k]).name == p.activity.state@[k].name
            &&& q0.activity.state@[k].ty == p.activity.state@[k].ty
            &&& forall|s: Scope, o: Program, d: nat| #[trigger] eval_expr(q0.activity.state@[k].initial, s, o, d)
                == eval_expr(p.activity.state@[k].initial, s, o, d)
        },
        forall|s: Scope, o: Program, d: nat| #[trigger] run_block(q0.activity.on_create@, s, o, d) == run_block(
            p.activity.on_create@,
            s,
            o,
            d,
        ),
        q0.activity.on_click@.len() == p.activity.on_click@.len(),
        forall|k: int| 0 <= k < q0.activity.on_click@.len() ==> {
            &&& (#[trigger] q0.activity.on_click@[k]).view == p.activity.on_click@[k].view
            &&& q0.activity.on_click@[k].span == p.activity.on_click@[k].span
            &&& forall|s: Scope, o: Program, d: nat| #[trigger] run_block(q0.activity.on_click@[k].body@, s, o, d)
                == run_block(p.activity.on_click@[k].body@, s, o, d)
        },
        call_closed(q0, reach),
        q.functions@ == preserve::keep(q0.functions@, reach),
        q.activity == q0.activity,
    ensures
        runs_alike(q, p),
{
    assert forall|a: int, b: int| 0 <= a < b < q0.functions@.len() implies (#[trigger] q0.functions@[a]).name@
        != (#[trigger] q0.functions@[b]).name@ by {
        assert(preserve::runs_as(q0.functions@[a], p.functions@[a]));
        assert(preserve::runs_as(q0.functions@[b], p.functions@[b]));
    }
    assert(preserve::pruned_from(q, q0, reach));
    let roots = root_calls(q0);
    assert forall|s: Scope, d: nat| #[trigger] run_block(q.activity.on_create@, s, q, d) == run_block(
        p.activity.on_create@,
        s,
        p,
        d,
    ) by {
        preserve::prune_block(q0.activity.on_create@, s, q, q0, reach, d);
        preserve::fold_block(p.activity.on_create@, s, q0, p, d);
    }
    assert forall|i: int, s: Scope, d: nat| 0 <= i < q.activity.on_click@.len() implies #[trigger] run_block(
        q.activity.on_click@[i].body@,
        s,
        q,
        d,
    ) == run_block(p.activity.on_click@[i].body@, s, p, d) by {
        preserve::handler_calls_member(q0.activity.on_click@, i);
        preserve::prune_block(q0.activity.on_click@[i].body@, s, q, q0, reach, d);
        preserve::fold_block(p.activity.on_click@[i].body@, s, q0, p, d);
    }
    assert forall|i: int, s: Scope, d: nat| 0 <= i < q.activity.state@.len() implies #[trigger] eval_expr(
        q.activity.state@[i].initial,
        s,
        q,
        d,
    ) == eval_expr(p.activity.state@[i].initial, s, p, d) by {
        preserve::state_calls_member(q0.activity.state@, i);
        preserve::prune_expr(q0.activity.state@[i].initial, s, q, q0, reach, d);
        preserve::fold_expr(p.activity.state@[i].initial, s, q0, p, d);
    }
    assert forall|j: int| 0 <= j < q.functions@.len() implies exists|k: int| 0 <= k < p.functions@.len() && {
        &&& (#[trigger] q.functions@[j]).name@ == p.functions@[k].name@
        &&& q.functions@[j].params@ == p.functions@[k].params@
        &&& q.functions@[j].span == p.functions@[k].span
        &&& forall|s: Scope, d: nat| #[trigger] run_block(q.functions@[j].body@, s, q, d) == run_block(
            p.functions@[k].body@,
            s,
            p,
            d,
        )
    } by {
        let k = kept_origin(q0.functions@, reach, j);
        let g = q0.functions@[k];
        assert(preserve::runs_as(g, p.functions@[k]));
        assert(last_named(q0.functions@, k));
        assert(calls_block(g.body@).subset_of(reach));
        assert forall|s: Scope, d: nat| #[trigger] run_block(q.functions@[j].body@, s, q, d) == run_block(
            p.functions@[k].body@,
            s,
            p,
            d,
        ) by {
            preserve::prune_block(g.body@, s, q, q0, reach, d);
            preserve::fold_block(p.functions@[k].body@, s, q0, p, d);
        }
    }
}

/// A kept function is one of the functions it was kept from, with a name in the kept set.
proof fn kept_origin(fs: Seq<Function>, r: Set<Seq<char>>, j: int) -> (k: int)
    requires
        0 <= j < preserve::keep(fs, r).len(),
    ensures
        0 <= k < fs.len(),
        preserve::keep(fs, r)[j] == fs[k],
        r.contains(fs[k].name@),
    decreases fs.len(),
{
    let init = fs.drop_last();
    if r.contains(fs.last().name@) && j == preserve::keep(fs, r).len() - 1 {
        (fs.len() - 1) as int
    } else {
        let k = kept_origin(init, r, j);
        assert(fs[k] == init[k]);
        k
    }
}

/// Optimizes a program as `options` ask, and reports what it reached before and after.
pub fn optimize_with_report(p: Program, options: CompilerOptions) -> (r: (Program, OptimizationReport))
    ensures
        options.optimization_level == OptimizationLevel::Off ==> r.0 == p,
        r.1.functions_before == p.functions@.len(),
        r.1.functions_after == r.0.functions@.len(),
        r.1.functions_after <= r.1.functions_before,
        r.1.preferences_before == p.preferences@.len(),
        r.1.preferences_after == r.0.preferences@.len(),
        r.1.preferences_after <= r.1.preferences_before,
        r.1.tables_before == table_total(p),
        r.1.tables_after == table_total(r.0),
        r.0.version == p.version && r.0.label == p.label && r.0.package == p.package,
        analysis_of(r.1.before, p),
        analysis_of(r.1.after, r.0),
        options.optimization_level != OptimizationLevel::Off ==> pruned(r.0, p, r.1.after),
        distinct_names(p.functions@) ==> runs_alike(r.0, p),
{
    let before = analyze(&p);
    let functions_before = p.functions.len();
    let preferences_before = p.preferences.len();
    let tables_before = table_count(&p);
    let ghost original = p;
    let (q, after) = if options.optimization_level == OptimizationLevel::Off {
        let a = analyze(&p);
        (p, a)
    } else {
        optimize_program(p)
    };
    proof {
        if options.optimization_level == OptimizationLevel::Off {
            runs_alike_itself(original);
        }
    }
    let report = OptimizationReport {
        before,
        after,
        functions_before,
        functions_after: q.functions.len(),
        preferences_before,
        preferences_after: q.preferences.len(),
        tables_before,
        tables_after: table_count(&q),
    };
    (q, report)
}

/// A program runs as itself.
proof fn runs_alike_itself(p: Program)
    ensures
        runs_alike(p, p),
{
    assert forall|j: int| 0 <= j < p.functions@.len() implies exists|k: int| 0 <= k < p.functions@.len() && {
        &&& (#[trigger] p.functions@[j]).name@ == p.functions@[k].name@
        &&& p.functions@[j].params@ == p.functions@[k].params@
        &&& p.functions@[j].span == p.functions@[k].span
        &&& forall|s: Scope, d: nat| #[trigger] run_block(p.functions@[j].body@, s, p, d) == run_block(
            p.functions@[k].body@,
            s,
            p,
            d,
        )
    } by {
        let f = p.functions@[j];
        assert(forall|s: Scope, d: nat| #[trigger] run_block(f.body@, s, p, d) == run_block(f.body@, s, p, d));
        assert(0 <= j < p.functions@.len() && f.name@ == f.name@ && f.params@ == f.params@ && f.span == f.span);
    }
}

/// Optimizes a program as `options` ask. Where function names are distinct, the result runs
/// as the program does.
pub fn optimize(program: Program, options: CompilerOptions) -> (r: Program)
    ensures
        options.optimization_level == OptimizationLevel::Off ==> r == program,
        r.functions@.len() <= program.functions@.len(),
        r.version == program.version && r.label == program.label && r.package == program.package,
        distinct_names(program.functions@) ==> runs_alike(r, program),
{
    optimize_with_report(program, options).0
}

} // verus!
