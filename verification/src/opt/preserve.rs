//! Why optimization keeps what a program does: evaluation depends on a function only through
//! how its body runs, and never reaches a function that reachability left out.
use vstd::prelude::*;
use crate::ir::{Expression, ExpressionKind, Statement, StatementKind, Function, Program, ValueView};
use crate::ir::eval::{eval_expr, eval_args, exec_stmt, run_block, run_loop, bind, find_function, Scope};
use crate::ir::program::distinct_names;
use crate::opt::{call_closed, calls_expr, calls_args, calls_stmt, calls_block, calls_state, calls_handlers,
    last_named};

verus! {

/// `a` stands for `b`: the same name, parameters and place, and a body that runs as `b`'s does.
pub open spec fn runs_as(a: Function, b: Function) -> bool {
    &&& a.name@ == b.name@
    &&& a.params@ == b.params@
    &&& a.span == b.span
    &&& forall|s: Scope, p: Program, d: nat| #[trigger] run_block(a.body@, s, p, d) == run_block(b.body@, s, p, d)
}

/// Each function of `q` stands for the function of `p` at the same place.
pub open spec fn refolded(q: Seq<Function>, p: Seq<Function>) -> bool {
    &&& q.len() == p.len()
    &&& forall|k: int| 0 <= k < q.len() ==> runs_as(#[trigger] q[k], p[k])
}

/// The functions of `fs` whose names are in `r`, in order.
pub open spec fn keep(fs: Seq<Function>, r: Set<Seq<char>>) -> Seq<Function>
    decreases fs.len(),
{
    if fs.len() == 0 {
        Seq::empty()
    } else if r.contains(fs.last().name@) {
        keep(fs.drop_last(), r).push(fs.last())
    } else {
        keep(fs.drop_last(), r)
    }
}

/// What looking a function up finds: one of that name, or none where there is none.
pub proof fn find_found(fs: Seq<Function>, n: Seq<char>)
    ensures
        match find_function(fs, n) {
            Some(k) => 0 <= k < fs.len() && fs[k].name@ == n,
            None => forall|k: int| 0 <= k < fs.len() ==> (#[trigger] fs[k]).name@ != n,
        },
    decreases fs.len(),
{
    if fs.len() > 0 {
        let init = fs.drop_last();
        find_found(init, n);
        match find_function(init, n) {
            Some(k) => {
                assert(fs[k] == init[k]);
            },
            None => {
                if find_function(fs, n) is None {
                    assert forall|k: int| 0 <= k < fs.len() implies (#[trigger] fs[k]).name@ != n by {
                        if k < fs.len() - 1 {
                            assert(fs[k] == init[k]);
                        }
                    }
                }
            },
        }
    }
}

proof fn find_alike(q: Seq<Function>, p: Seq<Function>, n: Seq<char>)
    requires
        q.len() == p.len(),
        forall|k: int| 0 <= k < q.len() ==> (#[trigger] q[k]).name@ == p[k].name@,
    ensures
        find_function(q, n) == find_function(p, n),
    decreases q.len(),
{
    if q.len() > 0 {
        find_alike(q.drop_last(), p.drop_last(), n);
    }
}

/// Looking a kept name up among the kept functions finds the function found among all.
pub proof fn keep_find(fs: Seq<Function>, r: Set<Seq<char>>, n: Seq<char>)
    requires
        r.contains(n),
    ensures
        match find_function(fs, n) {
            Some(k) => find_function(keep(fs, r), n) matches Some(j) && 0 <= j < keep(fs, r).len() && keep(fs, r)[j]
                == fs[k],
            None => find_function(keep(fs, r), n) is None,
        },
    decreases fs.len(),
{
    if fs.len() > 0 {
        let init = fs.drop_last();
        keep_find(init, r, n);
        find_found(init, n);
        let f = fs.last();
        if r.contains(f.name@) {
            assert(keep(fs, r).drop_last() =~= keep(init, r));
        }
        match find_function(init, n) {
            Some(k) => {
                assert(fs[k] == init[k]);
            },
            None => {},
        }
    }
}

/// Evaluation with refolded functions gives what it gives with the originals.
pub proof fn fold_expr(x: Expression, s: Scope, q: Program, p: Program, d: nat)
    requires
        refolded(q.functions@, p.functions@),
    ensures
        eval_expr(x, s, q, d) == eval_expr(x, s, p, d),
    decreases d, 0int, x, 0int,
{
    match x.kind {
        ExpressionKind::Unary { value, .. } => fold_expr(*value, s, q, p, d),
        ExpressionKind::Binary { left, right, .. } => {
            fold_expr(*left, s, q, p, d);
            fold_expr(*right, s, q, p, d);
        },
        ExpressionKind::Call { name, args } => {
            fold_args(args@, s, q, p, d);
            assert forall|k: int| 0 <= k < q.functions@.len() implies (#[trigger] q.functions@[k]).name@
                == p.functions@[k].name@ by {
                assert(runs_as(q.functions@[k], p.functions@[k]));
            }
            find_alike(q.functions@, p.functions@, name@);
            find_found(p.functions@, name@);
            match (eval_args(args@, s, p, d), find_function(p.functions@, name@)) {
                (Ok(a), Some(k)) => {
                    if d > 0 {
                        let g = q.functions@[k];
                        let f = p.functions@[k];
                        assert(runs_as(g, f));
                        let cs = crate::ir::eval::call_scope(f.params@, a);
                        assert(run_block(g.body@, cs, q, (d - 1) as nat) == run_block(f.body@, cs, q, (d - 1) as nat));
                        fold_block(f.body@, cs, q, p, (d - 1) as nat);
                    }
                },
                _ => {},
            }
        },
        _ => {},
    }
}

pub proof fn fold_args(a: Seq<Expression>, s: Scope, q: Program, p: Program, d: nat)
    requires
        refolded(q.functions@, p.functions@),
    ensures
        eval_args(a, s, q, d) == eval_args(a, s, p, d),
    decreases d, 0int, a, 0int,
{
    if a.len() > 0 {
        fold_args(a.drop_last(), s, q, p, d);
        fold_expr(a[a.len() - 1], s, q, p, d);
    }
}

pub proof fn fold_block(b: Seq<Statement>, s: Scope, q: Program, p: Program, d: nat)
    requires
        refolded(q.functions@, p.functions@),
    ensures
        run_block(b, s, q, d) == run_block(b, s, p, d),
    decreases d, 1int, b, 0int,
{
    if b.len() > 0 {
        fold_block(b.drop_last(), s, q, p, d);
        match run_block(b.drop_last(), s, p, d) {
            Ok((t, None)) => fold_stmt(b[b.len() - 1], t, q, p, d),
            _ => {},
        }
    }
}

pub proof fn fold_stmt(st: Statement, s: Scope, q: Program, p: Program, d: nat)
    requires
        refolded(q.functions@, p.functions@),
    ensures
        exec_stmt(st, s, q, d) == exec_stmt(st, s, p, d),
    decreases d, 1int, st, 0int,
{
    match st.kind {
        StatementKind::Declare { value, .. } => fold_expr(value, s, q, p, d),
        StatementKind::Assign { value, .. } => fold_expr(value, s, q, p, d),
        StatementKind::Return(value) => fold_expr(value, s, q, p, d),
        StatementKind::If { condition, then_body, else_body } => {
            fold_expr(condition, s, q, p, d);
            fold_block(then_body@, s, q, p, d);
            fold_block(else_body@, s, q, p, d);
        },
        StatementKind::For { variable, start, end, body } => {
            fold_expr(start, s, q, p, d);
            fold_expr(end, s, q, p, d);
            match (eval_expr(start, s, p, d), eval_expr(end, s, p, d)) {
                (Ok(ValueView::I32(a)), Ok(ValueView::I32(z))) => {
                    fold_loop(variable@, a as int, z as int, body, s, q, p, d);
                },
                _ => {},
            }
        },
        _ => {},
    }
}

pub proof fn fold_loop(v: Seq<char>, k: int, z: int, body: Vec<Statement>, s: Scope, q: Program, p: Program, d: nat)
    requires
        refolded(q.functions@, p.functions@),
    ensures
        run_loop(v, k, z, body, s, q, d) == run_loop(v, k, z, body, s, p, d),
    decreases d, 1int, body, z - k,
{
    if k < z {
        let t = bind(s, v, ValueView::I32(k as i32));
        fold_block(body@, t, q, p, d);
        match run_block(body@, t, p, d) {
            Ok((u, None)) => fold_loop(v, k + 1, z, body, u, q, p, d),
            _ => {},
        }
    }
}

/// `q` keeps the functions of `o` named in `r`, and `r` is closed under the calls of `o`.
pub open spec fn pruned_from(q: Program, o: Program, r: Set<Seq<char>>) -> bool {
    &&& q.functions@ == keep(o.functions@, r)
    &&& call_closed(o, r)
    &&& distinct_names(o.functions@)
}

/// Evaluating code that calls only kept functions gives, among the kept functions, what it
/// gives among all.
pub proof fn prune_expr(x: Expression, s: Scope, q: Program, o: Program, r: Set<Seq<char>>, d: nat)
    requires
        pruned_from(q, o, r),
        calls_expr(x).subset_of(r),
    ensures
        eval_expr(x, s, q, d) == eval_expr(x, s, o, d),
    decreases d, 0int, x, 0int,
{
    match x.kind {
        ExpressionKind::Unary { value, .. } => prune_expr(*value, s, q, o, r, d),
        ExpressionKind::Binary { left, right, .. } => {
            assert(calls_expr(*left).subset_of(r));
            assert(calls_expr(*right).subset_of(r));
            prune_expr(*left, s, q, o, r, d);
            prune_expr(*right, s, q, o, r, d);
        },
        ExpressionKind::Call { name, args } => {
            assert(r.contains(name@));
            assert(calls_args(args@).subset_of(r));
            prune_args(args@, s, q, o, r, d);
            keep_find(o.functions@, r, name@);
            find_found(o.functions@, name@);
            match (eval_args(args@, s, o, d), find_function(o.functions@, name@)) {
                (Ok(a), Some(k)) => {
                    if d > 0 {
                        let f = o.functions@[k];
                        assert(last_named(o.functions@, k));
                        assert(calls_block(f.body@).subset_of(r));
                        let cs = crate::ir::eval::call_scope(f.params@, a);
                        prune_block(f.body@, cs, q, o, r, (d - 1) as nat);
                    }
                },
                _ => {},
            }
        },
        ExpressionKind::DatabaseExists { id, .. } => {},
        ExpressionKind::DatabaseGet { id, default, .. } => {},
        _ => {},
    }
}

pub proof fn prune_args(a: Seq<Expression>, s: Scope, q: Program, o: Program, r: Set<Seq<char>>, d: nat)
    requires
        pruned_from(q, o, r),
        calls_args(a).subset_of(r),
    ensures
        eval_args(a, s, q, d) == eval_args(a, s, o, d),
    decreases d, 0int, a, 0int,
{
    if a.len() > 0 {
        assert(calls_args(a.drop_last()).subset_of(r));
        assert(calls_expr(a[a.len() - 1]).subset_of(r));
        prune_args(a.drop_last(), s, q, o, r, d);
        prune_expr(a[a.len() - 1], s, q, o, r, d);
    }
}

pub proof fn prune_block(b: Seq<Statement>, s: Scope, q: Program, o: Program, r: Set<Seq<char>>, d: nat)
    requires
        pruned_from(q, o, r),
        calls_block(b).subset_of(r),
    ensures
        run_block(b, s, q, d) == run_block(b, s, o, d),
    decreases d, 1int, b, 0int,
{
    if b.len() > 0 {
        assert(calls_block(b.drop_last()).subset_of(r));
        assert(calls_stmt(b[b.len() - 1]).subset_of(r));
        prune_block(b.drop_last(), s, q, o, r, d);
        match run_block(b.drop_last(), s, o, d) {
            Ok((t, None)) => prune_stmt(b[b.len() - 1], t, q, o, r, d),
            _ => {},
        }
    }
}

pub proof fn prune_stmt(st: Statement, s: Scope, q: Program, o: Program, r: Set<Seq<char>>, d: nat)
    requires
        pruned_from(q, o, r),
        calls_stmt(st).subset_of(r),
    ensures
        exec_stmt(st, s, q, d) == exec_stmt(st, s, o, d),
    decreases d, 1int, st, 0int,
{
    match st.kind {
        StatementKind::Declare { value, .. } => prune_expr(value, s, q, o, r, d),
        StatementKind::Assign { value, .. } => prune_expr(value, s, q, o, r, d),
        StatementKind::Return(value) => prune_expr(value, s, q, o, r, d),
        StatementKind::If { condition, then_body, else_body } => {
            assert(calls_expr(condition).subset_of(r));
            assert(calls_block(then_body@).subset_of(r));
            assert(calls_block(else_body@).subset_of(r));
            prune_expr(condition, s, q, o, r, d);
            prune_block(then_body@, s, q, o, r, d);
            prune_block(else_body@, s, q, o, r, d);
        },
        StatementKind::For { variable, start, end, body } => {
            assert(calls_expr(start).subset_of(r));
            assert(calls_expr(end).subset_of(r));
            assert(calls_block(body@).subset_of(r));
            prune_expr(start, s, q, o, r, d);
            prune_expr(end, s, q, o, r, d);
            match (eval_expr(start, s, o, d), eval_expr(end, s, o, d)) {
                (Ok(ValueView::I32(a)), Ok(ValueView::I32(z))) => {
                    prune_loop(variable@, a as int, z as int, body, s, q, o, r, d);
                },
                _ => {},
            }
        },
        _ => {},
    }
}

pub proof fn prune_loop(v: Seq<char>, k: int, z: int, body: Vec<Statement>, s: Scope, q: Program, o: Program,
    r: Set<Seq<char>>, d: nat)
    requires
        pruned_from(q, o, r),
        calls_block(body@).subset_of(r),
    ensures
        run_loop(v, k, z, body, s, q, d) == run_loop(v, k, z, body, s, o, d),
    decreases d, 1int, body, z - k,
{
    if k < z {
        let t = bind(s, v, ValueView::I32(k as i32));
        prune_block(body@, t, q, o, r, d);
        match run_block(body@, t, o, d) {
            Ok((u, None)) => prune_loop(v, k + 1, z, body, u, q, o, r, d),
            _ => {},
        }
    }
}

/// What a click handler calls, the activity calls.
pub proof fn handler_calls_member(hs: Seq<crate::ir::ClickHandler>, i: int)
    requires
        0 <= i < hs.len(),
    ensures
        calls_block(hs[i].body@).subset_of(calls_handlers(hs)),
    decreases hs.len(),
{
    if i < hs.len() - 1 {
        handler_calls_member(hs.drop_last(), i);
    }
}

/// What a state initializer calls, the activity calls.
pub proof fn state_calls_member(v: Seq<crate::ir::State>, i: int)
    requires
        0 <= i < v.len(),
    ensures
        calls_expr(v[i].initial).subset_of(calls_state(v)),
    decreases v.len(),
{
    if i < v.len() - 1 {
        state_calls_member(v.drop_last(), i);
    }
}

} // verus!
