//! Static checks that turn a syntax tree into a verified program.
use vstd::prelude::*;
use crate::ir::{Diagnostic, Fault, SourceSpan, Expression, ExpressionKind, BinaryOp, UnaryOp, Type, Value,
    Statement, StatementKind, is_word, Capability, Preference, Column, Table, Database, Parameter,
    SyntaxFunction, SyntaxProgram, Function, Activity, Program, ClickHandler, State, value_type};
use crate::text::{owned, concat, str_eq};
use crate::opt::{Used, used_expr, used_args, used_values, used_stmt, used_block, calls_expr, calls_args, calls_values,
    calls_stmt, calls_block,
    name_set};

verus! {

/// Index of the first entry of `m` keyed by `k`.
pub open spec fn key_index<V>(m: Seq<(String, V)>, k: Seq<char>) -> Option<int>
    decreases m.len(),
{
    if m.len() == 0 {
        None
    } else {
        match key_index(m.drop_last(), k) {
            Some(i) => Some(i),
            None => if m.last().0@ == k { Some(m.len() - 1) } else { None },
        }
    }
}

proof fn key_index_prefix<V>(m: Seq<(String, V)>, i: int, k: Seq<char>)
    requires
        0 <= i <= m.len(),
        key_index(m.take(i), k) is Some,
    ensures
        key_index(m, k) == key_index(m.take(i), k),
    decreases m.len() - i,
{
    if i < m.len() {
        assert(m.take(i + 1).drop_last() =~= m.take(i));
        key_index_prefix(m, i + 1, k);
    } else {
        assert(m.take(i) =~= m);
    }
}

pub proof fn key_index_bounds<V>(m: Seq<(String, V)>, k: Seq<char>)
    ensures
        key_index(m, k) matches Some(i) ==> 0 <= i < m.len() && m[i].0@ == k,
        key_index(m, k) is None ==> forall|j: int| 0 <= j < m.len() ==> (#[trigger] m[j]).0@ != k,
    decreases m.len(),
{
    if m.len() > 0 {
        key_index_bounds(m.drop_last(), k);
        if key_index(m.drop_last(), k) is None {
            assert forall|j: int| 0 <= j < m.len() - 1 implies (#[trigger] m[j]).0@ != k by {
                assert(m.drop_last()[j] == m[j]);
            }
        }
    }
}

/// Finds the first entry keyed by `k`.
pub fn find_key<V>(m: &Vec<(String, V)>, k: &str) -> (r: Option<usize>)
    ensures
        r matches Some(i) ==> key_index(m@, k@) == Some(i as int),
        r is None ==> key_index(m@, k@) is None,
{
    let mut i: usize = 0;
    while i < m.len()
        invariant
            i <= m@.len(),
            key_index(m@.take(i as int), k@) is None,
        decreases m@.len() - i,
    {
        assert(m@.take(i + 1).drop_last() =~= m@.take(i as int));
        if str_eq(m[i].0.as_str(), k) {
            proof {
                key_index_prefix(m@, i + 1, k@);
            }
            return Some(i);
        }
        i = i + 1;
    }
    assert(m@.take(i as int) =~= m@);
    None
}

/// Membership of a name in a list of names.
pub fn contains_name(v: &Vec<String>, k: &str) -> (r: bool)
    ensures
        r == exists|i: int| 0 <= i < v@.len() && (#[trigger] v@[i])@ == k@,
{
    let mut i: usize = 0;
    while i < v.len()
        invariant
            i <= v@.len(),
            forall|j: int| 0 <= j < i ==> (#[trigger] v@[j])@ != k@,
        decreases v@.len() - i,
    {
        if str_eq(v[i].as_str(), k) {
            return true;
        }
        i = i + 1;
    }
    false
}

/// Adds a name to a list of distinct names.
pub fn add_name(v: &mut Vec<String>, k: &String)
    ensures
        exists|i: int| 0 <= i < final(v)@.len() && (#[trigger] final(v)@[i])@ == k@,
        forall|i: int| 0 <= i < old(v)@.len() ==> final(v)@[i] == old(v)@[i],
        forall|i: int| 0 <= i < final(v)@.len() ==> (exists|j: int| 0 <= j < old(v)@.len() && final(v)@[i] == old(v)@[j]) || (#[trigger] final(v)@[i])@ == k@,
        name_set(final(v)@) == name_set(old(v)@).insert(k@),
{
    if !contains_name(v, k.as_str()) {
        let ghost before = v@;
        v.push(k.clone());
        assert(v@[v@.len() - 1]@ == k@);
        proof {
            assert(crate::opt::views_of(v@) =~= crate::opt::views_of(before).push(k@));
            crate::opt::views_of(before).lemma_push_to_set_commute(k@);
        }
    } else {
        proof {
            let i = choose|i: int| 0 <= i < v@.len() && (#[trigger] v@[i])@ == k@;
            assert(crate::opt::views_of(v@)[i] == k@);
            assert(name_set(v@).insert(k@) =~= name_set(v@));
        }
    }
}

/// What a name in scope stands for.
#[derive(Clone, Copy)]
pub struct Binding {
    pub ty: Type,
    pub mutable: bool,
    pub is_view: bool,
}

/// The context of one checking pass: a function body (`ret` is its return type) or the activity.
pub struct Check {
    pub sig: Vec<(String, (Vec<Type>, Type))>,
    pub ret: Option<Type>,
    pub calls: Vec<String>,
    pub preferences: Vec<(String, Type)>,
    pub tables: Vec<(String, Vec<Column>)>,
    pub uses_key_value: bool,
    pub uses_sqlite: bool,
}

/// Whether a statement returns on every path through it.
pub open spec fn returns_stmt(s: Statement) -> bool
    decreases s,
{
    match s.kind {
        StatementKind::Return(_) => true,
        StatementKind::If { then_body, else_body, .. } => returns_block(then_body@) && else_body@.len() > 0
            && returns_block(else_body@),
        _ => false,
    }
}

/// Whether a block returns on every path: its last statement does.
pub open spec fn returns_block(b: Seq<Statement>) -> bool
    decreases b,
{
    b.len() > 0 && returns_stmt(b.last())
}

/// Some written value names `name`.
pub open spec fn names_value(values: Seq<(String, Expression)>, name: Seq<char>) -> bool {
    exists|i: int| 0 <= i < values.len() && (#[trigger] values[i]).0@ == name
}

/// A literal zero.
pub open spec fn literal_zero(x: Expression) -> bool {
    (x.kind matches ExpressionKind::Literal(Value::I32(z)) && z == 0)
}

/// The declared functions among called names: all but the built-in conversions.
pub open spec fn user_calls(s: Set<Seq<char>>) -> Set<Seq<char>> {
    s.filter(|n: Seq<char>| n != "valid_i32"@ && n != "i32"@ && n != "string"@)
}

/// The capabilities recorded from `before` to `after` are those the uses `u` hold.
pub open spec fn tracks(after: Check, before: Check, u: Set<Used>) -> bool {
    &&& after.uses_key_value == (before.uses_key_value || u.contains(Used::Capability(Capability::KeyValue)))
    &&& after.uses_sqlite == (before.uses_sqlite || u.contains(Used::Capability(Capability::Sqlite)))
}

/// The callees recorded from `before` to `after` are the declared functions `called` names.
pub open spec fn records(after: Check, before: Check, called: Set<Seq<char>>) -> bool {
    name_set(after.calls@) == name_set(before.calls@) + user_calls(called)
}

/// What the values of a query's writes use.
pub open spec fn values_used(v: Seq<(String, Expression)>) -> Set<Used>
    decreases v.len(),
{
    if v.len() == 0 {
        Set::empty()
    } else {
        values_used(v.drop_last()) + used_expr(v.last().1)
    }
}

/// A write into a table uses the database and what its values use, as far as capabilities go.
proof fn values_capabilities(t: Seq<char>, v: Seq<(String, Expression)>, c: Capability)
    ensures
        used_values(t, v).contains(Used::Capability(c)) == (c == Capability::Sqlite || values_used(v).contains(
            Used::Capability(c),
        )),
    decreases v.len(),
{
    if v.len() > 0 {
        values_capabilities(t, v.drop_last(), c);
        assert(v[v.len() - 1] == v.last());
    }
}

/// Nothing recorded: the callees stay.
proof fn records_none(a: Check)
    ensures
        records(a, a, Set::empty()),
{
    assert(user_calls(Set::<Seq<char>>::empty()) =~= Set::<Seq<char>>::empty());
    assert(name_set(a.calls@) + Set::<Seq<char>>::empty() =~= name_set(a.calls@));
}

/// Records compose.
proof fn records_chain(a: Check, b: Check, c: Check, x: Set<Seq<char>>, y: Set<Seq<char>>)
    requires
        records(b, a, x),
        records(c, b, y),
    ensures
        records(c, a, x + y),
{
    assert(user_calls(x + y) =~= user_calls(x) + user_calls(y));
    assert(name_set(c.calls@) =~= name_set(a.calls@) + user_calls(x + y));
}

/// Recording a call of a declared function adds its name.
proof fn records_callee(a: Check, b: Check, x: Set<Seq<char>>, n: Seq<char>)
    requires
        records(b, a, x),
        n != "valid_i32"@ && n != "i32"@ && n != "string"@,
    ensures
        name_set(b.calls@).insert(n) == name_set(a.calls@) + user_calls(set![n] + x),
{
    assert(user_calls(set![n] + x) =~= user_calls(x).insert(n));
    assert(name_set(b.calls@).insert(n) =~= name_set(a.calls@) + user_calls(set![n] + x));
}

/// The built-in conversions record nothing of their own.
proof fn records_builtin(x: Set<Seq<char>>, n: Seq<char>)
    requires
        n == "valid_i32"@ || n == "i32"@ || n == "string"@,
    ensures
        user_calls(set![n] + x) == user_calls(x),
{
    assert(user_calls(set![n] + x) =~= user_calls(x));
}

/// Index of the first column named `n`.
pub open spec fn column_index(cols: Seq<Column>, n: Seq<char>) -> Option<int>
    decreases cols.len(),
{
    if cols.len() == 0 {
        None
    } else {
        match column_index(cols.drop_last(), n) {
            Some(i) => Some(i),
            None => if cols.last().name@ == n {
                Some(cols.len() - 1)
            } else {
                None
            },
        }
    }
}

/// What checking reads and never changes: the function signatures, the return type of the
/// body checked (none for the activity), the preference types and the tables.
pub struct Context {
    pub sig: Seq<(String, (Vec<Type>, Type))>,
    pub ret: Option<Type>,
    pub preferences: Seq<(String, Type)>,
    pub tables: Seq<(String, Vec<Column>)>,
}

/// The outcome `r` of a check is the specified `m`: the same value, or a diagnostic with
/// its code and place.
pub open spec fn checked<T>(r: Result<T, Diagnostic>, m: Result<T, Fault>) -> bool {
    match (r, m) {
        (Ok(a), Ok(b)) => a == b,
        (Err(e), Err(f)) => e.code == f.0 && e.location == f.1,
        _ => false,
    }
}

/// The type `t` stands where `want` is expected, at `s`.
pub open spec fn expect(want: Type, t: Type, s: SourceSpan) -> Result<(), Fault> {
    if want == t {
        Ok(())
    } else {
        Err(("AIC1116", Some(s)))
    }
}

/// The type of a binary operation on operands of types `l` and `r`.
pub open spec fn binary_type(op: BinaryOp, l: Type, r: Type, left: Expression, right: Expression) -> Result<Type, Fault> {
    match op {
        BinaryOp::Add | BinaryOp::Subtract | BinaryOp::Multiply | BinaryOp::Divide | BinaryOp::Remainder => {
            if op == BinaryOp::Add && l == Type::String && r == Type::String {
                Ok(Type::String)
            } else if l != Type::I32 {
                Err(("AIC1116", Some(left.span)))
            } else if r != Type::I32 {
                Err(("AIC1116", Some(right.span)))
            } else if (op == BinaryOp::Divide || op == BinaryOp::Remainder) && literal_zero(right) {
                Err(("AIC1111", Some(right.span)))
            } else {
                Ok(Type::I32)
            }
        },
        BinaryOp::Less | BinaryOp::LessEqual | BinaryOp::Greater | BinaryOp::GreaterEqual => {
            if l != Type::I32 {
                Err(("AIC1116", Some(left.span)))
            } else if r != Type::I32 {
                Err(("AIC1116", Some(right.span)))
            } else {
                Ok(Type::Bool)
            }
        },
        BinaryOp::And | BinaryOp::Or => {
            if l != Type::Bool {
                Err(("AIC1116", Some(left.span)))
            } else if r != Type::Bool {
                Err(("AIC1116", Some(right.span)))
            } else {
                Ok(Type::Bool)
            }
        },
        BinaryOp::Equal | BinaryOp::NotEqual => {
            if l == r {
                Ok(Type::Bool)
            } else {
                Err(("AIC1116", Some(right.span)))
            }
        },
    }
}

/// The type of an expression in scope `env`, or the first fault met checking it.
pub open spec fn expr_type(x: Expression, env: Seq<(String, Binding)>, c: Context) -> Result<Type, Fault>
    decreases x, 0int,
{
    match x.kind {
        ExpressionKind::Literal(v) => Ok(value_type(v@)),
        ExpressionKind::Name(n) => match key_index(env, n@) {
            Some(i) => Ok(env[i].1.ty),
            None => Err(("AIC1107", Some(x.span))),
        },
        ExpressionKind::Unary { op, value } => {
            let t = if op == UnaryOp::Not {
                Type::Bool
            } else {
                Type::I32
            };
            match expr_type(*value, env, c) {
                Err(f) => Err(f),
                Ok(a) => match expect(t, a, value.span) {
                    Err(f) => Err(f),
                    Ok(_) => Ok(t),
                },
            }
        },
        ExpressionKind::Binary { op, left, right } => match expr_type(*left, env, c) {
            Err(f) => Err(f),
            Ok(l) => match expr_type(*right, env, c) {
                Err(f) => Err(f),
                Ok(r) => binary_type(op, l, r, *left, *right),
            },
        },
        ExpressionKind::Call { name, args } => if name@ == "valid_i32"@ || name@ == "i32"@ {
            let code: &'static str = if name@ == "valid_i32"@ {
                "AIC1127"
            } else {
                "AIC1128"
            };
            if args@.len() != 1 {
                Err((code, Some(x.span)))
            } else {
                match expr_type(args@[0], env, c) {
                    Err(f) => Err(f),
                    Ok(a) => if a == Type::String {
                        Ok(
                            if name@ == "valid_i32"@ {
                                Type::Bool
                            } else {
                                Type::I32
                            },
                        )
                    } else {
                        Err((code, Some(x.span)))
                    },
                }
            }
        } else if name@ == "string"@ {
            if args@.len() != 1 {
                Err(("AIC1112", Some(x.span)))
            } else {
                match expr_type(args@[0], env, c) {
                    Err(f) => Err(f),
                    Ok(a) => if a == Type::String {
                        Err(("AIC1113", Some(x.span)))
                    } else {
                        Ok(Type::String)
                    },
                }
            }
        } else {
            match key_index(c.sig, name@) {
                None => Err(("AIC1114", Some(x.span))),
                Some(k) => if c.sig[k].1.0@.len() != args@.len() {
                    Err(("AIC1115", Some(x.span)))
                } else {
                    match args_type(args@, c.sig[k].1.0@, env, c) {
                        Err(f) => Err(f),
                        Ok(_) => Ok(c.sig[k].1.1),
                    }
                },
            }
        },
        ExpressionKind::AndroidText { view } => if key_index(env, view@) matches Some(i) && env[i].1.is_view {
            Ok(Type::String)
        } else {
            Err(("AIC1105", Some(x.span)))
        },
        ExpressionKind::PreferenceGet { key } => if c.ret is Some {
            Err(("AIC1317", Some(x.span)))
        } else {
            match key_index(c.preferences, key@) {
                None => Err(("AIC1318", Some(x.span))),
                Some(i) => Ok(c.preferences[i].1),
            }
        },
        ExpressionKind::DatabaseInsert { table, values } => if c.ret is Some {
            Err(("AIC1317", Some(x.span)))
        } else {
            match key_index(c.tables, table@) {
                None => Err(("AIC1320", Some(x.span))),
                Some(i) => match values_type(c.tables[i].1@, values@, env, c) {
                    Err(f) => Err(f),
                    Ok(_) => if complete_insert(c.tables[i].1@, values@) {
                        Ok(Type::I32)
                    } else {
                        Err(("AIC1323", Some(x.span)))
                    },
                },
            }
        },
        ExpressionKind::DatabaseExists { table, id } => match read_type(table@, *id, x.span, env, c) {
            Err(f) => Err(f),
            Ok(_) => Ok(Type::Bool),
        },
        ExpressionKind::DatabaseGet { table, id, column, default } => match read_type(table@, *id, x.span, env, c) {
            Err(f) => Err(f),
            Ok(cols) => match column_index(cols, column@) {
                None => Err(("AIC1319", Some(x.span))),
                Some(j) => match expr_type(*default, env, c) {
                    Err(f) => Err(f),
                    Ok(a) => match expect(cols[j].ty, a, default.span) {
                        Err(f) => Err(f),
                        Ok(_) => Ok(cols[j].ty),
                    },
                },
            },
        },
    }
}

/// The binding of a view id.
pub open spec fn view_binding() -> Binding {
    Binding { ty: Type::String, mutable: false, is_view: true }
}

/// `n` names a declared view in scope `env`.
pub open spec fn is_view(env: Seq<(String, Binding)>, n: Seq<char>) -> bool {
    key_index(env, n) matches Some(i) && env[i].1.is_view
}

/// Checks a view id: it must name a declared view.
pub open spec fn view_check(env: Seq<(String, Binding)>, n: Seq<char>, s: SourceSpan) -> Result<(), Fault> {
    if is_view(env, n) {
        Ok(())
    } else {
        Err(("AIC1105", Some(s)))
    }
}

/// Declares a view id in scope `env`, giving the scope after it.
pub open spec fn declare(env: Seq<(String, Binding)>, id: String, s: SourceSpan) -> Result<Seq<(String, Binding)>, Fault> {
    if key_index(env, id@) is Some {
        Err(("AIC1104", Some(s)))
    } else {
        Ok(env.push((id, view_binding())))
    }
}

/// Checks an expression of type `want` in scope `env`.
pub open spec fn typed_as(x: Expression, want: Type, env: Seq<(String, Binding)>, c: Context) -> Result<(), Fault> {
    match expr_type(x, env, c) {
        Err(f) => Err(f),
        Ok(t) => expect(want, t, x.span),
    }
}

/// Checks a statement in scope `env`: whether it returns on every path and the scope after
/// it, or the first fault met.
pub open spec fn stmt_type(s: Statement, env: Seq<(String, Binding)>, c: Context) -> Result<(bool, Seq<(String, Binding)>), Fault>
    decreases s, 0int,
{
    match s.kind {
        StatementKind::Declare { mutable, name, ty, value } => match expr_type(value, env, c) {
            Err(f) => Err(f),
            Ok(a) => {
                let t = match ty {
                    Some(t) => t,
                    None => a,
                };
                if a != t {
                    Err(("AIC1116", Some(value.span)))
                } else if key_index(env, name@) is Some {
                    Err(("AIC1106", Some(s.span)))
                } else {
                    Ok((false, env.push((name, Binding { ty: t, mutable, is_view: false }))))
                }
            },
        },
        StatementKind::Assign { name, value } => match key_index(env, name@) {
            None => Err(("AIC1107", Some(s.span))),
            Some(i) => if !env[i].1.mutable {
                Err(("AIC1108", Some(s.span)))
            } else {
                match typed_as(value, env[i].1.ty, env, c) {
                    Err(f) => Err(f),
                    Ok(_) => Ok((false, env)),
                }
            },
        },
        StatementKind::Return(x) => match c.ret {
            None => Err(("AIC1109", Some(s.span))),
            Some(t) => match typed_as(x, t, env, c) {
                Err(f) => Err(f),
                Ok(_) => Ok((true, env)),
            },
        },
        StatementKind::If { condition, then_body, else_body } => match typed_as(condition, Type::Bool, env, c) {
            Err(f) => Err(f),
            Ok(_) => match block_type(then_body@, env, c) {
                Err(f) => Err(f),
                Ok((x, _)) => match block_type(else_body@, env, c) {
                    Err(f) => Err(f),
                    Ok((y, _)) => Ok((x && else_body@.len() > 0 && y, env)),
                },
            },
        },
        StatementKind::For { variable, start, end, body } => match typed_as(start, Type::I32, env, c) {
            Err(f) => Err(f),
            Ok(_) => match typed_as(end, Type::I32, env, c) {
                Err(f) => Err(f),
                Ok(_) => if key_index(env, variable@) is Some {
                    Err(("AIC1110", Some(s.span)))
                } else {
                    match block_type(body@, env.push((variable, Binding { ty: Type::I32, mutable: false, is_view: false })), c) {
                        Err(f) => Err(f),
                        Ok(_) => Ok((false, env)),
                    }
                },
            },
        },
        StatementKind::LinearLayout { id, .. } => match declare(env, id, s.span) {
            Err(f) => Err(f),
            Ok(n) => Ok((false, n)),
        },
        StatementKind::ScrollView { id } => match declare(env, id, s.span) {
            Err(f) => Err(f),
            Ok(n) => Ok((false, n)),
        },
        StatementKind::TextView { id, text } => declared_with(id, text, s.span, env, c),
        StatementKind::Button { id, text } => declared_with(id, text, s.span, env, c),
        StatementKind::EditText { id, hint } => declared_with(id, hint, s.span, env, c),
        StatementKind::TextInput { id, hint } => declared_with(id, hint, s.span, env, c),
        StatementKind::AddView { parent, child } => match view_check(env, parent@, s.span) {
            Err(f) => Err(f),
            Ok(_) => match view_check(env, child@, s.span) {
                Err(f) => Err(f),
                Ok(_) => Ok((false, env)),
            },
        },
        StatementKind::SetContentView { view } => match view_check(env, view@, s.span) {
            Err(f) => Err(f),
            Ok(_) => Ok((false, env)),
        },
        StatementKind::SetLayout { view, .. } => match view_check(env, view@, s.span) {
            Err(f) => Err(f),
            Ok(_) => Ok((false, env)),
        },
        StatementKind::SetTextColor { view, .. } => match view_check(env, view@, s.span) {
            Err(f) => Err(f),
            Ok(_) => Ok((false, env)),
        },
        StatementKind::SetBackgroundColor { view, .. } => match view_check(env, view@, s.span) {
            Err(f) => Err(f),
            Ok(_) => Ok((false, env)),
        },
        StatementKind::SetText { view, text } => match view_check(env, view@, s.span) {
            Err(f) => Err(f),
            Ok(_) => match typed_as(text, Type::String, env, c) {
                Err(f) => Err(f),
                Ok(_) => Ok((false, env)),
            },
        },
        StatementKind::PreferenceSet { key, value } => if c.ret is Some {
            Err(("AIC1317", Some(s.span)))
        } else {
            match key_index(c.preferences, key@) {
                None => Err(("AIC1318", Some(s.span))),
                Some(i) => match typed_as(value, c.preferences[i].1, env, c) {
                    Err(f) => Err(f),
                    Ok(_) => Ok((false, env)),
                },
            }
        },
        StatementKind::DatabaseUpdate { table, id, values } => match read_type(table@, id, s.span, env, c) {
            Err(f) => Err(f),
            Ok(cols) => match values_type(cols, values@, env, c) {
                Err(f) => Err(f),
                Ok(_) => Ok((false, env)),
            },
        },
        StatementKind::DatabaseDelete { table, id } => match read_type(table@, id, s.span, env, c) {
            Err(f) => Err(f),
            Ok(_) => Ok((false, env)),
        },
    }
}

/// Declares a view and checks its string text or hint in the scope that holds it.
pub open spec fn declared_with(id: String, text: Expression, s: SourceSpan, env: Seq<(String, Binding)>, c: Context)
    -> Result<(bool, Seq<(String, Binding)>), Fault>
{
    match declare(env, id, s) {
        Err(f) => Err(f),
        Ok(n) => match typed_as(text, Type::String, n, c) {
            Err(f) => Err(f),
            Ok(_) => Ok((false, n)),
        },
    }
}

/// Checks a block in scope `env`: no statement may follow one that returns on every path.
/// Gives whether the last statement returns on every path, and the scope after the block.
pub open spec fn block_type(b: Seq<Statement>, env: Seq<(String, Binding)>, c: Context) -> Result<(bool, Seq<(String, Binding)>), Fault>
    decreases b, 1int,
{
    if b.len() == 0 {
        Ok((false, env))
    } else {
        match block_type(b.drop_last(), env, c) {
            Err(f) => Err(f),
            Ok((r, n)) => if r {
                Err(("AIC1105", Some(b[b.len() - 1].span)))
            } else {
                stmt_type(b[b.len() - 1], n, c)
            },
        }
    }
}

/// Checks arguments, in order, against the parameter types `ps`.
pub open spec fn args_type(a: Seq<Expression>, ps: Seq<Type>, env: Seq<(String, Binding)>, c: Context) -> Result<(), Fault>
    decreases a, 1int,
{
    if a.len() == 0 {
        Ok(())
    } else {
        match args_type(a.drop_last(), ps, env, c) {
            Err(f) => Err(f),
            Ok(_) => match expr_type(a[a.len() - 1], env, c) {
                Err(f) => Err(f),
                Ok(t) => expect(ps[a.len() - 1], t, a[a.len() - 1].span),
            },
        }
    }
}

/// Checks, in order, the column values a query writes into a table with columns `cols`.
pub open spec fn values_type(cols: Seq<Column>, v: Seq<(String, Expression)>, env: Seq<(String, Binding)>, c: Context)
    -> Result<(), Fault>
    decreases v, 1int,
{
    if v.len() == 0 {
        Ok(())
    } else {
        match values_type(cols, v.drop_last(), env, c) {
            Err(f) => Err(f),
            Ok(_) => {
                let value = v[v.len() - 1].1;
                match column_index(cols, v[v.len() - 1].0@) {
                    None => Err(("AIC1319", Some(value.span))),
                    Some(j) => if cols[j].primary_key {
                        Err(("AIC1321", Some(value.span)))
                    } else if names_value(v.drop_last(), v[v.len() - 1].0@) {
                        Err(("AIC1322", Some(value.span)))
                    } else {
                        match expr_type(value, env, c) {
                            Err(f) => Err(f),
                            Ok(t) => expect(cols[j].ty, t, value.span),
                        }
                    },
                }
            },
        }
    }
}

/// An insert names every column that is not the primary key.
pub open spec fn complete_insert(cols: Seq<Column>, v: Seq<(String, Expression)>) -> bool {
    forall|j: int| 0 <= j < cols.len() && !(#[trigger] cols[j]).primary_key ==> names_value(v, cols[j].name@)
}

/// Checks a query's table and row id, giving the table's columns.
pub open spec fn read_type(table: Seq<char>, id: Expression, s: SourceSpan, env: Seq<(String, Binding)>, c: Context)
    -> Result<Seq<Column>, Fault>
    decreases id, 1int,
{
    if c.ret is Some {
        Err(("AIC1317", Some(s)))
    } else {
        match key_index(c.tables, table) {
            None => Err(("AIC1320", Some(s))),
            Some(i) => match expr_type(id, env, c) {
                Err(f) => Err(f),
                Ok(t) => match expect(Type::I32, t, id.span) {
                    Err(f) => Err(f),
                    Ok(_) => Ok(c.tables[i].1@),
                },
            },
        }
    }
}

impl Check {
    /// What this pass reads and never changes.
    pub open spec fn ctx(self) -> Context {
        Context { sig: self.sig@, ret: self.ret, preferences: self.preferences@, tables: self.tables@ }
    }

    /// Every recorded callee is a declared function.
    pub open spec fn calls_known(self) -> bool {
        forall|i: int| 0 <= i < self.calls@.len() ==> key_index(self.sig@, (#[trigger] self.calls@[i])@) is Some
    }

    /// The context is unchanged, persistence is not recorded inside functions, and callees stay known.
    pub open spec fn keeps(self, before: Check) -> bool {
        &&& self.sig == before.sig
        &&& self.ret == before.ret
        &&& self.preferences == before.preferences
        &&& self.tables == before.tables
        &&& (before.ret is Some ==> self.uses_key_value == before.uses_key_value && self.uses_sqlite
            == before.uses_sqlite)
        &&& (before.calls_known() ==> self.calls_known())
    }
}

/// The name of a type in diagnostics.
pub open spec fn type_spelling(t: Type) -> &'static str {
    match t {
        Type::I32 => "I32",
        Type::Bool => "Bool",
        Type::String => "String",
    }
}

fn type_label(t: Type) -> (r: &'static str)
    ensures
        r == type_spelling(t),
{
    match t {
        Type::I32 => "I32",
        Type::Bool => "Bool",
        Type::String => "String",
    }
}

/// Requires type `b` where type `a` is expected.
pub(crate) fn req(a: Type, b: Type, s: SourceSpan) -> (r: Result<(), Diagnostic>)
    ensures
        r is Ok <==> a == b,
        r matches Err(d) ==> d.code == "AIC1116" && d.location == Some(s),
{
    if a == b {
        Ok(())
    } else {
        let m = concat(&concat(&concat("type mismatch: expected ", type_label(a)), ", found "), type_label(b));
        Err(Diagnostic::at("AIC1116", s, m))
    }
}

/// Requires `n` to name a declared view.
pub(crate) fn view(e: &Vec<(String, Binding)>, n: &String, s: SourceSpan) -> (r: Result<(), Diagnostic>)
    ensures
        r is Ok <==> (key_index(e@, n@) matches Some(i) && e@[i].1.is_view),
        r matches Err(d) ==> d.code == "AIC1105" && d.location == Some(s),
{
    proof {
        key_index_bounds(e@, n@);
    }
    match find_key(e, n.as_str()) {
        Some(i) => if e[i].1.is_view {
            return Ok(());
        },
        None => {},
    }
    Err(Diagnostic::at("AIC1105", s, concat(&concat("unknown view id `", n.as_str()), "`")))
}

/// A copy of a scope.
pub(crate) fn copy_env(e: &Vec<(String, Binding)>) -> (r: Vec<(String, Binding)>)
    ensures
        r@ == e@,
{
    let mut out: Vec<(String, Binding)> = Vec::new();
    let mut i: usize = 0;
    while i < e.len()
        invariant
            i <= e@.len(),
            out@ == e@.take(i as int),
        decreases e@.len() - i,
    {
        out.push((e[i].0.clone(), e[i].1));
        i = i + 1;
        assert(out@ =~= e@.take(i as int));
    }
    assert(e@.take(i as int) =~= e@);
    out
}

/// Adds a binding unless the name is already bound; reports whether it was.
pub(crate) fn bind(e: &mut Vec<(String, Binding)>, name: &String, b: Binding) -> (existed: bool)
    ensures
        existed == (key_index(old(e)@, name@) is Some),
        !existed ==> final(e)@ == old(e)@.push((*name, b)),
        existed ==> final(e)@ == old(e)@,
{
    match find_key(e, name.as_str()) {
        Some(_) => true,
        None => {
            e.push((name.clone(), b));
            false
        },
    }
}

/// A copy of a list of types.
fn copy_types(v: &Vec<Type>) -> (r: Vec<Type>)
    ensures
        r@ == v@,
{
    let mut out: Vec<Type> = Vec::new();
    let mut i: usize = 0;
    while i < v.len()
        invariant
            i <= v@.len(),
            out@ == v@.take(i as int),
        decreases v@.len() - i,
    {
        out.push(v[i]);
        i = i + 1;
        assert(out@ =~= v@.take(i as int));
    }
    assert(v@.take(i as int) =~= v@);
    out
}

/// A copy of a table's columns, field for field.
fn copy_columns(v: &Vec<Column>) -> (r: Vec<Column>)
    ensures
        r@ == v@,
{
    let mut out: Vec<Column> = Vec::new();
    let mut i: usize = 0;
    while i < v.len()
        invariant
            i <= v@.len(),
            out@ == v@.take(i as int),
        decreases v@.len() - i,
    {
        let c = &v[i];
        out.push(Column {
            name: c.name.clone(),
            ty: c.ty,
            primary_key: c.primary_key,
            auto_increment: c.auto_increment,
            span: c.span,
        });
        i = i + 1;
        assert(out@ =~= v@.take(i as int));
    }
    assert(v@.take(i as int) =~= v@);
    out
}

/// The first column named `n`.
pub(crate) fn find_column(v: &Vec<Column>, n: &String) -> (r: Option<usize>)
    ensures
        r matches Some(i) ==> i < v@.len() && v@[i as int].name@ == n@,
        r is None ==> forall|j: int| 0 <= j < v@.len() ==> (#[trigger] v@[j]).name@ != n@,
        match r {
            Some(i) => column_index(v@, n@) == Some(i as int),
            None => column_index(v@, n@) is None,
        },
{
    let mut i: usize = 0;
    while i < v.len()
        invariant
            i <= v@.len(),
            forall|j: int| 0 <= j < i ==> (#[trigger] v@[j]).name@ != n@,
            column_index(v@.take(i as int), n@) is None,
        decreases v@.len() - i,
    {
        assert(v@.take(i + 1).drop_last() =~= v@.take(i as int));
        if str_eq(v[i].name.as_str(), n.as_str()) {
            proof {
                column_index_prefix(v@, i + 1, n@);
            }
            return Some(i);
        }
        i = i + 1;
    }
    assert(v@.take(i as int) =~= v@);
    None
}

proof fn column_index_prefix(m: Seq<Column>, i: int, k: Seq<char>)
    requires
        0 <= i <= m.len(),
        column_index(m.take(i), k) is Some,
    ensures
        column_index(m, k) == column_index(m.take(i), k),
    decreases m.len() - i,
{
    if i < m.len() {
        assert(m.take(i + 1).drop_last() =~= m.take(i));
        column_index_prefix(m, i + 1, k);
    } else {
        assert(m.take(i) =~= m);
    }
}

fn persistence_error(span: SourceSpan) -> (d: Diagnostic)
    ensures
        d.code == "AIC1317",
        d.location == Some(span),
{
    Diagnostic::at("AIC1317", span, owned("persistence is activity-only"))
}

fn unknown(what: &str, name: &String, code: &'static str, span: SourceSpan) -> (d: Diagnostic)
    ensures
        d.code == code,
        d.location == Some(span),
{
    Diagnostic::at(code, span, concat(&concat(&concat(what, " `"), name.as_str()), "`"))
}

impl Check {
    /// Checks a block; `Ok` tells whether it returns on every path.
    pub(crate) fn stmts(&mut self, b: &Vec<Statement>, e: &mut Vec<(String, Binding)>) -> (r: Result<bool, Diagnostic>)
        ensures
            final(self).keeps(*old(self)),
            r matches Ok(f) ==> f == returns_block(b@),
            match block_type(b@, old(e)@, old(self).ctx()) {
                Ok((f, n)) => r matches Ok(g) && g == f && final(e)@ == n,
                Err(f) => r matches Err(d) && d.code == f.0 && d.location == f.1,
            },
            r is Ok ==> records(*final(self), *old(self), calls_block(b@)),
            r is Ok && old(self).ret is None ==> tracks(*final(self), *old(self), used_block(b@)),
        decreases b, 1int,
    {
        let ghost c0 = *self;
        let ghost c = self.ctx();
        let ghost e0 = e@;
        let mut r = false;
        let mut i: usize = 0;
        assert(b@.take(0) =~= Seq::<Statement>::empty());
        proof {
            records_none(c0);
            assert(calls_block(b@.take(0)) == Set::<Seq<char>>::empty());
            assert(used_block(b@.take(0)) == Set::<Used>::empty());
        }
        while i < b.len()
            invariant
                records(*self, c0, calls_block(b@.take(i as int))),
                c0.ret is None ==> tracks(*self, c0, used_block(b@.take(i as int))),
                self.keeps(c0),
                c0 == *old(self),
                c == c0.ctx(),
                e0 == old(e)@,
                i <= b@.len(),
                i == 0 ==> !r,
                i > 0 ==> r == returns_stmt(b@[i - 1]),
                block_type(b@.take(i as int), e0, c) == Ok::<(bool, Seq<(String, Binding)>), Fault>((r, e@)),
            decreases b@.len() - i,
        {
            proof {
                vstd::std_specs::vec::axiom_vec_index_decreases(*b, i as int);
                assert(b@.take(i + 1).drop_last() =~= b@.take(i as int));
                assert(b@.take(i + 1)[i as int] == b@[i as int]);
                if block_type(b@.take(i + 1), e0, c) is Err {
                    block_type_prefix(b@, e0, c, i + 1);
                }
            }
            if r {
                return Err(Diagnostic::at("AIC1105", b[i].span, owned("unreachable statement")));
            }
            let ghost s1 = *self;
            r = self.stmt(&b[i], e)?;
            proof {
                records_chain(c0, s1, *self, calls_block(b@.take(i as int)), calls_stmt(b@[i as int]));
            }
            i = i + 1;
        }
        assert(b@.take(i as int) =~= b@);
        Ok(r)
    }

    /// Declares a view id in scope.
    fn declare_view(e: &mut Vec<(String, Binding)>, id: &String, span: SourceSpan) -> (r: Result<(), Diagnostic>)
        ensures
            r is Ok <==> key_index(old(e)@, id@) is None,
            r matches Err(d) ==> d.code == "AIC1104" && d.location == Some(span),
            r is Ok ==> final(e)@ == old(e)@.push((*id, view_binding())),
    {
        if bind(e, id, Binding { ty: Type::String, mutable: false, is_view: true }) {
            return Err(Diagnostic::at("AIC1104", span, owned("duplicate view id")));
        }
        Ok(())
    }

    /// Checks one statement; `Ok` tells whether it returns on every path.
    fn stmt(&mut self, s: &Statement, e: &mut Vec<(String, Binding)>) -> (r: Result<bool, Diagnostic>)
        ensures
            final(self).keeps(*old(self)),
            r matches Ok(f) ==> f == returns_stmt(*s),
            (s.kind is Return && r is Ok) ==> old(self).ret is Some,
            (s.kind is PreferenceSet || s.kind is DatabaseUpdate || s.kind is DatabaseDelete) && r is Ok
                ==> old(self).ret is None,
            match stmt_type(*s, old(e)@, old(self).ctx()) {
                Ok((f, n)) => r matches Ok(g) && g == f && final(e)@ == n,
                Err(f) => r matches Err(d) && d.code == f.0 && d.location == f.1,
            },
            r is Ok ==> records(*final(self), *old(self), calls_stmt(*s)),
            r is Ok && old(self).ret is None ==> tracks(*final(self), *old(self), used_stmt(*s)),
        decreases s, 1int,
    {
        proof {
            records_none(*self);
        }
        match &s.kind {
            StatementKind::Declare { mutable, name, ty, value } => {
                let a = self.expr(value, e)?;
                let t = match ty {
                    Some(t) => {
                        req(*t, a, value.span)?;
                        *t
                    },
                    None => a,
                };
                if bind(e, name, Binding { ty: t, mutable: *mutable, is_view: false }) {
                    return Err(unknown("duplicate local", name, "AIC1106", s.span));
                }
                Ok(false)
            },
            StatementKind::Assign { name, value } => {
                proof {
                    key_index_bounds(e@, name@);
                }
                let b = match find_key(e, name.as_str()) {
                    Some(i) => e[i].1,
                    None => return Err(unknown("undefined symbol", name, "AIC1107", s.span)),
                };
                if !b.mutable {
                    return Err(unknown("cannot assign to immutable", name, "AIC1108", s.span));
                }
                let a = self.expr(value, e)?;
                req(b.ty, a, value.span)?;
                Ok(false)
            },
            StatementKind::Return(x) => {
                let t = match self.ret {
                    Some(t) => t,
                    None => return Err(Diagnostic::at("AIC1109", s.span, owned("return is not allowed here"))),
                };
                let a = self.expr(x, e)?;
                req(t, a, x.span)?;
                Ok(true)
            },
            StatementKind::If { .. } | StatementKind::For { .. } => self.control(s, e),
            StatementKind::LinearLayout { id, .. } | StatementKind::ScrollView { id } => {
                Self::declare_view(e, id, s.span)?;
                Ok(false)
            },
            StatementKind::TextView { id, text } | StatementKind::Button { id, text } => {
                Self::declare_view(e, id, s.span)?;
                let a = self.expr(text, e)?;
                req(Type::String, a, text.span)?;
                Ok(false)
            },
            StatementKind::EditText { id, hint } | StatementKind::TextInput { id, hint } => {
                Self::declare_view(e, id, s.span)?;
                let a = self.expr(hint, e)?;
                req(Type::String, a, hint.span)?;
                Ok(false)
            },
            StatementKind::AddView { parent, child } => {
                view(e, parent, s.span)?;
                view(e, child, s.span)?;
                Ok(false)
            },
            StatementKind::SetContentView { view: v } | StatementKind::SetLayout { view: v, .. }
            | StatementKind::SetTextColor { view: v, .. } | StatementKind::SetBackgroundColor { view: v, .. } => {
                view(e, v, s.span)?;
                Ok(false)
            },
            StatementKind::SetText { view: v, text } => {
                view(e, v, s.span)?;
                let a = self.expr(text, e)?;
                req(Type::String, a, text.span)?;
                Ok(false)
            },
            StatementKind::PreferenceSet { .. } | StatementKind::DatabaseUpdate { .. } | StatementKind::DatabaseDelete { .. } => {
                self.persist(s, e)
            },
        }
    }

    /// Checks an `if` or a `for` statement.
    fn control(&mut self, s: &Statement, e: &mut Vec<(String, Binding)>) -> (r: Result<bool, Diagnostic>)
        requires
            s.kind is If || s.kind is For,
        ensures
            final(self).keeps(*old(self)),
            r matches Ok(f) ==> f == returns_stmt(*s),
            (s.kind is Return && r is Ok) ==> old(self).ret is Some,
            (s.kind is PreferenceSet || s.kind is DatabaseUpdate || s.kind is DatabaseDelete) && r is Ok
                ==> old(self).ret is None,
            match stmt_type(*s, old(e)@, old(self).ctx()) {
                Ok((f, n)) => r matches Ok(g) && g == f && final(e)@ == n,
                Err(f) => r matches Err(d) && d.code == f.0 && d.location == f.1,
            },
            r is Ok ==> records(*final(self), *old(self), calls_stmt(*s)),
            r is Ok && old(self).ret is None ==> tracks(*final(self), *old(self), used_stmt(*s)),
        decreases s, 0int,
    {
        match &s.kind {
            StatementKind::If { condition, then_body, else_body } => {
                let ghost s0 = *self;
                let a = self.expr(condition, e)?;
                req(Type::Bool, a, condition.span)?;
                let ghost s1 = *self;
                let mut e1 = copy_env(e);
                let x = self.stmts(then_body, &mut e1)?;
                let ghost s2 = *self;
                let mut e2 = copy_env(e);
                let y = self.stmts(else_body, &mut e2)?;
                proof {
                    records_chain(s0, s1, s2, calls_expr(*condition), calls_block(then_body@));
                    records_chain(s0, s2, *self, calls_expr(*condition) + calls_block(then_body@), calls_block(else_body@));
                }
                Ok(x && else_body.len() > 0 && y)
            },
            StatementKind::For { variable, start, end, body } => {
                let ghost s0 = *self;
                let a = self.expr(start, e)?;
                req(Type::I32, a, start.span)?;
                let ghost s1 = *self;
                let a = self.expr(end, e)?;
                req(Type::I32, a, end.span)?;
                let ghost s2 = *self;
                let mut n = copy_env(e);
                if bind(&mut n, variable, Binding { ty: Type::I32, mutable: false, is_view: false }) {
                    return Err(Diagnostic::at("AIC1110", s.span, owned("loop variable shadows a symbol")));
                }
                self.stmts(body, &mut n)?;
                proof {
                    records_chain(s0, s1, s2, calls_expr(*start), calls_expr(*end));
                    records_chain(s0, s2, *self, calls_expr(*start) + calls_expr(*end), calls_block(body@));
                }
                Ok(false)
            },
            _ => Ok(false),
        }
    }

    /// Checks a preference write or a database update or delete.
    fn persist(&mut self, s: &Statement, e: &mut Vec<(String, Binding)>) -> (r: Result<bool, Diagnostic>)
        requires
            s.kind is PreferenceSet || s.kind is DatabaseUpdate || s.kind is DatabaseDelete,
        ensures
            final(self).keeps(*old(self)),
            r matches Ok(f) ==> f == returns_stmt(*s),
            (s.kind is Return && r is Ok) ==> old(self).ret is Some,
            (s.kind is PreferenceSet || s.kind is DatabaseUpdate || s.kind is DatabaseDelete) && r is Ok
                ==> old(self).ret is None,
            match stmt_type(*s, old(e)@, old(self).ctx()) {
                Ok((f, n)) => r matches Ok(g) && g == f && final(e)@ == n,
                Err(f) => r matches Err(d) && d.code == f.0 && d.location == f.1,
            },
            r is Ok ==> records(*final(self), *old(self), calls_stmt(*s)),
            r is Ok && old(self).ret is None ==> tracks(*final(self), *old(self), used_stmt(*s)),
        decreases s, 0int,
    {
        match &s.kind {
            StatementKind::PreferenceSet { key, value } => {
                if self.ret.is_some() {
                    return Err(persistence_error(s.span));
                }
                proof {
                    key_index_bounds(self.preferences@, key@);
                }
                let expected = match find_key(&self.preferences, key.as_str()) {
                    Some(i) => self.preferences[i].1,
                    None => return Err(unknown("unknown preference key", key, "AIC1318", s.span)),
                };
                let a = self.expr(value, e)?;
                req(expected, a, value.span)?;
                self.uses_key_value = true;
                proof {
                    assert(name_set(self.calls@) == name_set(old(self).calls@) + user_calls(calls_expr(*value)));
                }
                Ok(false)
            },
            StatementKind::DatabaseUpdate { table, id, values } => {
                let ghost s0 = *self;
                let columns = self.database_read(table, id, e, s.span)?;
                let ghost s1 = *self;
                self.database_values(&columns, values, e, false, s.span)?;
                proof {
                    records_chain(s0, s1, *self, calls_expr(*id), calls_values(values@));
                    assert(calls_expr(*id) + calls_values(values@) =~= calls_stmt(*s));
                    values_capabilities(table@, values@, Capability::KeyValue);
                    values_capabilities(table@, values@, Capability::Sqlite);
                }
                Ok(false)
            },
            StatementKind::DatabaseDelete { table, id } => {
                self.database_read(table, id, e, s.span)?;
                Ok(false)
            },
            _ => Ok(false),
        }
    }

    /// Checks an expression and gives its type.
    #[verifier::loop_isolation(false)]
    pub(crate) fn expr(&mut self, x: &Expression, e: &Vec<(String, Binding)>) -> (r: Result<Type, Diagnostic>)
        ensures
            final(self).keeps(*old(self)),
            checked(r, expr_type(*x, e@, old(self).ctx())),
            r is Ok ==> records(*final(self), *old(self), calls_expr(*x)),
            r is Ok && old(self).ret is None ==> tracks(*final(self), *old(self), used_expr(*x)),
        decreases x, 2int,
    {
        proof {
            reveal_strlit("valid_i32");
            reveal_strlit("i32");
            reveal_strlit("string");
        }
        let ghost c = self.ctx();
        let ghost s0 = *self;
        proof {
            records_none(s0);
        }
        match &x.kind {
            ExpressionKind::Literal(v) => Ok(v.ty()),
            ExpressionKind::Name(n) => {
                proof {
                    key_index_bounds(e@, n@);
                }
                match find_key(e, n.as_str()) {
                    Some(i) => Ok(e[i].1.ty),
                    None => Err(unknown("undefined symbol", n, "AIC1107", x.span)),
                }
            },
            ExpressionKind::Unary { op, value } => {
                let t = if *op == UnaryOp::Not { Type::Bool } else { Type::I32 };
                let a = self.expr(value, e)?;
                req(t, a, value.span)?;
                Ok(t)
            },
            ExpressionKind::Binary { op, left, right } => {
                let l = self.expr(left, e)?;
                let ghost s1 = *self;
                let r = self.expr(right, e)?;
                proof {
                    records_chain(s0, s1, *self, calls_expr(**left), calls_expr(**right));
                }
                match op {
                    BinaryOp::Add | BinaryOp::Subtract | BinaryOp::Multiply | BinaryOp::Divide | BinaryOp::Remainder => {
                        if *op == BinaryOp::Add && l == Type::String && r == Type::String {
                            return Ok(Type::String);
                        }
                        req(Type::I32, l, left.span)?;
                        req(Type::I32, r, right.span)?;
                        if *op == BinaryOp::Divide || *op == BinaryOp::Remainder {
                            let zero = match &right.kind {
                                ExpressionKind::Literal(Value::I32(z)) => *z == 0,
                                _ => false,
                            };
                            if zero {
                                return Err(Diagnostic::at("AIC1111", right.span, owned("division or remainder by zero")));
                            }
                        }
                        Ok(Type::I32)
                    },
                    BinaryOp::Less | BinaryOp::LessEqual | BinaryOp::Greater | BinaryOp::GreaterEqual => {
                        req(Type::I32, l, left.span)?;
                        req(Type::I32, r, right.span)?;
                        Ok(Type::Bool)
                    },
                    BinaryOp::And | BinaryOp::Or => {
                        req(Type::Bool, l, left.span)?;
                        req(Type::Bool, r, right.span)?;
                        Ok(Type::Bool)
                    },
                    BinaryOp::Equal | BinaryOp::NotEqual => {
                        req(l, r, right.span)?;
                        Ok(Type::Bool)
                    },
                }
            },
            ExpressionKind::Call { name, args } => self.call(x, name, args, e),
            ExpressionKind::AndroidText { view: n } => {
                view(e, n, x.span)?;
                Ok(Type::String)
            },
            ExpressionKind::PreferenceGet { .. } | ExpressionKind::DatabaseInsert { .. }
            | ExpressionKind::DatabaseExists { .. } | ExpressionKind::DatabaseGet { .. } => self.query(x, e),
        }
    }

    /// Checks a preference read or a database query.
    #[verifier::loop_isolation(false)]
    fn query(&mut self, x: &Expression, e: &Vec<(String, Binding)>) -> (r: Result<Type, Diagnostic>)
        requires
            x.kind is PreferenceGet || x.kind is DatabaseInsert || x.kind is DatabaseExists || x.kind is DatabaseGet,
        ensures
            final(self).keeps(*old(self)),
            checked(r, expr_type(*x, e@, old(self).ctx())),
            r is Ok ==> records(*final(self), *old(self), calls_expr(*x)),
            r is Ok && old(self).ret is None ==> tracks(*final(self), *old(self), used_expr(*x)),
        decreases x, 1int,
    {
        let ghost c = self.ctx();
        let ghost s0 = *self;
        proof {
            records_none(s0);
        }
        match &x.kind {
            ExpressionKind::PreferenceGet { key } => {
                if self.ret.is_some() {
                    return Err(persistence_error(x.span));
                }
                proof {
                    key_index_bounds(self.preferences@, key@);
                }
                let t = match find_key(&self.preferences, key.as_str()) {
                    Some(i) => self.preferences[i].1,
                    None => return Err(unknown("unknown preference key", key, "AIC1318", x.span)),
                };
                self.uses_key_value = true;
                Ok(t)
            },
            ExpressionKind::DatabaseInsert { table, values } => {
                if self.ret.is_some() {
                    return Err(persistence_error(x.span));
                }
                self.uses_sqlite = true;
                proof {
                    key_index_bounds(self.tables@, table@);
                }
                let columns = match find_key(&self.tables, table.as_str()) {
                    Some(i) => copy_columns(&self.tables[i].1),
                    None => return Err(unknown("unknown table", table, "AIC1320", x.span)),
                };
                self.database_values(&columns, values, e, true, x.span)?;
                proof {
                    values_capabilities(table@, values@, Capability::KeyValue);
                    values_capabilities(table@, values@, Capability::Sqlite);
                }
                Ok(Type::I32)
            },
            ExpressionKind::DatabaseExists { table, id } => {
                self.database_read(table, id, e, x.span)?;
                Ok(Type::Bool)
            },
            ExpressionKind::DatabaseGet { table, id, column, default } => {
                let columns = self.database_read(table, id, e, x.span)?;
                let ghost s1 = *self;
                let t = match find_column(&columns, column) {
                    Some(i) => columns[i].ty,
                    None => return Err(unknown("unknown column", column, "AIC1319", x.span)),
                };
                let a = self.expr(default, e)?;
                proof {
                    records_chain(s0, s1, *self, calls_expr(**id), calls_expr(**default));
                }
                req(t, a, default.span)?;
                Ok(t)
            },
            _ => Ok(Type::I32),
        }
    }

    /// Checks a call: of a conversion, of `string`, or of a declared function.
    #[verifier::loop_isolation(false)]
    fn call(&mut self, x: &Expression, name: &String, args: &Vec<Expression>, e: &Vec<(String, Binding)>)
        -> (r: Result<Type, Diagnostic>)
        requires
            x.kind == (ExpressionKind::Call { name: *name, args: *args }),
        ensures
            final(self).keeps(*old(self)),
            checked(r, expr_type(*x, e@, old(self).ctx())),
            r is Ok ==> records(*final(self), *old(self), calls_expr(*x)),
            r is Ok && old(self).ret is None ==> tracks(*final(self), *old(self), used_expr(*x)),
        decreases x, 1int,
    {
        proof {
            reveal_strlit("valid_i32");
            reveal_strlit("i32");
            reveal_strlit("string");
        }
        let ghost c = self.ctx();
        let ghost s0 = *self;
        proof {
            records_none(s0);
            if args@.len() == 1 {
                let d = args@.drop_last();
                assert(d.len() == 0);
                assert(calls_args(d) == Set::<Seq<char>>::empty());
                assert(used_args(d) == Set::<Used>::empty());
                assert(calls_args(args@) =~= calls_expr(args@[0]));
                assert(used_args(args@) =~= used_expr(args@[0]));
            }
        }
        if is_word(name, "valid_i32") || is_word(name, "i32") {
            proof {
                records_builtin(calls_args(args@), name@);
            }
            let valid = is_word(name, "valid_i32");
            let ok = if args.len() != 1 {
                false
            } else {
                proof {
                    vstd::std_specs::vec::axiom_vec_index_decreases(*args, 0);
                }
                self.expr(&args[0], e)? == Type::String
            };
            if !ok {
                if valid {
                    return Err(Diagnostic::at("AIC1127", x.span, owned("valid_i32() expects one string")));
                }
                return Err(Diagnostic::at("AIC1128", x.span, owned("i32() expects one validated string")));
            }
            return Ok(if valid { Type::Bool } else { Type::I32 });
        }
        if is_word(name, "string") {
            proof {
                records_builtin(calls_args(args@), name@);
            }
            if args.len() != 1 {
                return Err(Diagnostic::at("AIC1112", x.span, owned("string() expects one argument")));
            }
            proof {
                vstd::std_specs::vec::axiom_vec_index_decreases(*args, 0);
            }
            let t = self.expr(&args[0], e)?;
            if t == Type::String {
                return Err(Diagnostic::at("AIC1113", x.span, owned("string() accepts i32 or bool")));
            }
            return Ok(Type::String);
        }
        proof {
            key_index_bounds(self.sig@, name@);
        }
        let k = match find_key(&self.sig, name.as_str()) {
            Some(k) => k,
            None => return Err(unknown("undefined function", name, "AIC1114", x.span)),
        };
        let ps = copy_types(&self.sig[k].1.0);
        let result = self.sig[k].1.1;
        if ps.len() != args.len() {
            return Err(Diagnostic::at("AIC1115", x.span, owned("wrong argument count")));
        }
        let ghost c0 = *self;
        let mut i: usize = 0;
        assert(args@.take(0) =~= Seq::<Expression>::empty());
        assert(used_args(args@.take(0)) =~= Set::<Used>::empty());
        while i < args.len()
            invariant
                self.keeps(c0),
                c0.keeps(*old(self)),
                i <= args@.len(),
                ps@.len() == args@.len(),
                args_type(args@.take(i as int), ps@, e@, c) == Ok::<(), Fault>(()),
                records(*self, s0, calls_args(args@.take(i as int))),
                s0.ret is None ==> tracks(*self, s0, used_args(args@.take(i as int))),
            decreases args@.len() - i,
        {
            proof {
                vstd::std_specs::vec::axiom_vec_index_decreases(*args, i as int);
                assert(args@.take(i + 1).drop_last() =~= args@.take(i as int));
                assert(args@.take(i + 1)[i as int] == args@[i as int]);
                if args_type(args@.take(i + 1), ps@, e@, c) is Err {
                    args_type_prefix(args@, ps@, e@, c, i + 1);
                }
            }
            let ghost s1 = *self;
            let q = self.expr(&args[i], e)?;
            proof {
                records_chain(s0, s1, *self, calls_args(args@.take(i as int)), calls_expr(args@[i as int]));
            }
            req(ps[i], q, args[i].span)?;
            i = i + 1;
        }
        assert(args@.take(i as int) =~= args@);
        let ghost s2 = *self;
        add_name(&mut self.calls, name);
        proof {
            records_callee(s0, s2, calls_args(args@), name@);
        }
        Ok(result)
    
    }

    /// Checks the row id of a query on `table` and gives the table's columns.
    fn database_read(&mut self, table: &String, id: &Expression, e: &Vec<(String, Binding)>, span: SourceSpan)
        -> (r: Result<Vec<Column>, Diagnostic>)
        ensures
            final(self).keeps(*old(self)),
            r is Ok ==> old(self).ret is None,
            match read_type(table@, *id, span, e@, old(self).ctx()) {
                Ok(cols) => r matches Ok(v) && v@ == cols,
                Err(f) => r matches Err(d) && d.code == f.0 && d.location == f.1,
            },
            r is Ok ==> records(*final(self), *old(self), calls_expr(*id)),
            r is Ok && old(self).ret is None ==> tracks(
                *final(self),
                *old(self),
                used_expr(*id).insert(Used::Capability(Capability::Sqlite)),
            ),
        decreases id, 3int,
    {
        if self.ret.is_some() {
            return Err(persistence_error(span));
        }
        proof {
            key_index_bounds(self.tables@, table@);
        }
        let columns = match find_key(&self.tables, table.as_str()) {
            Some(i) => copy_columns(&self.tables[i].1),
            None => return Err(unknown("unknown table", table, "AIC1320", span)),
        };
        let a = self.expr(id, e)?;
        req(Type::I32, a, id.span)?;
        self.uses_sqlite = true;
        Ok(columns)
    }

    /// Checks the column values written by a query; an insert must give every non-key column.
    fn database_values(&mut self, columns: &Vec<Column>, values: &Vec<(String, Expression)>,
        e: &Vec<(String, Binding)>, insert: bool, span: SourceSpan) -> (r: Result<(), Diagnostic>)
        ensures
            final(self).keeps(*old(self)),
            match values_type(columns@, values@, e@, old(self).ctx()) {
                Err(f) => r matches Err(d) && d.code == f.0 && d.location == f.1,
                Ok(_) => if insert && !complete_insert(columns@, values@) {
                    r matches Err(d) && d.code == "AIC1323" && d.location == Some(span)
                } else {
                    r is Ok
                },
            },
            r is Ok ==> records(*final(self), *old(self), calls_values(values@)),
            r is Ok && old(self).ret is None ==> tracks(*final(self), *old(self), values_used(values@)),
        decreases values, 0int,
    {
        let ghost c0 = *self;
        let ghost c = self.ctx();
        let mut seen: Vec<String> = Vec::new();
        let mut i: usize = 0;
        assert(values@.take(0) =~= Seq::<(String, Expression)>::empty());
        proof {
            records_none(c0);
            assert(values_used(values@.take(0)) =~= Set::<Used>::empty());
        }
        while i < values.len()
            invariant
                self.keeps(c0),
                c0 == *old(self),
                c == c0.ctx(),
                i <= values@.len(),
                seen@.len() == i,
                forall|k: int| 0 <= k < i ==> (#[trigger] seen@[k])@ == values@[k].0@,
                values_type(columns@, values@.take(i as int), e@, c) == Ok::<(), Fault>(()),
                records(*self, c0, calls_values(values@.take(i as int))),
                c0.ret is None ==> tracks(*self, c0, values_used(values@.take(i as int))),
            decreases values@.len() - i,
        {
            let name = &values[i].0;
            let value = &values[i].1;
            proof {
                vstd::std_specs::vec::axiom_vec_index_decreases(*values, i as int);
                assert(values@.take(i + 1).drop_last() =~= values@.take(i as int));
                assert(values@.take(i + 1)[i as int] == values@[i as int]);
                if values_type(columns@, values@.take(i + 1), e@, c) is Err {
                    values_type_prefix(columns@, values@, e@, c, i + 1);
                }
            }
            let j = match find_column(columns, name) {
                Some(j) => j,
                None => return Err(unknown("unknown column", name, "AIC1319", value.span)),
            };
            if columns[j].primary_key {
                return Err(Diagnostic::at("AIC1321", value.span, owned("primary key cannot be written")));
            }
            let dup = contains_name(&seen, name.as_str());
            proof {
                if dup {
                    let k = choose|k: int| 0 <= k < seen@.len() && (#[trigger] seen@[k])@ == name@;
                    assert(values@.take(i as int)[k].0@ == name@);
                } else {
                    assert forall|k: int| 0 <= k < i implies (#[trigger] values@.take(i as int)[k]).0@ != name@ by {
                        assert(seen@[k]@ == values@[k].0@);
                    }
                }
            }
            if dup {
                return Err(Diagnostic::at("AIC1322", value.span, owned("duplicate query column")));
            }
            seen.push(name.clone());
            let ghost s1 = *self;
            let a = self.expr(value, e)?;
            proof {
                records_chain(c0, s1, *self, calls_values(values@.take(i as int)), calls_expr(values@[i as int].1));
                assert(values@.take(i + 1).last() == values@[i as int]);
            }
            req(columns[j].ty, a, value.span)?;
            i = i + 1;
        }
        assert(values@.take(i as int) =~= values@);
        if insert {
            let mut j: usize = 0;
            while j < columns.len()
                invariant
                    self.keeps(c0),
                    c0 == *old(self),
                    j <= columns@.len(),
                    insert,
                    c == c0.ctx(),
                    values_type(columns@, values@, e@, c) == Ok::<(), Fault>(()),
                    seen@.len() == values@.len(),
                    forall|k: int| 0 <= k < values@.len() ==> (#[trigger] seen@[k])@ == values@[k].0@,
                    forall|t: int| 0 <= t < j && !(#[trigger] columns@[t]).primary_key
                        ==> names_value(values@, columns@[t].name@),
                decreases columns@.len() - j,
            {
                if !columns[j].primary_key && !contains_name(&seen, columns[j].name.as_str()) {
                    proof {
                        if names_value(values@, columns@[j as int].name@) {
                            let k = choose|k: int| 0 <= k < values@.len() && (#[trigger] values@[k]).0@ == columns@[j as int].name@;
                            assert(seen@[k]@ == columns@[j as int].name@);
                        }
                        assert(!complete_insert(columns@, values@));
                    }
                    return Err(Diagnostic::at("AIC1323", span, owned("insert must provide every non-primary column")));
                }
                proof {
                    if !columns@[j as int].primary_key {
                        let k = choose|k: int| 0 <= k < seen@.len() && (#[trigger] seen@[k])@ == columns@[j as int].name@;
                        assert(values@[k].0@ == columns@[j as int].name@);
                    }
                }
                j = j + 1;
            }
        }
        Ok(())
    }
}

/// A prefix of a block that fails makes the whole block fail the same way.
proof fn block_type_prefix(b: Seq<Statement>, env: Seq<(String, Binding)>, c: Context, i: int)
    requires
        0 <= i <= b.len(),
        block_type(b.take(i), env, c) is Err,
    ensures
        block_type(b, env, c) == block_type(b.take(i), env, c),
    decreases b.len() - i,
{
    if i < b.len() {
        assert(b.take(i + 1).drop_last() =~= b.take(i));
        block_type_prefix(b, env, c, i + 1);
    } else {
        assert(b.take(i) =~= b);
    }
}

/// A prefix of the arguments that fails makes the whole list fail the same way.
proof fn args_type_prefix(a: Seq<Expression>, ps: Seq<Type>, env: Seq<(String, Binding)>, c: Context, i: int)
    requires
        0 <= i <= a.len(),
        args_type(a.take(i), ps, env, c) is Err,
    ensures
        args_type(a, ps, env, c) == args_type(a.take(i), ps, env, c),
    decreases a.len() - i,
{
    if i < a.len() {
        assert(a.take(i + 1).drop_last() =~= a.take(i));
        args_type_prefix(a, ps, env, c, i + 1);
    } else {
        assert(a.take(i) =~= a);
    }
}

/// A prefix of the written values that fails makes the whole list fail the same way.
proof fn values_type_prefix(cols: Seq<Column>, v: Seq<(String, Expression)>, env: Seq<(String, Binding)>, c: Context, i: int)
    requires
        0 <= i <= v.len(),
        values_type(cols, v.take(i), env, c) is Err,
    ensures
        values_type(cols, v, env, c) == values_type(cols, v.take(i), env, c),
    decreases v.len() - i,
{
    if i < v.len() {
        assert(v.take(i + 1).drop_last() =~= v.take(i));
        values_type_prefix(cols, v, env, c, i + 1);
    } else {
        assert(v.take(i) =~= v);
    }
}

} // verus!
