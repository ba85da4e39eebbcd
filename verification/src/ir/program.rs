//! Whole-program validation: from a syntax tree to a verified program.
use vstd::prelude::*;
use crate::ir::{value_type, Diagnostic, Fault, SourceSpan, Statement, StatementKind, Type, Capability, Column, Function, Activity,
    Program, SyntaxProgram, SyntaxFunction, SyntaxActivity, Preference, Parameter, State};
use crate::ir::check::{Binding, Check, Context, key_index, key_index_bounds, find_key, contains_name, add_name,
    returns_block, req, bind, copy_env, find_column, block_type, typed_as};
use crate::ir::graph::{cycles, acyclic, edges_in_range};
use crate::ir::lex::{word_char, tokens};
use crate::ir::check::{records, tracks, user_calls};
use crate::opt::{Used, used_state, used_block, used_handlers, calls_block, name_set};
use crate::ir::parse::{parse, located};
use crate::text::{owned, concat};

verus! {

/// A character that may begin a segment of an Android package name.
pub open spec fn package_start(c: char) -> bool {
    c == '_' || ('a' <= c && c <= 'z')
}

/// Two or more dot-separated segments, each starting with `_` or a lower-case letter and
/// made of `_` and ASCII letters and digits.
pub open spec fn valid_package(p: Seq<char>) -> bool {
    &&& p.len() > 0
    &&& package_start(p[0])
    &&& exists|i: int| 0 <= i < p.len() && p[i] == '.'
    &&& forall|i: int| 0 <= i < p.len() ==> (#[trigger] p[i] == '.' ==> i + 1 < p.len() && package_start(p[i + 1]))
        && (p[i] == '.' || word_char(p[i]))
}

/// Number of `set_content_view` calls in a block.
pub open spec fn content_views(b: Seq<Statement>) -> nat
    decreases b.len(),
{
    if b.len() == 0 {
        0
    } else {
        content_views(b.drop_last()) + if b.last().kind is SetContentView { 1nat } else { 0nat }
    }
}

/// The capability `c` is declared.
pub open spec fn declared(caps: Seq<(Capability, SourceSpan)>, c: Capability) -> bool {
    exists|k: int| 0 <= k < caps.len() && (#[trigger] caps[k]).0 == c
}

/// The declared capabilities in their order, each once.
pub open spec fn capability_set(caps: Seq<(Capability, SourceSpan)>) -> Seq<Capability> {
    (if declared(caps, Capability::KeyValue) { seq![Capability::KeyValue] } else { Seq::empty() })
        + (if declared(caps, Capability::Sqlite) { seq![Capability::Sqlite] } else { Seq::empty() })
}

/// The function names are pairwise distinct.
pub open spec fn distinct_names(fs: Seq<Function>) -> bool {
    forall|a: int, b: int| 0 <= a < b < fs.len() ==> (#[trigger] fs[a]).name@ != (#[trigger] fs[b]).name@
}

/// Two declarations of the same capability.
pub open spec fn repeated_capability(caps: Seq<(Capability, SourceSpan)>) -> bool {
    exists|a: int, b: int| 0 <= a < b < caps.len() && (#[trigger] caps[a]).0 == (#[trigger] caps[b]).0
}

/// No two functions of the syntax tree share a name.
pub open spec fn syntax_names_distinct(fs: Seq<SyntaxFunction>) -> bool {
    forall|a: int, b: int| 0 <= a < b < fs.len() ==> (#[trigger] fs[a]).name@ != (#[trigger] fs[b]).name@
}

/// What validation keeps of the syntax tree, and what it establishes of it.
pub open spec fn validated(s: SyntaxProgram, p: Program) -> bool {
    &&& p.version == s.version
    &&& p.label == s.label
    &&& p.package == s.package
    &&& p.preferences == s.preferences
    &&& p.database == s.database
    &&& p.activity.name == s.activity.name
    &&& p.activity.state == s.activity.state
    &&& p.activity.on_create == s.activity.on_create
    &&& p.activity.on_click == s.activity.on_click
    &&& p.functions@.len() == s.functions@.len()
    &&& forall|i: int| 0 <= i < s.functions@.len() ==> {
        let f = #[trigger] p.functions@[i];
        let g = s.functions@[i];
        f.name == g.name && f.params == g.params && f.return_type == g.return_type && f.body == g.body
            && f.span == g.span
    }
    &&& p.capabilities@ == capability_set(s.capabilities@)
    &&& valid_package(p.package@)
    &&& content_views(p.activity.on_create@) == 1
    &&& distinct_names(p.functions@)
    &&& forall|i: int| 0 <= i < p.functions@.len() ==> returns_block((#[trigger] p.functions@[i]).body@)
}

/// Each preference default has the declared type, and keys are distinct.
pub open spec fn preferences_valid(ps: Seq<Preference>) -> bool {
    &&& forall|i: int| 0 <= i < ps.len() ==> (#[trigger] ps[i]).ty == value_type(ps[i].default@)
    &&& forall|a: int, b: int| 0 <= a < b < ps.len() ==> (#[trigger] ps[a]).name@ != (#[trigger] ps[b]).name@
}

/// The number of primary-key columns.
pub open spec fn key_count(cols: Seq<Column>) -> nat
    decreases cols.len(),
{
    if cols.len() == 0 {
        0
    } else {
        key_count(cols.drop_last()) + if cols.last().primary_key { 1nat } else { 0nat }
    }
}

/// A table's columns: each primary key an auto-increment `i32`, auto-increment only on the
/// primary key, distinct names, and exactly one primary key.
pub open spec fn columns_valid(cols: Seq<Column>) -> bool {
    &&& forall|i: int| 0 <= i < cols.len() ==> ((#[trigger] cols[i]).primary_key ==> cols[i].ty == Type::I32
        && cols[i].auto_increment) && (cols[i].auto_increment ==> cols[i].primary_key)
    &&& forall|a: int, b: int| 0 <= a < b < cols.len() ==> (#[trigger] cols[a]).name@ != (#[trigger] cols[b]).name@
    &&& key_count(cols) == 1
}

/// The database schema: version 1, valid columns in each table, distinct table names.
pub open spec fn schema_valid(db: Option<crate::ir::Database>) -> bool {
    match db {
        None => true,
        Some(d) => {
            &&& d.version == 1
            &&& forall|i: int| 0 <= i < d.tables@.len() ==> columns_valid((#[trigger] d.tables@[i]).columns@)
            &&& forall|a: int, b: int| 0 <= a < b < d.tables@.len() ==> (#[trigger] d.tables@[a]).name@
                != (#[trigger] d.tables@[b]).name@
        },
    }
}

/// The parameter types, in order.
pub open spec fn types_of(ps: Seq<Parameter>) -> Seq<Type> {
    ps.map_values(|p: Parameter| p.ty)
}

/// `sig` lists each function's name, parameter types and return type, in order.
pub open spec fn signatures_of(sig: Seq<(String, (Vec<Type>, Type))>, fs: Seq<SyntaxFunction>) -> bool {
    &&& sig.len() == fs.len()
    &&& forall|k: int| 0 <= k < fs.len() ==> {
        &&& (#[trigger] sig[k]).0@ == fs[k].name@
        &&& sig[k].1.0@ == types_of(fs[k].params@)
        &&& sig[k].1.1 == fs[k].return_type
    }
}

/// `v` lists each preference key with its type, in order.
pub open spec fn preferences_of(v: Seq<(String, Type)>, ps: Seq<Preference>) -> bool {
    &&& v.len() == ps.len()
    &&& forall|k: int| 0 <= k < ps.len() ==> (#[trigger] v[k]).0 == ps[k].name && v[k].1 == ps[k].ty
}

/// `v` lists each table of the database with its columns, in order.
pub open spec fn tables_of(v: Seq<(String, Vec<Column>)>, db: Option<crate::ir::Database>) -> bool {
    match db {
        None => v.len() == 0,
        Some(d) => {
            &&& v.len() == d.tables@.len()
            &&& forall|k: int| 0 <= k < v.len() ==> (#[trigger] v[k]).0 == d.tables@[k].name && v[k].1@
                == d.tables@[k].columns@
        },
    }
}

/// The checking context of a program's bodies: its signatures, preferences and tables, and
/// the return type `ret` of the body checked (none for the activity).
pub open spec fn context_of(c: Context, s: SyntaxProgram, ret: Option<Type>) -> bool {
    &&& c.ret == ret
    &&& signatures_of(c.sig, s.functions@)
    &&& preferences_of(c.preferences, s.preferences@)
    &&& tables_of(c.tables, s.database)
}

/// The scope of a function body: its parameters, immutable.
pub open spec fn param_env(ps: Seq<Parameter>) -> Seq<(String, Binding)> {
    ps.map_values(|p: Parameter| (p.name, Binding { ty: p.ty, mutable: false, is_view: false }))
}

/// Checks the activity state declarations in order, giving the scope that holds them.
pub open spec fn states_env(st: Seq<State>, c: Context) -> Result<Seq<(String, Binding)>, Fault>
    decreases st.len(),
{
    if st.len() == 0 {
        Ok(Seq::empty())
    } else {
        match states_env(st.drop_last(), c) {
            Err(f) => Err(f),
            Ok(env) => match typed_as(st.last().initial, st.last().ty, env, c) {
                Err(f) => Err(f),
                Ok(_) => if key_index(env, st.last().name@) is Some {
                    Err(("AIC1124", Some(st.last().span)))
                } else {
                    Ok(env.push((st.last().name, Binding { ty: st.last().ty, mutable: true, is_view: false })))
                },
            },
        }
    }
}

/// The activity uses capability `c`: in a state initializer, in `on_create` or in a click
/// handler.
pub open spec fn activity_uses(a: SyntaxActivity, c: Capability) -> bool {
    (used_state(a.state@) + used_block(a.on_create@) + used_handlers(a.on_click@)).contains(Used::Capability(c))
}

/// Each capability is declared exactly when the activity uses it.
pub open spec fn capabilities_agree(s: SyntaxProgram) -> bool {
    &&& declared(s.capabilities@, Capability::KeyValue) == activity_uses(s.activity, Capability::KeyValue)
    &&& declared(s.capabilities@, Capability::Sqlite) == activity_uses(s.activity, Capability::Sqlite)
}

/// The body of function `i` calls function `t`.
pub open spec fn calls_function(s: SyntaxProgram, i: int, t: int) -> bool {
    user_calls(calls_block(s.functions@[i].body@)).contains(s.functions@[t].name@)
}

/// `rank` decreases along every call between the program's functions.
pub open spec fn ranked_calls(s: SyntaxProgram, rank: Seq<nat>) -> bool {
    &&& rank.len() == s.functions@.len()
    &&& forall|i: int, t: int|
        0 <= i < s.functions@.len() && 0 <= t < s.functions@.len() && #[trigger] calls_function(s, i, t)
            ==> rank[t] < rank[i]
}

/// No function reaches itself through calls: some rank decreases along every call.
pub open spec fn no_recursion(s: SyntaxProgram) -> bool {
    exists|rank: Seq<nat>| #[trigger] ranked_calls(s, rank)
}

/// Function `f`'s body type-checks in context `c`, with its parameters in scope, and
/// returns on every path.
pub open spec fn body_typed(f: SyntaxFunction, c: Context) -> bool {
    match block_type(f.body@, param_env(f.params@), c) {
        Ok((all_paths, _)) => all_paths,
        Err(_) => false,
    }
}

/// The activity type-checks in context `c`: its state declarations, then `on_create`, then
/// each click handler in the scope `on_create` leaves.
pub open spec fn activity_typed(a: SyntaxActivity, c: Context) -> bool {
    match states_env(a.state@, c) {
        Err(_) => false,
        Ok(env) => match block_type(a.on_create@, env, c) {
            Err(_) => false,
            Ok((_, after)) => forall|j: int|
                0 <= j < a.on_click@.len() ==> block_type((#[trigger] a.on_click@[j]).body@, after, c) is Ok,
        },
    }
}

/// Function `i` of the program type-checks in the program's context.
pub open spec fn function_typed(s: SyntaxProgram, i: int) -> bool {
    exists|c: Context| #[trigger] context_of(c, s, Some(s.functions@[i].return_type)) && body_typed(s.functions@[i], c)
}

/// Every body of the program type-checks in the program's context.
pub open spec fn well_typed(s: SyntaxProgram) -> bool {
    &&& forall|i: int| 0 <= i < s.functions@.len() ==> #[trigger] function_typed(s, i)
    &&& exists|c: Context| #[trigger] context_of(c, s, None) && activity_typed(s.activity, c)
}

fn is_package_start(c: char) -> (r: bool)
    ensures
        r == package_start(c),
{
    c == '_' || ('a' <= c && c <= 'z')
}

fn is_package_char(c: char) -> (r: bool)
    ensures
        r == word_char(c),
{
    c == '_' || ('a' <= c && c <= 'z') || ('A' <= c && c <= 'Z') || ('0' <= c && c <= '9')
}

/// Whether `p` is a valid Android package name.
pub fn valid_package_name(p: &str) -> (r: bool)
    ensures
        r == valid_package(p@),
{
    let cs = crate::encoding::chars_of(p);
    let n = cs.len();
    if n == 0 || !is_package_start(cs[0]) {
        return false;
    }
    let mut dot = false;
    let mut i: usize = 0;
    while i < n
        invariant
            cs@ == p@,
            n == cs@.len(),
            i <= n,
            dot == exists|j: int| 0 <= j < i && cs@[j] == '.',
            forall|j: int| 0 <= j < i ==> (#[trigger] cs@[j] == '.' ==> j + 1 < n && package_start(cs@[j + 1]))
                && (cs@[j] == '.' || word_char(cs@[j])),
        decreases n - i,
    {
        let c = cs[i];
        if c == '.' {
            if i + 1 >= n || !is_package_start(cs[i + 1]) {
                assert(cs@[i as int] == '.');
                return false;
            }
            dot = true;
        } else if !is_package_char(c) {
            return false;
        }
        i = i + 1;
    }
    dot
}

/// Counts the `set_content_view` calls of a block.
fn count_content_views(b: &Vec<Statement>) -> (r: usize)
    ensures
        r == content_views(b@),
{
    let mut n: usize = 0;
    let mut i: usize = 0;
    while i < b.len()
        invariant
            i <= b@.len(),
            n == content_views(b@.take(i as int)),
            n <= i,
        decreases b@.len() - i,
    {
        assert(b@.take(i + 1).drop_last() =~= b@.take(i as int));
        match &b[i].kind {
            StatementKind::SetContentView { .. } => {
                n = n + 1;
            },
            _ => {},
        }
        i = i + 1;
    }
    assert(b@.take(i as int) =~= b@);
    n
}

/// The containers declared in a block, by id: `true` for a scroll view, `false` for a linear
/// layout; a later declaration of an id replaces an earlier one.
pub open spec fn container_kinds(b: Seq<Statement>) -> Map<Seq<char>, bool>
    decreases b.len(),
{
    if b.len() == 0 {
        Map::empty()
    } else {
        let m = container_kinds(b.drop_last());
        match b.last().kind {
            StatementKind::LinearLayout { id, .. } => m.insert(id@, false),
            StatementKind::ScrollView { id } => m.insert(id@, true),
            _ => m,
        }
    }
}

/// The parent that a statement adds a view to, if it is an `android.add_view`.
pub open spec fn add_parent(s: Statement) -> Option<Seq<char>> {
    match s.kind {
        StatementKind::AddView { parent, .. } => Some(parent@),
        _ => None,
    }
}

/// Whether some statement of `b` adds a view to `p`.
pub open spec fn adds_to(b: Seq<Statement>, p: Seq<char>) -> bool
    decreases b.len(),
{
    b.len() > 0 && (add_parent(b.last()) == Some(p) || adds_to(b.drop_last(), p))
}

/// Statement `i` adds a view to an undeclared container, or a second one to a scroll view.
pub open spec fn bad_add(b: Seq<Statement>, i: int) -> bool {
    let k = container_kinds(b);
    match add_parent(b[i]) {
        Some(p) => !k.contains_key(p) || (k[p] && adds_to(b.take(i), p)),
        None => false,
    }
}

/// The code of the diagnostic for a bad addition at statement `i`.
pub open spec fn bad_add_code(b: Seq<Statement>, i: int) -> &'static str {
    match add_parent(b[i]) {
        Some(p) => if container_kinds(b).contains_key(p) { "AIC1131" } else { "AIC1130" },
        None => "AIC1130",
    }
}

/// Some declared scroll view gets no child.
pub open spec fn empty_scroll(b: Seq<Statement>) -> bool {
    exists|p: Seq<char>| #[trigger] container_kinds(b).contains_key(p) && container_kinds(b)[p] && !adds_to(b, p)
}

/// The container table `c` holds exactly the ids of `k`, each once, with a count for each
/// scroll view only.
spec fn tracks_kinds(c: Seq<(String, Option<usize>)>, k: Map<Seq<char>, bool>) -> bool {
    &&& forall|x: int| 0 <= x < c.len() ==> key_index(c, (#[trigger] c[x]).0@) == Some(x)
    &&& forall|p: Seq<char>| #![trigger key_index(c, p)] #![trigger k.contains_key(p)]
        (key_index(c, p) is Some <==> k.contains_key(p))
    &&& forall|p: Seq<char>| #![trigger key_index(c, p)]
        key_index(c, p) matches Some(x) ==> (c[x].1 is Some <==> k[p])
}

/// Every `android.add_view` goes to a declared container, at most once to a scroll view,
/// and every scroll view gets its child.
pub open spec fn containers_ok(b: Seq<Statement>) -> bool {
    (forall|i: int| 0 <= i < b.len() ==> !bad_add(b, i)) && !empty_scroll(b)
}

/// The diagnostic for the containers of `b`: at the first bad addition, with its code, or
/// else the global one for an empty scroll view.
pub open spec fn container_fault(b: Seq<Statement>, d: Diagnostic) -> bool {
    ||| exists|i: int|
        0 <= i < b.len() && #[trigger] bad_add(b, i) && (forall|j: int| 0 <= j < i ==> !bad_add(b, j))
            && d.location == Some(b[i].span) && d.code == bad_add_code(b, i)
    ||| (forall|i: int| 0 <= i < b.len() ==> !bad_add(b, i)) && d.code == "AIC1132" && d.location is None
}

/// Replacing an entry by one of the same name finds every name where it was.
proof fn key_index_same_name<V>(m: Seq<(String, V)>, x: int, e: (String, V), p: Seq<char>)
    requires
        0 <= x < m.len(),
        e.0@ == m[x].0@,
    ensures
        key_index(m.update(x, e), p) == key_index(m, p),
    decreases m.len(),
{
    if x < m.len() - 1 {
        assert(m.update(x, e).drop_last() =~= m.drop_last().update(x, e));
        key_index_same_name(m.drop_last(), x, e, p);
    } else {
        assert(m.update(x, e).drop_last() =~= m.drop_last());
    }
}

/// Checks that layout children go into containers and that each scroll view holds exactly one.
#[verifier::spinoff_prover]
#[verifier::rlimit(40)]
fn check_containers(b: &Vec<Statement>) -> (r: Result<(), Diagnostic>)
    ensures
        r is Ok <==> containers_ok(b@),
        r matches Err(d) ==> container_fault(b@, d),
{
    let mut containers: Vec<(String, Option<usize>)> = Vec::new();
    let mut i: usize = 0;
    while i < b.len()
        invariant
            i <= b@.len(),
            tracks_kinds(containers@, container_kinds(b@.take(i as int))),
            forall|x: int| 0 <= x < containers@.len() ==> ((#[trigger] containers@[x]).1 matches Some(v) ==> v == 0),
        decreases b@.len() - i,
    {
        assert(b@.take(i + 1).drop_last() =~= b@.take(i as int));
        let ghost c0 = containers@;
        let ghost k0 = container_kinds(b@.take(i as int));
        let entry = match &b[i].kind {
            StatementKind::LinearLayout { id, .. } => Some((id, None)),
            StatementKind::ScrollView { id } => Some((id, Some(0usize))),
            _ => None,
        };
        match entry {
            Some((id, v)) => match find_key(&containers, id.as_str()) {
                Some(k) => {
                    proof {
                        key_index_bounds(containers@, id@);
                    }
                    containers.set(k, (id.clone(), v));
                    proof {
                        let k1 = container_kinds(b@.take(i + 1));
                        assert(k1 == k0.insert(id@, v is Some));
                        assert forall|p: Seq<char>| #![trigger key_index(containers@, p)]
                            key_index(containers@, p) == key_index(c0, p) by {
                            key_index_same_name(c0, k as int, containers@[k as int], p);
                            assert(containers@ =~= c0.update(k as int, containers@[k as int]));
                        }
                        assert forall|x: int| 0 <= x < containers@.len() implies key_index(
                            containers@,
                            (#[trigger] containers@[x]).0@,
                        ) == Some(x) by {
                            assert(key_index(containers@, containers@[x].0@) == key_index(c0, containers@[x].0@));
                            assert(containers@[x].0@ == c0[x].0@);
                        }
                        assert forall|p: Seq<char>| #![trigger key_index(containers@, p)] #![trigger k1.contains_key(p)]
                            (key_index(containers@, p) is Some <==> k1.contains_key(p)) by {
                            assert(key_index(containers@, p) == key_index(c0, p));
                        }
                        assert forall|p: Seq<char>| #![trigger key_index(containers@, p)]
                            key_index(containers@, p) matches Some(x) ==> (containers@[x].1 is Some <==> k1[p]) by {
                            assert(key_index(containers@, p) == key_index(c0, p));
                            if p == id@ {
                                assert(key_index(c0, p) == Some(k as int));
                                assert(containers@[k as int].1 == v);
                            } else if key_index(c0, p) is Some {
                                key_index_bounds(c0, p);
                                let x = key_index(c0, p)->0;
                                assert(x != k);
                                assert(containers@[x] == c0[x]);
                                assert(c0[x].1 is Some <==> k0[p]);
                            }
                        }
                    }
                },
                None => {
                    containers.push((id.clone(), v));
                    proof {
                        let k1 = container_kinds(b@.take(i + 1));
                        assert(k1 == k0.insert(id@, v is Some));
                        assert(containers@.drop_last() =~= c0);
                        key_index_bounds(c0, id@);
                        assert forall|x: int| 0 <= x < containers@.len() implies key_index(
                            containers@,
                            (#[trigger] containers@[x]).0@,
                        ) == Some(x) by {
                            if x < c0.len() {
                                assert(containers@[x] == c0[x]);
                                assert(key_index(c0, c0[x].0@) == Some(x));
                            }
                        }
                        assert forall|p: Seq<char>| #![trigger key_index(containers@, p)] #![trigger k1.contains_key(p)]
                            (key_index(containers@, p) is Some <==> k1.contains_key(p)) by {
                            assert(key_index(c0, p) is Some <==> k0.contains_key(p));
                        }
                        assert forall|p: Seq<char>| #![trigger key_index(containers@, p)]
                            key_index(containers@, p) matches Some(x) ==> (containers@[x].1 is Some <==> k1[p]) by {
                            if key_index(c0, p) is Some {
                                key_index_bounds(c0, p);
                                assert(p != id@);
                            }
                        }
                    }
                },
            },
            None => {
                assert(container_kinds(b@.take(i + 1)) == k0);
            },
        }
        i = i + 1;
    }
    assert(b@.take(i as int) =~= b@);
    let ghost kinds = container_kinds(b@);
    let mut i: usize = 0;
    proof {
        assert forall|p: Seq<char>| #![trigger key_index(containers@, p)]
            key_index(containers@, p) matches Some(x) ==> (kinds[p] ==> containers@[x].1 == Some(
                if adds_to(b@.take(0), p) { 1usize } else { 0usize },
            )) by {
            key_index_bounds(containers@, p);
            assert(!adds_to(b@.take(0), p));
        }
    }
    while i < b.len()
        invariant
            i <= b@.len(),
            kinds == container_kinds(b@),
            tracks_kinds(containers@, kinds),
            forall|p: Seq<char>| #![trigger key_index(containers@, p)]
                key_index(containers@, p) matches Some(x) ==> (kinds[p] ==> containers@[x].1 == Some(
                    if adds_to(b@.take(i as int), p) { 1usize } else { 0usize },
                )),
            forall|j: int| 0 <= j < i ==> !bad_add(b@, j),
        decreases b@.len() - i,
    {
        assert(b@.take(i + 1).drop_last() =~= b@.take(i as int));
        let ghost c0 = containers@;
        match &b[i].kind {
            StatementKind::AddView { parent, .. } => {
                proof {
                    key_index_bounds(containers@, parent@);
                }
                match find_key(&containers, parent.as_str()) {
                    Some(k) => match containers[k].1 {
                        Some(count) => {
                            assert(kinds[parent@]);
                            if count + 1 > 1 {
                                assert(adds_to(b@.take(i as int), parent@));
                                assert(bad_add(b@, i as int));
                                return Err(Diagnostic::at("AIC1131", b[i].span, owned("ScrollView accepts exactly one child")));
                            }
                            let name = containers[k].0.clone();
                            containers.set(k, (name, Some(count + 1)));
                            proof {
                                assert forall|p: Seq<char>| #![trigger key_index(containers@, p)]
                                    key_index(containers@, p) == key_index(c0, p) by {
                                    key_index_same_name(c0, k as int, containers@[k as int], p);
                                    assert(containers@ =~= c0.update(k as int, containers@[k as int]));
                                }
                                assert forall|x: int| 0 <= x < containers@.len() implies key_index(
                                    containers@,
                                    (#[trigger] containers@[x]).0@,
                                ) == Some(x) by {
                                    assert(key_index(containers@, containers@[x].0@) == key_index(c0, containers@[x].0@));
                                    assert(containers@[x].0@ == c0[x].0@);
                                }
                                assert forall|p: Seq<char>| #![trigger key_index(containers@, p)] #![trigger kinds.contains_key(p)]
                                    (key_index(containers@, p) is Some <==> kinds.contains_key(p)) by {
                                    assert(key_index(containers@, p) == key_index(c0, p));
                                }
                                assert forall|p: Seq<char>| #![trigger key_index(containers@, p)]
                                    key_index(containers@, p) matches Some(x) ==> (containers@[x].1 is Some <==> kinds[p]) by {
                                    assert(key_index(containers@, p) == key_index(c0, p));
                                    if key_index(c0, p) is Some {
                                        key_index_bounds(c0, p);
                                    }
                                }
                                assert forall|p: Seq<char>| #![trigger key_index(containers@, p)]
                                    key_index(containers@, p) matches Some(x) ==> (kinds[p] ==> containers@[x].1 == Some(
                                        if adds_to(b@.take(i + 1), p) { 1usize } else { 0usize },
                                    )) by {
                                    assert(key_index(containers@, p) == key_index(c0, p));
                                    if key_index(c0, p) is Some {
                                        key_index_bounds(c0, p);
                                    }
                                }
                            }
                        },
                        None => {
                            assert(!kinds[parent@]);
                            proof {
                                assert forall|p: Seq<char>| #![trigger key_index(containers@, p)]
                                    key_index(containers@, p) matches Some(x) ==> (kinds[p] ==> containers@[x].1 == Some(
                                        if adds_to(b@.take(i + 1), p) { 1usize } else { 0usize },
                                    )) by {
                                    if key_index(c0, p) is Some && kinds[p] {
                                        assert(p != parent@);
                                    }
                                }
                            }
                        },
                    },
                    None => {
                        assert(!kinds.contains_key(parent@));
                        assert(bad_add(b@, i as int));
                        return Err(Diagnostic::at("AIC1130", b[i].span,
                            owned("android.add_view parent must be a LinearLayout or ScrollView")));
                    },
                }
            },
            _ => {
                assert(add_parent(b@[i as int]) is None);
            },
        }
        i = i + 1;
    }
    assert(b@.take(i as int) =~= b@);
    let mut k: usize = 0;
    while k < containers.len()
        invariant
            k <= containers@.len(),
            kinds == container_kinds(b@),
            tracks_kinds(containers@, kinds),
            forall|p: Seq<char>| #![trigger key_index(containers@, p)]
                key_index(containers@, p) matches Some(x) ==> (kinds[p] ==> containers@[x].1 == Some(
                    if adds_to(b@, p) { 1usize } else { 0usize },
                )),
            forall|j: int| 0 <= j < b@.len() ==> !bad_add(b@, j),
            forall|x: int| 0 <= x < k ==> (#[trigger] containers@[x]).1 != Some(0usize),
        decreases containers@.len() - k,
    {
        match containers[k].1 {
            Some(0) => {
                proof {
                    let p = containers@[k as int].0@;
                    assert(key_index(containers@, p) == Some(k as int));
                    assert(kinds.contains_key(p));
                    assert(!adds_to(b@, p));
                    assert(empty_scroll(b@));
                }
                return Err(Diagnostic::global("AIC1132", owned("ScrollView must contain exactly one child")));
            },
            _ => {},
        }
        k = k + 1;
    }
    proof {
        if empty_scroll(b@) {
            let p = choose|p: Seq<char>| #[trigger] kinds.contains_key(p) && kinds[p] && !adds_to(b@, p);
            let x = key_index(containers@, p)->0;
            key_index_bounds(containers@, p);
            assert(containers@[x].1 == Some(0usize));
            assert(false);
        }
    }
    Ok(())
}

/// Checks the declared capabilities for duplicates; gives which of them are declared.
fn declared_capabilities(caps: &Vec<(Capability, SourceSpan)>) -> (r: Result<(bool, bool), Diagnostic>)
    ensures
        r matches Ok((kv, sql)) ==> kv == declared(caps@, Capability::KeyValue) && sql == declared(caps@, Capability::Sqlite),
        r matches Err(d) ==> d.code == "AIC1307",
        r is Err <==> repeated_capability(caps@),
{
    let mut kv = false;
    let mut sql = false;
    let mut i: usize = 0;
    while i < caps.len()
        invariant
            i <= caps@.len(),
            kv == exists|k: int| 0 <= k < i && (#[trigger] caps@[k]).0 == Capability::KeyValue,
            sql == exists|k: int| 0 <= k < i && (#[trigger] caps@[k]).0 == Capability::Sqlite,
            !repeated_capability(caps@.take(i as int)),
        decreases caps@.len() - i,
    {
        let (c, span) = caps[i];
        proof {
            assert(caps@.take(i + 1).take(i as int) =~= caps@.take(i as int));
        }
        let seen = match c {
            Capability::KeyValue => kv,
            Capability::Sqlite => sql,
        };
        if seen {
            proof {
                let k = choose|k: int| 0 <= k < i && (#[trigger] caps@[k]).0 == c;
                assert(caps@[k].0 == caps@[i as int].0);
            }
            return Err(Diagnostic::at("AIC1307", span, concat(&concat("duplicate capability `", c.name()), "`")));
        }
        match c {
            Capability::KeyValue => kv = true,
            Capability::Sqlite => sql = true,
        }
        assert(caps@[i as int].0 == c);
        proof {
            let t = caps@.take(i + 1);
            assert forall|a: int, b: int| 0 <= a < b < t.len() implies (#[trigger] t[a]).0 != (#[trigger] t[b]).0 by {
                if b < i {
                    assert(t[a] == caps@.take(i as int)[a] && t[b] == caps@.take(i as int)[b]);
                } else {
                    assert(caps@[a].0 != c);
                }
            }
        }
        i = i + 1;
    }
    assert(caps@.take(i as int) =~= caps@);
    Ok((kv, sql))
}

/// Checks preference defaults and keys; gives each key's type.
fn preference_types(ps: &Vec<Preference>) -> (r: Result<Vec<(String, Type)>, Diagnostic>)
    ensures
        r matches Ok(v) ==> preferences_of(v@, ps@),
        r is Ok <==> preferences_valid(ps@),
{
    let mut out: Vec<(String, Type)> = Vec::new();
    let mut i: usize = 0;
    while i < ps.len()
        invariant
            i <= ps@.len(),
            preferences_of(out@, ps@.take(i as int)),
            preferences_valid(ps@.take(i as int)),
        decreases ps@.len() - i,
    {
        let p = &ps[i];
        proof {
            key_index_bounds(out@, p.name@);
        }
        assert(ps@[i as int] == *p);
        req(p.ty, p.default.ty(), p.span)?;
        if find_key(&out, p.name.as_str()).is_some() {
            proof {
                let k = key_index(out@, p.name@)->0;
                assert(out@[k].0 == ps@.take(i as int)[k].name);
                assert(ps@[k].name@ == ps@[i as int].name@);
            }
            return Err(Diagnostic::at("AIC1308", p.span, owned("duplicate preference key")));
        }
        out.push((p.name.clone(), p.ty));
        i = i + 1;
        proof {
            let d = ps@.take(i as int);
            assert forall|a: int, b: int| 0 <= a < b < d.len() implies (#[trigger] d[a]).name@ != (#[trigger] d[b]).name@ by {
                if b == i - 1 {
                    assert(d[a] == ps@.take(i - 1)[a]);
                    assert(out@[a].0 == d[a].name);
                } else {
                    assert(d[a] == ps@.take(i - 1)[a] && d[b] == ps@.take(i - 1)[b]);
                }
            }
        }
    }
    assert(ps@.take(i as int) =~= ps@);
    Ok(out)
}

/// Checks one table's columns: one auto-increment `i32` primary key, distinct names.
fn table_columns(cols: &Vec<Column>, table_span: SourceSpan) -> (r: Result<Vec<Column>, Diagnostic>)
    ensures
        r matches Ok(v) ==> v@ == cols@,
        r is Ok <==> columns_valid(cols@),
{
    let mut out: Vec<Column> = Vec::new();
    let mut keys: usize = 0;
    let mut i: usize = 0;
    while i < cols.len()
        invariant
            i <= cols@.len(),
            keys <= i,
            out@ == cols@.take(i as int),
            keys == key_count(cols@.take(i as int)),
            forall|k: int| 0 <= k < i ==> ((#[trigger] cols@[k]).primary_key ==> cols@[k].ty == Type::I32
                && cols@[k].auto_increment) && (cols@[k].auto_increment ==> cols@[k].primary_key),
            forall|a: int, b: int| 0 <= a < b < i ==> (#[trigger] cols@[a]).name@ != (#[trigger] cols@[b]).name@,
        decreases cols@.len() - i,
    {
        let c = &cols[i];
        assert(cols@[i as int] == *c);
        assert(cols@.take(i + 1).drop_last() =~= cols@.take(i as int));
        if c.primary_key {
            keys = keys + 1;
            if c.ty != Type::I32 || !c.auto_increment {
                return Err(Diagnostic::at("AIC1310", c.span, owned("primary key must be i32 primary_key auto_increment")));
            }
        }
        if c.auto_increment && !c.primary_key {
            return Err(Diagnostic::at("AIC1311", c.span, owned("auto_increment requires primary_key")));
        }
        let dup = find_column(&out, &c.name);
        if dup.is_some() {
            proof {
                let k = choose|k: int| 0 <= k < out@.len() && out@[k].name@ == c.name@;
                assert(out@[k] == cols@[k]);
                assert(cols@[k].name@ == cols@[i as int].name@);
            }
            return Err(Diagnostic::at("AIC1312", c.span, owned("duplicate database column")));
        }
        out.push(Column { name: c.name.clone(), ty: c.ty, primary_key: c.primary_key,
            auto_increment: c.auto_increment, span: c.span });
        proof {
            assert forall|a: int| 0 <= a < i implies (#[trigger] cols@[a]).name@ != cols@[i as int].name@ by {
                assert(out@[a] == cols@[a]);
            }
        }
        i = i + 1;
        assert(out@ =~= cols@.take(i as int));
    }
    assert(cols@.take(i as int) =~= cols@);
    assert(keys == key_count(cols@));
    if keys != 1 {
        return Err(Diagnostic::at("AIC1313", table_span, owned("table requires exactly one primary key")));
    }
    Ok(out)
}

/// Checks the database schema; gives each table's columns.
fn database_tables(db: &Option<crate::ir::Database>) -> (r: Result<Vec<(String, Vec<Column>)>, Diagnostic>)
    ensures
        r matches Ok(v) ==> tables_of(v@, *db),
        r is Ok <==> schema_valid(*db),
{
    let mut out: Vec<(String, Vec<Column>)> = Vec::new();
    match db {
        Some(d) => {
            if d.version != 1 {
                return Err(Diagnostic::at("AIC1309", d.span, owned("only database version 1 is supported")));
            }
            let mut i: usize = 0;
            while i < d.tables.len()
                invariant
                    i <= d.tables@.len(),
                    out@.len() == i,
                    forall|k: int| 0 <= k < i ==> (#[trigger] out@[k]).0 == d.tables@[k].name && out@[k].1@
                        == d.tables@[k].columns@,
                    forall|k: int| 0 <= k < i ==> columns_valid((#[trigger] d.tables@[k]).columns@),
                    *db == Some::<crate::ir::Database>(*d),
                    forall|a: int, b: int| 0 <= a < b < i ==> (#[trigger] d.tables@[a]).name@ != (#[trigger] d.tables@[b]).name@,
                decreases d.tables@.len() - i,
            {
                let t = &d.tables[i];
                assert(d.tables@[i as int] == *t);
                let columns = match table_columns(&t.columns, t.span) {
                    Ok(c) => c,
                    Err(e) => {
                        proof {
                            assert(!columns_valid(d.tables@[i as int].columns@));
                            assert(!schema_valid(*db));
                        }
                        return Err(e);
                    },
                };
                proof {
                    key_index_bounds(out@, t.name@);
                }
                if find_key(&out, t.name.as_str()).is_some() {
                    proof {
                        let k = key_index(out@, t.name@)->0;
                        assert(d.tables@[k].name@ == d.tables@[i as int].name@);
                        assert(!schema_valid(*db));
                    }
                    return Err(Diagnostic::at("AIC1314", t.span, owned("duplicate database table")));
                }
                out.push((t.name.clone(), columns));
                proof {
                    assert forall|a: int| 0 <= a < i implies (#[trigger] d.tables@[a]).name@ != d.tables@[i as int].name@ by {
                        assert(out@[a].0 == d.tables@[a].name);
                        assert(out@[a].0@ != t.name@);
                    }
                }
                i = i + 1;
            }
        },
        None => {},
    }
    Ok(out)
}

/// The parameter types of a function.
fn param_types(f: &SyntaxFunction) -> (r: Vec<Type>)
    ensures
        r@ == types_of(f.params@),
{
    let mut out: Vec<Type> = Vec::new();
    let mut i: usize = 0;
    while i < f.params.len()
        invariant
            i <= f.params@.len(),
            out@ == types_of(f.params@.take(i as int)),
        decreases f.params@.len() - i,
    {
        out.push(f.params[i].ty);
        i = i + 1;
        assert(types_of(f.params@.take(i as int)) =~= out@);
    }
    assert(f.params@.take(i as int) =~= f.params@);
    out
}

/// Function signatures in declaration order; names must be distinct.
fn signatures(fs: &Vec<SyntaxFunction>) -> (r: Result<Vec<(String, (Vec<Type>, Type))>, Diagnostic>)
    ensures
        r matches Ok(sig) ==> sig@.len() == fs@.len()
            && (forall|k: int| 0 <= k < fs@.len() ==> (#[trigger] sig@[k]).0@ == fs@[k].name@)
            && (forall|a: int, b: int| 0 <= a < b < fs@.len() ==> (#[trigger] fs@[a]).name@ != (#[trigger] fs@[b]).name@)
            && signatures_of(sig@, fs@),
        r matches Err(d) ==> d.code == "AIC1102",
        r is Ok <==> syntax_names_distinct(fs@),
{
    let mut sig: Vec<(String, (Vec<Type>, Type))> = Vec::new();
    let mut i: usize = 0;
    while i < fs.len()
        invariant
            i <= fs@.len(),
            sig@.len() == i,
            forall|k: int| 0 <= k < i ==> (#[trigger] sig@[k]).0@ == fs@[k].name@,
            forall|a: int, b: int| 0 <= a < b < i ==> (#[trigger] fs@[a]).name@ != (#[trigger] fs@[b]).name@,
            forall|k: int| 0 <= k < i ==> (#[trigger] sig@[k]).1.0@ == types_of(fs@[k].params@) && sig@[k].1.1
                == fs@[k].return_type,
        decreases fs@.len() - i,
    {
        let f = &fs[i];
        proof {
            key_index_bounds(sig@, f.name@);
        }
        if find_key(&sig, f.name.as_str()).is_some() {
            proof {
                let k = key_index(sig@, f.name@)->0;
                assert(fs@[k].name@ == fs@[i as int].name@);
            }
            return Err(Diagnostic::at("AIC1102", f.span, concat(&concat("duplicate function `", f.name.as_str()), "`")));
        }
        proof {
            assert forall|a: int| 0 <= a < i implies fs@[a].name@ != fs@[i as int].name@ by {
                assert(sig@[a].0@ == fs@[a].name@);
            }
        }
        sig.push((f.name.clone(), (param_types(f), f.return_type)));
        i = i + 1;
    }
    Ok(sig)
}

/// Moves syntax functions into program functions, in order.
fn into_functions(fs: Vec<SyntaxFunction>) -> (r: Vec<Function>)
    ensures
        r@.len() == fs@.len(),
        forall|i: int| 0 <= i < fs@.len() ==> {
            let f = #[trigger] r@[i];
            let g = fs@[i];
            f.name == g.name && f.params == g.params && f.return_type == g.return_type && f.body == g.body
                && f.span == g.span
        },
{
    let ghost orig = fs@;
    let n = fs.len();
    let mut fs = fs;
    let mut rev: Vec<Function> = Vec::new();
    while fs.len() > 0
        invariant
            orig.len() == n,
            fs@ == orig.take(fs@.len() as int),
            rev@.len() + fs@.len() == n,
            forall|k: int| 0 <= k < rev@.len() ==> {
                let f = #[trigger] rev@[k];
                let g = orig[n - 1 - k];
                f.name == g.name && f.params == g.params && f.return_type == g.return_type && f.body == g.body
                    && f.span == g.span
            },
        decreases fs@.len(),
    {
        let g = fs.pop().unwrap();
        assert(fs@ =~= orig.take(fs@.len() as int));
        rev.push(Function { name: g.name, params: g.params, return_type: g.return_type, body: g.body, span: g.span });
    }
    let mut out: Vec<Function> = Vec::new();
    while rev.len() > 0
        invariant
            orig.len() == n,
            rev@.len() + out@.len() == n,
            forall|k: int| 0 <= k < rev@.len() ==> {
                let f = #[trigger] rev@[k];
                let g = orig[n - 1 - k];
                f.name == g.name && f.params == g.params && f.return_type == g.return_type && f.body == g.body
                    && f.span == g.span
            },
            forall|k: int| 0 <= k < out@.len() ==> {
                let f = #[trigger] out@[k];
                let g = orig[k];
                f.name == g.name && f.params == g.params && f.return_type == g.return_type && f.body == g.body
                    && f.span == g.span
            },
        decreases rev@.len(),
    {
        let f = rev.pop().unwrap();
        out.push(f);
    }
    out
}

/// The declared capabilities, each once, in their order.
fn capability_list(kv: bool, sql: bool) -> (r: Vec<Capability>)
    ensures
        r@ == (if kv { seq![Capability::KeyValue] } else { Seq::empty() }) + (if sql { seq![Capability::Sqlite] } else {
            Seq::empty()
        }),
{
    let mut out: Vec<Capability> = Vec::new();
    if kv {
        out.push(Capability::KeyValue);
    }
    if sql {
        out.push(Capability::Sqlite);
    }
    assert(out@ =~= (if kv { seq![Capability::KeyValue] } else { Seq::empty() }) + (if sql {
        seq![Capability::Sqlite]
    } else {
        Seq::empty()
    }));
    out
}

/// Validates a parsed program: the package name, the activity's layout, the declared
/// capabilities, preferences and schema, and the types, returns and calls of every body.
#[verifier::loop_isolation(false)]
pub fn verify(s: SyntaxProgram) -> (r: Result<Program, Diagnostic>)
    ensures
        !valid_package(s.package@) ==> (r matches Err(d) && d.code == "AIC1101" && d.location is None),
        valid_package(s.package@) && content_views(s.activity.on_create@) == 0 ==> (r matches Err(d) && d.code
            == "AIC1106"),
        valid_package(s.package@) && content_views(s.activity.on_create@) > 1 ==> (r matches Err(d) && d.code
            == "AIC1107"),
        valid_package(s.package@) && content_views(s.activity.on_create@) == 1 && !containers_ok(
            s.activity.on_create@,
        ) ==> (r matches Err(d) && container_fault(s.activity.on_create@, d)),
        valid_package(s.package@) && content_views(s.activity.on_create@) == 1 && containers_ok(s.activity.on_create@)
            && repeated_capability(s.capabilities@) ==> (r matches Err(d) && d.code == "AIC1307"),
        valid_package(s.package@) && content_views(s.activity.on_create@) == 1 && containers_ok(s.activity.on_create@)
            && !repeated_capability(s.capabilities@) && !preferences_valid(s.preferences@) ==> r is Err,
        valid_package(s.package@) && content_views(s.activity.on_create@) == 1 && containers_ok(s.activity.on_create@)
            && !repeated_capability(s.capabilities@) && preferences_valid(s.preferences@) && !schema_valid(s.database)
            ==> r is Err,
        valid_package(s.package@) && content_views(s.activity.on_create@) == 1 && containers_ok(s.activity.on_create@)
            && !repeated_capability(s.capabilities@) && preferences_valid(s.preferences@) && schema_valid(s.database)
            && !syntax_names_distinct(s.functions@) ==> (r matches Err(d) && d.code == "AIC1102"),
        r matches Ok(p) ==> validated(s, p),
        r is Ok ==> well_typed(s),
        r is Ok ==> capabilities_agree(s),
        r is Ok ==> no_recursion(s),
{
    if !valid_package_name(s.package.as_str()) {
        return Err(Diagnostic::global("AIC1101", concat(&concat("invalid Android package `", s.package.as_str()), "`")));
    }
    let views = count_content_views(&s.activity.on_create);
    if views == 0 {
        return Err(Diagnostic::global("AIC1106", owned("on_create must call android.set_content_view")));
    }
    if views > 1 {
        return Err(Diagnostic::global("AIC1107", owned("on_create may call android.set_content_view only once")));
    }
    match check_containers(&s.activity.on_create) {
        Ok(_) => {},
        Err(d) => return Err(d),
    }
    let (kv, sql) = match declared_capabilities(&s.capabilities) {
        Ok(x) => x,
        Err(d) => return Err(d),
    };
    let mut preferences = match preference_types(&s.preferences) {
        Ok(x) => x,
        Err(d) => return Err(d),
    };
    let mut tables = match database_tables(&s.database) {
        Ok(x) => x,
        Err(d) => return Err(d),
    };
    let mut sig = match signatures(&s.functions) {
        Ok(x) => x,
        Err(d) => return Err(d),
    };
    let n = s.functions.len();
    let mut adj: Vec<Vec<usize>> = Vec::new();
    let mut i: usize = 0;
    while i < n
        invariant
            n == s.functions@.len(),
            i <= n,
            sig@.len() == n,
            adj@.len() == i,
            forall|t: int, k: int| 0 <= t < i && 0 <= k < adj@[t]@.len() ==> (#[trigger] adj@[t]@[k]) < n,
            forall|t: int| 0 <= t < i ==> returns_block((#[trigger] s.functions@[t]).body@),
            forall|t: int| 0 <= t < i ==> #[trigger] function_typed(s, t),
            forall|a: int, u: int| 0 <= a < i && 0 <= u < n && #[trigger] calls_function(s, a, u) ==> exists|m: int|
                0 <= m < adj@[a]@.len() && adj@[a]@[m] == u,
            forall|a: int, b: int| 0 <= a < b < n ==> (#[trigger] s.functions@[a]).name@ != (#[trigger] s.functions@[b]).name@,
            signatures_of(sig@, s.functions@),
            preferences_of(preferences@, s.preferences@),
            tables_of(tables@, s.database),
        decreases n - i,
    {
        let f = &s.functions[i];
        let mut c = Check {
            sig: sig,
            ret: Some(f.return_type),
            calls: Vec::new(),
            preferences: preferences,
            tables: tables,
            uses_key_value: false,
            uses_sqlite: false,
        };
        let mut env: Vec<(String, Binding)> = Vec::new();
        let mut j: usize = 0;
        assert(param_env(f.params@.take(0)) =~= env@);
        while j < f.params.len()
            invariant
                j <= f.params@.len(),
                env@ == param_env(f.params@.take(j as int)),
            decreases f.params@.len() - j,
        {
            let p = &f.params[j];
            if bind(&mut env, &p.name, Binding { ty: p.ty, mutable: false, is_view: false }) {
                return Err(Diagnostic::at("AIC1103", p.span, owned("duplicate parameter")));
            }
            j = j + 1;
            assert(env@ =~= param_env(f.params@.take(j as int)));
        }
        assert(f.params@.take(j as int) =~= f.params@);
        let ghost c0 = c;
        let ghost env0 = env@;
        let all_paths = c.stmts(&f.body, &mut env)?;
        if !all_paths {
            return Err(Diagnostic::at("AIC1104", f.span,
                concat(&concat("function `", f.name.as_str()), "` does not return on every path")));
        }
        proof {
            assert(context_of(c0.ctx(), s, Some(s.functions@[i as int].return_type)));
            assert(body_typed(s.functions@[i as int], c0.ctx()));
            assert(function_typed(s, i as int));
        }
        assert(c.calls_known());
        proof {
            assert(crate::opt::views_of(c0.calls@) =~= Seq::<Seq<char>>::empty());
            assert(name_set(c0.calls@) =~= Set::<Seq<char>>::empty());
            assert(name_set(c.calls@) =~= user_calls(calls_block(s.functions@[i as int].body@)));
        }
        let mut edges: Vec<usize> = Vec::new();
        let mut k: usize = 0;
        while k < c.calls.len()
            invariant
                c.calls_known(),
                c.sig@.len() == n,
                signatures_of(c.sig@, s.functions@),
                k <= c.calls@.len(),
                forall|t: int| 0 <= t < edges@.len() ==> (#[trigger] edges@[t]) < n,
                forall|kk: int| 0 <= kk < k ==> exists|m: int|
                    0 <= m < edges@.len() && s.functions@[edges@[m] as int].name@ == (#[trigger] c.calls@[kk])@,
            decreases c.calls@.len() - k,
        {
            proof {
                key_index_bounds(c.sig@, c.calls@[k as int]@);
            }
            let ghost pe = edges@;
            match find_key(&c.sig, c.calls[k].as_str()) {
                Some(t) => {
                    edges.push(t);
                    proof {
                        assert(c.sig@[t as int].0@ == s.functions@[t as int].name@);
                        assert(s.functions@[edges@[edges@.len() - 1] as int].name@ == c.calls@[k as int]@);
                    }
                },
                None => {
                    proof {
                        assert(key_index(c.sig@, c.calls@[k as int]@) is Some);
                    }
                },
            }
            proof {
                assert forall|kk: int| 0 <= kk < k + 1 implies exists|m: int|
                    0 <= m < edges@.len() && s.functions@[edges@[m] as int].name@ == (#[trigger] c.calls@[kk])@ by {
                    if kk < k {
                        let m = choose|m: int| 0 <= m < pe.len() && s.functions@[pe[m] as int].name@ == c.calls@[kk]@;
                        assert(edges@[m] == pe[m]);
                    } else {
                        assert(s.functions@[edges@[edges@.len() - 1] as int].name@ == c.calls@[kk]@);
                    }
                }
            }
            k = k + 1;
        }
        let ghost pa = adj@;
        proof {
            assert forall|u: int| 0 <= u < n && #[trigger] calls_function(s, i as int, u) implies exists|m: int|
                0 <= m < edges@.len() && edges@[m] == u by {
                let nm = s.functions@[u].name@;
                assert(name_set(c.calls@).contains(nm));
                let kk = choose|kk: int| 0 <= kk < crate::opt::views_of(c.calls@).len() && crate::opt::views_of(c.calls@)[kk] == nm;
                assert(c.calls@[kk]@ == nm);
                let m = choose|m: int| 0 <= m < edges@.len() && s.functions@[edges@[m] as int].name@ == (#[trigger] c.calls@[kk])@;
                let w = edges@[m] as int;
                if w < u {
                    assert(s.functions@[w].name@ != s.functions@[u].name@);
                } else if w > u {
                    assert(s.functions@[u].name@ != s.functions@[w].name@);
                }
            }
        }
        let ghost ev = edges@;
        sig = c.sig;
        preferences = c.preferences;
        tables = c.tables;
        adj.push(edges);
        proof {
            assert forall|a: int, u: int| 0 <= a < i + 1 && 0 <= u < n && #[trigger] calls_function(s, a, u) implies exists|m: int|
                0 <= m < adj@[a]@.len() && adj@[a]@[m] == u by {
                if a < i {
                    assert(adj@[a] == pa[a]);
                } else {
                    assert(adj@[a]@ == ev);
                    assert(calls_function(s, i as int, u));
                }
            }
        }
        i = i + 1;
    }
    let mut c = Check {
        sig: sig,
        ret: None,
        calls: Vec::new(),
        preferences: preferences,
        tables: tables,
        uses_key_value: false,
        uses_sqlite: false,
    };
    let ghost ca = c.ctx();
    let ghost c1 = c;
    proof {
        assert(context_of(ca, s, None));
    }
    let mut env: Vec<(String, Binding)> = Vec::new();
    let mut j: usize = 0;
    let ghost st = s.activity.state@;
    assert(st.take(0) =~= Seq::<State>::empty());
    assert(used_state(st.take(0)) == Set::<Used>::empty());
    while j < s.activity.state.len()
        invariant
            j <= st.len(),
            st == s.activity.state@,
            c.keeps(c1),
            ca == c1.ctx(),
            states_env(st.take(j as int), ca) == Ok::<Seq<(String, Binding)>, Fault>(env@),
            tracks(c, c1, used_state(st.take(j as int))),
        decreases s.activity.state@.len() - j,
    {
        let x = &s.activity.state[j];
        let t = c.expr(&x.initial, &env)?;
        req(x.ty, t, x.initial.span)?;
        proof {
            assert(st.take(j + 1).drop_last() =~= st.take(j as int));
            assert(st.take(j + 1).last() == st[j as int]);
        }
        if bind(&mut env, &x.name, Binding { ty: x.ty, mutable: true, is_view: false }) {
            return Err(Diagnostic::at("AIC1124", x.span, owned("duplicate activity state")));
        }
        j = j + 1;
    }
    assert(st.take(j as int) =~= st);
    let ghost env0 = env@;
    c.stmts(&s.activity.on_create, &mut env)?;
    let ghost after = env@;
    let ghost hs = s.activity.on_click@;
    let ghost u0 = used_state(st) + used_block(s.activity.on_create@);
    assert(hs.take(0) =~= Seq::<crate::ir::ClickHandler>::empty());
    assert(used_handlers(hs.take(0)) == Set::<Used>::empty());
    let mut buttons: Vec<String> = Vec::new();
    let mut j: usize = 0;
    while j < s.activity.on_create.len()
        invariant
            j <= s.activity.on_create@.len(),
        decreases s.activity.on_create@.len() - j,
    {
        match &s.activity.on_create[j].kind {
            StatementKind::Button { id, .. } => add_name(&mut buttons, id),
            _ => {},
        }
        j = j + 1;
    }
    let mut handled: Vec<String> = Vec::new();
    let mut j: usize = 0;
    while j < s.activity.on_click.len()
        invariant
            j <= s.activity.on_click@.len(),
            c.keeps(c1),
            env@ == after,
            forall|k: int| 0 <= k < j ==> block_type((#[trigger] s.activity.on_click@[k]).body@, after, ca) is Ok,
            hs == s.activity.on_click@,
            tracks(c, c1, u0 + used_handlers(hs.take(j as int))),
        decreases s.activity.on_click@.len() - j,
    {
        let h = &s.activity.on_click[j];
        if !contains_name(&buttons, h.view.as_str()) {
            return Err(Diagnostic::at("AIC1125", h.span, owned("on_click target must be a declared button")));
        }
        if contains_name(&handled, h.view.as_str()) {
            return Err(Diagnostic::at("AIC1126", h.span, owned("duplicate on_click handler")));
        }
        handled.push(h.view.clone());
        let mut scope = copy_env(&env);
        c.stmts(&h.body, &mut scope)?;
        proof {
            assert(hs.take(j + 1).drop_last() =~= hs.take(j as int));
            assert(hs.take(j + 1).last() == hs[j as int]);
        }
        j = j + 1;
    }
    if c.uses_key_value && !kv {
        return Err(Diagnostic::global("AIC1315", owned("capability `persistence.key_value` is used but not declared")));
    }
    if c.uses_sqlite && !sql {
        return Err(Diagnostic::global("AIC1315", owned("capability `persistence.sqlite` is used but not declared")));
    }
    if kv && !c.uses_key_value {
        return Err(Diagnostic::global("AIC1316", owned("declared capability `persistence.key_value` is unused")));
    }
    if sql && !c.uses_sqlite {
        return Err(Diagnostic::global("AIC1316", owned("declared capability `persistence.sqlite` is unused")));
    }
    proof {
        let g = adj@.map_values(|v: Vec<usize>| v@);
        assert forall|t: int, k: int| 0 <= t < g.len() && 0 <= k < g[t].len() implies (#[trigger] g[t][k]) < g.len() by {
            assert(g[t] == adj@[t]@);
        }
    }
    cycles(&adj)?;
    proof {
        assert(activity_typed(s.activity, ca));
        assert(well_typed(s));
        assert(hs.take(hs.len() as int) =~= hs);
        assert(capabilities_agree(s));
        let g = adj@.map_values(|v: Vec<usize>| v@);
        let rank = choose|rank: Seq<nat>| crate::ir::graph::ranks(g, rank);
        assert forall|a: int, u: int|
            0 <= a < s.functions@.len() && 0 <= u < s.functions@.len() && #[trigger] calls_function(s, a, u)
                implies rank[u] < rank[a] by {
            let m = choose|m: int| 0 <= m < adj@[a]@.len() && adj@[a]@[m] == u;
            assert(g[a] == adj@[a]@);
            assert(rank[g[a][m] as int] < rank[a]);
        }
        assert(ranked_calls(s, rank));
    }
    let capabilities = capability_list(kv, sql);
    let functions = into_functions(s.functions);
    Ok(Program {
        version: s.version,
        label: s.label,
        package: s.package,
        capabilities,
        preferences: s.preferences,
        database: s.database,
        functions,
        activity: Activity {
            name: s.activity.name,
            state: s.activity.state,
            on_create: s.activity.on_create,
            on_click: s.activity.on_click,
        },
    })
}

/// Parses and validates AIC source text.
pub fn parse_program(source: &str) -> (r: Result<Program, Diagnostic>)
    requires
        source@.len() < usize::MAX,
    ensures
        r matches Ok(p) ==> p.version@ == "0.1"@ && valid_package(p.package@) && content_views(p.activity.on_create@)
            == 1 && distinct_names(p.functions@),
        r matches Ok(p) ==> exists|s: SyntaxProgram| #[trigger] validated(s, p) && well_typed(s) && capabilities_agree(s)
            && no_recursion(s),
        tokens(source@) matches Err(f) ==> (r matches Err(d) && d.code == f.0 && d.location == f.1),
{
    let s = match parse(source) {
        Ok(s) => s,
        Err(d) => return Err(d),
    };
    let ghost tree = s;
    let r = verify(s);
    proof {
        if r is Ok {
            assert(validated(tree, r->Ok_0) && well_typed(tree) && capabilities_agree(tree) && no_recursion(tree));
        }
    }
    r
}

} // verus!
