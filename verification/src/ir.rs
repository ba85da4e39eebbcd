//! Source-located syntax tree of the AIC language and its validated program form.
use vstd::prelude::*;
use crate::text::{str_eq, owned};

pub mod lex;
pub mod parse;
pub mod check;
pub mod eval;
pub mod graph;
pub mod program;

verus! {

#[derive(Clone, Copy, Debug, PartialEq, Eq, Structural)]
pub struct SourceLocation {
    pub line: usize,
    pub column: usize,
}

#[derive(Clone, Copy, Debug, PartialEq, Eq, Structural)]
pub struct SourceSpan {
    pub start: SourceLocation,
    pub end: SourceLocation,
}

/// A coded compiler diagnostic, located in the source when it concerns one place.
#[derive(Clone, Debug, PartialEq, Eq)]
pub struct Diagnostic {
    pub code: &'static str,
    pub location: Option<SourceSpan>,
    pub message: String,
}

/// A failure as the contracts state it: the diagnostic code and the place it points at.
pub type Fault = (&'static str, Option<SourceSpan>);

impl Diagnostic {
    pub fn at(code: &'static str, s: SourceSpan, m: String) -> (d: Self)
        ensures
            d.code == code,
            d.location == Some(s),
            d.message == m,
    {
        Diagnostic { code, location: Some(s), message: m }
    }

    pub fn global(code: &'static str, m: String) -> (d: Self)
        ensures
            d.code == code,
            d.location == None::<SourceSpan>,
            d.message == m,
    {
        Diagnostic { code, location: None, message: m }
    }
}

pub open spec fn slash_at(d: Seq<char>, i: int) -> bool {
    d[i] == '/'
}

/// `L` + slash-separated non-empty segments free of `.`, `;`, `[` + `;`.
pub open spec fn valid_descriptor(d: Seq<char>) -> bool {
    &&& d.len() >= 3
    &&& d[0] == 'L'
    &&& d.last() == ';'
    &&& d[1] != '/'
    &&& d[d.len() - 2] != '/'
    &&& forall|i: int| 1 <= i < d.len() - 1 ==> d[i] != '.' && d[i] != ';' && d[i] != '['
    &&& forall|i: int| 1 <= i < d.len() - 2 ==> !(slash_at(d, i) && d[i + 1] == '/')
}

#[derive(Debug, PartialEq, Eq)]
pub struct MinimalClass {
    descriptor: String,
}

impl MinimalClass {
    pub closed spec fn spec_descriptor(&self) -> Seq<char> {
        self.descriptor@
    }

    #[verifier::type_invariant]
    closed spec fn well_formed(&self) -> bool {
        valid_descriptor(self.descriptor@)
    }

    /// Accepts a DEX class descriptor such as `Ldev/aic/X;`.
    pub fn new(v: &str) -> (r: Result<Self, Diagnostic>)
        ensures
            valid_descriptor(v@) ==> (r matches Ok(c) && c.spec_descriptor() == v@),
            !valid_descriptor(v@) ==> (r matches Err(d) && d.code == "AIC0001" && d.location is None),
    {
        let cs = crate::encoding::chars_of(v);
        let n = cs.len();
        let mut ok = n >= 3 && cs[0] == 'L' && cs[n - 1] == ';';
        if ok {
            ok = cs[1] != '/' && cs[n - 2] != '/';
        }
        let mut i: usize = 1;
        while ok && i + 1 < n
            invariant
                cs@ == v@,
                n == cs@.len(),
                1 <= i,
                ok ==> i < n,
                ok ==> n >= 3 && cs@[0] == 'L' && cs@.last() == ';' && cs@[1] != '/' && cs@[n - 2] != '/',
                ok ==> forall|j: int| 1 <= j < i && j < n - 1 ==> cs@[j] != '.' && cs@[j] != ';' && cs@[j] != '[',
                ok ==> forall|j: int| 1 <= j < i && j < n - 2 ==> !(slash_at(cs@, j) && cs@[j + 1] == '/'),
                !ok ==> !valid_descriptor(v@),
            decreases n - i + (if ok { 1int } else { 0 }),
        {
            let c = cs[i];
            if c == '.' || c == ';' || c == '[' {
                ok = false;
            } else if i + 2 < n && c == '/' && cs[i + 1] == '/' {
                assert(slash_at(cs@, i as int));
                ok = false;
            } else {
                i = i + 1;
            }
        }
        if ok {
            assert(i + 1 >= n);
            assert(forall|j: int| 1 <= j < n - 1 ==> cs@[j] != '.' && cs@[j] != ';' && cs@[j] != '[');
            assert(valid_descriptor(v@));
        }
        if !ok {
            return Err(Diagnostic::global("AIC0001", crate::text::concat("invalid DEX class descriptor: ", v)));
        }
        Ok(MinimalClass { descriptor: owned(v) })
    }

    pub fn descriptor(&self) -> (r: &str)
        ensures
            r@ == self.spec_descriptor(),
            valid_descriptor(r@),
    {
        proof {
            use_type_invariant(self);
        }
        self.descriptor.as_str()
    }
}

#[derive(Clone, Copy, Debug, PartialEq, Eq, PartialOrd, Ord, Structural)]
pub enum Type {
    I32,
    Bool,
    String,
}

#[derive(Clone, Debug, PartialEq, Eq)]
pub enum Value {
    I32(i32),
    Bool(bool),
    String(String),
}

/// Mathematical content of a value.
pub enum ValueView {
    I32(i32),
    Bool(bool),
    Str(Seq<char>),
}

impl View for Value {
    type V = ValueView;

    open spec fn view(&self) -> ValueView {
        match self {
            Value::I32(v) => ValueView::I32(*v),
            Value::Bool(v) => ValueView::Bool(*v),
            Value::String(s) => ValueView::Str(s@),
        }
    }
}

pub open spec fn value_type(v: ValueView) -> Type {
    match v {
        ValueView::I32(_) => Type::I32,
        ValueView::Bool(_) => Type::Bool,
        ValueView::Str(_) => Type::String,
    }
}

impl Value {
    pub fn ty(&self) -> (t: Type)
        ensures
            t == value_type(self@),
    {
        match self {
            Value::I32(_) => Type::I32,
            Value::Bool(_) => Type::Bool,
            Value::String(_) => Type::String,
        }
    }
}

/// Copy of a value with the same content.
pub fn clone_value(v: &Value) -> (r: Value)
    ensures
        r == *v,
        r@ == v@,
{
    match v {
        Value::I32(x) => Value::I32(*x),
        Value::Bool(x) => Value::Bool(*x),
        Value::String(s) => Value::String(s.clone()),
    }
}

/// Equality of value contents.
pub fn value_eq(a: &Value, b: &Value) -> (r: bool)
    ensures
        r == (a@ == b@),
{
    match (a, b) {
        (Value::I32(x), Value::I32(y)) => *x == *y,
        (Value::Bool(x), Value::Bool(y)) => *x == *y,
        (Value::String(x), Value::String(y)) => str_eq(x.as_str(), y.as_str()),
        _ => false,
    }
}

#[derive(Debug, PartialEq, Eq)]
pub struct Expression {
    pub kind: ExpressionKind,
    pub span: SourceSpan,
}

#[derive(Debug, PartialEq, Eq)]
pub enum ExpressionKind {
    Literal(Value),
    Name(String),
    Unary { op: UnaryOp, value: Box<Expression> },
    Binary { op: BinaryOp, left: Box<Expression>, right: Box<Expression> },
    Call { name: String, args: Vec<Expression> },
    AndroidText { view: String },
    PreferenceGet { key: String },
    DatabaseInsert { table: String, values: Vec<(String, Expression)> },
    DatabaseExists { table: String, id: Box<Expression> },
    DatabaseGet { table: String, id: Box<Expression>, column: String, default: Box<Expression> },
}

#[derive(Clone, Copy, Debug, PartialEq, Eq, Structural)]
pub enum UnaryOp {
    Negate,
    Not,
}

#[derive(Clone, Copy, Debug, PartialEq, Eq, Structural)]
pub enum BinaryOp {
    Add,
    Subtract,
    Multiply,
    Divide,
    Remainder,
    Equal,
    NotEqual,
    Less,
    LessEqual,
    Greater,
    GreaterEqual,
    And,
    Or,
}

#[derive(Debug, PartialEq, Eq)]
pub struct Statement {
    pub kind: StatementKind,
    pub span: SourceSpan,
}

#[derive(Debug, PartialEq, Eq)]
pub enum StatementKind {
    Declare { mutable: bool, name: String, ty: Option<Type>, value: Expression },
    Assign { name: String, value: Expression },
    Return(Expression),
    If { condition: Expression, then_body: Vec<Statement>, else_body: Vec<Statement> },
    For { variable: String, start: Expression, end: Expression, body: Vec<Statement> },
    LinearLayout { id: String, orientation: Orientation },
    TextView { id: String, text: Expression },
    Button { id: String, text: Expression },
    EditText { id: String, hint: Expression },
    TextInput { id: String, hint: Expression },
    ScrollView { id: String },
    AddView { parent: String, child: String },
    SetContentView { view: String },
    SetText { view: String, text: Expression },
    SetLayout { view: String, width: LayoutSize, height: LayoutSize, weight: i32 },
    SetTextColor { view: String, color: String },
    SetBackgroundColor { view: String, color: String },
    PreferenceSet { key: String, value: Expression },
    DatabaseUpdate { table: String, id: Expression, values: Vec<(String, Expression)> },
    DatabaseDelete { table: String, id: Expression },
}

#[derive(Clone, Copy, Debug, PartialEq, Eq, PartialOrd, Ord, Structural)]
pub enum Capability {
    KeyValue,
    Sqlite,
}

impl Capability {
    pub fn name(self) -> (r: &'static str)
        ensures
            r@ == capability_name(self),
    {
        proof {
            reveal_strlit("persistence.key_value");
            reveal_strlit("persistence.sqlite");
        }
        match self {
            Capability::KeyValue => "persistence.key_value",
            Capability::Sqlite => "persistence.sqlite",
        }
    }
}

/// The source spelling of a capability.
pub open spec fn capability_name(c: Capability) -> Seq<char> {
    match c {
        Capability::KeyValue => seq!['p', 'e', 'r', 's', 'i', 's', 't', 'e', 'n', 'c', 'e', '.', 'k', 'e', 'y', '_', 'v', 'a', 'l', 'u', 'e'],
        Capability::Sqlite => seq!['p', 'e', 'r', 's', 'i', 's', 't', 'e', 'n', 'c', 'e', '.', 's', 'q', 'l', 'i', 't', 'e'],
    }
}

#[derive(Clone, Debug, PartialEq, Eq)]
pub struct Preference {
    pub name: String,
    pub ty: Type,
    pub default: Value,
    pub span: SourceSpan,
}

#[derive(Clone, Debug, PartialEq, Eq)]
pub struct Column {
    pub name: String,
    pub ty: Type,
    pub primary_key: bool,
    pub auto_increment: bool,
    pub span: SourceSpan,
}

#[derive(Clone, Debug, PartialEq, Eq)]
pub struct Table {
    pub name: String,
    pub columns: Vec<Column>,
    pub span: SourceSpan,
}

#[derive(Clone, Debug, PartialEq, Eq)]
pub struct Database {
    pub name: String,
    pub version: i32,
    pub tables: Vec<Table>,
    pub span: SourceSpan,
}

#[derive(Clone, Copy, Debug, PartialEq, Eq, Structural)]
pub enum Orientation {
    Vertical,
    Horizontal,
}

#[derive(Clone, Copy, Debug, PartialEq, Eq, Structural)]
pub enum LayoutSize {
    MatchParent,
    WrapContent,
}

#[derive(Clone, Debug, PartialEq, Eq)]
pub struct State {
    pub name: String,
    pub ty: Type,
    pub initial: Expression,
    pub span: SourceSpan,
}

#[derive(Clone, Debug, PartialEq, Eq)]
pub struct ClickHandler {
    pub view: String,
    pub body: Vec<Statement>,
    pub span: SourceSpan,
}

#[derive(Clone, Debug, PartialEq, Eq)]
pub struct Parameter {
    pub name: String,
    pub ty: Type,
    pub span: SourceSpan,
}

#[derive(Clone, Debug, PartialEq, Eq)]
pub struct SyntaxFunction {
    pub name: String,
    pub params: Vec<Parameter>,
    pub return_type: Type,
    pub body: Vec<Statement>,
    pub span: SourceSpan,
}

#[derive(Clone, Debug, PartialEq, Eq)]
pub struct SyntaxActivity {
    pub name: String,
    pub state: Vec<State>,
    pub on_create: Vec<Statement>,
    pub on_click: Vec<ClickHandler>,
}

#[derive(Clone, Debug, PartialEq, Eq)]
pub struct SyntaxProgram {
    pub version: String,
    pub label: String,
    pub package: String,
    pub capabilities: Vec<(Capability, SourceSpan)>,
    pub preferences: Vec<Preference>,
    pub database: Option<Database>,
    pub functions: Vec<SyntaxFunction>,
    pub activity: SyntaxActivity,
}

#[derive(Clone, Debug, PartialEq, Eq)]
pub struct Function {
    pub name: String,
    pub params: Vec<Parameter>,
    pub return_type: Type,
    pub body: Vec<Statement>,
    pub span: SourceSpan,
}

#[derive(Clone, Debug, PartialEq, Eq)]
pub struct Activity {
    pub name: String,
    pub state: Vec<State>,
    pub on_create: Vec<Statement>,
    pub on_click: Vec<ClickHandler>,
}

/// A verified program. `capabilities` is sorted and free of duplicates.
#[derive(Clone, Debug, PartialEq, Eq)]
pub struct Program {
    pub version: String,
    pub label: String,
    pub package: String,
    pub capabilities: Vec<Capability>,
    pub preferences: Vec<Preference>,
    pub database: Option<Database>,
    pub functions: Vec<Function>,
    pub activity: Activity,
}

/// `a` copies `b`: the same expression, field for field.
pub open spec fn same_expr(a: Expression, b: Expression) -> bool
    decreases b, 0int,
{
    a.span == b.span && match b.kind {
        ExpressionKind::Literal(v) => a.kind == ExpressionKind::Literal(v),
        ExpressionKind::Name(n) => a.kind == ExpressionKind::Name(n),
        ExpressionKind::Unary { op, value } => a.kind matches ExpressionKind::Unary { op: o, value: x } && o == op
            && same_expr(*x, *value),
        ExpressionKind::Binary { op, left, right } => a.kind matches ExpressionKind::Binary { op: o, left: l, right: r }
            && o == op && same_expr(*l, *left) && same_expr(*r, *right),
        ExpressionKind::Call { name, args } => a.kind matches ExpressionKind::Call { name: n, args: x } && n == name
            && same_exprs(x@, args@),
        ExpressionKind::AndroidText { view } => a.kind == ExpressionKind::AndroidText { view },
        ExpressionKind::PreferenceGet { key } => a.kind == ExpressionKind::PreferenceGet { key },
        ExpressionKind::DatabaseInsert { table, values } => a.kind matches ExpressionKind::DatabaseInsert {
            table: t,
            values: x,
        } && t == table && same_named(x@, values@),
        ExpressionKind::DatabaseExists { table, id } => a.kind matches ExpressionKind::DatabaseExists { table: t, id: x }
            && t == table && same_expr(*x, *id),
        ExpressionKind::DatabaseGet { table, id, column, default } => a.kind matches ExpressionKind::DatabaseGet {
            table: t,
            id: x,
            column: c,
            default: y,
        } && t == table && c == column && same_expr(*x, *id) && same_expr(*y, *default),
    }
}

/// `a` copies the expressions `b`, in order.
pub open spec fn same_exprs(a: Seq<Expression>, b: Seq<Expression>) -> bool
    decreases b, 1int,
{
    a.len() == b.len() && (b.len() == 0 || (same_exprs(a.drop_last(), b.drop_last()) && same_expr(
        a[a.len() - 1],
        b[b.len() - 1],
    )))
}

/// `a` copies the named expressions `b`, in order.
pub open spec fn same_named(a: Seq<(String, Expression)>, b: Seq<(String, Expression)>) -> bool
    decreases b, 1int,
{
    a.len() == b.len() && (b.len() == 0 || (same_named(a.drop_last(), b.drop_last()) && a[a.len() - 1].0 == b[b.len()
        - 1].0 && same_expr(a[a.len() - 1].1, b[b.len() - 1].1)))
}

/// `a` copies the statement `b`, field for field.
pub open spec fn same_stmt(a: Statement, b: Statement) -> bool
    decreases b, 0int,
{
    a.span == b.span && match b.kind {
        StatementKind::Declare { mutable, name, ty, value } => a.kind matches StatementKind::Declare {
            mutable: m,
            name: n,
            ty: t,
            value: x,
        } && m == mutable && n == name && t == ty && same_expr(x, value),
        StatementKind::Assign { name, value } => a.kind matches StatementKind::Assign { name: n, value: x } && n == name
            && same_expr(x, value),
        StatementKind::Return(value) => a.kind matches StatementKind::Return(x) && same_expr(x, value),
        StatementKind::If { condition, then_body, else_body } => a.kind matches StatementKind::If {
            condition: c,
            then_body: t,
            else_body: e,
        } && same_expr(c, condition) && same_stmts(t@, then_body@) && same_stmts(e@, else_body@),
        StatementKind::For { variable, start, end, body } => a.kind matches StatementKind::For {
            variable: v,
            start: s,
            end: e,
            body: x,
        } && v == variable && same_expr(s, start) && same_expr(e, end) && same_stmts(x@, body@),
        StatementKind::TextView { id, text } => a.kind matches StatementKind::TextView { id: i, text: x } && i == id
            && same_expr(x, text),
        StatementKind::Button { id, text } => a.kind matches StatementKind::Button { id: i, text: x } && i == id
            && same_expr(x, text),
        StatementKind::EditText { id, hint } => a.kind matches StatementKind::EditText { id: i, hint: x } && i == id
            && same_expr(x, hint),
        StatementKind::TextInput { id, hint } => a.kind matches StatementKind::TextInput { id: i, hint: x } && i == id
            && same_expr(x, hint),
        StatementKind::SetText { view, text } => a.kind matches StatementKind::SetText { view: v, text: x } && v == view
            && same_expr(x, text),
        StatementKind::PreferenceSet { key, value } => a.kind matches StatementKind::PreferenceSet { key: k, value: x }
            && k == key && same_expr(x, value),
        StatementKind::DatabaseUpdate { table, id, values } => a.kind matches StatementKind::DatabaseUpdate {
            table: t,
            id: x,
            values: v,
        } && t == table && same_expr(x, id) && same_named(v@, values@),
        StatementKind::DatabaseDelete { table, id } => a.kind matches StatementKind::DatabaseDelete { table: t, id: x }
            && t == table && same_expr(x, id),
        _ => a.kind == b.kind,
    }
}

/// `a` copies the statements `b`, in order.
pub open spec fn same_stmts(a: Seq<Statement>, b: Seq<Statement>) -> bool
    decreases b, 1int,
{
    a.len() == b.len() && (b.len() == 0 || (same_stmts(a.drop_last(), b.drop_last()) && same_stmt(
        a[a.len() - 1],
        b[b.len() - 1],
    )))
}

/// Deep copy of an expression.
pub(crate) fn clone_expression(e: &Expression) -> (r: Expression)
    ensures
        same_expr(r, *e),
    decreases e,
{
    let kind = match &e.kind {
        ExpressionKind::Literal(v) => ExpressionKind::Literal(clone_value(v)),
        ExpressionKind::Name(n) => ExpressionKind::Name(n.clone()),
        ExpressionKind::Unary { op, value } => ExpressionKind::Unary { op: *op, value: Box::new(clone_expression(value)) },
        ExpressionKind::Binary { op, left, right } => ExpressionKind::Binary {
            op: *op,
            left: Box::new(clone_expression(left)),
            right: Box::new(clone_expression(right)),
        },
        ExpressionKind::Call { name, args } => ExpressionKind::Call { name: name.clone(), args: clone_expressions(args) },
        ExpressionKind::AndroidText { view } => ExpressionKind::AndroidText { view: view.clone() },
        ExpressionKind::PreferenceGet { key } => ExpressionKind::PreferenceGet { key: key.clone() },
        ExpressionKind::DatabaseInsert { table, values } => ExpressionKind::DatabaseInsert {
            table: table.clone(),
            values: clone_named(values),
        },
        ExpressionKind::DatabaseExists { table, id } => ExpressionKind::DatabaseExists {
            table: table.clone(),
            id: Box::new(clone_expression(id)),
        },
        ExpressionKind::DatabaseGet { table, id, column, default } => ExpressionKind::DatabaseGet {
            table: table.clone(),
            id: Box::new(clone_expression(id)),
            column: column.clone(),
            default: Box::new(clone_expression(default)),
        },
    };
    Expression { kind, span: e.span }
}

pub(crate) fn clone_expressions(v: &Vec<Expression>) -> (r: Vec<Expression>)
    ensures
        same_exprs(r@, v@),
    decreases v,
{
    let mut out: Vec<Expression> = Vec::new();
    let mut i: usize = 0;
    while i < v.len()
        invariant
            i <= v@.len(),
            out@.len() == i,
            same_exprs(out@, v@.take(i as int)),
        decreases v@.len() - i,
    {
        proof {
            vstd::std_specs::vec::axiom_vec_index_decreases(*v, i as int);
        }
        let ghost before = out@;
        out.push(clone_expression(&v[i]));
        i = i + 1;
        proof {
            assert(out@.drop_last() =~= before);
            assert(v@.take(i as int).drop_last() =~= v@.take(i - 1));
        }
    }
    assert(v@.take(i as int) =~= v@);
    out
}

pub(crate) fn clone_named(v: &Vec<(String, Expression)>) -> (r: Vec<(String, Expression)>)
    ensures
        same_named(r@, v@),
    decreases v,
{
    let mut out: Vec<(String, Expression)> = Vec::new();
    let mut i: usize = 0;
    while i < v.len()
        invariant
            i <= v@.len(),
            out@.len() == i,
            same_named(out@, v@.take(i as int)),
        decreases v@.len() - i,
    {
        proof {
            vstd::std_specs::vec::axiom_vec_index_decreases(*v, i as int);
        }
        let ghost before = out@;
        out.push((v[i].0.clone(), clone_expression(&v[i].1)));
        i = i + 1;
        proof {
            assert(out@.drop_last() =~= before);
            assert(v@.take(i as int).drop_last() =~= v@.take(i - 1));
        }
    }
    assert(v@.take(i as int) =~= v@);
    out
}

/// Deep copy of a statement.
pub(crate) fn clone_statement(s: &Statement) -> (r: Statement)
    ensures
        same_stmt(r, *s),
    decreases s,
{
    let kind = match &s.kind {
        StatementKind::Declare { mutable, name, ty, value } => StatementKind::Declare {
            mutable: *mutable, name: name.clone(), ty: *ty, value: clone_expression(value),
        },
        StatementKind::Assign { name, value } => StatementKind::Assign { name: name.clone(), value: clone_expression(value) },
        StatementKind::Return(x) => StatementKind::Return(clone_expression(x)),
        StatementKind::If { condition, then_body, else_body } => StatementKind::If {
            condition: clone_expression(condition),
            then_body: clone_statements(then_body),
            else_body: clone_statements(else_body),
        },
        StatementKind::For { variable, start, end, body } => StatementKind::For {
            variable: variable.clone(),
            start: clone_expression(start),
            end: clone_expression(end),
            body: clone_statements(body),
        },
        StatementKind::LinearLayout { id, orientation } => StatementKind::LinearLayout { id: id.clone(), orientation: *orientation },
        StatementKind::TextView { id, text } => StatementKind::TextView { id: id.clone(), text: clone_expression(text) },
        StatementKind::Button { id, text } => StatementKind::Button { id: id.clone(), text: clone_expression(text) },
        StatementKind::EditText { id, hint } => StatementKind::EditText { id: id.clone(), hint: clone_expression(hint) },
        StatementKind::TextInput { id, hint } => StatementKind::TextInput { id: id.clone(), hint: clone_expression(hint) },
        StatementKind::ScrollView { id } => StatementKind::ScrollView { id: id.clone() },
        StatementKind::AddView { parent, child } => StatementKind::AddView { parent: parent.clone(), child: child.clone() },
        StatementKind::SetContentView { view } => StatementKind::SetContentView { view: view.clone() },
        StatementKind::SetText { view, text } => StatementKind::SetText { view: view.clone(), text: clone_expression(text) },
        StatementKind::SetLayout { view, width, height, weight } => StatementKind::SetLayout {
            view: view.clone(), width: *width, height: *height, weight: *weight,
        },
        StatementKind::SetTextColor { view, color } => StatementKind::SetTextColor { view: view.clone(), color: color.clone() },
        StatementKind::SetBackgroundColor { view, color } => StatementKind::SetBackgroundColor { view: view.clone(), color: color.clone() },
        StatementKind::PreferenceSet { key, value } => StatementKind::PreferenceSet { key: key.clone(), value: clone_expression(value) },
        StatementKind::DatabaseUpdate { table, id, values } => StatementKind::DatabaseUpdate {
            table: table.clone(), id: clone_expression(id), values: clone_named(values),
        },
        StatementKind::DatabaseDelete { table, id } => StatementKind::DatabaseDelete { table: table.clone(), id: clone_expression(id) },
    };
    Statement { kind, span: s.span }
}

pub(crate) fn clone_statements(v: &Vec<Statement>) -> (r: Vec<Statement>)
    ensures
        same_stmts(r@, v@),
    decreases v,
{
    let mut out: Vec<Statement> = Vec::new();
    let mut i: usize = 0;
    while i < v.len()
        invariant
            i <= v@.len(),
            out@.len() == i,
            same_stmts(out@, v@.take(i as int)),
        decreases v@.len() - i,
    {
        proof {
            vstd::std_specs::vec::axiom_vec_index_decreases(*v, i as int);
        }
        let ghost before = out@;
        out.push(clone_statement(&v[i]));
        i = i + 1;
        proof {
            assert(out@.drop_last() =~= before);
            assert(v@.take(i as int).drop_last() =~= v@.take(i - 1));
        }
    }
    assert(v@.take(i as int) =~= v@);
    out
}

impl Clone for Expression {
    fn clone(&self) -> (r: Self) {
        clone_expression(self)
    }
}

impl Clone for Statement {
    fn clone(&self) -> (r: Self) {
        clone_statement(self)
    }
}

/// `s` names the word `w`.
pub fn is_word(s: &String, w: &str) -> (r: bool)
    ensures
        r == (s@ == w@),
{
    str_eq(s.as_str(), w)
}

} // verus!
