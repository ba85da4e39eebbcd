//! Recursive-descent parser from tokens to the AIC syntax tree.
use vstd::prelude::*;
use crate::ir::{Diagnostic, SourceSpan, SourceLocation, Expression, ExpressionKind, BinaryOp, UnaryOp, Type, Value, LayoutSize, Orientation, Statement, StatementKind, is_word, Capability, Preference, Column, Table, Database, Parameter, SyntaxFunction, SyntaxActivity, SyntaxProgram, State, ClickHandler, Program};
use crate::ir::lex::{lex, K, Sym, Tok, well_formed_tokens, tokens};
use crate::text::{owned, concat};

verus! {

/// Words reserved by the language; they never name a symbol.
pub open spec fn keyword_word(v: Seq<char>) -> bool {
    v == "aic_version"@ || v == "app"@ || v == "package"@ || v == "fn"@ || v == "activity"@
        || v == "on_create"@ || v == "on_click"@ || v == "state"@ || v == "capability"@
        || v == "preference"@ || v == "database"@ || v == "version"@ || v == "table"@
        || v == "let"@ || v == "var"@ || v == "return"@ || v == "if"@ || v == "else"@
        || v == "for"@ || v == "in"@ || v == "true"@ || v == "false"@ || v == "android"@
        || v == "i32"@ || v == "bool"@ || v == "string"@
}

fn keyword(v: &String) -> (r: bool)
    ensures
        r == keyword_word(v@),
{
    is_word(v, "aic_version") || is_word(v, "app") || is_word(v, "package") || is_word(v, "fn")
        || is_word(v, "activity") || is_word(v, "on_create") || is_word(v, "on_click")
        || is_word(v, "state") || is_word(v, "capability") || is_word(v, "preference")
        || is_word(v, "database") || is_word(v, "version") || is_word(v, "table")
        || is_word(v, "let") || is_word(v, "var") || is_word(v, "return") || is_word(v, "if")
        || is_word(v, "else") || is_word(v, "for") || is_word(v, "in") || is_word(v, "true")
        || is_word(v, "false") || is_word(v, "android") || is_word(v, "i32")
        || is_word(v, "bool") || is_word(v, "string")
}

/// `#RRGGBB` or `#AARRGGBB` with hexadecimal digits.
pub open spec fn valid_color_text(v: Seq<char>) -> bool {
    &&& (v.len() == 7 || v.len() == 9)
    &&& v[0] == '#'
    &&& forall|i: int| 1 <= i < v.len() ==> hex_digit(#[trigger] v[i])
}

pub open spec fn hex_digit(c: char) -> bool {
    ('0' <= c && c <= '9') || ('a' <= c && c <= 'f') || ('A' <= c && c <= 'F')
}

pub fn valid_color(value: &String) -> (r: bool)
    ensures
        r == valid_color_text(value@),
{
    let cs = crate::encoding::chars_of(value.as_str());
    if !(cs.len() == 7 || cs.len() == 9) || cs[0] != '#' {
        return false;
    }
    let mut i: usize = 1;
    while i < cs.len()
        invariant
            cs@ == value@,
            1 <= i <= cs@.len(),
            forall|j: int| 1 <= j < i ==> hex_digit(#[trigger] cs@[j]),
        decreases cs@.len() - i,
    {
        let c = cs[i];
        if !(('0' <= c && c <= '9') || ('a' <= c && c <= 'f') || ('A' <= c && c <= 'F')) {
            assert(!hex_digit(cs@[i as int]));
            return false;
        }
        i = i + 1;
    }
    true
}

/// Binary operator and precedence of an operator token.
/// The word `w`.
pub open spec fn word_is(k: K, w: Seq<char>) -> bool {
    match k {
        K::Word(v) => v@ == w,
        _ => false,
    }
}

/// A word that names a view constructor.
pub open spec fn view_constructor_word(k: K) -> bool {
    word_is(k, "linear_layout"@) || word_is(k, "text_view"@) || word_is(k, "button"@) || word_is(k, "edit_text"@)
        || word_is(k, "text_input"@) || word_is(k, "scroll_view"@)
}

/// The id of a view that a statement creates.
pub open spec fn view_id(k: StatementKind) -> Option<String> {
    match k {
        StatementKind::LinearLayout { id, .. } => Some(id),
        StatementKind::TextView { id, .. } => Some(id),
        StatementKind::Button { id, .. } => Some(id),
        StatementKind::EditText { id, .. } => Some(id),
        StatementKind::TextInput { id, .. } => Some(id),
        StatementKind::ScrollView { id } => Some(id),
        _ => None,
    }
}

/// The tokens from `i` on open a database declaration: `database`, a name, `version`,
/// an integer and `{`.
pub open spec fn database_header(t: Seq<Tok>, i: int) -> bool {
    &&& word_is(t[i].k, "database"@)
    &&& name_token(t[i + 1].k)
    &&& word_is(t[i + 2].k, "version"@)
    &&& t[i + 3].k is Int
    &&& t[i + 4].k == K::Sym(Sym::LBrace)
}

/// The operator a binary operator token stands for.
pub open spec fn op_of(k: K) -> BinaryOp {
    match k {
        K::Sym(s) => match spec_bin(s) {
            Some((op, _)) => op,
            None => BinaryOp::Add,
        },
        _ => BinaryOp::Add,
    }
}

/// How tightly a token binds as a binary operator.
pub open spec fn prec_of(k: K) -> int {
    match k {
        K::Sym(s) => precedence(s),
        _ => -1,
    }
}

/// The literal expression of an integer token.
pub open spec fn int_lit(x: Tok) -> Expression {
    Expression {
        kind: ExpressionKind::Literal(Value::I32(match x.k {
            K::Int(v) => v,
            _ => 0,
        })),
        span: x.s,
    }
}

/// `op` applied to `l` and `r`, spanning from the start of `l` to the end of `r`.
pub open spec fn joined(op: BinaryOp, l: Expression, r: Expression) -> Expression {
    Expression {
        kind: ExpressionKind::Binary { op, left: Box::new(l), right: Box::new(r) },
        span: SourceSpan { start: l.span.start, end: r.span.end },
    }
}

/// From `i` on: an integer, an operator binding at `min`, an integer, then no such operator.
pub open spec fn two_literals(t: Seq<Tok>, i: int, min: u8) -> bool {
    &&& t[i].k is Int
    &&& binds(t[i + 1].k, min)
    &&& t[i + 2].k is Int
    &&& !binds(t[i + 3].k, min)
}

/// From `i` on: three integers joined by two operators binding at `min`, then no such
/// operator.
pub open spec fn three_literals(t: Seq<Tok>, i: int, min: u8) -> bool {
    &&& t[i].k is Int
    &&& binds(t[i + 1].k, min)
    &&& t[i + 2].k is Int
    &&& binds(t[i + 3].k, min)
    &&& t[i + 4].k is Int
    &&& !binds(t[i + 5].k, min)
}

/// A word that is not a keyword.
pub open spec fn name_token(k: K) -> bool {
    match k {
        K::Word(v) => !keyword_word(v@),
        _ => false,
    }
}

/// A token that an expression can start with.
pub open spec fn starts_expression(k: K) -> bool {
    k is Int || k is Str || k is Word || k == K::Sym(Sym::Minus) || k == K::Sym(Sym::Bang) || k == K::Sym(Sym::LParen)
}

/// A binary operator token that binds at precedence `min` or tighter.
pub open spec fn binds(k: K, min: u8) -> bool {
    match k {
        K::Sym(s) => match spec_bin(s) {
            Some((_, p)) => p >= min,
            None => false,
        },
        _ => false,
    }
}

pub open spec fn spec_bin(k: Sym) -> Option<(BinaryOp, u8)> {
    match k {
        Sym::OrOr => Some((BinaryOp::Or, 1u8)),
        Sym::AndAnd => Some((BinaryOp::And, 2u8)),
        Sym::EqEq => Some((BinaryOp::Equal, 3u8)),
        Sym::NotEq => Some((BinaryOp::NotEqual, 3u8)),
        Sym::Less => Some((BinaryOp::Less, 4u8)),
        Sym::LessEq => Some((BinaryOp::LessEqual, 4u8)),
        Sym::Greater => Some((BinaryOp::Greater, 4u8)),
        Sym::GreaterEq => Some((BinaryOp::GreaterEqual, 4u8)),
        Sym::Plus => Some((BinaryOp::Add, 5u8)),
        Sym::Minus => Some((BinaryOp::Subtract, 5u8)),
        Sym::Star => Some((BinaryOp::Multiply, 6u8)),
        Sym::Slash => Some((BinaryOp::Divide, 6u8)),
        Sym::Percent => Some((BinaryOp::Remainder, 6u8)),
        _ => None,
    }
}

/// How tightly an operator symbol binds.
pub open spec fn precedence(k: Sym) -> int {
    match spec_bin(k) {
        Some((_, p)) => p as int,
        None => -1,
    }
}

/// The binary operators and how tightly they bind: `||` loosest, then `&&`, then `==` and
/// `!=`, then the orderings, then `+` and `-`, then `*`, `/` and `%` tightest; operators of
/// one line bind alike, so they group from the left. Each symbol stands for its operator,
/// and every operator binds at 1 or more, so a whole expression (parsed from 0) takes them all.
pub proof fn operator_table_law()
    ensures
        spec_bin(Sym::OrOr) matches Some((op, _)) && op == BinaryOp::Or,
        spec_bin(Sym::AndAnd) matches Some((op, _)) && op == BinaryOp::And,
        spec_bin(Sym::EqEq) matches Some((op, _)) && op == BinaryOp::Equal,
        spec_bin(Sym::NotEq) matches Some((op, _)) && op == BinaryOp::NotEqual,
        spec_bin(Sym::Less) matches Some((op, _)) && op == BinaryOp::Less,
        spec_bin(Sym::LessEq) matches Some((op, _)) && op == BinaryOp::LessEqual,
        spec_bin(Sym::Greater) matches Some((op, _)) && op == BinaryOp::Greater,
        spec_bin(Sym::GreaterEq) matches Some((op, _)) && op == BinaryOp::GreaterEqual,
        spec_bin(Sym::Plus) matches Some((op, _)) && op == BinaryOp::Add,
        spec_bin(Sym::Minus) matches Some((op, _)) && op == BinaryOp::Subtract,
        spec_bin(Sym::Star) matches Some((op, _)) && op == BinaryOp::Multiply,
        spec_bin(Sym::Slash) matches Some((op, _)) && op == BinaryOp::Divide,
        spec_bin(Sym::Percent) matches Some((op, _)) && op == BinaryOp::Remainder,
        1 <= precedence(Sym::OrOr) < precedence(Sym::AndAnd) < precedence(Sym::EqEq),
        precedence(Sym::EqEq) == precedence(Sym::NotEq),
        precedence(Sym::NotEq) < precedence(Sym::Less),
        precedence(Sym::Less) == precedence(Sym::LessEq) == precedence(Sym::Greater) == precedence(Sym::GreaterEq),
        precedence(Sym::GreaterEq) < precedence(Sym::Plus),
        precedence(Sym::Plus) == precedence(Sym::Minus),
        precedence(Sym::Minus) < precedence(Sym::Star),
        precedence(Sym::Star) == precedence(Sym::Slash) == precedence(Sym::Percent),
        precedence(Sym::Percent) < 255,
{
}

fn bin(k: &K) -> (r: Option<(BinaryOp, u8)>)
    ensures
        k matches K::Sym(s) ==> r == spec_bin(*s),
        !(k is Sym) ==> r is None,
{
    match k {
        K::Sym(Sym::OrOr) => Some((BinaryOp::Or, 1)),
        K::Sym(Sym::AndAnd) => Some((BinaryOp::And, 2)),
        K::Sym(Sym::EqEq) => Some((BinaryOp::Equal, 3)),
        K::Sym(Sym::NotEq) => Some((BinaryOp::NotEqual, 3)),
        K::Sym(Sym::Less) => Some((BinaryOp::Less, 4)),
        K::Sym(Sym::LessEq) => Some((BinaryOp::LessEqual, 4)),
        K::Sym(Sym::Greater) => Some((BinaryOp::Greater, 4)),
        K::Sym(Sym::GreaterEq) => Some((BinaryOp::GreaterEqual, 4)),
        K::Sym(Sym::Plus) => Some((BinaryOp::Add, 5)),
        K::Sym(Sym::Minus) => Some((BinaryOp::Subtract, 5)),
        K::Sym(Sym::Star) => Some((BinaryOp::Multiply, 6)),
        K::Sym(Sym::Slash) => Some((BinaryOp::Divide, 6)),
        K::Sym(Sym::Percent) => Some((BinaryOp::Remainder, 6)),
        _ => None,
    }
}

/// How a symbol is spelled in the source.
pub open spec fn sym_spelling(s: Sym) -> &'static str {
    match s {
        Sym::LBrace => "{",
        Sym::RBrace => "}",
        Sym::LParen => "(",
        Sym::RParen => ")",
        Sym::Colon => ":",
        Sym::Comma => ",",
        Sym::Assign => "=",
        Sym::Plus => "+",
        Sym::Minus => "-",
        Sym::Star => "*",
        Sym::Slash => "/",
        Sym::Percent => "%",
        Sym::Less => "<",
        Sym::Greater => ">",
        Sym::Bang => "!",
        Sym::Dot => ".",
        Sym::Arrow => "->",
        Sym::DotDot => "..",
        Sym::EqEq => "==",
        Sym::NotEq => "!=",
        Sym::LessEq => "<=",
        Sym::GreaterEq => ">=",
        Sym::AndAnd => "&&",
        Sym::OrOr => "||",
    }
}

fn sym_text(s: Sym) -> (r: &'static str)
    ensures
        r == sym_spelling(s),
{
    match s {
        Sym::LBrace => "{",
        Sym::RBrace => "}",
        Sym::LParen => "(",
        Sym::RParen => ")",
        Sym::Colon => ":",
        Sym::Comma => ",",
        Sym::Assign => "=",
        Sym::Plus => "+",
        Sym::Minus => "-",
        Sym::Star => "*",
        Sym::Slash => "/",
        Sym::Percent => "%",
        Sym::Less => "<",
        Sym::Greater => ">",
        Sym::Bang => "!",
        Sym::Dot => ".",
        Sym::Arrow => "->",
        Sym::DotDot => "..",
        Sym::EqEq => "==",
        Sym::NotEq => "!=",
        Sym::LessEq => "<=",
        Sym::GreaterEq => ">=",
        Sym::AndAnd => "&&",
        Sym::OrOr => "||",
    }
}

fn clone_k(k: &K) -> (r: K)
    ensures
        r == *k,
{
    match k {
        K::Word(w) => K::Word(w.clone()),
        K::Int(v) => K::Int(*v),
        K::Str(v) => K::Str(v.clone()),
        K::Sym(s) => K::Sym(*s),
        K::Eof => K::Eof,
    }
}

/// The type a word names: `i32`, `bool` or `string`.
pub open spec fn type_word(k: K) -> Option<Type> {
    match k {
        K::Word(v) => if v@ == "i32"@ {
            Some(Type::I32)
        } else if v@ == "bool"@ {
            Some(Type::Bool)
        } else if v@ == "string"@ {
            Some(Type::String)
        } else {
            None
        },
        _ => None,
    }
}

/// The layout size a word names.
pub open spec fn layout_word(k: K) -> Option<LayoutSize> {
    match k {
        K::Word(v) => if v@ == "match_parent"@ {
            Some(LayoutSize::MatchParent)
        } else if v@ == "wrap_content"@ {
            Some(LayoutSize::WrapContent)
        } else {
            None
        },
        _ => None,
    }
}

/// The layout size words are not keywords.
proof fn layout_words_are_names()
    ensures
        !keyword_word("match_parent"@),
        !keyword_word("wrap_content"@),
{
    reveal_strlit("match_parent");
    reveal_strlit("wrap_content");
    reveal_strlit("aic_version");
    assert("aic_version"@.len() == 11);
    reveal_strlit("app");
    assert("app"@.len() == 3);
    reveal_strlit("package");
    assert("package"@.len() == 7);
    reveal_strlit("fn");
    assert("fn"@.len() == 2);
    reveal_strlit("activity");
    assert("activity"@.len() == 8);
    reveal_strlit("on_create");
    assert("on_create"@.len() == 9);
    reveal_strlit("on_click");
    assert("on_click"@.len() == 8);
    reveal_strlit("state");
    assert("state"@.len() == 5);
    reveal_strlit("capability");
    assert("capability"@.len() == 10);
    reveal_strlit("preference");
    assert("preference"@.len() == 10);
    reveal_strlit("database");
    assert("database"@.len() == 8);
    reveal_strlit("version");
    assert("version"@.len() == 7);
    reveal_strlit("table");
    assert("table"@.len() == 5);
    reveal_strlit("let");
    assert("let"@.len() == 3);
    reveal_strlit("var");
    assert("var"@.len() == 3);
    reveal_strlit("return");
    assert("return"@.len() == 6);
    reveal_strlit("if");
    assert("if"@.len() == 2);
    reveal_strlit("else");
    assert("else"@.len() == 4);
    reveal_strlit("for");
    assert("for"@.len() == 3);
    reveal_strlit("in");
    assert("in"@.len() == 2);
    reveal_strlit("true");
    assert("true"@.len() == 4);
    reveal_strlit("false");
    assert("false"@.len() == 5);
    reveal_strlit("android");
    assert("android"@.len() == 7);
    reveal_strlit("i32");
    assert("i32"@.len() == 3);
    reveal_strlit("bool");
    assert("bool"@.len() == 4);
    reveal_strlit("string");
    assert("string"@.len() == 6);
    assert("match_parent"@.len() == 12);
    assert("wrap_content"@.len() == 12);
}

/// Errors of the parser are always located in the source.
pub open spec fn located<T>(r: Result<T, Diagnostic>) -> bool {
    r matches Err(d) ==> d.location is Some
}

pub struct Parser {
    pub t: Vec<Tok>,
    pub i: usize,
}

impl Parser {
    pub open spec fn wf(&self) -> bool {
        well_formed_tokens(self.t@) && self.i < self.t@.len()
    }

    /// `self` continues parsing the same tokens at or after the position of `before`.
    pub open spec fn advanced(&self, before: &Parser) -> bool {
        self.wf() && self.t@ == before.t@ && self.i >= before.i
    }

    pub open spec fn remaining(&self) -> int {
        self.t@.len() - self.i
    }

    fn cur(&self) -> (r: &Tok)
        requires
            self.wf(),
        ensures
            *r == self.t@[self.i as int],
    {
        &self.t[self.i]
    }

    fn cur_is_word(&self, w: &str) -> (r: bool)
        requires
            self.wf(),
        ensures
            r ==> self.t@[self.i as int].k is Word,
            r == (self.t@[self.i as int].k matches K::Word(v) && v@ == w@),
    {
        match &self.t[self.i].k {
            K::Word(v) => is_word(v, w),
            _ => false,
        }
    }

    fn cur_is_sym(&self, s: Sym) -> (r: bool)
        requires
            self.wf(),
        ensures
            r == (self.t@[self.i as int].k matches K::Sym(x) && x == s),
    {
        match &self.t[self.i].k {
            K::Sym(x) => *x == s,
            _ => false,
        }
    }

    fn cur_is_eof(&self) -> (r: bool)
        requires
            self.wf(),
        ensures
            r == (self.t@[self.i as int].k is Eof),
    {
        match &self.t[self.i].k {
            K::Eof => true,
            _ => false,
        }
    }

    fn cur_span(&self) -> (r: SourceSpan)
        requires
            self.wf(),
        ensures
            r == self.t@[self.i as int].s,
    {
        self.t[self.i].s
    }

    fn prev_end(&self) -> (r: SourceLocation)
        requires
            self.wf(),
        ensures
            r == (if self.i == 0 { self.t@[0].s.end } else { self.t@[self.i - 1].s.end }),
    {
        if self.i == 0 { self.t[0].s.end } else { self.t[self.i - 1].s.end }
    }

    /// Takes the current token; the end-of-input token is never passed.
    fn pop(&mut self) -> (x: Tok)
        requires
            old(self).wf(),
        ensures
            final(self).advanced(old(self)),
            x == old(self).t@[old(self).i as int],
            !(x.k is Eof) ==> final(self).i == old(self).i + 1,
    {
        let x = Tok { k: clone_k(&self.t[self.i].k), s: self.t[self.i].s };
        let eof = match &x.k {
            K::Eof => true,
            _ => false,
        };
        let n = self.t.len();
        if !eof {
            proof {
                if self.i as int == self.t@.len() - 1 {
                    assert(self.t@.last().k is Eof);
                }
            }
            assert(self.i + 1 < n);
            self.i = self.i + 1;
        }
        x
    }

    fn word(&mut self, w: &str) -> (r: Result<Tok, Diagnostic>)
        requires
            old(self).wf(),
        ensures
            final(self).advanced(old(self)),
            located(r),
            r is Ok ==> final(self).i == old(self).i + 1,
            r is Ok <==> word_is(old(self).t@[old(self).i as int].k, w@),
            r matches Ok(x) ==> x == old(self).t@[old(self).i as int],
            r matches Err(d) ==> d.code == "AIC1001" && d.location == Some(old(self).t@[old(self).i as int].s),
    {
        let x = self.pop();
        let ok = match &x.k {
            K::Word(v) => is_word(v, w),
            _ => false,
        };
        if ok {
            Ok(x)
        } else {
            Err(Diagnostic::at("AIC1001", x.s, concat(&concat("expected `", w), "`")))
        }
    }

    fn sym(&mut self, w: Sym) -> (r: Result<Tok, Diagnostic>)
        requires
            old(self).wf(),
        ensures
            final(self).advanced(old(self)),
            located(r),
            r is Ok ==> final(self).i == old(self).i + 1,
            r is Ok <==> old(self).t@[old(self).i as int].k == K::Sym(w),
            r matches Ok(x) ==> x == old(self).t@[old(self).i as int],
            r matches Err(d) ==> d.code == "AIC1002" && d.location == Some(old(self).t@[old(self).i as int].s),
    {
        let x = self.pop();
        let ok = match &x.k {
            K::Sym(s) => *s == w,
            _ => false,
        };
        if ok {
            Ok(x)
        } else {
            Err(Diagnostic::at("AIC1002", x.s, concat(&concat("expected `", sym_text(w)), "`")))
        }
    }

    /// A non-keyword word.
    fn id(&mut self) -> (r: Result<(String, SourceSpan), Diagnostic>)
        requires
            old(self).wf(),
        ensures
            final(self).advanced(old(self)),
            located(r),
            r is Ok ==> final(self).i == old(self).i + 1,
            r matches Ok(p) ==> !keyword_word(p.0@) && p.0@.len() > 0,
            r matches Ok(p) ==> old(self).t@[old(self).i as int].k == K::Word(p.0) && p.1 == old(self).t@[old(self).i as int].s,
            (old(self).t@[old(self).i as int].k matches K::Word(v) && !keyword_word(v@)) <==> r is Ok,
            r matches Err(d) ==> d.code == "AIC1003" && d.location == Some(old(self).t@[old(self).i as int].s),
    {
        let x = self.pop();
        proof {
            assert(well_formed_tokens(old(self).t@));
            let k = old(self).i as int;
            assert(match old(self).t@[k].k {
                K::Word(w) => w@.len() > 0,
                _ => true,
            });
        }
        if let K::Word(v) = x.k {
            if !keyword(&v) {
                return Ok((v, x.s));
            }
        }
        Err(Diagnostic::at("AIC1003", x.s, owned("expected identifier")))
    }

    fn string(&mut self) -> (r: Result<String, Diagnostic>)
        requires
            old(self).wf(),
        ensures
            final(self).advanced(old(self)),
            located(r),
            r is Ok ==> final(self).i == old(self).i + 1,
    {
        let x = self.pop();
        if let K::Str(v) = x.k {
            Ok(v)
        } else {
            Err(Diagnostic::at("AIC1004", x.s, owned("expected string")))
        }
    }

    fn ty(&mut self) -> (r: Result<Type, Diagnostic>)
        requires
            old(self).wf(),
        ensures
            final(self).advanced(old(self)),
            located(r),
            match type_word(old(self).t@[old(self).i as int].k) {
                Some(t) => r == Ok::<Type, Diagnostic>(t) && final(self).i == old(self).i + 1,
                None => r matches Err(d) && d.code == "AIC1007" && d.location == Some(
                    old(self).t@[old(self).i as int].s,
                ),
            },
    {
        let x = self.pop();
        let t = match &x.k {
            K::Word(v) => if is_word(v, "i32") {
                Some(Type::I32)
            } else if is_word(v, "bool") {
                Some(Type::Bool)
            } else if is_word(v, "string") {
                Some(Type::String)
            } else {
                None
            },
            _ => None,
        };
        match t {
            Some(t) => Ok(t),
            None => Err(Diagnostic::at("AIC1007", x.s, owned("expected i32, bool, or string"))),
        }
    }

    fn layout_size(&mut self) -> (r: Result<LayoutSize, Diagnostic>)
        requires
            old(self).wf(),
        ensures
            final(self).advanced(old(self)),
            located(r),
            match layout_word(old(self).t@[old(self).i as int].k) {
                Some(z) => r == Ok::<LayoutSize, Diagnostic>(z),
                None => r is Err,
            },
            r matches Err(d) ==> (d.code == "AIC1003" || d.code == "AIC1015") && d.location == Some(
                old(self).t@[old(self).i as int].s,
            ),
    {
        proof {
            layout_words_are_names();
        }
        let (value, span) = self.id()?;
        if is_word(&value, "match_parent") {
            Ok(LayoutSize::MatchParent)
        } else if is_word(&value, "wrap_content") {
            Ok(LayoutSize::WrapContent)
        } else {
            Err(Diagnostic::at("AIC1015", span, owned("layout size must be match_parent or wrap_content")))
        }
    }
}


impl Parser {
    fn expr(&mut self, min: u8) -> (r: Result<Expression, Diagnostic>)
        requires
            old(self).wf(),
        ensures
            final(self).advanced(old(self)),
            located(r),
            ({
                let x = old(self).t@[old(self).i as int];
                let next = old(self).t@[old(self).i + 1].k;
                &&& match x.k {
                    K::Int(v) => !binds(next, min) ==> r == Ok::<Expression, Diagnostic>(
                        Expression { kind: ExpressionKind::Literal(Value::I32(v)), span: x.s },
                    ) && final(self).i == old(self).i + 1,
                    K::Str(v) => !binds(next, min) ==> r == Ok::<Expression, Diagnostic>(
                        Expression { kind: ExpressionKind::Literal(Value::String(v)), span: x.s },
                    ) && final(self).i == old(self).i + 1,
                    _ => true,
                }
                &&& !starts_expression(x.k) ==> (r matches Err(d) && d.code == "AIC1011" && d.location == Some(x.s))
            }),
            ({
                let t = old(self).t@;
                let i = old(self).i as int;
                &&& two_literals(t, i, min) ==> r == Ok::<Expression, Diagnostic>(
                    joined(op_of(t[i + 1].k), int_lit(t[i]), int_lit(t[i + 2])),
                ) && final(self).i == i + 3
                &&& three_literals(t, i, min) && prec_of(t[i + 3].k) > prec_of(t[i + 1].k) ==> r == Ok::<
                    Expression,
                    Diagnostic,
                >(
                    joined(op_of(t[i + 1].k), int_lit(t[i]), joined(op_of(t[i + 3].k), int_lit(t[i + 2]), int_lit(t[i + 4]))),
                ) && final(self).i == i + 5
                &&& three_literals(t, i, min) && prec_of(t[i + 3].k) <= prec_of(t[i + 1].k) ==> r == Ok::<
                    Expression,
                    Diagnostic,
                >(
                    joined(op_of(t[i + 3].k), joined(op_of(t[i + 1].k), int_lit(t[i]), int_lit(t[i + 2])), int_lit(t[i + 4])),
                ) && final(self).i == i + 5
            }),
        decreases old(self).remaining(), 1int,
    {
        let ghost x0 = self.t@[self.i as int];
        let mut l = match self.prefix() {
            Ok(e) => e,
            Err(d) => return Err(d),
        };
        let ghost l0 = l;
        let ghost j0 = self.i;
        let ghost mut changed = false;
        let ghost t = old(self).t@;
        let ghost i0 = old(self).i as int;
        let ghost two = two_literals(t, i0, min);
        let ghost three = three_literals(t, i0, min);
        let ghost right_first = three && prec_of(t[i0 + 3].k) > prec_of(t[i0 + 1].k);
        let ghost left_first = three && prec_of(t[i0 + 3].k) <= prec_of(t[i0 + 1].k);
        let ghost a = int_lit(t[i0]);
        let ghost b2 = int_lit(t[i0 + 2]);
        let ghost c4 = int_lit(t[i0 + 4]);
        let ghost o1 = op_of(t[i0 + 1].k);
        let ghost o3 = op_of(t[i0 + 3].k);
        let ghost mut step: nat = 0;
        proof {
            if two || three {
                assert(x0.k is Int);
                assert(l0 == a);
            }
        }
        loop
            invariant
                self.advanced(old(self)),
                x0 == old(self).t@[old(self).i as int],
                starts_expression(x0.k),
                (x0.k is Int || x0.k is Str) ==> j0 == old(self).i + 1,
                !changed ==> l == l0 && self.i == j0,
                changed ==> binds(self.t@[j0 as int].k, min),
                t == old(self).t@,
                i0 == old(self).i,
                two == two_literals(t, i0, min),
                three == three_literals(t, i0, min),
                right_first == (three && prec_of(t[i0 + 3].k) > prec_of(t[i0 + 1].k)),
                left_first == (three && prec_of(t[i0 + 3].k) <= prec_of(t[i0 + 1].k)),
                a == int_lit(t[i0]),
                b2 == int_lit(t[i0 + 2]),
                c4 == int_lit(t[i0 + 4]),
                o1 == op_of(t[i0 + 1].k),
                o3 == op_of(t[i0 + 3].k),
                step == 0 <==> !changed,
                (two || three) && step == 0 ==> l == a && self.i == i0 + 1,
                two ==> step <= 1,
                two && step == 1 ==> l == joined(o1, a, b2) && self.i == i0 + 3,
                right_first ==> step <= 1,
                right_first && step == 1 ==> l == joined(o1, a, joined(o3, b2, c4)) && self.i == i0 + 5,
                left_first ==> step <= 2,
                left_first && step == 1 ==> l == joined(o1, a, b2) && self.i == i0 + 3,
                left_first && step == 2 ==> l == joined(o3, joined(o1, a, b2), c4) && self.i == i0 + 5,
            ensures
                self.advanced(old(self)),
                !changed ==> l == l0 && self.i == j0,
                changed ==> binds(self.t@[j0 as int].k, min),
                !binds(self.t@[self.i as int].k, min),
                step == 0 <==> !changed,
                (two || three) && step == 0 ==> l == a && self.i == i0 + 1,
                two ==> step <= 1,
                two && step == 1 ==> l == joined(o1, a, b2) && self.i == i0 + 3,
                right_first ==> step <= 1,
                right_first && step == 1 ==> l == joined(o1, a, joined(o3, b2, c4)) && self.i == i0 + 5,
                left_first ==> step <= 2,
                left_first && step == 1 ==> l == joined(o1, a, b2) && self.i == i0 + 3,
                left_first && step == 2 ==> l == joined(o3, joined(o1, a, b2), c4) && self.i == i0 + 5,
            decreases self.remaining(),
        {
            let b = bin(&self.cur().k);
            let (op, p) = match b {
                Some(x) => x,
                None => break,
            };
            if p < min {
                break;
            }
            let ghost at = self.i as int;
            proof {
                if !changed {
                    assert(binds(self.t@[j0 as int].k, min));
                }
                changed = true;
                assert(op == op_of(t[at].k) && p == prec_of(t[at].k));
                assert(p <= 6);
            }
            self.pop();
            let r = match self.expr(if p < 255 { p + 1 } else { p }) {
                Ok(r) => r,
                Err(d) => {
                    proof {
                        assert(!(two && step == 0));
                        assert(!(right_first && step == 0));
                        assert(!(left_first && step <= 1));
                    }
                    return Err(d);
                },
            };
            let s = SourceSpan { start: l.span.start, end: r.span.end };
            l = Expression { kind: ExpressionKind::Binary { op, left: Box::new(l), right: Box::new(r) }, span: s };
            proof {
                step = step + 1;
            }
        }
        proof {
            if two {
                assert(step == 1);
            }
            if right_first {
                assert(step == 1);
            }
            if left_first {
                assert(step == 2);
            }
        }
        Ok(l)
    }
}


impl Parser {
    fn prefix(&mut self) -> (r: Result<Expression, Diagnostic>)
        requires
            old(self).wf(),
        ensures
            final(self).advanced(old(self)),
            located(r),
            ({
                let x = old(self).t@[old(self).i as int];
                &&& x.k matches K::Int(v) ==> r == Ok::<Expression, Diagnostic>(
                    Expression { kind: ExpressionKind::Literal(Value::I32(v)), span: x.s },
                ) && final(self).i == old(self).i + 1
                &&& x.k matches K::Str(v) ==> r == Ok::<Expression, Diagnostic>(
                    Expression { kind: ExpressionKind::Literal(Value::String(v)), span: x.s },
                ) && final(self).i == old(self).i + 1
                &&& match x.k {
                    K::Word(n) => {
                        &&& (n@ == "true"@ || n@ == "false"@) ==> r == Ok::<Expression, Diagnostic>(
                            Expression { kind: ExpressionKind::Literal(Value::Bool(n@ == "true"@)), span: x.s },
                        ) && final(self).i == old(self).i + 1
                        &&& (!(n@ == "true"@ || n@ == "false"@) && !((n@ == "android"@ || n@ == "preference"@ || n@
                            == "database"@) && old(self).t@[old(self).i + 1].k == K::Sym(Sym::Dot)) && old(self).t@[
                            old(self).i + 1].k != K::Sym(Sym::LParen)) ==> r == Ok::<Expression, Diagnostic>(
                            Expression { kind: ExpressionKind::Name(n), span: x.s },
                        ) && final(self).i == old(self).i + 1
                    },
                    _ => true,
                }
                &&& !starts_expression(x.k) ==> (r matches Err(d) && d.code == "AIC1011" && d.location == Some(x.s))
            }),
        decreases old(self).remaining(), 0int,
    {
        let x = self.pop();
        let st = x.s.start;
        match x.k {
            K::Int(v) => Ok(Expression { kind: ExpressionKind::Literal(Value::I32(v)), span: x.s }),
            K::Str(v) => Ok(Expression { kind: ExpressionKind::Literal(Value::String(v)), span: x.s }),
            K::Word(n) => {
                if is_word(&n, "true") || is_word(&n, "false") {
                    return Ok(Expression { kind: ExpressionKind::Literal(Value::Bool(is_word(&n, "true"))), span: x.s });
                }
                if is_word(&n, "android") && self.cur_is_sym(Sym::Dot) {
                    self.pop();
                    let (operation, _) = self.id()?;
                    if !is_word(&operation, "get_text") {
                        return Err(Diagnostic::at("AIC1010", x.s, owned("unsupported Android expression")));
                    }
                    self.sym(Sym::LParen)?;
                    let (view, _) = self.id()?;
                    self.sym(Sym::RParen)?;
                    return Ok(Expression {
                        kind: ExpressionKind::AndroidText { view },
                        span: SourceSpan { start: st, end: self.prev_end() },
                    });
                }
                if (is_word(&n, "preference") || is_word(&n, "database")) && self.cur_is_sym(Sym::Dot) {
                    self.pop();
                    let (operation, span) = self.id()?;
                    self.sym(Sym::LParen)?;
                    let kind = if is_word(&n, "preference") && is_word(&operation, "get") {
                        let (key, _) = self.id()?;
                        ExpressionKind::PreferenceGet { key }
                    } else if is_word(&n, "database") {
                        let (table, _) = self.id()?;
                        if is_word(&operation, "insert") {
                            self.sym(Sym::Comma)?;
                            let values = self.named_values()?;
                            ExpressionKind::DatabaseInsert { table, values }
                        } else if is_word(&operation, "exists") {
                            self.sym(Sym::Comma)?;
                            let id = self.expr(0)?;
                            ExpressionKind::DatabaseExists { table, id: Box::new(id) }
                        } else if is_word(&operation, "get") {
                            self.sym(Sym::Comma)?;
                            let id = self.expr(0)?;
                            self.sym(Sym::Comma)?;
                            let (column, _) = self.id()?;
                            self.sym(Sym::Comma)?;
                            let default = self.expr(0)?;
                            ExpressionKind::DatabaseGet { table, id: Box::new(id), column, default: Box::new(default) }
                        } else {
                            return Err(Diagnostic::at("AIC1305", span, owned("unsupported database expression")));
                        }
                    } else {
                        return Err(Diagnostic::at("AIC1306", span, owned("unsupported preference expression")));
                    };
                    let end = self.sym(Sym::RParen)?.s.end;
                    return Ok(Expression { kind, span: SourceSpan { start: st, end } });
                }
                if self.cur_is_sym(Sym::LParen) {
                    self.pop();
                    let mut a: Vec<Expression> = Vec::new();
                    if !self.cur_is_sym(Sym::RParen) {
                        loop
                            invariant
                                self.advanced(old(self)),
                                self.i > old(self).i,
                                old(self).t@[old(self).i as int].k == K::Word(n),
                                old(self).t@[old(self).i + 1].k == K::Sym(Sym::LParen),
                                !(n@ == "true"@ || n@ == "false"@),
                            decreases self.remaining(),
                        {
                            let before = self.i;
                            let e = self.expr(0)?;
                            a.push(e);
                            if !self.cur_is_sym(Sym::Comma) {
                                break;
                            }
                            self.pop();
                        }
                    }
                    let end = self.sym(Sym::RParen)?.s.end;
                    Ok(Expression { kind: ExpressionKind::Call { name: n, args: a }, span: SourceSpan { start: st, end } })
                } else {
                    Ok(Expression { kind: ExpressionKind::Name(n), span: x.s })
                }
            },
            K::Sym(Sym::Minus) | K::Sym(Sym::Bang) => {
                let op = match x.k { K::Sym(Sym::Minus) => UnaryOp::Negate, _ => UnaryOp::Not };
                let v = self.expr(8)?;
                let end = v.span.end;
                Ok(Expression { kind: ExpressionKind::Unary { op, value: Box::new(v) }, span: SourceSpan { start: st, end } })
            },
            K::Sym(Sym::LParen) => {
                let e = self.expr(0)?;
                self.sym(Sym::RParen)?;
                Ok(e)
            },
            _ => Err(Diagnostic::at("AIC1011", x.s, owned("expected expression"))),
        }
    }

    fn named_values(&mut self) -> (r: Result<Vec<(String, Expression)>, Diagnostic>)
        requires
            old(self).wf(),
        ensures
            final(self).advanced(old(self)),
            located(r),
            ({
                let x = old(self).t@[old(self).i as int];
                &&& !name_token(x.k) ==> (r matches Err(d) && d.code == "AIC1003" && d.location == Some(x.s))
                &&& r matches Ok(vs) ==> vs@.len() > 0 && x.k == K::Word(vs@[0].0) && final(self).i > old(self).i
            }),
        decreases old(self).remaining(), 2int,
    {
        let mut values: Vec<(String, Expression)> = Vec::new();
        loop
            invariant
                self.advanced(old(self)),
                values@.len() == 0 ==> self.i == old(self).i,
                values@.len() > 0 ==> self.i > old(self).i && old(self).t@[old(self).i as int].k == K::Word(
                    values@[0].0,
                ) && name_token(old(self).t@[old(self).i as int].k),
            ensures
                self.advanced(old(self)),
                values@.len() > 0,
                self.i > old(self).i,
                old(self).t@[old(self).i as int].k == K::Word(values@[0].0),
            decreases self.remaining(),
        {
            let (name, _) = match self.id() {
                Ok(p) => p,
                Err(d) => return Err(d),
            };
            self.sym(Sym::Colon)?;
            let e = self.expr(0)?;
            values.push((name, e));
            if !self.cur_is_sym(Sym::Comma) {
                break;
            }
            self.pop();
        }
        Ok(values)
    }
}


impl Parser {
    fn preference_statement(&mut self) -> (r: Result<StatementKind, Diagnostic>)
        requires
            old(self).wf(),
        ensures
            final(self).advanced(old(self)),
            located(r),
            r is Ok ==> final(self).i > old(self).i,
        decreases old(self).remaining(), 3int,
    {
        self.word("preference")?;
        self.sym(Sym::Dot)?;
        self.word("set")?;
        self.sym(Sym::LParen)?;
        let (key, _) = self.id()?;
        self.sym(Sym::Comma)?;
        let value = self.expr(0)?;
        self.sym(Sym::RParen)?;
        Ok(StatementKind::PreferenceSet { key, value })
    }

    fn database_statement(&mut self) -> (r: Result<StatementKind, Diagnostic>)
        requires
            old(self).wf(),
        ensures
            final(self).advanced(old(self)),
            located(r),
            r is Ok ==> final(self).i > old(self).i,
        decreases old(self).remaining(), 3int,
    {
        self.word("database")?;
        self.sym(Sym::Dot)?;
        let (operation, span) = self.id()?;
        self.sym(Sym::LParen)?;
        let (table, _) = self.id()?;
        self.sym(Sym::Comma)?;
        let id = self.expr(0)?;
        let result = if is_word(&operation, "delete") {
            StatementKind::DatabaseDelete { table, id }
        } else if is_word(&operation, "update") {
            self.sym(Sym::Comma)?;
            let values = self.named_values()?;
            StatementKind::DatabaseUpdate { table, id, values }
        } else {
            return Err(Diagnostic::at("AIC1304", span, owned("unsupported database statement")));
        };
        self.sym(Sym::RParen)?;
        Ok(result)
    }

    fn android(&mut self) -> (r: Result<StatementKind, Diagnostic>)
        requires
            old(self).wf(),
        ensures
            final(self).advanced(old(self)),
            located(r),
            r is Ok ==> final(self).i > old(self).i,
        decreases old(self).remaining(), 3int,
    {
        self.word("android")?;
        self.sym(Sym::Dot)?;
        let (n, _) = self.id()?;
        self.sym(Sym::LParen)?;
        let k = if is_word(&n, "add_view") {
            self.word("parent")?;
            self.sym(Sym::Colon)?;
            let (p, _) = self.id()?;
            self.sym(Sym::Comma)?;
            self.word("child")?;
            self.sym(Sym::Colon)?;
            let (c, _) = self.id()?;
            StatementKind::AddView { parent: p, child: c }
        } else if is_word(&n, "set_content_view") {
            let (v, _) = self.id()?;
            StatementKind::SetContentView { view: v }
        } else if is_word(&n, "set_text") {
            self.word("view")?;
            self.sym(Sym::Colon)?;
            let (view, _) = self.id()?;
            self.sym(Sym::Comma)?;
            self.word("text")?;
            self.sym(Sym::Colon)?;
            let text = self.expr(0)?;
            StatementKind::SetText { view, text }
        } else if is_word(&n, "set_layout") {
            self.word("view")?;
            self.sym(Sym::Colon)?;
            let (view, _) = self.id()?;
            self.sym(Sym::Comma)?;
            self.word("width")?;
            self.sym(Sym::Colon)?;
            let width = self.layout_size()?;
            self.sym(Sym::Comma)?;
            self.word("height")?;
            self.sym(Sym::Colon)?;
            let height = self.layout_size()?;
            self.sym(Sym::Comma)?;
            self.word("weight")?;
            self.sym(Sym::Colon)?;
            let token = self.pop();
            let weight = match token.k {
                K::Int(w) => w,
                _ => return Err(Diagnostic::at("AIC1013", token.s, owned("layout weight must be 0 or 1"))),
            };
            if weight < 0 || weight > 1 {
                return Err(Diagnostic::at("AIC1013", token.s, owned("layout weight must be 0 or 1")));
            }
            StatementKind::SetLayout { view, width, height, weight }
        } else if is_word(&n, "set_text_color") || is_word(&n, "set_background_color") {
            self.word("view")?;
            self.sym(Sym::Colon)?;
            let (view, _) = self.id()?;
            self.sym(Sym::Comma)?;
            self.word("color")?;
            self.sym(Sym::Colon)?;
            let color = self.string()?;
            if !valid_color(&color) {
                return Err(Diagnostic::at("AIC1014", self.t[self.i - 1].s, owned("color must be #RRGGBB or #AARRGGBB")));
            }
            if is_word(&n, "set_text_color") {
                StatementKind::SetTextColor { view, color }
            } else {
                StatementKind::SetBackgroundColor { view, color }
            }
        } else {
            return Err(Diagnostic::at("AIC1010", self.cur_span(), owned("unsupported Android operation")));
        };
        self.sym(Sym::RParen)?;
        Ok(k)
    }

    /// The view constructor after `let name = android.`.
    fn view_constructor(&mut self, name: String) -> (r: Result<StatementKind, Diagnostic>)
        requires
            old(self).wf(),
        ensures
            final(self).advanced(old(self)),
            located(r),
            ({
                let t = old(self).t@;
                let i = old(self).i as int;
                &&& !name_token(t[i].k) ==> (r matches Err(d) && d.code == "AIC1003" && d.location == Some(t[i].s))
                &&& name_token(t[i].k) && t[i + 1].k != K::Sym(Sym::LParen) ==> (r matches Err(d) && d.code
                    == "AIC1002" && d.location == Some(t[i + 1].s))
                &&& name_token(t[i].k) && t[i + 1].k == K::Sym(Sym::LParen) && !view_constructor_word(t[i].k) ==> (
                r matches Err(d) && d.code == "AIC1010" && d.location == Some(t[i + 2].s))
                &&& name_token(t[i].k) && word_is(t[i].k, "scroll_view"@) && t[i + 1].k == K::Sym(Sym::LParen) ==> (
                t[i + 2].k == K::Sym(Sym::RParen) ==> r == Ok::<StatementKind, Diagnostic>(
                    StatementKind::ScrollView { id: name },
                ) && final(self).i == i + 3)
                &&& r matches Ok(k) ==> view_id(k) == Some(name)
                &&& name_token(t[i].k) && word_is(t[i].k, "linear_layout"@) && t[i + 1].k == K::Sym(Sym::LParen)
                    && word_is(t[i + 2].k, "orientation"@) && t[i + 3].k == K::Sym(Sym::Colon) && name_token(t[i + 4].k)
                    && !word_is(t[i + 4].k, "vertical"@) && !word_is(t[i + 4].k, "horizontal"@) ==> (r matches Err(d)
                    && d.code == "AIC1012" && d.location == Some(t[i + 4].s))
            }),
        decreases old(self).remaining(), 3int,
    {
        proof {
            reveal_strlit("scroll_view");
            reveal_strlit("linear_layout");
            reveal_strlit("text_view");
            reveal_strlit("button");
            reveal_strlit("edit_text");
            reveal_strlit("text_input");
        }
        let (ctor, _) = match self.id() {
            Ok(p) => p,
            Err(d) => return Err(d),
        };
        match self.sym(Sym::LParen) {
            Ok(_) => {},
            Err(d) => return Err(d),
        }
        let k = if is_word(&ctor, "linear_layout") {
            self.word("orientation")?;
            self.sym(Sym::Colon)?;
            let (value, span) = self.id()?;
            let orientation = if is_word(&value, "vertical") {
                Orientation::Vertical
            } else if is_word(&value, "horizontal") {
                Orientation::Horizontal
            } else {
                return Err(Diagnostic::at("AIC1012", span, owned("orientation must be vertical or horizontal")));
            };
            StatementKind::LinearLayout { id: name, orientation }
        } else if is_word(&ctor, "text_view") {
            self.word("text")?;
            self.sym(Sym::Colon)?;
            let text = self.expr(0)?;
            StatementKind::TextView { id: name, text }
        } else if is_word(&ctor, "button") {
            self.word("text")?;
            self.sym(Sym::Colon)?;
            let text = self.expr(0)?;
            StatementKind::Button { id: name, text }
        } else if is_word(&ctor, "edit_text") {
            self.word("hint")?;
            self.sym(Sym::Colon)?;
            let hint = self.expr(0)?;
            StatementKind::EditText { id: name, hint }
        } else if is_word(&ctor, "text_input") {
            self.word("hint")?;
            self.sym(Sym::Colon)?;
            let hint = self.expr(0)?;
            StatementKind::TextInput { id: name, hint }
        } else if is_word(&ctor, "scroll_view") {
            StatementKind::ScrollView { id: name }
        } else {
            return Err(Diagnostic::at("AIC1010", self.cur_span(), owned("unsupported view constructor")));
        };
        match self.sym(Sym::RParen) {
            Ok(_) => {},
            Err(d) => return Err(d),
        }
        Ok(k)
    }

    fn statement(&mut self) -> (r: Result<Statement, Diagnostic>)
        requires
            old(self).wf(),
        ensures
            final(self).advanced(old(self)),
            located(r),
            r is Ok ==> final(self).i > old(self).i,
            ({
                let t = old(self).t@;
                let i = old(self).i as int;
                &&& !(t[i].k is Word) ==> (r matches Err(d) && d.code == "AIC1009" && d.location == Some(t[i].s))
                &&& word_is(t[i].k, "return"@) && !binds(t[i + 2].k, 0) ==> match t[i + 1].k {
                    K::Int(v) => r == Ok::<Statement, Diagnostic>(
                        Statement {
                            kind: StatementKind::Return(
                                Expression { kind: ExpressionKind::Literal(Value::I32(v)), span: t[i + 1].s },
                            ),
                            span: SourceSpan { start: t[i].s.start, end: t[i + 1].s.end },
                        },
                    ) && final(self).i == i + 2,
                    _ => true,
                }
                &&& (word_is(t[i].k, "let"@) || word_is(t[i].k, "var"@)) && t[i + 2].k == K::Sym(Sym::Assign)
                    && !binds(t[i + 4].k, 0) ==> match (t[i + 1].k, t[i + 3].k) {
                    (K::Word(n), K::Int(v)) => !keyword_word(n@) ==> r == Ok::<Statement, Diagnostic>(
                        Statement {
                            kind: StatementKind::Declare {
                                mutable: word_is(t[i].k, "var"@),
                                name: n,
                                ty: None,
                                value: Expression { kind: ExpressionKind::Literal(Value::I32(v)), span: t[i + 3].s },
                            },
                            span: SourceSpan { start: t[i].s.start, end: t[i + 3].s.end },
                        },
                    ) && final(self).i == i + 4,
                    _ => true,
                }
            }),
        decreases old(self).remaining(), 4int,
    {
        proof {
            reveal_strlit("let");
            reveal_strlit("var");
            reveal_strlit("return");
            reveal_strlit("if");
            reveal_strlit("for");
            reveal_strlit("android");
            reveal_strlit("preference");
            reveal_strlit("database");
        }
        let start = self.cur().s.start;
        let is_let = self.cur_is_word("let");
        let is_var = self.cur_is_word("var");
        let kind = if is_let || is_var {
            let mutable = is_var;
            self.pop();
            let (name, _) = self.id()?;
            if self.cur_is_sym(Sym::Assign) {
                self.pop();
                if self.cur_is_word("android") {
                    self.word("android")?;
                    self.sym(Sym::Dot)?;
                    self.view_constructor(name)?
                } else {
                    let value = self.expr(0)?;
                    StatementKind::Declare { mutable, name, ty: None, value }
                }
            } else {
                self.sym(Sym::Colon)?;
                let ty = self.ty()?;
                self.sym(Sym::Assign)?;
                let value = self.expr(0)?;
                StatementKind::Declare { mutable, name, ty: Some(ty), value }
            }
        } else if self.cur_is_word("return") {
            self.pop();
            let value = self.expr(0)?;
            StatementKind::Return(value)
        } else if self.cur_is_word("if") {
            self.pop();
            let condition = self.expr(0)?;
            let then_body = self.block()?;
            let else_body = if self.cur_is_word("else") {
                self.pop();
                self.block()?
            } else {
                Vec::new()
            };
            StatementKind::If { condition, then_body, else_body }
        } else if self.cur_is_word("for") {
            self.pop();
            let (variable, _) = self.id()?;
            self.word("in")?;
            let a = self.expr(0)?;
            self.sym(Sym::DotDot)?;
            let b = self.expr(0)?;
            let body = self.block()?;
            StatementKind::For { variable, start: a, end: b, body }
        } else if self.cur_is_word("android") {
            self.android()?
        } else if self.cur_is_word("preference") {
            self.preference_statement()?
        } else if self.cur_is_word("database") {
            self.database_statement()?
        } else if self.cur_is_word_any() {
            let (name, _) = self.id()?;
            self.sym(Sym::Assign)?;
            let value = self.expr(0)?;
            StatementKind::Assign { name, value }
        } else {
            return Err(Diagnostic::at("AIC1009", self.cur_span(), owned("expected statement")));
        };
        Ok(Statement { kind, span: SourceSpan { start, end: self.prev_end() } })
    }

    fn cur_is_word_any(&self) -> (r: bool)
        requires
            self.wf(),
        ensures
            r == (self.t@[self.i as int].k is Word),
    {
        match &self.t[self.i].k {
            K::Word(_) => true,
            _ => false,
        }
    }

    fn block(&mut self) -> (r: Result<Vec<Statement>, Diagnostic>)
        requires
            old(self).wf(),
        ensures
            final(self).advanced(old(self)),
            located(r),
            r is Ok ==> final(self).i > old(self).i,
        decreases old(self).remaining(), 5int,
    {
        self.sym(Sym::LBrace)?;
        let mut v: Vec<Statement> = Vec::new();
        while !self.cur_is_sym(Sym::RBrace)
            invariant
                self.advanced(old(self)),
                self.i > old(self).i,
            decreases self.remaining(),
        {
            if self.cur_is_eof() {
                return Err(Diagnostic::at("AIC1008", self.cur_span(), owned("unterminated block")));
            }
            let s = self.statement()?;
            v.push(s);
        }
        self.pop();
        Ok(v)
    }
}


impl Parser {
    fn database(&mut self) -> (r: Result<Database, Diagnostic>)
        requires
            old(self).wf(),
        ensures
            final(self).advanced(old(self)),
            located(r),
            ({
                let t = old(self).t@;
                let i = old(self).i as int;
                &&& !word_is(t[i].k, "database"@) ==> (r matches Err(d) && d.code == "AIC1001" && d.location == Some(
                    t[i].s,
                ))
                &&& word_is(t[i].k, "database"@) && !name_token(t[i + 1].k) ==> (r matches Err(d) && d.code
                    == "AIC1003" && d.location == Some(t[i + 1].s))
                &&& word_is(t[i].k, "database"@) && name_token(t[i + 1].k) && !word_is(t[i + 2].k, "version"@) ==> (
                r matches Err(d) && d.code == "AIC1001" && d.location == Some(t[i + 2].s))
                &&& word_is(t[i].k, "database"@) && name_token(t[i + 1].k) && word_is(t[i + 2].k, "version"@) && !(t[i
                    + 3].k is Int) ==> (r matches Err(d) && d.code == "AIC1303" && d.location == Some(t[i + 3].s))
                &&& word_is(t[i].k, "database"@) && name_token(t[i + 1].k) && word_is(t[i + 2].k, "version"@) && t[i
                    + 3].k is Int && t[i + 4].k != K::Sym(Sym::LBrace) ==> (r matches Err(d) && d.code == "AIC1002"
                    && d.location == Some(t[i + 4].s))
                &&& r matches Ok(db) ==> database_header(t, i) && t[i + 1].k == K::Word(db.name) && t[i + 3].k
                    == K::Int(db.version) && db.span.start == t[i].s.start
                &&& database_header(t, i) && t[i + 5].k == K::Sym(Sym::RBrace) ==> (r matches Ok(db)
                    && db.tables@.len() == 0 && db.span.end == t[i + 5].s.end && final(self).i == i + 6)
            }),
    {
        let ghost t = self.t@;
        let ghost i0 = self.i as int;
        let start = match self.word("database") {
            Ok(x) => x.s.start,
            Err(d) => return Err(d),
        };
        let (name, _) = match self.id() {
            Ok(p) => p,
            Err(d) => return Err(d),
        };
        match self.word("version") {
            Ok(_) => {},
            Err(d) => return Err(d),
        }
        let version_token = self.pop();
        let version = match version_token.k {
            K::Int(v) => v,
            _ => return Err(Diagnostic::at("AIC1303", version_token.s, owned("database version must be 1"))),
        };
        match self.sym(Sym::LBrace) {
            Ok(_) => {},
            Err(d) => return Err(d),
        }
        assert(database_header(t, i0));
        let mut tables: Vec<Table> = Vec::new();
        while self.cur_is_word("table")
            invariant
                self.advanced(old(self)),
                t == old(self).t@,
                i0 == old(self).i,
                database_header(t, i0),
                self.i >= i0 + 5,
                self.i > i0 + 5 ==> word_is(t[i0 + 5].k, "table"@),
                self.i == i0 + 5 ==> tables@.len() == 0,
            decreases self.remaining(),
        {
            let table_start = self.pop().s.start;
            let (table_name, _) = self.id()?;
            self.sym(Sym::LBrace)?;
            let ghost mark = self.i;
            let mut columns: Vec<Column> = Vec::new();
            while !self.cur_is_sym(Sym::RBrace)
                invariant
                    self.advanced(old(self)),
                    self.i >= mark,
                    mark > i0 + 5,
                    t == old(self).t@,
                    i0 == old(self).i,
                    database_header(t, i0),
                    word_is(t[i0 + 5].k, "table"@),
                decreases self.remaining(),
            {
                let (column_name, span) = self.id()?;
                self.sym(Sym::Colon)?;
                let ty = self.ty()?;
                let primary_key = self.cur_is_word("primary_key");
                if primary_key {
                    self.pop();
                }
                let auto_increment = self.cur_is_word("auto_increment");
                if auto_increment {
                    self.pop();
                }
                columns.push(Column { name: column_name, ty, primary_key, auto_increment, span });
            }
            let end = self.sym(Sym::RBrace)?.s.end;
            tables.push(Table { name: table_name, columns, span: SourceSpan { start: table_start, end } });
        }
        let end = match self.sym(Sym::RBrace) {
            Ok(x) => x.s.end,
            Err(d) => return Err(d),
        };
        Ok(Database { name, version, tables, span: SourceSpan { start, end } })
    }

    fn function(&mut self) -> (r: Result<SyntaxFunction, Diagnostic>)
        requires
            old(self).wf(),
        ensures
            final(self).advanced(old(self)),
            located(r),
            r is Ok ==> final(self).i > old(self).i,
    {
        let start = self.word("fn")?.s.start;
        let (name, _) = self.id()?;
        self.sym(Sym::LParen)?;
        let mut params: Vec<Parameter> = Vec::new();
        if !self.cur_is_sym(Sym::RParen) {
            loop
                invariant
                    self.advanced(old(self)),
                decreases self.remaining(),
            {
                let (n, s) = self.id()?;
                self.sym(Sym::Colon)?;
                let ty = self.ty()?;
                params.push(Parameter { name: n, ty, span: s });
                if !self.cur_is_sym(Sym::Comma) {
                    break;
                }
                self.pop();
            }
        }
        self.sym(Sym::RParen)?;
        self.sym(Sym::Arrow)?;
        let return_type = self.ty()?;
        let body = self.block()?;
        let end = self.prev_end();
        Ok(SyntaxFunction { name, params, return_type, body, span: SourceSpan { start, end } })
    }

    fn version_part(&mut self, expected: i32) -> (r: Result<(), Diagnostic>)
        requires
            old(self).wf(),
        ensures
            final(self).advanced(old(self)),
            located(r),
            r is Ok <==> (old(self).t@[old(self).i as int].k matches K::Int(v) && v == expected),
            r matches Err(d) ==> d.code == "AIC1005" && d.location == Some(old(self).t@[old(self).i as int].s),
            r is Ok ==> final(self).i == old(self).i + 1,
    {
        let n = self.pop();
        let ok = match n.k {
            K::Int(v) => v == expected,
            _ => false,
        };
        if !ok {
            return Err(Diagnostic::at("AIC1005", n.s, owned("only version 0.1 is supported")));
        }
        Ok(())
    }

    fn program(&mut self) -> (r: Result<SyntaxProgram, Diagnostic>)
        requires
            old(self).wf(),
        ensures
            final(self).advanced(old(self)),
            located(r),
            r matches Ok(p) ==> p.version@ == "0.1"@,
    {
        self.word("aic_version")?;
        self.version_part(0)?;
        self.sym(Sym::Dot)?;
        self.version_part(1)?;
        self.word("app")?;
        let label = self.string()?;
        self.word("package")?;
        let package = self.string()?;
        self.sym(Sym::LBrace)?;
        let mut capabilities: Vec<(Capability, SourceSpan)> = Vec::new();
        while self.cur_is_word("capability")
            invariant
                self.advanced(old(self)),
            decreases self.remaining(),
        {
            let start = self.pop().s.start;
            self.word("persistence")?;
            self.sym(Sym::Dot)?;
            let token = self.pop();
            let capability = match &token.k {
                K::Word(v) => if is_word(v, "key_value") {
                    Capability::KeyValue
                } else if is_word(v, "sqlite") {
                    Capability::Sqlite
                } else {
                    let text = concat(&concat("unsupported capability `persistence.", v.as_str()), "`");
                    return Err(Diagnostic::at("AIC1301", token.s, text));
                },
                _ => return Err(Diagnostic::at("AIC1301", token.s, owned("expected persistence capability"))),
            };
            capabilities.push((capability, SourceSpan { start, end: token.s.end }));
        }
        let mut preferences: Vec<Preference> = Vec::new();
        while self.cur_is_word("preference")
            invariant
                self.advanced(old(self)),
            decreases self.remaining(),
        {
            let start = self.pop().s.start;
            let (name, _) = self.id()?;
            self.sym(Sym::Colon)?;
            let ty = self.ty()?;
            self.sym(Sym::Assign)?;
            let token = self.pop();
            let end = token.s.end;
            let default = match token.k {
                K::Int(v) => Value::I32(v),
                K::Str(v) => Value::String(v),
                K::Word(v) => if is_word(&v, "true") || is_word(&v, "false") {
                    Value::Bool(is_word(&v, "true"))
                } else {
                    return Err(Diagnostic::at("AIC1302", token.s, owned("preference default must be a literal")));
                },
                _ => return Err(Diagnostic::at("AIC1302", token.s, owned("preference default must be a literal"))),
            };
            preferences.push(Preference { name, ty, default, span: SourceSpan { start, end } });
        }
        let database = if self.cur_is_word("database") {
            Some(self.database()?)
        } else {
            None
        };
        let mut functions: Vec<SyntaxFunction> = Vec::new();
        while self.cur_is_word("fn")
            invariant
                self.advanced(old(self)),
            decreases self.remaining(),
        {
            let f = self.function()?;
            functions.push(f);
        }
        self.word("activity")?;
        let (name, _) = self.id()?;
        self.sym(Sym::LBrace)?;
        let mut state: Vec<State> = Vec::new();
        while self.cur_is_word("state")
            invariant
                self.advanced(old(self)),
            decreases self.remaining(),
        {
            let start = self.pop().s.start;
            let (sname, _) = self.id()?;
            self.sym(Sym::Colon)?;
            let ty = self.ty()?;
            self.sym(Sym::Assign)?;
            let initial = self.expr(0)?;
            state.push(State { name: sname, ty, initial, span: SourceSpan { start, end: self.prev_end() } });
        }
        self.word("on_create")?;
        let on_create = self.block()?;
        let mut on_click: Vec<ClickHandler> = Vec::new();
        while self.cur_is_word("on_click")
            invariant
                self.advanced(old(self)),
            decreases self.remaining(),
        {
            let start = self.pop().s.start;
            self.sym(Sym::LParen)?;
            let (view, _) = self.id()?;
            self.sym(Sym::RParen)?;
            let body = self.block()?;
            on_click.push(ClickHandler { view, body, span: SourceSpan { start, end: self.prev_end() } });
        }
        self.sym(Sym::RBrace)?;
        self.sym(Sym::RBrace)?;
        if !self.cur_is_eof() {
            return Err(Diagnostic::at("AIC1006", self.cur_span(), owned("content after app")));
        }
        Ok(SyntaxProgram {
            version: owned("0.1"),
            label,
            package,
            capabilities,
            preferences,
            database,
            functions,
            activity: SyntaxActivity { name, state, on_create, on_click },
        })
    }
}

/// Parses AIC source text into its syntax tree.
pub fn parse(source: &str) -> (r: Result<SyntaxProgram, Diagnostic>)
    requires
        source@.len() < usize::MAX,
    ensures
        located(r),
        r matches Ok(p) ==> p.version@ == "0.1"@,
        tokens(source@) matches Err(f) ==> (r matches Err(d) && d.code == f.0 && d.location == f.1),
{
    let t = match lex(source) {
        Ok(t) => t,
        Err(d) => return Err(d),
    };
    let mut p = Parser { t, i: 0 };
    p.program()
}

} // verus!
