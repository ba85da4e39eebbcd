//! Tokenizer of AIC source text.
use vstd::prelude::*;
use crate::ir::{Diagnostic, Fault, SourceLocation, SourceSpan};
use crate::text::{owned, concat, string_of_chars};

verus! {

/// Punctuation and operator tokens.
#[derive(Clone, Copy, Debug, PartialEq, Eq, Structural)]
pub enum Sym {
    LBrace, RBrace, LParen, RParen, Colon, Comma, Assign, Plus, Minus, Star, Slash, Percent,
    Less, Greater, Bang, Dot, Arrow, DotDot, EqEq, NotEq, LessEq, GreaterEq, AndAnd, OrOr,
}

#[derive(Debug)]
pub enum K {
    Word(String),
    Int(i32),
    Str(String),
    Sym(Sym),
    Eof,
}

#[derive(Debug)]
pub struct Tok {
    pub k: K,
    pub s: SourceSpan,
}

pub open spec fn ascii_alpha(c: char) -> bool {
    ('a' <= c && c <= 'z') || ('A' <= c && c <= 'Z')
}

pub open spec fn ascii_digit(c: char) -> bool {
    '0' <= c && c <= '9'
}

pub open spec fn word_char(c: char) -> bool {
    ascii_alpha(c) || ascii_digit(c) || c == '_'
}

/// Unicode `White_Space` characters.
pub open spec fn white_space(c: char) -> bool {
    let v = c as u32;
    (0x09 <= v && v <= 0x0d) || v == 0x20 || v == 0x85 || v == 0xa0 || v == 0x1680
        || (0x2000 <= v && v <= 0x200a) || v == 0x2028 || v == 0x2029 || v == 0x202f
        || v == 0x205f || v == 0x3000
}

fn is_alpha(c: char) -> (r: bool)
    ensures
        r == ascii_alpha(c),
{
    ('a' <= c && c <= 'z') || ('A' <= c && c <= 'Z')
}

fn is_digit(c: char) -> (r: bool)
    ensures
        r == ascii_digit(c),
{
    '0' <= c && c <= '9'
}

fn is_word_char(c: char) -> (r: bool)
    ensures
        r == word_char(c),
{
    is_alpha(c) || is_digit(c) || c == '_'
}

fn is_white_space(c: char) -> (r: bool)
    ensures
        r == white_space(c),
{
    let v = c as u32;
    (0x09 <= v && v <= 0x0d) || v == 0x20 || v == 0x85 || v == 0xa0 || v == 0x1680
        || (0x2000 <= v && v <= 0x200a) || v == 0x2028 || v == 0x2029 || v == 0x202f
        || v == 0x205f || v == 0x3000
}

/// Value of a run of decimal digits.
pub open spec fn digits_value(cs: Seq<char>) -> nat
    decreases cs.len(),
{
    if cs.len() == 0 {
        0
    } else {
        (digits_value(cs.drop_last()) * 10 + (cs.last() as u32 - '0' as u32)) as nat
    }
}

proof fn digits_value_monotone(cs: Seq<char>, k: int)
    requires
        0 <= k <= cs.len(),
        forall|j: int| 0 <= j < cs.len() ==> ascii_digit(#[trigger] cs[j]),
    ensures
        digits_value(cs.take(k)) <= digits_value(cs),
    decreases cs.len() - k,
{
    if k < cs.len() {
        digits_value_monotone(cs, k + 1);
        assert(cs.take(k + 1).drop_last() =~= cs.take(k));
    } else {
        assert(cs.take(k) =~= cs);
    }
}

/// Well-formed token streams: one final end-of-input token, non-empty words
/// made of word characters that start with a letter or `_`, and integers
/// that are non-negative.
pub open spec fn well_formed_tokens(t: Seq<Tok>) -> bool {
    &&& t.len() >= 1
    &&& t.last().k is Eof
    &&& forall|i: int| 0 <= i < t.len() - 1 ==> !(#[trigger] t[i].k is Eof)
    &&& forall|i: int| 0 <= i < t.len() ==> match #[trigger] t[i].k {
        K::Word(w) => w@.len() > 0 && (ascii_alpha(w@[0]) || w@[0] == '_')
            && forall|j: int| 0 <= j < w@.len() ==> word_char(#[trigger] w@[j]),
        K::Int(v) => v >= 0,
        _ => true,
    }
}

/// What a token holds.
pub enum Lexeme {
    Word(Seq<char>),
    Int(i32),
    Str(Seq<char>),
    Sym(Sym),
    Eof,
}

/// A token's content and place.
pub open spec fn tok_view(t: Tok) -> (Lexeme, SourceSpan) {
    (
        match t.k {
            K::Word(w) => Lexeme::Word(w@),
            K::Int(v) => Lexeme::Int(v),
            K::Str(v) => Lexeme::Str(v@),
            K::Sym(y) => Lexeme::Sym(y),
            K::Eof => Lexeme::Eof,
        },
        t.s,
    )
}

/// The contents and places of a token list.
pub open spec fn toks_view(t: Seq<Tok>) -> Seq<(Lexeme, SourceSpan)> {
    t.map_values(|x: Tok| tok_view(x))
}

/// The span on `line` from column `from` to column `to`.
pub open spec fn line_span(line: int, from: int, to: int) -> SourceSpan {
    SourceSpan {
        start: SourceLocation { line: line as usize, column: from as usize },
        end: SourceLocation { line: line as usize, column: to as usize },
    }
}

/// The first position from `i` on that does not hold a word character.
pub open spec fn word_end(c: Seq<char>, i: int) -> int
    decreases c.len() - i,
{
    if 0 <= i < c.len() && word_char(c[i]) { word_end(c, i + 1) } else { i }
}

/// The first position from `i` on that does not hold a decimal digit.
pub open spec fn digits_end(c: Seq<char>, i: int) -> int
    decreases c.len() - i,
{
    if 0 <= i < c.len() && ascii_digit(c[i]) { digits_end(c, i + 1) } else { i }
}

/// The first position from `i` on that holds a line feed, or the end.
pub open spec fn line_end(c: Seq<char>, i: int) -> int
    decreases c.len() - i,
{
    if 0 <= i < c.len() && c[i] != '\n' { line_end(c, i + 1) } else { i }
}

pub proof fn ends_after(c: Seq<char>, i: int)
    ensures
        word_end(c, i) >= i,
        digits_end(c, i) >= i,
        line_end(c, i) >= i,
        i <= c.len() ==> word_end(c, i) <= c.len() && digits_end(c, i) <= c.len() && line_end(c, i) <= c.len(),
    decreases c.len() - i,
{
    if 0 <= i < c.len() {
        ends_after(c, i + 1);
    }
}

/// The character a backslash escape stands for.
pub open spec fn escaped(e: char) -> Option<char> {
    if e == 'n' {
        Some('\n')
    } else if e == 'r' {
        Some('\r')
    } else if e == 't' {
        Some('\t')
    } else if e == '"' {
        Some('"')
    } else if e == '\\' {
        Some('\\')
    } else {
        None
    }
}

/// Scans a string literal on from `i`, its opening quote at column `start` of `line` and
/// the next character at column `col`, holding `acc` so far: its value, and the position and
/// column after its closing quote.
pub open spec fn scan_str(c: Seq<char>, i: int, line: int, start: int, col: int, acc: Seq<char>) -> Result<
    (Seq<char>, int, int),
    Fault,
>
    decreases c.len() - i,
{
    if i < 0 || i >= c.len() || c[i] == '\n' {
        Err(("AIC1203", Some(line_span(line, start, col))))
    } else if c[i] == '"' {
        Ok((acc, i + 1, col + 1))
    } else if c[i] == '\\' {
        if i + 1 >= c.len() {
            Err(("AIC1203", Some(line_span(line, start, col + 1))))
        } else {
            match escaped(c[i + 1]) {
                Some(ch) => scan_str(c, i + 2, line, start, col + 2, acc.push(ch)),
                None => Err(("AIC1202", Some(line_span(line, start, col + 1)))),
            }
        }
    } else {
        scan_str(c, i + 1, line, start, col + 1, acc.push(c[i]))
    }
}

pub proof fn scan_str_after(c: Seq<char>, i: int, line: int, start: int, col: int, acc: Seq<char>)
    ensures
        scan_str(c, i, line, start, col, acc) matches Ok((_, j, _)) ==> i < j <= c.len(),
    decreases c.len() - i,
{
    if 0 <= i < c.len() && c[i] != '\n' && c[i] != '"' {
        if c[i] == '\\' {
            if i + 1 < c.len() {
                if let Some(ch) = escaped(c[i + 1]) {
                    scan_str_after(c, i + 2, line, start, col + 2, acc.push(ch));
                }
            }
        } else {
            scan_str_after(c, i + 1, line, start, col + 1, acc.push(c[i]));
        }
    }
}

/// The two-character operator that `x` and `y` spell.
pub open spec fn pair_sym(x: char, y: char) -> Option<Sym> {
    if x == '-' && y == '>' {
        Some(Sym::Arrow)
    } else if x == '.' && y == '.' {
        Some(Sym::DotDot)
    } else if x == '=' && y == '=' {
        Some(Sym::EqEq)
    } else if x == '!' && y == '=' {
        Some(Sym::NotEq)
    } else if x == '<' && y == '=' {
        Some(Sym::LessEq)
    } else if x == '>' && y == '=' {
        Some(Sym::GreaterEq)
    } else if x == '&' && y == '&' {
        Some(Sym::AndAnd)
    } else if x == '|' && y == '|' {
        Some(Sym::OrOr)
    } else {
        None
    }
}

/// The one-character symbol `x` spells.
pub open spec fn single_sym(x: char) -> Option<Sym> {
    if x == '{' {
        Some(Sym::LBrace)
    } else if x == '}' {
        Some(Sym::RBrace)
    } else if x == '(' {
        Some(Sym::LParen)
    } else if x == ')' {
        Some(Sym::RParen)
    } else if x == ':' {
        Some(Sym::Colon)
    } else if x == ',' {
        Some(Sym::Comma)
    } else if x == '=' {
        Some(Sym::Assign)
    } else if x == '+' {
        Some(Sym::Plus)
    } else if x == '-' {
        Some(Sym::Minus)
    } else if x == '*' {
        Some(Sym::Star)
    } else if x == '/' {
        Some(Sym::Slash)
    } else if x == '%' {
        Some(Sym::Percent)
    } else if x == '<' {
        Some(Sym::Less)
    } else if x == '>' {
        Some(Sym::Greater)
    } else if x == '!' {
        Some(Sym::Bang)
    } else if x == '.' {
        Some(Sym::Dot)
    } else {
        None
    }
}

/// `t` in front of the tokens `r` holds.
pub open spec fn cons(t: (Lexeme, SourceSpan), r: Result<Seq<(Lexeme, SourceSpan)>, Fault>) -> Result<
    Seq<(Lexeme, SourceSpan)>,
    Fault,
> {
    match r {
        Ok(ts) => Ok(seq![t] + ts),
        Err(f) => Err(f),
    }
}

/// The tokens `ts` in front of the tokens `r` holds.
pub open spec fn after(ts: Seq<(Lexeme, SourceSpan)>, r: Result<Seq<(Lexeme, SourceSpan)>, Fault>) -> Result<
    Seq<(Lexeme, SourceSpan)>,
    Fault,
> {
    match r {
        Ok(us) => Ok(ts + us),
        Err(f) => Err(f),
    }
}

/// The tokens of `c` from position `i`, at `line` and column `col`: line feeds and other
/// white space separate tokens, `#` comments out the rest of a line, and the last token
/// marks the end of the input.
pub open spec fn lex_from(c: Seq<char>, i: int, line: int, col: int) -> Result<Seq<(Lexeme, SourceSpan)>, Fault>
    decreases c.len() - i,
{
    if i < 0 || i >= c.len() {
        Ok(seq![(Lexeme::Eof, line_span(line, col, col))])
    } else {
        let x = c[i];
        if x == '\n' {
            lex_from(c, i + 1, line + 1, 1)
        } else if white_space(x) {
            lex_from(c, i + 1, line, col + 1)
        } else if x == '#' {
            let e = line_end(c, i + 1);
            proof {
                ends_after(c, i + 1);
                assert(e > i);
            }
            lex_from(c, e, line, col + (e - i))
        } else if ascii_alpha(x) || x == '_' {
            let e = word_end(c, i);
            proof {
                ends_after(c, i + 1);
                assert(word_end(c, i) == word_end(c, i + 1));
                assert(e > i);
            }
            cons((Lexeme::Word(c.subrange(i, e)), line_span(line, col, col + (e - i))), lex_from(c, e, line, col + (e - i)))
        } else if ascii_digit(x) {
            let e = digits_end(c, i);
            proof {
                ends_after(c, i + 1);
                assert(digits_end(c, i) == digits_end(c, i + 1));
                assert(e > i);
            }
            let v = digits_value(c.subrange(i, e));
            if v > i32::MAX {
                Err(("AIC1201", Some(line_span(line, col, col + (e - i)))))
            } else {
                cons((Lexeme::Int(v as i32), line_span(line, col, col + (e - i))), lex_from(c, e, line, col + (e - i)))
            }
        } else if x == '"' {
            proof {
                scan_str_after(c, i + 1, line, col, col + 1, Seq::empty());
            }
            match scan_str(c, i + 1, line, col, col + 1, Seq::empty()) {
                Err(f) => Err(f),
                Ok((v, j, k)) => cons((Lexeme::Str(v), line_span(line, col, k)), lex_from(c, j, line, k)),
            }
        } else {
            match (if i + 1 < c.len() { pair_sym(x, c[i + 1]) } else { None }) {
                Some(p) => cons((Lexeme::Sym(p), line_span(line, col, col + 2)), lex_from(c, i + 2, line, col + 2)),
                None => match single_sym(x) {
                    Some(y) => cons((Lexeme::Sym(y), line_span(line, col, col + 1)), lex_from(c, i + 1, line, col + 1)),
                    None => Err(("AIC1204", Some(line_span(line, col, col + 1)))),
                },
            }
        }
    }
}

/// The tokens of a source text.
pub open spec fn tokens(src: Seq<char>) -> Result<Seq<(Lexeme, SourceSpan)>, Fault> {
    lex_from(src, 0, 1, 1)
}

fn span(start: SourceLocation, line: usize, column: usize) -> (r: SourceSpan)
    ensures
        r.start == start,
        r.end == (SourceLocation { line, column }),
{
    SourceSpan { start, end: SourceLocation { line, column } }
}

proof fn after_cons(ts: Seq<(Lexeme, SourceSpan)>, t: (Lexeme, SourceSpan), r: Result<Seq<(Lexeme, SourceSpan)>, Fault>)
    ensures
        after(ts, cons(t, r)) == after(ts.push(t), r),
{
    match r {
        Ok(us) => {
            assert(ts + (seq![t] + us) =~= ts.push(t) + us);
        },
        Err(_) => {},
    }
}

fn pair_of(x: char, y: char) -> (r: Option<Sym>)
    ensures
        r == pair_sym(x, y),
{
    if x == '-' && y == '>' {
        Some(Sym::Arrow)
    } else if x == '.' && y == '.' {
        Some(Sym::DotDot)
    } else if x == '=' && y == '=' {
        Some(Sym::EqEq)
    } else if x == '!' && y == '=' {
        Some(Sym::NotEq)
    } else if x == '<' && y == '=' {
        Some(Sym::LessEq)
    } else if x == '>' && y == '=' {
        Some(Sym::GreaterEq)
    } else if x == '&' && y == '&' {
        Some(Sym::AndAnd)
    } else if x == '|' && y == '|' {
        Some(Sym::OrOr)
    } else {
        None
    }
}

fn single_of(x: char) -> (r: Option<Sym>)
    ensures
        r == single_sym(x),
{
    if x == '{' {
        Some(Sym::LBrace)
    } else if x == '}' {
        Some(Sym::RBrace)
    } else if x == '(' {
        Some(Sym::LParen)
    } else if x == ')' {
        Some(Sym::RParen)
    } else if x == ':' {
        Some(Sym::Colon)
    } else if x == ',' {
        Some(Sym::Comma)
    } else if x == '=' {
        Some(Sym::Assign)
    } else if x == '+' {
        Some(Sym::Plus)
    } else if x == '-' {
        Some(Sym::Minus)
    } else if x == '*' {
        Some(Sym::Star)
    } else if x == '/' {
        Some(Sym::Slash)
    } else if x == '%' {
        Some(Sym::Percent)
    } else if x == '<' {
        Some(Sym::Less)
    } else if x == '>' {
        Some(Sym::Greater)
    } else if x == '!' {
        Some(Sym::Bang)
    } else if x == '.' {
        Some(Sym::Dot)
    } else {
        None
    }
}

/// Splits source text into tokens.
#[verifier::spinoff_prover]
pub fn lex(src: &str) -> (r: Result<Vec<Tok>, Diagnostic>)
    requires
        src@.len() < usize::MAX,
    ensures
        r matches Ok(t) ==> well_formed_tokens(t@),
        r matches Err(d) ==> d.location is Some && (d.code == "AIC1201" || d.code == "AIC1202"
            || d.code == "AIC1203" || d.code == "AIC1204"),
        match tokens(src@) {
            Ok(ts) => r matches Ok(t) && toks_view(t@) == ts,
            Err(f) => r matches Err(d) && d.code == f.0 && d.location == f.1,
        },
{
    let c = crate::encoding::chars_of(src);
    let n = c.len();
    let mut i: usize = 0;
    let mut line: usize = 1;
    let mut col: usize = 1;
    let mut o: Vec<Tok> = Vec::new();
    assert(toks_view(o@) =~= Seq::<(Lexeme, SourceSpan)>::empty());
    assert(after(toks_view(o@), tokens(src@)) =~= tokens(src@)) by {
        match tokens(src@) {
            Ok(us) => {
                assert(Seq::<(Lexeme, SourceSpan)>::empty() + us =~= us);
            },
            Err(_) => {},
        }
    }
    while i < n
        invariant
            n == c@.len(),
            c@ == src@,
            n < usize::MAX,
            i <= n,
            1 <= line <= i + 1,
            1 <= col <= i + 1,
            forall|k: int| 0 <= k < o@.len() ==> !(#[trigger] o@[k].k is Eof),
            forall|k: int| 0 <= k < o@.len() ==> match #[trigger] o@[k].k {
                K::Word(w) => w@.len() > 0 && (ascii_alpha(w@[0]) || w@[0] == '_')
                    && forall|j: int| 0 <= j < w@.len() ==> word_char(#[trigger] w@[j]),
                K::Int(v) => v >= 0,
                _ => true,
            },
            tokens(src@) == after(toks_view(o@), lex_from(c@, i as int, line as int, col as int)),
        decreases n - i,
    {
        let x = c[i];
        let ghost c0 = col;
        let ghost before = toks_view(o@);
        if x == '\n' {
            i = i + 1;
            line = line + 1;
            col = 1;
            continue;
        }
        if is_white_space(x) {
            i = i + 1;
            col = col + 1;
            continue;
        }
        if x == '#' {
            let ghost i0 = i;
            i = i + 1;
            col = col + 1;
            while i < n && c[i] != '\n'
                invariant
                    n == c@.len(),
                    n < usize::MAX,
                    i <= n,
                    i > i0,
                    1 <= line <= i + 1,
                    1 <= col <= i + 1,
                    col == c0 + (i - i0),
                    line_end(c@, i0 + 1) == line_end(c@, i as int),
                decreases n - i,
            {
                i = i + 1;
                col = col + 1;
            }
            continue;
        }
        let st = SourceLocation { line, column: col };
        if is_alpha(x) || x == '_' {
            let b = i;
            while i < n && is_word_char(c[i])
                invariant
                    n == c@.len(),
                    n < usize::MAX,
                    b <= i <= n,
                    1 <= line <= b + 1,
                    1 <= col <= i + 1,
                    col == c0 + (i - b),
                    word_end(c@, b as int) == word_end(c@, i as int),
                    forall|j: int| b <= j < i ==> word_char(#[trigger] c@[j]),
                decreases n - i,
            {
                i = i + 1;
                col = col + 1;
            }
            let w = string_of_chars(slice_range(&c, b, i));
            assert(w@ =~= c@.subrange(b as int, i as int));
            assert(w@[0] == x);
            let t = Tok { k: K::Word(w), s: span(st, line, col) };
            proof {
                after_cons(before, tok_view(t), lex_from(c@, i as int, line as int, col as int));
            }
            o.push(t);
            assert(toks_view(o@) =~= before.push(tok_view(t)));
            continue;
        }
        if is_digit(x) {
            let b = i;
            let mut value: u64 = 0;
            let mut overflow = false;
            while i < n && is_digit(c[i])
                invariant
                    n == c@.len(),
                    n < usize::MAX,
                    b <= i <= n,
                    1 <= line <= b + 1,
                    1 <= col <= i + 1,
                    col == c0 + (i - b),
                    digits_end(c@, b as int) == digits_end(c@, i as int),
                    forall|j: int| b <= j < i ==> ascii_digit(#[trigger] c@[j]),
                    !overflow ==> value == digits_value(c@.subrange(b as int, i as int)),
                    !overflow ==> value <= i32::MAX,
                    overflow ==> digits_value(c@.subrange(b as int, i as int)) > i32::MAX,
                decreases n - i,
            {
                let d = (c[i] as u32 - '0' as u32) as u64;
                let ghost prev = c@.subrange(b as int, i as int);
                assert(c@.subrange(b as int, i + 1).drop_last() =~= prev);
                if !overflow {
                    value = value * 10 + d;
                    if value > 2147483647 {
                        overflow = true;
                    }
                } else {
                    proof {
                        let cur = c@.subrange(b as int, i + 1);
                        assert(forall|j: int| 0 <= j < cur.len() ==> ascii_digit(#[trigger] cur[j]));
                        digits_value_monotone(cur, cur.len() - 1);
                        assert(cur.take(cur.len() - 1) =~= prev);
                    }
                }
                i = i + 1;
                col = col + 1;
            }
            if overflow {
                return Err(Diagnostic::at("AIC1201", span(st, line, col), owned("integer literal is outside i32 range")));
            }
            let t = Tok { k: K::Int(value as i32), s: span(st, line, col) };
            proof {
                after_cons(before, tok_view(t), lex_from(c@, i as int, line as int, col as int));
            }
            o.push(t);
            assert(toks_view(o@) =~= before.push(tok_view(t)));
            continue;
        }
        if x == '"' {
            let ghost i0 = i;
            i = i + 1;
            col = col + 1;
            let mut v: Vec<char> = Vec::new();
            let mut closed = false;
            let ghost whole = scan_str(c@, i0 + 1, line as int, c0 as int, c0 + 1, Seq::empty());
            assert(whole is Err ==> tokens(src@) == Err::<Seq<(Lexeme, SourceSpan)>, Fault>(whole->Err_0));
            while i < n && c[i] != '\n' && !closed
                invariant
                    whole == scan_str(c@, i0 + 1, line as int, c0 as int, c0 + 1, Seq::empty()),
                    whole is Err ==> tokens(src@) == Err::<Seq<(Lexeme, SourceSpan)>, Fault>(whole->Err_0),
                    st == (SourceLocation { line, column: c0 }),
                    n == c@.len(),
                    n < usize::MAX,
                    i <= n,
                    i > i0,
                    1 <= line <= i + 1,
                    1 <= col <= i + 1,
                    !closed ==> scan_str(c@, i0 + 1, line as int, c0 as int, c0 + 1, Seq::empty()) == scan_str(
                        c@,
                        i as int,
                        line as int,
                        c0 as int,
                        col as int,
                        v@,
                    ),
                    closed ==> scan_str(c@, i0 + 1, line as int, c0 as int, c0 + 1, Seq::empty()) == Ok::<
                        (Seq<char>, int, int),
                        Fault,
                    >((v@, i as int, col as int)),
                decreases n - i + (if closed { 0int } else { 1 }),
            {
                if c[i] == '"' {
                    i = i + 1;
                    col = col + 1;
                    closed = true;
                } else if c[i] == '\\' && i + 1 >= n {
                    i = i + 1;
                    col = col + 1;
                } else {
                    let mut ch = c[i];
                    if c[i] == '\\' {
                        i = i + 1;
                        col = col + 1;
                        let e = c[i];
                        if e == 'n' {
                            ch = '\n';
                        } else if e == 'r' {
                            ch = '\r';
                        } else if e == 't' {
                            ch = '\t';
                        } else if e == '"' {
                            ch = '"';
                        } else if e == '\\' {
                            ch = '\\';
                        } else {
                            return Err(Diagnostic::at("AIC1202", span(st, line, col), owned("unsupported escape")));
                        }
                    }
                    v.push(ch);
                    i = i + 1;
                    col = col + 1;
                }
            }
            if !closed {
                return Err(Diagnostic::at("AIC1203", span(st, line, col), owned("unterminated string")));
            }
            let t = Tok { k: K::Str(string_of_chars(v.as_slice())), s: span(st, line, col) };
            proof {
                after_cons(before, tok_view(t), lex_from(c@, i as int, line as int, col as int));
            }
            o.push(t);
            assert(toks_view(o@) =~= before.push(tok_view(t)));
            continue;
        }
        let pair = if i + 1 < n { pair_of(x, c[i + 1]) } else { None };
        if let Some(p) = pair {
            i = i + 2;
            col = col + 2;
            let t = Tok { k: K::Sym(p), s: span(st, line, col) };
            proof {
                after_cons(before, tok_view(t), lex_from(c@, i as int, line as int, col as int));
            }
            o.push(t);
            assert(toks_view(o@) =~= before.push(tok_view(t)));
            continue;
        }
        let y = match single_of(x) {
            Some(y) => y,
            None => {
                let text = concat(&concat("unexpected character `", &string_of_chars(&[x])), "`");
                return Err(Diagnostic::at("AIC1204", span(st, line, col + 1), text));
            },
        };
        i = i + 1;
        col = col + 1;
        let t = Tok { k: K::Sym(y), s: span(st, line, col) };
        proof {
            after_cons(before, tok_view(t), lex_from(c@, i as int, line as int, col as int));
        }
        o.push(t);
        assert(toks_view(o@) =~= before.push(tok_view(t)));
    }
    let p = SourceLocation { line, column: col };
    let t = Tok { k: K::Eof, s: SourceSpan { start: p, end: p } };
    let ghost before = toks_view(o@);
    o.push(t);
    assert(toks_view(o@) =~= before.push(tok_view(t)));
    Ok(o)
}

/// The characters `c[b..e]`.
fn slice_range(c: &Vec<char>, b: usize, e: usize) -> (r: &[char])
    requires
        b <= e <= c@.len(),
    ensures
        r@ == c@.subrange(b as int, e as int),
{
    vstd::slice::slice_subrange(c.as_slice(), b, e)
}

} // verus!
