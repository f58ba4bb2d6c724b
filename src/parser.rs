use vstd::prelude::*;
use vstd::string::StringExecFns;

use crate::ast::{Ast, BinOpKind, Block, Expr, FnDef, Global, UnOpKind};
use crate::instr::{decimal, digit_char};
use crate::lexer::{chars_of, digit_end, is_digit, lex, lex_from, make_token, Token, TokenKind, TokenView};
use crate::ty::Type;

verus! {

/// The token at which parsing failed, by index; the number of tokens where
/// the input ended too early.
#[derive(Debug, Clone, Copy, PartialEq, Eq, Structural)]
pub struct ParseError {
    pub token: usize,
}

/// The value of a string of decimal digits.
pub open spec fn digits_value(s: Seq<char>) -> int
    decreases s.len(),
{
    if s.len() == 0 {
        0
    } else {
        digits_value(s.drop_last()) * 10 + (s.last() as int - '0' as int)
    }
}

/// The value of the digits of `s`, where every character is a digit and the
/// value fits in an `i64`.
pub fn number_value(s: &String) -> (r: Option<i64>)
    ensures
        r matches Some(v) ==> v as int == digits_value(s@) && (forall|i: int| 0 <= i < s@.len() ==> is_digit(#[trigger] s@[i])),
        r is None ==> !(forall|i: int| 0 <= i < s@.len() ==> is_digit(#[trigger] s@[i])) || digits_value(s@) > i64::MAX,
{
    let cs = chars_of(s.as_str());
    let mut k: usize = 0;
    while k < cs.len()
        invariant
            cs@ == s@,
            k <= cs.len(),
            forall|i: int| 0 <= i < k ==> is_digit(#[trigger] cs@[i]),
        decreases cs.len() - k,
    {
        if !('0' <= cs[k] && cs[k] <= '9') {
            return None;
        }
        k = k + 1;
    }
    let mut v: i64 = 0;
    k = 0;
    while k < cs.len()
        invariant
            cs@ == s@,
            k <= cs.len(),
            v as int == digits_value(cs@.take(k as int)),
            v >= 0,
            forall|i: int| 0 <= i < cs@.len() ==> is_digit(#[trigger] cs@[i]),
        decreases cs.len() - k,
    {
        let c = cs[k];
        proof {
            assert(cs@.take(k + 1).drop_last() =~= cs@.take(k as int));
            assert(is_digit(cs@[k as int]));
        }
        let d = (c as u32 - '0' as u32) as i64;
        assert(0 <= d <= 9);
        if v > (i64::MAX - d) / 10 {
            proof {
                lemma_digits_grow(cs@, k as int + 1);
                assert(digits_value(cs@.take(k + 1)) == v * 10 + d);
                assert(v * 10 + d > i64::MAX) by (nonlinear_arith)
                    requires
                        v > (i64::MAX - d) / 10,
                        0 <= d <= 9,
                ;
            }
            return None;
        }
        assert(v * 10 + d <= i64::MAX) by (nonlinear_arith)
            requires
                v <= (i64::MAX - d) / 10,
                0 <= d <= 9,
                v >= 0,
        ;
        v = v * 10 + d;
        k = k + 1;
    }
    assert(cs@.take(k as int) =~= cs@);
    Some(v)
}

/// The value of a prefix of digits bounds the value of the longer prefixes.
proof fn lemma_digits_grow(s: Seq<char>, k: int)
    requires
        0 <= k <= s.len(),
        forall|i: int| 0 <= i < s.len() ==> is_digit(#[trigger] s[i]),
    ensures
        digits_value(s) >= digits_value(s.take(k)),
    decreases s.len() - k,
{
    if k < s.len() {
        lemma_digits_grow(s, k + 1);
        assert(s.take(k + 1).drop_last() =~= s.take(k));
        lemma_digits_nonneg(s.take(k));
    } else {
        assert(s.take(k) =~= s);
    }
}

proof fn lemma_digits_nonneg(s: Seq<char>)
    requires
        forall|i: int| 0 <= i < s.len() ==> is_digit(#[trigger] s[i]),
    ensures
        digits_value(s) >= 0,
    decreases s.len(),
{
    if s.len() > 0 {
        lemma_digits_nonneg(s.drop_last());
    }
}

proof fn lemma_digit_char(d: nat)
    requires
        d < 10,
    ensures
        is_digit(digit_char(d)),
        digit_char(d) as int - '0' as int == d,
{
}

/// The decimal form of a number is a non-empty string of digits whose value
/// is the number.
proof fn lemma_decimal(n: nat)
    ensures
        decimal(n).len() >= 1,
        forall|i: int| 0 <= i < decimal(n).len() ==> is_digit(#[trigger] decimal(n)[i]),
        digits_value(decimal(n)) == n,
    decreases n,
{
    if n < 10 {
        lemma_digit_char(n);
        assert(decimal(n).drop_last() =~= Seq::<char>::empty());
        assert(digits_value(Seq::<char>::empty()) == 0);
    } else {
        lemma_decimal(n / 10);
        lemma_digit_char(n % 10);
        assert(decimal(n).drop_last() =~= decimal(n / 10));
        assert(decimal(n).last() == digit_char(n % 10));
        assert(digits_value(decimal(n)) == (n / 10) as int * 10 + (n % 10) as int);
        assert((n / 10) as int * 10 + (n % 10) as int == n) by (nonlinear_arith);
    }
}

proof fn lemma_digit_run(s: Seq<char>, i: int)
    requires
        0 <= i <= s.len(),
        forall|k: int| 0 <= k < s.len() ==> is_digit(#[trigger] s[k]),
    ensures
        digit_end(s, i) == s.len(),
    decreases s.len() - i,
{
    if i < s.len() {
        lemma_digit_run(s, i + 1);
    }
}

/// Writing a number in decimal and tokenizing the text gives one number
/// token that covers the whole text and carries it, and the value of that
/// text is the number again.
pub proof fn lemma_literal_round_trip(n: nat)
    ensures
        lex(decimal(n)) == Ok::<Seq<TokenView>, int>(
            seq![make_token(decimal(n), TokenKind::Number, 0, decimal(n).len() as int)],
        ),
        digits_value(decimal(n)) == n,
{
    let s = decimal(n);
    lemma_decimal(n);
    lemma_digit_run(s, 0);
    assert(is_digit(s[0]));
    assert(lex_from(s, s.len() as int) == Ok::<Seq<TokenView>, int>(Seq::empty()));
    assert(seq![make_token(s, TokenKind::Number, 0, s.len() as int)] + Seq::<TokenView>::empty() =~= seq![
        make_token(s, TokenKind::Number, 0, s.len() as int),
    ]);
}

/// A parse of something at `pos`: on success it ends after `pos`, within the
/// tokens; on failure it names a token index or the end.
pub open spec fn advanced<T>(r: Result<(T, usize), ParseError>, pos: usize, n: int) -> bool {
    match r {
        Ok((_, p)) => pos < p <= n,
        Err(e) => e.token <= n,
    }
}

fn kind_at(tokens: &Vec<Token>, p: usize) -> (r: Option<TokenKind>)
    ensures
        p < tokens.len() ==> r == Some(tokens@[p as int].kind),
        p >= tokens.len() ==> r is None,
{
    if p < tokens.len() {
        Some(tokens[p].kind)
    } else {
        None
    }
}

fn is_kind(tokens: &Vec<Token>, p: usize, k: TokenKind) -> (r: bool)
    ensures
        r == (p < tokens.len() && tokens@[p as int].kind == k),
{
    p < tokens.len() && tokens[p].kind == k
}

/// The position after a token of kind `k` at `p`.
fn expect(tokens: &Vec<Token>, p: usize, k: TokenKind) -> (r: Result<usize, ParseError>)
    requires
        p <= tokens.len(),
    ensures
        r matches Ok(q) ==> q == p + 1 && q <= tokens.len() && tokens@[p as int].kind == k,
        r matches Err(e) ==> e.token == p,
{
    if is_kind(tokens, p, k) {
        Ok(p + 1)
    } else {
        Err(ParseError { token: p })
    }
}

/// The text an identifier or number token carries.
fn text_at(tokens: &Vec<Token>, p: usize) -> (r: String)
    requires
        p < tokens.len(),
    ensures
        tokens@[p as int].value matches Some(t) ==> r@ == t@,
{
    match &tokens[p].value {
        Some(t) => t.clone(),
        None => String::new(),
    }
}

fn text_is(t: &String, w: &str) -> (r: bool)
    ensures
        r == (t@ == w@),
{
    *t == <String as StringExecFns>::from_str(w)
}

/// `i64`, `bool`, any other name (an unknown type), `*T` or `[T; n]`.
fn parse_type(tokens: &Vec<Token>, pos: usize) -> (r: Result<(Type, usize), ParseError>)
    requires
        pos <= tokens.len(),
    ensures
        advanced(r, pos, tokens.len() as int),
    decreases tokens.len() - pos,
{
    match kind_at(tokens, pos) {
        Some(TokenKind::Ident) => {
            let t = text_at(tokens, pos);
            let ty = if text_is(&t, "i64") {
                Type::I64
            } else if text_is(&t, "bool") {
                Type::Bool
            } else {
                Type::Unknown
            };
            Ok((ty, pos + 1))
        },
        Some(TokenKind::Star) => {
            let (to, p) = parse_type(tokens, pos + 1)?;
            Ok((Type::Ptr { to: Box::new(to) }, p))
        },
        Some(TokenKind::LBlanket) => {
            let (element, p) = parse_type(tokens, pos + 1)?;
            let p = expect(tokens, p, TokenKind::Semi)?;
            if !is_kind(tokens, p, TokenKind::Number) {
                return Err(ParseError { token: p });
            }
            let len = match number_value(&text_at(tokens, p)) {
                Some(v) => v as usize,
                None => {
                    return Err(ParseError { token: p });
                },
            };
            let p = expect(tokens, p + 1, TokenKind::RBlanket)?;
            Ok((Type::Array { element: Box::new(element), len }, p))
        },
        _ => Err(ParseError { token: pos }),
    }
}

/// An expression: an assignment or anything that binds tighter.
pub fn parse_expr(tokens: &Vec<Token>, pos: usize) -> (r: Result<(Expr, usize), ParseError>)
    requires
        pos <= tokens.len(),
    ensures
        advanced(r, pos, tokens.len() as int),
    decreases tokens.len() - pos, 8nat,
{
    parse_assign(tokens, pos)
}

/// `lvalue = expr`, right-associative; the target must be a local or a
/// dereference.
fn parse_assign(tokens: &Vec<Token>, pos: usize) -> (r: Result<(Expr, usize), ParseError>)
    requires
        pos <= tokens.len(),
    ensures
        advanced(r, pos, tokens.len() as int),
    decreases tokens.len() - pos, 7nat,
{
    let (lhs, p) = parse_equality(tokens, pos)?;
    if is_kind(tokens, p, TokenKind::Eq) {
        let addressable = match &lhs {
            Expr::Local { .. } => true,
            Expr::UnOp { kind: UnOpKind::Deref, .. } => true,
            _ => false,
        };
        if !addressable {
            return Err(ParseError { token: p });
        }
        let (rhs, q) = parse_assign(tokens, p + 1)?;
        Ok((Expr::Assign { lhs: Box::new(lhs), rhs: Box::new(rhs) }, q))
    } else {
        Ok((lhs, p))
    }
}

/// `==` and `!=`, left-associative.
fn parse_equality(tokens: &Vec<Token>, pos: usize) -> (r: Result<(Expr, usize), ParseError>)
    requires
        pos <= tokens.len(),
    ensures
        advanced(r, pos, tokens.len() as int),
    decreases tokens.len() - pos, 6nat,
{
    let (mut lhs, mut p) = parse_relational(tokens, pos)?;
    loop
        invariant
            pos < p <= tokens.len(),
        decreases tokens.len() - p,
    {
        let op = if is_kind(tokens, p, TokenKind::Eq) && is_kind(tokens, p + 1, TokenKind::Eq) {
            BinOpKind::Eq
        } else if is_kind(tokens, p, TokenKind::Bang) && is_kind(tokens, p + 1, TokenKind::Eq) {
            BinOpKind::Neq
        } else {
            return Ok((lhs, p));
        };
        let (rhs, q) = parse_relational(tokens, p + 2)?;
        lhs = Expr::BinOp { op, lhs: Box::new(lhs), rhs: Box::new(rhs) };
        p = q;
    }
}

/// `<`, `<=`, `>` and `>=`, left-associative.
fn parse_relational(tokens: &Vec<Token>, pos: usize) -> (r: Result<(Expr, usize), ParseError>)
    requires
        pos <= tokens.len(),
    ensures
        advanced(r, pos, tokens.len() as int),
    decreases tokens.len() - pos, 5nat,
{
    let (mut lhs, mut p) = parse_additive(tokens, pos)?;
    loop
        invariant
            pos < p <= tokens.len(),
        decreases tokens.len() - p,
    {
        let or_eq = p < tokens.len() && is_kind(tokens, p + 1, TokenKind::Eq);
        let op = if is_kind(tokens, p, TokenKind::Lt) {
            if or_eq { BinOpKind::LtEq } else { BinOpKind::Lt }
        } else if is_kind(tokens, p, TokenKind::Gt) {
            if or_eq { BinOpKind::GtEq } else { BinOpKind::Gt }
        } else {
            return Ok((lhs, p));
        };
        let next = if or_eq { p + 2 } else { p + 1 };
        let (rhs, q) = parse_additive(tokens, next)?;
        lhs = Expr::BinOp { op, lhs: Box::new(lhs), rhs: Box::new(rhs) };
        p = q;
    }
}

/// `+` and `-`, left-associative.
fn parse_additive(tokens: &Vec<Token>, pos: usize) -> (r: Result<(Expr, usize), ParseError>)
    requires
        pos <= tokens.len(),
    ensures
        advanced(r, pos, tokens.len() as int),
    decreases tokens.len() - pos, 4nat,
{
    let (mut lhs, mut p) = parse_term(tokens, pos)?;
    loop
        invariant
            pos < p <= tokens.len(),
        decreases tokens.len() - p,
    {
        let op = match kind_at(tokens, p) {
            Some(TokenKind::Plus) => BinOpKind::Add,
            Some(TokenKind::Minus) => BinOpKind::Sub,
            _ => {
                return Ok((lhs, p));
            },
        };
        let (rhs, q) = parse_term(tokens, p + 1)?;
        lhs = Expr::BinOp { op, lhs: Box::new(lhs), rhs: Box::new(rhs) };
        p = q;
    }
}

/// `*` and `/`, left-associative.
fn parse_term(tokens: &Vec<Token>, pos: usize) -> (r: Result<(Expr, usize), ParseError>)
    requires
        pos <= tokens.len(),
    ensures
        advanced(r, pos, tokens.len() as int),
    decreases tokens.len() - pos, 3nat,
{
    let (mut lhs, mut p) = parse_unary(tokens, pos)?;
    loop
        invariant
            pos < p <= tokens.len(),
        decreases tokens.len() - p,
    {
        let op = match kind_at(tokens, p) {
            Some(TokenKind::Star) => BinOpKind::Mul,
            Some(TokenKind::Slash) => BinOpKind::Div,
            _ => {
                return Ok((lhs, p));
            },
        };
        let (rhs, q) = parse_unary(tokens, p + 1)?;
        lhs = Expr::BinOp { op, lhs: Box::new(lhs), rhs: Box::new(rhs) };
        p = q;
    }
}

/// Prefix `-`, `&` and `*`.
fn parse_unary(tokens: &Vec<Token>, pos: usize) -> (r: Result<(Expr, usize), ParseError>)
    requires
        pos <= tokens.len(),
    ensures
        advanced(r, pos, tokens.len() as int),
    decreases tokens.len() - pos, 2nat,
{
    let kind = match kind_at(tokens, pos) {
        Some(TokenKind::Minus) => UnOpKind::Neg,
        Some(TokenKind::And) => UnOpKind::Ref,
        Some(TokenKind::Star) => UnOpKind::Deref,
        _ => {
            return parse_primary(tokens, pos);
        },
    };
    let (expr, p) = parse_unary(tokens, pos + 1)?;
    Ok((Expr::UnOp { kind, expr: Box::new(expr) }, p))
}

/// A literal, a local, a call or a parenthesized expression.
fn parse_primary(tokens: &Vec<Token>, pos: usize) -> (r: Result<(Expr, usize), ParseError>)
    requires
        pos <= tokens.len(),
    ensures
        advanced(r, pos, tokens.len() as int),
    decreases tokens.len() - pos, 1nat,
{
    match kind_at(tokens, pos) {
        Some(TokenKind::Number) => match number_value(&text_at(tokens, pos)) {
            Some(value) => Ok((Expr::Number { value }, pos + 1)),
            None => Err(ParseError { token: pos }),
        },
        Some(TokenKind::True) => Ok((Expr::Number { value: 1 }, pos + 1)),
        Some(TokenKind::False) => Ok((Expr::Number { value: 0 }, pos + 1)),
        Some(TokenKind::Ident) => {
            let name = text_at(tokens, pos);
            if !is_kind(tokens, pos + 1, TokenKind::LParen) {
                return Ok((Expr::Local { name }, pos + 1));
            }
            let mut args: Vec<Expr> = Vec::new();
            let mut p = pos + 2;
            if is_kind(tokens, p, TokenKind::RParen) {
                return Ok((Expr::FnCall { name, args }, p + 1));
            }
            loop
                invariant
                    pos < p <= tokens.len(),
                decreases tokens.len() - p,
            {
                let (arg, q) = parse_expr(tokens, p)?;
                args.push(arg);
                if is_kind(tokens, q, TokenKind::Comma) {
                    p = q + 1;
                } else {
                    let q = expect(tokens, q, TokenKind::RParen)?;
                    return Ok((Expr::FnCall { name, args }, q));
                }
            }
        },
        Some(TokenKind::LParen) => {
            let (expr, p) = parse_expr(tokens, pos + 1)?;
            let p = expect(tokens, p, TokenKind::RParen)?;
            Ok((Expr::Enclosed { expr: Box::new(expr) }, p))
        },
        _ => Err(ParseError { token: pos }),
    }
}

/// `{ statement* }`
fn parse_block(tokens: &Vec<Token>, pos: usize) -> (r: Result<(Block, usize), ParseError>)
    requires
        pos <= tokens.len(),
    ensures
        advanced(r, pos, tokens.len() as int),
    decreases tokens.len() - pos, 9nat,
{
    let mut p = expect(tokens, pos, TokenKind::LBrace)?;
    let mut exprs: Vec<Expr> = Vec::new();
    while !is_kind(tokens, p, TokenKind::RBrace)
        invariant
            pos < p <= tokens.len(),
        decreases tokens.len() - p,
    {
        let (e, q) = parse_stmt(tokens, p)?;
        exprs.push(e);
        p = q;
    }
    Ok((Block { exprs }, p + 1))
}

/// `if cond { ... }`, with an optional `else { ... }` or `else if ...`.
fn parse_if(tokens: &Vec<Token>, pos: usize) -> (r: Result<(Expr, usize), ParseError>)
    requires
        pos <= tokens.len(),
    ensures
        advanced(r, pos, tokens.len() as int),
    decreases tokens.len() - pos, 10nat,
{
    let p = expect(tokens, pos, TokenKind::If)?;
    let (cond, p) = parse_expr(tokens, p)?;
    let (if_body, p) = parse_block(tokens, p)?;
    if !is_kind(tokens, p, TokenKind::Else) {
        return Ok((Expr::IfElse { cond: Box::new(cond), if_body, else_body: None }, p));
    }
    if is_kind(tokens, p + 1, TokenKind::If) {
        let (nested, q) = parse_if(tokens, p + 1)?;
        let mut exprs: Vec<Expr> = Vec::new();
        exprs.push(nested);
        Ok((Expr::IfElse { cond: Box::new(cond), if_body, else_body: Some(Block { exprs }) }, q))
    } else {
        let (else_body, q) = parse_block(tokens, p + 1)?;
        Ok((Expr::IfElse { cond: Box::new(cond), if_body, else_body: Some(else_body) }, q))
    }
}

/// A statement of a block: `let`, `return`, `loop`, `if`, a block, or an
/// expression followed by `;`.
fn parse_stmt(tokens: &Vec<Token>, pos: usize) -> (r: Result<(Expr, usize), ParseError>)
    requires
        pos <= tokens.len(),
    ensures
        advanced(r, pos, tokens.len() as int),
    decreases tokens.len() - pos, 11nat,
{
    match kind_at(tokens, pos) {
        Some(TokenKind::Let) => {
            if !is_kind(tokens, pos + 1, TokenKind::Ident) {
                return Err(ParseError { token: pos + 1 });
            }
            let name = text_at(tokens, pos + 1);
            let (ty, p) = if is_kind(tokens, pos + 2, TokenKind::Colon) {
                parse_type(tokens, pos + 3)?
            } else {
                (Type::Unknown, pos + 2)
            };
            let p = expect(tokens, p, TokenKind::Eq)?;
            let (value, p) = parse_expr(tokens, p)?;
            let p = expect(tokens, p, TokenKind::Semi)?;
            Ok((Expr::Init { name, ty, value: Box::new(value) }, p))
        },
        Some(TokenKind::Return) => {
            let (expr, p) = parse_expr(tokens, pos + 1)?;
            let p = expect(tokens, p, TokenKind::Semi)?;
            Ok((Expr::Return { expr: Box::new(expr) }, p))
        },
        Some(TokenKind::Loop) => {
            let (body, p) = parse_block(tokens, pos + 1)?;
            Ok((Expr::Loop { body }, p))
        },
        Some(TokenKind::If) => parse_if(tokens, pos),
        Some(TokenKind::LBrace) => {
            let (b, p) = parse_block(tokens, pos)?;
            Ok((Expr::Block(b), p))
        },
        _ => {
            let (expr, p) = parse_expr(tokens, pos)?;
            let p = expect(tokens, p, TokenKind::Semi)?;
            Ok((Expr::Stmt { expr: Box::new(expr) }, p))
        },
    }
}

/// `fn name(param: Type, ...) { ... }`; a parameter without a type has an
/// unknown one.
fn parse_fn(tokens: &Vec<Token>, pos: usize) -> (r: Result<(FnDef, usize), ParseError>)
    requires
        pos <= tokens.len(),
    ensures
        advanced(r, pos, tokens.len() as int),
{
    let p = expect(tokens, pos, TokenKind::Fn)?;
    if !is_kind(tokens, p, TokenKind::Ident) {
        return Err(ParseError { token: p });
    }
    let name = text_at(tokens, p);
    let mut p = expect(tokens, p + 1, TokenKind::LParen)?;
    let mut args: Vec<(String, Type)> = Vec::new();
    if is_kind(tokens, p, TokenKind::RParen) {
        p = p + 1;
    } else {
        loop
            invariant
                pos < p <= tokens.len(),
            decreases tokens.len() - p,
        {
            if !is_kind(tokens, p, TokenKind::Ident) {
                return Err(ParseError { token: p });
            }
            let arg = text_at(tokens, p);
            let (ty, q) = if is_kind(tokens, p + 1, TokenKind::Colon) {
                parse_type(tokens, p + 2)?
            } else {
                (Type::Unknown, p + 1)
            };
            args.push((arg, ty));
            if is_kind(tokens, q, TokenKind::Comma) {
                p = q + 1;
            } else {
                p = expect(tokens, q, TokenKind::RParen)?;
                break;
            }
        }
    }
    let (body, p) = parse_block(tokens, p)?;
    Ok((FnDef { name, args, body }, p))
}

/// Builds the tree of a program from its tokens.
pub struct SofaParser<'a> {
    tokens: &'a Vec<Token>,
}

impl<'a> SofaParser<'a> {
    pub fn new(tokens: &'a Vec<Token>) -> (r: SofaParser<'a>)
        ensures
            r.tokens() == tokens,
    {
        SofaParser { tokens }
    }

    pub closed spec fn tokens(&self) -> &'a Vec<Token> {
        self.tokens
    }

    /// The program as the function definitions it holds, in order; fails at
    /// the first token that does not fit the grammar.
    pub fn parse(&self) -> (r: Result<Ast, ParseError>)
        ensures
            r matches Err(e) ==> e.token <= self.tokens().len(),
            self.tokens().len() == 0 ==> (r matches Ok(a) && a.node.definitions.len() == 0),
    {
        let tokens = self.tokens;
        let mut definitions: Vec<FnDef> = Vec::new();
        let mut p: usize = 0;
        while p < tokens.len()
            invariant
                p <= tokens.len(),
                tokens == self.tokens(),
                tokens.len() == 0 ==> definitions.len() == 0,
            decreases tokens.len() - p,
        {
            let (f, q) = parse_fn(tokens, p)?;
            definitions.push(f);
            p = q;
        }
        Ok(Ast { node: Global { definitions } })
    }
}

} // verus!
