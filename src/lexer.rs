use vstd::prelude::*;
use vstd::std_specs::iter::IteratorSpec;

use crate::instr::push_char;

verus! {

broadcast use {vstd::string::axiom_spec_iter, vstd::string::next_postcondition};

/// The kinds of token the language has.
#[derive(Debug, Clone, Copy, PartialEq, Eq, Structural)]
pub enum TokenKind {
    /// `+`
    Plus,
    /// `-`
    Minus,
    /// `*`
    Star,
    /// `/`
    Slash,
    /// `%`
    Percent,
    /// `&`
    And,
    /// `|`
    Or,
    /// `^`
    Caret,
    /// `<`
    Lt,
    /// `>`
    Gt,
    /// `(`
    LParen,
    /// `)`
    RParen,
    /// `{`
    LBrace,
    /// `}`
    RBrace,
    /// `[`
    LBlanket,
    /// `]`
    RBlanket,
    /// `=`
    Eq,
    /// `!`
    Bang,
    /// `?`
    Question,
    /// `:`
    Colon,
    /// `;`
    Semi,
    /// `,`
    Comma,
    /// `.`
    Dot,
    Fn,
    Let,
    If,
    Else,
    Loop,
    Return,
    True,
    False,
    /// identifier
    Ident,
    /// number literal
    Number,
    /// whitespace and comments
    Whitespace,
}

/// A token: its kind, its text for identifiers and numbers, and the range of
/// character positions `(start, end)` it covers in the source.
#[derive(Debug)]
pub struct Token {
    pub kind: TokenKind,
    pub value: Option<String>,
    pub pos: (usize, usize),
}

/// What a token stands for, with its text as a sequence of characters.
pub struct TokenView {
    pub kind: TokenKind,
    pub text: Option<Seq<char>>,
    pub start: int,
    pub end: int,
}

impl View for Token {
    type V = TokenView;

    open spec fn view(&self) -> TokenView {
        TokenView {
            kind: self.kind,
            text: match self.value {
                Some(s) => Some(s@),
                None => None,
            },
            start: self.pos.0 as int,
            end: self.pos.1 as int,
        }
    }
}

/// A character that no token can start with, and its position counted in
/// characters from the start of the source (not in bytes: the two differ
/// once non-ASCII text, such as a comment, comes before it).
#[derive(Debug, Clone, Copy, PartialEq, Eq, Structural)]
pub struct LexError {
    pub ch: char,
    pub pos: usize,
}

pub open spec fn id_head(c: char) -> bool {
    ('a' <= c <= 'z') || ('A' <= c <= 'Z') || c == '_'
}

pub open spec fn id_body(c: char) -> bool {
    id_head(c) || is_digit(c)
}

pub open spec fn is_digit(c: char) -> bool {
    '0' <= c <= '9'
}

/// ASCII whitespace: space, tab, line feed, form feed, carriage return.
pub open spec fn is_space(c: char) -> bool {
    c == ' ' || c == '\t' || c == '\n' || c == '\x0C' || c == '\r'
}

/// The kind of a one-character punctuation token.
pub open spec fn punct_kind(c: char) -> Option<TokenKind> {
    if c == '=' { Some(TokenKind::Eq) }
    else if c == '+' { Some(TokenKind::Plus) }
    else if c == '-' { Some(TokenKind::Minus) }
    else if c == '*' { Some(TokenKind::Star) }
    else if c == '/' { Some(TokenKind::Slash) }
    else if c == '%' { Some(TokenKind::Percent) }
    else if c == '&' { Some(TokenKind::And) }
    else if c == '|' { Some(TokenKind::Or) }
    else if c == '^' { Some(TokenKind::Caret) }
    else if c == '<' { Some(TokenKind::Lt) }
    else if c == '>' { Some(TokenKind::Gt) }
    else if c == '(' { Some(TokenKind::LParen) }
    else if c == ')' { Some(TokenKind::RParen) }
    else if c == '[' { Some(TokenKind::LBlanket) }
    else if c == ']' { Some(TokenKind::RBlanket) }
    else if c == '{' { Some(TokenKind::LBrace) }
    else if c == '}' { Some(TokenKind::RBrace) }
    else if c == ',' { Some(TokenKind::Comma) }
    else if c == '.' { Some(TokenKind::Dot) }
    else if c == '!' { Some(TokenKind::Bang) }
    else if c == '?' { Some(TokenKind::Question) }
    else if c == ':' { Some(TokenKind::Colon) }
    else if c == ';' { Some(TokenKind::Semi) }
    else { None }
}

/// The reserved word that `w` spells, if any.
pub open spec fn keyword_kind(w: Seq<char>) -> Option<TokenKind> {
    if w == seq!['f', 'n'] { Some(TokenKind::Fn) }
    else if w == seq!['l', 'e', 't'] { Some(TokenKind::Let) }
    else if w == seq!['i', 'f'] { Some(TokenKind::If) }
    else if w == seq!['e', 'l', 's', 'e'] { Some(TokenKind::Else) }
    else if w == seq!['l', 'o', 'o', 'p'] { Some(TokenKind::Loop) }
    else if w == seq!['r', 'e', 't', 'u', 'r', 'n'] { Some(TokenKind::Return) }
    else if w == seq!['t', 'r', 'u', 'e'] { Some(TokenKind::True) }
    else if w == seq!['f', 'a', 'l', 's', 'e'] { Some(TokenKind::False) }
    else { None }
}

/// End of the run of identifier characters that starts at `i`.
pub open spec fn id_end(s: Seq<char>, i: int) -> int
    decreases s.len() - i,
{
    if 0 <= i < s.len() && id_body(s[i]) { id_end(s, i + 1) } else { i }
}

/// End of the run of digits that starts at `i`.
pub open spec fn digit_end(s: Seq<char>, i: int) -> int
    decreases s.len() - i,
{
    if 0 <= i < s.len() && is_digit(s[i]) { digit_end(s, i + 1) } else { i }
}

/// End of the run of whitespace that starts at `i`.
pub open spec fn space_end(s: Seq<char>, i: int) -> int
    decreases s.len() - i,
{
    if 0 <= i < s.len() && is_space(s[i]) { space_end(s, i + 1) } else { i }
}

/// Position of the first line feed at or after `i`, or the end of `s`.
pub open spec fn line_end(s: Seq<char>, i: int) -> int
    decreases s.len() - i,
{
    if 0 <= i < s.len() && s[i] != '\n' { line_end(s, i + 1) } else { i }
}

/// The token that starts at position `i`: its kind and where it ends, or
/// `None` where no token can start with the character there.
pub open spec fn scan(s: Seq<char>, i: int) -> Option<(TokenKind, int)> {
    let c = s[i];
    if is_space(c) {
        Some((TokenKind::Whitespace, space_end(s, i)))
    } else if id_head(c) {
        let j = id_end(s, i);
        match keyword_kind(s.subrange(i, j)) {
            Some(k) => Some((k, j)),
            None => Some((TokenKind::Ident, j)),
        }
    } else if is_digit(c) {
        Some((TokenKind::Number, digit_end(s, i)))
    } else if c == '/' && i + 1 < s.len() && s[i + 1] == '/' {
        let e = line_end(s, i);
        Some((TokenKind::Whitespace, if e < s.len() { e + 1 } else { e }))
    } else {
        match punct_kind(c) {
            Some(k) => Some((k, i + 1)),
            None => None,
        }
    }
}

/// The token of kind `k` that covers `s[i..j]`.
pub open spec fn make_token(s: Seq<char>, k: TokenKind, i: int, j: int) -> TokenView {
    TokenView {
        kind: k,
        text: if k == TokenKind::Ident || k == TokenKind::Number {
            Some(s.subrange(i, j))
        } else {
            None
        },
        start: i,
        end: j,
    }
}

/// The tokens of `s` from position `i` on, whitespace and comments left out,
/// or the position of the first character that starts no token.
pub open spec fn lex_from(s: Seq<char>, i: int) -> Result<Seq<TokenView>, int>
    decreases s.len() - i,
{
    if i < 0 || i >= s.len() {
        Ok(Seq::empty())
    } else {
        match scan(s, i) {
            None => Err(i),
            Some((k, j)) => if j <= i || j > s.len() {
                Err(i)
            } else if k == TokenKind::Whitespace {
                lex_from(s, j)
            } else {
                match lex_from(s, j) {
                    Ok(rest) => Ok(seq![make_token(s, k, i, j)] + rest),
                    Err(p) => Err(p),
                }
            },
        }
    }
}

/// The tokens of a whole source text.
pub open spec fn lex(s: Seq<char>) -> Result<Seq<TokenView>, int> {
    lex_from(s, 0)
}

pub open spec fn prepend(ts: Seq<TokenView>, r: Result<Seq<TokenView>, int>) -> Result<Seq<TokenView>, int> {
    match r {
        Ok(rest) => Ok(ts + rest),
        Err(p) => Err(p),
    }
}

fn is_id_head(c: char) -> (r: bool)
    ensures
        r == id_head(c),
{
    ('a' <= c && c <= 'z') || ('A' <= c && c <= 'Z') || c == '_'
}

fn is_id_body(c: char) -> (r: bool)
    ensures
        r == id_body(c),
{
    is_id_head(c) || ('0' <= c && c <= '9')
}

fn is_ascii_space(c: char) -> (r: bool)
    ensures
        r == is_space(c),
{
    c == ' ' || c == '\t' || c == '\n' || c == '\x0C' || c == '\r'
}

/// The characters of `s`, in order.
pub(crate) fn chars_of(s: &str) -> (r: Vec<char>)
    ensures
        r@ == s@,
{
    let mut it = s.chars();
    let mut r: Vec<char> = Vec::new();
    loop
        invariant
            it.obeys_prophetic_iter_laws(),
            it.remaining() == s@.skip(r.len() as int),
            r@ == s@.take(r.len() as int),
            r.len() <= s@.len(),
        decreases s@.len() - r.len(),
    {
        match it.next() {
            Some(c) => {
                r.push(c);
            },
            None => {
                assert(r@ =~= s@);
                return r;
            },
        }
    }
}

/// The reserved word spelled by `chars[start..end]`, if any.
fn to_keyword(chars: &Vec<char>, start: usize, end: usize) -> (r: Option<TokenKind>)
    requires
        start <= end <= chars.len(),
    ensures
        r == keyword_kind(chars@.subrange(start as int, end as int)),
{
    let ghost w = chars@.subrange(start as int, end as int);
    let n = end - start;
    let r = if n == 2 && chars[start] == 'f' && chars[start + 1] == 'n' {
        assert(w =~= seq!['f', 'n']);
        Some(TokenKind::Fn)
    } else if n == 3 && chars[start] == 'l' && chars[start + 1] == 'e' && chars[start + 2] == 't' {
        assert(w =~= seq!['l', 'e', 't']);
        Some(TokenKind::Let)
    } else if n == 2 && chars[start] == 'i' && chars[start + 1] == 'f' {
        assert(w =~= seq!['i', 'f']);
        Some(TokenKind::If)
    } else if n == 4 && chars[start] == 'e' && chars[start + 1] == 'l' && chars[start + 2] == 's'
        && chars[start + 3] == 'e' {
        assert(w =~= seq!['e', 'l', 's', 'e']);
        Some(TokenKind::Else)
    } else if n == 4 && chars[start] == 'l' && chars[start + 1] == 'o' && chars[start + 2] == 'o'
        && chars[start + 3] == 'p' {
        assert(w =~= seq!['l', 'o', 'o', 'p']);
        Some(TokenKind::Loop)
    } else if n == 6 && chars[start] == 'r' && chars[start + 1] == 'e' && chars[start + 2] == 't'
        && chars[start + 3] == 'u' && chars[start + 4] == 'r' && chars[start + 5] == 'n' {
        assert(w =~= seq!['r', 'e', 't', 'u', 'r', 'n']);
        Some(TokenKind::Return)
    } else if n == 4 && chars[start] == 't' && chars[start + 1] == 'r' && chars[start + 2] == 'u'
        && chars[start + 3] == 'e' {
        assert(w =~= seq!['t', 'r', 'u', 'e']);
        Some(TokenKind::True)
    } else if n == 5 && chars[start] == 'f' && chars[start + 1] == 'a' && chars[start + 2] == 'l'
        && chars[start + 3] == 's' && chars[start + 4] == 'e' {
        assert(w =~= seq!['f', 'a', 'l', 's', 'e']);
        Some(TokenKind::False)
    } else {
        proof {
            let k1 = seq!['f', 'n'];
            let k2 = seq!['l', 'e', 't'];
            let k3 = seq!['i', 'f'];
            let k4 = seq!['e', 'l', 's', 'e'];
            let k5 = seq!['l', 'o', 'o', 'p'];
            let k6 = seq!['r', 'e', 't', 'u', 'r', 'n'];
            let k7 = seq!['t', 'r', 'u', 'e'];
            let k8 = seq!['f', 'a', 'l', 's', 'e'];
            assert(k1.len() == 2 && k1[0] == 'f' && k1[1] == 'n');
            assert(k2.len() == 3 && k2[0] == 'l' && k2[1] == 'e' && k2[2] == 't');
            assert(k3.len() == 2 && k3[0] == 'i' && k3[1] == 'f');
            assert(k4.len() == 4 && k4[0] == 'e' && k4[1] == 'l' && k4[2] == 's' && k4[3] == 'e');
            assert(k5.len() == 4 && k5[0] == 'l' && k5[1] == 'o' && k5[2] == 'o' && k5[3] == 'p');
            assert(k6.len() == 6 && k6[0] == 'r' && k6[1] == 'e' && k6[2] == 't' && k6[3] == 'u'
                && k6[4] == 'r' && k6[5] == 'n');
            assert(k7.len() == 4 && k7[0] == 't' && k7[1] == 'r' && k7[2] == 'u' && k7[3] == 'e');
            assert(k8.len() == 5 && k8[0] == 'f' && k8[1] == 'a' && k8[2] == 'l' && k8[3] == 's'
                && k8[4] == 'e');
            assert(forall|m: int| 0 <= m < w.len() ==> w[m] == chars@[start + m]);
        }
        None
    };
    r
}

/// A position in the characters of a source text.
struct Cursor {
    chars: Vec<char>,
    pos: usize,
}

/// Stands for the end of the input.
const EOF_CHAR: char = '\0';

impl Cursor {
    fn new(source: &str) -> (r: Cursor)
        ensures
            r.chars@ == source@,
            r.pos == 0,
    {
        Cursor { chars: chars_of(source), pos: 0 }
    }

    /// The character under the cursor, or `EOF_CHAR` at the end.
    fn next(&self) -> (c: char)
        ensures
            self.pos < self.chars.len() ==> c == self.chars@[self.pos as int],
            self.pos >= self.chars.len() ==> c == EOF_CHAR,
    {
        if self.pos < self.chars.len() {
            self.chars[self.pos]
        } else {
            EOF_CHAR
        }
    }

    fn bump(&mut self)
        requires
            old(self).pos < old(self).chars.len(),
        ensures
            final(self).pos == old(self).pos + 1,
            final(self).chars == old(self).chars,
    {
        self.pos = self.pos + 1;
    }

    fn is_eof(&self) -> (r: bool)
        ensures
            r == (self.pos >= self.chars.len()),
    {
        self.pos >= self.chars.len()
    }

    /// The text `chars[start..end]` as a string.
    fn text(&self, start: usize, end: usize) -> (r: String)
        requires
            start <= end <= self.chars.len(),
        ensures
            r@ == self.chars@.subrange(start as int, end as int),
    {
        let mut r = String::new();
        let mut k = start;
        while k < end
            invariant
                start <= k <= end <= self.chars.len(),
                r@ == self.chars@.subrange(start as int, k as int),
            decreases end - k,
        {
            push_char(&mut r, self.chars[k]);
            k = k + 1;
            assert(r@ =~= self.chars@.subrange(start as int, k as int));
        }
        r
    }

    /// Reads the token under the cursor and moves past it.
    fn token(&mut self) -> (r: Result<Token, LexError>)
        requires
            old(self).pos < old(self).chars.len(),
        ensures
            final(self).chars@ == old(self).chars@,
            match scan(old(self).chars@, old(self).pos as int) {
                None => r == Err::<Token, LexError>(
                    LexError { ch: old(self).chars@[old(self).pos as int], pos: old(self).pos },
                ),
                Some((k, j)) => r is Ok && r->Ok_0@ == make_token(old(self).chars@, k, old(self).pos as int, j)
                    && final(self).pos == j && old(self).pos < j <= old(self).chars.len(),
            },
    {
        let ghost s = self.chars@;
        let start = self.pos;
        let c = self.next();
        if is_ascii_space(c) {
            self.bump();
            while !self.is_eof() && is_ascii_space(self.next())
                invariant
                    self.chars@ == s,
                    start < self.pos <= s.len(),
                    space_end(s, start as int) == space_end(s, self.pos as int),
                decreases s.len() - self.pos,
            {
                self.bump();
            }
            Ok(Token { kind: TokenKind::Whitespace, value: None, pos: (start, self.pos) })
        } else if is_id_head(c) {
            self.bump();
            while !self.is_eof() && is_id_body(self.next())
                invariant
                    self.chars@ == s,
                    start < self.pos <= s.len(),
                    id_end(s, start as int) == id_end(s, self.pos as int),
                decreases s.len() - self.pos,
            {
                self.bump();
            }
            match to_keyword(&self.chars, start, self.pos) {
                Some(kind) => Ok(Token { kind, value: None, pos: (start, self.pos) }),
                None => {
                    let id = self.text(start, self.pos);
                    Ok(Token { kind: TokenKind::Ident, value: Some(id), pos: (start, self.pos) })
                },
            }
        } else if '0' <= c && c <= '9' {
            self.bump();
            while !self.is_eof() && '0' <= self.next() && self.next() <= '9'
                invariant
                    self.chars@ == s,
                    start < self.pos <= s.len(),
                    digit_end(s, start as int) == digit_end(s, self.pos as int),
                decreases s.len() - self.pos,
            {
                self.bump();
            }
            let num = self.text(start, self.pos);
            Ok(Token { kind: TokenKind::Number, value: Some(num), pos: (start, self.pos) })
        } else if c == '/' && start + 1 < self.chars.len() && self.chars[start + 1] == '/' {
            // a line comment runs to the end of the line, line feed included
            self.bump();
            while !self.is_eof() && self.next() != '\n'
                invariant
                    self.chars@ == s,
                    start < self.pos <= s.len(),
                    line_end(s, start as int) == line_end(s, self.pos as int),
                decreases s.len() - self.pos,
            {
                self.bump();
            }
            if !self.is_eof() {
                self.bump();
            }
            Ok(Token { kind: TokenKind::Whitespace, value: None, pos: (start, self.pos) })
        } else {
            let kind = match c {
                '=' => TokenKind::Eq,
                '+' => TokenKind::Plus,
                '-' => TokenKind::Minus,
                '*' => TokenKind::Star,
                '/' => TokenKind::Slash,
                '%' => TokenKind::Percent,
                '&' => TokenKind::And,
                '|' => TokenKind::Or,
                '^' => TokenKind::Caret,
                '<' => TokenKind::Lt,
                '>' => TokenKind::Gt,
                '(' => TokenKind::LParen,
                ')' => TokenKind::RParen,
                '[' => TokenKind::LBlanket,
                ']' => TokenKind::RBlanket,
                '{' => TokenKind::LBrace,
                '}' => TokenKind::RBrace,
                ',' => TokenKind::Comma,
                '.' => TokenKind::Dot,
                '!' => TokenKind::Bang,
                '?' => TokenKind::Question,
                ':' => TokenKind::Colon,
                ';' => TokenKind::Semi,
                _ => {
                    return Err(LexError { ch: c, pos: start });
                },
            };
            self.bump();
            Ok(Token { kind, value: None, pos: (start, self.pos) })
        }
    }
}

/// Splits `input` into tokens, whitespace and comments left out. Fails on the
/// first character that starts no token.
pub fn tokenize(input: &str) -> (r: Result<Vec<Token>, LexError>)
    ensures
        r is Ok ==> lex(input@) == Ok::<Seq<TokenView>, int>(r->Ok_0@.map_values(|t: Token| t@)),
        r is Err ==> lex(input@) == Err::<Seq<TokenView>, int>(r->Err_0.pos as int)
            && r->Err_0.pos < input@.len() && r->Err_0.ch == input@[r->Err_0.pos as int],
{
    let mut cursor = Cursor::new(input);
    let mut out: Vec<Token> = Vec::new();
    let ghost s = input@;
    assert(out@.map_values(|t: Token| t@) =~= Seq::<TokenView>::empty());
    assert(prepend(Seq::empty(), lex_from(s, 0)) == lex_from(s, 0)) by {
        match lex_from(s, 0) {
            Ok(rest) => assert(Seq::<TokenView>::empty() + rest =~= rest),
            Err(_) => {},
        }
    }
    while !cursor.is_eof()
        invariant
            s == input@,
            cursor.chars@ == s,
            cursor.pos <= s.len(),
            lex(s) == prepend(out@.map_values(|t: Token| t@), lex_from(s, cursor.pos as int)),
        decreases s.len() - cursor.pos,
    {
        let ghost i = cursor.pos as int;
        let ghost before = out@.map_values(|t: Token| t@);
        match cursor.token() {
            Err(e) => {
                assert(lex_from(s, i) == Err::<Seq<TokenView>, int>(i));
                let r: Result<Vec<Token>, LexError> = Err(e);

                assert(lex(input@) == Err::<Seq<TokenView>, int>(r->Err_0.pos as int));
                assert(r->Err_0.pos < input@.len());
                return r;
            },
            Ok(t) => {
                if t.kind != TokenKind::Whitespace {
                    out.push(t);
                    assert(out@.map_values(|t: Token| t@) =~= before.push(t@));
                    proof {
                        match lex_from(s, cursor.pos as int) {
                            Ok(rest) => assert(before.push(t@) + rest =~= before + (seq![t@] + rest)),
                            Err(_) => {},
                        }
                    }
                }
            },
        }
    }
    assert(lex_from(s, cursor.pos as int) == Ok::<Seq<TokenView>, int>(Seq::empty()));
    assert(out@.map_values(|t: Token| t@) + Seq::<TokenView>::empty() =~= out@.map_values(|t: Token| t@));
    Ok(out)
}

} // verus!
