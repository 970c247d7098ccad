//! Tokens: the values and the syntax of the language, with their text forms.
use vstd::prelude::*;
use crate::fault::Fault;

verus! {

/// One token: a value (text, integer, identifier) or a group marker.
#[derive(Debug, Clone, Eq, Hash)]
pub enum Token {
    Str(String),
    OPair,
    CPair,
    Digit(u128),
    Ident(String),
}

/// The mathematical value of a token.
pub enum Tok {
    Str(Seq<char>),
    OPair,
    CPair,
    Digit(u128),
    Ident(Seq<char>),
}

impl DeepView for Token {
    type V = Tok;

    open spec fn deep_view(&self) -> Tok {
        match self {
            Token::Str(s) => Tok::Str(s@),
            Token::OPair => Tok::OPair,
            Token::CPair => Tok::CPair,
            Token::Digit(d) => Tok::Digit(*d),
            Token::Ident(s) => Tok::Ident(s@),
        }
    }
}

impl View for Token {
    type V = Tok;

    open spec fn view(&self) -> Tok {
        self.deep_view()
    }
}

impl PartialEq for Token {
    fn eq(&self, other: &Token) -> (r: bool) {
        match self {
            Token::Str(a) => match other {
                Token::Str(b) => (*a).eq(b),
                _ => false,
            },
            Token::OPair => match other {
                Token::OPair => true,
                _ => false,
            },
            Token::CPair => match other {
                Token::CPair => true,
                _ => false,
            },
            Token::Digit(a) => match other {
                Token::Digit(b) => *a == *b,
                _ => false,
            },
            Token::Ident(a) => match other {
                Token::Ident(b) => (*a).eq(b),
                _ => false,
            },
        }
    }
}

impl vstd::std_specs::cmp::PartialEqSpecImpl for Token {
    open spec fn obeys_eq_spec() -> bool {
        true
    }

    open spec fn eq_spec(&self, other: &Token) -> bool {
        self@ == other@
    }
}

impl Token {
    /// A copy of the token, equal to it.
    pub fn dup(&self) -> (r: Token)
        ensures
            r@ == self@,
    {
        match self {
            Token::Str(s) => Token::Str(s.clone()),
            Token::OPair => Token::OPair,
            Token::CPair => Token::CPair,
            Token::Digit(d) => Token::Digit(*d),
            Token::Ident(s) => Token::Ident(s.clone()),
        }
    }
}

/// The mathematical value of a sequence of tokens.
pub open spec fn tv(s: Seq<Token>) -> Seq<Tok> {
    Seq::new(s.len(), |i: int| s[i]@)
}

/// Pushing a token pushes its value.
pub proof fn lemma_push_tok(v: Seq<Token>, t: Token)
    ensures
        tv(v.push(t)) == tv(v).push(t@),
{
    assert(tv(v.push(t)) =~= tv(v).push(t@));
}

/// The mathematical value of the result of an evaluation step.
pub open spec fn res(r: Result<Vec<Token>, Fault>) -> Result<Seq<Tok>, Fault> {
    match r {
        Ok(v) => Ok(tv(v@)),
        Err(e) => Err(e),
    }
}

/// A copy of a token sequence.
pub fn dup_tokens(v: &Vec<Token>) -> (r: Vec<Token>)
    ensures
        tv(r@) == tv(v@),
{
    let mut r: Vec<Token> = Vec::new();
    let mut i: usize = 0;
    while i < v.len()
        invariant
            i <= v.len(),
            tv(r@) == tv(v@).take(i as int),
        decreases v.len() - i,
    {
        let t = v[i].dup();
        let ghost before = r@;
        r.push(t);
        i = i + 1;
        proof {
            assert(r@ == before.push(t));
            assert(tv(before).len() == before.len());
            assert(before.len() == i - 1);
            assert(tv(r@).len() == i);
            assert(tv(r@)[i - 1] == tv(v@)[i - 1]);
            assert forall|k: int| 0 <= k < i implies tv(r@)[k] == tv(v@)[k] by {
                if k < i - 1 {
                    assert(tv(before)[k] == tv(v@)[k]);
                }
            }
            assert(tv(r@) =~= tv(v@).take(i as int));
        }
    }
    proof {
        assert(tv(v@).take(i as int) =~= tv(v@));
    }
    r
}

/// The kind of a token being read by the lexer; `Nil` when none is pending.
#[derive(Debug, Clone, Copy, PartialEq, Eq, Structural)]
pub enum TokenKind {
    Nil,
    Str,
    OPair,
    CPair,
    Digit,
    Ident,
}

/// The name of a kind.
pub open spec fn kind_name(k: TokenKind) -> Seq<char> {
    match k {
        TokenKind::Nil => "Nil"@,
        TokenKind::Str => "Str"@,
        TokenKind::OPair => "OPair"@,
        TokenKind::CPair => "CPair"@,
        TokenKind::Digit => "Digit"@,
        TokenKind::Ident => "Ident"@,
    }
}

/// The name of a token kind, as diagnostics print it.
pub fn token_kind(k: &TokenKind) -> (r: &'static str)
    ensures
        r@ == kind_name(*k),
{
    match *k {
        TokenKind::Nil => "Nil",
        TokenKind::Str => "Str",
        TokenKind::OPair => "OPair",
        TokenKind::CPair => "CPair",
        TokenKind::Digit => "Digit",
        TokenKind::Ident => "Ident",
    }
}

/// The decimal digit character of a value below ten.
pub open spec fn digit_char(d: u128) -> char
    recommends
        d < 10,
{
    (d + 48) as char
}

/// The decimal notation of an integer, without leading zeros.
pub open spec fn decimal(n: u128) -> Seq<char>
    decreases n,
{
    if n < 10 {
        seq![digit_char(n)]
    } else {
        decimal(n / 10).push(digit_char(n % 10))
    }
}

/// Relies on String::push: the character is appended at the end.
pub assume_specification[ String::push ](s: &mut String, ch: char)
    ensures
        final(s)@ == old(s)@.push(ch),
;

/// Appends the decimal notation of `n` to `s`.
pub fn push_decimal(s: &mut String, n: u128)
    ensures
        final(s)@ == old(s)@ + decimal(n),
    decreases n,
{
    if n >= 10 {
        push_decimal(s, n / 10);
    }
    let d: u128 = n % 10;
    let c: char = (d as u8 + 48) as char;
    assert(c == digit_char(d));
    s.push(c);
    proof {
        if n < 10 {
            assert(old(s)@ + decimal(n) =~= old(s)@.push(c));
        } else {
            assert(old(s)@ + decimal(n) =~= (old(s)@ + decimal(n / 10)).push(c));
        }
    }
}

/// The decimal notation of an integer as a new string.
pub fn decimal_string(n: u128) -> (r: String)
    ensures
        r@ == decimal(n),
{
    let mut s: String = String::new();
    push_decimal(&mut s, n);
    proof {
        assert(Seq::<char>::empty() + decimal(n) =~= decimal(n));
    }
    s
}

/// The text form of a token, as diagnostics print it.
pub open spec fn show(t: Tok) -> Seq<char> {
    match t {
        Tok::Str(s) => "Str('"@ + s + "')"@,
        Tok::OPair => "OPair"@,
        Tok::CPair => "CPair"@,
        Tok::Digit(d) => "Digit("@ + decimal(d) + ")"@,
        Tok::Ident(s) => "Ident('"@ + s + "')"@,
    }
}

/// The text form of a token.
pub fn token_show(t: &Token) -> (r: String)
    ensures
        r@ == show(t@),
{
    match t {
        Token::Str(s) => {
            let mut r = String::from_str("Str('");
            r.append(s.as_str());
            r.append("')");
            r
        },
        Token::OPair => String::from_str("OPair"),
        Token::CPair => String::from_str("CPair"),
        Token::Digit(d) => {
            let mut r = String::from_str("Digit(");
            push_decimal(&mut r, *d);
            r.append(")");
            r
        },
        Token::Ident(s) => {
            let mut r = String::from_str("Ident('");
            r.append(s.as_str());
            r.append("')");
            r
        },
    }
}

} // verus!
