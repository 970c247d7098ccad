//! The lexer: a character-level state machine from source text to tokens.
use vstd::prelude::*;
use crate::text::{chars_of, digits_u128, parse_digits, string_of};
use crate::token::{lemma_push_tok, tv, Tok, Token, TokenKind};

verus! {

/// What the lexer is reading.
#[derive(Debug, Clone, Copy, PartialEq, Eq, Structural)]
pub enum Mode {
    Common,
    InString,
    InStringEscape,
    InComment,
}

/// The state of the lexer between two characters.
pub struct Lex {
    pub mode: Mode,
    /// the text of the pending token
    pub tmp: Seq<char>,
    /// the kind of the pending token
    pub kind: TokenKind,
    /// the tokens emitted so far
    pub tokens: Seq<Tok>,
    /// open groups, quoted ones included
    pub pairs: nat,
    pub in_quote: bool,
    pub quote_start: bool,
    pub quote_level: nat,
    /// a `!` waits for its identifier, after which a group closes
    pub deref: bool,
}

/// The state before the first character.
pub open spec fn lex_init() -> Lex {
    Lex {
        mode: Mode::Common,
        tmp: Seq::empty(),
        kind: TokenKind::Nil,
        tokens: Seq::empty(),
        pairs: 0,
        in_quote: false,
        quote_start: false,
        quote_level: 0,
        deref: false,
    }
}

/// Emits the pending token, if any, and starts a new one of kind `next`;
/// `None` where an integer does not fit in 128 bits.
pub open spec fn flush(l: Lex, next: TokenKind) -> Option<Lex> {
    let base = Lex { tmp: Seq::empty(), kind: next, ..l };
    match l.kind {
        TokenKind::Nil => Some(base),
        TokenKind::Digit => match digits_u128(l.tmp) {
            Some(v) => Some(Lex { tokens: l.tokens.push(Tok::Digit(v)), ..base }),
            None => None,
        },
        TokenKind::Ident => if l.deref {
            Some(
                Lex {
                    tokens: l.tokens.push(Tok::Ident(l.tmp)).push(Tok::CPair),
                    deref: false,
                    ..base
                },
            )
        } else {
            Some(Lex { tokens: l.tokens.push(Tok::Ident(l.tmp)), ..base })
        },
        TokenKind::OPair => Some(Lex { tokens: l.tokens.push(Tok::OPair), ..base }),
        TokenKind::CPair => Some(Lex { tokens: l.tokens.push(Tok::CPair), ..base }),
        TokenKind::Str => Some(Lex { tokens: l.tokens.push(Tok::Str(l.tmp)), ..base }),
    }
}

/// `flush` after a step that may have failed.
pub open spec fn then_flush(o: Option<Lex>, next: TokenKind) -> Option<Lex> {
    match o {
        Some(l) => flush(l, next),
        None => None,
    }
}

/// The character that an escape in a string stands for.
pub open spec fn escaped(c: char) -> char {
    if c == 't' {
        '\t'
    } else if c == 'n' {
        '\n'
    } else {
        c
    }
}

/// `!` emits `(` and `!`, and marks the identifier that follows.
pub open spec fn deref_sugar(l: Lex) -> Option<Lex> {
    match then_flush(flush(l, TokenKind::OPair), TokenKind::Ident) {
        Some(m) => match flush(Lex { tmp: m.tmp.push('!'), ..m }, TokenKind::Nil) {
            Some(n) => Some(Lex { deref: true, ..n }),
            None => None,
        },
        None => None,
    }
}

/// One character in `Common` mode, before the check on a pending backtick.
pub open spec fn common(l: Lex, c: char) -> Option<Lex> {
    if c == '\'' {
        Some(
            Lex {
                mode: Mode::InString,
                kind: if !l.in_quote {
                    TokenKind::Str
                } else {
                    l.kind
                },
                ..l
            },
        )
    } else if c == '!' {
        if !l.in_quote {
            deref_sugar(l)
        } else {
            Some(l)
        }
    } else if c == ' ' || c == '\t' || c == '\n' {
        if !l.in_quote {
            flush(l, TokenKind::Nil)
        } else {
            Some(l)
        }
    } else if c == '`' {
        if !l.in_quote && !l.quote_start {
            Some(Lex { quote_start: true, ..l })
        } else if l.quote_start {
            None
        } else {
            Some(l)
        }
    } else if c == '(' {
        let a = if l.quote_start {
            Lex { in_quote: true, quote_start: false, quote_level: 0, ..l }
        } else {
            l
        };
        let b = if a.in_quote {
            Some(Lex { quote_level: a.quote_level + 1, ..a })
        } else {
            then_flush(flush(a, TokenKind::OPair), TokenKind::Nil)
        };
        match b {
            Some(m) => Some(Lex { pairs: m.pairs + 1, ..m }),
            None => None,
        }
    } else if c == ')' {
        if l.pairs == 0 {
            None
        } else {
            let b = if l.in_quote {
                let ql = (l.quote_level - 1) as nat;
                Some(Lex { quote_level: ql, in_quote: ql != 0, ..l })
            } else {
                then_flush(flush(l, TokenKind::CPair), TokenKind::Nil)
            };
            match b {
                Some(m) => Some(Lex { pairs: (m.pairs - 1) as nat, ..m }),
                None => None,
            }
        }
    } else if c == ';' {
        let b = if !l.in_quote {
            flush(l, TokenKind::Nil)
        } else {
            Some(l)
        };
        match b {
            Some(m) => Some(Lex { mode: Mode::InComment, ..m }),
            None => None,
        }
    } else if '0' <= c && c <= '9' {
        if l.in_quote {
            Some(l)
        } else {
            match l.kind {
                TokenKind::Nil => Some(Lex { kind: TokenKind::Digit, tmp: l.tmp.push(c), ..l }),
                TokenKind::Digit | TokenKind::Ident => Some(Lex { tmp: l.tmp.push(c), ..l }),
                _ => None,
            }
        }
    } else {
        if l.in_quote {
            Some(l)
        } else {
            match l.kind {
                TokenKind::Nil => Some(Lex { kind: TokenKind::Ident, tmp: l.tmp.push(c), ..l }),
                TokenKind::Ident => Some(Lex { tmp: l.tmp.push(c), ..l }),
                TokenKind::Digit => if c == '_' {
                    Some(l)
                } else {
                    None
                },
                _ => None,
            }
        }
    }
}

/// One character; `None` where the input is malformed.
pub open spec fn step(l: Lex, c: char) -> Option<Lex> {
    match l.mode {
        Mode::InComment => Some(
            if c == '\n' {
                Lex { mode: Mode::Common, ..l }
            } else {
                l
            },
        ),
        Mode::InString => if c == '\'' {
            let m = Lex { mode: Mode::Common, ..l };
            if !l.in_quote {
                flush(m, TokenKind::Nil)
            } else {
                Some(m)
            }
        } else if c == '\\' {
            Some(Lex { mode: Mode::InStringEscape, ..l })
        } else if !l.in_quote {
            Some(Lex { tmp: l.tmp.push(c), ..l })
        } else {
            Some(l)
        },
        Mode::InStringEscape => Some(
            Lex {
                mode: Mode::InString,
                tmp: if !l.in_quote {
                    l.tmp.push(escaped(c))
                } else {
                    l.tmp
                },
                ..l
            },
        ),
        Mode::Common => match common(l, c) {
            Some(m) => if c != '`' && m.quote_start {
                None
            } else {
                Some(m)
            },
            None => None,
        },
    }
}

/// The tokens at the end of the input: none where a string or a group is
/// left open.
pub open spec fn finish(l: Lex) -> Seq<Tok> {
    if l.mode == Mode::InString || l.mode == Mode::InStringEscape || l.pairs != 0 {
        Seq::empty()
    } else {
        l.tokens
    }
}

/// The tokens of the characters from `i` on, read from state `l`.
pub open spec fn lex_from(cs: Seq<char>, i: int, l: Lex) -> Seq<Tok>
    decreases cs.len() - i,
{
    if i < 0 || i >= cs.len() {
        finish(l)
    } else {
        match step(l, cs[i]) {
            Some(m) => lex_from(cs, i + 1, m),
            None => Seq::empty(),
        }
    }
}

/// The tokens of a source text; empty where it is malformed.
pub open spec fn lex(cs: Seq<char>) -> Seq<Tok> {
    lex_from(cs, 0, lex_init())
}

/// The lexer's working state.
struct Lexer {
    mode: Mode,
    tmp: Vec<char>,
    kind: TokenKind,
    tokens: Vec<Token>,
    pairs: usize,
    in_quote: bool,
    quote_start: bool,
    quote_level: usize,
    deref: bool,
}

impl View for Lexer {
    type V = Lex;

    closed spec fn view(&self) -> Lex {
        Lex {
            mode: self.mode,
            tmp: self.tmp@,
            kind: self.kind,
            tokens: tv(self.tokens@),
            pairs: self.pairs as nat,
            in_quote: self.in_quote,
            quote_start: self.quote_start,
            quote_level: self.quote_level as nat,
            deref: self.deref,
        }
    }
}

/// What every reachable state satisfies.
pub open spec fn lex_wf(l: Lex) -> bool {
    l.in_quote ==> 0 < l.quote_level <= l.pairs
}

impl Lexer {
    fn flush(&mut self, next: TokenKind) -> (ok: bool)
        ensures
            ok == flush(old(self)@, next).is_some(),
            ok ==> final(self)@ == flush(old(self)@, next).unwrap(),
            final(self).pairs == old(self).pairs,
            final(self).quote_level == old(self).quote_level,
            final(self).in_quote == old(self).in_quote,
    {
        let ghost before = self.tokens@;
        match self.kind {
            TokenKind::Nil => {},
            TokenKind::Digit => match parse_digits(&self.tmp) {
                Some(v) => {
                    let t = Token::Digit(v);
                    proof {
                        lemma_push_tok(before, t);
                    }
                    self.tokens.push(t);
                },
                None => {
                    return false;
                },
            },
            TokenKind::Ident => {
                let t = Token::Ident(string_of(&self.tmp));
                proof {
                    lemma_push_tok(before, t);
                    lemma_push_tok(before.push(t), Token::CPair);
                }
                self.tokens.push(t);
                if self.deref {
                    self.tokens.push(Token::CPair);
                    self.deref = false;
                }
            },
            TokenKind::OPair => {
                proof {
                    lemma_push_tok(before, Token::OPair);
                }
                self.tokens.push(Token::OPair);
            },
            TokenKind::CPair => {
                proof {
                    lemma_push_tok(before, Token::CPair);
                }
                self.tokens.push(Token::CPair);
            },
            TokenKind::Str => {
                let t = Token::Str(string_of(&self.tmp));
                proof {
                    lemma_push_tok(before, t);
                }
                self.tokens.push(t);
            },
        }
        self.tmp = Vec::new();
        self.kind = next;
        proof {
            assert(self.tmp@ =~= Seq::<char>::empty());
        }
        true
    }

    fn common(&mut self, c: char) -> (ok: bool)
        requires
            lex_wf(old(self)@),
            old(self).pairs < usize::MAX,
        ensures
            ok == common(old(self)@, c).is_some(),
            ok ==> final(self)@ == common(old(self)@, c).unwrap() && lex_wf(final(self)@),
    {
        if c == '\'' {
            self.mode = Mode::InString;
            if !self.in_quote {
                self.kind = TokenKind::Str;
            }
            true
        } else if c == '!' {
            if !self.in_quote {
                if !self.flush(TokenKind::OPair) {
                    return false;
                }
                if !self.flush(TokenKind::Ident) {
                    return false;
                }
                self.tmp.push('!');
                if !self.flush(TokenKind::Nil) {
                    return false;
                }
                self.deref = true;
            }
            true
        } else if c == ' ' || c == '\t' || c == '\n' {
            if !self.in_quote {
                self.flush(TokenKind::Nil)
            } else {
                true
            }
        } else if c == '`' {
            if !self.in_quote && !self.quote_start {
                self.quote_start = true;
                true
            } else if self.quote_start {
                false
            } else {
                true
            }
        } else if c == '(' {
            if self.quote_start {
                self.in_quote = true;
                self.quote_start = false;
                self.quote_level = 0;
            }
            if self.in_quote {
                self.quote_level = self.quote_level + 1;
            } else {
                if !self.flush(TokenKind::OPair) {
                    return false;
                }
                if !self.flush(TokenKind::Nil) {
                    return false;
                }
            }
            self.pairs = self.pairs + 1;
            true
        } else if c == ')' {
            if self.pairs == 0 {
                return false;
            }
            if self.in_quote {
                self.quote_level = self.quote_level - 1;
                if self.quote_level == 0 {
                    self.in_quote = false;
                }
            } else {
                if !self.flush(TokenKind::CPair) {
                    return false;
                }
                if !self.flush(TokenKind::Nil) {
                    return false;
                }
            }
            self.pairs = self.pairs - 1;
            true
        } else if c == ';' {
            if !self.in_quote {
                if !self.flush(TokenKind::Nil) {
                    return false;
                }
            }
            self.mode = Mode::InComment;
            true
        } else if '0' <= c && c <= '9' {
            if !self.in_quote {
                match self.kind {
                    TokenKind::Nil => {
                        self.kind = TokenKind::Digit;
                        self.tmp.push(c);
                    },
                    TokenKind::Digit | TokenKind::Ident => {
                        self.tmp.push(c);
                    },
                    _ => {
                        return false;
                    },
                }
            }
            true
        } else {
            if !self.in_quote {
                match self.kind {
                    TokenKind::Nil => {
                        self.kind = TokenKind::Ident;
                        self.tmp.push(c);
                    },
                    TokenKind::Ident => {
                        self.tmp.push(c);
                    },
                    TokenKind::Digit => {
                        if c != '_' {
                            return false;
                        }
                    },
                    _ => {
                        return false;
                    },
                }
            }
            true
        }
    }

    fn step(&mut self, c: char) -> (ok: bool)
        requires
            lex_wf(old(self)@),
            old(self).pairs < usize::MAX,
        ensures
            ok == step(old(self)@, c).is_some(),
            ok ==> final(self)@ == step(old(self)@, c).unwrap() && lex_wf(final(self)@),
            ok ==> final(self).pairs <= old(self).pairs + 1,
    {
        match self.mode {
            Mode::InComment => {
                if c == '\n' {
                    self.mode = Mode::Common;
                }
                true
            },
            Mode::InString => {
                if c == '\'' {
                    self.mode = Mode::Common;
                    if !self.in_quote {
                        self.flush(TokenKind::Nil)
                    } else {
                        true
                    }
                } else if c == '\\' {
                    self.mode = Mode::InStringEscape;
                    true
                } else {
                    if !self.in_quote {
                        self.tmp.push(c);
                    }
                    true
                }
            },
            Mode::InStringEscape => {
                if !self.in_quote {
                    let e = if c == 't' {
                        '\t'
                    } else if c == 'n' {
                        '\n'
                    } else {
                        c
                    };
                    self.tmp.push(e);
                }
                self.mode = Mode::InString;
                true
            },
            Mode::Common => {
                if !self.common(c) {
                    return false;
                }
                if c != '`' && self.quote_start {
                    return false;
                }
                true
            },
        }
    }
}

/// Splits a source text into tokens. On malformed input (an unterminated
/// string, an unmatched parenthesis, a backtick not followed by `(`, an
/// integer over 128 bits) the result is empty.
pub fn tokenize(s: &str) -> (r: Vec<Token>)
    ensures
        tv(r@) == lex(s@),
{
    let cs = chars_of(s);
    let mut l = Lexer {
        mode: Mode::Common,
        tmp: Vec::new(),
        kind: TokenKind::Nil,
        tokens: Vec::new(),
        pairs: 0,
        in_quote: false,
        quote_start: false,
        quote_level: 0,
        deref: false,
    };
    proof {
        assert(l@.tmp =~= Seq::<char>::empty());
        assert(l@.tokens =~= Seq::<Tok>::empty());
        assert(l@ == lex_init());
    }
    let mut i: usize = 0;
    while i < cs.len()
        invariant
            i <= cs.len(),
            cs@ == s@,
            lex_wf(l@),
            l.pairs <= i,
            lex_from(cs@, i as int, l@) == lex(s@),
        decreases cs.len() - i,
    {
        if !l.step(cs[i]) {
            return Vec::new();
        }
        i = i + 1;
    }
    if l.mode == Mode::InString || l.mode == Mode::InStringEscape || l.pairs != 0 {
        return Vec::new();
    }
    l.tokens
}

} // verus!
