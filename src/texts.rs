//! Builtins that convert between texts, integers and characters.
use vstd::prelude::*;
use vstd::utf8::{decode_utf8, encode_utf8, valid_utf8};
use crate::fault::Fault;
use crate::text::{chars_of, digits_u128, parse_digits};
use crate::token::{decimal, decimal_string, lemma_push_tok, res, tv, Tok, Token};

verus! {

/// What `String::from_utf8_lossy` makes of a byte sequence.
pub uninterp spec fn utf8_lossy(b: Seq<u8>) -> Seq<char>;

/// Relies on String::from_utf8_lossy: bytes decoded as UTF-8, with each
/// malformed part replaced; a well-formed sequence decodes exactly.
#[verifier::external_body]
fn lossy_text(b: &Vec<u8>) -> (r: String)
    ensures
        r@ == utf8_lossy(b@),
        valid_utf8(b@) ==> r@ == decode_utf8(b@),
{
    String::from_utf8_lossy(b.as_slice()).into_owned()
}

/// Whether every character is an ASCII decimal digit.
pub open spec fn all_digits(s: Seq<char>) -> bool {
    forall|k: int| 0 <= k < s.len() ==> '0' <= #[trigger] s[k] && s[k] <= '9'
}

/// An unsigned integer in decimal, with an optional leading `+`; `None`
/// where the text is not one or the value exceeds 128 bits.
pub open spec fn parse_int(s: Seq<char>) -> Option<u128> {
    let body = if s.len() > 0 && s[0] == '+' {
        s.drop_first()
    } else {
        s
    };
    if body.len() > 0 && all_digits(body) {
        digits_u128(body)
    } else {
        None
    }
}

/// Reads an unsigned decimal integer.
pub fn parse_int_text(s: &String) -> (r: Option<u128>)
    ensures
        r == parse_int(s@),
{
    let cs = chars_of(s.as_str());
    let mut body: Vec<char> = Vec::new();
    let start: usize = if cs.len() > 0 && cs[0] == '+' { 1 } else { 0 };
    let ghost b = if cs@.len() > 0 && cs@[0] == '+' { cs@.drop_first() } else { cs@ };
    proof {
        assert(b =~= cs@.subrange(start as int, cs@.len() as int));
        assert(body@ =~= cs@.subrange(start as int, start as int));
    }
    let mut i: usize = start;
    while i < cs.len()
        invariant
            start <= i <= cs.len(),
            cs@ == s@,
            b == (if s@.len() > 0 && s@[0] == '+' { s@.drop_first() } else { s@ }),
            b == cs@.subrange(start as int, cs@.len() as int),
            body@ == cs@.subrange(start as int, i as int),
            all_digits(body@),
        decreases cs.len() - i,
    {
        let c = cs[i];
        if !('0' <= c && c <= '9') {
            proof {
                assert(b[i - start] == c);
                assert(!all_digits(b));
            }
            return None;
        }
        body.push(c);
        i = i + 1;
        proof {
            assert(body@ =~= cs@.subrange(start as int, i as int));
        }
    }
    proof {
        assert(body@ =~= b);
    }
    if body.len() == 0 {
        return None;
    }
    parse_digits(&body)
}

/// The conversions `int` and `str`.
#[derive(Debug, Clone, Copy, PartialEq, Eq, Structural)]
pub enum Conv {
    ToInt,
    ToStr,
}

/// One converted token: `int` reads texts and keeps integers, `str` writes
/// integers in decimal and keeps texts.
pub open spec fn conv_one(c: Conv, t: Tok) -> Result<Tok, Fault> {
    match t {
        Tok::Digit(d) => match c {
            Conv::ToInt => Ok(t),
            Conv::ToStr => Ok(Tok::Str(decimal(d))),
        },
        Tok::Str(s) => match c {
            Conv::ToInt => match parse_int(s) {
                Some(v) => Ok(Tok::Digit(v)),
                None => Err(Fault::Value),
            },
            Conv::ToStr => Ok(t),
        },
        _ => Err(Fault::Type),
    }
}

/// The conversion of the arguments from index `i` on, after `acc`.
pub open spec fn conv_from(c: Conv, args: Seq<Tok>, i: int, acc: Seq<Tok>) -> Result<Seq<Tok>, Fault>
    decreases args.len() - i,
{
    if i < 0 || i >= args.len() {
        Ok(acc)
    } else {
        match conv_one(c, args[i]) {
            Ok(t) => conv_from(c, args, i + 1, acc.push(t)),
            Err(e) => Err(e),
        }
    }
}

/// `int` or `str` on one or more arguments, each converted in place.
pub open spec fn conv_spec(c: Conv, args: Seq<Tok>) -> Result<Seq<Tok>, Fault> {
    if args.len() == 0 {
        Err(Fault::Arity)
    } else {
        conv_from(c, args, 0, Seq::empty())
    }
}

/// Converts every argument between integer and text.
pub fn convert(c: Conv, args: &Vec<Token>) -> (r: Result<Vec<Token>, Fault>)
    ensures
        res(r) == conv_spec(c, tv(args@)),
{
    if args.len() == 0 {
        return Err(Fault::Arity);
    }
    let mut out: Vec<Token> = Vec::new();
    let mut i: usize = 0;
    proof {
        assert(tv(out@) =~= Seq::<Tok>::empty());
    }
    while i < args.len()
        invariant
            i <= args.len(),
            args.len() > 0,
            conv_spec(c, tv(args@)) == conv_from(c, tv(args@), i as int, tv(out@)),
        decreases args.len() - i,
    {
        let t: Token = match (&args[i], c) {
            (Token::Digit(d), Conv::ToInt) => Token::Digit(*d),
            (Token::Digit(d), Conv::ToStr) => Token::Str(decimal_string(*d)),
            (Token::Str(s), Conv::ToInt) => match parse_int_text(s) {
                Some(v) => Token::Digit(v),
                None => {
                    return Err(Fault::Value);
                },
            },
            (Token::Str(s), Conv::ToStr) => Token::Str(s.clone()),
            _ => {
                return Err(Fault::Type);
            },
        };
        let ghost before = out@;
        out.push(t);
        proof {
            assert(tv(out@) =~= tv(before).push(t@));
        }
        i = i + 1;
    }
    Ok(out)
}

/// `chars`: one text split into one-character texts.
pub open spec fn chars_spec(args: Seq<Tok>) -> Result<Seq<Tok>, Fault> {
    if args.len() != 1 {
        Err(Fault::Arity)
    } else {
        match args[0] {
            Tok::Str(s) => Ok(Seq::new(s.len(), |k: int| Tok::Str(seq![s[k]]))),
            _ => Err(Fault::Type),
        }
    }
}

/// Splits one text into its characters.
pub fn split_chars(args: &Vec<Token>) -> (r: Result<Vec<Token>, Fault>)
    ensures
        res(r) == chars_spec(tv(args@)),
{
    if args.len() != 1 {
        return Err(Fault::Arity);
    }
    let s = match &args[0] {
        Token::Str(s) => s,
        _ => {
            return Err(Fault::Type);
        },
    };
    let cs = chars_of(s.as_str());
    let mut out: Vec<Token> = Vec::new();
    let mut i: usize = 0;
    while i < cs.len()
        invariant
            i <= cs.len(),
            cs@ == s@,
            tv(out@) == Seq::new(i as nat, |k: int| Tok::Str(seq![cs@[k]])),
        decreases cs.len() - i,
    {
        let mut one = String::new();
        one.push(cs[i]);
        let ghost before = out@;
        let t = Token::Str(one);
        proof {
            lemma_push_tok(before, t);
        }
        out.push(t);
        proof {
            assert(one@ =~= seq![cs@[i as int]]);
            assert forall|k: int| 0 <= k < i + 1 implies tv(out@)[k] == Tok::Str(seq![cs@[k]]) by {
                if k < i {
                    assert(tv(before)[k] == Tok::Str(seq![cs@[k]]));
                }
            }
            assert(tv(out@) =~= Seq::new((i + 1) as nat, |k: int| Tok::Str(seq![cs@[k]])));
        }
        i = i + 1;
    }
    proof {
        assert(tv(out@) =~= Seq::new(s@.len(), |k: int| Tok::Str(seq![s@[k]])));
    }
    Ok(out)
}

/// `bytes`: one text as the integers of its UTF-8 bytes.
pub open spec fn bytes_spec(args: Seq<Tok>) -> Result<Seq<Tok>, Fault> {
    if args.len() != 1 {
        Err(Fault::Arity)
    } else {
        match args[0] {
            Tok::Str(s) => Ok(
                Seq::new(encode_utf8(s).len(), |k: int| Tok::Digit(encode_utf8(s)[k] as u128)),
            ),
            _ => Err(Fault::Type),
        }
    }
}

/// Lists the UTF-8 bytes of one text.
pub fn text_bytes(args: &Vec<Token>) -> (r: Result<Vec<Token>, Fault>)
    ensures
        res(r) == bytes_spec(tv(args@)),
{
    if args.len() != 1 {
        return Err(Fault::Arity);
    }
    let s = match &args[0] {
        Token::Str(s) => s,
        _ => {
            return Err(Fault::Type);
        },
    };
    let b = s.as_str().as_bytes();
    let ghost e = encode_utf8(s@);
    let mut out: Vec<Token> = Vec::new();
    let mut i: usize = 0;
    while i < b.len()
        invariant
            i <= b@.len(),
            b@ == e,
            e == encode_utf8(s@),
            tv(out@) == Seq::new(i as nat, |k: int| Tok::Digit(e[k] as u128)),
        decreases b@.len() - i,
    {
        let ghost before = out@;
        let t = Token::Digit(b[i] as u128);
        proof {
            lemma_push_tok(before, t);
        }
        out.push(t);
        proof {
            assert forall|k: int| 0 <= k < i + 1 implies tv(out@)[k] == Tok::Digit(e[k] as u128) by {
                if k < i {
                    assert(tv(before)[k] == Tok::Digit(e[k] as u128));
                }
            }
            assert(tv(out@) =~= Seq::new((i + 1) as nat, |k: int| Tok::Digit(e[k] as u128)));
        }
        i = i + 1;
    }
    Ok(out)
}

/// The characters of the texts from index `i` on, after `acc`; fails on the
/// first argument that is not a text.
pub open spec fn concat_from(args: Seq<Tok>, i: int, acc: Seq<char>) -> Result<Seq<char>, Fault>
    decreases args.len() - i,
{
    if i < 0 || i >= args.len() {
        Ok(acc)
    } else {
        match args[i] {
            Tok::Str(s) => concat_from(args, i + 1, acc + s),
            _ => Err(Fault::Type),
        }
    }
}

/// `str-collect`: one or more texts joined into one.
pub open spec fn collect_spec(args: Seq<Tok>) -> Result<Seq<Tok>, Fault> {
    if args.len() == 0 {
        Err(Fault::Arity)
    } else {
        match concat_from(args, 0, Seq::empty()) {
            Ok(s) => Ok(seq![Tok::Str(s)]),
            Err(e) => Err(e),
        }
    }
}

/// Joins texts into one.
pub fn collect(args: &Vec<Token>) -> (r: Result<Vec<Token>, Fault>)
    ensures
        res(r) == collect_spec(tv(args@)),
{
    if args.len() == 0 {
        return Err(Fault::Arity);
    }
    let mut acc = String::new();
    let mut i: usize = 0;
    while i < args.len()
        invariant
            i <= args.len(),
            args.len() > 0,
            concat_from(tv(args@), 0, Seq::empty()) == concat_from(tv(args@), i as int, acc@),
        decreases args.len() - i,
    {
        match &args[i] {
            Token::Str(s) => {
                acc.append(s.as_str());
            },
            _ => {
                return Err(Fault::Type);
            },
        }
        i = i + 1;
    }
    let r = vec![Token::Str(acc)];
    proof {
        assert(tv(r@) =~= seq![Tok::Str(acc@)]);
    }
    Ok(r)
}

/// `as-int`: the code of a text of one ASCII character.
pub open spec fn as_int_spec(args: Seq<Tok>) -> Result<Seq<Tok>, Fault> {
    if args.len() != 1 {
        Err(Fault::Arity)
    } else {
        match args[0] {
            Tok::Str(s) => if s.len() == 1 && (s[0] as u32) < 128 {
                Ok(seq![Tok::Digit((s[0] as u32) as u128)])
            } else {
                Err(Fault::Value)
            },
            _ => Err(Fault::Type),
        }
    }
}

/// Gives the code of a one-character ASCII text.
pub fn as_int(args: &Vec<Token>) -> (r: Result<Vec<Token>, Fault>)
    ensures
        res(r) == as_int_spec(tv(args@)),
{
    if args.len() != 1 {
        return Err(Fault::Arity);
    }
    match &args[0] {
        Token::Str(s) => {
            let cs = chars_of(s.as_str());
            if cs.len() == 1 && (cs[0] as u32) < 128 {
                let code: u32 = cs[0] as u32;
                let r = vec![Token::Digit(code as u128)];
                proof {
                    assert(tv(r@) =~= seq![Tok::Digit((s@[0] as u32) as u128)]);
                }
                Ok(r)
            } else {
                Err(Fault::Value)
            }
        },
        _ => Err(Fault::Type),
    }
}

/// `as-char`: the text of the byte that one integer gives modulo 256.
pub open spec fn as_char_spec(args: Seq<Tok>) -> Result<Seq<Tok>, Fault> {
    if args.len() != 1 {
        Err(Fault::Arity)
    } else {
        match args[0] {
            Tok::Digit(d) => Ok(seq![Tok::Str(utf8_lossy(seq![d as u8]))]),
            _ => Err(Fault::Type),
        }
    }
}

/// Turns an integer into the text of one byte.
pub fn as_char(args: &Vec<Token>) -> (r: Result<Vec<Token>, Fault>)
    ensures
        res(r) == as_char_spec(tv(args@)),
{
    if args.len() != 1 {
        return Err(Fault::Arity);
    }
    match &args[0] {
        Token::Digit(d) => {
            #[verifier::truncate]
            let b: u8 = *d as u8;
            let v = vec![b];
            proof {
                assert(v@ =~= seq![*d as u8]);
            }
            let r = vec![Token::Str(lossy_text(&v))];
            proof {
                assert(tv(r@) =~= seq![Tok::Str(utf8_lossy(seq![*d as u8]))]);
            }
            Ok(r)
        },
        _ => Err(Fault::Type),
    }
}

/// The bytes of the integers from index `i` on, after `acc`, each taken
/// modulo 256; fails on the first argument that is not an integer.
pub open spec fn bytes_from(args: Seq<Tok>, i: int, acc: Seq<u8>) -> Result<Seq<u8>, Fault>
    decreases args.len() - i,
{
    if i < 0 || i >= args.len() {
        Ok(acc)
    } else {
        match args[i] {
            Tok::Digit(d) => bytes_from(args, i + 1, acc.push(d as u8)),
            _ => Err(Fault::Type),
        }
    }
}

/// `as-str`: one or more integers read as the bytes of a UTF-8 text.
pub open spec fn as_str_spec(args: Seq<Tok>) -> Result<Seq<Tok>, Fault> {
    if args.len() == 0 {
        Err(Fault::Arity)
    } else {
        match bytes_from(args, 0, Seq::empty()) {
            Ok(b) => Ok(seq![Tok::Str(utf8_lossy(b))]),
            Err(e) => Err(e),
        }
    }
}

/// Decodes a list of byte values into a text.
pub fn as_str(args: &Vec<Token>) -> (r: Result<Vec<Token>, Fault>)
    ensures
        res(r) == as_str_spec(tv(args@)),
{
    if args.len() == 0 {
        return Err(Fault::Arity);
    }
    let mut acc: Vec<u8> = Vec::new();
    let mut i: usize = 0;
    while i < args.len()
        invariant
            i <= args.len(),
            args.len() > 0,
            bytes_from(tv(args@), 0, Seq::empty()) == bytes_from(tv(args@), i as int, acc@),
        decreases args.len() - i,
    {
        match &args[i] {
            Token::Digit(d) => {
                #[verifier::truncate]
                let b: u8 = *d as u8;
                acc.push(b);
            },
            _ => {
                return Err(Fault::Type);
            },
        }
        i = i + 1;
    }
    let r = vec![Token::Str(lossy_text(&acc))];
    proof {
        assert(tv(r@) =~= seq![Tok::Str(utf8_lossy(acc@))]);
    }
    Ok(r)
}

} // verus!
