//! Builtins on the argument list itself: length, indexing, equality and
//! kind tests.
use vstd::prelude::*;
use crate::fault::Fault;
use crate::token::{res, tv, Tok, Token, TokenKind};

verus! {

/// A single integer token.
pub open spec fn one_digit(d: u128) -> Seq<Tok> {
    seq![Tok::Digit(d)]
}

/// A truth value as the language writes it.
pub open spec fn flag(b: bool) -> Seq<Tok> {
    one_digit(if b { 1 } else { 0 })
}

/// A truth value as a token sequence.
pub(crate) fn flag_vec(b: bool) -> (r: Vec<Token>)
    ensures
        tv(r@) == flag(b),
{
    let r = vec![Token::Digit(if b { 1 } else { 0 })];
    proof {
        assert(tv(r@) =~= flag(b));
    }
    r
}

/// `len`: the number of arguments.
pub fn len_of(args: &Vec<Token>) -> (r: Vec<Token>)
    ensures
        tv(r@) == one_digit(args@.len() as u128),
{
    let r = vec![Token::Digit(args.len() as u128)];
    proof {
        assert(tv(r@) =~= one_digit(args@.len() as u128));
    }
    r
}

/// `nth i ...` (`remove` false) picks the element at index `i` of the rest;
/// `rm i ...` (`remove` true) gives the rest without it.
pub open spec fn index_spec(remove: bool, args: Seq<Tok>) -> Result<Seq<Tok>, Fault> {
    if args.len() < 2 {
        Err(Fault::Arity)
    } else {
        match args[0] {
            Tok::Digit(d) => if d as int >= args.len() - 1 {
                Err(Fault::Index)
            } else if remove {
                Ok(args.drop_first().remove(d as int))
            } else {
                Ok(seq![args[d as int + 1]])
            },
            _ => Err(Fault::Type),
        }
    }
}

/// Picks or removes one element of a list by index.
pub fn index_op(remove: bool, args: &Vec<Token>) -> (r: Result<Vec<Token>, Fault>)
    ensures
        res(r) == index_spec(remove, tv(args@)),
{
    if args.len() < 2 {
        return Err(Fault::Arity);
    }
    let d: u128 = match &args[0] {
        Token::Digit(d) => *d,
        _ => {
            return Err(Fault::Type);
        },
    };
    if d >= (args.len() - 1) as u128 {
        return Err(Fault::Index);
    }
    let k: usize = d as usize;
    if !remove {
        let r = vec![args[k + 1].dup()];
        proof {
            assert(tv(r@) =~= seq![tv(args@)[k + 1]]);
        }
        return Ok(r);
    }
    let mut r: Vec<Token> = Vec::new();
    let mut i: usize = 1;
    while i < args.len()
        invariant
            1 <= i <= args.len(),
            k + 1 < args.len(),
            i <= k + 1 ==> tv(r@) == tv(args@).subrange(1, i as int),
            i > k + 1 ==> tv(r@) == tv(args@).subrange(1, k + 1) + tv(args@).subrange(k + 2, i as int),
        decreases args.len() - i,
    {
        if i != k + 1 {
            let ghost before = r@;
            r.push(args[i].dup());
            proof {
                assert(tv(r@) =~= tv(before).push(tv(args@)[i as int]));
            }
        }
        i = i + 1;
        proof {
            if i <= k + 1 {
                assert(tv(r@) =~= tv(args@).subrange(1, i as int));
            } else if i == k + 2 {
                assert(tv(r@) =~= tv(args@).subrange(1, k + 1) + tv(args@).subrange(k + 2, i as int));
            } else {
                assert(tv(r@) =~= tv(args@).subrange(1, k + 1) + tv(args@).subrange(k + 2, i as int));
            }
        }
    }
    proof {
        assert(tv(r@) =~= tv(args@).drop_first().remove(k as int));
    }
    Ok(r)
}

/// Whether two tokens are both texts or both integers.
pub open spec fn same_kind(a: Tok, b: Tok) -> bool {
    (a is Str && b is Str) || (a is Digit && b is Digit)
}

/// Whether the operands from index `i` on are of the kind of `first`.
pub open spec fn kinds_from(first: Tok, args: Seq<Tok>, i: int) -> bool
    decreases args.len() - i,
{
    if i < 0 || i >= args.len() {
        true
    } else {
        same_kind(args[i], first) && kinds_from(first, args, i + 1)
    }
}

/// Whether the operands from index `i` on equal `first`.
pub open spec fn equal_from(first: Tok, args: Seq<Tok>, i: int) -> bool
    decreases args.len() - i,
{
    if i < 0 || i >= args.len() {
        true
    } else {
        args[i] == first && equal_from(first, args, i + 1)
    }
}

/// `=`: all operands must be texts or all integers, as the first is; the
/// result is whether all equal the first.
pub open spec fn eq_spec(args: Seq<Tok>) -> Result<Seq<Tok>, Fault> {
    if args.len() == 0 {
        Err(Fault::Arity)
    } else if !(args[0] is Str || args[0] is Digit) {
        Err(Fault::Type)
    } else if !kinds_from(args[0], args, 1) {
        Err(Fault::Type)
    } else {
        Ok(flag(equal_from(args[0], args, 1)))
    }
}

/// Compares all operands with the first.
pub fn equal(args: &Vec<Token>) -> (r: Result<Vec<Token>, Fault>)
    ensures
        res(r) == eq_spec(tv(args@)),
{
    if args.len() == 0 {
        return Err(Fault::Arity);
    }
    let first = &args[0];
    let first_is_str = match first {
        Token::Str(_) => true,
        Token::Digit(_) => false,
        _ => {
            return Err(Fault::Type);
        },
    };
    let mut i: usize = 1;
    while i < args.len()
        invariant
            1 <= i <= args.len(),
            first == args@[0],
            first_is_str == (first@ is Str),
            first@ is Str || first@ is Digit,
            kinds_from(first@, tv(args@), 1) == kinds_from(first@, tv(args@), i as int),
        decreases args.len() - i,
    {
        let kind_ok = match &args[i] {
            Token::Str(_) => first_is_str,
            Token::Digit(_) => !first_is_str,
            _ => false,
        };
        if !kind_ok {
            return Err(Fault::Type);
        }
        i = i + 1;
    }
    let mut same = true;
    let mut j: usize = 1;
    while j < args.len()
        invariant
            1 <= j <= args.len(),
            first == args@[0],
            equal_from(first@, tv(args@), 1) == (same && equal_from(first@, tv(args@), j as int)),
        decreases args.len() - j,
    {
        if args[j] != *first {
            same = false;
        }
        j = j + 1;
    }
    Ok(flag_vec(same))
}

/// Whether a token is of the given kind (text, integer or identifier).
pub open spec fn of_kind(t: Tok, k: TokenKind) -> bool {
    match k {
        TokenKind::Str => t is Str,
        TokenKind::Digit => t is Digit,
        TokenKind::Ident => t is Ident,
        _ => false,
    }
}

/// `int?`, `str?`, `ident?`: whether the one argument is of kind `k`.
pub open spec fn kind_test_spec(k: TokenKind, args: Seq<Tok>) -> Result<Seq<Tok>, Fault> {
    if args.len() != 1 {
        Err(Fault::Arity)
    } else {
        Ok(flag(of_kind(args[0], k)))
    }
}

/// Tests the kind of one argument.
pub fn kind_test(k: TokenKind, args: &Vec<Token>) -> (r: Result<Vec<Token>, Fault>)
    ensures
        res(r) == kind_test_spec(k, tv(args@)),
{
    if args.len() != 1 {
        return Err(Fault::Arity);
    }
    let b = match (&args[0], k) {
        (Token::Str(_), TokenKind::Str) => true,
        (Token::Digit(_), TokenKind::Digit) => true,
        (Token::Ident(_), TokenKind::Ident) => true,
        _ => false,
    };
    Ok(flag_vec(b))
}

/// `ident-name`: the name of one identifier, as text.
pub open spec fn ident_name_spec(args: Seq<Tok>) -> Result<Seq<Tok>, Fault> {
    if args.len() != 1 {
        Err(Fault::Arity)
    } else {
        match args[0] {
            Tok::Ident(s) => Ok(seq![Tok::Str(s)]),
            _ => Err(Fault::Type),
        }
    }
}

/// Turns one identifier into the text of its name.
pub fn ident_name(args: &Vec<Token>) -> (r: Result<Vec<Token>, Fault>)
    ensures
        res(r) == ident_name_spec(tv(args@)),
{
    if args.len() != 1 {
        return Err(Fault::Arity);
    }
    match &args[0] {
        Token::Ident(s) => {
            let r = vec![Token::Str(s.clone())];
            proof {
                assert(tv(r@) =~= seq![Tok::Str(s@)]);
            }
            Ok(r)
        },
        _ => Err(Fault::Type),
    }
}

} // verus!
