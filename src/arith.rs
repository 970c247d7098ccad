//! Integer builtins: arithmetic and bitwise folds, comparisons, ranges.
use vstd::prelude::*;
use crate::fault::Fault;
use crate::token::{res, tv, Tok, Token};

verus! {

/// A left-folding integer operator.
#[derive(Debug, Clone, Copy, PartialEq, Eq, Structural)]
pub enum Arith {
    Add,
    Sub,
    Mul,
    Div,
    And,
    Or,
    Xor,
    Shr,
    Shl,
}

/// One step of a fold: `+`, `*` and the bitwise operators wrap modulo 2^128,
/// a shift by 128 or more gives zero, `-` below zero and `/` by zero fail.
pub open spec fn arith(op: Arith, a: u128, d: u128) -> Result<u128, Fault> {
    match op {
        Arith::Add => Ok(a.wrapping_add(d)),
        Arith::Sub => if d > a {
            Err(Fault::Underflow)
        } else {
            Ok((a - d) as u128)
        },
        Arith::Mul => Ok(a.wrapping_mul(d)),
        Arith::Div => if d == 0 {
            Err(Fault::ZeroDivision)
        } else {
            Ok(a / d)
        },
        Arith::And => Ok(a & d),
        Arith::Or => Ok(a | d),
        Arith::Xor => Ok(a ^ d),
        Arith::Shr => if d >= 128 {
            Ok(0)
        } else {
            Ok(a >> d)
        },
        Arith::Shl => if d >= 128 {
            Ok(0)
        } else {
            Ok(a << d)
        },
    }
}

/// The fold of `op` over the operands from index `i` on, starting from `a`.
pub open spec fn fold_from(op: Arith, a: u128, args: Seq<Tok>, i: int) -> Result<u128, Fault>
    decreases args.len() - i,
{
    if i < 0 || i >= args.len() {
        Ok(a)
    } else {
        match args[i] {
            Tok::Digit(d) => match arith(op, a, d) {
                Ok(b) => fold_from(op, b, args, i + 1),
                Err(e) => Err(e),
            },
            _ => Err(Fault::Type),
        }
    }
}

/// A variadic operator: at least one integer operand, folded from the left.
pub open spec fn fold_spec(op: Arith, args: Seq<Tok>) -> Result<Seq<Tok>, Fault> {
    if args.len() == 0 {
        Err(Fault::Arity)
    } else {
        match args[0] {
            Tok::Digit(a) => match fold_from(op, a, args, 1) {
                Ok(r) => Ok(seq![Tok::Digit(r)]),
                Err(e) => Err(e),
            },
            _ => Err(Fault::Type),
        }
    }
}

fn arith_step(op: Arith, a: u128, d: u128) -> (r: Result<u128, Fault>)
    ensures
        r == arith(op, a, d),
{
    match op {
        Arith::Add => Ok(a.wrapping_add(d)),
        Arith::Sub => if d > a {
            Err(Fault::Underflow)
        } else {
            Ok(a - d)
        },
        Arith::Mul => Ok(a.wrapping_mul(d)),
        Arith::Div => if d == 0 {
            Err(Fault::ZeroDivision)
        } else {
            Ok(a / d)
        },
        Arith::And => Ok(a & d),
        Arith::Or => Ok(a | d),
        Arith::Xor => Ok(a ^ d),
        Arith::Shr => if d >= 128 {
            Ok(0)
        } else {
            Ok(a >> d)
        },
        Arith::Shl => if d >= 128 {
            Ok(0)
        } else {
            Ok(a << d)
        },
    }
}

/// Applies a variadic integer operator to its operands.
pub fn fold_op(op: Arith, args: &Vec<Token>) -> (r: Result<Vec<Token>, Fault>)
    ensures
        res(r) == fold_spec(op, tv(args@)),
{
    if args.len() == 0 {
        return Err(Fault::Arity);
    }
    let mut acc: u128 = match &args[0] {
        Token::Digit(a) => *a,
        _ => {
            return Err(Fault::Type);
        },
    };
    let mut i: usize = 1;
    while i < args.len()
        invariant
            1 <= i <= args.len(),
            fold_from(op, acc, tv(args@), i as int) == fold_from(op, tv(args@)[0]->Digit_0, tv(args@), 1),
            tv(args@)[0] is Digit,
        decreases args.len() - i,
    {
        match &args[i] {
            Token::Digit(d) => match arith_step(op, acc, *d) {
                Ok(b) => {
                    acc = b;
                },
                Err(e) => {
                    return Err(e);
                },
            },
            _ => {
                return Err(Fault::Type);
            },
        }
        i = i + 1;
    }
    let r = vec![Token::Digit(acc)];
    proof {
        assert(tv(r@) =~= seq![Tok::Digit(acc)]);
    }
    Ok(r)
}

/// `>` (`less` false) or `<` (`less` true) on exactly two integers.
pub open spec fn compare_spec(less: bool, args: Seq<Tok>) -> Result<Seq<Tok>, Fault> {
    if args.len() != 2 {
        Err(Fault::Arity)
    } else {
        match args[0] {
            Tok::Digit(a) => match args[1] {
                Tok::Digit(b) => Ok(seq![Tok::Digit(if (less && a < b) || (!less && a > b) { 1 } else { 0 })]),
                _ => Err(Fault::Type),
            },
            _ => Err(Fault::Type),
        }
    }
}

/// Compares two integers; the result is `1` or `0`.
pub fn compare(less: bool, args: &Vec<Token>) -> (r: Result<Vec<Token>, Fault>)
    ensures
        res(r) == compare_spec(less, tv(args@)),
{
    if args.len() != 2 {
        return Err(Fault::Arity);
    }
    let a = match &args[0] {
        Token::Digit(a) => *a,
        _ => {
            return Err(Fault::Type);
        },
    };
    let b = match &args[1] {
        Token::Digit(b) => *b,
        _ => {
            return Err(Fault::Type);
        },
    };
    let v: u128 = if (less && a < b) || (!less && a > b) { 1 } else { 0 };
    let r = vec![Token::Digit(v)];
    proof {
        assert(tv(r@) =~= seq![Tok::Digit(v)]);
    }
    Ok(r)
}

/// `~`: the bitwise complement of one integer.
pub open spec fn not_spec(args: Seq<Tok>) -> Result<Seq<Tok>, Fault> {
    if args.len() != 1 {
        Err(Fault::Arity)
    } else {
        match args[0] {
            Tok::Digit(a) => Ok(seq![Tok::Digit(!a)]),
            _ => Err(Fault::Type),
        }
    }
}

/// Complements one integer bit by bit.
pub fn bit_not(args: &Vec<Token>) -> (r: Result<Vec<Token>, Fault>)
    ensures
        res(r) == not_spec(tv(args@)),
{
    if args.len() != 1 {
        return Err(Fault::Arity);
    }
    match &args[0] {
        Token::Digit(a) => {
            let r = vec![Token::Digit(!*a)];
            proof {
                assert(tv(r@) =~= seq![Tok::Digit(!*a)]);
            }
            Ok(r)
        },
        _ => Err(Fault::Type),
    }
}

/// The integers `cur`, `cur + step`, ... below `end`.
pub open spec fn range_from(cur: int, end: int, step: int) -> Seq<Tok>
    decreases if cur < end { end - cur } else { 0 },
{
    if step <= 0 || cur >= end || cur < 0 {
        Seq::empty()
    } else {
        seq![Tok::Digit(cur as u128)] + range_from(cur + step, end, step)
    }
}

/// `range`: one to three integers, `end`, `start end` or `start end step`;
/// a step of zero is refused.
pub open spec fn range_spec(args: Seq<Tok>) -> Result<Seq<Tok>, Fault> {
    if args.len() == 0 || args.len() > 3 {
        Err(Fault::Arity)
    } else if !(args[0] is Digit) {
        Err(Fault::Type)
    } else if args.len() == 3 && !(args[2] is Digit) {
        Err(Fault::Type)
    } else if args.len() >= 2 && !(args[1] is Digit) {
        Err(Fault::Type)
    } else {
        let start: int = if args.len() == 1 { 0 } else { args[0]->Digit_0 as int };
        let end: int = if args.len() == 1 { args[0]->Digit_0 as int } else { args[1]->Digit_0 as int };
        let step: int = if args.len() == 3 { args[2]->Digit_0 as int } else { 1 };
        if step == 0 {
            Err(Fault::Value)
        } else {
            Ok(range_from(start, end, step))
        }
    }
}

/// Lists the integers of a half-open interval, in ascending order.
pub fn range(args: &Vec<Token>) -> (r: Result<Vec<Token>, Fault>)
    ensures
        res(r) == range_spec(tv(args@)),
{
    let n = args.len();
    if n == 0 || n > 3 {
        return Err(Fault::Arity);
    }
    let first: u128 = match &args[0] {
        Token::Digit(d) => *d,
        _ => {
            return Err(Fault::Type);
        },
    };
    let mut step: u128 = 1;
    if n == 3 {
        match &args[2] {
            Token::Digit(d) => {
                step = *d;
            },
            _ => {
                return Err(Fault::Type);
            },
        }
    }
    let mut start: u128 = 0;
    let mut end: u128 = first;
    if n >= 2 {
        match &args[1] {
            Token::Digit(d) => {
                start = first;
                end = *d;
            },
            _ => {
                return Err(Fault::Type);
            },
        }
    }
    if step == 0 {
        return Err(Fault::Value);
    }
    let mut r: Vec<Token> = Vec::new();
    let mut cur: u128 = start;
    proof {
        assert(tv(r@) + range_from(cur as int, end as int, step as int) =~= range_from(cur as int, end as int, step as int));
    }
    while cur < end
        invariant
            step > 0,
            range_spec(tv(args@)) == Ok::<Seq<Tok>, Fault>(range_from(start as int, end as int, step as int)),
            tv(r@) + range_from(cur as int, end as int, step as int) == range_from(start as int, end as int, step as int),
        decreases if cur < end { end - cur } else { 0 },
    {
        let ghost before = r@;
        r.push(Token::Digit(cur));
        proof {
            assert(tv(r@) =~= tv(before).push(Tok::Digit(cur)));
            assert(tv(r@) + range_from(cur + step, end as int, step as int) =~= tv(before) + range_from(cur as int, end as int, step as int));
        }
        match cur.checked_add(step) {
            Some(next) => {
                cur = next;
            },
            None => {
                proof {
                    assert(range_from(cur + step, end as int, step as int) =~= Seq::<Tok>::empty());
                    assert(tv(r@) =~= tv(r@) + Seq::<Tok>::empty());
                }
                return Ok(r);
            },
        }
    }
    proof {
        assert(tv(r@) =~= tv(r@) + range_from(cur as int, end as int, step as int));
    }
    Ok(r)
}

/// The integers from `cur` below `end` by `step` are ceil((end - cur) / step)
/// in number, the `k`-th being `cur + k * step`.
proof fn lemma_range_from(cur: int, end: int, step: int)
    requires
        0 <= cur,
        step > 0,
        end <= u128::MAX + 1,
    ensures
        range_from(cur, end, step).len() == if cur < end { (end - cur + step - 1) / step } else { 0 },
        forall|k: int|
            0 <= k < range_from(cur, end, step).len() ==> #[trigger] range_from(cur, end, step)[k]
                == Tok::Digit((cur + k * step) as u128),
    decreases if cur < end { end - cur } else { 0 },
{
    if cur < end {
        lemma_range_from(cur + step, end, step);
        let rest = range_from(cur + step, end, step);
        let x = end - cur;
        if cur + step >= end {
            assert((x + step - 1) / step == 1) by (nonlinear_arith)
                requires
                    0 < x <= step,
            ;
        } else {
            assert((x - step + step - 1) / step + 1 == (x + step - 1) / step) by (nonlinear_arith)
                requires
                    x > step,
                    step > 0,
            ;
        }
        assert forall|k: int| 0 <= k < range_from(cur, end, step).len() implies #[trigger] range_from(cur, end, step)[k]
            == Tok::Digit((cur + k * step) as u128) by {
            if k > 0 {
                assert(range_from(cur, end, step)[k] == rest[k - 1]);
                assert(rest[k - 1] == Tok::Digit((cur + step + (k - 1) * step) as u128));
                assert(cur + step + (k - 1) * step == cur + k * step) by (nonlinear_arith);
            } else {
                assert(k * step == 0);
                assert(range_from(cur, end, step)[0] == Tok::Digit(cur as u128));
            }
        }
    }
}

/// `range a b step` with a positive step lists exactly ceil((b - a) / step)
/// integers when `a <= b`, ascending from `a` by `step`; when `a >= b` it
/// lists none.
pub proof fn law_range(a: u128, b: u128, step: u128)
    requires
        step > 0,
    ensures
        ({
            let r = range_spec(seq![Tok::Digit(a), Tok::Digit(b), Tok::Digit(step)]);
            &&& r is Ok
            &&& a >= b ==> r->Ok_0.len() == 0
            &&& a <= b ==> r->Ok_0.len() == (b - a + step - 1) / (step as int)
            &&& forall|k: int|
                0 <= k < r->Ok_0.len() ==> #[trigger] r->Ok_0[k] == Tok::Digit((a + k * step) as u128)
                    && a + k * step < b
        }),
{
    lemma_range_from(a as int, b as int, step as int);
    let r = range_from(a as int, b as int, step as int);
    assert(range_spec(seq![Tok::Digit(a), Tok::Digit(b), Tok::Digit(step)]) == Ok::<Seq<Tok>, Fault>(r));
    if a == b {
        assert((step - 1) / (step as int) == 0) by (nonlinear_arith)
            requires
                step > 0,
        ;
    }
    assert forall|k: int| 0 <= k < r.len() implies #[trigger] r[k] == Tok::Digit((a + k * step) as u128)
        && a + k * step < b by {
        if a < b {
            let x = b - a;
            assert(k < (x + step - 1) / (step as int));
            assert(k * step < x) by (nonlinear_arith)
                requires
                    0 <= k < (x + step - 1) / (step as int),
                    step > 0,
                    x > 0,
            ;
        }
    }
}

} // verus!
