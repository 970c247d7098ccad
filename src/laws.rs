//! Laws of evaluation that relate several steps.
use vstd::prelude::*;
use crate::arith::{fold_spec, Arith};
use crate::semantics::{apply, builtin, builtin_named, ev, ev_items, form_named, items, items_from, Builtin, Item, St};
use crate::fault::Fault;
use crate::token::Tok;

verus! {

/// The integer tokens of a sequence of integers.
pub open spec fn digits(ds: Seq<u128>) -> Seq<Tok> {
    Seq::new(ds.len(), |k: int| Tok::Digit(ds[k]))
}

/// No name of an integer operator is the name of a special form.
proof fn lemma_operator_not_form(n: Seq<char>, op: Arith)
    requires
        builtin_named(n) == Some(Builtin::Fold(op)),
    ensures
        form_named(n) is None,
{
    reveal_strlit("if");
    reveal_strlit("let");
    reveal_strlit("bind");
    reveal_strlit("each");
    reveal_strlit("case");
    reveal_strlit("mut");
    reveal_strlit("set");
    reveal_strlit("while");
    reveal_strlit("lambda");
    reveal_strlit("cond");
    reveal_strlit("+");
    reveal_strlit("-");
    reveal_strlit("*");
    reveal_strlit("/");
    reveal_strlit("&");
    reveal_strlit("bit-and");
    reveal_strlit("|");
    reveal_strlit("bit-or");
    reveal_strlit("^");
    reveal_strlit("bit-xor");
    reveal_strlit(">>");
    reveal_strlit("bit-rshift");
    reveal_strlit("<<");
    reveal_strlit("bit-lshift");
    assert(n == "+"@ || n == "-"@ || n == "*"@ || n == "/"@ || n == "&"@ || n == "|"@ || n == "^"@
        || n == "bit-and"@ || n == "bit-or"@ || n == "bit-xor"@ || n == ">>"@ || n == "<<"@
        || n == "bit-rshift"@ || n == "bit-lshift"@);
    assert(n.len() == 1 || (n.len() == 2 && (n[0] == '>' || n[0] == '<')) || (n.len() >= 6 && n[0] == 'b'));
}

/// An integer expression: a literal, or a call of a named operator.
pub enum Arx {
    Lit(u128),
    Call(Seq<char>, Seq<Arx>),
}

/// The tokens of an expression.
pub open spec fn render(e: Arx) -> Seq<Tok>
    decreases e,
{
    match e {
        Arx::Lit(d) => seq![Tok::Digit(d)],
        Arx::Call(n, xs) => seq![Tok::OPair] + (seq![Tok::Ident(n)] + render_all(xs)) + seq![Tok::CPair],
    }
}

/// The tokens of a sequence of expressions, one after the other.
pub open spec fn render_all(xs: Seq<Arx>) -> Seq<Tok>
    decreases xs,
{
    if xs.len() == 0 {
        Seq::empty()
    } else {
        render_all(xs.drop_last()) + render(xs.last())
    }
}

/// One token of the outer-level scan: the nesting, the open group's
/// contents and the items so far, after it.
pub open spec fn scan_step(t: Tok, d: nat, cur: Seq<Tok>, acc: Seq<Item>) -> (nat, Seq<Tok>, Seq<Item>) {
    if d > 0 {
        let d2: nat = if t == Tok::CPair {
            (d - 1) as nat
        } else if t == Tok::OPair {
            d + 1
        } else {
            d
        };
        if d2 == 0 {
            (0, Seq::empty(), acc.push(Item::Group(cur)))
        } else {
            (d2, cur.push(t), acc)
        }
    } else if t == Tok::OPair {
        (1, cur, acc)
    } else {
        (0, cur, acc.push(Item::Bare(t)))
    }
}

/// The outer-level scan of a whole sequence.
pub open spec fn scan(s: Seq<Tok>, d: nat, cur: Seq<Tok>, acc: Seq<Item>) -> (nat, Seq<Tok>, Seq<Item>)
    decreases s.len(),
{
    if s.len() == 0 {
        (d, cur, acc)
    } else {
        let (d2, c2, a2) = scan_step(s[0], d, cur, acc);
        scan(s.drop_first(), d2, c2, a2)
    }
}

/// The items of a sequence are what the scan of it collects.
proof fn lemma_items_scan(t: Seq<Tok>, i: int, d: nat, cur: Seq<Tok>, acc: Seq<Item>)
    requires
        0 <= i <= t.len(),
    ensures
        items_from(t, i, d, cur, acc) == scan(t.subrange(i, t.len() as int), d, cur, acc).2,
    decreases t.len() - i,
{
    if i < t.len() {
        let (d2, c2, a2) = scan_step(t[i], d, cur, acc);
        lemma_items_scan(t, i + 1, d2, c2, a2);
        assert(t.subrange(i, t.len() as int).drop_first() =~= t.subrange(i + 1, t.len() as int));
    }
}

/// Scanning two sequences one after the other.
proof fn lemma_scan_concat(x: Seq<Tok>, y: Seq<Tok>, d: nat, cur: Seq<Tok>, acc: Seq<Item>)
    ensures
        scan(x + y, d, cur, acc) == ({
            let (d1, c1, a1) = scan(x, d, cur, acc);
            scan(y, d1, c1, a1)
        }),
    decreases x.len(),
{
    if x.len() == 0 {
        assert(x + y =~= y);
    } else {
        let (d2, c2, a2) = scan_step(x[0], d, cur, acc);
        lemma_scan_concat(x.drop_first(), y, d2, c2, a2);
        assert((x + y).drop_first() =~= x.drop_first() + y);
    }
}

/// Inside an open group, an expression's tokens are taken as they are.
proof fn lemma_scan_inside(e: Arx, d: nat, cur: Seq<Tok>, acc: Seq<Item>)
    requires
        d >= 1,
    ensures
        scan(render(e), d, cur, acc) == (d, cur + render(e), acc),
    decreases e, 0nat,
{
    match e {
        Arx::Lit(v) => {
            assert(render(e).drop_first() =~= Seq::<Tok>::empty());
            assert(render(e)[0] == Tok::Digit(v));
            assert(scan_step(Tok::Digit(v), d, cur, acc) == (d, cur.push(Tok::Digit(v)), acc));
            assert(scan(Seq::<Tok>::empty(), d, cur.push(Tok::Digit(v)), acc) == (d, cur.push(Tok::Digit(v)), acc));
            assert(cur.push(Tok::Digit(v)) =~= cur + render(e));
        },
        Arx::Call(n, xs) => {
            let body = seq![Tok::Ident(n)] + render_all(xs);
            lemma_scan_concat(seq![Tok::OPair] + body, seq![Tok::CPair], d, cur, acc);
            lemma_scan_concat(seq![Tok::OPair], body, d, cur, acc);
            let c1 = cur.push(Tok::OPair);
            assert(scan(seq![Tok::OPair], d, cur, acc) == (d + 1, c1, acc)) by {
                assert(seq![Tok::OPair].drop_first() =~= Seq::<Tok>::empty());
                assert(seq![Tok::OPair][0] == Tok::OPair);
                assert(scan_step(Tok::OPair, d, cur, acc) == (d + 1, c1, acc));
                assert(scan(Seq::<Tok>::empty(), d + 1, c1, acc) == (d + 1, c1, acc));
            }
            lemma_scan_concat(seq![Tok::Ident(n)], render_all(xs), d + 1, c1, acc);
            let c2 = c1.push(Tok::Ident(n));
            assert(scan(seq![Tok::Ident(n)], d + 1, c1, acc) == (d + 1, c2, acc)) by {
                assert(seq![Tok::Ident(n)].drop_first() =~= Seq::<Tok>::empty());
                assert(seq![Tok::Ident(n)][0] == Tok::Ident(n));
                assert(scan_step(Tok::Ident(n), (d + 1) as nat, c1, acc) == ((d + 1) as nat, c2, acc));
                assert(scan(Seq::<Tok>::empty(), (d + 1) as nat, c2, acc) == ((d + 1) as nat, c2, acc));
            }
            lemma_scan_inside_all(xs, d + 1, c2, acc);
            let c3 = c2 + render_all(xs);
            assert(scan(seq![Tok::CPair], d + 1, c3, acc) == (d, c3.push(Tok::CPair), acc)) by {
                assert(seq![Tok::CPair].drop_first() =~= Seq::<Tok>::empty());
                assert(seq![Tok::CPair][0] == Tok::CPair);
                assert(scan_step(Tok::CPair, (d + 1) as nat, c3, acc) == (d, c3.push(Tok::CPair), acc));
                assert(scan(Seq::<Tok>::empty(), d, c3.push(Tok::CPair), acc) == (d, c3.push(Tok::CPair), acc));
            }
            assert(c3.push(Tok::CPair) =~= cur + render(e));
        },
    }
}

/// Inside an open group, the tokens of several expressions are taken as
/// they are.
proof fn lemma_scan_inside_all(xs: Seq<Arx>, d: nat, cur: Seq<Tok>, acc: Seq<Item>)
    requires
        d >= 1,
    ensures
        scan(render_all(xs), d, cur, acc) == (d, cur + render_all(xs), acc),
    decreases xs, 1nat,
{
    if xs.len() == 0 {
        assert(cur + Seq::<Tok>::empty() =~= cur);
    } else {
        lemma_scan_inside_all(xs.drop_last(), d, cur, acc);
        lemma_scan_concat(render_all(xs.drop_last()), render(xs.last()), d, cur, acc);
        lemma_scan_inside(xs.last(), d, cur + render_all(xs.drop_last()), acc);
        assert(cur + render_all(xs.drop_last()) + render(xs.last()) =~= cur + render_all(xs));
    }
}

/// The item that an expression forms at the outer level.
pub open spec fn item_of(e: Arx) -> Item {
    match e {
        Arx::Lit(d) => Item::Bare(Tok::Digit(d)),
        Arx::Call(n, xs) => Item::Group(seq![Tok::Ident(n)] + render_all(xs)),
    }
}

/// The items of a sequence of expressions.
pub open spec fn items_of(xs: Seq<Arx>) -> Seq<Item> {
    Seq::new(xs.len(), |k: int| item_of(xs[k]))
}

/// At the outer level an expression forms one item.
proof fn lemma_scan_top(e: Arx, acc: Seq<Item>)
    ensures
        scan(render(e), 0, Seq::empty(), acc) == (0nat, Seq::<Tok>::empty(), acc.push(item_of(e))),
{
    match e {
        Arx::Lit(v) => {
            assert(render(e).drop_first() =~= Seq::<Tok>::empty());
            assert(render(e)[0] == Tok::Digit(v));
            let a1 = acc.push(Item::Bare(Tok::Digit(v)));
            assert(scan_step(Tok::Digit(v), 0, Seq::empty(), acc) == (0nat, Seq::<Tok>::empty(), a1));
            assert(scan(Seq::<Tok>::empty(), 0, Seq::empty(), a1) == (0nat, Seq::<Tok>::empty(), a1));
        },
        Arx::Call(n, xs) => {
            let body = seq![Tok::Ident(n)] + render_all(xs);
            lemma_scan_concat(seq![Tok::OPair] + body, seq![Tok::CPair], 0, Seq::empty(), acc);
            lemma_scan_concat(seq![Tok::OPair], body, 0, Seq::empty(), acc);
            assert(scan(seq![Tok::OPair], 0, Seq::empty(), acc) == (1nat, Seq::<Tok>::empty(), acc)) by {
                assert(seq![Tok::OPair].drop_first() =~= Seq::<Tok>::empty());
                assert(seq![Tok::OPair][0] == Tok::OPair);
                assert(scan_step(Tok::OPair, 0, Seq::empty(), acc) == (1nat, Seq::<Tok>::empty(), acc));
                assert(scan(Seq::<Tok>::empty(), 1, Seq::empty(), acc) == (1nat, Seq::<Tok>::empty(), acc));
            }
            lemma_scan_concat(seq![Tok::Ident(n)], render_all(xs), 1, Seq::empty(), acc);
            let c2 = seq![Tok::Ident(n)];
            assert(scan(seq![Tok::Ident(n)], 1, Seq::empty(), acc) == (1nat, c2, acc)) by {
                assert(seq![Tok::Ident(n)].drop_first() =~= Seq::<Tok>::empty());
                assert(seq![Tok::Ident(n)][0] == Tok::Ident(n));
                assert(Seq::<Tok>::empty().push(Tok::Ident(n)) =~= c2);
                assert(scan(Seq::<Tok>::empty(), 1, c2, acc) == (1nat, c2, acc));
            }
            lemma_scan_inside_all(xs, 1, c2, acc);
            assert(c2 + render_all(xs) =~= body);
            assert(scan(seq![Tok::CPair], 1, body, acc) == (0nat, Seq::<Tok>::empty(), acc.push(Item::Group(body)))) by {
                assert(seq![Tok::CPair].drop_first() =~= Seq::<Tok>::empty());
                assert(seq![Tok::CPair][0] == Tok::CPair);
                assert(scan_step(Tok::CPair, 1, body, acc) == (0nat, Seq::<Tok>::empty(), acc.push(Item::Group(body))));
                assert(scan(Seq::<Tok>::empty(), 0, Seq::empty(), acc.push(Item::Group(body))) == (0nat, Seq::<Tok>::empty(), acc.push(Item::Group(body))));
            }
        },
    }
}

/// At the outer level, expressions one after the other form one item each.
proof fn lemma_scan_top_all(xs: Seq<Arx>, acc: Seq<Item>)
    ensures
        scan(render_all(xs), 0, Seq::empty(), acc) == (0nat, Seq::<Tok>::empty(), acc + items_of(xs)),
    decreases xs.len(),
{
    if xs.len() == 0 {
        assert(acc + items_of(xs) =~= acc);
    } else {
        lemma_scan_top_all(xs.drop_last(), acc);
        lemma_scan_concat(render_all(xs.drop_last()), render(xs.last()), 0, Seq::empty(), acc);
        lemma_scan_top(xs.last(), acc + items_of(xs.drop_last()));
        assert((acc + items_of(xs.drop_last())).push(item_of(xs.last())) =~= acc + items_of(xs));
    }
}

/// The items of a call's contents: its name, then one item per argument.
proof fn lemma_call_items(n: Seq<char>, xs: Seq<Arx>)
    ensures
        items(seq![Tok::Ident(n)] + render_all(xs)) == seq![Item::Bare(Tok::Ident(n))] + items_of(xs),
{
    let t = seq![Tok::Ident(n)] + render_all(xs);
    lemma_items_scan(t, 0, 0, Seq::empty(), Seq::empty());
    assert(t.subrange(0, t.len() as int) =~= t);
    lemma_scan_concat(seq![Tok::Ident(n)], render_all(xs), 0, Seq::empty(), Seq::empty());
    let a1 = seq![Item::Bare(Tok::Ident(n))];
    assert(scan(seq![Tok::Ident(n)], 0, Seq::empty(), Seq::empty()) == (0nat, Seq::<Tok>::empty(), a1)) by {
        assert(seq![Tok::Ident(n)].drop_first() =~= Seq::<Tok>::empty());
        assert(seq![Tok::Ident(n)][0] == Tok::Ident(n));
        assert(Seq::<Item>::empty().push(Item::Bare(Tok::Ident(n))) =~= a1);
        assert(scan(Seq::<Tok>::empty(), 0, Seq::<Tok>::empty(), a1) == (0nat, Seq::<Tok>::empty(), a1));
    }
    lemma_scan_top_all(xs, a1);
}

/// No argument's tokens are more than the tokens of all arguments.
proof fn lemma_render_all_len(xs: Seq<Arx>, k: int)
    requires
        0 <= k < xs.len(),
    ensures
        render(xs[k]).len() <= render_all(xs).len(),
    decreases xs.len(),
{
    if k < xs.len() - 1 {
        lemma_render_all_len(xs.drop_last(), k);
        assert(xs.drop_last()[k] == xs[k]);
    }
}

/// The operator that a name stands for.
pub open spec fn op_of(n: Seq<char>) -> Arith {
    match builtin_named(n) {
        Some(Builtin::Fold(op)) => op,
        _ => Arith::Add,
    }
}

/// Whether every call in an expression names an integer operator.
pub open spec fn is_arith(e: Arx) -> bool
    decreases e, 0nat,
{
    match e {
        Arx::Lit(_) => true,
        Arx::Call(n, xs) => builtin_named(n) == Some(Builtin::Fold(op_of(n))) && all_arith(xs, 0),
    }
}

/// Whether the expressions from index `k` on are integer expressions.
pub open spec fn all_arith(xs: Seq<Arx>, k: int) -> bool
    decreases xs, (xs.len() - k) as nat,
{
    if k < 0 || k >= xs.len() {
        true
    } else {
        is_arith(xs[k]) && all_arith(xs, k + 1)
    }
}

/// The value of an expression: its arguments from left to right, the first
/// fault stopping it, then the operator's fold.
pub open spec fn value(e: Arx) -> Result<Seq<Tok>, Fault>
    decreases e, 0nat,
{
    match e {
        Arx::Lit(d) => Ok(seq![Tok::Digit(d)]),
        Arx::Call(n, xs) => match vals_from(xs, 0, Seq::empty()) {
            Ok(ds) => fold_spec(op_of(n), digits(ds)),
            Err(er) => Err(er),
        },
    }
}

/// The values of the arguments from index `k` on, after `acc`.
pub open spec fn vals_from(xs: Seq<Arx>, k: int, acc: Seq<u128>) -> Result<Seq<u128>, Fault>
    decreases xs, (xs.len() - k) as nat,
{
    if k < 0 || k >= xs.len() {
        Ok(acc)
    } else {
        match value(xs[k]) {
            Ok(r) => vals_from(xs, k + 1, acc.push(r[0]->Digit_0)),
            Err(er) => Err(er),
        }
    }
}

/// A call's contents evaluate to the call's value and change nothing.
proof fn lemma_ev_call(fuel: nat, n: Seq<char>, xs: Seq<Arx>, args: Seq<Tok>, st: St)
    requires
        is_arith(Arx::Call(n, xs)),
        fuel > 1 + render_all(xs).len(),
    ensures
        ev(fuel, seq![Tok::Ident(n)] + render_all(xs), false, args, st) == (st, value(Arx::Call(n, xs))),
    decreases xs, xs.len() + 2,
{
    let inner = seq![Tok::Ident(n)] + render_all(xs);
    let f = (fuel - 1) as nat;
    let op = op_of(n);
    lemma_operator_not_form(n, op);
    lemma_call_items(n, xs);
    let its = seq![Item::Bare(Tok::Ident(n))] + items_of(xs);
    assert(inner[0] == Tok::Ident(n));
    assert(its[0] == Item::Bare(Tok::Ident(n)));
    assert(Seq::<Tok>::empty().push(Tok::Ident(n)) =~= seq![Tok::Ident(n)] + digits(Seq::empty()));
    lemma_ev_args(f, n, xs, 0, Seq::empty(), args, st);
    assert(ev_items(f, its, 0, false, args, Seq::empty(), st) == ev_items(
        f,
        its,
        1,
        false,
        args,
        seq![Tok::Ident(n)] + digits(Seq::empty()),
        st,
    ));
    match vals_from(xs, 0, Seq::empty()) {
        Ok(ds) => {
            let ret = seq![Tok::Ident(n)] + digits(ds);
            assert(ret[0] == Tok::Ident(n));
            assert(ret.drop_first() =~= digits(ds));
            assert(builtin(f, Builtin::Fold(op), digits(ds), args, st) == (st, fold_spec(op, digits(ds))));
            assert(apply(f, Tok::Ident(n), digits(ds), args, st) == (st, fold_spec(op, digits(ds))));
        },
        Err(er) => {},
    }
}

/// The arguments of a call, from index `k` on, evaluate to their values in
/// order and change nothing.
proof fn lemma_ev_args(
    f: nat,
    n: Seq<char>,
    xs: Seq<Arx>,
    k: int,
    acc: Seq<u128>,
    args: Seq<Tok>,
    st: St,
)
    requires
        0 <= k <= xs.len(),
        all_arith(xs, k),
        f > render_all(xs).len(),
    ensures
        ev_items(
            f,
            seq![Item::Bare(Tok::Ident(n))] + items_of(xs),
            k + 1,
            false,
            args,
            seq![Tok::Ident(n)] + digits(acc),
            st,
        ) == (st, match vals_from(xs, k, acc) {
            Ok(ds) => Ok::<Seq<Tok>, Fault>(seq![Tok::Ident(n)] + digits(ds)),
            Err(er) => Err::<Seq<Tok>, Fault>(er),
        }),
    decreases xs, (xs.len() - k) as nat,
{
    let its = seq![Item::Bare(Tok::Ident(n))] + items_of(xs);
    let ret = seq![Tok::Ident(n)] + digits(acc);
    if k < xs.len() {
        assert(its[k + 1] == item_of(xs[k]));
        lemma_render_all_len(xs, k);
        match xs[k] {
            Arx::Lit(d) => {
                assert(ret.push(Tok::Digit(d)) =~= seq![Tok::Ident(n)] + digits(acc.push(d)));
                lemma_ev_args(f, n, xs, k + 1, acc.push(d), args, st);
            },
            Arx::Call(n2, xs2) => {
                assert(render(xs[k]).len() == 3 + render_all(xs2).len());
                lemma_ev_call(f, n2, xs2, args, st);
                match value(xs[k]) {
                    Ok(r) => {
                        assert(r == seq![Tok::Digit(r[0]->Digit_0)]);
                        assert(ret + r =~= seq![Tok::Ident(n)] + digits(acc.push(r[0]->Digit_0)));
                        lemma_ev_args(f, n, xs, k + 1, acc.push(r[0]->Digit_0), args, st);
                    },
                    Err(er) => {},
                }
            },
        }
    }
}

/// Evaluating an integer expression (literals and calls of integer
/// operators, nested to any depth) leaves the state as it was, and its
/// result is the expression's value whatever the state and the arguments;
/// so evaluating it again gives the same result.
pub proof fn law_arithmetic_is_pure(fuel: nat, e: Arx, args: Seq<Tok>, st: St)
    requires
        is_arith(e),
        fuel > render(e).len(),
    ensures
        ev(fuel, render(e), true, args, st) == (st, value(e)),
        ev(fuel, render(e), true, args, ev(fuel, render(e), true, args, st).0) == ev(fuel, render(e), true, args, st),
{
    let f = (fuel - 1) as nat;
    lemma_scan_top(e, Seq::empty());
    lemma_items_scan(render(e), 0, 0, Seq::empty(), Seq::empty());
    assert(render(e).subrange(0, render(e).len() as int) =~= render(e));
    assert(Seq::<Item>::empty().push(item_of(e)) =~= seq![item_of(e)]);
    let its = items(render(e));
    assert(its == seq![item_of(e)]);
    match e {
        Arx::Lit(d) => {
            assert(Seq::<Tok>::empty().push(Tok::Digit(d)) =~= seq![Tok::Digit(d)]);
            assert(its[0] == Item::Bare(Tok::Digit(d)));
            assert(ev_items(f, its, 1, true, args, seq![Tok::Digit(d)], st) == (st, value(e)));
            assert(ev_items(f, its, 0, true, args, Seq::empty(), st) == (st, value(e)));
        },
        Arx::Call(n, xs) => {
            lemma_ev_call(f, n, xs, args, st);
            match value(e) {
                Ok(v) => {
                    assert(ev_items(f, its, 1, true, args, v, st) == (st, Ok::<Seq<Tok>, Fault>(v)));
                },
                Err(er) => {},
            }
            assert(ev_items(f, its, 0, true, args, Seq::empty(), st) == (st, value(e)));
        },
    }
}

} // verus!
