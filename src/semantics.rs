//! The meaning of a program: evaluation as spec functions over token
//! sequences and an interpreter state.
use vstd::prelude::*;
use crate::arith::{compare_spec, fold_spec, not_spec, range_spec, Arith};
use crate::fault::Fault;
use crate::lexer::lex;
use crate::lists::{eq_spec, flag, ident_name_spec, index_spec, kind_test_spec, one_digit};
use crate::texts::{as_char_spec, as_int_spec, as_str_spec, bytes_spec, chars_spec, collect_spec, conv_spec, Conv};
use crate::token::{decimal, Tok, TokenKind};

verus! {

/// A name table: functions or variables, each name with its tokens, in the
/// order of first definition.
pub type Tbl = Seq<(Seq<char>, Seq<Tok>)>;

/// The index of the entry for `name`, from index `i` on.
pub open spec fn find_from(t: Tbl, name: Seq<char>, i: int) -> Option<int>
    decreases t.len() - i,
{
    if i < 0 || i >= t.len() {
        None
    } else if t[i].0 == name {
        Some(i)
    } else {
        find_from(t, name, i + 1)
    }
}

/// A found entry is in the table and has the name looked for.
pub proof fn lemma_find_from(t: Tbl, name: Seq<char>, i: int)
    ensures
        match find_from(t, name, i) {
            Some(j) => 0 <= i <= j < t.len() && t[j].0 == name,
            None => true,
        },
    decreases t.len() - i,
{
    if 0 <= i < t.len() && t[i].0 != name {
        lemma_find_from(t, name, i + 1);
    }
}

/// The index of the entry for `name`.
pub open spec fn find(t: Tbl, name: Seq<char>) -> Option<int> {
    find_from(t, name, 0)
}

/// The tokens stored under `name`.
pub open spec fn get(t: Tbl, name: Seq<char>) -> Option<Seq<Tok>> {
    match find(t, name) {
        Some(i) => Some(t[i].1),
        None => None,
    }
}

/// The table with `name` bound to `v`, replacing an earlier binding.
pub open spec fn put(t: Tbl, name: Seq<char>, v: Seq<Tok>) -> Tbl {
    match find(t, name) {
        Some(i) => t.update(i, (name, v)),
        None => t.push((name, v)),
    }
}

/// A request for outside input or output, as the interpreter sees it.
pub enum Req {
    /// read one line of standard input (its prompt is already in the output)
    ReadLine,
    ReadFile(Seq<char>),
    WriteFile(Seq<char>, Seq<char>),
    GetEnv(Seq<char>),
    /// read the library file of the given name
    Library(Seq<char>),
}

/// The reply to a request.
pub enum Ans {
    Text(Seq<char>),
    Done,
    Failed,
}

/// The state of a run: the two tables, the counter for lambda names, the
/// replies that outside work has given so far and how many are used, the
/// text printed, and the request that the run waits on, if any.
pub struct St {
    pub funcs: Tbl,
    pub vars: Tbl,
    pub lambdas: u64,
    pub replies: Seq<Ans>,
    pub next: nat,
    pub out: Seq<Seq<char>>,
    pub pending: Option<Req>,
}

/// A fresh state, with the given replies.
pub open spec fn fresh(replies: Seq<Ans>) -> St {
    St {
        funcs: Seq::empty(),
        vars: Seq::empty(),
        lambdas: 0,
        replies,
        next: 0,
        out: Seq::empty(),
        pending: None,
    }
}

/// Takes the next reply; where none is left, records the request instead.
pub open spec fn ask(st: St, q: Req) -> (St, Option<Ans>) {
    if st.next < st.replies.len() {
        (St { next: st.next + 1, ..st }, Some(st.replies[st.next as int]))
    } else {
        (St { pending: Some(q), ..st }, None)
    }
}

/// A part of a sequence at one nesting level: a parenthesised group (its
/// contents) or a bare token.
pub enum Item {
    Group(Seq<Tok>),
    Bare(Tok),
}

/// The items of `toks` from index `i` on; `deep` groups are open, `cur`
/// holds the contents read so far of the outermost one.
pub open spec fn items_from(toks: Seq<Tok>, i: int, deep: nat, cur: Seq<Tok>, acc: Seq<Item>) -> Seq<Item>
    decreases toks.len() - i,
{
    if i < 0 || i >= toks.len() {
        acc
    } else {
        let t = toks[i];
        if deep > 0 {
            let d: nat = if t == Tok::CPair {
                (deep - 1) as nat
            } else if t == Tok::OPair {
                deep + 1
            } else {
                deep
            };
            if d == 0 {
                items_from(toks, i + 1, 0, Seq::empty(), acc.push(Item::Group(cur)))
            } else {
                items_from(toks, i + 1, d, cur.push(t), acc)
            }
        } else if t == Tok::OPair {
            items_from(toks, i + 1, 1, cur, acc)
        } else {
            items_from(toks, i + 1, 0, cur, acc.push(Item::Bare(t)))
        }
    }
}

/// The items at the outer level of a sequence; a group left open at the end
/// is dropped.
pub open spec fn items(toks: Seq<Tok>) -> Seq<Item> {
    items_from(toks, 0, 0, Seq::empty(), Seq::empty())
}

/// An item as an argument slot of a special form.
pub open spec fn slot(it: Item) -> Seq<Tok> {
    match it {
        Item::Group(c) => c,
        Item::Bare(t) => seq![t],
    }
}

/// The argument slots of a special form, after its head.
pub open spec fn form_slots(toks: Seq<Tok>) -> Seq<Seq<Tok>> {
    let its = items(toks);
    Seq::new(
        if its.len() > 0 {
            (its.len() - 1) as nat
        } else {
            0
        },
        |k: int| slot(its[k + 1]),
    )
}

/// The special forms.
#[derive(Debug, Clone, Copy, PartialEq, Eq, Structural)]
pub enum Form {
    If,
    Let,
    Bind,
    Each,
    Case,
    Mut,
    Assign,
    While,
    Lambda,
    Cond,
}

/// The special form a name stands for.
pub open spec fn form_named(n: Seq<char>) -> Option<Form> {
    if n == "if"@ {
        Some(Form::If)
    } else if n == "let"@ {
        Some(Form::Let)
    } else if n == "bind"@ {
        Some(Form::Bind)
    } else if n == "each"@ {
        Some(Form::Each)
    } else if n == "case"@ {
        Some(Form::Case)
    } else if n == "mut"@ {
        Some(Form::Mut)
    } else if n == "set"@ {
        Some(Form::Assign)
    } else if n == "while"@ {
        Some(Form::While)
    } else if n == "lambda"@ {
        Some(Form::Lambda)
    } else if n == "cond"@ {
        Some(Form::Cond)
    } else {
        None
    }
}

/// The builtin operations.
#[derive(Debug, Clone, Copy, PartialEq, Eq, Structural)]
pub enum Builtin {
    AsInt,
    AsStr,
    AsChar,
    GetEnv,
    Input,
    FileRead,
    FileWrite,
    IsInt,
    IsStr,
    IsIdent,
    IdentName,
    IdentAddr,
    Bytes,
    Chars,
    StrCollect,
    IsMut,
    IsDef,
    IsUndef,
    Int,
    Str,
    Len,
    Nth,
    Rm,
    Eq,
    Pr,
    Gt,
    Lt,
    Fold(Arith),
    Not,
    Range,
    Load,
    Library,
    Eval,
    Args,
    Deref,
    Arg,
}

/// The name under which a library file is loaded.
pub open spec fn library_word() -> Seq<char> {
    seq!['i', 'n', 'c', 'l', 'u', 'd', 'e']
}

/// The builtin a name stands for.
pub open spec fn builtin_named(n: Seq<char>) -> Option<Builtin> {
    if n == "as-int"@ {
        Some(Builtin::AsInt)
    } else if n == "as-str"@ {
        Some(Builtin::AsStr)
    } else if n == "as-char"@ {
        Some(Builtin::AsChar)
    } else if n == "get-env"@ {
        Some(Builtin::GetEnv)
    } else if n == "input"@ {
        Some(Builtin::Input)
    } else if n == "file-read"@ {
        Some(Builtin::FileRead)
    } else if n == "file-write"@ {
        Some(Builtin::FileWrite)
    } else if n == "int?"@ {
        Some(Builtin::IsInt)
    } else if n == "str?"@ {
        Some(Builtin::IsStr)
    } else if n == "ident?"@ {
        Some(Builtin::IsIdent)
    } else if n == "ident-name"@ {
        Some(Builtin::IdentName)
    } else if n == "ident-addr"@ {
        Some(Builtin::IdentAddr)
    } else if n == "bytes"@ {
        Some(Builtin::Bytes)
    } else if n == "chars"@ {
        Some(Builtin::Chars)
    } else if n == "str-collect"@ {
        Some(Builtin::StrCollect)
    } else if n == "mut?"@ {
        Some(Builtin::IsMut)
    } else if n == "def?"@ {
        Some(Builtin::IsDef)
    } else if n == "undef?"@ {
        Some(Builtin::IsUndef)
    } else if n == "int"@ {
        Some(Builtin::Int)
    } else if n == "str"@ {
        Some(Builtin::Str)
    } else if n == "len"@ {
        Some(Builtin::Len)
    } else if n == "nth"@ {
        Some(Builtin::Nth)
    } else if n == "rm"@ {
        Some(Builtin::Rm)
    } else if n == "="@ {
        Some(Builtin::Eq)
    } else if n == "pr"@ {
        Some(Builtin::Pr)
    } else if n == ">"@ {
        Some(Builtin::Gt)
    } else if n == "<"@ {
        Some(Builtin::Lt)
    } else if n == "+"@ {
        Some(Builtin::Fold(Arith::Add))
    } else if n == "-"@ {
        Some(Builtin::Fold(Arith::Sub))
    } else if n == "*"@ {
        Some(Builtin::Fold(Arith::Mul))
    } else if n == "/"@ {
        Some(Builtin::Fold(Arith::Div))
    } else if n == "&"@ || n == "bit-and"@ {
        Some(Builtin::Fold(Arith::And))
    } else if n == "|"@ || n == "bit-or"@ {
        Some(Builtin::Fold(Arith::Or))
    } else if n == "^"@ || n == "bit-xor"@ {
        Some(Builtin::Fold(Arith::Xor))
    } else if n == ">>"@ || n == "bit-rshift"@ {
        Some(Builtin::Fold(Arith::Shr))
    } else if n == "<<"@ || n == "bit-lshift"@ {
        Some(Builtin::Fold(Arith::Shl))
    } else if n == "~"@ || n == "bit-not"@ {
        Some(Builtin::Not)
    } else if n == "range"@ || n == ".."@ {
        Some(Builtin::Range)
    } else if n == "load"@ {
        Some(Builtin::Load)
    } else if n == library_word() {
        Some(Builtin::Library)
    } else if n == "eval"@ {
        Some(Builtin::Eval)
    } else if n == "%%"@ || n == "args"@ {
        Some(Builtin::Args)
    } else if n == "!"@ || n == "deref"@ {
        Some(Builtin::Deref)
    } else if n == "%"@ || n == "arg"@ {
        Some(Builtin::Arg)
    } else {
        None
    }
}

/// The builtins that read nothing but their arguments.
pub open spec fn pure_builtin(b: Builtin, rest: Seq<Tok>) -> Option<Result<Seq<Tok>, Fault>> {
    match b {
        Builtin::AsInt => Some(as_int_spec(rest)),
        Builtin::AsStr => Some(as_str_spec(rest)),
        Builtin::AsChar => Some(as_char_spec(rest)),
        Builtin::IsInt => Some(kind_test_spec(TokenKind::Digit, rest)),
        Builtin::IsStr => Some(kind_test_spec(TokenKind::Str, rest)),
        Builtin::IsIdent => Some(kind_test_spec(TokenKind::Ident, rest)),
        Builtin::IdentName => Some(ident_name_spec(rest)),
        Builtin::Bytes => Some(bytes_spec(rest)),
        Builtin::Chars => Some(chars_spec(rest)),
        Builtin::StrCollect => Some(collect_spec(rest)),
        Builtin::Int => Some(conv_spec(Conv::ToInt, rest)),
        Builtin::Str => Some(conv_spec(Conv::ToStr, rest)),
        Builtin::Len => Some(Ok(one_digit(rest.len() as u128))),
        Builtin::Nth => Some(index_spec(false, rest)),
        Builtin::Rm => Some(index_spec(true, rest)),
        Builtin::Eq => Some(eq_spec(rest)),
        Builtin::Gt => Some(compare_spec(false, rest)),
        Builtin::Lt => Some(compare_spec(true, rest)),
        Builtin::Fold(op) => Some(fold_spec(op, rest)),
        Builtin::Not => Some(not_spec(rest)),
        Builtin::Range => Some(range_spec(rest)),
        _ => None,
    }
}

/// `%` from index `i` on: each integer picks that argument of the call.
pub open spec fn arg_from(rest: Seq<Tok>, args: Seq<Tok>, i: int, acc: Seq<Tok>) -> Result<Seq<Tok>, Fault>
    decreases rest.len() - i,
{
    if i < 0 || i >= rest.len() {
        Ok(acc)
    } else {
        match rest[i] {
            Tok::Digit(d) => if d as int >= args.len() {
                Err(Fault::Index)
            } else {
                arg_from(rest, args, i + 1, acc.push(args[d as int]))
            },
            _ => Err(Fault::Type),
        }
    }
}

/// `%`: one or more positional arguments of the current call.
pub open spec fn arg_spec(rest: Seq<Tok>, args: Seq<Tok>) -> Result<Seq<Tok>, Fault> {
    if rest.len() == 0 {
        Err(Fault::Arity)
    } else {
        arg_from(rest, args, 0, Seq::empty())
    }
}

/// `pr` from index `i` on: texts as they are and integers in decimal,
/// separated by single spaces.
pub open spec fn pr_from(rest: Seq<Tok>, i: int, acc: Seq<char>) -> Result<Seq<char>, Fault>
    decreases rest.len() - i,
{
    if i < 0 || i >= rest.len() {
        Ok(acc)
    } else {
        let sep = if i > 0 {
            acc.push(' ')
        } else {
            acc
        };
        match rest[i] {
            Tok::Str(s) => pr_from(rest, i + 1, sep + s),
            Tok::Digit(d) => pr_from(rest, i + 1, sep + decimal(d)),
            _ => Err(Fault::Type),
        }
    }
}

/// The name that a table gives an entry for `ident-addr`: the table's
/// letter and the entry's index, or `0x0` for a name in neither table.
pub open spec fn addr_of(st: St, n: Seq<char>) -> Seq<char> {
    match find(st.funcs, n) {
        Some(i) => "f"@ + decimal(i as u128),
        None => match find(st.vars, n) {
            Some(i) => "v"@ + decimal(i as u128),
            None => "0x0"@,
        },
    }
}

/// `input` from index `i` on: each text is printed as a prompt, then one
/// line is read.
pub open spec fn input_from(rest: Seq<Tok>, i: int, acc: Seq<Tok>, st: St) -> (St, Result<Seq<Tok>, Fault>)
    decreases rest.len() - i,
{
    if i < 0 || i >= rest.len() {
        (st, Ok(acc))
    } else {
        match rest[i] {
            Tok::Str(p) => {
                let st1 = St { out: st.out.push(p), ..st };
                let (st2, a) = ask(st1, Req::ReadLine);
                match a {
                    None => (st2, Err(Fault::Pending)),
                    Some(Ans::Text(line)) => input_from(rest, i + 1, acc.push(Tok::Str(line)), st2),
                    Some(_) => (st2, Err(Fault::Io)),
                }
            },
            _ => (st, Err(Fault::Type)),
        }
    }
}

/// `file-read` from index `i` on: the contents of each named file.
pub open spec fn read_from(rest: Seq<Tok>, i: int, acc: Seq<Tok>, st: St) -> (St, Result<Seq<Tok>, Fault>)
    decreases rest.len() - i,
{
    if i < 0 || i >= rest.len() {
        (st, Ok(acc))
    } else {
        match rest[i] {
            Tok::Str(p) => {
                let (st1, a) = ask(st, Req::ReadFile(p));
                match a {
                    None => (st1, Err(Fault::Pending)),
                    Some(Ans::Text(c)) => read_from(rest, i + 1, acc.push(Tok::Str(c)), st1),
                    Some(_) => (st1, Err(Fault::Io)),
                }
            },
            _ => (st, Err(Fault::Type)),
        }
    }
}

/// The builtins that read or change the state but evaluate nothing.
pub open spec fn state_builtin(b: Builtin, rest: Seq<Tok>, args: Seq<Tok>, st: St) -> (St, Result<Seq<Tok>, Fault>) {
    match b {
        Builtin::Args => (st, Ok(args)),
        Builtin::Arg => (st, arg_spec(rest, args)),
        Builtin::Deref => if rest.len() != 1 {
            (st, Err(Fault::Arity))
        } else {
            match rest[0] {
                Tok::Ident(n) => match get(st.vars, n) {
                    Some(v) => (st, Ok(v)),
                    None => (st, Err(Fault::UnknownIdent)),
                },
                _ => (st, Err(Fault::Type)),
            }
        },
        Builtin::IsMut | Builtin::IsDef | Builtin::IsUndef => if rest.len() != 1 {
            (st, Err(Fault::Arity))
        } else {
            match rest[0] {
                Tok::Ident(n) => (
                    st,
                    Ok(
                        flag(
                            if b == Builtin::IsMut {
                                get(st.vars, n) is Some
                            } else if b == Builtin::IsDef {
                                get(st.funcs, n) is Some
                            } else {
                                get(st.funcs, n) is None
                            },
                        ),
                    ),
                ),
                _ => (st, Err(Fault::Type)),
            }
        },
        Builtin::IdentAddr => if rest.len() != 1 {
            (st, Err(Fault::Arity))
        } else {
            match rest[0] {
                Tok::Ident(n) => (st, Ok(seq![Tok::Str(addr_of(st, n))])),
                _ => (st, Err(Fault::Type)),
            }
        },
        Builtin::Pr => match pr_from(rest, 0, Seq::empty()) {
            Ok(text) => (St { out: st.out.push(text), ..st }, Ok(Seq::empty())),
            Err(e) => (st, Err(e)),
        },
        Builtin::Input => if rest.len() == 0 {
            (st, Err(Fault::Arity))
        } else {
            input_from(rest, 0, Seq::empty(), st)
        },
        Builtin::FileRead => if rest.len() == 0 {
            (st, Err(Fault::Arity))
        } else {
            read_from(rest, 0, Seq::empty(), st)
        },
        Builtin::FileWrite => if rest.len() != 2 {
            (st, Err(Fault::Arity))
        } else if !(rest[0] is Str) || !(rest[1] is Str) {
            (st, Err(Fault::Type))
        } else {
            let (st1, a) = ask(st, Req::WriteFile(rest[0]->Str_0, rest[1]->Str_0));
            match a {
                None => (st1, Err(Fault::Pending)),
                Some(Ans::Done) => (st1, Ok(one_digit(1))),
                Some(_) => (st1, Err(Fault::Io)),
            }
        },
        Builtin::GetEnv => if rest.len() != 1 {
            (st, Err(Fault::Arity))
        } else {
            match rest[0] {
                Tok::Str(n) => {
                    let (st1, a) = ask(st, Req::GetEnv(n));
                    match a {
                        None => (st1, Err(Fault::Pending)),
                        Some(Ans::Text(v)) => (st1, Ok(seq![Tok::Str(v)])),
                        Some(_) => (st1, Ok(seq![Tok::Str(Seq::empty())])),
                    }
                },
                _ => (st, Err(Fault::Type)),
            }
        },
        _ => (st, Err(Fault::UnknownIdent)),
    }
}

/// Every occurrence of `name` in `code` replaced by the tokens `repl`.
pub open spec fn subst(code: Seq<Tok>, name: Tok, repl: Seq<Tok>) -> Seq<Tok>
    decreases code.len(),
{
    if code.len() == 0 {
        Seq::empty()
    } else {
        subst(code.drop_last(), name, repl) + if code.last() == name {
            repl
        } else {
            seq![code.last()]
        }
    }
}

/// `(% j)`: the expression for the parameter at index `j`.
pub open spec fn arg_expr(j: nat) -> Seq<Tok> {
    seq![Tok::OPair, Tok::Ident("%"@), Tok::Digit(j as u128), Tok::CPair]
}

/// `n` copies of a sequence.
pub open spec fn repeat(s: Seq<Tok>, n: nat) -> Seq<Tok>
    decreases n,
{
    if n == 0 {
        Seq::empty()
    } else {
        repeat(s, (n - 1) as nat) + s
    }
}

/// The expression for a rest parameter after `n` positional ones: the
/// arguments with the first `n` removed.
pub open spec fn rest_expr(n: nat) -> Seq<Tok> {
    repeat(seq![Tok::OPair, Tok::Ident("rm"@), Tok::Digit(0)], n) + seq![
        Tok::OPair,
        Tok::Ident("%%"@),
        Tok::CPair,
    ] + repeat(seq![Tok::CPair], n)
}

/// The body with the parameters below index `j` replaced, the last first.
pub open spec fn bind_params(code: Seq<Tok>, params: Seq<Seq<Tok>>, j: nat) -> Seq<Tok>
    decreases j,
{
    if j == 0 || j > params.len() {
        code
    } else {
        bind_params(subst(code, params[j - 1][0], arg_expr((j - 1) as nat)), params, (j - 1) as nat)
    }
}

/// Whether a slot starts with an identifier.
pub open spec fn names_ident(s: Seq<Tok>) -> bool {
    s.len() > 0 && s[0] is Ident
}

/// `let`: the body that `(let name p1 .. pn rest body)` stores, or the
/// fault it raises; `slots` are the slots after the head.
pub open spec fn let_body(slots: Seq<Seq<Tok>>) -> Result<Seq<Tok>, Fault> {
    let code = slots.last();
    if slots.len() == 2 {
        Ok(code)
    } else {
        let rest_slot = slots[slots.len() - 2];
        let params = slots.subrange(1, slots.len() - 2);
        if !names_ident(rest_slot) {
            Err(Fault::Type)
        } else if exists|k: int| 0 <= k < params.len() && !names_ident(#[trigger] params[k]) {
            Err(Fault::Type)
        } else {
            Ok(
                bind_params(
                    subst(code, rest_slot[0], rest_expr(params.len())),
                    params,
                    params.len(),
                ),
            )
        }
    }
}

/// The generated name of the lambda with number `n`.
pub open spec fn lambda_name(n: u64) -> Seq<char> {
    decimal(n as u128) + "l"@
}

/// The result of a step that may fail, with the state it leaves.
pub type Step = (St, Result<Seq<Tok>, Fault>);

/// Evaluation of `toks` with budget `fuel`; `top` is set for a whole
/// program or file (depth zero), where groups are evaluated but no call is
/// made; `args` is the argument list of the current call.
pub open spec fn ev(fuel: nat, toks: Seq<Tok>, top: bool, args: Seq<Tok>, st: St) -> Step
    decreases fuel, 0nat, 0nat,
{
    if fuel == 0 {
        (st, Err(Fault::Exhausted))
    } else {
        let f = (fuel - 1) as nat;
        let head = if toks.len() > 0 && toks[0] is Ident {
            form_named(toks[0]->Ident_0)
        } else {
            None
        };
        if !top && head is Some {
            match head.unwrap() {
                Form::Lambda => if st.lambdas == u64::MAX {
                    (st, Err(Fault::Exhausted))
                } else {
                    let name = lambda_name(st.lambdas);
                    let st1 = St { lambdas: (st.lambdas + 1) as u64, ..st };
                    let code = seq![Tok::Ident("let"@), Tok::Ident(name)] + toks.drop_first();
                    let (st2, r) = ev(f, code, false, args, st1);
                    match r {
                        Ok(_) => (st2, Ok(seq![Tok::Ident(name)])),
                        Err(e) => (st2, Err(e)),
                    }
                },
                Form::Cond => ev(f, seq![Tok::Ident("case"@), Tok::Digit(1)] + toks.drop_first(), false, args, st),
                _ => form(f, head.unwrap(), form_slots(toks), args, st),
            }
        } else {
            let (st1, r) = ev_items(f, items(toks), 0, top, args, Seq::empty(), st);
            match r {
                Err(e) => (st1, Err(e)),
                Ok(ret) => if !top && ret.len() > 0 {
                    apply(f, ret[0], ret.drop_first(), args, st1)
                } else {
                    (st1, Ok(ret))
                },
            }
        }
    }
}

/// The items from index `k` on, in order: a bare token is kept, a group is
/// evaluated and its result spliced in (at the top, it replaces what came
/// before).
pub open spec fn ev_items(f: nat, its: Seq<Item>, k: int, top: bool, args: Seq<Tok>, ret: Seq<Tok>, st: St) -> Step
    decreases f, 1nat, its.len() - k,
{
    if k < 0 || k >= its.len() {
        (st, Ok(ret))
    } else {
        match its[k] {
            Item::Bare(t) => ev_items(f, its, k + 1, top, args, ret.push(t), st),
            Item::Group(c) => {
                let (st1, r) = ev(f, c, false, args, st);
                match r {
                    Err(e) => (st1, Err(e)),
                    Ok(v) => ev_items(f, its, k + 1, top, args, if top { v } else { ret + v }, st1),
                }
            },
        }
    }
}

/// A call: `head` applied to the evaluated arguments `rest`.
pub open spec fn apply(f: nat, head: Tok, rest: Seq<Tok>, args: Seq<Tok>, st: St) -> Step
    decreases f, 3nat, 0nat,
{
    match head {
        Tok::Str(_) => (st, Ok(seq![head] + rest)),
        Tok::Digit(_) => (st, Ok(seq![head] + rest)),
        Tok::Ident(n) => match builtin_named(n) {
            Some(b) => builtin(f, b, rest, args, st),
            None => match get(st.funcs, n) {
                Some(body) => ev(f, body, false, rest, st),
                None => (st, Err(Fault::UnknownIdent)),
            },
        },
        _ => (st, Err(Fault::NotCallable)),
    }
}

/// A builtin applied to the evaluated arguments `rest`.
pub open spec fn builtin(f: nat, b: Builtin, rest: Seq<Tok>, args: Seq<Tok>, st: St) -> Step
    decreases f, 2nat, 0nat,
{
    match pure_builtin(b, rest) {
        Some(r) => (st, r),
        None => match b {
            Builtin::Load => if rest.len() == 0 {
                (st, Err(Fault::Arity))
            } else {
                match rest[0] {
                    Tok::Str(p) => {
                        let (st1, a) = ask(st, Req::ReadFile(p));
                        match a {
                            None => (st1, Err(Fault::Pending)),
                            Some(Ans::Text(src)) => ev(f, lex(src), true, rest.drop_first(), st1),
                            Some(_) => (st1, Err(Fault::Io)),
                        }
                    },
                    _ => (st, Err(Fault::Type)),
                }
            },
            Builtin::Eval => if rest.len() == 0 {
                (st, Err(Fault::Arity))
            } else {
                match rest[0] {
                    Tok::Str(s) => ev(f, lex(s), true, rest.drop_first(), st),
                    _ => (st, Err(Fault::Type)),
                }
            },
            Builtin::Library => if rest.len() == 0 {
                (st, Err(Fault::Arity))
            } else {
                library_from(f, rest, 0, st)
            },
            _ => state_builtin(b, rest, args, st),
        },
    }
}

/// Loads the library files named from index `i` on, in order, for their
/// effects on the state.
pub open spec fn library_from(f: nat, rest: Seq<Tok>, i: int, st: St) -> Step
    decreases f, 1nat, rest.len() - i,
{
    if i < 0 || i >= rest.len() {
        (st, Ok(Seq::empty()))
    } else {
        let name = match rest[i] {
            Tok::Str(s) => Some(s),
            Tok::Ident(s) => Some(s),
            _ => None,
        };
        match name {
            None => (st, Err(Fault::Type)),
            Some(s) => {
                let (st1, a) = ask(st, Req::Library(s));
                match a {
                    None => (st1, Err(Fault::Pending)),
                    Some(Ans::Text(src)) => {
                        let (st2, r) = ev(f, lex(src), true, Seq::empty(), st1);
                        match r {
                            Err(e) => (st2, Err(e)),
                            Ok(_) => library_from(f, rest, i + 1, st2),
                        }
                    },
                    Some(_) => (st1, Err(Fault::Io)),
                }
            },
        }
    }
}

/// A special form applied to its unevaluated slots (the head excluded).
pub open spec fn form(f: nat, which: Form, s: Seq<Seq<Tok>>, args: Seq<Tok>, st: St) -> Step
    decreases f, 2nat, 0nat,
{
    match which {
        Form::While => if s.len() != 2 {
            (st, Err(Fault::Arity))
        } else {
            while_loop(f, s[0], s[1], args, Seq::empty(), st)
        },
        Form::Assign | Form::Mut => if s.len() != 2 {
            (st, Err(Fault::Arity))
        } else {
            let (st1, r) = ev(f, s[1], false, args, st);
            match r {
                Err(e) => (st1, Err(e)),
                Ok(v) => if !names_ident(s[0]) {
                    (st1, Err(Fault::Type))
                } else {
                    let n = s[0][0]->Ident_0;
                    if which == Form::Assign && get(st1.vars, n) is None {
                        (st1, Err(Fault::UnknownIdent))
                    } else if which == Form::Mut && get(st1.vars, n) is Some {
                        (st1, Err(Fault::Redefinition))
                    } else {
                        (St { vars: put(st1.vars, n, v), ..st1 }, Ok(Seq::empty()))
                    }
                },
            }
        },
        Form::Case => if s.len() < 3 {
            (st, Err(Fault::Arity))
        } else {
            let (st1, r) = ev(f, s[0], false, args, st);
            match r {
                Err(e) => (st1, Err(e)),
                Ok(val) => case_loop(f, s, 1, val, args, st1),
            }
        },
        Form::If => if s.len() < 2 || s.len() > 3 {
            (st, Err(Fault::Arity))
        } else {
            let (st1, r) = ev(f, s[0], false, args, st);
            match r {
                Err(e) => (st1, Err(e)),
                Ok(c) => if c.len() > 0 && c[0] == Tok::Digit(1) {
                    ev(f, s[1], false, args, st1)
                } else if c.len() > 0 && c[0] == Tok::Digit(0) {
                    if s.len() == 3 {
                        ev(f, s[2], false, args, st1)
                    } else {
                        (st1, Ok(Seq::empty()))
                    }
                } else {
                    (st1, Err(Fault::Value))
                },
            }
        },
        Form::Each => if s.len() != 3 {
            (st, Err(Fault::Arity))
        } else {
            let (st1, r) = ev(f, s[1], false, args, st);
            match r {
                Err(e) => (st1, Err(e)),
                Ok(arr) => if !names_ident(s[0]) {
                    (st1, Err(Fault::Type))
                } else {
                    each_loop(f, arr, 0, s[0][0], s[2], args, Seq::empty(), st1)
                },
            }
        },
        Form::Bind => if s.len() != 3 {
            (st, Err(Fault::Arity))
        } else {
            let (st1, r) = ev(f, s[1], false, args, st);
            match r {
                Err(e) => (st1, Err(e)),
                Ok(val) => if !names_ident(s[0]) {
                    (st1, Err(Fault::Type))
                } else {
                    ev(f, subst(s[2], s[0][0], val), false, args, st1)
                },
            }
        },
        Form::Let => if s.len() < 2 {
            (st, Err(Fault::Arity))
        } else if !names_ident(s[0]) {
            (st, Err(Fault::Type))
        } else if get(st.funcs, s[0][0]->Ident_0) is Some {
            (st, Err(Fault::Redefinition))
        } else {
            match let_body(s) {
                Ok(body) => (St { funcs: put(st.funcs, s[0][0]->Ident_0, body), ..st }, Ok(Seq::empty())),
                Err(e) => (st, Err(e)),
            }
        },
        _ => (st, Err(Fault::Arity)),
    }
}

/// `while`: evaluates `cond`; on `1` evaluates `code` and goes on, on `0`
/// stops with all results of `code` so far.
pub open spec fn while_loop(f: nat, cond: Seq<Tok>, code: Seq<Tok>, args: Seq<Tok>, acc: Seq<Tok>, st: St) -> Step
    decreases f, 1nat, 0nat,
{
    if f == 0 {
        (st, Err(Fault::Exhausted))
    } else {
        let (st1, r) = ev(f, cond, false, args, st);
        match r {
            Err(e) => (st1, Err(e)),
            Ok(c) => if c.len() > 0 && c[0] == Tok::Digit(0) {
                (st1, Ok(acc))
            } else if c.len() > 0 && c[0] == Tok::Digit(1) {
                let (st2, r2) = ev(f, code, false, args, st1);
                match r2 {
                    Err(e) => (st2, Err(e)),
                    Ok(w) => while_loop((f - 1) as nat, cond, code, args, acc + w, st2),
                }
            } else {
                (st1, Err(Fault::Type))
            },
        }
    }
}

/// `each`: `code` with `name` replaced by each element of `arr` from index
/// `k` on, evaluated in order, the results joined.
pub open spec fn each_loop(
    f: nat,
    arr: Seq<Tok>,
    k: int,
    name: Tok,
    code: Seq<Tok>,
    args: Seq<Tok>,
    acc: Seq<Tok>,
    st: St,
) -> Step
    decreases f, 1nat, arr.len() - k,
{
    if k < 0 || k >= arr.len() {
        (st, Ok(acc))
    } else {
        let (st1, r) = ev(f, subst(code, name, seq![arr[k]]), false, args, st);
        match r {
            Err(e) => (st1, Err(e)),
            Ok(v) => each_loop(f, arr, k + 1, name, code, args, acc + v, st1),
        }
    }
}

/// `case`: from slot `k` on, pairs of pattern and body; the first pattern
/// equal to `val` selects its body, a last unpaired slot is the default.
pub open spec fn case_loop(f: nat, s: Seq<Seq<Tok>>, k: int, val: Seq<Tok>, args: Seq<Tok>, st: St) -> Step
    decreases f, 1nat, s.len() - k,
{
    if k < 0 || k >= s.len() {
        (st, Ok(Seq::empty()))
    } else if k + 1 == s.len() {
        ev(f, s[k], false, args, st)
    } else {
        let (st1, r) = ev(f, s[k], false, args, st);
        match r {
            Err(e) => (st1, Err(e)),
            Ok(v) => if v == val {
                ev(f, s[k + 1], false, args, st1)
            } else {
                case_loop(f, s, k + 2, val, args, st1)
            },
        }
    }
}

} // verus!
