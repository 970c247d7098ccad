//! The evaluator: runs token sequences against an interpreter state.
use vstd::prelude::*;
use crate::arith::{bit_not, compare, fold_op, range, Arith};
use crate::fault::Fault;
use crate::lexer::tokenize;
use crate::lists::{equal, flag_vec, ident_name, index_op, kind_test, len_of, one_digit};
use crate::semantics::{
    addr_of, apply, arg_expr, arg_from, arg_spec, ask, bind_params, builtin, builtin_named, case_loop,
    each_loop, ev, ev_items, form, form_named, fresh, get, input_from, items, items_from,
    lambda_name, let_body, library_from, library_word, names_ident, pr_from, pure_builtin, put,
    read_from, repeat, rest_expr, form_slots, slot, state_builtin, subst, while_loop, Ans, Builtin,
    Form, Item, Req, St,
};
use crate::table::Table;
use crate::text::same_text;
use crate::texts::{as_char, as_int, as_str, collect, convert, split_chars, text_bytes, Conv};
use crate::token::{decimal_string, dup_tokens, lemma_push_tok, push_decimal, res, tv, Tok, Token, TokenKind};

verus! {

/// Outside work that a run waits for.
#[derive(Debug, Clone, PartialEq, Eq)]
pub enum Request {
    /// read one line of standard input; its prompt is the last output
    ReadLine,
    /// read the file at the given path
    ReadFile(String),
    /// write the text to the file at the given path
    WriteFile(String, String),
    /// read the environment variable of the given name
    GetEnv(String),
    /// read the library file of the given name
    Library(String),
}

impl View for Request {
    type V = Req;

    open spec fn view(&self) -> Req {
        match self {
            Request::ReadLine => Req::ReadLine,
            Request::ReadFile(p) => Req::ReadFile(p@),
            Request::WriteFile(p, c) => Req::WriteFile(p@, c@),
            Request::GetEnv(n) => Req::GetEnv(n@),
            Request::Library(n) => Req::Library(n@),
        }
    }
}

/// The outcome of outside work.
#[derive(Debug, Clone, PartialEq, Eq)]
pub enum Reply {
    /// text read: a line, a file's contents, a variable's value
    Text(String),
    /// a write that succeeded
    Done,
    /// work that failed, or a variable that is not set
    Failed,
}

impl View for Reply {
    type V = Ans;

    open spec fn view(&self) -> Ans {
        match self {
            Reply::Text(s) => Ans::Text(s@),
            Reply::Done => Ans::Done,
            Reply::Failed => Ans::Failed,
        }
    }
}

impl Reply {
    /// A copy of the reply.
    pub fn dup(&self) -> (r: Reply)
        ensures
            r@ == self@,
    {
        match self {
            Reply::Text(s) => Reply::Text(s.clone()),
            Reply::Done => Reply::Done,
            Reply::Failed => Reply::Failed,
        }
    }
}

/// The values of a sequence of replies.
pub open spec fn replies_view(s: Seq<Reply>) -> Seq<Ans> {
    Seq::new(s.len(), |i: int| s[i]@)
}

/// A part of a sequence at one nesting level.
enum Piece {
    Group(Vec<Token>),
    Bare(Token),
}

impl View for Piece {
    type V = Item;

    closed spec fn view(&self) -> Item {
        match self {
            Piece::Group(v) => Item::Group(tv(v@)),
            Piece::Bare(t) => Item::Bare(t@),
        }
    }
}

spec fn pv(s: Seq<Piece>) -> Seq<Item> {
    Seq::new(s.len(), |i: int| s[i]@)
}

/// The items at the outer level of a token sequence.
fn split(toks: &Vec<Token>) -> (r: Vec<Piece>)
    ensures
        pv(r@) == items(tv(toks@)),
{
    let ghost t = tv(toks@);
    let mut acc: Vec<Piece> = Vec::new();
    let mut cur: Vec<Token> = Vec::new();
    let mut deep: usize = 0;
    let mut i: usize = 0;
    proof {
        assert(pv(acc@) =~= Seq::<Item>::empty());
        assert(tv(cur@) =~= Seq::<Tok>::empty());
    }
    while i < toks.len()
        invariant
            i <= toks.len(),
            t == tv(toks@),
            deep <= i,
            items_from(t, i as int, deep as nat, tv(cur@), pv(acc@)) == items(t),
        decreases toks.len() - i,
    {
        let tk = toks[i].dup();
        assert(t[i as int] == tk@);
        if deep > 0 {
            let is_close = match tk {
                Token::CPair => true,
                _ => false,
            };
            let is_open = match tk {
                Token::OPair => true,
                _ => false,
            };
            if is_close {
                deep = deep - 1;
            } else if is_open {
                deep = deep + 1;
            }
            if deep == 0 {
                let g = Piece::Group(cur);
                let ghost before = acc@;
                acc.push(g);
                proof {
                    assert(pv(acc@) =~= pv(before).push(g@));
                }
                cur = Vec::new();
                proof {
                    assert(tv(cur@) =~= Seq::<Tok>::empty());
                }
            } else {
                proof {
                    lemma_push_tok(cur@, tk);
                }
                cur.push(tk);
            }
        } else {
            let is_open = match tk {
                Token::OPair => true,
                _ => false,
            };
            if is_open {
                deep = 1;
            } else {
                let b = Piece::Bare(tk);
                let ghost before = acc@;
                acc.push(b);
                proof {
                    assert(pv(acc@) =~= pv(before).push(b@));
                }
            }
        }
        i = i + 1;
    }
    acc
}

/// The argument slot of an item.
fn slot_of(p: &Piece) -> (r: Vec<Token>)
    ensures
        tv(r@) == slot(p@),
{
    match p {
        Piece::Group(v) => dup_tokens(v),
        Piece::Bare(t) => {
            let r = vec![t.dup()];
            proof {
                assert(tv(r@) =~= seq![t@]);
            }
            r
        },
    }
}

spec fn sv(s: Seq<Vec<Token>>) -> Seq<Seq<Tok>> {
    Seq::new(s.len(), |i: int| tv(s[i]@))
}

proof fn lemma_push_slot(s: Seq<Vec<Token>>, v: Vec<Token>)
    ensures
        sv(s.push(v)) == sv(s).push(tv(v@)),
{
    assert(sv(s.push(v)) =~= sv(s).push(tv(v@)));
}

/// The argument slots of a special form, after its head.
fn slots_after_head(toks: &Vec<Token>) -> (r: Vec<Vec<Token>>)
    ensures
        sv(r@) == form_slots(tv(toks@)),
{
    let ps = split(toks);
    let ghost its = items(tv(toks@));
    let mut r: Vec<Vec<Token>> = Vec::new();
    let mut i: usize = 1;
    proof {
        assert(sv(r@) =~= Seq::new(0, |k: int| slot(its[k + 1])));
    }
    while i < ps.len()
        invariant
            1 <= i,
            i <= ps.len() || (ps.len() == 0 && i == 1),
            its == items(tv(toks@)),
            pv(ps@) == its,
            sv(r@) == Seq::new((i - 1) as nat, |k: int| slot(its[k + 1])),
        decreases ps.len() - i,
    {
        let v = slot_of(&ps[i]);
        let ghost before = r@;
        proof {
            lemma_push_slot(before, v);
        }
        r.push(v);
        proof {
            assert(pv(ps@)[i as int] == ps@[i as int]@);
            assert(sv(r@)[i - 1] == slot(its[i as int]));
            assert forall|k: int| 0 <= k < i implies sv(r@)[k] == slot(its[k + 1]) by {
                if k < i - 1 {
                    assert(sv(before)[k] == slot(its[k + 1]));
                }
            }
            assert(sv(r@) =~= Seq::new(i as nat, |k: int| slot(its[k + 1])));
        }
        i = i + 1;
    }
    proof {
        assert(its.len() == ps@.len());
        let fs = form_slots(tv(toks@));
        if ps@.len() > 0 {
            assert(i == ps@.len());
        }
        assert(sv(r@).len() == fs.len());
        assert forall|k: int| 0 <= k < fs.len() implies sv(r@)[k] == fs[k] by {
            assert(sv(r@)[k] == slot(its[k + 1]));
        }
        assert(sv(r@) =~= fs);
    }
    r
}

/// The special form a name stands for.
fn form_of(n: &String) -> (r: Option<Form>)
    ensures
        r == form_named(n@),
{
    let s = n.as_str();
    if same_text(s, "if") {
        Some(Form::If)
    } else if same_text(s, "let") {
        Some(Form::Let)
    } else if same_text(s, "bind") {
        Some(Form::Bind)
    } else if same_text(s, "each") {
        Some(Form::Each)
    } else if same_text(s, "case") {
        Some(Form::Case)
    } else if same_text(s, "mut") {
        Some(Form::Mut)
    } else if same_text(s, "set") {
        Some(Form::Assign)
    } else if same_text(s, "while") {
        Some(Form::While)
    } else if same_text(s, "lambda") {
        Some(Form::Lambda)
    } else if same_text(s, "cond") {
        Some(Form::Cond)
    } else {
        None
    }
}

/// The name under which a library file is loaded, as a string.
fn library_name() -> (r: String)
    ensures
        r@ == library_word(),
{
    let mut r = String::new();
    r.push('i');
    r.push('n');
    r.push('c');
    r.push('l');
    r.push('u');
    r.push('d');
    r.push('e');
    proof {
        assert(r@ =~= library_word());
    }
    r
}

/// The builtin a name stands for.
fn builtin_of(n: &String) -> (r: Option<Builtin>)
    ensures
        r == builtin_named(n@),
{
    let s = n.as_str();
    let lib = library_name();
    if same_text(s, "as-int") {
        Some(Builtin::AsInt)
    } else if same_text(s, "as-str") {
        Some(Builtin::AsStr)
    } else if same_text(s, "as-char") {
        Some(Builtin::AsChar)
    } else if same_text(s, "get-env") {
        Some(Builtin::GetEnv)
    } else if same_text(s, "input") {
        Some(Builtin::Input)
    } else if same_text(s, "file-read") {
        Some(Builtin::FileRead)
    } else if same_text(s, "file-write") {
        Some(Builtin::FileWrite)
    } else if same_text(s, "int?") {
        Some(Builtin::IsInt)
    } else if same_text(s, "str?") {
        Some(Builtin::IsStr)
    } else if same_text(s, "ident?") {
        Some(Builtin::IsIdent)
    } else if same_text(s, "ident-name") {
        Some(Builtin::IdentName)
    } else if same_text(s, "ident-addr") {
        Some(Builtin::IdentAddr)
    } else if same_text(s, "bytes") {
        Some(Builtin::Bytes)
    } else if same_text(s, "chars") {
        Some(Builtin::Chars)
    } else if same_text(s, "str-collect") {
        Some(Builtin::StrCollect)
    } else if same_text(s, "mut?") {
        Some(Builtin::IsMut)
    } else if same_text(s, "def?") {
        Some(Builtin::IsDef)
    } else if same_text(s, "undef?") {
        Some(Builtin::IsUndef)
    } else if same_text(s, "int") {
        Some(Builtin::Int)
    } else if same_text(s, "str") {
        Some(Builtin::Str)
    } else if same_text(s, "len") {
        Some(Builtin::Len)
    } else if same_text(s, "nth") {
        Some(Builtin::Nth)
    } else if same_text(s, "rm") {
        Some(Builtin::Rm)
    } else if same_text(s, "=") {
        Some(Builtin::Eq)
    } else if same_text(s, "pr") {
        Some(Builtin::Pr)
    } else if same_text(s, ">") {
        Some(Builtin::Gt)
    } else if same_text(s, "<") {
        Some(Builtin::Lt)
    } else if same_text(s, "+") {
        Some(Builtin::Fold(Arith::Add))
    } else if same_text(s, "-") {
        Some(Builtin::Fold(Arith::Sub))
    } else if same_text(s, "*") {
        Some(Builtin::Fold(Arith::Mul))
    } else if same_text(s, "/") {
        Some(Builtin::Fold(Arith::Div))
    } else if same_text(s, "&") || same_text(s, "bit-and") {
        Some(Builtin::Fold(Arith::And))
    } else if same_text(s, "|") || same_text(s, "bit-or") {
        Some(Builtin::Fold(Arith::Or))
    } else if same_text(s, "^") || same_text(s, "bit-xor") {
        Some(Builtin::Fold(Arith::Xor))
    } else if same_text(s, ">>") || same_text(s, "bit-rshift") {
        Some(Builtin::Fold(Arith::Shr))
    } else if same_text(s, "<<") || same_text(s, "bit-lshift") {
        Some(Builtin::Fold(Arith::Shl))
    } else if same_text(s, "~") || same_text(s, "bit-not") {
        Some(Builtin::Not)
    } else if same_text(s, "range") || same_text(s, "..") {
        Some(Builtin::Range)
    } else if same_text(s, "load") {
        Some(Builtin::Load)
    } else if same_text(s, lib.as_str()) {
        Some(Builtin::Library)
    } else if same_text(s, "eval") {
        Some(Builtin::Eval)
    } else if same_text(s, "%%") || same_text(s, "args") {
        Some(Builtin::Args)
    } else if same_text(s, "!") || same_text(s, "deref") {
        Some(Builtin::Deref)
    } else if same_text(s, "%") || same_text(s, "arg") {
        Some(Builtin::Arg)
    } else {
        None
    }
}

/// The state of a run: function and variable tables, the lambda counter, and
/// the exchange with outside work. A run that needs outside input stops with
/// `Fault::Pending` and records its request; the caller performs it and runs
/// the program again from the start with one more reply, which the run then
/// consumes in place of the request. The output is kept in order, each piece
/// as it would have been printed.
pub struct Interp {
    funcs: Table,
    vars: Table,
    lambdas: u64,
    replies: Vec<Reply>,
    next: usize,
    out: Vec<String>,
    pending: Option<Request>,
}

/// The values of a sequence of strings.
pub open spec fn texts_view(s: Seq<String>) -> Seq<Seq<char>> {
    Seq::new(s.len(), |i: int| s[i]@)
}

impl View for Interp {
    type V = St;

    closed spec fn view(&self) -> St {
        St {
            funcs: self.funcs@,
            vars: self.vars@,
            lambdas: self.lambdas,
            replies: replies_view(self.replies@),
            next: self.next as nat,
            out: texts_view(self.out@),
            pending: match self.pending {
                Some(q) => Some(q@),
                None => None,
            },
        }
    }
}

impl Interp {
    /// Whether the replies used are among those given.
    pub closed spec fn wf(&self) -> bool {
        self.next <= self.replies@.len()
    }

    /// A fresh state that holds the given replies to outside requests.
    pub fn new(replies: Vec<Reply>) -> (r: Interp)
        ensures
            r@ == fresh(replies_view(replies@)),
            r.wf(),
    {
        let r = Interp {
            funcs: Table::new(),
            vars: Table::new(),
            lambdas: 0,
            replies,
            next: 0,
            out: Vec::new(),
            pending: None,
        };
        proof {
            assert(texts_view(r.out@) =~= Seq::<Seq<char>>::empty());
        }
        r
    }

    /// The text printed so far, piece by piece.
    pub fn output(&self) -> (r: &Vec<String>)
        ensures
            texts_view(r@) == self@.out,
    {
        &self.out
    }

    /// The request that the run stopped on, if it stopped on one.
    pub fn pending(&self) -> (r: Option<Request>)
        ensures
            match r {
                Some(q) => self@.pending == Some(q@),
                None => self@.pending is None,
            },
    {
        match &self.pending {
            Some(q) => Some(
                match q {
                    Request::ReadLine => Request::ReadLine,
                    Request::ReadFile(p) => Request::ReadFile(p.clone()),
                    Request::WriteFile(p, c) => Request::WriteFile(p.clone(), c.clone()),
                    Request::GetEnv(n) => Request::GetEnv(n.clone()),
                    Request::Library(n) => Request::Library(n.clone()),
                },
            ),
            None => None,
        }
    }

    /// Takes the next reply, or records the request where none is left.
    fn ask(&mut self, q: Request) -> (r: Option<Reply>)
        requires
            old(self).wf(),
        ensures
            final(self).wf(),
            (final(self)@, match r {
                Some(a) => Some(a@),
                None => None::<Ans>,
            }) == ask(old(self)@, q@),
    {
        if self.next < self.replies.len() {
            let a = self.replies[self.next].dup();
            self.next = self.next + 1;
            Some(a)
        } else {
            self.pending = Some(q);
            None
        }
    }

    /// Appends a piece of output.
    fn print(&mut self, text: String)
        requires
            old(self).wf(),
        ensures
            final(self).wf(),
            final(self)@ == (St { out: old(self)@.out.push(text@), ..old(self)@ }),
    {
        self.out.push(text);
        proof {
            assert(texts_view(self.out@) =~= texts_view(old(self).out@).push(text@));
        }
    }
}

/// `code` with every occurrence of `name` replaced by `repl`.
fn substitute(code: &Vec<Token>, name: &Token, repl: &Vec<Token>) -> (r: Vec<Token>)
    ensures
        tv(r@) == subst(tv(code@), name@, tv(repl@)),
{
    let ghost c = tv(code@);
    let mut r: Vec<Token> = Vec::new();
    let mut i: usize = 0;
    proof {
        assert(c.take(0) =~= Seq::<Tok>::empty());
        assert(tv(r@) =~= Seq::<Tok>::empty());
    }
    while i < code.len()
        invariant
            i <= code.len(),
            c == tv(code@),
            tv(r@) == subst(c.take(i as int), name@, tv(repl@)),
        decreases code.len() - i,
    {
        let ghost before = tv(r@);
        proof {
            assert(c.take(i + 1).drop_last() =~= c.take(i as int));
            assert(c.take(i + 1).last() == code@[i as int]@);
        }
        if code[i] == *name {
            let mut j: usize = 0;
            while j < repl.len()
                invariant
                    j <= repl.len(),
                    tv(r@) == before + tv(repl@).take(j as int),
                decreases repl.len() - j,
            {
                let t = repl[j].dup();
                proof {
                    lemma_push_tok(r@, t);
                    assert(tv(repl@).take(j + 1) =~= tv(repl@).take(j as int).push(t@));
                }
                r.push(t);
                j = j + 1;
            }
            proof {
                assert(tv(repl@).take(j as int) =~= tv(repl@));
            }
        } else {
            let t = code[i].dup();
            proof {
                lemma_push_tok(r@, t);
            }
            r.push(t);
        }
        i = i + 1;
    }
    proof {
        assert(c.take(i as int) =~= c);
    }
    r
}

/// Appends `n` copies of `unit` to `r`.
fn push_repeat(r: &mut Vec<Token>, unit: &Vec<Token>, n: usize)
    ensures
        tv(final(r)@) == tv(old(r)@) + repeat(tv(unit@), n as nat),
{
    let ghost start = tv(r@);
    let mut k: usize = 0;
    proof {
        assert(start + repeat(tv(unit@), 0) =~= start);
    }
    while k < n
        invariant
            k <= n,
            tv(r@) == start + repeat(tv(unit@), k as nat),
        decreases n - k,
    {
        let ghost mid = tv(r@);
        let mut j: usize = 0;
        proof {
            assert(mid + tv(unit@).take(0) =~= mid);
        }
        while j < unit.len()
            invariant
                j <= unit.len(),
                tv(r@) == mid + tv(unit@).take(j as int),
            decreases unit.len() - j,
        {
            let t = unit[j].dup();
            proof {
                lemma_push_tok(r@, t);
                assert(mid + tv(unit@).take(j + 1) =~= (mid + tv(unit@).take(j as int)).push(t@));
            }
            r.push(t);
            j = j + 1;
        }
        k = k + 1;
        proof {
            assert(tv(unit@).take(j as int) =~= tv(unit@));
            assert(start + repeat(tv(unit@), k as nat) =~= start + repeat(tv(unit@), (k - 1) as nat) + tv(unit@));
        }
    }
}

/// The expression for a rest parameter after `n` positional ones.
fn rest_expression(n: usize) -> (r: Vec<Token>)
    ensures
        tv(r@) == rest_expr(n as nat),
{
    let open_rm = vec![Token::OPair, Token::Ident(String::from_str("rm")), Token::Digit(0)];
    let close = vec![Token::CPair];
    let all = vec![Token::OPair, Token::Ident(String::from_str("%%")), Token::CPair];
    let mut r: Vec<Token> = Vec::new();
    proof {
        assert(tv(r@) =~= Seq::<Tok>::empty());
    }
    push_repeat(&mut r, &open_rm, n);
    push_repeat(&mut r, &all, 1);
    push_repeat(&mut r, &close, n);
    proof {
        assert(tv(open_rm@) =~= seq![Tok::OPair, Tok::Ident("rm"@), Tok::Digit(0)]);
        assert(tv(all@) =~= seq![Tok::OPair, Tok::Ident("%%"@), Tok::CPair]);
        assert(tv(close@) =~= seq![Tok::CPair]);
        assert(repeat(tv(all@), 1) =~= tv(all@)) by {
            assert(repeat(tv(all@), 0) =~= Seq::<Tok>::empty());
        }
        assert(Seq::<Tok>::empty() + repeat(tv(open_rm@), n as nat) =~= repeat(tv(open_rm@), n as nat));
    }
    r
}

/// `(% j)`.
fn arg_expression(j: usize) -> (r: Vec<Token>)
    ensures
        tv(r@) == arg_expr(j as nat),
{
    let r = vec![Token::OPair, Token::Ident(String::from_str("%")), Token::Digit(j as u128), Token::CPair];
    proof {
        assert(tv(r@) =~= arg_expr(j as nat));
    }
    r
}

/// Whether a slot starts with an identifier.
fn slot_names_ident(s: &Vec<Token>) -> (r: bool)
    ensures
        r == names_ident(tv(s@)),
{
    if s.len() == 0 {
        return false;
    }
    match &s[0] {
        Token::Ident(_) => true,
        _ => false,
    }
}

/// The body that a `let` form stores, or the fault it raises.
fn make_let_body(s: &Vec<Vec<Token>>) -> (r: Result<Vec<Token>, Fault>)
    requires
        s.len() >= 2,
    ensures
        res(r) == let_body(sv(s@)),
{
    let n = s.len();
    let code = dup_tokens(&s[n - 1]);
    proof {
        assert(sv(s@).last() == tv(s@[n - 1]@));
    }
    if n == 2 {
        return Ok(code);
    }
    let rest_slot = &s[n - 2];
    assert(sv(s@)[n - 2] == tv(rest_slot@));
    if !slot_names_ident(rest_slot) {
        return Err(Fault::Type);
    }
    let ghost params = sv(s@).subrange(1, n - 2);
    let argc: usize = n - 3;
    let mut k: usize = 0;
    while k < argc
        invariant
            k <= argc,
            argc == n - 3,
            n == s.len(),
            params == sv(s@).subrange(1, n - 2),
            forall|q: int| 0 <= q < k ==> names_ident(#[trigger] params[q]),
        decreases argc - k,
    {
        assert(params[k as int] == tv(s@[k + 1]@));
        if !slot_names_ident(&s[k + 1]) {
            return Err(Fault::Type);
        }
        k = k + 1;
    }
    let mut body = substitute(&code, &rest_slot[0], &rest_expression(argc));
    let mut j: usize = argc;
    while j > 0
        invariant
            j <= argc,
            argc == n - 3,
            n == s.len(),
            params == sv(s@).subrange(1, n - 2),
            forall|q: int| 0 <= q < argc ==> names_ident(#[trigger] params[q]),
            bind_params(tv(body@), params, j as nat) == bind_params(
                subst(sv(s@).last(), sv(s@)[n - 2][0], rest_expr(argc as nat)),
                params,
                argc as nat,
            ),
        decreases j,
    {
        let p = &s[j];
        assert(params[j - 1] == tv(p@));
        assert(names_ident(params[j - 1]));
        let next = substitute(&body, &p[0], &arg_expression(j - 1));
        body = next;
        j = j - 1;
    }
    Ok(body)
}

/// The builtins that read nothing but their arguments; `None` for the others.
fn pure_call(b: Builtin, rest: &Vec<Token>) -> (r: Option<Result<Vec<Token>, Fault>>)
    ensures
        match r {
            Some(x) => pure_builtin(b, tv(rest@)) == Some(res(x)),
            None => pure_builtin(b, tv(rest@)) is None,
        },
{
    match b {
        Builtin::AsInt => Some(as_int(rest)),
        Builtin::AsStr => Some(as_str(rest)),
        Builtin::AsChar => Some(as_char(rest)),
        Builtin::IsInt => Some(kind_test(TokenKind::Digit, rest)),
        Builtin::IsStr => Some(kind_test(TokenKind::Str, rest)),
        Builtin::IsIdent => Some(kind_test(TokenKind::Ident, rest)),
        Builtin::IdentName => Some(ident_name(rest)),
        Builtin::Bytes => Some(text_bytes(rest)),
        Builtin::Chars => Some(split_chars(rest)),
        Builtin::StrCollect => Some(collect(rest)),
        Builtin::Int => Some(convert(Conv::ToInt, rest)),
        Builtin::Str => Some(convert(Conv::ToStr, rest)),
        Builtin::Len => Some(Ok(len_of(rest))),
        Builtin::Nth => Some(index_op(false, rest)),
        Builtin::Rm => Some(index_op(true, rest)),
        Builtin::Eq => Some(equal(rest)),
        Builtin::Gt => Some(compare(false, rest)),
        Builtin::Lt => Some(compare(true, rest)),
        Builtin::Fold(op) => Some(fold_op(op, rest)),
        Builtin::Not => Some(bit_not(rest)),
        Builtin::Range => Some(range(rest)),
        _ => None,
    }
}

/// One text token.
fn text_token(s: String) -> (r: Vec<Token>)
    ensures
        tv(r@) == seq![Tok::Str(s@)],
{
    let r = vec![Token::Str(s)];
    proof {
        assert(tv(r@) =~= seq![Tok::Str(s@)]);
    }
    r
}

/// Whether two token sequences are equal.
fn same_tokens(a: &Vec<Token>, b: &Vec<Token>) -> (r: bool)
    ensures
        r == (tv(a@) == tv(b@)),
{
    if a.len() != b.len() {
        return false;
    }
    let mut i: usize = 0;
    while i < a.len()
        invariant
            i <= a.len(),
            a.len() == b.len(),
            tv(a@).take(i as int) == tv(b@).take(i as int),
        decreases a.len() - i,
    {
        if a[i] != b[i] {
            proof {
                assert(tv(a@)[i as int] != tv(b@)[i as int]);
            }
            return false;
        }
        i = i + 1;
        proof {
            assert(tv(a@).take(i as int) =~= tv(a@).take(i - 1).push(tv(a@)[i - 1]));
            assert(tv(b@).take(i as int) =~= tv(b@).take(i - 1).push(tv(b@)[i - 1]));
        }
    }
    proof {
        assert(tv(a@).take(i as int) =~= tv(a@));
        assert(tv(b@).take(i as int) =~= tv(b@));
    }
    true
}

/// Appends a copy of `v` to `r`.
fn append_tokens(r: &mut Vec<Token>, v: &Vec<Token>)
    ensures
        tv(final(r)@) == tv(old(r)@) + tv(v@),
{
    let ghost start = tv(r@);
    let mut j: usize = 0;
    proof {
        assert(start + tv(v@).take(0) =~= start);
    }
    while j < v.len()
        invariant
            j <= v.len(),
            tv(r@) == start + tv(v@).take(j as int),
        decreases v.len() - j,
    {
        let t = v[j].dup();
        proof {
            lemma_push_tok(r@, t);
            assert(start + tv(v@).take(j + 1) =~= (start + tv(v@).take(j as int)).push(t@));
        }
        r.push(t);
        j = j + 1;
    }
    proof {
        assert(tv(v@).take(j as int) =~= tv(v@));
    }
}

/// `%`: positional arguments of the current call.
fn arg_call(rest: &Vec<Token>, args: &Vec<Token>) -> (r: Result<Vec<Token>, Fault>)
    ensures
        res(r) == arg_spec(tv(rest@), tv(args@)),
{
    if rest.len() == 0 {
        return Err(Fault::Arity);
    }
    let mut out: Vec<Token> = Vec::new();
    let mut i: usize = 0;
    proof {
        assert(tv(out@) =~= Seq::<Tok>::empty());
    }
    while i < rest.len()
        invariant
            i <= rest.len(),
            rest.len() > 0,
            arg_spec(tv(rest@), tv(args@)) == arg_from(tv(rest@), tv(args@), i as int, tv(out@)),
        decreases rest.len() - i,
    {
        match &rest[i] {
            Token::Digit(d) => {
                if *d >= args.len() as u128 {
                    return Err(Fault::Index);
                }
                let t = args[*d as usize].dup();
                proof {
                    lemma_push_tok(out@, t);
                }
                out.push(t);
            },
            _ => {
                return Err(Fault::Type);
            },
        }
        i = i + 1;
    }
    Ok(out)
}

/// The text that `pr` prints, or the fault it raises.
fn pr_text(rest: &Vec<Token>) -> (r: Result<String, Fault>)
    ensures
        match r {
            Ok(t) => pr_from(tv(rest@), 0, Seq::empty()) == Ok::<Seq<char>, Fault>(t@),
            Err(e) => pr_from(tv(rest@), 0, Seq::empty()) == Err::<Seq<char>, Fault>(e),
        },
{
    let mut acc = String::new();
    let mut i: usize = 0;
    while i < rest.len()
        invariant
            i <= rest.len(),
            pr_from(tv(rest@), 0, Seq::empty()) == pr_from(tv(rest@), i as int, acc@),
        decreases rest.len() - i,
    {
        if i > 0 {
            acc.push(' ');
        }
        match &rest[i] {
            Token::Str(s) => {
                acc.append(s.as_str());
            },
            Token::Digit(d) => {
                push_decimal(&mut acc, *d);
            },
            _ => {
                return Err(Fault::Type);
            },
        }
        i = i + 1;
    }
    Ok(acc)
}

impl Interp {
    /// `input`: prompts and the lines read after them.
    fn input_call(&mut self, rest: &Vec<Token>) -> (r: Result<Vec<Token>, Fault>)
        requires
            old(self).wf(),
        ensures
            final(self).wf(),
            (final(self)@, res(r)) == input_from(tv(rest@), 0, Seq::empty(), old(self)@),
    {
        let mut out: Vec<Token> = Vec::new();
        let mut i: usize = 0;
        proof {
            assert(tv(out@) =~= Seq::<Tok>::empty());
        }
        while i < rest.len()
            invariant
                i <= rest.len(),
                self.wf(),
                input_from(tv(rest@), 0, Seq::empty(), old(self)@) == input_from(tv(rest@), i as int, tv(out@), self@),
            decreases rest.len() - i,
        {
            match &rest[i] {
                Token::Str(p) => {
                    self.print(p.clone());
                    match self.ask(Request::ReadLine) {
                        None => {
                            return Err(Fault::Pending);
                        },
                        Some(Reply::Text(line)) => {
                            let t = Token::Str(line);
                            proof {
                                lemma_push_tok(out@, t);
                            }
                            out.push(t);
                        },
                        Some(_) => {
                            return Err(Fault::Io);
                        },
                    }
                },
                _ => {
                    return Err(Fault::Type);
                },
            }
            i = i + 1;
        }
        Ok(out)
    }

    /// `file-read`: the contents of the named files.
    fn read_call(&mut self, rest: &Vec<Token>) -> (r: Result<Vec<Token>, Fault>)
        requires
            old(self).wf(),
        ensures
            final(self).wf(),
            (final(self)@, res(r)) == read_from(tv(rest@), 0, Seq::empty(), old(self)@),
    {
        let mut out: Vec<Token> = Vec::new();
        let mut i: usize = 0;
        proof {
            assert(tv(out@) =~= Seq::<Tok>::empty());
        }
        while i < rest.len()
            invariant
                i <= rest.len(),
                self.wf(),
                read_from(tv(rest@), 0, Seq::empty(), old(self)@) == read_from(tv(rest@), i as int, tv(out@), self@),
            decreases rest.len() - i,
        {
            match &rest[i] {
                Token::Str(p) => {
                    match self.ask(Request::ReadFile(p.clone())) {
                        None => {
                            return Err(Fault::Pending);
                        },
                        Some(Reply::Text(c)) => {
                            let t = Token::Str(c);
                            proof {
                                lemma_push_tok(out@, t);
                            }
                            out.push(t);
                        },
                        Some(_) => {
                            return Err(Fault::Io);
                        },
                    }
                },
                _ => {
                    return Err(Fault::Type);
                },
            }
            i = i + 1;
        }
        Ok(out)
    }

    /// The name `ident-addr` gives an entry.
    fn addr(&self, n: &String) -> (r: String)
        ensures
            r@ == addr_of(self@, n@),
    {
        match self.funcs.find(n) {
            Some(i) => {
                let mut r = String::from_str("f");
                push_decimal(&mut r, i as u128);
                r
            },
            None => match self.vars.find(n) {
                Some(i) => {
                    let mut r = String::from_str("v");
                    push_decimal(&mut r, i as u128);
                    r
                },
                None => String::from_str("0x0"),
            },
        }
    }

    /// The builtins that read or change the state but evaluate nothing.
    fn state_call(&mut self, b: Builtin, rest: &Vec<Token>, args: &Vec<Token>) -> (r: Result<Vec<Token>, Fault>)
        requires
            old(self).wf(),
        ensures
            final(self).wf(),
            (final(self)@, res(r)) == state_builtin(b, tv(rest@), tv(args@), old(self)@),
    {
        match b {
            Builtin::Args => Ok(dup_tokens(args)),
            Builtin::Arg => arg_call(rest, args),
            Builtin::Deref => {
                if rest.len() != 1 {
                    return Err(Fault::Arity);
                }
                match &rest[0] {
                    Token::Ident(n) => match self.vars.get(n) {
                        Some(v) => Ok(v),
                        None => Err(Fault::UnknownIdent),
                    },
                    _ => Err(Fault::Type),
                }
            },
            Builtin::IsMut | Builtin::IsDef | Builtin::IsUndef => {
                if rest.len() != 1 {
                    return Err(Fault::Arity);
                }
                match &rest[0] {
                    Token::Ident(n) => {
                        let v = match b {
                            Builtin::IsMut => self.vars.contains(n),
                            Builtin::IsDef => self.funcs.contains(n),
                            _ => !self.funcs.contains(n),
                        };
                        Ok(flag_vec(v))
                    },
                    _ => Err(Fault::Type),
                }
            },
            Builtin::IdentAddr => {
                if rest.len() != 1 {
                    return Err(Fault::Arity);
                }
                match &rest[0] {
                    Token::Ident(n) => Ok(text_token(self.addr(n))),
                    _ => Err(Fault::Type),
                }
            },
            Builtin::Pr => match pr_text(rest) {
                Ok(t) => {
                    self.print(t);
                    let r: Vec<Token> = Vec::new();
                    proof {
                        assert(tv(r@) =~= Seq::<Tok>::empty());
                    }
                    Ok(r)
                },
                Err(e) => Err(e),
            },
            Builtin::Input => {
                if rest.len() == 0 {
                    return Err(Fault::Arity);
                }
                self.input_call(rest)
            },
            Builtin::FileRead => {
                if rest.len() == 0 {
                    return Err(Fault::Arity);
                }
                self.read_call(rest)
            },
            Builtin::FileWrite => {
                if rest.len() != 2 {
                    return Err(Fault::Arity);
                }
                let p = match &rest[0] {
                    Token::Str(p) => p,
                    _ => {
                        return Err(Fault::Type);
                    },
                };
                let c = match &rest[1] {
                    Token::Str(c) => c,
                    _ => {
                        return Err(Fault::Type);
                    },
                };
                match self.ask(Request::WriteFile(p.clone(), c.clone())) {
                    None => Err(Fault::Pending),
                    Some(Reply::Done) => {
                        let r = vec![Token::Digit(1)];
                        proof {
                            assert(tv(r@) =~= one_digit(1));
                        }
                        Ok(r)
                    },
                    Some(_) => Err(Fault::Io),
                }
            },
            Builtin::GetEnv => {
                if rest.len() != 1 {
                    return Err(Fault::Arity);
                }
                match &rest[0] {
                    Token::Str(n) => match self.ask(Request::GetEnv(n.clone())) {
                        None => Err(Fault::Pending),
                        Some(Reply::Text(v)) => Ok(text_token(v)),
                        Some(_) => Ok(text_token(String::new())),
                    },
                    _ => Err(Fault::Type),
                }
            },
            _ => Err(Fault::UnknownIdent),
        }
    }
}

impl Interp {
    /// Evaluates `toks` with budget `fuel`: at the top (`top`, a whole program
    /// or file) groups are evaluated in turn and the last result kept; inside
    /// a form, results are spliced and the head called on the rest. `args`
    /// is the argument list of the current call.
    #[verifier::loop_isolation(false)]
    pub fn ev(&mut self, fuel: u64, toks: &Vec<Token>, top: bool, args: &Vec<Token>) -> (r: Result<Vec<Token>, Fault>)
        requires
            old(self).wf(),
        ensures
            final(self).wf(),
            (final(self)@, res(r)) == ev(fuel as nat, tv(toks@), top, tv(args@), old(self)@),
        decreases fuel, 0nat, 0nat,
    {
        if fuel == 0 {
            return Err(Fault::Exhausted);
        }
        let f: u64 = fuel - 1;
        let head: Option<Form> = if toks.len() > 0 {
            match &toks[0] {
                Token::Ident(n) => form_of(n),
                _ => None,
            }
        } else {
            None
        };
        if !top && head.is_some() {
            let which = head.unwrap();
            match which {
                Form::Lambda => {
                    if self.lambdas == u64::MAX {
                        return Err(Fault::Exhausted);
                    }
                    let mut name = decimal_string(self.lambdas as u128);
                    name.push('l');
                    self.lambdas = self.lambdas + 1;
                    let mut code = vec![Token::Ident(String::from_str("let")), Token::Ident(name.clone())];
                    proof {
                        assert(tv(code@) =~= seq![Tok::Ident("let"@), Tok::Ident(name@)]);
                        reveal_strlit("l");
                        assert(name@ =~= lambda_name(old(self).lambdas));
                    }
                    let tail = drop_head(toks);
                    append_tokens(&mut code, &tail);
                    match self.ev(f, &code, false, args) {
                        Ok(_) => {
                            let ghost nv = name@;
                            let r = vec![Token::Ident(name)];
                            proof {
                                assert(tv(r@) =~= seq![Tok::Ident(nv)]);
                            }
                            Ok(r)
                        },
                        Err(e) => Err(e),
                    }
                },
                Form::Cond => {
                    let mut code = vec![Token::Ident(String::from_str("case")), Token::Digit(1)];
                    proof {
                        assert(tv(code@) =~= seq![Tok::Ident("case"@), Tok::Digit(1)]);
                    }
                    let tail = drop_head(toks);
                    append_tokens(&mut code, &tail);
                    self.ev(f, &code, false, args)
                },
                _ => {
                    let sl = slots_after_head(toks);
                    self.form(f, which, &sl, args)
                },
            }
        } else {
            let ps = split(toks);
            let ghost its = items(tv(toks@));
            let ghost st0 = self@;
            let mut ret: Vec<Token> = Vec::new();
            let mut k: usize = 0;
            proof {
                assert(tv(ret@) =~= Seq::<Tok>::empty());
            }
            while k < ps.len()
                invariant
                    k <= ps.len(),
                    f == fuel - 1,
                    self.wf(),
                    pv(ps@) == its,
                    its == items(tv(toks@)),
                    ev_items(f as nat, its, k as int, top, tv(args@), tv(ret@), self@) == ev_items(
                        f as nat,
                        its,
                        0,
                        top,
                        tv(args@),
                        Seq::empty(),
                        st0,
                    ),
                decreases ps.len() - k,
            {
                assert(its[k as int] == ps@[k as int]@);
                match &ps[k] {
                    Piece::Bare(t) => {
                        let t2 = t.dup();
                        proof {
                            lemma_push_tok(ret@, t2);
                        }
                        ret.push(t2);
                    },
                    Piece::Group(c) => {
                        match self.ev(f, c, false, args) {
                            Err(e) => {
                                return Err(e);
                            },
                            Ok(v) => {
                                if top {
                                    ret = v;
                                } else {
                                    append_tokens(&mut ret, &v);
                                }
                            },
                        }
                    },
                }
                k = k + 1;
            }
            if !top && ret.len() > 0 {
                let rest = drop_head(&ret);
                self.apply(f, &ret[0], &rest, args)
            } else {
                Ok(ret)
            }
        }
    }

    /// Applies `head` to the evaluated arguments `rest`.
    fn apply(&mut self, f: u64, head: &Token, rest: &Vec<Token>, args: &Vec<Token>) -> (r: Result<Vec<Token>, Fault>)
        requires
            old(self).wf(),
        ensures
            final(self).wf(),
            (final(self)@, res(r)) == apply(f as nat, head@, tv(rest@), tv(args@), old(self)@),
        decreases f, 3nat, 0nat,
    {
        match head {
            Token::Str(_) | Token::Digit(_) => {
                let mut r = vec![head.dup()];
                proof {
                    assert(tv(r@) =~= seq![head@]);
                }
                append_tokens(&mut r, rest);
                Ok(r)
            },
            Token::Ident(n) => match builtin_of(n) {
                Some(b) => self.builtin(f, b, rest, args),
                None => match self.funcs.get(n) {
                    Some(body) => self.ev(f, &body, false, rest),
                    None => Err(Fault::UnknownIdent),
                },
            },
            _ => Err(Fault::NotCallable),
        }
    }
}

/// The sequence without its first token.
fn drop_head(v: &Vec<Token>) -> (r: Vec<Token>)
    requires
        v.len() > 0,
    ensures
        tv(r@) == tv(v@).drop_first(),
{
    let mut r: Vec<Token> = Vec::new();
    let mut i: usize = 1;
    proof {
        assert(tv(r@) =~= tv(v@).subrange(1, 1));
    }
    while i < v.len()
        invariant
            1 <= i <= v.len(),
            tv(r@) == tv(v@).subrange(1, i as int),
        decreases v.len() - i,
    {
        let t = v[i].dup();
        proof {
            lemma_push_tok(r@, t);
            assert(tv(v@).subrange(1, i + 1) =~= tv(v@).subrange(1, i as int).push(t@));
        }
        r.push(t);
        i = i + 1;
    }
    proof {
        assert(tv(v@).subrange(1, i as int) =~= tv(v@).drop_first());
    }
    r
}

impl Interp {
    /// Applies a builtin to the evaluated arguments `rest`.
    #[verifier::loop_isolation(false)]
    fn builtin(&mut self, f: u64, b: Builtin, rest: &Vec<Token>, args: &Vec<Token>) -> (r: Result<Vec<Token>, Fault>)
        requires
            old(self).wf(),
        ensures
            final(self).wf(),
            (final(self)@, res(r)) == builtin(f as nat, b, tv(rest@), tv(args@), old(self)@),
        decreases f, 2nat, 0nat,
    {
        match pure_call(b, rest) {
            Some(x) => {
                return x;
            },
            None => {},
        }
        match b {
            Builtin::Load => {
                if rest.len() == 0 {
                    return Err(Fault::Arity);
                }
                match &rest[0] {
                    Token::Str(p) => match self.ask(Request::ReadFile(p.clone())) {
                        None => Err(Fault::Pending),
                        Some(Reply::Text(src)) => {
                            let toks = tokenize(src.as_str());
                            let tail = drop_head(rest);
                            self.ev(f, &toks, true, &tail)
                        },
                        Some(_) => Err(Fault::Io),
                    },
                    _ => Err(Fault::Type),
                }
            },
            Builtin::Eval => {
                if rest.len() == 0 {
                    return Err(Fault::Arity);
                }
                match &rest[0] {
                    Token::Str(src) => {
                        let toks = tokenize(src.as_str());
                        let tail = drop_head(rest);
                        self.ev(f, &toks, true, &tail)
                    },
                    _ => Err(Fault::Type),
                }
            },
            Builtin::Library => {
                if rest.len() == 0 {
                    return Err(Fault::Arity);
                }
                self.load_libraries(f, rest)
            },
            _ => self.state_call(b, rest, args),
        }
    }

    /// Applies a special form to its unevaluated slots.
    fn form(&mut self, f: u64, which: Form, s: &Vec<Vec<Token>>, args: &Vec<Token>) -> (r: Result<Vec<Token>, Fault>)
        requires
            old(self).wf(),
        ensures
            final(self).wf(),
            (final(self)@, res(r)) == form(f as nat, which, sv(s@), tv(args@), old(self)@),
        decreases f, 2nat, 0nat,
    {
        match which {
            Form::While => self.form_while(f, s, args),
            Form::Assign | Form::Mut => self.form_var(f, which, s, args),
            Form::Case => self.form_case(f, s, args),
            Form::If => self.form_if(f, s, args),
            Form::Each => self.form_each(f, s, args),
            Form::Bind => self.form_bind(f, s, args),
            Form::Let => self.form_let(f, s, args),
            _ => Err(Fault::Arity),
        }
    }

    /// `while`: repeats the body while the condition gives `1`.
    #[verifier::loop_isolation(false)]
    fn form_while(&mut self, f: u64, s: &Vec<Vec<Token>>, args: &Vec<Token>) -> (r: Result<Vec<Token>, Fault>)
        requires
            old(self).wf(),
        ensures
            final(self).wf(),
            (final(self)@, res(r)) == form(f as nat, Form::While, sv(s@), tv(args@), old(self)@),
        decreases f, 1nat, 0nat,
    {
        let ghost st0 = self@;
        let ghost ss = sv(s@);
        let n = s.len();
        if n != 2 {
            return Err(Fault::Arity);
        }
        assert(ss[0] == tv(s@[0]@) && ss[1] == tv(s@[1]@));
        let mut g: u64 = f;
        let mut acc: Vec<Token> = Vec::new();
        proof {
            assert(tv(acc@) =~= Seq::<Tok>::empty());
        }
        loop
            invariant
                g <= f,
                self.wf(),
                ss == sv(s@),
                s.len() == 2,
                ss[0] == tv(s@[0]@) && ss[1] == tv(s@[1]@),
                while_loop(g as nat, ss[0], ss[1], tv(args@), tv(acc@), self@) == while_loop(
                    f as nat,
                    ss[0],
                    ss[1],
                    tv(args@),
                    Seq::empty(),
                    st0,
                ),
            decreases g,
        {
            if g == 0 {
                return Err(Fault::Exhausted);
            }
            let c = match self.ev(g, &s[0], false, args) {
                Err(e) => {
                    return Err(e);
                },
                Ok(c) => c,
            };
            let is0 = c.len() > 0 && c[0] == Token::Digit(0);
            let is1 = c.len() > 0 && c[0] == Token::Digit(1);
            if is0 {
                return Ok(acc);
            } else if is1 {
                match self.ev(g, &s[1], false, args) {
                    Err(e) => {
                        return Err(e);
                    },
                    Ok(w) => {
                        append_tokens(&mut acc, &w);
                    },
                }
            } else {
                return Err(Fault::Type);
            }
            g = g - 1;
        }
    }

    /// `mut` and `set`: declares or assigns a variable.
    fn form_var(&mut self, f: u64, which: Form, s: &Vec<Vec<Token>>, args: &Vec<Token>) -> (r: Result<Vec<Token>, Fault>)
        requires
            old(self).wf(),
            which == Form::Assign || which == Form::Mut,
        ensures
            final(self).wf(),
            (final(self)@, res(r)) == form(f as nat, which, sv(s@), tv(args@), old(self)@),
        decreases f, 1nat, 0nat,
    {
        let ghost ss = sv(s@);
        let n = s.len();
        if n != 2 {
            return Err(Fault::Arity);
        }
        assert(ss[0] == tv(s@[0]@) && ss[1] == tv(s@[1]@));
        let v = match self.ev(f, &s[1], false, args) {
            Err(e) => {
                return Err(e);
            },
            Ok(v) => v,
        };
        if !slot_names_ident(&s[0]) {
            return Err(Fault::Type);
        }
        let name = match &s[0][0] {
            Token::Ident(x) => x.clone(),
            _ => {
                return Err(Fault::Type);
            },
        };
        let present = self.vars.contains(&name);
        if which == Form::Assign && !present {
            return Err(Fault::UnknownIdent);
        }
        if which == Form::Mut && present {
            return Err(Fault::Redefinition);
        }
        self.vars.put(name, v);
        let r: Vec<Token> = Vec::new();
        proof {
            assert(tv(r@) =~= Seq::<Tok>::empty());
        }
        Ok(r)
    }

    /// `case`: the body of the first pattern equal to the control value.
    #[verifier::loop_isolation(false)]
    fn form_case(&mut self, f: u64, s: &Vec<Vec<Token>>, args: &Vec<Token>) -> (r: Result<Vec<Token>, Fault>)
        requires
            old(self).wf(),
        ensures
            final(self).wf(),
            (final(self)@, res(r)) == form(f as nat, Form::Case, sv(s@), tv(args@), old(self)@),
        decreases f, 1nat, 0nat,
    {
        let ghost ss = sv(s@);
        let n = s.len();
        if n < 3 {
            return Err(Fault::Arity);
        }
        assert(ss[0] == tv(s@[0]@));
        let val = match self.ev(f, &s[0], false, args) {
            Err(e) => {
                return Err(e);
            },
            Ok(v) => v,
        };
        let ghost st1 = self@;
        let mut k: usize = 1;
        while k < n
            invariant
                1 <= k,
                n == s.len(),
                ss == sv(s@),
                self.wf(),
                case_loop(f as nat, ss, k as int, tv(val@), tv(args@), self@) == case_loop(
                    f as nat,
                    ss,
                    1,
                    tv(val@),
                    tv(args@),
                    st1,
                ),
            decreases n - k,
        {
            assert(ss[k as int] == tv(s@[k as int]@));
            if k + 1 == n {
                return self.ev(f, &s[k], false, args);
            }
            assert(ss[k + 1] == tv(s@[k + 1]@));
            let v = match self.ev(f, &s[k], false, args) {
                Err(e) => {
                    return Err(e);
                },
                Ok(v) => v,
            };
            if same_tokens(&v, &val) {
                return self.ev(f, &s[k + 1], false, args);
            }
            k = k + 2;
        }
        let r: Vec<Token> = Vec::new();
        proof {
            assert(tv(r@) =~= Seq::<Tok>::empty());
        }
        Ok(r)
    }

    /// `if`: evaluates the branch that the condition selects.
    fn form_if(&mut self, f: u64, s: &Vec<Vec<Token>>, args: &Vec<Token>) -> (r: Result<Vec<Token>, Fault>)
        requires
            old(self).wf(),
        ensures
            final(self).wf(),
            (final(self)@, res(r)) == form(f as nat, Form::If, sv(s@), tv(args@), old(self)@),
        decreases f, 1nat, 0nat,
    {
        let ghost ss = sv(s@);
        let n = s.len();
        if n < 2 || n > 3 {
            return Err(Fault::Arity);
        }
        assert(ss[0] == tv(s@[0]@) && ss[1] == tv(s@[1]@));
        let c = match self.ev(f, &s[0], false, args) {
            Err(e) => {
                return Err(e);
            },
            Ok(c) => c,
        };
        if c.len() > 0 && c[0] == Token::Digit(1) {
            self.ev(f, &s[1], false, args)
        } else if c.len() > 0 && c[0] == Token::Digit(0) {
            if n == 3 {
                assert(ss[2] == tv(s@[2]@));
                self.ev(f, &s[2], false, args)
            } else {
                let r: Vec<Token> = Vec::new();
                proof {
                    assert(tv(r@) =~= Seq::<Tok>::empty());
                }
                Ok(r)
            }
        } else {
            Err(Fault::Value)
        }
    }

    /// `each`: the body once for each element, the name replaced by it.
    #[verifier::loop_isolation(false)]
    fn form_each(&mut self, f: u64, s: &Vec<Vec<Token>>, args: &Vec<Token>) -> (r: Result<Vec<Token>, Fault>)
        requires
            old(self).wf(),
        ensures
            final(self).wf(),
            (final(self)@, res(r)) == form(f as nat, Form::Each, sv(s@), tv(args@), old(self)@),
        decreases f, 1nat, 0nat,
    {
        let ghost ss = sv(s@);
        let n = s.len();
        if n != 3 {
            return Err(Fault::Arity);
        }
        assert(ss[0] == tv(s@[0]@) && ss[1] == tv(s@[1]@) && ss[2] == tv(s@[2]@));
        let arr = match self.ev(f, &s[1], false, args) {
            Err(e) => {
                return Err(e);
            },
            Ok(a) => a,
        };
        if !slot_names_ident(&s[0]) {
            return Err(Fault::Type);
        }
        let name = &s[0][0];
        let ghost st1 = self@;
        let mut acc: Vec<Token> = Vec::new();
        let mut k: usize = 0;
        proof {
            assert(tv(acc@) =~= Seq::<Tok>::empty());
        }
        while k < arr.len()
            invariant
                k <= arr.len(),
                self.wf(),
                ss == sv(s@),
                s.len() == 3,
                ss[2] == tv(s@[2]@),
                each_loop(f as nat, tv(arr@), k as int, name@, ss[2], tv(args@), tv(acc@), self@)
                    == each_loop(f as nat, tv(arr@), 0, name@, ss[2], tv(args@), Seq::empty(), st1),
            decreases arr.len() - k,
        {
            let one = vec![arr[k].dup()];
            proof {
                assert(tv(one@) =~= seq![tv(arr@)[k as int]]);
            }
            let code = substitute(&s[2], name, &one);
            match self.ev(f, &code, false, args) {
                Err(e) => {
                    return Err(e);
                },
                Ok(v) => {
                    append_tokens(&mut acc, &v);
                },
            }
            k = k + 1;
        }
        Ok(acc)
    }

    /// `bind`: the body with the name replaced by the value.
    fn form_bind(&mut self, f: u64, s: &Vec<Vec<Token>>, args: &Vec<Token>) -> (r: Result<Vec<Token>, Fault>)
        requires
            old(self).wf(),
        ensures
            final(self).wf(),
            (final(self)@, res(r)) == form(f as nat, Form::Bind, sv(s@), tv(args@), old(self)@),
        decreases f, 1nat, 0nat,
    {
        let ghost ss = sv(s@);
        let n = s.len();
        if n != 3 {
            return Err(Fault::Arity);
        }
        assert(ss[0] == tv(s@[0]@) && ss[1] == tv(s@[1]@) && ss[2] == tv(s@[2]@));
        let val = match self.ev(f, &s[1], false, args) {
            Err(e) => {
                return Err(e);
            },
            Ok(v) => v,
        };
        if !slot_names_ident(&s[0]) {
            return Err(Fault::Type);
        }
        let code = substitute(&s[2], &s[0][0], &val);
        self.ev(f, &code, false, args)
    }

    /// `let`: stores a function body.
    fn form_let(&mut self, f: u64, s: &Vec<Vec<Token>>, args: &Vec<Token>) -> (r: Result<Vec<Token>, Fault>)
        requires
            old(self).wf(),
        ensures
            final(self).wf(),
            (final(self)@, res(r)) == form(f as nat, Form::Let, sv(s@), tv(args@), old(self)@),
        decreases f, 1nat, 0nat,
    {
        let ghost ss = sv(s@);
        let n = s.len();
        if n < 2 {
            return Err(Fault::Arity);
        }
        assert(ss[0] == tv(s@[0]@));
        if !slot_names_ident(&s[0]) {
            return Err(Fault::Type);
        }
        let name = match &s[0][0] {
            Token::Ident(x) => x.clone(),
            _ => {
                return Err(Fault::Type);
            },
        };
        if self.funcs.contains(&name) {
            return Err(Fault::Redefinition);
        }
        match make_let_body(s) {
            Ok(body) => {
                self.funcs.put(name, body);
                let r: Vec<Token> = Vec::new();
                proof {
                    assert(tv(r@) =~= Seq::<Tok>::empty());
                }
                Ok(r)
            },
            Err(e) => Err(e),
        }
    }

}

impl Interp {
    /// Loads the library files named in `rest`, in order, for their effects.
    #[verifier::loop_isolation(false)]
    pub(crate) fn load_libraries(&mut self, f: u64, rest: &Vec<Token>) -> (r: Result<Vec<Token>, Fault>)
        requires
            old(self).wf(),
        ensures
            final(self).wf(),
            (final(self)@, res(r)) == library_from(f as nat, tv(rest@), 0, old(self)@),
        decreases f, 1nat, 0nat,
    {
        let ghost st0 = self@;
        let mut i: usize = 0;
        while i < rest.len()
            invariant
                i <= rest.len(),
                self.wf(),
                library_from(f as nat, tv(rest@), i as int, self@) == library_from(
                    f as nat,
                    tv(rest@),
                    0,
                    st0,
                ),
            decreases rest.len() - i,
        {
            let name = match &rest[i] {
                Token::Str(n) => n.clone(),
                Token::Ident(n) => n.clone(),
                _ => {
                    return Err(Fault::Type);
                },
            };
            match self.ask(Request::Library(name)) {
                None => {
                    return Err(Fault::Pending);
                },
                Some(Reply::Text(src)) => {
                    let toks = tokenize(src.as_str());
                    let none: Vec<Token> = Vec::new();
                    proof {
                        assert(tv(none@) =~= Seq::<Tok>::empty());
                    }
                    match self.ev(f, &toks, true, &none) {
                        Err(e) => {
                            return Err(e);
                        },
                        Ok(_) => {},
                    }
                },
                Some(_) => {
                    return Err(Fault::Io);
                },
            }
            i = i + 1;
        }
        let r: Vec<Token> = Vec::new();
        proof {
            assert(tv(r@) =~= Seq::<Tok>::empty());
        }
        Ok(r)
    }
}

} // verus!
