//! Entry points: running token sequences, source texts and library files.
use vstd::prelude::*;
use crate::fault::Fault;
use crate::interp::{replies_view, Interp, Reply};
use crate::lexer::{lex, tokenize};
use crate::semantics::{ev, fresh, library_from};
use crate::token::{res, tv, Tok, Token};

verus! {

/// An evaluation budget too large to run out in practice.
pub const FUEL: u64 = 18446744073709551615;

/// Evaluates a token sequence at nesting `depth` (zero for a whole program)
/// with the argument list `args`, against the state `st`.
pub fn run_tokens(st: &mut Interp, tokens: &Vec<Token>, depth: usize, args: &Vec<Token>, fuel: u64) -> (r: Result<Vec<Token>, Fault>)
    requires
        old(st).wf(),
    ensures
        final(st).wf(),
        (final(st)@, res(r)) == ev(fuel as nat, tv(tokens@), depth == 0, tv(args@), old(st)@),
{
    st.ev(fuel, tokens, depth == 0, args)
}

/// Tokenizes a source text and evaluates it.
pub fn run_str(st: &mut Interp, s: &str, depth: usize, args: &Vec<Token>, fuel: u64) -> (r: Result<Vec<Token>, Fault>)
    requires
        old(st).wf(),
    ensures
        final(st).wf(),
        (final(st)@, res(r)) == ev(fuel as nat, lex(s@), depth == 0, tv(args@), old(st)@),
{
    let tokens = tokenize(s);
    run_tokens(st, &tokens, depth, args, fuel)
}

/// Loads the library file of the given name into the state, for its
/// definitions; the result is empty.
pub fn run_include(st: &mut Interp, name: &str, fuel: u64) -> (r: Result<Vec<Token>, Fault>)
    requires
        old(st).wf(),
    ensures
        final(st).wf(),
        (final(st)@, res(r)) == library_from(fuel as nat, seq![Tok::Str(name@)], 0, old(st)@),
{
    let mut s = String::new();
    s.append(name);
    let names = vec![Token::Str(s)];
    proof {
        assert(tv(names@) =~= seq![Tok::Str(name@)]);
    }
    st.load_libraries(fuel, &names)
}

/// Runs a program's source text in a fresh state that holds the given
/// replies to outside requests; returns the final state and the program's
/// result.
pub fn run_file_init(source: &str, replies: Vec<Reply>, fuel: u64) -> (r: (Interp, Result<Vec<Token>, Fault>))
    ensures
        r.0.wf(),
        (r.0@, res(r.1)) == ev(fuel as nat, lex(source@), true, Seq::empty(), fresh(replies_view(replies@))),
{
    let mut st = Interp::new(replies);
    let args: Vec<Token> = Vec::new();
    proof {
        assert(tv(args@) =~= Seq::<Tok>::empty());
    }
    let r = run_str(&mut st, source, 0, &args, fuel);
    (st, r)
}

} // verus!
