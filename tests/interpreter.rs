use jll::fault::Fault;
use jll::interp::{Interp, Reply, Request};
use jll::lexer::tokenize;
use jll::run::{run_file_init, run_include, run_str, run_tokens, FUEL};
use jll::token::{token_kind, token_show, Token, TokenKind};

fn ident(s: &str) -> Token {
    Token::Ident(s.to_string())
}

fn text(s: &str) -> Token {
    Token::Str(s.to_string())
}

fn eval(src: &str) -> Result<Vec<Token>, Fault> {
    run_file_init(src, vec![], FUEL).1
}

fn eval_with(src: &str, replies: Vec<Reply>) -> (Interp, Result<Vec<Token>, Fault>) {
    run_file_init(src, replies, FUEL)
}

#[test]
fn tokenize_simple_call() {
    assert_eq!(
        tokenize("(+ 1 2)"),
        vec![Token::OPair, ident("+"), Token::Digit(1), Token::Digit(2), Token::CPair]
    );
}

#[test]
fn tokenize_strings_and_escapes() {
    assert_eq!(
        tokenize("('a\\tb' 'c\\nd' 'e\\'f')"),
        vec![Token::OPair, text("a\tb"), text("c\nd"), text("e'f"), Token::CPair]
    );
}

#[test]
fn tokenize_comment_and_separators() {
    assert_eq!(
        tokenize("; note\n(a\tb\nc)"),
        vec![Token::OPair, ident("a"), ident("b"), ident("c"), Token::CPair]
    );
}

#[test]
fn tokenize_deref_sugar() {
    assert_eq!(
        tokenize("(!x)"),
        vec![Token::OPair, Token::OPair, ident("!"), ident("x"), Token::CPair, Token::CPair]
    );
}

#[test]
fn tokenize_quoted_group_vanishes() {
    assert_eq!(
        tokenize("`(a (b) 'c') (d)"),
        vec![Token::OPair, ident("d"), Token::CPair]
    );
}

#[test]
fn tokenize_digit_underscore_and_ident_digits() {
    assert_eq!(
        tokenize("(1_000 a1)"),
        vec![Token::OPair, Token::Digit(1000), ident("a1"), Token::CPair]
    );
}

#[test]
fn tokenize_malformed_inputs_are_empty() {
    assert_eq!(tokenize("('abc)"), vec![]);
    assert_eq!(tokenize("(a))"), vec![]);
    assert_eq!(tokenize("((a)"), vec![]);
    assert_eq!(tokenize("`a"), vec![]);
    assert_eq!(tokenize("(1a)"), vec![]);
    assert_eq!(tokenize("(340282366920938463463374607431768211456)"), vec![]);
}

#[test]
fn tokenize_largest_integer() {
    assert_eq!(
        tokenize("(340282366920938463463374607431768211455)"),
        vec![Token::OPair, Token::Digit(u128::MAX), Token::CPair]
    );
}

#[test]
fn tokenize_empty() {
    assert_eq!(tokenize(""), vec![]);
}

#[test]
fn evaluate_sum() {
    assert_eq!(eval("(+ 1 2 3)"), Ok(vec![Token::Digit(6)]));
}

#[test]
fn evaluate_if_takes_one_branch() {
    assert_eq!(eval("(if (= 1 1) ('a') ('b'))"), Ok(vec![text("a")]));
    let (st, r) = eval_with("(if (= 1 1) ('a') (pr 'b'))", vec![]);
    assert_eq!(r, Ok(vec![text("a")]));
    assert!(st.output().is_empty());
    let (st, r) = eval_with("(if (= 1 2) (pr 'a') ('b'))", vec![]);
    assert_eq!(r, Ok(vec![text("b")]));
    assert!(st.output().is_empty());
    assert_eq!(eval("(if 0 ('a'))"), Ok(vec![]));
    assert_eq!(eval("(if 2 ('a'))"), Err(Fault::Value));
}

#[test]
fn evaluate_let_double() {
    assert_eq!(eval("(let double (x) (* (% 0) 2)) (double 21)"), Ok(vec![Token::Digit(42)]));
}

#[test]
fn evaluate_mut_set_deref() {
    assert_eq!(eval("(mut x 5) (set x (+ (!x) 1)) (!x)"), Ok(vec![Token::Digit(6)]));
}

#[test]
fn evaluate_mut_twice_is_redefinition() {
    let r = eval("(mut x 5) (mut x 6)");
    assert_eq!(r, Err(Fault::Redefinition));
    assert_eq!(Fault::Redefinition.exit_code(), 8);
}

#[test]
fn evaluate_set_order_matters() {
    assert_eq!(eval("(mut x 1) (set x (* (!x) 10)) (set x (+ (!x) 2)) (!x)"), Ok(vec![Token::Digit(12)]));
    assert_eq!(eval("(mut x 1) (set x (+ (!x) 2)) (set x (* (!x) 10)) (!x)"), Ok(vec![Token::Digit(30)]));
    assert_eq!(eval("(set y 1)"), Err(Fault::UnknownIdent));
}

#[test]
fn evaluate_each_squares() {
    assert_eq!(
        eval("(each i (range 3) (* i i))"),
        Ok(vec![Token::Digit(0), Token::Digit(1), Token::Digit(4)])
    );
}

#[test]
fn range_counts_and_order() {
    assert_eq!(
        eval("(range 2 10 3)"),
        Ok(vec![Token::Digit(2), Token::Digit(5), Token::Digit(8)])
    );
    assert_eq!(eval("(range 2 11 3)"), Ok(vec![Token::Digit(2), Token::Digit(5), Token::Digit(8)]));
    assert_eq!(eval("(range 5 2)"), Ok(vec![]));
    assert_eq!(eval("(range 4 4)"), Ok(vec![]));
    assert_eq!(eval("(.. 1 3)"), Ok(vec![Token::Digit(1), Token::Digit(2)]));
    assert_eq!(eval("(range 1 3 0)"), Err(Fault::Value));
    assert_eq!(eval("(range)"), Err(Fault::Arity));
}

#[test]
fn arithmetic_is_repeatable() {
    let mut st = Interp::new(vec![]);
    let a = run_str(&mut st, "(* (+ 2 3) (- 9 4))", 0, &vec![], FUEL);
    let b = run_str(&mut st, "(* (+ 2 3) (- 9 4))", 0, &vec![], FUEL);
    assert_eq!(a, Ok(vec![Token::Digit(25)]));
    assert_eq!(a, b);
}

#[test]
fn fatal_errors_have_distinct_statuses() {
    assert_eq!(eval("(/ 1 0)"), Err(Fault::ZeroDivision));
    assert_eq!(eval("(- 0 1)"), Err(Fault::Underflow));
    assert_eq!(eval("(foo)"), Err(Fault::UnknownIdent));
    assert_eq!(eval("(+ 1 'a')"), Err(Fault::Type));
    let codes = [
        Fault::ZeroDivision.exit_code(),
        Fault::Underflow.exit_code(),
        Fault::UnknownIdent.exit_code(),
        Fault::Type.exit_code(),
    ];
    assert_eq!(codes, [3, 69, 6, 2]);
}

#[test]
fn arithmetic_wraps_and_bitwise() {
    assert_eq!(eval("(+ 340282366920938463463374607431768211455 2)"), Ok(vec![Token::Digit(1)]));
    assert_eq!(eval("(* 2 170141183460469231731687303715884105728)"), Ok(vec![Token::Digit(0)]));
    assert_eq!(eval("(<< 1 4)"), Ok(vec![Token::Digit(16)]));
    assert_eq!(eval("(<< 1 128)"), Ok(vec![Token::Digit(0)]));
    assert_eq!(eval("(>> 256 4)"), Ok(vec![Token::Digit(16)]));
    assert_eq!(eval("(& 12 10)"), Ok(vec![Token::Digit(8)]));
    assert_eq!(eval("(bit-or 12 10)"), Ok(vec![Token::Digit(14)]));
    assert_eq!(eval("(^ 12 10)"), Ok(vec![Token::Digit(6)]));
    assert_eq!(eval("(~ 0)"), Ok(vec![Token::Digit(u128::MAX)]));
    assert_eq!(eval("(/ 17 2 2)"), Ok(vec![Token::Digit(4)]));
    assert_eq!(eval("(- 10 3 2)"), Ok(vec![Token::Digit(5)]));
    assert_eq!(eval("(+)"), Err(Fault::Arity));
}

#[test]
fn comparisons_and_equality() {
    assert_eq!(eval("(> 3 2)"), Ok(vec![Token::Digit(1)]));
    assert_eq!(eval("(< 3 2)"), Ok(vec![Token::Digit(0)]));
    assert_eq!(eval("(< 3)"), Err(Fault::Arity));
    assert_eq!(eval("(= 'a' 'a' 'a')"), Ok(vec![Token::Digit(1)]));
    assert_eq!(eval("(= 1 1 2)"), Ok(vec![Token::Digit(0)]));
    assert_eq!(eval("(= 1 'a')"), Err(Fault::Type));
    assert_eq!(eval("(= 1 2 'a')"), Err(Fault::Type));
    assert_eq!(eval("(= (nth 0 x) 1)"), Err(Fault::Type));
}

#[test]
fn conversions() {
    assert_eq!(eval("(str 42 'x')"), Ok(vec![text("42"), text("x")]));
    assert_eq!(eval("(int '17' 3 '+4')"), Ok(vec![Token::Digit(17), Token::Digit(3), Token::Digit(4)]));
    assert_eq!(eval("(int 'x')"), Err(Fault::Value));
    assert_eq!(eval("(as-int 'A')"), Ok(vec![Token::Digit(65)]));
    assert_eq!(eval("(as-int 'AB')"), Err(Fault::Value));
    assert_eq!(eval("(as-char 66)"), Ok(vec![text("B")]));
    assert_eq!(eval("(as-str 104 105)"), Ok(vec![text("hi")]));
    assert_eq!(eval("(bytes 'h\u{e9}')"), Ok(vec![Token::Digit(104), Token::Digit(195), Token::Digit(169)]));
    assert_eq!(eval("(chars 'ab')"), Ok(vec![text("a"), text("b")]));
    assert_eq!(eval("(str-collect 'ab' 'cd')"), Ok(vec![text("abcd")]));
}

#[test]
fn list_operations() {
    assert_eq!(eval("(len 5 6 7)"), Ok(vec![Token::Digit(3)]));
    assert_eq!(eval("(nth 1 5 6 7)"), Ok(vec![Token::Digit(6)]));
    assert_eq!(eval("(rm 0 5 6 7)"), Ok(vec![Token::Digit(6), Token::Digit(7)]));
    assert_eq!(eval("(nth 3 5 6 7)"), Err(Fault::Index));
    assert_eq!(eval("(ident-name (args))"), Err(Fault::Arity));
}

#[test]
fn kind_tests_and_tables() {
    assert_eq!(eval("(int? 1)"), Ok(vec![Token::Digit(1)]));
    assert_eq!(eval("(str? 1)"), Ok(vec![Token::Digit(0)]));
    assert_eq!(eval("(let f (1)) (def? f)"), Ok(vec![Token::Digit(1)]));
    assert_eq!(eval("(undef? f)"), Ok(vec![Token::Digit(1)]));
    assert_eq!(eval("(mut v 1) (mut? v)"), Ok(vec![Token::Digit(1)]));
    assert_eq!(eval("(let f (1)) (ident-addr f)"), Ok(vec![text("f0")]));
    assert_eq!(eval("(ident-addr g)"), Ok(vec![text("0x0")]));
    assert_eq!(eval("(let f (1)) (let f (2))"), Err(Fault::Redefinition));
}

#[test]
fn lambda_case_cond_bind_while() {
    assert_eq!(eval("((lambda (x) (+ (% 0) 1)) 4)"), Ok(vec![Token::Digit(5)]));
    assert_eq!(eval("(case 2 (1) ('one') (2) ('two') ('other'))"), Ok(vec![text("two")]));
    assert_eq!(eval("(case 9 (1) ('one') ('other'))"), Ok(vec![text("other")]));
    assert_eq!(eval("(cond (= 1 2) ('a') (= 1 1) ('b'))"), Ok(vec![text("b")]));
    assert_eq!(eval("(bind y (+ 1 2) (* y y))"), Ok(vec![Token::Digit(9)]));
    assert_eq!(
        eval("(mut i 0) (while (< (!i) 3) (set i (+ (!i) 1))) (!i)"),
        Ok(vec![Token::Digit(3)])
    );
    assert_eq!(eval("(while 2 (1))"), Err(Fault::Type));
}

#[test]
fn let_with_rest_parameter() {
    assert_eq!(
        eval("(let f a b rest (+ a b (len rest))) (f 1 2 3 4)"),
        Ok(vec![Token::Digit(5)])
    );
}

#[test]
fn empty_group_and_literal_heads() {
    assert_eq!(eval("()"), Ok(vec![]));
    assert_eq!(eval("(1 2 'x')"), Ok(vec![Token::Digit(1), Token::Digit(2), text("x")]));
}

#[test]
fn printing_collects_output() {
    let (st, r) = eval_with("(pr 'x' 5) (pr 'y')", vec![]);
    assert_eq!(r, Ok(vec![]));
    assert_eq!(st.output().clone(), vec!["x 5".to_string(), "y".to_string()]);
}

#[test]
fn outside_requests_and_replies() {
    let (st, r) = eval_with("(file-read 'p')", vec![]);
    assert_eq!(r, Err(Fault::Pending));
    assert_eq!(st.pending(), Some(Request::ReadFile("p".to_string())));
    let (_, r) = eval_with("(file-read 'p')", vec![Reply::Text("abc".to_string())]);
    assert_eq!(r, Ok(vec![text("abc")]));
    let (_, r) = eval_with("(file-read 'p')", vec![Reply::Failed]);
    assert_eq!(r, Err(Fault::Io));
    let (_, r) = eval_with("(get-env 'HOME')", vec![Reply::Failed]);
    assert_eq!(r, Ok(vec![text("")]));
    let (_, r) = eval_with("(file-write 'p' 'c')", vec![Reply::Done]);
    assert_eq!(r, Ok(vec![Token::Digit(1)]));
    let (st, r) = eval_with("(input 'name? ')", vec![Reply::Text("bo".to_string())]);
    assert_eq!(r, Ok(vec![text("bo")]));
    assert_eq!(st.output().clone(), vec!["name? ".to_string()]);
}

#[test]
fn load_and_eval_run_code() {
    let (_, r) = eval_with("(load 'lib' 7)", vec![Reply::Text("(% 0)".to_string())]);
    assert_eq!(r, Ok(vec![Token::Digit(7)]));
    assert_eq!(eval("(eval '(+ 1 2)')"), Ok(vec![Token::Digit(3)]));
}

#[test]
fn run_tokens_nested_call() {
    let mut st = Interp::new(vec![]);
    let toks = vec![ident("+"), Token::Digit(2), Token::Digit(3)];
    assert_eq!(run_tokens(&mut st, &toks, 1, &vec![], FUEL), Ok(vec![Token::Digit(5)]));
    assert_eq!(run_tokens(&mut st, &toks, 0, &vec![], FUEL), Ok(toks.clone()));
}

#[test]
fn budget_runs_out() {
    assert_eq!(run_file_init("(+ 1 2)", vec![], 1).1, Err(Fault::Exhausted));
    assert_eq!(run_file_init("(let f (f)) (f)", vec![], 1000).1, Err(Fault::Exhausted));
}

#[test]
fn token_text_forms() {
    assert_eq!(token_show(&text("a")), "Str('a')");
    assert_eq!(token_show(&Token::Digit(120)), "Digit(120)");
    assert_eq!(token_show(&ident("x")), "Ident('x')");
    assert_eq!(token_show(&Token::OPair), "OPair");
    assert_eq!(token_kind(&TokenKind::Ident), "Ident");
    assert_eq!(token_kind(&TokenKind::Nil), "Nil");
}

#[test]
fn group_marker_head_is_not_callable() {
    let mut st = Interp::new(vec![]);
    let toks = vec![Token::CPair, Token::Digit(1)];
    let r = run_tokens(&mut st, &toks, 1, &vec![], FUEL);
    assert_eq!(r, Err(Fault::NotCallable));
    assert_eq!(Fault::NotCallable.exit_code(), 4);
}

#[test]
fn library_file_defines_functions() {
    let mut st = Interp::new(vec![Reply::Text("(let double (x) (* (% 0) 2))".to_string())]);
    assert_eq!(run_include(&mut st, "lib", FUEL), Ok(vec![]));
    assert_eq!(run_str(&mut st, "(double 4)", 0, &vec![], FUEL), Ok(vec![Token::Digit(8)]));
    let mut fresh = Interp::new(vec![]);
    assert_eq!(run_include(&mut fresh, "lib", FUEL), Err(Fault::Pending));
    assert_eq!(fresh.pending(), Some(Request::Library("lib".to_string())));
}

#[test]
fn exit_codes_of_all_faults() {
    let all = [
        Fault::Arity,
        Fault::Type,
        Fault::ZeroDivision,
        Fault::NotCallable,
        Fault::Index,
        Fault::UnknownIdent,
        Fault::Value,
        Fault::Redefinition,
        Fault::Underflow,
        Fault::Io,
        Fault::Exhausted,
        Fault::Pending,
    ];
    let codes: Vec<i32> = all.iter().map(|f| f.exit_code()).collect();
    assert_eq!(codes, vec![1, 2, 3, 4, 5, 6, 7, 8, 69, 101, 102, 103]);
}

#[test]
fn nested_arithmetic_leaves_state_alone() {
    let mut st = Interp::new(vec![]);
    let prog = "(+ (* 2 (- 7 4)) (/ 9 3) 1)";
    let first = run_str(&mut st, prog, 0, &vec![], FUEL);
    assert_eq!(first, Ok(vec![Token::Digit(10)]));
    assert!(st.output().is_empty());
    assert_eq!(st.pending(), None);
    let second = run_str(&mut st, prog, 0, &vec![], FUEL);
    assert_eq!(first, second);
}

#[test]
fn bind_evaluates_its_value_once() {
    assert_eq!(eval("(let g (5)) (bind y (nth 0 g) (ident? y))"), Ok(vec![Token::Digit(1)]));
    assert_eq!(eval("(bind y (range 3) (+ y))"), Ok(vec![Token::Digit(3)]));
}
