use feox::env::Store;
use feox::lexer::ParseError;
use feox::session::{new_session, run, RunError, STDLIB};
use feox::value::{EvalError, Value};

const FUEL: u64 = 1_000_000;

fn session() -> Store {
    let mut s = new_session();
    run(STDLIB, &mut s, FUEL).expect("the standard library runs");
    s
}

/// The shown value of the last statement of `src`, or the error.
fn value_of(src: &str) -> Result<String, RunError> {
    let mut s = session();
    run(src, &mut s, FUEL).map(|v| v.display())
}

fn shown(src: &str) -> String {
    match value_of(src) {
        Ok(v) => v,
        Err(e) => panic!("{:?} failed: {:?}", src, e),
    }
}

/// What `src` prints.
fn printed(src: &str) -> String {
    let mut s = session();
    run(src, &mut s, FUEL).expect("runs");
    s.output().iter().collect()
}

fn eval_error(src: &str) -> EvalError {
    match value_of(src) {
        Err(RunError::Eval(e)) => e,
        other => panic!("{:?} gave {:?}", src, other),
    }
}

#[test]
fn arithmetic() {
    assert_eq!(shown("1 + 2"), "3");
    assert_eq!(shown("10 - 3"), "7");
    assert_eq!(shown("4 * 5"), "20");
    assert_eq!(shown("10 / 3"), "3");
    assert_eq!(shown("10 % 3"), "1");
    assert_eq!(shown("2 ** 10"), "1024");
    assert_eq!(shown("-5"), "-5");
    assert_eq!(shown("2e9"), "2000000000");
}

#[test]
fn floor_division() {
    assert_eq!(shown("-7 / 2"), "-4");
    assert_eq!(shown("-7 % 2"), "1");
    assert_eq!(shown("7 / -2"), "-4");
    assert_eq!(shown("7 % -2"), "-1");
    assert_eq!(shown("let a = -7; let b = 2; b * (a / b) + a % b"), "-7");
}

#[test]
fn wrapping_arithmetic() {
    assert_eq!(shown("9223372036854775807 + 1"), "-9223372036854775808");
    assert_eq!(shown("2 ** 64"), "0");
    assert_eq!(shown("2 ** 0"), "1");
}

#[test]
fn bitwise() {
    assert_eq!(shown("10 & 12"), "8");
    assert_eq!(shown("10 | 12"), "14");
    assert_eq!(shown("10 ^ 12"), "6");
    assert_eq!(shown("1 << 3"), "8");
    assert_eq!(shown("16 >> 2"), "4");
    assert!(matches!(eval_error("1 << 64"), EvalError::TypeError("shift amount out of range")));
}

#[test]
fn booleans_and_comparisons() {
    assert_eq!(shown("true && false"), "0");
    assert_eq!(shown("true || false"), "1");
    assert_eq!(shown("!true"), "0");
    assert_eq!(shown("true == 1"), "1");
    assert_eq!(shown("false == 0"), "1");
    assert_eq!(shown("1 == 1"), "1");
    assert_eq!(shown("1 != 2"), "1");
    assert_eq!(shown("1 < 2"), "1");
    assert_eq!(shown("1 > 2"), "0");
    assert_eq!(shown("1 <= 1"), "1");
    assert_eq!(shown("1 >= 2"), "0");
}

#[test]
fn short_circuit() {
    assert_eq!(shown("false && missing"), "0");
    assert_eq!(shown("true || missing"), "1");
    assert!(matches!(eval_error("true && missing"), EvalError::UndefinedVariable(n) if n == "missing"));
}

#[test]
fn truthiness() {
    assert_eq!(shown("if 5 { 1 } else { 2 }"), "1");
    assert_eq!(shown("if \"hello\" { 1 } else { 2 }"), "1");
    assert_eq!(shown("if 0 { 1 } else { 2 }"), "2");
    assert_eq!(shown("if nil { 1 } else { 2 }"), "2");
    assert_eq!(shown("if [] { 1 } else { 2 }"), "1");
    assert_eq!(shown("if 0 { 1 }"), "nil");
}

#[test]
fn arrays() {
    assert_eq!(shown("[1, 2, 3][0]"), "1");
    assert_eq!(shown("let arr = [1, 2, 3]; arr[0] = 4; arr"), "[4, 2, 3]");
    assert_eq!(shown("let arr = [1, 2, 3]; arr + 4"), "[1, 2, 3, 4]");
    assert_eq!(shown("let arr = [1, 2, 3]; arr + [4, 5]"), "[1, 2, 3, 4, 5]");
    assert_eq!(shown("let arr = [1, 2, 3]; arr + [[4, 5]]"), "[1, 2, 3, [4, 5]]");
    assert_eq!(shown("let arr = [1, 2, 3]; arr.push([4, 5]); arr"), "[1, 2, 3, [4, 5]]");
    assert_eq!(shown("let arr = [1, 2, 3]; arr.push([4, 5])"), "nil");
    assert_eq!(shown("let arr = [1, 2, 3]; len(arr)"), "3");
    assert_eq!(shown("let arr = [1, 2, 3]; arr.len()"), "3");
    assert_eq!(shown("[1, \"abc\", nil]"), "[1, \"abc\", nil]");
    assert_eq!(shown("[1, 2] * 2"), "[1, 2, 1, 2]");
    assert_eq!(shown("let m = [[1, 2], [3, 4]]; m[1][0] = 9; m"), "[[1, 2], [9, 4]]");
}

#[test]
fn multiplying_arrays_repeats_them() {
    assert_eq!(shown("[1, 2] * 3"), "[1, 2, 1, 2, 1, 2]");
    assert_eq!(shown("2 * [[1], 'a']"), "[[1], a, [1], a]");
    assert_eq!(shown("len([1, 2] * -1)"), "0");
    assert_eq!(shown("len([1, 2] * 0)"), "0");
    assert_eq!(shown("let a = [7, 8, 9]; let k = 2; mod 5 { (a * k)[4] }"), "8");
    assert_eq!(shown("6 * 7 == 7 * 6"), "1");
    assert!(matches!(eval_error("nil * 2"), EvalError::TypeError("unsupported types for `*`")));
    assert!(matches!(eval_error("[1] * [2]"), EvalError::TypeError("unsupported types for `*`")));
}

#[test]
fn copies_on_use() {
    assert_eq!(shown("let a = [1, 2]; let b = a; b[0] = 9; a[0]"), "1");
    assert_eq!(shown("let a = [1, 2]; let b = a; b[0] = 9; b[0]"), "9");
}

#[test]
fn strings_are_char_arrays() {
    assert_eq!(shown("\"abc\" == ['a', 'b', 'c']"), "1");
    assert_eq!(shown("'a' + 1"), "b");
    assert_eq!(shown("'z' - 'a'"), "25");
    assert_eq!(shown("\"abc\" < \"abd\""), "1");
    assert_eq!(shown("\"abc\" == \"abc\""), "1");
    assert_eq!(shown("\"hello\" + \" \" + \"world\""), "\"hello world\"");
    assert_eq!(shown("\"abc\"[1]"), "b");
}

#[test]
fn comparison_order_reverses() {
    assert_eq!(shown("[1, 2] < [1, 3]"), "1");
    assert_eq!(shown("[1, 3] > [1, 2]"), "1");
    assert_eq!(shown("[1, 2] < [1, 2, 0]"), "1");
    assert_eq!(shown("[1, 2, 0] > [1, 2]"), "1");
    assert_eq!(shown("nil <= 5"), "1");
    assert_eq!(shown("nil < 5"), "0");
    assert_eq!(shown("1 < 'a'"), "0");
    assert_eq!(shown("'a' > 1"), "0");
}

#[test]
fn equality_is_symmetric() {
    assert_eq!(shown("[1, [2]] == [1, [2]]"), "1");
    assert_eq!(shown("[1, [2]] == [1, [3]]"), "0");
    assert_eq!(shown("[1, [3]] == [1, [2]]"), "0");
    assert_eq!(shown("nil == 0"), "0");
    assert_eq!(shown("0 == nil"), "0");
    assert_eq!(shown("let f = || 1; f == f"), "0");
}

#[test]
fn variables_and_control_flow() {
    assert_eq!(shown("let a = 0; a = 10; a"), "10");
    assert_eq!(shown("let a = 3; let sign = if a > 0 { 1 } else { -1 }; sign"), "1");
    assert_eq!(shown("let a = 0; let sign = if a > 0 { 1 } else { if a < 0 { -1 } else { 0 } }; sign"), "0");
    assert_eq!(shown("let a = 3; while a > 0 { a = a - 1; }; a"), "0");
    assert_eq!(shown("let a = 0; while true { if a > 10 { break }; a = a + 1; }; a"), "11");
    assert_eq!(shown("let i = 0; let s = 0; while i < 5 { i = i + 1; if i == 3 { continue }; s = s + i; }; s"), "12");
}

#[test]
fn continue_tests_the_condition_again() {
    assert_eq!(shown("let a = 0; while a < 3 { a = a + 1; continue }; a"), "3");
    assert_eq!(shown("let a = 0; while a < 3 { a = a + 1; continue }"), "nil");
    assert_eq!(printed("let a = 0; while a < 3 { a = a + 1; print(a); continue; print(0); }"), "123");
}

#[test]
fn push_extends_the_variable() {
    assert_eq!(shown("let r = []; push(r, 1); push(r, 2); r"), "[1, 2]");
    assert_eq!(shown("let r = [1]; push(r, 2)"), "[1, 2]");
    assert_eq!(shown("let r = [1]; let s = r; push(s, 2); r"), "[1]");
    assert_eq!(shown("push([1], 2)"), "[1, 2]");
    assert_eq!(shown("let r = [1]; push(r, 2); len(r)"), "2");
    assert_eq!(shown("let it = (1..=3); collect(it)"), "[1, 2, 3]");
    assert_eq!(shown("(1..=3).map(|x| x * x).collect()"), "[1, 4, 9]");
}

#[test]
fn loops_give_nil() {
    assert_eq!(shown("let a = 3; while a > 0 { a = a - 1; }"), "nil");
    assert_eq!(shown("for x in (1..=3) { x }"), "nil");
    assert_eq!(shown("while 0 { 1 }"), "nil");
}

#[test]
fn for_loops() {
    assert_eq!(printed("for x in (1..=3) { print(x); }"), "123");
    assert_eq!(printed("for x in [1, 2, 3].into_iter() { print(x); }"), "123");
    assert_eq!(printed("for x in (1..10) { if x == 3 { break }; print(x); }"), "12");
    assert_eq!(printed("for x in (1..=5) { if x % 2 == 0 { continue }; print(x); }"), "135");
    assert!(matches!(eval_error("for x in [1, 2] { x }"), EvalError::TypeError("for only works on iterators")));
}

#[test]
fn functions() {
    assert_eq!(shown("let f = || 2; f()"), "2");
    assert_eq!(shown("let square = |x| x * x; square(3)"), "9");
    assert_eq!(shown("let f = |x| { let y = x * x; y + 1 }; f(3)"), "10");
    assert_eq!(shown("let f = |x| { if x > 0 { return x }; -x }; f(-4) + f(5)"), "9");
    assert_eq!(shown("let add = |a, b| a + b; add(2, 3)"), "5");
    assert_eq!(shown("let f = || { return; }; f()"), "nil");
}

#[test]
fn closures_share_their_scope() {
    assert_eq!(
        printed("let i = 0; let f = |x| { i = i + x; i }; print(f(2)); print(f(3)); print(i);"),
        "255"
    );
    assert_eq!(
        shown("let counter = || { let n = 0; || { n = n + 1; n } }; let c = counter(); c(); c(); c()"),
        "3"
    );
}

#[test]
fn methods() {
    assert_eq!(
        shown("let double = |arr| arr.into_iter().map(|x| x * 2).collect(); [1, 2, 3].double()"),
        "[2, 4, 6]"
    );
}

#[test]
fn iterators() {
    assert_eq!(shown("let iter = (1..=3); iter(); iter(); iter()"), "3");
    assert_eq!(shown("let iter = (1..=3); iter(); iter(); iter(); iter()"), "nil");
    assert_eq!(shown("(1..10).collect()"), "[1, 2, 3, 4, 5, 6, 7, 8, 9]");
    assert_eq!(shown("(1..=10).collect()"), "[1, 2, 3, 4, 5, 6, 7, 8, 9, 10]");
    assert_eq!(shown("\"abc\".into_iter().collect()"), "\"abc\"");
    assert_eq!(shown("(1..=5).map(|x| x * x).collect()"), "[1, 4, 9, 16, 25]");
    assert_eq!(shown("(1..=10).filter(|x| x % 2 == 0).collect()"), "[2, 4, 6, 8, 10]");
    assert_eq!(shown("(1..=10).take(3).collect()"), "[1, 2, 3]");
    assert_eq!(shown("(1..=5).skip(2).collect()"), "[3, 4, 5]");
    assert_eq!(shown("(1..=3).enumerate().collect()"), "[[0, 1], [1, 2], [2, 3]]");
    assert_eq!(shown("(1..=5).windows(3).collect()"), "[[1, 2, 3], [2, 3, 4], [3, 4, 5]]");
    assert_eq!(
        shown("[[1, 2], [3, 4]].into_iter().map(|x| x.into_iter()).flatten().collect()"),
        "[1, 2, 3, 4]"
    );
    assert_eq!(shown("zip((1..=3), (4..=6)).collect()"), "[[1, 4], [2, 5], [3, 6]]");
    assert_eq!(shown("chain((1..=3), (4..=6)).collect()"), "[1, 2, 3, 4, 5, 6]");
    assert_eq!(shown("(1..=100).sum()"), "5050");
    assert_eq!(shown("(1..=5).fold(|acc, x| acc * x, 1)"), "120");
    assert_eq!(shown("(1..=5).any()"), "1");
    assert_eq!(shown("(0..=5).all()"), "0");
    assert_eq!(shown("(1..=5).max()"), "5");
    assert_eq!(shown("(1..=5).min()"), "1");
    assert_eq!(shown("let always_one = || 1; always_one.take(2).collect()"), "[1, 1]");
}

#[test]
fn modular_blocks() {
    assert_eq!(shown("mod 10 { 7 + 8 }"), "5");
    assert_eq!(shown("mod 1e9 + 9 { 1e9 + 10 }"), "1");
    assert_eq!(shown("mod 10 { 3 - 8 }"), "5");
    assert_eq!(shown("mod 10 { -3 }"), "7");
    assert_eq!(shown("mod 7 { 2 ** 10 }"), "1");
    assert_eq!(shown("let e = 10; mod 7 { 2 ** e }"), "2");
}

#[test]
fn modular_scope() {
    assert_eq!(shown("let x = mod 10 { 7 + 8 }; x"), "5");
    assert_eq!(shown("let x = mod 10 { 7 + 8 }; x + 10"), "15");
    assert_eq!(shown("mod 10 { 1 }; 7 + 8"), "15");
    assert_eq!(shown("let f = || 7 + 8; mod 10 { f() }"), "5");
}

#[test]
fn modular_division() {
    assert_eq!(shown("mod 7 { 3 / 5 }"), "2");
    assert_eq!(shown("let q = mod 7 { 3 / 5 }; q * 5 % 7"), "3");
    assert_eq!(shown("mod 1e9 + 7 { 1 / 2 * 2 }"), "1");
    assert!(matches!(eval_error("mod 7 { 1 / 7 }"), EvalError::DivisionByZero));
    assert!(matches!(eval_error("mod 4 { 1 / 2 }"), EvalError::DivisionByZero));
}

#[test]
fn modulus_must_be_a_number() {
    assert!(matches!(eval_error("mod \"x\" { 1 }"), EvalError::TypeError("modulus has to be a number")));
}

#[test]
fn zero_modulus() {
    assert_eq!(shown("mod 0 { nil }"), "nil");
    assert_eq!(shown("let a = [1, 2]; let b = [3]; mod 0 { a + b }"), "[1, 2, 3]");
    assert_eq!(shown("mod 0 { 'a' }"), "a");
    assert!(matches!(eval_error("mod 0 { 1 }"), EvalError::DivisionByZero));
    assert!(matches!(eval_error("let x = 3; mod 0 { x + x }"), EvalError::DivisionByZero));
    assert!(matches!(eval_error("let x = 3; mod 0 { x / x }"), EvalError::DivisionByZero));
    assert!(matches!(eval_error("let x = 3; mod 0 { x ** x }"), EvalError::DivisionByZero));
    assert!(matches!(eval_error("let x = 3; mod 0 { -x }"), EvalError::DivisionByZero));
    assert_eq!(shown("mod 0 { nil }; 7 + 8"), "15");
}

#[test]
fn names_fall_back_to_the_calling_scope() {
    assert_eq!(shown("let g = || x; let f = || { let x = 2; g(); }; f()"), "2");
    assert_eq!(shown("let x = 1; let g = || x; let f = || { let x = 2; g() }; f()"), "1");
    assert_eq!(shown("let g = || { x = 5 }; let f = || { let x = 2; g(); x }; f()"), "5");
    assert_eq!(shown("let g = || y; let f = |y| g(); f(7)"), "7");
    assert_eq!(shown("let h = || z; let g = || h(); let f = || { let z = 4; g() }; f()"), "4");
    assert!(matches!(eval_error("let g = || x; g()"), EvalError::UndefinedVariable(n) if n == "x"));
    assert_eq!(shown("let g = || x; let x = 3; g()"), "3");
    assert_eq!(shown("let c = (1..=3); let i = 10; c()"), "1");
}

#[test]
fn negative_modulus() {
    assert_eq!(shown("mod -3 { 7 }"), "-2");
    assert_eq!(shown("mod -3 { -7 }"), "-1");
    assert_eq!(shown("mod -3 { 6 }"), "0");
    assert_eq!(shown("mod -3 { 2 + 2 }"), "-2");
    assert_eq!(shown("let e = 3; mod -10 { 2 ** e }"), "-2");
    assert_eq!(shown("mod -10 { 2 ** 3 }"), "-9");
    assert_eq!(shown("mod -10 { 1 / 3 }"), "-3");
}

#[test]
fn modular_power_is_reduced() {
    assert_eq!(shown("mod 10 { (-2) ** 3 }"), "2");
    assert_eq!(shown("mod 10 { (-2) ** 2 }"), "4");
    assert_eq!(shown("mod 10 { 3 ** 0 }"), "1");
    assert_eq!(shown("mod 1 { 3 ** 0 }"), "0");
    assert_eq!(shown("mod 7 { (-1) ** 5 }"), "6");
}

#[test]
fn modular_division_by_any_coprime_number() {
    assert_eq!(shown("mod 10 { 1 / 3 }"), "7");
    assert_eq!(shown("mod 10 { 4 / 3 }"), "8");
    assert_eq!(shown("mod 9 { 2 / 4 }"), "5");
    assert_eq!(shown("mod 10 { -1 / 3 }"), "3");
    assert!(matches!(eval_error("mod 10 { 1 / 5 }"), EvalError::DivisionByZero));
    assert!(matches!(eval_error("mod 10 { 1 / 0 }"), EvalError::DivisionByZero));
    assert_eq!(shown("mod 1 { 5 / 3 }"), "0");
}

#[test]
fn errors() {
    assert!(matches!(eval_error("missing"), EvalError::UndefinedVariable(n) if n == "missing"));
    assert!(matches!(eval_error("[1][5]"), EvalError::IndexError));
    assert!(matches!(eval_error("[1][-1]"), EvalError::IndexError));
    assert!(matches!(eval_error("\"a\" - 1"), EvalError::TypeError("unsupported types for `-`")));
    assert!(matches!(eval_error("1 / 0"), EvalError::DivisionByZero));
    assert!(matches!(eval_error("1 % 0"), EvalError::DivisionByZero));
    assert!(matches!(eval_error("(|x| x)(1, 2)"), EvalError::WrongNumberOfArgs(m) if m == "expected 1 got 2"));
    assert!(matches!(eval_error("len(1)"), EvalError::TypeError("argument of len has to be an array")));
    assert!(matches!(eval_error("len([1], 2)"), EvalError::WrongNumberOfArgs(m) if m == "expected 1 got 2"));
    assert!(matches!(eval_error("1(2)"), EvalError::TypeError("can only call functions")));
    assert!(matches!(eval_error("1[0]"), EvalError::TypeError("cannot index into non-array")));
    assert!(matches!(eval_error("[1][nil]"), EvalError::TypeError("index has to be a number")));
    assert!(matches!(eval_error("-\"a\""), EvalError::TypeError("unary op requires a number")));
    assert!(matches!(eval_error("push(1, 2)"), EvalError::TypeError("can only push to arrays")));
    assert!(matches!(eval_error("x = 1"), EvalError::UndefinedVariable(n) if n == "x"));
    assert!(matches!(eval_error("break"), EvalError::Break));
    assert!(matches!(eval_error("continue"), EvalError::Continue));
    assert!(matches!(eval_error("return 5"), EvalError::Return(Some(Value::Number(5)))));
}

#[test]
fn fuel_runs_out() {
    let mut s = session();
    assert!(matches!(run("while true { 1 }", &mut s, 50), Err(RunError::Eval(EvalError::StepLimit))));
    assert!(matches!(run("1 + 1", &mut s, 1), Err(RunError::Eval(EvalError::StepLimit))));
    assert!(matches!(run("1 + 1", &mut s, 3).map(|v| v.display()), Ok(ref v) if v == "2"));
}

#[test]
fn parse_errors_leave_the_store() {
    let mut s = session();
    run("let x = 1", &mut s, FUEL).unwrap();
    assert!(matches!(run("x = ", &mut s, FUEL), Err(RunError::Parse(ParseError::UnexpectedToken(2)))));
    assert_eq!(run("x", &mut s, FUEL).unwrap().display(), "1");
}

#[test]
fn printing() {
    assert_eq!(printed("print(\"hi\")"), "hi");
    assert_eq!(printed("print([1, \"a\", [2, 3]])"), "1 \"a\" [2, 3]");
    assert_eq!(printed("print(nil)"), "nil");
    assert_eq!(printed("print('x'); print(-12)"), "x-12");
    assert_eq!(printed("print(1 + 1)"), "2");
    assert_eq!(shown("print(1)"), "nil");
    assert!(matches!(eval_error("print(|x| x)"), EvalError::TypeError("can't print that type")));
}

#[test]
fn reading_input() {
    let mut s = session();
    s.set_input(b"  hello world\nagain".to_vec());
    assert_eq!(run("input()", &mut s, FUEL).unwrap().display(), "\"hello\"");
    assert_eq!(run("let w = input(); w", &mut s, FUEL).unwrap().display(), "\"world\"");
    assert_eq!(run("input()", &mut s, FUEL).unwrap().display(), "\"again\"");
    assert_eq!(run("input()", &mut s, FUEL).unwrap().display(), "\"\"");
}

#[test]
fn shown_values() {
    assert_eq!(shown("|x| x"), "<lambda>");
    assert_eq!(shown("len"), "<builtin>");
    assert_eq!(shown("'q'"), "q");
    assert_eq!(shown("nil"), "nil");
}

#[test]
fn documented_examples() {
    assert_eq!(printed("print((1..=10).sum());"), "55");
    assert_eq!(shown("2 + 2;"), "4");
    assert_eq!(shown("(1..=100).sum() ** 2 - (1..=100).map(|x| x * x).sum();"), "25164150");
    assert_eq!(shown("(1..1000).filter(|x| (x % 3 == 0) | (x % 5 == 0)).sum();"), "233168");
    assert_eq!(shown("mod 13 { (1..=11).filter(|x| x * x == 10).first(); };"), "6");
    assert_eq!(shown("mod 13 { (1..=12).collect() }"), "\"\"");
}
