use feox::arith::mod_inverse;
use feox::builtins::{len, push};
use feox::env::{Env, Store};
use feox::eval::is_true;
use feox::value::{EvalError, Value};

fn num(n: i64) -> Value {
    Value::Number(n)
}

fn number(r: Result<Value, EvalError>) -> i64 {
    match r {
        Ok(Value::Number(n)) => n,
        other => panic!("not a number: {:?}", other),
    }
}

#[test]
fn set_then_get() {
    let mut e = Env::new();
    let store = Store::new();
    assert!(e.get("x", &store).is_none());
    e.set("x".to_string(), num(5));
    assert_eq!(e.get("x", &store).map(|v| v.display()), Some("5".to_string()));
    e.set("x".to_string(), num(6));
    e.set("y".to_string(), num(7));
    assert_eq!(e.get("x", &store).map(|v| v.display()), Some("6".to_string()));
    assert_eq!(e.get("y", &store).map(|v| v.display()), Some("7".to_string()));
}

#[test]
fn child_sees_enclosing_scope() {
    let mut store = Store::new();
    store.declare(0, "x".to_string(), num(1));
    let mut child = Env::child(0, store.frame(0));
    assert_eq!(child.get("x", &store).map(|v| v.display()), Some("1".to_string()));
    child.set("x".to_string(), num(2));
    assert_eq!(child.get("x", &store).map(|v| v.display()), Some("2".to_string()));
    assert_eq!(store.frame(0).get("x", &store).map(|v| v.display()), Some("1".to_string()));
    assert!(child.get("y", &store).is_none());
}

#[test]
fn child_keeps_its_own_moduli() {
    let mut store = Store::new();
    store.push_modulus(0, 10);
    let ch = Env::child(0, store.frame(0));
    let c = store.push_frame(ch);
    assert_eq!(store.frame(c).current_modulus(), Some(10));
    store.push_modulus(0, 7);
    assert_eq!(store.frame(c).current_modulus(), Some(10));
    assert_eq!(store.frame(0).current_modulus(), Some(7));
    store.declare(c, "z".to_string(), num(3));
    assert!(store.lookup(0, &"z".to_string()).is_none());
    assert_eq!(store.lookup(c, &"z".to_string()).map(|v| v.display()), Some("3".to_string()));
}

#[test]
fn call_scope_falls_back_to_the_caller() {
    let mut store = Store::new();
    store.declare(0, "g".to_string(), num(0));
    let f = Env::call_scope(0, 0, store.frame(0));
    let f = store.push_frame(f);
    store.declare(f, "x".to_string(), num(2));
    let g = Env::call_scope(0, f, store.frame(0));
    assert_eq!(g.get("x", &store).map(|v| v.display()), Some("2".to_string()));
    assert_eq!(g.get("g", &store).map(|v| v.display()), Some("0".to_string()));
    let g = store.push_frame(g);
    assert_eq!(store.lookup(g, &"x".to_string()).map(|v| v.display()), Some("2".to_string()));
    assert!(store.lookup_chain(g, &"x".to_string()).is_none());
    assert_eq!(store.owner(g, &"x".to_string()), Some(f));
    assert!(store.lookup(0, &"x".to_string()).is_none());
}

#[test]
fn modify_reaches_enclosing_scope() {
    let mut store = Store::new();
    store.declare(0, "arr".to_string(), Value::Array(vec![num(1), num(2), num(3)]));
    let mut child = Env::child(0, store.frame(0));
    let r = child.modify("arr".to_string(), vec![num(1)], num(9), &mut store);
    assert_eq!(number(r), 9);
    assert_eq!(store.frame(0).get("arr", &store).map(|v| v.display()), Some("[1, 9, 3]".to_string()));
    let bad = child.modify("arr".to_string(), vec![num(5)], num(0), &mut store);
    assert!(matches!(bad, Err(EvalError::IndexError)));
    let missing = child.modify("nope".to_string(), vec![], num(0), &mut store);
    assert!(matches!(missing, Err(EvalError::UndefinedVariable(n)) if n == "nope"));
}

#[test]
fn modify_local_binding() {
    let mut store = Store::new();
    let mut e = Env::new();
    e.set("m".to_string(), Value::Array(vec![Value::Array(vec![num(1), num(2)]), num(3)]));
    let r = e.modify("m".to_string(), vec![num(0), num(1)], num(7), &mut store);
    assert_eq!(number(r), 7);
    assert_eq!(e.get("m", &store).map(|v| v.display()), Some("[[1, 7], 3]".to_string()));
    let r = e.modify("m".to_string(), vec![num(1), num(0)], num(7), &mut store);
    assert!(matches!(r, Err(EvalError::TypeError("cannot index into non-array"))));
}

#[test]
fn modulus_stack() {
    let mut e = Env::new();
    assert_eq!(e.current_modulus(), None);
    assert_eq!(e.modded(15), 15);
    e.set_modulus(10);
    assert_eq!(e.modded(15), 5);
    assert_eq!(e.modded(-3), 7);
    e.set_modulus(7);
    assert_eq!(e.current_modulus(), Some(7));
    e.reset_modulus();
    assert_eq!(e.current_modulus(), Some(10));
    e.reset_modulus();
    assert_eq!(e.current_modulus(), None);
    assert_eq!(e.modded(-3), -3);
}

#[test]
fn arithmetic_in_scope() {
    let mut e = Env::new();
    assert_eq!(number(e.add(num(7), num(8))), 15);
    assert_eq!(number(e.sub(num(7), num(8))), -1);
    assert_eq!(number(e.mul(num(7), num(8))), 56);
    assert_eq!(number(e.div(num(-7), num(2))), -4);
    assert_eq!(number(e.rem(num(-7), num(2))), 1);
    assert_eq!(number(e.pow(num(3), num(4))), 81);
    assert_eq!(number(e.xor(num(10), num(12))), 6);
    assert_eq!(number(e.and(num(10), num(12))), 8);
    assert_eq!(number(e.or(num(10), num(12))), 14);
    assert_eq!(number(e.neg(5)), -5);
    assert_eq!(number(e.not(0)), 1);
    assert_eq!(number(e.not(3)), 0);
    e.set_modulus(10);
    assert_eq!(number(e.add(num(7), num(8))), 5);
    assert_eq!(number(e.sub(num(7), num(8))), 9);
    assert_eq!(number(e.mul(num(7), num(8))), 6);
    assert_eq!(number(e.neg(3)), 7);
    e.reset_modulus();
    e.set_modulus(7);
    assert_eq!(number(e.div(num(3), num(5))), 2);
    assert!(matches!(e.div(num(3), num(0)), Err(EvalError::DivisionByZero)));
    e.reset_modulus();
    e.set_modulus(10);
    assert_eq!(number(e.pow(num(-2), num(3))), 2);
    assert_eq!(number(e.div(num(1), num(3))), 7);
    assert!(matches!(e.div(num(1), num(4)), Err(EvalError::DivisionByZero)));
    e.reset_modulus();
    e.set_modulus(0);
    assert!(matches!(e.add(num(1), num(2)), Err(EvalError::DivisionByZero)));
    assert!(matches!(e.div(num(1), num(2)), Err(EvalError::DivisionByZero)));
    assert!(matches!(e.neg(1), Err(EvalError::DivisionByZero)));
    assert_eq!(e.add(Value::Array(vec![]), num(1)).unwrap().display(), "[1]");
    e.reset_modulus();
    e.set_modulus(-3);
    assert_eq!(e.modded(7), -2);
    assert_eq!(number(e.add(num(3), num(4))), -2);
    assert_eq!(number(e.neg(1)), -1);
}

#[test]
fn inverses() {
    assert_eq!(mod_inverse(3, 10), Some(7));
    assert_eq!(mod_inverse(-3, 10), Some(3));
    assert_eq!(mod_inverse(3, -10), Some(7));
    assert_eq!(mod_inverse(4, 10), None);
    assert_eq!(mod_inverse(0, 7), None);
    assert_eq!(mod_inverse(5, 1), Some(0));
    assert_eq!(mod_inverse(2, 1_000_000_007), Some(500_000_004));
    assert_eq!(mod_inverse(i64::MIN + 1, i64::MIN), Some(1));
    assert_eq!(mod_inverse(i64::MAX, i64::MIN), Some(i64::MAX));
}

#[test]
fn arithmetic_on_other_values() {
    let e = Env::new();
    let s = Value::Array(vec![Value::Char('a')]);
    assert_eq!(e.add(s, Value::Char('b')).unwrap().display(), "\"ab\"");
    assert_eq!(e.add(Value::Char('a'), num(2)).unwrap().display(), "c");
    assert_eq!(number(e.sub(Value::Char('c'), Value::Char('a'))), 2);
    assert!(matches!(e.add(Value::Nil, num(1)), Err(EvalError::TypeError(_))));
    assert!(matches!(e.div(num(1), num(0)), Err(EvalError::DivisionByZero)));
    assert!(matches!(e.add(Value::Char('a'), num(0x11_0000)), Err(EvalError::TypeError(_))));
}

#[test]
fn builtin_len_and_push() {
    assert_eq!(number(len(vec![Value::Array(vec![num(1), num(2)])])), 2);
    assert!(matches!(len(vec![num(1)]), Err(EvalError::TypeError("argument of len has to be an array"))));
    assert!(matches!(len(vec![]), Err(EvalError::WrongNumberOfArgs(m)) if m == "expected 1 got 0"));
    let mut args = vec![Value::Array(vec![num(1)]), num(2)];
    assert!(matches!(push(&mut args), Ok(Value::Nil)));
    assert_eq!(args[0].display(), "[1, 2]");
    assert_eq!(number(Ok(args[1].deep_clone())), 2);
    let mut args = vec![num(1), num(2)];
    assert!(matches!(push(&mut args), Err(EvalError::TypeError("can only push to arrays"))));
    assert_eq!(number(Ok(args[0].deep_clone())), 1);
    assert!(matches!(push(&mut vec![num(1)]), Err(EvalError::WrongNumberOfArgs(m)) if m == "expected 1 got 1"));
}

#[test]
fn truth_values() {
    assert!(!is_true(&Value::Nil));
    assert!(!is_true(&num(0)));
    assert!(is_true(&num(-1)));
    assert!(is_true(&Value::Array(vec![])));
    assert!(is_true(&Value::Char('a')));
}
