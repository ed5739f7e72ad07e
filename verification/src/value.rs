use vstd::prelude::*;

use crate::ast::{Expr, SExpr};

verus! {

/// Functions provided by the interpreter itself rather than written in FeOx.
#[derive(Debug, Clone, Copy, PartialEq, Eq, Structural)]
pub enum Builtin {
    Push,
    Print,
    Input,
    Len,
}

/// A runtime value. Arrays are values: using a variable copies it.
/// A lambda keeps the index of the frame it was created in.
#[derive(Debug)]
pub enum Value {
    Number(i64),
    Array(Vec<Value>),
    Char(char),
    Lambda { args: Vec<String>, body: Box<Expr>, env: usize },
    BuiltinFn(Builtin),
    Nil,
}

/// The mathematical model of a runtime value.
pub enum SValue {
    Number(i64),
    Array(Seq<SValue>),
    Char(char),
    Lambda { args: Seq<Seq<char>>, body: SExpr, env: nat },
    BuiltinFn(Builtin),
    Nil,
}

impl View for Value {
    type V = SValue;

    open spec fn view(&self) -> SValue
        decreases self,
    {
        match self {
            Value::Number(n) => SValue::Number(*n),
            Value::Array(a) => SValue::Array(value_views(a@)),
            Value::Char(c) => SValue::Char(*c),
            Value::Lambda { args, body, env } => SValue::Lambda {
                args: crate::ast::names_view(args@),
                body: (**body)@,
                env: *env as nat,
            },
            Value::BuiltinFn(b) => SValue::BuiltinFn(*b),
            Value::Nil => SValue::Nil,
        }
    }
}

/// The models of a list of values, in order.
pub open spec fn value_views(s: Seq<Value>) -> Seq<SValue>
    decreases s,
{
    if s.len() == 0 {
        Seq::empty()
    } else {
        value_views(s.drop_last()).push(s.last().view())
    }
}

pub proof fn lemma_value_views(s: Seq<Value>)
    ensures
        value_views(s).len() == s.len(),
        forall|i: int| 0 <= i < s.len() ==> #[trigger] value_views(s)[i] == s[i]@,
    decreases s.len(),
{
    if s.len() > 0 {
        lemma_value_views(s.drop_last());
        assert(value_views(s) == value_views(s.drop_last()).push(s.last().view()));
    } else {
        assert(value_views(s) == Seq::<SValue>::empty());
    }
}

/// Three-way result of comparing two values.
#[derive(Debug, Clone, Copy, PartialEq, Eq, Structural)]
pub enum Order {
    Less,
    Equal,
    Greater,
}

/// Errors, and the non-local exits (`break`, `continue`, `return`) that travel
/// the same way as errors until a loop or a call catches them.
#[derive(Debug)]
pub enum EvalError {
    TypeError(&'static str),
    IndexError,
    WrongNumberOfArgs(String),
    UndefinedVariable(String),
    DivisionByZero,
    Continue,
    Break,
    Return(Option<Value>),
    StepLimit,
}

/// The mathematical model of an error.
pub enum SError {
    TypeError(Seq<char>),
    IndexError,
    WrongNumberOfArgs(Seq<char>),
    UndefinedVariable(Seq<char>),
    DivisionByZero,
    Continue,
    Break,
    Return(Option<SValue>),
    StepLimit,
}

impl View for EvalError {
    type V = SError;

    open spec fn view(&self) -> SError {
        match self {
            EvalError::TypeError(s) => SError::TypeError(s@),
            EvalError::IndexError => SError::IndexError,
            EvalError::WrongNumberOfArgs(s) => SError::WrongNumberOfArgs(s@),
            EvalError::UndefinedVariable(s) => SError::UndefinedVariable(s@),
            EvalError::DivisionByZero => SError::DivisionByZero,
            EvalError::Continue => SError::Continue,
            EvalError::Break => SError::Break,
            EvalError::Return(v) => SError::Return(
                match v {
                    Some(v) => Some(v@),
                    None => None,
                },
            ),
            EvalError::StepLimit => SError::StepLimit,
        }
    }
}

/// The outcome of evaluating an expression.
pub type EvalResult = Result<Value, EvalError>;

/// The model of an outcome.
pub type SResult = Result<SValue, SError>;

pub open spec fn result_view(r: EvalResult) -> SResult {
    match r {
        Ok(v) => Ok(v@),
        Err(e) => Err(e@),
    }
}

/// `nil` and the number zero are false; every other value is true.
pub open spec fn truthy(v: SValue) -> bool {
    match v {
        SValue::Nil => false,
        SValue::Number(n) => n != 0,
        _ => true,
    }
}

/// Equality as the `==` operator sees it: numbers, characters and `nil` by
/// value, arrays element by element; lambdas and builtins are never equal.
pub open spec fn values_equal(a: SValue, b: SValue) -> bool
    decreases a,
{
    match (a, b) {
        (SValue::Number(x), SValue::Number(y)) => x == y,
        (SValue::Char(x), SValue::Char(y)) => x == y,
        (SValue::Nil, SValue::Nil) => true,
        (SValue::Array(x), SValue::Array(y)) => seqs_equal(x, y),
        _ => false,
    }
}

/// Two sequences of values are equal when they have the same length and
/// equal elements in the same places.
pub open spec fn seqs_equal(x: Seq<SValue>, y: Seq<SValue>) -> bool
    decreases x,
{
    if x.len() == 0 || y.len() == 0 {
        x.len() == y.len()
    } else {
        values_equal(x[0], y[0]) && seqs_equal(x.drop_first(), y.drop_first())
    }
}

pub open spec fn order_of(x: int, y: int) -> Order {
    if x < y {
        Order::Less
    } else if x == y {
        Order::Equal
    } else {
        Order::Greater
    }
}

/// The partial order behind `<`, `<=`, `>`, `>=`: `nil` compares equal to
/// anything, numbers and characters by value, arrays lexicographically.
pub open spec fn values_order(a: SValue, b: SValue) -> Option<Order>
    decreases a,
{
    match (a, b) {
        (SValue::Nil, _) => Some(Order::Equal),
        (_, SValue::Nil) => Some(Order::Equal),
        (SValue::Number(x), SValue::Number(y)) => Some(order_of(x as int, y as int)),
        (SValue::Char(x), SValue::Char(y)) => Some(order_of(x as int, y as int)),
        (SValue::Array(x), SValue::Array(y)) => seqs_order(x, y),
        _ => None,
    }
}

/// Lexicographic order of two sequences of values: the first pair that is not
/// equal decides; when one is a prefix of the other, the shorter one is less.
pub open spec fn seqs_order(x: Seq<SValue>, y: Seq<SValue>) -> Option<Order>
    decreases x,
{
    if x.len() == 0 || y.len() == 0 {
        Some(order_of(x.len() as int, y.len() as int))
    } else {
        match values_order(x[0], y[0]) {
            Some(Order::Equal) => seqs_order(x.drop_first(), y.drop_first()),
            other => other,
        }
    }
}

impl Value {
    /// A copy with the same model.
    pub fn deep_clone(&self) -> (r: Value)
        ensures
            r@ == self@,
        decreases self,
    {
        match self {
            Value::Number(n) => Value::Number(*n),
            Value::Array(a) => Value::Array(clone_values(a)),
            Value::Char(c) => Value::Char(*c),
            Value::Lambda { args, body, env } => Value::Lambda {
                args: clone_names(args),
                body: Box::new(crate::ast::clone_expr(body)),
                env: *env,
            },
            Value::BuiltinFn(b) => Value::BuiltinFn(*b),
            Value::Nil => Value::Nil,
        }
    }
}

/// Copies a list of values.
pub fn clone_values(a: &Vec<Value>) -> (r: Vec<Value>)
    ensures
        value_views(r@) == value_views(a@),
    decreases a,
{
    let mut r: Vec<Value> = Vec::new();
    let mut i: usize = 0;
    while i < a.len()
        invariant
            i <= a.len(),
            value_views(r@) == value_views(a@.take(i as int)),
        decreases a.len() - i,
    {
        let c = a[i].deep_clone();
        proof {
            assert(a@.take(i + 1).drop_last() =~= a@.take(i as int));
            assert(a@.take(i + 1).last() == a@[i as int]);
            assert(r@.push(c).drop_last() =~= r@);
            assert(value_views(a@.take(i + 1)) == value_views(a@.take(i + 1).drop_last()).push(
                a@.take(i + 1).last().view(),
            ));
            assert(value_views(r@.push(c)) == value_views(r@.push(c).drop_last()).push(
                r@.push(c).last().view(),
            ));
        }
        r.push(c);
        i += 1;
    }
    assert(a@.take(a.len() as int) =~= a@);
    r
}

/// Copies a list of names.
pub fn clone_names(a: &Vec<String>) -> (r: Vec<String>)
    ensures
        crate::ast::names_view(r@) == crate::ast::names_view(a@),
{
    let mut r: Vec<String> = Vec::new();
    let mut i: usize = 0;
    while i < a.len()
        invariant
            i <= a.len(),
            r@.len() == i,
            forall|j: int| 0 <= j < i ==> r@[j]@ == a@[j]@,
        decreases a.len() - i,
    {
        r.push(a[i].clone());
        i += 1;
    }
    assert(crate::ast::names_view(r@) =~= crate::ast::names_view(a@));
    r
}

/// The characters `w` as values.
pub open spec fn char_values(w: Seq<char>) -> Seq<SValue>
    decreases w.len(),
{
    if w.len() == 0 {
        Seq::empty()
    } else {
        char_values(w.drop_last()).push(SValue::Char(w.last()))
    }
}

/// The string made of the characters `w`.
pub open spec fn string_value(w: Seq<char>) -> SValue {
    SValue::Array(char_values(w))
}

fn char_value(c: char) -> (r: Value)
    ensures
        r@ == SValue::Char(c),
{
    Value::Char(c)
}

/// The string value of a word.
pub fn word_value(w: &Vec<char>) -> (r: Value)
    ensures
        r@ == string_value(w@),
{
    let mut a: Vec<Value> = Vec::new();
    let mut i: usize = 0;
    proof {
        assert(w@.take(0) =~= Seq::<char>::empty());
        assert(value_views(a@) == Seq::<SValue>::empty());
    }
    while i < w.len()
        invariant
            i <= w@.len(),
            value_views(a@) == char_values(w@.take(i as int)),
        decreases w@.len() - i,
    {
        let v = char_value(w[i]);
        proof {
            let t = w@.take(i + 1);
            assert(t.drop_last() =~= w@.take(i as int));
            assert(char_values(t) == char_values(t.drop_last()).push(SValue::Char(t.last())));
            assert(a@.push(v).drop_last() =~= a@);
            assert(value_views(a@.push(v)) == value_views(a@.push(v).drop_last()).push(
                a@.push(v).last().view(),
            ));
        }
        a.push(v);
        i += 1;
    }
    assert(w@.take(w@.len() as int) =~= w@);
    Value::Array(a)
}

/// Equality as the `==` operator sees it, see [`values_equal`].
pub fn values_eq(a: &Value, b: &Value) -> (r: bool)
    ensures
        r == values_equal(a@, b@),
    decreases a, 1nat,
{
    match a {
        Value::Number(x) => match b {
            Value::Number(y) => *x == *y,
            _ => false,
        },
        Value::Char(x) => match b {
            Value::Char(y) => *x == *y,
            _ => false,
        },
        Value::Nil => match b {
            Value::Nil => true,
            _ => false,
        },
        Value::Array(x) => match b {
            Value::Array(y) => arrays_eq(x, y),
            _ => false,
        },
        _ => false,
    }
}

fn arrays_eq(x: &Vec<Value>, y: &Vec<Value>) -> (r: bool)
    ensures
        r == seqs_equal(value_views(x@), value_views(y@)),
    decreases x, 0nat,
{
    proof {
        lemma_value_views(x@);
        lemma_value_views(y@);
        assert(value_views(x@).skip(0) =~= value_views(x@));
        assert(value_views(y@).skip(0) =~= value_views(y@));
    }
    let mut i: usize = 0;
    while i < x.len() && i < y.len()
        invariant
            i <= x@.len(),
            i <= y@.len(),
            value_views(x@).len() == x@.len(),
            value_views(y@).len() == y@.len(),
            forall|j: int| 0 <= j < x@.len() ==> #[trigger] value_views(x@)[j] == x@[j]@,
            forall|j: int| 0 <= j < y@.len() ==> #[trigger] value_views(y@)[j] == y@[j]@,
            seqs_equal(value_views(x@), value_views(y@)) == seqs_equal(
                value_views(x@).skip(i as int),
                value_views(y@).skip(i as int),
            ),
        decreases x@.len() - i,
    {
        let ghost xs = value_views(x@).skip(i as int);
        let ghost ys = value_views(y@).skip(i as int);
        assert(xs[0] == x@[i as int]@);
        assert(ys[0] == y@[i as int]@);
        assert(xs.drop_first() =~= value_views(x@).skip(i + 1));
        assert(ys.drop_first() =~= value_views(y@).skip(i + 1));
        if !values_eq(&x[i], &y[i]) {
            return false;
        }
        i += 1;
    }
    x.len() == y.len()
}

/// The order of two values, see [`values_order`].
pub fn compare(a: &Value, b: &Value) -> (r: Option<Order>)
    ensures
        r == values_order(a@, b@),
    decreases a, 1nat,
{
    match (a, b) {
        (Value::Nil, _) => Some(Order::Equal),
        (_, Value::Nil) => Some(Order::Equal),
        (Value::Number(x), Value::Number(y)) => Some(
            if *x < *y {
                Order::Less
            } else if *x == *y {
                Order::Equal
            } else {
                Order::Greater
            },
        ),
        (Value::Char(x), Value::Char(y)) => Some(
            if (*x as u32) < (*y as u32) {
                Order::Less
            } else if *x == *y {
                Order::Equal
            } else {
                Order::Greater
            },
        ),
        (Value::Array(x), Value::Array(y)) => arrays_order(x, y),
        _ => None,
    }
}

fn arrays_order(x: &Vec<Value>, y: &Vec<Value>) -> (r: Option<Order>)
    ensures
        r == seqs_order(value_views(x@), value_views(y@)),
    decreases x, 0nat,
{
    proof {
        lemma_value_views(x@);
        lemma_value_views(y@);
        assert(value_views(x@).skip(0) =~= value_views(x@));
        assert(value_views(y@).skip(0) =~= value_views(y@));
    }
    let mut i: usize = 0;
    while i < x.len() && i < y.len()
        invariant
            i <= x@.len(),
            i <= y@.len(),
            value_views(x@).len() == x@.len(),
            value_views(y@).len() == y@.len(),
            forall|j: int| 0 <= j < x@.len() ==> #[trigger] value_views(x@)[j] == x@[j]@,
            forall|j: int| 0 <= j < y@.len() ==> #[trigger] value_views(y@)[j] == y@[j]@,
            seqs_order(value_views(x@), value_views(y@)) == seqs_order(
                value_views(x@).skip(i as int),
                value_views(y@).skip(i as int),
            ),
        decreases x@.len() - i,
    {
        let ghost xs = value_views(x@).skip(i as int);
        let ghost ys = value_views(y@).skip(i as int);
        assert(xs[0] == x@[i as int]@);
        assert(ys[0] == y@[i as int]@);
        assert(xs.drop_first() =~= value_views(x@).skip(i + 1));
        assert(ys.drop_first() =~= value_views(y@).skip(i + 1));
        match compare(&x[i], &y[i]) {
            Some(Order::Equal) => {},
            other => {
                return other;
            },
        }
        i += 1;
    }
    let lx = x.len();
    let ly = y.len();
    Some(
        if lx < ly {
            Order::Less
        } else if lx == ly {
            Order::Equal
        } else {
            Order::Greater
        },
    )
}

/// `a < b`: the order of `a` and `b` is `Less`.
pub fn lt(a: &Value, b: &Value) -> (r: bool)
    ensures
        r == (values_order(a@, b@) == Some(Order::Less)),
{
    match compare(a, b) {
        Some(Order::Less) => true,
        _ => false,
    }
}

/// `a <= b`: the order of `a` and `b` is `Less` or `Equal`.
pub fn le(a: &Value, b: &Value) -> (r: bool)
    ensures
        r == (values_order(a@, b@) == Some(Order::Less) || values_order(a@, b@) == Some(
            Order::Equal,
        )),
{
    match compare(a, b) {
        Some(Order::Less) => true,
        Some(Order::Equal) => true,
        _ => false,
    }
}

} // verus!
