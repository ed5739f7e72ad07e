use vstd::prelude::*;

use crate::arith::{
    add_spec, bit_spec, div_spec, mul_spec, number_result, pow_spec, rem_spec, shift_spec,
    sub_spec,
};
use crate::ast::{BinOp, LogicalOp, SExpr, UnaryOp};
use crate::builtins::{builtin_spec, expected_got, input_spec, push_spec, pushed};
use crate::env::{
    SFrame, SStore, after_write, frame_with_moduli, frame_with_var, name_lookup, pop_moduli,
    store_modify, top_modulus, with_frame, with_new_frame,
};
use crate::text::print_text;
use crate::value::{Order, SError, SResult, SValue, string_value, truthy, values_equal, values_order};

verus! {

/// The outcome of evaluating a list of expressions.
pub type SListResult = Result<Seq<SValue>, SError>;

/// The modulus context of scope `id`.
pub open spec fn context_of(s: SStore, id: nat) -> Option<i64> {
    top_modulus(s.frames[id as int].modulus)
}

/// `s` with `name` bound to `v` in scope `id`.
pub open spec fn declare_in(s: SStore, id: nat, name: Seq<char>, v: SValue) -> SStore {
    with_frame(s, id as int, frame_with_var(s.frames[id as int], name, v))
}

/// A new scope opened inside scope `parent` of `s`: no variables, and the
/// moduli open in the parent. (A parent that does not exist gives a scope
/// with no enclosing scope.)
pub open spec fn child_frame(s: SStore, parent: nat) -> SFrame {
    if parent < s.frames.len() {
        SFrame {
            vars: Map::empty(),
            parent: Some(parent),
            caller: None,
            modulus: s.frames[parent as int].modulus,
        }
    } else {
        SFrame { vars: Map::empty(), parent: None, caller: None, modulus: Seq::empty() }
    }
}

/// The scope of a call, made from scope `caller`, of a lambda created in
/// scope `parent`: a [`child_frame`] of `parent` that remembers `caller`, so
/// that names that no scope around the lambda binds are looked up from the
/// caller (see [`name_lookup`]).
pub open spec fn call_frame(s: SStore, parent: nat, caller: nat) -> SFrame {
    SFrame { caller: Some(caller), ..child_frame(s, parent) }
}

/// A value given by `return`, or `nil`.
pub open spec fn returned(o: Option<SValue>) -> SValue {
    match o {
        Some(v) => v,
        None => SValue::Nil,
    }
}

/// `1` for true, `0` for false.
pub open spec fn flag(b: bool) -> SValue {
    SValue::Number(if b { 1 } else { 0 })
}

/// Applies a binary operator to two values in a modulus context.
pub open spec fn binop_apply(op: BinOp, l: SValue, r: SValue, m: Option<i64>) -> SResult {
    match op {
        BinOp::Add => add_spec(l, r, m),
        BinOp::Sub => sub_spec(l, r, m),
        BinOp::Mul => mul_spec(l, r, m),
        BinOp::Div => div_spec(l, r, m),
        BinOp::Rem => rem_spec(l, r, m),
        BinOp::Pow => pow_spec(l, r, m),
        BinOp::Xor => bit_spec(l, r, m, BinOp::Xor),
        BinOp::And => bit_spec(l, r, m, BinOp::And),
        BinOp::Or => bit_spec(l, r, m, BinOp::Or),
        BinOp::Shl => shift_spec(l, r, m, true),
        BinOp::Shr => shift_spec(l, r, m, false),
        BinOp::Eq => Ok(flag(values_equal(l, r))),
        BinOp::Neq => Ok(flag(!values_equal(l, r))),
        BinOp::Lt => Ok(flag(values_order(l, r) == Some(Order::Less))),
        BinOp::Gt => Ok(flag(values_order(l, r) == Some(Order::Greater))),
        BinOp::Le => Ok(
            flag(values_order(l, r) == Some(Order::Less) || values_order(l, r) == Some(Order::Equal)),
        ),
        BinOp::Ge => Ok(
            flag(
                values_order(l, r) == Some(Order::Greater) || values_order(l, r) == Some(
                    Order::Equal,
                ),
            ),
        ),
    }
}

/// The `1 + end` that an inclusive range asks `range` for.
pub open spec fn range_end(end: SExpr, inclusive: bool) -> SExpr {
    if inclusive {
        SExpr::BinOp { left: Box::new(SExpr::Number(1)), right: Box::new(end), op: BinOp::Add }
    } else {
        end
    }
}

/// The name of the function that a range expression calls.
pub open spec fn range_name() -> Seq<char> {
    seq!['r', 'a', 'n', 'g', 'e']
}

/// Evaluates `e` in scope `id` of store `s`, allowing `fuel` nested
/// evaluation steps; gives the outcome and the new store.
pub open spec fn eval_spec(e: SExpr, id: nat, s: SStore, fuel: nat) -> (SResult, SStore)
    decreases fuel, 0nat, 0nat,
{
    if fuel == 0 {
        (Err(SError::StepLimit), s)
    } else {
        let f = (fuel - 1) as nat;
        match e {
            SExpr::String(cs) => (Ok(string_value(cs)), s),
            SExpr::Number(n) => (number_result(n as int, context_of(s, id)), s),
            SExpr::Bool(b) => (Ok(flag(b)), s),
            SExpr::Char(c) => (Ok(SValue::Char(c)), s),
            SExpr::Nil => (Ok(SValue::Nil), s),
            SExpr::Array(xs) => {
                let (r, s1) = list_spec(xs, id, s, f);
                match r {
                    Ok(vs) => (Ok(SValue::Array(vs)), s1),
                    Err(err) => (Err(err), s1),
                }
            },
            SExpr::Assign { name, indices, value } => assign_spec(name, indices, *value, id, s, f),
            SExpr::Declare { name, value } => declare_spec(name, *value, id, s, f),
            SExpr::Lambda { args, body } => (
                Ok(SValue::Lambda { args: args, body: *body, env: id }),
                s,
            ),
            SExpr::Ident(name) => match name_lookup(s.frames, id, name) {
                Some(v) => (Ok(v), s),
                None => (Err(SError::UndefinedVariable(name)), s),
            },
            SExpr::Block(xs) => block_spec(xs, id, s, f, SValue::Nil),
            SExpr::Return(o) => match o {
                Some(x) => return_spec(*x, id, s, f),
                None => (Err(SError::Return(Some(SValue::Nil))), s),
            },
            SExpr::If { cond, then, else_ } => if_spec(*cond, *then, else_, id, s, f),
            SExpr::For { var, iter, body } => for_start_spec(var, *iter, *body, id, s, f),
            SExpr::While { cond, body } => while_start_spec(*cond, *body, id, s, f),
            SExpr::Break => (Err(SError::Break), s),
            SExpr::Continue => (Err(SError::Continue), s),
            SExpr::Mod { modulus, body } => mod_spec(*modulus, *body, id, s, f),
            SExpr::Range { start, end, inclusive } => call_spec(
                SExpr::Ident(range_name()),
                seq![*start, range_end(*end, inclusive)],
                id,
                s,
                f,
            ),
            SExpr::Call { func, args } => call_spec(*func, args, id, s, f),
            SExpr::BinOp { left, right, op } => binop_spec(*left, *right, op, id, s, f),
            SExpr::UnaryOp { op, expr } => unary_spec(op, *expr, id, s, f),
            SExpr::Index { object, index } => index_spec(*object, *index, id, s, f),
            SExpr::Len(x) => length_spec(*x, id, s, f),
            SExpr::Input => input_spec(s),
            SExpr::Print(x) => print_expr_spec(*x, id, s, f),
            SExpr::Push(a, b) => push_expr_spec(*a, *b, id, s, f),
            SExpr::LogicalOp { left, right, op } => logical_spec(*left, *right, op, id, s, f),
        }
    }
}

/// `let name = value`: the value is bound in scope `id` and is the result.
pub open spec fn declare_spec(name: Seq<char>, value: SExpr, id: nat, s: SStore, f: nat) -> (
    SResult,
    SStore,
)
    decreases f, 2nat, 0nat,
{
    let (r, s1) = eval_spec(value, id, s, f);
    match r {
        Ok(v) => (Ok(v), declare_in(s1, id, name, v)),
        Err(err) => (Err(err), s1),
    }
}

/// `return x`: the value of `x` travels up as `Return`.
pub open spec fn return_spec(x: SExpr, id: nat, s: SStore, f: nat) -> (SResult, SStore)
    decreases f, 2nat, 0nat,
{
    let (r, s1) = eval_spec(x, id, s, f);
    match r {
        Ok(v) => (Err(SError::Return(Some(v))), s1),
        Err(err) => (Err(err), s1),
    }
}

/// `if cond then else_`: a missing `else` gives `nil`.
pub open spec fn if_spec(
    cond: SExpr,
    then: SExpr,
    else_: Option<Box<SExpr>>,
    id: nat,
    s: SStore,
    f: nat,
) -> (SResult, SStore)
    decreases f, 2nat, 0nat,
{
    let (c, s1) = eval_spec(cond, id, s, f);
    match c {
        Err(err) => (Err(err), s1),
        Ok(v) => if truthy(v) {
            eval_spec(then, id, s1, f)
        } else {
            match else_ {
                Some(x) => eval_spec(*x, id, s1, f),
                None => (Ok(SValue::Nil), s1),
            }
        },
    }
}

/// The message for a `for` over something that is not an iterator.
pub open spec fn not_iterator() -> Seq<char> {
    "for only works on iterators"@
}

/// `for var in iter body`: the iterator must be a lambda without parameters.
pub open spec fn for_start_spec(var: Seq<char>, iter: SExpr, body: SExpr, id: nat, s: SStore, f: nat) -> (
    SResult,
    SStore,
)
    decreases f, 2nat, 0nat,
{
    let (it, s1) = eval_spec(iter, id, s, f);
    match it {
        Err(err) => (Err(err), s1),
        Ok(SValue::Lambda { args, body: lb, env }) => if args.len() == 0 {
            for_spec(var, body, id, lb, env, s1, f)
        } else {
            (Err(SError::TypeError(not_iterator())), s1)
        },
        Ok(_) => (Err(SError::TypeError(not_iterator())), s1),
    }
}

/// `while cond body`: the condition is tested once, then the loop runs.
pub open spec fn while_start_spec(cond: SExpr, body: SExpr, id: nat, s: SStore, f: nat) -> (
    SResult,
    SStore,
)
    decreases f, 2nat, 0nat,
{
    let (c, s1) = eval_spec(cond, id, s, f);
    match c {
        Err(err) => (Err(err), s1),
        Ok(v) => while_spec(cond, body, id, s1, truthy(v), f),
    }
}

/// `mod m body`: `body` runs with `m` as the innermost modulus of scope `id`,
/// which is closed again afterwards, whatever the outcome.
pub open spec fn mod_spec(modulus: SExpr, body: SExpr, id: nat, s: SStore, f: nat) -> (
    SResult,
    SStore,
)
    decreases f, 2nat, 0nat,
{
    let (m, s1) = eval_spec(modulus, id, s, f);
    match m {
        Err(err) => (Err(err), s1),
        Ok(SValue::Number(n)) => {
            let s2 = with_frame(
                s1,
                id as int,
                frame_with_moduli(s1.frames[id as int], s1.frames[id as int].modulus.push(n)),
            );
            let (r, s3) = eval_spec(body, id, s2, f);
            (
                r,
                with_frame(
                    s3,
                    id as int,
                    frame_with_moduli(
                        s3.frames[id as int],
                        pop_moduli(s3.frames[id as int].modulus),
                    ),
                ),
            )
        },
        Ok(_) => (Err(SError::TypeError("modulus has to be a number"@)), s1),
    }
}

/// A binary operator: left operand, then right operand, then the operator in
/// the modulus context of scope `id`.
pub open spec fn binop_spec(left: SExpr, right: SExpr, op: BinOp, id: nat, s: SStore, f: nat) -> (
    SResult,
    SStore,
)
    decreases f, 2nat, 0nat,
{
    let (l, s1) = eval_spec(left, id, s, f);
    match l {
        Err(err) => (Err(err), s1),
        Ok(lv) => {
            let (r, s2) = eval_spec(right, id, s1, f);
            match r {
                Err(err) => (Err(err), s2),
                Ok(rv) => (binop_apply(op, lv, rv, context_of(s2, id)), s2),
            }
        },
    }
}

/// A prefix operator; its operand must be a number.
pub open spec fn unary_spec(op: UnaryOp, x: SExpr, id: nat, s: SStore, f: nat) -> (SResult, SStore)
    decreases f, 2nat, 0nat,
{
    let (r, s1) = eval_spec(x, id, s, f);
    match r {
        Err(err) => (Err(err), s1),
        Ok(SValue::Number(n)) => match op {
            UnaryOp::Neg => (number_result(-(n as int), context_of(s1, id)), s1),
            UnaryOp::Not => (Ok(flag(n == 0)), s1),
        },
        Ok(_) => (Err(SError::TypeError("unary op requires a number"@)), s1),
    }
}

/// `object[index]`: the index is evaluated first.
pub open spec fn index_spec(object: SExpr, index: SExpr, id: nat, s: SStore, f: nat) -> (
    SResult,
    SStore,
)
    decreases f, 2nat, 0nat,
{
    let (i, s1) = eval_spec(index, id, s, f);
    match i {
        Err(err) => (Err(err), s1),
        Ok(SValue::Number(k)) => {
            let (o, s2) = eval_spec(object, id, s1, f);
            match o {
                Err(err) => (Err(err), s2),
                Ok(SValue::Array(a)) => if 0 <= k < a.len() {
                    (Ok(a[k as int]), s2)
                } else {
                    (Err(SError::IndexError), s2)
                },
                Ok(_) => (Err(SError::TypeError("cannot index into non-array"@)), s2),
            }
        },
        Ok(_) => (Err(SError::TypeError("index has to be a number"@)), s1),
    }
}

/// `len x`: the number of elements of an array.
pub open spec fn length_spec(x: SExpr, id: nat, s: SStore, f: nat) -> (SResult, SStore)
    decreases f, 2nat, 0nat,
{
    let (r, s1) = eval_spec(x, id, s, f);
    match r {
        Err(err) => (Err(err), s1),
        Ok(SValue::Array(a)) => (Ok(SValue::Number(a.len() as i64)), s1),
        Ok(_) => (Err(SError::TypeError("argument of len has to be an array"@)), s1),
    }
}

/// `print x`: writes the text of `x` and gives `nil`.
pub open spec fn print_expr_spec(x: SExpr, id: nat, s: SStore, f: nat) -> (SResult, SStore)
    decreases f, 2nat, 0nat,
{
    let (r, s1) = eval_spec(x, id, s, f);
    match r {
        Err(err) => (Err(err), s1),
        Ok(v) => match print_text(v) {
            Some(t) => (Ok(SValue::Nil), after_write(s1, t)),
            None => (Err(SError::TypeError("can't print that type"@)), s1),
        },
    }
}

/// `push(a, b)`: the array `a` with `b` appended; where `a` is a variable,
/// the variable is given that array too.
pub open spec fn push_expr_spec(a: SExpr, b: SExpr, id: nat, s: SStore, f: nat) -> (
    SResult,
    SStore,
)
    decreases f, 2nat, 0nat,
{
    let (r, s1) = eval_spec(a, id, s, f);
    match r {
        Err(err) => (Err(err), s1),
        Ok(SValue::Array(arr)) => {
            let (r2, s2) = eval_spec(b, id, s1, f);
            match r2 {
                Err(err) => (Err(err), s2),
                Ok(v) => match a {
                    SExpr::Ident(name) => store_modify(s2, id, name, Seq::empty(), SValue::Array(arr.push(v))),
                    _ => (Ok(SValue::Array(arr.push(v))), s2),
                },
            }
        },
        Ok(_) => (Err(SError::TypeError("can only push to arrays"@)), s1),
    }
}

/// `&&` and `||`: the right operand is evaluated only when the left one does
/// not decide; the result is `1` or `0`.
pub open spec fn logical_spec(left: SExpr, right: SExpr, op: LogicalOp, id: nat, s: SStore, f: nat) -> (
    SResult,
    SStore,
)
    decreases f, 2nat, 0nat,
{
    let (l, s1) = eval_spec(left, id, s, f);
    match l {
        Err(err) => (Err(err), s1),
        Ok(lv) => if (op == LogicalOp::Or && truthy(lv)) || (op == LogicalOp::And && !truthy(lv)) {
            (Ok(flag(truthy(lv))), s1)
        } else {
            let (r, s2) = eval_spec(right, id, s1, f);
            match r {
                Err(err) => (Err(err), s2),
                Ok(rv) => (Ok(flag(truthy(rv))), s2),
            }
        },
    }
}

/// Evaluates `xs` from left to right; the first error stops it.
pub open spec fn list_spec(xs: Seq<SExpr>, id: nat, s: SStore, f: nat) -> (SListResult, SStore)
    decreases f, 1nat, xs.len(),
{
    if xs.len() == 0 {
        (Ok(Seq::empty()), s)
    } else {
        let (r, s1) = eval_spec(xs[0], id, s, f);
        match r {
            Err(err) => (Err(err), s1),
            Ok(v) => {
                let (rs, s2) = list_spec(xs.drop_first(), id, s1, f);
                match rs {
                    Ok(vs) => (Ok(seq![v] + vs), s2),
                    Err(err) => (Err(err), s2),
                }
            },
        }
    }
}

/// Evaluates the statements of a block in order; its value is the last one's,
/// `last` when there are no more.
pub open spec fn block_spec(xs: Seq<SExpr>, id: nat, s: SStore, f: nat, last: SValue) -> (
    SResult,
    SStore,
)
    decreases f, 1nat, xs.len(),
{
    if xs.len() == 0 {
        (Ok(last), s)
    } else {
        let (r, s1) = eval_spec(xs[0], id, s, f);
        match r {
            Err(err) => (Err(err), s1),
            Ok(v) => block_spec(xs.drop_first(), id, s1, f, v),
        }
    }
}

/// `name[indices...] = value`: the value is evaluated first, then the
/// indices; an error in the indices wins over one in the value.
pub open spec fn assign_spec(
    name: Seq<char>,
    indices: Seq<SExpr>,
    value: SExpr,
    id: nat,
    s: SStore,
    f: nat,
) -> (SResult, SStore)
    decreases f, 2nat, 0nat,
{
    let (vr, s1) = eval_spec(value, id, s, f);
    let (ir, s2) = list_spec(indices, id, s1, f);
    match ir {
        Err(err) => (Err(err), s2),
        Ok(path) => match vr {
            Err(err) => (Err(err), s2),
            Ok(v) => {
                let (mr, s3) = store_modify(s2, id, name, path, v);
                match mr {
                    Ok(_) => (Ok(v), s3),
                    Err(err) => (Err(err), s3),
                }
            },
        },
    }
}

/// A `while` loop whose condition was last found `t`. After the body, whether
/// it ended normally or by `continue`, the condition is tested again; `break`
/// ends the loop with `nil`.
pub open spec fn while_spec(cond: SExpr, body: SExpr, id: nat, s: SStore, t: bool, f: nat) -> (
    SResult,
    SStore,
)
    decreases f, 1nat, 0nat,
{
    if !t {
        (Ok(SValue::Nil), s)
    } else if f == 0 {
        (Err(SError::StepLimit), s)
    } else {
        let g = (f - 1) as nat;
        let (b, s1) = eval_spec(body, id, s, g);
        if b is Ok || b == Err::<SValue, SError>(SError::Continue) {
            let (c, s2) = eval_spec(cond, id, s1, g);
            match c {
                Err(err) => (Err(err), s2),
                Ok(v) => while_spec(cond, body, id, s2, truthy(v), g),
            }
        } else {
            match b {
                Err(SError::Break) => (Ok(SValue::Nil), s1),
                _ => (b, s1),
            }
        }
    }
}

/// A `for` loop over the iterator with body `lbody` and scope `lenv`: each
/// step calls the iterator in a new scope; `nil` ends the loop; otherwise
/// the value is bound to `var` in scope `id` and the body runs.
pub open spec fn for_spec(
    var: Seq<char>,
    body: SExpr,
    id: nat,
    lbody: SExpr,
    lenv: nat,
    s: SStore,
    f: nat,
) -> (SResult, SStore)
    decreases f, 1nat, 0nat,
{
    if f == 0 {
        (Err(SError::StepLimit), s)
    } else {
        let g = (f - 1) as nat;
        let cid = s.frames.len();
        let s1 = with_new_frame(s, call_frame(s, lenv, id));
        let (r, s2) = eval_spec(lbody, cid, s1, g);
        let next = match r {
            Ok(v) => Ok(v),
            Err(SError::Return(o)) => Ok(returned(o)),
            Err(err) => Err(err),
        };
        match next {
            Err(err) => (Err(err), s2),
            Ok(v) => if v is Nil {
                (Ok(SValue::Nil), s2)
            } else {
                let s3 = declare_in(s2, id, var, v);
                let (b, s4) = eval_spec(body, id, s3, g);
                match b {
                    Err(SError::Break) => (Ok(SValue::Nil), s4),
                    Err(SError::Continue) => for_spec(var, body, id, lbody, lenv, s4, g),
                    Ok(_) => for_spec(var, body, id, lbody, lenv, s4, g),
                    Err(err) => (Err(err), s4),
                }
            },
        }
    }
}

/// Binds the values of `args` (evaluated in scope `id`) to `names` in scope `cid`.
pub open spec fn bind_spec(
    names: Seq<Seq<char>>,
    args: Seq<SExpr>,
    id: nat,
    cid: nat,
    s: SStore,
    f: nat,
) -> (Result<(), SError>, SStore)
    decreases f, 1nat, args.len(),
{
    if args.len() == 0 {
        (Ok(()), s)
    } else {
        let (r, s1) = eval_spec(args[0], id, s, f);
        match r {
            Err(err) => (Err(err), s1),
            Ok(v) => bind_spec(
                names.drop_first(),
                args.drop_first(),
                id,
                cid,
                declare_in(s1, cid, names[0], v),
                f,
            ),
        }
    }
}

/// A call: the function is evaluated first. A lambda gets a new scope inside
/// the scope it was created in, which remembers the calling scope (see
/// [`call_frame`]): a name is looked up along the scopes around the lambda
/// first and, where none binds it, from the calling scope. The call checks
/// the number of arguments, binds them and runs the body; `return` ends the
/// body. A builtin gets its evaluated arguments.
pub open spec fn call_spec(func: SExpr, args: Seq<SExpr>, id: nat, s: SStore, f: nat) -> (
    SResult,
    SStore,
)
    decreases f, 2nat, 0nat,
{
    let (fr, s1) = eval_spec(func, id, s, f);
    match fr {
        Err(err) => (Err(err), s1),
        Ok(SValue::Lambda { args: names, body, env }) => {
            let cid = s1.frames.len();
            let s2 = with_new_frame(s1, call_frame(s1, env, id));
            if names.len() != args.len() {
                (Err(SError::WrongNumberOfArgs(expected_got(names.len(), args.len()))), s2)
            } else {
                let (br, s3) = bind_spec(names, args, id, cid, s2, f);
                match br {
                    Err(err) => (Err(err), s3),
                    Ok(_) => {
                        let (r, s4) = eval_spec(body, cid, s3, f);
                        match r {
                            Ok(v) => (Ok(v), s4),
                            Err(SError::Return(o)) => (Ok(returned(o)), s4),
                            Err(err) => (Err(err), s4),
                        }
                    },
                }
            }
        },
        Ok(SValue::BuiltinFn(b)) => {
            let (ar, s2) = list_spec(args, id, s1, f);
            match ar {
                Err(err) => (Err(err), s2),
                Ok(vs) => if b is Push && push_spec(vs) is Ok && args.len() > 0 && args[0] is Ident {
                    let (mr, s3) = store_modify(s2, id, args[0]->Ident_0, Seq::empty(), pushed(vs));
                    (
                        match mr {
                            Ok(_) => Ok(SValue::Nil),
                            Err(err) => Err(err),
                        },
                        s3,
                    )
                } else {
                    builtin_spec(b, vs, s2)
                },
            }
        },
        Ok(_) => (Err(SError::TypeError("can only call functions"@)), s1),
    }
}

} // verus!
