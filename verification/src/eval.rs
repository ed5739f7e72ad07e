use vstd::prelude::*;

pub use crate::ast::{BinOp, Expr};
pub use crate::env::Env;
pub use crate::value::{EvalError, Value};
use crate::ast::{
    LogicalOp, SExpr, UnaryOp, clone_expr, lemma_views_index, lemma_views_len, names_view,
    opt_expr_view, views,
};
use crate::arith::number_exec;
use crate::builtins::{apply_builtin, expected_got_message, push, pushed};
use crate::env::{EnvRef, SStore, Store};
use crate::semantics::{
    SListResult, assign_spec, binop_apply, binop_spec, bind_spec, block_spec, call_spec, call_frame,
    declare_spec, eval_spec, for_spec, for_start_spec, if_spec, index_spec, length_spec, list_spec,
    logical_spec, mod_spec, print_expr_spec, push_expr_spec, range_end, range_name, return_spec,
    unary_spec, while_spec, while_start_spec,
};
use crate::text::push_print_text;
use crate::value::{
    Builtin, EvalResult, Order, SError, SValue, clone_names, compare,
    lemma_value_views, le, lt, result_view, value_views, values_eq, word_value,
};

verus! {

/// The model of the outcome of evaluating a list.
pub open spec fn list_view(r: Result<Vec<Value>, EvalError>) -> SListResult {
    match r {
        Ok(v) => Ok(value_views(v@)),
        Err(e) => Err(e@),
    }
}

/// The outcome of a list evaluation with `vs` evaluated before it.
pub open spec fn prepend(vs: Seq<SValue>, o: (SListResult, SStore)) -> (SListResult, SStore) {
    match o.0 {
        Ok(ws) => (Ok(vs + ws), o.1),
        Err(e) => (Err(e), o.1),
    }
}

/// What evaluation in scope `id` requires of a store.
pub open spec fn ready(s: &Store, id: EnvRef) -> bool {
    s.wf() && id < s@.frames.len()
}

proof fn lemma_skip_first(xs: Seq<Expr>, i: int)
    requires
        0 <= i < xs.len(),
    ensures
        views(xs).skip(i).len() > 0,
        views(xs).skip(i)[0] == xs[i]@,
        views(xs).skip(i).drop_first() == views(xs).skip(i + 1),
{
    lemma_views_index(xs, i);
    assert(views(xs).skip(i).drop_first() =~= views(xs).skip(i + 1));
}

/// Evaluates `exprs` from left to right, see [`list_spec`].
pub fn eval_list(exprs: &Vec<Expr>, env: EnvRef, store: &mut Store, fuel: u64) -> (r: Result<
    Vec<Value>,
    EvalError,
>)
    requires
        ready(old(store), env),
    ensures
        ready(final(store), env),
        old(store)@.frames.len() <= final(store)@.frames.len(),
        (list_view(r), final(store)@) == list_spec(views(exprs@), env as nat, old(store)@, fuel as nat),
    decreases fuel, 1nat, 0nat,
{
    let mut out: Vec<Value> = Vec::new();
    let mut i: usize = 0;
    proof {
        lemma_views_len(exprs@);
        assert(views(exprs@).skip(0) =~= views(exprs@));
        lemma_value_views(out@);
        assert(value_views(out@) =~= Seq::<SValue>::empty());
        let o = list_spec(views(exprs@), env as nat, store@, fuel as nat);
        assert(prepend(value_views(out@), o) == o);
    }
    while i < exprs.len()
        invariant
            ready(store, env),
            old(store)@.frames.len() <= store@.frames.len(),
            i <= exprs@.len(),
            views(exprs@).len() == exprs@.len(),
            list_spec(views(exprs@), env as nat, old(store)@, fuel as nat) == prepend(
                value_views(out@),
                list_spec(views(exprs@).skip(i as int), env as nat, store@, fuel as nat),
            ),
        decreases exprs@.len() - i,
    {
        proof {
            lemma_skip_first(exprs@, i as int);
        }
        let ghost s0 = store@;
        let r = eval(&exprs[i], env, store, fuel);
        match r {
            Err(e) => {
                return Err(e);
            },
            Ok(v) => {
                proof {
                    lemma_value_views(out@);
                    lemma_value_views(out@.push(v));
                    assert(value_views(out@.push(v)) =~= value_views(out@) + seq![v@]);
                    let rest = list_spec(views(exprs@).skip(i + 1), env as nat, store@, fuel as nat);
                    match rest.0 {
                        Ok(ws) => {
                            assert(value_views(out@) + (seq![v@] + ws) =~= value_views(out@)
                                + seq![v@] + ws);
                        },
                        Err(_) => {},
                    }
                }
                out.push(v);
                i += 1;
            },
        }
    }
    proof {
        assert(views(exprs@).skip(i as int) =~= Seq::<SExpr>::empty());
        assert(value_views(out@) + Seq::<SValue>::empty() =~= value_views(out@));
    }
    Ok(out)
}

/// Evaluates the statements of a block, see [`block_spec`].
pub fn eval_block(exprs: &Vec<Expr>, env: EnvRef, store: &mut Store, fuel: u64) -> (r: EvalResult)
    requires
        ready(old(store), env),
    ensures
        ready(final(store), env),
        old(store)@.frames.len() <= final(store)@.frames.len(),
        (result_view(r), final(store)@) == block_spec(
            views(exprs@),
            env as nat,
            old(store)@,
            fuel as nat,
            SValue::Nil,
        ),
    decreases fuel, 1nat, 0nat,
{
    let mut last = Value::Nil;
    let mut i: usize = 0;
    proof {
        lemma_views_len(exprs@);
        assert(views(exprs@).skip(0) =~= views(exprs@));
    }
    while i < exprs.len()
        invariant
            ready(store, env),
            old(store)@.frames.len() <= store@.frames.len(),
            i <= exprs@.len(),
            views(exprs@).len() == exprs@.len(),
            block_spec(views(exprs@), env as nat, old(store)@, fuel as nat, SValue::Nil)
                == block_spec(views(exprs@).skip(i as int), env as nat, store@, fuel as nat, last@),
        decreases exprs@.len() - i,
    {
        proof {
            lemma_skip_first(exprs@, i as int);
        }
        let r = eval(&exprs[i], env, store, fuel);
        match r {
            Err(e) => {
                return Err(e);
            },
            Ok(v) => {
                last = v;
                i += 1;
            },
        }
    }
    proof {
        assert(views(exprs@).skip(i as int) =~= Seq::<SExpr>::empty());
    }
    Ok(last)
}

/// Evaluates `expr` in scope `env`, allowing `fuel` nested evaluation steps.
/// Its outcome and its effect on the store are those of [`eval_spec`].
pub fn eval(expr: &Expr, env: EnvRef, store: &mut Store, fuel: u64) -> (r: EvalResult)
    requires
        ready(old(store), env),
    ensures
        ready(final(store), env),
        old(store)@.frames.len() <= final(store)@.frames.len(),
        (result_view(r), final(store)@) == eval_spec(expr@, env as nat, old(store)@, fuel as nat),
    decreases fuel, 0nat, 0nat,
{
    if fuel == 0 {
        return Err(EvalError::StepLimit);
    }
    let f = fuel - 1;
    match expr {
        Expr::String(s) => {
            let w = crate::chars::string_chars(s);
            Ok(word_value(&w))
        },
        Expr::Number(n) => number_exec(*n as i128, store.frame(env).current_modulus()),
        Expr::Bool(b) => Ok(Value::Number(if *b { 1 } else { 0 })),
        Expr::Char(c) => Ok(Value::Char(*c)),
        Expr::Nil => Ok(Value::Nil),
        Expr::Array(xs) => match eval_list(xs, env, store, f) {
            Ok(vs) => Ok(Value::Array(vs)),
            Err(e) => Err(e),
        },
        Expr::Block(xs) => eval_block(xs, env, store, f),
        Expr::Ident(name) => match store.lookup(env, name) {
            Some(v) => Ok(v),
            None => Err(EvalError::UndefinedVariable(name.clone())),
        },
        Expr::Assign { name, indices, value } => eval_assign(name, indices, value, env, store, f),
        Expr::Declare { name, value } => eval_declare(name, value, env, store, f),
        Expr::Lambda { args, body } => Ok(
            Value::Lambda { args: clone_names(args), body: Box::new(clone_expr(body)), env },
        ),
        Expr::Return(o) => match o {
            Some(x) => eval_return(x, env, store, f),
            None => Err(EvalError::Return(Some(Value::Nil))),
        },
        Expr::If { cond, then, else_ } => eval_if(cond, then, else_, env, store, f),
        Expr::For { var, iter, body } => eval_for(var, iter, body, env, store, f),
        Expr::While { cond, body } => eval_while(cond, body, env, store, f),
        Expr::Break => Err(EvalError::Break),
        Expr::Continue => Err(EvalError::Continue),
        Expr::Mod { modulus, body } => eval_mod(modulus, body, env, store, f),
        Expr::Range { start, end, inclusive } => {
            let (func, args) = range_call(start, end, *inclusive);
            eval_call(&func, &args, env, store, f)
        },
        Expr::Call { func, args } => eval_call(func, args, env, store, f),
        Expr::BinOp { left, right, op } => eval_bin_op(*op, left, right, env, store, f),
        Expr::UnaryOp { op, expr } => eval_unary_op(*op, expr, env, store, f),
        Expr::Index { object, index } => eval_index(object, index, env, store, f),
        Expr::Len(x) => eval_len(x, env, store, f),
        Expr::Input => {
            let w = store.read_word();
            Ok(word_value(&w))
        },
        Expr::Print(x) => eval_print(x, env, store, f),
        Expr::Push(a, b) => eval_push(a, b, env, store, f),
        Expr::LogicalOp { left, right, op } => eval_logical(*op, left, right, env, store, f),
    }
}

/// The call that a range expression stands for: `range(start, end)`, with
/// `1 + end` in place of `end` when the range is inclusive.
fn range_call(start: &Expr, end: &Expr, inclusive: bool) -> (r: (Expr, Vec<Expr>))
    ensures
        r.0@ == SExpr::Ident(range_name()),
        views(r.1@) == seq![start@, range_end(end@, inclusive)],
{
    let name = "range".to_string();
    proof {
        broadcast use vstd::string::group_string_axioms;
        reveal_strlit("range");
        assert(name@ =~= range_name());
    }
    let last = if inclusive {
        let one = Expr::Number(1);
        assert(one@ == SExpr::Number(1));
        Expr::BinOp { left: Box::new(one), right: Box::new(clone_expr(end)), op: BinOp::Add }
    } else {
        clone_expr(end)
    };
    let first = clone_expr(start);
    let mut args: Vec<Expr> = Vec::new();
    proof {
        assert(views(args@) =~= Seq::<SExpr>::empty());
        crate::ast::lemma_views_push(args@, first);
    }
    args.push(first);
    proof {
        crate::ast::lemma_views_push(args@, last);
    }
    args.push(last);
    assert(views(args@) =~= seq![start@, range_end(end@, inclusive)]);
    (Expr::Ident(name), args)
}

/// `let name = value`, see [`declare_spec`].
pub fn eval_declare(name: &String, value: &Expr, env: EnvRef, store: &mut Store, f: u64) -> (r:
    EvalResult)
    requires
        ready(old(store), env),
    ensures
        ready(final(store), env),
        old(store)@.frames.len() <= final(store)@.frames.len(),
        (result_view(r), final(store)@) == declare_spec(name@, value@, env as nat, old(store)@, f as nat),
    decreases f, 2nat, 0nat,
{
    match eval(value, env, store, f) {
        Ok(v) => {
            let copy = v.deep_clone();
            store.declare(env, name.clone(), copy);
            Ok(v)
        },
        Err(e) => Err(e),
    }
}

/// `return x`, see [`return_spec`].
fn eval_return(x: &Expr, env: EnvRef, store: &mut Store, f: u64) -> (r: EvalResult)
    requires
        ready(old(store), env),
    ensures
        ready(final(store), env),
        old(store)@.frames.len() <= final(store)@.frames.len(),
        (result_view(r), final(store)@) == return_spec(x@, env as nat, old(store)@, f as nat),
    decreases f, 2nat, 0nat,
{
    match eval(x, env, store, f) {
        Ok(v) => Err(EvalError::Return(Some(v))),
        Err(e) => Err(e),
    }
}

/// `if cond then else_`, see [`if_spec`].
pub fn eval_if(
    cond: &Expr,
    then: &Expr,
    else_: &Option<Box<Expr>>,
    env: EnvRef,
    store: &mut Store,
    f: u64,
) -> (r: EvalResult)
    requires
        ready(old(store), env),
    ensures
        ready(final(store), env),
        old(store)@.frames.len() <= final(store)@.frames.len(),
        (result_view(r), final(store)@) == if_spec(
            cond@,
            then@,
            opt_expr_view(*else_),
            env as nat,
            old(store)@,
            f as nat,
        ),
    decreases f, 2nat, 0nat,
{
    match eval(cond, env, store, f) {
        Err(e) => Err(e),
        Ok(v) => {
            if is_true(&v) {
                eval(then, env, store, f)
            } else {
                match else_ {
                    Some(x) => eval(x, env, store, f),
                    None => Ok(Value::Nil),
                }
            }
        },
    }
}

/// A scope for a call, made from scope `caller`, of a lambda created in
/// scope `lenv`; see [`call_frame`].
fn new_scope(lenv: EnvRef, caller: EnvRef, store: &Store) -> (r: Env)
    requires
        store.wf(),
        caller < store@.frames.len(),
    ensures
        r@ == call_frame(store@, lenv as nat, caller as nat),
        r@.parent matches Some(p) ==> p < store@.frames.len(),
        r@.caller matches Some(c) ==> c < store@.frames.len(),
{
    if lenv < store.len() {
        Env::call_scope(lenv, caller, store.frame(lenv))
    } else {
        Env::called_from(caller)
    }
}

/// `for var in iter body`, see [`for_start_spec`].
pub fn eval_for(var: &String, iter: &Expr, body: &Expr, env: EnvRef, store: &mut Store, f: u64) -> (r:
    EvalResult)
    requires
        ready(old(store), env),
    ensures
        ready(final(store), env),
        old(store)@.frames.len() <= final(store)@.frames.len(),
        (result_view(r), final(store)@) == for_start_spec(
            var@,
            iter@,
            body@,
            env as nat,
            old(store)@,
            f as nat,
        ),
    decreases f, 2nat, 1nat,
{
    match eval(iter, env, store, f) {
        Err(e) => Err(e),
        Ok(Value::Lambda { args, body: lbody, env: lenv }) => {
            if args.len() == 0 {
                for_loop(var, body, env, &lbody, lenv, store, f)
            } else {
                Err(EvalError::TypeError("for only works on iterators"))
            }
        },
        Ok(_) => Err(EvalError::TypeError("for only works on iterators")),
    }
}

/// The steps of a `for` loop, see [`for_spec`].
fn for_loop(
    var: &String,
    body: &Expr,
    env: EnvRef,
    lbody: &Expr,
    lenv: EnvRef,
    store: &mut Store,
    f: u64,
) -> (r: EvalResult)
    requires
        ready(old(store), env),
    ensures
        ready(final(store), env),
        old(store)@.frames.len() <= final(store)@.frames.len(),
        (result_view(r), final(store)@) == for_spec(
            var@,
            body@,
            env as nat,
            lbody@,
            lenv as nat,
            old(store)@,
            f as nat,
        ),
    decreases f, 2nat, 0nat,
{
    let mut g = f;
    loop
        invariant
            ready(store, env),
            old(store)@.frames.len() <= store@.frames.len(),
            g <= f,
            for_spec(var@, body@, env as nat, lbody@, lenv as nat, old(store)@, f as nat) == for_spec(
                var@,
                body@,
                env as nat,
                lbody@,
                lenv as nat,
                store@,
                g as nat,
            ),
        decreases g,
    {
        if g == 0 {
            return Err(EvalError::StepLimit);
        }
        g = g - 1;
        let scope = new_scope(lenv, env, store);
        let cid = store.push_frame(scope);
        let next = match eval(lbody, cid, store, g) {
            Ok(v) => v,
            Err(EvalError::Return(o)) => match o {
                Some(v) => v,
                None => Value::Nil,
            },
            Err(e) => {
                return Err(e);
            },
        };
        if let Value::Nil = next {
            return Ok(Value::Nil);
        }
        store.declare(env, var.clone(), next);
        match eval(body, env, store, g) {
            Err(EvalError::Break) => {
                return Ok(Value::Nil);
            },
            Err(EvalError::Continue) => {},
            Ok(_) => {},
            Err(e) => {
                return Err(e);
            },
        }
    }
}

/// `while cond body`, see [`while_start_spec`].
pub fn eval_while(cond: &Expr, body: &Expr, env: EnvRef, store: &mut Store, f: u64) -> (r:
    EvalResult)
    requires
        ready(old(store), env),
    ensures
        ready(final(store), env),
        old(store)@.frames.len() <= final(store)@.frames.len(),
        (result_view(r), final(store)@) == while_start_spec(
            cond@,
            body@,
            env as nat,
            old(store)@,
            f as nat,
        ),
    decreases f, 2nat, 0nat,
{
    let mut t = match eval(cond, env, store, f) {
        Ok(v) => is_true(&v),
        Err(e) => {
            return Err(e);
        },
    };
    let mut g = f;
    loop
        invariant
            ready(store, env),
            old(store)@.frames.len() <= store@.frames.len(),
            g <= f,
            while_start_spec(cond@, body@, env as nat, old(store)@, f as nat) == while_spec(
                cond@,
                body@,
                env as nat,
                store@,
                t,
                g as nat,
            ),
        decreases g,
    {
        if !t {
            return Ok(Value::Nil);
        }
        if g == 0 {
            return Err(EvalError::StepLimit);
        }
        g = g - 1;
        match eval(body, env, store, g) {
            Err(EvalError::Break) => {
                return Ok(Value::Nil);
            },
            Ok(_) | Err(EvalError::Continue) => {
                match eval(cond, env, store, g) {
                    Ok(v) => {
                        t = is_true(&v);
                    },
                    Err(e) => {
                        return Err(e);
                    },
                }
            },
            Err(e) => {
                return Err(e);
            },
        }
    }
}

/// `mod m body`, see [`mod_spec`].
pub fn eval_mod(modulus: &Expr, body: &Expr, env: EnvRef, store: &mut Store, f: u64) -> (r:
    EvalResult)
    requires
        ready(old(store), env),
    ensures
        ready(final(store), env),
        old(store)@.frames.len() <= final(store)@.frames.len(),
        (result_view(r), final(store)@) == mod_spec(modulus@, body@, env as nat, old(store)@, f as nat),
    decreases f, 2nat, 0nat,
{
    match eval(modulus, env, store, f) {
        Err(e) => Err(e),
        Ok(Value::Number(n)) => {
            store.push_modulus(env, n);
            let r = eval(body, env, store, f);
            store.pop_modulus(env);
            r
        },
        Ok(_) => Err(EvalError::TypeError("modulus has to be a number")),
    }
}

/// The model of the outcome of binding arguments.
pub open spec fn unit_view(r: Result<(), EvalError>) -> Result<(), SError> {
    match r {
        Ok(_) => Ok(()),
        Err(e) => Err(e@),
    }
}

/// Evaluates the arguments of a call in scope `id` and binds them to `names`
/// in scope `cid`, see [`bind_spec`].
fn bind_args(
    names: &Vec<String>,
    args: &Vec<Expr>,
    id: EnvRef,
    cid: EnvRef,
    store: &mut Store,
    f: u64,
) -> (r: Result<(), EvalError>)
    requires
        ready(old(store), id),
        cid < old(store)@.frames.len(),
        names@.len() == args@.len(),
    ensures
        ready(final(store), id),
        old(store)@.frames.len() <= final(store)@.frames.len(),
        (unit_view(r), final(store)@) == bind_spec(
            names_view(names@),
            views(args@),
            id as nat,
            cid as nat,
            old(store)@,
            f as nat,
        ),
    decreases f, 1nat, 0nat,
{
    let mut i: usize = 0;
    proof {
        lemma_views_len(args@);
        assert(views(args@).skip(0) =~= views(args@));
        assert(names_view(names@).skip(0) =~= names_view(names@));
    }
    while i < args.len()
        invariant
            ready(store, id),
            cid < store@.frames.len(),
            old(store)@.frames.len() <= store@.frames.len(),
            i <= args@.len(),
            names@.len() == args@.len(),
            views(args@).len() == args@.len(),
            bind_spec(names_view(names@), views(args@), id as nat, cid as nat, old(store)@, f as nat)
                == bind_spec(
                names_view(names@).skip(i as int),
                views(args@).skip(i as int),
                id as nat,
                cid as nat,
                store@,
                f as nat,
            ),
        decreases args@.len() - i,
    {
        proof {
            lemma_skip_first(args@, i as int);
            assert(names_view(names@).skip(i as int)[0] == names@[i as int]@);
            assert(names_view(names@).skip(i as int).drop_first() =~= names_view(names@).skip(
                i + 1,
            ));
        }
        match eval(&args[i], id, store, f) {
            Err(e) => {
                return Err(e);
            },
            Ok(v) => {
                store.declare(cid, names[i].clone(), v);
            },
        }
        i += 1;
    }
    proof {
        assert(views(args@).skip(i as int) =~= Seq::<SExpr>::empty());
    }
    Ok(())
}

/// A call, see [`call_spec`].
pub fn eval_call(func: &Expr, args: &Vec<Expr>, env: EnvRef, store: &mut Store, f: u64) -> (r:
    EvalResult)
    requires
        ready(old(store), env),
    ensures
        ready(final(store), env),
        old(store)@.frames.len() <= final(store)@.frames.len(),
        (result_view(r), final(store)@) == call_spec(
            func@,
            views(args@),
            env as nat,
            old(store)@,
            f as nat,
        ),
    decreases f, 2nat, 0nat,
{
    proof {
        lemma_views_len(args@);
        if args.len() > 0 {
            crate::ast::lemma_views_index(args@, 0);
        }
    }
    match eval(func, env, store, f) {
        Err(e) => Err(e),
        Ok(Value::Lambda { args: names, body, env: lenv }) => {
            let scope = new_scope(lenv, env, store);
            let cid = store.push_frame(scope);
            if names.len() != args.len() {
                return Err(
                    EvalError::WrongNumberOfArgs(expected_got_message(names.len(), args.len())),
                );
            }
            match bind_args(&names, args, env, cid, store, f) {
                Err(e) => Err(e),
                Ok(()) => match eval(&body, cid, store, f) {
                    Ok(v) => Ok(v),
                    Err(EvalError::Return(o)) => match o {
                        Some(v) => Ok(v),
                        None => Ok(Value::Nil),
                    },
                    Err(e) => Err(e),
                },
            }
        },
        Ok(Value::BuiltinFn(b)) => match eval_list(args, env, store, f) {
            Err(e) => Err(e),
            Ok(vs) => match (b, args.len() > 0) {
                (Builtin::Push, true) => match &args[0] {
                    Expr::Ident(name) => {
                        let mut vs = vs;
                        let ghost old_vs = vs@;
                        match push(&mut vs) {
                            Err(e) => Err(e),
                            Ok(_) => {
                                proof {
                                    lemma_value_views(vs@);
                                    lemma_value_views(old_vs);
                                    assert(value_views(vs@)[0] == vs@[0]@);
                                    assert(value_views(vs@)[0] == pushed(value_views(old_vs)));
                                }
                                let arr = vs[0].deep_clone();
                                let path: Vec<Value> = Vec::new();
                                proof {
                                    lemma_value_views(path@);
                                    assert(value_views(path@) =~= Seq::<SValue>::empty());
                                    assert(views(args@)[0] == SExpr::Ident(name@));
                                    assert(arr@ == pushed(value_views(old_vs)));
                                }
                                match store.assign(env, name, &path, arr) {
                                    Ok(_) => Ok(Value::Nil),
                                    Err(e) => Err(e),
                                }
                            },
                        }
                    },
                    _ => apply_builtin(b, vs, store),
                },
                _ => apply_builtin(b, vs, store),
            },
        },
        Ok(_) => Err(EvalError::TypeError("can only call functions")),
    }
}

/// `name[indices...] = value`, see [`assign_spec`].
pub fn eval_assign(
    name: &String,
    indices: &Vec<Expr>,
    value: &Expr,
    env: EnvRef,
    store: &mut Store,
    f: u64,
) -> (r: EvalResult)
    requires
        ready(old(store), env),
    ensures
        ready(final(store), env),
        old(store)@.frames.len() <= final(store)@.frames.len(),
        (result_view(r), final(store)@) == assign_spec(
            name@,
            views(indices@),
            value@,
            env as nat,
            old(store)@,
            f as nat,
        ),
    decreases f, 2nat, 0nat,
{
    let vr = eval(value, env, store, f);
    let ir = eval_list(indices, env, store, f);
    match ir {
        Err(e) => Err(e),
        Ok(path) => match vr {
            Err(e) => Err(e),
            Ok(v) => store.assign(env, name, &path, v),
        },
    }
}

/// A binary operator, see [`binop_spec`].
pub fn eval_bin_op(op: BinOp, left: &Expr, right: &Expr, env: EnvRef, store: &mut Store, f: u64) -> (r:
    EvalResult)
    requires
        ready(old(store), env),
    ensures
        ready(final(store), env),
        old(store)@.frames.len() <= final(store)@.frames.len(),
        (result_view(r), final(store)@) == binop_spec(
            left@,
            right@,
            op,
            env as nat,
            old(store)@,
            f as nat,
        ),
    decreases f, 2nat, 0nat,
{
    match eval(left, env, store, f) {
        Err(e) => Err(e),
        Ok(lv) => match eval(right, env, store, f) {
            Err(e) => Err(e),
            Ok(rv) => binop_exec(op, lv, rv, store.frame(env)),
        },
    }
}

/// A prefix operator, see [`unary_spec`].
pub fn eval_unary_op(op: UnaryOp, x: &Expr, env: EnvRef, store: &mut Store, f: u64) -> (r:
    EvalResult)
    requires
        ready(old(store), env),
    ensures
        ready(final(store), env),
        old(store)@.frames.len() <= final(store)@.frames.len(),
        (result_view(r), final(store)@) == unary_spec(op, x@, env as nat, old(store)@, f as nat),
    decreases f, 2nat, 0nat,
{
    match eval(x, env, store, f) {
        Err(e) => Err(e),
        Ok(Value::Number(n)) => match op {
            UnaryOp::Neg => store.frame(env).neg(n),
            UnaryOp::Not => store.frame(env).not(n),
        },
        Ok(_) => Err(EvalError::TypeError("unary op requires a number")),
    }
}

/// `object[index]`, see [`index_spec`].
fn eval_index(object: &Expr, index: &Expr, env: EnvRef, store: &mut Store, f: u64) -> (r:
    EvalResult)
    requires
        ready(old(store), env),
    ensures
        ready(final(store), env),
        old(store)@.frames.len() <= final(store)@.frames.len(),
        (result_view(r), final(store)@) == index_spec(
            object@,
            index@,
            env as nat,
            old(store)@,
            f as nat,
        ),
    decreases f, 2nat, 0nat,
{
    match eval(index, env, store, f) {
        Err(e) => Err(e),
        Ok(Value::Number(k)) => match eval(object, env, store, f) {
            Err(e) => Err(e),
            Ok(Value::Array(a)) => {
                proof {
                    lemma_value_views(a@);
                }
                if k < 0 || k as u64 >= a.len() as u64 {
                    Err(EvalError::IndexError)
                } else {
                    Ok(a[k as usize].deep_clone())
                }
            },
            Ok(_) => Err(EvalError::TypeError("cannot index into non-array")),
        },
        Ok(_) => Err(EvalError::TypeError("index has to be a number")),
    }
}

/// `len x`, see [`length_spec`].
fn eval_len(x: &Expr, env: EnvRef, store: &mut Store, f: u64) -> (r: EvalResult)
    requires
        ready(old(store), env),
    ensures
        ready(final(store), env),
        old(store)@.frames.len() <= final(store)@.frames.len(),
        (result_view(r), final(store)@) == length_spec(x@, env as nat, old(store)@, f as nat),
    decreases f, 2nat, 0nat,
{
    match eval(x, env, store, f) {
        Err(e) => Err(e),
        Ok(Value::Array(a)) => {
            proof {
                lemma_value_views(a@);
            }
            Ok(Value::Number(a.len() as i64))
        },
        Ok(_) => Err(EvalError::TypeError("argument of len has to be an array")),
    }
}

/// `print x`, see [`print_expr_spec`].
fn eval_print(x: &Expr, env: EnvRef, store: &mut Store, f: u64) -> (r: EvalResult)
    requires
        ready(old(store), env),
    ensures
        ready(final(store), env),
        old(store)@.frames.len() <= final(store)@.frames.len(),
        (result_view(r), final(store)@) == print_expr_spec(x@, env as nat, old(store)@, f as nat),
    decreases f, 2nat, 0nat,
{
    match eval(x, env, store, f) {
        Err(e) => Err(e),
        Ok(v) => {
            let mut out: Vec<char> = Vec::new();
            if push_print_text(&v, &mut out) {
                assert(out@ =~= crate::text::print_text(v@)->Some_0);
                store.write(&out);
                Ok(Value::Nil)
            } else {
                Err(EvalError::TypeError("can't print that type"))
            }
        },
    }
}

/// `push a b`, see [`push_expr_spec`].
fn eval_push(a: &Expr, b: &Expr, env: EnvRef, store: &mut Store, f: u64) -> (r: EvalResult)
    requires
        ready(old(store), env),
    ensures
        ready(final(store), env),
        old(store)@.frames.len() <= final(store)@.frames.len(),
        (result_view(r), final(store)@) == push_expr_spec(a@, b@, env as nat, old(store)@, f as nat),
    decreases f, 2nat, 0nat,
{
    match eval(a, env, store, f) {
        Err(e) => Err(e),
        Ok(Value::Array(mut arr)) => match eval(b, env, store, f) {
            Err(e) => Err(e),
            Ok(v) => {
                let ghost old_arr = arr@;
                arr.push(v);
                proof {
                    lemma_value_views(arr@);
                    lemma_value_views(old_arr);
                    assert(value_views(arr@) =~= value_views(old_arr).push(v@));
                }
                match a {
                    Expr::Ident(name) => {
                        let path: Vec<Value> = Vec::new();
                        proof {
                            lemma_value_views(path@);
                            assert(value_views(path@) =~= Seq::<SValue>::empty());
                        }
                        store.assign(env, name, &path, Value::Array(arr))
                    },
                    _ => Ok(Value::Array(arr)),
                }
            },
        },
        Ok(_) => Err(EvalError::TypeError("can only push to arrays")),
    }
}

/// `&&` and `||`, see [`logical_spec`].
fn eval_logical(op: LogicalOp, left: &Expr, right: &Expr, env: EnvRef, store: &mut Store, f: u64) -> (r:
    EvalResult)
    requires
        ready(old(store), env),
    ensures
        ready(final(store), env),
        old(store)@.frames.len() <= final(store)@.frames.len(),
        (result_view(r), final(store)@) == logical_spec(
            left@,
            right@,
            op,
            env as nat,
            old(store)@,
            f as nat,
        ),
    decreases f, 2nat, 0nat,
{
    match eval(left, env, store, f) {
        Err(e) => Err(e),
        Ok(lv) => {
            let t = is_true(&lv);
            let decided = match op {
                LogicalOp::Or => t,
                LogicalOp::And => !t,
            };
            if decided {
                Ok(Value::Number(if t { 1 } else { 0 }))
            } else {
                match eval(right, env, store, f) {
                    Err(e) => Err(e),
                    Ok(rv) => Ok(Value::Number(if is_true(&rv) { 1 } else { 0 })),
                }
            }
        },
    }
}

/// Whether a value counts as true, see [`crate::value::truthy`].
pub fn is_true(v: &Value) -> (r: bool)
    ensures
        r == crate::value::truthy(v@),
{
    match v {
        Value::Nil => false,
        Value::Number(n) => *n != 0,
        _ => true,
    }
}

/// Applies a binary operator in the modulus context of scope `e`, see [`binop_apply`].
pub fn binop_exec(op: BinOp, lhs: Value, rhs: Value, e: &Env) -> (r: EvalResult)
    ensures
        result_view(r) == binop_apply(op, lhs@, rhs@, e.context()),
{
    match op {
        BinOp::Add => e.add(lhs, rhs),
        BinOp::Sub => e.sub(lhs, rhs),
        BinOp::Mul => e.mul(lhs, rhs),
        BinOp::Div => e.div(lhs, rhs),
        BinOp::Rem => e.rem(lhs, rhs),
        BinOp::Pow => e.pow(lhs, rhs),
        BinOp::Xor => e.xor(lhs, rhs),
        BinOp::And => e.and(lhs, rhs),
        BinOp::Or => e.or(lhs, rhs),
        BinOp::Shl => e.shift(lhs, rhs, true),
        BinOp::Shr => e.shift(lhs, rhs, false),
        BinOp::Eq => Ok(Value::Number(if values_eq(&lhs, &rhs) { 1 } else { 0 })),
        BinOp::Neq => Ok(Value::Number(if values_eq(&lhs, &rhs) { 0 } else { 1 })),
        BinOp::Lt => Ok(Value::Number(if lt(&lhs, &rhs) { 1 } else { 0 })),
        BinOp::Gt => Ok(
            Value::Number(
                match compare(&lhs, &rhs) {
                    Some(Order::Greater) => 1,
                    _ => 0,
                },
            ),
        ),
        BinOp::Le => Ok(Value::Number(if le(&lhs, &rhs) { 1 } else { 0 })),
        BinOp::Ge => Ok(
            Value::Number(
                match compare(&lhs, &rhs) {
                    Some(Order::Greater) => 1,
                    Some(Order::Equal) => 1,
                    _ => 0,
                },
            ),
        ),
    }
}

} // verus!
