use vstd::prelude::*;

use crate::ast::{BinOp, LogicalOp, SExpr, UnaryOp};
use crate::builtins::{builtin_spec, input_spec, len_spec, push_spec, pushed};
use crate::env::{
    SStore, after_write, chain_lookup, frame_with_moduli, frame_with_var, pop_moduli,
    read_word, store_modify, with_frame, with_new_frame,
};
use crate::semantics::{
    assign_spec, binop_spec, bind_spec, block_spec, call_spec, call_frame, child_frame, declare_in,
    declare_spec, eval_spec, for_spec, for_start_spec, if_spec, index_spec, length_spec, list_spec,
    logical_spec, mod_spec, print_expr_spec, push_expr_spec, range_end, range_name, return_spec,
    unary_spec, while_spec, while_start_spec,
};
use crate::text::print_text;
use crate::arith::{
    abs_int, add_spec, div_spec, floor_div, floor_mod, has_inverse, inverse, is_inverse, lemma_floor_mod_by_rem,
    mul_spec, reduce, rem_spec, repeat, two64, wrap64,
};
use crate::semantics::{binop_apply, context_of, flag};
use crate::env::{
    lemma_lookup_agrees, lemma_name_lookup_is_owner, lemma_name_owner_bound, lemma_owner_agrees,
    name_lookup, name_owner, same_for_name, same_place_for_name, set_path,
};
use crate::value::{
    Order, SError, SValue, order_of, seqs_equal, seqs_order, truthy, values_equal, values_order,
};

verus! {

/// `s2` is a store that evaluation can lead to from `s`: scopes are only
/// added; every scope of `s` keeps its enclosing scope and its open moduli;
/// the input is the same and no less of it has been read; output is only
/// appended to.
pub open spec fn extends(s: SStore, s2: SStore) -> bool {
    &&& s.frames.len() <= s2.frames.len()
    &&& forall|k: int|
        0 <= k < s.frames.len() ==> (#[trigger] s2.frames[k]).modulus == s.frames[k].modulus
            && s2.frames[k].parent == s.frames[k].parent
    &&& s2.input == s.input
    &&& s.pos <= s2.pos
    &&& s.output.len() <= s2.output.len()
    &&& s2.output.subrange(0, s.output.len() as int) == s.output
}

pub proof fn lemma_extends_refl(s: SStore)
    ensures
        extends(s, s),
{
    assert(s.output.subrange(0, s.output.len() as int) =~= s.output);
}

pub proof fn lemma_extends_trans(a: SStore, b: SStore, c: SStore)
    requires
        extends(a, b),
        extends(b, c),
    ensures
        extends(a, c),
{
    assert forall|k: int| 0 <= k < a.frames.len() implies (#[trigger] c.frames[k]).modulus
        == a.frames[k].modulus && c.frames[k].parent == a.frames[k].parent by {
        assert(b.frames[k].modulus == a.frames[k].modulus);
        assert(c.frames[k].modulus == b.frames[k].modulus);
    }
    assert(c.output.subrange(0, a.output.len() as int) =~= c.output.subrange(
        0,
        b.output.len() as int,
    ).subrange(0, a.output.len() as int));
}

/// Binding a variable changes no scope's moduli or enclosing scope.
pub proof fn lemma_declare_in_extends(s: SStore, id: nat, name: Seq<char>, v: SValue)
    requires
        id < s.frames.len(),
    ensures
        extends(s, declare_in(s, id, name, v)),
        declare_in(s, id, name, v).frames.len() == s.frames.len(),
{
    lemma_extends_refl(s);
}

pub proof fn lemma_new_frame_extends(s: SStore, f: crate::env::SFrame)
    ensures
        extends(s, with_new_frame(s, f)),
{
    lemma_extends_refl(s);
}

pub proof fn lemma_store_modify_extends(
    s: SStore,
    id: nat,
    name: Seq<char>,
    path: Seq<SValue>,
    v: SValue,
)
    ensures
        extends(s, store_modify(s, id, name, path, v).1),
    decreases id,
{
    lemma_extends_refl(s);
    crate::env::lemma_name_owner_bound(s.frames, id, name);
}

pub proof fn lemma_read_word_pos(input: Seq<u8>, pos: nat, word: Seq<char>)
    ensures
        pos <= read_word(input, pos, word).1,
    decreases input.len() - pos,
{
    if pos < input.len() {
        if crate::env::is_ascii_space(input[pos as int]) {
            if word.len() == 0 {
                lemma_read_word_pos(input, pos + 1, word);
            }
        } else {
            lemma_read_word_pos(input, pos + 1, word.push(input[pos as int] as char));
        }
    }
}

pub proof fn lemma_input_extends(s: SStore)
    ensures
        extends(s, input_spec(s).1),
{
    lemma_read_word_pos(s.input, s.pos, Seq::empty());
    lemma_extends_refl(s);
}

pub proof fn lemma_write_extends(s: SStore, t: Seq<char>)
    ensures
        extends(s, after_write(s, t)),
{
    lemma_extends_refl(s);
    assert((s.output + t).subrange(0, s.output.len() as int) =~= s.output);
}

pub proof fn lemma_builtin_extends(b: crate::value::Builtin, args: Seq<SValue>, s: SStore)
    ensures
        extends(s, builtin_spec(b, args, s).1),
{
    lemma_extends_refl(s);
    lemma_input_extends(s);
    if args.len() == 1 {
        if let Some(t) = print_text(args[0]) {
            lemma_write_extends(s, t);
        }
    }
}

/// Evaluation only adds scopes and output and consumes input; in particular
/// every `mod` block closes the modulus it opened, so no scope that existed
/// before is left with other moduli than it had.
pub proof fn lemma_eval_extends(e: SExpr, id: nat, s: SStore, fuel: nat)
    requires
        id < s.frames.len(),
    ensures
        extends(s, eval_spec(e, id, s, fuel).1),
    decreases fuel, 0nat, 0nat,
{
    lemma_extends_refl(s);
    if fuel > 0 {
        let f = (fuel - 1) as nat;
        match e {
            SExpr::Array(xs) => lemma_list_extends(xs, id, s, f),
            SExpr::Assign { name, indices, value } => lemma_assign_extends(
                name,
                indices,
                *value,
                id,
                s,
                f,
            ),
            SExpr::Declare { name, value } => lemma_declare_extends(name, *value, id, s, f),
            SExpr::Block(xs) => lemma_block_extends(xs, id, s, f, SValue::Nil),
            SExpr::Return(o) => match o {
                Some(x) => lemma_return_extends(*x, id, s, f),
                None => {},
            },
            SExpr::If { cond, then, else_ } => lemma_if_extends(*cond, *then, else_, id, s, f),
            SExpr::For { var, iter, body } => lemma_for_start_extends(var, *iter, *body, id, s, f),
            SExpr::While { cond, body } => lemma_while_start_extends(*cond, *body, id, s, f),
            SExpr::Mod { modulus, body } => lemma_mod_extends(*modulus, *body, id, s, f),
            SExpr::Range { start, end, inclusive } => lemma_call_extends(
                SExpr::Ident(range_name()),
                seq![*start, range_end(*end, inclusive)],
                id,
                s,
                f,
            ),
            SExpr::Call { func, args } => lemma_call_extends(*func, args, id, s, f),
            SExpr::BinOp { left, right, op } => lemma_binop_extends(*left, *right, op, id, s, f),
            SExpr::UnaryOp { op, expr } => lemma_unary_extends(op, *expr, id, s, f),
            SExpr::Index { object, index } => lemma_index_extends(*object, *index, id, s, f),
            SExpr::Len(x) => lemma_length_extends(*x, id, s, f),
            SExpr::Input => lemma_input_extends(s),
            SExpr::Print(x) => lemma_print_extends(*x, id, s, f),
            SExpr::Push(a, b) => lemma_push_extends(*a, *b, id, s, f),
            SExpr::LogicalOp { left, right, op } => lemma_logical_extends(
                *left,
                *right,
                op,
                id,
                s,
                f,
            ),
            _ => {},
        }
    }
}

proof fn lemma_two_extends(x: SExpr, y: SExpr, id: nat, s: SStore, f: nat)
    requires
        id < s.frames.len(),
    ensures
        extends(s, eval_spec(x, id, s, f).1),
        extends(s, eval_spec(y, id, eval_spec(x, id, s, f).1, f).1),
    decreases f, 1nat, 0nat,
{
    lemma_eval_extends(x, id, s, f);
    let s1 = eval_spec(x, id, s, f).1;
    lemma_eval_extends(y, id, s1, f);
    lemma_extends_trans(s, s1, eval_spec(y, id, s1, f).1);
}

proof fn lemma_declare_extends(name: Seq<char>, value: SExpr, id: nat, s: SStore, f: nat)
    requires
        id < s.frames.len(),
    ensures
        extends(s, declare_spec(name, value, id, s, f).1),
    decreases f, 2nat, 0nat,
{
    lemma_eval_extends(value, id, s, f);
    let (r, s1) = eval_spec(value, id, s, f);
    if let Ok(v) = r {
        lemma_declare_in_extends(s1, id, name, v);
        lemma_extends_trans(s, s1, declare_in(s1, id, name, v));
    }
}

proof fn lemma_return_extends(x: SExpr, id: nat, s: SStore, f: nat)
    requires
        id < s.frames.len(),
    ensures
        extends(s, return_spec(x, id, s, f).1),
    decreases f, 2nat, 0nat,
{
    lemma_eval_extends(x, id, s, f);
}

proof fn lemma_if_extends(
    cond: SExpr,
    then: SExpr,
    else_: Option<Box<SExpr>>,
    id: nat,
    s: SStore,
    f: nat,
)
    requires
        id < s.frames.len(),
    ensures
        extends(s, if_spec(cond, then, else_, id, s, f).1),
    decreases f, 2nat, 0nat,
{
    lemma_eval_extends(cond, id, s, f);
    let s1 = eval_spec(cond, id, s, f).1;
    lemma_eval_extends(then, id, s1, f);
    lemma_extends_trans(s, s1, eval_spec(then, id, s1, f).1);
    if let Some(x) = else_ {
        lemma_eval_extends(*x, id, s1, f);
        lemma_extends_trans(s, s1, eval_spec(*x, id, s1, f).1);
    }
}

proof fn lemma_for_start_extends(var: Seq<char>, iter: SExpr, body: SExpr, id: nat, s: SStore, f: nat)
    requires
        id < s.frames.len(),
    ensures
        extends(s, for_start_spec(var, iter, body, id, s, f).1),
    decreases f, 2nat, 0nat,
{
    lemma_eval_extends(iter, id, s, f);
    let (it, s1) = eval_spec(iter, id, s, f);
    if let Ok(SValue::Lambda { args, body: lb, env }) = it {
        lemma_for_extends(var, body, id, lb, env, s1, f);
        lemma_extends_trans(s, s1, for_spec(var, body, id, lb, env, s1, f).1);
    }
}

proof fn lemma_while_start_extends(cond: SExpr, body: SExpr, id: nat, s: SStore, f: nat)
    requires
        id < s.frames.len(),
    ensures
        extends(s, while_start_spec(cond, body, id, s, f).1),
    decreases f, 2nat, 0nat,
{
    lemma_eval_extends(cond, id, s, f);
    let (c, s1) = eval_spec(cond, id, s, f);
    if let Ok(v) = c {
        lemma_while_extends(cond, body, id, s1, truthy(v), f);
        lemma_extends_trans(s, s1, while_spec(cond, body, id, s1, truthy(v), f).1);
    }
}

proof fn lemma_mod_extends(modulus: SExpr, body: SExpr, id: nat, s: SStore, f: nat)
    requires
        id < s.frames.len(),
    ensures
        extends(s, mod_spec(modulus, body, id, s, f).1),
    decreases f, 2nat, 0nat,
{
    lemma_eval_extends(modulus, id, s, f);
    let (m, s1) = eval_spec(modulus, id, s, f);
    if let Ok(SValue::Number(n)) = m {
        let s2 = with_frame(
            s1,
            id as int,
            frame_with_moduli(s1.frames[id as int], s1.frames[id as int].modulus.push(n)),
        );
        lemma_eval_extends(body, id, s2, f);
        let s3 = eval_spec(body, id, s2, f).1;
        let s4 = with_frame(
            s3,
            id as int,
            frame_with_moduli(s3.frames[id as int], pop_moduli(s3.frames[id as int].modulus)),
        );
        assert(s3.frames[id as int].modulus == s1.frames[id as int].modulus.push(n));
        assert(pop_moduli(s3.frames[id as int].modulus) =~= s1.frames[id as int].modulus);
        assert forall|k: int| 0 <= k < s1.frames.len() implies (#[trigger] s4.frames[k]).modulus
            == s1.frames[k].modulus && s4.frames[k].parent == s1.frames[k].parent by {
            if k != id {
                assert(s3.frames[k].modulus == s2.frames[k].modulus);
                assert(s3.frames[k].parent == s2.frames[k].parent);
            }
        }
        assert(s4.output.subrange(0, s1.output.len() as int) =~= s3.output.subrange(
            0,
            s2.output.len() as int,
        ));
        assert(extends(s1, s4));
        lemma_extends_trans(s, s1, s4);
    }
}

proof fn lemma_binop_extends(left: SExpr, right: SExpr, op: BinOp, id: nat, s: SStore, f: nat)
    requires
        id < s.frames.len(),
    ensures
        extends(s, binop_spec(left, right, op, id, s, f).1),
    decreases f, 2nat, 0nat,
{
    lemma_two_extends(left, right, id, s, f);
}

proof fn lemma_unary_extends(op: UnaryOp, x: SExpr, id: nat, s: SStore, f: nat)
    requires
        id < s.frames.len(),
    ensures
        extends(s, unary_spec(op, x, id, s, f).1),
    decreases f, 2nat, 0nat,
{
    lemma_eval_extends(x, id, s, f);
}

proof fn lemma_index_extends(object: SExpr, index: SExpr, id: nat, s: SStore, f: nat)
    requires
        id < s.frames.len(),
    ensures
        extends(s, index_spec(object, index, id, s, f).1),
    decreases f, 2nat, 0nat,
{
    lemma_two_extends(index, object, id, s, f);
}

proof fn lemma_length_extends(x: SExpr, id: nat, s: SStore, f: nat)
    requires
        id < s.frames.len(),
    ensures
        extends(s, length_spec(x, id, s, f).1),
    decreases f, 2nat, 0nat,
{
    lemma_eval_extends(x, id, s, f);
}

proof fn lemma_print_extends(x: SExpr, id: nat, s: SStore, f: nat)
    requires
        id < s.frames.len(),
    ensures
        extends(s, print_expr_spec(x, id, s, f).1),
    decreases f, 2nat, 0nat,
{
    lemma_eval_extends(x, id, s, f);
    let (r, s1) = eval_spec(x, id, s, f);
    if let Ok(v) = r {
        if let Some(t) = print_text(v) {
            lemma_write_extends(s1, t);
            lemma_extends_trans(s, s1, after_write(s1, t));
        }
    }
}

proof fn lemma_push_extends(a: SExpr, b: SExpr, id: nat, s: SStore, f: nat)
    requires
        id < s.frames.len(),
    ensures
        extends(s, push_expr_spec(a, b, id, s, f).1),
    decreases f, 2nat, 0nat,
{
    lemma_two_extends(a, b, id, s, f);
    let (r, s1) = eval_spec(a, id, s, f);
    if let Ok(SValue::Array(arr)) = r {
        let (r2, s2) = eval_spec(b, id, s1, f);
        if let Ok(v) = r2 {
            if let SExpr::Ident(name) = a {
                lemma_store_modify_extends(s2, id, name, Seq::empty(), SValue::Array(arr.push(v)));
                lemma_extends_trans(s, s2, push_expr_spec(a, b, id, s, f).1);
            }
        }
    }
}

proof fn lemma_logical_extends(left: SExpr, right: SExpr, op: LogicalOp, id: nat, s: SStore, f: nat)
    requires
        id < s.frames.len(),
    ensures
        extends(s, logical_spec(left, right, op, id, s, f).1),
    decreases f, 2nat, 0nat,
{
    lemma_two_extends(left, right, id, s, f);
}

proof fn lemma_list_extends(xs: Seq<SExpr>, id: nat, s: SStore, f: nat)
    requires
        id < s.frames.len(),
    ensures
        extends(s, list_spec(xs, id, s, f).1),
    decreases f, 1nat, xs.len(),
{
    lemma_extends_refl(s);
    if xs.len() > 0 {
        lemma_eval_extends(xs[0], id, s, f);
        let (r, s1) = eval_spec(xs[0], id, s, f);
        if r is Ok {
            lemma_list_extends(xs.drop_first(), id, s1, f);
            lemma_extends_trans(s, s1, list_spec(xs.drop_first(), id, s1, f).1);
        }
    }
}

proof fn lemma_block_extends(xs: Seq<SExpr>, id: nat, s: SStore, f: nat, last: SValue)
    requires
        id < s.frames.len(),
    ensures
        extends(s, block_spec(xs, id, s, f, last).1),
    decreases f, 1nat, xs.len(),
{
    lemma_extends_refl(s);
    if xs.len() > 0 {
        lemma_eval_extends(xs[0], id, s, f);
        let (r, s1) = eval_spec(xs[0], id, s, f);
        if let Ok(v) = r {
            lemma_block_extends(xs.drop_first(), id, s1, f, v);
            lemma_extends_trans(s, s1, block_spec(xs.drop_first(), id, s1, f, v).1);
        }
    }
}

proof fn lemma_assign_extends(
    name: Seq<char>,
    indices: Seq<SExpr>,
    value: SExpr,
    id: nat,
    s: SStore,
    f: nat,
)
    requires
        id < s.frames.len(),
    ensures
        extends(s, assign_spec(name, indices, value, id, s, f).1),
    decreases f, 2nat, 0nat,
{
    lemma_eval_extends(value, id, s, f);
    let (vr, s1) = eval_spec(value, id, s, f);
    lemma_list_extends(indices, id, s1, f);
    let (ir, s2) = list_spec(indices, id, s1, f);
    lemma_extends_trans(s, s1, s2);
    if let Ok(path) = ir {
        if let Ok(v) = vr {
            lemma_store_modify_extends(s2, id, name, path, v);
            lemma_extends_trans(s, s2, store_modify(s2, id, name, path, v).1);
        }
    }
}

proof fn lemma_while_extends(cond: SExpr, body: SExpr, id: nat, s: SStore, t: bool, f: nat)
    requires
        id < s.frames.len(),
    ensures
        extends(s, while_spec(cond, body, id, s, t, f).1),
    decreases f, 1nat, 0nat,
{
    lemma_extends_refl(s);
    if t && f > 0 {
        let g = (f - 1) as nat;
        lemma_eval_extends(body, id, s, g);
        let (b, s1) = eval_spec(body, id, s, g);
        if b is Ok || b == Err::<SValue, SError>(SError::Continue) {
            lemma_eval_extends(cond, id, s1, g);
            let (c, s2) = eval_spec(cond, id, s1, g);
            lemma_extends_trans(s, s1, s2);
            if let Ok(v) = c {
                lemma_while_extends(cond, body, id, s2, truthy(v), g);
                lemma_extends_trans(s, s2, while_spec(cond, body, id, s2, truthy(v), g).1);
            }
        }
    }
}

proof fn lemma_for_extends(
    var: Seq<char>,
    body: SExpr,
    id: nat,
    lbody: SExpr,
    lenv: nat,
    s: SStore,
    f: nat,
)
    requires
        id < s.frames.len(),
    ensures
        extends(s, for_spec(var, body, id, lbody, lenv, s, f).1),
    decreases f, 1nat, 0nat,
{
    lemma_extends_refl(s);
    if f > 0 {
        let g = (f - 1) as nat;
        let cid = s.frames.len();
        let s1 = with_new_frame(s, call_frame(s, lenv, id));
        lemma_new_frame_extends(s, call_frame(s, lenv, id));
        lemma_eval_extends(lbody, cid, s1, g);
        let (r, s2) = eval_spec(lbody, cid, s1, g);
        lemma_extends_trans(s, s1, s2);
        let next = match r {
            Ok(v) => Ok(v),
            Err(SError::Return(o)) => Ok(crate::semantics::returned(o)),
            Err(err) => Err(err),
        };
        if let Ok(v) = next {
            if !(v is Nil) {
                let s3 = declare_in(s2, id, var, v);
                lemma_declare_in_extends(s2, id, var, v);
                lemma_extends_trans(s, s2, s3);
                lemma_eval_extends(body, id, s3, g);
                let (b, s4) = eval_spec(body, id, s3, g);
                lemma_extends_trans(s, s3, s4);
                lemma_for_extends(var, body, id, lbody, lenv, s4, g);
                lemma_extends_trans(s, s4, for_spec(var, body, id, lbody, lenv, s4, g).1);
            }
        }
    }
}

proof fn lemma_bind_extends(
    names: Seq<Seq<char>>,
    args: Seq<SExpr>,
    id: nat,
    cid: nat,
    s: SStore,
    f: nat,
)
    requires
        id < s.frames.len(),
        cid < s.frames.len(),
    ensures
        extends(s, bind_spec(names, args, id, cid, s, f).1),
    decreases f, 1nat, args.len(),
{
    lemma_extends_refl(s);
    if args.len() > 0 {
        lemma_eval_extends(args[0], id, s, f);
        let (r, s1) = eval_spec(args[0], id, s, f);
        if let Ok(v) = r {
            let s2 = declare_in(s1, cid, names[0], v);
            lemma_declare_in_extends(s1, cid, names[0], v);
            lemma_extends_trans(s, s1, s2);
            lemma_bind_extends(names.drop_first(), args.drop_first(), id, cid, s2, f);
            lemma_extends_trans(
                s,
                s2,
                bind_spec(names.drop_first(), args.drop_first(), id, cid, s2, f).1,
            );
        }
    }
}

proof fn lemma_call_extends(func: SExpr, args: Seq<SExpr>, id: nat, s: SStore, f: nat)
    requires
        id < s.frames.len(),
    ensures
        extends(s, call_spec(func, args, id, s, f).1),
    decreases f, 2nat, 0nat,
{
    lemma_eval_extends(func, id, s, f);
    let (fr, s1) = eval_spec(func, id, s, f);
    match fr {
        Ok(SValue::Lambda { args: names, body, env }) => {
            let cid = s1.frames.len();
            let s2 = with_new_frame(s1, call_frame(s1, env, id));
            lemma_new_frame_extends(s1, call_frame(s1, env, id));
            lemma_extends_trans(s, s1, s2);
            if names.len() == args.len() {
                lemma_bind_extends(names, args, id, cid, s2, f);
                let s3 = bind_spec(names, args, id, cid, s2, f).1;
                lemma_extends_trans(s, s2, s3);
                lemma_eval_extends(body, cid, s3, f);
                lemma_extends_trans(s, s3, eval_spec(body, cid, s3, f).1);
            }
        },
        Ok(SValue::BuiltinFn(b)) => {
            lemma_list_extends(args, id, s1, f);
            let (ar, s2) = list_spec(args, id, s1, f);
            lemma_extends_trans(s, s1, s2);
            if let Ok(vs) = ar {
                lemma_builtin_extends(b, vs, s2);
                lemma_extends_trans(s, s2, builtin_spec(b, vs, s2).1);
                if args.len() > 0 && args[0] is Ident {
                    lemma_store_modify_extends(s2, id, args[0]->Ident_0, Seq::empty(), pushed(vs));
                    lemma_extends_trans(
                        s,
                        s2,
                        store_modify(s2, id, args[0]->Ident_0, Seq::empty(), pushed(vs)).1,
                    );
                }
            }
        },
        _ => {},
    }
}

/// Evaluating any expression leaves the moduli of the scope it runs in as
/// they were: a `mod` block only affects what is evaluated inside it.
pub proof fn law_mod_scope(e: SExpr, id: nat, s: SStore, fuel: nat)
    requires
        id < s.frames.len(),
    ensures
        eval_spec(e, id, s, fuel).1.frames[id as int].modulus == s.frames[id as int].modulus,
        context_of(eval_spec(e, id, s, fuel).1, id) == context_of(s, id),
{
    lemma_eval_extends(e, id, s, fuel);
    assert(eval_spec(e, id, s, fuel).1.frames[id as int].modulus == s.frames[id as int].modulus);
}

/// `n` lies where a number reduced by the modulus `m` lies: in `0..m` for a
/// positive `m`, in `m+1..=0` for a negative one.
pub open spec fn in_mod_range(n: int, m: int) -> bool {
    &&& m > 0 ==> 0 <= n < m
    &&& m < 0 ==> m < n <= 0
}

proof fn lemma_reduce_in_range(x: int, m: i64)
    requires
        m != 0,
    ensures
        in_mod_range(reduce(x, Some(m)) as int, m as int),
        (reduce(x, Some(m)) as int) % abs_int(m as int) == x % abs_int(m as int),
{
    lemma_floor_mod_by_rem(x, m as int);
}

/// Inside a `mod` block with a nonzero modulus `m`, every arithmetic, bitwise
/// or shift operation on two numbers that succeeds gives a number reduced by
/// `m`: in `0..m` for a positive `m`, in `m+1..=0` for a negative one.
pub proof fn law_mod_results_in_range(op: BinOp, a: i64, b: i64, m: i64)
    requires
        m != 0,
        !(op is Eq || op is Neq || op is Lt || op is Gt || op is Le || op is Ge),
    ensures
        binop_apply(op, SValue::Number(a), SValue::Number(b), Some(m)) matches Ok(
            SValue::Number(n),
        ) ==> in_mod_range(n as int, m as int),
{
    match op {
        BinOp::Add => lemma_reduce_in_range(a + b, m),
        BinOp::Sub => lemma_reduce_in_range(a - b, m),
        BinOp::Mul => lemma_reduce_in_range(a * b, m),
        BinOp::Div => lemma_reduce_in_range(a * inverse(b as int, m as int), m),
        BinOp::Rem => lemma_reduce_in_range(floor_mod(a as int, b as int), m),
        BinOp::Pow => lemma_reduce_in_range(
            if b <= 0 {
                1
            } else {
                vstd::arithmetic::power::pow(a as int, b as nat)
            },
            m,
        ),
        BinOp::Xor => lemma_reduce_in_range((a ^ b) as int, m),
        BinOp::And => lemma_reduce_in_range((a & b) as int, m),
        BinOp::Or => lemma_reduce_in_range((a | b) as int, m),
        BinOp::Shl => lemma_reduce_in_range(
            vstd::wrapping::i64_specs::wrapping_shl(a, b as u32) as int,
            m,
        ),
        BinOp::Shr => lemma_reduce_in_range(
            vstd::wrapping::i64_specs::wrapping_shr(a, b as u32) as int,
            m,
        ),
        _ => {},
    }
}

/// Inside a `mod` block with a nonzero modulus `m`, division is
/// multiplication by an inverse: when `a / b` gives `q`, then `q * b` is `a`
/// modulo `|m|`.
pub proof fn law_mod_division_inverts(a: i64, b: i64, m: i64)
    requires
        m != 0,
    ensures
        div_spec(SValue::Number(a), SValue::Number(b), Some(m)) matches Ok(SValue::Number(q)) ==> (
        q as int * b as int) % abs_int(m as int) == (a as int) % abs_int(m as int),
{
    if has_inverse(b as int, m as int) {
        let x = inverse(b as int, m as int);
        let d = abs_int(m as int);
        assert(is_inverse(b as int, x, m as int));
        let q = reduce(a * x, Some(m));
        lemma_reduce_in_range(a * x, m);
        vstd::arithmetic::div_mod::lemma_mul_mod_noop_left(q as int, b as int, d);
        vstd::arithmetic::div_mod::lemma_mul_mod_noop_left(a * x, b as int, d);
        assert((a * x) * b == a * (b * x)) by (nonlinear_arith);
        vstd::arithmetic::div_mod::lemma_mul_mod_noop_right(a as int, b * x, d);
        vstd::arithmetic::div_mod::lemma_mul_mod_noop_right(a as int, 1, d);
        assert(a * 1 == a);
    }
}

/// `y` is `x` repeated `k` times: `|x| * max(k, 0)` elements, element `i`
/// being element `i mod |x|` of `x`.
pub open spec fn repeated(x: Seq<SValue>, k: int, y: Seq<SValue>) -> bool {
    &&& y.len() == x.len() * (if k > 0 {
        k
    } else {
        0
    })
    &&& forall|i: int| 0 <= i < y.len() ==> #[trigger] y[i] == x[i % (x.len() as int)]
}

proof fn lemma_repeat(x: Seq<SValue>, n: int)
    ensures
        repeated(x, n, repeat(x, n)),
    decreases n,
{
    if n > 0 {
        lemma_repeat(x, n - 1);
        let l = x.len() as int;
        let prev = repeat(x, n - 1);
        let y = repeat(x, n);
        assert(y == prev + x);
        assert(l * (n - 1) + l == l * n) by (nonlinear_arith);
        assert forall|i: int| 0 <= i < y.len() implies #[trigger] y[i] == x[i % l] by {
            if i >= prev.len() {
                vstd::arithmetic::div_mod::lemma_fundamental_div_mod_converse(i, l, n - 1, i - l * (n - 1));
                assert(i == (n - 1) * l + (i - l * (n - 1))) by (nonlinear_arith);
            } else {
                assert(prev[i] == x[i % l]);
            }
        }
    } else {
        assert(repeat(x, n) =~= Seq::<SValue>::empty());
    }
}

/// `*` with an array and a number `k`, in either order, gives the array
/// repeated `k` times (empty for `k <= 0`), its elements not reduced; `*` on
/// two numbers gives the same in either order; on any other pair of values
/// it is an error.
pub proof fn law_mul(l: SValue, r: SValue, modulus: Option<i64>)
    ensures
        l matches SValue::Array(x) ==> (r matches SValue::Number(k) ==> mul_spec(
            l,
            r,
            modulus,
        ) matches Ok(SValue::Array(y)) && repeated(x, k as int, y)),
        l matches SValue::Number(k) ==> (r matches SValue::Array(x) ==> mul_spec(
            l,
            r,
            modulus,
        ) matches Ok(SValue::Array(y)) && repeated(x, k as int, y)),
        (l is Number && r is Number) ==> mul_spec(l, r, modulus) == mul_spec(r, l, modulus),
        !(l is Number && r is Number) && !(l is Array && r is Number) && !(l is Number && r is Array)
            ==> mul_spec(l, r, modulus) == Err::<SValue, SError>(
            SError::TypeError("unsupported types for `*`"@),
        ),
{
    match (l, r) {
        (SValue::Array(x), SValue::Number(k)) => lemma_repeat(x, k as int),
        (SValue::Number(k), SValue::Array(x)) => lemma_repeat(x, k as int),
        (SValue::Number(a), SValue::Number(b)) => {
            assert(a * b == b * a) by (nonlinear_arith);
        },
        _ => {},
    }
}

/// `g` divides `x`.
pub open spec fn divides(g: int, x: int) -> bool {
    x % g == 0
}

/// `b` and `d` have no common factor greater than 1.
pub open spec fn coprime(b: int, d: int) -> bool {
    forall|g: int| g > 1 ==> !(#[trigger] divides(g, b) && #[trigger] divides(g, d))
}

/// Bezout's identity for `a, b >= 0`: a common factor `g = a * x + b * y`
/// of `a` and `b`, returned as `(g, x, y, a / g, b / g)`.
proof fn lemma_bezout(a: int, b: int) -> (r: (int, int, int, int, int))
    requires
        a >= 0,
        b >= 0,
    ensures
        r.0 >= 0,
        a == r.0 * r.3,
        b == r.0 * r.4,
        r.0 == a * r.1 + b * r.2,
    decreases b,
{
    if b == 0 {
        (a, 1, 0, 1, 0)
    } else {
        vstd::arithmetic::div_mod::lemma_fundamental_div_mod(a, b);
        vstd::arithmetic::div_mod::lemma_mod_bound(a, b);
        let q = a / b;
        let rr = a % b;
        let (g, x, y, u, v) = lemma_bezout(b, rr);
        assert(a == g * (u * q + v)) by (nonlinear_arith)
            requires
                a == b * q + rr,
                b == g * u,
                rr == g * v,
        ;
        assert(g == a * y + b * (x - q * y)) by (nonlinear_arith)
            requires
                g == b * x + rr * y,
                a == b * q + rr,
        ;
        (g, y, x - q * y, u * q + v, u)
    }
}

/// A number `b` has an inverse modulo `|m|` exactly when `b` and `m` have no
/// common factor greater than 1; so inside a `mod` block with modulus `m`,
/// `a / b` succeeds exactly for such `b` (see [`div_spec`]).
pub proof fn law_inverse_exists_iff_coprime(b: int, m: int)
    requires
        m != 0,
    ensures
        has_inverse(b, m) <==> coprime(b, abs_int(m)),
{
    let d = abs_int(m);
    if has_inverse(b, m) {
        let r = inverse(b, m);
        assert(is_inverse(b, r, m));
        assert forall|g: int| g > 1 implies !(#[trigger] divides(g, b) && #[trigger] divides(g, d)) by {
            if divides(g, b) && divides(g, d) {
                vstd::arithmetic::div_mod::lemma_fundamental_div_mod(b, g);
                vstd::arithmetic::div_mod::lemma_fundamental_div_mod(d, g);
                let u = b / g;
                let w = d / g;
                if d == 1 {
                    assert(false) by (nonlinear_arith)
                        requires
                            d == g * w,
                            d == 1,
                            g > 1,
                    ;
                } else {
                    vstd::arithmetic::div_mod::lemma_small_mod(1, d as nat);
                    vstd::arithmetic::div_mod::lemma_fundamental_div_mod(b * r, d);
                    let k = (b * r) / d;
                    let n = u * r - w * k;
                    assert(g * n == 1) by (nonlinear_arith)
                        requires
                            b * r == d * k + 1,
                            b == g * u,
                            d == g * w,
                            n == u * r - w * k,
                    ;
                    assert(false) by (nonlinear_arith)
                        requires
                            g > 1,
                            g * n == 1,
                    ;
                }
            }
        }
    } else if coprime(b, d) {
        vstd::arithmetic::div_mod::lemma_fundamental_div_mod(b, d);
        vstd::arithmetic::div_mod::lemma_mod_bound(b, d);
        let bb = b % d;
        let (g, x, y, u, v) = lemma_bezout(bb, d);
        assert(g >= 1) by (nonlinear_arith)
            requires
                d == g * v,
                d >= 1,
                g >= 0,
        ;
        if g > 1 {
            let j = b / d;
            assert(d == v * g && b == (u + v * j) * g) by (nonlinear_arith)
                requires
                    d == g * v,
                    bb == g * u,
                    b == d * j + bb,
            ;
            vstd::arithmetic::div_mod::lemma_mod_multiples_basic(v, g);
            vstd::arithmetic::div_mod::lemma_mod_multiples_basic(u + v * j, g);
            assert(divides(g, b) && divides(g, d));
        }
        let r = x % d;
        vstd::arithmetic::div_mod::lemma_mod_bound(x, d);
        vstd::arithmetic::div_mod::lemma_mul_mod_noop_right(b, x, d);
        vstd::arithmetic::div_mod::lemma_mul_mod_noop_left(b, x, d);
        assert(bb * x == d * (-y) + 1) by (nonlinear_arith)
            requires
                1 == bb * x + d * y,
        ;
        vstd::arithmetic::div_mod::lemma_mod_multiples_vanish(-y, 1, d);
        assert(is_inverse(b, r, m));
    }
}

proof fn lemma_wrap64_small(x: int)
    requires
        i64::MIN <= x <= i64::MAX,
    ensures
        wrap64(x) == x,
{
    if x >= 0 {
        vstd::arithmetic::div_mod::lemma_small_mod(x as nat, two64() as nat);
    } else {
        vstd::arithmetic::div_mod::lemma_fundamental_div_mod_converse_mod(x, two64(), -1, x + two64());
    }
}

proof fn lemma_euclid_bounds(x: int, d: int)
    requires
        d >= 1,
    ensures
        x >= 0 ==> 0 <= x / d <= x,
        x < 0 ==> x <= x / d < 0,
        x == d * (x / d) + x % d,
        0 <= x % d < d,
{
    vstd::arithmetic::div_mod::lemma_fundamental_div_mod(x, d);
    vstd::arithmetic::div_mod::lemma_mod_bound(x, d);
    let q = x / d;
    let r = x % d;
    if x >= 0 {
        assert(0 <= q <= x) by (nonlinear_arith)
            requires
                x == d * q + r,
                0 <= r < d,
                d >= 1,
                x >= 0,
        ;
    } else {
        assert(x <= q < 0) by (nonlinear_arith)
            requires
                x == d * q + r,
                0 <= r < d,
                d >= 1,
                x < 0,
        ;
    }
}

/// Outside a `mod` block, `/` and `%` are floor division and its remainder:
/// `b * (a / b) + a % b == a`, and the remainder lies between 0 and `b`,
/// for every divisor but 0 and every pair but `i64::MIN / -1`, whose
/// quotient does not fit.
pub proof fn law_floor_division(a: i64, b: i64)
    requires
        b != 0,
        !(a == i64::MIN && b == -1),
    ensures
        match (
            div_spec(SValue::Number(a), SValue::Number(b), None),
            rem_spec(SValue::Number(a), SValue::Number(b), None),
        ) {
            (Ok(SValue::Number(q)), Ok(SValue::Number(r))) => b as int * q as int + r as int
                == a as int && (b > 0 ==> 0 <= r < b) && (b < 0 ==> b < r <= 0),
            _ => false,
        },
{
    let ai = a as int;
    let bi = b as int;
    if b > 0 {
        lemma_euclid_bounds(ai, bi);
        lemma_wrap64_small(ai / bi);
        lemma_wrap64_small(ai % bi);
    } else {
        lemma_euclid_bounds(-ai, -bi);
        assert(-ai != 0x8000_0000_0000_0000 || -bi != 1);
        assert(-ai / -bi <= i64::MAX) by {
            if -ai == 0x8000_0000_0000_0000 {
                assert(-bi >= 2);
                assert((-ai) / (-bi) <= (-ai) / 2) by {
                    vstd::arithmetic::div_mod::lemma_div_is_ordered_by_denominator(-ai, 2, -bi);
                }
            }
        }
        lemma_wrap64_small(floor_div(ai, bi));
        lemma_wrap64_small(floor_mod(ai, bi));
        assert(bi * floor_div(ai, bi) + floor_mod(ai, bi) == ai) by (nonlinear_arith)
            requires
                -ai == (-bi) * ((-ai) / (-bi)) + (-ai) % (-bi),
                floor_div(ai, bi) == (-ai) / (-bi),
                floor_mod(ai, bi) == -((-ai) % (-bi)),
        ;
    }
}

/// `while` gives `nil` whenever it ends without an error.
pub proof fn law_while_gives_nil(cond: SExpr, body: SExpr, id: nat, s: SStore, t: bool, f: nat)
    ensures
        while_spec(cond, body, id, s, t, f).0 matches Ok(v) ==> v is Nil,
    decreases f,
{
    if t && f > 0 {
        let g = (f - 1) as nat;
        let (b, s1) = eval_spec(body, id, s, g);
        if b is Ok || b == Err::<SValue, SError>(SError::Continue) {
            let (c, s2) = eval_spec(cond, id, s1, g);
            if let Ok(v) = c {
                law_while_gives_nil(cond, body, id, s2, truthy(v), g);
            }
        }
    }
}

/// `for` gives `nil` whenever it ends without an error.
pub proof fn law_for_gives_nil(
    var: Seq<char>,
    body: SExpr,
    id: nat,
    lbody: SExpr,
    lenv: nat,
    s: SStore,
    f: nat,
)
    ensures
        for_spec(var, body, id, lbody, lenv, s, f).0 matches Ok(v) ==> v is Nil,
    decreases f,
{
    if f > 0 {
        let g = (f - 1) as nat;
        let cid = s.frames.len();
        let s1 = with_new_frame(s, call_frame(s, lenv, id));
        let (r, s2) = eval_spec(lbody, cid, s1, g);
        let next = match r {
            Ok(v) => Ok(v),
            Err(SError::Return(o)) => Ok(crate::semantics::returned(o)),
            Err(err) => Err(err),
        };
        if let Ok(v) = next {
            if !(v is Nil) {
                let s3 = declare_in(s2, id, var, v);
                let (b, s4) = eval_spec(body, id, s3, g);
                law_for_gives_nil(var, body, id, lbody, lenv, s4, g);
            }
        }
    }
}

/// Both loops, as expressions, give `nil` whenever they end without an error.
pub proof fn law_loops_give_nil(e: SExpr, id: nat, s: SStore, fuel: nat)
    requires
        e is While || e is For,
    ensures
        eval_spec(e, id, s, fuel).0 matches Ok(v) ==> v is Nil,
{
    if fuel > 0 {
        let f = (fuel - 1) as nat;
        match e {
            SExpr::While { cond, body } => {
                let (c, s1) = eval_spec(*cond, id, s, f);
                if let Ok(v) = c {
                    law_while_gives_nil(*cond, *body, id, s1, truthy(v), f);
                }
            },
            SExpr::For { var, iter, body } => {
                let (it, s1) = eval_spec(*iter, id, s, f);
                if let Ok(SValue::Lambda { args, body: lb, env }) = it {
                    law_for_gives_nil(var, *body, id, lb, env, s1, f);
                }
            },
            _ => {},
        }
    }
}

/// `a && b` does not evaluate `b` when `a` is false, and `a || b` does not
/// evaluate `b` when `a` is true: the result is decided by `a`, and the
/// store is the one `a` left.
pub proof fn law_short_circuit(left: SExpr, right: SExpr, op: LogicalOp, id: nat, s: SStore, fuel: nat)
    requires
        fuel > 0,
        eval_spec(left, id, s, (fuel - 1) as nat).0 matches Ok(v) && (if op == LogicalOp::And {
            !truthy(v)
        } else {
            truthy(v)
        }),
    ensures
        eval_spec(
            SExpr::LogicalOp { left: Box::new(left), right: Box::new(right), op: op },
            id,
            s,
            fuel,
        ) == (
            Ok::<SValue, SError>(SValue::Number(if op == LogicalOp::And { 0 } else { 1 })),
            eval_spec(left, id, s, (fuel - 1) as nat).1,
        ),
{
}

/// A `return` inside the iterator of a `for` loop gives the iterator's next
/// element, as it gives the result of any call; it never leaves the loop. So
/// a loop whose body never ends with `return` never ends with `return`
/// either, whatever its iterator does.
pub proof fn law_for_keeps_iterator_returns(
    var: Seq<char>,
    body: SExpr,
    id: nat,
    lbody: SExpr,
    lenv: nat,
    s: SStore,
    f: nat,
)
    requires
        forall|c: nat, t: SStore, g: nat| !(#[trigger] eval_spec(body, c, t, g).0 matches Err(
            SError::Return(_),
        )),
    ensures
        !(for_spec(var, body, id, lbody, lenv, s, f).0 matches Err(SError::Return(_))),
    decreases f,
{
    if f > 0 {
        let g = (f - 1) as nat;
        let cid = s.frames.len();
        let s1 = with_new_frame(s, call_frame(s, lenv, id));
        let (r, s2) = eval_spec(lbody, cid, s1, g);
        let next = match r {
            Ok(v) => Ok(v),
            Err(SError::Return(o)) => Ok(crate::semantics::returned(o)),
            Err(err) => Err(err),
        };
        if let Ok(v) = next {
            if !(v is Nil) {
                let s3 = declare_in(s2, id, var, v);
                let (b, s4) = eval_spec(body, id, s3, g);
                law_for_keeps_iterator_returns(var, body, id, lbody, lenv, s4, g);
            }
        }
    }
}

/// A `for` loop whose iterator ends its call with `return` and no value (so
/// gives `nil`) ends, with `nil`.
pub proof fn law_for_iterator_return_nil_ends(
    var: Seq<char>,
    body: SExpr,
    id: nat,
    lbody: SExpr,
    lenv: nat,
    s: SStore,
    f: nat,
)
    requires
        f > 0,
        eval_spec(
            lbody,
            s.frames.len(),
            with_new_frame(s, call_frame(s, lenv, id)),
            (f - 1) as nat,
        ).0 == Err::<SValue, SError>(SError::Return(None)),
    ensures
        for_spec(var, body, id, lbody, lenv, s, f) == (
            Ok::<SValue, SError>(SValue::Nil),
            eval_spec(
                lbody,
                s.frames.len(),
                with_new_frame(s, call_frame(s, lenv, id)),
                (f - 1) as nat,
            ).1,
        ),
{
}

/// `&&` and `||` are the boolean "and" and "or" of the truth of their
/// operands, given as 1 or 0: when `left` gives `a` and `right`, evaluated
/// after it, gives `b`, then `left && right` gives 1 exactly when both are
/// true and `left || right` gives 1 exactly when one of them is.
pub proof fn law_logical_values(
    left: SExpr,
    right: SExpr,
    op: LogicalOp,
    id: nat,
    s: SStore,
    fuel: nat,
)
    requires
        fuel > 0,
        eval_spec(left, id, s, (fuel - 1) as nat).0 is Ok,
        eval_spec(right, id, eval_spec(left, id, s, (fuel - 1) as nat).1, (fuel - 1) as nat).0 is Ok,
    ensures
        ({
            let a = eval_spec(left, id, s, (fuel - 1) as nat).0->Ok_0;
            let b = eval_spec(
                right,
                id,
                eval_spec(left, id, s, (fuel - 1) as nat).1,
                (fuel - 1) as nat,
            ).0->Ok_0;
            eval_spec(
                SExpr::LogicalOp { left: Box::new(left), right: Box::new(right), op: op },
                id,
                s,
                fuel,
            ).0 == Ok::<SValue, SError>(
                flag(
                    if op == LogicalOp::And {
                        truthy(a) && truthy(b)
                    } else {
                        truthy(a) || truthy(b)
                    },
                ),
            )
        }),
{
}

/// After `let name = v` in scope `id`, `name` seen from `id` is `v`, and
/// every other name seen from any scope is what it was.
pub proof fn law_lookup_after_declare(
    s: SStore,
    id: nat,
    name: Seq<char>,
    v: SValue,
    other: Seq<char>,
    from: nat,
)
    requires
        id < s.frames.len(),
    ensures
        name_lookup(declare_in(s, id, name, v).frames, id, name) == Some(v),
        other != name ==> name_lookup(declare_in(s, id, name, v).frames, from, other)
            == name_lookup(s.frames, from, other),
{
    let s2 = declare_in(s, id, name, v);
    assert(s2.frames[id as int].vars.contains_key(name));
    if other != name && from < s.frames.len() {
        assert forall|k: int| 0 <= k < s.frames.len() implies #[trigger] same_for_name(
            s.frames[k],
            s2.frames[k],
            other,
        ) by {}
        lemma_lookup_agrees(s.frames, s2.frames, s.frames.len(), from, other);
    }
}

/// Replacing the binding of `name` in scope `o`, which binds it, leaves the
/// scope that holds `name` seen from any scope as it was.
proof fn lemma_owner_after_update(s: SStore, o: nat, name: Seq<char>, x: SValue, from: nat)
    requires
        o < s.frames.len(),
        s.frames[o as int].vars.contains_key(name),
    ensures
        name_owner(
            with_frame(s, o as int, frame_with_var(s.frames[o as int], name, x)).frames,
            from,
            name,
        ) == name_owner(s.frames, from, name),
{
    let s2 = with_frame(s, o as int, frame_with_var(s.frames[o as int], name, x));
    if from < s.frames.len() {
        assert forall|k: int| 0 <= k < s.frames.len() implies #[trigger] same_place_for_name(
            s.frames[k],
            s2.frames[k],
            name,
        ) by {}
        lemma_owner_agrees(s.frames, s2.frames, s.frames.len(), from, name);
    }
}

/// Lookups of names other than `name` are unchanged when the binding of
/// `name` in scope `o` is replaced.
proof fn lemma_other_after_update(
    s: SStore,
    o: nat,
    name: Seq<char>,
    x: SValue,
    other: Seq<char>,
    from: nat,
)
    requires
        o < s.frames.len(),
        other != name,
    ensures
        name_lookup(
            with_frame(s, o as int, frame_with_var(s.frames[o as int], name, x)).frames,
            from,
            other,
        ) == name_lookup(s.frames, from, other),
{
    let s2 = with_frame(s, o as int, frame_with_var(s.frames[o as int], name, x));
    if from < s.frames.len() {
        assert forall|k: int| 0 <= k < s.frames.len() implies #[trigger] same_for_name(
            s.frames[k],
            s2.frames[k],
            other,
        ) by {}
        lemma_lookup_agrees(s.frames, s2.frames, s.frames.len(), from, other);
    }
}

/// An assignment `name[path...] = v` seen from scope `id` that succeeds
/// changes only the variable `name`: seen from `id` it now holds its old
/// value with the element at `path` replaced by `v`, and every other name
/// seen from any scope is unchanged. Values are copied, so an assignment to
/// one variable never shows through another.
pub proof fn law_assign_changes_one_variable(
    s: SStore,
    id: nat,
    name: Seq<char>,
    path: Seq<SValue>,
    v: SValue,
    other: Seq<char>,
    from: nat,
)
    requires
        store_modify(s, id, name, path, v).0 is Ok,
    ensures
        name_lookup(s.frames, id, name) matches Some(old) && set_path(old, path, v) matches Ok(
            x,
        ) && name_lookup(store_modify(s, id, name, path, v).1.frames, id, name) == Some(x),
        other != name ==> name_lookup(store_modify(s, id, name, path, v).1.frames, from, other)
            == name_lookup(s.frames, from, other),
{
    lemma_name_owner_bound(s.frames, id, name);
    lemma_name_lookup_is_owner(s.frames, id, name);
    let o = name_owner(s.frames, id, name)->0;
    let x = set_path(s.frames[o as int].vars[name], path, v)->Ok_0;
    let s2 = with_frame(s, o as int, frame_with_var(s.frames[o as int], name, x));
    lemma_owner_after_update(s, o, name, x, id);
    lemma_name_lookup_is_owner(s2.frames, id, name);
    if other != name {
        lemma_other_after_update(s, o, name, x, other, from);
    }
}

/// `push(name, e)` on a variable `name`: when it succeeds, `name` held an
/// array, the result is that array with the value of `e` added at the end,
/// and afterwards `name`, seen from the same scope, holds the result.
pub proof fn law_push_extends_variable(name: Seq<char>, e: SExpr, id: nat, s: SStore, fuel: nat)
    requires
        id < s.frames.len(),
    ensures
        eval_spec(SExpr::Push(Box::new(SExpr::Ident(name)), Box::new(e)), id, s, fuel).0 matches Ok(
            r,
        ) ==> {
            &&& name_lookup(
                eval_spec(SExpr::Push(Box::new(SExpr::Ident(name)), Box::new(e)), id, s, fuel).1.frames,
                id,
                name,
            ) == Some(r)
            &&& exists|arr: Seq<SValue>, v: SValue|
                name_lookup(s.frames, id, name) == Some(SValue::Array(arr)) && r == SValue::Array(
                    arr.push(v),
                )
        },
{
    if fuel > 0 {
        let f = (fuel - 1) as nat;
        let a = SExpr::Ident(name);
        let (r1, s1) = eval_spec(a, id, s, f);
        if let Ok(SValue::Array(arr)) = r1 {
            let (r2, s2) = eval_spec(e, id, s1, f);
            if let Ok(v) = r2 {
                let na = SValue::Array(arr.push(v));
                if store_modify(s2, id, name, Seq::empty(), na).0 is Ok {
                    law_assign_changes_one_variable(s2, id, name, Seq::empty(), na, name, id);
                    assert(set_path(name_lookup(s2.frames, id, name)->0, Seq::empty(), na) == Ok::<
                        SValue,
                        SError,
                    >(na));
                    assert(name_lookup(s.frames, id, name) == Some(SValue::Array(arr)));
                }
            }
        }
    }
}

/// `==` holds only between identical values: whenever `values_equal(a, b)`,
/// `a` and `b` are the same value (two characters are equal only when they
/// are the same character, two strings only when they have the same
/// characters in the same places).
pub proof fn law_equal_values_are_identical(a: SValue, b: SValue)
    ensures
        values_equal(a, b) ==> a == b,
    decreases a,
{
    if let (SValue::Array(x), SValue::Array(y)) = (a, b) {
        lemma_equal_seqs_are_identical(x, y);
    }
}

proof fn lemma_equal_seqs_are_identical(x: Seq<SValue>, y: Seq<SValue>)
    ensures
        seqs_equal(x, y) ==> x == y,
    decreases x,
{
    if x.len() > 0 && y.len() > 0 && seqs_equal(x, y) {
        assert(values_equal(x[0], y[0]) && seqs_equal(x.drop_first(), y.drop_first()));
        law_equal_values_are_identical(x[0], y[0]);
        lemma_equal_seqs_are_identical(x.drop_first(), y.drop_first());
        assert(x.drop_first() == y.drop_first());
        assert(x.len() == y.len());
        assert forall|i: int| 0 <= i < x.len() implies x[i] == y[i] by {
            if i > 0 {
                assert(x.drop_first()[i - 1] == y.drop_first()[i - 1]);
            }
        }
        assert(x =~= y);
    }
}

/// A value made of numbers, characters and `nil` only (arrays nested to any
/// depth allowed).
pub open spec fn plain(v: SValue) -> bool
    decreases v,
{
    match v {
        SValue::Number(_) | SValue::Char(_) | SValue::Nil => true,
        SValue::Array(xs) => plain_seq(xs),
        _ => false,
    }
}

/// Every element of `xs` is [`plain`].
pub open spec fn plain_seq(xs: Seq<SValue>) -> bool
    decreases xs,
{
    xs.len() == 0 || (plain(xs[0]) && plain_seq(xs.drop_first()))
}

/// On values made of numbers, characters and `nil`, `==` is identity:
/// `values_equal(a, b)` holds exactly when `a` and `b` are the same value.
pub proof fn law_equality_is_identity(a: SValue, b: SValue)
    requires
        plain(a),
    ensures
        values_equal(a, b) <==> a == b,
    decreases a,
{
    law_equal_values_are_identical(a, b);
    if let SValue::Array(x) = a {
        lemma_plain_seq_equal_itself(x);
    }
}

proof fn lemma_plain_seq_equal_itself(x: Seq<SValue>)
    requires
        plain_seq(x),
    ensures
        seqs_equal(x, x),
    decreases x,
{
    if x.len() > 0 {
        law_equality_is_identity(x[0], x[0]);
        lemma_plain_seq_equal_itself(x.drop_first());
    }
}

/// Arrays are ordered lexicographically: where the first `i` elements of `x`
/// and `y` are in order `Equal` and the elements at `i` are not, the order
/// of those elements is the order of the arrays, whatever their lengths.
pub proof fn law_array_order_first_difference(x: Seq<SValue>, y: Seq<SValue>, i: nat)
    requires
        i < x.len(),
        i < y.len(),
        forall|j: int| 0 <= j < i ==> #[trigger] values_order(x[j], y[j]) == Some(Order::Equal),
        values_order(x[i as int], y[i as int]) != Some(Order::Equal),
    ensures
        values_order(SValue::Array(x), SValue::Array(y)) == values_order(x[i as int], y[i as int]),
    decreases i,
{
    if i > 0 {
        assert(values_order(x[0], y[0]) == Some(Order::Equal));
        assert forall|j: int| 0 <= j < i - 1 implies #[trigger] values_order(
            x.drop_first()[j],
            y.drop_first()[j],
        ) == Some(Order::Equal) by {
            assert(values_order(x[j + 1], y[j + 1]) == Some(Order::Equal));
        }
        law_array_order_first_difference(x.drop_first(), y.drop_first(), (i - 1) as nat);
    }
}

/// Arrays whose common part is in order `Equal` element by element are
/// ordered by their lengths: a proper prefix is less, and arrays of the same
/// length are `Equal`.
pub proof fn law_array_order_prefix(x: Seq<SValue>, y: Seq<SValue>)
    requires
        forall|j: int|
            0 <= j < x.len() && j < y.len() ==> #[trigger] values_order(x[j], y[j]) == Some(
                Order::Equal,
            ),
    ensures
        values_order(SValue::Array(x), SValue::Array(y)) == Some(
            order_of(x.len() as int, y.len() as int),
        ),
    decreases x.len(),
{
    if x.len() > 0 && y.len() > 0 {
        assert(values_order(x[0], y[0]) == Some(Order::Equal));
        assert forall|j: int|
            0 <= j < x.drop_first().len() && j < y.drop_first().len() implies #[trigger] values_order(
            x.drop_first()[j],
            y.drop_first()[j],
        ) == Some(Order::Equal) by {
            assert(values_order(x[j + 1], y[j + 1]) == Some(Order::Equal));
        }
        law_array_order_prefix(x.drop_first(), y.drop_first());
    }
}

/// The reverse of an order.
pub open spec fn flip(o: Option<Order>) -> Option<Order> {
    match o {
        Some(Order::Less) => Some(Order::Greater),
        Some(Order::Greater) => Some(Order::Less),
        other => other,
    }
}

/// `a == b` exactly when `b == a`.
pub proof fn law_equality_symmetric(a: SValue, b: SValue)
    ensures
        values_equal(a, b) == values_equal(b, a),
    decreases a,
{
    if let (SValue::Array(x), SValue::Array(y)) = (a, b) {
        lemma_seqs_equal_symmetric(x, y);
    }
}

proof fn lemma_seqs_equal_symmetric(x: Seq<SValue>, y: Seq<SValue>)
    ensures
        seqs_equal(x, y) == seqs_equal(y, x),
    decreases x,
{
    if x.len() > 0 && y.len() > 0 {
        law_equality_symmetric(x[0], y[0]);
        lemma_seqs_equal_symmetric(x.drop_first(), y.drop_first());
    }
}

/// Comparing `b` with `a` gives the reverse of comparing `a` with `b`:
/// `a < b` exactly when `b > a`, and values that do not compare do not
/// compare either way.
pub proof fn law_order_reverses(a: SValue, b: SValue)
    ensures
        values_order(b, a) == flip(values_order(a, b)),
    decreases a,
{
    if let (SValue::Array(x), SValue::Array(y)) = (a, b) {
        lemma_seqs_order_reverses(x, y);
    }
}

proof fn lemma_seqs_order_reverses(x: Seq<SValue>, y: Seq<SValue>)
    ensures
        seqs_order(y, x) == flip(seqs_order(x, y)),
    decreases x,
{
    if x.len() > 0 && y.len() > 0 {
        law_order_reverses(x[0], y[0]);
        lemma_seqs_order_reverses(x.drop_first(), y.drop_first());
    }
}

/// Inside a `mod` block with a nonzero modulus `m`, a number literal and the
/// negation of a number are reduced by `m`.
pub proof fn law_mod_numbers_in_range(n: i64, id: nat, s: SStore, fuel: nat, m: i64)
    requires
        fuel > 0,
        m != 0,
        context_of(s, id) == Some(m),
    ensures
        eval_spec(SExpr::Number(n), id, s, fuel).0 matches Ok(SValue::Number(k)) && in_mod_range(
            k as int,
            m as int,
        ),
        in_mod_range(reduce(-(n as int), Some(m)) as int, m as int),
{
    lemma_reduce_in_range(n as int, m);
    lemma_reduce_in_range(-(n as int), m);
}

/// A call of a lambda created in scope `env`, made from scope `from`, runs in
/// a new scope that sees a name as the scopes around the lambda see it, and
/// a name that none of them binds as the calling scope sees it.
pub proof fn law_call_scope_lookup(s: SStore, env: nat, from: nat, name: Seq<char>)
    requires
        env < s.frames.len(),
        from < s.frames.len(),
        crate::env::frames_wf(s.frames),
    ensures
        name_lookup(with_new_frame(s, call_frame(s, env, from)).frames, s.frames.len(), name)
            == match chain_lookup(s.frames, env, name) {
            Some(v) => Some(v),
            None => name_lookup(s.frames, from, name),
        },
{
    let s2 = with_new_frame(s, call_frame(s, env, from));
    lemma_prefix_agrees(s.frames, s2.frames, name);
    lemma_lookup_agrees(s.frames, s2.frames, s.frames.len(), env, name);
    lemma_lookup_agrees(s.frames, s2.frames, s.frames.len(), from, name);
}

/// A scope opened inside scope `p` sees every binding and the modulus
/// context that `p` sees. A `let` in the new scope leaves everything that `p`
/// sees unchanged, and a `mod` block opened in `p` afterwards leaves the
/// modulus context of the new scope unchanged: the new scope holds a copy of
/// the moduli, not the parent's stack.
pub proof fn law_child_scope(s: SStore, p: nat, name: Seq<char>, v: SValue, m: i64)
    requires
        p < s.frames.len(),
        crate::env::frames_wf(s.frames),
    ensures
        name_lookup(with_new_frame(s, child_frame(s, p)).frames, s.frames.len(), name)
            == name_lookup(s.frames, p, name),
        context_of(with_new_frame(s, child_frame(s, p)), s.frames.len()) == context_of(s, p),
        forall|n: Seq<char>|
            #![trigger name_lookup(s.frames, p, n)]
            name_lookup(
                declare_in(with_new_frame(s, child_frame(s, p)), s.frames.len(), name, v).frames,
                p,
                n,
            ) == name_lookup(s.frames, p, n),
        context_of(
            with_frame(
                with_new_frame(s, child_frame(s, p)),
                p as int,
                frame_with_moduli(s.frames[p as int], s.frames[p as int].modulus.push(m)),
            ),
            s.frames.len(),
        ) == context_of(s, p),
{
    let s1 = with_new_frame(s, child_frame(s, p));
    let c = s.frames.len();
    lemma_prefix_agrees(s.frames, s1.frames, name);
    lemma_lookup_agrees(s.frames, s1.frames, c, p, name);
    let s2 = declare_in(s1, c, name, v);
    assert forall|n: Seq<char>| #[trigger]
        name_lookup(s.frames, p, n) == name_lookup(s2.frames, p, n) by {
        lemma_prefix_agrees(s.frames, s2.frames, n);
        lemma_lookup_agrees(s.frames, s2.frames, c, p, n);
    }
    let s3 = with_frame(
        s1,
        p as int,
        frame_with_moduli(s.frames[p as int], s.frames[p as int].modulus.push(m)),
    );
    assert(s3.frames[c as int] == s1.frames[c as int]);
}

/// Scopes that a longer list keeps unchanged agree on every name.
proof fn lemma_prefix_agrees(
    frames: Seq<crate::env::SFrame>,
    more: Seq<crate::env::SFrame>,
    name: Seq<char>,
)
    requires
        frames.len() <= more.len(),
        forall|k: int| 0 <= k < frames.len() ==> #[trigger] more[k] == frames[k],
    ensures
        forall|k: int| 0 <= k < frames.len() ==> #[trigger] same_for_name(frames[k], more[k], name),
{
    assert forall|k: int| 0 <= k < frames.len() implies #[trigger] same_for_name(
        frames[k],
        more[k],
        name,
    ) by {
        assert(more[k] == frames[k]);
    }
}

/// Outside `mod` blocks, `+`, `-` and `*` on numbers whose exact result is
/// a 64-bit number give that exact result.
pub proof fn law_exact_arithmetic(a: i64, b: i64)
    ensures
        i64::MIN <= a + b <= i64::MAX ==> binop_apply(
            BinOp::Add,
            SValue::Number(a),
            SValue::Number(b),
            None,
        ) == Ok::<SValue, SError>(SValue::Number((a + b) as i64)),
        i64::MIN <= a - b <= i64::MAX ==> binop_apply(
            BinOp::Sub,
            SValue::Number(a),
            SValue::Number(b),
            None,
        ) == Ok::<SValue, SError>(SValue::Number((a - b) as i64)),
        i64::MIN <= a * b <= i64::MAX ==> binop_apply(
            BinOp::Mul,
            SValue::Number(a),
            SValue::Number(b),
            None,
        ) == Ok::<SValue, SError>(SValue::Number((a * b) as i64)),
{
    if i64::MIN <= a + b <= i64::MAX {
        lemma_wrap64_small(a + b);
    }
    if i64::MIN <= a - b <= i64::MAX {
        lemma_wrap64_small(a - b);
    }
    if i64::MIN <= a * b <= i64::MAX {
        lemma_wrap64_small(a * b);
    }
}

/// Outside `mod` blocks, `a ** e` for `e >= 0` is `a` to the power `e` when
/// that is a 64-bit number (1 for `e == 0`).
pub proof fn law_exact_power(a: i64, e: i64)
    requires
        e >= 0,
        i64::MIN <= vstd::arithmetic::power::pow(a as int, e as nat) <= i64::MAX,
    ensures
        binop_apply(BinOp::Pow, SValue::Number(a), SValue::Number(e), None) == Ok::<
            SValue,
            SError,
        >(SValue::Number(vstd::arithmetic::power::pow(a as int, e as nat) as i64)),
{
    let p = vstd::arithmetic::power::pow(a as int, e as nat);
    if e == 0 {
        vstd::arithmetic::power::lemma_pow0(a as int);
    }
    lemma_wrap64_small(p);
}

/// Inside a `mod` block with a nonzero modulus `m`, `+`, `-`, `*` and `**`
/// (with an exponent `e > 0`) on numbers give a number congruent to the
/// exact result modulo `|m|`.
pub proof fn law_mod_results_congruent(a: i64, b: i64, m: i64)
    requires
        m != 0,
    ensures
        binop_apply(BinOp::Add, SValue::Number(a), SValue::Number(b), Some(m)) matches Ok(
            SValue::Number(n),
        ) && (n as int) % abs_int(m as int) == (a + b) % abs_int(m as int),
        binop_apply(BinOp::Sub, SValue::Number(a), SValue::Number(b), Some(m)) matches Ok(
            SValue::Number(n),
        ) && (n as int) % abs_int(m as int) == (a - b) % abs_int(m as int),
        binop_apply(BinOp::Mul, SValue::Number(a), SValue::Number(b), Some(m)) matches Ok(
            SValue::Number(n),
        ) && (n as int) % abs_int(m as int) == (a * b) % abs_int(m as int),
        b > 0 ==> (binop_apply(BinOp::Pow, SValue::Number(a), SValue::Number(b), Some(m)) matches Ok(
            SValue::Number(n),
        ) && (n as int) % abs_int(m as int) == vstd::arithmetic::power::pow(a as int, b as nat)
            % abs_int(m as int)),
{
    lemma_reduce_in_range(a + b, m);
    lemma_reduce_in_range(a - b, m);
    lemma_reduce_in_range(a * b, m);
    if b > 0 {
        lemma_reduce_in_range(vstd::arithmetic::power::pow(a as int, b as nat), m);
    }
}

/// The comparison operators on two numbers, and on two characters by their
/// code points, give 1 exactly when the comparison holds of them, else 0.
pub proof fn law_comparisons(x: i64, y: i64, c: char, d: char, m: Option<i64>)
    ensures
        binop_apply(BinOp::Lt, SValue::Number(x), SValue::Number(y), m) == Ok::<SValue, SError>(
            flag(x < y),
        ),
        binop_apply(BinOp::Le, SValue::Number(x), SValue::Number(y), m) == Ok::<SValue, SError>(
            flag(x <= y),
        ),
        binop_apply(BinOp::Gt, SValue::Number(x), SValue::Number(y), m) == Ok::<SValue, SError>(
            flag(x > y),
        ),
        binop_apply(BinOp::Ge, SValue::Number(x), SValue::Number(y), m) == Ok::<SValue, SError>(
            flag(x >= y),
        ),
        binop_apply(BinOp::Eq, SValue::Number(x), SValue::Number(y), m) == Ok::<SValue, SError>(
            flag(x == y),
        ),
        binop_apply(BinOp::Neq, SValue::Number(x), SValue::Number(y), m) == Ok::<SValue, SError>(
            flag(x != y),
        ),
        binop_apply(BinOp::Lt, SValue::Char(c), SValue::Char(d), m) == Ok::<SValue, SError>(
            flag((c as int) < (d as int)),
        ),
        binop_apply(BinOp::Ge, SValue::Char(c), SValue::Char(d), m) == Ok::<SValue, SError>(
            flag((c as int) >= (d as int)),
        ),
        binop_apply(BinOp::Eq, SValue::Char(c), SValue::Char(d), m) == Ok::<SValue, SError>(
            flag(c == d),
        ),
{
}

/// `if` runs the branch that the truth of its condition picks: when the
/// condition gives `v`, a true `v` gives what the `then` block gives, a
/// false one what the `else` block gives, or `nil` without one.
pub proof fn law_if_chooses(
    cond: SExpr,
    then: SExpr,
    else_: Option<Box<SExpr>>,
    id: nat,
    s: SStore,
    fuel: nat,
)
    requires
        fuel > 0,
        eval_spec(cond, id, s, (fuel - 1) as nat).0 is Ok,
    ensures
        ({
            let (c, s1) = eval_spec(cond, id, s, (fuel - 1) as nat);
            let g = (fuel - 1) as nat;
            eval_spec(
                SExpr::If { cond: Box::new(cond), then: Box::new(then), else_: else_ },
                id,
                s,
                fuel,
            ) == if truthy(c->Ok_0) {
                eval_spec(then, id, s1, g)
            } else {
                match else_ {
                    Some(x) => eval_spec(*x, id, s1, g),
                    None => (Ok(SValue::Nil), s1),
                }
            }
        }),
{
}

/// `!e` gives 1 exactly when the number `e` gives is false (zero), and
/// outside `mod` blocks `-e` gives its negation.
pub proof fn law_unary_values(x: SExpr, id: nat, s: SStore, fuel: nat)
    requires
        fuel > 0,
        eval_spec(x, id, s, (fuel - 1) as nat).0 is Ok,
        eval_spec(x, id, s, (fuel - 1) as nat).0->Ok_0 is Number,
    ensures
        ({
            let (r, s1) = eval_spec(x, id, s, (fuel - 1) as nat);
            let n = r->Ok_0->Number_0;
            &&& eval_spec(SExpr::UnaryOp { op: UnaryOp::Not, expr: Box::new(x) }, id, s, fuel).0
                == Ok::<SValue, SError>(flag(!truthy(SValue::Number(n))))
            &&& (context_of(s1, id) is None && n != i64::MIN) ==> eval_spec(
                SExpr::UnaryOp { op: UnaryOp::Neg, expr: Box::new(x) },
                id,
                s,
                fuel,
            ).0 == Ok::<SValue, SError>(SValue::Number((-n) as i64))
        }),
{
    let n = eval_spec(x, id, s, (fuel - 1) as nat).0->Ok_0->Number_0;
    if n != i64::MIN {
        lemma_wrap64_small(-(n as int));
    }
}

/// Indexing an array by a number inside its bounds gives the element at
/// that place; outside them it is an `IndexError`.
pub proof fn law_index_gives_element(object: SExpr, index: SExpr, id: nat, s: SStore, fuel: nat)
    requires
        fuel > 0,
        eval_spec(index, id, s, (fuel - 1) as nat).0 matches Ok(SValue::Number(_)),
        eval_spec(object, id, eval_spec(index, id, s, (fuel - 1) as nat).1, (fuel - 1) as nat).0 matches Ok(
            SValue::Array(_),
        ),
    ensures
        ({
            let (i, s1) = eval_spec(index, id, s, (fuel - 1) as nat);
            let (o, s2) = eval_spec(object, id, s1, (fuel - 1) as nat);
            let k = i->Ok_0->Number_0;
            let a = o->Ok_0->Array_0;
            eval_spec(
                SExpr::Index { object: Box::new(object), index: Box::new(index) },
                id,
                s,
                fuel,
            ) == if 0 <= k < a.len() {
                (Ok::<SValue, SError>(a[k as int]), s2)
            } else {
                (Err::<SValue, SError>(SError::IndexError), s2)
            }
        }),
{
}

/// `len`, `push` and `+` on arrays agree: the length of `a + b` is the sum
/// of the lengths, `push` and `+` with a value that is not an array both add
/// one element at the end and keep the others, and the empty array has
/// length 0.
pub proof fn law_array_lengths(a: Seq<SValue>, b: Seq<SValue>, v: SValue, m: Option<i64>)
    requires
        a.len() + b.len() + 1 <= i64::MAX,
        !(v is Array),
    ensures
        ({
            let x = len_spec(seq![SValue::Array(a)])->Ok_0->Number_0;
            let y = len_spec(seq![SValue::Array(b)])->Ok_0->Number_0;
            &&& len_spec(seq![SValue::Array(a)]) is Ok
            &&& len_spec(seq![SValue::Array(b)]) is Ok
            &&& add_spec(SValue::Array(a), SValue::Array(b), m) matches Ok(SValue::Array(c))
                && len_spec(seq![SValue::Array(c)]) == Ok::<SValue, SError>(
                SValue::Number((x + y) as i64),
            )
            &&& push_spec(seq![SValue::Array(a), v]) == Ok::<SValue, SError>(SValue::Nil)
            &&& pushed(seq![SValue::Array(a), v]) matches SValue::Array(c) && len_spec(
                seq![SValue::Array(c)],
            ) == Ok::<SValue, SError>(SValue::Number((x + 1) as i64)) && c[x as int] == v
                && c.subrange(0, x as int) == a
            &&& add_spec(SValue::Array(a), v, m) == Ok::<SValue, SError>(
                pushed(seq![SValue::Array(a), v]),
            )
            &&& len_spec(seq![SValue::Array(Seq::empty())]) == Ok::<SValue, SError>(
                SValue::Number(0),
            )
        }),
{
    assert(a.push(v).subrange(0, a.len() as int) =~= a);
}

/// Calling a lambda binds its parameter to the value of the argument: a
/// call of `|name| name` gives the value of its argument, evaluated in the
/// calling scope once the call's scope is open.
pub proof fn law_call_binds_argument(
    func: SExpr,
    arg: SExpr,
    name: Seq<char>,
    env: nat,
    id: nat,
    s: SStore,
    fuel: nat,
)
    requires
        fuel > 1,
        id < s.frames.len(),
        eval_spec(func, id, s, (fuel - 1) as nat).0 == Ok::<SValue, SError>(
            SValue::Lambda { args: seq![name], body: SExpr::Ident(name), env: env },
        ),
    ensures
        ({
            let f = (fuel - 1) as nat;
            let s1 = eval_spec(func, id, s, f).1;
            let s2 = with_new_frame(s1, call_frame(s1, env, id));
            eval_spec(arg, id, s2, f).0 is Ok ==> eval_spec(
                SExpr::Call { func: Box::new(func), args: seq![arg] },
                id,
                s,
                fuel,
            ).0 == eval_spec(arg, id, s2, f).0
        }),
{
    let f = (fuel - 1) as nat;
    lemma_eval_extends(func, id, s, f);
    let s1 = eval_spec(func, id, s, f).1;
    let cid = s1.frames.len();
    let s2 = with_new_frame(s1, call_frame(s1, env, id));
    let (r, s3) = eval_spec(arg, id, s2, f);
    if let Ok(v) = r {
        lemma_eval_extends(arg, id, s2, f);
        let s4 = declare_in(s3, cid, name, v);
        assert(seq![arg].drop_first() =~= Seq::<SExpr>::empty());
        assert(seq![arg][0] == arg);
        assert(seq![name][0] == name);
        assert(bind_spec(seq![name].drop_first(), seq![arg].drop_first(), id, cid, s4, f) == (
            Ok::<(), SError>(()),
            s4,
        ));
        assert(bind_spec(seq![name], seq![arg], id, cid, s2, f) == (Ok::<(), SError>(()), s4));
        assert(s4.frames[cid as int].vars.contains_key(name));
        assert(name_lookup(s4.frames, cid, name) == Some(v));
        assert(eval_spec(SExpr::Ident(name), cid, s4, f) == (Ok::<SValue, SError>(v), s4));
        assert(call_spec(func, seq![arg], id, s, f) == (Ok::<SValue, SError>(v), s4));
    }
}

} // verus!
