use vstd::prelude::*;

use crate::grammar::{
    Step, args_more, args_rule, assign_rule, block_rule, builtin_rule, chain_rule, declare_rule,
    expr_rule, for_rule, fuel_for, if_rule, indices_rule, lambda_rule, level_rule, mod_rule,
    params_more, params_rule, paren_rule, postfix_more, postfix_rule, primary_rule, program_rule,
    stmts_rule, tokens_of, unary_rule, while_rule,
};
use crate::lexer::{ParseError, SToken};

verus! {

// Why the nesting budget of the parser never runs out: every rule either
// reads a token before it calls another rule, or calls rules of a lower
// rank at the same position. A rule of rank `r` at position `p` therefore
// needs no more than `18 * (tokens left after p) + r + 1` units of budget
// (no rank reaches 18).

/// The tokens of `t` from `p` on.
pub open spec fn left(t: Seq<SToken>, p: nat) -> int {
    if p < t.len() {
        t.len() - p
    } else {
        0
    }
}

/// The budget that a rule of rank `rank` needs at `p`.
pub open spec fn need(t: Seq<SToken>, p: nat, rank: int) -> int {
    18 * left(t, p) + rank + 1
}

/// The rank of operator level `level`.
pub open spec fn level_rank(level: nat) -> int {
    if level >= 11 {
        4
    } else {
        15 - level
    }
}

proof fn lemma_params_more(t: Seq<SToken>, q: nat, acc: Seq<Seq<char>>)
    ensures
        params_more(t, q, acc).1 >= q,
    decreases t.len() - q,
{
    if crate::grammar::sym_at(t, q, crate::lexer::Symbol::Comma) {
        if let Some(w) = crate::grammar::ident_at(t, q + 1) {
            lemma_params_more(t, q + 2, acc.push(w));
        }
    }
}

proof fn lemma_params(t: Seq<SToken>, p: nat)
    ensures
        params_rule(t, p).1 >= p,
{
    if let Some(w) = crate::grammar::ident_at(t, p) {
        lemma_params_more(t, p + 1, seq![w]);
    }
}

proof fn lemma_expr(t: Seq<SToken>, p: nat, fuel: nat)
    ensures
        expr_rule(t, p, fuel) matches Step::Done(_, q) ==> q >= p,
        fuel >= need(t, p, 16) ==> !(expr_rule(t, p, fuel) is Deep),
    decreases fuel,
{
    if fuel > 0 && p < t.len() {
        let f = (fuel - 1) as nat;
        lemma_declare(t, p, f);
        lemma_if(t, p, f);
        lemma_while(t, p, f);
        lemma_for(t, p, f);
        lemma_mod(t, p, f);
        lemma_expr(t, p + 1, f);
        lemma_lambda(t, p, f);
        lemma_assign(t, p, f);
        lemma_level(0, t, p, f);
    }
}

proof fn lemma_declare(t: Seq<SToken>, p: nat, fuel: nat)
    ensures
        declare_rule(t, p, fuel) matches Step::Done(_, q) ==> q >= p,
        fuel >= need(t, p, 0) ==> !(declare_rule(t, p, fuel) is Deep),
    decreases fuel,
{
    if fuel > 0 {
        lemma_expr(t, p + 3, (fuel - 1) as nat);
    }
}

proof fn lemma_if(t: Seq<SToken>, p: nat, fuel: nat)
    ensures
        if_rule(t, p, fuel) matches Step::Done(_, q) ==> q >= p,
        fuel >= need(t, p, 0) && p < t.len() ==> !(if_rule(t, p, fuel) is Deep),
    decreases fuel,
{
    if fuel > 0 {
        let f = (fuel - 1) as nat;
        lemma_expr(t, p + 1, f);
        if let Step::Done(c, q) = expr_rule(t, p + 1, f) {
            lemma_block(t, q, f);
            if let Step::Done(b, r) = block_rule(t, q, f) {
                lemma_block(t, r + 1, f);
            }
        }
    }
}

proof fn lemma_while(t: Seq<SToken>, p: nat, fuel: nat)
    ensures
        while_rule(t, p, fuel) matches Step::Done(_, q) ==> q >= p,
        fuel >= need(t, p, 0) && p < t.len() ==> !(while_rule(t, p, fuel) is Deep),
    decreases fuel,
{
    if fuel > 0 {
        let f = (fuel - 1) as nat;
        lemma_expr(t, p + 1, f);
        if let Step::Done(c, q) = expr_rule(t, p + 1, f) {
            lemma_block(t, q, f);
        }
    }
}

proof fn lemma_for(t: Seq<SToken>, p: nat, fuel: nat)
    ensures
        for_rule(t, p, fuel) matches Step::Done(_, q) ==> q >= p,
        fuel >= need(t, p, 0) ==> !(for_rule(t, p, fuel) is Deep),
    decreases fuel,
{
    if fuel > 0 {
        let f = (fuel - 1) as nat;
        lemma_expr(t, p + 3, f);
        if let Step::Done(c, q) = expr_rule(t, p + 3, f) {
            lemma_block(t, q, f);
        }
    }
}

proof fn lemma_mod(t: Seq<SToken>, p: nat, fuel: nat)
    ensures
        mod_rule(t, p, fuel) matches Step::Done(_, q) ==> q >= p,
        fuel >= need(t, p, 0) && p < t.len() ==> !(mod_rule(t, p, fuel) is Deep),
    decreases fuel,
{
    if fuel > 0 {
        let f = (fuel - 1) as nat;
        lemma_expr(t, p + 1, f);
        if let Step::Done(c, q) = expr_rule(t, p + 1, f) {
            lemma_block(t, q, f);
        }
    }
}

proof fn lemma_lambda(t: Seq<SToken>, p: nat, fuel: nat)
    ensures
        lambda_rule(t, p, fuel) matches Step::Done(_, q) ==> q >= p,
        fuel >= need(t, p, 0) ==> !(lambda_rule(t, p, fuel) is Deep),
    decreases fuel,
{
    if fuel > 0 {
        lemma_params(t, p + 1);
        let q = params_rule(t, p + 1).1;
        lemma_expr(t, q + 1, (fuel - 1) as nat);
    }
}

proof fn lemma_indices(t: Seq<SToken>, q: nat, acc: Seq<crate::ast::SExpr>, fuel: nat)
    ensures
        indices_rule(t, q, acc, fuel) matches Step::Done(_, r) ==> r >= q,
        fuel >= need(t, q, 0) ==> !(indices_rule(t, q, acc, fuel) is Deep),
    decreases fuel,
{
    if fuel > 0 {
        let f = (fuel - 1) as nat;
        lemma_expr(t, q + 1, f);
        if let Step::Done(i, r) = expr_rule(t, q + 1, f) {
            lemma_indices(t, r + 1, acc.push(i), f);
        }
    }
}

proof fn lemma_assign(t: Seq<SToken>, p: nat, fuel: nat)
    ensures
        assign_rule(t, p, fuel) matches Step::Done(_, q) ==> q >= p,
        fuel >= need(t, p, 0) ==> !(assign_rule(t, p, fuel) is Deep),
    decreases fuel,
{
    if fuel > 0 {
        let f = (fuel - 1) as nat;
        lemma_indices(t, p + 1, Seq::empty(), f);
        if let Step::Done(idx, q) = indices_rule(t, p + 1, Seq::empty(), f) {
            lemma_expr(t, q + 1, f);
        }
    }
}

proof fn lemma_level(level: nat, t: Seq<SToken>, p: nat, fuel: nat)
    ensures
        level_rule(level, t, p, fuel) matches Step::Done(_, q) ==> q >= p,
        fuel >= need(t, p, level_rank(level)) ==> !(level_rule(level, t, p, fuel) is Deep),
    decreases fuel,
{
    if fuel > 0 {
        let f = (fuel - 1) as nat;
        if level >= 11 {
            lemma_unary(t, p, f);
        } else {
            lemma_level(level + 1, t, p, f);
            if let Step::Done(e, q) = level_rule(level + 1, t, p, f) {
                lemma_chain(level, e, t, q, f);
            }
        }
    }
}

proof fn lemma_chain(level: nat, acc: crate::ast::SExpr, t: Seq<SToken>, q: nat, fuel: nat)
    ensures
        chain_rule(level, acc, t, q, fuel) matches Step::Done(_, r) ==> r >= q,
        fuel >= need(t, q, 0) ==> !(chain_rule(level, acc, t, q, fuel) is Deep),
    decreases fuel,
{
    if fuel > 0 {
        let f = (fuel - 1) as nat;
        if let Some(op) = crate::grammar::op_at(t, q, level) {
            lemma_level(level + 1, t, q + 1, f);
            if let Step::Done(rhs, r) = level_rule(level + 1, t, q + 1, f) {
                lemma_chain(level, crate::grammar::combine(op, acc, rhs), t, r, f);
            }
        }
    }
}

proof fn lemma_unary(t: Seq<SToken>, p: nat, fuel: nat)
    ensures
        unary_rule(t, p, fuel) matches Step::Done(_, q) ==> q >= p,
        fuel >= need(t, p, 3) ==> !(unary_rule(t, p, fuel) is Deep),
    decreases fuel,
{
    if fuel > 0 {
        let f = (fuel - 1) as nat;
        lemma_unary(t, p + 1, f);
        lemma_postfix(t, p, f);
    }
}

proof fn lemma_postfix(t: Seq<SToken>, p: nat, fuel: nat)
    ensures
        postfix_rule(t, p, fuel) matches Step::Done(_, q) ==> q >= p,
        fuel >= need(t, p, 2) ==> !(postfix_rule(t, p, fuel) is Deep),
    decreases fuel,
{
    if fuel > 0 {
        let f = (fuel - 1) as nat;
        lemma_primary(t, p, f);
        if let Step::Done(e, q) = primary_rule(t, p, f) {
            lemma_postfix_more(e, t, q, f);
        }
    }
}

proof fn lemma_postfix_more(acc: crate::ast::SExpr, t: Seq<SToken>, q: nat, fuel: nat)
    ensures
        postfix_more(acc, t, q, fuel) matches Step::Done(_, r) ==> r >= q,
        fuel >= need(t, q, 0) ==> !(postfix_more(acc, t, q, fuel) is Deep),
    decreases fuel,
{
    if fuel > 0 {
        let f = (fuel - 1) as nat;
        lemma_args(t, q + 1, f);
        if let Step::Done(a, r) = args_rule(t, q + 1, f) {
            lemma_postfix_more(
                crate::ast::SExpr::Call { func: Box::new(acc), args: a },
                t,
                r + 1,
                f,
            );
        }
        lemma_expr(t, q + 1, f);
        if let Step::Done(i, r) = expr_rule(t, q + 1, f) {
            lemma_postfix_more(
                crate::ast::SExpr::Index { object: Box::new(acc), index: Box::new(i) },
                t,
                r + 1,
                f,
            );
        }
        if let Some(m) = crate::grammar::ident_at(t, q + 1) {
            lemma_args(t, q + 3, f);
            if let Step::Done(a, r) = args_rule(t, q + 3, f) {
                lemma_postfix_more(
                    crate::ast::SExpr::Call {
                        func: Box::new(crate::ast::SExpr::Ident(m)),
                        args: seq![acc] + a,
                    },
                    t,
                    r + 1,
                    f,
                );
            }
        }
    }
}

proof fn lemma_args(t: Seq<SToken>, p: nat, fuel: nat)
    ensures
        args_rule(t, p, fuel) matches Step::Done(_, q) ==> q >= p,
        fuel >= need(t, p, 17) ==> !(args_rule(t, p, fuel) is Deep),
    decreases fuel,
{
    if fuel > 0 {
        let f = (fuel - 1) as nat;
        lemma_expr(t, p, f);
        if let Step::Done(e, q) = expr_rule(t, p, f) {
            lemma_args_more(seq![e], t, q, f);
        }
    }
}

proof fn lemma_args_more(acc: Seq<crate::ast::SExpr>, t: Seq<SToken>, q: nat, fuel: nat)
    ensures
        args_more(acc, t, q, fuel) matches Step::Done(_, r) ==> r >= q,
        fuel >= need(t, q, 0) ==> !(args_more(acc, t, q, fuel) is Deep),
    decreases fuel,
{
    if fuel > 0 {
        let f = (fuel - 1) as nat;
        lemma_expr(t, q + 1, f);
        if let Step::Done(e, r) = expr_rule(t, q + 1, f) {
            lemma_args_more(acc.push(e), t, r, f);
        }
    }
}

proof fn lemma_paren(t: Seq<SToken>, p: nat, fuel: nat)
    ensures
        paren_rule(t, p, fuel) matches Step::Done(_, q) ==> q >= p,
        fuel >= need(t, p, 0) ==> !(paren_rule(t, p, fuel) is Deep),
    decreases fuel,
{
    if fuel > 0 {
        lemma_expr(t, p + 1, (fuel - 1) as nat);
    }
}

proof fn lemma_builtin(w: Seq<char>, t: Seq<SToken>, p: nat, fuel: nat)
    ensures
        builtin_rule(w, t, p, fuel) matches Step::Done(_, q) ==> q >= p,
        fuel >= need(t, p, 0) && p < t.len() ==> !(builtin_rule(w, t, p, fuel) is Deep),
    decreases fuel,
{
    if fuel > 0 {
        let f = (fuel - 1) as nat;
        lemma_paren(t, p + 1, f);
        lemma_expr(t, p + 2, f);
        if let Step::Done(a, q) = expr_rule(t, p + 2, f) {
            lemma_expr(t, q + 1, f);
        }
    }
}

proof fn lemma_primary(t: Seq<SToken>, p: nat, fuel: nat)
    ensures
        primary_rule(t, p, fuel) matches Step::Done(_, q) ==> q >= p,
        fuel >= need(t, p, 1) ==> !(primary_rule(t, p, fuel) is Deep),
    decreases fuel,
{
    if fuel > 0 && p < t.len() {
        let f = (fuel - 1) as nat;
        lemma_args(t, p + 1, f);
        lemma_block(t, p, f);
        lemma_paren(t, p, f);
        if let SToken::Ident(w) = t[p as int] {
            lemma_builtin(w, t, p, f);
        }
    }
}

proof fn lemma_block(t: Seq<SToken>, p: nat, fuel: nat)
    ensures
        block_rule(t, p, fuel) matches Step::Done(_, q) ==> q >= p,
        fuel >= need(t, p, 0) ==> !(block_rule(t, p, fuel) is Deep),
    decreases fuel,
{
    if fuel > 0 {
        lemma_stmts(t, p + 1, (fuel - 1) as nat);
    }
}

proof fn lemma_stmts(t: Seq<SToken>, p: nat, fuel: nat)
    ensures
        stmts_rule(t, p, fuel) matches Step::Done(_, q) ==> q >= p,
        fuel >= need(t, p, 17) ==> !(stmts_rule(t, p, fuel) is Deep),
    decreases fuel,
{
    if fuel > 0 {
        let f = (fuel - 1) as nat;
        lemma_stmts(t, p + 1, f);
        lemma_expr(t, p, f);
        if let Step::Done(e, q) = expr_rule(t, p, f) {
            lemma_stmts(t, q + 1, f);
        }
    }
}

/// The nesting budget always suffices: a program of fewer than 10^12
/// tokens is read to its statements or to a syntax error, never to "nests
/// too deep".
pub proof fn law_budget_suffices(t: Seq<SToken>)
    requires
        t.len() < 1_000_000_000_000,
    ensures
        program_rule(t, fuel_for(t.len())) != Err::<Seq<crate::ast::SExpr>, Option<nat>>(None),
{
    lemma_stmts(t, 0, fuel_for(t.len()));
}

/// Reading source text whose tokens number fewer than 10^12 never gives
/// `TooDeep`.
pub proof fn law_parse_never_too_deep(src: Seq<char>)
    requires
        crate::lexer::lex_spec(src, 0) matches Ok(ls) && ls.len() < 1_000_000_000_000,
    ensures
        crate::grammar::parse_spec(src) != Err::<Seq<crate::ast::SExpr>, ParseError>(
            ParseError::TooDeep,
        ),
{
    let ls = crate::lexer::lex_spec(src, 0)->Ok_0;
    assert(tokens_of(ls).len() == ls.len());
    law_budget_suffices(tokens_of(ls));
}

} // verus!
