use vstd::prelude::*;

use crate::ast::SExpr;
use crate::grammar::{
    Step, chain_rule, combine, expr_rule, fuel_for, level_rule, op_level, program_rule, stmts_rule,
};
use crate::lexer::{SToken, Symbol};

verus! {

/// How binary operators bind: `*`, `/` and `%` share one level (so a chain
/// of them groups from the left, `a * b / c` being `(a * b) / c`), `**`
/// binds tighter and `+`, `-` looser; shifts bind looser than `+` and `-`,
/// comparisons looser still, then `&&`, then `||`. A chain of operators of
/// one level groups from the left (see [`law_binary_grouping`]).
pub proof fn law_operator_levels()
    ensures
        op_level(Symbol::Star) == op_level(Symbol::Slash),
        op_level(Symbol::Slash) == op_level(Symbol::Percent),
        op_level(Symbol::Star) < op_level(Symbol::StarStar),
        op_level(Symbol::Plus) == op_level(Symbol::Minus),
        op_level(Symbol::Plus) < op_level(Symbol::Star),
        op_level(Symbol::Shl) == op_level(Symbol::Shr),
        op_level(Symbol::Shl) < op_level(Symbol::Plus),
        op_level(Symbol::EqEq) == op_level(Symbol::BangEq),
        op_level(Symbol::EqEq) == op_level(Symbol::Lt),
        op_level(Symbol::EqEq) == op_level(Symbol::Le),
        op_level(Symbol::EqEq) == op_level(Symbol::Gt),
        op_level(Symbol::EqEq) == op_level(Symbol::Ge),
        op_level(Symbol::EqEq) < op_level(Symbol::Shl),
        op_level(Symbol::AmpAmp) < op_level(Symbol::EqEq),
        op_level(Symbol::PipePipe) < op_level(Symbol::AmpAmp),
        0 <= op_level(Symbol::PipePipe),
{
}

/// Position `q` of `t` ends an operand at operator level `level`: it is
/// the end, or a binary operator that binds looser than `level`.
pub open spec fn ends_below(t: Seq<SToken>, q: nat, level: int) -> bool {
    q == t.len() || (q < t.len() && (t[q as int] matches SToken::Sym(o) && 0 <= op_level(o) < level))
}

/// A number followed by a looser operator (or nothing) is read whole at
/// every level at least as tight.
proof fn lemma_number(t: Seq<SToken>, p: nat, level: nat, f: nat)
    requires
        p < t.len(),
        t[p as int] is Int,
        ends_below(t, p + 1, level as int),
        level <= 11,
        f + level >= 17,
    ensures
        level_rule(level, t, p, f) == Step::Done(SExpr::Number(t[p as int]->Int_0), p + 1),
    decreases 11 - level,
{
    if level < 11 {
        lemma_number(t, p, level + 1, (f - 1) as nat);
        let g = (f - 1) as nat;
        assert(chain_rule(level, SExpr::Number(t[p as int]->Int_0), t, p + 1, g) == Step::Done(
            SExpr::Number(t[p as int]->Int_0),
            p + 1,
        ));
    } else {
        let n = t[p as int]->Int_0;
        assert(crate::grammar::primary_rule(t, p, (f - 3) as nat) == Step::Done(SExpr::Number(n), p + 1));
        assert(crate::grammar::postfix_more(SExpr::Number(n), t, p + 1, (f - 3) as nat)
            == Step::Done(SExpr::Number(n), p + 1));
        assert(crate::grammar::postfix_rule(t, p, (f - 2) as nat) == Step::Done(SExpr::Number(n), p + 1));
        assert(crate::grammar::unary_rule(t, p, (f - 1) as nat) == Step::Done(SExpr::Number(n), p + 1));
    }
}

/// An operand read at level `high` is the operand at every looser level down
/// to `low` when the token after it binds looser than `low`.
proof fn lemma_pass(t: Seq<SToken>, p: nat, low: nat, high: nat, e: SExpr, q: nat, f: nat)
    requires
        low <= high <= 11,
        f >= high - low + 1,
        level_rule(high, t, p, (f - (high - low)) as nat) == Step::Done(e, q),
        ends_below(t, q, low as int),
    ensures
        level_rule(low, t, p, f) == Step::Done(e, q),
    decreases high - low,
{
    if low < high {
        lemma_pass(t, p, low + 1, high, e, q, (f - 1) as nat);
        assert(chain_rule(low, e, t, q, (f - 1) as nat) == Step::Done(e, q));
    }
}

/// How `a o1 b o2 c` reads, for numbers `a`, `b`, `c` and binary operators
/// `o1`, `o2`: when `o1` binds at least as tightly as `o2` it is
/// `(a o1 b) o2 c` (so operators of one level group from the left),
/// otherwise `a o1 (b o2 c)`.
pub proof fn law_binary_grouping(a: i64, b: i64, c: i64, o1: Symbol, o2: Symbol)
    requires
        0 <= op_level(o1),
        0 <= op_level(o2),
    ensures
        program_rule(
            seq![SToken::Int(a), SToken::Sym(o1), SToken::Int(b), SToken::Sym(o2), SToken::Int(c)],
            fuel_for(5),
        ) == Ok::<Seq<SExpr>, Option<nat>>(
            seq![
                if op_level(o1) >= op_level(o2) {
                    combine(o2, combine(o1, SExpr::Number(a), SExpr::Number(b)), SExpr::Number(c))
                } else {
                    combine(o1, SExpr::Number(a), combine(o2, SExpr::Number(b), SExpr::Number(c)))
                },
            ],
        ),
{
    let t = seq![SToken::Int(a), SToken::Sym(o1), SToken::Int(b), SToken::Sym(o2), SToken::Int(c)];
    let l1 = op_level(o1) as nat;
    let l2 = op_level(o2) as nat;
    let na = SExpr::Number(a);
    let nb = SExpr::Number(b);
    let nc = SExpr::Number(c);
    assert(t[0] == SToken::Int(a) && t[2] == SToken::Int(b) && t[4] == SToken::Int(c));
    assert(t[1] == SToken::Sym(o1) && t[3] == SToken::Sym(o2));
    assert(fuel_for(5) == 384);
    let e = if op_level(o1) >= op_level(o2) {
        combine(o2, combine(o1, na, nb), nc)
    } else {
        combine(o1, na, combine(o2, nb, nc))
    };
    if l1 >= l2 {
        let ab = combine(o1, na, nb);
        let g = (381 - l1) as nat;
        lemma_number(t, 0, l1 + 1, g);
        lemma_number(t, 2, l1 + 1, (g - 1) as nat);
        if l2 == l1 {
            lemma_number(t, 4, l1 + 1, (g - 2) as nat);
            assert(chain_rule(l1, e, t, 5, (g - 2) as nat) == Step::Done(e, 5));
            assert(chain_rule(l1, ab, t, 3, (g - 1) as nat) == Step::Done(e, 5));
            assert(chain_rule(l1, na, t, 1, g) == Step::Done(e, 5));
            assert(level_rule(l1, t, 0, (382 - l1) as nat) == Step::Done(e, 5));
            lemma_pass(t, 0, 0, l1, e, 5, 382);
        } else {
            assert(chain_rule(l1, ab, t, 3, (g - 1) as nat) == Step::Done(ab, 3));
            assert(chain_rule(l1, na, t, 1, g) == Step::Done(ab, 3));
            assert(level_rule(l1, t, 0, (382 - l1) as nat) == Step::Done(ab, 3));
            lemma_pass(t, 0, l2 + 1, l1, ab, 3, (381 - l2) as nat);
            let h = (381 - l2) as nat;
            lemma_number(t, 4, l2 + 1, (h - 1) as nat);
            assert(chain_rule(l2, e, t, 5, (h - 1) as nat) == Step::Done(e, 5));
            assert(chain_rule(l2, ab, t, 3, h) == Step::Done(e, 5));
            assert(level_rule(l2, t, 0, (382 - l2) as nat) == Step::Done(e, 5));
            lemma_pass(t, 0, 0, l2, e, 5, 382);
        }
    } else {
        let bc = combine(o2, nb, nc);
        let k = (380 - l2) as nat;
        lemma_number(t, 2, l2 + 1, k);
        lemma_number(t, 4, l2 + 1, (k - 1) as nat);
        assert(chain_rule(l2, bc, t, 5, (k - 1) as nat) == Step::Done(bc, 5));
        assert(chain_rule(l2, nb, t, 3, k) == Step::Done(bc, 5));
        assert(level_rule(l2, t, 2, (381 - l2) as nat) == Step::Done(bc, 5));
        lemma_pass(t, 2, l1 + 1, l2, bc, 5, (380 - l1) as nat);
        let g = (381 - l1) as nat;
        lemma_number(t, 0, l1 + 1, g);
        assert(chain_rule(l1, e, t, 5, (g - 1) as nat) == Step::Done(e, 5));
        assert(chain_rule(l1, na, t, 1, g) == Step::Done(e, 5));
        assert(level_rule(l1, t, 0, (382 - l1) as nat) == Step::Done(e, 5));
        lemma_pass(t, 0, 0, l1, e, 5, 382);
    }
    assert(expr_rule(t, 0, 383) == Step::Done(e, 5));
    assert(stmts_rule(t, 0, 384) == Step::Done(seq![e], 5));
}

} // verus!
