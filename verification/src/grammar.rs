use vstd::prelude::*;

use crate::ast::{BinOp, LogicalOp, SExpr, UnaryOp};
use crate::lexer::{Keyword, ParseError, SToken, Symbol, lex_spec};

verus! {

/// The outcome of reading a phrase from a position: the phrase and the
/// position after it; `Fail` when the phrase is not there; `Deep` when the
/// nesting budget ran out first.
pub enum Step<T> {
    Done(T, nat),
    Fail,
    Deep,
}

/// The outcome of reading an expression.
pub type Parsed = Step<SExpr>;

/// The outcome of reading a list of expressions.
pub type ParsedList = Step<Seq<SExpr>>;

/// Whether the token at `p` is the symbol `s`.
pub open spec fn sym_at(t: Seq<SToken>, p: nat, s: Symbol) -> bool {
    p < t.len() && t[p as int] == SToken::Sym(s)
}

/// Whether the token at `p` is the keyword `k`.
pub open spec fn kw_at(t: Seq<SToken>, p: nat, k: Keyword) -> bool {
    p < t.len() && t[p as int] == SToken::Kw(k)
}

/// The name at `p`, if the token there is a name.
pub open spec fn ident_at(t: Seq<SToken>, p: nat) -> Option<Seq<char>> {
    if p < t.len() {
        match t[p as int] {
            SToken::Ident(w) => Some(w),
            _ => None,
        }
    } else {
        None
    }
}

/// How tightly a binary operator binds: 0 is the loosest level (`||`),
/// 10 the tightest (`**`); -1 for symbols that are not binary operators.
pub open spec fn op_level(s: Symbol) -> int {
    match s {
        Symbol::PipePipe => 0,
        Symbol::AmpAmp => 1,
        Symbol::Pipe => 2,
        Symbol::Caret => 3,
        Symbol::Amp => 4,
        Symbol::EqEq | Symbol::BangEq | Symbol::Lt | Symbol::Le | Symbol::Gt | Symbol::Ge => 5,
        Symbol::DotDot | Symbol::DotDotEq => 6,
        Symbol::Shl | Symbol::Shr => 7,
        Symbol::Plus | Symbol::Minus => 8,
        Symbol::Star | Symbol::Slash | Symbol::Percent => 9,
        Symbol::StarStar => 10,
        _ => -1,
    }
}

/// The binary operator of level `level` at `p`, if there is one.
pub open spec fn op_at(t: Seq<SToken>, p: nat, level: nat) -> Option<Symbol> {
    if p < t.len() {
        match t[p as int] {
            SToken::Sym(s) => if op_level(s) == level {
                Some(s)
            } else {
                None
            },
            _ => None,
        }
    } else {
        None
    }
}

/// The operator that a symbol between two operands stands for.
pub open spec fn binop_of(s: Symbol) -> BinOp {
    match s {
        Symbol::Pipe => BinOp::Or,
        Symbol::Caret => BinOp::Xor,
        Symbol::Amp => BinOp::And,
        Symbol::EqEq => BinOp::Eq,
        Symbol::BangEq => BinOp::Neq,
        Symbol::Lt => BinOp::Lt,
        Symbol::Le => BinOp::Le,
        Symbol::Gt => BinOp::Gt,
        Symbol::Ge => BinOp::Ge,
        Symbol::Shl => BinOp::Shl,
        Symbol::Shr => BinOp::Shr,
        Symbol::Minus => BinOp::Sub,
        Symbol::Star => BinOp::Mul,
        Symbol::Slash => BinOp::Div,
        Symbol::Percent => BinOp::Rem,
        Symbol::StarStar => BinOp::Pow,
        _ => BinOp::Add,
    }
}

/// The tree of `left op right`: `||` and `&&` short-circuit, `..` and `..=`
/// make ranges, every other operator is a plain binary operation.
pub open spec fn combine(op: Symbol, left: SExpr, right: SExpr) -> SExpr {
    match op {
        Symbol::PipePipe => SExpr::LogicalOp {
            left: Box::new(left),
            right: Box::new(right),
            op: LogicalOp::Or,
        },
        Symbol::AmpAmp => SExpr::LogicalOp {
            left: Box::new(left),
            right: Box::new(right),
            op: LogicalOp::And,
        },
        Symbol::DotDot => SExpr::Range { start: Box::new(left), end: Box::new(right), inclusive: false },
        Symbol::DotDotEq => SExpr::Range {
            start: Box::new(left),
            end: Box::new(right),
            inclusive: true,
        },
        _ => SExpr::BinOp { left: Box::new(left), right: Box::new(right), op: binop_of(op) },
    }
}

/// The grammar of FeOx, one rule per function. Each rule reads from
/// position `p` of the tokens `t` and may nest `fuel` rules deep; every
/// rule takes one unit of fuel, and running out gives `Deep`, which ends
/// the whole reading. Repetitions stop before the first repeat that does
/// not match, and optional parts are left out when they do not match, as in
/// a parsing expression grammar.
///
/// `expr := "let" NAME "=" expr | if | while | for | mod
///        | "return" [expr] | "break" | "continue" | lambda
///        | NAME {"[" expr "]"} "=" expr | level 0`
pub open spec fn expr_rule(t: Seq<SToken>, p: nat, fuel: nat) -> Parsed
    decreases fuel,
{
    if fuel == 0 {
        Step::Deep
    } else if p >= t.len() {
        Step::Fail
    } else {
        let f = (fuel - 1) as nat;
        match t[p as int] {
            SToken::Kw(Keyword::Let) => declare_rule(t, p, f),
            SToken::Kw(Keyword::If) => if_rule(t, p, f),
            SToken::Kw(Keyword::While) => while_rule(t, p, f),
            SToken::Kw(Keyword::For) => for_rule(t, p, f),
            SToken::Kw(Keyword::Mod) => mod_rule(t, p, f),
            SToken::Kw(Keyword::Return) => match expr_rule(t, p + 1, f) {
                Step::Done(e, q) => Step::Done(SExpr::Return(Some(Box::new(e))), q),
                Step::Fail => Step::Done(SExpr::Return(None), p + 1),
                Step::Deep => Step::Deep,
            },
            SToken::Kw(Keyword::Break) => Step::Done(SExpr::Break, p + 1),
            SToken::Kw(Keyword::Continue) => Step::Done(SExpr::Continue, p + 1),
            SToken::Sym(Symbol::Pipe) => lambda_rule(t, p, f),
            SToken::Sym(Symbol::PipePipe) => match expr_rule(t, p + 1, f) {
                Step::Done(b, q) => Step::Done(
                    SExpr::Lambda { args: Seq::empty(), body: Box::new(b) },
                    q,
                ),
                Step::Fail => Step::Fail,
                Step::Deep => Step::Deep,
            },
            SToken::Ident(_) => match assign_rule(t, p, f) {
                Step::Fail => level_rule(0, t, p, f),
                other => other,
            },
            _ => level_rule(0, t, p, f),
        }
    }
}

/// `"let" NAME "=" expr`, with `let` at `p`.
pub open spec fn declare_rule(t: Seq<SToken>, p: nat, fuel: nat) -> Parsed
    decreases fuel,
{
    if fuel == 0 {
        Step::Deep
    } else {
        match ident_at(t, p + 1) {
            Some(name) => if sym_at(t, p + 2, Symbol::Eq) {
                match expr_rule(t, p + 3, (fuel - 1) as nat) {
                    Step::Done(v, q) => Step::Done(
                        SExpr::Declare { name: name, value: Box::new(v) },
                        q,
                    ),
                    Step::Fail => Step::Fail,
                    Step::Deep => Step::Deep,
                }
            } else {
                Step::Fail
            },
            None => Step::Fail,
        }
    }
}

/// `"if" expr block ["else" block]`, with `if` at `p`.
pub open spec fn if_rule(t: Seq<SToken>, p: nat, fuel: nat) -> Parsed
    decreases fuel,
{
    if fuel == 0 {
        Step::Deep
    } else {
        let f = (fuel - 1) as nat;
        match expr_rule(t, p + 1, f) {
            Step::Done(c, q) => match block_rule(t, q, f) {
                Step::Done(b, r) => {
                    let no_else = Step::Done(
                        SExpr::If { cond: Box::new(c), then: Box::new(b), else_: None },
                        r,
                    );
                    if kw_at(t, r, Keyword::Else) {
                        match block_rule(t, r + 1, f) {
                            Step::Done(e, u) => Step::Done(
                                SExpr::If {
                                    cond: Box::new(c),
                                    then: Box::new(b),
                                    else_: Some(Box::new(e)),
                                },
                                u,
                            ),
                            Step::Fail => no_else,
                            Step::Deep => Step::Deep,
                        }
                    } else {
                        no_else
                    }
                },
                Step::Fail => Step::Fail,
                Step::Deep => Step::Deep,
            },
            Step::Fail => Step::Fail,
            Step::Deep => Step::Deep,
        }
    }
}

/// `"while" expr block`, with `while` at `p`.
pub open spec fn while_rule(t: Seq<SToken>, p: nat, fuel: nat) -> Parsed
    decreases fuel,
{
    if fuel == 0 {
        Step::Deep
    } else {
        let f = (fuel - 1) as nat;
        match expr_rule(t, p + 1, f) {
            Step::Done(c, q) => match block_rule(t, q, f) {
                Step::Done(b, r) => Step::Done(
                    SExpr::While { cond: Box::new(c), body: Box::new(b) },
                    r,
                ),
                Step::Fail => Step::Fail,
                Step::Deep => Step::Deep,
            },
            Step::Fail => Step::Fail,
            Step::Deep => Step::Deep,
        }
    }
}

/// `"for" NAME "in" expr block`, with `for` at `p`.
pub open spec fn for_rule(t: Seq<SToken>, p: nat, fuel: nat) -> Parsed
    decreases fuel,
{
    if fuel == 0 {
        Step::Deep
    } else {
        let f = (fuel - 1) as nat;
        match ident_at(t, p + 1) {
            Some(var) => if kw_at(t, p + 2, Keyword::In) {
                match expr_rule(t, p + 3, f) {
                    Step::Done(it, q) => match block_rule(t, q, f) {
                        Step::Done(b, r) => Step::Done(
                            SExpr::For { var: var, iter: Box::new(it), body: Box::new(b) },
                            r,
                        ),
                        Step::Fail => Step::Fail,
                        Step::Deep => Step::Deep,
                    },
                    Step::Fail => Step::Fail,
                    Step::Deep => Step::Deep,
                }
            } else {
                Step::Fail
            },
            None => Step::Fail,
        }
    }
}

/// `"mod" expr block`, with `mod` at `p`.
pub open spec fn mod_rule(t: Seq<SToken>, p: nat, fuel: nat) -> Parsed
    decreases fuel,
{
    if fuel == 0 {
        Step::Deep
    } else {
        let f = (fuel - 1) as nat;
        match expr_rule(t, p + 1, f) {
            Step::Done(m, q) => match block_rule(t, q, f) {
                Step::Done(b, r) => Step::Done(
                    SExpr::Mod { modulus: Box::new(m), body: Box::new(b) },
                    r,
                ),
                Step::Fail => Step::Fail,
                Step::Deep => Step::Deep,
            },
            Step::Fail => Step::Fail,
            Step::Deep => Step::Deep,
        }
    }
}

/// The names after the first one of a parameter list: `{"," NAME}`.
pub open spec fn params_more(t: Seq<SToken>, q: nat, acc: Seq<Seq<char>>) -> (Seq<Seq<char>>, nat)
    decreases t.len() - q,
{
    if sym_at(t, q, Symbol::Comma) {
        match ident_at(t, q + 1) {
            Some(w) => params_more(t, q + 2, acc.push(w)),
            None => (acc, q),
        }
    } else {
        (acc, q)
    }
}

/// A parameter list: `[NAME {"," NAME}]`.
pub open spec fn params_rule(t: Seq<SToken>, p: nat) -> (Seq<Seq<char>>, nat) {
    match ident_at(t, p) {
        Some(w) => params_more(t, p + 1, seq![w]),
        None => (Seq::empty(), p),
    }
}

/// `"|" params "|" expr`, with the first `|` at `p`.
pub open spec fn lambda_rule(t: Seq<SToken>, p: nat, fuel: nat) -> Parsed
    decreases fuel,
{
    if fuel == 0 {
        Step::Deep
    } else {
        let (names, q) = params_rule(t, p + 1);
        if sym_at(t, q, Symbol::Pipe) {
            match expr_rule(t, q + 1, (fuel - 1) as nat) {
                Step::Done(b, r) => Step::Done(
                    SExpr::Lambda { args: names, body: Box::new(b) },
                    r,
                ),
                Step::Fail => Step::Fail,
                Step::Deep => Step::Deep,
            }
        } else {
            Step::Fail
        }
    }
}

/// `{"[" expr "]"}` from `q`, after the indices `acc`.
pub open spec fn indices_rule(t: Seq<SToken>, q: nat, acc: Seq<SExpr>, fuel: nat) -> ParsedList
    decreases fuel,
{
    if fuel == 0 {
        Step::Deep
    } else if sym_at(t, q, Symbol::LBracket) {
        let f = (fuel - 1) as nat;
        match expr_rule(t, q + 1, f) {
            Step::Done(i, r) => if sym_at(t, r, Symbol::RBracket) {
                indices_rule(t, r + 1, acc.push(i), f)
            } else {
                Step::Done(acc, q)
            },
            Step::Fail => Step::Done(acc, q),
            Step::Deep => Step::Deep,
        }
    } else {
        Step::Done(acc, q)
    }
}

/// `NAME {"[" expr "]"} "=" expr`, with the name at `p`.
pub open spec fn assign_rule(t: Seq<SToken>, p: nat, fuel: nat) -> Parsed
    decreases fuel,
{
    if fuel == 0 {
        Step::Deep
    } else {
        let f = (fuel - 1) as nat;
        match ident_at(t, p) {
            Some(name) => match indices_rule(t, p + 1, Seq::empty(), f) {
                Step::Done(idx, q) => if sym_at(t, q, Symbol::Eq) {
                    match expr_rule(t, q + 1, f) {
                        Step::Done(v, r) => Step::Done(
                            SExpr::Assign { name: name, indices: idx, value: Box::new(v) },
                            r,
                        ),
                        Step::Fail => Step::Fail,
                        Step::Deep => Step::Deep,
                    }
                } else {
                    Step::Fail
                },
                Step::Fail => Step::Fail,
                Step::Deep => Step::Deep,
            },
            None => Step::Fail,
        }
    }
}

/// Operator level `level` (see [`op_level`]): operands of the next level
/// joined by operators of this level, grouped from the left. Level 11 is a
/// unary expression.
pub open spec fn level_rule(level: nat, t: Seq<SToken>, p: nat, fuel: nat) -> Parsed
    decreases fuel,
{
    if fuel == 0 {
        Step::Deep
    } else {
        let f = (fuel - 1) as nat;
        if level >= 11 {
            unary_rule(t, p, f)
        } else {
            match level_rule(level + 1, t, p, f) {
                Step::Done(e, q) => chain_rule(level, e, t, q, f),
                Step::Fail => Step::Fail,
                Step::Deep => Step::Deep,
            }
        }
    }
}

/// The rest of a level-`level` chain from `q`, after the operand `acc`.
pub open spec fn chain_rule(level: nat, acc: SExpr, t: Seq<SToken>, q: nat, fuel: nat) -> Parsed
    decreases fuel,
{
    if fuel == 0 {
        Step::Deep
    } else {
        let f = (fuel - 1) as nat;
        match op_at(t, q, level) {
            Some(op) => match level_rule(level + 1, t, q + 1, f) {
                Step::Done(rhs, r) => chain_rule(level, combine(op, acc, rhs), t, r, f),
                Step::Fail => Step::Done(acc, q),
                Step::Deep => Step::Deep,
            },
            None => Step::Done(acc, q),
        }
    }
}

/// `"-" unary | "!" unary | postfix`.
pub open spec fn unary_rule(t: Seq<SToken>, p: nat, fuel: nat) -> Parsed
    decreases fuel,
{
    if fuel == 0 {
        Step::Deep
    } else {
        let f = (fuel - 1) as nat;
        if sym_at(t, p, Symbol::Minus) || sym_at(t, p, Symbol::Bang) {
            let op = if sym_at(t, p, Symbol::Minus) {
                UnaryOp::Neg
            } else {
                UnaryOp::Not
            };
            match unary_rule(t, p + 1, f) {
                Step::Done(e, q) => Step::Done(SExpr::UnaryOp { op: op, expr: Box::new(e) }, q),
                Step::Fail => Step::Fail,
                Step::Deep => Step::Deep,
            }
        } else {
            postfix_rule(t, p, f)
        }
    }
}

/// `primary {"(" args ")" | "[" expr "]" | "." NAME "(" args ")"}`: calls,
/// indexing and method calls, where `x.m(a, b)` is `m(x, a, b)`.
pub open spec fn postfix_rule(t: Seq<SToken>, p: nat, fuel: nat) -> Parsed
    decreases fuel,
{
    if fuel == 0 {
        Step::Deep
    } else {
        let f = (fuel - 1) as nat;
        match primary_rule(t, p, f) {
            Step::Done(e, q) => postfix_more(e, t, q, f),
            Step::Fail => Step::Fail,
            Step::Deep => Step::Deep,
        }
    }
}

/// The postfix operations from `q` applied to `acc`.
pub open spec fn postfix_more(acc: SExpr, t: Seq<SToken>, q: nat, fuel: nat) -> Parsed
    decreases fuel,
{
    if fuel == 0 {
        Step::Deep
    } else {
        let f = (fuel - 1) as nat;
        let stop = Step::Done(acc, q);
        if sym_at(t, q, Symbol::LParen) {
            match args_rule(t, q + 1, f) {
                Step::Done(a, r) => if sym_at(t, r, Symbol::RParen) {
                    postfix_more(SExpr::Call { func: Box::new(acc), args: a }, t, r + 1, f)
                } else {
                    stop
                },
                Step::Fail => stop,
                Step::Deep => Step::Deep,
            }
        } else if sym_at(t, q, Symbol::LBracket) {
            match expr_rule(t, q + 1, f) {
                Step::Done(i, r) => if sym_at(t, r, Symbol::RBracket) {
                    postfix_more(
                        SExpr::Index { object: Box::new(acc), index: Box::new(i) },
                        t,
                        r + 1,
                        f,
                    )
                } else {
                    stop
                },
                Step::Fail => stop,
                Step::Deep => Step::Deep,
            }
        } else if sym_at(t, q, Symbol::Dot) && sym_at(t, q + 2, Symbol::LParen) {
            match ident_at(t, q + 1) {
                Some(m) => match args_rule(t, q + 3, f) {
                    Step::Done(a, r) => if sym_at(t, r, Symbol::RParen) {
                        postfix_more(
                            SExpr::Call { func: Box::new(SExpr::Ident(m)), args: seq![acc] + a },
                            t,
                            r + 1,
                            f,
                        )
                    } else {
                        stop
                    },
                    Step::Fail => stop,
                    Step::Deep => Step::Deep,
                },
                None => stop,
            }
        } else {
            stop
        }
    }
}

/// `[expr {"," expr}]`.
pub open spec fn args_rule(t: Seq<SToken>, p: nat, fuel: nat) -> ParsedList
    decreases fuel,
{
    if fuel == 0 {
        Step::Deep
    } else {
        let f = (fuel - 1) as nat;
        match expr_rule(t, p, f) {
            Step::Done(e, q) => args_more(seq![e], t, q, f),
            Step::Fail => Step::Done(Seq::empty(), p),
            Step::Deep => Step::Deep,
        }
    }
}

/// `{"," expr}` from `q`, after the expressions `acc`.
pub open spec fn args_more(acc: Seq<SExpr>, t: Seq<SToken>, q: nat, fuel: nat) -> ParsedList
    decreases fuel,
{
    if fuel == 0 {
        Step::Deep
    } else if sym_at(t, q, Symbol::Comma) {
        let f = (fuel - 1) as nat;
        match expr_rule(t, q + 1, f) {
            Step::Done(e, r) => args_more(acc.push(e), t, r, f),
            Step::Fail => Step::Done(acc, q),
            Step::Deep => Step::Deep,
        }
    } else {
        Step::Done(acc, q)
    }
}

/// `"(" expr ")"`.
pub open spec fn paren_rule(t: Seq<SToken>, p: nat, fuel: nat) -> Parsed
    decreases fuel,
{
    if fuel == 0 {
        Step::Deep
    } else if sym_at(t, p, Symbol::LParen) {
        match expr_rule(t, p + 1, (fuel - 1) as nat) {
            Step::Done(e, q) => if sym_at(t, q, Symbol::RParen) {
                Step::Done(e, q + 1)
            } else {
                Step::Fail
            },
            Step::Fail => Step::Fail,
            Step::Deep => Step::Deep,
        }
    } else {
        Step::Fail
    }
}

/// The builtin forms, with the name `w` at `p`: `len "(" expr ")"`,
/// `print "(" expr ")"`, `input "(" ")"` and `push "(" expr "," expr ")"`.
pub open spec fn builtin_rule(w: Seq<char>, t: Seq<SToken>, p: nat, fuel: nat) -> Parsed
    decreases fuel,
{
    if fuel == 0 {
        Step::Deep
    } else {
        let f = (fuel - 1) as nat;
        if w == "len"@ {
            match paren_rule(t, p + 1, f) {
                Step::Done(e, q) => Step::Done(SExpr::Len(Box::new(e)), q),
                Step::Fail => Step::Fail,
                Step::Deep => Step::Deep,
            }
        } else if w == "print"@ {
            match paren_rule(t, p + 1, f) {
                Step::Done(e, q) => Step::Done(SExpr::Print(Box::new(e)), q),
                Step::Fail => Step::Fail,
                Step::Deep => Step::Deep,
            }
        } else if w == "input"@ {
            if sym_at(t, p + 1, Symbol::LParen) && sym_at(t, p + 2, Symbol::RParen) {
                Step::Done(SExpr::Input, p + 3)
            } else {
                Step::Fail
            }
        } else if w == "push"@ && sym_at(t, p + 1, Symbol::LParen) {
            match expr_rule(t, p + 2, f) {
                Step::Done(a, q) => if sym_at(t, q, Symbol::Comma) {
                    match expr_rule(t, q + 1, f) {
                        Step::Done(b, r) => if sym_at(t, r, Symbol::RParen) {
                            Step::Done(SExpr::Push(Box::new(a), Box::new(b)), r + 1)
                        } else {
                            Step::Fail
                        },
                        Step::Fail => Step::Fail,
                        Step::Deep => Step::Deep,
                    }
                } else {
                    Step::Fail
                },
                Step::Fail => Step::Fail,
                Step::Deep => Step::Deep,
            }
        } else {
            Step::Fail
        }
    }
}

/// `NUMBER | STRING | CHAR | "true" | "false" | "nil" | builtin
///  | "[" args "]" | block | "(" expr ")" | NAME`.
pub open spec fn primary_rule(t: Seq<SToken>, p: nat, fuel: nat) -> Parsed
    decreases fuel,
{
    if fuel == 0 {
        Step::Deep
    } else if p >= t.len() {
        Step::Fail
    } else {
        let f = (fuel - 1) as nat;
        match t[p as int] {
            SToken::Int(n) => Step::Done(SExpr::Number(n), p + 1),
            SToken::Str(s) => Step::Done(SExpr::String(s), p + 1),
            SToken::Char(c) => Step::Done(SExpr::Char(c), p + 1),
            SToken::Kw(Keyword::True) => Step::Done(SExpr::Bool(true), p + 1),
            SToken::Kw(Keyword::False) => Step::Done(SExpr::Bool(false), p + 1),
            SToken::Kw(Keyword::Nil) => Step::Done(SExpr::Nil, p + 1),
            SToken::Sym(Symbol::LBracket) => match args_rule(t, p + 1, f) {
                Step::Done(es, q) => if sym_at(t, q, Symbol::RBracket) {
                    Step::Done(SExpr::Array(es), q + 1)
                } else {
                    Step::Fail
                },
                Step::Fail => Step::Fail,
                Step::Deep => Step::Deep,
            },
            SToken::Sym(Symbol::LBrace) => block_rule(t, p, f),
            SToken::Sym(Symbol::LParen) => paren_rule(t, p, f),
            SToken::Ident(w) => match builtin_rule(w, t, p, f) {
                Step::Fail => Step::Done(SExpr::Ident(w), p + 1),
                other => other,
            },
            _ => Step::Fail,
        }
    }
}

/// `"{" stmts "}"`, with `{` at `p`.
pub open spec fn block_rule(t: Seq<SToken>, p: nat, fuel: nat) -> Parsed
    decreases fuel,
{
    if fuel == 0 {
        Step::Deep
    } else if sym_at(t, p, Symbol::LBrace) {
        match stmts_rule(t, p + 1, (fuel - 1) as nat) {
            Step::Done(es, q) => if sym_at(t, q, Symbol::RBrace) {
                Step::Done(SExpr::Block(es), q + 1)
            } else {
                Step::Fail
            },
            Step::Fail => Step::Fail,
            Step::Deep => Step::Deep,
        }
    } else {
        Step::Fail
    }
}

/// Statements separated by `;`: `{";"} [expr [";" stmts]]`. Empty
/// statements are skipped.
pub open spec fn stmts_rule(t: Seq<SToken>, p: nat, fuel: nat) -> ParsedList
    decreases fuel,
{
    if fuel == 0 {
        Step::Deep
    } else {
        let f = (fuel - 1) as nat;
        if sym_at(t, p, Symbol::Semi) {
            stmts_rule(t, p + 1, f)
        } else {
            match expr_rule(t, p, f) {
                Step::Done(e, q) => if sym_at(t, q, Symbol::Semi) {
                    match stmts_rule(t, q + 1, f) {
                        Step::Done(es, r) => Step::Done(seq![e] + es, r),
                        Step::Fail => Step::Fail,
                        Step::Deep => Step::Deep,
                    }
                } else {
                    Step::Done(seq![e], q)
                },
                Step::Fail => Step::Done(Seq::empty(), p),
                Step::Deep => Step::Deep,
            }
        }
    }
}

/// A program: statements that take up all the tokens. On failure, the index
/// of the first token that could not be read, or `None` when the program
/// nests deeper than `fuel` allows.
pub open spec fn program_rule(t: Seq<SToken>, fuel: nat) -> Result<Seq<SExpr>, Option<nat>> {
    match stmts_rule(t, 0, fuel) {
        Step::Done(es, q) => if q == t.len() {
            Ok(es)
        } else {
            Err(Some(q))
        },
        Step::Fail => Err(Some(0)),
        Step::Deep => Err(None),
    }
}

/// The nesting budget for a program of `n` tokens.
pub open spec fn fuel_for(n: nat) -> nat {
    if n < 1_000_000_000_000 {
        64 * (n + 1)
    } else {
        0xffff_ffff_ffff_ffff
    }
}

/// The tokens of a list of tokens with positions.
pub open spec fn tokens_of(ls: Seq<(SToken, nat)>) -> Seq<SToken> {
    ls.map_values(|l: (SToken, nat)| l.0)
}

/// What reading the source `src` gives: its statements, or the first error.
/// A syntax error is reported at the start of the token that could not be
/// read, or at the end of the source.
pub open spec fn parse_spec(src: Seq<char>) -> Result<Seq<SExpr>, ParseError> {
    match lex_spec(src, 0) {
        Err(e) => Err(e),
        Ok(ls) => match program_rule(tokens_of(ls), fuel_for(ls.len())) {
            Ok(es) => Ok(es),
            Err(Some(q)) => Err(
                ParseError::UnexpectedToken(
                    if q < ls.len() {
                        ls[q as int].1 as usize
                    } else {
                        src.len() as usize
                    },
                ),
            ),
            Err(None) => Err(ParseError::TooDeep),
        },
    }
}

/// Giving a rule more fuel does not change what it reads, unless it ran out
/// of fuel: the budget only decides whether a phrase nests too deep.
pub proof fn lemma_expr_fuel(t: Seq<SToken>, p: nat, f: nat, f2: nat)
    requires
        f <= f2,
        !(expr_rule(t, p, f) is Deep),
    ensures
        expr_rule(t, p, f2) == expr_rule(t, p, f),
    decreases f,
{
    if p < t.len() {
        let g = (f - 1) as nat;
        let g2 = (f2 - 1) as nat;
        match t[p as int] {
            SToken::Kw(Keyword::Let) => lemma_declare_fuel(t, p, g, g2),
            SToken::Kw(Keyword::If) => lemma_if_fuel(t, p, g, g2),
            SToken::Kw(Keyword::While) => lemma_while_fuel(t, p, g, g2),
            SToken::Kw(Keyword::For) => lemma_for_fuel(t, p, g, g2),
            SToken::Kw(Keyword::Mod) => lemma_mod_fuel(t, p, g, g2),
            SToken::Kw(Keyword::Return) => lemma_expr_fuel(t, p + 1, g, g2),
            SToken::Kw(Keyword::Break) => {},
            SToken::Kw(Keyword::Continue) => {},
            SToken::Sym(Symbol::Pipe) => lemma_lambda_fuel(t, p, g, g2),
            SToken::Sym(Symbol::PipePipe) => lemma_expr_fuel(t, p + 1, g, g2),
            SToken::Ident(_) => {
                lemma_assign_fuel(t, p, g, g2);
                if assign_rule(t, p, g) is Fail {
                    lemma_level_fuel(0, t, p, g, g2);
                }
            },
            _ => lemma_level_fuel(0, t, p, g, g2),
        }
    }
}

proof fn lemma_declare_fuel(t: Seq<SToken>, p: nat, f: nat, f2: nat)
    requires
        f <= f2,
        !(declare_rule(t, p, f) is Deep),
    ensures
        declare_rule(t, p, f2) == declare_rule(t, p, f),
    decreases f,
{
    if ident_at(t, p + 1) is Some && sym_at(t, p + 2, Symbol::Eq) {
        lemma_expr_fuel(t, p + 3, (f - 1) as nat, (f2 - 1) as nat);
    }
}

proof fn lemma_if_fuel(t: Seq<SToken>, p: nat, f: nat, f2: nat)
    requires
        f <= f2,
        !(if_rule(t, p, f) is Deep),
    ensures
        if_rule(t, p, f2) == if_rule(t, p, f),
    decreases f,
{
    let g = (f - 1) as nat;
    let g2 = (f2 - 1) as nat;
    lemma_expr_fuel(t, p + 1, g, g2);
    if let Step::Done(c, q) = expr_rule(t, p + 1, g) {
        lemma_block_fuel(t, q, g, g2);
        if let Step::Done(b, r) = block_rule(t, q, g) {
            if kw_at(t, r, Keyword::Else) {
                lemma_block_fuel(t, r + 1, g, g2);
            }
        }
    }
}

proof fn lemma_while_fuel(t: Seq<SToken>, p: nat, f: nat, f2: nat)
    requires
        f <= f2,
        !(while_rule(t, p, f) is Deep),
    ensures
        while_rule(t, p, f2) == while_rule(t, p, f),
    decreases f,
{
    let g = (f - 1) as nat;
    let g2 = (f2 - 1) as nat;
    lemma_expr_fuel(t, p + 1, g, g2);
    if let Step::Done(c, q) = expr_rule(t, p + 1, g) {
        lemma_block_fuel(t, q, g, g2);
    }
}

proof fn lemma_for_fuel(t: Seq<SToken>, p: nat, f: nat, f2: nat)
    requires
        f <= f2,
        !(for_rule(t, p, f) is Deep),
    ensures
        for_rule(t, p, f2) == for_rule(t, p, f),
    decreases f,
{
    let g = (f - 1) as nat;
    let g2 = (f2 - 1) as nat;
    if ident_at(t, p + 1) is Some && kw_at(t, p + 2, Keyword::In) {
        lemma_expr_fuel(t, p + 3, g, g2);
        if let Step::Done(it, q) = expr_rule(t, p + 3, g) {
            lemma_block_fuel(t, q, g, g2);
        }
    }
}

proof fn lemma_mod_fuel(t: Seq<SToken>, p: nat, f: nat, f2: nat)
    requires
        f <= f2,
        !(mod_rule(t, p, f) is Deep),
    ensures
        mod_rule(t, p, f2) == mod_rule(t, p, f),
    decreases f,
{
    let g = (f - 1) as nat;
    let g2 = (f2 - 1) as nat;
    lemma_expr_fuel(t, p + 1, g, g2);
    if let Step::Done(m, q) = expr_rule(t, p + 1, g) {
        lemma_block_fuel(t, q, g, g2);
    }
}

proof fn lemma_lambda_fuel(t: Seq<SToken>, p: nat, f: nat, f2: nat)
    requires
        f <= f2,
        !(lambda_rule(t, p, f) is Deep),
    ensures
        lambda_rule(t, p, f2) == lambda_rule(t, p, f),
    decreases f,
{
    let (names, q) = params_rule(t, p + 1);
    if sym_at(t, q, Symbol::Pipe) {
        lemma_expr_fuel(t, q + 1, (f - 1) as nat, (f2 - 1) as nat);
    }
}

proof fn lemma_indices_fuel(t: Seq<SToken>, q: nat, acc: Seq<SExpr>, f: nat, f2: nat)
    requires
        f <= f2,
        !(indices_rule(t, q, acc, f) is Deep),
    ensures
        indices_rule(t, q, acc, f2) == indices_rule(t, q, acc, f),
    decreases f,
{
    if sym_at(t, q, Symbol::LBracket) {
        let g = (f - 1) as nat;
        let g2 = (f2 - 1) as nat;
        lemma_expr_fuel(t, q + 1, g, g2);
        if let Step::Done(i, r) = expr_rule(t, q + 1, g) {
            if sym_at(t, r, Symbol::RBracket) {
                lemma_indices_fuel(t, r + 1, acc.push(i), g, g2);
            }
        }
    }
}

proof fn lemma_assign_fuel(t: Seq<SToken>, p: nat, f: nat, f2: nat)
    requires
        f <= f2,
        !(assign_rule(t, p, f) is Deep),
    ensures
        assign_rule(t, p, f2) == assign_rule(t, p, f),
    decreases f,
{
    let g = (f - 1) as nat;
    let g2 = (f2 - 1) as nat;
    if ident_at(t, p) is Some {
        lemma_indices_fuel(t, p + 1, Seq::empty(), g, g2);
        if let Step::Done(idx, q) = indices_rule(t, p + 1, Seq::empty(), g) {
            if sym_at(t, q, Symbol::Eq) {
                lemma_expr_fuel(t, q + 1, g, g2);
            }
        }
    }
}

proof fn lemma_level_fuel(level: nat, t: Seq<SToken>, p: nat, f: nat, f2: nat)
    requires
        f <= f2,
        !(level_rule(level, t, p, f) is Deep),
    ensures
        level_rule(level, t, p, f2) == level_rule(level, t, p, f),
    decreases f,
{
    let g = (f - 1) as nat;
    let g2 = (f2 - 1) as nat;
    if level >= 11 {
        lemma_unary_fuel(t, p, g, g2);
    } else {
        lemma_level_fuel(level + 1, t, p, g, g2);
        if let Step::Done(e, q) = level_rule(level + 1, t, p, g) {
            lemma_chain_fuel(level, e, t, q, g, g2);
        }
    }
}

proof fn lemma_chain_fuel(level: nat, acc: SExpr, t: Seq<SToken>, q: nat, f: nat, f2: nat)
    requires
        f <= f2,
        !(chain_rule(level, acc, t, q, f) is Deep),
    ensures
        chain_rule(level, acc, t, q, f2) == chain_rule(level, acc, t, q, f),
    decreases f,
{
    let g = (f - 1) as nat;
    let g2 = (f2 - 1) as nat;
    if let Some(op) = op_at(t, q, level) {
        lemma_level_fuel(level + 1, t, q + 1, g, g2);
        if let Step::Done(rhs, r) = level_rule(level + 1, t, q + 1, g) {
            lemma_chain_fuel(level, combine(op, acc, rhs), t, r, g, g2);
        }
    }
}

proof fn lemma_unary_fuel(t: Seq<SToken>, p: nat, f: nat, f2: nat)
    requires
        f <= f2,
        !(unary_rule(t, p, f) is Deep),
    ensures
        unary_rule(t, p, f2) == unary_rule(t, p, f),
    decreases f,
{
    let g = (f - 1) as nat;
    let g2 = (f2 - 1) as nat;
    if sym_at(t, p, Symbol::Minus) || sym_at(t, p, Symbol::Bang) {
        lemma_unary_fuel(t, p + 1, g, g2);
    } else {
        lemma_postfix_fuel(t, p, g, g2);
    }
}

proof fn lemma_postfix_fuel(t: Seq<SToken>, p: nat, f: nat, f2: nat)
    requires
        f <= f2,
        !(postfix_rule(t, p, f) is Deep),
    ensures
        postfix_rule(t, p, f2) == postfix_rule(t, p, f),
    decreases f,
{
    let g = (f - 1) as nat;
    let g2 = (f2 - 1) as nat;
    lemma_primary_fuel(t, p, g, g2);
    if let Step::Done(e, q) = primary_rule(t, p, g) {
        lemma_postfix_more_fuel(e, t, q, g, g2);
    }
}

proof fn lemma_postfix_more_fuel(acc: SExpr, t: Seq<SToken>, q: nat, f: nat, f2: nat)
    requires
        f <= f2,
        !(postfix_more(acc, t, q, f) is Deep),
    ensures
        postfix_more(acc, t, q, f2) == postfix_more(acc, t, q, f),
    decreases f,
{
    let g = (f - 1) as nat;
    let g2 = (f2 - 1) as nat;
    if sym_at(t, q, Symbol::LParen) {
        lemma_args_fuel(t, q + 1, g, g2);
        if let Step::Done(a, r) = args_rule(t, q + 1, g) {
            if sym_at(t, r, Symbol::RParen) {
                lemma_postfix_more_fuel(SExpr::Call { func: Box::new(acc), args: a }, t, r + 1, g, g2);
            }
        }
    } else if sym_at(t, q, Symbol::LBracket) {
        lemma_expr_fuel(t, q + 1, g, g2);
        if let Step::Done(i, r) = expr_rule(t, q + 1, g) {
            if sym_at(t, r, Symbol::RBracket) {
                lemma_postfix_more_fuel(
                    SExpr::Index { object: Box::new(acc), index: Box::new(i) },
                    t,
                    r + 1,
                    g,
                    g2,
                );
            }
        }
    } else if sym_at(t, q, Symbol::Dot) && sym_at(t, q + 2, Symbol::LParen) {
        if let Some(m) = ident_at(t, q + 1) {
            lemma_args_fuel(t, q + 3, g, g2);
            if let Step::Done(a, r) = args_rule(t, q + 3, g) {
                if sym_at(t, r, Symbol::RParen) {
                    lemma_postfix_more_fuel(
                        SExpr::Call { func: Box::new(SExpr::Ident(m)), args: seq![acc] + a },
                        t,
                        r + 1,
                        g,
                        g2,
                    );
                }
            }
        }
    }
}

proof fn lemma_args_fuel(t: Seq<SToken>, p: nat, f: nat, f2: nat)
    requires
        f <= f2,
        !(args_rule(t, p, f) is Deep),
    ensures
        args_rule(t, p, f2) == args_rule(t, p, f),
    decreases f,
{
    let g = (f - 1) as nat;
    let g2 = (f2 - 1) as nat;
    lemma_expr_fuel(t, p, g, g2);
    if let Step::Done(e, q) = expr_rule(t, p, g) {
        lemma_args_more_fuel(seq![e], t, q, g, g2);
    }
}

proof fn lemma_args_more_fuel(acc: Seq<SExpr>, t: Seq<SToken>, q: nat, f: nat, f2: nat)
    requires
        f <= f2,
        !(args_more(acc, t, q, f) is Deep),
    ensures
        args_more(acc, t, q, f2) == args_more(acc, t, q, f),
    decreases f,
{
    if sym_at(t, q, Symbol::Comma) {
        let g = (f - 1) as nat;
        let g2 = (f2 - 1) as nat;
        lemma_expr_fuel(t, q + 1, g, g2);
        if let Step::Done(e, r) = expr_rule(t, q + 1, g) {
            lemma_args_more_fuel(acc.push(e), t, r, g, g2);
        }
    }
}

proof fn lemma_paren_fuel(t: Seq<SToken>, p: nat, f: nat, f2: nat)
    requires
        f <= f2,
        !(paren_rule(t, p, f) is Deep),
    ensures
        paren_rule(t, p, f2) == paren_rule(t, p, f),
    decreases f,
{
    if sym_at(t, p, Symbol::LParen) {
        lemma_expr_fuel(t, p + 1, (f - 1) as nat, (f2 - 1) as nat);
    }
}

proof fn lemma_builtin_fuel(w: Seq<char>, t: Seq<SToken>, p: nat, f: nat, f2: nat)
    requires
        f <= f2,
        !(builtin_rule(w, t, p, f) is Deep),
    ensures
        builtin_rule(w, t, p, f2) == builtin_rule(w, t, p, f),
    decreases f,
{
    let g = (f - 1) as nat;
    let g2 = (f2 - 1) as nat;
    if w == "len"@ || w == "print"@ {
        lemma_paren_fuel(t, p + 1, g, g2);
    } else if w == "input"@ {
    } else if w == "push"@ && sym_at(t, p + 1, Symbol::LParen) {
        lemma_expr_fuel(t, p + 2, g, g2);
        if let Step::Done(a, q) = expr_rule(t, p + 2, g) {
            if sym_at(t, q, Symbol::Comma) {
                lemma_expr_fuel(t, q + 1, g, g2);
            }
        }
    }
}

proof fn lemma_primary_fuel(t: Seq<SToken>, p: nat, f: nat, f2: nat)
    requires
        f <= f2,
        !(primary_rule(t, p, f) is Deep),
    ensures
        primary_rule(t, p, f2) == primary_rule(t, p, f),
    decreases f,
{
    if p < t.len() {
        let g = (f - 1) as nat;
        let g2 = (f2 - 1) as nat;
        match t[p as int] {
            SToken::Sym(Symbol::LBracket) => lemma_args_fuel(t, p + 1, g, g2),
            SToken::Sym(Symbol::LBrace) => lemma_block_fuel(t, p, g, g2),
            SToken::Sym(Symbol::LParen) => lemma_paren_fuel(t, p, g, g2),
            SToken::Ident(w) => lemma_builtin_fuel(w, t, p, g, g2),
            _ => {},
        }
    }
}

proof fn lemma_block_fuel(t: Seq<SToken>, p: nat, f: nat, f2: nat)
    requires
        f <= f2,
        !(block_rule(t, p, f) is Deep),
    ensures
        block_rule(t, p, f2) == block_rule(t, p, f),
    decreases f,
{
    if sym_at(t, p, Symbol::LBrace) {
        lemma_stmts_fuel(t, p + 1, (f - 1) as nat, (f2 - 1) as nat);
    }
}

proof fn lemma_stmts_fuel(t: Seq<SToken>, p: nat, f: nat, f2: nat)
    requires
        f <= f2,
        !(stmts_rule(t, p, f) is Deep),
    ensures
        stmts_rule(t, p, f2) == stmts_rule(t, p, f),
    decreases f,
{
    let g = (f - 1) as nat;
    let g2 = (f2 - 1) as nat;
    if sym_at(t, p, Symbol::Semi) {
        lemma_stmts_fuel(t, p + 1, g, g2);
    } else {
        lemma_expr_fuel(t, p, g, g2);
        if let Step::Done(e, q) = expr_rule(t, p, g) {
            if sym_at(t, q, Symbol::Semi) {
                lemma_stmts_fuel(t, q + 1, g, g2);
            }
        }
    }
}

/// The nesting budget only decides whether a program nests too deep: with
/// a larger budget, a program that did not run out reads the same.
pub proof fn law_parse_budget(t: Seq<SToken>, f: nat, f2: nat)
    requires
        f <= f2,
        program_rule(t, f) != Err::<Seq<SExpr>, Option<nat>>(None),
    ensures
        program_rule(t, f2) == program_rule(t, f),
{
    lemma_stmts_fuel(t, 0, f, f2);
}

} // verus!
