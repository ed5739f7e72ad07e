use vstd::prelude::*;

use crate::ast::{BinOp, Expr, LogicalOp, SExpr, UnaryOp, lemma_views_concat, names_view, views};
use crate::chars::{chars_are, str_chars, string_from_chars};
use crate::grammar::{
    Parsed, ParsedList, Step, args_more, args_rule, assign_rule, binop_of, block_rule, builtin_rule,
    chain_rule, combine, declare_rule, expr_rule, for_rule, fuel_for, ident_at, if_rule,
    indices_rule, kw_at, lambda_rule, level_rule, mod_rule, op_at, op_level, params_more,
    params_rule, paren_rule, parse_spec, postfix_more, postfix_rule, primary_rule, program_rule,
    stmts_rule, sym_at, tokens_of, unary_rule, while_rule,
};
use crate::lexer::{Keyword, ParseError, SToken, Symbol, Token, lex, lex_spec, lexemes, slice_chars};

verus! {

/// The models of a list of tokens.
pub open spec fn toks(t: Seq<Token>) -> Seq<SToken> {
    t.map_values(|x: Token| x@)
}

/// The outcome of reading a phrase, see [`Step`].
#[derive(Debug)]
pub enum Outcome<T> {
    Done(T, usize),
    Fail,
    Deep,
}

/// The model of the outcome of reading an expression.
pub open spec fn parsed_view(r: Outcome<Expr>) -> Parsed {
    match r {
        Outcome::Done(e, q) => Step::Done(e@, q as nat),
        Outcome::Fail => Step::Fail,
        Outcome::Deep => Step::Deep,
    }
}

/// The model of the outcome of reading a list of expressions.
pub open spec fn list_view(r: Outcome<Vec<Expr>>) -> ParsedList {
    match r {
        Outcome::Done(es, q) => Step::Done(views(es@), q as nat),
        Outcome::Fail => Step::Fail,
        Outcome::Deep => Step::Deep,
    }
}

/// A list outcome with `vs` read before it.
pub open spec fn prepend_list(vs: Seq<SExpr>, o: ParsedList) -> ParsedList {
    match o {
        Step::Done(es, r) => Step::Done(vs + es, r),
        other => other,
    }
}

fn sym_is(t: &Vec<Token>, p: usize, s: Symbol) -> (r: bool)
    ensures
        r == sym_at(toks(t@), p as nat, s),
        r ==> p < t@.len(),
        t@.len() <= usize::MAX,
{
    if p < t.len() {
        match &t[p] {
            Token::Sym(x) => *x == s,
            _ => false,
        }
    } else {
        false
    }
}

fn kw_is(t: &Vec<Token>, p: usize, k: Keyword) -> (r: bool)
    ensures
        r == kw_at(toks(t@), p as nat, k),
        r ==> p < t@.len(),
        t@.len() <= usize::MAX,
{
    if p < t.len() {
        match &t[p] {
            Token::Kw(x) => *x == k,
            _ => false,
        }
    } else {
        false
    }
}

fn name_at(t: &Vec<Token>, p: usize) -> (r: Option<Vec<char>>)
    ensures
        match r {
            Some(w) => ident_at(toks(t@), p as nat) == Some(w@),
            None => ident_at(toks(t@), p as nat) is None,
        },
        r is Some ==> p < t@.len(),
        t@.len() <= usize::MAX,
{
    if p < t.len() {
        match &t[p] {
            Token::Ident(w) => {
                let c = slice_chars(w, 0, w.len());
                assert(c@ =~= w@);
                Some(c)
            },
            _ => None,
        }
    } else {
        None
    }
}

fn level_of(s: Symbol) -> (r: u64)
    ensures
        r as int == op_level(s) || (r == 99 && op_level(s) == -1),
{
    match s {
        Symbol::PipePipe => 0,
        Symbol::AmpAmp => 1,
        Symbol::Pipe => 2,
        Symbol::Caret => 3,
        Symbol::Amp => 4,
        Symbol::EqEq | Symbol::BangEq | Symbol::Lt | Symbol::Le | Symbol::Gt | Symbol::Ge => 5,
        Symbol::DotDot | Symbol::DotDotEq => 6,
        Symbol::Shl | Symbol::Shr => 7,
        Symbol::Plus | Symbol::Minus => 8,
        Symbol::Star | Symbol::Slash | Symbol::Percent => 9,
        Symbol::StarStar => 10,
        _ => 99,
    }
}

fn op_here(t: &Vec<Token>, p: usize, level: u64) -> (r: Option<Symbol>)
    requires
        level < 11,
    ensures
        r == op_at(toks(t@), p as nat, level as nat),
        r is Some ==> p < t@.len(),
        t@.len() <= usize::MAX,
{
    if p < t.len() {
        match &t[p] {
            Token::Sym(s) => {
                if level_of(*s) == level {
                    Some(*s)
                } else {
                    None
                }
            },
            _ => None,
        }
    } else {
        None
    }
}

fn binop(s: Symbol) -> (r: BinOp)
    ensures
        r == binop_of(s),
{
    match s {
        Symbol::Pipe => BinOp::Or,
        Symbol::Caret => BinOp::Xor,
        Symbol::Amp => BinOp::And,
        Symbol::EqEq => BinOp::Eq,
        Symbol::BangEq => BinOp::Neq,
        Symbol::Lt => BinOp::Lt,
        Symbol::Le => BinOp::Le,
        Symbol::Gt => BinOp::Gt,
        Symbol::Ge => BinOp::Ge,
        Symbol::Shl => BinOp::Shl,
        Symbol::Shr => BinOp::Shr,
        Symbol::Minus => BinOp::Sub,
        Symbol::Star => BinOp::Mul,
        Symbol::Slash => BinOp::Div,
        Symbol::Percent => BinOp::Rem,
        Symbol::StarStar => BinOp::Pow,
        _ => BinOp::Add,
    }
}

/// The tree of `left op right`, see [`combine`].
fn join(op: Symbol, left: Expr, right: Expr) -> (r: Expr)
    ensures
        r@ == combine(op, left@, right@),
{
    match op {
        Symbol::PipePipe => Expr::LogicalOp {
            left: Box::new(left),
            right: Box::new(right),
            op: LogicalOp::Or,
        },
        Symbol::AmpAmp => Expr::LogicalOp {
            left: Box::new(left),
            right: Box::new(right),
            op: LogicalOp::And,
        },
        Symbol::DotDot => Expr::Range { start: Box::new(left), end: Box::new(right), inclusive: false },
        Symbol::DotDotEq => Expr::Range {
            start: Box::new(left),
            end: Box::new(right),
            inclusive: true,
        },
        _ => Expr::BinOp { left: Box::new(left), right: Box::new(right), op: binop(op) },
    }
}

/// Reads an expression at `p`, see [`expr_rule`].
pub fn parse_expr(t: &Vec<Token>, p: usize, fuel: u64) -> (r: Outcome<Expr>)
    ensures
        parsed_view(r) == expr_rule(toks(t@), p as nat, fuel as nat),
    decreases fuel, 0nat,
{
    if fuel == 0 {
        return Outcome::Deep;
    }
    if p >= t.len() {
        return Outcome::Fail;
    }
    let f = fuel - 1;
    match &t[p] {
        Token::Kw(Keyword::Let) => parse_declare(t, p, f),
        Token::Kw(Keyword::If) => parse_if(t, p, f),
        Token::Kw(Keyword::While) => parse_while(t, p, f),
        Token::Kw(Keyword::For) => parse_for(t, p, f),
        Token::Kw(Keyword::Mod) => parse_mod(t, p, f),
        Token::Kw(Keyword::Return) => match parse_expr(t, p + 1, f) {
            Outcome::Done(e, q) => Outcome::Done(Expr::Return(Some(Box::new(e))), q),
            Outcome::Fail => Outcome::Done(Expr::Return(None), p + 1),
            Outcome::Deep => Outcome::Deep,
        },
        Token::Kw(Keyword::Break) => Outcome::Done(Expr::Break, p + 1),
        Token::Kw(Keyword::Continue) => Outcome::Done(Expr::Continue, p + 1),
        Token::Sym(Symbol::Pipe) => parse_lambda(t, p, f),
        Token::Sym(Symbol::PipePipe) => match parse_expr(t, p + 1, f) {
            Outcome::Done(b, q) => {
                let args: Vec<String> = Vec::new();
                assert(names_view(args@) =~= Seq::<Seq<char>>::empty());
                Outcome::Done(Expr::Lambda { args, body: Box::new(b) }, q)
            },
            Outcome::Fail => Outcome::Fail,
            Outcome::Deep => Outcome::Deep,
        },
        Token::Ident(_) => match parse_assign(t, p, f) {
            Outcome::Fail => parse_binary_chain(0, t, p, f),
            other => other,
        },
        _ => parse_binary_chain(0, t, p, f),
    }
}

/// Reads `let NAME = expr` at `p`, see [`declare_rule`].
pub fn parse_declare(t: &Vec<Token>, p: usize, fuel: u64) -> (r: Outcome<Expr>)
    requires
        p < t@.len() <= usize::MAX,
    ensures
        parsed_view(r) == declare_rule(toks(t@), p as nat, fuel as nat),
    decreases fuel, 0nat,
{
    if fuel == 0 {
        return Outcome::Deep;
    }
    match name_at(t, p + 1) {
        Some(name) => {
            if sym_is(t, p + 2, Symbol::Eq) {
                match parse_expr(t, p + 3, fuel - 1) {
                    Outcome::Done(v, q) => Outcome::Done(
                        Expr::Declare { name: string_from_chars(&name), value: Box::new(v) },
                        q,
                    ),
                    Outcome::Fail => Outcome::Fail,
                    Outcome::Deep => Outcome::Deep,
                }
            } else {
                Outcome::Fail
            }
        },
        None => Outcome::Fail,
    }
}

/// Reads `if expr block [else block]` at `p`, see [`if_rule`].
pub fn parse_if(t: &Vec<Token>, p: usize, fuel: u64) -> (r: Outcome<Expr>)
    requires
        p < t@.len() <= usize::MAX,
    ensures
        parsed_view(r) == if_rule(toks(t@), p as nat, fuel as nat),
    decreases fuel, 0nat,
{
    if fuel == 0 {
        return Outcome::Deep;
    }
    let f = fuel - 1;
    let (c, q) = match parse_expr(t, p + 1, f) {
        Outcome::Done(c, q) => (c, q),
        Outcome::Fail => {
            return Outcome::Fail;
        },
        Outcome::Deep => {
            return Outcome::Deep;
        },
    };
    let (b, r) = match parse_block(t, q, f) {
        Outcome::Done(b, r) => (b, r),
        Outcome::Fail => {
            return Outcome::Fail;
        },
        Outcome::Deep => {
            return Outcome::Deep;
        },
    };
    if kw_is(t, r, Keyword::Else) {
        match parse_block(t, r + 1, f) {
            Outcome::Done(e, u) => Outcome::Done(
                Expr::If { cond: Box::new(c), then: Box::new(b), else_: Some(Box::new(e)) },
                u,
            ),
            Outcome::Fail => Outcome::Done(
                Expr::If { cond: Box::new(c), then: Box::new(b), else_: None },
                r,
            ),
            Outcome::Deep => Outcome::Deep,
        }
    } else {
        Outcome::Done(Expr::If { cond: Box::new(c), then: Box::new(b), else_: None }, r)
    }
}

/// Reads `while expr block` at `p`, see [`while_rule`].
pub fn parse_while(t: &Vec<Token>, p: usize, fuel: u64) -> (r: Outcome<Expr>)
    requires
        p < t@.len() <= usize::MAX,
    ensures
        parsed_view(r) == while_rule(toks(t@), p as nat, fuel as nat),
    decreases fuel, 0nat,
{
    if fuel == 0 {
        return Outcome::Deep;
    }
    let f = fuel - 1;
    match parse_expr(t, p + 1, f) {
        Outcome::Done(c, q) => match parse_block(t, q, f) {
            Outcome::Done(b, r) => Outcome::Done(
                Expr::While { cond: Box::new(c), body: Box::new(b) },
                r,
            ),
            Outcome::Fail => Outcome::Fail,
            Outcome::Deep => Outcome::Deep,
        },
        Outcome::Fail => Outcome::Fail,
        Outcome::Deep => Outcome::Deep,
    }
}

/// Reads `for NAME in expr block` at `p`, see [`for_rule`].
pub fn parse_for(t: &Vec<Token>, p: usize, fuel: u64) -> (r: Outcome<Expr>)
    requires
        p < t@.len() <= usize::MAX,
    ensures
        parsed_view(r) == for_rule(toks(t@), p as nat, fuel as nat),
    decreases fuel, 0nat,
{
    if fuel == 0 {
        return Outcome::Deep;
    }
    let f = fuel - 1;
    let var = match name_at(t, p + 1) {
        Some(w) => w,
        None => {
            return Outcome::Fail;
        },
    };
    if !kw_is(t, p + 2, Keyword::In) {
        return Outcome::Fail;
    }
    match parse_expr(t, p + 3, f) {
        Outcome::Done(it, q) => match parse_block(t, q, f) {
            Outcome::Done(b, r) => Outcome::Done(
                Expr::For { var: string_from_chars(&var), iter: Box::new(it), body: Box::new(b) },
                r,
            ),
            Outcome::Fail => Outcome::Fail,
            Outcome::Deep => Outcome::Deep,
        },
        Outcome::Fail => Outcome::Fail,
        Outcome::Deep => Outcome::Deep,
    }
}

/// Reads `mod expr block` at `p`, see [`mod_rule`].
pub fn parse_mod(t: &Vec<Token>, p: usize, fuel: u64) -> (r: Outcome<Expr>)
    requires
        p < t@.len() <= usize::MAX,
    ensures
        parsed_view(r) == mod_rule(toks(t@), p as nat, fuel as nat),
    decreases fuel, 0nat,
{
    if fuel == 0 {
        return Outcome::Deep;
    }
    let f = fuel - 1;
    match parse_expr(t, p + 1, f) {
        Outcome::Done(m, q) => match parse_block(t, q, f) {
            Outcome::Done(b, r) => Outcome::Done(
                Expr::Mod { modulus: Box::new(m), body: Box::new(b) },
                r,
            ),
            Outcome::Fail => Outcome::Fail,
            Outcome::Deep => Outcome::Deep,
        },
        Outcome::Fail => Outcome::Fail,
        Outcome::Deep => Outcome::Deep,
    }
}

/// Reads a parameter list at `p`, see [`params_rule`].
fn parse_params(t: &Vec<Token>, p: usize) -> (r: (Vec<String>, usize))
    requires
        p <= t@.len() <= usize::MAX,
    ensures
        (names_view(r.0@), r.1 as nat) == params_rule(toks(t@), p as nat),
{
    let mut names: Vec<String> = Vec::new();
    match name_at(t, p) {
        None => {
            assert(names_view(names@) =~= Seq::<Seq<char>>::empty());
            return (names, p);
        },
        Some(w) => {
            names.push(string_from_chars(&w));
        },
    }
    let mut q = p + 1;
    assert(names_view(names@) =~= seq![names@[0]@]);
    while sym_is(t, q, Symbol::Comma)
        invariant
            q <= t@.len(),
            params_rule(toks(t@), p as nat) == params_more(toks(t@), q as nat, names_view(names@)),
        decreases t@.len() - q,
    {
        match name_at(t, q + 1) {
            Some(w) => {
                let ghost before = names_view(names@);
                names.push(string_from_chars(&w));
                assert(names_view(names@) =~= before.push(w@));
                q = q + 2;
            },
            None => {
                return (names, q);
            },
        }
    }
    (names, q)
}

/// Reads `|params| expr` at `p`, see [`lambda_rule`].
pub fn parse_lambda(t: &Vec<Token>, p: usize, fuel: u64) -> (r: Outcome<Expr>)
    requires
        p < t@.len() <= usize::MAX,
    ensures
        parsed_view(r) == lambda_rule(toks(t@), p as nat, fuel as nat),
    decreases fuel, 0nat,
{
    if fuel == 0 {
        return Outcome::Deep;
    }
    let (names, q) = parse_params(t, p + 1);
    if sym_is(t, q, Symbol::Pipe) {
        match parse_expr(t, q + 1, fuel - 1) {
            Outcome::Done(b, r) => Outcome::Done(Expr::Lambda { args: names, body: Box::new(b) }, r),
            Outcome::Fail => Outcome::Fail,
            Outcome::Deep => Outcome::Deep,
        }
    } else {
        Outcome::Fail
    }
}

/// Reads `{[expr]}` at `q`, see [`indices_rule`].
fn parse_indices(t: &Vec<Token>, q: usize, fuel: u64) -> (r: Outcome<Vec<Expr>>)
    ensures
        list_view(r) == indices_rule(toks(t@), q as nat, Seq::empty(), fuel as nat),
    decreases fuel, 0nat,
{
    let mut idx: Vec<Expr> = Vec::new();
    let mut k = q;
    let mut g = fuel;
    proof {
        assert(views(idx@) =~= Seq::<SExpr>::empty());
    }
    loop
        invariant
            g <= fuel,
            indices_rule(toks(t@), q as nat, Seq::empty(), fuel as nat) == indices_rule(
                toks(t@),
                k as nat,
                views(idx@),
                g as nat,
            ),
        decreases g,
    {
        if g == 0 {
            return Outcome::Deep;
        }
        if !sym_is(t, k, Symbol::LBracket) {
            return Outcome::Done(idx, k);
        }
        let h = g - 1;
        match parse_expr(t, k + 1, h) {
            Outcome::Done(i, r) => {
                if sym_is(t, r, Symbol::RBracket) {
                    proof {
                        crate::ast::lemma_views_push(idx@, i);
                    }
                    idx.push(i);
                    k = r + 1;
                    g = h;
                } else {
                    return Outcome::Done(idx, k);
                }
            },
            Outcome::Fail => {
                return Outcome::Done(idx, k);
            },
            Outcome::Deep => {
                return Outcome::Deep;
            },
        }
    }
}

/// Reads `NAME {[expr]} = expr` at `p`, see [`assign_rule`].
pub fn parse_assign(t: &Vec<Token>, p: usize, fuel: u64) -> (r: Outcome<Expr>)
    requires
        p < t@.len() <= usize::MAX,
    ensures
        parsed_view(r) == assign_rule(toks(t@), p as nat, fuel as nat),
    decreases fuel, 0nat,
{
    if fuel == 0 {
        return Outcome::Deep;
    }
    let f = fuel - 1;
    let name = match name_at(t, p) {
        Some(w) => w,
        None => {
            return Outcome::Fail;
        },
    };
    let (idx, q) = match parse_indices(t, p + 1, f) {
        Outcome::Done(x, q) => (x, q),
        Outcome::Fail => {
            return Outcome::Fail;
        },
        Outcome::Deep => {
            return Outcome::Deep;
        },
    };
    if sym_is(t, q, Symbol::Eq) {
        match parse_expr(t, q + 1, f) {
            Outcome::Done(v, r) => Outcome::Done(
                Expr::Assign { name: string_from_chars(&name), indices: idx, value: Box::new(v) },
                r,
            ),
            Outcome::Fail => Outcome::Fail,
            Outcome::Deep => Outcome::Deep,
        }
    } else {
        Outcome::Fail
    }
}

/// Reads operator level `level` at `p`, see [`level_rule`] and [`chain_rule`].
pub fn parse_binary_chain(level: u64, t: &Vec<Token>, p: usize, fuel: u64) -> (r: Outcome<Expr>)
    ensures
        parsed_view(r) == level_rule(level as nat, toks(t@), p as nat, fuel as nat),
    decreases fuel, 0nat,
{
    if fuel == 0 {
        return Outcome::Deep;
    }
    let f = fuel - 1;
    if level >= 11 {
        return parse_unary(t, p, f);
    }
    let (mut acc, mut q) = match parse_binary_chain(level + 1, t, p, f) {
        Outcome::Done(e, q) => (e, q),
        Outcome::Fail => {
            return Outcome::Fail;
        },
        Outcome::Deep => {
            return Outcome::Deep;
        },
    };
    let mut g = f;
    loop
        invariant
            level < 11,
            g <= f,
            f < fuel,
            level_rule(level as nat, toks(t@), p as nat, fuel as nat) == chain_rule(
                level as nat,
                acc@,
                toks(t@),
                q as nat,
                g as nat,
            ),
        decreases g,
    {
        if g == 0 {
            return Outcome::Deep;
        }
        let h = g - 1;
        match op_here(t, q, level) {
            None => {
                return Outcome::Done(acc, q);
            },
            Some(op) => match parse_binary_chain(level + 1, t, q + 1, h) {
                Outcome::Done(rhs, r) => {
                    acc = join(op, acc, rhs);
                    q = r;
                    g = h;
                },
                Outcome::Fail => {
                    return Outcome::Done(acc, q);
                },
                Outcome::Deep => {
                    return Outcome::Deep;
                },
            },
        }
    }
}

/// Reads a prefix expression at `p`, see [`unary_rule`].
pub fn parse_unary(t: &Vec<Token>, p: usize, fuel: u64) -> (r: Outcome<Expr>)
    ensures
        parsed_view(r) == unary_rule(toks(t@), p as nat, fuel as nat),
    decreases fuel, 0nat,
{
    if fuel == 0 {
        return Outcome::Deep;
    }
    let f = fuel - 1;
    let minus = sym_is(t, p, Symbol::Minus);
    if minus || sym_is(t, p, Symbol::Bang) {
        let op = if minus {
            UnaryOp::Neg
        } else {
            UnaryOp::Not
        };
        match parse_unary(t, p + 1, f) {
            Outcome::Done(e, q) => Outcome::Done(Expr::UnaryOp { op, expr: Box::new(e) }, q),
            Outcome::Fail => Outcome::Fail,
            Outcome::Deep => Outcome::Deep,
        }
    } else {
        parse_postfix(t, p, f)
    }
}

/// What one postfix operation did.
enum Postfix {
    /// The operation applied: the new tree and the position after it.
    Applied(Expr, usize),
    /// No operation applies here; the tree is handed back.
    Stopped(Expr),
    /// The nesting budget ran out.
    Deep,
}

/// Reads calls, indexing and method calls at `p`, see [`postfix_rule`].
pub fn parse_postfix(t: &Vec<Token>, p: usize, fuel: u64) -> (r: Outcome<Expr>)
    ensures
        parsed_view(r) == postfix_rule(toks(t@), p as nat, fuel as nat),
    decreases fuel, 0nat,
{
    if fuel == 0 {
        return Outcome::Deep;
    }
    let f = fuel - 1;
    let (mut acc, mut q) = match parse_primary(t, p, f) {
        Outcome::Done(e, q) => (e, q),
        Outcome::Fail => {
            return Outcome::Fail;
        },
        Outcome::Deep => {
            return Outcome::Deep;
        },
    };
    let mut g = f;
    loop
        invariant
            g <= f,
            f < fuel,
            postfix_rule(toks(t@), p as nat, fuel as nat) == postfix_more(
                acc@,
                toks(t@),
                q as nat,
                g as nat,
            ),
        decreases g,
    {
        if g == 0 {
            return Outcome::Deep;
        }
        let h = g - 1;
        match postfix_step(t, acc, q, h) {
            Postfix::Applied(e, r) => {
                acc = e;
                q = r;
                g = h;
            },
            Postfix::Stopped(e) => {
                return Outcome::Done(e, q);
            },
            Postfix::Deep => {
                return Outcome::Deep;
            },
        }
    }
}

/// `m(obj, args...)`: the call that the method call `obj.m(args...)` stands for.
fn method_call(m: &Vec<char>, obj: Expr, args: Vec<Expr>) -> (r: Expr)
    ensures
        r@ == (SExpr::Call { func: Box::new(SExpr::Ident(m@)), args: seq![obj@] + views(args@) }),
{
    let ghost av = views(args@);
    let ghost ov = obj@;
    let func = Expr::Ident(string_from_chars(m));
    assert(func@ == SExpr::Ident(m@));
    let mut all: Vec<Expr> = Vec::new();
    all.push(obj);
    let mut rest = args;
    proof {
        lemma_views_concat(all@, rest@);
        crate::ast::lemma_views_push(Seq::<Expr>::empty(), all@[0]);
        assert(all@ =~= Seq::<Expr>::empty().push(all@[0]));
        assert(views(Seq::<Expr>::empty()) =~= Seq::<SExpr>::empty());
    }
    let ghost joined = all@ + rest@;
    all.append(&mut rest);
    assert(all@ == joined);
    assert(views(joined) =~= seq![ov] + av);
    Expr::Call { func: Box::new(func), args: all }
}

/// One postfix operation at `q` applied to `acc`, see [`postfix_more`].
fn postfix_step(t: &Vec<Token>, acc: Expr, q: usize, h: u64) -> (r: Postfix)
    ensures
        match r {
            Postfix::Applied(e, r2) => postfix_more(acc@, toks(t@), q as nat, (h + 1) as nat)
                == postfix_more(e@, toks(t@), r2 as nat, h as nat),
            Postfix::Stopped(a) => a@ == acc@ && postfix_more(
                acc@,
                toks(t@),
                q as nat,
                (h + 1) as nat,
            ) == Step::Done(acc@, q as nat),
            Postfix::Deep => postfix_more(acc@, toks(t@), q as nat, (h + 1) as nat)
                == Step::<SExpr>::Deep,
        },
    decreases h, 1nat,
{
    if sym_is(t, q, Symbol::LParen) {
        match parse_args(t, q + 1, h) {
            Outcome::Done(a, r) => {
                if sym_is(t, r, Symbol::RParen) {
                    Postfix::Applied(Expr::Call { func: Box::new(acc), args: a }, r + 1)
                } else {
                    Postfix::Stopped(acc)
                }
            },
            Outcome::Fail => Postfix::Stopped(acc),
            Outcome::Deep => Postfix::Deep,
        }
    } else if sym_is(t, q, Symbol::LBracket) {
        match parse_expr(t, q + 1, h) {
            Outcome::Done(i, r) => {
                if sym_is(t, r, Symbol::RBracket) {
                    Postfix::Applied(
                        Expr::Index { object: Box::new(acc), index: Box::new(i) },
                        r + 1,
                    )
                } else {
                    Postfix::Stopped(acc)
                }
            },
            Outcome::Fail => Postfix::Stopped(acc),
            Outcome::Deep => Postfix::Deep,
        }
    } else if sym_is(t, q, Symbol::Dot) {
        match name_at(t, q + 1) {
            Some(m) => {
                if !sym_is(t, q + 2, Symbol::LParen) {
                    return Postfix::Stopped(acc);
                }
                match parse_args(t, q + 3, h) {
                    Outcome::Done(a, r) => {
                        if sym_is(t, r, Symbol::RParen) {
                            Postfix::Applied(method_call(&m, acc, a), r + 1)
                        } else {
                            Postfix::Stopped(acc)
                        }
                    },
                    Outcome::Fail => Postfix::Stopped(acc),
                    Outcome::Deep => Postfix::Deep,
                }
            },
            None => Postfix::Stopped(acc),
        }
    } else {
        Postfix::Stopped(acc)
    }
}

/// Reads a comma-separated list of expressions at `p`, see [`args_rule`].
pub fn parse_args(t: &Vec<Token>, p: usize, fuel: u64) -> (r: Outcome<Vec<Expr>>)
    ensures
        list_view(r) == args_rule(toks(t@), p as nat, fuel as nat),
    decreases fuel, 0nat,
{
    if fuel == 0 {
        return Outcome::Deep;
    }
    let f = fuel - 1;
    let mut out: Vec<Expr> = Vec::new();
    let mut q = match parse_expr(t, p, f) {
        Outcome::Done(e, q) => {
            proof {
                crate::ast::lemma_views_push(out@, e);
                assert(views(out@) =~= Seq::<SExpr>::empty());
            }
            out.push(e);
            q
        },
        Outcome::Fail => {
            assert(views(out@) =~= Seq::<SExpr>::empty());
            return Outcome::Done(out, p);
        },
        Outcome::Deep => {
            return Outcome::Deep;
        },
    };
    let mut g = f;
    loop
        invariant
            g <= f,
            f < fuel,
            args_rule(toks(t@), p as nat, fuel as nat) == args_more(
                views(out@),
                toks(t@),
                q as nat,
                g as nat,
            ),
        decreases g,
    {
        if g == 0 {
            return Outcome::Deep;
        }
        if !sym_is(t, q, Symbol::Comma) {
            return Outcome::Done(out, q);
        }
        let h = g - 1;
        match parse_expr(t, q + 1, h) {
            Outcome::Done(e, r) => {
                proof {
                    crate::ast::lemma_views_push(out@, e);
                }
                out.push(e);
                q = r;
                g = h;
            },
            Outcome::Fail => {
                return Outcome::Done(out, q);
            },
            Outcome::Deep => {
                return Outcome::Deep;
            },
        }
    }
}

/// Reads `( expr )` at `p`, see [`paren_rule`].
fn parse_paren(t: &Vec<Token>, p: usize, fuel: u64) -> (r: Outcome<Expr>)
    ensures
        parsed_view(r) == paren_rule(toks(t@), p as nat, fuel as nat),
    decreases fuel, 0nat,
{
    if fuel == 0 {
        return Outcome::Deep;
    }
    if !sym_is(t, p, Symbol::LParen) {
        return Outcome::Fail;
    }
    match parse_expr(t, p + 1, fuel - 1) {
        Outcome::Done(e, q) => {
            if sym_is(t, q, Symbol::RParen) {
                Outcome::Done(e, q + 1)
            } else {
                Outcome::Fail
            }
        },
        Outcome::Fail => Outcome::Fail,
        Outcome::Deep => Outcome::Deep,
    }
}

/// Reads a builtin form whose name `w` is at `p`, see [`builtin_rule`].
fn parse_builtin(w: &Vec<char>, t: &Vec<Token>, p: usize, fuel: u64) -> (r: Outcome<Expr>)
    requires
        p < t@.len() <= usize::MAX,
    ensures
        parsed_view(r) == builtin_rule(w@, toks(t@), p as nat, fuel as nat),
    decreases fuel, 0nat,
{
    if fuel == 0 {
        return Outcome::Deep;
    }
    let f = fuel - 1;
    if chars_are(w, "len") {
        match parse_paren(t, p + 1, f) {
            Outcome::Done(e, q) => Outcome::Done(Expr::Len(Box::new(e)), q),
            Outcome::Fail => Outcome::Fail,
            Outcome::Deep => Outcome::Deep,
        }
    } else if chars_are(w, "print") {
        match parse_paren(t, p + 1, f) {
            Outcome::Done(e, q) => Outcome::Done(Expr::Print(Box::new(e)), q),
            Outcome::Fail => Outcome::Fail,
            Outcome::Deep => Outcome::Deep,
        }
    } else if chars_are(w, "input") {
        if sym_is(t, p + 1, Symbol::LParen) && sym_is(t, p + 2, Symbol::RParen) {
            Outcome::Done(Expr::Input, p + 3)
        } else {
            Outcome::Fail
        }
    } else if chars_are(w, "push") && sym_is(t, p + 1, Symbol::LParen) {
        let (a, q) = match parse_expr(t, p + 2, f) {
            Outcome::Done(a, q) => (a, q),
            Outcome::Fail => {
                return Outcome::Fail;
            },
            Outcome::Deep => {
                return Outcome::Deep;
            },
        };
        if !sym_is(t, q, Symbol::Comma) {
            return Outcome::Fail;
        }
        match parse_expr(t, q + 1, f) {
            Outcome::Done(b, r) => {
                if sym_is(t, r, Symbol::RParen) {
                    Outcome::Done(Expr::Push(Box::new(a), Box::new(b)), r + 1)
                } else {
                    Outcome::Fail
                }
            },
            Outcome::Fail => Outcome::Fail,
            Outcome::Deep => Outcome::Deep,
        }
    } else {
        Outcome::Fail
    }
}

/// Reads `[ args ]` at `p`, the `[` at `p`.
pub fn parse_array(t: &Vec<Token>, p: usize, fuel: u64) -> (r: Outcome<Expr>)
    requires
        p < t@.len() <= usize::MAX,
    ensures
        parsed_view(r) == (match args_rule(toks(t@), (p + 1) as nat, fuel as nat) {
            Step::Done(es, q) => if sym_at(toks(t@), q, Symbol::RBracket) {
                Step::Done(SExpr::Array(es), q + 1)
            } else {
                Step::Fail
            },
            Step::Fail => Step::Fail,
            Step::Deep => Step::Deep,
        }),
    decreases fuel, 1nat,
{
    match parse_args(t, p + 1, fuel) {
        Outcome::Done(es, q) => {
            if sym_is(t, q, Symbol::RBracket) {
                Outcome::Done(Expr::Array(es), q + 1)
            } else {
                Outcome::Fail
            }
        },
        Outcome::Fail => Outcome::Fail,
        Outcome::Deep => Outcome::Deep,
    }
}

/// Reads a primary expression at `p`, see [`primary_rule`].
pub fn parse_primary(t: &Vec<Token>, p: usize, fuel: u64) -> (r: Outcome<Expr>)
    ensures
        parsed_view(r) == primary_rule(toks(t@), p as nat, fuel as nat),
    decreases fuel, 0nat,
{
    if fuel == 0 {
        return Outcome::Deep;
    }
    if p >= t.len() {
        return Outcome::Fail;
    }
    let f = fuel - 1;
    match &t[p] {
        Token::Int(n) => Outcome::Done(Expr::Number(*n), p + 1),
        Token::Str(s) => Outcome::Done(Expr::String(string_from_chars(s)), p + 1),
        Token::Char(c) => Outcome::Done(Expr::Char(*c), p + 1),
        Token::Kw(Keyword::True) => Outcome::Done(Expr::Bool(true), p + 1),
        Token::Kw(Keyword::False) => Outcome::Done(Expr::Bool(false), p + 1),
        Token::Kw(Keyword::Nil) => Outcome::Done(Expr::Nil, p + 1),
        Token::Sym(Symbol::LBracket) => parse_array(t, p, f),
        Token::Sym(Symbol::LBrace) => parse_block(t, p, f),
        Token::Sym(Symbol::LParen) => parse_paren(t, p, f),
        Token::Ident(w) => match parse_builtin(w, t, p, f) {
            Outcome::Fail => Outcome::Done(Expr::Ident(string_from_chars(w)), p + 1),
            other => other,
        },
        _ => Outcome::Fail,
    }
}

/// Reads `{ stmts }` at `p`, see [`block_rule`].
pub fn parse_block(t: &Vec<Token>, p: usize, fuel: u64) -> (r: Outcome<Expr>)
    ensures
        parsed_view(r) == block_rule(toks(t@), p as nat, fuel as nat),
    decreases fuel, 0nat,
{
    if fuel == 0 {
        return Outcome::Deep;
    }
    if !sym_is(t, p, Symbol::LBrace) {
        return Outcome::Fail;
    }
    match parse_stmts(t, p + 1, fuel - 1) {
        Outcome::Done(es, q) => {
            if sym_is(t, q, Symbol::RBrace) {
                Outcome::Done(Expr::Block(es), q + 1)
            } else {
                Outcome::Fail
            }
        },
        Outcome::Fail => Outcome::Fail,
        Outcome::Deep => Outcome::Deep,
    }
}

/// Reads statements separated by `;` at `p`, see [`stmts_rule`].
pub fn parse_stmts(t: &Vec<Token>, p: usize, fuel: u64) -> (r: Outcome<Vec<Expr>>)
    ensures
        list_view(r) == stmts_rule(toks(t@), p as nat, fuel as nat),
    decreases fuel, 0nat,
{
    let mut out: Vec<Expr> = Vec::new();
    let mut q = p;
    let mut g = fuel;
    proof {
        assert(views(out@) =~= Seq::<SExpr>::empty());
        assert(prepend_list(views(out@), stmts_rule(toks(t@), p as nat, fuel as nat)) =~= stmts_rule(
            toks(t@),
            p as nat,
            fuel as nat,
        )) by {
            match stmts_rule(toks(t@), p as nat, fuel as nat) {
                Step::Done(es, r) => {
                    assert(Seq::<SExpr>::empty() + es =~= es);
                },
                _ => {},
            }
        }
    }
    loop
        invariant
            g <= fuel,
            stmts_rule(toks(t@), p as nat, fuel as nat) == prepend_list(
                views(out@),
                stmts_rule(toks(t@), q as nat, g as nat),
            ),
        decreases g,
    {
        if g == 0 {
            return Outcome::Deep;
        }
        let h = g - 1;
        if sym_is(t, q, Symbol::Semi) {
            q = q + 1;
            g = h;
        } else {
            match parse_expr(t, q, h) {
                Outcome::Fail => {
                    assert(views(out@) + Seq::<SExpr>::empty() =~= views(out@));
                    return Outcome::Done(out, q);
                },
                Outcome::Deep => {
                    return Outcome::Deep;
                },
                Outcome::Done(e, r) => {
                    let ghost before = views(out@);
                    let ghost ev = e@;
                    proof {
                        crate::ast::lemma_views_push(out@, e);
                    }
                    out.push(e);
                    if sym_is(t, r, Symbol::Semi) {
                        proof {
                            match stmts_rule(toks(t@), (r + 1) as nat, h as nat) {
                                Step::Done(es, u) => {
                                    assert(before + (seq![ev] + es) =~= before.push(ev) + es);
                                },
                                _ => {},
                            }
                        }
                        q = r + 1;
                        g = h;
                    } else {
                        assert(before + seq![ev] =~= before.push(ev));
                        return Outcome::Done(out, r);
                    }
                },
            }
        }
    }
}

/// Reads a whole program from its tokens, see [`program_rule`]; on failure
/// gives the index of the token that could not be read, or `None` when the
/// program nests too deep.
pub fn parse_program(t: &Vec<Token>) -> (r: Result<Vec<Expr>, Option<usize>>)
    ensures
        match r {
            Ok(es) => program_rule(toks(t@), fuel_for(t@.len())) == Ok::<
                Seq<SExpr>,
                Option<nat>,
            >(views(es@)),
            Err(Some(q)) => program_rule(toks(t@), fuel_for(t@.len())) == Err::<
                Seq<SExpr>,
                Option<nat>,
            >(Some(q as nat)),
            Err(None) => program_rule(toks(t@), fuel_for(t@.len())) == Err::<
                Seq<SExpr>,
                Option<nat>,
            >(None),
        },
{
    let n = t.len();
    let fuel: u64 = if (n as u64) < 1_000_000_000_000 {
        (n as u64 + 1) * 64
    } else {
        0xffff_ffff_ffff_ffff
    };
    match parse_stmts(t, 0, fuel) {
        Outcome::Done(es, q) => {
            if q == n {
                Ok(es)
            } else {
                Err(Some(q))
            }
        },
        Outcome::Fail => Err(Some(0)),
        Outcome::Deep => Err(None),
    }
}

/// Reads FeOx source text into its statements. The outcome is the one that
/// [`parse_spec`] gives: the lexical rules of [`lex_spec`], then the
/// grammar of [`program_rule`].
pub fn parse(source: &str) -> (r: Result<Vec<Expr>, ParseError>)
    ensures
        match r {
            Ok(es) => parse_spec(source@) == Ok::<Seq<SExpr>, ParseError>(views(es@)),
            Err(e) => parse_spec(source@) == Err::<Seq<SExpr>, ParseError>(e),
        },
{
    let chars = str_chars(source);
    match lex(&chars) {
        Err(e) => Err(e),
        Ok((ts, ps)) => {
            proof {
                let ls = lexemes(ts@, ps@);
                assert(tokens_of(ls) =~= toks(ts@));
            }
            match parse_program(&ts) {
                Ok(es) => Ok(es),
                Err(Some(q)) => {
                    let at = if q < ps.len() {
                        ps[q]
                    } else {
                        chars.len()
                    };
                    Err(ParseError::UnexpectedToken(at))
                },
                Err(None) => Err(ParseError::TooDeep),
            }
        },
    }
}

} // verus!
