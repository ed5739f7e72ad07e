use vstd::prelude::*;

verus! {

/// A source region, by line and column.
#[derive(Debug, Clone, Copy)]
pub struct Span {
    pub start_line: usize,
    pub start_col: usize,
    pub end_line: usize,
    pub end_col: usize,
}

/// A node paired with the region it came from.
#[derive(Debug, Clone)]
pub struct Spanned<T> {
    pub node: T,
    pub span: Span,
}

/// The syntax tree of a FeOx expression. Every construct is an expression.
#[derive(Debug, PartialEq)]
pub enum Expr {
    String(String),
    Number(i64),
    Bool(bool),
    Char(char),
    Array(Vec<Expr>),
    Nil,
    Assign { name: String, indices: Vec<Expr>, value: Box<Expr> },
    Declare { name: String, value: Box<Expr> },
    Lambda { args: Vec<String>, body: Box<Expr> },
    Ident(String),
    Block(Vec<Expr>),
    Return(Option<Box<Expr>>),
    If { cond: Box<Expr>, then: Box<Expr>, else_: Option<Box<Expr>> },
    For { var: String, iter: Box<Expr>, body: Box<Expr> },
    While { cond: Box<Expr>, body: Box<Expr> },
    Break,
    Continue,
    Mod { modulus: Box<Expr>, body: Box<Expr> },
    Range { start: Box<Expr>, end: Box<Expr>, inclusive: bool },
    Call { func: Box<Expr>, args: Vec<Expr> },
    BinOp { left: Box<Expr>, right: Box<Expr>, op: BinOp },
    UnaryOp { op: UnaryOp, expr: Box<Expr> },
    Index { object: Box<Expr>, index: Box<Expr> },
    Len(Box<Expr>),
    Input,
    Print(Box<Expr>),
    Push(Box<Expr>, Box<Expr>),
    LogicalOp { left: Box<Expr>, right: Box<Expr>, op: LogicalOp },
}

/// Short-circuiting boolean operators.
#[derive(Clone, Copy, Debug, PartialEq, Eq, Structural)]
pub enum LogicalOp {
    And,
    Or,
}

/// Binary operators that evaluate both operands.
#[derive(Debug, Clone, Copy, PartialEq, Eq, Structural)]
pub enum BinOp {
    // Arithmetic
    Add,
    Sub,
    Mul,
    Div,
    Pow,
    Rem,
    // Comparison
    Eq,
    Neq,
    Gt,
    Ge,
    Lt,
    Le,
    // Bitwise
    And,
    Or,
    Xor,
    Shl,
    Shr,
}

/// Prefix operators.
#[derive(Debug, Clone, Copy, PartialEq, Eq, Structural)]
pub enum UnaryOp {
    Neg,
    Not,
}

/// The mathematical model of an expression: names become character sequences
/// and lists become sequences.
pub enum SExpr {
    String(Seq<char>),
    Number(i64),
    Bool(bool),
    Char(char),
    Array(Seq<SExpr>),
    Nil,
    Assign { name: Seq<char>, indices: Seq<SExpr>, value: Box<SExpr> },
    Declare { name: Seq<char>, value: Box<SExpr> },
    Lambda { args: Seq<Seq<char>>, body: Box<SExpr> },
    Ident(Seq<char>),
    Block(Seq<SExpr>),
    Return(Option<Box<SExpr>>),
    If { cond: Box<SExpr>, then: Box<SExpr>, else_: Option<Box<SExpr>> },
    For { var: Seq<char>, iter: Box<SExpr>, body: Box<SExpr> },
    While { cond: Box<SExpr>, body: Box<SExpr> },
    Break,
    Continue,
    Mod { modulus: Box<SExpr>, body: Box<SExpr> },
    Range { start: Box<SExpr>, end: Box<SExpr>, inclusive: bool },
    Call { func: Box<SExpr>, args: Seq<SExpr> },
    BinOp { left: Box<SExpr>, right: Box<SExpr>, op: BinOp },
    UnaryOp { op: UnaryOp, expr: Box<SExpr> },
    Index { object: Box<SExpr>, index: Box<SExpr> },
    Len(Box<SExpr>),
    Input,
    Print(Box<SExpr>),
    Push(Box<SExpr>, Box<SExpr>),
    LogicalOp { left: Box<SExpr>, right: Box<SExpr>, op: LogicalOp },
}

/// The character sequences of a list of names.
pub open spec fn names_view(names: Seq<String>) -> Seq<Seq<char>> {
    names.map_values(|s: String| s@)
}

impl View for Expr {
    type V = SExpr;

    open spec fn view(&self) -> SExpr
        decreases self,
    {
        match self {
            Expr::String(s) => SExpr::String(s@),
            Expr::Number(n) => SExpr::Number(*n),
            Expr::Bool(b) => SExpr::Bool(*b),
            Expr::Char(c) => SExpr::Char(*c),
            Expr::Array(v) => SExpr::Array(views(v@)),
            Expr::Nil => SExpr::Nil,
            Expr::Assign { name, indices, value } => SExpr::Assign {
                name: name@,
                indices: views(indices@),
                value: Box::new((**value).view()),
            },
            Expr::Declare { name, value } => SExpr::Declare {
                name: name@,
                value: Box::new((**value).view()),
            },
            Expr::Lambda { args, body } => SExpr::Lambda {
                args: names_view(args@),
                body: Box::new((**body).view()),
            },
            Expr::Ident(s) => SExpr::Ident(s@),
            Expr::Block(v) => SExpr::Block(views(v@)),
            Expr::Return(o) => SExpr::Return(
                match o {
                    Some(e) => Some(Box::new((**e).view())),
                    None => None,
                },
            ),
            Expr::If { cond, then, else_ } => SExpr::If {
                cond: Box::new((**cond).view()),
                then: Box::new((**then).view()),
                else_: match else_ {
                    Some(e) => Some(Box::new((**e).view())),
                    None => None,
                },
            },
            Expr::For { var, iter, body } => SExpr::For {
                var: var@,
                iter: Box::new((**iter).view()),
                body: Box::new((**body).view()),
            },
            Expr::While { cond, body } => SExpr::While {
                cond: Box::new((**cond).view()),
                body: Box::new((**body).view()),
            },
            Expr::Break => SExpr::Break,
            Expr::Continue => SExpr::Continue,
            Expr::Mod { modulus, body } => SExpr::Mod {
                modulus: Box::new((**modulus).view()),
                body: Box::new((**body).view()),
            },
            Expr::Range { start, end, inclusive } => SExpr::Range {
                start: Box::new((**start).view()),
                end: Box::new((**end).view()),
                inclusive: *inclusive,
            },
            Expr::Call { func, args } => SExpr::Call {
                func: Box::new((**func).view()),
                args: views(args@),
            },
            Expr::BinOp { left, right, op } => SExpr::BinOp {
                left: Box::new((**left).view()),
                right: Box::new((**right).view()),
                op: *op,
            },
            Expr::UnaryOp { op, expr } => SExpr::UnaryOp {
                op: *op,
                expr: Box::new((**expr).view()),
            },
            Expr::Index { object, index } => SExpr::Index {
                object: Box::new((**object).view()),
                index: Box::new((**index).view()),
            },
            Expr::Len(e) => SExpr::Len(Box::new((**e).view())),
            Expr::Input => SExpr::Input,
            Expr::Print(e) => SExpr::Print(Box::new((**e).view())),
            Expr::Push(a, b) => SExpr::Push(Box::new((**a).view()), Box::new((**b).view())),
            Expr::LogicalOp { left, right, op } => SExpr::LogicalOp {
                left: Box::new((**left).view()),
                right: Box::new((**right).view()),
                op: *op,
            },
        }
    }
}

/// The model of an optional boxed expression.
pub open spec fn opt_expr_view(o: Option<Box<Expr>>) -> Option<Box<SExpr>> {
    match o {
        Some(e) => Some(Box::new((*e).view())),
        None => None,
    }
}

/// The models of a list of expressions, in order.
pub open spec fn views(s: Seq<Expr>) -> Seq<SExpr>
    decreases s,
{
    if s.len() == 0 {
        Seq::empty()
    } else {
        views(s.drop_last()).push(s.last().view())
    }
}

pub proof fn lemma_views_len(s: Seq<Expr>)
    ensures
        views(s).len() == s.len(),
    decreases s.len(),
{
    if s.len() > 0 {
        lemma_views_len(s.drop_last());
        assert(views(s) == views(s.drop_last()).push(s.last().view()));
    } else {
        assert(views(s) == Seq::<SExpr>::empty());
    }
}

pub proof fn lemma_views_index(s: Seq<Expr>, i: int)
    requires
        0 <= i < s.len(),
    ensures
        views(s).len() == s.len(),
        views(s)[i] == s[i]@,
    decreases s.len(),
{
    lemma_views_len(s);
    assert(views(s) == views(s.drop_last()).push(s.last().view()));
    if i < s.len() - 1 {
        lemma_views_index(s.drop_last(), i);
    }
}

pub proof fn lemma_views_push(s: Seq<Expr>, e: Expr)
    ensures
        views(s.push(e)) == views(s).push(e@),
{
    assert(s.push(e).drop_last() =~= s);
    assert(views(s.push(e)) == views(s.push(e).drop_last()).push(s.push(e).last().view()));
}

pub proof fn lemma_views_concat(a: Seq<Expr>, b: Seq<Expr>)
    ensures
        views(a + b) == views(a) + views(b),
    decreases b.len(),
{
    if b.len() == 0 {
        assert(a + b =~= a);
        assert(views(b) =~= Seq::<SExpr>::empty());
        assert(views(a) + views(b) =~= views(a));
    } else {
        lemma_views_concat(a, b.drop_last());
        assert(a + b =~= (a + b.drop_last()).push(b.last()));
        lemma_views_push(a + b.drop_last(), b.last());
        assert(b =~= b.drop_last().push(b.last()));
        lemma_views_push(b.drop_last(), b.last());
        assert(views(a + b) =~= views(a) + views(b));
    }
}

/// A copy of an expression with the same model.
pub fn clone_expr(e: &Expr) -> (r: Expr)
    ensures
        r@ == e@,
    decreases e,
{
    match e {
        Expr::String(s) => Expr::String(s.clone()),
        Expr::Number(n) => Expr::Number(*n),
        Expr::Bool(b) => Expr::Bool(*b),
        Expr::Char(c) => Expr::Char(*c),
        Expr::Array(v) => Expr::Array(clone_exprs(v)),
        Expr::Nil => Expr::Nil,
        Expr::Assign { name, indices, value } => Expr::Assign {
            name: name.clone(),
            indices: clone_exprs(indices),
            value: Box::new(clone_expr(value)),
        },
        Expr::Declare { name, value } => Expr::Declare {
            name: name.clone(),
            value: Box::new(clone_expr(value)),
        },
        Expr::Lambda { args, body } => Expr::Lambda {
            args: crate::value::clone_names(args),
            body: Box::new(clone_expr(body)),
        },
        Expr::Ident(s) => Expr::Ident(s.clone()),
        Expr::Block(v) => Expr::Block(clone_exprs(v)),
        Expr::Return(o) => Expr::Return(
            match o {
                Some(x) => Some(Box::new(clone_expr(x))),
                None => None,
            },
        ),
        Expr::If { cond, then, else_ } => Expr::If {
            cond: Box::new(clone_expr(cond)),
            then: Box::new(clone_expr(then)),
            else_: match else_ {
                Some(x) => Some(Box::new(clone_expr(x))),
                None => None,
            },
        },
        Expr::For { var, iter, body } => Expr::For {
            var: var.clone(),
            iter: Box::new(clone_expr(iter)),
            body: Box::new(clone_expr(body)),
        },
        Expr::While { cond, body } => Expr::While {
            cond: Box::new(clone_expr(cond)),
            body: Box::new(clone_expr(body)),
        },
        Expr::Break => Expr::Break,
        Expr::Continue => Expr::Continue,
        Expr::Mod { modulus, body } => Expr::Mod {
            modulus: Box::new(clone_expr(modulus)),
            body: Box::new(clone_expr(body)),
        },
        Expr::Range { start, end, inclusive } => Expr::Range {
            start: Box::new(clone_expr(start)),
            end: Box::new(clone_expr(end)),
            inclusive: *inclusive,
        },
        Expr::Call { func, args } => Expr::Call {
            func: Box::new(clone_expr(func)),
            args: clone_exprs(args),
        },
        Expr::BinOp { left, right, op } => Expr::BinOp {
            left: Box::new(clone_expr(left)),
            right: Box::new(clone_expr(right)),
            op: *op,
        },
        Expr::UnaryOp { op, expr } => Expr::UnaryOp { op: *op, expr: Box::new(clone_expr(expr)) },
        Expr::Index { object, index } => Expr::Index {
            object: Box::new(clone_expr(object)),
            index: Box::new(clone_expr(index)),
        },
        Expr::Len(x) => Expr::Len(Box::new(clone_expr(x))),
        Expr::Input => Expr::Input,
        Expr::Print(x) => Expr::Print(Box::new(clone_expr(x))),
        Expr::Push(a, b) => Expr::Push(Box::new(clone_expr(a)), Box::new(clone_expr(b))),
        Expr::LogicalOp { left, right, op } => Expr::LogicalOp {
            left: Box::new(clone_expr(left)),
            right: Box::new(clone_expr(right)),
            op: *op,
        },
    }
}

/// Copies a list of expressions.
pub fn clone_exprs(a: &Vec<Expr>) -> (r: Vec<Expr>)
    ensures
        views(r@) == views(a@),
    decreases a,
{
    let mut r: Vec<Expr> = Vec::new();
    let mut i: usize = 0;
    while i < a.len()
        invariant
            i <= a.len(),
            views(r@) == views(a@.take(i as int)),
        decreases a.len() - i,
    {
        let c = clone_expr(&a[i]);
        proof {
            assert(a@.take(i + 1).drop_last() =~= a@.take(i as int));
            assert(a@.take(i + 1).last() == a@[i as int]);
            lemma_views_push(r@, c);
            lemma_views_push(a@.take(i as int), a@[i as int]);
            assert(a@.take(i as int).push(a@[i as int]) =~= a@.take(i + 1));
        }
        r.push(c);
        i += 1;
    }
    assert(a@.take(a.len() as int) =~= a@);
    r
}

} // verus!
