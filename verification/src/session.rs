use vstd::prelude::*;

use crate::ast::{Expr, SExpr};
use crate::env::{Store, chain_lookup};
use crate::eval::eval;
use crate::grammar::parse_spec;
use crate::lexer::ParseError;
use crate::parser::parse;
use crate::semantics::eval_spec;
use crate::value::{Builtin, EvalError, SError, SResult, SValue, Value};

verus! {

/// The standard library, written in FeOx: iterators are lambdas without
/// parameters that give the next value on each call and `nil` when they are
/// exhausted. `range(a, b)` counts from `a` up to but without `b`; the range
/// expressions `a..b` and `a..=b` call it.
pub const STDLIB: &'static str = "
let range = |start, end| {
    let i = start;
    || { if i >= end { nil } else { let v = i; i = i + 1; v } }
};
let into_iter = |arr| {
    let i = 0;
    || { if i >= len(arr) { nil } else { let v = arr[i]; i = i + 1; v } }
};
let map = |it, f| || { let v = it(); if v == nil { nil } else { f(v) } };
let filter = |it, f| || {
    let v = it();
    while v != nil && !f(v) { v = it(); };
    v
};
let take = |it, n| {
    let k = 0;
    || { if k >= n { nil } else { k = k + 1; it() } }
};
let skip = |it, n| {
    let done = false;
    || {
        if !done { let k = 0; while k < n { it(); k = k + 1; }; done = true; };
        it()
    }
};
let enumerate = |it| {
    let k = 0;
    || { let v = it(); if v == nil { nil } else { let r = [k, v]; k = k + 1; r } }
};
let windows = |it, n| {
    let buf = [];
    || {
        let ok = true;
        while ok && len(buf) < n {
            let v = it();
            if v == nil { ok = false } else { buf = buf + [v] };
        };
        if !ok { nil } else {
            let w = buf;
            let rest = [];
            let j = 1;
            while j < len(buf) { rest = rest + [buf[j]]; j = j + 1; };
            buf = rest;
            w
        }
    }
};
let flatten = |it| {
    let cur = nil;
    || {
        let out = nil;
        let going = true;
        while going {
            if cur == nil {
                cur = it();
                if cur == nil { going = false };
            } else {
                let v = cur();
                if v == nil { cur = nil } else { out = v; going = false };
            };
        };
        out
    }
};
let zip = |a, b| || {
    let x = a();
    let y = b();
    if x == nil || y == nil { nil } else { [x, y] }
};
let chain = |a, b| {
    let first = true;
    || {
        if first { let v = a(); if v != nil { return v }; first = false; };
        b()
    }
};
let first = |it| it();
let collect = |it| {
    let result = [];
    while true {
        let v = it();
        if v == nil { break };
        push(result, v);
    };
    result
};
let sum = |it| {
    let total = 0;
    let v = it();
    while v != nil { total = total + v; v = it(); };
    total
};
let fold = |it, f, init| {
    let acc = init;
    let v = it();
    while v != nil { acc = f(acc, v); v = it(); };
    acc
};
let any = |it| {
    let found = false;
    let v = it();
    while v != nil { if v { found = true }; v = it(); };
    found
};
let all = |it| {
    let ok = true;
    let v = it();
    while v != nil { if v { } else { ok = false }; v = it(); };
    ok
};
let max = |it| {
    let best = it();
    let v = it();
    while v != nil { if v > best { best = v }; v = it(); };
    best
};
let min = |it| {
    let best = it();
    let v = it();
    while v != nil { if v < best { best = v }; v = it(); };
    best
};
";

/// Why running a piece of source failed.
#[derive(Debug)]
pub enum RunError {
    Parse(ParseError),
    Eval(EvalError),
}

/// The model of the outcome of running a piece of source.
pub enum SRun {
    Parse(ParseError),
    Eval(SError),
}

/// The model of the outcome of running a piece of source.
pub open spec fn run_view(r: Result<Value, RunError>) -> Result<SValue, SRun> {
    match r {
        Ok(v) => Ok(v@),
        Err(RunError::Parse(e)) => Err(SRun::Parse(e)),
        Err(RunError::Eval(e)) => Err(SRun::Eval(e@)),
    }
}

/// What running a block of statements gives, as a run outcome.
pub open spec fn run_result(r: SResult) -> Result<SValue, SRun> {
    match r {
        Ok(v) => Ok(v),
        Err(e) => Err(SRun::Eval(e)),
    }
}

/// The builtin bound to `name` in the global scope of a new session.
pub open spec fn builtin_named(name: Seq<char>) -> Option<Builtin> {
    if name == "push"@ {
        Some(Builtin::Push)
    } else if name == "print"@ {
        Some(Builtin::Print)
    } else if name == "input"@ {
        Some(Builtin::Input)
    } else if name == "len"@ {
        Some(Builtin::Len)
    } else {
        None
    }
}

/// A store whose global scope (reference 0) binds the builtins `push`,
/// `print`, `input` and `len`, and nothing else.
pub fn new_session() -> (r: Store)
    ensures
        r.wf(),
        r@.frames.len() == 1,
        r@.frames[0].parent is None,
        r@.frames[0].modulus == Seq::<i64>::empty(),
        forall|name: Seq<char>|
            #[trigger] chain_lookup(r@.frames, 0, name) == match builtin_named(name) {
                Some(b) => Some(SValue::BuiltinFn(b)),
                None => None::<SValue>,
            },
        r@.input == Seq::<u8>::empty(),
        r@.pos == 0,
        r@.output == Seq::<char>::empty(),
{
    broadcast use vstd::string::group_string_axioms;

    let mut store = Store::new();
    proof {
        reveal_strlit("push");
        reveal_strlit("print");
        reveal_strlit("input");
        reveal_strlit("len");
        assert("push"@.len() == 4 && "print"@.len() == 5 && "input"@.len() == 5);
        assert("len"@.len() == 3 && "print"@[0] == 'p' && "input"@[0] == 'i');
    }
    let push_name = "push".to_string();
    let print_name = "print".to_string();
    let input_name = "input".to_string();
    let len_name = "len".to_string();
    assert(push_name@ == "push"@ && print_name@ == "print"@);
    assert(input_name@ == "input"@ && len_name@ == "len"@);
    store.declare(0, push_name, Value::BuiltinFn(Builtin::Push));
    store.declare(0, print_name, Value::BuiltinFn(Builtin::Print));
    store.declare(0, input_name, Value::BuiltinFn(Builtin::Input));
    store.declare(0, len_name, Value::BuiltinFn(Builtin::Len));
    proof {
        assert forall|name: Seq<char>|
            #[trigger] chain_lookup(store@.frames, 0, name) == match builtin_named(name) {
                Some(b) => Some(SValue::BuiltinFn(b)),
                None => None::<SValue>,
            } by {
            if name == "push"@ {
            } else if name == "print"@ {
            } else if name == "input"@ {
            } else if name == "len"@ {
            } else {
                assert(!store@.frames[0].vars.contains_key(name));
            }
        }
    }
    store
}

/// Reads `source` and runs its statements as one block in the global scope,
/// allowing `fuel` nested evaluation steps. A source that cannot be read
/// leaves the store as it was.
pub fn run(source: &str, store: &mut Store, fuel: u64) -> (r: Result<Value, RunError>)
    requires
        old(store).wf(),
        old(store)@.frames.len() > 0,
    ensures
        final(store).wf(),
        final(store)@.frames.len() > 0,
        match parse_spec(source@) {
            Err(e) => run_view(r) == Err::<SValue, SRun>(SRun::Parse(e)) && final(store)@ == old(
                store,
            )@,
            Ok(es) => (run_view(r), final(store)@) == ({
                let (o, s2) = eval_spec(SExpr::Block(es), 0, old(store)@, fuel as nat);
                (run_result(o), s2)
            }),
        },
{
    match parse(source) {
        Err(e) => Err(RunError::Parse(e)),
        Ok(es) => {
            let program = Expr::Block(es);
            match eval(&program, 0, store, fuel) {
                Ok(v) => Ok(v),
                Err(e) => Err(RunError::Eval(e)),
            }
        },
    }
}

} // verus!
