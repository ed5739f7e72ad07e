use vstd::prelude::*;

use crate::chars::string_from_chars;
use crate::env::{SStore, Store, after_read, after_write, read_word};
use crate::text::{digits_of, print_text, push_count, push_print_text};
use crate::value::{
    Builtin, EvalError, string_value, word_value, EvalResult, SError, SResult, SValue, Value, lemma_value_views, result_view,
    value_views,
};

verus! {

/// The message of a call with the wrong number of arguments:
/// `expected <a> got <b>`.
pub open spec fn expected_got(a: nat, b: nat) -> Seq<char> {
    seq!['e', 'x', 'p', 'e', 'c', 't', 'e', 'd', ' '] + digits_of(a) + seq![' ', 'g', 'o', 't', ' ']
        + digits_of(b)
}

/// Builds the message `expected <a> got <b>`.
pub fn expected_got_message(a: usize, b: usize) -> (r: String)
    ensures
        r@ == expected_got(a as nat, b as nat),
{
    let mut out: Vec<char> = Vec::new();
    out.push('e');
    out.push('x');
    out.push('p');
    out.push('e');
    out.push('c');
    out.push('t');
    out.push('e');
    out.push('d');
    out.push(' ');
    push_count(a, &mut out);
    out.push(' ');
    out.push('g');
    out.push('o');
    out.push('t');
    out.push(' ');
    push_count(b, &mut out);
    assert(out@ =~= expected_got(a as nat, b as nat));
    string_from_chars(&out)
}

/// `len(a)`: the number of elements of the array `a`.
pub open spec fn len_spec(args: Seq<SValue>) -> SResult {
    if args.len() != 1 {
        Err(SError::WrongNumberOfArgs(expected_got(1, args.len())))
    } else {
        match args[0] {
            SValue::Array(a) => Ok(SValue::Number(a.len() as i64)),
            _ => Err(SError::TypeError("argument of len has to be an array"@)),
        }
    }
}

/// `push(a, v)`: adds `v` at the end of the array `a` (see [`pushed`]) and
/// gives `nil`.
pub open spec fn push_spec(args: Seq<SValue>) -> SResult {
    if args.len() != 2 {
        Err(SError::WrongNumberOfArgs(expected_got(1, args.len())))
    } else {
        match args[0] {
            SValue::Array(_) => Ok(SValue::Nil),
            _ => Err(SError::TypeError("can only push to arrays"@)),
        }
    }
}

/// What `push(a, v)` leaves in place of the array `a`: `a` with `v` added at
/// the end.
pub open spec fn pushed(args: Seq<SValue>) -> SValue {
    match args[0] {
        SValue::Array(a) => SValue::Array(a.push(args[1])),
        other => other,
    }
}

/// `print(v)`: writes `v` (see [`print_text`]) and gives `nil`.
pub open spec fn print_spec(args: Seq<SValue>, s: SStore) -> (SResult, SStore) {
    if args.len() != 1 {
        (Err(SError::WrongNumberOfArgs(expected_got(1, args.len()))), s)
    } else {
        match print_text(args[0]) {
            Some(t) => (Ok(SValue::Nil), after_write(s, t)),
            None => (Err(SError::TypeError("can't print that type"@)), s),
        }
    }
}

/// `input()`: the next word of input as a string; its arguments are ignored.
pub open spec fn input_spec(s: SStore) -> (SResult, SStore) {
    (Ok(string_value(read_word(s.input, s.pos, Seq::empty()).0)), after_read(s))
}

/// Applies a builtin to evaluated arguments.
pub open spec fn builtin_spec(b: Builtin, args: Seq<SValue>, s: SStore) -> (SResult, SStore) {
    match b {
        Builtin::Len => (len_spec(args), s),
        Builtin::Push => (push_spec(args), s),
        Builtin::Print => print_spec(args, s),
        Builtin::Input => input_spec(s),
    }
}

/// The number of elements of an array, see [`len_spec`].
pub fn len(args: Vec<Value>) -> (r: EvalResult)
    ensures
        result_view(r) == len_spec(value_views(args@)),
{
    proof {
        lemma_value_views(args@);
    }
    if args.len() != 1 {
        return Err(EvalError::WrongNumberOfArgs(expected_got_message(1, args.len())));
    }
    match &args[0] {
        Value::Array(a) => {
            proof {
                lemma_value_views(a@);
            }
            Ok(Value::Number(a.len() as i64))
        },
        _ => Err(EvalError::TypeError("argument of len has to be an array")),
    }
}

/// `push(a, v)` on the arguments `args`: the array in `args[0]` gets `v`
/// at its end, in place; see [`push_spec`].
pub fn push(args: &mut Vec<Value>) -> (r: EvalResult)
    ensures
        result_view(r) == push_spec(value_views(old(args)@)),
        r is Ok ==> value_views(final(args)@) == value_views(old(args)@).update(
            0,
            pushed(value_views(old(args)@)),
        ),
        r is Err ==> value_views(final(args)@) == value_views(old(args)@),
{
    proof {
        lemma_value_views(args@);
    }
    if args.len() != 2 {
        return Err(EvalError::WrongNumberOfArgs(expected_got_message(1, args.len())));
    }
    let ghost a0 = args@;
    let val = args.pop().unwrap();
    let obj = args.pop().unwrap();
    assert(obj == a0[0] && val == a0[1]);
    match obj {
        Value::Array(mut a) => {
            let ghost old_a = a@;
            a.push(val.deep_clone());
            proof {
                lemma_value_views(a@);
                lemma_value_views(old_a);
                assert(value_views(a@) =~= value_views(old_a).push(val@));
            }
            args.push(Value::Array(a));
            args.push(val);
            proof {
                lemma_value_views(args@);
                lemma_value_views(a0);
                assert(value_views(args@) =~= value_views(a0).update(0, pushed(value_views(a0))));
            }
            Ok(Value::Nil)
        },
        other => {
            args.push(other);
            args.push(val);
            proof {
                lemma_value_views(args@);
                lemma_value_views(a0);
                assert(args@ =~= a0);
            }
            Err(EvalError::TypeError("can only push to arrays"))
        },
    }
}

/// Writes a value to the program's output, see [`print_spec`].
pub fn print(args: Vec<Value>, store: &mut Store) -> (r: EvalResult)
    requires
        old(store).wf(),
    ensures
        final(store).wf(),
        (result_view(r), final(store)@) == print_spec(value_views(args@), old(store)@),
{
    proof {
        lemma_value_views(args@);
    }
    if args.len() != 1 {
        return Err(EvalError::WrongNumberOfArgs(expected_got_message(1, args.len())));
    }
    let mut out: Vec<char> = Vec::new();
    if push_print_text(&args[0], &mut out) {
        assert(out@ =~= print_text(args@[0]@)->Some_0);
        store.write(&out);
        Ok(Value::Nil)
    } else {
        Err(EvalError::TypeError("can't print that type"))
    }
}

/// Reads a word of the program's input, see [`input_spec`].
pub fn input(args: Vec<Value>, store: &mut Store) -> (r: EvalResult)
    requires
        old(store).wf(),
    ensures
        final(store).wf(),
        (result_view(r), final(store)@) == input_spec(old(store)@),
{
    let w = store.read_word();
    Ok(word_value(&w))
}

/// Applies a builtin, see [`builtin_spec`].
pub fn apply_builtin(b: Builtin, args: Vec<Value>, store: &mut Store) -> (r: EvalResult)
    requires
        old(store).wf(),
    ensures
        final(store).wf(),
        (result_view(r), final(store)@) == builtin_spec(b, value_views(args@), old(store)@),
{
    match b {
        Builtin::Len => len(args),
        Builtin::Push => {
            let mut args = args;
            push(&mut args)
        },
        Builtin::Print => print(args, store),
        Builtin::Input => input(args, store),
    }
}

} // verus!
