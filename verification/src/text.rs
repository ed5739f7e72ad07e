use vstd::prelude::*;

use crate::chars::string_from_chars;
use crate::value::{SValue, Value, lemma_value_views, value_views};

verus! {

/// The character of a decimal digit.
pub open spec fn digit_char(d: nat) -> char {
    ((d + 48) as u8) as char
}

/// The decimal digits of `n`, most significant first, without leading zeros.
pub open spec fn digits_of(n: nat) -> Seq<char>
    decreases n,
{
    if n < 10 {
        seq![digit_char(n)]
    } else {
        digits_of(n / 10).push(digit_char(n % 10))
    }
}

/// `n` written in decimal, with a leading `-` when negative.
pub open spec fn decimal(n: int) -> Seq<char> {
    if n < 0 {
        seq!['-'] + digits_of((-n) as nat)
    } else {
        digits_of(n as nat)
    }
}

/// Appends the decimal digits of `n`.
fn push_digits(n: u64, out: &mut Vec<char>)
    ensures
        final(out)@ == old(out)@ + digits_of(n as nat),
    decreases n,
{
    if n >= 10 {
        push_digits(n / 10, out);
    }
    let d = (n % 10) as u8;
    out.push((d + 48) as char);
    proof {
        if n >= 10 {
            assert(old(out)@ + digits_of(n as nat) =~= old(out)@ + digits_of((n / 10) as nat) + seq![
                digit_char((n % 10) as nat),
            ]);
        }
    }
}

/// Appends `n` in decimal.
pub fn push_decimal(n: i64, out: &mut Vec<char>)
    ensures
        final(out)@ == old(out)@ + decimal(n as int),
{
    if n < 0 {
        out.push('-');
        let m: u64 = (0i128 - n as i128) as u64;
        push_digits(m, out);
        assert(final(out)@ =~= old(out)@ + decimal(n as int));
    } else {
        push_digits(n as u64, out);
    }
}

/// Appends a count in decimal.
pub fn push_count(n: usize, out: &mut Vec<char>)
    ensures
        final(out)@ == old(out)@ + digits_of(n as nat),
{
    push_digits(n as u64, out);
}

/// Every element is a character.
pub open spec fn all_chars(a: Seq<SValue>) -> bool {
    forall|i: int| 0 <= i < a.len() ==> #[trigger] a[i] is Char
}

/// The characters of an array of characters.
pub open spec fn chars_of(a: Seq<SValue>) -> Seq<char> {
    a.map_values(|v: SValue| v->Char_0)
}

/// How a value is shown: numbers in decimal, an array of characters (a
/// string) in double quotes, other arrays as `[a, b]`, `nil`, `<lambda>`,
/// `<builtin>`, and a character as itself.
pub open spec fn display(v: SValue) -> Seq<char>
    decreases v, 1nat,
{
    match v {
        SValue::Number(n) => decimal(n as int),
        SValue::Array(a) => if all_chars(a) {
            seq!['"'] + chars_of(a) + seq!['"']
        } else {
            seq!['['] + join_display(a, seq![',', ' ']) + seq![']']
        },
        SValue::Char(c) => seq![c],
        SValue::Lambda { .. } => seq!['<', 'l', 'a', 'm', 'b', 'd', 'a', '>'],
        SValue::BuiltinFn(_) => seq!['<', 'b', 'u', 'i', 'l', 't', 'i', 'n', '>'],
        SValue::Nil => seq!['n', 'i', 'l'],
    }
}

/// The shown values of `a`, separated by `sep`.
pub open spec fn join_display(a: Seq<SValue>, sep: Seq<char>) -> Seq<char>
    decreases a, 0nat,
{
    if a.len() == 0 {
        Seq::empty()
    } else if a.len() == 1 {
        display(a[0])
    } else {
        join_display(a.drop_last(), sep) + sep + display(a.last())
    }
}

/// What `print` writes for a value: like [`display`], except that a string is
/// written without quotes and the elements of another array are separated by
/// single spaces. Lambdas and builtins cannot be printed.
pub open spec fn print_text(v: SValue) -> Option<Seq<char>> {
    match v {
        SValue::Number(n) => Some(decimal(n as int)),
        SValue::Array(a) => if all_chars(a) {
            Some(chars_of(a))
        } else {
            Some(join_display(a, seq![' ']))
        },
        SValue::Nil => Some(seq!['n', 'i', 'l']),
        SValue::Char(c) => Some(seq![c]),
        _ => None,
    }
}

fn push_str_chars(out: &mut Vec<char>, s: &Vec<char>)
    ensures
        final(out)@ == old(out)@ + s@,
{
    let mut i: usize = 0;
    while i < s.len()
        invariant
            i <= s.len(),
            out@ == old(out)@ + s@.take(i as int),
        decreases s.len() - i,
    {
        out.push(s[i]);
        i += 1;
        assert(out@ =~= old(out)@ + s@.take(i as int));
    }
    assert(s@.take(s.len() as int) =~= s@);
}

/// Whether every element is a character.
fn is_string(a: &Vec<Value>) -> (r: bool)
    ensures
        r == all_chars(value_views(a@)),
{
    proof {
        lemma_value_views(a@);
    }
    let mut i: usize = 0;
    while i < a.len()
        invariant
            i <= a.len(),
            value_views(a@).len() == a@.len(),
            forall|j: int| 0 <= j < i ==> #[trigger] value_views(a@)[j] is Char,
        decreases a.len() - i,
    {
        proof {
            lemma_value_views(a@);
        }
        assert(value_views(a@)[i as int] == a@[i as int]@);
        match &a[i] {
            Value::Char(_) => {},
            _ => {
                assert(!(value_views(a@)[i as int] is Char));
                return false;
            },
        }
        i += 1;
    }
    true
}

/// Appends the characters of an array of characters.
fn push_chars_of(a: &Vec<Value>, out: &mut Vec<char>)
    requires
        all_chars(value_views(a@)),
    ensures
        final(out)@ == old(out)@ + chars_of(value_views(a@)),
{
    proof {
        lemma_value_views(a@);
    }
    let mut i: usize = 0;
    while i < a.len()
        invariant
            i <= a.len(),
            value_views(a@).len() == a@.len(),
            all_chars(value_views(a@)),
            out@ == old(out)@ + chars_of(value_views(a@).take(i as int)),
        decreases a.len() - i,
    {
        assert(value_views(a@)[i as int] is Char);
        proof {
            lemma_value_views(a@);
        }
        assert(value_views(a@)[i as int] == a@[i as int]@);
        match &a[i] {
            Value::Char(c) => {
                out.push(*c);
            },
            _ => {},
        }
        i += 1;
        assert(chars_of(value_views(a@).take(i as int)) =~= chars_of(value_views(a@).take(i - 1))
            .push(value_views(a@)[i - 1]->Char_0));
    }
    assert(value_views(a@).take(a.len() as int) =~= value_views(a@));
}

/// Appends the shown values of `a` separated by `sep`.
fn push_join(a: &Vec<Value>, sep: &Vec<char>, out: &mut Vec<char>)
    ensures
        final(out)@ == old(out)@ + join_display(value_views(a@), sep@),
    decreases a, 0nat,
{
    proof {
        lemma_value_views(a@);
    }
    let mut i: usize = 0;
    while i < a.len()
        invariant
            i <= a.len(),
            value_views(a@).len() == a@.len(),
            out@ == old(out)@ + join_display(value_views(a@).take(i as int), sep@),
        decreases a.len() - i,
    {
        if i > 0 {
            push_str_chars(out, sep);
        }
        push_display(&a[i], out);
        proof {
            lemma_value_views(a@);
        }
        assert(value_views(a@)[i as int] == a@[i as int]@);
        i += 1;
        proof {
            let t = value_views(a@).take(i as int);
            assert(t.drop_last() =~= value_views(a@).take(i - 1));
            assert(t.last() == a@[i - 1]@);
            if i == 1 {
                assert(value_views(a@).take(0) =~= Seq::<SValue>::empty());
                assert(join_display(t, sep@) == display(t[0]));
            } else {
                assert(join_display(t, sep@) == join_display(t.drop_last(), sep@) + sep@ + display(
                    t.last(),
                ));
            }
        }
        assert(out@ =~= old(out)@ + join_display(value_views(a@).take(i as int), sep@));
    }
    assert(value_views(a@).take(a.len() as int) =~= value_views(a@));
}

/// Appends how `v` is shown.
pub fn push_display(v: &Value, out: &mut Vec<char>)
    ensures
        final(out)@ == old(out)@ + display(v@),
    decreases v, 1nat,
{
    match v {
        Value::Number(n) => push_decimal(*n, out),
        Value::Array(a) => {
            if is_string(a) {
                out.push('"');
                push_chars_of(a, out);
                out.push('"');
            } else {
                out.push('[');
                let sep = vec![',', ' '];
                push_join(a, &sep, out);
                out.push(']');
            }
            assert(final(out)@ =~= old(out)@ + display(v@));
        },
        Value::Char(c) => {
            out.push(*c);
        },
        Value::Lambda { .. } => {
            let t = vec!['<', 'l', 'a', 'm', 'b', 'd', 'a', '>'];
            push_str_chars(out, &t);
        },
        Value::BuiltinFn(_) => {
            let t = vec!['<', 'b', 'u', 'i', 'l', 't', 'i', 'n', '>'];
            push_str_chars(out, &t);
        },
        Value::Nil => {
            let t = vec!['n', 'i', 'l'];
            push_str_chars(out, &t);
        },
    }
}

/// Appends what `print` writes for `v`; `false`, with nothing appended, when
/// `v` cannot be printed.
pub fn push_print_text(v: &Value, out: &mut Vec<char>) -> (r: bool)
    ensures
        r == print_text(v@) is Some,
        print_text(v@) matches Some(t) ==> final(out)@ == old(out)@ + t,
        !r ==> final(out)@ == old(out)@,
{
    match v {
        Value::Number(n) => {
            push_decimal(*n, out);
            assert(print_text(v@) == Some(decimal(*n as int)));
            true
        },
        Value::Array(a) => {
            if is_string(a) {
                push_chars_of(a, out);
            } else {
                let sep = vec![' '];
                push_join(a, &sep, out);
                assert(sep@ =~= seq![' ']);
            }
            true
        },
        Value::Char(c) => {
            out.push(*c);
            assert(out@ =~= old(out)@ + seq![*c]);
            true
        },
        Value::Nil => {
            let t = vec!['n', 'i', 'l'];
            push_str_chars(out, &t);
            assert(t@ =~= seq!['n', 'i', 'l']);
            true
        },
        _ => false,
    }
}

impl Value {
    /// How this value is shown, see [`display`].
    pub fn display(&self) -> (r: String)
        ensures
            r@ == display(self@),
    {
        let mut out: Vec<char> = Vec::new();
        push_display(self, &mut out);
        assert(out@ =~= display(self@));
        string_from_chars(&out)
    }
}

} // verus!
