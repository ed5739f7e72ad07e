use vstd::prelude::*;
use vstd::std_specs::iter::IteratorSpec;

verus! {

/// Whether `x` is the code of a Unicode scalar value (a `char`).
pub open spec fn is_char_code(x: int) -> bool {
    (0 <= x <= 0xD7FF) || (0xE000 <= x <= 0x10FFFF)
}

/// Calls `char::from_u32`, which std documents as returning the `char` with
/// code `x` when `x` is a Unicode scalar value and `None` otherwise.
#[verifier::external_body]
pub(crate) fn char_from_code(x: u32) -> (r: Option<char>)
    ensures
        r == (if is_char_code(x as int) {
            Some(x as char)
        } else {
            None::<char>
        }),
{
    char::from_u32(x)
}

/// Calls `String::from_iter` on the characters of `v`, which std documents as
/// the string made of those characters in order.
#[verifier::external_body]
pub(crate) fn string_from_chars(v: &Vec<char>) -> (r: String)
    ensures
        r@ == v@,
{
    v.iter().collect()
}

/// The characters of a string, in order.
pub fn string_chars(s: &String) -> (r: Vec<char>)
    ensures
        r@ == s@,
{
    broadcast use vstd::string::group_string_axioms;

    str_chars(s.as_str())
}

/// The characters of a string slice, in order.
pub fn str_chars(st: &str) -> (r: Vec<char>)
    ensures
        r@ == st@,
{
    broadcast use vstd::string::group_string_axioms;

    let ghost s = st@;
    let mut w: Vec<char> = Vec::new();
    let mut it = st.chars();
    loop
        invariant
            it.obeys_prophetic_iter_laws(),
            it.decrease() is Some,
            w@ + it.remaining() == s,
        ensures
            w@ == s,
        decreases it.decrease()->0,
    {
        let ghost before = it.remaining();
        match it.next() {
            Some(c) => {
                w.push(c);
                assert(w@ + it.remaining() =~= s);
            },
            None => {
                assert(w@ =~= s);
                break ;
            },
        }
    }
    w
}

/// Whether the characters `w` spell `word`.
pub fn chars_are(w: &Vec<char>, word: &str) -> (r: bool)
    ensures
        r == (w@ == word@),
{
    let k = str_chars(word);
    if w.len() != k.len() {
        return false;
    }
    let mut i: usize = 0;
    while i < w.len()
        invariant
            i <= w@.len(),
            w@.len() == k@.len(),
            k@ == word@,
            forall|j: int| 0 <= j < i ==> w@[j] == k@[j],
        decreases w@.len() - i,
    {
        if w[i] != k[i] {
            return false;
        }
        i += 1;
    }
    assert(w@ =~= k@);
    true
}

} // verus!
