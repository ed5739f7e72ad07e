use vstd::prelude::*;

use crate::lexer::{
    SToken, digits_end, digits_value, is_digit, lex_spec, max_i64, number_token, skip_trivia,
    token_at,
};
use crate::text::{digit_char, digits_of};

verus! {

/// A digit's character is a digit character, and stands for the digit.
proof fn lemma_digit_char(d: nat)
    requires
        d < 10,
    ensures
        is_digit(digit_char(d)),
        digit_char(d) as u32 - 48 == d,
{
    let b = (d + 48) as u8;
    assert(b == d + 48);
    assert(b as char as u32 == b);
}

/// The way numbers are written out and the way number literals are read
/// agree: the decimal digits of `n` are digit characters, start with a
/// nonzero digit unless `n` is 0, and denote `n`.
pub proof fn law_digits_read_back(n: nat)
    ensures
        digits_value(digits_of(n)) == n,
        forall|i: int| 0 <= i < digits_of(n).len() ==> is_digit(#[trigger] digits_of(n)[i]),
        digits_of(n).len() > 0,
        n > 0 ==> digits_of(n)[0] != '0',
    decreases n,
{
    if n < 10 {
        lemma_digit_char(n);
        assert(digits_of(n) =~= seq![digit_char(n)]);
        assert(seq![digit_char(n)].drop_last() =~= Seq::<char>::empty());
        assert(digits_value(Seq::<char>::empty()) == 0);
        assert(digits_value(seq![digit_char(n)]) == 0 * 10 + (digit_char(n) as u32 - 48));
        if n > 0 {
            assert(digit_char(n) != '0');
        }
    } else {
        law_digits_read_back(n / 10);
        lemma_digit_char(n % 10);
        let s = digits_of(n / 10);
        assert(digits_of(n) == s.push(digit_char(n % 10)));
        assert(s.push(digit_char(n % 10)).drop_last() =~= s);
        assert(digits_value(s.push(digit_char(n % 10))) == digits_value(s) * 10 + (digit_char(
            n % 10,
        ) as u32 - 48));
        assert((n / 10) * 10 + n % 10 == n);
        assert(digits_of(n)[0] == s[0]);
    }
}

proof fn lemma_digits_end(s: Seq<char>, i: nat)
    requires
        i <= s.len(),
        forall|k: int| 0 <= k < s.len() ==> is_digit(#[trigger] s[k]),
    ensures
        digits_end(s, i) == s.len(),
    decreases s.len() - i,
{
    if i < s.len() {
        lemma_digits_end(s, i + 1);
    }
}

/// Reading the decimal digits of a 64-bit number `n >= 0` as source text
/// gives the one token `n`.
pub proof fn law_number_literal_reads_back(n: nat)
    requires
        n <= max_i64(),
    ensures
        lex_spec(digits_of(n), 0) == Ok::<Seq<(SToken, nat)>, crate::lexer::ParseError>(
            seq![(SToken::Int(n as i64), 0nat)],
        ),
{
    let s = digits_of(n);
    law_digits_read_back(n);
    lemma_digits_end(s, 0);
    assert(!crate::lexer::is_space(s[0]));
    assert(skip_trivia(s, 0, false) == 0);
    assert(s.subrange(0, s.len() as int) =~= s);
    assert(number_token(s, 0) == Ok::<(SToken, nat), crate::lexer::ParseError>(
        (SToken::Int(n as i64), s.len()),
    ));
    assert(token_at(s, 0) == number_token(s, 0));
    assert(skip_trivia(s, s.len(), false) == s.len());
    assert(lex_spec(s, s.len()) == Ok::<Seq<(SToken, nat)>, crate::lexer::ParseError>(
        Seq::empty(),
    ));
    assert(seq![(SToken::Int(n as i64), 0nat)] + Seq::<(SToken, nat)>::empty() =~= seq![
        (SToken::Int(n as i64), 0nat),
    ]);
}

/// A number that is not negative is shown (and printed) as its decimal
/// digits, which read back as that number; a negative one as `-` and the
/// digits of its magnitude.
pub proof fn law_shown_number_reads_back(n: i64)
    ensures
        n >= 0 ==> lex_spec(crate::text::display(crate::value::SValue::Number(n)), 0) == Ok::<
            Seq<(SToken, nat)>,
            crate::lexer::ParseError,
        >(seq![(SToken::Int(n), 0nat)]),
        n >= 0 ==> crate::text::print_text(crate::value::SValue::Number(n)) == Some(
            crate::text::display(crate::value::SValue::Number(n)),
        ),
        n < 0 ==> crate::text::display(crate::value::SValue::Number(n)) == seq!['-'] + digits_of(
            (-n) as nat,
        ),
        n < 0 ==> digits_value(digits_of((-n) as nat)) == -n,
{
    if n >= 0 {
        law_number_literal_reads_back(n as nat);
    } else {
        law_digits_read_back((-n) as nat);
    }
}

} // verus!
