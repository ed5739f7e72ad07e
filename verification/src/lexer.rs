use vstd::prelude::*;

use crate::chars::chars_are;

verus! {

/// Words that cannot be used as names.
#[derive(Debug, Clone, Copy, PartialEq, Eq, Structural)]
pub enum Keyword {
    Let,
    If,
    Else,
    While,
    For,
    In,
    Mod,
    Return,
    Break,
    Continue,
    True,
    False,
    Nil,
}

/// Operators and punctuation.
#[derive(Debug, Clone, Copy, PartialEq, Eq, Structural)]
pub enum Symbol {
    LParen,
    RParen,
    LBracket,
    RBracket,
    LBrace,
    RBrace,
    Comma,
    Semi,
    Dot,
    DotDot,
    DotDotEq,
    Plus,
    Minus,
    Star,
    StarStar,
    Slash,
    Percent,
    Amp,
    AmpAmp,
    Pipe,
    PipePipe,
    Caret,
    Bang,
    BangEq,
    Eq,
    EqEq,
    Lt,
    Le,
    Shl,
    Gt,
    Ge,
    Shr,
}

/// A token of FeOx source.
#[derive(Debug)]
pub enum Token {
    Int(i64),
    Str(Vec<char>),
    Char(char),
    Ident(Vec<char>),
    Kw(Keyword),
    Sym(Symbol),
}

/// The model of a token.
pub enum SToken {
    Int(i64),
    Str(Seq<char>),
    Char(char),
    Ident(Seq<char>),
    Kw(Keyword),
    Sym(Symbol),
}

impl View for Token {
    type V = SToken;

    open spec fn view(&self) -> SToken {
        match self {
            Token::Int(n) => SToken::Int(*n),
            Token::Str(s) => SToken::Str(s@),
            Token::Char(c) => SToken::Char(*c),
            Token::Ident(w) => SToken::Ident(w@),
            Token::Kw(k) => SToken::Kw(*k),
            Token::Sym(s) => SToken::Sym(*s),
        }
    }
}

/// Why a source text could not be read as a program. Each position is the
/// index of a character of the source.
#[derive(Debug, Clone, Copy, PartialEq, Eq, Structural)]
pub enum ParseError {
    /// No token starts with the character here.
    UnexpectedChar(usize),
    /// The string literal that starts here has no closing quote.
    UnterminatedString(usize),
    /// The backslash here starts no escape that string literals know.
    BadEscape(usize),
    /// The character literal that starts here is malformed.
    BadChar(usize),
    /// The number literal that starts here does not fit in 64 bits.
    NumberTooLarge(usize),
    /// The token that starts here (or the end of the source) cannot continue
    /// the program.
    UnexpectedToken(usize),
    /// The program nests deeper than the parser allows.
    TooDeep,
}

/// White space: blank, tab, line feed, carriage return.
pub open spec fn is_space(c: char) -> bool {
    c == ' ' || c == '\t' || c == '\n' || c == '\r'
}

/// `0` to `9`.
pub open spec fn is_digit(c: char) -> bool {
    48 <= c as u32 <= 57
}

/// A letter of the ASCII alphabet or `_`.
pub open spec fn is_ident_start(c: char) -> bool {
    (65 <= c as u32 <= 90) || (97 <= c as u32 <= 122) || c == '_'
}

/// What may follow the first character of a name.
pub open spec fn is_ident_char(c: char) -> bool {
    is_ident_start(c) || is_digit(c)
}

/// The position of the first character at or after `i` that is not white
/// space and not inside a `//` comment (which runs to the end of its line).
pub open spec fn skip_trivia(s: Seq<char>, i: nat, in_comment: bool) -> nat
    decreases s.len() - i,
{
    if i >= s.len() {
        i
    } else if in_comment {
        skip_trivia(s, i + 1, s[i as int] != '\n')
    } else if is_space(s[i as int]) {
        skip_trivia(s, i + 1, false)
    } else if s[i as int] == '/' && i + 1 < s.len() && s[i + 1int] == '/' {
        skip_trivia(s, i + 2, true)
    } else {
        i
    }
}

/// The end of the run of digits that starts at `i`.
pub open spec fn digits_end(s: Seq<char>, i: nat) -> nat
    decreases s.len() - i,
{
    if i < s.len() && is_digit(s[i as int]) {
        digits_end(s, i + 1)
    } else {
        i
    }
}

/// The end of the run of name characters that starts at `i`.
pub open spec fn word_end(s: Seq<char>, i: nat) -> nat
    decreases s.len() - i,
{
    if i < s.len() && is_ident_char(s[i as int]) {
        word_end(s, i + 1)
    } else {
        i
    }
}

/// The number that a string of decimal digits denotes.
pub open spec fn digits_value(d: Seq<char>) -> int
    decreases d.len(),
{
    if d.len() == 0 {
        0
    } else {
        digits_value(d.drop_last()) * 10 + (d.last() as u32 - 48)
    }
}

/// Ten to the power `e`.
pub open spec fn pow10(e: nat) -> int
    decreases e,
{
    if e == 0 {
        1
    } else {
        10 * pow10((e - 1) as nat)
    }
}

/// The largest 64-bit number.
pub open spec fn max_i64() -> int {
    0x7fff_ffff_ffff_ffff
}

/// The outcome of reading one token that starts at a position: the token
/// and the position after it.
pub type TokenResult = Result<(SToken, nat), ParseError>;

/// A number literal at `j`: digits, or digits, `e` and digits (`AeB` is
/// `A` times ten to the power `B`). It must fit in 64 bits.
pub open spec fn number_token(s: Seq<char>, j: nat) -> TokenResult {
    let k = digits_end(s, j);
    let base = digits_value(s.subrange(j as int, k as int));
    if k + 1 < s.len() && s[k as int] == 'e' && is_digit(s[k + 1int]) {
        let m = digits_end(s, k + 1);
        let e = digits_value(s.subrange(k + 1int, m as int));
        if pow10(e as nat) <= max_i64() && base * pow10(e as nat) <= max_i64() {
            Ok((SToken::Int((base * pow10(e as nat)) as i64), m))
        } else {
            Err(ParseError::NumberTooLarge(j as usize))
        }
    } else if base <= max_i64() {
        Ok((SToken::Int(base as i64), k))
    } else {
        Err(ParseError::NumberTooLarge(j as usize))
    }
}

/// The keyword spelled by `w`, if any.
pub open spec fn keyword_of(w: Seq<char>) -> Option<Keyword> {
    if w == "let"@ {
        Some(Keyword::Let)
    } else if w == "if"@ {
        Some(Keyword::If)
    } else if w == "else"@ {
        Some(Keyword::Else)
    } else if w == "while"@ {
        Some(Keyword::While)
    } else if w == "for"@ {
        Some(Keyword::For)
    } else if w == "in"@ {
        Some(Keyword::In)
    } else if w == "mod"@ {
        Some(Keyword::Mod)
    } else if w == "return"@ {
        Some(Keyword::Return)
    } else if w == "break"@ {
        Some(Keyword::Break)
    } else if w == "continue"@ {
        Some(Keyword::Continue)
    } else if w == "true"@ {
        Some(Keyword::True)
    } else if w == "false"@ {
        Some(Keyword::False)
    } else if w == "nil"@ {
        Some(Keyword::Nil)
    } else {
        None
    }
}

/// A name or keyword at `j`.
pub open spec fn word_token(s: Seq<char>, j: nat) -> TokenResult {
    let k = word_end(s, j);
    let w = s.subrange(j as int, k as int);
    match keyword_of(w) {
        Some(kw) => Ok((SToken::Kw(kw), k)),
        None => Ok((SToken::Ident(w), k)),
    }
}

/// The character that a backslash followed by `c` stands for in a string.
pub open spec fn string_escape(c: char) -> Option<char> {
    if c == 'n' {
        Some('\n')
    } else if c == 'r' {
        Some('\r')
    } else if c == 't' {
        Some('\t')
    } else if c == '"' {
        Some('"')
    } else if c == '\\' {
        Some('\\')
    } else {
        None
    }
}

/// The character that a backslash followed by `c` stands for in a character
/// literal.
pub open spec fn char_escape(c: char) -> Option<char> {
    if c == 'n' {
        Some('\n')
    } else if c == 'r' {
        Some('\r')
    } else if c == 't' {
        Some('\t')
    } else if c == '\'' {
        Some('\'')
    } else if c == '\\' {
        Some('\\')
    } else {
        None
    }
}

/// The rest of a string literal from `k`, whose characters so far are `acc`
/// and whose opening quote is at `open`: gives its characters and the
/// position after the closing quote.
pub open spec fn string_body(s: Seq<char>, k: nat, acc: Seq<char>, open: nat) -> Result<
    (Seq<char>, nat),
    ParseError,
>
    decreases s.len() - k,
{
    if k >= s.len() {
        Err(ParseError::UnterminatedString(open as usize))
    } else if s[k as int] == '"' {
        Ok((acc, k + 1))
    } else if s[k as int] == '\\' {
        if k + 1 >= s.len() {
            Err(ParseError::UnterminatedString(open as usize))
        } else {
            match string_escape(s[k + 1int]) {
                Some(c) => string_body(s, k + 2, acc.push(c), open),
                None => Err(ParseError::BadEscape(k as usize)),
            }
        }
    } else {
        string_body(s, k + 1, acc.push(s[k as int]), open)
    }
}

/// A string literal at `j`.
pub open spec fn string_token(s: Seq<char>, j: nat) -> TokenResult {
    match string_body(s, j + 1, Seq::empty(), j) {
        Ok((cs, k)) => Ok((SToken::Str(cs), k)),
        Err(e) => Err(e),
    }
}

/// A character literal at `j`: a quote, a character or an escape, a quote.
pub open spec fn char_token(s: Seq<char>, j: nat) -> TokenResult {
    if j + 1 < s.len() && s[j + 1int] == '\\' {
        if j + 3 < s.len() && s[j + 3int] == '\'' {
            match char_escape(s[j + 2int]) {
                Some(c) => Ok((SToken::Char(c), j + 4)),
                None => Err(ParseError::BadChar(j as usize)),
            }
        } else {
            Err(ParseError::BadChar(j as usize))
        }
    } else if j + 2 < s.len() && s[j + 2int] == '\'' {
        Ok((SToken::Char(s[j + 1int]), j + 3))
    } else {
        Err(ParseError::BadChar(j as usize))
    }
}

/// Whether the character at `k` is `c`.
pub open spec fn char_at(s: Seq<char>, k: nat, c: char) -> bool {
    k < s.len() && s[k as int] == c
}

/// The longest operator or punctuation mark at `j`, and where it ends.
pub open spec fn symbol_at(s: Seq<char>, j: nat) -> Option<(Symbol, nat)> {
    let c = s[j as int];
    if c == '(' {
        Some((Symbol::LParen, j + 1))
    } else if c == ')' {
        Some((Symbol::RParen, j + 1))
    } else if c == '[' {
        Some((Symbol::LBracket, j + 1))
    } else if c == ']' {
        Some((Symbol::RBracket, j + 1))
    } else if c == '{' {
        Some((Symbol::LBrace, j + 1))
    } else if c == '}' {
        Some((Symbol::RBrace, j + 1))
    } else if c == ',' {
        Some((Symbol::Comma, j + 1))
    } else if c == ';' {
        Some((Symbol::Semi, j + 1))
    } else if c == '.' {
        if char_at(s, j + 1, '.') {
            if char_at(s, j + 2, '=') {
                Some((Symbol::DotDotEq, j + 3))
            } else {
                Some((Symbol::DotDot, j + 2))
            }
        } else {
            Some((Symbol::Dot, j + 1))
        }
    } else if c == '+' {
        Some((Symbol::Plus, j + 1))
    } else if c == '-' {
        Some((Symbol::Minus, j + 1))
    } else if c == '*' {
        if char_at(s, j + 1, '*') {
            Some((Symbol::StarStar, j + 2))
        } else {
            Some((Symbol::Star, j + 1))
        }
    } else if c == '/' {
        Some((Symbol::Slash, j + 1))
    } else if c == '%' {
        Some((Symbol::Percent, j + 1))
    } else if c == '&' {
        if char_at(s, j + 1, '&') {
            Some((Symbol::AmpAmp, j + 2))
        } else {
            Some((Symbol::Amp, j + 1))
        }
    } else if c == '|' {
        if char_at(s, j + 1, '|') {
            Some((Symbol::PipePipe, j + 2))
        } else {
            Some((Symbol::Pipe, j + 1))
        }
    } else if c == '^' {
        Some((Symbol::Caret, j + 1))
    } else if c == '!' {
        if char_at(s, j + 1, '=') {
            Some((Symbol::BangEq, j + 2))
        } else {
            Some((Symbol::Bang, j + 1))
        }
    } else if c == '=' {
        if char_at(s, j + 1, '=') {
            Some((Symbol::EqEq, j + 2))
        } else {
            Some((Symbol::Eq, j + 1))
        }
    } else if c == '<' {
        if char_at(s, j + 1, '=') {
            Some((Symbol::Le, j + 2))
        } else if char_at(s, j + 1, '<') {
            Some((Symbol::Shl, j + 2))
        } else {
            Some((Symbol::Lt, j + 1))
        }
    } else if c == '>' {
        if char_at(s, j + 1, '=') {
            Some((Symbol::Ge, j + 2))
        } else if char_at(s, j + 1, '>') {
            Some((Symbol::Shr, j + 2))
        } else {
            Some((Symbol::Gt, j + 1))
        }
    } else {
        None
    }
}

/// The token that starts at `j`.
pub open spec fn token_at(s: Seq<char>, j: nat) -> TokenResult {
    let c = s[j as int];
    if is_digit(c) {
        number_token(s, j)
    } else if is_ident_start(c) {
        word_token(s, j)
    } else if c == '"' {
        string_token(s, j)
    } else if c == '\'' {
        char_token(s, j)
    } else {
        match symbol_at(s, j) {
            Some((sym, k)) => Ok((SToken::Sym(sym), k)),
            None => Err(ParseError::UnexpectedChar(j as usize)),
        }
    }
}

pub proof fn lemma_skip_trivia(s: Seq<char>, i: nat, in_comment: bool)
    ensures
        i <= skip_trivia(s, i, in_comment),
        i <= s.len() ==> skip_trivia(s, i, in_comment) <= s.len(),
    decreases s.len() - i,
{
    if i < s.len() {
        if in_comment {
            lemma_skip_trivia(s, i + 1, s[i as int] != '\n');
        } else if is_space(s[i as int]) {
            lemma_skip_trivia(s, i + 1, false);
        } else if s[i as int] == '/' && i + 1 < s.len() && s[i + 1int] == '/' {
            lemma_skip_trivia(s, i + 2, true);
        }
    }
}

pub proof fn lemma_digits_end(s: Seq<char>, i: nat)
    ensures
        i <= digits_end(s, i),
        i <= s.len() ==> digits_end(s, i) <= s.len(),
        forall|k: int| i <= k < digits_end(s, i) ==> is_digit(#[trigger] s[k]),
        digits_end(s, i) < s.len() ==> !is_digit(s[digits_end(s, i) as int]),
    decreases s.len() - i,
{
    if i < s.len() && is_digit(s[i as int]) {
        lemma_digits_end(s, i + 1);
    }
}

pub proof fn lemma_word_end(s: Seq<char>, i: nat)
    ensures
        i <= word_end(s, i),
        i <= s.len() ==> word_end(s, i) <= s.len(),
    decreases s.len() - i,
{
    if i < s.len() && is_ident_char(s[i as int]) {
        lemma_word_end(s, i + 1);
    }
}

pub proof fn lemma_string_body(s: Seq<char>, k: nat, acc: Seq<char>, open: nat)
    ensures
        string_body(s, k, acc, open) matches Ok((_, e)) ==> k < e <= s.len(),
    decreases s.len() - k,
{
    if k < s.len() && s[k as int] != '"' {
        if s[k as int] == '\\' {
            if k + 1 < s.len() {
                if let Some(c) = string_escape(s[k + 1int]) {
                    lemma_string_body(s, k + 2, acc.push(c), open);
                }
            }
        } else {
            lemma_string_body(s, k + 1, acc.push(s[k as int]), open);
        }
    }
}

/// A token that is read takes at least one character.
pub proof fn lemma_token_at(s: Seq<char>, j: nat)
    requires
        j < s.len(),
    ensures
        token_at(s, j) matches Ok((_, k)) ==> j < k <= s.len(),
{
    let c = s[j as int];
    if is_digit(c) {
        lemma_digits_end(s, j);
        let k = digits_end(s, j);
        if k + 1 < s.len() && s[k as int] == 'e' && is_digit(s[k + 1int]) {
            lemma_digits_end(s, k + 1);
        }
    } else if is_ident_start(c) {
        lemma_word_end(s, j + 1);
        assert(word_end(s, j) == word_end(s, j + 1));
    } else if c == '"' {
        lemma_string_body(s, j + 1, Seq::empty(), j);
    }
}

/// The tokens of `s` from position `i`, each with the position where it
/// starts.
pub open spec fn lex_spec(s: Seq<char>, i: nat) -> Result<Seq<(SToken, nat)>, ParseError>
    decreases s.len() - i,
{
    let j = skip_trivia(s, i, false);
    if j >= s.len() {
        Ok(Seq::empty())
    } else {
        proof {
            lemma_skip_trivia(s, i, false);
            lemma_token_at(s, j);
        }
        match token_at(s, j) {
            Err(e) => Err(e),
            Ok((t, k)) => match lex_spec(s, k) {
                Ok(ts) => Ok(seq![(t, j)] + ts),
                Err(e) => Err(e),
            },
        }
    }
}

/// The tokens read from position `i` start in the source, at or after `i`,
/// each after the one before it.
pub proof fn law_token_positions(s: Seq<char>, i: nat)
    ensures
        lex_spec(s, i) matches Ok(ts) ==> (forall|k: int|
            0 <= k < ts.len() ==> i <= #[trigger] ts[k].1 < s.len()) && (forall|a: int, b: int|
            0 <= a < b < ts.len() ==> #[trigger] ts[a].1 < #[trigger] ts[b].1),
    decreases s.len() - i,
{
    let j = skip_trivia(s, i, false);
    lemma_skip_trivia(s, i, false);
    if j < s.len() {
        lemma_token_at(s, j);
        if let Ok((t, k)) = token_at(s, j) {
            law_token_positions(s, k);
            if let Ok(rest) = lex_spec(s, k) {
                let ts = seq![(t, j)] + rest;
                assert forall|a: int| 0 <= a < ts.len() implies i <= #[trigger] ts[a].1 < s.len() by {
                    if a > 0 {
                        assert(ts[a] == rest[a - 1]);
                    }
                }
                assert forall|a: int, b: int| 0 <= a < b < ts.len() implies #[trigger] ts[a].1
                    < #[trigger] ts[b].1 by {
                    assert(ts[b] == rest[b - 1]);
                    if a > 0 {
                        assert(ts[a] == rest[a - 1]);
                    }
                }
            }
        }
    }
}

/// The model of the outcome of reading a token.
pub open spec fn token_result_view(r: Result<(Token, usize), ParseError>) -> TokenResult {
    match r {
        Ok((t, k)) => Ok((t@, k as nat)),
        Err(e) => Err(e),
    }
}

fn digit(c: char) -> (r: bool)
    ensures
        r == is_digit(c),
{
    48 <= c as u32 && c as u32 <= 57
}

fn ident_start(c: char) -> (r: bool)
    ensures
        r == is_ident_start(c),
{
    let u = c as u32;
    (65 <= u && u <= 90) || (97 <= u && u <= 122) || c == '_'
}

fn ident_char(c: char) -> (r: bool)
    ensures
        r == is_ident_char(c),
{
    ident_start(c) || digit(c)
}

/// Skips white space and comments from `i`, see [`skip_trivia`].
fn skip_space(s: &Vec<char>, i: usize) -> (r: usize)
    ensures
        r == skip_trivia(s@, i as nat, false),
{
    let mut k = i;
    let mut in_comment = false;
    while k < s.len()
        invariant
            skip_trivia(s@, k as nat, in_comment) == skip_trivia(s@, i as nat, false),
        decreases s@.len() - k,
    {
        let c = s[k];
        if in_comment {
            in_comment = c != '\n';
            k += 1;
        } else if c == ' ' || c == '\t' || c == '\n' || c == '\r' {
            k += 1;
        } else if c == '/' && k + 1 < s.len() && s[k + 1] == '/' {
            in_comment = true;
            k += 2;
        } else {
            return k;
        }
    }
    k
}

proof fn lemma_digits_value_push(d: Seq<char>, c: char)
    ensures
        digits_value(d.push(c)) == digits_value(d) * 10 + (c as u32 - 48),
{
    assert(d.push(c).drop_last() =~= d);
}

/// Reads the digits from `i`: where they end, and their value if it fits in
/// 64 bits.
fn scan_digits(s: &Vec<char>, i: usize) -> (r: (usize, Option<i64>))
    requires
        i <= s@.len(),
    ensures
        r.0 == digits_end(s@, i as nat),
        r.1 == (if digits_value(s@.subrange(i as int, r.0 as int)) <= max_i64() {
            Some(digits_value(s@.subrange(i as int, r.0 as int)) as i64)
        } else {
            None::<i64>
        }),
        digits_value(s@.subrange(i as int, r.0 as int)) >= 0,
{
    let mut k = i;
    let mut v: i64 = 0;
    let mut big = false;
    proof {
        assert(s@.subrange(i as int, i as int) =~= Seq::<char>::empty());
    }
    while k < s.len() && digit(s[k])
        invariant
            i <= k <= s@.len(),
            digits_end(s@, k as nat) == digits_end(s@, i as nat),
            digits_value(s@.subrange(i as int, k as int)) >= 0,
            big ==> digits_value(s@.subrange(i as int, k as int)) > max_i64(),
            !big ==> v == digits_value(s@.subrange(i as int, k as int)),
            v >= 0,
        decreases s@.len() - k,
    {
        let d = (s[k] as u32 - 48) as i64;
        proof {
            assert(s@.subrange(i as int, k + 1) =~= s@.subrange(i as int, k as int).push(s@[k as int]));
            lemma_digits_value_push(s@.subrange(i as int, k as int), s@[k as int]);
        }
        if !big {
            if v > (0x7fff_ffff_ffff_ffff - d) / 10 {
                big = true;
            } else {
                v = v * 10 + d;
            }
        }
        k += 1;
    }
    if big {
        (k, None)
    } else {
        (k, Some(v))
    }
}

pub proof fn lemma_pow10_pos(n: nat)
    ensures
        pow10(n) >= 1,
        pow10(n) > n,
    decreases n,
{
    if n > 0 {
        lemma_pow10_pos((n - 1) as nat);
    }
}

pub proof fn lemma_pow10_mono(a: nat, b: nat)
    requires
        a <= b,
    ensures
        pow10(a) <= pow10(b),
    decreases b,
{
    if a < b {
        lemma_pow10_mono(a, (b - 1) as nat);
        lemma_pow10_pos((b - 1) as nat);
    }
}

/// Ten to the power `e`, if it fits in 64 bits.
fn pow10_checked(e: i64) -> (r: Option<i64>)
    requires
        e >= 0,
    ensures
        r == (if pow10(e as nat) <= max_i64() {
            Some(pow10(e as nat) as i64)
        } else {
            None::<i64>
        }),
{
    let mut p: i64 = 1;
    let mut t: i64 = 0;
    while t < e
        invariant
            0 <= t <= e,
            p == pow10(t as nat),
            p >= 1,
        decreases e - t,
    {
        proof {
            lemma_pow10_pos(t as nat);
        }
        if p > 922_337_203_685_477_580 {
            proof {
                lemma_pow10_mono((t + 1) as nat, e as nat);
            }
            return None;
        }
        p = p * 10;
        t += 1;
    }
    Some(p)
}

/// Reads a number literal at `j`, see [`number_token`].
fn lex_number(s: &Vec<char>, j: usize) -> (r: Result<(Token, usize), ParseError>)
    requires
        j < s@.len(),
        is_digit(s@[j as int]),
    ensures
        token_result_view(r) == number_token(s@, j as nat),
{
    let n = s.len();
    let (k, base) = scan_digits(s, j);
    proof {
        lemma_digits_end(s@, j as nat);
    }
    let ghost b = digits_value(s@.subrange(j as int, k as int));
    if k < n - 1 && s[k] == 'e' && digit(s[k + 1]) {
        let (m, e) = scan_digits(s, k + 1);
        let ghost ev = digits_value(s@.subrange(k + 1, m as int));
        proof {
            lemma_pow10_pos(ev as nat);
        }
        match (base, e) {
            (Some(bv), Some(ex)) => match pow10_checked(ex) {
                Some(p) => {
                    assert(bv as int * p as int <= max_i64() * max_i64()) by (nonlinear_arith)
                        requires
                            0 <= bv <= max_i64(),
                            0 <= p <= max_i64(),
                    ;
                    let prod: i128 = bv as i128 * p as i128;
                    if prod <= 0x7fff_ffff_ffff_ffff {
                        Ok((Token::Int(prod as i64), m))
                    } else {
                        Err(ParseError::NumberTooLarge(j))
                    }
                },
                None => Err(ParseError::NumberTooLarge(j)),
            },
            _ => {
                proof {
                    if base is None {
                        assert(b * pow10(ev as nat) >= b) by (nonlinear_arith)
                            requires
                                pow10(ev as nat) >= 1,
                                b >= 0,
                        ;
                    }
                }
                Err(ParseError::NumberTooLarge(j))
            },
        }
    } else {
        match base {
            Some(bv) => Ok((Token::Int(bv), k)),
            None => Err(ParseError::NumberTooLarge(j)),
        }
    }
}

/// The keyword spelled by `w`, see [`keyword_of`].
fn keyword(w: &Vec<char>) -> (r: Option<Keyword>)
    ensures
        r == keyword_of(w@),
{
    if chars_are(w, "let") {
        Some(Keyword::Let)
    } else if chars_are(w, "if") {
        Some(Keyword::If)
    } else if chars_are(w, "else") {
        Some(Keyword::Else)
    } else if chars_are(w, "while") {
        Some(Keyword::While)
    } else if chars_are(w, "for") {
        Some(Keyword::For)
    } else if chars_are(w, "in") {
        Some(Keyword::In)
    } else if chars_are(w, "mod") {
        Some(Keyword::Mod)
    } else if chars_are(w, "return") {
        Some(Keyword::Return)
    } else if chars_are(w, "break") {
        Some(Keyword::Break)
    } else if chars_are(w, "continue") {
        Some(Keyword::Continue)
    } else if chars_are(w, "true") {
        Some(Keyword::True)
    } else if chars_are(w, "false") {
        Some(Keyword::False)
    } else if chars_are(w, "nil") {
        Some(Keyword::Nil)
    } else {
        None
    }
}

/// The characters of `s` from `i` to `k`.
pub(crate) fn slice_chars(s: &Vec<char>, i: usize, k: usize) -> (r: Vec<char>)
    requires
        i <= k <= s@.len(),
    ensures
        r@ == s@.subrange(i as int, k as int),
{
    let mut w: Vec<char> = Vec::new();
    let mut x = i;
    while x < k
        invariant
            i <= x <= k <= s@.len(),
            w@ == s@.subrange(i as int, x as int),
        decreases k - x,
    {
        w.push(s[x]);
        x += 1;
        assert(w@ =~= s@.subrange(i as int, x as int));
    }
    w
}

/// Reads a name or keyword at `j`, see [`word_token`].
fn lex_word(s: &Vec<char>, j: usize) -> (r: Result<(Token, usize), ParseError>)
    requires
        j < s@.len(),
    ensures
        token_result_view(r) == word_token(s@, j as nat),
{
    let mut k = j;
    while k < s.len() && ident_char(s[k])
        invariant
            j <= k <= s@.len(),
            word_end(s@, k as nat) == word_end(s@, j as nat),
        decreases s@.len() - k,
    {
        k += 1;
    }
    let w = slice_chars(s, j, k);
    match keyword(&w) {
        Some(kw) => Ok((Token::Kw(kw), k)),
        None => Ok((Token::Ident(w), k)),
    }
}

fn escape_in_string(c: char) -> (r: Option<char>)
    ensures
        r == string_escape(c),
{
    if c == 'n' {
        Some('\n')
    } else if c == 'r' {
        Some('\r')
    } else if c == 't' {
        Some('\t')
    } else if c == '"' {
        Some('"')
    } else if c == '\\' {
        Some('\\')
    } else {
        None
    }
}

fn escape_in_char(c: char) -> (r: Option<char>)
    ensures
        r == char_escape(c),
{
    if c == 'n' {
        Some('\n')
    } else if c == 'r' {
        Some('\r')
    } else if c == 't' {
        Some('\t')
    } else if c == '\'' {
        Some('\'')
    } else if c == '\\' {
        Some('\\')
    } else {
        None
    }
}

/// Reads a string literal at `j`, see [`string_token`].
fn lex_string(s: &Vec<char>, j: usize) -> (r: Result<(Token, usize), ParseError>)
    requires
        j < s@.len(),
    ensures
        token_result_view(r) == string_token(s@, j as nat),
{
    let n = s.len();
    let mut acc: Vec<char> = Vec::new();
    let mut k = j + 1;
    while k < n
        invariant
            j < k,
            n == s@.len(),
            string_body(s@, k as nat, acc@, j as nat) == string_body(
                s@,
                (j + 1) as nat,
                Seq::empty(),
                j as nat,
            ),
        decreases s@.len() - k,
    {
        let c = s[k];
        if c == '"' {
            return Ok((Token::Str(acc), k + 1));
        } else if c == '\\' {
            if k + 1 >= n {
                return Err(ParseError::UnterminatedString(j));
            }
            match escape_in_string(s[k + 1]) {
                Some(e) => {
                    acc.push(e);
                    k += 2;
                },
                None => {
                    return Err(ParseError::BadEscape(k));
                },
            }
        } else {
            acc.push(c);
            k += 1;
        }
    }
    Err(ParseError::UnterminatedString(j))
}

/// Reads a character literal at `j`, see [`char_token`].
fn lex_char(s: &Vec<char>, j: usize) -> (r: Result<(Token, usize), ParseError>)
    requires
        j < s@.len(),
    ensures
        token_result_view(r) == char_token(s@, j as nat),
{
    let n = s.len();
    if j + 1 < n && s[j + 1] == '\\' {
        if n - j > 3 && s[j + 3] == '\'' {
            match escape_in_char(s[j + 2]) {
                Some(c) => Ok((Token::Char(c), j + 4)),
                None => Err(ParseError::BadChar(j)),
            }
        } else {
            Err(ParseError::BadChar(j))
        }
    } else if n - j > 2 && s[j + 2] == '\'' {
        Ok((Token::Char(s[j + 1]), j + 3))
    } else {
        Err(ParseError::BadChar(j))
    }
}

fn next_is(s: &Vec<char>, k: usize, c: char) -> (r: bool)
    ensures
        r == char_at(s@, k as nat, c),
{
    k < s.len() && s[k] == c
}

/// Reads an operator or punctuation mark at `j`, see [`symbol_at`].
fn lex_symbol(s: &Vec<char>, j: usize) -> (r: Option<(Symbol, usize)>)
    requires
        j < s@.len(),
    ensures
        match r {
            Some((sym, k)) => symbol_at(s@, j as nat) == Some((sym, k as nat)),
            None => symbol_at(s@, j as nat) is None,
        },
{
    let n = s.len();
    let c = s[j];
    if c == '(' {
        Some((Symbol::LParen, j + 1))
    } else if c == ')' {
        Some((Symbol::RParen, j + 1))
    } else if c == '[' {
        Some((Symbol::LBracket, j + 1))
    } else if c == ']' {
        Some((Symbol::RBracket, j + 1))
    } else if c == '{' {
        Some((Symbol::LBrace, j + 1))
    } else if c == '}' {
        Some((Symbol::RBrace, j + 1))
    } else if c == ',' {
        Some((Symbol::Comma, j + 1))
    } else if c == ';' {
        Some((Symbol::Semi, j + 1))
    } else if c == '.' {
        if next_is(s, j + 1, '.') {
            if next_is(s, j + 2, '=') {
                Some((Symbol::DotDotEq, j + 3))
            } else {
                Some((Symbol::DotDot, j + 2))
            }
        } else {
            Some((Symbol::Dot, j + 1))
        }
    } else if c == '+' {
        Some((Symbol::Plus, j + 1))
    } else if c == '-' {
        Some((Symbol::Minus, j + 1))
    } else if c == '*' {
        if next_is(s, j + 1, '*') {
            Some((Symbol::StarStar, j + 2))
        } else {
            Some((Symbol::Star, j + 1))
        }
    } else if c == '/' {
        Some((Symbol::Slash, j + 1))
    } else if c == '%' {
        Some((Symbol::Percent, j + 1))
    } else if c == '&' {
        if next_is(s, j + 1, '&') {
            Some((Symbol::AmpAmp, j + 2))
        } else {
            Some((Symbol::Amp, j + 1))
        }
    } else if c == '|' {
        if next_is(s, j + 1, '|') {
            Some((Symbol::PipePipe, j + 2))
        } else {
            Some((Symbol::Pipe, j + 1))
        }
    } else if c == '^' {
        Some((Symbol::Caret, j + 1))
    } else if c == '!' {
        if next_is(s, j + 1, '=') {
            Some((Symbol::BangEq, j + 2))
        } else {
            Some((Symbol::Bang, j + 1))
        }
    } else if c == '=' {
        if next_is(s, j + 1, '=') {
            Some((Symbol::EqEq, j + 2))
        } else {
            Some((Symbol::Eq, j + 1))
        }
    } else if c == '<' {
        if next_is(s, j + 1, '=') {
            Some((Symbol::Le, j + 2))
        } else if next_is(s, j + 1, '<') {
            Some((Symbol::Shl, j + 2))
        } else {
            Some((Symbol::Lt, j + 1))
        }
    } else if c == '>' {
        if next_is(s, j + 1, '=') {
            Some((Symbol::Ge, j + 2))
        } else if next_is(s, j + 1, '>') {
            Some((Symbol::Shr, j + 2))
        } else {
            Some((Symbol::Gt, j + 1))
        }
    } else {
        None
    }
}

/// Reads the token at `j`, see [`token_at`].
fn lex_token(s: &Vec<char>, j: usize) -> (r: Result<(Token, usize), ParseError>)
    requires
        j < s@.len(),
    ensures
        token_result_view(r) == token_at(s@, j as nat),
{
    let c = s[j];
    if digit(c) {
        lex_number(s, j)
    } else if ident_start(c) {
        lex_word(s, j)
    } else if c == '"' {
        lex_string(s, j)
    } else if c == '\'' {
        lex_char(s, j)
    } else {
        match lex_symbol(s, j) {
            Some((sym, k)) => Ok((Token::Sym(sym), k)),
            None => Err(ParseError::UnexpectedChar(j)),
        }
    }
}

/// The tokens with their start positions, as pairs.
pub open spec fn lexemes(ts: Seq<Token>, ps: Seq<usize>) -> Seq<(SToken, nat)> {
    Seq::new(ts.len(), |i: int| (ts[i]@, ps[i] as nat))
}

/// The outcome of reading tokens from a position, after `done` were read.
pub open spec fn after_lexemes(
    done: Seq<(SToken, nat)>,
    rest: Result<Seq<(SToken, nat)>, ParseError>,
) -> Result<Seq<(SToken, nat)>, ParseError> {
    match rest {
        Ok(ts) => Ok(done + ts),
        Err(e) => Err(e),
    }
}

/// Splits a source text into tokens, see [`lex_spec`]: gives the tokens and,
/// for each, the position where it starts.
pub fn lex(s: &Vec<char>) -> (r: Result<(Vec<Token>, Vec<usize>), ParseError>)
    ensures
        match r {
            Ok((ts, ps)) => ts@.len() == ps@.len() && lex_spec(s@, 0) == Ok::<
                Seq<(SToken, nat)>,
                ParseError,
            >(lexemes(ts@, ps@)),
            Err(e) => lex_spec(s@, 0) == Err::<Seq<(SToken, nat)>, ParseError>(e),
        },
{
    let mut ts: Vec<Token> = Vec::new();
    let mut ps: Vec<usize> = Vec::new();
    let mut i: usize = 0;
    proof {
        assert(lexemes(ts@, ps@) =~= Seq::<(SToken, nat)>::empty());
        assert(after_lexemes(lexemes(ts@, ps@), lex_spec(s@, 0)) =~= lex_spec(s@, 0));
    }
    loop
        invariant
            i <= s@.len(),
            ts@.len() == ps@.len(),
            lex_spec(s@, 0) == after_lexemes(lexemes(ts@, ps@), lex_spec(s@, i as nat)),
        decreases s@.len() - i,
    {
        let j = skip_space(s, i);
        proof {
            lemma_skip_trivia(s@, i as nat, false);
        }
        if j >= s.len() {
            proof {
                assert(lexemes(ts@, ps@) + Seq::<(SToken, nat)>::empty() =~= lexemes(ts@, ps@));
            }
            return Ok((ts, ps));
        }
        proof {
            lemma_token_at(s@, j as nat);
        }
        match lex_token(s, j) {
            Err(e) => {
                return Err(e);
            },
            Ok((t, k)) => {
                let ghost old_l = lexemes(ts@, ps@);
                let ghost tv = t@;
                ts.push(t);
                ps.push(j);
                proof {
                    assert(lexemes(ts@, ps@) =~= old_l + seq![(tv, j as nat)]);
                    match lex_spec(s@, k as nat) {
                        Ok(rest) => {
                            assert(old_l + (seq![(tv, j as nat)] + rest) =~= old_l + seq![
                                (tv, j as nat),
                            ] + rest);
                        },
                        Err(_) => {},
                    }
                }
                i = k;
            },
        }
    }
}

} // verus!
