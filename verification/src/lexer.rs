//! The lexer: source text to tokens.
use vstd::prelude::*;
use crate::ast::{Token, TokenV, tokens_view};
use crate::text::{
    alphabetic, alphanumeric, chars_of, is_alphabetic, is_alphanumeric, is_decimal_digit,
    is_digit10, str_is,
};

verus! {

/// Why a text cannot be tokenized.
#[derive(Debug, Clone, Copy, PartialEq, Eq, Structural)]
pub enum LexError {
    /// A `!` at this character index is not followed by `=`.
    UnexpectedBang(usize),
    /// The number that starts at this character index does not fit in an `i32`.
    NumberTooLarge(usize),
}

pub open spec fn is_space(c: char) -> bool {
    c == ' ' || c == '\t' || c == '\n' || c == '\r'
}

/// A character that can start an identifier or keyword.
pub open spec fn is_word_start(c: char) -> bool {
    alphabetic(c) || c == '_'
}

/// A character that can continue an identifier or keyword: an alphanumeric
/// character or `_` (alphabetic characters, which are alphanumeric, included).
pub open spec fn is_word_char(c: char) -> bool {
    alphabetic(c) || alphanumeric(c) || c == '_'
}

/// The end of the run of word characters that starts at `j`.
pub open spec fn word_end(s: Seq<char>, j: int) -> int
    decreases s.len() - j,
{
    if 0 <= j < s.len() && is_word_char(s[j]) {
        word_end(s, j + 1)
    } else {
        j
    }
}

/// The end of the run of decimal digits that starts at `j`.
pub open spec fn digits_end(s: Seq<char>, j: int) -> int
    decreases s.len() - j,
{
    if 0 <= j < s.len() && is_decimal_digit(s[j]) {
        digits_end(s, j + 1)
    } else {
        j
    }
}

/// The value of a string of decimal digits.
pub open spec fn digits_value(d: Seq<char>) -> int
    decreases d.len(),
{
    if d.len() == 0 {
        0
    } else {
        digits_value(d.drop_last()) * 10 + (d.last() as int - '0' as int)
    }
}

/// The token that a word stands for: a keyword, or else an identifier.
pub open spec fn word_token(w: Seq<char>) -> TokenV {
    if w == "fn"@ {
        TokenV::Fn
    } else if w == "let"@ {
        TokenV::Let
    } else if w == "if"@ {
        TokenV::If
    } else if w == "else"@ {
        TokenV::Else
    } else if w == "while"@ {
        TokenV::While
    } else {
        TokenV::Identifier(w)
    }
}

/// The token of a one-character symbol.
pub open spec fn symbol_token(c: char) -> Option<TokenV> {
    if c == '+' {
        Some(TokenV::Plus)
    } else if c == '-' {
        Some(TokenV::Minus)
    } else if c == '{' {
        Some(TokenV::OpenBrace)
    } else if c == '}' {
        Some(TokenV::CloseBrace)
    } else if c == '(' {
        Some(TokenV::OpenParen)
    } else if c == ')' {
        Some(TokenV::CloseParen)
    } else if c == ';' {
        Some(TokenV::Semicolon)
    } else if c == ',' {
        Some(TokenV::Comma)
    } else {
        None
    }
}

/// `t` followed by the tokens of `rest`, or the error of `rest`.
pub open spec fn cons(t: TokenV, rest: Result<Seq<TokenV>, LexError>) -> Result<
    Seq<TokenV>,
    LexError,
> {
    match rest {
        Ok(ts) => Ok(seq![t] + ts),
        Err(e) => Err(e),
    }
}

/// The tokens `acc` followed by the tokens of `rest`, or the error of `rest`.
pub open spec fn prepend(acc: Seq<TokenV>, rest: Result<Seq<TokenV>, LexError>) -> Result<
    Seq<TokenV>,
    LexError,
> {
    match rest {
        Ok(ts) => Ok(acc + ts),
        Err(e) => Err(e),
    }
}

pub proof fn lemma_word_end(s: Seq<char>, j: int)
    requires
        0 <= j <= s.len(),
    ensures
        j <= word_end(s, j) <= s.len(),
    decreases s.len() - j,
{
    if j < s.len() && is_word_char(s[j]) {
        lemma_word_end(s, j + 1);
    }
}

pub proof fn lemma_digits_end(s: Seq<char>, j: int)
    requires
        0 <= j <= s.len(),
    ensures
        j <= digits_end(s, j) <= s.len(),
    decreases s.len() - j,
{
    if j < s.len() && is_decimal_digit(s[j]) {
        lemma_digits_end(s, j + 1);
    }
}

/// The tokens of the characters of `s` from index `i` on, or the first error
/// met there. Blanks and characters that start no token are skipped.
pub open spec fn lex_from(s: Seq<char>, i: int) -> Result<Seq<TokenV>, LexError>
    decreases s.len() - i,
{
    if i < 0 || i >= s.len() {
        Ok(seq![])
    } else {
        let c = s[i];
        let eq_follows = i + 1 < s.len() && s[i + 1] == '=';
        if is_space(c) {
            lex_from(s, i + 1)
        } else if symbol_token(c) is Some {
            cons(symbol_token(c)->0, lex_from(s, i + 1))
        } else if c == '<' {
            if eq_follows {
                cons(TokenV::LessEqual, lex_from(s, i + 2))
            } else {
                cons(TokenV::Less, lex_from(s, i + 1))
            }
        } else if c == '>' {
            if eq_follows {
                cons(TokenV::GreaterEqual, lex_from(s, i + 2))
            } else {
                cons(TokenV::Greater, lex_from(s, i + 1))
            }
        } else if c == '=' {
            if eq_follows {
                cons(TokenV::Equal, lex_from(s, i + 2))
            } else {
                cons(TokenV::Assign, lex_from(s, i + 1))
            }
        } else if c == '!' {
            if eq_follows {
                cons(TokenV::NotEqual, lex_from(s, i + 2))
            } else {
                Err(LexError::UnexpectedBang(i as usize))
            }
        } else if is_word_start(c) {
            let j = word_end(s, i);
            proof {
                lemma_word_end(s, i + 1);
            }
            cons(word_token(s.subrange(i, j)), lex_from(s, j))
        } else if is_decimal_digit(c) {
            let j = digits_end(s, i);
            proof {
                lemma_digits_end(s, i + 1);
            }
            let v = digits_value(s.subrange(i, j));
            if v > i32::MAX {
                Err(LexError::NumberTooLarge(i as usize))
            } else {
                cons(TokenV::Number(v as i32), lex_from(s, j))
            }
        } else {
            lex_from(s, i + 1)
        }
    }
}

/// The tokens of `code`, or the first error met reading it.
pub open spec fn spec_tokenize(code: Seq<char>) -> Result<Seq<TokenV>, LexError> {
    lex_from(code, 0)
}


proof fn lemma_prepend_cons(acc: Seq<TokenV>, t: TokenV, rest: Result<Seq<TokenV>, LexError>)
    ensures
        prepend(acc, cons(t, rest)) == prepend(acc.push(t), rest),
{
    match rest {
        Ok(ts) => {
            assert(acc + (seq![t] + ts) =~= acc.push(t) + ts);
        },
        Err(_) => {},
    }
}

/// Appends `t` to `tokens`.
fn push_token(tokens: &mut Vec<Token>, t: Token)
    ensures
        tokens_view(final(tokens)@) == tokens_view(old(tokens)@).push(t@),
{
    tokens.push(t);
    assert(tokens_view(tokens@) =~= tokens_view(old(tokens)@).push(t@));
}

/// The tokens of `code`, or the first error met reading it: a `!` without `=`,
/// or a number too large for an `i32`.
pub fn try_tokenize(code: &str) -> (r: Result<Vec<Token>, LexError>)
    ensures
        match r {
            Ok(ts) => spec_tokenize(code@) == Ok::<Seq<TokenV>, LexError>(tokens_view(ts@)),
            Err(e) => spec_tokenize(code@) == Err::<Seq<TokenV>, LexError>(e),
        },
{
    let chars = chars_of(code);
    let ghost s = code@;
    let mut tokens: Vec<Token> = Vec::new();
    assert(tokens_view(tokens@) =~= Seq::<TokenV>::empty());
    assert(prepend(Seq::empty(), lex_from(s, 0)) == lex_from(s, 0)) by {
        match lex_from(s, 0) {
            Ok(ts) => assert(Seq::<TokenV>::empty() + ts =~= ts),
            Err(_) => {},
        }
    }
    let mut i: usize = 0;
    while i < chars.len()
        invariant
            chars@ == s,
            s == code@,
            i <= s.len(),
            lex_from(s, 0) == prepend(tokens_view(tokens@), lex_from(s, i as int)),
        decreases s.len() - i,
    {
        let c = chars[i];
        let eq_follows = i + 1 < chars.len() && chars[i + 1] == '=';
        let ghost acc = tokens_view(tokens@);
        let ghost here = i as int;
        match c {
            ' ' | '\t' | '\n' | '\r' => {
                i = i + 1;
            },
            '+' | '-' | '{' | '}' | '(' | ')' | ';' | ',' => {
                let t = match c {
                    '+' => Token::Plus,
                    '-' => Token::Minus,
                    '{' => Token::OpenBrace,
                    '}' => Token::CloseBrace,
                    '(' => Token::OpenParen,
                    ')' => Token::CloseParen,
                    ';' => Token::Semicolon,
                    _ => Token::Comma,
                };
                proof {
                    lemma_prepend_cons(acc, t@, lex_from(s, here + 1));
                }
                push_token(&mut tokens, t);
                i = i + 1;
            },
            '<' | '>' | '=' => {
                let t = if eq_follows {
                    match c {
                        '<' => Token::LessEqual,
                        '>' => Token::GreaterEqual,
                        _ => Token::Equal,
                    }
                } else {
                    match c {
                        '<' => Token::Less,
                        '>' => Token::Greater,
                        _ => Token::Assign,
                    }
                };
                let step: usize = if eq_follows {
                    2
                } else {
                    1
                };
                proof {
                    lemma_prepend_cons(acc, t@, lex_from(s, here + step));
                }
                push_token(&mut tokens, t);
                i = i + step;
            },
            '!' => {
                if eq_follows {
                    proof {
                        lemma_prepend_cons(acc, TokenV::NotEqual, lex_from(s, here + 2));
                    }
                    push_token(&mut tokens, Token::NotEqual);
                    i = i + 2;
                } else {
                    assert(lex_from(s, here) == Err::<Seq<TokenV>, LexError>(
                        LexError::UnexpectedBang(i),
                    ));
                    return Err(LexError::UnexpectedBang(i));
                }
            },
            _ => {
                if is_alphabetic(c) || c == '_' {
                    let start = i;
                    let mut word = String::new();
                    while i < chars.len() && (is_alphanumeric(chars[i]) || chars[i] == '_')
                        invariant
                            chars@ == s,
                            start <= i <= s.len(),
                            word_end(s, start as int) == word_end(s, i as int),
                            word@ == s.subrange(start as int, i as int),
                        decreases s.len() - i,
                    {
                        word.push(chars[i]);
                        assert(word@ =~= s.subrange(start as int, i + 1));
                        i = i + 1;
                    }
                    let w = word.as_str();
                    let t = if str_is(w, "fn") {
                        Token::Fn
                    } else if str_is(w, "let") {
                        Token::Let
                    } else if str_is(w, "if") {
                        Token::If
                    } else if str_is(w, "else") {
                        Token::Else
                    } else if str_is(w, "while") {
                        Token::While
                    } else {
                        Token::Identifier(word)
                    };
                    proof {
                        lemma_prepend_cons(acc, t@, lex_from(s, i as int));
                    }
                    push_token(&mut tokens, t);
                } else if is_digit10(c) {
                    let start = i;
                    let mut value: u64 = 0;
                    let mut too_large = false;
                    while i < chars.len() && is_digit10(chars[i])
                        invariant
                            chars@ == s,
                            start <= i <= s.len(),
                            digits_end(s, start as int) == digits_end(s, i as int),
                            too_large ==> digits_value(s.subrange(start as int, i as int))
                                > i32::MAX,
                            !too_large ==> value == digits_value(s.subrange(start as int, i as int)),
                            !too_large ==> value <= i32::MAX,
                        decreases s.len() - i,
                    {
                        let d = (chars[i] as u32 - '0' as u32) as u64;
                        assert(s.subrange(start as int, i + 1).drop_last() =~= s.subrange(
                            start as int,
                            i as int,
                        ));
                        if !too_large {
                            let next = value * 10 + d;
                            if next > i32::MAX as u64 {
                                too_large = true;
                            } else {
                                value = next;
                            }
                        }
                        i = i + 1;
                    }
                    if too_large {
                        return Err(LexError::NumberTooLarge(start));
                    }
                    let t = Token::Number(value as i32);
                    proof {
                        lemma_prepend_cons(acc, t@, lex_from(s, i as int));
                    }
                    push_token(&mut tokens, t);
                } else {
                    i = i + 1;
                }
            },
        }
    }
    assert(prepend(tokens_view(tokens@), Ok(seq![])) == Ok::<Seq<TokenV>, LexError>(
        tokens_view(tokens@),
    )) by {
        assert(tokens_view(tokens@) + seq![] =~= tokens_view(tokens@));
    }
    Ok(tokens)
}

/// The tokens of `code`, for a text that can be tokenized (on any other the
/// lexer has no tokens to give: a `!` without `=`, or a number too large for an
/// `i32`; [`try_tokenize`] reports which).
pub fn tokenize(code: &str) -> (tokens: Vec<Token>)
    requires
        spec_tokenize(code@) is Ok,
    ensures
        tokens_view(tokens@) == spec_tokenize(code@)->Ok_0,
{
    match try_tokenize(code) {
        Ok(tokens) => tokens,
        Err(_) => Vec::new(),
    }
}


// ---------------------------------------------------------------- laws

/// What every token the lexer gives satisfies: a number is not negative, and an
/// identifier has at least one character and is not a keyword.
pub open spec fn well_formed_token(t: TokenV) -> bool {
    match t {
        TokenV::Number(n) => n >= 0,
        TokenV::Identifier(w) => w.len() > 0 && w != "fn"@ && w != "let"@ && w != "if"@ && w
            != "else"@ && w != "while"@,
        _ => true,
    }
}

proof fn lemma_digits_value_nonnegative(d: Seq<char>)
    requires
        forall|k: int| 0 <= k < d.len() ==> is_decimal_digit(#[trigger] d[k]),
    ensures
        digits_value(d) >= 0,
    decreases d.len(),
{
    if d.len() > 0 {
        assert forall|k: int| 0 <= k < d.drop_last().len() implies is_decimal_digit(
            #[trigger] d.drop_last()[k],
        ) by {
            assert(d.drop_last()[k] == d[k]);
        }
        lemma_digits_value_nonnegative(d.drop_last());
        assert(is_decimal_digit(d[d.len() - 1]));
    }
}

proof fn lemma_digits_end_digits(s: Seq<char>, j: int)
    requires
        0 <= j <= s.len(),
    ensures
        forall|k: int| j <= k < digits_end(s, j) ==> is_decimal_digit(#[trigger] s[k]),
    decreases s.len() - j,
{
    if j < s.len() && is_decimal_digit(s[j]) {
        lemma_digits_end_digits(s, j + 1);
    }
}

proof fn lemma_cons_well_formed(t: TokenV, rest: Result<Seq<TokenV>, LexError>)
    requires
        well_formed_token(t),
        rest matches Ok(ts) ==> forall|k: int| 0 <= k < ts.len() ==> well_formed_token(#[trigger] ts[k]),
    ensures
        cons(t, rest) matches Ok(ts) ==> forall|k: int|
            0 <= k < ts.len() ==> well_formed_token(#[trigger] ts[k]),
{
    if let Ok(ts) = rest {
        let all = seq![t] + ts;
        assert forall|k: int| 0 <= k < all.len() implies well_formed_token(#[trigger] all[k]) by {
            if k > 0 {
                assert(all[k] == ts[k - 1]);
            }
        }
    }
}

proof fn lemma_lex_from_well_formed(s: Seq<char>, i: int)
    requires
        0 <= i,
    ensures
        lex_from(s, i) matches Ok(ts) ==> forall|k: int|
            0 <= k < ts.len() ==> well_formed_token(#[trigger] ts[k]),
    decreases s.len() - i,
{
    if i < s.len() {
        let c = s[i];
        if is_space(c) {
            lemma_lex_from_well_formed(s, i + 1);
        } else if symbol_token(c) is Some {
            lemma_lex_from_well_formed(s, i + 1);
            lemma_cons_well_formed(symbol_token(c)->0, lex_from(s, i + 1));
        } else if c == '<' || c == '>' || c == '=' || c == '!' {
            lemma_lex_from_well_formed(s, i + 1);
            if i + 2 <= s.len() {
                lemma_lex_from_well_formed(s, i + 2);
            }
            let eq_follows = i + 1 < s.len() && s[i + 1] == '=';
            if eq_follows {
                let t = if c == '<' {
                    TokenV::LessEqual
                } else if c == '>' {
                    TokenV::GreaterEqual
                } else if c == '=' {
                    TokenV::Equal
                } else {
                    TokenV::NotEqual
                };
                lemma_cons_well_formed(t, lex_from(s, i + 2));
            } else if c != '!' {
                let t = if c == '<' {
                    TokenV::Less
                } else if c == '>' {
                    TokenV::Greater
                } else {
                    TokenV::Assign
                };
                lemma_cons_well_formed(t, lex_from(s, i + 1));
            }
        } else if is_word_start(c) {
            let j = word_end(s, i);
            lemma_word_end(s, i + 1);
            lemma_lex_from_well_formed(s, j);
            lemma_cons_well_formed(word_token(s.subrange(i, j)), lex_from(s, j));
        } else if is_decimal_digit(c) {
            let j = digits_end(s, i);
            lemma_digits_end(s, i + 1);
            lemma_digits_end_digits(s, i);
            let d = s.subrange(i, j);
            assert forall|k: int| 0 <= k < d.len() implies is_decimal_digit(#[trigger] d[k]) by {
                assert(d[k] == s[i + k]);
            }
            lemma_digits_value_nonnegative(d);
            lemma_lex_from_well_formed(s, j);
            if digits_value(d) <= i32::MAX {
                lemma_cons_well_formed(TokenV::Number(digits_value(d) as i32), lex_from(s, j));
            }
        } else {
            lemma_lex_from_well_formed(s, i + 1);
        }
    }
}

/// Every token of a text is well formed: the lexer never gives a negative
/// number, an empty identifier, or a keyword as an identifier.
pub proof fn lemma_tokens_well_formed(code: Seq<char>)
    ensures
        spec_tokenize(code) matches Ok(ts) ==> forall|k: int|
            0 <= k < ts.len() ==> well_formed_token(#[trigger] ts[k]),
{
    lemma_lex_from_well_formed(code, 0);
}


/// A character with which no token starts: the lexer skips it, as it skips a blank.
pub open spec fn starts_no_token(c: char) -> bool {
    &&& !is_word_char(c)
    &&& !is_decimal_digit(c)
    &&& symbol_token(c) is None
    &&& c != '<' && c != '>' && c != '=' && c != '!'
}

/// The tokens of `first`, then the result of `second`; or the error of `first`.
pub open spec fn join(
    first: Result<Seq<TokenV>, LexError>,
    second: Result<Seq<TokenV>, LexError>,
) -> Result<Seq<TokenV>, LexError> {
    match first {
        Ok(ts) => prepend(ts, second),
        Err(e) => Err(e),
    }
}

proof fn lemma_join_cons(t: TokenV, y: Result<Seq<TokenV>, LexError>, x: Result<Seq<TokenV>, LexError>)
    ensures
        join(cons(t, y), x) == cons(t, join(y, x)),
{
    match (y, x) {
        (Ok(ys), Ok(xs)) => {
            assert((seq![t] + ys) + xs =~= seq![t] + (ys + xs));
        },
        _ => {},
    }
}

proof fn lemma_word_end_prefix(a: Seq<char>, rest: Seq<char>, i: int)
    requires
        0 <= i <= a.len(),
        rest.len() > 0,
        !is_word_char(rest[0]),
    ensures
        word_end(a + rest, i) == word_end(a, i),
    decreases a.len() - i,
{
    let s = a + rest;
    if i < a.len() {
        assert(s[i] == a[i]);
        if is_word_char(a[i]) {
            lemma_word_end_prefix(a, rest, i + 1);
        }
    } else {
        assert(s[i] == rest[0]);
    }
}

proof fn lemma_digits_end_prefix(a: Seq<char>, rest: Seq<char>, i: int)
    requires
        0 <= i <= a.len(),
        rest.len() > 0,
        !is_decimal_digit(rest[0]),
    ensures
        digits_end(a + rest, i) == digits_end(a, i),
    decreases a.len() - i,
{
    let s = a + rest;
    if i < a.len() {
        assert(s[i] == a[i]);
        if is_decimal_digit(a[i]) {
            lemma_digits_end_prefix(a, rest, i + 1);
        }
    } else {
        assert(s[i] == rest[0]);
    }
}

/// Lexing `a ++ rest`, where `rest` starts with a character that starts no
/// token, lexes `a` and then goes on at the end of `a`.
proof fn lemma_lex_prefix(a: Seq<char>, rest: Seq<char>, i: int)
    requires
        0 <= i <= a.len(),
        rest.len() > 0,
        starts_no_token(rest[0]),
    ensures
        lex_from(a + rest, i) == join(lex_from(a, i), lex_from(a + rest, a.len() as int)),
    decreases a.len() - i,
{
    let s = a + rest;
    let n = a.len() as int;
    if i == n {
        match lex_from(s, n) {
            Ok(ts) => assert(Seq::<TokenV>::empty() + ts =~= ts),
            Err(_) => {},
        }
    } else {
        let c = a[i];
        assert(s[i] == c);
        if i + 1 < n {
            assert(s[i + 1] == a[i + 1]);
        } else {
            assert(s[i + 1] == rest[0]);
        }
        let x = lex_from(s, n);
        if is_space(c) {
            lemma_lex_prefix(a, rest, i + 1);
        } else if symbol_token(c) is Some {
            lemma_lex_prefix(a, rest, i + 1);
            lemma_join_cons(symbol_token(c)->0, lex_from(a, i + 1), x);
        } else if c == '<' || c == '>' || c == '=' || c == '!' {
            let eq_follows = i + 1 < n && a[i + 1] == '=';
            if eq_follows {
                lemma_lex_prefix(a, rest, i + 2);
                let t = if c == '<' {
                    TokenV::LessEqual
                } else if c == '>' {
                    TokenV::GreaterEqual
                } else if c == '=' {
                    TokenV::Equal
                } else {
                    TokenV::NotEqual
                };
                lemma_join_cons(t, lex_from(a, i + 2), x);
            } else if c != '!' {
                lemma_lex_prefix(a, rest, i + 1);
                let t = if c == '<' {
                    TokenV::Less
                } else if c == '>' {
                    TokenV::Greater
                } else {
                    TokenV::Assign
                };
                lemma_join_cons(t, lex_from(a, i + 1), x);
            }
        } else if is_word_start(c) {
            lemma_word_end_prefix(a, rest, i);
            lemma_word_end(a, i + 1);
            let j = word_end(a, i);
            assert(s.subrange(i, j) =~= a.subrange(i, j));
            lemma_lex_prefix(a, rest, j);
            lemma_join_cons(word_token(a.subrange(i, j)), lex_from(a, j), x);
        } else if is_decimal_digit(c) {
            lemma_digits_end_prefix(a, rest, i);
            lemma_digits_end(a, i + 1);
            let j = digits_end(a, i);
            assert(s.subrange(i, j) =~= a.subrange(i, j));
            lemma_lex_prefix(a, rest, j);
            let v = digits_value(a.subrange(i, j));
            if v <= i32::MAX {
                lemma_join_cons(TokenV::Number(v as i32), lex_from(a, j), x);
            }
        } else {
            lemma_lex_prefix(a, rest, i + 1);
        }
    }
}


/// `r` with the position of its error, if any, moved on by `n` characters.
pub open spec fn shift_error(r: Result<Seq<TokenV>, LexError>, n: int) -> Result<
    Seq<TokenV>,
    LexError,
> {
    match r {
        Ok(ts) => Ok(ts),
        Err(LexError::UnexpectedBang(p)) => Err(LexError::UnexpectedBang((p + n) as usize)),
        Err(LexError::NumberTooLarge(p)) => Err(LexError::NumberTooLarge((p + n) as usize)),
    }
}

proof fn lemma_word_end_shift(pre: Seq<char>, b: Seq<char>, j: int)
    requires
        0 <= j <= b.len(),
    ensures
        word_end(pre + b, pre.len() + j) == pre.len() + word_end(b, j),
    decreases b.len() - j,
{
    let s = pre + b;
    if j < b.len() {
        assert(s[pre.len() + j] == b[j]);
        if is_word_char(b[j]) {
            lemma_word_end_shift(pre, b, j + 1);
        }
    }
}

proof fn lemma_digits_end_shift(pre: Seq<char>, b: Seq<char>, j: int)
    requires
        0 <= j <= b.len(),
    ensures
        digits_end(pre + b, pre.len() + j) == pre.len() + digits_end(b, j),
    decreases b.len() - j,
{
    let s = pre + b;
    if j < b.len() {
        assert(s[pre.len() + j] == b[j]);
        if is_decimal_digit(b[j]) {
            lemma_digits_end_shift(pre, b, j + 1);
        }
    }
}

/// Lexing `pre ++ b` from the start of `b` on reads the tokens of `b`; an
/// error is the error of `b`, at its position in the whole text.
proof fn lemma_lex_shift(pre: Seq<char>, b: Seq<char>, j: int)
    requires
        0 <= j <= b.len(),
    ensures
        lex_from(b, j) is Ok ==> lex_from(pre + b, pre.len() + j) == lex_from(b, j),
        lex_from(b, j) is Err ==> lex_from(pre + b, pre.len() + j) is Err,
        pre.len() + b.len() <= usize::MAX ==> lex_from(pre + b, pre.len() + j) == shift_error(
            lex_from(b, j),
            pre.len() as int,
        ),
    decreases b.len() - j,
{
    let s = pre + b;
    let n = pre.len() as int;
    if j < b.len() {
        let c = b[j];
        assert(s[n + j] == c);
        if j + 1 < b.len() {
            assert(s[n + j + 1] == b[j + 1]);
        }
        if is_space(c) || starts_no_token(c) {
            lemma_lex_shift(pre, b, j + 1);
        } else if symbol_token(c) is Some || c == '<' || c == '>' || c == '=' || c == '!' {
            lemma_lex_shift(pre, b, j + 1);
            if j + 2 <= b.len() {
                lemma_lex_shift(pre, b, j + 2);
            }
        } else if is_word_start(c) {
            lemma_word_end_shift(pre, b, j);
            lemma_word_end(b, j + 1);
            let e = word_end(b, j);
            assert(s.subrange(n + j, n + e) =~= b.subrange(j, e));
            lemma_lex_shift(pre, b, e);
        } else if is_decimal_digit(c) {
            lemma_digits_end_shift(pre, b, j);
            lemma_digits_end(b, j + 1);
            let e = digits_end(b, j);
            assert(s.subrange(n + j, n + e) =~= b.subrange(j, e));
            lemma_lex_shift(pre, b, e);
        } else {
            lemma_lex_shift(pre, b, j + 1);
        }
    }
}

/// Two texts that differ only before the same index `n` lex alike from `n` on.
proof fn lemma_lex_same_suffix(pre1: Seq<char>, pre2: Seq<char>, b: Seq<char>, j: int)
    requires
        pre1.len() == pre2.len(),
        0 <= j <= b.len(),
    ensures
        lex_from(pre1 + b, pre1.len() + j) == lex_from(pre2 + b, pre2.len() + j),
    decreases b.len() - j,
{
    let s1 = pre1 + b;
    let s2 = pre2 + b;
    let n = pre1.len() as int;
    if j < b.len() {
        let c = b[j];
        assert(s1[n + j] == c && s2[n + j] == c);
        if j + 1 < b.len() {
            assert(s1[n + j + 1] == b[j + 1] && s2[n + j + 1] == b[j + 1]);
        }
        if is_space(c) || starts_no_token(c) {
            lemma_lex_same_suffix(pre1, pre2, b, j + 1);
        } else if symbol_token(c) is Some || c == '<' || c == '>' || c == '=' || c == '!' {
            lemma_lex_same_suffix(pre1, pre2, b, j + 1);
            if j + 2 <= b.len() {
                lemma_lex_same_suffix(pre1, pre2, b, j + 2);
            }
        } else if is_word_start(c) {
            lemma_word_end_shift(pre1, b, j);
            lemma_word_end_shift(pre2, b, j);
            lemma_word_end(b, j + 1);
            let e = word_end(b, j);
            assert(s1.subrange(n + j, n + e) =~= b.subrange(j, e));
            assert(s2.subrange(n + j, n + e) =~= b.subrange(j, e));
            lemma_lex_same_suffix(pre1, pre2, b, e);
        } else if is_decimal_digit(c) {
            lemma_digits_end_shift(pre1, b, j);
            lemma_digits_end_shift(pre2, b, j);
            lemma_digits_end(b, j + 1);
            let e = digits_end(b, j);
            assert(s1.subrange(n + j, n + e) =~= b.subrange(j, e));
            assert(s2.subrange(n + j, n + e) =~= b.subrange(j, e));
            lemma_lex_same_suffix(pre1, pre2, b, e);
        } else {
            lemma_lex_same_suffix(pre1, pre2, b, j + 1);
        }
    }
}

/// A blank between two texts separates their tokens: the text `a`, a blank,
/// then `b` is tokenized exactly when both `a` and `b` are, into the tokens of
/// `a` followed by those of `b`. When it fails, the error is that of `a`, or
/// else that of `b` at its place in the whole text.
pub proof fn lemma_blank_separates(a: Seq<char>, b: Seq<char>, w: char)
    requires
        is_space(w),
    ensures
        spec_tokenize(a + seq![w] + b) is Ok <==> (spec_tokenize(a) is Ok && spec_tokenize(b) is Ok),
        spec_tokenize(a) matches Ok(ta) ==> (spec_tokenize(b) matches Ok(tb) ==> spec_tokenize(
            a + seq![w] + b,
        ) == Ok::<Seq<TokenV>, LexError>(ta + tb)),
        a.len() + 1 + b.len() <= usize::MAX ==> spec_tokenize(a + seq![w] + b) == join(
            spec_tokenize(a),
            shift_error(spec_tokenize(b), a.len() + 1int),
        ),
{
    let rest = seq![w] + b;
    let pre = a + seq![w];
    let s = a + seq![w] + b;
    assert(s =~= a + rest);
    assert(s =~= pre + b);
    assert(rest[0] == w);
    lemma_lex_prefix(a, rest, 0);
    assert(s[a.len() as int] == w);
    assert(lex_from(s, a.len() as int) == lex_from(s, a.len() + 1int));
    lemma_lex_shift(pre, b, 0);
    assert(pre.len() == a.len() + 1);
}

/// A character that starts no token acts as a blank: putting it between two
/// texts tokenizes as putting a space there, with the same tokens or the same
/// error.
pub proof fn lemma_unknown_char_is_blank(a: Seq<char>, b: Seq<char>, c: char)
    requires
        starts_no_token(c),
    ensures
        spec_tokenize(a + seq![c] + b) == spec_tokenize(a + seq![' '] + b),
{
    let s1 = a + seq![c] + b;
    let s2 = a + seq![' '] + b;
    let n = a.len() as int;
    assert(s1 =~= a + (seq![c] + b));
    assert(s2 =~= a + (seq![' '] + b));
    assert((seq![c] + b)[0] == c);
    assert((seq![' '] + b)[0] == ' ');
    lemma_lex_prefix(a, seq![c] + b, 0);
    lemma_lex_prefix(a, seq![' '] + b, 0);
    assert(s1[n] == c);
    assert(s2[n] == ' ');
    assert(lex_from(s1, n) == lex_from(s1, n + 1));
    assert(lex_from(s2, n) == lex_from(s2, n + 1));
    assert(s1 =~= (a + seq![c]) + b);
    assert(s2 =~= (a + seq![' ']) + b);
    lemma_lex_same_suffix(a + seq![c], a + seq![' '], b, 0);
}


/// A run of word characters from `j` reaches the end.
proof fn lemma_word_end_all(w: Seq<char>, j: int)
    requires
        0 <= j <= w.len(),
        forall|i: int| j <= i < w.len() ==> is_word_char(#[trigger] w[i]),
    ensures
        word_end(w, j) == w.len(),
    decreases w.len() - j,
{
    if j < w.len() {
        lemma_word_end_all(w, j + 1);
    }
}

/// Every character with the Unicode `Alphabetic` property starts a word, ASCII
/// or not: a text made of such a character followed by alphanumeric characters
/// and underscores is one word, read whole.
pub proof fn lemma_alphabetic_starts_word(c: char, s: Seq<char>)
    requires
        alphabetic(c),
        forall|i: int| 0 <= i < s.len() ==> alphanumeric(#[trigger] s[i]) || s[i] == '_',
    ensures
        spec_tokenize(seq![c] + s) == Ok::<Seq<TokenV>, LexError>(seq![word_token(seq![c] + s)]),
{
    let w = seq![c] + s;
    assert(w[0] == c);
    assert forall|i: int| 0 <= i < w.len() implies is_word_char(#[trigger] w[i]) by {
        if i > 0 {
            assert(w[i] == s[i - 1]);
        }
    }
    lemma_word_end_all(w, 0);
    assert(w.subrange(0, w.len() as int) =~= w);
    assert(lex_from(w, w.len() as int) == Ok::<Seq<TokenV>, LexError>(seq![]));
    assert(seq![word_token(w)] + Seq::<TokenV>::empty() =~= seq![word_token(w)]);
}

} // verus!
