//! The source-language lexer: turns an ASCII source text into a token
//! stream ending in `Token::End`.  Braces, parentheses and semicolons are
//! single-character tokens; a digit starts an integer token; an ASCII letter
//! or underscore starts an identifier, with `return` and `int` as keywords.
//! The scan of an integer re-reads its first digit, so the token's value
//! carries that digit twice: the value of `12` is 112.  [`lex`] requires a
//! source on which the scan succeeds; anything else is out of its domain.

use vstd::prelude::*;
use vstd::string::StrSliceExecFns;
use vstd::string::StringExecFns;
use vstd::string::StringExecFnsIsAscii;

verus! {

/// One token of the source language.
#[derive(Debug, PartialEq, Eq)]
pub enum Token {
    OpenBrace,
    CloseBrace,
    OpenParen,
    CloseParen,
    Semicolon,
    Int,
    Return,
    Identifier(String),
    Integer(i32),
    End,
}

/// The mathematical shape of a token: an identifier is its characters.
pub ghost enum TokenModel {
    OpenBrace,
    CloseBrace,
    OpenParen,
    CloseParen,
    Semicolon,
    Int,
    Return,
    Identifier(Seq<char>),
    Integer(i32),
    End,
}

/// The model of one executable token.
pub open spec fn token_model(t: Token) -> TokenModel {
    match t {
        Token::OpenBrace => TokenModel::OpenBrace,
        Token::CloseBrace => TokenModel::CloseBrace,
        Token::OpenParen => TokenModel::OpenParen,
        Token::CloseParen => TokenModel::CloseParen,
        Token::Semicolon => TokenModel::Semicolon,
        Token::Int => TokenModel::Int,
        Token::Return => TokenModel::Return,
        Token::Identifier(s) => TokenModel::Identifier(s@),
        Token::Integer(n) => TokenModel::Integer(n),
        Token::End => TokenModel::End,
    }
}

/// The models of a token vector, in order.
pub open spec fn token_models(ts: Seq<Token>) -> Seq<TokenModel> {
    ts.map_values(|t: Token| token_model(t))
}

/// ASCII whitespace, as the scan skips it.
pub open spec fn is_space_char(c: char) -> bool {
    c == ' ' || c == '\t' || c == '\n' || c == '\r' || c == '\x0b' || c == '\x0c'
}

/// An ASCII decimal digit.
pub open spec fn is_digit_char(c: char) -> bool {
    '0' <= c && c <= '9'
}

/// A character that may start an identifier.
pub open spec fn is_ident_start(c: char) -> bool {
    ('a' <= c && c <= 'z') || ('A' <= c && c <= 'Z') || c == '_'
}

/// A character that may continue an identifier.
pub open spec fn is_ident_char(c: char) -> bool {
    is_digit_char(c) || is_ident_start(c)
}

/// The first position at or after `i` that does not continue a digit run.
pub open spec fn digit_run_end(s: Seq<char>, i: int) -> int
    decreases s.len() - i,
{
    if i < 0 || i >= s.len() || !is_digit_char(s[i]) {
        i
    } else {
        digit_run_end(s, i + 1)
    }
}

/// The first position at or after `i` that does not continue an identifier.
pub open spec fn ident_run_end(s: Seq<char>, i: int) -> int
    decreases s.len() - i,
{
    if i < 0 || i >= s.len() || !is_ident_char(s[i]) {
        i
    } else {
        ident_run_end(s, i + 1)
    }
}

/// A run end lies between its start and the end of the text, and a run
/// whose first character matches is at least one character long.
pub proof fn lemma_digit_run_end_bounds(s: Seq<char>, i: int)
    requires
        0 <= i <= s.len(),
    ensures
        i <= digit_run_end(s, i) <= s.len(),
        i < s.len() && is_digit_char(s[i]) ==> digit_run_end(s, i) > i,
    decreases s.len() - i,
{
    if i < s.len() && is_digit_char(s[i]) {
        lemma_digit_run_end_bounds(s, i + 1);
    }
}

/// As [`lemma_digit_run_end_bounds`], for identifier runs.
pub proof fn lemma_ident_run_end_bounds(s: Seq<char>, i: int)
    requires
        0 <= i <= s.len(),
    ensures
        i <= ident_run_end(s, i) <= s.len(),
        i < s.len() && is_ident_char(s[i]) ==> ident_run_end(s, i) > i,
    decreases s.len() - i,
{
    if i < s.len() && is_ident_char(s[i]) {
        lemma_ident_run_end_bounds(s, i + 1);
    }
}

/// The numeric value of a sequence of decimal digits, most significant
/// first.
pub open spec fn dec_val(s: Seq<char>) -> int
    decreases s.len(),
{
    if s.len() == 0 {
        0
    } else {
        dec_val(s.drop_last()) * 10 + (s.last() as u32 - '0' as u32)
    }
}

/// The value of the integer token scanned at a digit at position `i`: the
/// scan pushes that first digit, then re-reads the whole run, so the first
/// digit counts twice.
pub open spec fn int_token_value(s: Seq<char>, i: int) -> int {
    dec_val(seq![s[i]] + s.subrange(i, digit_run_end(s, i)))
}

/// The keyword or identifier token for a scanned word.
pub open spec fn word_token(w: Seq<char>) -> TokenModel {
    if w == "return"@ {
        TokenModel::Return
    } else if w == "int"@ {
        TokenModel::Int
    } else {
        TokenModel::Identifier(w)
    }
}

/// Whether the scan succeeds from position `i` on: every non-space
/// character starts a token, and every integer token's value fits in `i32`.
pub open spec fn lexable(s: Seq<char>, i: int) -> bool
    decreases s.len() - i,
    when 0 <= i <= s.len()
    via lexable_decreases
{
    if i >= s.len() {
        true
    } else if is_space_char(s[i]) || s[i] == '{' || s[i] == '}' || s[i] == '(' || s[i] == ')'
        || s[i] == ';' {
        lexable(s, i + 1)
    } else if is_digit_char(s[i]) {
        int_token_value(s, i) <= i32::MAX && lexable(s, digit_run_end(s, i))
    } else if is_ident_start(s[i]) {
        lexable(s, ident_run_end(s, i))
    } else {
        false
    }
}

#[via_fn]
proof fn lexable_decreases(s: Seq<char>, i: int) {
    if 0 <= i < s.len() {
        lemma_digit_run_end_bounds(s, i);
        lemma_ident_run_end_bounds(s, i);
    }
}

/// The token stream the scan produces from position `i` on, ending in the
/// end marker.
pub open spec fn lex_spec(s: Seq<char>, i: int) -> Seq<TokenModel>
    decreases s.len() - i,
    when 0 <= i <= s.len() && lexable(s, i)
    via lex_spec_decreases
{
    if i >= s.len() {
        seq![TokenModel::End]
    } else if is_space_char(s[i]) {
        lex_spec(s, i + 1)
    } else if s[i] == '{' {
        seq![TokenModel::OpenBrace] + lex_spec(s, i + 1)
    } else if s[i] == '}' {
        seq![TokenModel::CloseBrace] + lex_spec(s, i + 1)
    } else if s[i] == '(' {
        seq![TokenModel::OpenParen] + lex_spec(s, i + 1)
    } else if s[i] == ')' {
        seq![TokenModel::CloseParen] + lex_spec(s, i + 1)
    } else if s[i] == ';' {
        seq![TokenModel::Semicolon] + lex_spec(s, i + 1)
    } else if is_digit_char(s[i]) {
        seq![TokenModel::Integer(int_token_value(s, i) as i32)] + lex_spec(s, digit_run_end(s, i))
    } else {
        seq![word_token(s.subrange(i, ident_run_end(s, i)))] + lex_spec(s, ident_run_end(s, i))
    }
}

#[via_fn]
proof fn lex_spec_decreases(s: Seq<char>, i: int) {
    if 0 <= i < s.len() {
        lemma_digit_run_end_bounds(s, i);
        lemma_ident_run_end_bounds(s, i);
    }
}

/// Digit values are non-negative, and the value of a prefix of a digit run
/// never exceeds the value of the whole run.
proof fn lemma_dec_val_prefix(s: Seq<char>, k: int)
    requires
        0 <= k <= s.len(),
        forall|j: int| 0 <= j < s.len() ==> is_digit_char(#[trigger] s[j]),
    ensures
        0 <= dec_val(s.take(k)) <= dec_val(s),
    decreases s.len() - k,
{
    lemma_dec_val_nonneg(s.take(k));
    if k < s.len() {
        lemma_dec_val_prefix(s, k + 1);
        assert(s.take(k + 1).drop_last() =~= s.take(k));
        assert(dec_val(s.take(k + 1)) == dec_val(s.take(k)) * 10 + (s[k] as u32 - '0' as u32));
    } else {
        assert(s.take(k) =~= s);
    }
}

/// The value of a digit sequence is non-negative.
proof fn lemma_dec_val_nonneg(s: Seq<char>)
    requires
        forall|j: int| 0 <= j < s.len() ==> is_digit_char(#[trigger] s[j]),
    ensures
        dec_val(s) >= 0,
    decreases s.len(),
{
    if s.len() > 0 {
        lemma_dec_val_nonneg(s.drop_last());
    }
}

/// ASCII whitespace, executably.
pub fn is_space(c: char) -> (r: bool)
    ensures
        r == is_space_char(c),
{
    c == ' ' || c == '\t' || c == '\n' || c == '\r' || c == '\x0b' || c == '\x0c'
}

/// An ASCII decimal digit, executably.
pub fn is_digit(c: char) -> (r: bool)
    ensures
        r == is_digit_char(c),
{
    '0' <= c && c <= '9'
}

/// An identifier start, executably.
fn is_ident_start_exec(c: char) -> (r: bool)
    ensures
        r == is_ident_start(c),
{
    ('a' <= c && c <= 'z') || ('A' <= c && c <= 'Z') || c == '_'
}

/// An identifier continuation, executably.
fn is_ident_char_exec(c: char) -> (r: bool)
    ensures
        r == is_ident_char(c),
{
    is_digit(c) || is_ident_start_exec(c)
}

/// Scan an ASCII source text into its token stream, ended by the end
/// marker, exactly as [`lex_spec`] says.
pub fn lex(code: String) -> (tokens: Vec<Token>)
    requires
        code.is_ascii(),
        lexable(code@, 0),
    ensures
        token_models(tokens@) == lex_spec(code@, 0),
{
    let s = code.as_str();
    let n = s.unicode_len();
    let mut tokens: Vec<Token> = Vec::new();
    let mut i: usize = 0;
    while i < n
        invariant
            code.is_ascii(),
            s@ == code@,
            n == code@.len(),
            0 <= i <= n,
            lexable(code@, i as int),
            token_models(tokens@) + lex_spec(code@, i as int) == lex_spec(code@, 0),
        decreases n - i,
    {
        let ghost prev = tokens@;
        let c = s.get_char(i);
        if is_space(c) {
            i += 1;
        } else if c == '{' {
            tokens.push(Token::OpenBrace);
            i += 1;
        } else if c == '}' {
            tokens.push(Token::CloseBrace);
            i += 1;
        } else if c == '(' {
            tokens.push(Token::OpenParen);
            i += 1;
        } else if c == ')' {
            tokens.push(Token::CloseParen);
            i += 1;
        } else if c == ';' {
            tokens.push(Token::Semicolon);
            i += 1;
        } else if is_digit(c) {
            proof {
                lemma_digit_run_end_bounds(code@, i as int);
            }
            let ghost start = i as int;
            let ghost run_end = digit_run_end(code@, start);
            let ghost dup = seq![code@[start]] + code@.subrange(start, run_end);
            proof {
                assert(forall|j: int| 0 <= j < dup.len() ==> is_digit_char(#[trigger] dup[j]))
                    by {
                    assert(forall|j: int|
                        start <= j < run_end ==> is_digit_char(#[trigger] code@[j])) by {
                        lemma_digit_run_covered(code@, start, run_end);
                    }
                }
                lemma_dec_val_prefix(dup, dup.len() as int);
            }
            let first = digit_value(c);
            let mut v: i32 = first as i32;
            proof {
                lemma_dec_val_prefix(dup, 1);
                assert(dup.len() >= 1);
                assert(dup.take(1) =~= seq![code@[start]]);
                assert(dup.take(1).drop_last() =~= Seq::<char>::empty());
                assert(dup.take(1).last() == code@[start]);
                assert(dec_val(Seq::<char>::empty()) == 0);
                assert(dec_val(dup.take(1)) == dec_val(dup.take(1).drop_last()) * 10 + (dup.take(
                    1,
                ).last() as u32 - '0' as u32));
                assert(v == dec_val(dup.take(1)));
            }
            let mut j = i;
            while j < n && is_digit(s.get_char(j))
                invariant
                    code.is_ascii(),
                    s@ == code@,
                    n == code@.len(),
                    start <= j <= n,
                    start <= run_end <= n,
                    digit_run_end(code@, start) == digit_run_end(code@, j as int),
                    run_end == digit_run_end(code@, start),
                    dup == seq![code@[start]] + code@.subrange(start, run_end),
                    forall|k: int| 0 <= k < dup.len() ==> is_digit_char(#[trigger] dup[k]),
                    forall|k: int| start <= k < j ==> is_digit_char(#[trigger] code@[k]),
                    j as int - start + 1 <= dup.len(),
                    v == dec_val(dup.take(j as int - start + 1)),
                    0 <= dec_val(dup.take(j as int - start + 1)) <= dec_val(dup),
                    dec_val(dup) <= i32::MAX,
                decreases n - j,
            {
                let cj = s.get_char(j);
                let d = digit_value(cj);
                proof {
                    lemma_digit_run_end_bounds(code@, j as int);
                    assert(digit_run_end(code@, j as int) == digit_run_end(code@, j + 1));
                    assert(j < run_end);
                    lemma_dec_val_prefix(dup, j as int - start + 2);
                    assert(dup.take(j as int - start + 2).drop_last() =~= dup.take(
                        j as int - start + 1,
                    ));
                    assert(dup.take(j as int - start + 2).last() == dup[j as int - start + 1]);
                    assert(dup[j as int - start + 1] == code@.subrange(start, run_end)[j as int
                        - start]);
                    assert(dup[j as int - start + 1] == code@[j as int]);
                }
                v = v * 10 + d as i32;
                j += 1;
            }
            proof {
                assert(j as int == run_end);
                assert(dup.take(j as int - start + 1) =~= dup);
                assert(v == int_token_value(code@, start));
            }
            tokens.push(Token::Integer(v));
            i = j;
        } else if is_ident_start_exec(c) {
            proof {
                lemma_ident_run_end_bounds(code@, i as int);
            }
            let ghost start = i as int;
            let mut j = i;
            while j < n && is_ident_char_exec(s.get_char(j))
                invariant
                    code.is_ascii(),
                    s@ == code@,
                    n == code@.len(),
                    start <= j <= n,
                    ident_run_end(code@, start) == ident_run_end(code@, j as int),
                decreases n - j,
            {
                j += 1;
            }
            proof {
                assert(j as int == ident_run_end(code@, start));
            }
            let word = String::from_str(s.substring_ascii(i, j));
            let returnword = String::from_str("return");
            let intword = String::from_str("int");
            if word == returnword {
                proof {
                    reveal_strlit("return");
                }
                tokens.push(Token::Return);
            } else if word == intword {
                proof {
                    reveal_strlit("int");
                }
                tokens.push(Token::Int);
            } else {
                proof {
                    reveal_strlit("return");
                    reveal_strlit("int");
                }
                tokens.push(Token::Identifier(word));
            }
            i = j;
        } else {
            unreached()
        }
        proof {
            assert(token_models(tokens@) + lex_spec(code@, i as int) =~= lex_spec(code@, 0));
        }
    }
    tokens.push(Token::End);
    proof {
        assert(token_models(tokens@) =~= lex_spec(code@, 0));
    }
    tokens
}

/// Every position of a digit run before its end holds a digit.
proof fn lemma_digit_run_covered(s: Seq<char>, i: int, e: int)
    requires
        0 <= i <= s.len(),
        e == digit_run_end(s, i),
    ensures
        forall|j: int| i <= j < e ==> is_digit_char(#[trigger] s[j]),
    decreases s.len() - i,
{
    lemma_digit_run_end_bounds(s, i);
    if i < s.len() && is_digit_char(s[i]) {
        lemma_digit_run_covered(s, i + 1, e);
    }
}

/// The numeric value of one digit character.
fn digit_value(c: char) -> (d: u8)
    requires
        is_digit_char(c),
    ensures
        d == c as u32 - '0' as u32,
        d <= 9,
{
    (c as u8) - ('0' as u8)
}

} // verus!
