//! Tokens and the tokenizer.
//!
//! A line of input is cut left to right into single-character operator and
//! parenthesis tokens, number literals (maximal runs of digits and dots,
//! carried as their text), the keyword `inf`, and a trailing end-of-input
//! sentinel; whitespace is skipped. The function [`spec_tokenize`] is the
//! mathematical definition, and the executable [`tokenize`] is proved to
//! return exactly its result.

use vstd::prelude::*;
use vstd::string::StrSliceExecFns;
use vstd::string::StringExecFns;

use crate::error::{Error, ErrorV};

verus! {

/// The payload of a number token: either the literal text of a finite
/// decimal (digits with at most one dot), or positive infinity, written
/// `inf` in the input.
#[derive(Debug, PartialEq)]
pub enum Value {
    Lit(String),
    Inf,
}

/// One lexical unit of an input line.
#[derive(Debug, PartialEq)]
pub enum Token {
    Num(Value),
    Plus,
    Minus,
    Star,
    Slash,
    LeftParen,
    RightParen,
    /// The sentinel appended after the last real token, so that the parser
    /// can treat "end of input" like any other expected terminator.
    Eof,
}

/// The mathematical shadow of [`Value`].
pub ghost enum ValueV {
    Lit(Seq<char>),
    Inf,
}

/// The mathematical shadow of [`Token`].
pub ghost enum TokenV {
    Num(ValueV),
    Plus,
    Minus,
    Star,
    Slash,
    LeftParen,
    RightParen,
    Eof,
}

impl View for Value {
    type V = ValueV;

    open spec fn view(&self) -> ValueV {
        match self {
            Value::Lit(text) => ValueV::Lit(text@),
            Value::Inf => ValueV::Inf,
        }
    }
}

impl View for Token {
    type V = TokenV;

    open spec fn view(&self) -> TokenV {
        match self {
            Token::Num(v) => TokenV::Num(v@),
            Token::Plus => TokenV::Plus,
            Token::Minus => TokenV::Minus,
            Token::Star => TokenV::Star,
            Token::Slash => TokenV::Slash,
            Token::LeftParen => TokenV::LeftParen,
            Token::RightParen => TokenV::RightParen,
            Token::Eof => TokenV::Eof,
        }
    }
}

/// The views of a token sequence, element by element.
pub open spec fn token_views(ts: Seq<Token>) -> Seq<TokenV> {
    ts.map_values(|t: Token| t@)
}

/// A decimal digit.
pub open spec fn is_digit_char(c: char) -> bool {
    c == '0' || c == '1' || c == '2' || c == '3' || c == '4' || c == '5' || c == '6' || c == '7'
        || c == '8' || c == '9'
}

/// A character that may appear inside a number literal.
pub open spec fn is_num_char(c: char) -> bool {
    is_digit_char(c) || c == '.'
}

/// The Unicode white-space characters, the set `char::is_whitespace` accepts.
pub open spec fn is_space_char(c: char) -> bool {
    c == '\u{0009}' || c == '\u{000A}' || c == '\u{000B}' || c == '\u{000C}' || c == '\u{000D}'
        || c == ' ' || c == '\u{0085}' || c == '\u{00A0}' || c == '\u{1680}' || c == '\u{2000}'
        || c == '\u{2001}' || c == '\u{2002}' || c == '\u{2003}' || c == '\u{2004}'
        || c == '\u{2005}' || c == '\u{2006}' || c == '\u{2007}' || c == '\u{2008}'
        || c == '\u{2009}' || c == '\u{200A}' || c == '\u{2028}' || c == '\u{2029}'
        || c == '\u{202F}' || c == '\u{205F}' || c == '\u{3000}'
}

/// How many dots a piece of text holds.
pub open spec fn dot_count(t: Seq<char>) -> int
    decreases t.len(),
{
    if t.len() == 0 {
        0
    } else {
        dot_count(t.drop_last()) + if t.last() == '.' {
            1int
        } else {
            0int
        }
    }
}

/// A valid number literal: digits and dots only, at least one digit, at most
/// one dot. Exactly these runs are accepted by the tokenizer, and exactly
/// these are the finite decimals a machine-float reader accepts.
pub open spec fn valid_number(t: Seq<char>) -> bool {
    &&& t.len() >= 1
    &&& forall|k: int| 0 <= k < t.len() ==> is_num_char(#[trigger] t[k])
    &&& dot_count(t) <= 1
    &&& dot_count(t) < t.len()
}

/// Where the maximal run of digits and dots starting at `i` ends: the first
/// position at or after `i` holding no such character.
pub open spec fn num_run_end(s: Seq<char>, i: int) -> int
    decreases s.len() - i,
{
    if i < 0 || i >= s.len() || !is_num_char(s[i]) {
        i
    } else {
        num_run_end(s, i + 1)
    }
}

/// `num_run_end` names the end of the run exactly: everything from `i` up to
/// it is a number character, and it is the line's end or a non-number
/// character.
pub proof fn lemma_num_run_end(s: Seq<char>, i: int)
    requires
        0 <= i <= s.len(),
    ensures
        i <= num_run_end(s, i) <= s.len(),
        forall|k: int| i <= k < num_run_end(s, i) ==> is_num_char(#[trigger] s[k]),
        num_run_end(s, i) == s.len() || !is_num_char(s[num_run_end(s, i)]),
    decreases s.len() - i,
{
    if i < s.len() && is_num_char(s[i]) {
        lemma_num_run_end(s, i + 1);
    }
}

/// The converse direction: a position with the run's properties is the one
/// `num_run_end` names.
pub proof fn lemma_num_run_end_is(s: Seq<char>, i: int, j: int)
    requires
        0 <= i <= j <= s.len(),
        forall|k: int| i <= k < j ==> is_num_char(#[trigger] s[k]),
        j == s.len() || !is_num_char(s[j]),
    ensures
        num_run_end(s, i) == j,
    decreases j - i,
{
    if i < j {
        lemma_num_run_end_is(s, i + 1, j);
    }
}

/// Prepends one token to a tokenizing outcome, keeping an error as it is.
pub open spec fn cons_token(t: TokenV, rest: Result<Seq<TokenV>, ErrorV>) -> Result<
    Seq<TokenV>,
    ErrorV,
> {
    match rest {
        Ok(ts) => Ok(seq![t] + ts),
        Err(e) => Err(e),
    }
}

/// The tokens of the input from position `i` on, or the first lexical error:
/// one-character operator and parenthesis tokens, `inf`, maximal digit-and-dot
/// runs carried as their text, skipped whitespace, and a final [`TokenV::Eof`].
pub open spec fn spec_tokenize_from(s: Seq<char>, i: int) -> Result<Seq<TokenV>, ErrorV>
    decreases s.len() - i,
    via spec_tokenize_from_decreases
{
    if i < 0 || i >= s.len() {
        Ok(seq![TokenV::Eof])
    } else {
        let c = s[i];
        if c == '(' {
            cons_token(TokenV::LeftParen, spec_tokenize_from(s, i + 1))
        } else if c == ')' {
            cons_token(TokenV::RightParen, spec_tokenize_from(s, i + 1))
        } else if c == '+' {
            cons_token(TokenV::Plus, spec_tokenize_from(s, i + 1))
        } else if c == '-' {
            cons_token(TokenV::Minus, spec_tokenize_from(s, i + 1))
        } else if c == '*' {
            cons_token(TokenV::Star, spec_tokenize_from(s, i + 1))
        } else if c == '/' {
            cons_token(TokenV::Slash, spec_tokenize_from(s, i + 1))
        } else if c == 'i' {
            if i + 2 < s.len() && s[i + 1] == 'n' && s[i + 2] == 'f' {
                cons_token(TokenV::Num(ValueV::Inf), spec_tokenize_from(s, i + 3))
            } else {
                Err(ErrorV::InvalidIdent)
            }
        } else if is_num_char(c) {
            let j = num_run_end(s, i);
            let text = s.subrange(i, j);
            if valid_number(text) {
                cons_token(TokenV::Num(ValueV::Lit(text)), spec_tokenize_from(s, j))
            } else {
                Err(ErrorV::InvalidNumber(text))
            }
        } else if is_space_char(c) {
            spec_tokenize_from(s, i + 1)
        } else {
            Err(ErrorV::UnexpectedChar(c))
        }
    }
}

#[via_fn]
proof fn spec_tokenize_from_decreases(s: Seq<char>, i: int) {
    if 0 <= i < s.len() && is_num_char(s[i]) {
        lemma_num_run_end(s, i);
        assert(num_run_end(s, i) > i);
    }
}

/// The token sequence of a whole line, or its first lexical error.
pub open spec fn spec_tokenize(s: Seq<char>) -> Result<Seq<TokenV>, ErrorV> {
    spec_tokenize_from(s, 0)
}

/// A successful tokenizing always ends in the end-of-input sentinel.
pub proof fn lemma_tokenize_sentinel(s: Seq<char>, i: int)
    ensures
        spec_tokenize_from(s, i) matches Ok(ts) ==> ts.len() >= 1 && ts.last() == TokenV::Eof,
    decreases s.len() - i,
{
    if i < 0 || i >= s.len() {
    } else {
        let c = s[i];
        if c == 'i' {
            if i + 2 < s.len() && s[i + 1] == 'n' && s[i + 2] == 'f' {
                lemma_tokenize_sentinel(s, i + 3);
            }
        } else if c == '(' || c == ')' || c == '+' || c == '-' || c == '*' || c == '/' {
            lemma_tokenize_sentinel(s, i + 1);
        } else if is_num_char(c) {
            lemma_num_run_end(s, i);
            lemma_tokenize_sentinel(s, num_run_end(s, i));
        } else if is_space_char(c) {
            lemma_tokenize_sentinel(s, i + 1);
        }
    }
}

/// Mapping a token sequence's views commutes with appending one token.
proof fn lemma_token_views_push(ts: Seq<Token>, t: Token)
    ensures
        token_views(ts.push(t)) =~= token_views(ts).push(t@),
{
}

/// Appending one dot-or-not character changes the dot count accordingly.
proof fn lemma_dot_count_push(t: Seq<char>, c: char)
    ensures
        dot_count(t.push(c)) == dot_count(t) + if c == '.' {
            1int
        } else {
            0int
        },
{
    assert(t.push(c).drop_last() =~= t);
}

/// One tokenizer step: when the suffix at `i` starts with token `t` and goes
/// on at `j`, the running prefix-composition invariant moves from `i` to `j`.
proof fn lemma_step_token(s: Seq<char>, i: int, vs0: Seq<TokenV>, t: TokenV, vs1: Seq<TokenV>, j: int)
    requires
        spec_tokenize_from(s, i) == cons_token(t, spec_tokenize_from(s, j)),
        vs1 == vs0.push(t),
        match spec_tokenize_from(s, i) {
            Ok(rest) => spec_tokenize(s) == Ok::<Seq<TokenV>, ErrorV>(vs0 + rest),
            Err(e) => spec_tokenize(s) == Err::<Seq<TokenV>, ErrorV>(e),
        },
    ensures
        match spec_tokenize_from(s, j) {
            Ok(rest) => spec_tokenize(s) == Ok::<Seq<TokenV>, ErrorV>(vs1 + rest),
            Err(e) => spec_tokenize(s) == Err::<Seq<TokenV>, ErrorV>(e),
        },
{
    match spec_tokenize_from(s, j) {
        Ok(rest) => {
            assert(vs0 + (seq![t] + rest) =~= vs1 + rest);
        },
        Err(e) => {},
    }
}

/// Decides [`is_num_char`].
fn is_num(c: char) -> (b: bool)
    ensures
        b == is_num_char(c),
{
    c == '0' || c == '1' || c == '2' || c == '3' || c == '4' || c == '5' || c == '6' || c == '7'
        || c == '8' || c == '9' || c == '.'
}

/// Decides [`is_space_char`].
fn is_space(c: char) -> (b: bool)
    ensures
        b == is_space_char(c),
{
    c == '\u{0009}' || c == '\u{000A}' || c == '\u{000B}' || c == '\u{000C}' || c == '\u{000D}'
        || c == ' ' || c == '\u{0085}' || c == '\u{00A0}' || c == '\u{1680}' || c == '\u{2000}'
        || c == '\u{2001}' || c == '\u{2002}' || c == '\u{2003}' || c == '\u{2004}'
        || c == '\u{2005}' || c == '\u{2006}' || c == '\u{2007}' || c == '\u{2008}'
        || c == '\u{2009}' || c == '\u{200A}' || c == '\u{2028}' || c == '\u{2029}'
        || c == '\u{202F}' || c == '\u{205F}' || c == '\u{3000}'
}

/// Turns one line into its token sequence, exactly as [`spec_tokenize`]
/// defines it, or reports the line's first lexical error. By
/// [`lemma_tokenize_sentinel`], a successful result always ends in the
/// end-of-input sentinel.
pub fn tokenize(input: &str) -> (r: Result<Vec<Token>, Error>)
    ensures
        r matches Ok(ts) ==> spec_tokenize(input@) == Ok::<Seq<TokenV>, ErrorV>(
            token_views(ts@),
        ),
        r matches Err(e) ==> spec_tokenize(input@) == Err::<Seq<TokenV>, ErrorV>(e@),
{
    let ghost s = input@;
    let n = input.unicode_len();
    let mut toks: Vec<Token> = Vec::new();
    let mut i: usize = 0;
    proof {
        match spec_tokenize(s) {
            Ok(rest) => {
                assert(token_views(toks@) + rest =~= rest);
            },
            Err(_) => {},
        }
    }
    while i < n
        invariant
            s == input@,
            n == s.len(),
            i <= n,
            match spec_tokenize_from(s, i as int) {
                Ok(rest) => spec_tokenize(s) == Ok::<Seq<TokenV>, ErrorV>(
                    token_views(toks@) + rest,
                ),
                Err(e) => spec_tokenize(s) == Err::<Seq<TokenV>, ErrorV>(e),
            },
        decreases n - i,
    {
        let ghost i0 = i as int;
        let ghost ts0 = toks@;
        let ghost vs0 = token_views(toks@);
        let c = input.get_char(i);
        if c == '(' {
            toks.push(Token::LeftParen);
            i = i + 1;
            proof {
                lemma_token_views_push(ts0, Token::LeftParen);
                lemma_step_token(s, i0, vs0, TokenV::LeftParen, token_views(toks@), i0 + 1);
            }
        } else if c == ')' {
            toks.push(Token::RightParen);
            i = i + 1;
            proof {
                lemma_token_views_push(ts0, Token::RightParen);
                lemma_step_token(s, i0, vs0, TokenV::RightParen, token_views(toks@), i0 + 1);
            }
        } else if c == '+' {
            toks.push(Token::Plus);
            i = i + 1;
            proof {
                lemma_token_views_push(ts0, Token::Plus);
                lemma_step_token(s, i0, vs0, TokenV::Plus, token_views(toks@), i0 + 1);
            }
        } else if c == '-' {
            toks.push(Token::Minus);
            i = i + 1;
            proof {
                lemma_token_views_push(ts0, Token::Minus);
                lemma_step_token(s, i0, vs0, TokenV::Minus, token_views(toks@), i0 + 1);
            }
        } else if c == '*' {
            toks.push(Token::Star);
            i = i + 1;
            proof {
                lemma_token_views_push(ts0, Token::Star);
                lemma_step_token(s, i0, vs0, TokenV::Star, token_views(toks@), i0 + 1);
            }
        } else if c == '/' {
            toks.push(Token::Slash);
            i = i + 1;
            proof {
                lemma_token_views_push(ts0, Token::Slash);
                lemma_step_token(s, i0, vs0, TokenV::Slash, token_views(toks@), i0 + 1);
            }
        } else if c == 'i' {
            if n - i > 2 && input.get_char(i + 1) == 'n' && input.get_char(i + 2) == 'f' {
                toks.push(Token::Num(Value::Inf));
                i = i + 3;
                proof {
                    lemma_token_views_push(ts0, Token::Num(Value::Inf));
                    lemma_step_token(
                        s,
                        i0,
                        vs0,
                        TokenV::Num(ValueV::Inf),
                        token_views(toks@),
                        i0 + 3,
                    );
                }
            } else {
                return Err(Error::InvalidIdent());
            }
        } else if is_num(c) {
            let mut j: usize = i + 1;
            let mut dots: usize = if c == '.' {
                1
            } else {
                0
            };
            proof {
                assert(s.subrange(i0, i0 + 1) =~= Seq::<char>::empty().push(s[i0]));
                lemma_dot_count_push(Seq::<char>::empty(), s[i0]);
            }
            while j < n && is_num(input.get_char(j))
                invariant
                    s == input@,
                    n == s.len(),
                    i0 == i as int,
                    i < j <= n,
                    is_num_char(s[i0]),
                    forall|k: int| i0 <= k < j ==> is_num_char(#[trigger] s[k]),
                    dots == dot_count(s.subrange(i0, j as int)),
                    dots <= j - i,
                decreases n - j,
            {
                let cj = input.get_char(j);
                proof {
                    assert(s.subrange(i0, j as int + 1) =~= s.subrange(i0, j as int).push(
                        s[j as int],
                    ));
                    lemma_dot_count_push(s.subrange(i0, j as int), s[j as int]);
                }
                if cj == '.' {
                    dots = dots + 1;
                }
                j = j + 1;
            }
            proof {
                lemma_num_run_end_is(s, i0, j as int);
            }
            let ghost text_spec = s.subrange(i0, j as int);
            let text_str = input.substring_char(i, j);
            let text = String::from_str(text_str);
            if dots <= 1 && dots < j - i {
                proof {
                    assert forall|k: int| 0 <= k < text_spec.len() implies is_num_char(
                        #[trigger] text_spec[k],
                    ) by {
                        assert(text_spec[k] == s[i0 + k]);
                    }
                    assert(valid_number(text_spec));
                }
                toks.push(Token::Num(Value::Lit(text)));
                i = j;
                proof {
                    lemma_token_views_push(ts0, toks@.last());
                    assert(ts0.push(toks@.last()) == toks@);
                    lemma_step_token(
                        s,
                        i0,
                        vs0,
                        TokenV::Num(ValueV::Lit(text_spec)),
                        token_views(toks@),
                        j as int,
                    );
                }
            } else {
                proof {
                    assert(!valid_number(text_spec));
                }
                return Err(Error::InvalidNumber(text));
            }
        } else if is_space(c) {
            i = i + 1;
        } else {
            return Err(Error::UnexpectedChar(c));
        }
    }
    let ghost ts1 = toks@;
    toks.push(Token::Eof);
    proof {
        lemma_token_views_push(ts1, Token::Eof);
        match spec_tokenize(s) {
            Ok(rest) => {
                assert(token_views(ts1) + seq![TokenV::Eof] =~= token_views(toks@));
            },
            Err(_) => {},
        }
    }
    Ok(toks)
}

/// A line holding nothing but whitespace from position `i` on tokenizes to
/// the bare end sentinel.
pub proof fn lemma_tokenize_all_space(s: Seq<char>, i: int)
    requires
        0 <= i <= s.len(),
        forall|k: int| i <= k < s.len() ==> is_space_char(#[trigger] s[k]),
    ensures
        spec_tokenize_from(s, i) == Ok::<Seq<TokenV>, ErrorV>(seq![TokenV::Eof]),
    decreases s.len() - i,
{
    if i < s.len() {
        lemma_tokenize_all_space(s, i + 1);
    }
}

/// A line that is exactly one valid number literal tokenizes to that
/// literal's number token followed by the end sentinel.
pub proof fn lemma_tokenize_number_literal(s: Seq<char>)
    requires
        valid_number(s),
    ensures
        spec_tokenize(s) == Ok::<Seq<TokenV>, ErrorV>(
            seq![TokenV::Num(ValueV::Lit(s)), TokenV::Eof],
        ),
{
    assert(is_num_char(s[0]));
    lemma_num_run_end_is(s, 0, s.len() as int);
    assert(s.subrange(0, s.len() as int) =~= s);
    assert(spec_tokenize_from(s, s.len() as int) == Ok::<Seq<TokenV>, ErrorV>(seq![TokenV::Eof]));
    assert(seq![TokenV::Num(ValueV::Lit(s))] + seq![TokenV::Eof] =~= seq![
        TokenV::Num(ValueV::Lit(s)),
        TokenV::Eof,
    ]);
}

} // verus!
