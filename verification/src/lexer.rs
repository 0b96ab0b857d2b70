use vstd::prelude::*;
use vstd::string::StringExecFns;

use crate::token::{toks_view, Token, TokenV};

verus! {

/// Errors the lexer can report.
#[derive(Debug, PartialEq)]
pub enum LexerError {
    /// A `${` interpolation is never closed by `}`.
    UnclosedTemplateString,
    /// A `"`-opened literal never reaches a closing `"`.
    UnclosedStringLiteral,
    /// A character matched no lexing rule.
    UnknownCharacter(char),
}

impl LexerError {
    /// The diagnostic text of this error.
    pub open spec fn message_text(&self) -> Seq<char> {
        match self {
            LexerError::UnknownCharacter(c) => "Unknown character '"@ + seq![*c] + "'"@,
            LexerError::UnclosedStringLiteral => "Unclosed string literal"@,
            LexerError::UnclosedTemplateString => "Unclosed template string"@,
        }
    }

    /// The diagnostic line of this error.
    pub fn message(&self) -> (r: String)
        ensures
            r@ == self.message_text(),
    {
        match self {
            LexerError::UnknownCharacter(c) => {
                let mut s = String::from_str("Unknown character '");
                push_char(&mut s, *c);
                s.append("'");
                s
            },
            LexerError::UnclosedStringLiteral => String::from_str("Unclosed string literal"),
            LexerError::UnclosedTemplateString => String::from_str("Unclosed template string"),
        }
    }
}

/// Whether `c` counts as whitespace, exactly as `char::is_whitespace` decides it.
pub uninterp spec fn is_whitespace_char(c: char) -> bool;

/// Whether `c` counts as alphanumeric, exactly as `char::is_alphanumeric`
/// decides it.
pub uninterp spec fn is_alnum_char(c: char) -> bool;

/// The part of being alphabetic that goes beyond being alphanumeric; see
/// `is_alpha_char`.
pub uninterp spec fn is_alpha_witness(c: char) -> bool;

/// Whether `c` counts as alphabetic, exactly as `char::is_alphabetic` decides
/// it. Every alphabetic character is alphanumeric, so the model states the
/// conjunction outright.
pub open spec fn is_alpha_char(c: char) -> bool {
    is_alnum_char(c) && is_alpha_witness(c)
}

/// Relies on char::is_whitespace: whether `c` has the Unicode whitespace
/// property; the result depends on `c` alone.
pub assume_specification[ char::is_whitespace ](c: char) -> (r: bool)
    ensures
        r == is_whitespace_char(c),
;

/// Relies on char::is_alphanumeric: whether `c` is alphabetic or numeric; the
/// result depends on `c` alone.
pub assume_specification[ char::is_alphanumeric ](c: char) -> (r: bool)
    ensures
        r == is_alnum_char(c),
;

/// Relies on char::is_alphabetic: whether `c` is a Unicode letter; letters are
/// alphanumeric by definition, so the result is stated as a conjunction with
/// `is_alnum_char`.
pub assume_specification[ char::is_alphabetic ](c: char) -> (r: bool)
    ensures
        r == (is_alnum_char(c) && is_alpha_witness(c)),
;

/// Whether `c` is an ASCII decimal digit.
pub open spec fn is_digit_char(c: char) -> bool {
    48 <= c as u32 <= 57
}

/// The decimal value of an ASCII digit.
pub open spec fn digit_val(c: char) -> int {
    c as u32 - 48
}

/// Whether `c` may continue an identifier: a letter, a digit, `_` or `-`.
pub open spec fn ident_char(c: char) -> bool {
    is_alnum_char(c) || c == '_' || c == '-'
}

/// The first position at or after `i` whose character does not continue an
/// identifier (or the end of input).
pub open spec fn ident_end(cs: Seq<char>, i: int) -> int
    decreases cs.len() - i,
{
    if 0 <= i < cs.len() && ident_char(cs[i]) {
        ident_end(cs, i + 1)
    } else {
        i
    }
}

/// The first position at or after `i` whose character is not an ASCII digit
/// (or the end of input).
pub open spec fn digits_end(cs: Seq<char>, i: int) -> int
    decreases cs.len() - i,
{
    if 0 <= i < cs.len() && is_digit_char(cs[i]) {
        digits_end(cs, i + 1)
    } else {
        i
    }
}

/// The integer a digit sequence denotes, read left to right.
pub open spec fn num_val(s: Seq<char>) -> int
    decreases s.len(),
{
    if s.len() == 0 {
        0
    } else {
        num_val(s.drop_last()) * 10 + digit_val(s.last())
    }
}

/// The token value of a digit run: its integer value, saturated at `i64::MAX`
/// when the run denotes more than an `i64` can hold.
pub open spec fn num_tok_val(s: Seq<char>) -> i64 {
    if num_val(s) <= i64::MAX {
        num_val(s) as i64
    } else {
        i64::MAX
    }
}

pub proof fn lemma_ident_end_bounds(cs: Seq<char>, i: int)
    requires
        0 <= i <= cs.len(),
    ensures
        i <= ident_end(cs, i) <= cs.len(),
    decreases cs.len() - i,
{
    if i < cs.len() && ident_char(cs[i]) {
        lemma_ident_end_bounds(cs, i + 1);
    }
}

pub proof fn lemma_digits_end_bounds(cs: Seq<char>, i: int)
    requires
        0 <= i <= cs.len(),
    ensures
        i <= digits_end(cs, i) <= cs.len(),
    decreases cs.len() - i,
{
    if i < cs.len() && is_digit_char(cs[i]) {
        lemma_digits_end_bounds(cs, i + 1);
    }
}

/// Every value a digit sequence denotes is nonnegative.
pub proof fn lemma_num_val_nonneg(s: Seq<char>)
    requires
        forall|k: int| 0 <= k < s.len() ==> is_digit_char(#[trigger] s[k]),
    ensures
        0 <= num_val(s),
    decreases s.len(),
{
    if s.len() > 0 {
        lemma_num_val_nonneg(s.drop_last());
    }
}

/// Prefixes `d` to the tokens of a whole-input lexing result.
pub open spec fn prefixed(d: Seq<TokenV>, r: Result<Seq<TokenV>, LexerError>) -> Result<
    Seq<TokenV>,
    LexerError,
> {
    match r {
        Ok(ts) => Ok(d + ts),
        Err(e) => Err(e),
    }
}

/// Prefixes `d` to the tokens of a string-literal scan result.
pub open spec fn prefixed_scan(
    d: Seq<TokenV>,
    r: Result<(Seq<TokenV>, int), LexerError>,
) -> Result<(Seq<TokenV>, int), LexerError> {
    match r {
        Ok((ts, n)) => Ok((d + ts, n)),
        Err(e) => Err(e),
    }
}

pub proof fn lemma_prefixed_assoc(
    d1: Seq<TokenV>,
    d2: Seq<TokenV>,
    r: Result<Seq<TokenV>, LexerError>,
)
    ensures
        prefixed(d1, prefixed(d2, r)) == prefixed(d1 + d2, r),
{
    match r {
        Ok(ts) => {
            assert(d1 + (d2 + ts) =~= (d1 + d2) + ts);
        },
        Err(_) => {},
    }
}

pub proof fn lemma_prefixed_scan_assoc(
    d1: Seq<TokenV>,
    d2: Seq<TokenV>,
    r: Result<(Seq<TokenV>, int), LexerError>,
)
    ensures
        prefixed_scan(d1, prefixed_scan(d2, r)) == prefixed_scan(d1 + d2, r),
{
    match r {
        Ok((ts, _)) => {
            assert(d1 + (d2 + ts) =~= (d1 + d2) + ts);
        },
        Err(_) => {},
    }
}

/// The tokens of a string literal's inside, scanning from `i` with the pending
/// text segment `part`, together with the position just past the closing `"`.
pub open spec fn lex_str(cs: Seq<char>, i: int, part: Seq<char>) -> Result<
    (Seq<TokenV>, int),
    LexerError,
>
    decreases cs.len() - i,
    via lex_str_decreases
{
    if !(0 <= i < cs.len()) {
        Err(LexerError::UnclosedStringLiteral)
    } else {
        let ch = cs[i];
        if ch == '$' && i + 1 < cs.len() && cs[i + 1] == '{' {
            let flushed: Seq<TokenV> = if part.len() > 0 {
                seq![TokenV::StringLiteral(part)]
            } else {
                Seq::empty()
            };
            let end = ident_end(cs, i + 2);
            let name = cs.subrange(i + 2, end);
            if end >= cs.len() || cs[end] != '}' {
                Err(LexerError::UnclosedTemplateString)
            } else {
                prefixed_scan(
                    flushed + seq![
                        TokenV::TemplateStart,
                        TokenV::Identifier(name),
                        TokenV::TemplateEnd,
                    ],
                    lex_str(cs, end + 1, Seq::empty()),
                )
            }
        } else if ch == '"' {
            let flushed: Seq<TokenV> = if part.len() > 0 {
                seq![TokenV::StringLiteral(part)]
            } else {
                Seq::empty()
            };
            Ok((flushed, i + 1))
        } else {
            lex_str(cs, i + 1, part + seq![ch])
        }
    }
}

#[via_fn]
proof fn lex_str_decreases(cs: Seq<char>, i: int, part: Seq<char>) {
    if 0 <= i < cs.len() {
        if cs[i] == '$' && i + 1 < cs.len() && cs[i + 1] == '{' {
            lemma_ident_end_bounds(cs, i + 2);
        }
    }
}

/// A successful string scan always moves past its starting position and stays
/// inside the input.
pub proof fn lemma_lex_str_pos(cs: Seq<char>, i: int, part: Seq<char>)
    requires
        0 <= i,
    ensures
        lex_str(cs, i, part) matches Ok((ts, ni)) ==> i < ni <= cs.len(),
    decreases cs.len() - i,
{
    if 0 <= i < cs.len() {
        let ch = cs[i];
        if ch == '$' && i + 1 < cs.len() && cs[i + 1] == '{' {
            let end = ident_end(cs, i + 2);
            lemma_ident_end_bounds(cs, i + 2);
            if !(end >= cs.len() || cs[end] != '}') {
                lemma_lex_str_pos(cs, end + 1, Seq::empty());
            }
        } else if ch == '"' {
        } else {
            lemma_lex_str_pos(cs, i + 1, part + seq![ch]);
        }
    }
}

/// The token sequence of the source text, scanning left to right from `i`.
pub open spec fn lex(cs: Seq<char>, i: int) -> Result<Seq<TokenV>, LexerError>
    decreases cs.len() - i,
    via lex_decreases
{
    if !(0 <= i < cs.len()) {
        Ok(Seq::empty())
    } else {
        let ch = cs[i];
        if is_whitespace_char(ch) {
            lex(cs, i + 1)
        } else if ch == '@' {
            prefixed(seq![TokenV::At], lex(cs, i + 1))
        } else if ch == '#' {
            prefixed(seq![TokenV::Hash], lex(cs, i + 1))
        } else if ch == '=' {
            prefixed(seq![TokenV::Equals], lex(cs, i + 1))
        } else if ch == ':' {
            prefixed(seq![TokenV::Colon], lex(cs, i + 1))
        } else if ch == ',' {
            prefixed(seq![TokenV::Comma], lex(cs, i + 1))
        } else if ch == '{' {
            prefixed(seq![TokenV::OpenBrace], lex(cs, i + 1))
        } else if ch == '}' {
            prefixed(seq![TokenV::CloseBrace], lex(cs, i + 1))
        } else if ch == '[' {
            let end = ident_end(cs, i + 1);
            prefixed(
                seq![TokenV::OpenBracket, TokenV::Label(cs.subrange(i + 1, end))],
                lex(cs, end),
            )
        } else if ch == ']' {
            prefixed(seq![TokenV::CloseBracket], lex(cs, i + 1))
        } else if ch == ';' {
            prefixed(seq![TokenV::SemiColon], lex(cs, i + 1))
        } else if ch == '"' {
            match lex_str(cs, i + 1, Seq::empty()) {
                Ok((ts, ni)) => prefixed(ts, lex(cs, ni)),
                Err(e) => Err(e),
            }
        } else if is_digit_char(ch) {
            let end = digits_end(cs, i);
            prefixed(seq![TokenV::NumberLiteral(num_tok_val(cs.subrange(i, end)))], lex(cs, end))
        } else if is_alpha_char(ch) || ch == '_' {
            let end = ident_end(cs, i);
            prefixed(seq![TokenV::Identifier(cs.subrange(i, end))], lex(cs, end))
        } else {
            Err(LexerError::UnknownCharacter(ch))
        }
    }
}

#[via_fn]
proof fn lex_decreases(cs: Seq<char>, i: int) {
    if 0 <= i < cs.len() {
        let ch = cs[i];
        if ch == '[' {
            lemma_ident_end_bounds(cs, i + 1);
        }
        if ch == '"' {
            lemma_lex_str_pos(cs, i + 1, Seq::empty());
        }
        if is_digit_char(ch) {
            lemma_digits_end_bounds(cs, i + 1);
        }
        if is_alpha_char(ch) || ch == '_' {
            lemma_ident_end_bounds(cs, i + 1);
        }
    }
}

/// One scanning step: what a branch of `lex` contributes composes with what
/// was already emitted.
proof fn lemma_lex_step(d: Seq<TokenV>, ts: Seq<TokenV>, cs: Seq<char>, i: int, ni: int)
    requires
        lex(cs, 0) == prefixed(d, lex(cs, i)),
        lex(cs, i) == prefixed(ts, lex(cs, ni)),
    ensures
        lex(cs, 0) == prefixed(d + ts, lex(cs, ni)),
{
    lemma_prefixed_assoc(d, ts, lex(cs, ni));
}

/// Relies on String::push: appends one character to the string.
#[verifier::external_body]
pub(crate) fn push_char(s: &mut String, c: char)
    ensures
        final(s)@ == old(s)@ + seq![c],
{
    s.push(c);
}

/// Whether `c` is an ASCII decimal digit.
fn is_ascii_digit_char(c: char) -> (r: bool)
    ensures
        r == is_digit_char(c),
{
    let u = c as u32;
    48 <= u && u <= 57
}

/// The characters of `source`, in order.
fn to_char_vec(source: &str) -> (v: Vec<char>)
    ensures
        v@ == source@,
{
    let n = source.unicode_len();
    let mut v: Vec<char> = Vec::new();
    let mut i: usize = 0;
    while i < n
        invariant
            i <= n,
            n == source@.len(),
            v@ == source@.take(i as int),
        decreases n - i,
    {
        let c = source.get_char(i);
        v.push(c);
        proof {
            assert(v@ =~= source@.take(i + 1));
        }
        i += 1;
    }
    proof {
        assert(v@ =~= source@);
    }
    v
}

pub proof fn lemma_toks_view_concat(a: Seq<Token>, b: Seq<Token>)
    ensures
        toks_view(a + b) == toks_view(a) + toks_view(b),
{
    assert(toks_view(a + b) =~= toks_view(a) + toks_view(b));
}

pub proof fn lemma_prefixed_empty(r: Result<Seq<TokenV>, LexerError>)
    ensures
        prefixed(Seq::empty(), r) == r,
{
    match r {
        Ok(ts) => {
            assert(Seq::<TokenV>::empty() + ts =~= ts);
        },
        Err(_) => {},
    }
}

/// The lexer: turns source text into the token sequence the parser consumes.
pub struct Lexer;

impl Lexer {
    /// Reads an identifier (letters, digits, `_` or `-`) from index `start`,
    /// returning its text and the index just past it.
    fn read_identifier(chars: &Vec<char>, start: usize) -> (r: (String, usize))
        requires
            start <= chars@.len(),
        ensures
            r.1 == ident_end(chars@, start as int),
            r.0@ == chars@.subrange(start as int, r.1 as int),
            start <= r.1 <= chars@.len(),
    {
        let mut i = start;
        let mut ident: String = String::new();

        while i < chars.len() && (chars[i].is_alphanumeric() || chars[i] == '_' || chars[i] == '-')
            invariant
                start <= i <= chars@.len(),
                ident_end(chars@, start as int) == ident_end(chars@, i as int),
                ident@ == chars@.subrange(start as int, i as int),
            decreases chars@.len() - i,
        {
            push_char(&mut ident, chars[i]);
            proof {
                assert(ident@ =~= chars@.subrange(start as int, i + 1));
            }
            i += 1;
        }

        proof {
            lemma_ident_end_bounds(chars@, start as int);
        }
        (ident, i)
    }

    /// Scans the inside of a `"`-opened literal that starts at index `start`,
    /// pushing the tokens it produces onto `tokens`, and returns the index
    /// just past the closing `"`.
    fn read_string(tokens: &mut Vec<Token>, chars: &Vec<char>, start: usize) -> (r: Result<
        usize,
        LexerError,
    >)
        requires
            start < chars@.len(),
        ensures
            final(tokens)@.len() >= old(tokens)@.len(),
            final(tokens)@.subrange(0, old(tokens)@.len() as int) == old(tokens)@,
            match r {
                Ok(ni) => {
                    &&& lex_str(chars@, start + 1, Seq::empty()) == Ok::<_, LexerError>(
                        (toks_view(final(tokens)@.skip(old(tokens)@.len() as int)), ni as int),
                    )
                    &&& start < ni <= chars@.len()
                },
                Err(e) => lex_str(chars@, start + 1, Seq::empty()) == Err::<
                    (Seq<TokenV>, int),
                    LexerError,
                >(e),
            },
    {
        let ghost orig = old(tokens)@;
        proof {
            vstd::std_specs::vec::axiom_spec_len(chars);
        }
        let mut part = String::new();
        let mut i = start + 1;

        while i < chars.len()
            invariant
                orig == old(tokens)@,
                start < i <= chars@.len(),
                tokens@.len() >= orig.len(),
                tokens@.subrange(0, orig.len() as int) == orig,
                lex_str(chars@, start + 1, Seq::empty()) == prefixed_scan(
                    toks_view(tokens@.skip(orig.len() as int)),
                    lex_str(chars@, i as int, part@),
                ),
            decreases chars@.len() - i,
        {
            let ch = chars[i];
            let ghost d0 = tokens@.skip(orig.len() as int);
            let ghost part0 = part@;

            if ch == '$' && i + 1 < chars.len() && chars[i + 1] == '{' {
                let ghost flushed: Seq<TokenV> = if part0.len() > 0 {
                    seq![TokenV::StringLiteral(part0)]
                } else {
                    Seq::empty()
                };
                if !part.as_str().is_empty() {
                    tokens.push(Token::StringLiteral(part));
                    part = String::new();
                }

                tokens.push(Token::TemplateStart);

                let (ident, next) = Self::read_identifier(chars, i + 2);
                tokens.push(Token::Identifier(ident));

                if next >= chars.len() || chars[next] != '}' {
                    proof {
                        assert(tokens@.subrange(0, orig.len() as int) =~= orig);
                    }
                    return Err(LexerError::UnclosedTemplateString);
                }

                tokens.push(Token::TemplateEnd);

                proof {
                    let stepped = flushed + seq![
                        TokenV::TemplateStart,
                        TokenV::Identifier(chars@.subrange(i + 2, next as int)),
                        TokenV::TemplateEnd,
                    ];
                    assert(tokens@.skip(orig.len() as int) =~= d0 + tokens@.skip(
                        orig.len() as int,
                    ).skip(d0.len() as int));
                    assert(toks_view(tokens@.skip(orig.len() as int)) =~= toks_view(d0)
                        + stepped);
                    assert(lex_str(chars@, i as int, part0) == prefixed_scan(
                        stepped,
                        lex_str(chars@, next + 1, Seq::empty()),
                    ));
                    lemma_prefixed_scan_assoc(
                        toks_view(d0),
                        stepped,
                        lex_str(chars@, next + 1, Seq::empty()),
                    );
                    assert(tokens@.subrange(0, orig.len() as int) =~= orig);
                }
                i = next + 1;
                continue;
            }
            if ch == '"' {
                let ghost flushed: Seq<TokenV> = if part0.len() > 0 {
                    seq![TokenV::StringLiteral(part0)]
                } else {
                    Seq::empty()
                };
                if !part.as_str().is_empty() {
                    tokens.push(Token::StringLiteral(part));
                }
                proof {
                    assert(toks_view(tokens@.skip(orig.len() as int)) =~= toks_view(d0)
                        + flushed);
                    assert(lex_str(chars@, i as int, part0) == Ok::<_, LexerError>(
                        (flushed, i + 1),
                    ));
                    assert(tokens@.subrange(0, orig.len() as int) =~= orig);
                }
                return Ok(i + 1);
            }
            push_char(&mut part, ch);
            proof {
                assert(lex_str(chars@, i as int, part0) == lex_str(
                    chars@,
                    i + 1,
                    part0 + seq![ch],
                ));
            }
            i += 1;
        }
        Err(LexerError::UnclosedStringLiteral)
    }

    /// Reads a maximal run of ASCII digits from index `start`, returning its
    /// integer value (saturated at `i64::MAX`) and the index just past it.
    fn read_number(chars: &Vec<char>, start: usize) -> (r: (i64, usize))
        requires
            start <= chars@.len(),
        ensures
            r.1 == digits_end(chars@, start as int),
            r.0 == num_tok_val(chars@.subrange(start as int, r.1 as int)),
            start <= r.1 <= chars@.len(),
    {
        let mut i = start;
        let mut num: i64 = 0;

        while i < chars.len() && is_ascii_digit_char(chars[i])
            invariant
                start <= i <= chars@.len(),
                digits_end(chars@, start as int) == digits_end(chars@, i as int),
                forall|k: int| start <= k < i ==> is_digit_char(#[trigger] chars@[k]),
                num == num_tok_val(chars@.subrange(start as int, i as int)),
                0 <= num,
            decreases chars@.len() - i,
    {
            let ghost pre = chars@.subrange(start as int, i as int);
            let ghost post = chars@.subrange(start as int, i + 1);
            proof {
                assert(post.drop_last() =~= pre);
                assert(post.last() == chars@[i as int]);
                lemma_num_val_nonneg(pre);
            }
            let u = chars[i] as u32;
            let d = (u - 48) as i64;
            if num < 922337203685477580 || (num == 922337203685477580 && d <= 7) {
                num = num * 10 + d;
            } else {
                num = i64::MAX;
            }
            i += 1;
        }

        proof {
            lemma_digits_end_bounds(chars@, start as int);
        }
        (num, i)
    }

    /// Turns source text into the token sequence its characters denote, or
    /// reports the first lexing error.
    pub fn tokenize(source_code: &str) -> (r: Result<Vec<Token>, LexerError>)
        ensures
            match r {
                Ok(tokens) => lex(source_code@, 0) == Ok::<_, LexerError>(toks_view(tokens@)),
                Err(e) => lex(source_code@, 0) == Err::<Seq<TokenV>, LexerError>(e),
            },
    {
        let mut tokens: Vec<Token> = Vec::new();

        let chars: Vec<char> = to_char_vec(source_code);
        let mut i: usize = 0;

        proof {
            assert(toks_view(tokens@) =~= Seq::<TokenV>::empty());
            lemma_prefixed_empty(lex(chars@, 0));
        }

        while i < chars.len()
            invariant
                i <= chars@.len(),
                chars@ == source_code@,
                lex(chars@, 0) == prefixed(toks_view(tokens@), lex(chars@, i as int)),
            decreases chars@.len() - i,
        {
            let ch = chars[i];
            let ghost d0 = toks_view(tokens@);

            if ch.is_whitespace() {
                i += 1;
                continue;
            }

            match ch {
                '@' => {
                    tokens.push(Token::At);
                    proof {
                        assert(toks_view(tokens@) =~= d0 + seq![TokenV::At]);
                        lemma_lex_step(d0, seq![TokenV::At], chars@, i as int, i + 1);
                    }
                    i += 1;
                    continue;
                },
                '#' => {
                    tokens.push(Token::Hash);
                    proof {
                        assert(toks_view(tokens@) =~= d0 + seq![TokenV::Hash]);
                        lemma_lex_step(d0, seq![TokenV::Hash], chars@, i as int, i + 1);
                    }
                    i += 1;
                    continue;
                },
                '=' => {
                    tokens.push(Token::Equals);
                    proof {
                        assert(toks_view(tokens@) =~= d0 + seq![TokenV::Equals]);
                        lemma_lex_step(d0, seq![TokenV::Equals], chars@, i as int, i + 1);
                    }
                    i += 1;
                    continue;
                },
                ':' => {
                    tokens.push(Token::Colon);
                    proof {
                        assert(toks_view(tokens@) =~= d0 + seq![TokenV::Colon]);
                        lemma_lex_step(d0, seq![TokenV::Colon], chars@, i as int, i + 1);
                    }
                    i += 1;
                    continue;
                },
                ',' => {
                    tokens.push(Token::Comma);
                    proof {
                        assert(toks_view(tokens@) =~= d0 + seq![TokenV::Comma]);
                        lemma_lex_step(d0, seq![TokenV::Comma], chars@, i as int, i + 1);
                    }
                    i += 1;
                    continue;
                },
                '{' => {
                    tokens.push(Token::OpenBrace);
                    proof {
                        assert(toks_view(tokens@) =~= d0 + seq![TokenV::OpenBrace]);
                        lemma_lex_step(d0, seq![TokenV::OpenBrace], chars@, i as int, i + 1);
                    }
                    i += 1;
                    continue;
                },
                '}' => {
                    tokens.push(Token::CloseBrace);
                    proof {
                        assert(toks_view(tokens@) =~= d0 + seq![TokenV::CloseBrace]);
                        lemma_lex_step(d0, seq![TokenV::CloseBrace], chars@, i as int, i + 1);
                    }
                    i += 1;
                    continue;
                },
                '[' => {
                    tokens.push(Token::OpenBracket);
                    let (label, next) = Self::read_identifier(&chars, i + 1);
                    tokens.push(Token::Label(label));
                    proof {
                        let ts = seq![
                            TokenV::OpenBracket,
                            TokenV::Label(chars@.subrange(i + 1, next as int)),
                        ];
                        assert(toks_view(tokens@) =~= d0 + ts);
                        lemma_lex_step(d0, ts, chars@, i as int, next as int);
                    }
                    i = next;
                    continue;
                },
                ']' => {
                    tokens.push(Token::CloseBracket);
                    proof {
                        assert(toks_view(tokens@) =~= d0 + seq![TokenV::CloseBracket]);
                        lemma_lex_step(d0, seq![TokenV::CloseBracket], chars@, i as int, i + 1);
                    }
                    i += 1;
                    continue;
                },
                ';' => {
                    tokens.push(Token::SemiColon);
                    proof {
                        assert(toks_view(tokens@) =~= d0 + seq![TokenV::SemiColon]);
                        lemma_lex_step(d0, seq![TokenV::SemiColon], chars@, i as int, i + 1);
                    }
                    i += 1;
                    continue;
                },
                _ => {},
            };

            if ch == '"' {
                let ghost pre = tokens@;
                match Self::read_string(&mut tokens, &chars, i) {
                    Ok(ni) => {
                        proof {
                            let delta = tokens@.skip(pre.len() as int);
                            assert(tokens@ =~= pre + delta);
                            lemma_toks_view_concat(pre, delta);
                            lemma_lex_step(d0, toks_view(delta), chars@, i as int, ni as int);
                        }
                        i = ni;
                        continue;
                    },
                    Err(e) => {
                        return Err(e);
                    },
                }
            }

            if is_ascii_digit_char(ch) {
                let (num, next) = Self::read_number(&chars, i);
                tokens.push(Token::NumberLiteral(num));
                proof {
                    lemma_digits_end_bounds(chars@, i + 1);
                    let ts = seq![
                        TokenV::NumberLiteral(num_tok_val(chars@.subrange(i as int, next as int))),
                    ];
                    assert(toks_view(tokens@) =~= d0 + ts);
                    lemma_lex_step(d0, ts, chars@, i as int, next as int);
                }
                i = next;
                continue;
            }

            if ch.is_alphabetic() || ch == '_' {
                let (ident, next) = Self::read_identifier(&chars, i);
                tokens.push(Token::Identifier(ident));
                proof {
                    lemma_ident_end_bounds(chars@, i + 1);
                    let ts = seq![
                        TokenV::Identifier(chars@.subrange(i as int, next as int)),
                    ];
                    assert(toks_view(tokens@) =~= d0 + ts);
                    lemma_lex_step(d0, ts, chars@, i as int, next as int);
                }
                i = next;
                continue;
            }

            return Err(LexerError::UnknownCharacter(ch));
        }

        proof {
            assert(toks_view(tokens@) + Seq::<TokenV>::empty() =~= toks_view(tokens@));
        }
        Ok(tokens)
    }
}

} // verus!
