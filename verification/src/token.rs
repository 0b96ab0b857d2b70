use vstd::prelude::*;
use vstd::string::StringExecFns;

verus! {

/// Mathematical model of a token: string payloads are character sequences.
pub ghost enum TokenV {
    At,
    Hash,
    Equals,
    Colon,
    SemiColon,
    Comma,
    OpenBrace,
    CloseBrace,
    OpenBracket,
    CloseBracket,
    TemplateStart,
    TemplateEnd,
    Identifier(Seq<char>),
    StringLiteral(Seq<char>),
    Label(Seq<char>),
    NumberLiteral(i64),
}

/// Tokens the lexer emits and the parser consumes.
#[derive(Debug, PartialEq, Clone)]
pub enum Token {
    /// `@`, introduces the HTTP method of a request.
    At,
    /// `#`, introduces a request label.
    Hash,
    /// `=`
    Equals,
    /// `:`
    Colon,
    /// `;`
    SemiColon,
    /// `,`
    Comma,
    /// `{`
    OpenBrace,
    /// `}`
    CloseBrace,
    /// `[`
    OpenBracket,
    /// `]`
    CloseBracket,
    /// Start of a `${...}` interpolation inside a string literal.
    TemplateStart,
    /// End of a `${...}` interpolation inside a string literal.
    TemplateEnd,
    /// A variable name, method name, or section keyword.
    Identifier(String),
    /// A literal text segment from a `"..."` string.
    StringLiteral(String),
    /// The label of a request, read right after `[`.
    Label(String),
    /// A run of ASCII digits.
    NumberLiteral(i64),
}

impl View for Token {
    type V = TokenV;

    open spec fn view(&self) -> TokenV {
        match self {
            Token::At => TokenV::At,
            Token::Hash => TokenV::Hash,
            Token::Equals => TokenV::Equals,
            Token::Colon => TokenV::Colon,
            Token::SemiColon => TokenV::SemiColon,
            Token::Comma => TokenV::Comma,
            Token::OpenBrace => TokenV::OpenBrace,
            Token::CloseBrace => TokenV::CloseBrace,
            Token::OpenBracket => TokenV::OpenBracket,
            Token::CloseBracket => TokenV::CloseBracket,
            Token::TemplateStart => TokenV::TemplateStart,
            Token::TemplateEnd => TokenV::TemplateEnd,
            Token::Identifier(s) => TokenV::Identifier(s@),
            Token::StringLiteral(s) => TokenV::StringLiteral(s@),
            Token::Label(s) => TokenV::Label(s@),
            Token::NumberLiteral(n) => TokenV::NumberLiteral(*n),
        }
    }
}

/// The model of a token sequence.
pub open spec fn toks_view(s: Seq<Token>) -> Seq<TokenV> {
    s.map_values(|t: Token| t@)
}

/// The surface text of a token, as diagnostics print it: symbols as
/// themselves, payload-bearing tokens as their payload.
pub open spec fn token_text(t: TokenV) -> Seq<char> {
    match t {
        TokenV::At => "@"@,
        TokenV::Hash => "#"@,
        TokenV::Equals => "="@,
        TokenV::Colon => ":"@,
        TokenV::SemiColon => ";"@,
        TokenV::Comma => ","@,
        TokenV::OpenBrace => "{"@,
        TokenV::CloseBrace => "}"@,
        TokenV::OpenBracket => "["@,
        TokenV::CloseBracket => "]"@,
        TokenV::TemplateStart => "${"@,
        TokenV::TemplateEnd => "}"@,
        TokenV::Identifier(s) => s,
        TokenV::StringLiteral(s) => s,
        TokenV::Label(s) => s,
        TokenV::NumberLiteral(n) => crate::resolver::dec_str_i64(n as int),
    }
}

/// The surface text of a token.
pub fn token_message(t: &Token) -> (r: String)
    ensures
        r@ == token_text(t@),
{
    match t {
        Token::At => String::from_str("@"),
        Token::Hash => String::from_str("#"),
        Token::Equals => String::from_str("="),
        Token::Colon => String::from_str(":"),
        Token::SemiColon => String::from_str(";"),
        Token::Comma => String::from_str(","),
        Token::OpenBrace => String::from_str("{"),
        Token::CloseBrace => String::from_str("}"),
        Token::OpenBracket => String::from_str("["),
        Token::CloseBracket => String::from_str("]"),
        Token::TemplateStart => String::from_str("${"),
        Token::TemplateEnd => String::from_str("}"),
        Token::Identifier(s) => s.clone(),
        Token::StringLiteral(s) => s.clone(),
        Token::Label(s) => s.clone(),
        Token::NumberLiteral(n) => crate::resolver::i64_dec_string(*n),
    }
}

/// A copy of a token that keeps its model.
pub fn token_clone(t: &Token) -> (r: Token)
    ensures
        r@ == t@,
{
    match t {
        Token::At => Token::At,
        Token::Hash => Token::Hash,
        Token::Equals => Token::Equals,
        Token::Colon => Token::Colon,
        Token::SemiColon => Token::SemiColon,
        Token::Comma => Token::Comma,
        Token::OpenBrace => Token::OpenBrace,
        Token::CloseBrace => Token::CloseBrace,
        Token::OpenBracket => Token::OpenBracket,
        Token::CloseBracket => Token::CloseBracket,
        Token::TemplateStart => Token::TemplateStart,
        Token::TemplateEnd => Token::TemplateEnd,
        Token::Identifier(s) => Token::Identifier(s.clone()),
        Token::StringLiteral(s) => Token::StringLiteral(s.clone()),
        Token::Label(s) => Token::Label(s.clone()),
        Token::NumberLiteral(n) => Token::NumberLiteral(*n),
    }
}

/// Equality of tokens, decided exactly as equality of their models.
pub fn token_eq(a: &Token, b: &Token) -> (r: bool)
    ensures
        r == (a@ == b@),
{
    match (a, b) {
        (Token::At, Token::At) => true,
        (Token::Hash, Token::Hash) => true,
        (Token::Equals, Token::Equals) => true,
        (Token::Colon, Token::Colon) => true,
        (Token::SemiColon, Token::SemiColon) => true,
        (Token::Comma, Token::Comma) => true,
        (Token::OpenBrace, Token::OpenBrace) => true,
        (Token::CloseBrace, Token::CloseBrace) => true,
        (Token::OpenBracket, Token::OpenBracket) => true,
        (Token::CloseBracket, Token::CloseBracket) => true,
        (Token::TemplateStart, Token::TemplateStart) => true,
        (Token::TemplateEnd, Token::TemplateEnd) => true,
        (Token::Identifier(x), Token::Identifier(y)) => *x == *y,
        (Token::StringLiteral(x), Token::StringLiteral(y)) => *x == *y,
        (Token::Label(x), Token::Label(y)) => *x == *y,
        (Token::NumberLiteral(x), Token::NumberLiteral(y)) => *x == *y,
        _ => false,
    }
}

} // verus!
