use vstd::prelude::*;

use crate::ast::{kv_view, lemma_parts_view_push, parts_view, stmts_view, Expr, ExprV, Req, ReqV, Stmt, StmtV, StringPart, StringPartV};
use crate::token::{toks_view, token_clone, token_eq, Token, TokenV};
use vstd::string::StringExecFns;

verus! {

/// Errors the parser can report.
#[derive(Debug, PartialEq)]
pub enum ParserError {
    /// An expression was required and the current token cannot start one.
    InvalidExpression,
    /// The token stream ended in the middle of a construct.
    UnexpectedEOF,
    /// A required token does not match the one found.
    UnexpectedToken { expected: Token, found: Token },
}

/// Mathematical model of a parser error.
pub ghost enum ParseErrV {
    InvalidExpression,
    UnexpectedEOF,
    UnexpectedToken { expected: TokenV, found: TokenV },
}

impl View for ParserError {
    type V = ParseErrV;

    open spec fn view(&self) -> ParseErrV {
        match self {
            ParserError::InvalidExpression => ParseErrV::InvalidExpression,
            ParserError::UnexpectedEOF => ParseErrV::UnexpectedEOF,
            ParserError::UnexpectedToken { expected, found } => ParseErrV::UnexpectedToken {
                expected: expected@,
                found: found@,
            },
        }
    }
}

impl ParserError {
    /// The diagnostic text of this error.
    pub open spec fn message_text(&self) -> Seq<char> {
        match self {
            ParserError::InvalidExpression => "Invalid expression"@,
            ParserError::UnexpectedEOF => "Unexpected end of file"@,
            ParserError::UnexpectedToken { expected, found } => "Expected: "@ + crate::token::token_text(
                expected@,
            ) + ", found: "@ + crate::token::token_text(found@),
        }
    }

    /// The diagnostic line of this error.
    pub fn message(&self) -> (r: String)
        ensures
            r@ == self.message_text(),
    {
        match self {
            ParserError::InvalidExpression => String::from_str("Invalid expression"),
            ParserError::UnexpectedEOF => String::from_str("Unexpected end of file"),
            ParserError::UnexpectedToken { expected, found } => {
                let mut s = String::from_str("Expected: ");
                let e = crate::token::token_message(expected);
                s.append(e.as_str());
                s.append(", found: ");
                let f = crate::token::token_message(found);
                s.append(f.as_str());
                s
            },
        }
    }
}

/// The text `str::to_uppercase` returns for the given characters.
pub uninterp spec fn upper_of(s: Seq<char>) -> Seq<char>;

/// Relies on str::to_uppercase: the Unicode uppercase of the text; the result
/// depends on the characters alone.
#[verifier::external_body]
fn to_uppercase_string(s: &String) -> (r: String)
    ensures
        r@ == upper_of(s@),
{
    s.to_uppercase()
}

/// The token at position `p`, if any.
pub open spec fn cur(ts: Seq<TokenV>, p: int) -> Option<TokenV> {
    if 0 <= p < ts.len() {
        Some(ts[p])
    } else {
        None
    }
}

/// Requiring the token at `p` to be `expected`: the position just past it on a
/// match, the error the parser reports otherwise.
pub open spec fn p_consume(ts: Seq<TokenV>, p: int, expected: TokenV) -> Result<int, ParseErrV> {
    match cur(ts, p) {
        Some(t) => if t == expected {
            Ok(p + 1)
        } else {
            Err(ParseErrV::UnexpectedToken { expected, found: t })
        },
        None => Err(ParseErrV::UnexpectedEOF),
    }
}

/// Prefixes `d` to the items of a parsing step that yields a sequence and a
/// position.
pub open spec fn pre_pair<T>(d: Seq<T>, r: Result<(Seq<T>, int), ParseErrV>) -> Result<
    (Seq<T>, int),
    ParseErrV,
> {
    match r {
        Ok((xs, n)) => Ok((d + xs, n)),
        Err(e) => Err(e),
    }
}

pub proof fn lemma_pre_pair_assoc<T>(d1: Seq<T>, d2: Seq<T>, r: Result<(Seq<T>, int), ParseErrV>)
    ensures
        pre_pair(d1, pre_pair(d2, r)) == pre_pair(d1 + d2, r),
{
    match r {
        Ok((xs, _)) => {
            assert(d1 + (d2 + xs) =~= (d1 + d2) + xs);
        },
        Err(_) => {},
    }
}

pub proof fn lemma_pre_pair_empty<T>(r: Result<(Seq<T>, int), ParseErrV>)
    ensures
        pre_pair(Seq::empty(), r) == r,
{
    match r {
        Ok((xs, _)) => {
            assert(Seq::<T>::empty() + xs =~= xs);
        },
        Err(_) => {},
    }
}

/// Prefixes `d` to the statements of a parsing result.
pub open spec fn pre_stmts(d: Seq<StmtV>, r: Result<Seq<StmtV>, ParseErrV>) -> Result<
    Seq<StmtV>,
    ParseErrV,
> {
    match r {
        Ok(xs) => Ok(d + xs),
        Err(e) => Err(e),
    }
}

pub proof fn lemma_pre_stmts_assoc(d1: Seq<StmtV>, d2: Seq<StmtV>, r: Result<Seq<StmtV>, ParseErrV>)
    ensures
        pre_stmts(d1, pre_stmts(d2, r)) == pre_stmts(d1 + d2, r),
{
    match r {
        Ok(xs) => {
            assert(d1 + (d2 + xs) =~= (d1 + d2) + xs);
        },
        Err(_) => {},
    }
}

pub proof fn lemma_pre_stmts_empty(r: Result<Seq<StmtV>, ParseErrV>)
    ensures
        pre_stmts(Seq::empty(), r) == r,
{
    match r {
        Ok(xs) => {
            assert(Seq::<StmtV>::empty() + xs =~= xs);
        },
        Err(_) => {},
    }
}

/// The parts of an interpolated string read from `p`: literal segments and
/// `${name}` holes, ending before the first token that fits neither.
pub open spec fn p_istr(ts: Seq<TokenV>, p: int) -> Result<(Seq<StringPartV>, int), ParseErrV>
    decreases ts.len() - p,
{
    match cur(ts, p) {
        Some(TokenV::StringLiteral(t)) => pre_pair(
            seq![StringPartV::Text(t)],
            p_istr(ts, p + 1),
        ),
        Some(TokenV::TemplateStart) => match cur(ts, p + 1) {
            Some(TokenV::Identifier(name)) => match p_consume(ts, p + 2, TokenV::TemplateEnd) {
                Ok(p3) => pre_pair(
                    seq![StringPartV::Expression(ExprV::Identifier(name))],
                    p_istr(ts, p3),
                ),
                Err(e) => Err(e),
            },
            _ => Err(ParseErrV::InvalidExpression),
        },
        _ => Ok((Seq::empty(), p)),
    }
}

/// An expression read from `p`: a number, an identifier, or an interpolated
/// string. A string may open with a literal segment or directly with a
/// `${name}` hole.
pub open spec fn p_expr(ts: Seq<TokenV>, p: int) -> Result<(ExprV, int), ParseErrV> {
    match cur(ts, p) {
        Some(TokenV::NumberLiteral(n)) => Ok((ExprV::Number(n), p + 1)),
        Some(TokenV::Identifier(name)) => Ok((ExprV::Identifier(name), p + 1)),
        Some(TokenV::StringLiteral(_)) | Some(TokenV::TemplateStart) => match p_istr(ts, p) {
            Ok((parts, p2)) => Ok((ExprV::String(parts), p2)),
            Err(e) => Err(e),
        },
        _ => Err(ParseErrV::InvalidExpression),
    }
}

/// An assignment `name = expr ;` read from `p`.
pub open spec fn p_assignment(ts: Seq<TokenV>, p: int) -> Result<(StmtV, int), ParseErrV> {
    match cur(ts, p) {
        Some(TokenV::Identifier(name)) => match p_consume(ts, p + 1, TokenV::Equals) {
            Ok(p2) => match p_expr(ts, p2) {
                Ok((value, p3)) => match p_consume(ts, p3, TokenV::SemiColon) {
                    Ok(p4) => Ok((StmtV::Assignment { name, value }, p4)),
                    Err(e) => Err(e),
                },
                Err(e) => Err(e),
            },
            Err(e) => Err(e),
        },
        _ => Err(ParseErrV::InvalidExpression),
    }
}

/// One `"key" : expr` pair read from `p`.
pub open spec fn p_kv_pair(ts: Seq<TokenV>, p: int) -> Result<((Seq<char>, ExprV), int), ParseErrV> {
    match cur(ts, p) {
        Some(TokenV::StringLiteral(k)) => match p_consume(ts, p + 1, TokenV::Colon) {
            Ok(p2) => match p_expr(ts, p2) {
                Ok((v, p3)) => Ok(((k, v), p3)),
                Err(e) => Err(e),
            },
            Err(e) => Err(e),
        },
        _ => Err(ParseErrV::InvalidExpression),
    }
}

pub proof fn lemma_p_istr_pos(ts: Seq<TokenV>, p: int)
    requires
        0 <= p <= ts.len(),
    ensures
        p_istr(ts, p) matches Ok((parts, p2)) ==> p <= p2 <= ts.len(),
    decreases ts.len() - p,
{
    match cur(ts, p) {
        Some(TokenV::StringLiteral(_)) => {
            lemma_p_istr_pos(ts, p + 1);
        },
        Some(TokenV::TemplateStart) => {
            if cur(ts, p + 1) matches Some(TokenV::Identifier(_)) {
                if p_consume(ts, p + 2, TokenV::TemplateEnd) matches Ok(p3) {
                    lemma_p_istr_pos(ts, p + 3);
                }
            }
        },
        _ => {},
    }
}

pub proof fn lemma_p_expr_pos(ts: Seq<TokenV>, p: int)
    requires
        0 <= p,
    ensures
        p_expr(ts, p) matches Ok((e, p2)) ==> p < p2 <= ts.len(),
{
    if cur(ts, p) matches Some(TokenV::StringLiteral(_)) {
        lemma_p_istr_pos(ts, p + 1);
    }
    if cur(ts, p) matches Some(TokenV::TemplateStart) {
        if cur(ts, p + 1) matches Some(TokenV::Identifier(_)) {
            if p_consume(ts, p + 2, TokenV::TemplateEnd) matches Ok(p3) {
                lemma_p_istr_pos(ts, p + 3);
            }
        }
    }
}

pub proof fn lemma_p_kv_pair_pos(ts: Seq<TokenV>, p: int)
    requires
        0 <= p,
    ensures
        p_kv_pair(ts, p) matches Ok((pair, p2)) ==> p < p2 <= ts.len(),
{
    if cur(ts, p) matches Some(TokenV::StringLiteral(_)) {
        lemma_p_expr_pos(ts, p + 2);
    }
}

/// The `"key": expr ,`-list of a key/value block, read until the closing brace
/// (which is left in place).
pub open spec fn p_kv_items(ts: Seq<TokenV>, p: int) -> Result<
    (Seq<(Seq<char>, ExprV)>, int),
    ParseErrV,
>
    decreases ts.len() - p,
    via p_kv_items_decreases
{
    if cur(ts, p) == Some(TokenV::CloseBrace) {
        Ok((Seq::empty(), p))
    } else {
        match p_kv_pair(ts, p) {
            Ok((pair, p2)) => {
                let p3 = if cur(ts, p2) == Some(TokenV::Comma) {
                    p2 + 1
                } else {
                    p2
                };
                pre_pair(seq![pair], p_kv_items(ts, p3))
            },
            Err(e) => Err(e),
        }
    }
}

#[via_fn]
proof fn p_kv_items_decreases(ts: Seq<TokenV>, p: int) {
    if cur(ts, p) != Some(TokenV::CloseBrace) {
        if p_kv_pair(ts, p) matches Ok((pair, p2)) {
            lemma_p_kv_pair_pos(ts, p);
        }
    }
}

pub proof fn lemma_p_kv_items_pos(ts: Seq<TokenV>, p: int)
    requires
        0 <= p,
    ensures
        p_kv_items(ts, p) matches Ok((items, p2)) ==> p <= p2 <= ts.len(),
    decreases ts.len() - p,
{
    if cur(ts, p) != Some(TokenV::CloseBrace) {
        match p_kv_pair(ts, p) {
            Ok((pair, p2)) => {
                lemma_p_kv_pair_pos(ts, p);
                let p3: int = if cur(ts, p2) == Some(TokenV::Comma) {
                    p2 + 1
                } else {
                    p2
                };
                lemma_p_kv_items_pos(ts, p3);
            },
            Err(_) => {},
        }
    }
}

/// A `{ ... }` key/value block read from `p`.
pub open spec fn p_kv_block(ts: Seq<TokenV>, p: int) -> Result<
    (Seq<(Seq<char>, ExprV)>, int),
    ParseErrV,
> {
    match p_consume(ts, p, TokenV::OpenBrace) {
        Ok(p1) => match p_kv_items(ts, p1) {
            Ok((items, p2)) => match p_consume(ts, p2, TokenV::CloseBrace) {
                Ok(p3) => Ok((items, p3)),
                Err(e) => Err(e),
            },
            Err(e) => Err(e),
        },
        Err(e) => Err(e),
    }
}

pub proof fn lemma_p_kv_block_pos(ts: Seq<TokenV>, p: int)
    requires
        0 <= p,
    ensures
        p_kv_block(ts, p) matches Ok((items, p2)) ==> p < p2 <= ts.len(),
{
    match p_consume(ts, p, TokenV::OpenBrace) {
        Ok(p1) => {
            lemma_p_kv_items_pos(ts, p1);
        },
        Err(_) => {},
    }
}

/// One section of a request: its keyword decides which field of `req` the
/// block that follows fills. The keyword is matched case-insensitively by
/// uppercasing it first.
pub open spec fn p_section(ts: Seq<TokenV>, p: int, req: ReqV) -> Result<(ReqV, int), ParseErrV> {
    match cur(ts, p) {
        Some(TokenV::Identifier(name)) => {
            let uname = upper_of(name);
            if uname == "HEADERS"@ {
                match p_kv_block(ts, p + 1) {
                    Ok((items, p2)) => Ok((ReqV { headers: items, ..req }, p2)),
                    Err(e) => Err(e),
                }
            } else if uname == "QUERY"@ {
                match p_kv_block(ts, p + 1) {
                    Ok((items, p2)) => Ok((ReqV { query: items, ..req }, p2)),
                    Err(e) => Err(e),
                }
            } else if uname == "BODY"@ {
                match p_kv_block(ts, p + 1) {
                    Ok((items, p2)) => Ok((ReqV { body: Some(items), ..req }, p2)),
                    Err(e) => Err(e),
                }
            } else {
                Err(ParseErrV::UnexpectedToken {
                    expected: TokenV::Identifier("HEADERS|QUERY|BODY"@),
                    found: TokenV::Identifier(uname),
                })
            }
        },
        _ => Err(ParseErrV::InvalidExpression),
    }
}

pub proof fn lemma_p_section_pos(ts: Seq<TokenV>, p: int, req: ReqV)
    requires
        0 <= p,
    ensures
        p_section(ts, p, req) matches Ok((req2, p2)) ==> p < p2 <= ts.len(),
{
    if cur(ts, p) matches Some(TokenV::Identifier(name)) {
        lemma_p_kv_block_pos(ts, p + 1);
    }
}

/// The sections of a request, read until the closing brace (left in place);
/// each section updates `req` in turn.
pub open spec fn p_sections(ts: Seq<TokenV>, p: int, req: ReqV) -> Result<(ReqV, int), ParseErrV>
    decreases ts.len() - p,
    via p_sections_decreases
{
    if cur(ts, p) == Some(TokenV::CloseBrace) {
        Ok((req, p))
    } else {
        match p_section(ts, p, req) {
            Ok((req2, p2)) => p_sections(ts, p2, req2),
            Err(e) => Err(e),
        }
    }
}

#[via_fn]
proof fn p_sections_decreases(ts: Seq<TokenV>, p: int, req: ReqV) {
    if cur(ts, p) != Some(TokenV::CloseBrace) {
        if p_section(ts, p, req) matches Ok((req2, p2)) {
            lemma_p_section_pos(ts, p, req);
        }
    }
}

pub proof fn lemma_p_sections_pos(ts: Seq<TokenV>, p: int, req: ReqV)
    requires
        0 <= p,
    ensures
        p_sections(ts, p, req) matches Ok((req2, p2)) ==> p <= p2 <= ts.len(),
    decreases ts.len() - p,
{
    if cur(ts, p) != Some(TokenV::CloseBrace) {
        match p_section(ts, p, req) {
            Ok((req2, p2)) => {
                lemma_p_section_pos(ts, p, req);
                lemma_p_sections_pos(ts, p2, req2);
            },
            Err(_) => {},
        }
    }
}

/// The part of a request after its optional label: `@ method url { section* }`.
pub open spec fn p_request_after_label(ts: Seq<TokenV>, p: int, label: Option<Seq<char>>) -> Result<
    (StmtV, int),
    ParseErrV,
> {
    match p_consume(ts, p, TokenV::At) {
        Ok(p1) => match cur(ts, p1) {
            Some(TokenV::Identifier(m)) => match p_expr(ts, p1 + 1) {
                Ok((url, p2)) => {
                    let req = ReqV {
                        label,
                        method: m,
                        url,
                        headers: Seq::empty(),
                        query: Seq::empty(),
                        body: None,
                    };
                    match p_consume(ts, p2, TokenV::OpenBrace) {
                        Ok(p3) => match p_sections(ts, p3, req) {
                            Ok((req2, p4)) => match p_consume(ts, p4, TokenV::CloseBrace) {
                                Ok(p5) => Ok((StmtV::Request(req2), p5)),
                                Err(e) => Err(e),
                            },
                            Err(e) => Err(e),
                        },
                        Err(e) => Err(e),
                    }
                },
                Err(e) => Err(e),
            },
            _ => Err(ParseErrV::InvalidExpression),
        },
        Err(e) => Err(e),
    }
}

/// A request statement read from `p`, with its optional `#[label]` prefix.
pub open spec fn p_request(ts: Seq<TokenV>, p: int) -> Result<(StmtV, int), ParseErrV> {
    if cur(ts, p) == Some(TokenV::Hash) {
        match p_consume(ts, p + 1, TokenV::OpenBracket) {
            Ok(p2) => match cur(ts, p2) {
                Some(TokenV::Label(name)) => match p_consume(ts, p2 + 1, TokenV::CloseBracket) {
                    Ok(p3) => p_request_after_label(ts, p3, Some(name)),
                    Err(e) => Err(e),
                },
                _ => Err(ParseErrV::InvalidExpression),
            },
            Err(e) => Err(e),
        }
    } else {
        p_request_after_label(ts, p, None)
    }
}

pub proof fn lemma_p_request_after_label_pos(ts: Seq<TokenV>, p: int, label: Option<Seq<char>>)
    requires
        0 <= p,
    ensures
        p_request_after_label(ts, p, label) matches Ok((s, p2)) ==> p < p2 <= ts.len(),
{
    match p_consume(ts, p, TokenV::At) {
        Ok(p1) => match cur(ts, p1) {
            Some(TokenV::Identifier(m)) => {
                lemma_p_expr_pos(ts, p1 + 1);
                match p_expr(ts, p1 + 1) {
                    Ok((url, p2)) => match p_consume(ts, p2, TokenV::OpenBrace) {
                        Ok(p3) => {
                            let req = ReqV {
                                label,
                                method: m,
                                url,
                                headers: Seq::empty(),
                                query: Seq::empty(),
                                body: None,
                            };
                            lemma_p_sections_pos(ts, p3, req);
                        },
                        Err(_) => {},
                    },
                    Err(_) => {},
                }
            },
            _ => {},
        },
        Err(_) => {},
    }
}

pub proof fn lemma_p_request_pos(ts: Seq<TokenV>, p: int)
    requires
        0 <= p,
    ensures
        p_request(ts, p) matches Ok((s, p2)) ==> p < p2 <= ts.len(),
{
    if cur(ts, p) == Some(TokenV::Hash) {
        match p_consume(ts, p + 1, TokenV::OpenBracket) {
            Ok(p2) => match cur(ts, p2) {
                Some(TokenV::Label(name)) => match p_consume(ts, p2 + 1, TokenV::CloseBracket) {
                    Ok(p3) => {
                        lemma_p_request_after_label_pos(ts, p3, Some(name));
                    },
                    Err(_) => {},
                },
                _ => {},
            },
            Err(_) => {},
        }
    } else {
        lemma_p_request_after_label_pos(ts, p, None);
    }
}

/// One statement read from `p`: an assignment when an identifier starts it, a
/// request when `#` or `@` does.
pub open spec fn p_statement(ts: Seq<TokenV>, p: int) -> Result<(StmtV, int), ParseErrV> {
    match cur(ts, p) {
        Some(TokenV::Identifier(_)) => p_assignment(ts, p),
        Some(TokenV::Hash) => p_request(ts, p),
        Some(TokenV::At) => p_request(ts, p),
        Some(t) => Err(ParseErrV::UnexpectedToken {
            expected: TokenV::Identifier("statement"@),
            found: t,
        }),
        None => Err(ParseErrV::UnexpectedEOF),
    }
}

pub proof fn lemma_p_statement_pos(ts: Seq<TokenV>, p: int)
    requires
        0 <= p,
    ensures
        p_statement(ts, p) matches Ok((s, p2)) ==> p < p2 <= ts.len(),
{
    match cur(ts, p) {
        Some(TokenV::Identifier(_)) => {
            lemma_p_expr_pos(ts, p + 2);
        },
        Some(TokenV::Hash) => {
            lemma_p_request_pos(ts, p);
        },
        Some(TokenV::At) => {
            lemma_p_request_pos(ts, p);
        },
        _ => {},
    }
}

/// The statement list of a whole program, read from `p` to the end of the
/// tokens.
pub open spec fn p_program(ts: Seq<TokenV>, p: int) -> Result<Seq<StmtV>, ParseErrV>
    decreases ts.len() - p,
    via p_program_decreases
{
    if !(0 <= p < ts.len()) {
        Ok(Seq::empty())
    } else {
        match p_statement(ts, p) {
            Ok((s, p2)) => pre_stmts(seq![s], p_program(ts, p2)),
            Err(e) => Err(e),
        }
    }
}

#[via_fn]
proof fn p_program_decreases(ts: Seq<TokenV>, p: int) {
    if 0 <= p < ts.len() {
        if p_statement(ts, p) matches Ok((s, p2)) {
            lemma_p_statement_pos(ts, p);
        }
    }
}

/// What remains of a request once its sections are being read: the sections up
/// to the closing brace, then the brace itself.
pub open spec fn p_request_tail(ts: Seq<TokenV>, p: int, req: ReqV) -> Result<
    (StmtV, int),
    ParseErrV,
> {
    match p_sections(ts, p, req) {
        Ok((req2, p4)) => match p_consume(ts, p4, TokenV::CloseBrace) {
            Ok(p5) => Ok((StmtV::Request(req2), p5)),
            Err(e) => Err(e),
        },
        Err(e) => Err(e),
    }
}

/// The recursive-descent parser: one token of lookahead over a token list.
pub struct Parser {
    pub tokens: Vec<Token>,
    pub pos: usize,
}

impl Parser {
    /// The model of the parser's token stream.
    pub open spec fn toks(&self) -> Seq<TokenV> {
        toks_view(self.tokens@)
    }

    pub fn new(tokens: Vec<Token>) -> (r: Self)
        ensures
            r.tokens == tokens,
            r.pos == 0,
    {
        Self { tokens, pos: 0 }
    }

    /// The token under the cursor, if any.
    fn current(&self) -> (r: Option<&Token>)
        ensures
            match r {
                Some(t) => {
                    &&& cur(self.toks(), self.pos as int) == Some(t@)
                    &&& self.pos < self.tokens@.len()
                    &&& t == &self.tokens@[self.pos as int]
                },
                None => cur(self.toks(), self.pos as int) == None::<TokenV>,
            },
    {
        if self.pos < self.tokens.len() {
            Some(&self.tokens[self.pos])
        } else {
            None
        }
    }

    /// Moves the cursor one token forward.
    fn advance(&mut self)
        requires
            old(self).pos < old(self).tokens@.len(),
        ensures
            final(self).tokens@ == old(self).tokens@,
            final(self).pos == old(self).pos + 1,
    {
        proof {
            vstd::std_specs::vec::axiom_spec_len(&self.tokens);
        }
        self.pos += 1;
    }

    /// Requires the current token to equal `expected` and steps past it;
    /// reports what was found otherwise.
    fn consume(&mut self, expected: &Token) -> (r: Result<(), ParserError>)
        ensures
            final(self).tokens@ == old(self).tokens@,
            match r {
                Ok(_) => p_consume(old(self).toks(), old(self).pos as int, expected@) == Ok::<
                    int,
                    ParseErrV,
                >(final(self).pos as int) && final(self).pos == old(self).pos + 1,
                Err(e) => p_consume(old(self).toks(), old(self).pos as int, expected@) == Err::<
                    int,
                    ParseErrV,
                >(e@) && final(self).pos == old(self).pos,
            },
    {
        if let Some(t) = self.current() {
            if token_eq(t, expected) {
                self.advance();
                Ok(())
            } else {
                Err(ParserError::UnexpectedToken {
                    expected: token_clone(expected),
                    found: token_clone(t),
                })
            }
        } else {
            Err(ParserError::UnexpectedEOF)
        }
    }

    /// Reads the parts of an interpolated string into one string expression.
    fn parse_interpolated_string(&mut self) -> (r: Result<Expr, ParserError>)
        ensures
            final(self).tokens@ == old(self).tokens@,
            match r {
                Ok(e) => match p_istr(old(self).toks(), old(self).pos as int) {
                    Ok((parts, p2)) => e@ == ExprV::String(parts) && final(self).pos == p2,
                    Err(_) => false,
                },
                Err(err) => p_istr(old(self).toks(), old(self).pos as int) == Err::<
                    (Seq<StringPartV>, int),
                    ParseErrV,
                >(err@),
            },
    {
        let mut parts: Vec<StringPart> = Vec::new();
        let ghost t0 = self.tokens@;
        let ghost p0 = self.pos as int;

        proof {
            assert(parts_view(parts@) =~= Seq::<StringPartV>::empty());
            lemma_pre_pair_empty(p_istr(toks_view(t0), p0));
        }

        loop
            invariant
                t0 == old(self).tokens@,
                p0 == old(self).pos as int,
                self.tokens@ == t0,
                p_istr(toks_view(t0), p0) == pre_pair(
                    parts_view(parts@),
                    p_istr(self.toks(), self.pos as int),
                ),
            ensures
                self.tokens@ == t0,
                p_istr(toks_view(t0), p0) == Ok::<_, ParseErrV>(
                    (parts_view(parts@), self.pos as int),
                ),
            decreases self.tokens@.len() - self.pos,
        {
            let ghost d0 = parts_view(parts@);
            let ghost ps0 = parts@;
            match self.current() {
                Some(Token::StringLiteral(t)) => {
                    let text = t.clone();
                    self.advance();
                    parts.push(StringPart::Text(text));
                    proof {
                        lemma_parts_view_push(ps0, StringPart::Text(text));
                        lemma_pre_pair_assoc(
                            d0,
                            seq![StringPartV::Text(text@)],
                            p_istr(self.toks(), self.pos as int),
                        );
                    }
                },
                Some(Token::TemplateStart) => {
                    self.advance();

                    let ename = match self.current() {
                        Some(Token::Identifier(name)) => {
                            let id = name.clone();
                            self.advance();
                            id
                        },
                        _ => {
                            return Err(ParserError::InvalidExpression);
                        },
                    };
                    match self.consume(&Token::TemplateEnd) {
                        Ok(_) => {},
                        Err(e) => {
                            return Err(e);
                        },
                    }
                    parts.push(StringPart::Expression(Expr::Identifier(ename)));
                    proof {
                        lemma_parts_view_push(ps0, StringPart::Expression(Expr::Identifier(ename)));
                        lemma_pre_pair_assoc(
                            d0,
                            seq![StringPartV::Expression(ExprV::Identifier(ename@))],
                            p_istr(self.toks(), self.pos as int),
                        );
                    }
                },
                _ => {
                    proof {
                        assert(parts_view(parts@) + Seq::<StringPartV>::empty() =~= parts_view(
                            parts@,
                        ));
                    }
                    break;
                },
            }
        }
        Ok(Expr::String(parts))
    }

    /// Reads one expression: a number literal, an identifier, or an
    /// interpolated string.
    fn parse_expression(&mut self) -> (r: Result<Expr, ParserError>)
        ensures
            final(self).tokens@ == old(self).tokens@,
            match r {
                Ok(e) => match p_expr(old(self).toks(), old(self).pos as int) {
                    Ok((ev, p2)) => e@ == ev && final(self).pos == p2,
                    Err(_) => false,
                },
                Err(err) => p_expr(old(self).toks(), old(self).pos as int) == Err::<
                    (ExprV, int),
                    ParseErrV,
                >(err@),
            },
    {
        match self.current() {
            Some(Token::NumberLiteral(n)) => {
                let val = *n;
                self.advance();
                Ok(Expr::Number(val))
            },
            Some(Token::Identifier(name)) => {
                let id = name.clone();
                self.advance();
                Ok(Expr::Identifier(id))
            },
            Some(Token::StringLiteral(_)) | Some(Token::TemplateStart) => self
                .parse_interpolated_string(),
            _ => Err(ParserError::InvalidExpression),
        }
    }

    /// Reads an assignment `name = expr ;`.
    fn parse_assignment(&mut self) -> (r: Result<Stmt, ParserError>)
        ensures
            final(self).tokens@ == old(self).tokens@,
            match r {
                Ok(s) => match p_assignment(old(self).toks(), old(self).pos as int) {
                    Ok((sv, p2)) => s@ == sv && final(self).pos == p2,
                    Err(_) => false,
                },
                Err(e) => p_assignment(old(self).toks(), old(self).pos as int) == Err::<
                    (StmtV, int),
                    ParseErrV,
                >(e@),
            },
    {
        let name = match self.current() {
            Some(Token::Identifier(name)) => name.clone(),
            _ => {
                return Err(ParserError::InvalidExpression);
            },
        };
        self.advance();
        match self.consume(&Token::Equals) {
            Ok(_) => {},
            Err(e) => {
                return Err(e);
            },
        }
        let value = match self.parse_expression() {
            Ok(v) => v,
            Err(e) => {
                return Err(e);
            },
        };
        match self.consume(&Token::SemiColon) {
            Ok(_) => {},
            Err(e) => {
                return Err(e);
            },
        }
        Ok(Stmt::Assignment { name, value })
    }

    /// Reads one `"key" : expr` pair.
    fn parse_kv_pair(&mut self) -> (r: Result<(String, Expr), ParserError>)
        ensures
            final(self).tokens@ == old(self).tokens@,
            match r {
                Ok(kv) => match p_kv_pair(old(self).toks(), old(self).pos as int) {
                    Ok((pv, p2)) => (kv.0@, kv.1@) == pv && final(self).pos == p2,
                    Err(_) => false,
                },
                Err(e) => p_kv_pair(old(self).toks(), old(self).pos as int) == Err::<
                    ((Seq<char>, ExprV), int),
                    ParseErrV,
                >(e@),
            },
    {
        let key = match self.current() {
            Some(Token::StringLiteral(k)) => k.clone(),
            _ => {
                return Err(ParserError::InvalidExpression);
            },
        };
        self.advance();
        match self.consume(&Token::Colon) {
            Ok(_) => {},
            Err(e) => {
                return Err(e);
            },
        }
        let value = match self.parse_expression() {
            Ok(v) => v,
            Err(e) => {
                return Err(e);
            },
        };
        Ok((key, value))
    }

    /// Reads a `{ "key": expr, ... }` block.
    fn parse_kv_block(&mut self) -> (r: Result<Vec<(String, Expr)>, ParserError>)
        ensures
            final(self).tokens@ == old(self).tokens@,
            match r {
                Ok(items) => match p_kv_block(old(self).toks(), old(self).pos as int) {
                    Ok((iv, p2)) => kv_view(items@) == iv && final(self).pos == p2,
                    Err(_) => false,
                },
                Err(e) => p_kv_block(old(self).toks(), old(self).pos as int) == Err::<
                    (Seq<(Seq<char>, ExprV)>, int),
                    ParseErrV,
                >(e@),
            },
    {
        let mut items: Vec<(String, Expr)> = Vec::new();
        match self.consume(&Token::OpenBrace) {
            Ok(_) => {},
            Err(e) => {
                return Err(e);
            },
        }
        let ghost t0 = self.tokens@;
        let ghost p1 = self.pos as int;

        proof {
            assert(kv_view(items@) =~= Seq::<(Seq<char>, ExprV)>::empty());
            lemma_pre_pair_empty(p_kv_items(toks_view(t0), p1));
        }

        loop
            invariant
                t0 == old(self).tokens@,
                self.tokens@ == t0,
                p_consume(old(self).toks(), old(self).pos as int, TokenV::OpenBrace) == Ok::<
                    int,
                    ParseErrV,
                >(p1),
                p_kv_items(toks_view(t0), p1) == pre_pair(
                    kv_view(items@),
                    p_kv_items(self.toks(), self.pos as int),
                ),
            ensures
                self.tokens@ == t0,
                p_consume(old(self).toks(), old(self).pos as int, TokenV::OpenBrace) == Ok::<
                    int,
                    ParseErrV,
                >(p1),
                p_kv_items(toks_view(t0), p1) == Ok::<_, ParseErrV>(
                    (kv_view(items@), self.pos as int),
                ),
                cur(self.toks(), self.pos as int) == Some(TokenV::CloseBrace),
            decreases self.tokens@.len() - self.pos,
        {
            let ghost d0 = kv_view(items@);
            let ghost pos0 = self.pos as int;
            match self.current() {
                Some(Token::CloseBrace) => {
                    proof {
                        assert(kv_view(items@) + Seq::<(Seq<char>, ExprV)>::empty() =~= kv_view(
                            items@,
                        ));
                    }
                    break;
                },
                _ => {},
            }

            let pair = match self.parse_kv_pair() {
                Ok(p) => p,
                Err(e) => {
                    return Err(e);
                },
            };
            proof {
                lemma_p_kv_pair_pos(toks_view(t0), pos0);
            }
            items.push(pair);

            match self.current() {
                Some(Token::Comma) => {
                    self.advance();
                },
                _ => {},
            }

            proof {
                let stepped = seq![(pair.0@, pair.1@)];
                assert(kv_view(items@) =~= d0 + stepped);
                lemma_pre_pair_assoc(d0, stepped, p_kv_items(self.toks(), self.pos as int));
            }
        }

        match self.consume(&Token::CloseBrace) {
            Ok(_) => {},
            Err(e) => {
                return Err(e);
            },
        }
        Ok(items)
    }

    /// Reads one section (`HEADERS`, `QUERY` or `BODY`, matched
    /// case-insensitively) and fills the matching field of `req`.
    fn parse_section(&mut self, req: &mut Req) -> (r: Result<(), ParserError>)
        ensures
            final(self).tokens@ == old(self).tokens@,
            match r {
                Ok(_) => match p_section(old(self).toks(), old(self).pos as int, old(req)@) {
                    Ok((rv, p2)) => final(req)@ == rv && final(self).pos == p2,
                    Err(_) => false,
                },
                Err(e) => p_section(old(self).toks(), old(self).pos as int, old(req)@) == Err::<
                    (ReqV, int),
                    ParseErrV,
                >(e@),
            },
    {
        let section_name = match self.current() {
            Some(Token::Identifier(name)) => name.clone(),
            _ => {
                return Err(ParserError::InvalidExpression);
            },
        };
        self.advance();
        let upper = to_uppercase_string(&section_name);

        let headers_kw = String::from_str("HEADERS");
        if upper == headers_kw {
            let headers = match self.parse_kv_block() {
                Ok(items) => items,
                Err(e) => {
                    return Err(e);
                },
            };
            req.headers = headers;
            return Ok(());
        }
        let query_kw = String::from_str("QUERY");
        if upper == query_kw {
            let query = match self.parse_kv_block() {
                Ok(items) => items,
                Err(e) => {
                    return Err(e);
                },
            };
            req.query = query;
            return Ok(());
        }
        let body_kw = String::from_str("BODY");
        if upper == body_kw {
            let body = match self.parse_kv_block() {
                Ok(items) => items,
                Err(e) => {
                    return Err(e);
                },
            };
            req.body = Some(body);
            return Ok(());
        }

        Err(ParserError::UnexpectedToken {
            expected: Token::Identifier(String::from_str("HEADERS|QUERY|BODY")),
            found: Token::Identifier(upper),
        })
    }

    /// Reads a request: an optional `#[label]`, then `@ method url` and its
    /// brace-delimited sections.
    fn parse_request(&mut self) -> (r: Result<Stmt, ParserError>)
        ensures
            final(self).tokens@ == old(self).tokens@,
            match r {
                Ok(s) => match p_request(old(self).toks(), old(self).pos as int) {
                    Ok((sv, p2)) => s@ == sv && final(self).pos == p2,
                    Err(_) => false,
                },
                Err(e) => p_request(old(self).toks(), old(self).pos as int) == Err::<
                    (StmtV, int),
                    ParseErrV,
                >(e@),
            },
    {
        let label: Option<String> = match self.current() {
            Some(Token::Hash) => {
                self.advance();
                match self.consume(&Token::OpenBracket) {
                    Ok(_) => {},
                    Err(e) => {
                        return Err(e);
                    },
                }
                let name = match self.current() {
                    Some(Token::Label(name)) => name.clone(),
                    _ => {
                        return Err(ParserError::InvalidExpression);
                    },
                };
                self.advance();
                match self.consume(&Token::CloseBracket) {
                    Ok(_) => {},
                    Err(e) => {
                        return Err(e);
                    },
                }
                Some(name)
            },
            _ => None,
        };

        match self.consume(&Token::At) {
            Ok(_) => {},
            Err(e) => {
                return Err(e);
            },
        }
        let method = match self.current() {
            Some(Token::Identifier(m)) => m.clone(),
            _ => {
                return Err(ParserError::InvalidExpression);
            },
        };
        self.advance();
        let url = match self.parse_expression() {
            Ok(u) => u,
            Err(e) => {
                return Err(e);
            },
        };

        let mut req: Req = Req {
            label,
            method,
            url,
            headers: Vec::new(),
            query: Vec::new(),
            body: None,
        };

        match self.consume(&Token::OpenBrace) {
            Ok(_) => {},
            Err(e) => {
                return Err(e);
            },
        }

        let ghost t0 = self.tokens@;
        proof {
            assert(kv_view(req.headers@) =~= Seq::<(Seq<char>, ExprV)>::empty());
            assert(kv_view(req.query@) =~= Seq::<(Seq<char>, ExprV)>::empty());
            assert(p_request(old(self).toks(), old(self).pos as int) == p_request_tail(
                toks_view(t0),
                self.pos as int,
                req@,
            ));
        }

        loop
            invariant
                t0 == old(self).tokens@,
                self.tokens@ == t0,
                p_request(old(self).toks(), old(self).pos as int) == p_request_tail(
                    toks_view(t0),
                    self.pos as int,
                    req@,
                ),
            ensures
                self.tokens@ == t0,
                p_request(old(self).toks(), old(self).pos as int) == p_request_tail(
                    toks_view(t0),
                    self.pos as int,
                    req@,
                ),
                cur(self.toks(), self.pos as int) == Some(TokenV::CloseBrace),
            decreases self.tokens@.len() - self.pos,
        {
            match self.current() {
                Some(Token::CloseBrace) => {
                    break;
                },
                _ => {},
            }
            let ghost pos0 = self.pos as int;
            let ghost req0 = req@;
            match self.parse_section(&mut req) {
                Ok(_) => {
                    proof {
                        lemma_p_section_pos(toks_view(t0), pos0, req0);
                    }
                },
                Err(e) => {
                    return Err(e);
                },
            }
        }

        match self.consume(&Token::CloseBrace) {
            Ok(_) => {},
            Err(e) => {
                return Err(e);
            },
        }
        Ok(Stmt::Request(req))
    }

    /// Reads one statement: an assignment when an identifier starts it, a
    /// request when `#` or `@` does.
    fn parse_statement(&mut self) -> (r: Result<Stmt, ParserError>)
        ensures
            final(self).tokens@ == old(self).tokens@,
            match r {
                Ok(s) => match p_statement(old(self).toks(), old(self).pos as int) {
                    Ok((sv, p2)) => s@ == sv && final(self).pos == p2,
                    Err(_) => false,
                },
                Err(e) => p_statement(old(self).toks(), old(self).pos as int) == Err::<
                    (StmtV, int),
                    ParseErrV,
                >(e@),
            },
    {
        match self.current() {
            Some(Token::Identifier(_)) => self.parse_assignment(),
            Some(Token::Hash) => self.parse_request(),
            Some(Token::At) => self.parse_request(),
            Some(t) => Err(ParserError::UnexpectedToken {
                expected: Token::Identifier(String::from_str("statement")),
                found: token_clone(t),
            }),
            None => Err(ParserError::UnexpectedEOF),
        }
    }

    /// Reads the whole program: statements until the tokens run out. A single
    /// malformed statement aborts the parse with its error.
    pub fn parse(&mut self) -> (r: Result<Vec<Stmt>, ParserError>)
        ensures
            final(self).tokens@ == old(self).tokens@,
            match r {
                Ok(stmts) => p_program(old(self).toks(), old(self).pos as int) == Ok::<
                    _,
                    ParseErrV,
                >(stmts_view(stmts@)) && final(self).pos as int == (if old(self).pos
                    <= old(self).tokens@.len() {
                    old(self).tokens@.len() as int
                } else {
                    old(self).pos as int
                }),
                Err(e) => p_program(old(self).toks(), old(self).pos as int) == Err::<
                    Seq<StmtV>,
                    ParseErrV,
                >(e@),
            },
    {
        let mut statements: Vec<Stmt> = Vec::new();
        let ghost t0 = self.tokens@;
        let ghost p0 = self.pos as int;

        proof {
            assert(stmts_view(statements@) =~= Seq::<StmtV>::empty());
            lemma_pre_stmts_empty(p_program(toks_view(t0), p0));
        }

        while self.pos < self.tokens.len()
            invariant
                t0 == old(self).tokens@,
                p0 == old(self).pos as int,
                self.tokens@ == t0,
                p0 <= t0.len() ==> self.pos <= self.tokens@.len(),
                p0 > t0.len() ==> self.pos as int == p0,
                p_program(toks_view(t0), p0) == pre_stmts(
                    stmts_view(statements@),
                    p_program(self.toks(), self.pos as int),
                ),
            decreases self.tokens@.len() - self.pos,
        {
            let ghost d0 = stmts_view(statements@);
            let ghost pos0 = self.pos as int;
            match self.parse_statement() {
                Ok(s) => {
                    proof {
                        lemma_p_statement_pos(toks_view(t0), pos0);
                    }
                    statements.push(s);
                    proof {
                        assert(stmts_view(statements@) =~= d0 + seq![statements@.last()@]);
                        lemma_pre_stmts_assoc(
                            d0,
                            seq![statements@.last()@],
                            p_program(self.toks(), self.pos as int),
                        );
                    }
                },
                Err(e) => {
                    return Err(e);
                },
            }
        }

        proof {
            assert(stmts_view(statements@) + Seq::<StmtV>::empty() =~= stmts_view(statements@));
        }
        Ok(statements)
    }
}

} // verus!
