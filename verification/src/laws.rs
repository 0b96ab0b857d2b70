use vstd::prelude::*;

use crate::ast::{ExprV, ReqV, StmtV};
use crate::parser::{p_program, ParseErrV};
use crate::resolver::{rv_expr, rv_stmt, ResolveErrV, ValueV};
use crate::semantic::{check_req, headers_all_strings, SemErrV};
use crate::token::TokenV;

verus! {

/// Parsing a lone assignment of an integer literal, `name = N ;`, yields
/// exactly the assignment statement binding `name` to the number `N`.
pub proof fn law_assignment_number_parses(name: Seq<char>, n: i64)
    ensures
        p_program(
            seq![
                TokenV::Identifier(name),
                TokenV::Equals,
                TokenV::NumberLiteral(n),
                TokenV::SemiColon,
            ],
            0,
        ) == Ok::<Seq<StmtV>, ParseErrV>(
            seq![StmtV::Assignment { name, value: ExprV::Number(n) }],
        ),
{
    let ts = seq![
        TokenV::Identifier(name),
        TokenV::Equals,
        TokenV::NumberLiteral(n),
        TokenV::SemiColon,
    ];
    reveal_with_fuel(p_program, 2);
    assert(p_program(ts, 4) == Ok::<Seq<StmtV>, ParseErrV>(Seq::empty()));
    let s = StmtV::Assignment { name, value: ExprV::Number(n) };
    assert(seq![s] + Seq::<StmtV>::empty() =~= seq![s]);
}

/// Omitting the terminating `;` on an assignment of an integer literal makes
/// the parse fail with `UnexpectedEOF`.
pub proof fn law_missing_semicolon_is_eof(name: Seq<char>, n: i64)
    ensures
        p_program(
            seq![TokenV::Identifier(name), TokenV::Equals, TokenV::NumberLiteral(n)],
            0,
        ) == Err::<Seq<StmtV>, ParseErrV>(ParseErrV::UnexpectedEOF),
{
    let ts = seq![TokenV::Identifier(name), TokenV::Equals, TokenV::NumberLiteral(n)];
    assert(p_program(ts, 0) == Err::<Seq<StmtV>, ParseErrV>(ParseErrV::UnexpectedEOF));
}

/// A request that passes the checker leaves every already-seen label seen and
/// adds its own.
pub proof fn law_check_grows_labels(
    env: Map<Seq<char>, ValueV>,
    labels: Set<Seq<char>>,
    req: ReqV,
    labels2: Set<Seq<char>>,
)
    requires
        check_req(env, labels, req) == Ok::<Set<Seq<char>>, SemErrV>(labels2),
    ensures
        labels.subset_of(labels2),
        req.label matches Some(l) ==> labels2.contains(l),
{
}

/// A request whose label an earlier request already used fails the checker
/// with `DuplicateLabel`, whatever its method, url, headers or body.
pub proof fn law_duplicate_label_rejected(
    env: Map<Seq<char>, ValueV>,
    labels: Set<Seq<char>>,
    req: ReqV,
    l: Seq<char>,
)
    requires
        req.label == Some(l),
        labels.contains(l),
    ensures
        check_req(env, labels, req) == Err::<Set<Seq<char>>, SemErrV>(SemErrV::DuplicateLabel(l)),
{
}

/// A `GET` or `DELETE` request that carries a body fails the checker with
/// `BodyNotAllowed` naming its method, however fresh its label and whatever
/// its url resolves to as a string.
pub proof fn law_body_not_allowed(env: Map<Seq<char>, ValueV>, labels: Set<Seq<char>>, req: ReqV)
    requires
        req.method == "GET"@ || req.method == "DELETE"@,
        req.body is Some,
        req.label matches Some(l) ==> !labels.contains(l),
        rv_expr(env, req.url) matches Ok(ValueV::String(_)),
    ensures
        check_req(env, labels, req) == Err::<Set<Seq<char>>, SemErrV>(
            SemErrV::BodyNotAllowed(req.method),
        ),
{
}

/// The same body on a `POST` request passes the checker, all other rules
/// being met; and more generally the checker accepts every method text other
/// than `GET` and `DELETE` with a body present.
pub proof fn law_body_allowed_otherwise(
    env: Map<Seq<char>, ValueV>,
    labels: Set<Seq<char>>,
    req: ReqV,
)
    requires
        req.method != "GET"@ && req.method != "DELETE"@,
        req.label matches Some(l) ==> !labels.contains(l),
        rv_expr(env, req.url) matches Ok(ValueV::String(_)),
        headers_all_strings(env, req),
    ensures
        check_req(env, labels, req) is Ok,
{
}

/// The checker does not restrict the method text itself: a bodyless request
/// with a fresh label, a string url and string headers passes whatever its
/// method says, even one the executor will later refuse.
pub proof fn law_method_not_checked(env: Map<Seq<char>, ValueV>, labels: Set<Seq<char>>, req: ReqV)
    requires
        req.body is None,
        req.label matches Some(l) ==> !labels.contains(l),
        rv_expr(env, req.url) matches Ok(ValueV::String(_)),
        headers_all_strings(env, req),
    ensures
        check_req(env, labels, req) is Ok,
{
}

/// Resolving an identifier that no prior assignment bound fails with
/// `UndefinedVariable` naming it.
pub proof fn law_undefined_variable(env: Map<Seq<char>, ValueV>, name: Seq<char>)
    requires
        !env.contains_key(name),
    ensures
        rv_expr(env, ExprV::Identifier(name)) == Err::<ValueV, ResolveErrV>(
            ResolveErrV::UndefinedVariable(name),
        ),
{
}

/// Assigning to a name binds it, and a second assignment to the same name
/// shadows the first: the identifier then resolves to the latest value.
pub proof fn law_latest_assignment_wins(
    env: Map<Seq<char>, ValueV>,
    name: Seq<char>,
    e1: ExprV,
    e2: ExprV,
    v1: ValueV,
    v2: ValueV,
)
    requires
        rv_expr(env, e1) == Ok::<ValueV, ResolveErrV>(v1),
        rv_expr(env.insert(name, v1), e2) == Ok::<ValueV, ResolveErrV>(v2),
    ensures
        rv_stmt(env, StmtV::Assignment { name, value: e1 }) == Ok::<
            Map<Seq<char>, ValueV>,
            ResolveErrV,
        >(env.insert(name, v1)),
        rv_expr(env.insert(name, v1), ExprV::Identifier(name)) == Ok::<ValueV, ResolveErrV>(v1),
        rv_stmt(env.insert(name, v1), StmtV::Assignment { name, value: e2 }) == Ok::<
            Map<Seq<char>, ValueV>,
            ResolveErrV,
        >(env.insert(name, v1).insert(name, v2)),
        rv_expr(env.insert(name, v1).insert(name, v2), ExprV::Identifier(name)) == Ok::<
            ValueV,
            ResolveErrV,
        >(v2),
{
}

} // verus!
