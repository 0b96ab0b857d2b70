use vstd::prelude::*;

use crate::ast::{kv_view, Expr, ExprV, Req, ReqV};
use crate::resolver::{dec_str_i64, i64_dec_string, rv_expr, Resolver, Value, ValueV};
use vstd::string::StringExecFns;

verus! {

/// Errors of request execution.
#[derive(Debug, PartialEq)]
pub enum ExecutorError {
    /// A method text that no HTTP verb is wired to.
    UnsupportedMethod,
    /// A transport-level failure while sending or reading a call.
    RequestFailed,
}

impl ExecutorError {
    /// The diagnostic text of this error.
    pub open spec fn message_text(&self) -> Seq<char> {
        match self {
            ExecutorError::UnsupportedMethod => "Unsupported method"@,
            ExecutorError::RequestFailed => "Requests failed"@,
        }
    }

    /// The diagnostic line of this error.
    pub fn message(&self) -> (r: String)
        ensures
            r@ == self.message_text(),
    {
        match self {
            ExecutorError::UnsupportedMethod => String::from_str("Unsupported method"),
            ExecutorError::RequestFailed => String::from_str("Requests failed"),
        }
    }
}

/// The text a resolved value contributes to an outgoing request: strings
/// splice directly, numbers are decimal-stringified.
pub open spec fn value_text(v: ValueV) -> Seq<char> {
    match v {
        ValueV::String(s) => s,
        ValueV::Number(n) => dec_str_i64(n as int),
    }
}

/// Whether every expression a request carries resolves under `env`. The
/// executor runs after the resolver and checker passes, so this is a caller
/// error to break, exactly as for the semantic pass.
pub open spec fn req_fully_resolvable(env: Map<Seq<char>, ValueV>, req: ReqV) -> bool {
    &&& rv_expr(env, req.url) is Ok
    &&& forall|i: int|
        0 <= i < req.headers.len() ==> (#[trigger] rv_expr(env, req.headers[i].1)) is Ok
    &&& forall|i: int|
        0 <= i < req.query.len() ==> (#[trigger] rv_expr(env, req.query[i].1)) is Ok
    &&& match req.body {
        Some(b) => forall|i: int| 0 <= i < b.len() ==> (#[trigger] rv_expr(env, b[i].1)) is Ok,
        None => true,
    }
}

/// The key/value texts a resolved pair list sends.
pub open spec fn kv_texts(env: Map<Seq<char>, ValueV>, kvs: Seq<(Seq<char>, ExprV)>) -> Seq<
    (Seq<char>, Seq<char>),
> {
    kvs.map_values(
        |kv: (Seq<char>, ExprV)|
            (
                kv.0,
                match rv_expr(env, kv.1) {
                    Ok(v) => value_text(v),
                    Err(_) => Seq::empty(),
                },
            ),
    )
}

/// Mathematical model of a fully resolved request.
#[verifier::ext_equal]
pub ghost struct RequestPlanV {
    pub method: Seq<char>,
    pub url: Seq<char>,
    pub headers: Seq<(Seq<char>, Seq<char>)>,
    pub query: Seq<(Seq<char>, Seq<char>)>,
    pub body: Option<Seq<(Seq<char>, Seq<char>)>>,
}

/// The plan a request resolves to under `env`: the concrete method, url,
/// headers, query pairs and body pairs of the one HTTP call it describes.
pub open spec fn plan_of(env: Map<Seq<char>, ValueV>, req: ReqV) -> RequestPlanV {
    RequestPlanV {
        method: req.method,
        url: match rv_expr(env, req.url) {
            Ok(v) => value_text(v),
            Err(_) => Seq::empty(),
        },
        headers: kv_texts(env, req.headers),
        query: kv_texts(env, req.query),
        body: match req.body {
            Some(b) => Some(kv_texts(env, b)),
            None => None,
        },
    }
}

/// The method texts that are wired to real calls.
pub open spec fn method_supported(m: Seq<char>) -> bool {
    m == "GET"@ || m == "POST"@
}

/// A fully resolved request, ready to be sent: plain text throughout.
#[derive(Debug)]
pub struct RequestPlan {
    pub method: String,
    pub url: String,
    pub headers: Vec<(String, String)>,
    pub query: Vec<(String, String)>,
    pub body: Option<Vec<(String, String)>>,
}

/// The model of a resolved pair list.
pub open spec fn pairs_view(s: Seq<(String, String)>) -> Seq<(Seq<char>, Seq<char>)> {
    s.map_values(|p: (String, String)| (p.0@, p.1@))
}

impl View for RequestPlan {
    type V = RequestPlanV;

    open spec fn view(&self) -> RequestPlanV {
        RequestPlanV {
            method: self.method@,
            url: self.url@,
            headers: pairs_view(self.headers@),
            query: pairs_view(self.query@),
            body: match self.body {
                Some(b) => Some(pairs_view(b@)),
                None => None,
            },
        }
    }
}

/// One executed request's record, as handed to the presentation layer.
#[derive(Debug)]
pub struct RunCmd {
    pub label: String,
    pub status: u16,
    pub method: String,
    pub size: u64,
    pub headers: Vec<(String, String)>,
    pub body: String,
    pub duration_ms: u128,
    pub file: String,
    pub date: String,
}

/// The executor's verified half: turns validated requests into concrete
/// request plans; the surrounding program sends them.
pub struct Executor<'a> {
    pub resolver: &'a Resolver,
}

impl<'a> Executor<'a> {
    /// An executor over a resolver whose variable pass has completed.
    pub fn new(resolver: &'a Resolver) -> (r: Self)
        ensures
            r.resolver == resolver,
    {
        Self { resolver }
    }

    /// The text an expression contributes to the outgoing call.
    fn resolve_string(&self, expr: &Expr) -> (r: String)
        requires
            rv_expr(self.resolver@, expr@) is Ok,
        ensures
            match rv_expr(self.resolver@, expr@) {
                Ok(v) => r@ == value_text(v),
                Err(_) => false,
            },
    {
        match self.resolver.resolve_expression(expr) {
            Ok(Value::Number(n)) => i64_dec_string(n),
            Ok(Value::String(s)) => s,
            Err(_) => {
                proof {
                    assert(false);
                }
                String::new()
            },
        }
    }

    /// Resolves each pair of a key/value list to plain text.
    fn resolve_kv(&self, kvs: &Vec<(String, Expr)>) -> (r: Vec<(String, String)>)
        requires
            forall|i: int|
                0 <= i < kvs@.len() ==> (#[trigger] rv_expr(
                    self.resolver@,
                    kv_view(kvs@)[i].1,
                )) is Ok,
        ensures
            pairs_view(r@) == kv_texts(self.resolver@, kv_view(kvs@)),
    {
        let ghost texts = kv_texts(self.resolver@, kv_view(kvs@));
        let mut out: Vec<(String, String)> = Vec::new();
        let mut j: usize = 0;
        proof {
            assert(pairs_view(out@) =~= texts.take(0));
        }
        while j < kvs.len()
            invariant
                texts == kv_texts(self.resolver@, kv_view(kvs@)),
                forall|i: int|
                    0 <= i < kvs@.len() ==> (#[trigger] rv_expr(
                        self.resolver@,
                        kv_view(kvs@)[i].1,
                    )) is Ok,
                j <= kvs@.len(),
                pairs_view(out@) == texts.take(j as int),
            decreases kvs@.len() - j,
        {
            proof {
                assert(kv_view(kvs@)[j as int] == (kvs@[j as int].0@, (kvs@[j as int].1)@));
                assert(rv_expr(self.resolver@, kv_view(kvs@)[j as int].1) is Ok);
            }
            let key = kvs[j].0.clone();
            let text = self.resolve_string(&kvs[j].1);
            let ghost kview = key@;
            let ghost tview = text@;
            let ghost out0 = out@;
            out.push((key, text));
            proof {
                let idx = j as int;
                assert(texts[idx] == (kview, tview));
                assert(pairs_view(out@) =~= pairs_view(out0).push((kview, tview)));
                assert(texts.take(idx + 1) =~= texts.take(idx).push(texts[idx]));
            }
            j += 1;
        }
        proof {
            assert(texts.take(kvs@.len() as int) =~= texts);
        }
        out
    }

    /// Resolves a validated request into the plan of the one HTTP call it
    /// describes. Only `GET` and `POST` are wired to calls: any other method
    /// text is `UnsupportedMethod`, whatever the earlier passes accepted.
    pub fn prepare(&self, req: &Req) -> (r: Result<RequestPlan, ExecutorError>)
        requires
            req_fully_resolvable(self.resolver@, req@),
        ensures
            match r {
                Ok(plan) => method_supported(req@.method) && plan@ == plan_of(
                    self.resolver@,
                    req@,
                ),
                Err(e) => e == ExecutorError::UnsupportedMethod && !method_supported(req@.method),
            },
    {
        let url = self.resolve_string(&req.url);

        let get_kw = String::from_str("GET");
        let post_kw = String::from_str("POST");
        if !(req.method == get_kw || req.method == post_kw) {
            return Err(ExecutorError::UnsupportedMethod);
        }

        let headers = self.resolve_kv(&req.headers);
        let query = self.resolve_kv(&req.query);
        let body = match &req.body {
            Some(b) => Some(self.resolve_kv(b)),
            None => None,
        };

        let plan = RequestPlan { method: req.method.clone(), url, headers, query, body };
        proof {
            assert(plan@ =~~= plan_of(self.resolver@, req@));
        }
        Ok(plan)
    }
}

} // verus!
