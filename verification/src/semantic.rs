use vstd::prelude::*;

use crate::ast::{ReqV, Stmt, StmtV, Req};
use crate::resolver::{rv_expr, Resolver, Value, ValueV};
use vstd::string::StringExecFns;

verus! {

/// Errors of the semantic pass over a program.
#[derive(Debug, PartialEq)]
pub enum SemanticError {
    /// A request with a body although its method forbids one.
    BodyNotAllowed(String),
    /// A header value that resolves to a number.
    HeaderValueMustBeString,
    /// A url that resolves to a number.
    UrlMustBeString,
    /// A label that an earlier request already used.
    DuplicateLabel(String),
}

/// Mathematical model of a semantic error.
pub ghost enum SemErrV {
    BodyNotAllowed(Seq<char>),
    HeaderValueMustBeString,
    UrlMustBeString,
    DuplicateLabel(Seq<char>),
}

impl View for SemanticError {
    type V = SemErrV;

    open spec fn view(&self) -> SemErrV {
        match self {
            SemanticError::BodyNotAllowed(m) => SemErrV::BodyNotAllowed(m@),
            SemanticError::HeaderValueMustBeString => SemErrV::HeaderValueMustBeString,
            SemanticError::UrlMustBeString => SemErrV::UrlMustBeString,
            SemanticError::DuplicateLabel(l) => SemErrV::DuplicateLabel(l@),
        }
    }
}

impl SemanticError {
    /// The diagnostic text of this error.
    pub open spec fn message_text(&self) -> Seq<char> {
        match self {
            SemanticError::BodyNotAllowed(_) => "Body not allowed"@,
            SemanticError::DuplicateLabel(l) => "Duplicate label: "@ + l@,
            SemanticError::HeaderValueMustBeString => "Headers value must be string"@,
            SemanticError::UrlMustBeString => "Url must be string"@,
        }
    }

    /// The diagnostic line of this error.
    pub fn message(&self) -> (r: String)
        ensures
            r@ == self.message_text(),
    {
        match self {
            SemanticError::BodyNotAllowed(_) => String::from_str("Body not allowed"),
            SemanticError::DuplicateLabel(l) => {
                let mut s = String::from_str("Duplicate label: ");
                s.append(l.as_str());
                s
            },
            SemanticError::HeaderValueMustBeString => String::from_str(
                "Headers value must be string",
            ),
            SemanticError::UrlMustBeString => String::from_str("Url must be string"),
        }
    }
}

/// The label set a label list denotes.
pub open spec fn labels_view(s: Seq<String>) -> Set<Seq<char>>
    decreases s.len(),
{
    if s.len() == 0 {
        Set::empty()
    } else {
        labels_view(s.drop_last()).insert(s.last()@)
    }
}

/// The checker runs after the resolver's full pass, so every expression it
/// re-resolves must already resolve: running it earlier is a caller error.
pub open spec fn req_resolvable(env: Map<Seq<char>, ValueV>, req: ReqV) -> bool {
    &&& rv_expr(env, req.url) is Ok
    &&& forall|i: int|
        0 <= i < req.headers.len() ==> (#[trigger] rv_expr(env, req.headers[i].1)) is Ok
}

/// Whether every header value of `req` resolves to a string.
pub open spec fn headers_all_strings(env: Map<Seq<char>, ValueV>, req: ReqV) -> bool {
    forall|i: int|
        0 <= i < req.headers.len() ==> (#[trigger] rv_expr(env, req.headers[i].1)) matches Ok(
            ValueV::String(_),
        )
}

/// The semantic rules on one request, first violation winning: a fresh label,
/// a string url, no body on `GET`/`DELETE`, string header values. On success
/// the request's label (if any) joins the seen set.
pub open spec fn check_req(env: Map<Seq<char>, ValueV>, labels: Set<Seq<char>>, req: ReqV) -> Result<
    Set<Seq<char>>,
    SemErrV,
> {
    let dup = match req.label {
        Some(l) => labels.contains(l),
        None => false,
    };
    if dup {
        Err(SemErrV::DuplicateLabel(req.label->Some_0))
    } else if !(rv_expr(env, req.url) matches Ok(ValueV::String(_))) {
        Err(SemErrV::UrlMustBeString)
    } else if (req.method == "GET"@ || req.method == "DELETE"@) && req.body is Some {
        Err(SemErrV::BodyNotAllowed(req.method))
    } else if !headers_all_strings(env, req) {
        Err(SemErrV::HeaderValueMustBeString)
    } else {
        match req.label {
            Some(l) => Ok(labels.insert(l)),
            None => Ok(labels),
        }
    }
}

/// The semantic rules on one statement: assignments pass unchecked.
pub open spec fn check_stmt(env: Map<Seq<char>, ValueV>, labels: Set<Seq<char>>, s: StmtV) -> Result<
    Set<Seq<char>>,
    SemErrV,
> {
    match s {
        StmtV::Request(req) => check_req(env, labels, req),
        _ => Ok(labels),
    }
}

/// The semantic checker: validates requests against the resolver's finished
/// environment, accumulating the labels it has seen.
pub struct SemanticChecker<'a> {
    pub resolver: &'a Resolver,
    pub labels: Vec<String>,
}

impl<'a> SemanticChecker<'a> {
    /// The set of labels the checker has seen.
    pub open spec fn labels_set(&self) -> Set<Seq<char>> {
        labels_view(self.labels@)
    }

    /// A checker over a resolver whose variable pass has completed, with no
    /// labels seen yet.
    pub fn new(resolver: &'a Resolver) -> (r: Self)
        ensures
            r.resolver == resolver,
            r.labels_set() == Set::<Seq<char>>::empty(),
    {
        let labels: Vec<String> = Vec::new();
        proof {
            assert(labels_view(labels@) =~= Set::<Seq<char>>::empty());
        }
        Self { resolver, labels }
    }

    /// Whether `name` is among the labels seen so far.
    fn contains_label(&self, name: &String) -> (r: bool)
        ensures
            r == self.labels_set().contains(name@),
    {
        let ghost ls = self.labels@;
        let mut j: usize = 0;
        while j < self.labels.len()
            invariant
                ls == self.labels@,
                j <= ls.len(),
                !labels_view(ls.take(j as int)).contains(name@),
            decreases ls.len() - j,
        {
            proof {
                assert(ls.take(j + 1).drop_last() =~= ls.take(j as int));
                assert(ls.take(j + 1).last() == ls[j as int]);
            }
            if self.labels[j] == *name {
                proof {
                    lemma_labels_view_prefix(ls, j + 1, name@);
                }
                return true;
            }
            j += 1;
        }
        proof {
            assert(ls.take(ls.len() as int) =~= ls);
        }
        false
    }

    /// Checks one request and records its label.
    #[verifier::loop_isolation(false)]
    fn check_request(&mut self, req: &Req) -> (r: Result<(), SemanticError>)
        requires
            req_resolvable(old(self).resolver@, req@),
        ensures
            final(self).resolver == old(self).resolver,
            match r {
                Ok(_) => check_req(old(self).resolver@, old(self).labels_set(), req@) == Ok::<
                    Set<Seq<char>>,
                    SemErrV,
                >(final(self).labels_set()),
                Err(e) => check_req(old(self).resolver@, old(self).labels_set(), req@) == Err::<
                    Set<Seq<char>>,
                    SemErrV,
                >(e@),
            },
    {
        // A repeated label is the first violation checked.
        if let Some(label) = &req.label {
            if self.contains_label(label) {
                return Err(SemanticError::DuplicateLabel(label.clone()));
            }
        }

        // The url must resolve to a string.
        match self.resolver.resolve_expression(&req.url) {
            Ok(Value::String(_)) => {},
            Ok(Value::Number(_)) => {
                return Err(SemanticError::UrlMustBeString);
            },
            Err(_) => {
                proof {
                    assert(false);
                }
                return Err(SemanticError::UrlMustBeString);
            },
        }

        // GET and DELETE requests must carry no body.
        let get_kw = String::from_str("GET");
        let delete_kw = String::from_str("DELETE");
        if (req.method == get_kw || req.method == delete_kw) && req.body.is_some() {
            return Err(SemanticError::BodyNotAllowed(req.method.clone()));
        }

        // Every header value must resolve to a string.
        let mut j: usize = 0;
        while j < req.headers.len()
            invariant
                req_resolvable(self.resolver@, req@),
                j <= req.headers@.len(),
                forall|i: int|
                    0 <= i < j ==> (#[trigger] rv_expr(self.resolver@, req@.headers[i].1)) matches Ok(
                        ValueV::String(_),
                    ),
            decreases req.headers@.len() - j,
        {
            proof {
                assert(req@.headers[j as int] == (
                    req.headers@[j as int].0@,
                    (req.headers@[j as int].1)@,
                ));
                assert(rv_expr(self.resolver@, req@.headers[j as int].1) is Ok);
            }
            match self.resolver.resolve_expression(&req.headers[j].1) {
                Ok(Value::String(_)) => {},
                Ok(Value::Number(_)) => {
                    return Err(SemanticError::HeaderValueMustBeString);
                },
                Err(_) => {
                    proof {
                        assert(false);
                    }
                    return Err(SemanticError::HeaderValueMustBeString);
                },
            }
            j += 1;
        }

        // All rules hold: remember the label.
        if let Some(label) = &req.label {
            let ghost ls0 = self.labels@;
            self.labels.push(label.clone());
            proof {
                assert(self.labels@.drop_last() =~= ls0);
            }
        }
        Ok(())
    }

    /// Checks one statement: semantic rules apply to requests alone.
    pub fn check_statement(&mut self, stmt: &Stmt) -> (r: Result<(), SemanticError>)
        requires
            stmt@ matches StmtV::Request(req) ==> req_resolvable(old(self).resolver@, req),
        ensures
            final(self).resolver == old(self).resolver,
            match r {
                Ok(_) => check_stmt(old(self).resolver@, old(self).labels_set(), stmt@) == Ok::<
                    Set<Seq<char>>,
                    SemErrV,
                >(final(self).labels_set()),
                Err(e) => check_stmt(old(self).resolver@, old(self).labels_set(), stmt@) == Err::<
                    Set<Seq<char>>,
                    SemErrV,
                >(e@),
            },
    {
        match stmt {
            Stmt::Request(req) => self.check_request(req),
            _ => Ok(()),
        }
    }
}

/// A label found at an index is in the set the whole prefix denotes, and what a
/// prefix holds the whole list holds.
proof fn lemma_labels_view_prefix(ls: Seq<String>, j: int, name: Seq<char>)
    requires
        0 <= j <= ls.len(),
        labels_view(ls.take(j)).contains(name),
    ensures
        labels_view(ls).contains(name),
    decreases ls.len() - j,
{
    if j == ls.len() {
        assert(ls.take(j) =~= ls);
    } else {
        assert(ls.take(j + 1).drop_last() =~= ls.take(j));
        lemma_labels_view_prefix(ls, j + 1, name);
    }
}

} // verus!
