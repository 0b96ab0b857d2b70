use vstd::prelude::*;

verus! {

/// Mathematical model of an expression.
pub ghost enum ExprV {
    Identifier(Seq<char>),
    Number(i64),
    String(Seq<StringPartV>),
}

/// Mathematical model of one piece of an interpolated string.
pub ghost enum StringPartV {
    Text(Seq<char>),
    Expression(ExprV),
}

/// Mathematical model of a request declaration.
pub ghost struct ReqV {
    pub label: Option<Seq<char>>,
    pub method: Seq<char>,
    pub url: ExprV,
    pub headers: Seq<(Seq<char>, ExprV)>,
    pub query: Seq<(Seq<char>, ExprV)>,
    pub body: Option<Seq<(Seq<char>, ExprV)>>,
}

/// Mathematical model of a statement.
pub ghost enum StmtV {
    Assignment { name: Seq<char>, value: ExprV },
    Request(ReqV),
}

/// An expression: a variable reference, an integer literal, or a
/// possibly-interpolated string.
#[derive(Debug, PartialEq)]
pub enum Expr {
    Identifier(String),
    Number(i64),
    String(Vec<StringPart>),
}

/// One piece of an interpolated string: literal text or a `${...}` hole.
#[derive(Debug, PartialEq)]
pub enum StringPart {
    Text(String),
    Expression(Expr),
}

/// One request declaration.
#[derive(Debug, PartialEq)]
pub struct Req {
    pub label: Option<String>,
    pub method: String,
    pub url: Expr,
    pub headers: Vec<(String, Expr)>,
    pub query: Vec<(String, Expr)>,
    pub body: Option<Vec<(String, Expr)>>,
}

/// A statement: an assignment or a request declaration.
#[derive(Debug, PartialEq)]
pub enum Stmt {
    Assignment { name: String, value: Expr },
    Request(Req),
}

pub open spec fn expr_view(e: Expr) -> ExprV
    decreases e,
{
    match e {
        Expr::Identifier(s) => ExprV::Identifier(s@),
        Expr::Number(n) => ExprV::Number(n),
        Expr::String(parts) => ExprV::String(parts_view(parts@)),
    }
}

pub open spec fn parts_view(s: Seq<StringPart>) -> Seq<StringPartV>
    decreases s,
{
    if s.len() == 0 {
        Seq::empty()
    } else {
        seq![part_view(s[0])] + parts_view(s.drop_first())
    }
}

pub open spec fn part_view(p: StringPart) -> StringPartV
    decreases p,
{
    match p {
        StringPart::Text(s) => StringPartV::Text(s@),
        StringPart::Expression(e) => StringPartV::Expression(expr_view(e)),
    }
}

impl View for Expr {
    type V = ExprV;

    open spec fn view(&self) -> ExprV {
        expr_view(*self)
    }
}

impl View for StringPart {
    type V = StringPartV;

    open spec fn view(&self) -> StringPartV {
        part_view(*self)
    }
}

pub proof fn lemma_parts_view_props(s: Seq<StringPart>)
    ensures
        parts_view(s).len() == s.len(),
        forall|i: int| 0 <= i < s.len() ==> parts_view(s)[i] == part_view(s[i]),
    decreases s.len(),
{
    if s.len() > 0 {
        lemma_parts_view_props(s.drop_first());
    }
}

pub proof fn lemma_parts_view_push(s: Seq<StringPart>, x: StringPart)
    ensures
        parts_view(s.push(x)) == parts_view(s) + seq![part_view(x)],
{
    lemma_parts_view_props(s.push(x));
    lemma_parts_view_props(s);
    assert(parts_view(s.push(x)) =~= parts_view(s) + seq![part_view(x)]);
}

/// The model of a key/value pair sequence (headers, query, body).
pub open spec fn kv_view(s: Seq<(String, Expr)>) -> Seq<(Seq<char>, ExprV)> {
    s.map_values(|kv: (String, Expr)| (kv.0@, expr_view(kv.1)))
}

impl View for Req {
    type V = ReqV;

    open spec fn view(&self) -> ReqV {
        ReqV {
            label: match self.label {
                Some(l) => Some(l@),
                None => None,
            },
            method: self.method@,
            url: self.url@,
            headers: kv_view(self.headers@),
            query: kv_view(self.query@),
            body: match self.body {
                Some(b) => Some(kv_view(b@)),
                None => None,
            },
        }
    }
}

impl View for Stmt {
    type V = StmtV;

    open spec fn view(&self) -> StmtV {
        match self {
            Stmt::Assignment { name, value } => StmtV::Assignment {
                name: name@,
                value: value@,
            },
            Stmt::Request(r) => StmtV::Request(r@),
        }
    }
}

/// The model of a statement sequence.
pub open spec fn stmts_view(s: Seq<Stmt>) -> Seq<StmtV> {
    s.map_values(|st: Stmt| st@)
}

} // verus!
