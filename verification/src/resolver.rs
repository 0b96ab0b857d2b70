use vstd::prelude::*;

use crate::ast::{Expr, ExprV, Stmt, StmtV, StringPart, StringPartV};
use crate::lexer::push_char;
use vstd::string::StringExecFns;

verus! {

/// A value produced by resolving an expression: an integer or a string.
#[derive(Debug, PartialEq, Clone)]
pub enum Value {
    Number(i64),
    String(String),
}

/// Mathematical model of a runtime value.
pub ghost enum ValueV {
    Number(i64),
    String(Seq<char>),
}

impl View for Value {
    type V = ValueV;

    open spec fn view(&self) -> ValueV {
        match self {
            Value::Number(n) => ValueV::Number(*n),
            Value::String(s) => ValueV::String(s@),
        }
    }
}

/// A copy of a value that keeps its model.
pub fn value_clone(v: &Value) -> (r: Value)
    ensures
        r@ == v@,
{
    match v {
        Value::Number(n) => Value::Number(*n),
        Value::String(s) => Value::String(s.clone()),
    }
}

/// Errors of variable resolution.
#[derive(Debug, PartialEq)]
pub enum ResolverError {
    /// An identifier has no binding in the environment.
    UndefinedVariable(String),
    /// An expression that no rule of the resolver covers.
    InvalidExpression,
}

/// Mathematical model of a resolution error.
pub ghost enum ResolveErrV {
    UndefinedVariable(Seq<char>),
    InvalidExpression,
}

impl View for ResolverError {
    type V = ResolveErrV;

    open spec fn view(&self) -> ResolveErrV {
        match self {
            ResolverError::UndefinedVariable(s) => ResolveErrV::UndefinedVariable(s@),
            ResolverError::InvalidExpression => ResolveErrV::InvalidExpression,
        }
    }
}

impl ResolverError {
    /// The diagnostic text of this error.
    pub open spec fn message_text(&self) -> Seq<char> {
        match self {
            ResolverError::UndefinedVariable(v) => "Undefined variable: "@ + v@,
            ResolverError::InvalidExpression => "Invalid expression"@,
        }
    }

    /// The diagnostic line of this error.
    pub fn message(&self) -> (r: String)
        ensures
            r@ == self.message_text(),
    {
        match self {
            ResolverError::UndefinedVariable(v) => {
                let mut s = String::from_str("Undefined variable: ");
                s.append(v.as_str());
                s
            },
            ResolverError::InvalidExpression => String::from_str("Invalid expression"),
        }
    }
}

/// The character of one decimal digit.
pub open spec fn dec_digit(d: int) -> char {
    if d == 0 {
        '0'
    } else if d == 1 {
        '1'
    } else if d == 2 {
        '2'
    } else if d == 3 {
        '3'
    } else if d == 4 {
        '4'
    } else if d == 5 {
        '5'
    } else if d == 6 {
        '6'
    } else if d == 7 {
        '7'
    } else if d == 8 {
        '8'
    } else {
        '9'
    }
}

/// The decimal text of a nonnegative integer.
pub open spec fn dec_str_nat(n: int) -> Seq<char>
    decreases n,
{
    if n < 10 {
        seq![dec_digit(n)]
    } else {
        dec_str_nat(n / 10) + seq![dec_digit(n % 10)]
    }
}

/// The decimal text of an integer, with a leading minus sign when negative:
/// how a number is spliced into a string.
pub open spec fn dec_str_i64(n: int) -> Seq<char> {
    if n < 0 {
        seq!['-'] + dec_str_nat(-n)
    } else {
        dec_str_nat(n)
    }
}

/// The decimal digit character of `d`, which must be below ten.
fn dec_digit_char(d: u64) -> (r: char)
    requires
        d < 10,
    ensures
        r == dec_digit(d as int),
{
    match d {
        0 => '0',
        1 => '1',
        2 => '2',
        3 => '3',
        4 => '4',
        5 => '5',
        6 => '6',
        7 => '7',
        8 => '8',
        _ => '9',
    }
}

/// The decimal text of `n`.
pub fn i64_dec_string(n: i64) -> (r: String)
    ensures
        r@ == dec_str_i64(n as int),
{
    let neg = n < 0;
    let mut m: u64 = if n >= 0 {
        n as u64
    } else {
        (-(n + 1)) as u64 + 1
    };
    let ghost mag: int = m as int;
    proof {
        assert(mag == if n >= 0 { n as int } else { -(n as int) });
    }

    let mut digits: Vec<char> = Vec::new();
    loop
        invariant_except_break
            digits@.len() == 0 ==> m as int == mag,
            digits@.len() > 0 ==> m > 0 && dec_str_nat(mag) == dec_str_nat(m as int)
                + digits@.reverse(),
        ensures
            dec_str_nat(mag) == digits@.reverse(),
        decreases m,
    {
        let ghost ds0 = digits@;
        let ghost m0 = m as int;
        let d = m % 10;
        digits.push(dec_digit_char(d));
        m = m / 10;
        proof {
            assert(digits@.reverse() =~= seq![dec_digit(m0 % 10)] + ds0.reverse());
            if m0 >= 10 {
                assert(dec_str_nat(m0) == dec_str_nat(m0 / 10) + seq![dec_digit(m0 % 10)]);
                if ds0.len() > 0 {
                    assert(dec_str_nat(m0 / 10) + (seq![dec_digit(m0 % 10)] + ds0.reverse())
                        =~= (dec_str_nat(m0 / 10) + seq![dec_digit(m0 % 10)]) + ds0.reverse());
                }
            } else {
                assert(dec_str_nat(m0) == seq![dec_digit(m0)]);
                if ds0.len() > 0 {
                    assert(seq![dec_digit(m0)] + ds0.reverse() =~= digits@.reverse());
                }
            }
        }
        if m == 0 {
            break;
        }
    }

    let mut s = String::new();
    let ghost sign: Seq<char> = if neg {
        seq!['-']
    } else {
        Seq::empty()
    };
    if neg {
        push_char(&mut s, '-');
        proof {
            assert(s@ =~= sign);
        }
    }
    proof {
        assert(s@ =~= sign);
        assert(digits@.skip(digits@.len() as int).reverse() =~= Seq::<char>::empty());
        assert(s@ =~= sign + digits@.skip(digits@.len() as int).reverse());
    }

    let mut k = digits.len();
    while k > 0
        invariant
            k <= digits@.len(),
            s@ == sign + digits@.skip(k as int).reverse(),
        decreases k,
    {
        let ghost s0 = s@;
        k -= 1;
        push_char(&mut s, digits[k]);
        proof {
            assert(digits@.skip(k as int).reverse() =~= digits@.skip(k + 1).reverse() + seq![
                digits@[k as int],
            ]);
            assert(s@ =~= sign + digits@.skip(k as int).reverse());
        }
    }

    proof {
        assert(digits@.skip(0).reverse() =~= digits@.reverse());
        assert(s@ =~= dec_str_i64(n as int));
    }
    s
}

/// The environment a binding list denotes: later bindings shadow earlier ones.
pub open spec fn env_view(s: Seq<(String, Value)>) -> Map<Seq<char>, ValueV>
    decreases s.len(),
{
    if s.len() == 0 {
        Map::empty()
    } else {
        env_view(s.drop_last()).insert(s.last().0@, s.last().1@)
    }
}

/// What an expression resolves to under an environment.
pub open spec fn rv_expr(env: Map<Seq<char>, ValueV>, e: ExprV) -> Result<ValueV, ResolveErrV>
    decreases e, 0int,
{
    match e {
        ExprV::Number(n) => Ok(ValueV::Number(n)),
        ExprV::Identifier(name) => if env.contains_key(name) {
            Ok(env[name])
        } else {
            Err(ResolveErrV::UndefinedVariable(name))
        },
        ExprV::String(parts) => match rv_parts(env, parts, 0) {
            Ok(text) => Ok(ValueV::String(text)),
            Err(e2) => Err(e2),
        },
    }
}

/// The concatenated text of the parts from index `i` on: literal segments
/// splice directly, resolved numbers are decimal-stringified.
pub open spec fn rv_parts(env: Map<Seq<char>, ValueV>, parts: Seq<StringPartV>, i: int) -> Result<
    Seq<char>,
    ResolveErrV,
>
    decreases parts, parts.len() - i,
{
    if !(0 <= i < parts.len()) {
        Ok(Seq::empty())
    } else {
        let head: Result<Seq<char>, ResolveErrV> = match parts[i] {
            StringPartV::Text(t) => Ok(t),
            StringPartV::Expression(e) => match rv_expr(env, e) {
                Ok(ValueV::String(s)) => Ok(s),
                Ok(ValueV::Number(n)) => Ok(dec_str_i64(n as int)),
                Err(e2) => Err(e2),
            },
        };
        match head {
            Ok(t) => match rv_parts(env, parts, i + 1) {
                Ok(rest) => Ok(t + rest),
                Err(e2) => Err(e2),
            },
            Err(e2) => Err(e2),
        }
    }
}

/// What resolving a statement does to the environment: an assignment binds its
/// name (rebinding shadows), a request only checks that its url resolves.
pub open spec fn rv_stmt(env: Map<Seq<char>, ValueV>, s: StmtV) -> Result<
    Map<Seq<char>, ValueV>,
    ResolveErrV,
> {
    match s {
        StmtV::Assignment { name, value } => match rv_expr(env, value) {
            Ok(v) => Ok(env.insert(name, v)),
            Err(e) => Err(e),
        },
        StmtV::Request(req) => match rv_expr(env, req.url) {
            Ok(_) => Ok(env),
            Err(e) => Err(e),
        },
    }
}

/// One concatenation step of string resolution: if the part at `j` contributes
/// the text `head`, the total from `j` composes with the total from `j + 1`.
proof fn lemma_rv_step(
    env: Map<Seq<char>, ValueV>,
    pv: Seq<StringPartV>,
    j: int,
    r0: Seq<char>,
    head: Seq<char>,
)
    requires
        0 <= j < pv.len(),
        rv_parts(env, pv, j) == match rv_parts(env, pv, j + 1) {
            Ok(rest) => Ok::<Seq<char>, ResolveErrV>(head + rest),
            Err(e) => Err::<Seq<char>, ResolveErrV>(e),
        },
        match rv_parts(env, pv, j) {
            Ok(rest) => rv_parts(env, pv, 0) == Ok::<Seq<char>, ResolveErrV>(r0 + rest),
            Err(e) => rv_parts(env, pv, 0) == Err::<Seq<char>, ResolveErrV>(e),
        },
    ensures
        match rv_parts(env, pv, j + 1) {
            Ok(rest) => rv_parts(env, pv, 0) == Ok::<Seq<char>, ResolveErrV>((r0 + head) + rest),
            Err(e) => rv_parts(env, pv, 0) == Err::<Seq<char>, ResolveErrV>(e),
        },
{
    match rv_parts(env, pv, j + 1) {
        Ok(rest) => {
            assert(r0 + (head + rest) =~= (r0 + head) + rest);
        },
        Err(_) => {},
    }
}

/// The resolver: owns the variable environment and evaluates expressions
/// against it.
pub struct Resolver {
    variables: Vec<(String, Value)>,
}

impl View for Resolver {
    type V = Map<Seq<char>, ValueV>;

    closed spec fn view(&self) -> Map<Seq<char>, ValueV> {
        env_view(self.variables@)
    }
}

impl Resolver {
    /// A resolver with an empty environment.
    pub fn new() -> (r: Self)
        ensures
            r@ == Map::<Seq<char>, ValueV>::empty(),
    {
        let variables: Vec<(String, Value)> = Vec::new();
        proof {
            assert(env_view(variables@) =~= Map::<Seq<char>, ValueV>::empty());
        }
        Self { variables }
    }

    /// The binding of `name`, the latest assignment winning.
    fn lookup(&self, name: &String) -> (r: Option<&Value>)
        ensures
            match r {
                Some(v) => self@.contains_key(name@) && v@ == self@[name@],
                None => !self@.contains_key(name@),
            },
    {
        let ghost vars = self.variables@;
        let mut j = self.variables.len();
        proof {
            assert(vars.take(vars.len() as int) =~= vars);
        }
        while j > 0
            invariant
                vars == self.variables@,
                j <= vars.len(),
                env_view(vars).contains_key(name@) == env_view(vars.take(j as int)).contains_key(
                    name@,
                ),
                env_view(vars).contains_key(name@) ==> env_view(vars)[name@] == env_view(
                    vars.take(j as int),
                )[name@],
            decreases j,
        {
            j -= 1;
            proof {
                assert(vars.take(j + 1).drop_last() =~= vars.take(j as int));
                assert(vars.take(j + 1).last() == vars[j as int]);
            }
            if self.variables[j].0 == *name {
                return Some(&self.variables[j].1);
            }
        }
        proof {
            assert(vars.take(0) =~= Seq::<(String, Value)>::empty());
        }
        None
    }

    /// Resolves an expression to a concrete value without touching the
    /// environment.
    pub fn resolve_expression(&self, expr: &Expr) -> (r: Result<Value, ResolverError>)
        ensures
            match r {
                Ok(v) => rv_expr(self@, expr@) == Ok::<ValueV, ResolveErrV>(v@),
                Err(e) => rv_expr(self@, expr@) == Err::<ValueV, ResolveErrV>(e@),
            },
        decreases expr,
    {
        match expr {
            Expr::Number(n) => Ok(Value::Number(*n)),
            Expr::Identifier(name) => match self.lookup(name) {
                Some(v) => Ok(value_clone(v)),
                None => Err(ResolverError::UndefinedVariable(name.clone())),
            },
            Expr::String(parts) => {
                let ghost pv = crate::ast::parts_view(parts@);
                let mut result = String::new();
                let mut j: usize = 0;

                proof {
                    crate::ast::lemma_parts_view_props(parts@);
                }

                while j < parts.len()
                    invariant
                        *expr == Expr::String(*parts),
                        pv == crate::ast::parts_view(parts@),
                        pv.len() == parts@.len(),
                        forall|i: int|
                            0 <= i < parts@.len() ==> pv[i] == crate::ast::part_view(parts@[i]),
                        j <= parts@.len(),
                        match rv_parts(self@, pv, j as int) {
                            Ok(rest) => rv_parts(self@, pv, 0) == Ok::<Seq<char>, ResolveErrV>(
                                result@ + rest,
                            ),
                            Err(e) => rv_parts(self@, pv, 0) == Err::<Seq<char>, ResolveErrV>(e),
                        },
                    decreases parts@.len() - j,
                {
                    let ghost r0 = result@;
                    let part = &parts[j];
                    match part {
                        StringPart::Text(t) => {
                            result.append(t.as_str());
                            proof {
                                lemma_rv_step(self@, pv, j as int, r0, t@);
                            }
                        },
                        StringPart::Expression(e) => {
                            proof {
                                assert(decreases_to!(*expr => *parts));
                                assert(decreases_to!(*parts => parts@));
                                assert(decreases_to!(parts@ => parts@[j as int]));
                                assert(decreases_to!(parts@[j as int] => *e));
                            }
                            match self.resolve_expression(e) {
                                Ok(Value::String(s)) => {
                                    result.append(s.as_str());
                                    proof {
                                        lemma_rv_step(self@, pv, j as int, r0, s@);
                                    }
                                },
                                Ok(Value::Number(n)) => {
                                    let text = i64_dec_string(n);
                                    result.append(text.as_str());
                                    proof {
                                        lemma_rv_step(self@, pv, j as int, r0, text@);
                                    }
                                },
                                Err(err) => {
                                    return Err(err);
                                },
                            }
                        },
                    }
                    j += 1;
                }
                proof {
                    assert(result@ + Seq::<char>::empty() =~= result@);
                }
                Ok(Value::String(result))
            },
        }
    }

    /// Resolves one statement in program order: an assignment binds its value
    /// under its name, a request has its url resolved early and the value
    /// discarded.
    pub fn resolve_statement(&mut self, stmt: &Stmt) -> (r: Result<(), ResolverError>)
        ensures
            match r {
                Ok(_) => rv_stmt(old(self)@, stmt@) == Ok::<Map<Seq<char>, ValueV>, ResolveErrV>(
                    final(self)@,
                ),
                Err(e) => rv_stmt(old(self)@, stmt@) == Err::<Map<Seq<char>, ValueV>, ResolveErrV>(
                    e@,
                ) && final(self)@ == old(self)@,
            },
    {
        match stmt {
            Stmt::Assignment { name, value } => {
                let v = match self.resolve_expression(value) {
                    Ok(v) => v,
                    Err(e) => {
                        return Err(e);
                    },
                };
                let ghost vars0 = self.variables@;
                self.variables.push((name.clone(), v));
                proof {
                    assert(self.variables@.drop_last() =~= vars0);
                }
                Ok(())
            },
            Stmt::Request(req) => {
                match self.resolve_expression(&req.url) {
                    Ok(_) => Ok(()),
                    Err(e) => Err(e),
                }
            },
        }
    }
}

} // verus!
