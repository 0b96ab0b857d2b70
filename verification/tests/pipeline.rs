use nero::ast::{Expr, Req, Stmt, StringPart};
use nero::executor::{Executor, ExecutorError};
use nero::lexer::{Lexer, LexerError};
use nero::parser::{Parser, ParserError};
use nero::resolver::{i64_dec_string, Resolver, ResolverError, Value};
use nero::semantic::{SemanticChecker, SemanticError};
use nero::token::Token;

const EXAMPLE: &str = r#"
port = 3000;
host = "localhost";

#[simple_get]
@GET "http://example.test/index" {}
"#;

fn parse_ok(input: &str) -> Vec<Stmt> {
    let tokens = Lexer::tokenize(input).unwrap();
    let mut parser = Parser::new(tokens);
    parser.parse().unwrap()
}

fn parse_err(input: &str) -> ParserError {
    let tokens = Lexer::tokenize(input).unwrap();
    let mut parser = Parser::new(tokens);
    parser.parse().unwrap_err()
}

fn resolved(input: &str) -> (Vec<Stmt>, Resolver) {
    let ast = parse_ok(input);
    let mut resolver = Resolver::new();
    for stmt in &ast {
        resolver.resolve_statement(stmt).unwrap();
    }
    (ast, resolver)
}

fn first_semantic_error(input: &str) -> Result<(), SemanticError> {
    let (ast, resolver) = resolved(input);
    let mut semantic = SemanticChecker::new(&resolver);
    for stmt in &ast {
        semantic.check_statement(stmt)?;
    }
    Ok(())
}

#[test]
fn test_assignment_number() {
    let ast = parse_ok("port = 3000;");

    assert_eq!(
        ast,
        vec![Stmt::Assignment {
            name: "port".into(),
            value: Expr::Number(3000),
        }]
    );
}

#[test]
fn lib_test_assignment_number() {
    let ast = parse_ok("port = 3000;");

    assert_eq!(
        ast,
        vec![Stmt::Assignment {
            name: "port".into(),
            value: Expr::Number(3000),
        }]
    );
}

#[test]
fn test_assignment_missing_semicolon() {
    let err = parse_err("port = 3000");

    assert!(matches!(err, ParserError::UnexpectedEOF));
}

#[test]
fn lib_test_assignment_missing_semicolon() {
    let err = parse_err("port = 3000");

    assert!(matches!(err, ParserError::UnexpectedEOF));
}

#[test]
fn parse_simple_get() {
    let tokens = Lexer::tokenize(EXAMPLE).unwrap();
    let mut parser = Parser::new(tokens);
    let ast = parser.parse().unwrap();

    assert_eq!(ast.len(), 3);
}

#[test]
fn lib_parse_simple_get() {
    let tokens = Lexer::tokenize(EXAMPLE).unwrap();
    let mut parser = Parser::new(tokens);
    let ast = parser.parse().unwrap();

    assert_eq!(ast.len(), 3);
}

#[test]
fn duplicate_label() {
    let src = r#"
        #[test_get]
        @GET "url" {}
        #[test_get]
        @GET "url" {}
    "#;

    let res = first_semantic_error(src);

    assert!(matches!(res, Err(SemanticError::DuplicateLabel(_))));
}

#[test]
fn assignment_tokens() {
    let tokens = Lexer::tokenize("port = 3000").unwrap();
    assert_eq!(
        tokens,
        vec![
            Token::Identifier("port".into()),
            Token::Equals,
            Token::NumberLiteral(3000),
        ]
    );
}

#[test]
fn string_literal_tokens() {
    let tokens = Lexer::tokenize("url = \"http://${host}/x\";").unwrap();
    assert_eq!(
        tokens,
        vec![
            Token::Identifier("url".into()),
            Token::Equals,
            Token::StringLiteral("http://".into()),
            Token::TemplateStart,
            Token::Identifier("host".into()),
            Token::TemplateEnd,
            Token::StringLiteral("/x".into()),
            Token::SemiColon,
        ]
    );
}

#[test]
fn label_tokens() {
    let tokens = Lexer::tokenize("#[ping]").unwrap();
    assert_eq!(
        tokens,
        vec![
            Token::Hash,
            Token::OpenBracket,
            Token::Label("ping".into()),
            Token::CloseBracket,
        ]
    );
}

#[test]
fn unknown_character_fails() {
    let err = Lexer::tokenize("port = 3000 %").unwrap_err();
    assert_eq!(err, LexerError::UnknownCharacter('%'));
}

#[test]
fn unclosed_string_literal_fails() {
    let err = Lexer::tokenize("url = \"http://x").unwrap_err();
    assert_eq!(err, LexerError::UnclosedStringLiteral);
}

#[test]
fn unclosed_template_string_fails() {
    let err = Lexer::tokenize("url = \"${host\";").unwrap_err();
    assert_eq!(err, LexerError::UnclosedTemplateString);
}

#[test]
fn template_at_end_of_input_fails() {
    let err = Lexer::tokenize("url = \"${host").unwrap_err();
    assert_eq!(err, LexerError::UnclosedTemplateString);
}

#[test]
fn huge_number_saturates() {
    let tokens = Lexer::tokenize("n = 99999999999999999999;").unwrap();
    assert_eq!(tokens[2], Token::NumberLiteral(i64::MAX));
}

#[test]
fn invalid_expression_fails() {
    let err = parse_err("x = ;");
    assert!(matches!(err, ParserError::InvalidExpression));
}

#[test]
fn unexpected_token_fails() {
    let err = parse_err("x 3;");
    assert_eq!(
        err,
        ParserError::UnexpectedToken {
            expected: Token::Equals,
            found: Token::NumberLiteral(3),
        }
    );
}

#[test]
fn statement_cannot_start_with_semicolon() {
    let err = parse_err(";");
    assert_eq!(
        err,
        ParserError::UnexpectedToken {
            expected: Token::Identifier("statement".into()),
            found: Token::SemiColon,
        }
    );
}

#[test]
fn unknown_section_is_reported_uppercased() {
    let err = parse_err("@GET \"u\" { body_x {} }");
    assert_eq!(
        err,
        ParserError::UnexpectedToken {
            expected: Token::Identifier("HEADERS|QUERY|BODY".into()),
            found: Token::Identifier("BODY_X".into()),
        }
    );
}

#[test]
fn sections_match_case_insensitively() {
    let ast = parse_ok("@post \"u\" { headers { \"a\": \"1\" } Body { \"k\": \"v\", } }");
    match &ast[0] {
        Stmt::Request(req) => {
            assert_eq!(req.headers.len(), 1);
            assert_eq!(req.headers[0].0, "a");
            let body = req.body.as_ref().unwrap();
            assert_eq!(body.len(), 1);
            assert_eq!(body[0].0, "k");
        }
        other => panic!("expected a request, got {:?}", other),
    }
}

#[test]
fn undefined_variable_fails() {
    let ast = parse_ok("url = missing;");
    let mut resolver = Resolver::new();
    let err = resolver.resolve_statement(&ast[0]).unwrap_err();
    assert_eq!(err, ResolverError::UndefinedVariable("missing".into()));
}

#[test]
fn rebinding_later_assignment_wins() {
    let (_, resolver) = resolved("x = 1; x = 2;");
    let v = resolver
        .resolve_expression(&Expr::Identifier("x".into()))
        .unwrap();
    assert_eq!(v, Value::Number(2));
}

#[test]
fn interpolation_round_trip() {
    let (_, resolver) = resolved("port = 8080; url = \"http://localhost:${port}/x\";");
    let v = resolver
        .resolve_expression(&Expr::Identifier("url".into()))
        .unwrap();
    assert_eq!(v, Value::String("http://localhost:8080/x".into()));
}

#[test]
fn string_may_open_with_a_hole() {
    let ast = parse_ok("url = \"${host}/x\";");
    assert_eq!(
        ast,
        vec![Stmt::Assignment {
            name: "url".into(),
            value: Expr::String(vec![
                StringPart::Expression(Expr::Identifier("host".into())),
                StringPart::Text("/x".into()),
            ]),
        }]
    );

    let (_, resolver) = resolved("host = \"h\"; url = \"${host}/x\";");
    let v = resolver
        .resolve_expression(&Expr::Identifier("url".into()))
        .unwrap();
    assert_eq!(v, Value::String("h/x".into()));
}

#[test]
fn request_url_may_open_with_a_hole() {
    let src = "base = \"http://example.test\"; #[home] @GET \"${base}/p\" {}";
    let (ast, resolver) = resolved(src);
    let mut semantic = SemanticChecker::new(&resolver);
    for stmt in &ast {
        semantic.check_statement(stmt).unwrap();
    }
    let executor = Executor::new(&resolver);
    match &ast[1] {
        Stmt::Request(req) => {
            let plan = executor.prepare(req).unwrap();
            assert_eq!(plan.url, "http://example.test/p");
        }
        other => panic!("expected a request, got {:?}", other),
    }
}

#[test]
fn negative_number_splices_with_sign() {
    let resolver = Resolver::new();
    let expr = Expr::String(vec![
        StringPart::Text("v".into()),
        StringPart::Expression(Expr::Number(-5)),
    ]);
    let v = resolver.resolve_expression(&expr).unwrap();
    assert_eq!(v, Value::String("v-5".into()));
}

#[test]
fn decimal_strings_are_exact() {
    assert_eq!(i64_dec_string(0), "0");
    assert_eq!(i64_dec_string(42), "42");
    assert_eq!(i64_dec_string(-1), "-1");
    assert_eq!(i64_dec_string(i64::MAX), "9223372036854775807");
    assert_eq!(i64_dec_string(i64::MIN), "-9223372036854775808");
}

#[test]
fn url_must_be_string() {
    let res = first_semantic_error("url = 5; @GET url {}");
    assert_eq!(res, Err(SemanticError::UrlMustBeString));
}

#[test]
fn body_not_allowed_on_get_and_delete() {
    let res = first_semantic_error("@GET \"u\" { BODY { \"a\": \"1\" } }");
    assert_eq!(res, Err(SemanticError::BodyNotAllowed("GET".into())));

    let res = first_semantic_error("@DELETE \"u\" { BODY { \"a\": \"1\" } }");
    assert_eq!(res, Err(SemanticError::BodyNotAllowed("DELETE".into())));
}

#[test]
fn body_allowed_on_post() {
    let res = first_semantic_error("@POST \"u\" { BODY { \"a\": \"1\" } }");
    assert_eq!(res, Ok(()));
}

#[test]
fn header_value_must_be_string() {
    let res = first_semantic_error("port = 1; @GET \"u\" { HEADERS { \"x\": port } }");
    assert_eq!(res, Err(SemanticError::HeaderValueMustBeString));
}

#[test]
fn unlabeled_requests_do_not_collide() {
    let res = first_semantic_error("@GET \"a\" {} @GET \"b\" {}");
    assert_eq!(res, Ok(()));
}

#[test]
fn unsupported_method_reaches_executor() {
    let (ast, resolver) = resolved("#[p] @PATCH \"u\" {}");
    let mut semantic = SemanticChecker::new(&resolver);
    for stmt in &ast {
        semantic.check_statement(stmt).unwrap();
    }
    let executor = Executor::new(&resolver);
    match &ast[0] {
        Stmt::Request(req) => {
            let err = executor.prepare(req).unwrap_err();
            assert_eq!(err, ExecutorError::UnsupportedMethod);
        }
        other => panic!("expected a request, got {:?}", other),
    }
}

#[test]
fn prepared_plan_resolves_everything() {
    let src = r#"
        port = 8080;
        token = "abc";
        @POST "http://h:${port}/x" {
            HEADERS { "auth": token }
            QUERY { "page": port }
            BODY { "n": port, "s": "v" }
        }
    "#;
    let (ast, resolver) = resolved(src);
    let executor = Executor::new(&resolver);
    let req: &Req = match &ast[2] {
        Stmt::Request(req) => req,
        other => panic!("expected a request, got {:?}", other),
    };
    let plan = executor.prepare(req).unwrap();
    assert_eq!(plan.method, "POST");
    assert_eq!(plan.url, "http://h:8080/x");
    assert_eq!(plan.headers, vec![("auth".to_string(), "abc".to_string())]);
    assert_eq!(plan.query, vec![("page".to_string(), "8080".to_string())]);
    assert_eq!(
        plan.body,
        Some(vec![
            ("n".to_string(), "8080".to_string()),
            ("s".to_string(), "v".to_string()),
        ])
    );
}

#[test]
fn ping_scenario_end_to_end() {
    let src = "#[ping] @GET \"https://example.test/ping\" {}";
    let (ast, resolver) = resolved(src);
    assert_eq!(ast.len(), 1);

    let req = match &ast[0] {
        Stmt::Request(req) => req,
        other => panic!("expected a request, got {:?}", other),
    };
    assert_eq!(req.label, Some("ping".to_string()));
    assert_eq!(req.method, "GET");
    assert!(req.headers.is_empty());
    assert!(req.query.is_empty());
    assert!(req.body.is_none());

    let mut semantic = SemanticChecker::new(&resolver);
    for stmt in &ast {
        semantic.check_statement(stmt).unwrap();
    }

    let executor = Executor::new(&resolver);
    let plan = executor.prepare(req).unwrap();
    assert_eq!(plan.method, "GET");
    assert_eq!(plan.url, "https://example.test/ping");
    assert!(plan.headers.is_empty());
    assert!(plan.query.is_empty());
    assert!(plan.body.is_none());
}

#[test]
fn trailing_comma_is_accepted() {
    let ast = parse_ok("@POST \"u\" { QUERY { \"a\": \"1\", \"b\": \"2\", } }");
    match &ast[0] {
        Stmt::Request(req) => {
            assert_eq!(req.query.len(), 2);
        }
        other => panic!("expected a request, got {:?}", other),
    }
}

#[test]
fn error_messages_are_exact() {
    let lex_err = Lexer::tokenize("%").unwrap_err();
    assert_eq!(lex_err.message(), "Unknown character '%'");

    let parse_err = parse_err("x 3;");
    assert_eq!(parse_err.message(), "Expected: =, found: 3");

    let ast = parse_ok("url = missing;");
    let mut resolver = Resolver::new();
    let resolve_err = resolver.resolve_statement(&ast[0]).unwrap_err();
    assert_eq!(resolve_err.message(), "Undefined variable: missing");

    let sem_err = first_semantic_error(
        "#[a]\n@GET \"u\" {}\n#[a]\n@GET \"u\" {}",
    )
    .unwrap_err();
    assert_eq!(sem_err.message(), "Duplicate label: a");

    assert_eq!(
        ExecutorError::UnsupportedMethod.message(),
        "Unsupported method"
    );
    assert_eq!(ExecutorError::RequestFailed.message(), "Requests failed");
}

#[test]
fn whitespace_is_skipped() {
    let tokens = Lexer::tokenize("  a\tb\r\nc  ").unwrap();
    assert_eq!(
        tokens,
        vec![
            Token::Identifier("a".into()),
            Token::Identifier("b".into()),
            Token::Identifier("c".into()),
        ]
    );
}
