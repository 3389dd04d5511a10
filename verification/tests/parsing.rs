use len::ast::{
    ast_parser, expression_parser, Ast, Expr, FunctionCall, Identifier, Lambda, Literal,
    ParseError,
};
use len::grammar::Expected;
use len::integer::Int;
use len::lexer;
use len::lexer::TokenKind;

fn name(text: &str) -> Expr {
    Expr::Identifier(Identifier {
        name: text.to_string(),
    })
}

fn integer(value: i64) -> Expr {
    Expr::Literal(Literal::Integer(Int::from_i64(value)))
}

fn call(function: Expr, argument: Expr) -> Expr {
    Expr::FunctionCall(FunctionCall {
        function: Box::new(function),
        argument: Box::new(argument),
    })
}

fn infix(left: Expr, operator: &str, right: Expr) -> Expr {
    call(call(name(operator), left), right)
}

fn lambda(from: &str, to: Expr) -> Expr {
    Expr::Lambda(Lambda {
        from: Identifier {
            name: from.to_string(),
        },
        to: Box::new(to),
    })
}

fn product(fields: Vec<(&str, Expr)>) -> Expr {
    Expr::Product(
        fields
            .into_iter()
            .map(|(name, value)| (name.to_string(), value))
            .collect(),
    )
}

fn number(value: i64) -> TokenKind<'static> {
    TokenKind::Number(Int::from_i64(value))
}

fn kinds<'s>(source: &'s str) -> Vec<TokenKind<'s>> {
    lexer::lexer(source)
        .expect("the source tokenizes")
        .into_iter()
        .map(|token| token.kind)
        .collect()
}

fn expression(source: &str) -> Result<Expr, ParseError> {
    expression_parser(&kinds(source))
}

fn fails_at(source: &str, position: usize, expected: Expected) {
    assert_eq!(
        expression(source),
        Err(ParseError { position, expected }),
        "{}",
        source
    );
}

#[test]
fn parser() {
    assert_eq!(
        expression(" f 1 + 1 "),
        Ok(infix(call(name("f"), integer(1)), "+", integer(1)))
    );

    let input = vec![number(1), TokenKind::Symbol("+"), number(2)];
    assert_eq!(expression_parser(&input), Ok(infix(integer(1), "+", integer(2))));

    let input = vec![
        number(1),
        TokenKind::Symbol("+"),
        TokenKind::LeftParenthesis,
        number(2),
        TokenKind::Symbol("^^"),
        number(3),
        TokenKind::RightParenthesis,
    ];
    assert_eq!(
        expression_parser(&input),
        Ok(infix(integer(1), "+", infix(integer(2), "^^", integer(3))))
    );

    let input = vec![
        TokenKind::Ident("map"),
        TokenKind::LeftParenthesis,
        TokenKind::Ident("x"),
        TokenKind::Ident("y"),
        TokenKind::RightParenthesis,
        TokenKind::Ident("bar"),
    ];
    assert_eq!(
        expression_parser(&input),
        Ok(call(
            call(name("map"), call(name("x"), name("y"))),
            name("bar")
        ))
    );
}

#[test]
fn a_name_between_atoms_is_an_argument() {
    let input = vec![number(1), TokenKind::Ident("+"), number(2)];
    assert_eq!(
        expression_parser(&input),
        Ok(call(call(integer(1), name("+")), integer(2)))
    );
}

#[test]
fn atoms() {
    assert_eq!(expression("foo"), Ok(name("foo")));
    assert_eq!(expression("1"), Ok(integer(1)));
    assert_eq!(
        expression(r#""hi there""#),
        Ok(Expr::Literal(Literal::String("hi there".to_string())))
    );
    assert_eq!(
        expression("true"),
        Ok(Expr::Literal(Literal::Boolean(true)))
    );
    assert_eq!(
        expression("false"),
        Ok(Expr::Literal(Literal::Boolean(false)))
    );
    assert_eq!(expression("truer"), Ok(name("truer")));
    assert_eq!(expression("(foo)"), Ok(name("foo")));
    assert_eq!(expression("((foo))"), Ok(name("foo")));
}

#[test]
fn application_groups_to_the_left() {
    assert_eq!(expression("foo 1"), Ok(call(name("foo"), integer(1))));
    assert_eq!(
        expression("f a b c"),
        Ok(call(call(call(name("f"), name("a")), name("b")), name("c")))
    );
    assert_eq!(
        expression("foo (bar baz)"),
        Ok(call(name("foo"), call(name("bar"), name("baz"))))
    );
    assert_eq!(
        expression("(foo bar) baz"),
        Ok(call(call(name("foo"), name("bar")), name("baz")))
    );
}

#[test]
fn plus_groups_to_the_left() {
    assert_eq!(
        expression("a + b + c"),
        Ok(infix(infix(name("a"), "+", name("b")), "+", name("c")))
    );
    assert_eq!(
        expression("a - b + c - d"),
        Ok(infix(
            infix(infix(name("a"), "-", name("b")), "+", name("c")),
            "-",
            name("d")
        ))
    );
}

#[test]
fn dollar_groups_to_the_left() {
    assert_eq!(
        expression("a $ b $ c"),
        Ok(infix(infix(name("a"), "$", name("b")), "$", name("c")))
    );
    assert_ne!(
        expression("a $ b $ c"),
        Ok(infix(name("a"), "$", infix(name("b"), "$", name("c"))))
    );
}

#[test]
fn application_binds_tighter_than_any_operator() {
    assert_eq!(
        expression("f a + b"),
        Ok(infix(call(name("f"), name("a")), "+", name("b")))
    );
    assert_ne!(
        expression("f a + b"),
        Ok(call(name("f"), infix(name("a"), "+", name("b"))))
    );
    assert_eq!(
        expression("f a $ g b"),
        Ok(infix(
            call(name("f"), name("a")),
            "$",
            call(name("g"), name("b"))
        ))
    );
    assert_eq!(
        expression("a ** f b"),
        Ok(infix(name("a"), "**", call(name("f"), name("b"))))
    );
}

#[test]
fn operators_bind_by_level() {
    assert_eq!(
        expression("a + b * c"),
        Ok(infix(name("a"), "+", infix(name("b"), "*", name("c"))))
    );
    assert_eq!(
        expression("a * b + c"),
        Ok(infix(infix(name("a"), "*", name("b")), "+", name("c")))
    );
    assert_eq!(
        expression("a $ b + c"),
        Ok(infix(name("a"), "$", infix(name("b"), "+", name("c"))))
    );
    assert_eq!(
        expression("a + b $ c"),
        Ok(infix(infix(name("a"), "+", name("b")), "$", name("c")))
    );
    assert_eq!(
        expression("a * b == c * d + e $ f"),
        Ok(infix(
            infix(
                infix(
                    infix(infix(name("a"), "*", name("b")), "==", name("c")),
                    "*",
                    name("d")
                ),
                "+",
                name("e")
            ),
            "$",
            name("f")
        ))
    );
    assert_eq!(
        expression("(a + c) + (a + c)"),
        Ok(infix(
            infix(name("a"), "+", name("c")),
            "+",
            infix(name("a"), "+", name("c"))
        ))
    );
}

#[test]
fn a_lambda_takes_all_that_follows() {
    assert_eq!(expression("x => x"), Ok(lambda("x", name("x"))));
    assert_eq!(
        expression("x => y => z"),
        Ok(lambda("x", lambda("y", name("z"))))
    );
    assert_eq!(
        expression("x => x + 1"),
        Ok(lambda("x", infix(name("x"), "+", integer(1))))
    );
    assert_eq!(
        expression("f x => g x"),
        Ok(call(name("f"), lambda("x", call(name("g"), name("x")))))
    );
    assert_eq!(
        expression("(x => x) 1"),
        Ok(call(lambda("x", name("x")), integer(1)))
    );
    assert_eq!(
        expression("1 + x => x $ 2"),
        Ok(infix(
            integer(1),
            "+",
            lambda("x", infix(name("x"), "$", integer(2)))
        ))
    );
}

#[test]
fn products() {
    assert_eq!(expression("{ }"), Ok(product(vec![])));
    assert_eq!(expression("{ a : b }"), Ok(product(vec![("a", name("b"))])));
    assert_eq!(
        expression("{ a : 1 , b : 2 }"),
        Ok(product(vec![("a", integer(1)), ("b", integer(2))]))
    );
    assert_eq!(
        expression("{ a : f 1 + 2 , b : { c : x => x } }"),
        Ok(product(vec![
            ("a", infix(call(name("f"), integer(1)), "+", integer(2))),
            ("b", product(vec![("c", lambda("x", name("x")))])),
        ]))
    );
    assert_eq!(
        expression("{ true : 1 }"),
        Ok(product(vec![("true", integer(1))]))
    );
    assert_eq!(
        expression("f { a : 1 } { }"),
        Ok(call(
            call(name("f"), product(vec![("a", integer(1))])),
            product(vec![])
        ))
    );
}

#[test]
fn the_last_of_two_fields_of_one_name_counts() {
    assert_eq!(
        expression("{ a : 1 , b : 2 , a : 3 }"),
        Ok(product(vec![("a", integer(3)), ("b", integer(2))]))
    );
    assert_eq!(
        expression("{ a : 1 , a : 2 , a : 3 }"),
        Ok(product(vec![("a", integer(3))]))
    );
}

#[test]
fn failures_name_the_token_and_what_was_expected() {
    fails_at("", 0, Expected::Atom);
    fails_at("+", 0, Expected::Atom);
    fails_at("a +", 2, Expected::Atom);
    fails_at("a + )", 2, Expected::Atom);
    fails_at("( )", 1, Expected::Atom);
    fails_at("x =>", 2, Expected::Atom);
    fails_at("(foo", 2, Expected::RightParenthesis);
    fails_at("(foo , bar)", 2, Expected::RightParenthesis);
    fails_at("foo )", 1, Expected::EndOfInput);
    fails_at("a = b", 1, Expected::EndOfInput);
    fails_at("true => x", 1, Expected::EndOfInput);
    fails_at("a : b", 1, Expected::EndOfInput);
    fails_at("{", 1, Expected::FieldName);
    fails_at("{ 1 : 2 }", 1, Expected::FieldName);
    fails_at("{ a : 1 , }", 5, Expected::FieldName);
    fails_at("{ a 1 }", 2, Expected::Colon);
    fails_at("{ a", 2, Expected::Colon);
    fails_at("{ a : }", 3, Expected::Atom);
    fails_at("{ a : 1 b : 2 }", 5, Expected::CommaOrRightCurly);
    fails_at("{ a : 1 ) }", 4, Expected::CommaOrRightCurly);
    fails_at("{ a : 1", 4, Expected::CommaOrRightCurly);
    fails_at("f ( { a : ( 1 } )", 7, Expected::RightParenthesis);
}

#[test]
fn lines() {
    assert_eq!(ast_parser(&kinds("a")), Ok(Ast::Expr(name("a"))));
    assert_eq!(
        ast_parser(&kinds("f 1 + 2")),
        Ok(Ast::Expr(infix(call(name("f"), integer(1)), "+", integer(2))))
    );
    assert_eq!(
        ast_parser(&kinds("a = b")),
        Ok(Ast::Binding {
            lhs: Identifier {
                name: "a".to_string()
            },
            rhs: name("b")
        })
    );
    assert_eq!(
        ast_parser(&kinds("f = x => y => x + y")),
        Ok(Ast::Binding {
            lhs: Identifier {
                name: "f".to_string()
            },
            rhs: lambda("x", lambda("y", infix(name("x"), "+", name("y"))))
        })
    );
    assert_eq!(
        ast_parser(&kinds("true = 1")),
        Ok(Ast::Binding {
            lhs: Identifier {
                name: "true".to_string()
            },
            rhs: integer(1)
        })
    );
    assert_eq!(
        ast_parser(&kinds("")),
        Err(ParseError {
            position: 0,
            expected: Expected::Atom
        })
    );
    assert_eq!(
        ast_parser(&kinds("a =")),
        Err(ParseError {
            position: 2,
            expected: Expected::Atom
        })
    );
    assert_eq!(
        ast_parser(&kinds("a = b = c")),
        Err(ParseError {
            position: 3,
            expected: Expected::EndOfInput
        })
    );
    assert_eq!(
        ast_parser(&kinds("a = b )")),
        Err(ParseError {
            position: 3,
            expected: Expected::EndOfInput
        })
    );
    assert_eq!(
        ast_parser(&kinds("1 = 2")),
        Err(ParseError {
            position: 1,
            expected: Expected::EndOfInput
        })
    );
}
