use len::integer::Int;
use len::lexer;
use len::lexer::{lex, LexError, LexErrorKind, Span, Token, TokenKind};
use len::text::{classify, classify_text, Classified};

fn kinds<'s>(source: &'s str) -> Vec<TokenKind<'s>> {
    lexer::lexer(source)
        .expect("the source tokenizes")
        .into_iter()
        .map(|token| token.kind)
        .collect()
}

fn number(value: i64) -> TokenKind<'static> {
    TokenKind::Number(Int::from_i64(value))
}

#[test]
fn lexer() {
    assert_eq!(
        kinds(r#"1 + 2 = 1 ("hello" = hello)"#),
        vec![
            number(1),
            TokenKind::Symbol("+"),
            number(2),
            TokenKind::Bind,
            number(1),
            TokenKind::LeftParenthesis,
            TokenKind::String("hello"),
            TokenKind::Bind,
            TokenKind::Ident("hello"),
            TokenKind::RightParenthesis,
        ]
    );
    assert_eq!(
        kinds(r#"== !="#),
        vec![TokenKind::Symbol("=="), TokenKind::Symbol("!=")]
    );
}

#[test]
fn whitespace_alone_has_no_tokens() {
    assert_eq!(lexer::lexer(""), Ok(vec![]));
    assert_eq!(lexer::lexer("   "), Ok(vec![]));
    assert_eq!(lexer::lexer(" \t\r\n \u{a0}\u{2003} "), Ok(vec![]));
}

#[test]
fn bind_arrow_and_equality_are_told_apart() {
    assert_eq!(
        kinds("a=b"),
        vec![TokenKind::Ident("a"), TokenKind::Bind, TokenKind::Ident("b")]
    );
    assert_eq!(
        kinds("a=>b"),
        vec![TokenKind::Ident("a"), TokenKind::Arrow, TokenKind::Ident("b")]
    );
    assert_eq!(
        kinds("a==b"),
        vec![
            TokenKind::Ident("a"),
            TokenKind::Symbol("=="),
            TokenKind::Ident("b")
        ]
    );
    assert_eq!(
        kinds("a=b==c"),
        vec![
            TokenKind::Ident("a"),
            TokenKind::Bind,
            TokenKind::Ident("b"),
            TokenKind::Symbol("=="),
            TokenKind::Ident("c"),
        ]
    );
    assert_eq!(
        kinds("a==>>b"),
        vec![
            TokenKind::Ident("a"),
            TokenKind::Symbol("==>>"),
            TokenKind::Ident("b")
        ]
    );
    assert_eq!(kinds("="), vec![TokenKind::Bind]);
    assert_eq!(kinds("= ="), vec![TokenKind::Bind, TokenKind::Bind]);
    assert_eq!(kinds("=>>"), vec![TokenKind::Arrow, TokenKind::Symbol(">")]);
    assert_eq!(kinds("=+"), vec![TokenKind::Bind, TokenKind::Symbol("+")]);
    assert_eq!(kinds("+=>"), vec![TokenKind::Symbol("+=>")]);
    assert_eq!(kinds("==="), vec![TokenKind::Symbol("===")]);
}

#[test]
fn numbers_are_longest_runs_of_digits() {
    assert_eq!(
        kinds("1 23 313 1"),
        vec![number(1), number(23), number(313), number(1)]
    );
    assert_eq!(kinds("007"), vec![number(7)]);
    assert_eq!(kinds("0"), vec![number(0)]);
    assert_eq!(kinds("12abc"), vec![number(12), TokenKind::Ident("abc")]);
    assert_eq!(
        kinds("+3+1--3//3&(s++)"),
        vec![
            TokenKind::Symbol("+"),
            number(3),
            TokenKind::Symbol("+"),
            number(1),
            TokenKind::Symbol("--"),
            number(3),
            TokenKind::Symbol("//"),
            number(3),
            TokenKind::Symbol("&"),
            TokenKind::LeftParenthesis,
            TokenKind::Ident("s"),
            TokenKind::Symbol("++"),
            TokenKind::RightParenthesis,
        ]
    );
}

#[test]
fn numbers_of_any_size_keep_their_value() {
    let tokens = lexer::lexer("340282366920938463463374607431768211456").unwrap();
    assert_eq!(tokens.len(), 1);
    match &tokens[0].kind {
        TokenKind::Number(n) => {
            assert_eq!(n.to_decimal(), "340282366920938463463374607431768211456")
        }
        other => panic!("not a number: {:?}", other),
    }
    assert_eq!(kinds("4294967296"), vec![number(4294967296)]);
    assert_ne!(kinds("4294967296"), vec![number(0)]);
}

#[test]
fn punctuation_stands_alone() {
    assert_eq!(
        kinds("():{},="),
        vec![
            TokenKind::LeftParenthesis,
            TokenKind::RightParenthesis,
            TokenKind::Colon,
            TokenKind::LeftCurly,
            TokenKind::RightCurly,
            TokenKind::Comma,
            TokenKind::Bind,
        ]
    );
    assert_eq!(
        kinds(r#"(12 +23)()("foo")(1+1)"#),
        vec![
            TokenKind::LeftParenthesis,
            number(12),
            TokenKind::Symbol("+"),
            number(23),
            TokenKind::RightParenthesis,
            TokenKind::LeftParenthesis,
            TokenKind::RightParenthesis,
            TokenKind::LeftParenthesis,
            TokenKind::String("foo"),
            TokenKind::RightParenthesis,
            TokenKind::LeftParenthesis,
            number(1),
            TokenKind::Symbol("+"),
            number(1),
            TokenKind::RightParenthesis,
        ]
    );
}

#[test]
fn symbols_are_longest_runs() {
    assert_eq!(
        kinds("+ == != -"),
        vec![
            TokenKind::Symbol("+"),
            TokenKind::Symbol("=="),
            TokenKind::Symbol("!="),
            TokenKind::Symbol("-"),
        ]
    );
    assert_eq!(
        kinds(" - - - -- - - "),
        vec![
            TokenKind::Symbol("-"),
            TokenKind::Symbol("-"),
            TokenKind::Symbol("-"),
            TokenKind::Symbol("--"),
            TokenKind::Symbol("-"),
            TokenKind::Symbol("-"),
        ]
    );
    assert_eq!(
        kinds(" () , . "),
        vec![
            TokenKind::LeftParenthesis,
            TokenKind::RightParenthesis,
            TokenKind::Comma,
            TokenKind::Symbol("."),
        ]
    );
    assert_eq!(kinds("$"), vec![TokenKind::Symbol("$")]);
    assert_eq!(kinds("\u{2192}\u{2192}"), vec![TokenKind::Symbol("\u{2192}\u{2192}")]);
}

#[test]
fn strings_run_to_the_next_quote() {
    assert_eq!(
        kinds(r#" "foo" "bar" "#),
        vec![TokenKind::String("foo"), TokenKind::String("bar")]
    );
    assert_eq!(kinds(r#""""#), vec![TokenKind::String("")]);
    assert_eq!(kinds(r#""a b\n""#), vec![TokenKind::String(r"a b\n")]);
    assert_eq!(
        kinds(r#""x"y"#),
        vec![TokenKind::String("x"), TokenKind::Ident("y")]
    );
}

#[test]
fn identifiers_follow_unicode() {
    assert_eq!(
        kinds("foo bar foo_bar foo-bar (foo+1)"),
        vec![
            TokenKind::Ident("foo"),
            TokenKind::Ident("bar"),
            TokenKind::Ident("foo_bar"),
            TokenKind::Ident("foo"),
            TokenKind::Symbol("-"),
            TokenKind::Ident("bar"),
            TokenKind::LeftParenthesis,
            TokenKind::Ident("foo"),
            TokenKind::Symbol("+"),
            number(1),
            TokenKind::RightParenthesis,
        ]
    );
    assert_eq!(kinds("_x1"), vec![TokenKind::Ident("_x1")]);
    assert_eq!(kinds("x1y2"), vec![TokenKind::Ident("x1y2")]);
    assert_eq!(
        kinds("\u{e9}t\u{e9} \u{3b1}\u{3b2}"),
        vec![
            TokenKind::Ident("\u{e9}t\u{e9}"),
            TokenKind::Ident("\u{3b1}\u{3b2}")
        ]
    );
    assert_eq!(
        kinds("a\u{a0}b"),
        vec![TokenKind::Ident("a"), TokenKind::Ident("b")]
    );
}

#[test]
fn spans_are_byte_offsets() {
    assert_eq!(
        lexer::lexer("ab  + 12"),
        Ok(vec![
            Token {
                kind: TokenKind::Ident("ab"),
                span: Span { start: 0, end: 2 }
            },
            Token {
                kind: TokenKind::Symbol("+"),
                span: Span { start: 4, end: 5 }
            },
            Token {
                kind: number(12),
                span: Span { start: 6, end: 8 }
            },
        ])
    );
    assert_eq!(
        lexer::lexer("\u{e9} \u{2192} \"\u{1f600}\" z"),
        Ok(vec![
            Token {
                kind: TokenKind::Ident("\u{e9}"),
                span: Span { start: 0, end: 2 }
            },
            Token {
                kind: TokenKind::Symbol("\u{2192}"),
                span: Span { start: 3, end: 6 }
            },
            Token {
                kind: TokenKind::String("\u{1f600}"),
                span: Span { start: 7, end: 13 }
            },
            Token {
                kind: TokenKind::Ident("z"),
                span: Span { start: 14, end: 15 }
            },
        ])
    );
    assert_eq!(
        lexer::lexer("a=>b"),
        Ok(vec![
            Token {
                kind: TokenKind::Ident("a"),
                span: Span { start: 0, end: 1 }
            },
            Token {
                kind: TokenKind::Arrow,
                span: Span { start: 1, end: 3 }
            },
            Token {
                kind: TokenKind::Ident("b"),
                span: Span { start: 3, end: 4 }
            },
        ])
    );
}

#[test]
fn an_unterminated_string_is_reported_with_its_span() {
    assert_eq!(
        lexer::lexer(r#" "foo "#),
        Err(LexError {
            kind: LexErrorKind::UnterminatedString,
            span: Span { start: 1, end: 6 }
        })
    );
    assert_eq!(
        lexer::lexer(r#"a = "\u{e9}"#),
        Err(LexError {
            kind: LexErrorKind::UnterminatedString,
            span: Span { start: 4, end: 11 }
        })
    );
    assert_eq!(
        lexer::lexer("\""),
        Err(LexError {
            kind: LexErrorKind::UnterminatedString,
            span: Span { start: 0, end: 1 }
        })
    );
}

#[test]
fn a_character_that_starts_no_token_is_reported() {
    for source in ["a ; b", "a [ b", "a ] b", "a ` b", "a ' b"] {
        assert_eq!(
            lexer::lexer(source),
            Err(LexError {
                kind: LexErrorKind::UnexpectedCharacter,
                span: Span { start: 2, end: 3 }
            })
        );
    }
    assert_eq!(
        lexer::lexer("x \u{b2}"),
        Err(LexError {
            kind: LexErrorKind::UnexpectedCharacter,
            span: Span { start: 2, end: 4 }
        })
    );
}

#[test]
fn characters_are_looked_up_in_the_tables() {
    assert_eq!(
        classify('a'),
        Classified {
            value: 'a',
            whitespace: false,
            alphanumeric: true,
            ident_start: true,
            ident_continue: true
        }
    );
    assert_eq!(
        classify('7'),
        Classified {
            value: '7',
            whitespace: false,
            alphanumeric: true,
            ident_start: false,
            ident_continue: true
        }
    );
    assert_eq!(
        classify('_'),
        Classified {
            value: '_',
            whitespace: false,
            alphanumeric: false,
            ident_start: true,
            ident_continue: true
        }
    );
    for c in [' ', '\t', '\n', '\r', '\u{a0}', '\u{2003}', '\u{3000}'] {
        assert_eq!(
            classify(c),
            Classified {
                value: c,
                whitespace: true,
                alphanumeric: false,
                ident_start: false,
                ident_continue: false
            }
        );
    }
    for c in ['+', '=', '$', '"', '(', ';', '\u{2192}', '\u{202a}'] {
        assert_eq!(
            classify(c),
            Classified {
                value: c,
                whitespace: false,
                alphanumeric: false,
                ident_start: false,
                ident_continue: false
            }
        );
    }
    assert_eq!(
        classify('\u{b2}'),
        Classified {
            value: '\u{b2}',
            whitespace: false,
            alphanumeric: true,
            ident_start: false,
            ident_continue: false
        }
    );
    assert_eq!(
        classify_text("a 1"),
        vec![classify('a'), classify(' '), classify('1')]
    );
    assert_eq!(classify_text(""), vec![]);
}

#[test]
fn tokens_follow_what_is_said_of_the_characters() {
    let source = "a.b c";
    let plain = classify_text(source);
    assert_eq!(lex(source, &plain), lexer::lexer(source));
    assert_eq!(
        lex(source, &plain).map(|tokens| tokens.len()),
        Ok(4)
    );

    let mut dots_are_letters = plain.clone();
    dots_are_letters[1].alphanumeric = true;
    dots_are_letters[1].ident_continue = true;
    assert_eq!(
        lex(source, &dots_are_letters),
        Ok(vec![
            Token {
                kind: TokenKind::Ident("a.b"),
                span: Span { start: 0, end: 3 }
            },
            Token {
                kind: TokenKind::Ident("c"),
                span: Span { start: 4, end: 5 }
            },
        ])
    );

    let mut dots_are_nothing = plain.clone();
    dots_are_nothing[1].alphanumeric = true;
    assert_eq!(
        lex(source, &dots_are_nothing),
        Err(LexError {
            kind: LexErrorKind::UnexpectedCharacter,
            span: Span { start: 1, end: 2 }
        })
    );

    let mut spaces_are_symbols = plain.clone();
    spaces_are_symbols[3].whitespace = false;
    assert_eq!(
        lex(source, &spaces_are_symbols),
        Ok(vec![
            Token {
                kind: TokenKind::Ident("a"),
                span: Span { start: 0, end: 1 }
            },
            Token {
                kind: TokenKind::Symbol("."),
                span: Span { start: 1, end: 2 }
            },
            Token {
                kind: TokenKind::Ident("b"),
                span: Span { start: 2, end: 3 }
            },
            Token {
                kind: TokenKind::Symbol(" "),
                span: Span { start: 3, end: 4 }
            },
            Token {
                kind: TokenKind::Ident("c"),
                span: Span { start: 4, end: 5 }
            },
        ])
    );

    let mut letters_are_spaces = plain;
    letters_are_spaces[0].whitespace = true;
    letters_are_spaces[2].whitespace = true;
    letters_are_spaces[4].whitespace = true;
    assert_eq!(
        lex(source, &letters_are_spaces),
        Ok(vec![Token {
            kind: TokenKind::Symbol("."),
            span: Span { start: 1, end: 2 }
        }])
    );
}
