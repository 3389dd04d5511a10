use len::integer::Int;
use len::lexer::{
    lexer_new, ContextSpan, LexError, LexErrorKind, Span, SpanContext, SpanSource, TokenKind,
};

fn number(value: i64) -> TokenKind<'static> {
    TokenKind::Number(Int::from_i64(value))
}

fn at(start: usize, end: usize) -> ContextSpan {
    ContextSpan {
        start,
        end,
        context: SpanContext::default(),
    }
}

#[test]
fn test_lexer_new() {
    let res = lexer_new("2 123 12", &Default::default());
    assert_eq!(
        res,
        Ok(vec![
            (at(0, 1), number(2)),
            (at(2, 5), number(123)),
            (at(6, 8), number(12)),
        ])
    );

    for r in res.unwrap() {
        assert_eq!(r.0.context, SpanContext::default());
        assert_eq!(r.0.context.source, SpanSource::Unknown);
    }
}

#[test]
fn numbers_carry_the_context_they_were_read_in() {
    let context = SpanContext {
        source: SpanSource::File("input.len".to_string()),
    };
    let tokens = lexer_new(" 7\t008 ", &context).unwrap();
    assert_eq!(tokens.len(), 2);
    assert_eq!(tokens[0].1, number(7));
    assert_eq!(tokens[1].1, number(8));
    assert_eq!((tokens[0].0.start, tokens[0].0.end), (1, 2));
    assert_eq!((tokens[1].0.start, tokens[1].0.end), (3, 6));
    for (span, _) in &tokens {
        assert_eq!(span.context, context);
        assert_ne!(span.context, SpanContext::default());
    }
    assert_eq!(context.clone(), context);
    assert_eq!(SpanSource::default(), SpanSource::Unknown);
}

#[test]
fn numbers_alone_are_accepted() {
    assert_eq!(lexer_new("", &SpanContext::default()), Ok(vec![]));
    assert_eq!(lexer_new(" \n ", &SpanContext::default()), Ok(vec![]));
    assert_eq!(
        lexer_new("1 + 2", &SpanContext::default()),
        Err(LexError {
            kind: LexErrorKind::UnexpectedCharacter,
            span: Span { start: 2, end: 3 }
        })
    );
    assert_eq!(
        lexer_new("12a", &SpanContext::default()),
        Err(LexError {
            kind: LexErrorKind::UnexpectedCharacter,
            span: Span { start: 2, end: 3 }
        })
    );
    assert_eq!(
        lexer_new("1 \u{e9}", &SpanContext::default()),
        Err(LexError {
            kind: LexErrorKind::UnexpectedCharacter,
            span: Span { start: 2, end: 4 }
        })
    );
}
