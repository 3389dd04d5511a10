use len::integer::Int;
use len::lexer;
use len::lexer::TokenKind;
use len::printing::{print_tokens, reprint, tables_are_plain, token_to_string};

fn kinds<'s>(source: &'s str) -> Vec<TokenKind<'s>> {
    lexer::lexer(source)
        .expect("the source tokenizes")
        .into_iter()
        .map(|token| token.kind)
        .collect()
}

#[test]
fn tokens_are_written_with_spaces_between() {
    assert_eq!(print_tokens(&[]), "");
    assert_eq!(print_tokens(&[TokenKind::Ident("a")]), "a");
    assert_eq!(
        print_tokens(&[
            TokenKind::Ident("a"),
            TokenKind::Bind,
            TokenKind::Number(Int::from_i64(12)),
        ]),
        "a = 12"
    );
    assert_eq!(
        print_tokens(&kinds(r#"f(x)=>{a:"s t",b:2}==3"#)),
        r#"f ( x ) => { a : "s t" , b : 2 } == 3"#
    );
}

#[test]
fn each_token_has_its_text() {
    for (kind, text) in [
        (TokenKind::Number(Int::from_i64(0)), "0"),
        (TokenKind::Number(Int::from_i64(1234567890123)), "1234567890123"),
        (TokenKind::Number(Int::from_i64(-5)), "-5"),
        (TokenKind::Bind, "="),
        (TokenKind::String("a b"), "\"a b\""),
        (TokenKind::String(""), "\"\""),
        (TokenKind::Ident("foo_bar"), "foo_bar"),
        (TokenKind::Symbol("=="), "=="),
        (TokenKind::RightParenthesis, ")"),
        (TokenKind::LeftParenthesis, "("),
        (TokenKind::Colon, ":"),
        (TokenKind::LeftCurly, "{"),
        (TokenKind::RightCurly, "}"),
        (TokenKind::Comma, ","),
        (TokenKind::Arrow, "=>"),
    ] {
        assert_eq!(token_to_string(&kind), text);
    }
}

#[test]
fn printed_tokens_read_back() {
    for source in [
        "",
        "   ",
        "a=b",
        "a=>b",
        "a==b",
        "a==>>b",
        "= => == === =>> =+ +=",
        r#"1 + 2 = 1 ("hello" = hello)"#,
        "+3+1--3//3&(s++)",
        r#"(12 +23)()("foo")(1+1)"#,
        "foo bar foo_bar foo-bar (foo+1)",
        "007 0 18446744073709551616000",
        "f = x => y => { sum : x + y , product : x * y }",
        "\u{e9}t\u{e9}\u{2192}\"\u{1f600} \"\u{a0}_x",
        "get{a:1,b:2}\"a\"$inc",
    ] {
        let first = kinds(source);
        let text = print_tokens(&first);
        let second = kinds(&text);
        assert_eq!(first, second, "{:?} printed as {:?}", source, text);
        assert_eq!(print_tokens(&second), text);
    }
}

#[test]
fn the_character_tables_are_plain() {
    assert!(tables_are_plain());
}

#[test]
fn a_source_is_reprinted_with_single_spaces() {
    assert_eq!(reprint(""), Some(String::new()));
    assert_eq!(reprint(" \n "), Some(String::new()));
    assert_eq!(reprint("a=b"), Some("a = b".to_string()));
    assert_eq!(
        reprint("  f(x)   =>\t007+  \"a  b\""),
        Some("f ( x ) => 7 + \"a  b\"".to_string())
    );
    assert_eq!(reprint("a = b"), Some("a = b".to_string()));
    assert_eq!(reprint("a ; b"), None);
    assert_eq!(reprint("\"open"), None);
    for source in ["a==>>b", "x=>y=>{a:1}", "1$2$3", "\u{3b1}+\u{3b2}"] {
        let once = reprint(source).unwrap();
        assert_eq!(reprint(&once), Some(once.clone()), "{}", source);
    }
}
