//! Tokens back to text.
//!
//! [`printed`] writes token kinds out with a separator between them, and
//! [`lemma_printed_tokens_read_back`] shows that the tokenizer reads the
//! kinds of any text back from their printed form, for every table of
//! characters that is plain. [`reprint`] asks the table at hand whether it
//! is, and prints.

use crate::integer::{
    decimal_digits, decimal_text, is_decimal_digit, lemma_decimal_digits_are_decimal,
    lemma_decimal_round_trip,
};
use crate::lexer::{
    is_symbol_char, kind_views, kinds_of, lemma_run_end, lemma_scan_token, lexer, punctuation,
    run_end, scan_token, token_kinds, tokenize, tokenize_classified, tokens_from, CharClass,
    Scanned, TokenKind, TokenKindView, TokenView,
};
use crate::text::{classified, classified_text, classify, unicode_whitespace, values, Classified};
use vstd::prelude::*;
use vstd::string::StringExecFns;

verus! {

/// The text that a token is written as.
pub open spec fn token_text(kind: TokenKindView) -> Seq<char> {
    match kind {
        TokenKindView::Number(n) => decimal_text(n),
        TokenKindView::Bind => seq!['='],
        TokenKindView::String(s) => seq!['"'] + s + seq!['"'],
        TokenKindView::Ident(s) => s,
        TokenKindView::Symbol(s) => s,
        TokenKindView::RightParenthesis => seq![')'],
        TokenKindView::LeftParenthesis => seq!['('],
        TokenKindView::Colon => seq![':'],
        TokenKindView::LeftCurly => seq!['{'],
        TokenKindView::RightCurly => seq!['}'],
        TokenKindView::Comma => seq![','],
        TokenKindView::Arrow => seq!['=', '>'],
    }
}

/// The texts of the tokens in a row, with `separator` between each two.
pub open spec fn printed(kinds: Seq<TokenKindView>, separator: char) -> Seq<char>
    decreases kinds.len(),
{
    if kinds.len() == 0 {
        Seq::empty()
    } else if kinds.len() == 1 {
        token_text(kinds[0])
    } else {
        token_text(kinds[0]) + seq![separator] + printed(kinds.drop_first(), separator)
    }
}

/// What is said of characters: a table gives for each character the
/// character itself with its classes.
pub type Table = spec_fn(char) -> Classified;

/// Whether `table` is a table: what it gives for a character is about that
/// character.
pub open spec fn is_table(table: Table) -> bool {
    forall|c: char| (#[trigger] table(c)).value == c
}

/// The table at hand: what `std` and `chumsky` say of each character.
pub open spec fn unicode_table() -> Table {
    |c: char| classified(c)
}

/// The characters of `text`, each with what `table` says of it.
pub open spec fn looked_up(text: Seq<char>, table: Table) -> Seq<Classified> {
    Seq::new(text.len(), |i: int| table(text[i]))
}

/// Whether `c` keeps any two tokens apart under `table`: it is whitespace,
/// and it is no character that some token would take in after its first.
pub open spec fn separates(table: Table, c: char) -> bool {
    &&& table(c).whitespace
    &&& !table(c).ident_continue
    &&& !is_decimal_digit(c)
    &&& c != '='
    &&& c != '>'
}

/// Whether `table` is plain in two ways that Unicode's tables are: no
/// decimal digit is whitespace, and `=` starts no identifier.
pub open spec fn is_plain(table: Table) -> bool {
    &&& forall|c: char| is_decimal_digit(c) ==> !(#[trigger] table(c)).whitespace
    &&& !table('=').ident_start
}

/// What holds of every token that the tokenizer gives under `table`: its
/// text starts with a character that is not whitespace, and holds what the
/// rule that reads it back asks for.
pub open spec fn well_formed(table: Table, kind: TokenKindView) -> bool {
    &&& !table(token_text(kind)[0]).whitespace
    &&& match kind {
        TokenKindView::Number(n) => n >= 0,
        TokenKindView::String(s) => forall|i: int| 0 <= i < s.len() ==> s[i] != '"',
        TokenKindView::Symbol(s) => {
            &&& s.len() >= 1
            &&& forall|i: int| 0 <= i < s.len() ==> is_symbol_char(table(#[trigger] s[i]))
            &&& !is_decimal_digit(s[0])
            &&& s[0] == '=' ==> s.len() >= 2 && s[1] == '='
        },
        TokenKindView::Ident(s) => {
            &&& s.len() >= 1
            &&& table(s[0]).ident_start
            &&& forall|i: int| 1 <= i < s.len() ==> table(#[trigger] s[i]).ident_continue
            &&& s[0] != '='
            &&& s[0] != '"'
            &&& !is_decimal_digit(s[0])
            &&& punctuation(s[0]) is None
            &&& !is_symbol_char(table(s[0]))
        },
        _ => true,
    }
}

/// A run ends exactly where the characters of its class end.
pub proof fn lemma_run_exact(text: Seq<Classified>, start: int, end: int, class: CharClass)
    requires
        0 <= start <= end <= text.len(),
        forall|i: int| start <= i < end ==> class.holds(#[trigger] text[i]),
        end < text.len() ==> !class.holds(text[end]),
    ensures
        run_end(text, start, class) == end,
    decreases end - start,
{
    if start < end {
        lemma_run_exact(text, start + 1, end, class);
    }
}

/// Every token that stands in a text where no whitespace is is well formed.
pub proof fn lemma_scanned_is_well_formed(text: Seq<char>, at: int, table: Table)
    requires
        is_table(table),
        0 <= at < text.len(),
        !table(text[at]).whitespace,
        is_plain(table),
        scan_token(looked_up(text, table), at).outcome is Ok,
    ensures
        well_formed(table, scan_token(looked_up(text, table), at).outcome->Ok_0),
{
    let chars = looked_up(text, table);
    assert(values(chars) =~= text);
    lemma_run_end(chars, at + 1, CharClass::Digit);
    lemma_run_end(chars, at + 1, CharClass::Symbol);
    lemma_run_end(chars, at + 1, CharClass::Quoted);
    lemma_run_end(chars, at + 1, CharClass::IdentContinue);
    if let TokenKindView::Number(n) = scan_token(chars, at).outcome->Ok_0 {
        lemma_decimal_digits_are_decimal(n as nat);
    }
}

/// The text of a well-formed token, followed by a separator or by nothing,
/// is read as that token and no further.
pub proof fn lemma_token_text_reads_back(
    text: Seq<char>,
    at: int,
    kind: TokenKindView,
    table: Table,
)
    requires
        is_table(table),
        well_formed(table, kind),
        0 <= at,
        at + token_text(kind).len() <= text.len(),
        text.subrange(at, at + token_text(kind).len()) == token_text(kind),
        at + token_text(kind).len() < text.len() ==> separates(
            table,
            text[at + token_text(kind).len()],
        ),
    ensures
        scan_token(looked_up(text, table), at) == (Scanned {
            outcome: Ok(kind),
            end: at + token_text(kind).len(),
        }),
{
    let chars = looked_up(text, table);
    let word = token_text(kind);
    let end = at + word.len();
    assert(values(chars) =~= text);
    match kind {
        TokenKindView::Number(n) => {
            lemma_decimal_digits_are_decimal(n as nat);
            lemma_decimal_round_trip(n as nat);
            assert(is_decimal_digit(word[0]));
            assert forall|i: int| at + 1 <= i < end implies CharClass::Digit.holds(
                #[trigger] chars[i],
            ) by {
                assert(text[i] == word[i - at]);
            }
            lemma_run_exact(chars, at + 1, end, CharClass::Digit);
        },
        TokenKindView::String(s) => {
            assert(word[s.len() as int + 1] == '"');
            assert forall|i: int| at + 1 <= i < end - 1 implies CharClass::Quoted.holds(
                #[trigger] chars[i],
            ) by {
                assert(text[i] == word[i - at]);
            }
            lemma_run_exact(chars, at + 1, end - 1, CharClass::Quoted);
            assert forall|i: int| 0 <= i < s.len() implies text[at + 1 + i] == s[i] by {
                assert(text[at + 1 + i] == word[1 + i]);
            }
            assert(text.subrange(at + 1, end - 1) =~= s);
        },
        TokenKindView::Symbol(s) => {
            assert(is_symbol_char(table(s[0])));
            assert forall|i: int| at + 1 <= i < end implies CharClass::Symbol.holds(
                #[trigger] chars[i],
            ) by {
                assert(text[i] == word[i - at]);
            }
            lemma_run_exact(chars, at + 1, end, CharClass::Symbol);
        },
        TokenKindView::Ident(s) => {
            assert forall|i: int| at + 1 <= i < end implies CharClass::IdentContinue.holds(
                #[trigger] chars[i],
            ) by {
                assert(text[i] == word[i - at]);
            }
            lemma_run_exact(chars, at + 1, end, CharClass::IdentContinue);
        },
        TokenKindView::Arrow => {
            assert(text[at] == word[0]);
        },
        _ => {},
    }
}

/// Every token of a text is well formed.
pub proof fn lemma_tokens_are_well_formed(text: Seq<char>, from: int, table: Table)
    requires
        is_table(table),
        0 <= from <= text.len(),
        is_plain(table),
        tokens_from(looked_up(text, table), from) is Ok,
    ensures
        forall|i: int|
            0 <= i < tokens_from(looked_up(text, table), from)->Ok_0.len() ==> well_formed(
                table,
                (#[trigger] tokens_from(looked_up(text, table), from)->Ok_0[i]).kind,
            ),
    decreases text.len() - from,
{
    let chars = looked_up(text, table);
    let at = run_end(chars, from, CharClass::Whitespace);
    lemma_run_end(chars, from, CharClass::Whitespace);
    if at < text.len() {
        lemma_scan_token(chars, at);
        lemma_scanned_is_well_formed(text, at, table);
        lemma_tokens_are_well_formed(text, scan_token(chars, at).end, table);
    }
}

/// Where the rest of a text is the printed form of well-formed tokens, its
/// tokens are of those kinds.
pub proof fn lemma_printed_reads_back(
    text: Seq<char>,
    from: int,
    kinds: Seq<TokenKindView>,
    separator: char,
    table: Table,
)
    requires
        is_table(table),
        0 <= from <= text.len(),
        text.skip(from) == printed(kinds, separator),
        separates(table, separator),
        forall|i: int| 0 <= i < kinds.len() ==> well_formed(table, #[trigger] kinds[i]),
    ensures
        tokens_from(looked_up(text, table), from) matches Ok(tokens) && kinds_of(tokens) == kinds,
    decreases kinds.len(),
{
    let chars = looked_up(text, table);
    lemma_run_end(chars, from, CharClass::Whitespace);
    if kinds.len() > 0 {
        let word = token_text(kinds[0]);
        let end = from + word.len();
        let rest = kinds.drop_first();
        lemma_text_is_not_empty(table, kinds[0]);
        assert(text.skip(from).len() >= word.len() && text.skip(from).subrange(
            0,
            word.len() as int,
        ) =~= word) by {
            if kinds.len() > 1 {
                assert(printed(kinds, separator) == word + seq![separator] + printed(
                    rest,
                    separator,
                ));
            }
        }
        assert(text.subrange(from, end) =~= word);
        if kinds.len() == 1 {
            assert(text.skip(end) =~= printed(rest, separator));
            lemma_token_text_reads_back(text, from, kinds[0], table);
            lemma_printed_reads_back(text, end, rest, separator, table);
        } else {
            assert(text[end] == separator) by {
                assert(text.skip(from)[word.len() as int] == separator);
            }
            let tail = printed(rest, separator);
            assert forall|j: int| 0 <= j < tail.len() implies text[end + 1 + j] == tail[j] by {
                assert(text.skip(from)[word.len() + 1 + j] == tail[j]);
            }
            assert(text.skip(end + 1) =~= tail);
            lemma_token_text_reads_back(text, from, kinds[0], table);
            lemma_printed_reads_back(text, end + 1, rest, separator, table);
            lemma_text_is_not_empty(table, rest[0]);
            assert(text[end + 1] == token_text(rest[0])[0]) by {
                assert(text.skip(end + 1)[0] == token_text(rest[0])[0]) by {
                    if rest.len() > 1 {
                        assert(printed(rest, separator) == token_text(rest[0]) + seq![separator]
                            + printed(rest.drop_first(), separator));
                    }
                }
            }
            lemma_run_exact(chars, end, end + 1, CharClass::Whitespace);
            lemma_run_exact(chars, end + 1, end + 1, CharClass::Whitespace);
        }
        let tokens = tokens_from(chars, from)->Ok_0;
        let more = tokens_from(chars, end)->Ok_0;
        assert(kinds_of(tokens) =~= seq![kinds[0]] + kinds_of(more));
    }
}

/// The text of a well-formed token holds at least one character.
pub proof fn lemma_text_is_not_empty(table: Table, kind: TokenKindView)
    requires
        well_formed(table, kind),
    ensures
        token_text(kind).len() >= 1,
{
    if let TokenKindView::Number(n) = kind {
        lemma_decimal_digits_are_decimal(n as nat);
    }
}

/// Tokenizing the printed form of the tokens of a text gives tokens of the
/// same kinds, whatever separator stands between them and whatever table
/// says what the characters are, as long as the table is plain.
pub proof fn lemma_printed_tokens_read_back(text: Seq<char>, separator: char, table: Table)
    requires
        is_table(table),
        is_plain(table),
        separates(table, separator),
        tokenize_classified(looked_up(text, table)) is Ok,
    ensures
        tokenize_classified(
            looked_up(
                printed(kinds_of(tokenize_classified(looked_up(text, table))->Ok_0), separator),
                table,
            ),
        ) matches Ok(again) && kinds_of(again) == kinds_of(
            tokenize_classified(looked_up(text, table))->Ok_0,
        ),
{
    let tokens = tokenize_classified(looked_up(text, table))->Ok_0;
    let kinds = kinds_of(tokens);
    lemma_tokens_are_well_formed(text, 0, table);
    let again = printed(kinds, separator);
    assert(again.skip(0) =~= again);
    lemma_printed_reads_back(again, 0, kinds, separator, table);
}

/// What the table at hand says of a text is what the text is classified as.
pub proof fn lemma_unicode_table(text: Seq<char>)
    ensures
        is_table(unicode_table()),
        looked_up(text, unicode_table()) == classified_text(text),
{
}

/// Writes a token out.
pub fn token_to_string(kind: &TokenKind) -> (text: String)
    ensures
        text@ == token_text(kind@),
{
    proof {
        reveal_strlit("=");
        reveal_strlit("\"");
        reveal_strlit(")");
        reveal_strlit("(");
        reveal_strlit(":");
        reveal_strlit("{");
        reveal_strlit("}");
        reveal_strlit(",");
        reveal_strlit("=>");
    }
    match kind {
        TokenKind::Number(n) => n.to_decimal(),
        TokenKind::Bind => {
            let text = "=".to_owned();
            text
        },
        TokenKind::String(s) => {
            let mut text = "\"".to_owned();
            text.append(s);
            text.append("\"");
            text
        },
        TokenKind::Ident(s) => (*s).to_owned(),
        TokenKind::Symbol(s) => (*s).to_owned(),
        TokenKind::RightParenthesis => {
            let text = ")".to_owned();
            text
        },
        TokenKind::LeftParenthesis => {
            let text = "(".to_owned();
            text
        },
        TokenKind::Colon => {
            let text = ":".to_owned();
            text
        },
        TokenKind::LeftCurly => {
            let text = "{".to_owned();
            text
        },
        TokenKind::RightCurly => {
            let text = "}".to_owned();
            text
        },
        TokenKind::Comma => {
            let text = ",".to_owned();
            text
        },
        TokenKind::Arrow => {
            let text = "=>".to_owned();
            text
        },
    }
}

/// Writes tokens out in a row, with a space between each two.
pub fn print_tokens(kinds: &[TokenKind]) -> (text: String)
    ensures
        text@ == printed(kind_views(kinds@), ' '),
{
    let ghost all = kind_views(kinds@);
    let mut text = String::new();
    let mut i = kinds.len();
    proof {
        reveal_strlit(" ");
    }
    while i > 0
        invariant
            i <= kinds.len(),
            all == kind_views(kinds@),
            text@ == printed(all.skip(i as int), ' '),
            " "@ == seq![' '],
        decreases i,
    {
        i = i - 1;
        let mut word = token_to_string(&kinds[i]);
        proof {
            assert(all.skip(i as int).drop_first() =~= all.skip(i + 1));
        }
        if i + 1 < kinds.len() {
            word.append(" ");
            word.append(text.as_str());
        }
        text = word;
    }
    assert(all.skip(0) =~= all);
    text
}

/// Whether the character tables are such that printed tokens read back: the
/// space keeps tokens apart, no decimal digit is whitespace, and `=` starts
/// no identifier. Unicode's tables are; this asks the tables at hand.
pub fn tables_are_plain() -> (plain: bool)
    ensures
        plain == (separates(unicode_table(), ' ') && is_plain(unicode_table())),
{
    let space = classify(' ');
    if !space.whitespace || space.ident_continue || classify('=').ident_start {
        return false;
    }
    let mut code: u8 = 48;
    while code <= 57
        invariant
            48 <= code <= 58,
            forall|c: char| 48 <= c as u32 && (c as u32) < code ==> !unicode_whitespace(c),
        decreases 58 - code,
    {
        let digit = code as char;
        if classify(digit).whitespace {
            assert(is_decimal_digit(digit) && unicode_table()(digit).whitespace);
            return false;
        }
        assert forall|c: char| 48 <= c as u32 && (c as u32) < code + 1 implies !unicode_whitespace(
            c,
        ) by {
            if c as u32 == code {
                vstd::utf8::char_u32_cast(c, c as u32);
            }
        }
        code = code + 1;
    }
    true
}

/// Tokenizes `source` and writes its tokens out with one space between each
/// two. What is written has tokens of the same kinds as `source`. Gives
/// nothing where `source` cannot be tokenized, or where the character tables
/// are not plain.
pub fn reprint(source: &str) -> (reprinted: Option<String>)
    ensures
        match reprinted {
            Some(text) => {
                &&& tokenize(source@) matches Ok(tokens) && text@ == printed(kinds_of(tokens), ' ')
                &&& tokenize(text@) matches Ok(again) && kinds_of(again) == kinds_of(
                    tokenize(source@)->Ok_0,
                )
            },
            None => tokenize(source@) is Err || !(separates(unicode_table(), ' ') && is_plain(
                unicode_table(),
            )),
        },
{
    if !tables_are_plain() {
        return None;
    }
    match lexer(source) {
        Err(_) => None,
        Ok(tokens) => {
            let kinds = token_kinds(tokens);
            let text = print_tokens(kinds.as_slice());
            proof {
                lemma_unicode_table(source@);
                lemma_unicode_table(text@);
                lemma_printed_tokens_read_back(source@, ' ', unicode_table());
            }
            Some(text)
        },
    }
}

} // verus!
