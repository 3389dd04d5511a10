//! The tokenizer: source text to tokens with byte spans.
//!
//! [`tokenize_classified`] says, as a function of the characters of the
//! source and of what the character tables say of each, which tokens the
//! source holds or where it is malformed; [`lex`] computes it.
//! [`tokenize`] is the same for the tables at hand, and [`lexer`] looks the
//! characters up and computes that.

use crate::integer::{decimal_value, is_decimal_digit, parse, Int};
use crate::text::{
    byte_offset, classified_text, classify_text, lemma_byte_offset_grows, lemma_byte_offset_step,
    lemma_byte_range, slice, values, width, Classified,
};
use vstd::prelude::*;

verus! {

/// What a token is, with the text or number it carries.
#[derive(Debug, PartialEq)]
pub enum TokenKind<'src> {
    Number(Int),
    Bind,
    String(&'src str),
    Ident(&'src str),
    Symbol(&'src str),
    RightParenthesis,
    LeftParenthesis,
    Colon,
    LeftCurly,
    RightCurly,
    Comma,
    Arrow,
}

/// A half-open range of byte offsets into the source.
#[derive(Debug, Clone, Copy, PartialEq, Eq)]
pub struct Span {
    pub start: usize,
    pub end: usize,
}

/// A token and the place it was read from.
#[derive(Debug, PartialEq)]
pub struct Token<'src> {
    pub kind: TokenKind<'src>,
    pub span: Span,
}

/// Why a text could not be tokenized.
#[derive(Debug, Clone, Copy, PartialEq, Eq)]
pub enum LexErrorKind {
    /// A string literal is opened and never closed.
    UnterminatedString,
    /// No token starts with this character.
    UnexpectedCharacter,
}

/// A failure to tokenize, with the offending range of the source.
#[derive(Debug, Clone, Copy, PartialEq, Eq)]
pub struct LexError {
    pub kind: LexErrorKind,
    pub span: Span,
}

pub type LexerI<'a> = &'a str;

pub type LexerO<'a> = Vec<Token<'a>>;

/// The mathematical content of a [`TokenKind`].
pub enum TokenKindView {
    Number(int),
    Bind,
    String(Seq<char>),
    Ident(Seq<char>),
    Symbol(Seq<char>),
    RightParenthesis,
    LeftParenthesis,
    Colon,
    LeftCurly,
    RightCurly,
    Comma,
    Arrow,
}

/// The mathematical content of a [`Span`].
pub struct SpanView {
    pub start: nat,
    pub end: nat,
}

/// The mathematical content of a [`Token`].
pub struct TokenView {
    pub kind: TokenKindView,
    pub span: SpanView,
}

/// The mathematical content of a [`LexError`].
pub struct LexErrorView {
    pub kind: LexErrorKind,
    pub span: SpanView,
}

impl<'src> View for TokenKind<'src> {
    type V = TokenKindView;

    open spec fn view(&self) -> TokenKindView {
        match *self {
            TokenKind::Number(n) => TokenKindView::Number(n@),
            TokenKind::Bind => TokenKindView::Bind,
            TokenKind::String(s) => TokenKindView::String(s@),
            TokenKind::Ident(s) => TokenKindView::Ident(s@),
            TokenKind::Symbol(s) => TokenKindView::Symbol(s@),
            TokenKind::RightParenthesis => TokenKindView::RightParenthesis,
            TokenKind::LeftParenthesis => TokenKindView::LeftParenthesis,
            TokenKind::Colon => TokenKindView::Colon,
            TokenKind::LeftCurly => TokenKindView::LeftCurly,
            TokenKind::RightCurly => TokenKindView::RightCurly,
            TokenKind::Comma => TokenKindView::Comma,
            TokenKind::Arrow => TokenKindView::Arrow,
        }
    }
}

impl<'src> Clone for TokenKind<'src> {
    fn clone(&self) -> (copy: Self)
        ensures
            copy@ == self@,
    {
        match self {
            TokenKind::Number(n) => TokenKind::Number(n.clone()),
            TokenKind::Bind => TokenKind::Bind,
            TokenKind::String(s) => TokenKind::String(*s),
            TokenKind::Ident(s) => TokenKind::Ident(*s),
            TokenKind::Symbol(s) => TokenKind::Symbol(*s),
            TokenKind::RightParenthesis => TokenKind::RightParenthesis,
            TokenKind::LeftParenthesis => TokenKind::LeftParenthesis,
            TokenKind::Colon => TokenKind::Colon,
            TokenKind::LeftCurly => TokenKind::LeftCurly,
            TokenKind::RightCurly => TokenKind::RightCurly,
            TokenKind::Comma => TokenKind::Comma,
            TokenKind::Arrow => TokenKind::Arrow,
        }
    }
}

impl<'src> Clone for Token<'src> {
    fn clone(&self) -> (copy: Self)
        ensures
            copy@ == self@,
    {
        Token { kind: self.kind.clone(), span: self.span }
    }
}

impl View for Span {
    type V = SpanView;

    open spec fn view(&self) -> SpanView {
        SpanView { start: self.start as nat, end: self.end as nat }
    }
}

impl<'src> View for Token<'src> {
    type V = TokenView;

    open spec fn view(&self) -> TokenView {
        TokenView { kind: self.kind@, span: self.span@ }
    }
}

impl View for LexError {
    type V = LexErrorView;

    open spec fn view(&self) -> LexErrorView {
        LexErrorView { kind: self.kind, span: self.span@ }
    }
}

/// The contents of a run of tokens.
pub open spec fn token_views(tokens: Seq<Token>) -> Seq<TokenView> {
    tokens.map_values(|t: Token| t@)
}

/// The contents of a run of token kinds.
pub open spec fn kind_views(tokens: Seq<TokenKind>) -> Seq<TokenKindView> {
    tokens.map_values(|kind: TokenKind| kind@)
}

/// The kinds of a run of tokens.
pub open spec fn kinds_of(tokens: Seq<TokenView>) -> Seq<TokenKindView> {
    tokens.map_values(|t: TokenView| t.kind)
}

/// The contents of what [`lexer`] returns.
pub open spec fn lexed_view(result: Result<Vec<Token>, LexError>) -> Result<
    Seq<TokenView>,
    LexErrorView,
> {
    match result {
        Ok(tokens) => Ok(token_views(tokens@)),
        Err(e) => Err(e@),
    }
}

/// Characters that never take part in an operator: brackets, separators and
/// quotes, some of them set aside for later use.
pub open spec fn is_reserved(c: char) -> bool {
    ||| c == '('
    ||| c == ')'
    ||| c == ','
    ||| c == ';'
    ||| c == '['
    ||| c == ']'
    ||| c == '`'
    ||| c == '{'
    ||| c == '}'
    ||| c == '_'
    ||| c == ':'
    ||| c == '"'
    ||| c == '\''
}

/// Characters that operators are made of: anything that is not whitespace,
/// not a letter or digit, and not reserved.
pub open spec fn is_symbol_char(c: Classified) -> bool {
    !c.whitespace && !c.alphanumeric && !is_reserved(c.value)
}

/// The kinds of character that the tokenizer reads in runs.
#[derive(Debug, Clone, Copy, PartialEq, Eq)]
pub enum CharClass {
    /// Space between tokens.
    Whitespace,
    /// A decimal digit.
    Digit,
    /// A character of an operator.
    Symbol,
    /// Anything but the double quote that ends a string literal.
    Quoted,
    /// A character that may follow the first of an identifier.
    IdentContinue,
}

impl CharClass {
    /// Whether `c` belongs to the class.
    pub open spec fn holds(self, c: Classified) -> bool {
        match self {
            CharClass::Whitespace => c.whitespace,
            CharClass::Digit => is_decimal_digit(c.value),
            CharClass::Symbol => is_symbol_char(c),
            CharClass::Quoted => c.value != '"',
            CharClass::IdentContinue => c.ident_continue,
        }
    }

    /// Whether `c` belongs to the class.
    pub fn contains(self, c: Classified) -> (r: bool)
        ensures
            r == self.holds(c),
    {
        match self {
            CharClass::Whitespace => c.whitespace,
            CharClass::Digit => '0' <= c.value && c.value <= '9',
            CharClass::Symbol => !c.whitespace && !c.alphanumeric && !is_reserved_char(c.value),
            CharClass::Quoted => c.value != '"',
            CharClass::IdentContinue => c.ident_continue,
        }
    }
}

/// Where the longest run of characters of `class` that starts at `start` ends.
pub open spec fn run_end(text: Seq<Classified>, start: int, class: CharClass) -> int
    decreases text.len() - start,
{
    if 0 <= start < text.len() && class.holds(text[start]) {
        run_end(text, start + 1, class)
    } else {
        start
    }
}

/// The token that a punctuation character is by itself, if it is one.
pub open spec fn punctuation(c: char) -> Option<TokenKindView> {
    if c == ')' {
        Some(TokenKindView::RightParenthesis)
    } else if c == '(' {
        Some(TokenKindView::LeftParenthesis)
    } else if c == ':' {
        Some(TokenKindView::Colon)
    } else if c == '}' {
        Some(TokenKindView::RightCurly)
    } else if c == '{' {
        Some(TokenKindView::LeftCurly)
    } else if c == ',' {
        Some(TokenKindView::Comma)
    } else {
        None
    }
}

/// What stands at one place of the text: a token or a fault, and the index
/// of the character after it.
pub struct Scanned {
    pub outcome: Result<TokenKindView, LexErrorKind>,
    pub end: int,
}

/// What stands at index `at` of `text`, where a character that is not
/// whitespace is. The rules are tried in this order; the first that applies
/// decides.
///
/// 1. `=>` is an arrow.
/// 2. `=` that no other `=` follows is a bind.
/// 3. A digit starts a number, which is the longest run of digits.
/// 4. A bracket, a colon or a comma is a token by itself.
/// 5. A symbol character starts an operator, which is the longest run of
///    symbol characters.
/// 6. A double quote starts a string literal, which ends at the next double
///    quote; where there is none, the literal is unterminated.
/// 7. A character that may start an identifier starts one, which goes on
///    over the longest run of characters that may continue it.
///
/// Any other character is unexpected.
pub open spec fn scan_token(text: Seq<Classified>, at: int) -> Scanned {
    let c = text[at].value;
    if c == '=' && at + 1 < text.len() && text[at + 1].value == '>' {
        Scanned { outcome: Ok(TokenKindView::Arrow), end: at + 2 }
    } else if c == '=' && (at + 1 >= text.len() || text[at + 1].value != '=') {
        Scanned { outcome: Ok(TokenKindView::Bind), end: at + 1 }
    } else if is_decimal_digit(c) {
        let end = run_end(text, at + 1, CharClass::Digit);
        Scanned {
            outcome: Ok(
                TokenKindView::Number(decimal_value(values(text).subrange(at, end)) as int),
            ),
            end,
        }
    } else if let Some(kind) = punctuation(c) {
        Scanned { outcome: Ok(kind), end: at + 1 }
    } else if is_symbol_char(text[at]) {
        let end = run_end(text, at + 1, CharClass::Symbol);
        Scanned { outcome: Ok(TokenKindView::Symbol(values(text).subrange(at, end))), end }
    } else if c == '"' {
        let close = run_end(text, at + 1, CharClass::Quoted);
        if close < text.len() {
            Scanned {
                outcome: Ok(TokenKindView::String(values(text).subrange(at + 1, close))),
                end: close + 1,
            }
        } else {
            Scanned { outcome: Err(LexErrorKind::UnterminatedString), end: close }
        }
    } else if text[at].ident_start {
        let end = run_end(text, at + 1, CharClass::IdentContinue);
        Scanned { outcome: Ok(TokenKindView::Ident(values(text).subrange(at, end))), end }
    } else {
        Scanned { outcome: Err(LexErrorKind::UnexpectedCharacter), end: at + 1 }
    }
}

/// The tokens of `text` from index `from` on: whitespace is skipped, then a
/// token is read, and so on to the end of the text. The first fault ends it.
pub open spec fn tokens_from(text: Seq<Classified>, from: int) -> Result<
    Seq<TokenView>,
    LexErrorView,
>
    decreases text.len() - from,
{
    let at = run_end(text, from, CharClass::Whitespace);
    if 0 <= from && at < text.len() {
        let scanned = scan_token(text, at);
        let span = SpanView {
            start: byte_offset(values(text), at),
            end: byte_offset(values(text), scanned.end),
        };
        proof {
            lemma_run_end(text, from, CharClass::Whitespace);
            lemma_scan_token(text, at);
        }
        match scanned.outcome {
            Err(kind) => Err(LexErrorView { kind, span }),
            Ok(kind) => match tokens_from(text, scanned.end) {
                Err(e) => Err(e),
                Ok(rest) => Ok(seq![TokenView { kind, span }] + rest),
            },
        }
    } else {
        Ok(Seq::empty())
    }
}

/// The tokens of a classified text, or the first fault in it.
pub open spec fn tokenize_classified(text: Seq<Classified>) -> Result<
    Seq<TokenView>,
    LexErrorView,
> {
    tokens_from(text, 0)
}

/// The tokens of `text`, or the first fault in it, where the character
/// tables at hand say of each character what it is.
pub open spec fn tokenize(text: Seq<char>) -> Result<Seq<TokenView>, LexErrorView> {
    tokenize_classified(classified_text(text))
}

/// A run ends inside the text, holds only characters of its class, and the
/// character after it, if any, is not of the class.
pub proof fn lemma_run_end(text: Seq<Classified>, start: int, class: CharClass)
    requires
        0 <= start <= text.len(),
    ensures
        start <= run_end(text, start, class) <= text.len(),
        forall|i: int| start <= i < run_end(text, start, class) ==> class.holds(#[trigger] text[i]),
        run_end(text, start, class) < text.len() ==> !class.holds(
            text[run_end(text, start, class)],
        ),
    decreases text.len() - start,
{
    if start < text.len() && class.holds(text[start]) {
        lemma_run_end(text, start + 1, class);
    }
}

/// Whatever stands at an index of the text ends after it, and inside the text.
pub proof fn lemma_scan_token(text: Seq<Classified>, at: int)
    requires
        0 <= at < text.len(),
    ensures
        at < scan_token(text, at).end <= text.len(),
{
    lemma_run_end(text, at + 1, CharClass::Digit);
    lemma_run_end(text, at + 1, CharClass::Symbol);
    lemma_run_end(text, at + 1, CharClass::Quoted);
    lemma_run_end(text, at + 1, CharClass::IdentContinue);
}

/// Whether the spans of `tokens` lie between the byte offsets `from` and
/// `to`, hold at least one byte each, and follow one another without
/// overlap.
pub open spec fn spans_in_order(tokens: Seq<TokenView>, from: nat, to: nat) -> bool {
    &&& forall|i: int|
        0 <= i < tokens.len() ==> from <= (#[trigger] tokens[i]).span.start < tokens[i].span.end
            <= to
    &&& forall|i: int, j: int|
        0 <= i < j < tokens.len() ==> (#[trigger] tokens[i]).span.end <= (
        #[trigger] tokens[j]).span.start
}

/// The spans of the tokens of a text lie inside the text, hold at least one
/// byte each, and follow one another without overlap.
pub proof fn lemma_spans_in_order(text: Seq<Classified>, from: int)
    requires
        0 <= from <= text.len(),
        tokens_from(text, from) is Ok,
    ensures
        spans_in_order(
            tokens_from(text, from)->Ok_0,
            byte_offset(values(text), from),
            byte_offset(values(text), text.len() as int),
        ),
    decreases text.len() - from,
{
    let chars = values(text);
    let at = run_end(text, from, CharClass::Whitespace);
    lemma_run_end(text, from, CharClass::Whitespace);
    if at < text.len() {
        lemma_scan_token(text, at);
        let end = scan_token(text, at).end;
        lemma_spans_in_order(text, end);
        lemma_byte_offset_grows(chars, at, end);
        lemma_byte_range(chars, from, at);
        lemma_byte_range(chars, end, text.len() as int);
    }
}

/// A text of whitespace alone holds no token, whatever says what whitespace
/// is.
pub proof fn lemma_whitespace_has_no_tokens(text: Seq<Classified>)
    requires
        forall|i: int| 0 <= i < text.len() ==> (#[trigger] text[i]).whitespace,
    ensures
        tokenize_classified(text) == Ok::<Seq<TokenView>, LexErrorView>(Seq::empty()),
{
    lemma_all_of_class(text, 0, CharClass::Whitespace);
}

/// A run over characters that are all of its class goes to the end.
pub proof fn lemma_all_of_class(text: Seq<Classified>, start: int, class: CharClass)
    requires
        0 <= start <= text.len(),
        forall|i: int| start <= i < text.len() ==> class.holds(#[trigger] text[i]),
    ensures
        run_end(text, start, class) == text.len(),
    decreases text.len() - start,
{
    if start < text.len() {
        lemma_all_of_class(text, start + 1, class);
    }
}

/// Whether `c` is reserved, and so never part of an operator.
pub fn is_reserved_char(c: char) -> (r: bool)
    ensures
        r == is_reserved(c),
{
    c == '(' || c == ')' || c == ',' || c == ';' || c == '[' || c == ']' || c == '`' || c == '{'
        || c == '}' || c == '_' || c == ':' || c == '"' || c == '\''
}

/// Reads the longest run of characters of `class` from index `from`, and
/// gives the index and the byte offset at which it ends.
fn read_run(chars: &[Classified], from: usize, from_byte: usize, class: CharClass) -> (r: (
    usize,
    usize,
))
    requires
        from <= chars.len(),
        from_byte == byte_offset(values(chars@), from as int),
        byte_offset(values(chars@), chars.len() as int) <= usize::MAX,
    ensures
        r.0 == run_end(chars@, from as int, class),
        from <= r.0 <= chars.len(),
        r.1 == byte_offset(values(chars@), r.0 as int),
{
    let mut at = from;
    let mut at_byte = from_byte;
    while at < chars.len() && class.contains(chars[at])
        invariant
            from <= at <= chars.len(),
            at_byte == byte_offset(values(chars@), at as int),
            byte_offset(values(chars@), chars.len() as int) <= usize::MAX,
            run_end(chars@, from as int, class) == run_end(chars@, at as int, class),
        decreases chars.len() - at,
    {
        proof {
            lemma_byte_offset_step(values(chars@), at as int);
        }
        at_byte = at_byte + width(chars[at].value);
        at = at + 1;
    }
    (at, at_byte)
}

/// The contents of what [`scan`] finds.
pub open spec fn outcome_view(outcome: Result<TokenKind, LexErrorKind>) -> Result<
    TokenKindView,
    LexErrorKind,
> {
    match outcome {
        Ok(kind) => Ok(kind@),
        Err(e) => Err(e),
    }
}

/// Reads what stands at index `at`, and gives the index and the byte offset
/// at which it ends.
fn scan<'s>(source: &'s str, chars: &[Classified], at: usize, at_byte: usize) -> (r: (
    Result<TokenKind<'s>, LexErrorKind>,
    usize,
    usize,
))
    requires
        values(chars@) == source@,
        at < chars.len(),
        at_byte == byte_offset(source@, at as int),
        byte_offset(source@, chars.len() as int) <= usize::MAX,
    ensures
        outcome_view(r.0) == scan_token(chars@, at as int).outcome,
        r.1 == scan_token(chars@, at as int).end,
        at < r.1 <= chars.len(),
        r.2 == byte_offset(source@, r.1 as int),
{
    let c = chars[at].value;
    proof {
        lemma_byte_offset_step(source@, at as int);
        lemma_scan_token(chars@, at as int);
    }
    let next = at + 1;
    let next_byte = at_byte + width(c);
    if c == '=' && next < chars.len() && chars[next].value == '>' {
        proof {
            lemma_byte_offset_step(source@, next as int);
        }
        (Ok(TokenKind::Arrow), next + 1, next_byte + width(chars[next].value))
    } else if c == '=' && (next >= chars.len() || chars[next].value != '=') {
        (Ok(TokenKind::Bind), next, next_byte)
    } else if CharClass::Digit.contains(chars[at]) {
        let (end, end_byte) = read_run(chars, next, next_byte, CharClass::Digit);
        let digits = slice(source, Ghost(at as int), Ghost(end as int), at_byte, end_byte);
        proof {
            lemma_run_end(chars@, next as int, CharClass::Digit);
        }
        (Ok(TokenKind::Number(parse(digits))), end, end_byte)
    } else if c == ')' {
        (Ok(TokenKind::RightParenthesis), next, next_byte)
    } else if c == '(' {
        (Ok(TokenKind::LeftParenthesis), next, next_byte)
    } else if c == ':' {
        (Ok(TokenKind::Colon), next, next_byte)
    } else if c == '}' {
        (Ok(TokenKind::RightCurly), next, next_byte)
    } else if c == '{' {
        (Ok(TokenKind::LeftCurly), next, next_byte)
    } else if c == ',' {
        (Ok(TokenKind::Comma), next, next_byte)
    } else if CharClass::Symbol.contains(chars[at]) {
        let (end, end_byte) = read_run(chars, next, next_byte, CharClass::Symbol);
        let text = slice(source, Ghost(at as int), Ghost(end as int), at_byte, end_byte);
        (Ok(TokenKind::Symbol(text)), end, end_byte)
    } else if c == '"' {
        let (close, close_byte) = read_run(chars, next, next_byte, CharClass::Quoted);
        if close < chars.len() {
            proof {
                lemma_byte_offset_step(source@, close as int);
            }
            let text = slice(
                source,
                Ghost(next as int),
                Ghost(close as int),
                next_byte,
                close_byte,
            );
            (Ok(TokenKind::String(text)), close + 1, close_byte + width(chars[close].value))
        } else {
            (Err(LexErrorKind::UnterminatedString), close, close_byte)
        }
    } else if chars[at].ident_start {
        let (end, end_byte) = read_run(chars, next, next_byte, CharClass::IdentContinue);
        let text = slice(source, Ghost(at as int), Ghost(end as int), at_byte, end_byte);
        (Ok(TokenKind::Ident(text)), end, end_byte)
    } else {
        (Err(LexErrorKind::UnexpectedCharacter), next, next_byte)
    }
}

/// Tokens read so far, followed by what the rest of the text gives.
pub open spec fn followed_by(
    done: Seq<TokenView>,
    rest: Result<Seq<TokenView>, LexErrorView>,
) -> Result<Seq<TokenView>, LexErrorView> {
    match rest {
        Ok(more) => Ok(done + more),
        Err(e) => Err(e),
    }
}

/// Tokenizes `source`, whose characters are `chars`, each with what is to
/// be taken as said of it: the tokens in order, each with its byte span, or
/// the first fault with the span it covers. Whitespace separates tokens and
/// is never a token itself.
pub fn lex<'s>(source: &'s str, chars: &[Classified]) -> (result: Result<LexerO<'s>, LexError>)
    requires
        values(chars@) == source@,
    ensures
        lexed_view(result) == tokenize_classified(chars@),
{
    let total = source.as_bytes().len();
    assert(byte_offset(source@, chars.len() as int) == total) by {
        assert(source@.take(chars.len() as int) =~= source@);
    }
    let mut tokens: Vec<Token<'s>> = Vec::new();
    let mut from: usize = 0;
    let mut from_byte: usize = 0;
    loop
        invariant
            values(chars@) == source@,
            from <= chars.len(),
            from_byte == byte_offset(source@, from as int),
            byte_offset(source@, chars.len() as int) <= usize::MAX,
            tokenize_classified(chars@) == followed_by(
                token_views(tokens@),
                tokens_from(chars@, from as int),
            ),
        decreases chars.len() - from,
    {
        let (at, at_byte) = read_run(chars, from, from_byte, CharClass::Whitespace);
        if at >= chars.len() {
            return Ok(tokens);
        }
        let (outcome, end, end_byte) = scan(source, chars, at, at_byte);
        let span = Span { start: at_byte, end: end_byte };
        match outcome {
            Err(kind) => {
                return Err(LexError { kind, span });
            },
            Ok(kind) => {
                let ghost before = token_views(tokens@);
                let token = Token { kind, span };
                tokens.push(token);
                proof {
                    let rest = tokens_from(chars@, end as int);
                    assert(token_views(tokens@) =~= before.push(token@));
                    if let Ok(more) = rest {
                        assert(before + (seq![token@] + more) =~= before.push(token@) + more);
                    }
                }
                from = end;
                from_byte = end_byte;
            },
        }
    }
}

/// Tokenizes `source`: the tokens in order, each with its byte span, or the
/// first fault with the span it covers. Whitespace separates tokens and is
/// never a token itself.
pub fn lexer<'s>(source: LexerI<'s>) -> (result: Result<LexerO<'s>, LexError>)
    ensures
        lexed_view(result) == tokenize(source@),
{
    let chars = classify_text(source);
    lex(source, chars.as_slice())
}

/// The kinds of `tokens`, in order.
pub fn token_kinds<'s>(tokens: Vec<Token<'s>>) -> (kinds: Vec<TokenKind<'s>>)
    ensures
        kind_views(kinds@) == kinds_of(token_views(tokens@)),
{
    let ghost all = tokens@;
    let mut kinds: Vec<TokenKind<'s>> = Vec::new();
    for token in it: tokens
        invariant
            it.seq() == all,
            kinds.len() == it.index(),
            forall|i: int| 0 <= i < kinds.len() ==> kinds[i]@ == all[i].kind@,
    {
        kinds.push(token.kind);
    }
    kinds
}

/// Where a text comes from.
#[derive(Debug, PartialEq, Eq)]
pub enum SpanSource {
    Unknown,
    File(String),
}

/// What the spans of a text refer to.
#[derive(Debug, PartialEq, Eq)]
pub struct SpanContext {
    pub source: SpanSource,
}

/// A half-open range of byte offsets into a source, and what that source is.
#[derive(Debug, PartialEq, Eq)]
pub struct ContextSpan {
    pub start: usize,
    pub end: usize,
    pub context: SpanContext,
}

pub type Spanned<T> = (ContextSpan, T);

/// The mathematical content of a [`SpanSource`], and of a [`SpanContext`].
pub enum SpanSourceView {
    Unknown,
    File(Seq<char>),
}

impl View for SpanSource {
    type V = SpanSourceView;

    open spec fn view(&self) -> SpanSourceView {
        match *self {
            SpanSource::Unknown => SpanSourceView::Unknown,
            SpanSource::File(path) => SpanSourceView::File(path@),
        }
    }
}

impl View for SpanContext {
    type V = SpanSourceView;

    open spec fn view(&self) -> SpanSourceView {
        self.source@
    }
}

impl Default for SpanSource {
    fn default() -> (source: Self)
        ensures
            source == SpanSource::Unknown,
    {
        SpanSource::Unknown
    }
}

impl Default for SpanContext {
    fn default() -> (context: Self)
        ensures
            context.source == SpanSource::Unknown,
    {
        SpanContext { source: SpanSource::Unknown }
    }
}

impl Clone for SpanSource {
    fn clone(&self) -> (copy: Self)
        ensures
            copy@ == self@,
    {
        match self {
            SpanSource::Unknown => SpanSource::Unknown,
            SpanSource::File(path) => SpanSource::File(path.clone()),
        }
    }
}

impl Clone for SpanContext {
    fn clone(&self) -> (copy: Self)
        ensures
            copy@ == self@,
    {
        SpanContext { source: self.source.clone() }
    }
}

/// The contents of a run of numbers with their spans, without the context.
pub open spec fn spanned_views(tokens: Seq<Spanned<TokenKind>>) -> Seq<TokenView> {
    tokens.map_values(
        |t: Spanned<TokenKind>|
            TokenView {
                kind: t.1@,
                span: SpanView { start: t.0.start as nat, end: t.0.end as nat },
            },
    )
}

/// The contents of what [`lexer_new`] returns, without the context.
pub open spec fn numbers_view(result: Result<Vec<Spanned<TokenKind>>, LexError>) -> Result<
    Seq<TokenView>,
    LexErrorView,
> {
    match result {
        Ok(tokens) => Ok(spanned_views(tokens@)),
        Err(e) => Err(e@),
    }
}

/// The numbers of `text` from index `from` on, where `text` holds nothing
/// but numbers and whitespace: each number is the longest run of digits.
/// The first other character is unexpected.
pub open spec fn numbers_from(text: Seq<Classified>, from: int) -> Result<
    Seq<TokenView>,
    LexErrorView,
>
    decreases text.len() - from,
{
    let at = run_end(text, from, CharClass::Whitespace);
    if 0 <= from && at < text.len() {
        let end = if is_decimal_digit(text[at].value) {
            run_end(text, at + 1, CharClass::Digit)
        } else {
            at + 1
        };
        let span = SpanView {
            start: byte_offset(values(text), at),
            end: byte_offset(values(text), end),
        };
        proof {
            lemma_run_end(text, from, CharClass::Whitespace);
            lemma_run_end(text, at + 1, CharClass::Digit);
        }
        if is_decimal_digit(text[at].value) {
            match numbers_from(text, end) {
                Err(e) => Err(e),
                Ok(rest) => Ok(
                    seq![
                        TokenView {
                            kind: TokenKindView::Number(
                                decimal_value(values(text).subrange(at, end)) as int,
                            ),
                            span,
                        },
                    ] + rest,
                ),
            }
        } else {
            Err(LexErrorView { kind: LexErrorKind::UnexpectedCharacter, span })
        }
    } else {
        Ok(Seq::empty())
    }
}

/// Tokenizes a source that holds nothing but numbers and whitespace: the
/// numbers in order, each with its byte span and with `context`, or the
/// first character that is neither a digit nor whitespace.
pub fn lexer_new<'s>(source: &'s str, context: &SpanContext) -> (result: Result<
    Vec<Spanned<TokenKind<'s>>>,
    LexError,
>)
    ensures
        numbers_view(result) == numbers_from(classified_text(source@), 0),
        result matches Ok(tokens) ==> forall|i: int|
            0 <= i < tokens.len() ==> (#[trigger] tokens[i]).0.context@ == context@,
{
    let chars = classify_text(source);
    let total = source.as_bytes().len();
    assert(byte_offset(source@, chars.len() as int) == total) by {
        assert(source@.take(chars.len() as int) =~= source@);
    }
    let mut tokens: Vec<Spanned<TokenKind<'s>>> = Vec::new();
    let mut from: usize = 0;
    let mut from_byte: usize = 0;
    loop
        invariant
            values(chars@) == source@,
            from <= chars.len(),
            from_byte == byte_offset(source@, from as int),
            byte_offset(source@, chars.len() as int) <= usize::MAX,
            chars@ == classified_text(source@),
            numbers_from(chars@, 0) == followed_by(
                spanned_views(tokens@),
                numbers_from(chars@, from as int),
            ),
            forall|i: int| 0 <= i < tokens.len() ==> (#[trigger] tokens[i]).0.context@ == context@,
        decreases chars.len() - from,
    {
        let (at, at_byte) = read_run(chars.as_slice(), from, from_byte, CharClass::Whitespace);
        if at >= chars.len() {
            return Ok(tokens);
        }
        proof {
            lemma_byte_offset_step(source@, at as int);
        }
        let next_byte = at_byte + width(chars[at].value);
        if !CharClass::Digit.contains(chars[at]) {
            return Err(
                LexError {
                    kind: LexErrorKind::UnexpectedCharacter,
                    span: Span { start: at_byte, end: next_byte },
                },
            );
        }
        let (end, end_byte) = read_run(chars.as_slice(), at + 1, next_byte, CharClass::Digit);
        let digits = slice(source, Ghost(at as int), Ghost(end as int), at_byte, end_byte);
        proof {
            lemma_run_end(chars@, at + 1, CharClass::Digit);
        }
        let ghost before = spanned_views(tokens@);
        let token = (
            ContextSpan { start: at_byte, end: end_byte, context: context.clone() },
            TokenKind::Number(parse(digits)),
        );
        let ghost view = TokenView {
            kind: token.1@,
            span: SpanView { start: at_byte as nat, end: end_byte as nat },
        };
        tokens.push(token);
        proof {
            assert(spanned_views(tokens@) =~= before.push(view));
            if let Ok(more) = numbers_from(chars@, end as int) {
                assert(before + (seq![view] + more) =~= before.push(view) + more);
            }
        }
        from = end;
        from_byte = end_byte;
    }
}

} // verus!
