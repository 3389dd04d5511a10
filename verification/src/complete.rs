//! One line of a session, from text to the scope for the next line.

use crate::ast::{ast_parser, AstView, ExprView, ParseError};
use crate::eval::{
    eval_within, run, standard_scope, EvalError, EvalErrorView, Object, ObjectView, Scope,
    ScopeView, MAX_DEPTH,
};
use crate::grammar::{parse_line, ParseErrorView};
use crate::lexer::{kinds_of, lexer, token_kinds, tokenize, LexError, LexErrorView};
use vstd::prelude::*;

verus! {

/// Why a line of input gave no value.
#[derive(Debug, PartialEq)]
pub enum LineError {
    /// The text is no run of tokens.
    Lex(LexError),
    /// The tokens are no line of the language.
    Parse(ParseError),
    /// The line has no value.
    Eval(EvalError),
}

/// The mathematical content of a [`LineError`].
pub enum LineErrorView {
    Lex(LexErrorView),
    Parse(ParseErrorView),
    Eval(EvalErrorView),
}

impl LineError {
    /// The mathematical content of the error.
    pub open spec fn view(&self) -> LineErrorView {
        match *self {
            LineError::Lex(e) => LineErrorView::Lex(e@),
            LineError::Parse(e) => LineErrorView::Parse(e@),
            LineError::Eval(e) => LineErrorView::Eval(e@),
        }
    }
}

/// The contents of the value that a line gave, or of the reason it gave none.
pub open spec fn outcome_view(outcome: Result<Object, LineError>) -> Result<
    ObjectView,
    LineErrorView,
> {
    match outcome {
        Ok(object) => Ok(object@),
        Err(e) => Err(e@),
    }
}

/// The scope that a line runs in: the one given, or the standard scope where
/// none is.
pub open spec fn starting_scope(scope: Option<Scope>) -> ScopeView {
    match scope {
        Some(scope) => scope@,
        None => standard_scope(),
    }
}

/// What the line `text` does in `scope`, where calls may nest `depth` deep:
/// the scope for the next line, and the line's value or the reason it has
/// none. The text is tokenized, the kinds of its tokens are parsed as a line,
/// and the line is run. A binding that has a value gives the scope that
/// holds it; anything else gives `scope` back.
pub open spec fn interpret(text: Seq<char>, scope: ScopeView, depth: nat) -> (
    ScopeView,
    Result<ObjectView, LineErrorView>,
) {
    match tokenize(text) {
        Err(e) => (scope, Err(LineErrorView::Lex(e))),
        Ok(tokens) => match parse_line(kinds_of(tokens)) {
            Err(e) => (scope, Err(LineErrorView::Parse(e))),
            Ok(line) => match run(line, scope, depth) {
                (Err(e), _) => (scope, Err(LineErrorView::Eval(e))),
                (Ok(value), None) => (scope, Ok(value)),
                (Ok(value), Some(bound)) => (bound, Ok(value)),
            },
        },
    }
}

/// A line that gives no value leaves the scope as it was, whatever went
/// wrong: the text, the syntax or the evaluation.
pub proof fn lemma_failure_keeps_scope(text: Seq<char>, scope: ScopeView, depth: nat)
    requires
        interpret(text, scope, depth).1 is Err,
    ensures
        interpret(text, scope, depth).0 == scope,
{
}

/// A line that is an expression leaves the scope as it was, whether it has a
/// value or not; only a binding that has a value gives another scope, and
/// that one differs from the old in the bound name alone.
pub proof fn lemma_only_bindings_change_the_scope(text: Seq<char>, scope: ScopeView, depth: nat)
    requires
        tokenize(text) matches Ok(tokens) && parse_line(kinds_of(tokens)) is Ok,
    ensures
        match parse_line(kinds_of(tokenize(text)->Ok_0))->Ok_0 {
            AstView::Expr(_) => interpret(text, scope, depth).0 == scope,
            AstView::Binding { lhs, rhs } => match interpret(text, scope, depth).1 {
                Ok(value) => interpret(text, scope, depth).0 == scope.bind(lhs, value),
                Err(_) => interpret(text, scope, depth).0 == scope,
            },
        },
{
}

/// A line that is a name which the scope does not bind gives the error that
/// names it, and the scope as it was.
pub proof fn lemma_unbound_name_is_reported(
    text: Seq<char>,
    name: Seq<char>,
    scope: ScopeView,
    depth: nat,
)
    requires
        tokenize(text) matches Ok(tokens) && parse_line(kinds_of(tokens)) == Ok::<
            AstView,
            ParseErrorView,
        >(AstView::Expr(ExprView::Identifier(name))),
        scope.lookup(name) is None,
    ensures
        interpret(text, scope, depth) == (
            scope,
            Err::<ObjectView, LineErrorView>(
                LineErrorView::Eval(EvalErrorView::UnboundIdentifier(name)),
            ),
        ),
{
}

/// Runs the line `input` in `scope`, or in the standard scope where none is
/// given, with calls nested at most `depth` deep. Gives the scope for the
/// next line, and the line's value or the reason it has none.
pub fn evaluate_line_within(input: &str, scope: Option<Scope>, depth: usize) -> (result: (
    Scope,
    Result<Object, LineError>,
))
    ensures
        result.0@ == interpret(input@, starting_scope(scope), depth as nat).0,
        outcome_view(result.1) == interpret(input@, starting_scope(scope), depth as nat).1,
{
    let scope = match scope {
        Some(scope) => scope,
        None => Scope::standard(),
    };
    let tokens = match lexer(input) {
        Err(e) => {
            return (scope, Err(LineError::Lex(e)));
        },
        Ok(tokens) => tokens,
    };
    let kinds = token_kinds(tokens);
    let line = match ast_parser(kinds.as_slice()) {
        Err(e) => {
            return (scope, Err(LineError::Parse(e)));
        },
        Ok(line) => line,
    };
    match eval_within(&line, &scope, depth) {
        (Err(e), _) => (scope, Err(LineError::Eval(e))),
        (Ok(value), None) => (scope, Ok(value)),
        (Ok(value), Some(bound)) => (bound, Ok(value)),
    }
}

/// Runs the line `input` in `scope`, or in the standard scope where none is
/// given. Gives the scope for the next line, and the line's value or the
/// reason it has none.
pub fn evaluate_line(input: &str, scope: Option<Scope>) -> (result: (
    Scope,
    Result<Object, LineError>,
))
    ensures
        result.0@ == interpret(input@, starting_scope(scope), MAX_DEPTH as nat).0,
        outcome_view(result.1) == interpret(input@, starting_scope(scope), MAX_DEPTH as nat).1,
{
    evaluate_line_within(input, scope, MAX_DEPTH)
}

/// Runs the line `input` in `scope`, or in the standard scope where none is
/// given, and gives the scope for the next line: the one that holds the new
/// binding where the line is a binding that has a value, `scope` otherwise.
pub fn complete(input: &str, scope: Option<Scope>) -> (next: Scope)
    ensures
        next@ == interpret(input@, starting_scope(scope), MAX_DEPTH as nat).0,
{
    evaluate_line(input, scope).0
}

} // verus!
