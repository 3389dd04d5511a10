//! The syntax tree, and the parser that builds it from token kinds.
//!
//! The parser is an operator-precedence (Pratt) parser: it reads an
//! application, then joins to it every operator that binds tightly enough,
//! reading each right operand with the next tighter bound. Its contracts say
//! that what it builds is what [`crate::grammar`] defines level by level.

use crate::grammar::{
    field_index, infix, join_levels, lemma_atom_advances, lemma_join_skips, lemma_join_step,
    lemma_level_ends, lemma_level_joins, operator_at, parse_all, parse_application,
    parse_arguments, parse_atom, parse_expression, parse_fields, parse_level, parse_line,
    precedence, put_field, starts_atom, Expected, ParseErrorView, Parsed, LEVELS,
};
use crate::integer::Int;
use crate::lexer::{kind_views, TokenKind};
use crate::text::same_text;
use vstd::prelude::*;

verus! {

/// One line of input: an expression, or a name bound to one.
#[derive(Debug, PartialEq)]
pub enum Ast {
    Expr(Expr),
    Binding { lhs: Identifier, rhs: Expr },
}

/// An expression. A call has one argument; a call with more is a call of a
/// call. A product lists its fields in order; the parser lists each name
/// once, in the order the names first occur, and where a product names a
/// field twice all the same, the later one counts.
#[derive(Debug, PartialEq)]
pub enum Expr {
    Literal(Literal),
    FunctionCall(FunctionCall),
    Identifier(Identifier),
    Product(Vec<(String, Expr)>),
    Lambda(Lambda),
}

/// A value written out in the source.
#[derive(Debug, PartialEq)]
pub enum Literal {
    Integer(Int),
    String(String),
    Boolean(bool),
}

/// A function applied to one argument.
#[derive(Debug, PartialEq)]
pub struct FunctionCall {
    pub function: Box<Expr>,
    pub argument: Box<Expr>,
}

/// A name.
#[derive(Debug, PartialEq)]
pub struct Identifier {
    pub name: String,
}

/// A function of one parameter.
#[derive(Debug, PartialEq)]
pub struct Lambda {
    pub from: Identifier,
    pub to: Box<Expr>,
}

/// The mathematical content of a [`Literal`].
pub enum LiteralView {
    Integer(int),
    String(Seq<char>),
    Boolean(bool),
}

/// The mathematical content of an [`Expr`].
pub enum ExprView {
    Literal(LiteralView),
    FunctionCall { function: Box<ExprView>, argument: Box<ExprView> },
    Identifier(Seq<char>),
    Product(Seq<(Seq<char>, ExprView)>),
    Lambda { from: Seq<char>, to: Box<ExprView> },
}

/// The mathematical content of an [`Ast`].
pub enum AstView {
    Expr(ExprView),
    Binding { lhs: Seq<char>, rhs: ExprView },
}

impl View for Literal {
    type V = LiteralView;

    open spec fn view(&self) -> LiteralView {
        match *self {
            Literal::Integer(n) => LiteralView::Integer(n@),
            Literal::String(s) => LiteralView::String(s@),
            Literal::Boolean(b) => LiteralView::Boolean(b),
        }
    }
}

/// The mathematical content of the fields of a product.
pub open spec fn fields_view(fields: Seq<(String, Expr)>) -> Seq<(Seq<char>, ExprView)>
    decreases fields,
{
    Seq::new(
        fields.len(),
        |i: int|
            if 0 <= i < fields.len() {
                (fields[i].0@, fields[i].1.view())
            } else {
                arbitrary()
            },
    )
}

impl Expr {
    /// The mathematical content of the expression.
    pub open spec fn view(&self) -> ExprView
        decreases self,
    {
        match *self {
            Expr::Literal(literal) => ExprView::Literal(literal@),
            Expr::FunctionCall(call) => ExprView::FunctionCall {
                function: Box::new(call.function.view()),
                argument: Box::new(call.argument.view()),
            },
            Expr::Identifier(identifier) => ExprView::Identifier(identifier.name@),
            Expr::Product(fields) => ExprView::Product(fields_view(fields@)),
            Expr::Lambda(lambda) => ExprView::Lambda {
                from: lambda.from.name@,
                to: Box::new(lambda.to.view()),
            },
        }
    }
}

impl Clone for Literal {
    fn clone(&self) -> (copy: Self)
        ensures
            copy@ == self@,
    {
        match self {
            Literal::Integer(n) => Literal::Integer(n.clone()),
            Literal::String(s) => Literal::String(s.clone()),
            Literal::Boolean(b) => Literal::Boolean(*b),
        }
    }
}

impl Clone for Expr {
    fn clone(&self) -> (copy: Self)
        ensures
            copy@ == self@,
        decreases self,
    {
        match self {
            Expr::Literal(literal) => Expr::Literal(literal.clone()),
            Expr::FunctionCall(call) => Expr::FunctionCall(
                FunctionCall {
                    function: Box::new((&*call.function).clone()),
                    argument: Box::new((&*call.argument).clone()),
                },
            ),
            Expr::Identifier(identifier) => Expr::Identifier(
                Identifier { name: identifier.name.clone() },
            ),
            Expr::Product(fields) => {
                let mut copies: Vec<(String, Expr)> = Vec::new();
                let mut i: usize = 0;
                while i < fields.len()
                    invariant
                        *self == Expr::Product(*fields),
                        i <= fields.len(),
                        copies.len() == i,
                        forall|k: int|
                            0 <= k < i ==> copies[k].0@ == fields[k].0@ && copies[k].1@
                                == fields[k].1@,
                    decreases fields.len() - i,
                {
                    let name = fields[i].0.clone();
                    proof {
                        assert(*self matches Expr::Product(v) && v == *fields);
                    }
                    let value = fields[i].1.clone();
                    copies.push((name, value));
                    i = i + 1;
                }
                assert(fields_view(copies@) =~= fields_view(fields@));
                Expr::Product(copies)
            },
            Expr::Lambda(lambda) => Expr::Lambda(
                Lambda {
                    from: Identifier { name: lambda.from.name.clone() },
                    to: Box::new((&*lambda.to).clone()),
                },
            ),
        }
    }
}

impl Ast {
    /// The mathematical content of the line.
    pub open spec fn view(&self) -> AstView {
        match *self {
            Ast::Expr(expr) => AstView::Expr(expr@),
            Ast::Binding { lhs, rhs } => AstView::Binding { lhs: lhs.name@, rhs: rhs@ },
        }
    }
}

/// A failure to parse: the index of the offending token, which is the
/// number of tokens where the input ended too early, and what was expected
/// there.
#[derive(Debug, Clone, Copy, PartialEq, Eq)]
pub struct ParseError {
    pub position: usize,
    pub expected: Expected,
}

impl View for ParseError {
    type V = ParseErrorView;

    open spec fn view(&self) -> ParseErrorView {
        ParseErrorView { position: self.position as nat, expected: self.expected }
    }
}

/// The contents of an expression read up to a position, or of a failure.
pub open spec fn parsed_view(result: Result<(Expr, usize), ParseError>) -> Parsed {
    match result {
        Ok((expr, end)) => Ok((expr@, end as int)),
        Err(e) => Err(e@),
    }
}

/// The contents of what [`expression_parser`] returns.
pub open spec fn expression_view(result: Result<Expr, ParseError>) -> Result<
    ExprView,
    ParseErrorView,
> {
    match result {
        Ok(expr) => Ok(expr@),
        Err(e) => Err(e@),
    }
}

/// The contents of what [`ast_parser`] returns.
pub open spec fn line_view(result: Result<Ast, ParseError>) -> Result<AstView, ParseErrorView> {
    match result {
        Ok(ast) => Ok(ast@),
        Err(e) => Err(e@),
    }
}

/// How tightly the operator `symbol` binds.
fn operator_level(symbol: &str) -> (level: u8)
    ensures
        level == precedence(symbol@),
        level < LEVELS,
{
    if same_text(symbol, "$") {
        0
    } else if same_text(symbol, "+") || same_text(symbol, "-") {
        1
    } else {
        2
    }
}

/// Sets the field `name` to `value`: in place where the fields hold one of
/// that name already, at the end otherwise.
fn set_field(fields: &mut Vec<(String, Expr)>, name: String, value: Expr)
    ensures
        fields_view(final(fields)@) == put_field(fields_view(old(fields)@), name@, value@),
{
    let ghost before = fields_view(fields@);
    let mut i: usize = 0;
    while i < fields.len() && !same_text(fields[i].0.as_str(), name.as_str())
        invariant
            i <= fields.len(),
            before == fields_view(fields@),
            field_index(before, name@, 0) == field_index(before, name@, i as int),
        decreases fields.len() - i,
    {
        i = i + 1;
    }
    if i < fields.len() {
        fields.set(i, (name, value));
    } else {
        fields.push((name, value));
    }
}

/// Reads the atom that starts at `pos`.
fn read_atom(tokens: &[TokenKind], pos: usize) -> (result: Result<(Expr, usize), ParseError>)
    requires
        pos <= tokens.len(),
    ensures
        parsed_view(result) == parse_atom(kind_views(tokens@), pos as int),
        result matches Ok((_, end)) ==> pos < end <= tokens.len(),
    decreases tokens.len() - pos, 1nat,
{
    proof {
        lemma_atom_advances(kind_views(tokens@), pos as int);
    }
    if pos >= tokens.len() {
        return Err(ParseError { position: pos, expected: Expected::Atom });
    }
    match &tokens[pos] {
        TokenKind::Number(n) => Ok((Expr::Literal(Literal::Integer(n.clone())), pos + 1)),
        TokenKind::String(s) => Ok((Expr::Literal(Literal::String((*s).to_owned())), pos + 1)),
        TokenKind::Ident(name) => {
            if same_text(name, "true") {
                Ok((Expr::Literal(Literal::Boolean(true)), pos + 1))
            } else if same_text(name, "false") {
                Ok((Expr::Literal(Literal::Boolean(false)), pos + 1))
            } else if pos + 1 < tokens.len() && matches!(tokens[pos + 1], TokenKind::Arrow) {
                match read_infix(tokens, pos + 2, 0) {
                    Err(e) => Err(e),
                    Ok((body, end)) => Ok(
                        (
                            Expr::Lambda(
                                Lambda {
                                    from: Identifier { name: (*name).to_owned() },
                                    to: Box::new(body),
                                },
                            ),
                            end,
                        ),
                    ),
                }
            } else {
                Ok((Expr::Identifier(Identifier { name: (*name).to_owned() }), pos + 1))
            }
        },
        TokenKind::LeftCurly => {
            if pos + 1 < tokens.len() && matches!(tokens[pos + 1], TokenKind::RightCurly) {
                let fields: Vec<(String, Expr)> = Vec::new();
                assert(fields_view(fields@) =~= Seq::empty());
                Ok((Expr::Product(fields), pos + 2))
            } else {
                read_fields(tokens, pos + 1)
            }
        },
        TokenKind::LeftParenthesis => match read_infix(tokens, pos + 1, 0) {
            Err(e) => Err(e),
            Ok((inner, end)) => {
                if end < tokens.len() && matches!(tokens[end], TokenKind::RightParenthesis) {
                    Ok((inner, end + 1))
                } else {
                    Err(ParseError { position: end, expected: Expected::RightParenthesis })
                }
            },
        },
        _ => Err(ParseError { position: pos, expected: Expected::Atom }),
    }
}

/// Reads the fields of a product, the first of which starts at `pos`, up to
/// the `}` that ends it.
fn read_fields(tokens: &[TokenKind], pos: usize) -> (result: Result<(Expr, usize), ParseError>)
    requires
        pos <= tokens.len(),
    ensures
        parsed_view(result) == parse_fields(kind_views(tokens@), pos as int, Seq::empty()),
        result matches Ok((_, end)) ==> pos < end <= tokens.len(),
    decreases tokens.len() - pos, 0nat,
{
    let mut fields: Vec<(String, Expr)> = Vec::new();
    let mut at = pos;
    assert(fields_view(fields@) =~= Seq::empty());
    loop
        invariant
            pos <= at <= tokens.len(),
            parse_fields(kind_views(tokens@), pos as int, Seq::empty()) == parse_fields(
                kind_views(tokens@),
                at as int,
                fields_view(fields@),
            ),
        decreases tokens.len() - at,
    {
        if at >= tokens.len() {
            return Err(ParseError { position: at, expected: Expected::FieldName });
        }
        let name: &str = match &tokens[at] {
            TokenKind::Ident(name) => *name,
            _ => {
                return Err(ParseError { position: at, expected: Expected::FieldName });
            },
        };
        if !(at + 1 < tokens.len() && matches!(tokens[at + 1], TokenKind::Colon)) {
            return Err(ParseError { position: at + 1, expected: Expected::Colon });
        }
        let (value, end) = match read_infix(tokens, at + 2, 0) {
            Err(e) => {
                return Err(e);
            },
            Ok(read) => read,
        };
        set_field(&mut fields, name.to_owned(), value);
        if end < tokens.len() && matches!(tokens[end], TokenKind::Comma) {
            at = end + 1;
        } else if end < tokens.len() && matches!(tokens[end], TokenKind::RightCurly) {
            return Ok((Expr::Product(fields), end + 1));
        } else {
            return Err(ParseError { position: end, expected: Expected::CommaOrRightCurly });
        }
    }
}

/// Whether an atom can start with `token`.
fn can_start_atom(token: &TokenKind) -> (r: bool)
    ensures
        r == starts_atom(token@),
{
    match token {
        TokenKind::Number(_) => true,
        TokenKind::String(_) => true,
        TokenKind::Ident(_) => true,
        TokenKind::LeftCurly => true,
        TokenKind::LeftParenthesis => true,
        _ => false,
    }
}

/// Reads the application that starts at `pos`.
fn read_application(tokens: &[TokenKind], pos: usize) -> (result: Result<
    (Expr, usize),
    ParseError,
>)
    requires
        pos <= tokens.len(),
    ensures
        parsed_view(result) == parse_application(kind_views(tokens@), pos as int),
        result matches Ok((_, end)) ==> pos < end <= tokens.len(),
    decreases tokens.len() - pos, 2nat,
{
    let (mut function, mut at) = match read_atom(tokens, pos) {
        Err(e) => {
            return Err(e);
        },
        Ok(read) => read,
    };
    while at < tokens.len() && can_start_atom(&tokens[at])
        invariant
            pos < at <= tokens.len(),
            parse_application(kind_views(tokens@), pos as int) == parse_arguments(
                kind_views(tokens@),
                function@,
                at as int,
            ),
        decreases tokens.len() - at,
    {
        let (argument, end) = match read_atom(tokens, at) {
            Err(e) => {
                return Err(e);
            },
            Ok(read) => read,
        };
        function = Expr::FunctionCall(
            FunctionCall { function: Box::new(function), argument: Box::new(argument) },
        );
        at = end;
    }
    Ok((function, at))
}

/// Reads the expression that starts at `pos`, joining to it the operators
/// that bind at level `floor` or tighter.
fn read_infix(tokens: &[TokenKind], pos: usize, floor: u8) -> (result: Result<
    (Expr, usize),
    ParseError,
>)
    requires
        pos <= tokens.len(),
        floor <= LEVELS,
    ensures
        parsed_view(result) == parse_level(kind_views(tokens@), pos as int, floor as nat),
        result matches Ok((_, end)) ==> pos < end <= tokens.len(),
    decreases tokens.len() - pos, 3nat,
{
    let ghost kinds = kind_views(tokens@);
    let (mut left, mut at) = match read_application(tokens, pos) {
        Err(e) => {
            proof {
                lemma_level_joins(kinds, pos as int, floor as nat);
            }
            return Err(e);
        },
        Ok(read) => read,
    };
    let ghost mut ceiling: nat = LEVELS as nat;
    proof {
        lemma_level_joins(kinds, pos as int, floor as nat);
    }
    loop
        invariant
            kinds == kind_views(tokens@),
            pos < at <= tokens.len(),
            floor <= ceiling <= LEVELS,
            parse_level(kinds, pos as int, floor as nat) == join_levels(
                kinds,
                left@,
                at as int,
                floor as nat,
                ceiling,
            ),
            !operator_at(kinds, at as int, ceiling, LEVELS as nat),
        decreases tokens.len() - at,
    {
        if at >= tokens.len() {
            proof {
                lemma_join_skips(kinds, left@, at as int, floor as nat, floor as nat, ceiling);
            }
            return Ok((left, at));
        }
        let symbol: &str = match &tokens[at] {
            TokenKind::Symbol(symbol) => *symbol,
            _ => {
                proof {
                    lemma_join_skips(kinds, left@, at as int, floor as nat, floor as nat, ceiling);
                }
                return Ok((left, at));
            },
        };
        let level = operator_level(symbol);
        if level < floor {
            proof {
                lemma_join_skips(kinds, left@, at as int, floor as nat, floor as nat, ceiling);
            }
            return Ok((left, at));
        }
        proof {
            lemma_join_step(kinds, left@, at as int, floor as nat, ceiling);
            lemma_level_ends(kinds, at + 1, (level + 1) as nat);
        }
        let (right, end) = match read_infix(tokens, at + 1, level + 1) {
            Err(e) => {
                return Err(e);
            },
            Ok(read) => read,
        };
        let ghost joined = infix(left@, symbol@, right@);
        let operator = Expr::Identifier(Identifier { name: symbol.to_owned() });
        let partial = Expr::FunctionCall(
            FunctionCall { function: Box::new(operator), argument: Box::new(left) },
        );
        left = Expr::FunctionCall(
            FunctionCall { function: Box::new(partial), argument: Box::new(right) },
        );
        proof {
            assert(left@ == joined) by {
                reveal_with_fuel(Expr::view, 3);
            }
            ceiling = (level + 1) as nat;
        }
        at = end;
    }
}

/// Reads the tokens from `from` on as one expression.
fn read_all(tokens: &[TokenKind], from: usize) -> (result: Result<Expr, ParseError>)
    requires
        from <= tokens.len(),
    ensures
        expression_view(result) == parse_all(kind_views(tokens@), from as int),
{
    match read_infix(tokens, from, 0) {
        Err(e) => Err(e),
        Ok((expr, end)) => {
            if end == tokens.len() {
                Ok(expr)
            } else {
                Err(ParseError { position: end, expected: Expected::EndOfInput })
            }
        },
    }
}

/// Parses the tokens, all of them, as one expression.
pub fn expression_parser(tokens: &[TokenKind]) -> (result: Result<Expr, ParseError>)
    ensures
        expression_view(result) == parse_expression(kind_views(tokens@)),
{
    read_all(tokens, 0)
}

/// Parses the tokens, all of them, as one line: a binding where they start
/// with a name and `=`, an expression otherwise.
pub fn ast_parser(tokens: &[TokenKind]) -> (result: Result<Ast, ParseError>)
    ensures
        line_view(result) == parse_line(kind_views(tokens@)),
{
    if tokens.len() >= 2 && matches!(tokens[1], TokenKind::Bind) {
        if let TokenKind::Ident(name) = &tokens[0] {
            return match read_all(tokens, 2) {
                Err(e) => Err(e),
                Ok(rhs) => Ok(Ast::Binding { lhs: Identifier { name: (*name).to_owned() }, rhs }),
            };
        }
    }
    match read_all(tokens, 0) {
        Err(e) => Err(e),
        Ok(expr) => Ok(Ast::Expr(expr)),
    }
}

} // verus!
