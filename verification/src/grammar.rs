//! The grammar of the language, as functions from token kinds to syntax.
//!
//! From loosest to tightest:
//!
//! ```text
//! line        := ident '=' expr | expr
//! expr        := level(0)
//! level(0)    := level(1) ( '$' level(1) )*
//! level(1)    := level(2) ( ('+' | '-') level(2) )*
//! level(2)    := application ( symbol application )*      any other symbol
//! application := atom atom*
//! atom        := number | string | 'true' | 'false'
//!              | '{' ( ident ':' expr ( ',' ident ':' expr )* )? '}'
//!              | ident '=>' expr
//!              | ident
//!              | '(' expr ')'
//! ```
//!
//! Every repetition groups to the left: `a b c` is `(a b) c` and `a + b + c`
//! is `(a + b) + c`. An infix `a op b` is the call `(op a) b` of the operator,
//! read as a name. A position is an index into the token kinds.
//!
//! A definition that goes on from where a part ended asks first that the part
//! ended past its start and inside the input. It always did, as the lemmas on
//! advancing show; asking is what lets the definitions be seen to end.

use crate::ast::{AstView, ExprView, LiteralView};
use crate::lexer::TokenKindView;
use vstd::prelude::*;

verus! {

/// What the parser wanted to see where it stopped.
#[derive(Debug, Clone, Copy, PartialEq, Eq)]
pub enum Expected {
    /// The start of an atom: a literal, a name, `{` or `(`.
    Atom,
    /// The name of a field.
    FieldName,
    /// The `:` between a field's name and its value.
    Colon,
    /// The `,` before another field, or the `}` that ends the product.
    CommaOrRightCurly,
    /// The `)` that closes a group.
    RightParenthesis,
    /// Nothing more.
    EndOfInput,
}

/// A failure to parse, in mathematical terms: the index of the offending
/// token, which is the number of tokens where the input ended too early, and
/// what was expected there.
pub struct ParseErrorView {
    pub position: nat,
    pub expected: Expected,
}

/// An expression and the position after it, or a failure.
pub type Parsed = Result<(ExprView, int), ParseErrorView>;

/// The number of binding levels of infix operators; application binds at
/// this level, tighter than all of them.
pub const LEVELS: u8 = 3;

/// How tightly the operator `symbol` binds: `$` loosest, then `+` and `-`,
/// then every other symbol.
pub open spec fn precedence(symbol: Seq<char>) -> nat {
    if symbol == "$"@ {
        0
    } else if symbol == "+"@ || symbol == "-"@ {
        1
    } else {
        2
    }
}

/// The expression that `left op right` stands for: the operator, as a name,
/// called on the left operand, and the result called on the right one.
pub open spec fn infix(left: ExprView, symbol: Seq<char>, right: ExprView) -> ExprView {
    ExprView::FunctionCall {
        function: Box::new(
            ExprView::FunctionCall {
                function: Box::new(ExprView::Identifier(symbol)),
                argument: Box::new(left),
            },
        ),
        argument: Box::new(right),
    }
}

/// The call of `function` on `argument`.
pub open spec fn call(function: ExprView, argument: ExprView) -> ExprView {
    ExprView::FunctionCall { function: Box::new(function), argument: Box::new(argument) }
}

/// The index of the first field of `fields` that is called `name`, from
/// `from` on; the number of fields if there is none.
pub open spec fn field_index(fields: Seq<(Seq<char>, ExprView)>, name: Seq<char>, from: int) -> int
    decreases fields.len() - from,
{
    if 0 <= from < fields.len() && fields[from].0 != name {
        field_index(fields, name, from + 1)
    } else {
        from
    }
}

/// The fields with `name` set to `value`: in place where a field of that
/// name is there already, at the end otherwise.
pub open spec fn put_field(
    fields: Seq<(Seq<char>, ExprView)>,
    name: Seq<char>,
    value: ExprView,
) -> Seq<(Seq<char>, ExprView)> {
    let i = field_index(fields, name, 0);
    if i < fields.len() {
        fields.update(i, (name, value))
    } else {
        fields.push((name, value))
    }
}

/// Whether an atom can start with `token`.
pub open spec fn starts_atom(token: TokenKindView) -> bool {
    ||| token is Number
    ||| token is String
    ||| token is Ident
    ||| token is LeftCurly
    ||| token is LeftParenthesis
}

/// A failure at `position`.
pub open spec fn failure(position: int, expected: Expected) -> Parsed {
    Err(ParseErrorView { position: position as nat, expected })
}

/// The atom that starts at `pos`.
pub open spec fn parse_atom(tokens: Seq<TokenKindView>, pos: int) -> Parsed
    decreases tokens.len() - pos, 1nat,
{
    if 0 <= pos < tokens.len() {
        match tokens[pos] {
            TokenKindView::Number(n) => Ok((ExprView::Literal(LiteralView::Integer(n)), pos + 1)),
            TokenKindView::String(s) => Ok((ExprView::Literal(LiteralView::String(s)), pos + 1)),
            TokenKindView::Ident(name) => {
                if name == "true"@ {
                    Ok((ExprView::Literal(LiteralView::Boolean(true)), pos + 1))
                } else if name == "false"@ {
                    Ok((ExprView::Literal(LiteralView::Boolean(false)), pos + 1))
                } else if pos + 1 < tokens.len() && tokens[pos + 1] is Arrow {
                    match parse_level(tokens, pos + 2, 0) {
                        Err(e) => Err(e),
                        Ok((body, end)) => Ok(
                            (ExprView::Lambda { from: name, to: Box::new(body) }, end),
                        ),
                    }
                } else {
                    Ok((ExprView::Identifier(name), pos + 1))
                }
            },
            TokenKindView::LeftCurly => {
                if pos + 1 < tokens.len() && tokens[pos + 1] is RightCurly {
                    Ok((ExprView::Product(Seq::empty()), pos + 2))
                } else {
                    parse_fields(tokens, pos + 1, Seq::empty())
                }
            },
            TokenKindView::LeftParenthesis => match parse_level(tokens, pos + 1, 0) {
                Err(e) => Err(e),
                Ok((inner, end)) => {
                    if 0 <= end < tokens.len() && tokens[end] is RightParenthesis {
                        Ok((inner, end + 1))
                    } else {
                        failure(end, Expected::RightParenthesis)
                    }
                },
            },
            _ => failure(pos, Expected::Atom),
        }
    } else {
        failure(pos, Expected::Atom)
    }
}

/// The rest of a product whose fields so far are `fields`, where the next
/// field starts at `pos`.
pub open spec fn parse_fields(
    tokens: Seq<TokenKindView>,
    pos: int,
    fields: Seq<(Seq<char>, ExprView)>,
) -> Parsed
    decreases tokens.len() - pos, 0nat,
{
    if 0 <= pos < tokens.len() && tokens[pos] is Ident {
        if pos + 1 < tokens.len() && tokens[pos + 1] is Colon {
            match parse_level(tokens, pos + 2, 0) {
                Err(e) => Err(e),
                Ok((value, end)) => {
                    let fields = put_field(fields, tokens[pos]->Ident_0, value);
                    if pos < end < tokens.len() && tokens[end] is Comma {
                        parse_fields(tokens, end + 1, fields)
                    } else if 0 <= end < tokens.len() && tokens[end] is RightCurly {
                        Ok((ExprView::Product(fields), end + 1))
                    } else {
                        failure(end, Expected::CommaOrRightCurly)
                    }
                },
            }
        } else {
            failure(pos + 1, Expected::Colon)
        }
    } else {
        failure(pos, Expected::FieldName)
    }
}

/// The application that starts at `pos`: an atom, called on each atom that
/// follows it in turn.
pub open spec fn parse_application(tokens: Seq<TokenKindView>, pos: int) -> Parsed
    decreases tokens.len() - pos, 2nat,
{
    match parse_atom(tokens, pos) {
        Err(e) => Err(e),
        Ok((function, end)) => {
            if pos < end <= tokens.len() {
                parse_arguments(tokens, function, end)
            } else {
                Ok((function, end))
            }
        },
    }
}

/// The application of `function` to the atoms from `pos` on.
pub open spec fn parse_arguments(tokens: Seq<TokenKindView>, function: ExprView, pos: int) -> Parsed
    decreases tokens.len() - pos, 2nat,
{
    if 0 <= pos < tokens.len() && starts_atom(tokens[pos]) {
        match parse_atom(tokens, pos) {
            Err(e) => Err(e),
            Ok((argument, end)) => {
                if pos < end <= tokens.len() {
                    parse_arguments(tokens, call(function, argument), end)
                } else {
                    Ok((call(function, argument), end))
                }
            },
        }
    } else {
        Ok((function, pos))
    }
}

/// How far from an atom the definition of an expression of level `level`
/// stands; the definitions are seen to end because each refers to one that
/// stands nearer, or to one that starts later in the input.
pub open spec fn rank(level: nat) -> nat {
    if level >= LEVELS {
        3
    } else {
        (3 + LEVELS - level) as nat
    }
}

/// The expression of binding level `level` that starts at `pos`: operands of
/// the next tighter level, joined from the left by operators of this level.
/// At level [`LEVELS`] it is an application.
pub open spec fn parse_level(tokens: Seq<TokenKindView>, pos: int, level: nat) -> Parsed
    decreases tokens.len() - pos, rank(level),
{
    if level >= LEVELS {
        parse_application(tokens, pos)
    } else {
        match parse_level(tokens, pos, level + 1) {
            Err(e) => Err(e),
            Ok((left, end)) => {
                if pos < end <= tokens.len() {
                    parse_operators(tokens, left, end, level)
                } else {
                    Ok((left, end))
                }
            },
        }
    }
}

/// The expression that `left` becomes when the operators of level `level`
/// from `pos` on, each with its right operand, are joined to it in turn.
pub open spec fn parse_operators(
    tokens: Seq<TokenKindView>,
    left: ExprView,
    pos: int,
    level: nat,
) -> Parsed
    decreases tokens.len() - pos, 0nat,
{
    if 0 <= pos < tokens.len() && tokens[pos] is Symbol && precedence(tokens[pos]->Symbol_0)
        == level {
        match parse_level(tokens, pos + 1, level + 1) {
            Err(e) => Err(e),
            Ok((right, end)) => {
                let joined = infix(left, tokens[pos]->Symbol_0, right);
                if pos < end <= tokens.len() {
                    parse_operators(tokens, joined, end, level)
                } else {
                    Ok((joined, end))
                }
            },
        }
    } else {
        Ok((left, pos))
    }
}

/// The expression that the tokens from `from` on are, all of them.
pub open spec fn parse_all(tokens: Seq<TokenKindView>, from: int) -> Result<
    ExprView,
    ParseErrorView,
> {
    match parse_level(tokens, from, 0) {
        Err(e) => Err(e),
        Ok((expr, end)) => {
            if end == tokens.len() {
                Ok(expr)
            } else {
                Err(ParseErrorView { position: end as nat, expected: Expected::EndOfInput })
            }
        },
    }
}

/// The expression that the tokens are, all of them.
pub open spec fn parse_expression(tokens: Seq<TokenKindView>) -> Result<ExprView, ParseErrorView> {
    parse_all(tokens, 0)
}

/// Whether the tokens start as a binding does: a name, then `=`.
pub open spec fn starts_binding(tokens: Seq<TokenKindView>) -> bool {
    tokens.len() >= 2 && tokens[0] is Ident && tokens[1] is Bind
}

/// The line that the tokens are, all of them: a binding where they start
/// with a name and `=`, an expression otherwise.
pub open spec fn parse_line(tokens: Seq<TokenKindView>) -> Result<AstView, ParseErrorView> {
    if starts_binding(tokens) {
        match parse_all(tokens, 2) {
            Err(e) => Err(e),
            Ok(rhs) => Ok(AstView::Binding { lhs: tokens[0]->Ident_0, rhs }),
        }
    } else {
        match parse_expression(tokens) {
            Err(e) => Err(e),
            Ok(expr) => Ok(AstView::Expr(expr)),
        }
    }
}

/// Whether an operator of a level from `low` up to, not including, `high`
/// stands at `pos`.
pub open spec fn operator_at(tokens: Seq<TokenKindView>, pos: int, low: nat, high: nat) -> bool {
    &&& 0 <= pos < tokens.len()
    &&& tokens[pos] is Symbol
    &&& low <= precedence(tokens[pos]->Symbol_0) < high
}

/// The expression that `left` becomes when the operators from `pos` on are
/// joined to it level by level, from the level below `ceiling` down to
/// `floor`.
pub open spec fn join_levels(
    tokens: Seq<TokenKindView>,
    left: ExprView,
    pos: int,
    floor: nat,
    ceiling: nat,
) -> Parsed
    decreases ceiling,
{
    if ceiling <= floor {
        Ok((left, pos))
    } else {
        match parse_operators(tokens, left, pos, (ceiling - 1) as nat) {
            Err(e) => Err(e),
            Ok((joined, end)) => join_levels(tokens, joined, end, floor, (ceiling - 1) as nat),
        }
    }
}

/// An atom holds at least one token and ends inside the input.
pub proof fn lemma_atom_advances(tokens: Seq<TokenKindView>, pos: int)
    requires
        0 <= pos,
    ensures
        parse_atom(tokens, pos) matches Ok((_, end)) ==> pos < end <= tokens.len(),
    decreases tokens.len() - pos, 1nat,
{
    if pos < tokens.len() {
        match tokens[pos] {
            TokenKindView::Ident(name) => {
                if name != "true"@ && name != "false"@ && pos + 1 < tokens.len() && tokens[pos
                    + 1] is Arrow {
                    lemma_level_advances(tokens, pos + 2, 0);
                }
            },
            TokenKindView::LeftCurly => {
                if !(pos + 1 < tokens.len() && tokens[pos + 1] is RightCurly) {
                    lemma_fields_advance(tokens, pos + 1, Seq::empty());
                }
            },
            TokenKindView::LeftParenthesis => {
                lemma_level_advances(tokens, pos + 1, 0);
            },
            _ => {},
        }
    }
}

/// The rest of a product ends after where it starts, inside the input.
pub proof fn lemma_fields_advance(
    tokens: Seq<TokenKindView>,
    pos: int,
    fields: Seq<(Seq<char>, ExprView)>,
)
    requires
        0 <= pos,
    ensures
        parse_fields(tokens, pos, fields) matches Ok((_, end)) ==> pos < end <= tokens.len(),
    decreases tokens.len() - pos, 0nat,
{
    if pos < tokens.len() && tokens[pos] is Ident && pos + 1 < tokens.len() && tokens[pos
        + 1] is Colon {
        lemma_level_advances(tokens, pos + 2, 0);
        if let Ok((value, end)) = parse_level(tokens, pos + 2, 0) {
            if end < tokens.len() && tokens[end] is Comma {
                lemma_fields_advance(
                    tokens,
                    end + 1,
                    put_field(fields, tokens[pos]->Ident_0, value),
                );
            }
        }
    }
}

/// An application holds at least one token and ends inside the input.
pub proof fn lemma_application_advances(tokens: Seq<TokenKindView>, pos: int)
    requires
        0 <= pos,
    ensures
        parse_application(tokens, pos) matches Ok((_, end)) ==> pos < end <= tokens.len(),
    decreases tokens.len() - pos, 2nat, 1nat,
{
    lemma_atom_advances(tokens, pos);
    if let Ok((function, end)) = parse_atom(tokens, pos) {
        lemma_arguments_advance(tokens, function, end);
    }
}

/// Arguments end at or after where they start, inside the input.
pub proof fn lemma_arguments_advance(tokens: Seq<TokenKindView>, function: ExprView, pos: int)
    requires
        0 <= pos <= tokens.len(),
    ensures
        parse_arguments(tokens, function, pos) matches Ok((_, end)) ==> pos <= end
            <= tokens.len(),
    decreases tokens.len() - pos, 2nat, 0nat,
{
    if pos < tokens.len() && starts_atom(tokens[pos]) {
        lemma_atom_advances(tokens, pos);
        if let Ok((argument, end)) = parse_atom(tokens, pos) {
            lemma_arguments_advance(tokens, call(function, argument), end);
        }
    }
}

/// An expression of any level holds at least one token and ends inside the
/// input.
pub proof fn lemma_level_advances(tokens: Seq<TokenKindView>, pos: int, level: nat)
    requires
        0 <= pos,
    ensures
        parse_level(tokens, pos, level) matches Ok((_, end)) ==> pos < end <= tokens.len(),
    decreases tokens.len() - pos, rank(level), 0nat,
{
    if level >= LEVELS {
        lemma_application_advances(tokens, pos);
    } else {
        lemma_level_advances(tokens, pos, level + 1);
        if let Ok((left, end)) = parse_level(tokens, pos, level + 1) {
            lemma_operators_advance(tokens, left, end, level);
        }
    }
}

/// Operators with their operands end at or after where they start, inside
/// the input.
pub proof fn lemma_operators_advance(
    tokens: Seq<TokenKindView>,
    left: ExprView,
    pos: int,
    level: nat,
)
    requires
        0 <= pos <= tokens.len(),
    ensures
        parse_operators(tokens, left, pos, level) matches Ok((_, end)) ==> pos <= end
            <= tokens.len(),
    decreases tokens.len() - pos, 0nat, 0nat,
{
    if operator_at(tokens, pos, level, level + 1) {
        lemma_level_advances(tokens, pos + 1, level + 1);
        if let Ok((right, end)) = parse_level(tokens, pos + 1, level + 1) {
            lemma_operators_advance(
                tokens,
                infix(left, tokens[pos]->Symbol_0, right),
                end,
                level,
            );
        }
    }
}

/// No operator of level `level` or tighter follows an expression of level
/// `level`: it would have been joined to it.
pub proof fn lemma_level_ends(tokens: Seq<TokenKindView>, pos: int, level: nat)
    requires
        0 <= pos,
    ensures
        parse_level(tokens, pos, level) matches Ok((_, end)) ==> !operator_at(
            tokens,
            end,
            level,
            LEVELS as nat,
        ),
    decreases tokens.len() - pos, rank(level),
{
    if level < LEVELS {
        lemma_level_ends(tokens, pos, level + 1);
        lemma_level_advances(tokens, pos, level + 1);
        if let Ok((left, end)) = parse_level(tokens, pos, level + 1) {
            lemma_operators_end(tokens, left, end, level);
        }
    }
}

/// Where no tighter operator stands at `pos`, none of level `level` or
/// tighter follows the operators of level `level` that are joined from there.
pub proof fn lemma_operators_end(
    tokens: Seq<TokenKindView>,
    left: ExprView,
    pos: int,
    level: nat,
)
    requires
        0 <= pos <= tokens.len(),
        !operator_at(tokens, pos, level + 1, LEVELS as nat),
    ensures
        parse_operators(tokens, left, pos, level) matches Ok((_, end)) ==> !operator_at(
            tokens,
            end,
            level,
            LEVELS as nat,
        ),
    decreases tokens.len() - pos, 0nat,
{
    if operator_at(tokens, pos, level, level + 1) {
        lemma_level_advances(tokens, pos + 1, level + 1);
        lemma_level_ends(tokens, pos + 1, level + 1);
        if let Ok((right, end)) = parse_level(tokens, pos + 1, level + 1) {
            lemma_operators_end(tokens, infix(left, tokens[pos]->Symbol_0, right), end, level);
        }
    }
}

/// Levels at which no operator stands at `pos` join nothing.
pub proof fn lemma_join_skips(
    tokens: Seq<TokenKindView>,
    left: ExprView,
    pos: int,
    floor: nat,
    low: nat,
    ceiling: nat,
)
    requires
        floor <= low <= ceiling,
        !operator_at(tokens, pos, low, ceiling),
    ensures
        join_levels(tokens, left, pos, floor, ceiling) == join_levels(
            tokens,
            left,
            pos,
            floor,
            low,
        ),
    decreases ceiling,
{
    if ceiling > low {
        lemma_join_skips(tokens, left, pos, floor, low, (ceiling - 1) as nat);
    }
}

/// Joining down to `floor` is joining down to the level above it, and then
/// joining the operators of level `floor`.
pub proof fn lemma_join_last(
    tokens: Seq<TokenKindView>,
    left: ExprView,
    pos: int,
    floor: nat,
    ceiling: nat,
)
    requires
        floor < ceiling,
    ensures
        join_levels(tokens, left, pos, floor, ceiling) == match join_levels(
            tokens,
            left,
            pos,
            floor + 1,
            ceiling,
        ) {
            Err(e) => Err(e),
            Ok((joined, end)) => parse_operators(tokens, joined, end, floor),
        },
    decreases ceiling,
{
    if ceiling > floor + 1 {
        if let Ok((joined, end)) = parse_operators(tokens, left, pos, (ceiling - 1) as nat) {
            lemma_join_last(tokens, joined, end, floor, (ceiling - 1) as nat);
        }
    } else {
        if let Ok((joined, end)) = parse_operators(tokens, left, pos, floor) {
            assert(join_levels(tokens, joined, end, floor, floor) == Ok::<_, ParseErrorView>(
                (joined, end),
            ));
        }
        assert(join_levels(tokens, left, pos, floor + 1, ceiling) == Ok::<_, ParseErrorView>(
            (left, pos),
        ));
    }
}

/// An expression of level `level` is an application with the operators after
/// it joined level by level, tightest first.
pub proof fn lemma_level_joins(tokens: Seq<TokenKindView>, pos: int, level: nat)
    requires
        0 <= pos,
        level <= LEVELS,
    ensures
        parse_level(tokens, pos, level) == match parse_application(tokens, pos) {
            Err(e) => Err(e),
            Ok((left, end)) => join_levels(tokens, left, end, level, LEVELS as nat),
        },
    decreases LEVELS - level,
{
    if level < LEVELS {
        lemma_level_joins(tokens, pos, level + 1);
        lemma_level_advances(tokens, pos, level + 1);
        if let Ok((left, end)) = parse_application(tokens, pos) {
            lemma_join_last(tokens, left, end, level, LEVELS as nat);
        }
    }
}

/// Where an operator of level `level` stands at `pos`, joining from a higher
/// level on reads its right operand, joins the two, and goes on from that
/// level.
pub proof fn lemma_join_step(
    tokens: Seq<TokenKindView>,
    left: ExprView,
    pos: int,
    floor: nat,
    ceiling: nat,
)
    requires
        operator_at(tokens, pos, floor, ceiling),
    ensures
        join_levels(tokens, left, pos, floor, ceiling) == match parse_level(
            tokens,
            pos + 1,
            precedence(tokens[pos]->Symbol_0) + 1,
        ) {
            Err(e) => Err(e),
            Ok((right, end)) => join_levels(
                tokens,
                infix(left, tokens[pos]->Symbol_0, right),
                end,
                floor,
                precedence(tokens[pos]->Symbol_0) + 1,
            ),
        },
{
    let level = precedence(tokens[pos]->Symbol_0);
    lemma_join_skips(tokens, left, pos, floor, level + 1, ceiling);
    lemma_level_advances(tokens, pos + 1, level + 1);
}

/// Whether no two of `fields` have the same name.
pub open spec fn distinct_names(fields: Seq<(Seq<char>, ExprView)>) -> bool {
    forall|i: int, j: int|
        0 <= i < j < fields.len() ==> (#[trigger] fields[i]).0 != (#[trigger] fields[j]).0
}

/// Whether every product in `expr` names each of its fields once, so that
/// its fields are a mapping from names to expressions.
pub open spec fn names_fields_once(expr: ExprView) -> bool
    decreases expr,
{
    match expr {
        ExprView::Literal(_) => true,
        ExprView::Identifier(_) => true,
        ExprView::FunctionCall { function, argument } => names_fields_once(*function)
            && names_fields_once(*argument),
        ExprView::Lambda { from, to } => names_fields_once(*to),
        ExprView::Product(fields) => distinct_names(fields) && forall|i: int|
            0 <= i < fields.len() ==> names_fields_once((#[trigger] fields[i]).1),
    }
}

/// Whether `fields` name each field once, and so does every product in
/// their values.
pub open spec fn fields_named_once(fields: Seq<(Seq<char>, ExprView)>) -> bool {
    names_fields_once(ExprView::Product(fields))
}

/// The first index of a name is that of a field of that name, or the number
/// of fields; no field before it has the name.
pub proof fn lemma_field_index(fields: Seq<(Seq<char>, ExprView)>, name: Seq<char>, from: int)
    requires
        0 <= from <= fields.len(),
    ensures
        from <= field_index(fields, name, from) <= fields.len(),
        field_index(fields, name, from) < fields.len() ==> fields[field_index(
            fields,
            name,
            from,
        )].0 == name,
        forall|i: int|
            from <= i < field_index(fields, name, from) ==> (#[trigger] fields[i]).0 != name,
    decreases fields.len() - from,
{
    if from < fields.len() && fields[from].0 != name {
        lemma_field_index(fields, name, from + 1);
    }
}

/// Setting a field keeps each name once, gives the name the value, and
/// leaves the fields of other names as they were.
pub proof fn lemma_put_field(fields: Seq<(Seq<char>, ExprView)>, name: Seq<char>, value: ExprView)
    requires
        fields_named_once(fields),
        names_fields_once(value),
    ensures
        fields_named_once(put_field(fields, name, value)),
        exists|i: int|
            0 <= i < put_field(fields, name, value).len() && put_field(fields, name, value)[i] == (
                name,
                value,
            ),
        forall|i: int|
            0 <= i < fields.len() && fields[i].0 != name ==> put_field(fields, name, value)[i]
                == fields[i],
{
    lemma_field_index(fields, name, 0);
    let at = field_index(fields, name, 0);
    let put = put_field(fields, name, value);
    assert(put[at] == (name, value));
}

/// Every product that the parser builds names each of its fields once.
pub proof fn lemma_parsed_names_fields_once(tokens: Seq<TokenKindView>)
    ensures
        parse_expression(tokens) matches Ok(expr) ==> names_fields_once(expr),
        parse_line(tokens) matches Ok(AstView::Expr(expr)) ==> names_fields_once(expr),
        parse_line(tokens) matches Ok(AstView::Binding { lhs, rhs }) ==> names_fields_once(rhs),
{
    lemma_level_names_once(tokens, 0, 0);
    lemma_level_names_once(tokens, 2, 0);
}

/// The products in an atom name each field once.
proof fn lemma_atom_names_once(tokens: Seq<TokenKindView>, pos: int)
    requires
        0 <= pos,
    ensures
        parse_atom(tokens, pos) matches Ok((expr, _)) ==> names_fields_once(expr),
    decreases tokens.len() - pos, 1nat,
{
    if pos < tokens.len() {
        match tokens[pos] {
            TokenKindView::Ident(name) => {
                if name != "true"@ && name != "false"@ && pos + 1 < tokens.len() && tokens[pos
                    + 1] is Arrow {
                    lemma_level_names_once(tokens, pos + 2, 0);
                }
            },
            TokenKindView::LeftCurly => {
                if !(pos + 1 < tokens.len() && tokens[pos + 1] is RightCurly) {
                    lemma_fields_names_once(tokens, pos + 1, Seq::empty());
                }
            },
            TokenKindView::LeftParenthesis => {
                lemma_level_names_once(tokens, pos + 1, 0);
            },
            _ => {},
        }
    }
}

/// The products in a product that starts from fields named once name each
/// field once.
proof fn lemma_fields_names_once(
    tokens: Seq<TokenKindView>,
    pos: int,
    fields: Seq<(Seq<char>, ExprView)>,
)
    requires
        0 <= pos,
        fields_named_once(fields),
    ensures
        parse_fields(tokens, pos, fields) matches Ok((expr, _)) ==> names_fields_once(expr),
    decreases tokens.len() - pos, 0nat,
{
    if pos < tokens.len() && tokens[pos] is Ident && pos + 1 < tokens.len() && tokens[pos
        + 1] is Colon {
        lemma_level_names_once(tokens, pos + 2, 0);
        lemma_level_advances(tokens, pos + 2, 0);
        if let Ok((value, end)) = parse_level(tokens, pos + 2, 0) {
            lemma_put_field(fields, tokens[pos]->Ident_0, value);
            if end < tokens.len() && tokens[end] is Comma {
                lemma_fields_names_once(
                    tokens,
                    end + 1,
                    put_field(fields, tokens[pos]->Ident_0, value),
                );
            }
        }
    }
}

/// The products in an application name each field once.
proof fn lemma_application_names_once(tokens: Seq<TokenKindView>, pos: int)
    requires
        0 <= pos,
    ensures
        parse_application(tokens, pos) matches Ok((expr, _)) ==> names_fields_once(expr),
    decreases tokens.len() - pos, 2nat, 1nat,
{
    lemma_atom_names_once(tokens, pos);
    lemma_atom_advances(tokens, pos);
    if let Ok((function, end)) = parse_atom(tokens, pos) {
        lemma_arguments_names_once(tokens, function, end);
    }
}

/// The products in a function and its arguments name each field once.
proof fn lemma_arguments_names_once(tokens: Seq<TokenKindView>, function: ExprView, pos: int)
    requires
        0 <= pos <= tokens.len(),
        names_fields_once(function),
    ensures
        parse_arguments(tokens, function, pos) matches Ok((expr, _)) ==> names_fields_once(expr),
    decreases tokens.len() - pos, 2nat, 0nat,
{
    if pos < tokens.len() && starts_atom(tokens[pos]) {
        lemma_atom_names_once(tokens, pos);
        lemma_atom_advances(tokens, pos);
        if let Ok((argument, end)) = parse_atom(tokens, pos) {
            lemma_arguments_names_once(tokens, call(function, argument), end);
        }
    }
}

/// The products in an expression of any level name each field once.
proof fn lemma_level_names_once(tokens: Seq<TokenKindView>, pos: int, level: nat)
    requires
        0 <= pos,
    ensures
        parse_level(tokens, pos, level) matches Ok((expr, _)) ==> names_fields_once(expr),
    decreases tokens.len() - pos, rank(level), 0nat,
{
    if level >= LEVELS {
        lemma_application_names_once(tokens, pos);
    } else {
        lemma_level_names_once(tokens, pos, level + 1);
        lemma_level_advances(tokens, pos, level + 1);
        if let Ok((left, end)) = parse_level(tokens, pos, level + 1) {
            lemma_operators_names_once(tokens, left, end, level);
        }
    }
}

/// The products in an expression and the operands joined to it name each
/// field once.
proof fn lemma_operators_names_once(
    tokens: Seq<TokenKindView>,
    left: ExprView,
    pos: int,
    level: nat,
)
    requires
        0 <= pos <= tokens.len(),
        names_fields_once(left),
    ensures
        parse_operators(tokens, left, pos, level) matches Ok((expr, _)) ==> names_fields_once(expr),
    decreases tokens.len() - pos, 0nat, 0nat,
{
    if operator_at(tokens, pos, level, level + 1) {
        lemma_level_names_once(tokens, pos + 1, level + 1);
        lemma_level_advances(tokens, pos + 1, level + 1);
        if let Ok((right, end)) = parse_level(tokens, pos + 1, level + 1) {
            let joined = infix(left, tokens[pos]->Symbol_0, right);
            assert(names_fields_once(joined)) by {
                reveal_with_fuel(names_fields_once, 3);
            }
            lemma_operators_names_once(tokens, joined, end, level);
        }
    }
}

/// The atom that the name `name` is by itself: a boolean for `true` and
/// `false`, an identifier otherwise.
pub open spec fn name_atom(name: Seq<char>) -> ExprView {
    if name == "true"@ {
        ExprView::Literal(LiteralView::Boolean(true))
    } else if name == "false"@ {
        ExprView::Literal(LiteralView::Boolean(false))
    } else {
        ExprView::Identifier(name)
    }
}

/// Operators of one level group to the left: `a op b op' c` is
/// `(a op b) op' c`, for `+` and `-` as for `$` and for any others that bind
/// alike.
pub proof fn lemma_operators_group_left(
    a: Seq<char>,
    first: Seq<char>,
    b: Seq<char>,
    second: Seq<char>,
    c: Seq<char>,
)
    requires
        precedence(first) == precedence(second),
    ensures
        parse_expression(
            seq![
                TokenKindView::Ident(a),
                TokenKindView::Symbol(first),
                TokenKindView::Ident(b),
                TokenKindView::Symbol(second),
                TokenKindView::Ident(c),
            ],
        ) == Ok::<ExprView, ParseErrorView>(
            infix(infix(name_atom(a), first, name_atom(b)), second, name_atom(c)),
        ),
{
    let tokens = seq![
        TokenKindView::Ident(a),
        TokenKindView::Symbol(first),
        TokenKindView::Ident(b),
        TokenKindView::Symbol(second),
        TokenKindView::Ident(c),
    ];
    let level = precedence(first);
    let ab = infix(name_atom(a), first, name_atom(b));
    let abc = infix(ab, second, name_atom(c));
    lemma_lone_name(tokens, 0);
    lemma_lone_name(tokens, 2);
    lemma_lone_name(tokens, 4);
    lemma_operand(tokens, 0, name_atom(a), 1, level + 1);
    lemma_operand(tokens, 2, name_atom(b), 3, level + 1);
    lemma_operand(tokens, 4, name_atom(c), 5, level + 1);
    assert(parse_operators(tokens, abc, 5, level) == Ok::<_, ParseErrorView>((abc, 5int)));
    assert(parse_operators(tokens, ab, 3, level) == Ok::<_, ParseErrorView>((abc, 5int)));
    assert(parse_operators(tokens, name_atom(a), 1, level) == Ok::<_, ParseErrorView>(
        (abc, 5int),
    ));
    lemma_looser_levels(tokens, 0, abc, 5, level, 0);
}

/// Application binds tighter than any operator: `f a op b` is `(f a) op b`.
pub proof fn lemma_application_binds_tighter(
    f: Seq<char>,
    a: Seq<char>,
    operator: Seq<char>,
    b: Seq<char>,
)
    ensures
        parse_expression(
            seq![
                TokenKindView::Ident(f),
                TokenKindView::Ident(a),
                TokenKindView::Symbol(operator),
                TokenKindView::Ident(b),
            ],
        ) == Ok::<ExprView, ParseErrorView>(
            infix(call(name_atom(f), name_atom(a)), operator, name_atom(b)),
        ),
{
    let tokens = seq![
        TokenKindView::Ident(f),
        TokenKindView::Ident(a),
        TokenKindView::Symbol(operator),
        TokenKindView::Ident(b),
    ];
    let level = precedence(operator);
    let fa = call(name_atom(f), name_atom(a));
    let whole = infix(fa, operator, name_atom(b));
    lemma_lone_name(tokens, 3);
    lemma_operand(tokens, 0, fa, 2, level + 1);
    lemma_operand(tokens, 3, name_atom(b), 4, level + 1);
    assert(parse_operators(tokens, whole, 4, level) == Ok::<_, ParseErrorView>((whole, 4int)));
    assert(parse_operators(tokens, fa, 2, level) == Ok::<_, ParseErrorView>((whole, 4int)));
    lemma_looser_levels(tokens, 0, whole, 4, level, 0);
}

/// A name that neither an arrow nor another atom follows is an application
/// by itself.
proof fn lemma_lone_name(tokens: Seq<TokenKindView>, pos: int)
    requires
        0 <= pos < tokens.len(),
        tokens[pos] is Ident,
        pos + 1 < tokens.len() ==> !(tokens[pos + 1] is Arrow) && !starts_atom(tokens[pos + 1]),
    ensures
        parse_application(tokens, pos) == Ok::<_, ParseErrorView>(
            (name_atom(tokens[pos]->Ident_0), pos + 1),
        ),
{
}

/// An application that no operator of level `level` or tighter follows is an
/// expression of that level by itself.
proof fn lemma_operand(tokens: Seq<TokenKindView>, pos: int, expr: ExprView, end: int, level: nat)
    requires
        0 <= pos < end <= tokens.len(),
        parse_application(tokens, pos) == Ok::<_, ParseErrorView>((expr, end)),
        !operator_at(tokens, end, level, LEVELS as nat),
    ensures
        parse_level(tokens, pos, level) == Ok::<_, ParseErrorView>((expr, end)),
    decreases LEVELS - level,
{
    if level < LEVELS {
        lemma_operand(tokens, pos, expr, end, level + 1);
        assert(parse_operators(tokens, expr, end, level) == Ok::<_, ParseErrorView>((expr, end)));
    }
}

/// An expression of one level that no operator of a looser level follows is
/// an expression of that looser level too.
proof fn lemma_looser_levels(
    tokens: Seq<TokenKindView>,
    pos: int,
    expr: ExprView,
    end: int,
    level: nat,
    looser: nat,
)
    requires
        0 <= pos < end <= tokens.len(),
        looser <= level < LEVELS,
        parse_level(tokens, pos, level) == Ok::<_, ParseErrorView>((expr, end)),
        !operator_at(tokens, end, looser, level),
    ensures
        parse_level(tokens, pos, looser) == Ok::<_, ParseErrorView>((expr, end)),
    decreases level - looser,
{
    if looser < level {
        lemma_looser_levels(tokens, pos, expr, end, level, looser + 1);
        assert(parse_operators(tokens, expr, end, looser) == Ok::<_, ParseErrorView>((expr, end)));
    }
}

} // verus!
