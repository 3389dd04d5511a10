//! The evaluator: values, scopes, and the evaluation of syntax in a scope.
//!
//! Values and scopes are immutable and shared by reference count. A scope is
//! a list of bindings with an optional parent; a closure keeps the scope it
//! was made in. [`evaluate`] says, as a function of the contents of an
//! expression and a scope, what the expression's value is; [`eval_expr`]
//! computes it.
//!
//! The language can express computations that do not end, so evaluation takes
//! a bound on how deeply calls may nest, and fails when a call would go
//! deeper.

use crate::ast::{fields_view, Ast, AstView, Expr, ExprView, Literal, LiteralView};
use crate::integer::Int;
use crate::text::same_text;
use std::rc::Rc;
use vstd::prelude::*;

verus! {

/// A runtime value, shared by reference.
#[derive(Debug, PartialEq)]
pub struct Object {
    ptr: Rc<RawObject>,
}

/// What a value is.
#[derive(Debug, PartialEq)]
pub enum RawObject {
    Int(Int),
    String(String),
    Function(Function),
    /// A product: its fields in the order they were set. Where a name occurs
    /// twice, the later field counts.
    Product(Vec<(String, Object)>),
}

/// The operations that are built in.
#[derive(Debug, Clone, Copy, PartialEq, Eq)]
pub enum Builtin {
    /// `+`, the sum of two integers.
    Add,
    /// `-`, the difference of two integers.
    Sub,
    /// `*`, the product of two integers.
    Mul,
    /// `inc`, the successor of an integer.
    Inc,
    /// `$`, the call of the function on the left with the value on the right.
    Apply,
    /// `get`, the field of the product on the left whose name is the string
    /// on the right.
    Get,
}

/// A function value.
#[derive(Debug, PartialEq)]
pub enum Function {
    /// A built-in operation, with the left operand where it has been given
    /// one already.
    Native { operation: Builtin, left: Option<Object> },
    /// A lambda, with the scope it was written in.
    Lambda { parameter: String, body: Expr, scope: Scope },
}

/// The kinds of value.
#[derive(Debug, Clone, Copy, PartialEq, Eq)]
pub enum Kind {
    Int,
    String,
    Function,
    Product,
}

/// Why an expression has no value.
#[derive(Debug, PartialEq)]
pub enum EvalError {
    /// No scope in the chain binds the name.
    UnboundIdentifier(String),
    /// A value of one kind stands where another kind is needed.
    TypeError { expected: Kind, found: Kind },
    /// The product has no field of this name.
    MissingField { product: Object, field: String },
    /// The construct has no meaning as a value: a boolean literal.
    Unsupported,
    /// Calls nest more deeply than the bound allows.
    DepthExceeded,
}

pub type EvalResult<T> = Result<T, EvalError>;

/// The bindings of one level of scope, and the scope around it.
#[derive(Debug, PartialEq)]
pub struct RawScope {
    pub parent: Option<Scope>,
    /// The bindings in the order they were made. Where a name occurs twice,
    /// the later binding counts.
    pub bindings: Vec<(String, Object)>,
}

/// A scope, shared by reference.
#[derive(Debug, PartialEq)]
pub struct Scope(Rc<RawScope>);

/// The mathematical content of an [`Object`].
pub enum ObjectView {
    Int(int),
    String(Seq<char>),
    Function(FunctionView),
    Product(Map<Seq<char>, ObjectView>),
}

/// The mathematical content of a [`Function`].
pub enum FunctionView {
    Native { operation: Builtin, left: Option<Box<ObjectView>> },
    Lambda { parameter: Seq<char>, body: ExprView, scope: ScopeView },
}

/// The mathematical content of a [`Scope`].
pub struct ScopeView {
    pub bindings: Map<Seq<char>, ObjectView>,
    pub parent: Option<Box<ScopeView>>,
}

/// The mathematical content of an [`EvalError`].
pub enum EvalErrorView {
    UnboundIdentifier(Seq<char>),
    TypeError { expected: Kind, found: Kind },
    MissingField { product: ObjectView, field: Seq<char> },
    Unsupported,
    DepthExceeded,
}

/// A value, or the reason there is none.
pub type Evaluated = Result<ObjectView, EvalErrorView>;

/// The mapping that the first `count` of `entries` make, later ones
/// replacing earlier ones of the same name.
pub open spec fn bindings_view(entries: Seq<(String, Object)>, count: nat) -> Map<
    Seq<char>,
    ObjectView,
>
    decreases entries, count,
{
    if count == 0 || count > entries.len() {
        Map::empty()
    } else {
        bindings_view(entries, (count - 1) as nat).insert(
            entries[count - 1].0@,
            entries[count - 1].1.view(),
        )
    }
}

impl RawObject {
    /// The mathematical content of the value.
    pub open spec fn view(&self) -> ObjectView
        decreases self,
    {
        match *self {
            RawObject::Int(n) => ObjectView::Int(n@),
            RawObject::String(s) => ObjectView::String(s@),
            RawObject::Function(f) => ObjectView::Function(f.view()),
            RawObject::Product(fields) => ObjectView::Product(
                bindings_view(fields@, fields@.len()),
            ),
        }
    }
}

impl Object {
    /// The mathematical content of the value.
    pub closed spec fn view(&self) -> ObjectView
        decreases self,
    {
        (*self.ptr).view()
    }
}

impl Function {
    /// The mathematical content of the function.
    pub open spec fn view(&self) -> FunctionView
        decreases self,
    {
        match *self {
            Function::Native { operation, left } => FunctionView::Native {
                operation,
                left: match left {
                    None => None,
                    Some(object) => Some(Box::new(object.view())),
                },
            },
            Function::Lambda { parameter, body, scope } => FunctionView::Lambda {
                parameter: parameter@,
                body: body@,
                scope: scope.view(),
            },
        }
    }
}

impl RawScope {
    /// The mathematical content of the scope.
    pub open spec fn view(&self) -> ScopeView
        decreases self,
    {
        ScopeView {
            bindings: bindings_view(self.bindings@, self.bindings@.len()),
            parent: match self.parent {
                None => None,
                Some(scope) => Some(Box::new(scope.view())),
            },
        }
    }
}

impl Scope {
    /// The mathematical content of the scope.
    pub closed spec fn view(&self) -> ScopeView
        decreases self,
    {
        (*self.0).view()
    }
}

impl EvalError {
    /// The mathematical content of the error.
    pub open spec fn view(&self) -> EvalErrorView {
        match *self {
            EvalError::UnboundIdentifier(name) => EvalErrorView::UnboundIdentifier(name@),
            EvalError::TypeError { expected, found } => EvalErrorView::TypeError {
                expected,
                found,
            },
            EvalError::MissingField { product, field } => EvalErrorView::MissingField {
                product: product@,
                field: field@,
            },
            EvalError::Unsupported => EvalErrorView::Unsupported,
            EvalError::DepthExceeded => EvalErrorView::DepthExceeded,
        }
    }
}

impl ObjectView {
    /// The kind of the value.
    pub open spec fn kind(self) -> Kind {
        match self {
            ObjectView::Int(_) => Kind::Int,
            ObjectView::String(_) => Kind::String,
            ObjectView::Function(_) => Kind::Function,
            ObjectView::Product(_) => Kind::Product,
        }
    }
}

impl ScopeView {
    /// The value that `name` has in the scope: that of the innermost level
    /// that binds it, if any does.
    pub open spec fn lookup(self, name: Seq<char>) -> Option<ObjectView>
        decreases self,
    {
        if self.bindings.dom().contains(name) {
            Some(self.bindings[name])
        } else {
            match self.parent {
                None => None,
                Some(parent) => parent.lookup(name),
            }
        }
    }

    /// The scope with `name` bound to `value` at its innermost level, in
    /// place of what that level bound it to before.
    pub open spec fn bind(self, name: Seq<char>, value: ObjectView) -> ScopeView {
        ScopeView { bindings: self.bindings.insert(name, value), parent: self.parent }
    }

    /// A new level inside the scope, which binds `name` to `value` and
    /// nothing else.
    pub open spec fn enter(self, name: Seq<char>, value: ObjectView) -> ScopeView {
        ScopeView {
            bindings: Map::empty().insert(name, value),
            parent: Some(Box::new(self)),
        }
    }
}

/// The value of a built-in operation that has no operand yet.
pub open spec fn native(operation: Builtin) -> ObjectView {
    ObjectView::Function(FunctionView::Native { operation, left: None })
}

/// The scope that every session starts in: the built-in operations under
/// their names, and no parent.
pub open spec fn standard_scope() -> ScopeView {
    ScopeView {
        bindings: Map::empty().insert("+"@, native(Builtin::Add)).insert(
            "-"@,
            native(Builtin::Sub),
        ).insert("*"@, native(Builtin::Mul)).insert("$"@, native(Builtin::Apply)).insert(
            "inc"@,
            native(Builtin::Inc),
        ).insert("get"@, native(Builtin::Get)),
        parent: None,
    }
}

/// A failure for a value of the wrong kind.
pub open spec fn type_error(expected: Kind, found: ObjectView) -> Evaluated {
    Err(EvalErrorView::TypeError { expected, found: found.kind() })
}

/// The result of an arithmetic operation on two values: the left operand is
/// checked first.
pub open spec fn arithmetic(operation: Builtin, left: ObjectView, right: ObjectView) -> Evaluated {
    match left {
        ObjectView::Int(a) => match right {
            ObjectView::Int(b) => Ok(
                ObjectView::Int(
                    match operation {
                        Builtin::Add => a + b,
                        Builtin::Sub => a - b,
                        _ => a * b,
                    },
                ),
            ),
            _ => type_error(Kind::Int, right),
        },
        _ => type_error(Kind::Int, left),
    }
}

/// The field of `product` that the string `name` names.
pub open spec fn project(product: ObjectView, name: ObjectView) -> Evaluated {
    match product {
        ObjectView::Product(fields) => match name {
            ObjectView::String(field) => {
                if fields.dom().contains(field) {
                    Ok(fields[field])
                } else {
                    Err(EvalErrorView::MissingField { product, field })
                }
            },
            _ => type_error(Kind::String, name),
        },
        _ => type_error(Kind::Product, product),
    }
}

/// The value of `function` called on `argument`, where calls may nest
/// `depth` deep.
///
/// A lambda is evaluated in a new level, inside the scope it was written in,
/// that binds its parameter to the argument; that takes one unit of depth. A
/// built-in operation of two operands keeps its first operand and waits for
/// the second; with both, it checks them and computes. Calling what is no
/// function is a type error.
pub open spec fn apply(function: ObjectView, argument: ObjectView, depth: nat) -> Evaluated
    decreases depth, 0nat,
{
    match function {
        ObjectView::Function(FunctionView::Lambda { parameter, body, scope }) => {
            if depth == 0 {
                Err(EvalErrorView::DepthExceeded)
            } else {
                evaluate(body, scope.enter(parameter, argument), (depth - 1) as nat)
            }
        },
        ObjectView::Function(FunctionView::Native { operation, left }) => match operation {
            Builtin::Inc => match argument {
                ObjectView::Int(n) => Ok(ObjectView::Int(n + 1)),
                _ => type_error(Kind::Int, argument),
            },
            _ => match left {
                None => Ok(
                    ObjectView::Function(
                        FunctionView::Native { operation, left: Some(Box::new(argument)) },
                    ),
                ),
                Some(left) => match operation {
                    Builtin::Apply => {
                        if depth == 0 {
                            Err(EvalErrorView::DepthExceeded)
                        } else {
                            apply(*left, argument, (depth - 1) as nat)
                        }
                    },
                    Builtin::Get => project(*left, argument),
                    _ => arithmetic(operation, *left, argument),
                },
            },
        },
        _ => type_error(Kind::Function, function),
    }
}

/// The value of `expr` in `scope`, where calls may nest `depth` deep.
///
/// A call evaluates the function, then the argument, then applies. A lambda
/// closes over `scope`. A product evaluates its fields in order; the first
/// failure is the product's.
pub open spec fn evaluate(expr: ExprView, scope: ScopeView, depth: nat) -> Evaluated
    decreases depth, 1nat, expr,
{
    match expr {
        ExprView::Literal(LiteralView::Integer(n)) => Ok(ObjectView::Int(n)),
        ExprView::Literal(LiteralView::String(s)) => Ok(ObjectView::String(s)),
        ExprView::Literal(LiteralView::Boolean(_)) => Err(EvalErrorView::Unsupported),
        ExprView::Identifier(name) => match scope.lookup(name) {
            Some(value) => Ok(value),
            None => Err(EvalErrorView::UnboundIdentifier(name)),
        },
        ExprView::FunctionCall { function, argument } => match evaluate(*function, scope, depth) {
            Err(e) => Err(e),
            Ok(function) => match evaluate(*argument, scope, depth) {
                Err(e) => Err(e),
                Ok(argument) => apply(function, argument, depth),
            },
        },
        ExprView::Product(fields) => match evaluate_fields(fields, scope, depth, fields.len()) {
            Err(e) => Err(e),
            Ok(values) => Ok(ObjectView::Product(values)),
        },
        ExprView::Lambda { from, to } => Ok(
            ObjectView::Function(FunctionView::Lambda { parameter: from, body: *to, scope }),
        ),
    }
}

/// The values of the first `count` of `fields` in `scope`, by name.
pub open spec fn evaluate_fields(
    fields: Seq<(Seq<char>, ExprView)>,
    scope: ScopeView,
    depth: nat,
    count: nat,
) -> Result<Map<Seq<char>, ObjectView>, EvalErrorView>
    decreases depth, 1nat, fields, count,
{
    if count == 0 || count > fields.len() {
        Ok(Map::empty())
    } else {
        match evaluate_fields(fields, scope, depth, (count - 1) as nat) {
            Err(e) => Err(e),
            Ok(values) => match evaluate(fields[count - 1].1, scope, depth) {
                Err(e) => Err(e),
                Ok(value) => Ok(values.insert(fields[count - 1].0, value)),
            },
        }
    }
}

/// What a line does in `scope`: its value and, for a binding, the scope that
/// holds it; or the reason it has no value, and no scope.
pub open spec fn run(line: AstView, scope: ScopeView, depth: nat) -> (
    Evaluated,
    Option<ScopeView>,
) {
    match line {
        AstView::Expr(expr) => (evaluate(expr, scope, depth), None),
        AstView::Binding { lhs, rhs } => match evaluate(rhs, scope, depth) {
            Err(e) => (Err(e), None),
            Ok(value) => (Ok(value), Some(scope.bind(lhs, value))),
        },
    }
}

/// A binding gives its name the new value, leaves every other name as it
/// was, and keeps the parent.
pub proof fn lemma_binding_shadows_one_name(
    scope: ScopeView,
    name: Seq<char>,
    value: ObjectView,
    other: Seq<char>,
)
    ensures
        scope.bind(name, value).lookup(name) == Some(value),
        other != name ==> scope.bind(name, value).lookup(other) == scope.lookup(other),
        scope.bind(name, value).parent == scope.parent,
{
}

/// A binding line that has a value gives that value and the scope with the
/// name bound to it; any other line gives no scope. The scope that the line
/// ran in is a value of its own, and is what it was whatever comes of it.
pub proof fn lemma_binding_line(lhs: Seq<char>, rhs: ExprView, scope: ScopeView, depth: nat)
    ensures
        match evaluate(rhs, scope, depth) {
            Ok(value) => run(AstView::Binding { lhs, rhs }, scope, depth) == (
                Ok::<ObjectView, EvalErrorView>(value),
                Some(scope.bind(lhs, value)),
            ),
            Err(e) => run(AstView::Binding { lhs, rhs }, scope, depth) == (
                Err::<ObjectView, EvalErrorView>(e),
                None::<ScopeView>,
            ),
        },
        run(AstView::Expr(rhs), scope, depth).1 is None,
{
}

/// A name that no level of the scope binds has no value: evaluating it is
/// the error that names it, at any depth.
pub proof fn lemma_unbound_identifier(name: Seq<char>, scope: ScopeView, depth: nat)
    requires
        scope.lookup(name) is None,
    ensures
        evaluate(ExprView::Identifier(name), scope, depth) == Err::<ObjectView, EvalErrorView>(
            EvalErrorView::UnboundIdentifier(name),
        ),
        run(AstView::Expr(ExprView::Identifier(name)), scope, depth) == (
            Err::<ObjectView, EvalErrorView>(EvalErrorView::UnboundIdentifier(name)),
            None::<ScopeView>,
        ),
{
}

/// A lambda sees the scope it was written in, not the one it is called in.
/// Let `y => x` be evaluated in the scope `defined`, where `x` has a value,
/// and let the result be what `f` names in any scope `called`, whatever `x`
/// is there. Then `f argument`, evaluated in `called`, is the value that `x`
/// has in `defined`, for every argument that has a value.
pub proof fn lemma_lambda_sees_its_own_scope(
    x: Seq<char>,
    y: Seq<char>,
    f: Seq<char>,
    defined: ScopeView,
    called: ScopeView,
    argument: ExprView,
    depth: nat,
)
    requires
        x != y,
        defined.lookup(x) is Some,
        called.lookup(f) == Some(
            ObjectView::Function(
                FunctionView::Lambda {
                    parameter: y,
                    body: ExprView::Identifier(x),
                    scope: defined,
                },
            ),
        ),
        evaluate(argument, called, depth + 1) is Ok,
    ensures
        evaluate(
            ExprView::Lambda { from: y, to: Box::new(ExprView::Identifier(x)) },
            defined,
            depth,
        ) == Ok::<ObjectView, EvalErrorView>(called.lookup(f)->Some_0),
        evaluate(
            ExprView::FunctionCall {
                function: Box::new(ExprView::Identifier(f)),
                argument: Box::new(argument),
            },
            called,
            depth + 1,
        ) == Ok::<ObjectView, EvalErrorView>(defined.lookup(x)->Some_0),
{
    let value = evaluate(argument, called, depth + 1)->Ok_0;
    let inner = defined.enter(y, value);
    assert(evaluate(ExprView::Identifier(x), inner, depth) == Ok::<ObjectView, EvalErrorView>(
        defined.lookup(x)->Some_0,
    ));
    let closure = called.lookup(f)->Some_0;
    assert(evaluate(ExprView::Identifier(f), called, depth + 1) == Ok::<
        ObjectView,
        EvalErrorView,
    >(closure));
    assert(apply(closure, value, depth + 1) == evaluate(ExprView::Identifier(x), inner, depth));
}

/// `get` gives back what a product literal holds: where `get` names the
/// built-in projection and the fields of the literal all have values, `get`
/// of the literal and the name of one of its fields is that field's value.
pub proof fn lemma_get_projects_a_literal(
    fields: Seq<(Seq<char>, ExprView)>,
    name: Seq<char>,
    scope: ScopeView,
    depth: nat,
)
    requires
        scope.lookup("get"@) == Some(native(Builtin::Get)),
        evaluate_fields(fields, scope, depth, fields.len()) matches Ok(values)
            && values.dom().contains(name),
    ensures
        evaluate(
            ExprView::FunctionCall {
                function: Box::new(
                    ExprView::FunctionCall {
                        function: Box::new(ExprView::Identifier("get"@)),
                        argument: Box::new(ExprView::Product(fields)),
                    },
                ),
                argument: Box::new(ExprView::Literal(LiteralView::String(name))),
            },
            scope,
            depth,
        ) == Ok::<ObjectView, EvalErrorView>(
            evaluate_fields(fields, scope, depth, fields.len())->Ok_0[name],
        ),
{
    let values = evaluate_fields(fields, scope, depth, fields.len())->Ok_0;
    let product = ObjectView::Product(values);
    let partial = ExprView::FunctionCall {
        function: Box::new(ExprView::Identifier("get"@)),
        argument: Box::new(ExprView::Product(fields)),
    };
    assert(evaluate(ExprView::Product(fields), scope, depth) == Ok::<ObjectView, EvalErrorView>(
        product,
    ));
    assert(evaluate(ExprView::Identifier("get"@), scope, depth) == Ok::<
        ObjectView,
        EvalErrorView,
    >(native(Builtin::Get)));
    assert(evaluate(partial, scope, depth) == apply(native(Builtin::Get), product, depth));
    let held = ObjectView::Function(
        FunctionView::Native { operation: Builtin::Get, left: Some(Box::new(product)) },
    );
    let field = ObjectView::String(name);
    assert(evaluate(ExprView::Literal(LiteralView::String(name)), scope, depth) == Ok::<
        ObjectView,
        EvalErrorView,
    >(field));
    assert(apply(held, field, depth) == project(product, field));
}

/// The bound on depth only ever cuts an evaluation short: whatever an
/// expression evaluates to within a bound, short of running into the bound,
/// it evaluates to within every greater bound.
pub proof fn lemma_depth_only_cuts_short(expr: ExprView, scope: ScopeView, depth: nat, more: nat)
    requires
        depth <= more,
        evaluate(expr, scope, depth) != Err::<ObjectView, EvalErrorView>(
            EvalErrorView::DepthExceeded,
        ),
    ensures
        evaluate(expr, scope, more) == evaluate(expr, scope, depth),
    decreases depth, 1nat, expr,
{
    match expr {
        ExprView::FunctionCall { function, argument } => {
            lemma_depth_only_cuts_short(*function, scope, depth, more);
            if let Ok(f) = evaluate(*function, scope, depth) {
                lemma_depth_only_cuts_short(*argument, scope, depth, more);
                if let Ok(a) = evaluate(*argument, scope, depth) {
                    lemma_call_depth_only_cuts_short(f, a, depth, more);
                }
            }
        },
        ExprView::Product(fields) => {
            lemma_fields_depth_only_cuts_short(fields, scope, depth, more, fields.len());
        },
        _ => {},
    }
}

/// The same for a call: whatever a function gives for an argument within a
/// bound, short of running into the bound, it gives within every greater
/// bound.
pub proof fn lemma_call_depth_only_cuts_short(
    function: ObjectView,
    argument: ObjectView,
    depth: nat,
    more: nat,
)
    requires
        depth <= more,
        apply(function, argument, depth) != Err::<ObjectView, EvalErrorView>(
            EvalErrorView::DepthExceeded,
        ),
    ensures
        apply(function, argument, more) == apply(function, argument, depth),
    decreases depth, 0nat,
{
    match function {
        ObjectView::Function(FunctionView::Lambda { parameter, body, scope }) => {
            lemma_depth_only_cuts_short(
                body,
                scope.enter(parameter, argument),
                (depth - 1) as nat,
                (more - 1) as nat,
            );
        },
        ObjectView::Function(
            FunctionView::Native { operation: Builtin::Apply, left: Some(left) },
        ) => {
            lemma_call_depth_only_cuts_short(
                *left,
                argument,
                (depth - 1) as nat,
                (more - 1) as nat,
            );
        },
        _ => {},
    }
}

/// The same for the fields of a product.
proof fn lemma_fields_depth_only_cuts_short(
    fields: Seq<(Seq<char>, ExprView)>,
    scope: ScopeView,
    depth: nat,
    more: nat,
    count: nat,
)
    requires
        depth <= more,
        count <= fields.len(),
        evaluate_fields(fields, scope, depth, count) != Err::<
            Map<Seq<char>, ObjectView>,
            EvalErrorView,
        >(EvalErrorView::DepthExceeded),
    ensures
        evaluate_fields(fields, scope, more, count) == evaluate_fields(fields, scope, depth, count),
    decreases depth, 1nat, fields, count,
{
    if count > 0 {
        lemma_fields_depth_only_cuts_short(fields, scope, depth, more, (count - 1) as nat);
        if evaluate_fields(fields, scope, depth, (count - 1) as nat) is Ok {
            lemma_depth_only_cuts_short(fields[count - 1].1, scope, depth, more);
        }
    }
}

/// The entry of a mapping, if it has one.
pub open spec fn entry(map: Map<Seq<char>, ObjectView>, name: Seq<char>) -> Option<ObjectView> {
    if map.dom().contains(name) {
        Some(map[name])
    } else {
        None
    }
}

/// The contents of a value that may be missing.
pub open spec fn found_view(found: Option<Object>) -> Option<ObjectView> {
    match found {
        Some(object) => Some(object@),
        None => None,
    }
}

/// The contents of a scope that may be missing.
pub open spec fn scope_option_view(scope: Option<Scope>) -> Option<ScopeView> {
    match scope {
        Some(scope) => Some(scope@),
        None => None,
    }
}

/// The contents of what evaluation returns.
pub open spec fn evaluated_view(result: EvalResult<Object>) -> Evaluated {
    match result {
        Ok(object) => Ok(object@),
        Err(e) => Err(e@),
    }
}

/// How deeply calls may nest where no other bound is given.
pub const MAX_DEPTH: usize = 256;

impl Clone for Object {
    fn clone(&self) -> (copy: Self)
        ensures
            copy@ == self@,
    {
        Object { ptr: self.ptr.clone() }
    }
}

impl std::ops::Deref for Object {
    type Target = RawObject;

    fn deref(&self) -> (raw: &RawObject)
        ensures
            raw.view() == self@,
    {
        &*self.ptr
    }
}

impl std::ops::Deref for Scope {
    type Target = RawScope;

    fn deref(&self) -> (raw: &RawScope)
        ensures
            raw.view() == self@,
    {
        &*self.0
    }
}

impl Clone for Scope {
    fn clone(&self) -> (copy: Self)
        ensures
            copy@ == self@,
    {
        Scope(self.0.clone())
    }
}

impl Object {
    /// The value that is `function`.
    pub fn new_function(function: Function) -> (object: Object)
        ensures
            object@ == ObjectView::Function(function.view()),
    {
        Object { ptr: Rc::new(RawObject::Function(function)) }
    }

    /// The value that is the integer `value`.
    pub fn new_int(value: Int) -> (object: Object)
        ensures
            object@ == ObjectView::Int(value@),
    {
        Object { ptr: Rc::new(RawObject::Int(value)) }
    }

    /// The value that is the string `input`.
    pub fn new_string(input: String) -> (object: Object)
        ensures
            object@ == ObjectView::String(input@),
    {
        Object { ptr: Rc::new(RawObject::String(input)) }
    }

    /// The value that is the product of `fields`.
    pub fn new_product(fields: Vec<(String, Object)>) -> (object: Object)
        ensures
            object@ == ObjectView::Product(bindings_view(fields@, fields@.len())),
    {
        Object { ptr: Rc::new(RawObject::Product(fields)) }
    }

    /// The kind of the value.
    pub fn kind(&self) -> (kind: Kind)
        ensures
            kind == self@.kind(),
    {
        match &**self {
            RawObject::Int(_) => Kind::Int,
            RawObject::String(_) => Kind::String,
            RawObject::Function(_) => Kind::Function,
            RawObject::Product(_) => Kind::Product,
        }
    }
}

/// Looks `name` up in `entries`; the last entry of that name counts.
fn find(entries: &Vec<(String, Object)>, name: &str) -> (found: Option<Object>)
    ensures
        found_view(found) == entry(bindings_view(entries@, entries@.len()), name@),
{
    let mut i = entries.len();
    while i > 0
        invariant
            i <= entries.len(),
            entry(bindings_view(entries@, entries@.len()), name@) == entry(
                bindings_view(entries@, i as nat),
                name@,
            ),
        decreases i,
    {
        i = i - 1;
        if same_text(entries[i].0.as_str(), name) {
            return Some(entries[i].1.clone());
        }
    }
    None
}

/// Copies `entries` without those called `name`, and puts `name` with
/// `value` at the end.
fn with_binding(entries: &Vec<(String, Object)>, name: String, value: Object) -> (bound: Vec<
    (String, Object),
>)
    ensures
        bindings_view(bound@, bound@.len()) == bindings_view(entries@, entries@.len()).insert(
            name@,
            value@,
        ),
{
    let mut bound: Vec<(String, Object)> = Vec::new();
    let mut i: usize = 0;
    while i < entries.len()
        invariant
            i <= entries.len(),
            bindings_view(bound@, bound@.len()) == bindings_view(entries@, i as nat).remove(name@),
        decreases entries.len() - i,
    {
        if !same_text(entries[i].0.as_str(), name.as_str()) {
            append(&mut bound, entries[i].0.clone(), entries[i].1.clone());
            assert(bindings_view(bound@, bound@.len()) =~= bindings_view(
                entries@,
                (i + 1) as nat,
            ).remove(name@));
        } else {
            assert(bindings_view(bound@, bound@.len()) =~= bindings_view(
                entries@,
                (i + 1) as nat,
            ).remove(name@));
        }
        i = i + 1;
    }
    let ghost copied = bindings_view(bound@, bound@.len());
    append(&mut bound, name, value);
    assert(copied.insert(name@, value@) =~= bindings_view(entries@, entries@.len()).insert(
        name@,
        value@,
    ));
    bound
}

/// Puts `name` with `value` at the end of `entries`.
fn append(entries: &mut Vec<(String, Object)>, name: String, value: Object)
    ensures
        final(entries)@ == old(entries)@.push((name, value)),
        bindings_view(final(entries)@, final(entries)@.len()) == bindings_view(
            old(entries)@,
            old(entries)@.len(),
        ).insert(name@, value@),
{
    proof {
        lemma_bindings_push(entries@, (name, value));
    }
    entries.push((name, value));
}

/// One more entry at the end sets its name in the mapping.
pub proof fn lemma_bindings_push(entries: Seq<(String, Object)>, last: (String, Object))
    ensures
        bindings_view(entries.push(last), entries.len() + 1) == bindings_view(
            entries,
            entries.len(),
        ).insert(last.0@, last.1@),
{
    lemma_bindings_prefix(entries, entries.push(last), entries.len());
}

/// The mapping of the first `count` entries depends on those entries alone.
pub proof fn lemma_bindings_prefix(
    entries: Seq<(String, Object)>,
    longer: Seq<(String, Object)>,
    count: nat,
)
    requires
        count <= entries.len() <= longer.len(),
        forall|i: int| 0 <= i < count ==> entries[i] == longer[i],
    ensures
        bindings_view(entries, count) == bindings_view(longer, count),
    decreases count,
{
    if count > 0 {
        lemma_bindings_prefix(entries, longer, (count - 1) as nat);
    }
}

impl Scope {
    /// The scope that every session starts in: the built-in operations under
    /// their names, and no parent.
    pub fn standard() -> (scope: Scope)
        ensures
            scope@ == standard_scope(),
    {
        let mut bindings: Vec<(String, Object)> = Vec::new();
        append(&mut bindings, "+".to_owned(), native_object(Builtin::Add));
        append(&mut bindings, "-".to_owned(), native_object(Builtin::Sub));
        append(&mut bindings, "*".to_owned(), native_object(Builtin::Mul));
        append(&mut bindings, "$".to_owned(), native_object(Builtin::Apply));
        append(&mut bindings, "inc".to_owned(), native_object(Builtin::Inc));
        append(&mut bindings, "get".to_owned(), native_object(Builtin::Get));
        Scope::from_raw(RawScope { parent: None, bindings })
    }

    /// The value that `symbol` has in the scope: that of the innermost level
    /// that binds it, if any does.
    pub fn symbol_lookup(&self, symbol: &str) -> (found: Option<Object>)
        ensures
            found_view(found) == self@.lookup(symbol@),
        decreases self,
    {
        match find(&self.0.bindings, symbol) {
            Some(object) => Some(object),
            None => match &self.0.parent {
                None => None,
                Some(parent) => parent.symbol_lookup(symbol),
            },
        }
    }

    /// The scope that is `raw`.
    pub fn from_raw(raw: RawScope) -> (scope: Scope)
        ensures
            scope@ == raw.view(),
    {
        Scope(Rc::new(raw))
    }

    /// The scope with `name` bound to `value` at its innermost level, in
    /// place of what that level bound it to before. The scope itself is left
    /// as it is.
    pub fn bind(&self, name: String, value: Object) -> (scope: Scope)
        ensures
            scope@ == self@.bind(name@, value@),
    {
        let bindings = with_binding(&self.0.bindings, name, value);
        let parent = match &self.0.parent {
            None => None,
            Some(parent) => Some(parent.clone()),
        };
        Scope::from_raw(RawScope { parent, bindings })
    }

    /// A new level inside the scope, which binds `name` to `value` and
    /// nothing else.
    pub fn enter(&self, name: String, value: Object) -> (scope: Scope)
        ensures
            scope@ == self@.enter(name@, value@),
    {
        let mut bindings: Vec<(String, Object)> = Vec::new();
        append(&mut bindings, name, value);
        Scope::from_raw(RawScope { parent: Some(self.clone()), bindings })
    }
}

/// The value of a built-in operation that has no operand yet.
fn native_object(operation: Builtin) -> (object: Object)
    ensures
        object@ == native(operation),
{
    Object::new_function(Function::Native { operation, left: None })
}

/// A failure for a value of the wrong kind.
fn wrong_kind(expected: Kind, found: &Object) -> (result: EvalResult<Object>)
    ensures
        evaluated_view(result) == type_error(expected, found@),
{
    Err(EvalError::TypeError { expected, found: found.kind() })
}

/// Computes an arithmetic operation on two values.
fn compute(operation: Builtin, left: &Object, right: &Object) -> (result: EvalResult<Object>)
    requires
        operation == Builtin::Add || operation == Builtin::Sub || operation == Builtin::Mul,
    ensures
        evaluated_view(result) == arithmetic(operation, left@, right@),
{
    match &**left {
        RawObject::Int(a) => match &**right {
            RawObject::Int(b) => Ok(
                Object::new_int(
                    match operation {
                        Builtin::Add => a.plus(b),
                        Builtin::Sub => a.minus(b),
                        _ => a.times(b),
                    },
                ),
            ),
            _ => wrong_kind(Kind::Int, right),
        },
        _ => wrong_kind(Kind::Int, left),
    }
}

/// Gets the field of `product` that the string `name` names.
fn get_field(product: &Object, name: &Object) -> (result: EvalResult<Object>)
    ensures
        evaluated_view(result) == project(product@, name@),
{
    match &**product {
        RawObject::Product(fields) => match &**name {
            RawObject::String(field) => match find(fields, field.as_str()) {
                Some(value) => Ok(value),
                None => Err(
                    EvalError::MissingField { product: product.clone(), field: field.clone() },
                ),
            },
            _ => wrong_kind(Kind::String, name),
        },
        _ => wrong_kind(Kind::Product, product),
    }
}

/// Calls `function` on `argument`, where calls may nest `depth` deep.
pub fn call(function: &Object, argument: Object, depth: usize) -> (result: EvalResult<Object>)
    ensures
        evaluated_view(result) == apply(function@, argument@, depth as nat),
    decreases depth, 0nat,
{
    match &**function {
        RawObject::Function(Function::Lambda { parameter, body, scope }) => {
            if depth == 0 {
                Err(EvalError::DepthExceeded)
            } else {
                let inner = scope.enter(parameter.clone(), argument);
                eval_expr_within(body, &inner, depth - 1)
            }
        },
        RawObject::Function(Function::Native { operation, left }) => match operation {
            Builtin::Inc => match &*argument {
                RawObject::Int(n) => Ok(Object::new_int(n.plus(&Int::from_i64(1)))),
                _ => wrong_kind(Kind::Int, &argument),
            },
            _ => match left {
                None => Ok(
                    Object::new_function(
                        Function::Native { operation: *operation, left: Some(argument) },
                    ),
                ),
                Some(left) => match operation {
                    Builtin::Apply => {
                        if depth == 0 {
                            Err(EvalError::DepthExceeded)
                        } else {
                            call(left, argument, depth - 1)
                        }
                    },
                    Builtin::Get => get_field(left, &argument),
                    _ => compute(*operation, left, &argument),
                },
            },
        },
        _ => wrong_kind(Kind::Function, function),
    }
}

/// Evaluates `ast` in `scope`, where calls may nest `depth` deep.
pub fn eval_expr_within(ast: &Expr, scope: &Scope, depth: usize) -> (result: EvalResult<Object>)
    ensures
        evaluated_view(result) == evaluate(ast@, scope@, depth as nat),
    decreases depth, 1nat, ast,
{
    match ast {
        Expr::Literal(Literal::Integer(n)) => Ok(Object::new_int(n.clone())),
        Expr::Literal(Literal::String(s)) => Ok(Object::new_string(s.clone())),
        Expr::Literal(Literal::Boolean(_)) => Err(EvalError::Unsupported),
        Expr::Identifier(identifier) => match scope.symbol_lookup(identifier.name.as_str()) {
            Some(value) => Ok(value),
            None => Err(EvalError::UnboundIdentifier(identifier.name.clone())),
        },
        Expr::FunctionCall(application) => {
            let function = match eval_expr_within(&*application.function, scope, depth) {
                Err(e) => {
                    return Err(e);
                },
                Ok(function) => function,
            };
            let argument = match eval_expr_within(&*application.argument, scope, depth) {
                Err(e) => {
                    return Err(e);
                },
                Ok(argument) => argument,
            };
            call(&function, argument, depth)
        },
        Expr::Product(fields) => {
            let mut values: Vec<(String, Object)> = Vec::new();
            let mut i: usize = 0;
            while i < fields.len()
                invariant
                    *ast matches Expr::Product(v) && v == *fields,
                    i <= fields.len(),
                    values.len() == i,
                    evaluate_fields(fields_view(fields@), scope@, depth as nat, i as nat) == Ok::<
                        _,
                        EvalErrorView,
                    >(bindings_view(values@, i as nat)),
                decreases fields.len() - i,
            {
                let value = match eval_expr_within(&fields[i].1, scope, depth) {
                    Err(e) => {
                        proof {
                            lemma_fields_fail(
                                fields_view(fields@),
                                scope@,
                                depth as nat,
                                (i + 1) as nat,
                                fields@.len(),
                            );
                        }
                        return Err(e);
                    },
                    Ok(value) => value,
                };
                append(&mut values, fields[i].0.clone(), value);
                i = i + 1;
            }
            Ok(Object::new_product(values))
        },
        Expr::Lambda(lambda) => Ok(
            Object::new_function(
                Function::Lambda {
                    parameter: lambda.from.name.clone(),
                    body: (&*lambda.to).clone(),
                    scope: scope.clone(),
                },
            ),
        ),
    }
}

/// Once a field fails, so do all the fields up to any later one.
pub proof fn lemma_fields_fail(
    fields: Seq<(Seq<char>, ExprView)>,
    scope: ScopeView,
    depth: nat,
    count: nat,
    more: nat,
)
    requires
        count <= more <= fields.len(),
        evaluate_fields(fields, scope, depth, count) is Err,
    ensures
        evaluate_fields(fields, scope, depth, more) == evaluate_fields(fields, scope, depth, count),
    decreases more,
{
    if more > count {
        lemma_fields_fail(fields, scope, depth, count, (more - 1) as nat);
    }
}

/// Evaluates `ast` in `scope`, with calls nested at most [`MAX_DEPTH`] deep.
pub fn eval_expr(ast: &Expr, scope: &Scope) -> (result: EvalResult<Object>)
    ensures
        evaluated_view(result) == evaluate(ast@, scope@, MAX_DEPTH as nat),
{
    eval_expr_within(ast, scope, MAX_DEPTH)
}

/// Runs one line in `scope`, where calls may nest `depth` deep: gives its
/// value and, for a binding, the scope that holds it. `scope` is left as it
/// is.
pub fn eval_within(ast: &Ast, scope: &Scope, depth: usize) -> (result: (
    EvalResult<Object>,
    Option<Scope>,
))
    ensures
        evaluated_view(result.0) == run(ast@, scope@, depth as nat).0,
        scope_option_view(result.1) == run(ast@, scope@, depth as nat).1,
{
    match ast {
        Ast::Expr(expr) => (eval_expr_within(expr, scope, depth), None),
        Ast::Binding { lhs, rhs } => match eval_expr_within(rhs, scope, depth) {
            Err(e) => (Err(e), None),
            Ok(value) => {
                let bound = scope.bind(lhs.name.clone(), value.clone());
                (Ok(value), Some(bound))
            },
        },
    }
}

/// Runs one line in `scope`, with calls nested at most [`MAX_DEPTH`] deep.
pub fn eval(ast: &Ast, scope: &Scope) -> (result: (EvalResult<Object>, Option<Scope>))
    ensures
        evaluated_view(result.0) == run(ast@, scope@, MAX_DEPTH as nat).0,
        scope_option_view(result.1) == run(ast@, scope@, MAX_DEPTH as nat).1,
{
    eval_within(ast, scope, MAX_DEPTH)
}

} // verus!
