//! Types that values can be annotated with.

use vstd::prelude::*;

verus! {

/// A type: a product or a sum of named members, or a primitive. A member of
/// a sum may carry nothing.
#[derive(Debug, PartialEq)]
pub enum Ty {
    Product(Vec<(String, Option<Ty>)>),
    Sum(Vec<(String, Option<Ty>)>),
    Primitive(Primitive),
}

/// The types that are built in.
#[derive(Debug, Clone, Copy, PartialEq, Eq)]
pub enum Primitive {
    String,
    Int,
}

} // verus!
