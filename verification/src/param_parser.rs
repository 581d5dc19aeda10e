//! The conversion of a parameter's text into a typed value.

use vstd::prelude::*;
use std::marker::PhantomData;
use std::str::FromStr;

verus! {

/// Turns the text of a parameter's value into a value of a type.
pub trait ParamParser {
    /// The type of the values that come out.
    type Value;

    /// The value that `value` stands for, or `None` if it stands for none.
    fn parse(&self, value: &str) -> Option<Self::Value> where Self::Value: FromStr;
}

/// The `ParamParser` that converts as the type `T` itself says, by its `FromStr`.
pub struct ParamParserTyped<T> {
    phantom: PhantomData<T>,
}

/// Converts with `str::parse`, which calls `T`'s own `FromStr`; nothing is
/// known of whether that conversion succeeds or of the value it gives.
#[verifier::external_body]
fn convert<T: FromStr>(value: &str) -> (r: Option<T>) {
    value.parse::<T>().ok()
}

impl<T> ParamParserTyped<T> {
    /// A parser for values of the type `T`.
    pub fn new() -> ParamParserTyped<T> {
        ParamParserTyped { phantom: PhantomData }
    }
}

impl<T> ParamParser for ParamParserTyped<T> {
    type Value = T;

    fn parse(&self, value: &str) -> Option<T> where T: FromStr {
        convert::<T>(value)
    }
}

} // verus!
