//! Typed values: what the text of a property's value is taken to be.
//!
//! A text that denotes a sixty-four-bit integer is an integer. Failing that, a text written
//! as a floating-point literal is a float. Every other text is a string. The order matters:
//! `007` is the integer seven.

use crate::number::{float_literal, integer_value, is_float_literal, parse_integer};
use crate::text::chars_of;
use vstd::prelude::*;

verus! {

/// A property's value.
#[derive(Debug, PartialEq, Eq)]
pub enum INIValueType {
    /// A text that is neither of the two below, as written.
    INIString(String),
    /// An integer.
    INIInteger(i64),
    /// A floating-point number, held as the literal that was written: it is in the grammar
    /// of `float_literal` and denotes no sixty-four-bit integer.
    INIFloat(String),
}

/// A value as a mathematical value.
pub enum ValueView {
    Text(Seq<char>),
    Integer(int),
    Float(Seq<char>),
}

impl View for INIValueType {
    type V = ValueView;

    open spec fn view(&self) -> ValueView {
        match self {
            INIValueType::INIString(text) => ValueView::Text(text@),
            INIValueType::INIInteger(n) => ValueView::Integer(*n as int),
            INIValueType::INIFloat(literal) => ValueView::Float(literal@),
        }
    }
}

impl DeepView for INIValueType {
    type V = ValueView;

    open spec fn deep_view(&self) -> ValueView {
        self@
    }
}

/// The value that `text` is taken to be: integer before float before string.
pub open spec fn inferred(text: Seq<char>) -> ValueView {
    match integer_value(text) {
        Some(n) => ValueView::Integer(n),
        None => if float_literal(text) {
            ValueView::Float(text)
        } else {
            ValueView::Text(text)
        },
    }
}

impl INIValueType {
    /// The value that `value` is taken to be.
    pub fn to_ini_type(value: &String) -> (typed: INIValueType)
        ensures
            typed@ == inferred(value@),
    {
        let chars = chars_of(value.as_str());
        match parse_integer(&chars) {
            Some(n) => INIValueType::INIInteger(n),
            None => if is_float_literal(&chars) {
                INIValueType::INIFloat(value.clone())
            } else {
                INIValueType::INIString(value.clone())
            },
        }
    }
}

} // verus!
