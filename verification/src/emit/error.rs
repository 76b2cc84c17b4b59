//! Errors from emitting SQL or Substrait from a logical plan.

use vstd::prelude::*;

use crate::text::push_str;

verus! {

/// Emission failed (unsupported shape, invalid plan, or Substrait build error).
#[derive(Debug)]
pub enum EmitError {
    Unsupported(&'static str),
    InvalidPlan(&'static str),
    ColumnNotFound(String),
    UnsupportedExpression(String),
}

pub enum EmitErrorV {
    Unsupported(Seq<char>),
    InvalidPlan(Seq<char>),
    ColumnNotFound(Seq<char>),
    UnsupportedExpression(Seq<char>),
}

impl View for EmitError {
    type V = EmitErrorV;

    open spec fn view(&self) -> EmitErrorV {
        match self {
            EmitError::Unsupported(m) => EmitErrorV::Unsupported(m@),
            EmitError::InvalidPlan(m) => EmitErrorV::InvalidPlan(m@),
            EmitError::ColumnNotFound(m) => EmitErrorV::ColumnNotFound(m@),
            EmitError::UnsupportedExpression(m) => EmitErrorV::UnsupportedExpression(m@),
        }
    }
}

/// The message of an emission error.
pub open spec fn emit_error_message(e: EmitErrorV) -> Seq<char> {
    match e {
        EmitErrorV::Unsupported(m) => "unsupported logical plan for emission: "@ + m,
        EmitErrorV::InvalidPlan(m) => "invalid plan structure: "@ + m,
        EmitErrorV::ColumnNotFound(m) => "column not found in plan schema: "@ + m,
        EmitErrorV::UnsupportedExpression(m) => "unsupported expression for Substrait: "@ + m,
    }
}

impl EmitError {
    /// The message of the error (its `Display` text).
    pub fn to_string(&self) -> (res: String)
        ensures
            res@ == emit_error_message(self@),
    {
        let mut out = String::new();
        match self {
            EmitError::Unsupported(m) => {
                push_str(&mut out, "unsupported logical plan for emission: ");
                push_str(&mut out, m);
            },
            EmitError::InvalidPlan(m) => {
                push_str(&mut out, "invalid plan structure: ");
                push_str(&mut out, m);
            },
            EmitError::ColumnNotFound(m) => {
                push_str(&mut out, "column not found in plan schema: ");
                push_str(&mut out, m.as_str());
            },
            EmitError::UnsupportedExpression(m) => {
                push_str(&mut out, "unsupported expression for Substrait: ");
                push_str(&mut out, m.as_str());
            },
        }
        proof {
            reveal_strlit("unsupported logical plan for emission: ");
            reveal_strlit("invalid plan structure: ");
            reveal_strlit("column not found in plan schema: ");
            reveal_strlit("unsupported expression for Substrait: ");
        }
        out
    }
}

} // verus!
