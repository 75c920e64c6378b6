//! The fatal conditions that abort a generation run. A run either succeeds
//! for every protocol it keeps, or stops on the first of these; no artifact
//! is produced then.

use vstd::prelude::*;

verus! {

/// A fatal condition, one variant per violated invariant.
#[derive(Debug)]
pub enum GenError {
    /// Two binding directives claim the same protocol.
    DuplicateBinding { protocol: String },
    /// Two declarations are tagged as the component aggregate of one protocol.
    DuplicateComponentAggregate { protocol: String },
    /// Two declarations are tagged as the message aggregate of one protocol.
    DuplicateMessageAggregate { protocol: String },
    /// Two declarations are tagged as the input aggregate of one protocol.
    DuplicateInputAggregate { protocol: String },
    /// A binding directive without the mandatory `Self = Name` field.
    DirectiveMissingName,
    /// A binding directive whose body is not a list of `name = value` pairs
    /// with identifier values where one is required.
    MalformedDirective,
    /// A recognized annotation whose arguments do not fit the grammar, or
    /// whose `protocol = ...` value does not name an identifier.
    MalformedAnnotation,
    /// A piece of text that must become an identifier but cannot.
    InvalidIdentifier { text: String },
    /// A generatable protocol without a hand-written input aggregate: input
    /// synthesis is an open extension point and fails loudly.
    InputSynthesisUnimplemented { protocol: String },
}

/// The mathematical value of a `GenError`.
pub enum GenErrorV {
    DuplicateBinding { protocol: Seq<char> },
    DuplicateComponentAggregate { protocol: Seq<char> },
    DuplicateMessageAggregate { protocol: Seq<char> },
    DuplicateInputAggregate { protocol: Seq<char> },
    DirectiveMissingName,
    MalformedDirective,
    MalformedAnnotation,
    InvalidIdentifier { text: Seq<char> },
    InputSynthesisUnimplemented { protocol: Seq<char> },
}

impl DeepView for GenError {
    type V = GenErrorV;

    open spec fn deep_view(&self) -> GenErrorV {
        match self {
            GenError::DuplicateBinding { protocol } => GenErrorV::DuplicateBinding {
                protocol: protocol@,
            },
            GenError::DuplicateComponentAggregate { protocol } => GenErrorV::DuplicateComponentAggregate {
                protocol: protocol@,
            },
            GenError::DuplicateMessageAggregate { protocol } => GenErrorV::DuplicateMessageAggregate {
                protocol: protocol@,
            },
            GenError::DuplicateInputAggregate { protocol } => GenErrorV::DuplicateInputAggregate {
                protocol: protocol@,
            },
            GenError::DirectiveMissingName => GenErrorV::DirectiveMissingName,
            GenError::MalformedDirective => GenErrorV::MalformedDirective,
            GenError::MalformedAnnotation => GenErrorV::MalformedAnnotation,
            GenError::InvalidIdentifier { text } => GenErrorV::InvalidIdentifier { text: text@ },
            GenError::InputSynthesisUnimplemented { protocol } => GenErrorV::InputSynthesisUnimplemented {
                protocol: protocol@,
            },
        }
    }
}

} // verus!
