//! The ways in which reading an input can fail.

use vstd::prelude::*;

verus! {

/// Why an input was refused. The text carried by a variant is the cause:
/// the error of the validating parser as it is printed for debugging.
#[derive(Debug, PartialEq, Eq)]
pub enum ReadError {
    /// The context tag is not one of the three known tags.
    InvalidContextTag,
    /// The input matches no production of the grammar.
    Grammar(String),
    /// The input is grammatical but not allowed under the chosen context.
    ContextViolation(String),
    /// A descriptor wraps something that it may not wrap.
    DescriptorStructure(String),
}

/// The message that is shown for an unknown context tag.
pub open spec fn invalid_context_message() -> Seq<char> {
    "Invalid context type"@
}

/// The cause that is given where the validating parser accepted an input
/// and what it printed is not written in the notation that is read here.
pub open spec fn unreadable_message() -> Seq<char> {
    "the validated term is not in the notation that is read"@
}

/// Whether an error is the grammar error for a printed term that is not
/// written in the notation that is read here.
pub open spec fn is_unreadable(e: ReadError) -> bool {
    e matches ReadError::Grammar(cause) && cause@ == unreadable_message()
}

/// Whether `e` is the error for an input that the validating parser
/// refused with `cause`: a context violation where the parser reported one
/// or another context accepts the input, a grammar error otherwise; either
/// carries the cause.
pub open spec fn is_refusal(
    contextual: bool,
    elsewhere: bool,
    cause: Seq<char>,
    e: ReadError,
) -> bool {
    if contextual || elsewhere {
        e matches ReadError::ContextViolation(text) && text@ == cause
    } else {
        e matches ReadError::Grammar(text) && text@ == cause
    }
}

impl ReadError {
    /// The error for an input that the validating parser refused.
    /// `contextual` says that the parser reported a broken rule of the
    /// context, `elsewhere` that another context accepts the input, and
    /// `cause` is what the parser reported.
    pub fn refused(contextual: bool, elsewhere: bool, cause: String) -> (e: ReadError)
        ensures
            is_refusal(contextual, elsewhere, cause@, e),
    {
        if contextual || elsewhere {
            ReadError::ContextViolation(cause)
        } else {
            ReadError::Grammar(cause)
        }
    }

    /// The text that a caller is shown.
    pub open spec fn message_spec(self) -> Seq<char> {
        match self {
            ReadError::InvalidContextTag => invalid_context_message(),
            ReadError::Grammar(cause) => cause@,
            ReadError::ContextViolation(cause) => cause@,
            ReadError::DescriptorStructure(cause) => cause@,
        }
    }

    /// The text that a caller is shown: the fixed message for an unknown
    /// context tag, the reported cause otherwise.
    pub fn message(&self) -> (text: String)
        ensures
            text@ == self.message_spec(),
    {
        match self {
            ReadError::InvalidContextTag => String::from_str("Invalid context type"),
            ReadError::Grammar(cause) => cause.clone(),
            ReadError::ContextViolation(cause) => cause.clone(),
            ReadError::DescriptorStructure(cause) => cause.clone(),
        }
    }
}

} // verus!
