//! Reading of Bitcoin spending conditions. A miniscript term or an output
//! descriptor is validated under a script context by the `miniscript`
//! crate, read from the text that the crate prints for it into a typed
//! tree, and projected onto a small language-neutral value model.
//!
//! The notation of terms and descriptors, the reading and writing of it
//! and the projection are this crate's own and are proved: a well-formed
//! term is read back from its text, no two well-formed terms share a text,
//! and the projection of every term and descriptor is stated exactly.

use vstd::prelude::*;

pub mod context;
pub mod decimal;
pub mod describing;
pub mod descriptor;
pub mod error;
pub mod expr;
pub mod frag;
pub mod outside;
pub mod project;
pub mod reading;
pub mod structure;
pub mod term;
pub mod text;
pub mod value;
pub mod writing;

use crate::context::{Context, context_of_tag};
use crate::describing::project_descriptor;
use crate::descriptor::{Descriptor, descriptor_of_text};
use crate::error::{ReadError, is_refusal, is_unreadable};
use crate::outside::{
    decode_legacy, decode_segwit, decode_tap, descriptor_reading, legacy_decoding,
    legacy_reading, read_descriptor, read_legacy, read_segwit, read_tap, segwit_decoding,
    segwit_reading, tap_decoding, tap_reading,
};
use crate::project::project_term;
use crate::structure::{breaks_nesting, nesting_is_broken};
use crate::term::{Term, term_of_text};
use crate::value::Value;

verus! {

/// Whether a term may do without a signature. It may: a lock time or a
/// hash preimage alone is a term.
pub const UNSIGNED_TERMS: bool = true;

/// What the validating parser of a context makes of a text: the term it
/// found, printed; or, where it refuses the text, whether it reports a
/// broken rule of the context, and the cause it reports.
pub open spec fn reading(c: Context, text: Seq<char>) -> Result<Seq<char>, (bool, Seq<char>)> {
    match c {
        Context::Legacy => legacy_reading(text, UNSIGNED_TERMS),
        Context::SegwitV0 => segwit_reading(text, UNSIGNED_TERMS),
        Context::Taproot => tap_reading(text, UNSIGNED_TERMS),
    }
}

/// What the validating parser of a context makes of the bytes of a script.
pub open spec fn decoding(c: Context, script: Seq<u8>) -> Result<Seq<char>, (bool, Seq<char>)> {
    match c {
        Context::Legacy => legacy_decoding(script, UNSIGNED_TERMS),
        Context::SegwitV0 => segwit_decoding(script, UNSIGNED_TERMS),
        Context::Taproot => tap_decoding(script, UNSIGNED_TERMS),
    }
}

/// Whether the validating parser of another context accepts the text.
pub open spec fn read_elsewhere(c: Context, text: Seq<char>) -> bool {
    match c {
        Context::Legacy => segwit_reading(text, UNSIGNED_TERMS) is Ok
            || tap_reading(text, UNSIGNED_TERMS) is Ok,
        Context::SegwitV0 => legacy_reading(text, UNSIGNED_TERMS) is Ok
            || tap_reading(text, UNSIGNED_TERMS) is Ok,
        Context::Taproot => legacy_reading(text, UNSIGNED_TERMS) is Ok
            || segwit_reading(text, UNSIGNED_TERMS) is Ok,
    }
}

/// Whether the validating parser of another context accepts the script.
pub open spec fn decoded_elsewhere(c: Context, script: Seq<u8>) -> bool {
    match c {
        Context::Legacy => segwit_decoding(script, UNSIGNED_TERMS) is Ok
            || tap_decoding(script, UNSIGNED_TERMS) is Ok,
        Context::SegwitV0 => legacy_decoding(script, UNSIGNED_TERMS) is Ok
            || tap_decoding(script, UNSIGNED_TERMS) is Ok,
        Context::Taproot => legacy_decoding(script, UNSIGNED_TERMS) is Ok
            || segwit_decoding(script, UNSIGNED_TERMS) is Ok,
    }
}

/// The error of this crate for what the validating parser reports of an
/// input that it refuses: a context violation where the parser says so or
/// another context accepts the input, a grammar error otherwise, with the
/// cause that the parser reports.
fn refusal(refused: (bool, String), elsewhere: bool) -> (r: ReadError)
    ensures
        is_refusal(refused.0, elsewhere, refused.1@, r),
{
    ReadError::refused(refused.0, elsewhere, refused.1)
}

/// Whether the validating parser of another context accepts the text.
fn is_read_elsewhere(text: &str, context: Context) -> (b: bool)
    ensures
        b == read_elsewhere(context, text@),
{
    match context {
        Context::Legacy => read_segwit(text, UNSIGNED_TERMS).is_ok()
            || read_tap(text, UNSIGNED_TERMS).is_ok(),
        Context::SegwitV0 => read_legacy(text, UNSIGNED_TERMS).is_ok()
            || read_tap(text, UNSIGNED_TERMS).is_ok(),
        Context::Taproot => read_legacy(text, UNSIGNED_TERMS).is_ok()
            || read_segwit(text, UNSIGNED_TERMS).is_ok(),
    }
}

/// Whether the validating parser of another context accepts the script.
fn is_decoded_elsewhere(script: &[u8], context: Context) -> (b: bool)
    ensures
        b == decoded_elsewhere(context, script@),
{
    match context {
        Context::Legacy => decode_segwit(script, UNSIGNED_TERMS).is_ok()
            || decode_tap(script, UNSIGNED_TERMS).is_ok(),
        Context::SegwitV0 => decode_legacy(script, UNSIGNED_TERMS).is_ok()
            || decode_tap(script, UNSIGNED_TERMS).is_ok(),
        Context::Taproot => decode_legacy(script, UNSIGNED_TERMS).is_ok()
            || decode_segwit(script, UNSIGNED_TERMS).is_ok(),
    }
}

/// The error for a printed term that is not in the notation of this crate.
fn unreadable() -> (r: ReadError)
    ensures
        is_unreadable(r),
{
    ReadError::Grammar(String::from_str("the validated term is not in the notation that is read"))
}

/// Reads the term that was validated and printed.
fn read_printed(printed: &str) -> (r: Result<Term, ReadError>)
    ensures
        match term_of_text(printed@) {
            Some(t) => r matches Ok(x) && x@ == t,
            None => r matches Err(e) && is_unreadable(e),
        },
{
    match Term::from_text(printed) {
        Some(t) => Ok(t),
        None => Err(unreadable()),
    }
}

/// Validates a text under a context and gives the text of the term that
/// it is.
fn read_under(text: &str, context: Context) -> (r: Result<String, ReadError>)
    ensures
        match reading(context, text@) {
            Ok(printed) => r matches Ok(found) && found@ == printed,
            Err(refused) => r matches Err(e) && is_refusal(
                refused.0,
                read_elsewhere(context, text@),
                refused.1,
                e,
            ),
        },
{
    let validated = match context {
        Context::Legacy => read_legacy(text, UNSIGNED_TERMS),
        Context::SegwitV0 => read_segwit(text, UNSIGNED_TERMS),
        Context::Taproot => read_tap(text, UNSIGNED_TERMS),
    };
    match validated {
        Ok(printed) => Ok(printed),
        Err(refused) => Err(refusal(refused, is_read_elsewhere(text, context))),
    }
}

/// Decodes a script under a context and gives the text of the term that
/// it is.
fn decode_under(script: &[u8], context: Context) -> (r: Result<String, ReadError>)
    ensures
        match decoding(context, script@) {
            Ok(printed) => r matches Ok(found) && found@ == printed,
            Err(refused) => r matches Err(e) && is_refusal(
                refused.0,
                decoded_elsewhere(context, script@),
                refused.1,
                e,
            ),
        },
{
    let validated = match context {
        Context::Legacy => decode_legacy(script, UNSIGNED_TERMS),
        Context::SegwitV0 => decode_segwit(script, UNSIGNED_TERMS),
        Context::Taproot => decode_tap(script, UNSIGNED_TERMS),
    };
    match validated {
        Ok(printed) => Ok(printed),
        Err(refused) => Err(refusal(refused, is_decoded_elsewhere(script, context))),
    }
}

/// Reads a term from its text under a context. The text is validated
/// under the context; what was validated is read into a term. A text that
/// is refused carries the cause that the validating parser reports; it is a
/// context violation where the parser reports one or where another context
/// accepts the text, and a grammar error otherwise.
pub fn parse_text(text: &str, context: Context) -> (r: Result<Term, ReadError>)
    ensures
        match reading(context, text@) {
            Ok(printed) => match term_of_text(printed) {
                Some(t) => r matches Ok(x) && x@ == t,
                None => r matches Err(e) && is_unreadable(e),
            },
            Err(refused) => r matches Err(e) && is_refusal(
                refused.0,
                read_elsewhere(context, text@),
                refused.1,
                e,
            ),
        },
{
    match read_under(text, context) {
        Ok(printed) => read_printed(printed.as_str()),
        Err(e) => Err(e),
    }
}

/// Reads a term from the bytes of a script under a context.
pub fn parse_script(script: &[u8], context: Context) -> (r: Result<Term, ReadError>)
    ensures
        match decoding(context, script@) {
            Ok(printed) => match term_of_text(printed) {
                Some(t) => r matches Ok(x) && x@ == t,
                None => r matches Err(e) && is_unreadable(e),
            },
            Err(refused) => r matches Err(e) && is_refusal(
                refused.0,
                decoded_elsewhere(context, script@),
                refused.1,
                e,
            ),
        },
{
    match decode_under(script, context) {
        Ok(printed) => read_printed(printed.as_str()),
        Err(e) => Err(e),
    }
}

/// Whether `e` is the error for a descriptor's text that the validating
/// parser refused: a structure error where the text wraps a layer that it
/// may not wrap, else a context violation where the parser reports one and
/// a grammar error otherwise; each with the cause that the parser reports.
pub open spec fn is_descriptor_refusal(
    text: Seq<char>,
    contextual: bool,
    cause: Seq<char>,
    e: ReadError,
) -> bool {
    if breaks_nesting(text) {
        e matches ReadError::DescriptorStructure(c) && c@ == cause
    } else {
        is_refusal(contextual, false, cause, e)
    }
}

/// Reads a descriptor from its text, with or without a checksum. Keys are
/// taken as plain texts. Where the text is refused and wraps a layer that
/// it may not wrap, the error says so.
pub fn parse_descriptor(text: &str) -> (r: Result<Descriptor, ReadError>)
    ensures
        match descriptor_reading(text@) {
            Ok(found) => match descriptor_of_text(found.0, found.1) {
                Some(d) => r matches Ok(x) && x@ == d,
                None => r matches Err(e) && is_unreadable(e),
            },
            Err(refused) => r matches Err(e) && is_descriptor_refusal(
                text@,
                refused.0,
                refused.1,
                e,
            ),
        },
{
    match read_descriptor(text) {
        Ok(found) => match Descriptor::from_text(found.0, found.1.as_str()) {
            Some(d) => Ok(d),
            None => Err(unreadable()),
        },
        Err(refused) => {
            if nesting_is_broken(text) {
                Err(ReadError::DescriptorStructure(refused.1))
            } else {
                Err(refusal(refused, false))
            }
        },
    }
}

/// Decodes a script under the context that the tag names and gives the
/// text of the term that it is. Tags are `legacy`, `segwit` and `tap`.
pub fn miniscript_from_script(script: &[u8], context_type: &str) -> (r: Result<String, ReadError>)
    ensures
        match context_of_tag(context_type@) {
            Some(c) => match decoding(c, script@) {
                Ok(printed) => r matches Ok(text) && text@ == printed,
                Err(refused) => r matches Err(e) && is_refusal(
                    refused.0,
                    decoded_elsewhere(c, script@),
                    refused.1,
                    e,
                ),
            },
            None => r == Err::<String, ReadError>(ReadError::InvalidContextTag),
        },
{
    match Context::from_tag(context_type) {
        Ok(context) => decode_under(script, context),
        Err(e) => Err(e),
    }
}

/// Reads a term from its text under the context that the tag names and
/// projects it onto a value. Tags are `legacy`, `segwit` and `tap`; with
/// any other tag nothing is read.
pub fn miniscript_nodes_from_string(script: &str, context_type: &str) -> (r: Result<
    Value,
    ReadError,
>)
    ensures
        match context_of_tag(context_type@) {
            Some(c) => match reading(c, script@) {
                Ok(printed) => match term_of_text(printed) {
                    Some(t) => r matches Ok(v) && v@ == project_term(t),
                    None => r matches Err(e) && is_unreadable(e),
                },
                Err(refused) => r matches Err(e) && is_refusal(
                    refused.0,
                    read_elsewhere(c, script@),
                    refused.1,
                    e,
                ),
            },
            None => r == Err::<Value, ReadError>(ReadError::InvalidContextTag),
        },
{
    let context = match Context::from_tag(context_type) {
        Ok(c) => c,
        Err(e) => {
            return Err(e);
        },
    };
    match parse_text(script, context) {
        Ok(t) => Ok(t.to_value()),
        Err(e) => Err(e),
    }
}

/// Reads a descriptor from its text and projects it onto a value.
pub fn descriptor_nodes_from_string(descriptor: &str) -> (r: Result<Value, ReadError>)
    ensures
        match descriptor_reading(descriptor@) {
            Ok(found) => match descriptor_of_text(found.0, found.1) {
                Some(d) => r matches Ok(v) && v@ == project_descriptor(d),
                None => r matches Err(e) && is_unreadable(e),
            },
            Err(refused) => r matches Err(e) && is_descriptor_refusal(
                descriptor@,
                refused.0,
                refused.1,
                e,
            ),
        },
{
    match parse_descriptor(descriptor) {
        Ok(d) => Ok(d.to_value()),
        Err(e) => Err(e),
    }
}

} // verus!
