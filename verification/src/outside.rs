//! The calls into the `miniscript` crate. Nothing in this file is proved:
//! each contract states what the crate's source shows of the call.
//!
//! The crate validates a text or a script under a script context and hands
//! back the term it found. Its parsers, its `Display` impls and the `Debug`
//! impl of its error are pure functions of their input, so what a wrapper
//! hands back is given a name here; the names say nothing about which
//! inputs are accepted.
//!
//! Terms are validated with the parameters `ExtParams::sane()`, under
//! which every rule of the crate holds, the limits on operations and stack
//! size among them; but for the field `top_unsafe`, which the caller sets
//! and which says whether a term may do without a signature.

use vstd::prelude::*;

verus! {

/// The composition of two functions of the crate. First
/// `Miniscript::<bitcoin::PublicKey, Legacy>::from_str_ext` parses the text
/// with the parameters `ExtParams::sane()` and the given `top_unsafe`.
/// Where it accepts, `Display` prints the term it found, and that text is
/// the `Ok` value. Where it refuses, the `Err` value holds whether the error is the
/// variant `Error::ContextError`, and the error as `Debug` prints it.
pub uninterp spec fn legacy_reading(text: Seq<char>, top_unsafe: bool) -> Result<
    Seq<char>,
    (bool, Seq<char>),
>;

/// The same composition for
/// `Miniscript::<bitcoin::PublicKey, Segwitv0>::from_str_ext`.
pub uninterp spec fn segwit_reading(text: Seq<char>, top_unsafe: bool) -> Result<
    Seq<char>,
    (bool, Seq<char>),
>;

/// The same composition for `Miniscript::<XOnlyPublicKey, Tap>::from_str_ext`.
pub uninterp spec fn tap_reading(text: Seq<char>, top_unsafe: bool) -> Result<
    Seq<char>,
    (bool, Seq<char>),
>;

/// The composition of two functions of the crate. First
/// `Miniscript::<bitcoin::PublicKey, Legacy>::parse_with_ext` decodes the
/// script that the bytes are, with the parameters `ExtParams::sane()` and
/// the given `top_unsafe`. Where it accepts, `Display` prints the term it
/// found, and that text is the `Ok` value. Where it refuses, the `Err` value holds whether
/// the error is the variant `Error::ContextError`, and the error as `Debug`
/// prints it.
pub uninterp spec fn legacy_decoding(script: Seq<u8>, top_unsafe: bool) -> Result<
    Seq<char>,
    (bool, Seq<char>),
>;

/// The same composition for
/// `Miniscript::<bitcoin::PublicKey, Segwitv0>::parse_with_ext`.
pub uninterp spec fn segwit_decoding(script: Seq<u8>, top_unsafe: bool) -> Result<
    Seq<char>,
    (bool, Seq<char>),
>;

/// The same composition for `Miniscript::<XOnlyPublicKey, Tap>::parse_with_ext`.
pub uninterp spec fn tap_decoding(script: Seq<u8>, top_unsafe: bool) -> Result<
    Seq<char>,
    (bool, Seq<char>),
>;

/// The composition of two functions of the crate. First
/// `Descriptor::<String>::from_str` parses the text. Where it accepts, the
/// `Ok` value holds whether the descriptor is the variant `Bare`, and the
/// descriptor as `Display` prints it under the alternate flag, which leaves
/// the checksum out. Where it refuses, the `Err` value holds whether the
/// error is the variant `Error::ContextError`, and the error as `Debug`
/// prints it.
pub uninterp spec fn descriptor_reading(text: Seq<char>) -> Result<
    (bool, Seq<char>),
    (bool, Seq<char>),
>;

/// Calls `Miniscript::<bitcoin::PublicKey, Legacy>::from_str_ext`, which
/// parses the text, checks the types of the term and holds it to the rules
/// of the legacy context, and prints the term with `Display`, or the error
/// with `Debug`.
#[verifier::external_body]
pub(crate) fn read_legacy(text: &str, top_unsafe: bool) -> (r: Result<
    String,
    (bool, String),
>)
    ensures
        match r {
            Ok(printed) => legacy_reading(text@, top_unsafe) == Ok::<
                Seq<char>,
                (bool, Seq<char>),
            >(printed@),
            Err(refused) => legacy_reading(text@, top_unsafe) == Err::<
                Seq<char>,
                (bool, Seq<char>),
            >((refused.0, refused.1@)),
        },
{
    let rules = miniscript::ExtParams { top_unsafe, ..miniscript::ExtParams::sane() };
    match miniscript::Miniscript::<miniscript::bitcoin::PublicKey, miniscript::Legacy>::from_str_ext(text, &rules) {
        Ok(ms) => Ok(ms.to_string()),
        Err(e) => Err((matches!(e, miniscript::Error::ContextError(_)), format!("{:?}", e))),
    }
}

/// Calls `Miniscript::<bitcoin::PublicKey, Segwitv0>::from_str_ext` and
/// prints the term with `Display`, or the error with `Debug`.
#[verifier::external_body]
pub(crate) fn read_segwit(text: &str, top_unsafe: bool) -> (r: Result<
    String,
    (bool, String),
>)
    ensures
        match r {
            Ok(printed) => segwit_reading(text@, top_unsafe) == Ok::<
                Seq<char>,
                (bool, Seq<char>),
            >(printed@),
            Err(refused) => segwit_reading(text@, top_unsafe) == Err::<
                Seq<char>,
                (bool, Seq<char>),
            >((refused.0, refused.1@)),
        },
{
    let rules = miniscript::ExtParams { top_unsafe, ..miniscript::ExtParams::sane() };
    match miniscript::Miniscript::<miniscript::bitcoin::PublicKey, miniscript::Segwitv0>::from_str_ext(text, &rules) {
        Ok(ms) => Ok(ms.to_string()),
        Err(e) => Err((matches!(e, miniscript::Error::ContextError(_)), format!("{:?}", e))),
    }
}

/// Calls `Miniscript::<XOnlyPublicKey, Tap>::from_str_ext` and prints the
/// term with `Display`, or the error with `Debug`.
#[verifier::external_body]
pub(crate) fn read_tap(text: &str, top_unsafe: bool) -> (r: Result<
    String,
    (bool, String),
>)
    ensures
        match r {
            Ok(printed) => tap_reading(text@, top_unsafe) == Ok::<
                Seq<char>,
                (bool, Seq<char>),
            >(printed@),
            Err(refused) => tap_reading(text@, top_unsafe) == Err::<
                Seq<char>,
                (bool, Seq<char>),
            >((refused.0, refused.1@)),
        },
{
    let rules = miniscript::ExtParams { top_unsafe, ..miniscript::ExtParams::sane() };
    match miniscript::Miniscript::<miniscript::bitcoin::XOnlyPublicKey, miniscript::Tap>::from_str_ext(text, &rules) {
        Ok(ms) => Ok(ms.to_string()),
        Err(e) => Err((matches!(e, miniscript::Error::ContextError(_)), format!("{:?}", e))),
    }
}

/// Calls `Miniscript::<bitcoin::PublicKey, Legacy>::parse_with_ext` on the
/// script that the bytes are, and prints the term with `Display`, or the
/// error with `Debug`.
#[verifier::external_body]
pub(crate) fn decode_legacy(script: &[u8], top_unsafe: bool) -> (r: Result<
    String,
    (bool, String),
>)
    ensures
        match r {
            Ok(printed) => legacy_decoding(script@, top_unsafe) == Ok::<
                Seq<char>,
                (bool, Seq<char>),
            >(printed@),
            Err(refused) => legacy_decoding(script@, top_unsafe) == Err::<
                Seq<char>,
                (bool, Seq<char>),
            >((refused.0, refused.1@)),
        },
{
    let rules = miniscript::ExtParams { top_unsafe, ..miniscript::ExtParams::sane() };
    let script = miniscript::bitcoin::Script::from_bytes(script);
    match miniscript::Miniscript::<miniscript::bitcoin::PublicKey, miniscript::Legacy>::parse_with_ext(script, &rules) {
        Ok(ms) => Ok(ms.to_string()),
        Err(e) => Err((matches!(e, miniscript::Error::ContextError(_)), format!("{:?}", e))),
    }
}

/// Calls `Miniscript::<bitcoin::PublicKey, Segwitv0>::parse_with_ext` and
/// prints the term with `Display`, or the error with `Debug`.
#[verifier::external_body]
pub(crate) fn decode_segwit(script: &[u8], top_unsafe: bool) -> (r: Result<
    String,
    (bool, String),
>)
    ensures
        match r {
            Ok(printed) => segwit_decoding(script@, top_unsafe) == Ok::<
                Seq<char>,
                (bool, Seq<char>),
            >(printed@),
            Err(refused) => segwit_decoding(script@, top_unsafe) == Err::<
                Seq<char>,
                (bool, Seq<char>),
            >((refused.0, refused.1@)),
        },
{
    let rules = miniscript::ExtParams { top_unsafe, ..miniscript::ExtParams::sane() };
    let script = miniscript::bitcoin::Script::from_bytes(script);
    match miniscript::Miniscript::<miniscript::bitcoin::PublicKey, miniscript::Segwitv0>::parse_with_ext(script, &rules) {
        Ok(ms) => Ok(ms.to_string()),
        Err(e) => Err((matches!(e, miniscript::Error::ContextError(_)), format!("{:?}", e))),
    }
}

/// Calls `Miniscript::<XOnlyPublicKey, Tap>::parse_with_ext` and prints the
/// term with `Display`, or the error with `Debug`.
#[verifier::external_body]
pub(crate) fn decode_tap(script: &[u8], top_unsafe: bool) -> (r: Result<
    String,
    (bool, String),
>)
    ensures
        match r {
            Ok(printed) => tap_decoding(script@, top_unsafe) == Ok::<
                Seq<char>,
                (bool, Seq<char>),
            >(printed@),
            Err(refused) => tap_decoding(script@, top_unsafe) == Err::<
                Seq<char>,
                (bool, Seq<char>),
            >((refused.0, refused.1@)),
        },
{
    let rules = miniscript::ExtParams { top_unsafe, ..miniscript::ExtParams::sane() };
    let script = miniscript::bitcoin::Script::from_bytes(script);
    match miniscript::Miniscript::<miniscript::bitcoin::XOnlyPublicKey, miniscript::Tap>::parse_with_ext(script, &rules) {
        Ok(ms) => Ok(ms.to_string()),
        Err(e) => Err((matches!(e, miniscript::Error::ContextError(_)), format!("{:?}", e))),
    }
}

/// Calls `Descriptor::<String>::from_str`, which verifies a checksum if the
/// text has one and parses the descriptor with its keys as plain texts.
/// Hands back whether the descriptor is the variant `Bare` and the
/// descriptor as `Display` prints it under the alternate flag, or the error
/// as `Debug` prints it.
#[verifier::external_body]
pub(crate) fn read_descriptor(text: &str) -> (r: Result<(bool, String), (bool, String)>)
    ensures
        match r {
            Ok(found) => descriptor_reading(text@) == Ok::<(bool, Seq<char>), (bool, Seq<char>)>(
                (found.0, found.1@),
            ),
            Err(refused) => descriptor_reading(text@) == Err::<
                (bool, Seq<char>),
                (bool, Seq<char>),
            >((refused.0, refused.1@)),
        },
{
    match text.parse::<miniscript::Descriptor<String>>() {
        Ok(d) => Ok((matches!(d, miniscript::Descriptor::Bare(_)), format!("{:#}", d))),
        Err(e) => Err((matches!(e, miniscript::Error::ContextError(_)), format!("{:?}", e))),
    }
}

} // verus!
