//! The three script contexts and their tags.

use vstd::prelude::*;
use crate::error::ReadError;
use crate::text::same_text;

verus! {

/// The rule set under which a term is read.
#[derive(Debug, Clone, Copy, PartialEq, Eq, Structural)]
pub enum Context {
    /// Pay-to-script-hash and bare scripts.
    Legacy,
    /// Segregated witness, version 0.
    SegwitV0,
    /// Taproot leaves.
    Taproot,
}

/// The context that a tag names, if any.
pub open spec fn context_of_tag(tag: Seq<char>) -> Option<Context> {
    if tag == "legacy"@ {
        Some(Context::Legacy)
    } else if tag == "segwit"@ {
        Some(Context::SegwitV0)
    } else if tag == "tap"@ {
        Some(Context::Taproot)
    } else {
        None
    }
}

impl Context {
    /// The tag that names this context.
    pub open spec fn tag_spec(self) -> Seq<char> {
        match self {
            Context::Legacy => "legacy"@,
            Context::SegwitV0 => "segwit"@,
            Context::Taproot => "tap"@,
        }
    }

    /// Looks a context up by its tag: `legacy`, `segwit` or `tap`. Any other
    /// tag is refused.
    pub fn from_tag(tag: &str) -> (r: Result<Context, ReadError>)
        ensures
            match context_of_tag(tag@) {
                Some(c) => r == Ok::<Context, ReadError>(c),
                None => r == Err::<Context, ReadError>(ReadError::InvalidContextTag),
            },
    {
        if same_text(tag, "legacy") {
            Ok(Context::Legacy)
        } else if same_text(tag, "segwit") {
            Ok(Context::SegwitV0)
        } else if same_text(tag, "tap") {
            Ok(Context::Taproot)
        } else {
            Err(ReadError::InvalidContextTag)
        }
    }

    /// The tag that names this context.
    pub fn tag(&self) -> (t: &'static str)
        ensures
            t@ == self.tag_spec(),
    {
        match self {
            Context::Legacy => "legacy",
            Context::SegwitV0 => "segwit",
            Context::Taproot => "tap",
        }
    }
}

/// A context's tag names that context again.
pub proof fn lemma_tag_names_context(c: Context)
    ensures
        context_of_tag(c.tag_spec()) == Some(c),
{
    reveal_strlit("legacy");
    reveal_strlit("segwit");
    reveal_strlit("tap");
    assert("legacy"@[0] == 'l' && "segwit"@[0] == 's' && "tap"@.len() == 3);
}

} // verus!
