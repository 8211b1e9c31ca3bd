//! The rule on how the layers of a descriptor may be nested.
//!
//! `sh`, `wsh`, `wpkh` and `tr`, applied to arguments, are layers of a
//! descriptor; a key that bears such a name is none. A layer may stand at
//! the top of a descriptor; `wsh` and `wpkh` may also stand directly under
//! a top-level `sh`. Anywhere else a layer is misplaced.

use vstd::prelude::*;
use crate::describing::starts_with_tr;
use crate::descriptor::is_tr_text;
use crate::expr::{Expr, ExprView, expr_views, lemma_view_args, parse_whole};
use crate::text::{char_at, part_of, same_text};

verus! {

/// Whether a name is that of a layer which another layer may wrap.
pub open spec fn is_witness_layer(name: Seq<char>) -> bool {
    name == "wsh"@ || name == "wpkh"@
}

/// Whether a name is that of a descriptor layer.
pub open spec fn is_layer(name: Seq<char>) -> bool {
    is_witness_layer(name) || name == "sh"@ || name == "tr"@
}

/// Whether a layer stands in `e` where none may stand. `under_sh` says
/// that `e` is the argument of a top-level `sh`.
pub open spec fn misplaced_in(e: ExprView, under_sh: bool) -> bool
    decreases e, 0nat,
{
    (is_layer(e.name) && e.args.len() > 0 && !(under_sh && is_witness_layer(e.name)))
        || misplaced_from(e.args, 0)
}

/// Whether a layer is misplaced in one of the arguments from `from` on.
pub open spec fn misplaced_from(args: Seq<ExprView>, from: nat) -> bool
    decreases args, args.len() - from,
{
    if from >= args.len() {
        false
    } else {
        misplaced_in(args[from as int], false) || misplaced_from(args, from + 1)
    }
}

/// Whether a descriptor's expression wraps a layer that it may not wrap.
pub open spec fn wraps_illegally(e: ExprView) -> bool {
    if e.args.len() == 1 {
        misplaced_in(e.args[0], e.name == "sh"@)
    } else {
        misplaced_from(e.args, 0)
    }
}

/// Where the first `#` at or after `i` stands, or the length of the text
/// if there is none.
pub open spec fn hash_at(s: Seq<char>, i: int) -> int
    decreases s.len() - i,
{
    if i < 0 || i >= s.len() || s[i] == '#' {
        i
    } else {
        hash_at(s, i + 1)
    }
}

/// A descriptor's text without the checksum that may follow it.
pub open spec fn without_checksum(s: Seq<char>) -> Seq<char> {
    s.subrange(0, hash_at(s, 0))
}

/// Whether a text, read as an expression, wraps a layer that it may not
/// wrap. A text that is no expression does not. Curly brackets are read as
/// brackets where the text starts with `tr(`.
pub open spec fn breaks_nesting(s: Seq<char>) -> bool {
    match parse_whole(without_checksum(s), is_tr_text(without_checksum(s))) {
        Some(e) => wraps_illegally(e),
        None => false,
    }
}

fn layer_is_misplaced(e: &Expr, under_sh: bool) -> (b: bool)
    ensures
        b == misplaced_in(e@, under_sh),
    decreases e, 0nat,
{
    proof {
        lemma_view_args(e);
    }
    let name = e.name.as_str();
    let witness = same_text(name, "wsh") || same_text(name, "wpkh");
    let layer = witness || same_text(name, "sh") || same_text(name, "tr");
    if layer && e.args.len() > 0 && !(under_sh && witness) {
        return true;
    }
    any_misplaced(&e.args)
}

fn any_misplaced(args: &Vec<Expr>) -> (b: bool)
    ensures
        b == misplaced_from(expr_views(args@), 0),
    decreases args, 1nat,
{
    let ghost views = expr_views(args@);
    let mut i: usize = args.len();
    while i > 0
        invariant
            i <= args.len(),
            views == expr_views(args@),
            !misplaced_from(views, i as nat),
        decreases i,
    {
        i -= 1;
        if layer_is_misplaced(&args[i], false) {
            proof {
                lemma_misplaced_at(views, 0, i as nat);
            }
            return true;
        }
    }
    false
}

/// A layer misplaced in one argument is misplaced in the list from any
/// place at or before it.
pub proof fn lemma_misplaced_at(args: Seq<ExprView>, from: nat, at: nat)
    requires
        from <= at < args.len(),
        misplaced_in(args[at as int], false),
    ensures
        misplaced_from(args, from),
    decreases at - from,
{
    if from < at {
        lemma_misplaced_at(args, from + 1, at);
    }
}

/// Where the first `#` of a text stands, or its length if it has none.
fn find_hash(s: &str, plain: bool, len: usize) -> (p: usize)
    requires
        plain ==> s.is_ascii(),
        len == s@.len(),
    ensures
        p == hash_at(s@, 0),
        p <= len,
{
    let mut p: usize = 0;
    while p < len
        invariant
            plain ==> s.is_ascii(),
            len == s@.len(),
            p <= len,
            hash_at(s@, 0) == hash_at(s@, p as int),
        decreases len - p,
    {
        if char_at(s, plain, p) == '#' {
            return p;
        }
        p += 1;
    }
    p
}

/// Whether a descriptor's text wraps a layer that it may not wrap, such
/// as `wsh` inside `wsh`.
pub fn nesting_is_broken(text: &str) -> (b: bool)
    ensures
        b == breaks_nesting(text@),
{
    let plain = text.is_ascii();
    let len = text.unicode_len();
    let end = find_hash(text, plain, len);
    let body = part_of(text, plain, 0, end);
    let inner = body.as_str();
    let braces = starts_with_tr(inner, inner.is_ascii(), inner.unicode_len());
    match Expr::parse(inner, braces) {
        Some(e) => {
            proof {
                lemma_view_args(&e);
            }
            if e.args.len() == 1 {
                layer_is_misplaced(&e.args[0], same_text(e.name.as_str(), "sh"))
            } else {
                any_misplaced(&e.args)
            }
        },
        None => false,
    }
}

} // verus!
