//! The names under which the kinds of term are written.

use vstd::prelude::*;
use crate::expr::free_of_delimiters;
use crate::text::same_text;

verus! {

/// The three ways in which a term names a key or a key hash.
#[derive(Debug, Clone, Copy, PartialEq, Eq, Structural)]
pub enum KeyCheck {
    PkK,
    PkH,
    RawPkH,
}

/// The four digest algorithms of the hash-preimage terms.
#[derive(Debug, Clone, Copy, PartialEq, Eq, Structural)]
pub enum HashKind {
    Sha256,
    Hash256,
    Ripemd160,
    Hash160,
}

/// The wrappers that own one child.
#[derive(Debug, Clone, Copy, PartialEq, Eq, Structural)]
pub enum Wrapper {
    Alt,
    Swap,
    Check,
    DupIf,
    Verify,
    NonZero,
    ZeroNotEqual,
}

/// The combinators that own two children, in order.
#[derive(Debug, Clone, Copy, PartialEq, Eq, Structural)]
pub enum Combinator {
    AndV,
    AndB,
    OrB,
    OrD,
    OrC,
    OrI,
}

/// The two multi-key terms.
#[derive(Debug, Clone, Copy, PartialEq, Eq, Structural)]
pub enum MultiKind {
    Multi,
    MultiA,
}

/// What a written name stands for.
#[derive(Debug, Clone, Copy, PartialEq, Eq, Structural)]
pub enum Frag {
    True,
    False,
    Key(KeyCheck),
    /// A key check under a `Check` wrapper, written as one name.
    Alias(KeyCheck),
    After,
    Older,
    Hash(HashKind),
    Comb(Combinator),
    /// `AndOr` whose third child is `False`, written with two arguments.
    AndN,
    AndOr,
    Thresh,
    Multi(MultiKind),
}

/// The name under which a fragment is written.
pub open spec fn frag_name(f: Frag) -> Seq<char> {
    match f {
        Frag::True => "1"@,
        Frag::False => "0"@,
        Frag::Key(KeyCheck::PkK) => "pk_k"@,
        Frag::Key(KeyCheck::PkH) => "pk_h"@,
        Frag::Key(KeyCheck::RawPkH) => "expr_raw_pk_h"@,
        Frag::Alias(KeyCheck::PkK) => "pk"@,
        Frag::Alias(KeyCheck::PkH) => "pkh"@,
        Frag::Alias(KeyCheck::RawPkH) => "expr_raw_pkh"@,
        Frag::After => "after"@,
        Frag::Older => "older"@,
        Frag::Hash(HashKind::Sha256) => "sha256"@,
        Frag::Hash(HashKind::Hash256) => "hash256"@,
        Frag::Hash(HashKind::Ripemd160) => "ripemd160"@,
        Frag::Hash(HashKind::Hash160) => "hash160"@,
        Frag::Comb(Combinator::AndV) => "and_v"@,
        Frag::Comb(Combinator::AndB) => "and_b"@,
        Frag::Comb(Combinator::OrB) => "or_b"@,
        Frag::Comb(Combinator::OrD) => "or_d"@,
        Frag::Comb(Combinator::OrC) => "or_c"@,
        Frag::Comb(Combinator::OrI) => "or_i"@,
        Frag::AndN => "and_n"@,
        Frag::AndOr => "andor"@,
        Frag::Thresh => "thresh"@,
        Frag::Multi(MultiKind::Multi) => "multi"@,
        Frag::Multi(MultiKind::MultiA) => "multi_a"@,
    }
}

/// The fragment that a name stands for, if any.
pub open spec fn frag_named(s: Seq<char>) -> Option<Frag> {
    if s == "1"@ {
        Some(Frag::True)
    } else if s == "0"@ {
        Some(Frag::False)
    } else if s == "pk_k"@ {
        Some(Frag::Key(KeyCheck::PkK))
    } else if s == "pk_h"@ {
        Some(Frag::Key(KeyCheck::PkH))
    } else if s == "expr_raw_pk_h"@ {
        Some(Frag::Key(KeyCheck::RawPkH))
    } else if s == "pk"@ {
        Some(Frag::Alias(KeyCheck::PkK))
    } else if s == "pkh"@ {
        Some(Frag::Alias(KeyCheck::PkH))
    } else if s == "expr_raw_pkh"@ {
        Some(Frag::Alias(KeyCheck::RawPkH))
    } else if s == "after"@ {
        Some(Frag::After)
    } else if s == "older"@ {
        Some(Frag::Older)
    } else if s == "sha256"@ {
        Some(Frag::Hash(HashKind::Sha256))
    } else if s == "hash256"@ {
        Some(Frag::Hash(HashKind::Hash256))
    } else if s == "ripemd160"@ {
        Some(Frag::Hash(HashKind::Ripemd160))
    } else if s == "hash160"@ {
        Some(Frag::Hash(HashKind::Hash160))
    } else if s == "and_v"@ {
        Some(Frag::Comb(Combinator::AndV))
    } else if s == "and_b"@ {
        Some(Frag::Comb(Combinator::AndB))
    } else if s == "or_b"@ {
        Some(Frag::Comb(Combinator::OrB))
    } else if s == "or_d"@ {
        Some(Frag::Comb(Combinator::OrD))
    } else if s == "or_c"@ {
        Some(Frag::Comb(Combinator::OrC))
    } else if s == "or_i"@ {
        Some(Frag::Comb(Combinator::OrI))
    } else if s == "and_n"@ {
        Some(Frag::AndN)
    } else if s == "andor"@ {
        Some(Frag::AndOr)
    } else if s == "thresh"@ {
        Some(Frag::Thresh)
    } else if s == "multi"@ {
        Some(Frag::Multi(MultiKind::Multi))
    } else if s == "multi_a"@ {
        Some(Frag::Multi(MultiKind::MultiA))
    } else {
        None
    }
}

/// The fragment that a name stands for, if any.
pub fn find_frag(s: &str) -> (f: Option<Frag>)
    ensures
        f == frag_named(s@),
{
    if same_text(s, "1") {
        Some(Frag::True)
    } else if same_text(s, "0") {
        Some(Frag::False)
    } else if same_text(s, "pk_k") {
        Some(Frag::Key(KeyCheck::PkK))
    } else if same_text(s, "pk_h") {
        Some(Frag::Key(KeyCheck::PkH))
    } else if same_text(s, "expr_raw_pk_h") {
        Some(Frag::Key(KeyCheck::RawPkH))
    } else if same_text(s, "pk") {
        Some(Frag::Alias(KeyCheck::PkK))
    } else if same_text(s, "pkh") {
        Some(Frag::Alias(KeyCheck::PkH))
    } else if same_text(s, "expr_raw_pkh") {
        Some(Frag::Alias(KeyCheck::RawPkH))
    } else if same_text(s, "after") {
        Some(Frag::After)
    } else if same_text(s, "older") {
        Some(Frag::Older)
    } else if same_text(s, "sha256") {
        Some(Frag::Hash(HashKind::Sha256))
    } else if same_text(s, "hash256") {
        Some(Frag::Hash(HashKind::Hash256))
    } else if same_text(s, "ripemd160") {
        Some(Frag::Hash(HashKind::Ripemd160))
    } else if same_text(s, "hash160") {
        Some(Frag::Hash(HashKind::Hash160))
    } else if same_text(s, "and_v") {
        Some(Frag::Comb(Combinator::AndV))
    } else if same_text(s, "and_b") {
        Some(Frag::Comb(Combinator::AndB))
    } else if same_text(s, "or_b") {
        Some(Frag::Comb(Combinator::OrB))
    } else if same_text(s, "or_d") {
        Some(Frag::Comb(Combinator::OrD))
    } else if same_text(s, "or_c") {
        Some(Frag::Comb(Combinator::OrC))
    } else if same_text(s, "or_i") {
        Some(Frag::Comb(Combinator::OrI))
    } else if same_text(s, "and_n") {
        Some(Frag::AndN)
    } else if same_text(s, "andor") {
        Some(Frag::AndOr)
    } else if same_text(s, "thresh") {
        Some(Frag::Thresh)
    } else if same_text(s, "multi") {
        Some(Frag::Multi(MultiKind::Multi))
    } else if same_text(s, "multi_a") {
        Some(Frag::Multi(MultiKind::MultiA))
    } else {
        None
    }
}

/// The name under which a fragment is written.
pub fn name_of_frag(f: Frag) -> (name: &'static str)
    ensures
        name@ == frag_name(f),
{
    match f {
        Frag::True => "1",
        Frag::False => "0",
        Frag::Key(KeyCheck::PkK) => "pk_k",
        Frag::Key(KeyCheck::PkH) => "pk_h",
        Frag::Key(KeyCheck::RawPkH) => "expr_raw_pk_h",
        Frag::Alias(KeyCheck::PkK) => "pk",
        Frag::Alias(KeyCheck::PkH) => "pkh",
        Frag::Alias(KeyCheck::RawPkH) => "expr_raw_pkh",
        Frag::After => "after",
        Frag::Older => "older",
        Frag::Hash(HashKind::Sha256) => "sha256",
        Frag::Hash(HashKind::Hash256) => "hash256",
        Frag::Hash(HashKind::Ripemd160) => "ripemd160",
        Frag::Hash(HashKind::Hash160) => "hash160",
        Frag::Comb(Combinator::AndV) => "and_v",
        Frag::Comb(Combinator::AndB) => "and_b",
        Frag::Comb(Combinator::OrB) => "or_b",
        Frag::Comb(Combinator::OrD) => "or_d",
        Frag::Comb(Combinator::OrC) => "or_c",
        Frag::Comb(Combinator::OrI) => "or_i",
        Frag::AndN => "and_n",
        Frag::AndOr => "andor",
        Frag::Thresh => "thresh",
        Frag::Multi(MultiKind::Multi) => "multi",
        Frag::Multi(MultiKind::MultiA) => "multi_a",
    }
}

pub open spec fn free_of_colons(s: Seq<char>) -> bool {
    forall|i: int| 0 <= i < s.len() ==> #[trigger] s[i] != ':'
}

/// Every fragment is found again under its name, and no name holds a
/// bracket, a comma or a colon.
pub proof fn lemma_frag_names(f: Frag)
    ensures
        frag_named(frag_name(f)) == Some(f),
        free_of_delimiters(frag_name(f), true),
        free_of_colons(frag_name(f)),
{
    reveal_strlit("1");
    reveal_strlit("0");
    reveal_strlit("pk_k");
    reveal_strlit("pk_h");
    reveal_strlit("expr_raw_pk_h");
    reveal_strlit("pk");
    reveal_strlit("pkh");
    reveal_strlit("expr_raw_pkh");
    reveal_strlit("after");
    reveal_strlit("older");
    reveal_strlit("sha256");
    reveal_strlit("hash256");
    reveal_strlit("ripemd160");
    reveal_strlit("hash160");
    reveal_strlit("and_v");
    reveal_strlit("and_b");
    reveal_strlit("or_b");
    reveal_strlit("or_d");
    reveal_strlit("or_c");
    reveal_strlit("or_i");
    reveal_strlit("and_n");
    reveal_strlit("andor");
    reveal_strlit("thresh");
    reveal_strlit("multi");
    reveal_strlit("multi_a");
    assert("1"@.len() == 1 && "1"@[0] == '1');
    assert("0"@.len() == 1 && "0"@[0] == '0');
    assert("pk_k"@.len() == 4 && "pk_k"@[0] == 'p' && "pk_k"@[1] == 'k' && "pk_k"@[2] == '_' && "pk_k"@[3] == 'k');
    assert("pk_h"@.len() == 4 && "pk_h"@[0] == 'p' && "pk_h"@[1] == 'k' && "pk_h"@[2] == '_' && "pk_h"@[3] == 'h');
    assert("expr_raw_pk_h"@.len() == 13 && "expr_raw_pk_h"@[0] == 'e' && "expr_raw_pk_h"@[1] == 'x' && "expr_raw_pk_h"@[2] == 'p' && "expr_raw_pk_h"@[3] == 'r' && "expr_raw_pk_h"@[4] == '_' && "expr_raw_pk_h"@[5] == 'r' && "expr_raw_pk_h"@[6] == 'a' && "expr_raw_pk_h"@[7] == 'w' && "expr_raw_pk_h"@[8] == '_' && "expr_raw_pk_h"@[9] == 'p' && "expr_raw_pk_h"@[10] == 'k' && "expr_raw_pk_h"@[11] == '_' && "expr_raw_pk_h"@[12] == 'h');
    assert("pk"@.len() == 2 && "pk"@[0] == 'p' && "pk"@[1] == 'k');
    assert("pkh"@.len() == 3 && "pkh"@[0] == 'p' && "pkh"@[1] == 'k' && "pkh"@[2] == 'h');
    assert("expr_raw_pkh"@.len() == 12 && "expr_raw_pkh"@[0] == 'e' && "expr_raw_pkh"@[1] == 'x' && "expr_raw_pkh"@[2] == 'p' && "expr_raw_pkh"@[3] == 'r' && "expr_raw_pkh"@[4] == '_' && "expr_raw_pkh"@[5] == 'r' && "expr_raw_pkh"@[6] == 'a' && "expr_raw_pkh"@[7] == 'w' && "expr_raw_pkh"@[8] == '_' && "expr_raw_pkh"@[9] == 'p' && "expr_raw_pkh"@[10] == 'k' && "expr_raw_pkh"@[11] == 'h');
    assert("after"@.len() == 5 && "after"@[0] == 'a' && "after"@[1] == 'f' && "after"@[2] == 't' && "after"@[3] == 'e' && "after"@[4] == 'r');
    assert("older"@.len() == 5 && "older"@[0] == 'o' && "older"@[1] == 'l' && "older"@[2] == 'd' && "older"@[3] == 'e' && "older"@[4] == 'r');
    assert("sha256"@.len() == 6 && "sha256"@[0] == 's' && "sha256"@[1] == 'h' && "sha256"@[2] == 'a' && "sha256"@[3] == '2' && "sha256"@[4] == '5' && "sha256"@[5] == '6');
    assert("hash256"@.len() == 7 && "hash256"@[0] == 'h' && "hash256"@[1] == 'a' && "hash256"@[2] == 's' && "hash256"@[3] == 'h' && "hash256"@[4] == '2' && "hash256"@[5] == '5' && "hash256"@[6] == '6');
    assert("ripemd160"@.len() == 9 && "ripemd160"@[0] == 'r' && "ripemd160"@[1] == 'i' && "ripemd160"@[2] == 'p' && "ripemd160"@[3] == 'e' && "ripemd160"@[4] == 'm' && "ripemd160"@[5] == 'd' && "ripemd160"@[6] == '1' && "ripemd160"@[7] == '6' && "ripemd160"@[8] == '0');
    assert("hash160"@.len() == 7 && "hash160"@[0] == 'h' && "hash160"@[1] == 'a' && "hash160"@[2] == 's' && "hash160"@[3] == 'h' && "hash160"@[4] == '1' && "hash160"@[5] == '6' && "hash160"@[6] == '0');
    assert("and_v"@.len() == 5 && "and_v"@[0] == 'a' && "and_v"@[1] == 'n' && "and_v"@[2] == 'd' && "and_v"@[3] == '_' && "and_v"@[4] == 'v');
    assert("and_b"@.len() == 5 && "and_b"@[0] == 'a' && "and_b"@[1] == 'n' && "and_b"@[2] == 'd' && "and_b"@[3] == '_' && "and_b"@[4] == 'b');
    assert("or_b"@.len() == 4 && "or_b"@[0] == 'o' && "or_b"@[1] == 'r' && "or_b"@[2] == '_' && "or_b"@[3] == 'b');
    assert("or_d"@.len() == 4 && "or_d"@[0] == 'o' && "or_d"@[1] == 'r' && "or_d"@[2] == '_' && "or_d"@[3] == 'd');
    assert("or_c"@.len() == 4 && "or_c"@[0] == 'o' && "or_c"@[1] == 'r' && "or_c"@[2] == '_' && "or_c"@[3] == 'c');
    assert("or_i"@.len() == 4 && "or_i"@[0] == 'o' && "or_i"@[1] == 'r' && "or_i"@[2] == '_' && "or_i"@[3] == 'i');
    assert("and_n"@.len() == 5 && "and_n"@[0] == 'a' && "and_n"@[1] == 'n' && "and_n"@[2] == 'd' && "and_n"@[3] == '_' && "and_n"@[4] == 'n');
    assert("andor"@.len() == 5 && "andor"@[0] == 'a' && "andor"@[1] == 'n' && "andor"@[2] == 'd' && "andor"@[3] == 'o' && "andor"@[4] == 'r');
    assert("thresh"@.len() == 6 && "thresh"@[0] == 't' && "thresh"@[1] == 'h' && "thresh"@[2] == 'r' && "thresh"@[3] == 'e' && "thresh"@[4] == 's' && "thresh"@[5] == 'h');
    assert("multi"@.len() == 5 && "multi"@[0] == 'm' && "multi"@[1] == 'u' && "multi"@[2] == 'l' && "multi"@[3] == 't' && "multi"@[4] == 'i');
    assert("multi_a"@.len() == 7 && "multi_a"@[0] == 'm' && "multi_a"@[1] == 'u' && "multi_a"@[2] == 'l' && "multi_a"@[3] == 't' && "multi_a"@[4] == 'i' && "multi_a"@[5] == '_' && "multi_a"@[6] == 'a');
}

/// The names of the descriptor layers: none of them is the name of a
/// fragment but `pkh`, none holds a bracket, a comma or a colon, and no two
/// are the same.
pub proof fn lemma_descriptor_names()
    ensures
        frag_named("wpkh"@) is None,
        frag_named("sh"@) is None,
        frag_named("wsh"@) is None,
        frag_named("tr"@) is None,
        frag_named("sortedmulti"@) is None,
        free_of_colons("pkh"@),
        free_of_delimiters("pkh"@, true),
        free_of_colons("wpkh"@),
        free_of_delimiters("wpkh"@, true),
        free_of_colons("sh"@),
        free_of_delimiters("sh"@, true),
        free_of_colons("wsh"@),
        free_of_delimiters("wsh"@, true),
        free_of_colons("tr"@),
        free_of_delimiters("tr"@, true),
        free_of_colons("sortedmulti"@),
        free_of_delimiters("sortedmulti"@, true),
        "pkh"@ != "wpkh"@,
        "pkh"@ != "sh"@,
        "pkh"@ != "wsh"@,
        "pkh"@ != "tr"@,
        "pkh"@ != "sortedmulti"@,
        "wpkh"@ != "sh"@,
        "wpkh"@ != "wsh"@,
        "wpkh"@ != "tr"@,
        "wpkh"@ != "sortedmulti"@,
        "sh"@ != "wsh"@,
        "sh"@ != "tr"@,
        "sh"@ != "sortedmulti"@,
        "wsh"@ != "tr"@,
        "wsh"@ != "sortedmulti"@,
        "tr"@ != "sortedmulti"@,
{
    reveal_strlit("1");
    reveal_strlit("0");
    reveal_strlit("pk_k");
    reveal_strlit("pk_h");
    reveal_strlit("expr_raw_pk_h");
    reveal_strlit("pk");
    reveal_strlit("pkh");
    reveal_strlit("expr_raw_pkh");
    reveal_strlit("after");
    reveal_strlit("older");
    reveal_strlit("sha256");
    reveal_strlit("hash256");
    reveal_strlit("ripemd160");
    reveal_strlit("hash160");
    reveal_strlit("and_v");
    reveal_strlit("and_b");
    reveal_strlit("or_b");
    reveal_strlit("or_d");
    reveal_strlit("or_c");
    reveal_strlit("or_i");
    reveal_strlit("and_n");
    reveal_strlit("andor");
    reveal_strlit("thresh");
    reveal_strlit("multi");
    reveal_strlit("multi_a");
    reveal_strlit("wpkh");
    reveal_strlit("sh");
    reveal_strlit("wsh");
    reveal_strlit("tr");
    reveal_strlit("sortedmulti");
    assert("1"@.len() == 1 && "1"@[0] == '1');
    assert("0"@.len() == 1 && "0"@[0] == '0');
    assert("pk_k"@.len() == 4 && "pk_k"@[0] == 'p' && "pk_k"@[1] == 'k' && "pk_k"@[2] == '_' && "pk_k"@[3] == 'k');
    assert("pk_h"@.len() == 4 && "pk_h"@[0] == 'p' && "pk_h"@[1] == 'k' && "pk_h"@[2] == '_' && "pk_h"@[3] == 'h');
    assert("expr_raw_pk_h"@.len() == 13 && "expr_raw_pk_h"@[0] == 'e' && "expr_raw_pk_h"@[1] == 'x' && "expr_raw_pk_h"@[2] == 'p' && "expr_raw_pk_h"@[3] == 'r' && "expr_raw_pk_h"@[4] == '_' && "expr_raw_pk_h"@[5] == 'r' && "expr_raw_pk_h"@[6] == 'a' && "expr_raw_pk_h"@[7] == 'w' && "expr_raw_pk_h"@[8] == '_' && "expr_raw_pk_h"@[9] == 'p' && "expr_raw_pk_h"@[10] == 'k' && "expr_raw_pk_h"@[11] == '_' && "expr_raw_pk_h"@[12] == 'h');
    assert("pk"@.len() == 2 && "pk"@[0] == 'p' && "pk"@[1] == 'k');
    assert("pkh"@.len() == 3 && "pkh"@[0] == 'p' && "pkh"@[1] == 'k' && "pkh"@[2] == 'h');
    assert("expr_raw_pkh"@.len() == 12 && "expr_raw_pkh"@[0] == 'e' && "expr_raw_pkh"@[1] == 'x' && "expr_raw_pkh"@[2] == 'p' && "expr_raw_pkh"@[3] == 'r' && "expr_raw_pkh"@[4] == '_' && "expr_raw_pkh"@[5] == 'r' && "expr_raw_pkh"@[6] == 'a' && "expr_raw_pkh"@[7] == 'w' && "expr_raw_pkh"@[8] == '_' && "expr_raw_pkh"@[9] == 'p' && "expr_raw_pkh"@[10] == 'k' && "expr_raw_pkh"@[11] == 'h');
    assert("after"@.len() == 5 && "after"@[0] == 'a' && "after"@[1] == 'f' && "after"@[2] == 't' && "after"@[3] == 'e' && "after"@[4] == 'r');
    assert("older"@.len() == 5 && "older"@[0] == 'o' && "older"@[1] == 'l' && "older"@[2] == 'd' && "older"@[3] == 'e' && "older"@[4] == 'r');
    assert("sha256"@.len() == 6 && "sha256"@[0] == 's' && "sha256"@[1] == 'h' && "sha256"@[2] == 'a' && "sha256"@[3] == '2' && "sha256"@[4] == '5' && "sha256"@[5] == '6');
    assert("hash256"@.len() == 7 && "hash256"@[0] == 'h' && "hash256"@[1] == 'a' && "hash256"@[2] == 's' && "hash256"@[3] == 'h' && "hash256"@[4] == '2' && "hash256"@[5] == '5' && "hash256"@[6] == '6');
    assert("ripemd160"@.len() == 9 && "ripemd160"@[0] == 'r' && "ripemd160"@[1] == 'i' && "ripemd160"@[2] == 'p' && "ripemd160"@[3] == 'e' && "ripemd160"@[4] == 'm' && "ripemd160"@[5] == 'd' && "ripemd160"@[6] == '1' && "ripemd160"@[7] == '6' && "ripemd160"@[8] == '0');
    assert("hash160"@.len() == 7 && "hash160"@[0] == 'h' && "hash160"@[1] == 'a' && "hash160"@[2] == 's' && "hash160"@[3] == 'h' && "hash160"@[4] == '1' && "hash160"@[5] == '6' && "hash160"@[6] == '0');
    assert("and_v"@.len() == 5 && "and_v"@[0] == 'a' && "and_v"@[1] == 'n' && "and_v"@[2] == 'd' && "and_v"@[3] == '_' && "and_v"@[4] == 'v');
    assert("and_b"@.len() == 5 && "and_b"@[0] == 'a' && "and_b"@[1] == 'n' && "and_b"@[2] == 'd' && "and_b"@[3] == '_' && "and_b"@[4] == 'b');
    assert("or_b"@.len() == 4 && "or_b"@[0] == 'o' && "or_b"@[1] == 'r' && "or_b"@[2] == '_' && "or_b"@[3] == 'b');
    assert("or_d"@.len() == 4 && "or_d"@[0] == 'o' && "or_d"@[1] == 'r' && "or_d"@[2] == '_' && "or_d"@[3] == 'd');
    assert("or_c"@.len() == 4 && "or_c"@[0] == 'o' && "or_c"@[1] == 'r' && "or_c"@[2] == '_' && "or_c"@[3] == 'c');
    assert("or_i"@.len() == 4 && "or_i"@[0] == 'o' && "or_i"@[1] == 'r' && "or_i"@[2] == '_' && "or_i"@[3] == 'i');
    assert("and_n"@.len() == 5 && "and_n"@[0] == 'a' && "and_n"@[1] == 'n' && "and_n"@[2] == 'd' && "and_n"@[3] == '_' && "and_n"@[4] == 'n');
    assert("andor"@.len() == 5 && "andor"@[0] == 'a' && "andor"@[1] == 'n' && "andor"@[2] == 'd' && "andor"@[3] == 'o' && "andor"@[4] == 'r');
    assert("thresh"@.len() == 6 && "thresh"@[0] == 't' && "thresh"@[1] == 'h' && "thresh"@[2] == 'r' && "thresh"@[3] == 'e' && "thresh"@[4] == 's' && "thresh"@[5] == 'h');
    assert("multi"@.len() == 5 && "multi"@[0] == 'm' && "multi"@[1] == 'u' && "multi"@[2] == 'l' && "multi"@[3] == 't' && "multi"@[4] == 'i');
    assert("multi_a"@.len() == 7 && "multi_a"@[0] == 'm' && "multi_a"@[1] == 'u' && "multi_a"@[2] == 'l' && "multi_a"@[3] == 't' && "multi_a"@[4] == 'i' && "multi_a"@[5] == '_' && "multi_a"@[6] == 'a');
    assert("wpkh"@.len() == 4 && "wpkh"@[0] == 'w' && "wpkh"@[1] == 'p' && "wpkh"@[2] == 'k' && "wpkh"@[3] == 'h');
    assert("sh"@.len() == 2 && "sh"@[0] == 's' && "sh"@[1] == 'h');
    assert("wsh"@.len() == 3 && "wsh"@[0] == 'w' && "wsh"@[1] == 's' && "wsh"@[2] == 'h');
    assert("tr"@.len() == 2 && "tr"@[0] == 't' && "tr"@[1] == 'r');
    assert("sortedmulti"@.len() == 11 && "sortedmulti"@[0] == 's' && "sortedmulti"@[1] == 'o' && "sortedmulti"@[2] == 'r' && "sortedmulti"@[3] == 't' && "sortedmulti"@[4] == 'e' && "sortedmulti"@[5] == 'd' && "sortedmulti"@[6] == 'm' && "sortedmulti"@[7] == 'u' && "sortedmulti"@[8] == 'l' && "sortedmulti"@[9] == 't' && "sortedmulti"@[10] == 'i');
}

} // verus!
