//! The projection of terms onto values.
//!
//! `True` and `False` become booleans. Every other term becomes an object
//! with one field, named after the kind of term: a key or digest as its
//! text, an absolute lock time as a number, a relative lock time as the
//! text of its number, a wrapper's child as its projection, and the
//! children of a combinator or threshold and the keys of a multi-key term
//! as an array, in order.

use vstd::prelude::*;
use crate::decimal::{decimal, write_decimal};
use crate::frag::{Combinator, HashKind, KeyCheck, MultiKind, Wrapper};
use crate::reading::lemma_thresh_model;
use crate::term::{Term, TermView, term_views};
use crate::value::{Value, ValueView, lemma_array_model, tagged, value_views};

verus! {

pub open spec fn key_tag(k: KeyCheck) -> Seq<char> {
    match k {
        KeyCheck::PkK => "PkK"@,
        KeyCheck::PkH => "PkH"@,
        KeyCheck::RawPkH => "RawPkH"@,
    }
}

pub open spec fn hash_tag(h: HashKind) -> Seq<char> {
    match h {
        HashKind::Sha256 => "Sha256"@,
        HashKind::Hash256 => "Hash256"@,
        HashKind::Ripemd160 => "Ripemd160"@,
        HashKind::Hash160 => "Hash160"@,
    }
}

pub open spec fn wrapper_tag(w: Wrapper) -> Seq<char> {
    match w {
        Wrapper::Alt => "Alt"@,
        Wrapper::Swap => "Swap"@,
        Wrapper::Check => "Check"@,
        Wrapper::DupIf => "DupIf"@,
        Wrapper::Verify => "Verify"@,
        Wrapper::NonZero => "NonZero"@,
        Wrapper::ZeroNotEqual => "ZeroNotEqual"@,
    }
}

pub open spec fn combinator_tag(c: Combinator) -> Seq<char> {
    match c {
        Combinator::AndV => "AndV"@,
        Combinator::AndB => "AndB"@,
        Combinator::OrB => "OrB"@,
        Combinator::OrD => "OrD"@,
        Combinator::OrC => "OrC"@,
        Combinator::OrI => "OrI"@,
    }
}

pub open spec fn multi_tag(m: MultiKind) -> Seq<char> {
    match m {
        MultiKind::Multi => "Multi"@,
        MultiKind::MultiA => "MultiA"@,
    }
}

/// The name of the kind of a term. `True` and `False` are projected
/// without a name; theirs is never used as a field.
pub open spec fn term_tag(t: TermView) -> Seq<char> {
    match t {
        TermView::True => "True"@,
        TermView::False => "False"@,
        TermView::Key(k, _) => key_tag(k),
        TermView::After(_) => "After"@,
        TermView::Older(_) => "Older"@,
        TermView::Hash(h, _) => hash_tag(h),
        TermView::Unary(w, _) => wrapper_tag(w),
        TermView::Binary(c, _, _) => combinator_tag(c),
        TermView::AndOr(_, _, _) => "AndOr"@,
        TermView::Thresh(_, _) => "Thresh"@,
        TermView::Multi(m, _, _) => multi_tag(m),
    }
}

/// The value onto which a term is projected.
pub open spec fn project_term(t: TermView) -> ValueView
    decreases t,
{
    match t {
        TermView::True => ValueView::Bool(true),
        TermView::False => ValueView::Bool(false),
        TermView::Key(k, a) => tagged(key_tag(k), ValueView::Text(a)),
        TermView::After(n) => tagged("After"@, tagged("absLockTime"@, ValueView::Number(n))),
        TermView::Older(n) => tagged(
            "Older"@,
            tagged("relLockTime"@, ValueView::Text(decimal(n))),
        ),
        TermView::Hash(h, a) => tagged(hash_tag(h), ValueView::Text(a)),
        TermView::Unary(w, x) => tagged(wrapper_tag(w), project_term(*x)),
        TermView::Binary(c, x, y) => tagged(
            combinator_tag(c),
            ValueView::Array(seq![project_term(*x), project_term(*y)]),
        ),
        TermView::AndOr(x, y, z) => tagged(
            "AndOr"@,
            ValueView::Array(seq![project_term(*x), project_term(*y), project_term(*z)]),
        ),
        TermView::Thresh(_, subs) => tagged(
            "Thresh"@,
            ValueView::Array(
                Seq::new(
                    subs.len(),
                    |i: int|
                        if 0 <= i < subs.len() {
                            project_term(subs[i])
                        } else {
                            arbitrary()
                        },
                ),
            ),
        ),
        TermView::Multi(m, _, keys) => tagged(
            multi_tag(m),
            ValueView::Array(Seq::new(keys.len(), |i: int| ValueView::Text(keys[i]))),
        ),
    }
}

/// The projection of a term is a boolean for `True` and `False`, and for
/// every other term an object whose one field is named after the kind of
/// the term.
pub proof fn lemma_projection_is_tagged(t: TermView)
    ensures
        match t {
            TermView::True => project_term(t) == ValueView::Bool(true),
            TermView::False => project_term(t) == ValueView::Bool(false),
            _ => project_term(t) matches ValueView::Object(fields) && fields.len() == 1
                && fields[0].0 == term_tag(t),
        },
{
}

/// Whether two terms are of the same kind: the same variant and, where
/// the variant comes in several kinds, the same of them.
pub open spec fn same_kind(a: TermView, b: TermView) -> bool {
    match (a, b) {
        (TermView::True, TermView::True) => true,
        (TermView::False, TermView::False) => true,
        (TermView::Key(k, _), TermView::Key(l, _)) => k == l,
        (TermView::After(_), TermView::After(_)) => true,
        (TermView::Older(_), TermView::Older(_)) => true,
        (TermView::Hash(h, _), TermView::Hash(g, _)) => h == g,
        (TermView::Unary(w, _), TermView::Unary(v, _)) => w == v,
        (TermView::Binary(c, _, _), TermView::Binary(d, _, _)) => c == d,
        (TermView::AndOr(_, _, _), TermView::AndOr(_, _, _)) => true,
        (TermView::Thresh(_, _), TermView::Thresh(_, _)) => true,
        (TermView::Multi(m, _, _), TermView::Multi(n, _, _)) => m == n,
        _ => false,
    }
}

/// No two kinds of term have the same name.
pub proof fn lemma_tag_names_kind(a: TermView, b: TermView)
    requires
        term_tag(a) == term_tag(b),
    ensures
        same_kind(a, b),
{
    reveal_strlit("True");
    reveal_strlit("False");
    reveal_strlit("PkK");
    reveal_strlit("PkH");
    reveal_strlit("RawPkH");
    reveal_strlit("After");
    reveal_strlit("Older");
    reveal_strlit("Sha256");
    reveal_strlit("Hash256");
    reveal_strlit("Ripemd160");
    reveal_strlit("Hash160");
    reveal_strlit("Alt");
    reveal_strlit("Swap");
    reveal_strlit("Check");
    reveal_strlit("DupIf");
    reveal_strlit("Verify");
    reveal_strlit("NonZero");
    reveal_strlit("ZeroNotEqual");
    reveal_strlit("AndV");
    reveal_strlit("AndB");
    reveal_strlit("OrB");
    reveal_strlit("OrD");
    reveal_strlit("OrC");
    reveal_strlit("OrI");
    reveal_strlit("AndOr");
    reveal_strlit("Thresh");
    reveal_strlit("Multi");
    reveal_strlit("MultiA");
    assert("True"@.len() == 4 && "True"@[0] == 'T' && "True"@[1] == 'r' && "True"@[2] == 'u' && "True"@[3] == 'e');
    assert("False"@.len() == 5 && "False"@[0] == 'F' && "False"@[1] == 'a' && "False"@[2] == 'l' && "False"@[3] == 's' && "False"@[4] == 'e');
    assert("PkK"@.len() == 3 && "PkK"@[0] == 'P' && "PkK"@[1] == 'k' && "PkK"@[2] == 'K');
    assert("PkH"@.len() == 3 && "PkH"@[0] == 'P' && "PkH"@[1] == 'k' && "PkH"@[2] == 'H');
    assert("RawPkH"@.len() == 6 && "RawPkH"@[0] == 'R' && "RawPkH"@[1] == 'a' && "RawPkH"@[2] == 'w' && "RawPkH"@[3] == 'P' && "RawPkH"@[4] == 'k' && "RawPkH"@[5] == 'H');
    assert("After"@.len() == 5 && "After"@[0] == 'A' && "After"@[1] == 'f' && "After"@[2] == 't' && "After"@[3] == 'e' && "After"@[4] == 'r');
    assert("Older"@.len() == 5 && "Older"@[0] == 'O' && "Older"@[1] == 'l' && "Older"@[2] == 'd' && "Older"@[3] == 'e' && "Older"@[4] == 'r');
    assert("Sha256"@.len() == 6 && "Sha256"@[0] == 'S' && "Sha256"@[1] == 'h' && "Sha256"@[2] == 'a' && "Sha256"@[3] == '2' && "Sha256"@[4] == '5' && "Sha256"@[5] == '6');
    assert("Hash256"@.len() == 7 && "Hash256"@[0] == 'H' && "Hash256"@[1] == 'a' && "Hash256"@[2] == 's' && "Hash256"@[3] == 'h' && "Hash256"@[4] == '2' && "Hash256"@[5] == '5' && "Hash256"@[6] == '6');
    assert("Ripemd160"@.len() == 9 && "Ripemd160"@[0] == 'R' && "Ripemd160"@[1] == 'i' && "Ripemd160"@[2] == 'p' && "Ripemd160"@[3] == 'e' && "Ripemd160"@[4] == 'm' && "Ripemd160"@[5] == 'd' && "Ripemd160"@[6] == '1' && "Ripemd160"@[7] == '6' && "Ripemd160"@[8] == '0');
    assert("Hash160"@.len() == 7 && "Hash160"@[0] == 'H' && "Hash160"@[1] == 'a' && "Hash160"@[2] == 's' && "Hash160"@[3] == 'h' && "Hash160"@[4] == '1' && "Hash160"@[5] == '6' && "Hash160"@[6] == '0');
    assert("Alt"@.len() == 3 && "Alt"@[0] == 'A' && "Alt"@[1] == 'l' && "Alt"@[2] == 't');
    assert("Swap"@.len() == 4 && "Swap"@[0] == 'S' && "Swap"@[1] == 'w' && "Swap"@[2] == 'a' && "Swap"@[3] == 'p');
    assert("Check"@.len() == 5 && "Check"@[0] == 'C' && "Check"@[1] == 'h' && "Check"@[2] == 'e' && "Check"@[3] == 'c' && "Check"@[4] == 'k');
    assert("DupIf"@.len() == 5 && "DupIf"@[0] == 'D' && "DupIf"@[1] == 'u' && "DupIf"@[2] == 'p' && "DupIf"@[3] == 'I' && "DupIf"@[4] == 'f');
    assert("Verify"@.len() == 6 && "Verify"@[0] == 'V' && "Verify"@[1] == 'e' && "Verify"@[2] == 'r' && "Verify"@[3] == 'i' && "Verify"@[4] == 'f' && "Verify"@[5] == 'y');
    assert("NonZero"@.len() == 7 && "NonZero"@[0] == 'N' && "NonZero"@[1] == 'o' && "NonZero"@[2] == 'n' && "NonZero"@[3] == 'Z' && "NonZero"@[4] == 'e' && "NonZero"@[5] == 'r' && "NonZero"@[6] == 'o');
    assert("ZeroNotEqual"@.len() == 12 && "ZeroNotEqual"@[0] == 'Z' && "ZeroNotEqual"@[1] == 'e' && "ZeroNotEqual"@[2] == 'r' && "ZeroNotEqual"@[3] == 'o' && "ZeroNotEqual"@[4] == 'N' && "ZeroNotEqual"@[5] == 'o' && "ZeroNotEqual"@[6] == 't' && "ZeroNotEqual"@[7] == 'E' && "ZeroNotEqual"@[8] == 'q' && "ZeroNotEqual"@[9] == 'u' && "ZeroNotEqual"@[10] == 'a' && "ZeroNotEqual"@[11] == 'l');
    assert("AndV"@.len() == 4 && "AndV"@[0] == 'A' && "AndV"@[1] == 'n' && "AndV"@[2] == 'd' && "AndV"@[3] == 'V');
    assert("AndB"@.len() == 4 && "AndB"@[0] == 'A' && "AndB"@[1] == 'n' && "AndB"@[2] == 'd' && "AndB"@[3] == 'B');
    assert("OrB"@.len() == 3 && "OrB"@[0] == 'O' && "OrB"@[1] == 'r' && "OrB"@[2] == 'B');
    assert("OrD"@.len() == 3 && "OrD"@[0] == 'O' && "OrD"@[1] == 'r' && "OrD"@[2] == 'D');
    assert("OrC"@.len() == 3 && "OrC"@[0] == 'O' && "OrC"@[1] == 'r' && "OrC"@[2] == 'C');
    assert("OrI"@.len() == 3 && "OrI"@[0] == 'O' && "OrI"@[1] == 'r' && "OrI"@[2] == 'I');
    assert("AndOr"@.len() == 5 && "AndOr"@[0] == 'A' && "AndOr"@[1] == 'n' && "AndOr"@[2] == 'd' && "AndOr"@[3] == 'O' && "AndOr"@[4] == 'r');
    assert("Thresh"@.len() == 6 && "Thresh"@[0] == 'T' && "Thresh"@[1] == 'h' && "Thresh"@[2] == 'r' && "Thresh"@[3] == 'e' && "Thresh"@[4] == 's' && "Thresh"@[5] == 'h');
    assert("Multi"@.len() == 5 && "Multi"@[0] == 'M' && "Multi"@[1] == 'u' && "Multi"@[2] == 'l' && "Multi"@[3] == 't' && "Multi"@[4] == 'i');
    assert("MultiA"@.len() == 6 && "MultiA"@[0] == 'M' && "MultiA"@[1] == 'u' && "MultiA"@[2] == 'l' && "MultiA"@[3] == 't' && "MultiA"@[4] == 'i' && "MultiA"@[5] == 'A');
}

/// A term with the required counts of its thresholds and multi-key terms
/// set to zero.
pub open spec fn without_counts(t: TermView) -> TermView
    decreases t,
{
    match t {
        TermView::Unary(w, x) => TermView::Unary(w, Box::new(without_counts(*x))),
        TermView::Binary(c, x, y) => TermView::Binary(
            c,
            Box::new(without_counts(*x)),
            Box::new(without_counts(*y)),
        ),
        TermView::AndOr(x, y, z) => TermView::AndOr(
            Box::new(without_counts(*x)),
            Box::new(without_counts(*y)),
            Box::new(without_counts(*z)),
        ),
        TermView::Thresh(_, subs) => TermView::Thresh(
            0,
            Seq::new(
                subs.len(),
                |i: int|
                    if 0 <= i < subs.len() {
                        without_counts(subs[i])
                    } else {
                        arbitrary()
                    },
            ),
        ),
        TermView::Multi(m, _, keys) => TermView::Multi(m, 0, keys),
        _ => t,
    }
}

/// The projection keeps everything of a term but the required counts of
/// thresholds and multi-key terms: two terms with the same projection
/// differ in nothing else.
pub proof fn lemma_projection_keeps_the_term(a: TermView, b: TermView)
    requires
        project_term(a) == project_term(b),
    ensures
        without_counts(a) == without_counts(b),
    decreases a,
{
    lemma_projection_is_tagged(a);
    lemma_projection_is_tagged(b);
    if !(a is True || a is False || b is True || b is False) {
        let fa = project_term(a)->Object_0[0];
        let fb = project_term(b)->Object_0[0];
        assert(fa == fb);
        lemma_tag_names_kind(a, b);
        match (a, b) {
            (TermView::After(n), TermView::After(m)) => {
                let pa = fa.1->Object_0[0];
                let pb = fb.1->Object_0[0];
                assert(pa.1 == ValueView::Number(n));
                assert(pb.1 == ValueView::Number(m));
            },
            (TermView::Older(n), TermView::Older(m)) => {
                let pa = fa.1->Object_0[0];
                let pb = fb.1->Object_0[0];
                assert(pa.1 == ValueView::Text(decimal(n)));
                assert(pb.1 == ValueView::Text(decimal(m)));
                crate::decimal::lemma_decimal_value(n);
                crate::decimal::lemma_decimal_value(m);
            },
            (TermView::Unary(_, x), TermView::Unary(_, y)) => {
                assert(fa.1 == project_term(*x));
                assert(fb.1 == project_term(*y));
                lemma_projection_keeps_the_term(*x, *y);
            },
            (TermView::Binary(_, x1, x2), TermView::Binary(_, y1, y2)) => {
                let ia = fa.1->Array_0;
                let ib = fb.1->Array_0;
                assert(ia[0] == project_term(*x1) && ia[1] == project_term(*x2));
                assert(ib[0] == project_term(*y1) && ib[1] == project_term(*y2));
                lemma_projection_keeps_the_term(*x1, *y1);
                lemma_projection_keeps_the_term(*x2, *y2);
            },
            (TermView::AndOr(x1, x2, x3), TermView::AndOr(y1, y2, y3)) => {
                let ia = fa.1->Array_0;
                let ib = fb.1->Array_0;
                assert(ia[0] == project_term(*x1) && ia[1] == project_term(*x2) && ia[2]
                    == project_term(*x3));
                assert(ib[0] == project_term(*y1) && ib[1] == project_term(*y2) && ib[2]
                    == project_term(*y3));
                lemma_projection_keeps_the_term(*x1, *y1);
                lemma_projection_keeps_the_term(*x2, *y2);
                lemma_projection_keeps_the_term(*x3, *y3);
            },
            (TermView::Thresh(_, xs), TermView::Thresh(_, ys)) => {
                let ia = fa.1->Array_0;
                let ib = fb.1->Array_0;
                assert(ia.len() == xs.len() && ib.len() == ys.len());
                let wa = without_counts(a)->Thresh_1;
                let wb = without_counts(b)->Thresh_1;
                assert forall|i: int| 0 <= i < xs.len() implies wa[i] == wb[i] by {
                    assert(ia[i] == project_term(xs[i]));
                    assert(ib[i] == project_term(ys[i]));
                    lemma_projection_keeps_the_term(xs[i], ys[i]);
                }
                assert(wa =~= wb);
            },
            (TermView::Multi(_, _, xs), TermView::Multi(_, _, ys)) => {
                let ia = fa.1->Array_0;
                let ib = fb.1->Array_0;
                assert(ia.len() == xs.len() && ib.len() == ys.len());
                assert forall|i: int| 0 <= i < xs.len() implies xs[i] == ys[i] by {
                    assert(ia[i] == ValueView::Text(xs[i]));
                    assert(ib[i] == ValueView::Text(ys[i]));
                }
                assert(xs =~= ys);
            },
            _ => {},
        }
    }
}

fn key_tag_text(k: KeyCheck) -> (t: &'static str)
    ensures
        t@ == key_tag(k),
{
    match k {
        KeyCheck::PkK => "PkK",
        KeyCheck::PkH => "PkH",
        KeyCheck::RawPkH => "RawPkH",
    }
}

fn hash_tag_text(h: HashKind) -> (t: &'static str)
    ensures
        t@ == hash_tag(h),
{
    match h {
        HashKind::Sha256 => "Sha256",
        HashKind::Hash256 => "Hash256",
        HashKind::Ripemd160 => "Ripemd160",
        HashKind::Hash160 => "Hash160",
    }
}

fn wrapper_tag_text(w: Wrapper) -> (t: &'static str)
    ensures
        t@ == wrapper_tag(w),
{
    match w {
        Wrapper::Alt => "Alt",
        Wrapper::Swap => "Swap",
        Wrapper::Check => "Check",
        Wrapper::DupIf => "DupIf",
        Wrapper::Verify => "Verify",
        Wrapper::NonZero => "NonZero",
        Wrapper::ZeroNotEqual => "ZeroNotEqual",
    }
}

fn combinator_tag_text(c: Combinator) -> (t: &'static str)
    ensures
        t@ == combinator_tag(c),
{
    match c {
        Combinator::AndV => "AndV",
        Combinator::AndB => "AndB",
        Combinator::OrB => "OrB",
        Combinator::OrD => "OrD",
        Combinator::OrC => "OrC",
        Combinator::OrI => "OrI",
    }
}

fn multi_tag_text(m: MultiKind) -> (t: &'static str)
    ensures
        t@ == multi_tag(m),
{
    match m {
        MultiKind::Multi => "Multi",
        MultiKind::MultiA => "MultiA",
    }
}

/// The projections of the terms of a list, in order.
fn values_of_terms(subs: &Vec<Term>) -> (items: Vec<Value>)
    ensures
        items.len() == subs.len(),
        forall|j: int| 0 <= j < subs.len() ==> (#[trigger] items@[j])@ == project_term(subs@[j]@),
    decreases subs, 0nat,
{
    let mut items: Vec<Value> = Vec::new();
    let mut i: usize = 0;
    while i < subs.len()
        invariant
            i <= subs.len(),
            items.len() == i,
            forall|j: int| 0 <= j < i ==> (#[trigger] items@[j])@ == project_term(subs@[j]@),
        decreases subs.len() - i,
    {
        items.push(value_of_term(&subs[i]));
        i += 1;
    }
    items
}

/// The value onto which a term is projected.
fn value_of_term(t: &Term) -> (v: Value)
    ensures
        v@ == project_term(t@),
    decreases t, 1nat,
{
    match t {
        Term::True => {
            let v = Value::Bool(true);
            assert(v@ == project_term(t@));
            v
        },
        Term::False => {
            let v = Value::Bool(false);
            assert(v@ == project_term(t@));
            v
        },
        Term::Key(k, a) => {
            let v = Value::tagged(key_tag_text(*k), Value::Text(a.clone()));
            assert(v@ == project_term(t@));
            v
        },
        Term::After(n) => {
            let v = Value::tagged("After", Value::tagged("absLockTime", Value::Number(*n as u64)));
            assert(v@ == project_term(t@));
            v
        },
        Term::Older(n) => {
            let v = Value::tagged(
                "Older",
                Value::tagged("relLockTime", Value::Text(write_decimal(*n as u64))),
            );
            assert(v@ == project_term(t@));
            v
        },
        Term::Hash(h, a) => {
            let v = Value::tagged(hash_tag_text(*h), Value::Text(a.clone()));
            assert(v@ == project_term(t@));
            v
        },
        Term::Unary(w, x) => {
            let v = Value::tagged(wrapper_tag_text(*w), value_of_term(x));
            assert(v@ == project_term(t@));
            v
        },
        Term::Binary(c, x, y) => {
            let v = Value::tagged(
                combinator_tag_text(*c),
                Value::pair(value_of_term(x), value_of_term(y)),
            );
            assert(v@ == project_term(t@));
            v
        },
        Term::AndOr(x, y, z) => {
            let v = Value::tagged(
                "AndOr",
                Value::triple(value_of_term(x), value_of_term(y), value_of_term(z)),
            );
            assert(v@ == project_term(t@));
            v
        },
        Term::Thresh(k, subs) => {
            let items = values_of_terms(subs);
            proof {
                lemma_thresh_model(*k, *subs);
                lemma_array_model(items);
                assert(value_views(items@) =~= Seq::new(
                    subs@.len(),
                    |i: int|
                        if 0 <= i < subs@.len() {
                            project_term(term_views(subs@)[i])
                        } else {
                            arbitrary()
                        },
                ));
            }
            let v = Value::tagged("Thresh", Value::Array(items));
            proof {
                let views = term_views(subs@);
                assert(t@ == TermView::Thresh(*k as nat, views));
                let projected = Seq::new(
                    views.len(),
                    |i: int|
                        if 0 <= i < views.len() {
                            project_term(views[i])
                        } else {
                            arbitrary()
                        },
                );
                assert(value_views(items@) =~= projected);
                let fields = project_term(t@)->Object_0;
                let first = fields[0];
                assert(first.1->Array_0 =~= projected);
                assert(fields =~= seq![("Thresh"@, ValueView::Array(projected))]);
            }
            v
        },
        Term::Multi(m, _, keys) => {
            let items = Value::texts(keys);
            proof {
                let views = crate::term::text_views(keys@);
                assert(Seq::new(keys@.len(), |i: int| ValueView::Text(keys@[i]@)) =~= Seq::new(
                    views.len(),
                    |i: int| ValueView::Text(views[i]),
                ));
            }
            let v = Value::tagged(multi_tag_text(*m), items);
            assert(v@ == project_term(t@));
            v
        },
    }
}

impl Term {
    /// Projects the term onto a value. Every term has a projection.
    pub fn to_value(&self) -> (v: Value)
        ensures
            v@ == project_term(self@),
    {
        value_of_term(self)
    }
}

} // verus!
