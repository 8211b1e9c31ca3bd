//! Miniscript terms and the notation in which they are written.
//!
//! A term is written as an expression. Wrappers are written as letters in
//! front of the name of what they wrap, separated from it by a colon; some
//! terms have a shorter spelling, which is the one that is written: `pk(K)`
//! for a checked key, `t:X` for `and_v(X,1)`, `u:X` and `l:X` for `or_i`
//! with a `0` branch, `and_n(X,Y)` for `andor(X,Y,0)`.

use vstd::prelude::*;
use crate::decimal::{decimal, number_of, lemma_number_of_decimal, lemma_decimal_value, digit_value};
use crate::expr::{ExprView, MAX_DEPTH, expr_wf, free_of_delimiters, is_delimiter, shallow};
use crate::frag::{
    Combinator, Frag, HashKind, KeyCheck, MultiKind, Wrapper, frag_name, frag_named,
    free_of_colons, lemma_frag_names,
};

verus! {

/// A miniscript term.
#[derive(Debug, PartialEq, Eq)]
pub enum Term {
    True,
    False,
    /// A key or key hash, by its text.
    Key(KeyCheck, String),
    /// An absolute lock time, as its consensus value.
    After(u32),
    /// A relative lock time, as its consensus value.
    Older(u32),
    /// A digest, by its text.
    Hash(HashKind, String),
    Unary(Wrapper, Box<Term>),
    Binary(Combinator, Box<Term>, Box<Term>),
    AndOr(Box<Term>, Box<Term>, Box<Term>),
    /// The required count and the children.
    Thresh(usize, Vec<Term>),
    /// The required count and the keys.
    Multi(MultiKind, usize, Vec<String>),
}

/// The mathematical model of a [`Term`].
pub enum TermView {
    True,
    False,
    Key(KeyCheck, Seq<char>),
    After(nat),
    Older(nat),
    Hash(HashKind, Seq<char>),
    Unary(Wrapper, Box<TermView>),
    Binary(Combinator, Box<TermView>, Box<TermView>),
    AndOr(Box<TermView>, Box<TermView>, Box<TermView>),
    Thresh(nat, Seq<TermView>),
    Multi(MultiKind, nat, Seq<Seq<char>>),
}

impl Term {
    /// The model of a term.
    pub open spec fn model(self) -> TermView
        decreases self,
    {
        match self {
            Term::True => TermView::True,
            Term::False => TermView::False,
            Term::Key(k, a) => TermView::Key(k, a@),
            Term::After(n) => TermView::After(n as nat),
            Term::Older(n) => TermView::Older(n as nat),
            Term::Hash(h, a) => TermView::Hash(h, a@),
            Term::Unary(w, x) => TermView::Unary(w, Box::new((*x).model())),
            Term::Binary(c, x, y) => TermView::Binary(
                c,
                Box::new((*x).model()),
                Box::new((*y).model()),
            ),
            Term::AndOr(x, y, z) => TermView::AndOr(
                Box::new((*x).model()),
                Box::new((*y).model()),
                Box::new((*z).model()),
            ),
            Term::Thresh(k, subs) => TermView::Thresh(
                k as nat,
                Seq::new(
                    subs@.len(),
                    |i: int|
                        if 0 <= i < subs@.len() {
                            subs@[i].model()
                        } else {
                            arbitrary()
                        },
                ),
            ),
            Term::Multi(m, k, keys) => TermView::Multi(m, k as nat, text_views(keys@)),
        }
    }
}

impl View for Term {
    type V = TermView;

    open spec fn view(&self) -> TermView {
        self.model()
    }
}

/// The models of a list of terms.
pub open spec fn term_views(v: Seq<Term>) -> Seq<TermView> {
    Seq::new(v.len(), |i: int| v[i]@)
}

/// The models of a list of texts.
pub open spec fn text_views(v: Seq<String>) -> Seq<Seq<char>> {
    Seq::new(v.len(), |i: int| v[i]@)
}

/// How high a term that is read may be.
pub const MAX_HEIGHT: usize = 402;

/// Whether a term is at most `room` high: a term without children has
/// height zero, any other is one higher than its highest child.
pub open spec fn term_within(t: TermView, room: nat) -> bool
    decreases t,
{
    match t {
        TermView::Unary(_, x) => room > 0 && term_within(*x, (room - 1) as nat),
        TermView::Binary(_, x, y) => {
            &&& room > 0
            &&& term_within(*x, (room - 1) as nat)
            &&& term_within(*y, (room - 1) as nat)
        },
        TermView::AndOr(x, y, z) => {
            &&& room > 0
            &&& term_within(*x, (room - 1) as nat)
            &&& term_within(*y, (room - 1) as nat)
            &&& term_within(*z, (room - 1) as nat)
        },
        TermView::Thresh(_, subs) => {
            &&& room > 0
            &&& forall|i: int|
                0 <= i < subs.len() ==> term_within(#[trigger] subs[i], (room - 1) as nat)
        },
        _ => true,
    }
}

/// A term that can be written and read again: it is sound and at most
/// `MAX_HEIGHT` high.
pub open spec fn term_wf(t: TermView) -> bool {
    term_sound(t, false) && term_within(t, MAX_HEIGHT as nat)
}

/// A term whose parts can be written: keys and digests hold no delimiter,
/// lock times fit in 32 bits, and a threshold asks for at least one and at
/// most all of what it owns. `braces` says whether curly brackets are
/// delimiters, as they are in the tree of a taproot descriptor.
pub open spec fn term_sound(t: TermView, braces: bool) -> bool
    decreases t,
{
    match t {
        TermView::True => true,
        TermView::False => true,
        TermView::Key(_, a) => free_of_delimiters(a, braces),
        TermView::After(n) => n <= u32::MAX,
        TermView::Older(n) => n <= u32::MAX,
        TermView::Hash(_, a) => free_of_delimiters(a, braces),
        TermView::Unary(_, x) => term_sound(*x, braces),
        TermView::Binary(_, x, y) => term_sound(*x, braces) && term_sound(*y, braces),
        TermView::AndOr(x, y, z) => term_sound(*x, braces) && term_sound(*y, braces) && term_sound(*z, braces),
        TermView::Thresh(k, subs) => {
            &&& 1 <= k <= subs.len()
            &&& k <= u32::MAX
            &&& forall|i: int| 0 <= i < subs.len() ==> term_sound(#[trigger] subs[i], braces)
        },
        TermView::Multi(_, k, keys) => {
            &&& 1 <= k <= keys.len()
            &&& k <= u32::MAX
            &&& forall|i: int| 0 <= i < keys.len() ==> free_of_delimiters(#[trigger] keys[i], braces)
        },
    }
}

/// The letter of a wrapper.
pub open spec fn wrapper_char(w: Wrapper) -> char {
    match w {
        Wrapper::Alt => 'a',
        Wrapper::Swap => 's',
        Wrapper::Check => 'c',
        Wrapper::DupIf => 'd',
        Wrapper::Verify => 'v',
        Wrapper::NonZero => 'j',
        Wrapper::ZeroNotEqual => 'n',
    }
}

/// The term that a letter makes of a term, if it is the letter of a wrapper.
pub open spec fn wrap_one(c: char, t: TermView) -> Option<TermView> {
    if c == 'a' {
        Some(TermView::Unary(Wrapper::Alt, Box::new(t)))
    } else if c == 's' {
        Some(TermView::Unary(Wrapper::Swap, Box::new(t)))
    } else if c == 'c' {
        Some(TermView::Unary(Wrapper::Check, Box::new(t)))
    } else if c == 'd' {
        Some(TermView::Unary(Wrapper::DupIf, Box::new(t)))
    } else if c == 'v' {
        Some(TermView::Unary(Wrapper::Verify, Box::new(t)))
    } else if c == 'j' {
        Some(TermView::Unary(Wrapper::NonZero, Box::new(t)))
    } else if c == 'n' {
        Some(TermView::Unary(Wrapper::ZeroNotEqual, Box::new(t)))
    } else if c == 't' {
        Some(TermView::Binary(Combinator::AndV, Box::new(t), Box::new(TermView::True)))
    } else if c == 'u' {
        Some(TermView::Binary(Combinator::OrI, Box::new(t), Box::new(TermView::False)))
    } else if c == 'l' {
        Some(TermView::Binary(Combinator::OrI, Box::new(TermView::False), Box::new(t)))
    } else {
        None
    }
}

/// The term that a run of letters makes of a term: the last letter is
/// applied first.
pub open spec fn wrap_all(w: Seq<char>, t: TermView) -> Option<TermView>
    decreases w.len(),
{
    if w.len() == 0 {
        Some(t)
    } else {
        match wrap_all(w.drop_first(), t) {
            Some(inner) => wrap_one(w[0], inner),
            None => None,
        }
    }
}

/// Whether every character is the letter of a wrapper.
pub open spec fn all_letters(w: Seq<char>) -> bool {
    forall|i: int| 0 <= i < w.len() ==> wrap_one(#[trigger] w[i], TermView::True) is Some
}

/// The outermost layer of a term, where that layer is written as a letter:
/// the letter and the term below it.
pub open spec fn peel(t: TermView) -> Option<(char, TermView)> {
    match t {
        TermView::Unary(w, x) => Some((wrapper_char(w), *x)),
        TermView::Binary(c, x, y) => {
            if c == Combinator::AndV && *y == TermView::True {
                Some(('t', *x))
            } else if c == Combinator::OrI && *y == TermView::False {
                Some(('u', *x))
            } else if c == Combinator::OrI && *x == TermView::False {
                Some(('l', *y))
            } else {
                None
            }
        },
        _ => None,
    }
}

/// A checked key, which is written under one name.
pub open spec fn is_alias(t: TermView) -> bool {
    t matches TermView::Unary(w, x) && w == Wrapper::Check && *x is Key
}

/// Whether the term is written as a letter in front of another term.
pub open spec fn prefixed(t: TermView) -> bool {
    peel(t) is Some && !is_alias(t)
}

pub open spec fn leaf(name: Seq<char>) -> ExprView {
    ExprView { name, curly: false, args: Seq::empty() }
}

/// A name with the letters of the wrappers in front of it.
pub open spec fn lettered(w: Seq<char>, name: Seq<char>) -> Seq<char> {
    if w.len() == 0 {
        name
    } else {
        w + seq![':'] + name
    }
}

/// The name under which a term that is not written with a letter is written.
pub open spec fn frag_of(t: TermView) -> Frag {
    match t {
        TermView::True => Frag::True,
        TermView::False => Frag::False,
        TermView::Key(k, _) => Frag::Key(k),
        TermView::After(_) => Frag::After,
        TermView::Older(_) => Frag::Older,
        TermView::Hash(h, _) => Frag::Hash(h),
        TermView::Unary(_, x) => match *x {
            TermView::Key(k, _) => Frag::Alias(k),
            _ => Frag::True,
        },
        TermView::Binary(c, _, _) => Frag::Comb(c),
        TermView::AndOr(_, _, z) => if *z == TermView::False {
            Frag::AndN
        } else {
            Frag::AndOr
        },
        TermView::Thresh(_, _) => Frag::Thresh,
        TermView::Multi(m, _, _) => Frag::Multi(m),
    }
}

/// The arguments with which a term that is not written with a letter is
/// written.
pub open spec fn args_of(t: TermView) -> Seq<ExprView>
    decreases t, 0nat,
{
    match t {
        TermView::True => Seq::empty(),
        TermView::False => Seq::empty(),
        TermView::Key(_, a) => seq![leaf(a)],
        TermView::After(n) => seq![leaf(decimal(n))],
        TermView::Older(n) => seq![leaf(decimal(n))],
        TermView::Hash(_, a) => seq![leaf(a)],
        TermView::Unary(_, x) => match *x {
            TermView::Key(_, a) => seq![leaf(a)],
            _ => Seq::empty(),
        },
        TermView::Binary(_, x, y) => seq![
            expr_with(*x, Seq::empty()),
            expr_with(*y, Seq::empty()),
        ],
        TermView::AndOr(x, y, z) => if *z == TermView::False {
            seq![expr_with(*x, Seq::empty()), expr_with(*y, Seq::empty())]
        } else {
            seq![
                expr_with(*x, Seq::empty()),
                expr_with(*y, Seq::empty()),
                expr_with(*z, Seq::empty()),
            ]
        },
        TermView::Thresh(k, subs) => seq![leaf(decimal(k))] + Seq::new(
            subs.len(),
            |i: int|
                if 0 <= i < subs.len() {
                    expr_with(subs[i], Seq::empty())
                } else {
                    arbitrary()
                },
        ),
        TermView::Multi(_, k, keys) => seq![leaf(decimal(k))] + Seq::new(
            keys.len(),
            |i: int| leaf(keys[i]),
        ),
    }
}

/// The expression of a term under the wrappers whose letters are `w`.
pub open spec fn expr_with(t: TermView, w: Seq<char>) -> ExprView
    decreases t, 1nat,
{
    if prefixed(t) {
        let outer = peel(t).unwrap();
        expr_with(outer.1, w.push(outer.0))
    } else {
        ExprView { name: lettered(w, frag_name(frag_of(t))), curly: false, args: args_of(t) }
    }
}

/// The expression as which a term is written.
pub open spec fn term_expr(t: TermView) -> ExprView {
    expr_with(t, Seq::empty())
}

/// Where the first colon at or after `i` stands, or the length of the text
/// if there is none.
pub open spec fn colon_at(s: Seq<char>, i: int) -> int
    decreases s.len() - i,
{
    if i < 0 || i >= s.len() || s[i] == ':' {
        i
    } else {
        colon_at(s, i + 1)
    }
}

/// The letters in front of the first colon; none where there is no colon.
pub open spec fn letters_of(name: Seq<char>) -> Seq<char> {
    let p = colon_at(name, 0);
    if 0 <= p < name.len() {
        name.subrange(0, p)
    } else {
        Seq::empty()
    }
}

/// What follows the first colon; the whole name where there is no colon.
pub open spec fn base_of(name: Seq<char>) -> Seq<char> {
    let p = colon_at(name, 0);
    if 0 <= p < name.len() {
        name.subrange(p + 1, name.len() as int)
    } else {
        name
    }
}

/// The text of an expression without arguments.
pub open spec fn atom(e: ExprView) -> Option<Seq<char>> {
    if e.args.len() == 0 && !e.curly {
        Some(e.name)
    } else {
        None
    }
}

/// The one argument, where it is an atom.
pub open spec fn single_atom(args: Seq<ExprView>) -> Option<Seq<char>> {
    if args.len() == 1 {
        atom(args[0])
    } else {
        None
    }
}

/// The number that the first argument denotes.
pub open spec fn head_number(args: Seq<ExprView>) -> Option<nat> {
    if args.len() >= 1 {
        match atom(args[0]) {
            Some(a) => number_of(a),
            None => None,
        }
    } else {
        None
    }
}

/// The atoms from `from` on, where all of them are atoms.
pub open spec fn atoms_from(args: Seq<ExprView>, from: nat) -> Option<Seq<Seq<char>>>
    decreases args.len() - from,
{
    if from >= args.len() {
        Some(Seq::empty())
    } else {
        match (atom(args[from as int]), atoms_from(args, from + 1)) {
            (Some(a), Some(rest)) => Some(seq![a] + rest),
            _ => None,
        }
    }
}

/// The terms that the expressions from `from` on stand for, where all of
/// them stand for one.
pub open spec fn terms_from(args: Seq<ExprView>, from: nat) -> Option<Seq<TermView>>
    decreases args, args.len() - from,
{
    if from >= args.len() {
        Some(Seq::empty())
    } else {
        match (expr_term(args[from as int]), terms_from(args, from + 1)) {
            (Some(t), Some(rest)) => Some(seq![t] + rest),
            _ => None,
        }
    }
}

/// The term that a name and its arguments stand for.
pub open spec fn frag_term(f: Frag, args: Seq<ExprView>) -> Option<TermView>
    decreases args, args.len() + 1,
{
    match f {
        Frag::True => if args.len() == 0 {
            Some(TermView::True)
        } else {
            None
        },
        Frag::False => if args.len() == 0 {
            Some(TermView::False)
        } else {
            None
        },
        Frag::Key(k) => match single_atom(args) {
            Some(a) => Some(TermView::Key(k, a)),
            None => None,
        },
        Frag::Alias(k) => match single_atom(args) {
            Some(a) => Some(TermView::Unary(Wrapper::Check, Box::new(TermView::Key(k, a)))),
            None => None,
        },
        Frag::After => if args.len() == 1 {
            match head_number(args) {
                Some(n) => Some(TermView::After(n)),
                None => None,
            }
        } else {
            None
        },
        Frag::Older => if args.len() == 1 {
            match head_number(args) {
                Some(n) => Some(TermView::Older(n)),
                None => None,
            }
        } else {
            None
        },
        Frag::Hash(h) => match single_atom(args) {
            Some(a) => Some(TermView::Hash(h, a)),
            None => None,
        },
        Frag::Comb(c) => if args.len() == 2 {
            match (expr_term(args[0]), expr_term(args[1])) {
                (Some(x), Some(y)) => Some(TermView::Binary(c, Box::new(x), Box::new(y))),
                _ => None,
            }
        } else {
            None
        },
        Frag::AndN => if args.len() == 2 {
            match (expr_term(args[0]), expr_term(args[1])) {
                (Some(x), Some(y)) => Some(
                    TermView::AndOr(Box::new(x), Box::new(y), Box::new(TermView::False)),
                ),
                _ => None,
            }
        } else {
            None
        },
        Frag::AndOr => if args.len() == 3 {
            match (expr_term(args[0]), expr_term(args[1]), expr_term(args[2])) {
                (Some(x), Some(y), Some(z)) => Some(
                    TermView::AndOr(Box::new(x), Box::new(y), Box::new(z)),
                ),
                _ => None,
            }
        } else {
            None
        },
        Frag::Thresh => if args.len() >= 1 {
            match (head_number(args), terms_from(args, 1)) {
                (Some(k), Some(subs)) => if 1 <= k <= subs.len() {
                    Some(TermView::Thresh(k, subs))
                } else {
                    None
                },
                _ => None,
            }
        } else {
            None
        },
        Frag::Multi(m) => if args.len() >= 1 {
            match (head_number(args), atoms_from(args, 1)) {
                (Some(k), Some(keys)) => if 1 <= k <= keys.len() {
                    Some(TermView::Multi(m, k, keys))
                } else {
                    None
                },
                _ => None,
            }
        } else {
            None
        },
    }
}

/// The term that an expression stands for. Spellings that are never
/// written, such as `and_v(X,1)`, are read too.
pub open spec fn expr_term(e: ExprView) -> Option<TermView>
    decreases e, 0nat,
{
    if e.curly {
        None
    } else {
        match frag_named(base_of(e.name)) {
            Some(f) => match frag_term(f, e.args) {
                Some(t) => wrap_all(letters_of(e.name), t),
                None => None,
            },
            None => None,
        }
    }
}

/// The text of a term.
pub open spec fn term_text(t: TermView) -> Seq<char> {
    crate::expr::expr_text(term_expr(t))
}

/// The term that a text stands for when it is read as an expression and
/// the expression as a term.
pub open spec fn text_term(s: Seq<char>) -> Option<TermView> {
    match crate::expr::parse_whole(s, false) {
        Some(e) => expr_term(e),
        None => None,
    }
}

/// Whether `s` is the text of the well-formed term `t`.
pub open spec fn reads_as(s: Seq<char>, t: TermView) -> bool {
    term_wf(t) && term_text(t) == s
}

/// The well-formed term whose text is `s`, if there is one.
pub open spec fn term_of_text(s: Seq<char>) -> Option<TermView> {
    if exists|t: TermView| reads_as(s, t) {
        Some(choose|t: TermView| reads_as(s, t))
    } else {
        None
    }
}

/// A letter added behind the others is applied before them.
pub proof fn lemma_wrap_push(w: Seq<char>, c: char, t: TermView)
    ensures
        wrap_all(w.push(c), t) == (match wrap_one(c, t) {
            Some(inner) => wrap_all(w, inner),
            None => None,
        }),
    decreases w.len(),
{
    if w.len() == 0 {
        assert(w.push(c).drop_first() =~= Seq::<char>::empty());
        assert(wrap_all(Seq::<char>::empty(), t) == Some(t));
        match wrap_one(c, t) {
            Some(inner) => {
                assert(wrap_all(w, inner) == Some(inner));
            },
            None => {},
        }
    } else {
        assert(w.push(c).drop_first() =~= w.drop_first().push(c));
        assert(w.push(c)[0] == w[0]);
        lemma_wrap_push(w.drop_first(), c, t);
    }
}

/// A stretch without colons that is followed by one, or by the end of the
/// text, ends at the first colon.
pub proof fn lemma_colon_at(s: Seq<char>, i: int, j: int)
    requires
        0 <= i <= j <= s.len(),
        forall|k: int| i <= k < j ==> s[k] != ':',
        j == s.len() || s[j] == ':',
    ensures
        colon_at(s, i) == j,
    decreases j - i,
{
    if i < j {
        lemma_colon_at(s, i + 1, j);
    }
}

/// A name with letters in front is taken apart into the letters and the
/// name.
pub proof fn lemma_lettered(w: Seq<char>, name: Seq<char>)
    requires
        all_letters(w),
        free_of_colons(name),
    ensures
        letters_of(lettered(w, name)) == w,
        base_of(lettered(w, name)) == name,
{
    let full = lettered(w, name);
    if w.len() == 0 {
        lemma_colon_at(full, 0, full.len() as int);
        assert(letters_of(full) =~= w);
    } else {
        assert forall|k: int| 0 <= k < w.len() implies full[k] != ':' by {
            assert(full[k] == w[k]);
            assert(wrap_one(w[k], TermView::True) is Some);
        }
        assert(full[w.len() as int] == ':');
        lemma_colon_at(full, 0, w.len() as int);
        assert(full.subrange(0, w.len() as int) =~= w);
        assert(full.subrange(w.len() as int + 1, full.len() as int) =~= name);
    }
}

/// The letters of wrappers and the colon are no delimiters.
pub proof fn lemma_lettered_free(w: Seq<char>, name: Seq<char>, braces: bool)
    requires
        all_letters(w),
        free_of_delimiters(name, braces),
    ensures
        free_of_delimiters(lettered(w, name), braces),
{
    let full = lettered(w, name);
    if w.len() > 0 {
        assert forall|k: int| 0 <= k < full.len() implies !is_delimiter(#[trigger] full[k], braces) by {
            if k < w.len() {
                assert(full[k] == w[k]);
                assert(wrap_one(w[k], TermView::True) is Some);
            } else if k == w.len() {
                assert(full[k] == ':');
            } else {
                assert(full[k] == name[k - w.len() - 1]);
            }
        }
    }
}

/// A number is written without brackets and commas.
pub proof fn lemma_decimal_free(n: nat, braces: bool)
    ensures
        free_of_delimiters(decimal(n), braces),
{
    lemma_decimal_value(n);
    assert forall|k: int| 0 <= k < decimal(n).len() implies !is_delimiter(
        #[trigger] decimal(n)[k],
        braces,
    ) by {
        assert(digit_value(decimal(n)[k]) is Some);
    }
}

/// Where every expression behind the first stands for the term at its
/// place, the expressions from `from` on stand for the terms from there on.
pub proof fn lemma_terms_from(args: Seq<ExprView>, subs: Seq<TermView>, from: nat)
    requires
        args.len() == subs.len() + 1,
        1 <= from <= args.len(),
        forall|i: int| 0 <= i < subs.len() ==> expr_term(#[trigger] args[i + 1]) == Some(subs[i]),
    ensures
        terms_from(args, from) == Some(subs.subrange(from - 1, subs.len() as int)),
    decreases args.len() - from,
{
    if from >= args.len() {
        assert(subs.subrange(from - 1, subs.len() as int) =~= Seq::<TermView>::empty());
    } else {
        lemma_terms_from(args, subs, from + 1);
        assert(expr_term(args[(from - 1) + 1]) == Some(subs[from - 1]));
        assert(subs.subrange(from - 1, subs.len() as int) =~= seq![subs[from - 1]]
            + subs.subrange(from as int, subs.len() as int));
    }
}

/// The same for atoms.
pub proof fn lemma_atoms_from(args: Seq<ExprView>, keys: Seq<Seq<char>>, from: nat)
    requires
        args.len() == keys.len() + 1,
        1 <= from <= args.len(),
        forall|i: int| 0 <= i < keys.len() ==> #[trigger] args[i + 1] == leaf(keys[i]),
    ensures
        atoms_from(args, from) == Some(keys.subrange(from - 1, keys.len() as int)),
    decreases args.len() - from,
{
    if from >= args.len() {
        assert(keys.subrange(from - 1, keys.len() as int) =~= Seq::<Seq<char>>::empty());
    } else {
        lemma_atoms_from(args, keys, from + 1);
        assert(args[(from - 1) + 1] == leaf(keys[from - 1]));
        assert(keys.subrange(from - 1, keys.len() as int) =~= seq![keys[from - 1]]
            + keys.subrange(from as int, keys.len() as int));
    }
}

/// The expression of a well-formed term is well formed, and stands for the
/// term under its wrappers.
pub proof fn lemma_expr_with(t: TermView, w: Seq<char>, braces: bool)
    requires
        term_sound(t, braces),
        all_letters(w),
    ensures
        expr_term(expr_with(t, w)) == wrap_all(w, t),
        expr_wf(expr_with(t, w), braces),
    decreases t,
{
    if prefixed(t) {
        let outer = peel(t).unwrap();
        let c = outer.0;
        let x = outer.1;
        assert(wrap_one(c, x) == Some(t));
        assert(term_sound(x, braces));
        assert forall|i: int| 0 <= i < w.push(c).len() implies wrap_one(
            #[trigger] w.push(c)[i],
            TermView::True,
        ) is Some by {
            if i < w.len() {
                assert(w.push(c)[i] == w[i]);
            }
        }
        lemma_expr_with(x, w.push(c), braces);
        lemma_wrap_push(w, c, x);
    } else {
        let f = frag_of(t);
        let args = args_of(t);
        let e = expr_with(t, w);
        lemma_frag_names(f);
        lemma_lettered(w, frag_name(f));
        crate::expr::lemma_free_in_both(frag_name(f), braces);
        lemma_lettered_free(w, frag_name(f), braces);
        let none = Seq::<char>::empty();
        assert(wrap_all(none, TermView::True) == Some(TermView::True));
        match t {
            TermView::True => {},
            TermView::False => {},
            TermView::Key(_, a) => {
                assert(expr_wf(leaf(a), braces));
            },
            TermView::After(n) => {
                lemma_number_of_decimal(n);
                lemma_decimal_free(n, braces);
                assert(expr_wf(leaf(decimal(n)), braces));
            },
            TermView::Older(n) => {
                lemma_number_of_decimal(n);
                lemma_decimal_free(n, braces);
                assert(expr_wf(leaf(decimal(n)), braces));
            },
            TermView::Hash(_, a) => {
                assert(expr_wf(leaf(a), braces));
            },
            TermView::Unary(_, x) => {
                assert(term_sound(*x, braces));
                match *x {
                    TermView::Key(_, a) => {
                        assert(expr_wf(leaf(a), braces));
                    },
                    _ => {},
                }
            },
            TermView::Binary(_, x, y) => {
                lemma_expr_with(*x, none, braces);
                lemma_expr_with(*y, none, braces);
                assert(wrap_all(none, *x) == Some(*x));
                assert(wrap_all(none, *y) == Some(*y));
            },
            TermView::AndOr(x, y, z) => {
                lemma_expr_with(*x, none, braces);
                lemma_expr_with(*y, none, braces);
                lemma_expr_with(*z, none, braces);
                assert(wrap_all(none, *x) == Some(*x));
                assert(wrap_all(none, *y) == Some(*y));
                assert(wrap_all(none, *z) == Some(*z));
            },
            TermView::Thresh(k, subs) => {
                lemma_number_of_decimal(k);
                lemma_decimal_free(k, braces);
                assert(expr_wf(leaf(decimal(k)), braces));
                assert(args.len() == subs.len() + 1);
                assert(args[0] == leaf(decimal(k)));
                assert forall|i: int| 0 <= i < subs.len() implies expr_term(#[trigger] args[i + 1])
                    == Some(subs[i]) && expr_wf(args[i + 1], braces) by {
                    assert(args[i + 1] == expr_with(subs[i], none));
                    lemma_expr_with(subs[i], none, braces);
                    assert(wrap_all(none, subs[i]) == Some(subs[i]));
                }
                lemma_terms_from(args, subs, 1);
                assert(subs.subrange(0, subs.len() as int) =~= subs);
                assert forall|i: int| 0 <= i < args.len() implies expr_wf(#[trigger] args[i], braces) by {
                    if i > 0 {
                        assert(expr_wf(args[(i - 1) + 1], braces));
                    }
                }
            },
            TermView::Multi(_, k, keys) => {
                lemma_number_of_decimal(k);
                lemma_decimal_free(k, braces);
                assert(expr_wf(leaf(decimal(k)), braces));
                assert(args.len() == keys.len() + 1);
                assert(args[0] == leaf(decimal(k)));
                assert forall|i: int| 0 <= i < keys.len() implies #[trigger] args[i + 1] == leaf(
                    keys[i],
                ) && expr_wf(args[i + 1], braces) by {
                    assert(free_of_delimiters(keys[i], braces));
                }
                lemma_atoms_from(args, keys, 1);
                assert(keys.subrange(0, keys.len() as int) =~= keys);
                assert forall|i: int| 0 <= i < args.len() implies expr_wf(#[trigger] args[i], braces) by {
                    if i > 0 {
                        assert(expr_wf(args[(i - 1) + 1], braces));
                    }
                }
            },
        }
        assert(frag_term(f, args) == Some(t));
        assert(expr_wf(e, braces));
    }
}

/// Writing a well-formed term and reading the text gives the term back.
pub proof fn lemma_text_term(t: TermView)
    requires
        term_wf(t),
    ensures
        text_term(term_text(t)) == Some(t),
{
    let none = Seq::<char>::empty();
    lemma_expr_with(t, none, false);
    assert(wrap_all(none, t) == Some(t));
    lemma_within_grows(t, MAX_HEIGHT as nat, (MAX_DEPTH - 1) as nat);
    lemma_shallow(t, none, MAX_DEPTH as nat);
    crate::expr::lemma_parse_whole(term_expr(t), false);
}

/// No two well-formed terms have the same text.
pub proof fn lemma_text_determines_term(a: TermView, b: TermView)
    requires
        term_wf(a),
        term_wf(b),
        term_text(a) == term_text(b),
    ensures
        a == b,
{
    lemma_text_term(a);
    lemma_text_term(b);
}

/// The text of a well-formed term is read as that term, and as no other.
pub proof fn lemma_written_term_is_read(t: TermView)
    requires
        term_wf(t),
    ensures
        term_of_text(term_text(t)) == Some(t),
{
    let s = term_text(t);
    assert(reads_as(s, t));
    let u = choose|u: TermView| reads_as(s, u);
    lemma_text_determines_term(t, u);
}

/// A text is read as a term exactly where it is the text of that term.
pub proof fn lemma_term_of_text(s: Seq<char>, t: TermView)
    ensures
        term_of_text(s) == Some(t) <==> reads_as(s, t),
{
    if reads_as(s, t) {
        lemma_written_term_is_read(t);
    }
}

/// The term that an expression stands for, where it is at most `room` high.
pub open spec fn expr_term_within(e: ExprView, room: nat) -> Option<TermView> {
    match expr_term(e) {
        Some(t) => if term_within(t, room) {
            Some(t)
        } else {
            None
        },
        None => None,
    }
}

/// Whether every term of a list is at most `room` high.
pub open spec fn all_within(ts: Seq<TermView>, room: nat) -> bool {
    forall|i: int| 0 <= i < ts.len() ==> term_within(#[trigger] ts[i], room)
}

/// A threshold is one higher than the highest of its terms.
pub proof fn lemma_thresh_within(k: nat, subs: Seq<TermView>, room: nat)
    ensures
        term_within(TermView::Thresh(k, subs), room) <==> (room > 0 && all_within(
            subs,
            (room - 1) as nat,
        )),
{
    reveal_with_fuel(term_within, 2);
    let t = TermView::Thresh(k, subs);
    if room > 0 {
        if term_within(t, room) {
            assert forall|i: int| 0 <= i < subs.len() implies term_within(
                #[trigger] subs[i],
                (room - 1) as nat,
            ) by {
                match t {
                    TermView::Thresh(_, inner) => {
                        assert(inner == subs);
                        assert(term_within(inner[i], (room - 1) as nat));
                    },
                    _ => {},
                }
            }
        }
        if all_within(subs, (room - 1) as nat) {
            assert(term_within(t, room));
        }
    }
}

/// A term that is at most so high is at most any greater height high.
pub proof fn lemma_within_grows(t: TermView, a: nat, b: nat)
    requires
        term_within(t, a),
        a <= b,
    ensures
        term_within(t, b),
    decreases t,
{
    match t {
        TermView::Unary(_, x) => {
            lemma_within_grows(*x, (a - 1) as nat, (b - 1) as nat);
        },
        TermView::Binary(_, x, y) => {
            lemma_within_grows(*x, (a - 1) as nat, (b - 1) as nat);
            lemma_within_grows(*y, (a - 1) as nat, (b - 1) as nat);
        },
        TermView::AndOr(x, y, z) => {
            lemma_within_grows(*x, (a - 1) as nat, (b - 1) as nat);
            lemma_within_grows(*y, (a - 1) as nat, (b - 1) as nat);
            lemma_within_grows(*z, (a - 1) as nat, (b - 1) as nat);
        },
        TermView::Thresh(_, subs) => {
            assert forall|i: int| 0 <= i < subs.len() implies term_within(
                #[trigger] subs[i],
                (b - 1) as nat,
            ) by {
                lemma_within_grows(subs[i], (a - 1) as nat, (b - 1) as nat);
            }
        },
        _ => {},
    }
}

/// Every letter makes a term one higher.
pub proof fn lemma_wrap_within(w: Seq<char>, t: TermView, room: nat)
    requires
        wrap_all(w, t) is Some,
    ensures
        term_within(wrap_all(w, t).unwrap(), room) <==> (w.len() <= room && term_within(
            t,
            (room - w.len()) as nat,
        )),
    decreases w.len(),
{
    reveal_with_fuel(term_within, 2);
    if w.len() > 0 {
        let inner = wrap_all(w.drop_first(), t).unwrap();
        let outer = wrap_one(w[0], inner).unwrap();
        assert(wrap_all(w, t) == Some(outer));
        assert(term_within(outer, room) <==> (room > 0 && term_within(inner, (room - 1) as nat)));
        if room > 0 {
            lemma_wrap_within(w.drop_first(), t, (room - 1) as nat);
        }
    }
}

/// The brackets of a term's expression are nested at most one deeper than
/// the term is high.
pub proof fn lemma_shallow(t: TermView, w: Seq<char>, room: nat)
    requires
        room > 0,
        term_within(t, (room - 1) as nat),
    ensures
        shallow(expr_with(t, w), room),
    decreases t,
{
    let none = Seq::<char>::empty();
    if prefixed(t) {
        let outer = peel(t).unwrap();
        lemma_within_grows(outer.1, (room - 2) as nat, (room - 1) as nat);
        lemma_shallow(outer.1, w.push(outer.0), room);
    } else {
        let args = args_of(t);
        match t {
            TermView::Binary(_, x, y) => {
                lemma_shallow(*x, none, (room - 1) as nat);
                lemma_shallow(*y, none, (room - 1) as nat);
            },
            TermView::AndOr(x, y, z) => {
                lemma_shallow(*x, none, (room - 1) as nat);
                lemma_shallow(*y, none, (room - 1) as nat);
                lemma_shallow(*z, none, (room - 1) as nat);
            },
            TermView::Thresh(_, subs) => {
                assert forall|k: int| 0 <= k < args.len() implies shallow(
                    #[trigger] args[k],
                    (room - 1) as nat,
                ) by {
                    if k > 0 {
                        assert(args[k] == expr_with(subs[k - 1], none));
                        lemma_shallow(subs[k - 1], none, (room - 1) as nat);
                    }
                }
            },
            _ => {},
        }
        assert forall|k: int| 0 <= k < args.len() implies shallow(
            #[trigger] args[k],
            (room - 1) as nat,
        ) by {}
    }
}

/// Reading a text as a term comes to this: read it as an expression, the
/// expression as a term, and keep the term where it is well formed and the
/// text is the one under which it is written.
pub proof fn lemma_reading(s: Seq<char>)
    ensures
        term_of_text(s) == (match text_term(s) {
            Some(t) => if term_wf(t) && term_text(t) == s {
                Some(t)
            } else {
                None
            },
            None => None,
        }),
{
    if exists|t: TermView| reads_as(s, t) {
        let t = choose|t: TermView| reads_as(s, t);
        lemma_text_term(t);
    } else {
        match text_term(s) {
            Some(t) => {
                if term_wf(t) && term_text(t) == s {
                    assert(reads_as(s, t));
                }
            },
            None => {},
        }
    }
}

} // verus!
