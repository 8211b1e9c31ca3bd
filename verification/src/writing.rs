//! Writing terms, and the functions of [`Term`] that read and write texts.

use vstd::prelude::*;
use crate::decimal::write_decimal;
use crate::expr::{Expr, ExprView, expr_views, lemma_view_args};
use crate::frag::{Combinator, Frag, MultiKind, Wrapper, name_of_frag};
use crate::reading::{lemma_thresh_model, no_delimiters, term_of_expr};
use crate::term::{
    MAX_HEIGHT, Term, TermView, args_of, expr_term_within, expr_with, frag_of, leaf,
    lemma_reading, lettered, prefixed, term_expr, term_of_text, term_sound, term_text,
    term_views, term_wf, term_within, text_views, wrapper_char,
};
use crate::text::same_text;

verus! {

fn is_true(t: &Term) -> (b: bool)
    ensures
        b == (t@ == TermView::True),
{
    match t {
        Term::True => true,
        _ => false,
    }
}

fn is_false(t: &Term) -> (b: bool)
    ensures
        b == (t@ == TermView::False),
{
    match t {
        Term::False => true,
        _ => false,
    }
}

fn is_key(t: &Term) -> (b: bool)
    ensures
        b == (t@ is Key),
{
    match t {
        Term::Key(_, _) => true,
        _ => false,
    }
}

/// The letter of a wrapper, appended to the letters before it.
fn with_letter(letters: String, w: Wrapper) -> (r: String)
    ensures
        r@ == letters@.push(wrapper_char(w)),
{
    proof {
        reveal_strlit("a");
        reveal_strlit("s");
        reveal_strlit("c");
        reveal_strlit("d");
        reveal_strlit("v");
        reveal_strlit("j");
        reveal_strlit("n");
    }
    let mut r = letters;
    match w {
        Wrapper::Alt => r.append("a"),
        Wrapper::Swap => r.append("s"),
        Wrapper::Check => r.append("c"),
        Wrapper::DupIf => r.append("d"),
        Wrapper::Verify => r.append("v"),
        Wrapper::NonZero => r.append("j"),
        Wrapper::ZeroNotEqual => r.append("n"),
    }
    assert(r@ =~= letters@.push(wrapper_char(w)));
    r
}

/// A name with the letters of the wrappers in front of it.
fn lettered_name(letters: String, name: &str) -> (r: String)
    ensures
        r@ == lettered(letters@, name@),
{
    if letters.as_str().is_empty() {
        String::from_str(name)
    } else {
        proof {
            reveal_strlit(":");
        }
        let mut r = letters;
        r.append(":");
        r.append(name);
        assert(r@ =~= lettered(letters@, name@));
        r
    }
}

pub(crate) fn leaf_expr(name: String) -> (e: Expr)
    ensures
        e@ == leaf(name@),
{
    let e = Expr { name, curly: false, args: Vec::new() };
    proof {
        lemma_view_args(&e);
        assert(e@.args =~= Seq::<ExprView>::empty());
    }
    e
}

/// The name under which a term that is not written with a letter is written.
fn frag_of_term(t: &Term) -> (f: Frag)
    ensures
        f == frag_of(t@),
{
    proof {
        reveal_with_fuel(Term::model, 2);
    }
    match t {
        Term::True => Frag::True,
        Term::False => Frag::False,
        Term::Key(k, _) => Frag::Key(*k),
        Term::After(_) => Frag::After,
        Term::Older(_) => Frag::Older,
        Term::Hash(h, _) => Frag::Hash(*h),
        Term::Unary(_, x) => match &**x {
            Term::Key(k, _) => Frag::Alias(*k),
            _ => Frag::True,
        },
        Term::Binary(c, _, _) => Frag::Comb(*c),
        Term::AndOr(_, _, z) => if is_false(z) {
            Frag::AndN
        } else {
            Frag::AndOr
        },
        Term::Thresh(_, _) => Frag::Thresh,
        Term::Multi(m, _, _) => Frag::Multi(*m),
    }
}

/// The arguments with which a term that is not written with a letter is
/// written.
fn args_of_term(t: &Term) -> (args: Vec<Expr>)
    ensures
        expr_views(args@) == args_of(t@),
    decreases t, 0nat,
{
    let mut args: Vec<Expr> = Vec::new();
    proof {
        reveal_with_fuel(Term::model, 2);
    }
    match t {
        Term::True => {},
        Term::False => {},
        Term::Key(_, a) => {
            args.push(leaf_expr(a.clone()));
        },
        Term::After(n) => {
            args.push(leaf_expr(write_decimal(*n as u64)));
        },
        Term::Older(n) => {
            args.push(leaf_expr(write_decimal(*n as u64)));
        },
        Term::Hash(_, a) => {
            args.push(leaf_expr(a.clone()));
        },
        Term::Unary(_, x) => {
            match &**x {
                Term::Key(_, a) => {
                    args.push(leaf_expr(a.clone()));
                },
                _ => {},
            }
        },
        Term::Binary(_, x, y) => {
            args.push(expr_under(x, String::new()));
            args.push(expr_under(y, String::new()));
        },
        Term::AndOr(x, y, z) => {
            args.push(expr_under(x, String::new()));
            args.push(expr_under(y, String::new()));
            if !is_false(z) {
                args.push(expr_under(z, String::new()));
            }
        },
        Term::Thresh(k, subs) => {
            proof {
                lemma_thresh_model(*k, *subs);
            }
            args = exprs_of_terms(subs, leaf_expr(write_decimal(*k as u64)));
            assert(expr_views(args@) =~= args_of(t@)) by {
                assert forall|j: int| 0 <= j < args.len() implies expr_views(args@)[j] == args_of(
                    t@,
                )[j] by {
                    if j > 0 {
                        assert(args@[(j - 1) + 1]@ == expr_with(subs@[j - 1]@, Seq::empty()));
                    }
                }
            }
        },
        Term::Multi(_, k, keys) => {
            args = exprs_of_texts(keys, leaf_expr(write_decimal(*k as u64)));
            assert(expr_views(args@) =~= args_of(t@)) by {
                assert forall|j: int| 0 <= j < args.len() implies expr_views(args@)[j] == args_of(
                    t@,
                )[j] by {
                    if j > 0 {
                        assert(args@[(j - 1) + 1]@ == leaf(keys@[j - 1]@));
                    }
                }
            }
        },
    }
    assert(expr_views(args@) =~= args_of(t@));
    args
}

/// The expression of a term under the wrappers whose letters are given.
fn expr_under(t: &Term, letters: String) -> (e: Expr)
    ensures
        e@ == expr_with(t@, letters@),
    decreases t, 1nat,
{
    match t {
        Term::Unary(w, x) => {
            let alias = match w {
                Wrapper::Check => is_key(x),
                _ => false,
            };
            if !alias {
                return expr_under(x, with_letter(letters, *w));
            }
        },
        Term::Binary(c, x, y) => {
            proof {
                reveal_strlit("t");
                reveal_strlit("u");
                reveal_strlit("l");
            }
            match c {
                Combinator::AndV => {
                    if is_true(y) {
                        let mut more = letters;
                        more.append("t");
                        assert(more@ =~= letters@.push('t'));
                        return expr_under(x, more);
                    }
                },
                Combinator::OrI => {
                    if is_false(y) {
                        let mut more = letters;
                        more.append("u");
                        assert(more@ =~= letters@.push('u'));
                        return expr_under(x, more);
                    } else if is_false(x) {
                        let mut more = letters;
                        more.append("l");
                        assert(more@ =~= letters@.push('l'));
                        return expr_under(y, more);
                    }
                },
                _ => {},
            }
        },
        _ => {},
    }
    assert(!prefixed(t@));
    let name = lettered_name(letters, name_of_frag(frag_of_term(t)));
    let args = args_of_term(t);
    let e = Expr { name, curly: false, args };
    proof {
        lemma_view_args(&e);
    }
    e
}

/// A first argument followed by the expressions of the terms.
fn exprs_of_terms(subs: &Vec<Term>, head: Expr) -> (args: Vec<Expr>)
    ensures
        args.len() == subs.len() + 1,
        args@[0]@ == head@,
        forall|j: int|
            0 <= j < subs.len() ==> (#[trigger] args@[j + 1])@ == expr_with(
                subs@[j]@,
                Seq::empty(),
            ),
    decreases subs, 0nat,
{
    let mut args: Vec<Expr> = Vec::new();
    args.push(head);
    let mut i: usize = 0;
    while i < subs.len()
        invariant
            i <= subs.len(),
            args.len() == i + 1,
            args@[0]@ == head@,
            forall|j: int|
                0 <= j < i ==> (#[trigger] args@[j + 1])@ == expr_with(subs@[j]@, Seq::empty()),
        decreases subs.len() - i,
    {
        args.push(expr_under(&subs[i], String::new()));
        i += 1;
    }
    args
}

/// A first argument followed by the texts as atoms.
pub(crate) fn exprs_of_texts(keys: &Vec<String>, head: Expr) -> (args: Vec<Expr>)
    ensures
        args.len() == keys.len() + 1,
        args@[0]@ == head@,
        forall|j: int| 0 <= j < keys.len() ==> (#[trigger] args@[j + 1])@ == leaf(keys@[j]@),
{
    let mut args: Vec<Expr> = Vec::new();
    args.push(head);
    let mut i: usize = 0;
    while i < keys.len()
        invariant
            i <= keys.len(),
            args.len() == i + 1,
            args@[0]@ == head@,
            forall|j: int| 0 <= j < i ==> (#[trigger] args@[j + 1])@ == leaf(keys@[j]@),
        decreases keys.len() - i,
    {
        args.push(leaf_expr(keys[i].clone()));
        i += 1;
    }
    args
}

/// Whether every term of a list is at most `room` high.
fn all_within_height(subs: &Vec<Term>, room: usize) -> (b: bool)
    ensures
        b == (forall|j: int|
            0 <= j < subs.len() ==> term_within(#[trigger] term_views(subs@)[j], room as nat)),
    decreases subs, 0nat,
{
    let mut i: usize = 0;
    while i < subs.len()
        invariant
            i <= subs.len(),
            forall|j: int| 0 <= j < i ==> term_within(#[trigger] term_views(subs@)[j], room as nat),
        decreases subs.len() - i,
    {
        if !within_height(&subs[i], room) {
            assert(!term_within(term_views(subs@)[i as int], room as nat));
            return false;
        }
        i += 1;
    }
    true
}

/// Whether a term is at most `room` high.
pub(crate) fn within_height(t: &Term, room: usize) -> (b: bool)
    ensures
        b == term_within(t@, room as nat),
    decreases t, 1nat,
{
    match t {
        Term::True => true,
        Term::False => true,
        Term::Key(_, _) => true,
        Term::After(_) => true,
        Term::Older(_) => true,
        Term::Hash(_, _) => true,
        Term::Multi(_, _, _) => true,
        Term::Unary(_, x) => {
            let b = if room == 0 {
                false
            } else {
                within_height(x, room - 1)
            };
            assert(b == term_within(t@, room as nat));
            b
        },
        Term::Binary(_, x, y) => {
            let b = if room == 0 {
                false
            } else {
                within_height(x, room - 1) && within_height(y, room - 1)
            };
            assert(b == term_within(t@, room as nat));
            b
        },
        Term::AndOr(x, y, z) => {
            let b = if room == 0 {
                false
            } else {
                within_height(x, room - 1) && within_height(y, room - 1) && within_height(
                    z,
                    room - 1,
                )
            };
            assert(b == term_within(t@, room as nat));
            b
        },
        Term::Thresh(k, subs) => {
            proof {
                lemma_thresh_model(*k, *subs);
            }
            let b = if room == 0 {
                false
            } else {
                all_within_height(subs, room - 1)
            };
            assert(t@ == TermView::Thresh(*k as nat, term_views(subs@)));
            assert(b == term_within(t@, room as nat));
            b
        },
    }
}

/// Whether every term of a list is sound.
fn terms_sound(subs: &Vec<Term>, braces: bool) -> (b: bool)
    ensures
        b == (forall|j: int| 0 <= j < subs.len() ==> term_sound(#[trigger] term_views(subs@)[j], braces)),
    decreases subs, 0nat,
{
    let mut i: usize = 0;
    while i < subs.len()
        invariant
            i <= subs.len(),
            forall|j: int| 0 <= j < i ==> term_sound(#[trigger] term_views(subs@)[j], braces),
        decreases subs.len() - i,
    {
        if !sound(&subs[i], braces) {
            assert(!term_sound(term_views(subs@)[i as int], braces));
            return false;
        }
        i += 1;
    }
    true
}

/// Whether no text of a list holds a bracket or a comma.
pub(crate) fn texts_free(keys: &Vec<String>, braces: bool) -> (b: bool)
    ensures
        b == (forall|j: int|
            0 <= j < keys.len() ==> crate::expr::free_of_delimiters(
                #[trigger] text_views(keys@)[j],
                braces,
            )),
{
    let mut i: usize = 0;
    while i < keys.len()
        invariant
            i <= keys.len(),
            forall|j: int|
                0 <= j < i ==> crate::expr::free_of_delimiters(#[trigger] text_views(keys@)[j], braces),
        decreases keys.len() - i,
    {
        if !no_delimiters(keys[i].as_str(), braces) {
            assert(!crate::expr::free_of_delimiters(text_views(keys@)[i as int], braces));
            return false;
        }
        i += 1;
    }
    true
}

/// Whether the parts of a term can be written.
pub(crate) fn sound(t: &Term, braces: bool) -> (b: bool)
    ensures
        b == term_sound(t@, braces),
    decreases t, 1nat,
{
    match t {
        Term::True => true,
        Term::False => true,
        Term::Key(_, a) => no_delimiters(a.as_str(), braces),
        Term::After(_) => true,
        Term::Older(_) => true,
        Term::Hash(_, a) => no_delimiters(a.as_str(), braces),
        Term::Unary(_, x) => sound(x, braces),
        Term::Binary(_, x, y) => sound(x, braces) && sound(y, braces),
        Term::AndOr(x, y, z) => sound(x, braces) && sound(y, braces) && sound(z, braces),
        Term::Thresh(k, subs) => {
            proof {
                lemma_thresh_model(*k, *subs);
            }
            *k >= 1 && *k <= subs.len() && *k <= 0xFFFF_FFFF && terms_sound(subs, braces)
        },
        Term::Multi(_, k, keys) => {
            *k >= 1 && *k <= keys.len() && *k <= 0xFFFF_FFFF && texts_free(keys, braces)
        },
    }
}

impl Term {
    /// A threshold over `children` that asks for `k` of them. There is none
    /// where `k` is zero or more than the number of children.
    pub fn threshold(k: usize, children: Vec<Term>) -> (r: Option<Term>)
        ensures
            match r {
                Some(t) => 1 <= k <= children.len() && t@ == TermView::Thresh(
                    k as nat,
                    term_views(children@),
                ),
                None => k == 0 || k > children.len(),
            },
    {
        if k == 0 || k > children.len() {
            None
        } else {
            proof {
                lemma_thresh_model(k, children);
            }
            Some(Term::Thresh(k, children))
        }
    }

    /// A multi-key term over `keys` that asks for `k` of them. There is none
    /// where `k` is zero or more than the number of keys.
    pub fn multi(kind: MultiKind, k: usize, keys: Vec<String>) -> (r: Option<Term>)
        ensures
            match r {
                Some(t) => 1 <= k <= keys.len() && t@ == TermView::Multi(
                    kind,
                    k as nat,
                    text_views(keys@),
                ),
                None => k == 0 || k > keys.len(),
            },
    {
        if k == 0 || k > keys.len() {
            None
        } else {
            Some(Term::Multi(kind, k, keys))
        }
    }

    /// Whether the term can be written and read again.
    pub fn is_well_formed(&self) -> (b: bool)
        ensures
            b == term_wf(self@),
    {
        within_height(self, MAX_HEIGHT) && sound(self, false)
    }

    /// The expression as which the term is written.
    pub fn to_expr(&self) -> (e: Expr)
        ensures
            e@ == term_expr(self@),
    {
        expr_under(self, String::new())
    }

    /// The text of the term.
    pub fn to_text(&self) -> (text: String)
        ensures
            text@ == term_text(self@),
    {
        self.to_expr().to_text()
    }

    /// The term that an expression stands for, where it is at most
    /// `MAX_HEIGHT` high. Spellings that are never written are read too.
    pub fn from_expr(e: &Expr) -> (r: Option<Term>)
        ensures
            match expr_term_within(e@, MAX_HEIGHT as nat) {
                Some(t) => r matches Some(x) && x@ == t,
                None => r is None,
            },
    {
        term_of_expr(e, MAX_HEIGHT)
    }

    /// Reads a term from its text. The text must be the one under which the
    /// term is written: another spelling of the same term is refused, and so
    /// is the text of a term that is not well formed.
    pub fn from_text(text: &str) -> (r: Option<Term>)
        ensures
            match term_of_text(text@) {
                Some(t) => r matches Some(x) && x@ == t,
                None => r is None,
            },
    {
        proof {
            lemma_reading(text@);
        }
        let e = match Expr::parse(text, false) {
            Some(e) => e,
            None => {
                return None;
            },
        };
        let t = match term_of_expr(&e, MAX_HEIGHT) {
            Some(t) => t,
            None => {
                return None;
            },
        };
        if !sound(&t, false) {
            return None;
        }
        let written = t.to_text();
        if same_text(written.as_str(), text) {
            Some(t)
        } else {
            None
        }
    }
}

} // verus!
