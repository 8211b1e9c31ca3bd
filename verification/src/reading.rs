//! Reading and writing terms: the executable side of the notation.

use vstd::prelude::*;
use crate::decimal::read_number;
use crate::expr::{Expr, ExprView, expr_views, free_of_delimiters, is_delimiter, lemma_view_args};
use crate::frag::{Combinator, Frag, KeyCheck, MultiKind, Wrapper, find_frag};
use crate::term::{
    all_within, Term, TermView, atom, atoms_from, colon_at, expr_term, expr_term_within, frag_term,
    head_number, lemma_thresh_within, lemma_wrap_push, lemma_wrap_within, letters_of,
    single_atom, term_views, term_within, terms_from, text_views, wrap_all, wrap_one,
};
use crate::text::{char_at, part_of};

verus! {

/// Whether a text holds no bracket and no comma.
pub fn no_delimiters(s: &str, braces: bool) -> (b: bool)
    ensures
        b == free_of_delimiters(s@, braces),
{
    let plain = s.is_ascii();
    let len = s.unicode_len();
    let mut i: usize = 0;
    while i < len
        invariant
            plain ==> s.is_ascii(),
            len == s@.len(),
            i <= len,
            forall|j: int| 0 <= j < i ==> !is_delimiter(#[trigger] s@[j], braces),
        decreases len - i,
    {
        let c = char_at(s, plain, i);
        if c == '(' || c == ')' || c == ',' || (braces && (c == '{' || c == '}')) {
            return false;
        }
        i += 1;
    }
    true
}

/// The term that a letter makes of a term.
fn wrap_letter(c: char, t: Term) -> (r: Option<Term>)
    ensures
        match wrap_one(c, t@) {
            Some(v) => r matches Some(x) && x@ == v,
            None => r is None,
        },
{
    proof {
        reveal_with_fuel(Term::model, 2);
    }
    if c == 'a' {
        Some(Term::Unary(Wrapper::Alt, Box::new(t)))
    } else if c == 's' {
        Some(Term::Unary(Wrapper::Swap, Box::new(t)))
    } else if c == 'c' {
        Some(Term::Unary(Wrapper::Check, Box::new(t)))
    } else if c == 'd' {
        Some(Term::Unary(Wrapper::DupIf, Box::new(t)))
    } else if c == 'v' {
        Some(Term::Unary(Wrapper::Verify, Box::new(t)))
    } else if c == 'j' {
        Some(Term::Unary(Wrapper::NonZero, Box::new(t)))
    } else if c == 'n' {
        Some(Term::Unary(Wrapper::ZeroNotEqual, Box::new(t)))
    } else if c == 't' {
        Some(Term::Binary(Combinator::AndV, Box::new(t), Box::new(Term::True)))
    } else if c == 'u' {
        Some(Term::Binary(Combinator::OrI, Box::new(t), Box::new(Term::False)))
    } else if c == 'l' {
        Some(Term::Binary(Combinator::OrI, Box::new(Term::False), Box::new(t)))
    } else {
        None
    }
}

/// Where the first colon of a text stands, or its length if it has none.
fn find_colon(s: &str, plain: bool, len: usize) -> (p: usize)
    requires
        plain ==> s.is_ascii(),
        len == s@.len(),
    ensures
        p == colon_at(s@, 0),
        p <= len,
{
    let mut p: usize = 0;
    while p < len
        invariant
            plain ==> s.is_ascii(),
            len == s@.len(),
            p <= len,
            colon_at(s@, 0) == colon_at(s@, p as int),
        decreases len - p,
    {
        if char_at(s, plain, p) == ':' {
            return p;
        }
        p += 1;
    }
    p
}

/// What reading a list gives where `done` was read before `rest`.
pub open spec fn joined_terms(done: Seq<TermView>, rest: Option<Seq<TermView>>) -> Option<
    Seq<TermView>,
> {
    match rest {
        Some(more) => Some(done + more),
        None => None,
    }
}

/// The same for atoms.
pub open spec fn joined_atoms(done: Seq<Seq<char>>, rest: Option<Seq<Seq<char>>>) -> Option<
    Seq<Seq<char>>,
> {
    match rest {
        Some(more) => Some(done + more),
        None => None,
    }
}

/// The text of an expression without arguments.
pub(crate) fn atom_of(e: &Expr) -> (a: Option<String>)
    ensures
        match atom(e@) {
            Some(v) => a matches Some(x) && x@ == v,
            None => a is None,
        },
{
    proof {
        lemma_view_args(e);
    }
    if e.args.len() == 0 && !e.curly {
        Some(e.name.clone())
    } else {
        None
    }
}

/// The one argument, where it is an atom.
pub(crate) fn single_atom_of(args: &Vec<Expr>) -> (a: Option<String>)
    ensures
        match single_atom(expr_views(args@)) {
            Some(v) => a matches Some(x) && x@ == v,
            None => a is None,
        },
{
    if args.len() == 1 {
        atom_of(&args[0])
    } else {
        None
    }
}

/// The number that the first argument denotes.
pub(crate) fn head_number_of(args: &Vec<Expr>) -> (n: Option<u32>)
    ensures
        match head_number(expr_views(args@)) {
            Some(v) => n == Some(v as u32) && v <= u32::MAX,
            None => n is None,
        },
{
    if args.len() >= 1 {
        match atom_of(&args[0]) {
            Some(a) => read_number(a.as_str()),
            None => None,
        }
    } else {
        None
    }
}

/// The atoms behind the first argument.
pub(crate) fn atoms_behind_head(args: &Vec<Expr>) -> (r: Option<Vec<String>>)
    requires
        args.len() >= 1,
    ensures
        match atoms_from(expr_views(args@), 1) {
            Some(v) => r matches Some(x) && text_views(x@) == v,
            None => r is None,
        },
{
    let ghost views = expr_views(args@);
    let mut keys: Vec<String> = Vec::new();
    let mut i: usize = 1;
    assert(joined_atoms(text_views(keys@), atoms_from(views, 1)) =~= atoms_from(views, 1)) by {
        match atoms_from(views, 1) {
            Some(more) => {
                assert(text_views(keys@) + more =~= more);
            },
            None => {},
        }
    }
    while i < args.len()
        invariant
            1 <= i <= args.len(),
            views == expr_views(args@),
            joined_atoms(text_views(keys@), atoms_from(views, i as nat)) == atoms_from(views, 1),
        decreases args.len() - i,
    {
        let ghost before = text_views(keys@);
        match atom_of(&args[i]) {
            None => {
                return None;
            },
            Some(a) => {
                let ghost first = a@;
                keys.push(a);
                proof {
                    assert(text_views(keys@) =~= before + seq![first]);
                    match atoms_from(views, (i + 1) as nat) {
                        Some(more) => {
                            assert(before + (seq![first] + more) =~= (before + seq![first]) + more);
                        },
                        None => {},
                    }
                }
            },
        }
        i += 1;
    }
    assert(text_views(keys@) + Seq::<Seq<char>>::empty() =~= text_views(keys@));
    Some(keys)
}

/// The terms behind the first argument, where each is at most `room` high.
fn terms_behind_head(args: &Vec<Expr>, room: usize) -> (r: Option<Vec<Term>>)
    requires
        args.len() >= 1,
    ensures
        match terms_from(expr_views(args@), 1) {
            Some(v) => if all_within(v, room as nat) {
                r matches Some(x) && term_views(x@) == v
            } else {
                r is None
            },
            None => r is None,
        },
    decreases args, 0nat,
{
    let ghost views = expr_views(args@);
    let mut subs: Vec<Term> = Vec::new();
    let mut i: usize = 1;
    assert(joined_terms(term_views(subs@), terms_from(views, 1)) =~= terms_from(views, 1)) by {
        match terms_from(views, 1) {
            Some(more) => {
                assert(term_views(subs@) + more =~= more);
            },
            None => {},
        }
    }
    while i < args.len()
        invariant
            1 <= i <= args.len(),
            views == expr_views(args@),
            joined_terms(term_views(subs@), terms_from(views, i as nat)) == terms_from(views, 1),
            all_within(term_views(subs@), room as nat),
        decreases args.len() - i,
    {
        let ghost before = term_views(subs@);
        match term_of_expr(&args[i], room) {
            None => {
                proof {
                    match (expr_term(views[i as int]), terms_from(views, (i + 1) as nat)) {
                        (Some(t), Some(more)) => {
                            let whole = before + (seq![t] + more);
                            assert(whole[before.len() as int] == t);
                        },
                        _ => {},
                    }
                }
                return None;
            },
            Some(t) => {
                let ghost first = t@;
                subs.push(t);
                proof {
                    assert(term_views(subs@) =~= before + seq![first]);
                    match terms_from(views, (i + 1) as nat) {
                        Some(more) => {
                            assert(before + (seq![first] + more) =~= (before + seq![first]) + more);
                        },
                        None => {},
                    }
                }
            },
        }
        i += 1;
    }
    assert(term_views(subs@) + Seq::<TermView>::empty() =~= term_views(subs@));
    Some(subs)
}

/// The models of the children of a threshold, one by one.
pub proof fn lemma_thresh_model(k: usize, subs: Vec<Term>)
    ensures
        Term::Thresh(k, subs)@ == TermView::Thresh(k as nat, term_views(subs@)),
{
    let t = Term::Thresh(k, subs);
    assert(t@ matches TermView::Thresh(_, v) && v =~= term_views(subs@));
}

/// Whether `r` is the term that a name and its arguments stand for, or
/// nothing where they stand for none or for one that is more than `room`
/// high.
pub open spec fn is_frag_term(f: Frag, args: Seq<ExprView>, room: nat, r: Option<Term>) -> bool {
    match frag_term(f, args) {
        Some(t) => if term_within(t, room) {
            r matches Some(x) && x@ == t
        } else {
            r is None
        },
        None => r is None,
    }
}

/// A checked key.
fn alias_of(k: KeyCheck, args: &Vec<Expr>, room: usize) -> (r: Option<Term>)
    ensures
        is_frag_term(Frag::Alias(k), expr_views(args@), room as nat, r),
{
    proof {
        reveal_with_fuel(Term::model, 2);
        reveal_with_fuel(term_within, 2);
    }
    match single_atom_of(args) {
        Some(a) => if room == 0 {
            None
        } else {
            Some(Term::Unary(Wrapper::Check, Box::new(Term::Key(k, a))))
        },
        None => None,
    }
}

/// A combinator of two terms.
fn comb_of(c: Combinator, args: &Vec<Expr>, room: usize) -> (r: Option<Term>)
    ensures
        is_frag_term(Frag::Comb(c), expr_views(args@), room as nat, r),
    decreases args, 1nat,
{
    if args.len() != 2 || room == 0 {
        return None;
    }
    match term_of_expr(&args[0], room - 1) {
        Some(x) => match term_of_expr(&args[1], room - 1) {
            Some(y) => Some(Term::Binary(c, Box::new(x), Box::new(y))),
            None => None,
        },
        None => None,
    }
}

/// `and_n`: two terms and `False`.
fn and_n_of(args: &Vec<Expr>, room: usize) -> (r: Option<Term>)
    ensures
        is_frag_term(Frag::AndN, expr_views(args@), room as nat, r),
    decreases args, 1nat,
{
    proof {
        reveal_with_fuel(Term::model, 2);
        reveal_with_fuel(term_within, 2);
    }
    if args.len() != 2 || room == 0 {
        return None;
    }
    match term_of_expr(&args[0], room - 1) {
        Some(x) => match term_of_expr(&args[1], room - 1) {
            Some(y) => Some(Term::AndOr(Box::new(x), Box::new(y), Box::new(Term::False))),
            None => None,
        },
        None => None,
    }
}

/// `andor`: three terms.
fn and_or_of(args: &Vec<Expr>, room: usize) -> (r: Option<Term>)
    ensures
        is_frag_term(Frag::AndOr, expr_views(args@), room as nat, r),
    decreases args, 1nat,
{
    if args.len() != 3 || room == 0 {
        return None;
    }
    match term_of_expr(&args[0], room - 1) {
        Some(x) => match term_of_expr(&args[1], room - 1) {
            Some(y) => match term_of_expr(&args[2], room - 1) {
                Some(z) => Some(Term::AndOr(Box::new(x), Box::new(y), Box::new(z))),
                None => None,
            },
            None => None,
        },
        None => None,
    }
}

/// A threshold: the required count and the terms.
fn thresh_of(args: &Vec<Expr>, room: usize) -> (r: Option<Term>)
    ensures
        is_frag_term(Frag::Thresh, expr_views(args@), room as nat, r),
    decreases args, 1nat,
{
    let ghost views = expr_views(args@);
    proof {
        if args.len() > 0 {
            match (head_number(views), terms_from(views, 1)) {
                (Some(k), Some(subs)) => {
                    lemma_thresh_within(k, subs, room as nat);
                },
                _ => {},
            }
        }
    }
    if args.len() == 0 || room == 0 {
        return None;
    }
    match head_number_of(args) {
        Some(k) => match terms_behind_head(args, room - 1) {
            Some(subs) => if 1 <= k && k as usize <= subs.len() {
                proof {
                    lemma_thresh_model(k as usize, subs);
                }
                Some(Term::Thresh(k as usize, subs))
            } else {
                None
            },
            None => None,
        },
        None => None,
    }
}

/// A multi-key term: the required count and the keys.
fn multi_of(m: MultiKind, args: &Vec<Expr>, room: usize) -> (r: Option<Term>)
    ensures
        is_frag_term(Frag::Multi(m), expr_views(args@), room as nat, r),
{
    if args.len() == 0 {
        return None;
    }
    match head_number_of(args) {
        Some(k) => match atoms_behind_head(args) {
            Some(keys) => if 1 <= k && k as usize <= keys.len() {
                Some(Term::Multi(m, k as usize, keys))
            } else {
                None
            },
            None => None,
        },
        None => None,
    }
}

/// The term that a name and its arguments stand for, where it is at most
/// `room` high.
fn term_of_frag(f: Frag, args: &Vec<Expr>, room: usize) -> (r: Option<Term>)
    ensures
        is_frag_term(f, expr_views(args@), room as nat, r),
    decreases args, 2nat,
{
    match f {
        Frag::True => if args.len() == 0 {
            Some(Term::True)
        } else {
            None
        },
        Frag::False => if args.len() == 0 {
            Some(Term::False)
        } else {
            None
        },
        Frag::Key(k) => match single_atom_of(args) {
            Some(a) => Some(Term::Key(k, a)),
            None => None,
        },
        Frag::Alias(k) => alias_of(k, args, room),
        Frag::After => if args.len() == 1 {
            match head_number_of(args) {
                Some(n) => Some(Term::After(n)),
                None => None,
            }
        } else {
            None
        },
        Frag::Older => if args.len() == 1 {
            match head_number_of(args) {
                Some(n) => Some(Term::Older(n)),
                None => None,
            }
        } else {
            None
        },
        Frag::Hash(h) => match single_atom_of(args) {
            Some(a) => Some(Term::Hash(h, a)),
            None => None,
        },
        Frag::Comb(c) => comb_of(c, args, room),
        Frag::AndN => and_n_of(args, room),
        Frag::AndOr => and_or_of(args, room),
        Frag::Thresh => thresh_of(args, room),
        Frag::Multi(m) => multi_of(m, args, room),
    }
}

/// The term that an expression stands for, where it is at most `room`
/// high.
pub(crate) fn term_of_expr(e: &Expr, room: usize) -> (r: Option<Term>)
    ensures
        match expr_term_within(e@, room as nat) {
            Some(t) => r matches Some(x) && x@ == t,
            None => r is None,
        },
    decreases e, 0nat,
{
    proof {
        lemma_view_args(e);
    }
    if e.curly {
        return None;
    }
    let name = e.name.as_str();
    let plain = name.is_ascii();
    let len = name.unicode_len();
    let p = find_colon(name, plain, len);
    let base = if p < len {
        part_of(name, plain, p + 1, len)
    } else {
        e.name.clone()
    };
    let f = match find_frag(base.as_str()) {
        Some(f) => f,
        None => {
            return None;
        },
    };
    if p >= len {
        return match term_of_frag(f, &e.args, room) {
            Some(core) => {
                assert(wrap_all(letters_of(e@.name), core@) == Some(core@));
                Some(core)
            },
            None => None,
        };
    }
    if p > room {
        proof {
            match frag_term(f, e@.args) {
                Some(t) => {
                    if wrap_all(letters_of(e@.name), t) is Some {
                        lemma_wrap_within(letters_of(e@.name), t, room as nat);
                    }
                },
                None => {},
            }
        }
        return None;
    }
    let core = match term_of_frag(f, &e.args, room - p) {
        Some(t) => t,
        None => {
            proof {
                match frag_term(f, e@.args) {
                    Some(t) => {
                        if wrap_all(letters_of(e@.name), t) is Some {
                            lemma_wrap_within(letters_of(e@.name), t, room as nat);
                        }
                    },
                    None => {},
                }
            }
            return None;
        },
    };
    let ghost w = letters_of(e@.name);
    proof {
        if wrap_all(w, core@) is Some {
            lemma_wrap_within(w, core@, room as nat);
        }
    }
    let ghost inner = core@;
    let mut t = core;
    let mut i = p;
    assert(w.subrange(0, i as int) =~= w);
    while i > 0
        invariant
            plain ==> name.is_ascii(),
            i <= p < len,
            len == name@.len(),
            w == name@.subrange(0, p as int),
            expr_term(e@) == wrap_all(w, inner),
            wrap_all(w, inner) == wrap_all(w.subrange(0, i as int), t@),
        decreases i,
    {
        i -= 1;
        let c = char_at(name, plain, i);
        proof {
            assert(w.subrange(0, i + 1) =~= w.subrange(0, i as int).push(c));
            lemma_wrap_push(w.subrange(0, i as int), c, t@);
        }
        t = match wrap_letter(c, t) {
            Some(x) => x,
            None => {
                return None;
            },
        };
    }
    proof {
        assert(w.subrange(0, 0) =~= Seq::<char>::empty());
        lemma_wrap_within(w, inner, room as nat);
    }
    Some(t)
}

} // verus!
