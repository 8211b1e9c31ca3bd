//! The function-call notation in which terms and descriptors are written:
//! a name, optionally followed by a bracketed, comma-separated list of
//! further expressions. Round brackets hold arguments. Curly brackets hold
//! the two branches of a tree, but only in the tree of a taproot
//! descriptor; anywhere else they are characters like any other, and may
//! stand in a name. A reader is told which of the two holds.

use vstd::prelude::*;
use crate::text::{char_at, part_of};

verus! {

/// An expression: a name and, in brackets, its arguments.
#[derive(Debug)]
pub struct Expr {
    /// The text before the opening bracket, or the whole text of a leaf.
    pub name: String,
    /// Whether the brackets are curly. Never set on a leaf.
    pub curly: bool,
    /// The arguments in order. Empty for a leaf.
    pub args: Vec<Expr>,
}

/// The mathematical model of an [`Expr`].
pub struct ExprView {
    pub name: Seq<char>,
    pub curly: bool,
    pub args: Seq<ExprView>,
}

impl Expr {
    /// The model of an expression: its name and the models of its arguments.
    pub open spec fn model(self) -> ExprView
        decreases self,
    {
        ExprView {
            name: self.name@,
            curly: self.curly,
            args: Seq::new(
                self.args@.len(),
                |k: int|
                    if 0 <= k < self.args@.len() {
                        self.args@[k].model()
                    } else {
                        arbitrary()
                    },
            ),
        }
    }
}

impl View for Expr {
    type V = ExprView;

    open spec fn view(&self) -> ExprView {
        self.model()
    }
}

/// The models of a list of expressions.
pub open spec fn expr_views(v: Seq<Expr>) -> Seq<ExprView> {
    Seq::new(v.len(), |k: int| v[k]@)
}

/// An expression's arguments are modelled one by one.
pub proof fn lemma_view_args(e: &Expr)
    ensures
        e@.args == expr_views(e.args@),
        e@.name == e.name@,
        e@.curly == e.curly,
{
    assert(e@.args =~= expr_views(e.args@));
}

/// The characters that open a list of arguments: the round bracket, and
/// the curly one where `braces` says that curly brackets are brackets.
pub open spec fn is_opener(c: char, braces: bool) -> bool {
    c == '(' || (braces && c == '{')
}

pub open spec fn is_closer_or_comma(c: char, braces: bool) -> bool {
    c == ')' || (braces && c == '}') || c == ','
}

/// The characters that end a name. Curly brackets are among them only
/// where `braces` is set: in the tree of a taproot descriptor. Anywhere
/// else they are characters like any other.
pub open spec fn is_delimiter(c: char, braces: bool) -> bool {
    is_opener(c, braces) || is_closer_or_comma(c, braces)
}

pub open spec fn free_of_delimiters(s: Seq<char>, braces: bool) -> bool {
    forall|i: int| 0 <= i < s.len() ==> !is_delimiter(#[trigger] s[i], braces)
}

pub open spec fn open_char(curly: bool) -> char {
    if curly {
        '{'
    } else {
        '('
    }
}

pub open spec fn close_char(curly: bool) -> char {
    if curly {
        '}'
    } else {
        ')'
    }
}

/// How deep brackets may be nested in a text that is read.
pub const MAX_DEPTH: usize = 1024;

/// Whether brackets are nested at most `room` deep in an expression.
pub open spec fn shallow(e: ExprView, room: nat) -> bool
    decreases e,
{
    e.args.len() == 0 || (room > 0 && forall|k: int|
        0 <= k < e.args.len() ==> shallow(#[trigger] e.args[k], (room - 1) as nat))
}

/// An expression that can be written and read again: no name holds a
/// delimiter, a leaf has no brackets, and curly brackets stand only where
/// they are brackets.
pub open spec fn expr_wf(e: ExprView, braces: bool) -> bool
    decreases e,
{
    &&& free_of_delimiters(e.name, braces)
    &&& e.args.len() == 0 ==> !e.curly
    &&& e.curly ==> braces
    &&& forall|k: int| 0 <= k < e.args.len() ==> expr_wf(#[trigger] e.args[k], braces)
}

/// The text of an expression.
pub open spec fn expr_text(e: ExprView) -> Seq<char>
    decreases e, 0nat,
{
    if e.args.len() == 0 {
        e.name
    } else {
        e.name + seq![open_char(e.curly)] + args_text(e.args, 0) + seq![close_char(e.curly)]
    }
}

/// The texts of the arguments from `from` on, separated by commas.
pub open spec fn args_text(args: Seq<ExprView>, from: nat) -> Seq<char>
    decreases args, args.len() - from,
{
    if from >= args.len() {
        Seq::empty()
    } else if from + 1 == args.len() {
        expr_text(args[from as int])
    } else {
        expr_text(args[from as int]) + seq![','] + args_text(args, from + 1)
    }
}

/// Where the name that starts at `i` ends: at the first delimiter, or at the
/// end of the text.
pub open spec fn name_end(s: Seq<char>, i: int, braces: bool) -> int
    decreases s.len() - i,
{
    if i < 0 || i >= s.len() || is_delimiter(s[i], braces) {
        i
    } else {
        name_end(s, i + 1, braces)
    }
}

/// Reads one expression at `i`: the expression and where its text ends.
/// Brackets may be nested `room` deep.
pub open spec fn parse_expr(s: Seq<char>, i: int, room: nat, braces: bool) -> Option<(ExprView, int)>
    decreases s.len() - i, 1nat,
{
    let n = name_end(s, i, braces);
    let name = s.subrange(i, n);
    if 0 <= i <= n < s.len() && is_opener(s[n], braces) {
        let curly = s[n] == '{';
        if room == 0 {
            None
        } else {
            match parse_args(s, n + 1, curly, (room - 1) as nat, braces) {
                Some((args, j)) => Some((ExprView { name, curly, args }, j)),
                None => None,
            }
        }
    } else {
        Some((ExprView { name, curly: false, args: Seq::empty() }, n))
    }
}

/// Reads a comma-separated list of expressions at `i`, up to and including
/// the closing bracket.
pub open spec fn parse_args(s: Seq<char>, i: int, curly: bool, room: nat, braces: bool) -> Option<
    (Seq<ExprView>, int),
>
    decreases s.len() - i, 2nat,
{
    match parse_expr(s, i, room, braces) {
        None => None,
        Some((first, j)) => {
            if !(i <= j < s.len()) {
                None
            } else if s[j] == close_char(curly) {
                Some((seq![first], j + 1))
            } else if s[j] == ',' {
                match parse_args(s, j + 1, curly, room, braces) {
                    Some((rest, k)) => Some((seq![first] + rest, k)),
                    None => None,
                }
            } else {
                None
            }
        },
    }
}

/// Reads a text that is one expression from its first character to its
/// last, with brackets nested at most `MAX_DEPTH` deep.
pub open spec fn parse_whole(s: Seq<char>, braces: bool) -> Option<ExprView> {
    match parse_expr(s, 0, MAX_DEPTH as nat, braces) {
        Some((e, j)) => if j == s.len() {
            Some(e)
        } else {
            None
        },
        None => None,
    }
}

/// What holds no delimiter where curly brackets are delimiters holds none
/// where they are not.
pub proof fn lemma_free_in_both(s: Seq<char>, braces: bool)
    requires
        free_of_delimiters(s, true),
    ensures
        free_of_delimiters(s, braces),
{
    assert forall|i: int| 0 <= i < s.len() implies !is_delimiter(#[trigger] s[i], braces) by {
        assert(!is_delimiter(s[i], true));
    }
}

/// A stretch without delimiters that is followed by one, or by the end of
/// the text, is read as one name.
pub proof fn lemma_name_end(s: Seq<char>, i: int, j: int, braces: bool)
    requires
        0 <= i <= j <= s.len(),
        free_of_delimiters(s.subrange(i, j), braces),
        j == s.len() || is_delimiter(s[j], braces),
    ensures
        name_end(s, i, braces) == j,
    decreases j - i,
{
    if i < j {
        assert(s.subrange(i, j)[0] == s[i]);
        assert forall|k: int| 0 <= k < j - i - 1 implies !is_delimiter(
            #[trigger] s.subrange(i + 1, j)[k],
            braces,
        ) by {
            assert(s.subrange(i + 1, j)[k] == s.subrange(i, j)[k + 1]);
        }
        lemma_name_end(s, i + 1, j, braces);
    }
}

/// Where a text holds the text of a well-formed expression, reading at that
/// place gives the expression back. A leaf must be followed by a closing
/// bracket, a comma or the end of the text.
pub proof fn lemma_parse_expr(s: Seq<char>, i: int, e: ExprView, room: nat, braces: bool)
    requires
        expr_wf(e, braces),
        shallow(e, room),
        0 <= i,
        i + expr_text(e).len() <= s.len(),
        s.subrange(i, i + expr_text(e).len()) == expr_text(e),
        e.args.len() == 0 ==> i + expr_text(e).len() == s.len() || is_closer_or_comma(
            s[i + expr_text(e).len()],
            braces,
        ),
    ensures
        parse_expr(s, i, room, braces) == Some((e, i + expr_text(e).len())),
    decreases e, 0nat,
{
    let t = expr_text(e);
    let j = i + t.len();
    if e.args.len() == 0 {
        lemma_name_end(s, i, j, braces);
        assert(ExprView { name: s.subrange(i, j), curly: false, args: Seq::empty() } == e) by {
            assert(e.args =~= Seq::<ExprView>::empty());
        }
    } else {
        let n = i + e.name.len();
        let inner = args_text(e.args, 0);
        assert(t == e.name + seq![open_char(e.curly)] + inner + seq![close_char(e.curly)]);
        assert(s.subrange(i, n) =~= e.name) by {
            assert forall|k: int| 0 <= k < e.name.len() implies s.subrange(i, n)[k]
                == e.name[k] by {
                assert(s.subrange(i, j)[k] == t[k]);
            }
        }
        assert(s[n] == open_char(e.curly)) by {
            assert(s.subrange(i, j)[n - i] == t[n - i]);
        }
        lemma_name_end(s, i, n, braces);
        assert(s.subrange(n + 1, n + 1 + inner.len()) =~= inner) by {
            assert forall|k: int| 0 <= k < inner.len() implies s.subrange(
                n + 1,
                n + 1 + inner.len(),
            )[k] == inner[k] by {
                assert(s.subrange(i, j)[n + 1 - i + k] == t[n + 1 - i + k]);
            }
        }
        assert(s[n + 1 + inner.len()] == close_char(e.curly)) by {
            assert(s.subrange(i, j)[t.len() - 1] == t[t.len() - 1]);
        }
        lemma_parse_args(s, n + 1, e.args, 0, e.curly, (room - 1) as nat, braces);
        assert(e.args.subrange(0, e.args.len() as int) =~= e.args);
    }
}

/// The same for the arguments from `from` on and the bracket that closes
/// them.
pub proof fn lemma_parse_args(
    s: Seq<char>,
    i: int,
    args: Seq<ExprView>,
    from: nat,
    curly: bool,
    room: nat,
    braces: bool,
)
    requires
        forall|k: int| 0 <= k < args.len() ==> expr_wf(#[trigger] args[k], braces),
        forall|k: int| 0 <= k < args.len() ==> shallow(#[trigger] args[k], room),
        curly ==> braces,
        from < args.len(),
        0 <= i,
        i + args_text(args, from).len() < s.len(),
        s.subrange(i, i + args_text(args, from).len()) == args_text(args, from),
        s[i + args_text(args, from).len()] == close_char(curly),
    ensures
        parse_args(s, i, curly, room, braces) == Some(
            (args.subrange(from as int, args.len() as int), i + args_text(args, from).len() + 1),
        ),
    decreases args, args.len() - from,
{
    let t = args_text(args, from);
    let a = args[from as int];
    let ta = expr_text(a);
    let whole = args.subrange(from as int, args.len() as int);
    if from + 1 == args.len() {
        lemma_parse_expr(s, i, a, room, braces);
        assert(whole =~= seq![a]);
    } else {
        let rest = args_text(args, from + 1);
        assert(t == ta + seq![','] + rest);
        assert(s.subrange(i, i + ta.len()) =~= ta) by {
            assert forall|k: int| 0 <= k < ta.len() implies s.subrange(i, i + ta.len())[k]
                == ta[k] by {
                assert(s.subrange(i, i + t.len())[k] == t[k]);
            }
        }
        assert(s[i + ta.len()] == ',') by {
            assert(s.subrange(i, i + t.len())[ta.len() as int] == t[ta.len() as int]);
        }
        lemma_parse_expr(s, i, a, room, braces);
        let p = i + ta.len() + 1;
        assert(s.subrange(p, p + rest.len()) =~= rest) by {
            assert forall|k: int| 0 <= k < rest.len() implies s.subrange(p, p + rest.len())[k]
                == rest[k] by {
                assert(s.subrange(i, i + t.len())[ta.len() + 1 + k] == t[ta.len() + 1 + k]);
            }
        }
        lemma_parse_args(s, p, args, from + 1, curly, room, braces);
        assert(whole =~= seq![a] + args.subrange(from + 1 as int, args.len() as int));
    }
}

/// A well-formed expression whose brackets are not nested too deep is read
/// back from its text.
pub proof fn lemma_parse_whole(e: ExprView, braces: bool)
    requires
        expr_wf(e, braces),
        shallow(e, MAX_DEPTH as nat),
    ensures
        parse_whole(expr_text(e), braces) == Some(e),
{
    let t = expr_text(e);
    assert(t.subrange(0, t.len() as int) =~= t);
    lemma_parse_expr(t, 0, e, MAX_DEPTH as nat, braces);
}

/// A name ends at a delimiter or at the end of the text, and holds no
/// delimiter.
pub proof fn lemma_name_end_found(s: Seq<char>, i: int, braces: bool)
    requires
        0 <= i <= s.len(),
    ensures
        i <= name_end(s, i, braces) <= s.len(),
        free_of_delimiters(s.subrange(i, name_end(s, i, braces)), braces),
        name_end(s, i, braces) == s.len() || is_delimiter(s[name_end(s, i, braces)], braces),
    decreases s.len() - i,
{
    if i < s.len() && !is_delimiter(s[i], braces) {
        lemma_name_end_found(s, i + 1, braces);
        let n = name_end(s, i, braces);
        assert forall|k: int| 0 <= k < n - i implies !is_delimiter(#[trigger] s.subrange(i, n)[k], braces) by {
            if k > 0 {
                assert(s.subrange(i, n)[k] == s.subrange(i + 1, n)[k - 1]);
            }
        }
    }
}

/// The text of a list that starts with one more expression.
pub proof fn lemma_args_text_shift(first: ExprView, rest: Seq<ExprView>, from: nat)
    requires
        from <= rest.len(),
    ensures
        args_text(seq![first] + rest, from + 1) == args_text(rest, from),
    decreases rest.len() - from,
{
    let all = seq![first] + rest;
    if from < rest.len() {
        assert(all[from as int + 1] == rest[from as int]);
        if from + 1 < rest.len() {
            lemma_args_text_shift(first, rest, from + 1);
        }
    }
}

/// What is read at a place is well formed, nested no deeper than allowed,
/// and written as the text that was read.
pub proof fn lemma_parse_expr_sound(s: Seq<char>, i: int, room: nat, braces: bool)
    requires
        0 <= i <= s.len(),
    ensures
        match parse_expr(s, i, room, braces) {
            Some((e, j)) => {
                &&& i <= j <= s.len()
                &&& expr_wf(e, braces)
                &&& shallow(e, room)
                &&& s.subrange(i, j) == expr_text(e)
            },
            None => true,
        },
    decreases s.len() - i, 1nat,
{
    lemma_name_end_found(s, i, braces);
    let n = name_end(s, i, braces);
    if n < s.len() && is_opener(s[n], braces) && room > 0 {
        let curly = s[n] == '{';
        lemma_parse_args_sound(s, n + 1, curly, (room - 1) as nat, braces);
        match parse_args(s, n + 1, curly, (room - 1) as nat, braces) {
            Some((args, j)) => {
                let e = ExprView { name: s.subrange(i, n), curly, args };
                assert(s.subrange(i, j) =~= s.subrange(i, n) + seq![open_char(curly)] + s.subrange(
                    n + 1,
                    j,
                ));
                assert(s.subrange(i, j) =~= expr_text(e));
            },
            None => {},
        }
    }
}

/// The same for a list of arguments and the bracket that closes it.
pub proof fn lemma_parse_args_sound(s: Seq<char>, i: int, curly: bool, room: nat, braces: bool)
    requires
        0 <= i <= s.len(),
    ensures
        match parse_args(s, i, curly, room, braces) {
            Some((args, j)) => {
                &&& i < j <= s.len()
                &&& args.len() > 0
                &&& forall|k: int| 0 <= k < args.len() ==> expr_wf(#[trigger] args[k], braces)
                &&& forall|k: int| 0 <= k < args.len() ==> shallow(#[trigger] args[k], room)
                &&& s.subrange(i, j) == args_text(args, 0) + seq![close_char(curly)]
            },
            None => true,
        },
    decreases s.len() - i, 2nat,
{
    lemma_parse_expr_sound(s, i, room, braces);
    match parse_expr(s, i, room, braces) {
        Some((first, j)) => {
            if j < s.len() {
                if s[j] == close_char(curly) {
                    let args = seq![first];
                    assert(s.subrange(i, j + 1) =~= s.subrange(i, j) + seq![close_char(curly)]);
                    assert(args_text(args, 0) == expr_text(first));
                } else if s[j] == ',' {
                    lemma_parse_args_sound(s, j + 1, curly, room, braces);
                    match parse_args(s, j + 1, curly, room, braces) {
                        Some((rest, k)) => {
                            let args = seq![first] + rest;
                            lemma_args_text_shift(first, rest, 0);
                            assert(args[0] == first);
                            assert(args_text(args, 0) == expr_text(first) + seq![','] + args_text(
                                args,
                                1,
                            ));
                            assert(s.subrange(i, k) =~= s.subrange(i, j) + seq![','] + s.subrange(
                                j + 1,
                                k,
                            ));
                            assert(s.subrange(i, k) =~= args_text(args, 0) + seq![close_char(curly)]);
                            assert forall|m: int| 0 <= m < args.len() implies expr_wf(
                                #[trigger] args[m],
                                braces,
                            ) && shallow(args[m], room) by {
                                if m > 0 {
                                    assert(args[m] == rest[m - 1]);
                                }
                            }
                        },
                        None => {},
                    }
                }
            }
        },
        None => {},
    }
}

/// A text is read as an expression exactly where it is the text of that
/// expression, the expression is well formed and its brackets are nested
/// at most `MAX_DEPTH` deep.
pub proof fn lemma_parse_inverts_text(s: Seq<char>, e: ExprView, braces: bool)
    ensures
        parse_whole(s, braces) == Some(e) <==> (expr_wf(e, braces) && shallow(e, MAX_DEPTH as nat) && expr_text(e)
            == s),
{
    if expr_wf(e, braces) && shallow(e, MAX_DEPTH as nat) && expr_text(e) == s {
        lemma_parse_whole(e, braces);
    }
    if parse_whole(s, braces) == Some(e) {
        lemma_parse_expr_sound(s, 0, MAX_DEPTH as nat, braces);
        assert(s.subrange(0, s.len() as int) =~= s);
    }
}

/// Finds where the name that starts at `i` ends.
fn scan_name(s: &str, plain: bool, len: usize, i: usize, braces: bool) -> (n: usize)
    requires
        plain ==> s.is_ascii(),
        len == s@.len(),
        i <= len,
    ensures
        n == name_end(s@, i as int, braces),
        i <= n <= len,
{
    let mut n = i;
    while n < len
        invariant
            plain ==> s.is_ascii(),
            len == s@.len(),
            i <= n <= len,
            name_end(s@, i as int, braces) == name_end(s@, n as int, braces),
        decreases len - n,
    {
        let c = char_at(s, plain, n);
        if c == '(' || c == ')' || c == ',' || (braces && (c == '{' || c == '}')) {
            return n;
        }
        n += 1;
    }
    n
}

/// What reading the whole list gives where `done` was read before `rest`.
pub open spec fn joined(done: Seq<ExprView>, rest: Option<(Seq<ExprView>, int)>) -> Option<
    (Seq<ExprView>, int),
> {
    match rest {
        Some((more, k)) => Some((done + more, k)),
        None => None,
    }
}

/// Reads one expression at `i`, with brackets nested at most `room` deep.
fn read_expr(s: &str, plain: bool, len: usize, i: usize, room: usize, braces: bool) -> (r: Option<
    (Expr, usize),
>)
    requires
        plain ==> s.is_ascii(),
        len == s@.len(),
        i <= len,
    ensures
        match parse_expr(s@, i as int, room as nat, braces) {
            Some((e, j)) => r matches Some((x, k)) && x@ == e && k == j && i <= k <= len,
            None => r is None,
        },
    decreases len - i,
{
    let n = scan_name(s, plain, len, i, braces);
    let name = part_of(s, plain, i, n);
    if n < len {
        let c = char_at(s, plain, n);
        if c == '(' || (braces && c == '{') {
            let curly = c == '{';
            if room == 0 {
                return None;
            }
            let below = room - 1;
            let mut args: Vec<Expr> = Vec::new();
            let mut pos = n + 1;
            assert(joined(expr_views(args@), parse_args(s@, pos as int, curly, below as nat, braces))
                =~= parse_args(s@, n + 1, curly, below as nat, braces)) by {
                match parse_args(s@, pos as int, curly, below as nat, braces) {
                    Some((more, k)) => {
                        assert(expr_views(args@) + more =~= more);
                    },
                    None => {},
                }
            }
            loop
                invariant
                    plain ==> s.is_ascii(),
                    len == s@.len(),
                    i <= n < pos <= len,
                    room > 0,
                    below == room - 1,
                    joined(expr_views(args@), parse_args(s@, pos as int, curly, below as nat, braces))
                        == parse_args(s@, n + 1, curly, below as nat, braces),
                    name@ == s@.subrange(i as int, n as int),
                    n == name_end(s@, i as int, braces),
                    is_opener(s@[n as int], braces),
                    curly == (s@[n as int] == '{'),
                decreases len - pos,
            {
                let ghost before = expr_views(args@);
                match read_expr(s, plain, len, pos, below, braces) {
                    None => {
                        return None;
                    },
                    Some((e, j)) => {
                        if j >= len {
                            return None;
                        }
                        let d = char_at(s, plain, j);
                        let ghost first = e@;
                        args.push(e);
                        assert(expr_views(args@) =~= before + seq![first]);
                        if (curly && d == '}') || (!curly && d == ')') {
                            let whole = Expr { name, curly, args };
                            proof {
                                lemma_view_args(&whole);
                                assert(before + seq![first] =~= expr_views(whole.args@));
                            }
                            return Some((whole, j + 1));
                        } else if d == ',' {
                            proof {
                                match parse_args(s@, j + 1, curly, below as nat, braces) {
                                    Some((more, k)) => {
                                        assert(before + (seq![first] + more) =~= (before + seq![
                                            first,
                                        ]) + more);
                                    },
                                    None => {},
                                }
                            }
                            pos = j + 1;
                        } else {
                            return None;
                        }
                    },
                }
            }
        }
    }
    let leaf = Expr { name, curly: false, args: Vec::new() };
    proof {
        lemma_view_args(&leaf);
        assert(expr_views(leaf.args@) =~= Seq::<ExprView>::empty());
    }
    Some((leaf, n))
}

/// Whether brackets are nested at most `room` deep in every expression of
/// a list.
fn all_shallow(args: &Vec<Expr>, room: usize) -> (b: bool)
    ensures
        b == (forall|k: int| 0 <= k < args.len() ==> shallow(#[trigger] expr_views(args@)[k], room as nat)),
    decreases args, 1nat,
{
    let mut i: usize = 0;
    while i < args.len()
        invariant
            i <= args.len(),
            forall|k: int| 0 <= k < i ==> shallow(#[trigger] expr_views(args@)[k], room as nat),
        decreases args.len() - i,
    {
        if !is_shallow(&args[i], room) {
            assert(!shallow(expr_views(args@)[i as int], room as nat));
            return false;
        }
        i += 1;
    }
    true
}

/// Whether brackets are nested at most `room` deep in an expression.
fn is_shallow(e: &Expr, room: usize) -> (b: bool)
    ensures
        b == shallow(e@, room as nat),
    decreases e, 0nat,
{
    proof {
        lemma_view_args(e);
    }
    if e.args.len() == 0 {
        true
    } else if room == 0 {
        false
    } else {
        all_shallow(&e.args, room - 1)
    }
}

impl Expr {
    /// Whether brackets are nested at most `room` deep in the expression.
    pub fn is_shallow(&self, room: usize) -> (b: bool)
        ensures
            b == shallow(self@, room as nat),
    {
        is_shallow(self, room)
    }

    /// Reads a text that is one expression from its first character to its
    /// last. Whatever follows the expression makes the reading fail, and so
    /// do brackets nested more than `MAX_DEPTH` deep. `braces` says whether
    /// curly brackets are brackets or characters like any other.
    pub fn parse(text: &str, braces: bool) -> (r: Option<Expr>)
        ensures
            match parse_whole(text@, braces) {
                Some(e) => r matches Some(x) && x@ == e,
                None => r is None,
            },
            r matches Some(x) ==> expr_wf(x@, braces) && shallow(x@, MAX_DEPTH as nat) && expr_text(x@)
                == text@,
    {
        proof {
            match parse_whole(text@, braces) {
                Some(e) => {
                    lemma_parse_inverts_text(text@, e, braces);
                },
                None => {},
            }
        }
        let plain = text.is_ascii();
        let len = text.unicode_len();
        match read_expr(text, plain, len, 0, MAX_DEPTH, braces) {
            Some((e, j)) => if j == len {
                Some(e)
            } else {
                None
            },
            None => None,
        }
    }

    /// Appends the text of the expression to `out`.
    pub fn write_into(&self, out: &mut String)
        ensures
            final(out)@ == old(out)@ + expr_text(self@),
        decreases self,
    {
        let ghost start = out@;
        let ghost target = start + expr_text(self@);
        proof {
            lemma_view_args(self);
        }
        out.append(self.name.as_str());
        let n = self.args.len();
        if n > 0 {
            proof {
                reveal_strlit("{");
                reveal_strlit("(");
                reveal_strlit("}");
                reveal_strlit(")");
                reveal_strlit(",");
            }
            if self.curly {
                out.append("{");
            } else {
                out.append("(");
            }
            assert(out@ =~= start + self@.name + seq![open_char(self.curly)]);
            let mut i: usize = 0;
            while i < n
                invariant
                    n == self.args.len(),
                    n > 0,
                    i <= n,
                    self@.args == expr_views(self.args@),
                    target == out@ + (if 0 < i < n {
                        seq![',']
                    } else {
                        Seq::<char>::empty()
                    }) + args_text(self@.args, i as nat) + seq![close_char(self.curly)],
                decreases n - i,
            {
                let ghost before = out@;
                if i > 0 {
                    proof {
                        reveal_strlit(",");
                    }
                    out.append(",");
                }
                self.args[i].write_into(out);
                proof {
                    let piece = expr_text(self@.args[i as int]);
                    assert(self.args[i as int]@ == self@.args[i as int]);
                    assert(out@ =~= before + (if 0 < i {
                        seq![',']
                    } else {
                        Seq::<char>::empty()
                    }) + piece);
                    if i + 1 == n {
                        assert(args_text(self@.args, (i + 1) as nat) =~= Seq::<char>::empty());
                        assert(args_text(self@.args, i as nat) == piece);
                    } else {
                        assert(args_text(self@.args, i as nat) == piece + seq![','] + args_text(
                            self@.args,
                            (i + 1) as nat,
                        ));
                    }
                    assert(target =~= out@ + (if 0 < i + 1 < n {
                        seq![',']
                    } else {
                        Seq::<char>::empty()
                    }) + args_text(self@.args, (i + 1) as nat) + seq![close_char(self.curly)]);
                }
                i += 1;
            }
            if self.curly {
                out.append("}");
            } else {
                out.append(")");
            }
            assert(args_text(self@.args, n as nat) =~= Seq::<char>::empty());
            assert(out@ =~= target);
        } else {
            assert(out@ =~= target);
        }
    }

    /// The text of the expression.
    pub fn to_text(&self) -> (text: String)
        ensures
            text@ == expr_text(self@),
    {
        let mut text = String::new();
        self.write_into(&mut text);
        assert(text@ =~= expr_text(self@));
        text
    }
}

} // verus!
