//! Output descriptors and the notation in which they are written.

use vstd::prelude::*;
use crate::decimal::{decimal, lemma_number_of_decimal};
use crate::expr::{
    ExprView, MAX_DEPTH, expr_text, expr_wf, free_of_delimiters, lemma_parse_whole, parse_whole,
    shallow,
};
use crate::frag::lemma_descriptor_names;
use crate::term::{
    MAX_HEIGHT, Term, TermView, atoms_from, base_of, expr_term_within, head_number, leaf,
    lemma_atoms_from, lemma_colon_at, lemma_decimal_free, lemma_expr_with, single_atom,
    term_expr, term_sound, term_wf, text_views, wrap_all,
};

verus! {

/// A multi-key condition whose keys are sorted when it is redeemed.
#[derive(Debug, PartialEq, Eq)]
pub struct SortedMulti {
    /// The number of keys that must sign.
    pub k: usize,
    /// The keys, in the order in which they were written.
    pub keys: Vec<String>,
}

/// What a pay-to-witness-script-hash descriptor wraps.
#[derive(Debug, PartialEq, Eq)]
pub enum WshInner {
    SortedMulti(SortedMulti),
    Ms(Term),
}

/// What a pay-to-script-hash descriptor wraps.
#[derive(Debug, PartialEq, Eq)]
pub enum ShInner {
    Wsh(WshInner),
    Wpkh(String),
    SortedMulti(SortedMulti),
    Ms(Term),
}

/// The tree of spending conditions of a taproot descriptor.
#[derive(Debug, PartialEq, Eq)]
pub enum TapTree {
    /// The left and the right branch.
    Tree(Box<TapTree>, Box<TapTree>),
    Leaf(Term),
}

/// An output descriptor.
#[derive(Debug, PartialEq, Eq)]
pub enum Descriptor {
    Bare(Term),
    Pkh(String),
    Wpkh(String),
    Sh(ShInner),
    Wsh(WshInner),
    /// The internal key and the tree, if there is one.
    Tr(String, Option<TapTree>),
}

pub struct SortedMultiView {
    pub k: nat,
    pub keys: Seq<Seq<char>>,
}

pub enum WshInnerView {
    SortedMulti(SortedMultiView),
    Ms(TermView),
}

pub enum ShInnerView {
    Wsh(WshInnerView),
    Wpkh(Seq<char>),
    SortedMulti(SortedMultiView),
    Ms(TermView),
}

pub enum TapTreeView {
    Tree(Box<TapTreeView>, Box<TapTreeView>),
    Leaf(TermView),
}

pub enum DescriptorView {
    Bare(TermView),
    Pkh(Seq<char>),
    Wpkh(Seq<char>),
    Sh(ShInnerView),
    Wsh(WshInnerView),
    Tr(Seq<char>, Option<TapTreeView>),
}

impl View for SortedMulti {
    type V = SortedMultiView;

    open spec fn view(&self) -> SortedMultiView {
        SortedMultiView { k: self.k as nat, keys: text_views(self.keys@) }
    }
}

impl View for WshInner {
    type V = WshInnerView;

    open spec fn view(&self) -> WshInnerView {
        match self {
            WshInner::SortedMulti(s) => WshInnerView::SortedMulti(s@),
            WshInner::Ms(t) => WshInnerView::Ms(t@),
        }
    }
}

impl View for ShInner {
    type V = ShInnerView;

    open spec fn view(&self) -> ShInnerView {
        match self {
            ShInner::Wsh(w) => ShInnerView::Wsh(w@),
            ShInner::Wpkh(k) => ShInnerView::Wpkh(k@),
            ShInner::SortedMulti(s) => ShInnerView::SortedMulti(s@),
            ShInner::Ms(t) => ShInnerView::Ms(t@),
        }
    }
}

impl TapTree {
    /// The model of a tree.
    pub open spec fn model(self) -> TapTreeView
        decreases self,
    {
        match self {
            TapTree::Tree(l, r) => TapTreeView::Tree(
                Box::new((*l).model()),
                Box::new((*r).model()),
            ),
            TapTree::Leaf(t) => TapTreeView::Leaf(t@),
        }
    }
}

impl View for TapTree {
    type V = TapTreeView;

    open spec fn view(&self) -> TapTreeView {
        self.model()
    }
}

impl View for Descriptor {
    type V = DescriptorView;

    open spec fn view(&self) -> DescriptorView {
        match self {
            Descriptor::Bare(t) => DescriptorView::Bare(t@),
            Descriptor::Pkh(k) => DescriptorView::Pkh(k@),
            Descriptor::Wpkh(k) => DescriptorView::Wpkh(k@),
            Descriptor::Sh(s) => DescriptorView::Sh(s@),
            Descriptor::Wsh(w) => DescriptorView::Wsh(w@),
            Descriptor::Tr(k, tree) => DescriptorView::Tr(
                k@,
                match tree {
                    Some(t) => Some(t@),
                    None => None,
                },
            ),
        }
    }
}

pub open spec fn sorted_wf(s: SortedMultiView) -> bool {
    &&& 1 <= s.k <= s.keys.len()
    &&& s.k <= u32::MAX
    &&& forall|i: int| 0 <= i < s.keys.len() ==> free_of_delimiters(#[trigger] s.keys[i], false)
}

pub open spec fn wsh_inner_wf(w: WshInnerView) -> bool {
    match w {
        WshInnerView::SortedMulti(s) => sorted_wf(s),
        WshInnerView::Ms(t) => term_wf(t),
    }
}

pub open spec fn sh_inner_wf(s: ShInnerView) -> bool {
    match s {
        ShInnerView::Wsh(w) => wsh_inner_wf(w),
        ShInnerView::Wpkh(k) => free_of_delimiters(k, false),
        ShInnerView::SortedMulti(m) => sorted_wf(m),
        ShInnerView::Ms(t) => term_wf(t),
    }
}

/// In a tree, curly brackets are delimiters: the keys and digests of a
/// leaf hold none.
pub open spec fn tree_wf(t: TapTreeView) -> bool
    decreases t,
{
    match t {
        TapTreeView::Tree(l, r) => tree_wf(*l) && tree_wf(*r),
        TapTreeView::Leaf(x) => term_wf(x) && term_sound(x, true),
    }
}

/// A descriptor that can be written and read again: it is sound, and the
/// brackets of its text are nested at most `MAX_DEPTH` deep.
pub open spec fn descriptor_wf(d: DescriptorView) -> bool {
    descriptor_sound(d) && shallow(descriptor_expr(d), MAX_DEPTH as nat)
}

/// A descriptor whose parts can be written: its terms are well formed, its
/// keys hold no round bracket and no comma, and a sorted multi-key
/// condition asks for at least one and at most all of its keys. A key may
/// hold curly brackets, but for the keys in the tree of a taproot
/// descriptor.
pub open spec fn descriptor_sound(d: DescriptorView) -> bool {
    match d {
        DescriptorView::Bare(t) => term_wf(t),
        DescriptorView::Pkh(k) => free_of_delimiters(k, false),
        DescriptorView::Wpkh(k) => free_of_delimiters(k, false),
        DescriptorView::Sh(s) => sh_inner_wf(s),
        DescriptorView::Wsh(w) => wsh_inner_wf(w),
        DescriptorView::Tr(k, tree) => free_of_delimiters(k, false) && (match tree {
            Some(t) => tree_wf(t),
            None => true,
        }),
    }
}

/// A name applied to arguments in round brackets.
pub open spec fn call(name: Seq<char>, args: Seq<ExprView>) -> ExprView {
    ExprView { name, curly: false, args }
}

pub open spec fn sorted_expr(s: SortedMultiView) -> ExprView {
    call(
        "sortedmulti"@,
        seq![leaf(decimal(s.k))] + Seq::new(s.keys.len(), |i: int| leaf(s.keys[i])),
    )
}

pub open spec fn wsh_inner_expr(w: WshInnerView) -> ExprView {
    match w {
        WshInnerView::SortedMulti(s) => sorted_expr(s),
        WshInnerView::Ms(t) => term_expr(t),
    }
}

pub open spec fn sh_inner_expr(s: ShInnerView) -> ExprView {
    match s {
        ShInnerView::Wsh(w) => call("wsh"@, seq![wsh_inner_expr(w)]),
        ShInnerView::Wpkh(k) => call("wpkh"@, seq![leaf(k)]),
        ShInnerView::SortedMulti(m) => sorted_expr(m),
        ShInnerView::Ms(t) => term_expr(t),
    }
}

/// A leaf is written as its term, two branches between curly brackets.
pub open spec fn tree_expr(t: TapTreeView) -> ExprView
    decreases t,
{
    match t {
        TapTreeView::Tree(l, r) => ExprView {
            name: Seq::empty(),
            curly: true,
            args: seq![tree_expr(*l), tree_expr(*r)],
        },
        TapTreeView::Leaf(x) => term_expr(x),
    }
}

/// The expression as which a descriptor is written. Of a taproot
/// descriptor only the tree is written as an expression; where it has
/// none, this is the empty leaf.
pub open spec fn descriptor_expr(d: DescriptorView) -> ExprView {
    match d {
        DescriptorView::Bare(t) => term_expr(t),
        DescriptorView::Pkh(k) => call("pkh"@, seq![leaf(k)]),
        DescriptorView::Wpkh(k) => call("wpkh"@, seq![leaf(k)]),
        DescriptorView::Sh(s) => call("sh"@, seq![sh_inner_expr(s)]),
        DescriptorView::Wsh(w) => call("wsh"@, seq![wsh_inner_expr(w)]),
        DescriptorView::Tr(_, tree) => match tree {
            Some(t) => tree_expr(t),
            None => leaf(Seq::empty()),
        },
    }
}

/// The text of a taproot descriptor: the key and, behind a comma, the
/// tree, between `tr(` and `)`.
pub open spec fn tr_text(k: Seq<char>, tree: Option<TapTreeView>) -> Seq<char> {
    match tree {
        Some(t) => seq!['t', 'r', '('] + k + seq![','] + expr_text(tree_expr(t)) + seq![')'],
        None => seq!['t', 'r', '('] + k + seq![')'],
    }
}

/// Whether a text starts like that of a taproot descriptor.
pub open spec fn is_tr_text(s: Seq<char>) -> bool {
    s.len() >= 3 && s[0] == 't' && s[1] == 'r' && s[2] == '('
}

/// Where the first comma at or after `i` stands, or the length of the text
/// if there is none.
pub open spec fn comma_at(s: Seq<char>, i: int) -> int
    decreases s.len() - i,
{
    if i < 0 || i >= s.len() || s[i] == ',' {
        i
    } else {
        comma_at(s, i + 1)
    }
}

/// The taproot descriptor that a text stands for: between `tr(` and the
/// last `)`, the key up to the first comma, and behind it the tree, in
/// which curly brackets are brackets.
pub open spec fn text_tr(s: Seq<char>) -> Option<DescriptorView> {
    if s.len() >= 4 && s[s.len() - 1] == ')' {
        let rest = s.subrange(3, s.len() - 1);
        let c = comma_at(rest, 0);
        if 0 <= c < rest.len() {
            match parse_whole(rest.subrange(c + 1, rest.len() as int), true) {
                Some(e) => match expr_tree(e) {
                    Some(t) => Some(DescriptorView::Tr(rest.subrange(0, c), Some(t))),
                    None => None,
                },
                None => None,
            }
        } else {
            Some(DescriptorView::Tr(rest, None))
        }
    } else {
        None
    }
}

pub open spec fn expr_sorted(e: ExprView) -> Option<SortedMultiView> {
    if !e.curly && e.name == "sortedmulti"@ && e.args.len() >= 1 {
        match (head_number(e.args), atoms_from(e.args, 1)) {
            (Some(k), Some(keys)) => if 1 <= k <= keys.len() {
                Some(SortedMultiView { k, keys })
            } else {
                None
            },
            _ => None,
        }
    } else {
        None
    }
}

pub open spec fn expr_wsh_inner(e: ExprView) -> Option<WshInnerView> {
    if e.name == "sortedmulti"@ {
        match expr_sorted(e) {
            Some(s) => Some(WshInnerView::SortedMulti(s)),
            None => None,
        }
    } else {
        match expr_term_within(e, MAX_HEIGHT as nat) {
            Some(t) => Some(WshInnerView::Ms(t)),
            None => None,
        }
    }
}

pub open spec fn expr_sh_inner(e: ExprView) -> Option<ShInnerView> {
    if e.name == "wsh"@ {
        if !e.curly && e.args.len() == 1 {
            match expr_wsh_inner(e.args[0]) {
                Some(w) => Some(ShInnerView::Wsh(w)),
                None => None,
            }
        } else {
            None
        }
    } else if e.name == "wpkh"@ {
        if e.curly {
            None
        } else {
            match single_atom(e.args) {
                Some(k) => Some(ShInnerView::Wpkh(k)),
                None => None,
            }
        }
    } else if e.name == "sortedmulti"@ {
        match expr_sorted(e) {
            Some(s) => Some(ShInnerView::SortedMulti(s)),
            None => None,
        }
    } else {
        match expr_term_within(e, MAX_HEIGHT as nat) {
            Some(t) => Some(ShInnerView::Ms(t)),
            None => None,
        }
    }
}

pub open spec fn expr_tree(e: ExprView) -> Option<TapTreeView>
    decreases e,
{
    if e.curly {
        if e.name.len() == 0 && e.args.len() == 2 {
            match (expr_tree(e.args[0]), expr_tree(e.args[1])) {
                (Some(l), Some(r)) => Some(TapTreeView::Tree(Box::new(l), Box::new(r))),
                _ => None,
            }
        } else {
            None
        }
    } else {
        match expr_term_within(e, MAX_HEIGHT as nat) {
            Some(t) => Some(TapTreeView::Leaf(t)),
            None => None,
        }
    }
}

/// The descriptor that an expression stands for. Whether it is a bare
/// term has to be told: `pkh(K)` is the text of such a term too.
pub open spec fn expr_descriptor(bare: bool, e: ExprView) -> Option<DescriptorView> {
    if bare {
        match expr_term_within(e, MAX_HEIGHT as nat) {
            Some(t) => Some(DescriptorView::Bare(t)),
            None => None,
        }
    } else if e.curly {
        None
    } else if e.name == "pkh"@ {
        match single_atom(e.args) {
            Some(k) => Some(DescriptorView::Pkh(k)),
            None => None,
        }
    } else if e.name == "wpkh"@ {
        match single_atom(e.args) {
            Some(k) => Some(DescriptorView::Wpkh(k)),
            None => None,
        }
    } else if e.name == "sh"@ {
        if e.args.len() == 1 {
            match expr_sh_inner(e.args[0]) {
                Some(s) => Some(DescriptorView::Sh(s)),
                None => None,
            }
        } else {
            None
        }
    } else if e.name == "wsh"@ {
        if e.args.len() == 1 {
            match expr_wsh_inner(e.args[0]) {
                Some(w) => Some(DescriptorView::Wsh(w)),
                None => None,
            }
        } else {
            None
        }
    } else {
        None
    }
}

/// The text of a descriptor, without a checksum.
pub open spec fn descriptor_text(d: DescriptorView) -> Seq<char> {
    match d {
        DescriptorView::Tr(k, tree) => tr_text(k, tree),
        _ => expr_text(descriptor_expr(d)),
    }
}

/// The descriptor that a text stands for. A text that is not that of a
/// bare term and starts with `tr(` is read as a taproot descriptor; any
/// other is read as an expression in which curly brackets are characters
/// like any other, and the expression as a descriptor.
pub open spec fn text_descriptor(bare: bool, s: Seq<char>) -> Option<DescriptorView> {
    if !bare && is_tr_text(s) {
        text_tr(s)
    } else {
        match parse_whole(s, false) {
            Some(e) => expr_descriptor(bare, e),
            None => None,
        }
    }
}

/// Whether `s` is the text of the well-formed descriptor `d`, which is a
/// bare term or not as `bare` says.
pub open spec fn describes(bare: bool, s: Seq<char>, d: DescriptorView) -> bool {
    descriptor_wf(d) && descriptor_text(d) == s && (d is Bare) == bare
}

/// The well-formed descriptor whose text is `s`, if there is one.
pub open spec fn descriptor_of_text(bare: bool, s: Seq<char>) -> Option<DescriptorView> {
    if exists|d: DescriptorView| describes(bare, s, d) {
        Some(choose|d: DescriptorView| describes(bare, s, d))
    } else {
        None
    }
}

/// The expression of a well-formed term is well formed, round, stands for
/// the term, and is named like no descriptor layer but `pkh`.
pub proof fn lemma_term_expr(t: TermView, braces: bool)
    requires
        term_wf(t),
        term_sound(t, braces),
    ensures
        expr_term_within(term_expr(t), MAX_HEIGHT as nat) == Some(t),
        expr_wf(term_expr(t), braces),
        !term_expr(t).curly,
        term_expr(t).name != "sortedmulti"@,
        term_expr(t).name != "wsh"@,
        term_expr(t).name != "wpkh"@,
        term_expr(t).name != "sh"@,
        term_expr(t).name != "tr"@,
{
    let none = Seq::<char>::empty();
    lemma_expr_with(t, none, braces);
    assert(wrap_all(none, t) == Some(t));
    lemma_descriptor_names();
    let name = term_expr(t).name;
    if name == "sortedmulti"@ || name == "wsh"@ || name == "wpkh"@ || name == "sh"@ || name
        == "tr"@ {
        lemma_colon_at(name, 0, name.len() as int);
        assert(base_of(name) == name);
    }
}

pub proof fn lemma_sorted_expr(s: SortedMultiView)
    requires
        sorted_wf(s),
    ensures
        expr_sorted(sorted_expr(s)) == Some(s),
        expr_wf(sorted_expr(s), false),
{
    let e = sorted_expr(s);
    let args = e.args;
    lemma_descriptor_names();
    crate::expr::lemma_free_in_both("sortedmulti"@, false);
    lemma_number_of_decimal(s.k);
    lemma_decimal_free(s.k, false);
    assert(expr_wf(leaf(decimal(s.k)), false));
    assert(args[0] == leaf(decimal(s.k)));
    assert forall|i: int| 0 <= i < s.keys.len() implies #[trigger] args[i + 1] == leaf(s.keys[i])
        && expr_wf(args[i + 1], false) by {
        assert(free_of_delimiters(s.keys[i], false));
    }
    lemma_atoms_from(args, s.keys, 1);
    assert(s.keys.subrange(0, s.keys.len() as int) =~= s.keys);
    assert forall|i: int| 0 <= i < args.len() implies expr_wf(#[trigger] args[i], false) by {
        if i > 0 {
            assert(expr_wf(args[(i - 1) + 1], false));
        }
    }
}

pub proof fn lemma_wsh_inner_expr(w: WshInnerView)
    requires
        wsh_inner_wf(w),
    ensures
        expr_wsh_inner(wsh_inner_expr(w)) == Some(w),
        expr_wf(wsh_inner_expr(w), false),
        !wsh_inner_expr(w).curly,
        wsh_inner_expr(w).name != "wsh"@,
        wsh_inner_expr(w).name != "wpkh"@,
{
    lemma_descriptor_names();
    match w {
        WshInnerView::SortedMulti(s) => {
            lemma_sorted_expr(s);
        },
        WshInnerView::Ms(t) => {
            lemma_term_expr(t, false);
        },
    }
}

pub proof fn lemma_sh_inner_expr(s: ShInnerView)
    requires
        sh_inner_wf(s),
    ensures
        expr_sh_inner(sh_inner_expr(s)) == Some(s),
        expr_wf(sh_inner_expr(s), false),
{
    lemma_descriptor_names();
    crate::expr::lemma_free_in_both("wsh"@, false);
    crate::expr::lemma_free_in_both("wpkh"@, false);
    match s {
        ShInnerView::Wsh(w) => {
            lemma_wsh_inner_expr(w);
            let e = sh_inner_expr(s);
            assert(e.args[0] == wsh_inner_expr(w));
        },
        ShInnerView::Wpkh(k) => {
            assert(expr_wf(leaf(k), false));
        },
        ShInnerView::SortedMulti(m) => {
            lemma_sorted_expr(m);
        },
        ShInnerView::Ms(t) => {
            lemma_term_expr(t, false);
        },
    }
}

pub proof fn lemma_tree_expr(t: TapTreeView)
    requires
        tree_wf(t),
    ensures
        expr_tree(tree_expr(t)) == Some(t),
        expr_wf(tree_expr(t), true),
    decreases t,
{
    match t {
        TapTreeView::Tree(l, r) => {
            lemma_tree_expr(*l);
            lemma_tree_expr(*r);
            let e = tree_expr(t);
            assert(e.args[0] == tree_expr(*l));
            assert(e.args[1] == tree_expr(*r));
            assert(free_of_delimiters(e.name, true));
        },
        TapTreeView::Leaf(x) => {
            lemma_term_expr(x, true);
        },
    }
}

/// The expression of a sound descriptor other than a taproot descriptor
/// is well formed and stands for the descriptor, and the text of one that
/// is not a bare term does not start with `tr(`.
pub proof fn lemma_descriptor_expr(d: DescriptorView)
    requires
        descriptor_sound(d),
        !(d is Tr),
    ensures
        expr_descriptor(d is Bare, descriptor_expr(d)) == Some(d),
        expr_wf(descriptor_expr(d), false),
        !(d is Bare) ==> !is_tr_text(expr_text(descriptor_expr(d))),
{
    lemma_descriptor_names();
    crate::expr::lemma_free_in_both("pkh"@, false);
    crate::expr::lemma_free_in_both("wpkh"@, false);
    crate::expr::lemma_free_in_both("sh"@, false);
    crate::expr::lemma_free_in_both("wsh"@, false);
    reveal_strlit("pkh");
    reveal_strlit("wpkh");
    reveal_strlit("sh");
    reveal_strlit("wsh");
    let e = descriptor_expr(d);
    match d {
        DescriptorView::Bare(t) => {
            lemma_term_expr(t, false);
        },
        DescriptorView::Pkh(k) => {
            assert(expr_wf(leaf(k), false));
            assert(expr_text(e)[0] == 'p');
        },
        DescriptorView::Wpkh(k) => {
            assert(expr_wf(leaf(k), false));
            assert(expr_text(e)[0] == 'w');
        },
        DescriptorView::Sh(s) => {
            lemma_sh_inner_expr(s);
            assert(e.args[0] == sh_inner_expr(s));
            assert(expr_text(e)[0] == 's');
        },
        DescriptorView::Wsh(w) => {
            lemma_wsh_inner_expr(w);
            assert(e.args[0] == wsh_inner_expr(w));
            assert(expr_text(e)[0] == 'w');
        },
        DescriptorView::Tr(_, _) => {},
    }
}

/// A stretch without commas that is followed by one, or by the end of the
/// text, ends at the first comma.
pub proof fn lemma_comma_at(s: Seq<char>, i: int, j: int)
    requires
        0 <= i <= j <= s.len(),
        forall|k: int| i <= k < j ==> s[k] != ',',
        j == s.len() || s[j] == ',',
    ensures
        comma_at(s, i) == j,
    decreases j - i,
{
    if i < j {
        lemma_comma_at(s, i + 1, j);
    }
}

/// The text of a sound taproot descriptor is read as that descriptor.
pub proof fn lemma_text_tr(k: Seq<char>, tree: Option<TapTreeView>)
    requires
        descriptor_wf(DescriptorView::Tr(k, tree)),
    ensures
        is_tr_text(tr_text(k, tree)),
        text_tr(tr_text(k, tree)) == Some(DescriptorView::Tr(k, tree)),
{
    let s = tr_text(k, tree);
    let rest = s.subrange(3, s.len() - 1);
    assert forall|i: int| 0 <= i < k.len() implies k[i] != ',' by {
        assert(!crate::expr::is_delimiter(k[i], false));
    }
    match tree {
        Some(t) => {
            let body = expr_text(tree_expr(t));
            assert(rest =~= k + seq![','] + body);
            assert forall|i: int| 0 <= i < k.len() implies rest[i] != ',' by {
                assert(rest[i] == k[i]);
            }
            assert(rest[k.len() as int] == ',');
            lemma_comma_at(rest, 0, k.len() as int);
            assert(rest.subrange(0, k.len() as int) =~= k);
            assert(rest.subrange(k.len() as int + 1, rest.len() as int) =~= body);
            lemma_tree_expr(t);
            lemma_parse_whole(tree_expr(t), true);
        },
        None => {
            assert(rest =~= k);
            lemma_comma_at(rest, 0, rest.len() as int);
        },
    }
}

/// Writing a well-formed descriptor and reading the text gives the
/// descriptor back.
pub proof fn lemma_text_descriptor(d: DescriptorView)
    requires
        descriptor_wf(d),
    ensures
        text_descriptor(d is Bare, descriptor_text(d)) == Some(d),
{
    match d {
        DescriptorView::Tr(k, tree) => {
            lemma_text_tr(k, tree);
        },
        _ => {
            lemma_descriptor_expr(d);
            lemma_parse_whole(descriptor_expr(d), false);
        },
    }
}

/// The text of a well-formed descriptor is read as that descriptor, and as
/// no other.
pub proof fn lemma_written_descriptor_is_read(d: DescriptorView)
    requires
        descriptor_wf(d),
    ensures
        descriptor_of_text(d is Bare, descriptor_text(d)) == Some(d),
{
    let s = descriptor_text(d);
    let bare = d is Bare;
    assert(describes(bare, s, d));
    let other = choose|other: DescriptorView| describes(bare, s, other);
    lemma_text_descriptor(d);
    lemma_text_descriptor(other);
}

/// Reading a text as a descriptor comes to this: read it as an expression,
/// the expression as a descriptor, and keep the descriptor where it is well
/// formed, of the kind that was told, and written as the text.
pub proof fn lemma_describing(bare: bool, s: Seq<char>)
    ensures
        descriptor_of_text(bare, s) == (match text_descriptor(bare, s) {
            Some(d) => if descriptor_wf(d) && descriptor_text(d) == s && (d is Bare) == bare {
                Some(d)
            } else {
                None
            },
            None => None,
        }),
{
    if exists|d: DescriptorView| describes(bare, s, d) {
        let d = choose|d: DescriptorView| describes(bare, s, d);
        lemma_text_descriptor(d);
    } else {
        match text_descriptor(bare, s) {
            Some(d) => {
                if descriptor_wf(d) && descriptor_text(d) == s && (d is Bare) == bare {
                    assert(describes(bare, s, d));
                }
            },
            None => {},
        }
    }
}

} // verus!
