//! Reading, writing and projecting descriptors: the executable side.

use vstd::prelude::*;
use crate::decimal::write_decimal;
use crate::descriptor::{
    Descriptor, DescriptorView, ShInner, ShInnerView, SortedMulti, SortedMultiView, TapTree,
    TapTreeView, WshInner, WshInnerView, call, comma_at, descriptor_expr, descriptor_of_text,
    descriptor_sound, descriptor_text, descriptor_wf, expr_descriptor, expr_sh_inner, expr_sorted,
    expr_tree, expr_wsh_inner, is_tr_text, lemma_describing, sh_inner_expr, sh_inner_wf,
    sorted_expr, sorted_wf, text_tr, tr_text, tree_expr, tree_wf, wsh_inner_expr, wsh_inner_wf,
};
use crate::expr::{MAX_DEPTH, Expr, expr_views, lemma_view_args};
use crate::project::project_term;
use crate::reading::{atoms_behind_head, head_number_of, no_delimiters, single_atom_of};
use crate::term::{Term, leaf, text_views};
use crate::text::{char_at, part_of, same_text};
use crate::value::{Value, ValueView, field_views, lemma_object_model, tagged};
use crate::writing::{exprs_of_texts, leaf_expr, sound, texts_free};

verus! {

fn sorted_of_expr(e: &Expr) -> (r: Option<SortedMulti>)
    ensures
        match expr_sorted(e@) {
            Some(s) => r matches Some(x) && x@ == s,
            None => r is None,
        },
{
    proof {
        lemma_view_args(e);
    }
    if !e.curly && same_text(e.name.as_str(), "sortedmulti") && e.args.len() >= 1 {
        match head_number_of(&e.args) {
            Some(k) => match atoms_behind_head(&e.args) {
                Some(keys) => if 1 <= k && k as usize <= keys.len() {
                    Some(SortedMulti { k: k as usize, keys })
                } else {
                    None
                },
                None => None,
            },
            None => None,
        }
    } else {
        None
    }
}

fn wsh_inner_of_expr(e: &Expr) -> (r: Option<WshInner>)
    ensures
        match expr_wsh_inner(e@) {
            Some(w) => r matches Some(x) && x@ == w,
            None => r is None,
        },
{
    proof {
        lemma_view_args(e);
    }
    if same_text(e.name.as_str(), "sortedmulti") {
        match sorted_of_expr(e) {
            Some(s) => Some(WshInner::SortedMulti(s)),
            None => None,
        }
    } else {
        match Term::from_expr(e) {
            Some(t) => Some(WshInner::Ms(t)),
            None => None,
        }
    }
}

fn sh_inner_of_expr(e: &Expr) -> (r: Option<ShInner>)
    ensures
        match expr_sh_inner(e@) {
            Some(s) => r matches Some(x) && x@ == s,
            None => r is None,
        },
{
    proof {
        lemma_view_args(e);
    }
    if same_text(e.name.as_str(), "wsh") {
        if !e.curly && e.args.len() == 1 {
            match wsh_inner_of_expr(&e.args[0]) {
                Some(w) => Some(ShInner::Wsh(w)),
                None => None,
            }
        } else {
            None
        }
    } else if same_text(e.name.as_str(), "wpkh") {
        if e.curly {
            None
        } else {
            match single_atom_of(&e.args) {
                Some(k) => Some(ShInner::Wpkh(k)),
                None => None,
            }
        }
    } else if same_text(e.name.as_str(), "sortedmulti") {
        match sorted_of_expr(e) {
            Some(s) => Some(ShInner::SortedMulti(s)),
            None => None,
        }
    } else {
        match Term::from_expr(e) {
            Some(t) => Some(ShInner::Ms(t)),
            None => None,
        }
    }
}

fn tree_of_expr(e: &Expr) -> (r: Option<TapTree>)
    ensures
        match expr_tree(e@) {
            Some(t) => r matches Some(x) && x@ == t,
            None => r is None,
        },
    decreases e,
{
    proof {
        lemma_view_args(e);
    }
    if e.curly {
        if e.name.as_str().is_empty() && e.args.len() == 2 {
            match tree_of_expr(&e.args[0]) {
                Some(l) => match tree_of_expr(&e.args[1]) {
                    Some(r) => Some(TapTree::Tree(Box::new(l), Box::new(r))),
                    None => None,
                },
                None => None,
            }
        } else {
            None
        }
    } else {
        match Term::from_expr(e) {
            Some(t) => Some(TapTree::Leaf(t)),
            None => None,
        }
    }
}

fn descriptor_of_expr(bare: bool, e: &Expr) -> (r: Option<Descriptor>)
    ensures
        match expr_descriptor(bare, e@) {
            Some(d) => r matches Some(x) && x@ == d,
            None => r is None,
        },
{
    proof {
        lemma_view_args(e);
    }
    if bare {
        match Term::from_expr(e) {
            Some(t) => Some(Descriptor::Bare(t)),
            None => None,
        }
    } else if e.curly {
        None
    } else if same_text(e.name.as_str(), "pkh") {
        match single_atom_of(&e.args) {
            Some(k) => Some(Descriptor::Pkh(k)),
            None => None,
        }
    } else if same_text(e.name.as_str(), "wpkh") {
        match single_atom_of(&e.args) {
            Some(k) => Some(Descriptor::Wpkh(k)),
            None => None,
        }
    } else if same_text(e.name.as_str(), "sh") {
        if e.args.len() == 1 {
            match sh_inner_of_expr(&e.args[0]) {
                Some(s) => Some(Descriptor::Sh(s)),
                None => None,
            }
        } else {
            None
        }
    } else if same_text(e.name.as_str(), "wsh") {
        if e.args.len() == 1 {
            match wsh_inner_of_expr(&e.args[0]) {
                Some(w) => Some(Descriptor::Wsh(w)),
                None => None,
            }
        } else {
            None
        }
    } else {
        None
    }
}

/// A name applied to arguments in round brackets.
fn call_expr(name: &str, args: Vec<Expr>) -> (e: Expr)
    ensures
        e@ == call(name@, expr_views(args@)),
{
    let e = Expr { name: String::from_str(name), curly: false, args };
    proof {
        lemma_view_args(&e);
    }
    e
}

/// A name applied to one argument.
fn call_one(name: &str, arg: Expr) -> (e: Expr)
    ensures
        e@ == call(name@, seq![arg@]),
{
    let mut args: Vec<Expr> = Vec::new();
    args.push(arg);
    assert(expr_views(args@) =~= seq![arg@]);
    call_expr(name, args)
}

fn sorted_to_expr(s: &SortedMulti) -> (e: Expr)
    ensures
        e@ == sorted_expr(s@),
{
    let args = exprs_of_texts(&s.keys, leaf_expr(write_decimal(s.k as u64)));
    assert(expr_views(args@) =~= sorted_expr(s@).args) by {
        assert forall|j: int| 0 <= j < args.len() implies expr_views(args@)[j] == sorted_expr(
            s@,
        ).args[j] by {
            if j > 0 {
                assert(args@[(j - 1) + 1]@ == leaf(s.keys@[j - 1]@));
            }
        }
    }
    call_expr("sortedmulti", args)
}

fn wsh_inner_to_expr(w: &WshInner) -> (e: Expr)
    ensures
        e@ == wsh_inner_expr(w@),
{
    match w {
        WshInner::SortedMulti(s) => sorted_to_expr(s),
        WshInner::Ms(t) => t.to_expr(),
    }
}

fn sh_inner_to_expr(s: &ShInner) -> (e: Expr)
    ensures
        e@ == sh_inner_expr(s@),
{
    match s {
        ShInner::Wsh(w) => call_one("wsh", wsh_inner_to_expr(w)),
        ShInner::Wpkh(k) => call_one("wpkh", leaf_expr(k.clone())),
        ShInner::SortedMulti(m) => sorted_to_expr(m),
        ShInner::Ms(t) => t.to_expr(),
    }
}

fn tree_to_expr(t: &TapTree) -> (e: Expr)
    ensures
        e@ == tree_expr(t@),
    decreases t,
{
    match t {
        TapTree::Tree(l, r) => {
            let mut args: Vec<Expr> = Vec::new();
            args.push(tree_to_expr(l));
            args.push(tree_to_expr(r));
            let e = Expr { name: String::new(), curly: true, args };
            proof {
                lemma_view_args(&e);
                assert(e@.args =~= seq![tree_expr(l@), tree_expr(r@)]);
            }
            e
        },
        TapTree::Leaf(x) => x.to_expr(),
    }
}

fn descriptor_to_expr(d: &Descriptor) -> (e: Expr)
    ensures
        e@ == descriptor_expr(d@),
{
    match d {
        Descriptor::Bare(t) => t.to_expr(),
        Descriptor::Pkh(k) => call_one("pkh", leaf_expr(k.clone())),
        Descriptor::Wpkh(k) => call_one("wpkh", leaf_expr(k.clone())),
        Descriptor::Sh(s) => call_one("sh", sh_inner_to_expr(s)),
        Descriptor::Wsh(w) => call_one("wsh", wsh_inner_to_expr(w)),
        Descriptor::Tr(_, tree) => match tree {
            Some(t) => tree_to_expr(t),
            None => leaf_expr(String::new()),
        },
    }
}

fn sorted_ok(s: &SortedMulti) -> (b: bool)
    ensures
        b == sorted_wf(s@),
{
    s.k >= 1 && s.k <= s.keys.len() && s.k <= 0xFFFF_FFFF && texts_free(&s.keys, false)
}

fn wsh_inner_ok(w: &WshInner) -> (b: bool)
    ensures
        b == wsh_inner_wf(w@),
{
    match w {
        WshInner::SortedMulti(s) => sorted_ok(s),
        WshInner::Ms(t) => t.is_well_formed(),
    }
}

fn sh_inner_ok(s: &ShInner) -> (b: bool)
    ensures
        b == sh_inner_wf(s@),
{
    match s {
        ShInner::Wsh(w) => wsh_inner_ok(w),
        ShInner::Wpkh(k) => no_delimiters(k.as_str(), false),
        ShInner::SortedMulti(m) => sorted_ok(m),
        ShInner::Ms(t) => t.is_well_formed(),
    }
}

fn tree_ok(t: &TapTree) -> (b: bool)
    ensures
        b == tree_wf(t@),
    decreases t,
{
    match t {
        TapTree::Tree(l, r) => tree_ok(l) && tree_ok(r),
        TapTree::Leaf(x) => x.is_well_formed() && sound(x, true),
    }
}

/// Whether a text starts like that of a taproot descriptor.
pub(crate) fn starts_with_tr(s: &str, plain: bool, len: usize) -> (b: bool)
    requires
        plain ==> s.is_ascii(),
        len == s@.len(),
    ensures
        b == is_tr_text(s@),
{
    len >= 3 && char_at(s, plain, 0) == 't' && char_at(s, plain, 1) == 'r' && char_at(s, plain, 2)
        == '('
}

/// Where the first comma of a text stands, or its length if it has none.
fn find_comma(s: &str, plain: bool, len: usize) -> (p: usize)
    requires
        plain ==> s.is_ascii(),
        len == s@.len(),
    ensures
        p == comma_at(s@, 0),
        p <= len,
{
    let mut p: usize = 0;
    while p < len
        invariant
            plain ==> s.is_ascii(),
            len == s@.len(),
            p <= len,
            comma_at(s@, 0) == comma_at(s@, p as int),
        decreases len - p,
    {
        if char_at(s, plain, p) == ',' {
            return p;
        }
        p += 1;
    }
    p
}

/// The taproot descriptor that a text stands for.
fn read_tr(text: &str, plain: bool, len: usize) -> (r: Option<Descriptor>)
    requires
        plain ==> text.is_ascii(),
        len == text@.len(),
    ensures
        match text_tr(text@) {
            Some(d) => r matches Some(x) && x@ == d,
            None => r is None,
        },
{
    if len < 4 || char_at(text, plain, len - 1) != ')' {
        return None;
    }
    let rest = part_of(text, plain, 3, len - 1);
    let inner = rest.as_str();
    let inner_plain = inner.is_ascii();
    let inner_len = inner.unicode_len();
    let c = find_comma(inner, inner_plain, inner_len);
    if c < inner_len {
        let branches = part_of(inner, inner_plain, c + 1, inner_len);
        match Expr::parse(branches.as_str(), true) {
            Some(e) => match tree_of_expr(&e) {
                Some(t) => Some(Descriptor::Tr(part_of(inner, inner_plain, 0, c), Some(t))),
                None => None,
            },
            None => None,
        }
    } else {
        Some(Descriptor::Tr(rest, None))
    }
}

/// The text of a taproot descriptor.
fn write_tr(k: &String, tree: &Option<TapTree>) -> (text: String)
    ensures
        text@ == tr_text(k@, match tree {
            Some(t) => Some(t@),
            None => None,
        }),
{
    proof {
        reveal_strlit("tr(");
        reveal_strlit(",");
        reveal_strlit(")");
    }
    let mut text = String::from_str("tr(");
    assert(text@ =~= seq!['t', 'r', '(']);
    text.append(k.as_str());
    match tree {
        Some(t) => {
            text.append(",");
            tree_to_expr(t).write_into(&mut text);
            text.append(")");
            assert(text@ =~= seq!['t', 'r', '('] + k@ + seq![','] + crate::expr::expr_text(
                tree_expr(t@),
            ) + seq![')']);
        },
        None => {
            text.append(")");
            assert(text@ =~= seq!['t', 'r', '('] + k@ + seq![')']);
        },
    }
    text
}

impl Descriptor {
    /// Whether the descriptor can be written and read again.
    pub fn is_well_formed(&self) -> (b: bool)
        ensures
            b == descriptor_wf(self@),
    {
        self.is_sound() && descriptor_to_expr(self).is_shallow(MAX_DEPTH)
    }

    /// Whether the parts of the descriptor can be written.
    pub fn is_sound(&self) -> (b: bool)
        ensures
            b == descriptor_sound(self@),
    {
        match self {
            Descriptor::Bare(t) => t.is_well_formed(),
            Descriptor::Pkh(k) => no_delimiters(k.as_str(), false),
            Descriptor::Wpkh(k) => no_delimiters(k.as_str(), false),
            Descriptor::Sh(s) => sh_inner_ok(s),
            Descriptor::Wsh(w) => wsh_inner_ok(w),
            Descriptor::Tr(k, tree) => no_delimiters(k.as_str(), false) && (match tree {
                Some(t) => tree_ok(t),
                None => true,
            }),
        }
    }

    /// Whether the descriptor is a bare term.
    pub fn is_bare(&self) -> (b: bool)
        ensures
            b == (self@ is Bare),
    {
        match self {
            Descriptor::Bare(_) => true,
            _ => false,
        }
    }

    /// The text of the descriptor, without a checksum.
    pub fn to_text(&self) -> (text: String)
        ensures
            text@ == descriptor_text(self@),
    {
        match self {
            Descriptor::Tr(k, tree) => write_tr(k, tree),
            _ => descriptor_to_expr(self).to_text(),
        }
    }

    /// Reads a descriptor from its text. `bare` says whether the text is
    /// that of a bare term. The text must be the one under which the
    /// descriptor is written, without a checksum. Curly brackets are
    /// brackets in the tree of a taproot descriptor and characters like any
    /// other elsewhere.
    pub fn from_text(bare: bool, text: &str) -> (r: Option<Descriptor>)
        ensures
            match descriptor_of_text(bare, text@) {
                Some(d) => r matches Some(x) && x@ == d,
                None => r is None,
            },
    {
        proof {
            lemma_describing(bare, text@);
        }
        let plain = text.is_ascii();
        let len = text.unicode_len();
        let found = if !bare && starts_with_tr(text, plain, len) {
            read_tr(text, plain, len)
        } else {
            match Expr::parse(text, false) {
                Some(e) => descriptor_of_expr(bare, &e),
                None => None,
            }
        };
        let d = match found {
            Some(d) => d,
            None => {
                return None;
            },
        };
        if !d.is_well_formed() || d.is_bare() != bare {
            return None;
        }
        let written = d.to_text();
        if same_text(written.as_str(), text) {
            Some(d)
        } else {
            None
        }
    }
}

/// The projection of a sorted multi-key condition: the required count, the
/// number of keys, and the keys in the order in which they were written.
pub open spec fn project_sorted(s: SortedMultiView) -> ValueView {
    ValueView::Object(
        seq![
            ("k"@, ValueView::Number(s.k)),
            ("n"@, ValueView::Number(s.keys.len())),
            ("pks"@, ValueView::Array(Seq::new(s.keys.len(), |i: int| ValueView::Text(s.keys[i])))),
        ],
    )
}

pub open spec fn project_wsh_inner(w: WshInnerView) -> ValueView {
    match w {
        WshInnerView::SortedMulti(s) => tagged("SortedMulti"@, project_sorted(s)),
        WshInnerView::Ms(t) => tagged("Ms"@, project_term(t)),
    }
}

pub open spec fn project_sh_inner(s: ShInnerView) -> ValueView {
    match s {
        ShInnerView::Wsh(w) => tagged("Wsh"@, project_wsh_inner(w)),
        ShInnerView::Wpkh(k) => tagged("Wpkh"@, ValueView::Text(k)),
        ShInnerView::SortedMulti(m) => tagged("SortedMulti"@, project_sorted(m)),
        ShInnerView::Ms(t) => tagged("Ms"@, project_term(t)),
    }
}

/// A leaf is projected as its term, two branches as an object whose field
/// `Tree` holds the array of the two.
pub open spec fn project_tree(t: TapTreeView) -> ValueView
    decreases t,
{
    match t {
        TapTreeView::Tree(l, r) => tagged(
            "Tree"@,
            ValueView::Array(seq![project_tree(*l), project_tree(*r)]),
        ),
        TapTreeView::Leaf(x) => project_term(x),
    }
}

/// The value onto which a descriptor is projected: an object with one
/// field, named after the kind of descriptor.
pub open spec fn project_descriptor(d: DescriptorView) -> ValueView {
    match d {
        DescriptorView::Bare(t) => tagged("Bare"@, project_term(t)),
        DescriptorView::Pkh(k) => tagged("Pkh"@, ValueView::Text(k)),
        DescriptorView::Wpkh(k) => tagged("Wpkh"@, ValueView::Text(k)),
        DescriptorView::Sh(s) => tagged("Sh"@, project_sh_inner(s)),
        DescriptorView::Wsh(w) => tagged("Wsh"@, project_wsh_inner(w)),
        DescriptorView::Tr(k, tree) => tagged(
            "Tr"@,
            ValueView::Object(
                seq![
                    ("internalKey"@, ValueView::Text(k)),
                    (
                        "tree"@,
                        match tree {
                            Some(t) => project_tree(t),
                            None => ValueView::Null,
                        },
                    ),
                ],
            ),
        ),
    }
}

/// The name of the kind of a descriptor.
pub open spec fn descriptor_tag(d: DescriptorView) -> Seq<char> {
    match d {
        DescriptorView::Bare(_) => "Bare"@,
        DescriptorView::Pkh(_) => "Pkh"@,
        DescriptorView::Wpkh(_) => "Wpkh"@,
        DescriptorView::Sh(_) => "Sh"@,
        DescriptorView::Wsh(_) => "Wsh"@,
        DescriptorView::Tr(_, _) => "Tr"@,
    }
}

/// The projection of a descriptor is an object whose one field is named
/// after the kind of the descriptor.
pub proof fn lemma_descriptor_projection_is_tagged(d: DescriptorView)
    ensures
        project_descriptor(d) matches ValueView::Object(fields) && fields.len() == 1
            && fields[0].0 == descriptor_tag(d),
{
}

impl SortedMulti {
    /// Projects the condition onto a value.
    pub fn to_value(&self) -> (v: Value)
        ensures
            v@ == project_sorted(self@),
    {
        let keys = Value::texts(&self.keys);
        let ghost keys_view = keys@;
        let mut fields: Vec<(String, Value)> = Vec::new();
        fields.push((String::from_str("k"), Value::Number(self.k as u64)));
        fields.push((String::from_str("n"), Value::Number(self.keys.len() as u64)));
        fields.push((String::from_str("pks"), keys));
        proof {
            lemma_object_model(fields);
            let views = text_views(self.keys@);
            assert(Seq::new(self.keys@.len(), |i: int| ValueView::Text(self.keys@[i]@))
                =~= Seq::new(views.len(), |i: int| ValueView::Text(views[i])));
            assert(field_views(fields@) =~= seq![
                ("k"@, ValueView::Number(self.k as nat)),
                ("n"@, ValueView::Number(self.keys@.len())),
                ("pks"@, keys_view),
            ]);
        }
        Value::Object(fields)
    }
}

impl WshInner {
    /// Projects what the descriptor wraps onto a value.
    pub fn to_value(&self) -> (v: Value)
        ensures
            v@ == project_wsh_inner(self@),
    {
        match self {
            WshInner::SortedMulti(s) => Value::tagged("SortedMulti", s.to_value()),
            WshInner::Ms(t) => Value::tagged("Ms", t.to_value()),
        }
    }
}

impl ShInner {
    /// Projects what the descriptor wraps onto a value.
    pub fn to_value(&self) -> (v: Value)
        ensures
            v@ == project_sh_inner(self@),
    {
        match self {
            ShInner::Wsh(w) => Value::tagged("Wsh", w.to_value()),
            ShInner::Wpkh(k) => Value::tagged("Wpkh", Value::Text(k.clone())),
            ShInner::SortedMulti(m) => Value::tagged("SortedMulti", m.to_value()),
            ShInner::Ms(t) => Value::tagged("Ms", t.to_value()),
        }
    }
}

impl TapTree {
    /// Projects the tree onto a value.
    pub fn to_value(&self) -> (v: Value)
        ensures
            v@ == project_tree(self@),
        decreases self,
    {
        match self {
            TapTree::Tree(l, r) => Value::tagged("Tree", Value::pair(l.to_value(), r.to_value())),
            TapTree::Leaf(x) => x.to_value(),
        }
    }
}

impl Descriptor {
    /// Projects the descriptor onto a value. Every descriptor has a
    /// projection.
    pub fn to_value(&self) -> (v: Value)
        ensures
            v@ == project_descriptor(self@),
    {
        match self {
            Descriptor::Bare(t) => Value::tagged("Bare", t.to_value()),
            Descriptor::Pkh(k) => Value::tagged("Pkh", Value::Text(k.clone())),
            Descriptor::Wpkh(k) => Value::tagged("Wpkh", Value::Text(k.clone())),
            Descriptor::Sh(s) => Value::tagged("Sh", s.to_value()),
            Descriptor::Wsh(w) => Value::tagged("Wsh", w.to_value()),
            Descriptor::Tr(k, tree) => {
                let branches = match tree {
                    Some(t) => t.to_value(),
                    None => Value::Null,
                };
                let ghost branches_view = branches@;
                assert(branches_view == (match self@->Tr_1 {
                    Some(t) => project_tree(t),
                    None => ValueView::Null,
                }));
                let mut fields: Vec<(String, Value)> = Vec::new();
                fields.push((String::from_str("internalKey"), Value::Text(k.clone())));
                fields.push((String::from_str("tree"), branches));
                proof {
                    lemma_object_model(fields);
                    assert(field_views(fields@) =~= seq![
                        ("internalKey"@, ValueView::Text(k@)),
                        ("tree"@, branches_view),
                    ]);
                }
                let inner = Value::Object(fields);
                assert(inner@ == ValueView::Object(
                    seq![("internalKey"@, ValueView::Text(k@)), ("tree"@, branches_view)],
                ));
                let v = Value::tagged("Tr", inner);
                proof {
                    let outer = project_descriptor(self@)->Object_0;
                    let first = outer[0];
                    assert(first.1->Object_0 =~= seq![
                        ("internalKey"@, ValueView::Text(k@)),
                        ("tree"@, branches_view),
                    ]);
                    assert(outer =~= seq![("Tr"@, inner@)]);
                }
                v
            },
        }
    }
}

} // verus!
