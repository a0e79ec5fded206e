//! The shuffle pass: the statements of a block that carry the attribute `shuffle` change
//! places among themselves, in an order drawn at random, and lose the attribute.

use vstd::prelude::*;
use crate::ast::Block;
use crate::ast::BlockView;
use crate::ast::clone_attrs;
use crate::ast::clone_branch;
use crate::ast::clone_expr;
use crate::ast::clone_literal;
use crate::ast::clone_macro;
use crate::ast::contains_attribute;
use crate::ast::Expr;
use crate::ast::exprs_view;
use crate::ast::ExprView;
use crate::ast::File;
use crate::ast::FileView;
use crate::ast::has_attribute;
use crate::ast::lemma_exprs_view;
use crate::ast::lemma_stmts_view;
use crate::ast::lemma_without_absent;
use crate::ast::Local;
use crate::ast::LocalView;
use crate::ast::Stmt;
use crate::ast::StmtKind;
use crate::ast::StmtKindView;
use crate::ast::stmts_view;
use crate::ast::StmtView;
use crate::ast::strip_attribute;
use crate::ast::without_attribute;
use crate::random::shuffle_in_place;

verus! {

/// The name of the attribute that marks a statement for shuffling.
pub const SHUFFLE_ATTRIBUTE: &'static str = "shuffle";

/// True where a statement is marked for shuffling.
pub open spec fn is_marked(stmt: StmtView) -> bool {
    has_attribute(stmt.attrs, SHUFFLE_ATTRIBUTE@)
}

/// For each statement of a list, whether it is marked.
pub open spec fn marks_of(stmts: Seq<StmtView>) -> Seq<bool> {
    Seq::new(stmts.len(), |i: int| is_marked(stmts[i]))
}

/// The number of marked places before place `k`.
pub open spec fn rank(marks: Seq<bool>, k: int) -> int
    decreases k,
{
    if k <= 0 {
        0
    } else {
        rank(marks, k - 1) + if marks[k - 1] { 1int } else { 0int }
    }
}

/// The marked places before place `n`, in ascending order.
pub open spec fn marked_places(marks: Seq<bool>, n: int) -> Seq<usize>
    decreases n,
{
    if n <= 0 {
        Seq::empty()
    } else if marks[n - 1] {
        marked_places(marks, n - 1).push((n - 1) as usize)
    } else {
        marked_places(marks, n - 1)
    }
}

/// True where `order` says for each place of a block from which place its statement comes,
/// such that every statement is used once, an unmarked place keeps its statement, and a
/// marked place gets the statement of a marked place.
pub open spec fn is_order(marks: Seq<bool>, order: Seq<usize>) -> bool {
    &&& order.len() == marks.len()
    &&& forall|k: int| 0 <= k < order.len() ==> (#[trigger] order[k]) < marks.len()
    &&& forall|j: int, k: int|
        0 <= j < order.len() && 0 <= k < order.len() && j != k ==> order[j] != order[k]
    &&& forall|k: int| 0 <= k < order.len() && !marks[k] ==> (#[trigger] order[k]) == k
    &&& forall|k: int| 0 <= k < order.len() && marks[k] ==> marks[(#[trigger] order[k]) as int]
}

/// The order that a permutation of the marked places gives: an unmarked place keeps its
/// statement, and the marked places take, in ascending order, the statements of the places
/// that `perm` lists.
pub open spec fn order_of(marks: Seq<bool>, perm: Seq<usize>) -> Seq<usize> {
    Seq::new(
        marks.len(),
        |k: int|
            if marks[k] {
                perm[rank(marks, k)]
            } else {
                k as usize
            },
    )
}

/// What the pass makes of an expression: the blocks in it are shuffled, the rest is kept.
/// The body of a macro invocation is not looked into.
pub open spec fn shuffled_expr(src: ExprView, dst: ExprView) -> bool
    decreases src,
{
    match src {
        ExprView::Verbatim(_) => dst == src,
        ExprView::Lit(_) => dst == src,
        ExprView::Macro(_) => dst == src,
        ExprView::Block(block) => dst is Block && shuffled_block(block, dst->Block_0),
        ExprView::Unsafe(block) => dst is Unsafe && shuffled_block(block, dst->Unsafe_0),
        ExprView::Named(name, value) => dst is Named && dst->Named_0 == name && shuffled_expr(
            *value,
            *dst->Named_1,
        ),
        ExprView::Args(args) => dst is Args && shuffled_list(args, dst->Args_0),
        ExprView::Group(kind, parts) => dst is Group && dst->Group_0 == kind && shuffled_list(
            parts,
            dst->Group_1,
        ),
    }
}

/// What the pass makes of a list of expressions: of each what it makes of an expression.
pub open spec fn shuffled_list(src: Seq<ExprView>, dst: Seq<ExprView>) -> bool
    decreases src,
{
    &&& dst.len() == src.len()
    &&& forall|i: int| 0 <= i < src.len() ==> shuffled_expr(src[i], #[trigger] dst[i])
}

/// What the pass makes of a `let` binding.
pub open spec fn shuffled_local(src: LocalView, dst: LocalView) -> bool
    decreases src,
{
    &&& dst.pattern == src.pattern
    &&& dst.by_reference == src.by_reference
    &&& match src.init {
        Some(init) => dst.init is Some && shuffled_expr(init, dst.init->0),
        None => dst.init is None,
    }
}

/// What the pass makes of a statement, attributes apart.
pub open spec fn shuffled_kind(src: StmtKindView, dst: StmtKindView) -> bool
    decreases src,
{
    match src {
        StmtKindView::Local(local) => dst is Local && shuffled_local(local, dst->Local_0),
        StmtKindView::Item(e) => dst is Item && shuffled_expr(e, dst->Item_0),
        StmtKindView::Expr(e) => dst is Expr && shuffled_expr(e, dst->Expr_0),
        StmtKindView::Semi(e) => dst is Semi && shuffled_expr(e, dst->Semi_0),
        StmtKindView::Verbatim(_) => dst == src,
        StmtKindView::Branch(_) => dst == src,
    }
}

/// What the pass makes of the statements of a block under a given order: at each place
/// stands the statement that the order names, shuffled within and without the attribute.
pub open spec fn placed(src: Seq<StmtView>, dst: Seq<StmtView>, order: Seq<usize>) -> bool
    decreases src,
{
    &&& dst.len() == src.len()
    &&& order.len() == src.len()
    &&& forall|k: int|
        0 <= k < src.len() && order[k] < src.len() ==> (#[trigger] dst[k]).attrs
            == without_attribute(src[order[k] as int].attrs, SHUFFLE_ATTRIBUTE@)
            && shuffled_kind(src[order[k] as int].kind, dst[k].kind)
}

/// What the pass makes of a block: its statements placed under some order.
pub open spec fn shuffled_block(src: BlockView, dst: BlockView) -> bool
    decreases src,
{
    exists|order: Seq<usize>| #[trigger]
        is_order(marks_of(src.stmts), order) && placed(src.stmts, dst.stmts, order)
}

/// What the pass makes of the items of a file: they keep their places and attributes, and
/// the blocks in them are shuffled.
pub open spec fn shuffled_items(src: Seq<StmtView>, dst: Seq<StmtView>) -> bool {
    &&& dst.len() == src.len()
    &&& forall|i: int|
        0 <= i < src.len() ==> (#[trigger] dst[i]).attrs == src[i].attrs && shuffled_kind(
            src[i].kind,
            dst[i].kind,
        )
}

/// What the pass makes of a file.
pub open spec fn shuffled_file(src: FileView, dst: FileView) -> bool {
    shuffled_items(src.items, dst.items)
}

/// The rank of a place grows by one over a marked place and not at all over another.
pub proof fn lemma_rank_grows(marks: Seq<bool>, a: int, b: int)
    requires
        0 <= a <= b,
    ensures
        rank(marks, a) <= rank(marks, b),
        0 <= rank(marks, a) <= a,
    decreases b,
{
    if a < b {
        lemma_rank_grows(marks, a, b - 1);
    } else if a > 0 {
        lemma_rank_grows(marks, a - 1, a - 1);
    }
}

/// The marked places before `n`: as many as the rank of `n`, each marked and before `n`,
/// ascending, and the marked place `k` stands at the rank of `k`.
pub proof fn lemma_marked_places(marks: Seq<bool>, n: int)
    requires
        0 <= n <= marks.len(),
        n <= usize::MAX,
    ensures
        marked_places(marks, n).len() == rank(marks, n),
        forall|i: int|
            0 <= i < marked_places(marks, n).len() ==> (#[trigger] marked_places(marks, n)[i]) < n
                && marks[marked_places(marks, n)[i] as int],
        forall|i: int, j: int|
            0 <= i < j < marked_places(marks, n).len() ==> marked_places(marks, n)[i]
                < marked_places(marks, n)[j],
        forall|k: int|
            0 <= k < n && marks[k] ==> 0 <= rank(marks, k) < marked_places(marks, n).len()
                && marked_places(marks, n)[#[trigger] rank(marks, k)] == k,
    decreases n,
{
    if n > 0 {
        lemma_marked_places(marks, n - 1);
        let before = marked_places(marks, n - 1);
        let all = marked_places(marks, n);
        assert forall|k: int| 0 <= k < n && marks[k] implies 0 <= rank(marks, k) < all.len()
            && all[#[trigger] rank(marks, k)] == k by {
            lemma_rank_grows(marks, k, n - 1);
            if k < n - 1 {
                assert(before[rank(marks, k)] == k);
            }
        }
    }
}

/// A permutation of the marked places gives an order.
pub proof fn lemma_order_of(marks: Seq<bool>, perm: Seq<usize>)
    requires
        marks.len() <= usize::MAX,
        perm.to_multiset() == marked_places(marks, marks.len() as int).to_multiset(),
    ensures
        perm.len() == rank(marks, marks.len() as int),
        is_order(marks, order_of(marks, perm)),
{
    broadcast use vstd::seq_lib::group_to_multiset_ensures;

    let n = marks.len() as int;
    let places = marked_places(marks, n);
    let order = order_of(marks, perm);
    lemma_marked_places(marks, n);
    assert(places.no_duplicates());
    places.lemma_multiset_has_no_duplicates();
    perm.lemma_multiset_has_no_duplicates_conv();
    perm.to_multiset_ensures();
    places.to_multiset_ensures();
    assert(perm.len() == places.len());
    assert forall|i: int| 0 <= i < perm.len() implies (#[trigger] perm[i]) < n && marks[perm[i] as int] by {
        assert(perm.contains(perm[i]));
        assert(perm.to_multiset().count(perm[i]) > 0);
        assert(places.contains(perm[i]));
        let j = choose|j: int| 0 <= j < places.len() && places[j] == perm[i];
        assert(places[j] < n);
    }
    assert forall|k: int| 0 <= k < n && marks[k] implies 0 <= rank(marks, k) < perm.len() by {
        assert(places[rank(marks, k)] == k);
    }
    assert forall|j: int, k: int| 0 <= j < n && 0 <= k < n && j != k implies order[j] != order[k] by {
        if marks[j] && marks[k] {
            assert(places[rank(marks, j)] == j);
            assert(places[rank(marks, k)] == k);
            assert(rank(marks, j) != rank(marks, k));
        } else if marks[j] {
            assert(marks[perm[rank(marks, j)] as int]);
        } else if marks[k] {
            assert(marks[perm[rank(marks, k)] as int]);
        }
    }
    assert forall|k: int| 0 <= k < order.len() implies (#[trigger] order[k]) < marks.len() by {
        if marks[k] {
            assert(perm[rank(marks, k)] < n);
        }
    }
    assert forall|k: int| 0 <= k < order.len() && marks[k] implies marks[(#[trigger] order[k]) as int] by {
        assert(marks[perm[rank(marks, k)] as int]);
    }
}

/// The marked places of a block, in ascending order.
pub fn marked_indices(marks: &Vec<bool>) -> (places: Vec<usize>)
    ensures
        places@ == marked_places(marks@, marks@.len() as int),
{
    let mut places: Vec<usize> = Vec::new();
    let mut i: usize = 0;
    while i < marks.len()
        invariant
            i <= marks@.len(),
            places@ == marked_places(marks@, i as int),
        decreases marks@.len() - i,
    {
        if marks[i] {
            places.push(i);
        }
        i = i + 1;
    }
    places
}

/// The order that a permutation of the marked places gives.
pub fn order_from(marks: &Vec<bool>, perm: &Vec<usize>) -> (order: Vec<usize>)
    requires
        perm@.to_multiset() == marked_places(marks@, marks@.len() as int).to_multiset(),
    ensures
        order@ == order_of(marks@, perm@),
        is_order(marks@, order@),
{
    let n = marks.len();
    proof {
        lemma_order_of(marks@, perm@);
    }
    let mut order: Vec<usize> = Vec::new();
    let mut next: usize = 0;
    let mut k: usize = 0;
    while k < marks.len()
        invariant
            k <= marks@.len(),
            next == rank(marks@, k as int),
            perm@.len() == rank(marks@, marks@.len() as int),
            order@.len() == k,
            forall|j: int| 0 <= j < k ==> order@[j] == order_of(marks@, perm@)[j],
        decreases marks@.len() - k,
    {
        proof {
            lemma_rank_grows(marks@, k + 1, marks@.len() as int);
        }
        if marks[k] {
            order.push(perm[next]);
            next = next + 1;
        } else {
            order.push(k);
        }
        k = k + 1;
    }
    assert(order@ =~= order_of(marks@, perm@));
    order
}

/// An order for a block, drawn at random among those that its marks allow.
pub fn draw_order(marks: &Vec<bool>) -> (order: Vec<usize>)
    ensures
        is_order(marks@, order@),
{
    let mut perm = marked_indices(marks);
    shuffle_in_place(&mut perm);
    order_from(marks, &perm)
}

/// For each statement, whether it is marked.
fn marks_from(stmts: &Vec<Stmt>) -> (marks: Vec<bool>)
    ensures
        marks@ == marks_of(stmts_view(stmts@)),
{
    proof {
        lemma_stmts_view(stmts@);
    }
    let mut marks: Vec<bool> = Vec::new();
    let mut i: usize = 0;
    while i < stmts.len()
        invariant
            i <= stmts@.len(),
            marks@.len() == i,
            stmts_view(stmts@).len() == stmts@.len(),
            forall|j: int|
                #![trigger stmts_view(stmts@)[j]]
                0 <= j < stmts@.len() ==> stmts_view(stmts@)[j] == stmts@[j]@,
            forall|j: int| 0 <= j < i ==> marks@[j] == is_marked(stmts_view(stmts@)[j]),
        decreases stmts@.len() - i,
    {
        marks.push(contains_attribute(&stmts[i].attrs, SHUFFLE_ATTRIBUTE));
        i = i + 1;
    }
    assert(marks@ =~= marks_of(stmts_view(stmts@)));
    marks
}

/// Shuffles the blocks in each expression of a list.
fn shuffle_list(exprs: &Vec<Expr>) -> (out: Vec<Expr>)
    ensures
        shuffled_list(exprs_view(exprs@), exprs_view(out@)),
    decreases exprs,
{
    let mut out: Vec<Expr> = Vec::new();
    let mut i: usize = 0;
    while i < exprs.len()
        invariant
            i <= exprs@.len(),
            out@.len() == i,
            forall|j: int| 0 <= j < i ==> shuffled_expr(exprs@[j]@, #[trigger] out@[j]@),
        decreases exprs@.len() - i,
    {
        out.push(shuffle_expr(&exprs[i]));
        i = i + 1;
    }
    proof {
        lemma_exprs_view(exprs@);
        lemma_exprs_view(out@);
        assert forall|j: int| 0 <= j < exprs@.len() implies shuffled_expr(
            exprs_view(exprs@)[j],
            #[trigger] exprs_view(out@)[j],
        ) by {
            assert(shuffled_expr(exprs@[j]@, out@[j]@));
        }
    }
    out
}

/// Shuffles the blocks in an expression.
pub fn shuffle_expr(e: &Expr) -> (out: Expr)
    ensures
        shuffled_expr(e@, out@),
    decreases e,
{
    match e {
        Expr::Verbatim(text) => Expr::Verbatim(text.clone()),
        Expr::Lit(lit) => Expr::Lit(clone_literal(lit)),
        Expr::Macro(mac) => Expr::Macro(clone_macro(mac)),
        Expr::Block(block) => Expr::Block(shuffle_block(block)),
        Expr::Unsafe(block) => Expr::Unsafe(shuffle_block(block)),
        Expr::Named(name, value) => Expr::Named(name.clone(), Box::new(shuffle_expr(&**value))),
        Expr::Args(args) => Expr::Args(shuffle_list(args)),
        Expr::Group(kind, parts) => Expr::Group(*kind, shuffle_list(parts)),
    }
}

/// Shuffles the blocks in a `let` binding.
fn shuffle_local(local: &Local) -> (out: Local)
    ensures
        shuffled_local(local@, out@),
    decreases local,
{
    Local {
        pattern: clone_expr(&local.pattern),
        by_reference: local.by_reference,
        init: match &local.init {
            Some(init) => Some(shuffle_expr(init)),
            None => None,
        },
    }
}

/// Shuffles the blocks in a statement.
fn shuffle_kind(kind: &StmtKind) -> (out: StmtKind)
    ensures
        shuffled_kind(kind@, out@),
    decreases kind,
{
    match kind {
        StmtKind::Local(local) => StmtKind::Local(shuffle_local(local)),
        StmtKind::Item(e) => StmtKind::Item(shuffle_expr(e)),
        StmtKind::Expr(e) => StmtKind::Expr(shuffle_expr(e)),
        StmtKind::Semi(e) => StmtKind::Semi(shuffle_expr(e)),
        StmtKind::Verbatim(text) => StmtKind::Verbatim(text.clone()),
        StmtKind::Branch(branch) => StmtKind::Branch(clone_branch(branch)),
    }
}

/// Places the statements of a block under `order`, each shuffled within and without the
/// attribute.
fn place_stmts(stmts: &Vec<Stmt>, order: &Vec<usize>) -> (out: Vec<Stmt>)
    requires
        is_order(marks_of(stmts_view(stmts@)), order@),
    ensures
        placed(stmts_view(stmts@), stmts_view(out@), order@),
    decreases stmts,
{
    proof {
        lemma_stmts_view(stmts@);
    }
    let mut out: Vec<Stmt> = Vec::new();
    let mut k: usize = 0;
    while k < stmts.len()
        invariant
            k <= stmts@.len(),
            out@.len() == k,
            order@.len() == stmts@.len(),
            forall|j: int| 0 <= j < order@.len() ==> (#[trigger] order@[j]) < stmts@.len(),
            forall|j: int|
                0 <= j < k ==> (#[trigger] out@[j])@.attrs == without_attribute(
                    stmts@[order@[j] as int]@.attrs,
                    SHUFFLE_ATTRIBUTE@,
                ) && shuffled_kind(stmts@[order@[j] as int]@.kind, out@[j]@.kind),
        decreases stmts@.len() - k,
    {
        let from = order[k];
        let source = &stmts[from];
        let moved = Stmt {
            attrs: strip_attribute(&source.attrs, SHUFFLE_ATTRIBUTE),
            kind: shuffle_kind(&source.kind),
        };
        out.push(moved);
        k = k + 1;
    }
    proof {
        lemma_stmts_view(out@);
        let src = stmts_view(stmts@);
        let dst = stmts_view(out@);
        assert forall|j: int| 0 <= j < src.len() && order@[j] < src.len() implies (
        #[trigger] dst[j]).attrs == without_attribute(
            src[order@[j] as int].attrs,
            SHUFFLE_ATTRIBUTE@,
        ) && shuffled_kind(src[order@[j] as int].kind, dst[j].kind) by {
            assert(dst[j] == out@[j]@);
            assert(src[order@[j] as int] == stmts@[order@[j] as int]@);
        }
    }
    out
}

/// Shuffles a block: the marked statements change places in an order drawn at random, and
/// the blocks within the statements are shuffled in turn.
pub fn shuffle_block(block: &Block) -> (out: Block)
    ensures
        shuffled_block(block@, out@),
    decreases block,
{
    let marks = marks_from(&block.stmts);
    let order = draw_order(&marks);
    let stmts = place_stmts(&block.stmts, &order);
    let out = Block { stmts };
    assert(is_order(marks_of(block@.stmts), order@) && placed(block@.stmts, out@.stmts, order@));
    out
}

/// Shuffles every block of a file. Items keep their places and their attributes.
pub fn shuffle(input: &File) -> (out: File)
    ensures
        shuffled_file(input@, out@),
{
    proof {
        lemma_stmts_view(input.items@);
    }
    let mut items: Vec<Stmt> = Vec::new();
    let mut i: usize = 0;
    while i < input.items.len()
        invariant
            i <= input.items@.len(),
            items@.len() == i,
            forall|j: int|
                0 <= j < i ==> (#[trigger] items@[j])@.attrs == input.items@[j]@.attrs
                    && shuffled_kind(input.items@[j]@.kind, items@[j]@.kind),
        decreases input.items@.len() - i,
    {
        let item = &input.items[i];
        items.push(Stmt { attrs: clone_attrs(&item.attrs), kind: shuffle_kind(&item.kind) });
        i = i + 1;
    }
    proof {
        lemma_stmts_view(items@);
        let src = stmts_view(input.items@);
        let dst = stmts_view(items@);
        assert forall|j: int| 0 <= j < src.len() implies (#[trigger] dst[j]).attrs == src[j].attrs
            && shuffled_kind(src[j].kind, dst[j].kind) by {
            assert(dst[j] == items@[j]@);
            assert(src[j] == input.items@[j]@);
        }
    }
    File { items }
}

/// True where no statement of any block in an expression is marked.
pub open spec fn unmarked_expr(e: ExprView) -> bool
    decreases e,
{
    match e {
        ExprView::Verbatim(_) => true,
        ExprView::Lit(_) => true,
        ExprView::Macro(_) => true,
        ExprView::Block(block) => unmarked_stmts(block.stmts),
        ExprView::Unsafe(block) => unmarked_stmts(block.stmts),
        ExprView::Named(_, value) => unmarked_expr(*value),
        ExprView::Args(args) => unmarked_list(args),
        ExprView::Group(_, parts) => unmarked_list(parts),
    }
}

/// True where no statement of any block in a list of expressions is marked.
pub open spec fn unmarked_list(exprs: Seq<ExprView>) -> bool
    decreases exprs,
{
    forall|i: int| 0 <= i < exprs.len() ==> unmarked_expr(#[trigger] exprs[i])
}

/// True where no statement of any block in a statement is marked.
pub open spec fn unmarked_kind(kind: StmtKindView) -> bool
    decreases kind,
{
    match kind {
        StmtKindView::Local(local) => match local.init {
            Some(init) => unmarked_expr(init),
            None => true,
        },
        StmtKindView::Item(e) => unmarked_expr(e),
        StmtKindView::Expr(e) => unmarked_expr(e),
        StmtKindView::Semi(e) => unmarked_expr(e),
        StmtKindView::Verbatim(_) => true,
        StmtKindView::Branch(_) => true,
    }
}

/// True where none of the statements is marked, nor any statement of a block within them.
pub open spec fn unmarked_stmts(stmts: Seq<StmtView>) -> bool
    decreases stmts,
{
    forall|i: int|
        0 <= i < stmts.len() ==> !is_marked(#[trigger] stmts[i]) && unmarked_kind(stmts[i].kind)
}

/// True where no statement of any block in a file is marked.
pub open spec fn unmarked_file(file: FileView) -> bool {
    forall|i: int| 0 <= i < file.items.len() ==> unmarked_kind((#[trigger] file.items[i]).kind)
}

/// The pass keeps an expression in which nothing is marked.
pub proof fn lemma_unmarked_expr_kept(src: ExprView, dst: ExprView)
    requires
        unmarked_expr(src),
        shuffled_expr(src, dst),
    ensures
        dst == src,
    decreases src,
{
    match src {
        ExprView::Block(block) => {
            lemma_unmarked_stmts_kept(block.stmts, dst->Block_0.stmts);
        },
        ExprView::Unsafe(block) => {
            lemma_unmarked_stmts_kept(block.stmts, dst->Unsafe_0.stmts);
        },
        ExprView::Named(_, value) => {
            lemma_unmarked_expr_kept(*value, *dst->Named_1);
        },
        ExprView::Args(args) => {
            lemma_unmarked_list_kept(args, dst->Args_0);
        },
        ExprView::Group(_, parts) => {
            lemma_unmarked_list_kept(parts, dst->Group_1);
        },
        _ => {},
    }
}

/// The pass keeps a list of expressions in which nothing is marked.
pub proof fn lemma_unmarked_list_kept(src: Seq<ExprView>, dst: Seq<ExprView>)
    requires
        unmarked_list(src),
        shuffled_list(src, dst),
    ensures
        dst == src,
    decreases src,
{
    assert forall|i: int| 0 <= i < src.len() implies dst[i] == src[i] by {
        lemma_unmarked_expr_kept(src[i], dst[i]);
    }
    assert(dst =~= src);
}

/// The pass keeps a statement in which nothing is marked.
pub proof fn lemma_unmarked_kind_kept(src: StmtKindView, dst: StmtKindView)
    requires
        unmarked_kind(src),
        shuffled_kind(src, dst),
    ensures
        dst == src,
    decreases src,
{
    match src {
        StmtKindView::Local(local) => {
            match local.init {
                Some(init) => {
                    lemma_unmarked_expr_kept(init, dst->Local_0.init->0);
                },
                None => {},
            }
        },
        StmtKindView::Item(e) => {
            lemma_unmarked_expr_kept(e, dst->Item_0);
        },
        StmtKindView::Expr(e) => {
            lemma_unmarked_expr_kept(e, dst->Expr_0);
        },
        StmtKindView::Semi(e) => {
            lemma_unmarked_expr_kept(e, dst->Semi_0);
        },
        StmtKindView::Verbatim(_) => {},
        StmtKindView::Branch(_) => {},
    }
}

/// The pass keeps the statements of a block in which nothing is marked.
pub proof fn lemma_unmarked_stmts_kept(src: Seq<StmtView>, dst: Seq<StmtView>)
    requires
        unmarked_stmts(src),
        shuffled_block(BlockView { stmts: src }, BlockView { stmts: dst }),
    ensures
        dst == src,
    decreases src,
{
    let order = choose|order: Seq<usize>| #[trigger]
        is_order(marks_of(src), order) && placed(src, dst, order);
    assert forall|k: int| 0 <= k < src.len() implies dst[k] == src[k] by {
        assert(!marks_of(src)[k]);
        assert(order[k] == k);
        lemma_without_absent(src[k].attrs, SHUFFLE_ATTRIBUTE@);
        lemma_unmarked_kind_kept(src[k].kind, dst[k].kind);
    }
    assert(dst =~= src);
}

/// The pass changes nothing in a program without the attribute: what it makes of a file in
/// which no statement is marked is that file, so that a second run changes nothing either.
pub proof fn lemma_unmarked_file_kept(src: FileView, dst: FileView)
    requires
        unmarked_file(src),
        shuffled_file(src, dst),
    ensures
        dst == src,
{
    assert forall|i: int| 0 <= i < src.items.len() implies dst.items[i] == src.items[i] by {
        lemma_unmarked_kind_kept(src.items[i].kind, dst.items[i].kind);
    }
    assert(dst.items =~= src.items);
}

/// The pass leaves an empty block empty.
pub proof fn lemma_empty_block_kept(dst: BlockView)
    requires
        shuffled_block(BlockView { stmts: Seq::empty() }, dst),
    ensures
        dst == (BlockView { stmts: Seq::empty() }),
{
    lemma_unmarked_stmts_kept(Seq::empty(), dst.stmts);
}

} // verus!
