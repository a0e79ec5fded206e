//! The walk of the shatter pass over blocks and statements.

use vstd::prelude::*;
use crate::ast::AttributeView;
use crate::ast::attrs_view;
use crate::ast::Block;
use crate::ast::Branch;
use crate::ast::BranchView;
use crate::ast::clone_attrs;
use crate::ast::clone_branch;
use crate::ast::clone_expr;
use crate::ast::clone_exprs;
use crate::ast::clone_literal;
use crate::ast::clone_macro;
use crate::ast::clone_stmt;
use crate::ast::Expr;
use crate::ast::exprs_view;
use crate::ast::ExprView;
use crate::ast::GroupKind;
use crate::ast::is_sealed;
use crate::ast::lemma_exprs_view;
use crate::ast::lemma_exprs_view_push;
use crate::ast::lemma_stmts_view;
use crate::ast::Local;
use crate::ast::seals;
use crate::ast::Stmt;
use crate::ast::StmtKind;
use crate::ast::StmtKindView;
use crate::ast::stmts_view;
use crate::ast::StmtView;
use crate::random::random_in_range;
use crate::shatter::assertion::assert_kind;
use crate::shatter::assertion::assert_kind_of;
use crate::shatter::assertion::AssertKind;
use crate::shatter::assertion::failure_condition;
use crate::shatter::assertion::is_guard;
use crate::shatter::condition::is_branch_condition;
use crate::shatter::condition::with_record;
use crate::shatter::IntegrityCheck;
use crate::shatter::Settings;
use crate::shatter::SettingsView;
use crate::shatter::Shatter;
use crate::shatter::ShatterConditionView;
use crate::shatter::ShatterType;
use crate::shatter::trap::is_static_trap;

verus! {

/// True for the branches that the pass generates at a place that is inside an `unsafe`
/// block or not.
pub open spec fn is_generated_branch(branch: BranchView, inside_unsafe: bool, settings: SettingsView) -> bool {
    &&& is_branch_condition(
        ShatterConditionView { setup: branch.setup, check: branch.check },
        branch.record,
        settings,
    )
    &&& is_static_trap(branch.body, inside_unsafe, settings.catalogue)
}

/// What the pass does at a statement.
#[derive(Debug, Clone, Copy, PartialEq, Eq, Structural)]
pub enum Action {
    /// The statement stays, and nothing follows it.
    Keep,
    /// The statement stays, and a branch may follow it.
    Append,
    /// The statement is an assertion and becomes a guarded rabbit hole.
    Convert(AssertKind),
}

/// True for the names of the macros behind which nothing is reached.
pub open spec fn is_diverging(name: Seq<char>) -> bool {
    name == "compile_error"@ || name == "panic"@ || name == "unreachable"@ || name
        == "unimplemented"@
}

/// What the pass does at a statement of the given form. A branch may follow a `let`
/// binding, an item, and an expression with a semicolon unless it is a jump, a macro behind
/// which nothing is reached, or an assertion, which is converted.
pub open spec fn action_at(kind: StmtKindView) -> Action {
    match kind {
        StmtKindView::Local(_) => Action::Append,
        StmtKindView::Item(_) => Action::Append,
        StmtKindView::Expr(_) => Action::Keep,
        StmtKindView::Semi(ExprView::Group(GroupKind::Jump, _)) => Action::Keep,
        StmtKindView::Semi(ExprView::Macro(mac)) => if is_diverging(mac.name) {
            Action::Keep
        } else {
            match assert_kind(mac.name) {
                Some(kind) => Action::Convert(kind),
                None => Action::Append,
            }
        },
        StmtKindView::Semi(_) => Action::Append,
        StmtKindView::Verbatim(_) => Action::Keep,
        StmtKindView::Branch(_) => Action::Keep,
    }
}

/// True where an `unsafe` block is among what the pass goes through in an expression.
pub open spec fn has_unsafe_expr(e: ExprView) -> bool
    decreases e,
{
    match e {
        ExprView::Verbatim(_) => false,
        ExprView::Lit(_) => false,
        ExprView::Macro(_) => false,
        ExprView::Block(block) => has_unsafe_stmts(block.stmts),
        ExprView::Unsafe(_) => true,
        ExprView::Named(_, value) => has_unsafe_expr(*value),
        ExprView::Args(args) => has_unsafe_list(args),
        ExprView::Group(kind, parts) => !is_sealed(kind) && has_unsafe_list(parts),
    }
}

/// True where an `unsafe` block is among what the pass goes through in a list of
/// expressions.
pub open spec fn has_unsafe_list(exprs: Seq<ExprView>) -> bool
    decreases exprs,
{
    exprs.len() > 0 && (has_unsafe_list(exprs.drop_last()) || has_unsafe_expr(exprs.last()))
}

/// True where an `unsafe` block is among what the pass goes through in a statement.
pub open spec fn has_unsafe_kind(kind: StmtKindView) -> bool
    decreases kind,
{
    match kind {
        StmtKindView::Local(local) => match local.init {
            Some(init) => has_unsafe_expr(init),
            None => false,
        },
        StmtKindView::Item(e) => has_unsafe_expr(e),
        StmtKindView::Expr(e) => has_unsafe_expr(e),
        StmtKindView::Semi(e) => has_unsafe_expr(e),
        StmtKindView::Verbatim(_) => false,
        StmtKindView::Branch(_) => false,
    }
}

/// True where an `unsafe` block is among what the pass goes through in a list of
/// statements. The arguments of an assertion that is converted are not gone through.
pub open spec fn has_unsafe_stmts(stmts: Seq<StmtView>) -> bool
    decreases stmts,
{
    stmts.len() > 0 && (has_unsafe_stmts(stmts.drop_last()) || has_unsafe_kind(
        stmts.last().kind,
    ))
}

/// How many statements stand for the last statement of a block in what the pass has made of
/// the block: two where a branch follows it, else one.
pub open spec fn piece_len(last: StmtView, dst: Seq<StmtView>) -> int {
    if action_at(last.kind) == Action::Append && dst.len() > 0 && dst.last().kind is Branch {
        2
    } else {
        1
    }
}

/// What the pass makes of an expression that it meets while the flag for `unsafe` blocks
/// is `inside`. An `unsafe` block raises the flag for its statements. What is in a constant,
/// a type or a pattern stays as it is.
pub open spec fn shattered_expr(src: ExprView, dst: ExprView, inside: bool, settings: SettingsView) -> bool
    decreases src,
{
    match src {
        ExprView::Verbatim(_) => dst == src,
        ExprView::Lit(_) => dst == src,
        ExprView::Macro(_) => dst == src,
        ExprView::Block(block) => dst is Block && shattered_stmts(
            block.stmts,
            dst->Block_0.stmts,
            inside,
            settings,
        ),
        ExprView::Unsafe(block) => dst is Unsafe && shattered_stmts(
            block.stmts,
            dst->Unsafe_0.stmts,
            true,
            settings,
        ),
        ExprView::Named(name, value) => dst is Named && dst->Named_0 == name && shattered_expr(
            *value,
            *dst->Named_1,
            inside,
            settings,
        ),
        ExprView::Args(args) => dst is Args && shattered_list(args, dst->Args_0, inside, settings),
        ExprView::Group(kind, parts) => if is_sealed(kind) {
            dst == src
        } else {
            dst is Group && dst->Group_0 == kind && shattered_list(
                parts,
                dst->Group_1,
                inside,
                settings,
            )
        },
    }
}

/// What the pass makes of a list of expressions. The flag is lowered behind the first
/// expression that holds an `unsafe` block.
pub open spec fn shattered_list(src: Seq<ExprView>, dst: Seq<ExprView>, inside: bool, settings: SettingsView) -> bool
    decreases src,
{
    &&& dst.len() == src.len()
    &&& src.len() > 0 ==> {
        &&& shattered_list(src.drop_last(), dst.drop_last(), inside, settings)
        &&& shattered_expr(
            src.last(),
            dst.last(),
            inside && !has_unsafe_list(src.drop_last()),
            settings,
        )
    }
}

/// What the pass makes of a statement, attributes apart.
pub open spec fn shattered_kind(src: StmtKindView, dst: StmtKindView, inside: bool, settings: SettingsView) -> bool
    decreases src,
{
    match src {
        StmtKindView::Local(local) => {
            &&& dst is Local
            &&& dst->Local_0.pattern == local.pattern
            &&& dst->Local_0.by_reference == local.by_reference
            &&& match local.init {
                Some(init) => dst->Local_0.init is Some && shattered_expr(
                    init,
                    dst->Local_0.init->0,
                    inside,
                    settings,
                ),
                None => dst->Local_0.init is None,
            }
        },
        StmtKindView::Item(e) => dst is Item && shattered_expr(e, dst->Item_0, inside, settings),
        StmtKindView::Expr(e) => dst is Expr && shattered_expr(e, dst->Expr_0, inside, settings),
        StmtKindView::Semi(e) => dst is Semi && shattered_expr(e, dst->Semi_0, inside, settings),
        StmtKindView::Verbatim(_) => dst == src,
        StmtKindView::Branch(_) => dst == src,
    }
}

/// What the pass makes of one statement of a block: the statement, shattered within; behind
/// it a generated branch where one may follow and the draw says so; or, for an assertion,
/// the guarded rabbit hole in its place. An assertion whose arguments are malformed stays.
pub open spec fn shattered_piece(src: StmtView, piece: Seq<StmtView>, inside: bool, settings: SettingsView) -> bool
    decreases src, 0nat,
{
    match action_at(src.kind) {
        Action::Keep => {
            &&& piece.len() == 1
            &&& piece[0].attrs == src.attrs
            &&& shattered_kind(src.kind, piece[0].kind, inside, settings)
        },
        Action::Convert(kind) => {
            &&& piece.len() == 1
            &&& match failure_condition(kind, src.kind->Semi_0->Macro_0.body) {
                Some(condition) => is_guard(piece[0], condition, inside),
                None => piece[0] == src,
            }
        },
        Action::Append => {
            &&& 1 <= piece.len() <= 2
            &&& piece[0].attrs == src.attrs
            &&& shattered_kind(src.kind, piece[0].kind, inside, settings)
            &&& settings.inject_percent >= 100 ==> piece.len() == 2
            &&& settings.inject_percent == 0 ==> piece.len() == 1
            &&& piece.len() == 2 ==> {
                &&& piece[1].attrs.len() == 0
                &&& piece[1].kind is Branch
                &&& is_generated_branch(piece[1].kind->Branch_0, inside, settings)
            }
        },
    }
}

/// What the pass makes of the statements of a block: the pieces that it makes of each, one
/// behind the other. The flag is lowered behind the first statement that holds an `unsafe`
/// block.
pub open spec fn shattered_stmts(src: Seq<StmtView>, dst: Seq<StmtView>, inside: bool, settings: SettingsView) -> bool
    decreases src, 1nat,
{
    if src.len() == 0 {
        dst.len() == 0
    } else {
        let n = piece_len(src.last(), dst);
        &&& dst.len() >= n
        &&& shattered_stmts(src.drop_last(), dst.take(dst.len() - n), inside, settings)
        &&& shattered_piece(
            src.last(),
            dst.skip(dst.len() - n),
            inside && !has_unsafe_stmts(src.drop_last()),
            settings,
        )
    }
}

/// What the pass makes of the items of a file: each keeps its place and its attributes and
/// is shattered within. No branch goes between items.
pub open spec fn shattered_items(src: Seq<StmtView>, dst: Seq<StmtView>, settings: SettingsView) -> bool {
    &&& dst.len() == src.len()
    &&& forall|i: int|
        0 <= i < src.len() ==> (#[trigger] dst[i]).attrs == src[i].attrs && shattered_kind(
            src[i].kind,
            dst[i].kind,
            false,
            settings,
        )
}

/// The records of the integrity probes that the pass has put into an expression, in the
/// order in which it made them.
pub open spec fn added_expr(src: ExprView, dst: ExprView) -> Seq<IntegrityCheck>
    decreases src,
{
    match src {
        ExprView::Block(block) => if dst is Block {
            added_stmts(block.stmts, dst->Block_0.stmts)
        } else {
            Seq::empty()
        },
        ExprView::Unsafe(block) => if dst is Unsafe {
            added_stmts(block.stmts, dst->Unsafe_0.stmts)
        } else {
            Seq::empty()
        },
        ExprView::Named(_, value) => if dst is Named {
            added_expr(*value, *dst->Named_1)
        } else {
            Seq::empty()
        },
        ExprView::Args(args) => if dst is Args {
            added_list(args, dst->Args_0)
        } else {
            Seq::empty()
        },
        ExprView::Group(kind, parts) => if dst is Group && !is_sealed(kind) {
            added_list(parts, dst->Group_1)
        } else {
            Seq::empty()
        },
        _ => Seq::empty(),
    }
}

/// The records of the integrity probes that the pass has put into a list of expressions.
pub open spec fn added_list(src: Seq<ExprView>, dst: Seq<ExprView>) -> Seq<IntegrityCheck>
    decreases src,
{
    if src.len() == 0 || dst.len() == 0 {
        Seq::empty()
    } else {
        added_list(src.drop_last(), dst.drop_last()) + added_expr(src.last(), dst.last())
    }
}

/// The records of the integrity probes that the pass has put into a statement.
pub open spec fn added_kind(src: StmtKindView, dst: StmtKindView) -> Seq<IntegrityCheck>
    decreases src,
{
    match src {
        StmtKindView::Local(local) => match local.init {
            Some(init) => if dst is Local && dst->Local_0.init is Some {
                added_expr(init, dst->Local_0.init->0)
            } else {
                Seq::empty()
            },
            None => Seq::empty(),
        },
        StmtKindView::Item(e) => if dst is Item {
            added_expr(e, dst->Item_0)
        } else {
            Seq::empty()
        },
        StmtKindView::Expr(e) => if dst is Expr {
            added_expr(e, dst->Expr_0)
        } else {
            Seq::empty()
        },
        StmtKindView::Semi(e) => if dst is Semi {
            added_expr(e, dst->Semi_0)
        } else {
            Seq::empty()
        },
        _ => Seq::empty(),
    }
}

/// The records of the integrity probes that the pass has made for one statement of a block:
/// that of the branch behind it, which is made first, and those within the statement.
pub open spec fn added_piece(src: StmtView, piece: Seq<StmtView>) -> Seq<IntegrityCheck>
    decreases src, 0nat,
{
    if piece.len() == 0 {
        Seq::empty()
    } else {
        match action_at(src.kind) {
            Action::Keep => added_kind(src.kind, piece[0].kind),
            Action::Convert(_) => Seq::empty(),
            Action::Append => (if piece.len() == 2 && piece[1].kind is Branch {
                with_record(Seq::empty(), piece[1].kind->Branch_0.record)
            } else {
                Seq::empty()
            }) + added_kind(src.kind, piece[0].kind),
        }
    }
}

/// The records of the integrity probes that the pass has put into a block.
pub open spec fn added_stmts(src: Seq<StmtView>, dst: Seq<StmtView>) -> Seq<IntegrityCheck>
    decreases src, 1nat,
{
    if src.len() == 0 {
        Seq::empty()
    } else {
        let n = piece_len(src.last(), dst);
        if dst.len() >= n {
            added_stmts(src.drop_last(), dst.take(dst.len() - n)) + added_piece(
                src.last(),
                dst.skip(dst.len() - n),
            )
        } else {
            Seq::empty()
        }
    }
}

/// The records of the integrity probes that the pass has put into the items of a file.
pub open spec fn added_items(src: Seq<StmtView>, dst: Seq<StmtView>) -> Seq<IntegrityCheck>
    decreases src,
{
    if src.len() == 0 || dst.len() == 0 {
        Seq::empty()
    } else {
        added_items(src.drop_last(), dst.drop_last()) + added_kind(src.last().kind, dst.last().kind)
    }
}

/// Tells whether nothing is reached behind the macro of this name.
pub fn diverges(name: &String) -> (yes: bool)
    ensures
        yes == is_diverging(name@),
{
    *name == "compile_error".to_owned() || *name == "panic".to_owned() || *name
        == "unreachable".to_owned() || *name == "unimplemented".to_owned()
}

/// What the pass does at a statement of the given form.
pub fn action_of(kind: &StmtKind) -> (action: Action)
    ensures
        action == action_at(kind@),
{
    match kind {
        StmtKind::Local(_) => Action::Append,
        StmtKind::Item(_) => Action::Append,
        StmtKind::Expr(_) => Action::Keep,
        StmtKind::Semi(e) => match e {
            Expr::Group(GroupKind::Jump, _) => Action::Keep,
            Expr::Macro(mac) => {
                if diverges(&mac.name) {
                    Action::Keep
                } else {
                    match assert_kind_of(&mac.name) {
                        Some(kind) => Action::Convert(kind),
                        None => Action::Append,
                    }
                }
            },
            _ => Action::Append,
        },
        StmtKind::Verbatim(_) => Action::Keep,
        StmtKind::Branch(_) => Action::Keep,
    }
}

/// The number below which draws are made for the places where a branch may go.
pub const DRAW_BOUND: usize = 100;

/// Whether a branch goes to a place, by the share of places that get one and a number
/// drawn below a hundred: it does where the draw is below the share.
pub open spec fn injects(percent: u8, draw: usize) -> bool {
    draw < percent
}

/// Whether a branch goes to a place, by the share and the number drawn.
pub fn decides_injection(percent: u8, draw: usize) -> (inject: bool)
    ensures
        inject == injects(percent, draw),
{
    draw < percent as usize
}

/// Says whether a branch goes to a place where one may go, by a draw below a hundred: always
/// where the share is a hundred, never where it is nought.
fn draws_injection(percent: u8) -> (inject: bool)
    ensures
        exists|draw: usize| draw < DRAW_BOUND && inject == #[trigger] injects(percent, draw),
        percent >= 100 ==> inject,
        percent == 0 ==> !inject,
{
    let draw = random_in_range(0, DRAW_BOUND);
    let inject = decides_injection(percent, draw);
    assert(inject == injects(percent, draw));
    inject
}

/// One more statement of a block: what the pass has made of the statements before it, with
/// the piece for the statement behind, is what the pass makes of the longer block; and the
/// records and the flag go on accordingly.
pub proof fn lemma_next_piece(
    before: Seq<StmtView>,
    stmt: StmtView,
    dst: Seq<StmtView>,
    piece: Seq<StmtView>,
    inside: bool,
    settings: SettingsView,
)
    requires
        shattered_stmts(before, dst, inside, settings),
        shattered_piece(stmt, piece, inside && !has_unsafe_stmts(before), settings),
    ensures
        shattered_stmts(before.push(stmt), dst + piece, inside, settings),
        added_stmts(before.push(stmt), dst + piece) == added_stmts(before, dst) + added_piece(
            stmt,
            piece,
        ),
        has_unsafe_stmts(before.push(stmt)) == (has_unsafe_stmts(before) || has_unsafe_kind(
            stmt.kind,
        )),
{
    let all = before.push(stmt);
    let out = dst + piece;
    assert(all.drop_last() =~= before);
    assert(all.last() == stmt);
    let n = piece_len(stmt, out);
    assert(piece.len() >= 1);
    assert(out.last() == piece.last());
    assert(n == piece.len()) by {
        match action_at(stmt.kind) {
            Action::Append => {
                if piece.len() == 1 {
                    assert(shattered_kind(
                        stmt.kind,
                        piece[0].kind,
                        inside && !has_unsafe_stmts(before),
                        settings,
                    ));
                    assert(!(piece[0].kind is Branch));
                }
            },
            _ => {},
        }
    }
    assert(out.take(out.len() - n) =~= dst);
    assert(out.skip(out.len() - n) =~= piece);
}

/// The pass leaves an empty block empty and makes no record for it.
pub proof fn lemma_empty_block_kept(dst: Seq<StmtView>, inside: bool, settings: SettingsView)
    requires
        shattered_stmts(Seq::empty(), dst, inside, settings),
    ensures
        dst == Seq::<StmtView>::empty(),
        added_stmts(Seq::empty(), dst) == Seq::<IntegrityCheck>::empty(),
{
    assert(dst =~= Seq::<StmtView>::empty());
}

/// An assertion inside an `unsafe` block is not wrapped a second time: where the pass goes
/// through the statements of a block with the flag up, and no `unsafe` block stands before
/// the last statement, an assertion that stands last becomes an `if` on its failure whose
/// body holds the rabbit hole in a plain block.
pub proof fn lemma_assert_inside_unsafe(
    src: Seq<StmtView>,
    dst: Seq<StmtView>,
    kind: AssertKind,
    settings: SettingsView,
)
    requires
        src.len() > 0,
        action_at(src.last().kind) == Action::Convert(kind),
        failure_condition(kind, src.last().kind->Semi_0->Macro_0.body) is Some,
        !has_unsafe_stmts(src.drop_last()),
        shattered_stmts(src, dst, true, settings),
    ensures
        dst.len() > 0,
        is_guard(
            dst.last(),
            failure_condition(kind, src.last().kind->Semi_0->Macro_0.body)->0,
            true,
        ),
{
    let n = piece_len(src.last(), dst);
    let piece = dst.skip(dst.len() - n);
    assert(shattered_piece(src.last(), piece, true, settings));
    assert(piece[0] == dst.last());
}

impl Shatter {
    /// A branch to go behind a statement: a condition of a kind chosen at random and a static
    /// rabbit hole as the body.
    pub fn inject_branch(&mut self, settings: &Settings) -> (branch: Branch)
        ensures
            is_generated_branch(branch@, old(self).inside_unsafe_block, settings@),
            final(self).integrity_checks@ == with_record(
                old(self).integrity_checks@,
                branch@.record,
            ),
            final(self).inside_unsafe_block == old(self).inside_unsafe_block,
    {
        let (cond, record) = self.generate_branch_condition(settings);
        let body = self.generate_shatter_statement(ShatterType::STATIC, settings);
        let ghost view = cond@;
        let branch = Branch { setup: cond.setup, check: cond.check, record, body };
        assert(ShatterConditionView { setup: branch@.setup, check: branch@.check } == view);
        branch
    }

    /// Shatters each expression of a list in turn.
    fn shatter_list(&mut self, exprs: &Vec<Expr>, settings: &Settings) -> (out: Vec<Expr>)
        ensures
            shattered_list(
                exprs_view(exprs@),
                exprs_view(out@),
                old(self).inside_unsafe_block,
                settings@,
            ),
            final(self).inside_unsafe_block == (old(self).inside_unsafe_block && !has_unsafe_list(
                exprs_view(exprs@),
            )),
            final(self).integrity_checks@ == old(self).integrity_checks@ + added_list(
                exprs_view(exprs@),
                exprs_view(out@),
            ),
        decreases exprs,
    {
        let ghost inside = self.inside_unsafe_block;
        let ghost checks = self.integrity_checks@;
        let ghost src = exprs_view(exprs@);
        proof {
            lemma_exprs_view(exprs@);
        }
        let mut out: Vec<Expr> = Vec::new();
        let mut i: usize = 0;
        assert(src.take(0) =~= Seq::<ExprView>::empty());
        assert(exprs_view(out@) =~= Seq::<ExprView>::empty());
        while i < exprs.len()
            invariant
                i <= exprs@.len(),
                src == exprs_view(exprs@),
                src.len() == exprs@.len(),
                forall|j: int| #![trigger src[j]] 0 <= j < exprs@.len() ==> src[j] == exprs@[j]@,
                shattered_list(src.take(i as int), exprs_view(out@), inside, settings@),
                self.inside_unsafe_block == (inside && !has_unsafe_list(src.take(i as int))),
                self.integrity_checks@ == checks + added_list(
                    src.take(i as int),
                    exprs_view(out@),
                ),
            decreases exprs@.len() - i,
        {
            let ghost before = exprs_view(out@);
            let e = self.shatter_expr(&exprs[i], settings);
            proof {
                lemma_exprs_view_push(out@, e);
                let next = src.take(i + 1);
                assert(next.drop_last() =~= src.take(i as int));
                assert(next.last() == exprs@[i as int]@);
                let after = before.push(e@);
                assert(after.drop_last() =~= before);
                assert(after.last() == e@);
                assert(shattered_list(next, after, inside, settings@));
                assert(added_list(next, after) == added_list(src.take(i as int), before)
                    + added_expr(exprs@[i as int]@, e@));
                assert(self.integrity_checks@ =~= checks + added_list(next, after));
            }
            out.push(e);
            i = i + 1;
        }
        assert(src.take(exprs@.len() as int) =~= src);
        out
    }

    /// Shatters the blocks in an expression.
    pub fn shatter_expr(&mut self, e: &Expr, settings: &Settings) -> (out: Expr)
        ensures
            shattered_expr(e@, out@, old(self).inside_unsafe_block, settings@),
            final(self).inside_unsafe_block == (old(self).inside_unsafe_block && !has_unsafe_expr(
                e@,
            )),
            final(self).integrity_checks@ == old(self).integrity_checks@ + added_expr(e@, out@),
        decreases e,
    {
        match e {
            Expr::Verbatim(text) => Expr::Verbatim(text.clone()),
            Expr::Lit(lit) => Expr::Lit(clone_literal(lit)),
            Expr::Macro(mac) => Expr::Macro(clone_macro(mac)),
            Expr::Block(block) => {
                let stmts = self.shatter_stmts(&block.stmts, settings);
                let inner = Block { stmts };
                assert(inner@.stmts == stmts_view(inner.stmts@));
                assert(block@.stmts == stmts_view(block.stmts@));
                Expr::Block(inner)
            },
            Expr::Unsafe(block) => {
                self.inside_unsafe_block = true;
                let stmts = self.shatter_stmts(&block.stmts, settings);
                self.inside_unsafe_block = false;
                let inner = Block { stmts };
                assert(inner@.stmts == stmts_view(inner.stmts@));
                assert(block@.stmts == stmts_view(block.stmts@));
                Expr::Unsafe(inner)
            },
            Expr::Named(name, value) => {
                let inner = self.shatter_expr(&**value, settings);
                Expr::Named(name.clone(), Box::new(inner))
            },
            Expr::Args(args) => Expr::Args(self.shatter_list(args, settings)),
            Expr::Group(kind, parts) => {
                if seals(*kind) {
                    Expr::Group(*kind, clone_exprs(parts))
                } else {
                    Expr::Group(*kind, self.shatter_list(parts, settings))
                }
            },
        }
    }

    /// Shatters the blocks in a statement.
    pub fn shatter_kind(&mut self, kind: &StmtKind, settings: &Settings) -> (out: StmtKind)
        ensures
            shattered_kind(kind@, out@, old(self).inside_unsafe_block, settings@),
            final(self).inside_unsafe_block == (old(self).inside_unsafe_block && !has_unsafe_kind(
                kind@,
            )),
            final(self).integrity_checks@ == old(self).integrity_checks@ + added_kind(
                kind@,
                out@,
            ),
        decreases kind,
    {
        match kind {
            StmtKind::Local(local) => {
                let init = match &local.init {
                    Some(init) => Some(self.shatter_expr(init, settings)),
                    None => None,
                };
                let out = Local {
                    pattern: clone_expr(&local.pattern),
                    by_reference: local.by_reference,
                    init,
                };
                assert(local@.init == match local.init {
                    Some(e) => Some(e@),
                    None => None,
                });
                assert(out@.pattern == local@.pattern);
                StmtKind::Local(out)
            },
            StmtKind::Item(e) => StmtKind::Item(self.shatter_expr(e, settings)),
            StmtKind::Expr(e) => StmtKind::Expr(self.shatter_expr(e, settings)),
            StmtKind::Semi(e) => StmtKind::Semi(self.shatter_expr(e, settings)),
            StmtKind::Verbatim(text) => StmtKind::Verbatim(text.clone()),
            StmtKind::Branch(branch) => StmtKind::Branch(clone_branch(branch)),
        }
    }

    /// What the pass makes of one statement of a block.
    fn shatter_piece(&mut self, stmt: &Stmt, settings: &Settings) -> (piece: Vec<Stmt>)
        ensures
            shattered_piece(stmt@, stmts_view(piece@), old(self).inside_unsafe_block, settings@),
            final(self).inside_unsafe_block == (old(self).inside_unsafe_block && !has_unsafe_kind(
                stmt@.kind,
            )),
            final(self).integrity_checks@ == old(self).integrity_checks@ + added_piece(
                stmt@,
                stmts_view(piece@),
            ),
        decreases stmt,
    {
        let ghost checks = self.integrity_checks@;
        let mut piece: Vec<Stmt> = Vec::new();
        match action_of(&stmt.kind) {
            Action::Keep => {
                let kind = self.shatter_kind(&stmt.kind, settings);
                piece.push(Stmt { attrs: clone_attrs(&stmt.attrs), kind });
                proof {
                    lemma_stmts_view(piece@);
                    assert(self.integrity_checks@ =~= checks + added_piece(
                        stmt@,
                        stmts_view(piece@),
                    ));
                }
            },
            Action::Convert(kind) => {
                let converted = match &stmt.kind {
                    StmtKind::Semi(Expr::Macro(mac)) => self.convert_assert(mac, kind, settings),
                    _ => None,
                };
                match converted {
                    Some(guarded) => piece.push(guarded),
                    None => piece.push(clone_stmt(stmt)),
                }
                proof {
                    lemma_stmts_view(piece@);
                    assert(self.integrity_checks@ =~= checks + added_piece(
                        stmt@,
                        stmts_view(piece@),
                    ));
                }
            },
            Action::Append => {
                let branch = if draws_injection(settings.inject_percent) {
                    Some(self.inject_branch(settings))
                } else {
                    None
                };
                let kind = self.shatter_kind(&stmt.kind, settings);
                piece.push(Stmt { attrs: clone_attrs(&stmt.attrs), kind });
                match branch {
                    Some(branch) => {
                        let follower = Stmt { attrs: Vec::new(), kind: StmtKind::Branch(branch) };
                        assert(attrs_view(follower.attrs@) =~= Seq::<AttributeView>::empty());
                        piece.push(follower);
                    },
                    None => {},
                }
                proof {
                    lemma_stmts_view(piece@);
                    assert(self.integrity_checks@ =~= checks + added_piece(
                        stmt@,
                        stmts_view(piece@),
                    ));
                }
            },
        }
        piece
    }

    /// Shatters the statements of a block: behind each statement where one may go, a branch;
    /// in the place of each assertion, a guarded rabbit hole.
    pub fn shatter_stmts(&mut self, stmts: &Vec<Stmt>, settings: &Settings) -> (out: Vec<Stmt>)
        ensures
            shattered_stmts(
                stmts_view(stmts@),
                stmts_view(out@),
                old(self).inside_unsafe_block,
                settings@,
            ),
            final(self).inside_unsafe_block == (old(self).inside_unsafe_block && !has_unsafe_stmts(
                stmts_view(stmts@),
            )),
            final(self).integrity_checks@ == old(self).integrity_checks@ + added_stmts(
                stmts_view(stmts@),
                stmts_view(out@),
            ),
        decreases stmts,
    {
        let ghost inside = self.inside_unsafe_block;
        let ghost checks = self.integrity_checks@;
        let ghost src = stmts_view(stmts@);
        proof {
            lemma_stmts_view(stmts@);
        }
        let mut out: Vec<Stmt> = Vec::new();
        let mut i: usize = 0;
        assert(src.take(0) =~= Seq::<StmtView>::empty());
        assert(stmts_view(out@) =~= Seq::<StmtView>::empty());
        while i < stmts.len()
            invariant
                i <= stmts@.len(),
                src == stmts_view(stmts@),
                src.len() == stmts@.len(),
                forall|j: int| #![trigger src[j]] 0 <= j < stmts@.len() ==> src[j] == stmts@[j]@,
                shattered_stmts(src.take(i as int), stmts_view(out@), inside, settings@),
                self.inside_unsafe_block == (inside && !has_unsafe_stmts(src.take(i as int))),
                self.integrity_checks@ == checks + added_stmts(
                    src.take(i as int),
                    stmts_view(out@),
                ),
            decreases stmts@.len() - i,
        {
            let ghost before = stmts_view(out@);
            let mut piece = self.shatter_piece(&stmts[i], settings);
            proof {
                lemma_next_piece(
                    src.take(i as int),
                    src[i as int],
                    before,
                    stmts_view(piece@),
                    inside,
                    settings@,
                );
                assert(src.take(i as int).push(src[i as int]) =~= src.take(i + 1));
                lemma_stmts_view(out@);
                lemma_stmts_view(piece@);
                lemma_stmts_view(out@ + piece@);
                assert(stmts_view(out@ + piece@) =~= before + stmts_view(piece@));
            }
            out.append(&mut piece);
            proof {
                assert(self.integrity_checks@ =~= checks + added_stmts(
                    src.take(i + 1),
                    stmts_view(out@),
                ));
            }
            i = i + 1;
        }
        assert(src.take(stmts@.len() as int) =~= src);
        out
    }
}

} // verus!
