//! Assertions as guarded rabbit holes.

use vstd::prelude::*;
use vstd::string::StringExecFns;
use crate::ast::AttributeView;
use crate::ast::attrs_view;
use crate::ast::Block;
use crate::ast::BlockView;
use crate::ast::Expr;
use crate::ast::exprs_view;
use crate::ast::ExprView;
use crate::ast::GroupKind;
use crate::ast::lemma_exprs_view;
use crate::ast::MacroBody;
use crate::ast::MacroBodyView;
use crate::ast::MacroCall;
use crate::ast::Stmt;
use crate::ast::StmtKind;
use crate::ast::StmtKindView;
use crate::ast::StmtView;
use crate::parse::assert_args_of;
use crate::parse::assert_pair_of;
use crate::parse::AssertArgs;
use crate::parse::AssertCmpArgs;
use crate::shatter::Settings;
use crate::shatter::Shatter;
use crate::shatter::ShatterType;
use crate::shatter::trap::is_dynamic_body;
use crate::shatter::trap::is_dynamic_trap;
use crate::shatter::trap::shatter_statement;

verus! {

/// The assertion macros, by what they assert.
#[derive(Debug, Clone, Copy, PartialEq, Eq, Structural)]
pub enum AssertKind {
    /// `assert!` and `debug_assert!`: a condition holds.
    Holds,
    /// `assert_eq!` and `debug_assert_eq!`: two values are equal.
    Equal,
    /// `assert_ne!` and `debug_assert_ne!`: two values differ.
    Differ,
}

/// What the name of a macro asserts, where it is one of the assertion macros.
pub open spec fn assert_kind(name: Seq<char>) -> Option<AssertKind> {
    if name == "assert"@ || name == "debug_assert"@ {
        Some(AssertKind::Holds)
    } else if name == "assert_eq"@ || name == "debug_assert_eq"@ {
        Some(AssertKind::Equal)
    } else if name == "assert_ne"@ || name == "debug_assert_ne"@ {
        Some(AssertKind::Differ)
    } else {
        None
    }
}

/// The condition under which an assertion fails, or `None` where the arguments of the
/// macro are not those of an assertion of its kind. Every operand stands in parentheses of
/// its own, so that it is read as it was read between the commas of the macro.
pub open spec fn failure_condition(kind: AssertKind, body: MacroBodyView) -> Option<ExprView> {
    match body {
        MacroBodyView::Tokens(_) => None,
        MacroBodyView::Args(args) => match kind {
            AssertKind::Holds => match assert_args_of(args) {
                Some(parsed) => Some(
                    ExprView::Group(
                        GroupKind::Plain,
                        seq![ExprView::Verbatim("!"@), ExprView::Args(seq![parsed.condition])],
                    ),
                ),
                None => None,
            },
            AssertKind::Equal => match assert_pair_of(args) {
                Some(parsed) => Some(
                    ExprView::Group(
                        GroupKind::Plain,
                        seq![
                            ExprView::Args(seq![parsed.first_condition]),
                            ExprView::Verbatim("!="@),
                            ExprView::Args(seq![parsed.second_condition]),
                        ],
                    ),
                ),
                None => None,
            },
            AssertKind::Differ => match assert_pair_of(args) {
                Some(parsed) => Some(
                    ExprView::Group(
                        GroupKind::Plain,
                        seq![
                            ExprView::Args(seq![parsed.first_condition]),
                            ExprView::Verbatim("=="@),
                            ExprView::Args(seq![parsed.second_condition]),
                        ],
                    ),
                ),
                None => None,
            },
        },
    }
}

/// The statement `if condition body`.
pub open spec fn guard(condition: ExprView, body: BlockView) -> StmtView {
    StmtView {
        attrs: Seq::empty(),
        kind: StmtKindView::Expr(
            ExprView::Group(
                GroupKind::Plain,
                seq![ExprView::Verbatim("if"@), condition, ExprView::Block(body)],
            ),
        ),
    }
}

/// True for what the pass puts in the place of an assertion with the given failure
/// condition: an `if` on that condition whose body is a dynamic rabbit hole.
pub open spec fn is_guard(stmt: StmtView, condition: ExprView, inside_unsafe: bool) -> bool {
    exists|body: BlockView|
        is_dynamic_trap(body, inside_unsafe) && stmt == #[trigger] guard(condition, body)
}

/// What the name of a macro asserts, where it is one of the assertion macros.
pub fn assert_kind_of(name: &String) -> (kind: Option<AssertKind>)
    ensures
        kind == assert_kind(name@),
{
    if *name == "assert".to_owned() || *name == "debug_assert".to_owned() {
        Some(AssertKind::Holds)
    } else if *name == "assert_eq".to_owned() || *name == "debug_assert_eq".to_owned() {
        Some(AssertKind::Equal)
    } else if *name == "assert_ne".to_owned() || *name == "debug_assert_ne".to_owned() {
        Some(AssertKind::Differ)
    } else {
        None
    }
}

/// The list of one expression.
fn list_of_one(a: Expr) -> (list: Vec<Expr>)
    ensures
        exprs_view(list@) == seq![a@],
{
    let mut list: Vec<Expr> = Vec::new();
    list.push(a);
    proof {
        lemma_exprs_view(list@);
        assert(exprs_view(list@) =~= seq![a@]);
    }
    list
}

/// The list of two expressions.
fn list_of_two(a: Expr, b: Expr) -> (list: Vec<Expr>)
    ensures
        exprs_view(list@) == seq![a@, b@],
{
    let mut list: Vec<Expr> = Vec::new();
    list.push(a);
    list.push(b);
    proof {
        lemma_exprs_view(list@);
        assert(exprs_view(list@) =~= seq![a@, b@]);
    }
    list
}

/// The list of three expressions.
fn list_of_three(a: Expr, b: Expr, c: Expr) -> (list: Vec<Expr>)
    ensures
        exprs_view(list@) == seq![a@, b@, c@],
{
    let mut list: Vec<Expr> = Vec::new();
    list.push(a);
    list.push(b);
    list.push(c);
    proof {
        lemma_exprs_view(list@);
        assert(exprs_view(list@) =~= seq![a@, b@, c@]);
    }
    list
}

/// The statement `if condition body`.
pub fn guard_with(condition: Expr, body: Block) -> (stmt: Stmt)
    ensures
        stmt@ == guard(condition@, body@),
{
    let parts = list_of_three(
        Expr::Verbatim(String::from_str("if")),
        condition,
        Expr::Block(body),
    );
    let stmt = Stmt {
        attrs: Vec::new(),
        kind: StmtKind::Expr(Expr::Group(GroupKind::Plain, parts)),
    };
    assert(attrs_view(stmt.attrs@) =~= Seq::<AttributeView>::empty());
    stmt
}

/// The condition under which an assertion fails, or `None` where the arguments of the macro
/// are not those of an assertion of its kind.
pub fn failure_condition_of(kind: AssertKind, assert: &MacroCall) -> (r: Option<Expr>)
    ensures
        match r {
            Some(condition) => failure_condition(kind, assert@.body) == Some(condition@),
            None => failure_condition(kind, assert@.body) is None,
        },
{
    let args = match &assert.body {
        MacroBody::Tokens(_) => {
            return None;
        },
        MacroBody::Args(args) => args,
    };
    match kind {
        AssertKind::Holds => match AssertArgs::parse(args) {
            Ok(parsed) => {
                let inner = list_of_one(parsed.condition);
                let parts = list_of_two(Expr::Verbatim(String::from_str("!")), Expr::Args(inner));
                Some(Expr::Group(GroupKind::Plain, parts))
            },
            Err(_) => None,
        },
        AssertKind::Equal => match AssertCmpArgs::parse(args) {
            Ok(parsed) => {
                let parts = list_of_three(
                    Expr::Args(list_of_one(parsed.first_condition)),
                    Expr::Verbatim(String::from_str("!=")),
                    Expr::Args(list_of_one(parsed.second_condition)),
                );
                Some(Expr::Group(GroupKind::Plain, parts))
            },
            Err(_) => None,
        },
        AssertKind::Differ => match AssertCmpArgs::parse(args) {
            Ok(parsed) => {
                let parts = list_of_three(
                    Expr::Args(list_of_one(parsed.first_condition)),
                    Expr::Verbatim(String::from_str("==")),
                    Expr::Args(list_of_one(parsed.second_condition)),
                );
                Some(Expr::Group(GroupKind::Plain, parts))
            },
            Err(_) => None,
        },
    }
}

/// The rabbit hole of a converted assertion is wrapped in `unsafe` once and no more: inside
/// an `unsafe` block the body of the `if` holds the assembly in a plain block; elsewhere it
/// holds one `unsafe` block around that plain block.
pub proof fn lemma_guard_wrapping(stmt: StmtView, condition: ExprView, inside_unsafe: bool)
    requires
        is_guard(stmt, condition, inside_unsafe),
    ensures
        stmt.kind is Expr,
        stmt.kind->Expr_0 is Group,
        stmt.kind->Expr_0->Group_1.len() == 3,
        stmt.kind->Expr_0->Group_1[1] == condition,
        stmt.kind->Expr_0->Group_1[2] is Block,
        ({
            let body = stmt.kind->Expr_0->Group_1[2]->Block_0;
            &&& body.stmts.len() == 1
            &&& body.stmts[0].kind is Expr
            &&& if inside_unsafe {
                body.stmts[0].kind->Expr_0 is Block && is_dynamic_body(
                    body.stmts[0].kind->Expr_0->Block_0,
                )
            } else {
                &&& body.stmts[0].kind->Expr_0 is Unsafe
                &&& body.stmts[0].kind->Expr_0->Unsafe_0.stmts.len() == 1
                &&& body.stmts[0].kind->Expr_0->Unsafe_0.stmts[0].kind is Expr
                &&& body.stmts[0].kind->Expr_0->Unsafe_0.stmts[0].kind->Expr_0 is Block
                &&& is_dynamic_body(
                    body.stmts[0].kind->Expr_0->Unsafe_0.stmts[0].kind->Expr_0->Block_0,
                )
            }
        }),
{
    let body = choose|body: BlockView|
        is_dynamic_trap(body, inside_unsafe) && stmt == #[trigger] guard(condition, body);
    let inner = choose|inner: BlockView|
        is_dynamic_body(inner) && body == #[trigger] shatter_statement(inner, inside_unsafe);
    assert(stmt == guard(condition, body));
    assert(body == shatter_statement(inner, inside_unsafe));
}

impl Shatter {
    /// What goes in the place of an assertion: `if` the assertion fails, a dynamic rabbit
    /// hole. `None` where the arguments of the macro are malformed.
    pub fn convert_assert(&self, assert: &MacroCall, kind: AssertKind, settings: &Settings) -> (r: Option<Stmt>)
        ensures
            match failure_condition(kind, assert@.body) {
                Some(condition) => r is Some && is_guard(
                    r->0@,
                    condition,
                    self.inside_unsafe_block,
                ),
                None => r is None,
            },
    {
        match failure_condition_of(kind, assert) {
            None => None,
            Some(condition) => {
                let body = self.generate_shatter_statement(ShatterType::DYNAMIC, settings);
                let ghost trap = body@;
                let ghost cond = condition@;
                let stmt = guard_with(condition, body);
                assert(stmt@ == guard(cond, trap));
                Some(stmt)
            },
        }
    }
}

} // verus!
