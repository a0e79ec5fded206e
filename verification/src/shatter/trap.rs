//! The bodies of generated branches: assembly that is never meant to run.

use vstd::prelude::*;
use vstd::string::StringExecFns;
use crate::ast::Block;
use crate::ast::BlockView;
use crate::ast::Delimiter;
use crate::ast::Expr;
use crate::ast::ExprView;
use crate::ast::MacroBody;
use crate::ast::MacroBodyView;
use crate::ast::MacroCall;
use crate::ast::MacroCallView;
use crate::ast::single;
use crate::ast::StmtKind;
use crate::ast::StmtKindView;
use crate::random::random_bytes;
use crate::random::random_in_range;
use crate::shatter::Settings;
use crate::shatter::Shatter;
use crate::shatter::ShatterType;
use crate::shatter::x86_64;
use crate::shatter::x86_64::encoding_at;
use crate::shatter::x86_64::is_catalogue_entry;
use crate::shatter::x86_64::may_yield_nothing;
use crate::shatter::x86_64::rabbit_hole;
use crate::text::push_upper_hex;
use crate::text::upper_hex;

verus! {

/// The path of the macro that holds inline assembly.
pub const ASM_PATH: &'static str = "std::arch::asm";

/// What ends the arguments of every generated piece of assembly: the declaration that the
/// registers of the C calling convention are clobbered.
pub const ASM_CLOBBER: &'static str = "clobber_abi(\"C\"),";

/// The block that holds one invocation of the assembly macro on the given arguments.
pub open spec fn asm_block(tokens: Seq<char>) -> BlockView {
    single(
        StmtKindView::Semi(
            ExprView::Macro(
                MacroCallView {
                    name: Seq::empty(),
                    path: ASM_PATH@,
                    delimiter: Delimiter::Paren,
                    body: MacroBodyView::Tokens(tokens),
                },
            ),
        ),
    )
}

/// The block that holds one invocation of the assembly macro on the given arguments.
pub fn asm_block_with(tokens: String) -> (block: Block)
    ensures
        block@ == asm_block(tokens@),
{
    let mac = MacroCall {
        name: String::new(),
        path: String::from_str(ASM_PATH),
        delimiter: Delimiter::Paren,
        body: MacroBody::Tokens(tokens),
    };
    Block::single(StmtKind::Semi(Expr::Macro(mac)))
}

/// How the directive for one byte of garbage starts.
pub const BYTE_DIRECTIVE: &'static str = "\".byte 0x";

/// How the directive for one byte of garbage ends.
pub const BYTE_DIRECTIVE_END: &'static str = ";\", ";

/// The directives that put the given bytes into the program, one string for each byte.
pub open spec fn byte_directives(bytes: Seq<u8>) -> Seq<char>
    decreases bytes.len(),
{
    if bytes.len() == 0 {
        Seq::empty()
    } else {
        byte_directives(bytes.drop_last()) + BYTE_DIRECTIVE@ + upper_hex(bytes.last() as nat)
            + BYTE_DIRECTIVE_END@
    }
}

/// The static rabbit hole: assembly that puts the given bytes into the program.
pub open spec fn garbage_asm(bytes: Seq<u8>) -> BlockView {
    asm_block(byte_directives(bytes) + ASM_CLOBBER@)
}

/// The static rabbit hole for the given bytes.
pub fn garbage_asm_with(bytes: &Vec<u8>) -> (block: Block)
    ensures
        block@ == garbage_asm(bytes@),
{
    let mut tokens = String::new();
    let mut i: usize = 0;
    assert(bytes@.take(0) =~= Seq::<u8>::empty());
    while i < bytes.len()
        invariant
            i <= bytes@.len(),
            tokens@ == byte_directives(bytes@.take(i as int)),
        decreases bytes@.len() - i,
    {
        let ghost before = tokens@;
        tokens.append(BYTE_DIRECTIVE);
        push_upper_hex(&mut tokens, bytes[i] as u64);
        tokens.append(BYTE_DIRECTIVE_END);
        proof {
            let next = bytes@.take(i + 1);
            assert(next.drop_last() =~= bytes@.take(i as int));
            assert(next.last() == bytes@[i as int]);
            assert(tokens@ =~= byte_directives(next));
        }
        i = i + 1;
    }
    assert(bytes@.take(bytes@.len() as int) =~= bytes@);
    tokens.append(ASM_CLOBBER);
    asm_block_with(tokens)
}

/// A rabbit hole as it stands in a generated branch: in a block of its own, and inside an
/// `unsafe` block unless the place where it goes is inside one already.
pub open spec fn shatter_statement(body: BlockView, inside_unsafe: bool) -> BlockView {
    if inside_unsafe {
        single(StmtKindView::Expr(ExprView::Block(body)))
    } else {
        single(
            StmtKindView::Expr(
                ExprView::Unsafe(single(StmtKindView::Expr(ExprView::Block(body)))),
            ),
        )
    }
}

/// A rabbit hole as it stands in a generated branch.
pub fn shatter_statement_with(body: Block, inside_unsafe: bool) -> (block: Block)
    ensures
        block@ == shatter_statement(body@, inside_unsafe),
{
    let inner = Block::single(StmtKind::Expr(Expr::Block(body)));
    if inside_unsafe {
        inner
    } else {
        Block::single(StmtKind::Expr(Expr::Unsafe(inner)))
    }
}

/// The least number of random bytes that stand in for a head of the catalogue.
pub const MIN_GARBAGE: usize = 32;

/// The bound below which the number of such random bytes lies.
pub const GARBAGE_BOUND: usize = 96;

/// True for the bytes that the static rabbit hole may hold: an encoding of the catalogue that
/// is not empty; or, where a choice from the catalogue can give nothing, between 32 and 95
/// bytes of any value.
pub open spec fn is_garbage(bytes: Seq<u8>, catalogue: Seq<Seq<Seq<u8>>>) -> bool {
    ||| bytes.len() > 0 && is_catalogue_entry(bytes, catalogue)
    ||| may_yield_nothing(catalogue) && MIN_GARBAGE <= bytes.len() < GARBAGE_BOUND
}

/// The bytes of the static rabbit hole: what was chosen from the catalogue, or the bytes
/// that stand in for it where nothing was chosen.
pub fn garbage_bytes(chosen: Vec<u8>, fallback: Vec<u8>) -> (bytes: Vec<u8>)
    ensures
        bytes@ == if chosen@.len() > 0 {
            chosen@
        } else {
            fallback@
        },
{
    if chosen.len() > 0 {
        chosen
    } else {
        fallback
    }
}

/// True for the static rabbit holes that the pass gives.
pub open spec fn is_static_body(block: BlockView, catalogue: Seq<Seq<Seq<u8>>>) -> bool {
    exists|bytes: Seq<u8>| is_garbage(bytes, catalogue) && block == #[trigger] garbage_asm(bytes)
}

/// True for the dynamic rabbit holes that the pass gives.
pub open spec fn is_dynamic_body(block: BlockView) -> bool {
    exists|rotation: usize|
        x86_64::MIN_ROTATION <= rotation < x86_64::ROTATION_BOUND && block == #[trigger] rabbit_hole(
            rotation,
        )
}

/// True for a static rabbit hole as it stands in a branch at a place that is inside an
/// `unsafe` block or not.
pub open spec fn is_static_trap(block: BlockView, inside_unsafe: bool, catalogue: Seq<Seq<Seq<u8>>>) -> bool {
    exists|body: BlockView|
        is_static_body(body, catalogue) && block == #[trigger] shatter_statement(
            body,
            inside_unsafe,
        )
}

/// True for a dynamic rabbit hole as it stands in a branch at a place that is inside an
/// `unsafe` block or not.
pub open spec fn is_dynamic_trap(block: BlockView, inside_unsafe: bool) -> bool {
    exists|body: BlockView|
        is_dynamic_body(body) && block == #[trigger] shatter_statement(body, inside_unsafe)
}

/// True for the bodies that the pass gives a branch of the given kind.
pub open spec fn is_trap(
    block: BlockView,
    shatter_type: ShatterType,
    inside_unsafe: bool,
    catalogue: Seq<Seq<Seq<u8>>>,
) -> bool {
    match shatter_type {
        ShatterType::STATIC => is_static_trap(block, inside_unsafe, catalogue),
        ShatterType::DYNAMIC => is_dynamic_trap(block, inside_unsafe),
    }
}

impl Shatter {
    /// A static rabbit hole: a head of the catalogue chosen at random, or, where the choice
    /// gave nothing, between 32 and 95 random bytes. Where every instruction of the
    /// catalogue has an encoding and every encoding has bytes, the bytes are an encoding of
    /// the catalogue.
    pub fn generate_garbage_asm(&self, settings: &Settings) -> (block: Block)
        ensures
            is_static_body(block@, settings@.catalogue),
            !may_yield_nothing(settings@.catalogue) ==> exists|i: int, j: int|
                0 <= i < settings@.catalogue.len() && 0 <= j < settings@.catalogue[i].len()
                    && block@ == garbage_asm(#[trigger] encoding_at(settings@.catalogue, i, j)),
    {
        let chosen = x86_64::generate_partial_instruction(&settings.catalogue);
        let fallback = if chosen.len() == 0 {
            random_bytes(random_in_range(MIN_GARBAGE, GARBAGE_BOUND))
        } else {
            Vec::new()
        };
        let garbage = garbage_bytes(chosen, fallback);
        let block = garbage_asm_with(&garbage);
        assert(is_garbage(garbage@, settings@.catalogue));
        assert(block@ == garbage_asm(garbage@));
        block
    }

    /// A dynamic rabbit hole.
    pub fn generate_rabbit_hole(&self) -> (block: Block)
        ensures
            is_dynamic_body(block@),
    {
        x86_64::generate_rabbit_hole()
    }

    /// The body of a branch of the given kind: a rabbit hole, inside an `unsafe` block
    /// unless the pass is inside one already.
    pub fn generate_shatter_statement(&self, shatter_type: ShatterType, settings: &Settings) -> (block: Block)
        ensures
            is_trap(block@, shatter_type, self.inside_unsafe_block, settings@.catalogue),
    {
        let body = match shatter_type {
            ShatterType::STATIC => self.generate_garbage_asm(settings),
            ShatterType::DYNAMIC => self.generate_rabbit_hole(),
        };
        let ghost inner = body@;
        let block = shatter_statement_with(body, self.inside_unsafe_block);
        assert(block@ == shatter_statement(inner, self.inside_unsafe_block));
        block
    }
}

} // verus!
