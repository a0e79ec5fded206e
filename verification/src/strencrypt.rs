//! The string pass: string and byte-string literals become blocks that decrypt an embedded
//! ciphertext when the program runs.

use vstd::prelude::*;
use vstd::string::StringExecFns;
use crate::ast::AttributeView;
use crate::ast::attrs_view;
use crate::ast::Block;
use crate::ast::BlockView;
use crate::ast::clone_attrs;
use crate::ast::clone_branch;
use crate::ast::clone_expr;
use crate::ast::clone_exprs;
use crate::ast::clone_literal;
use crate::ast::clone_macro;
use crate::ast::Expr;
use crate::ast::exprs_view;
use crate::ast::ExprView;
use crate::ast::File;
use crate::ast::FileView;
use crate::ast::is_sealed;
use crate::ast::lemma_exprs_view;
use crate::ast::lemma_stmts_view;
use crate::ast::Literal;
use crate::ast::LiteralView;
use crate::ast::LitKind;
use crate::ast::Local;
use crate::ast::LocalView;
use crate::ast::MacroBody;
use crate::ast::MacroBodyView;
use crate::ast::MacroCall;
use crate::ast::MacroCallView;
use crate::ast::seals;
use crate::ast::Stmt;
use crate::ast::StmtKind;
use crate::ast::StmtKindView;
use crate::ast::stmts_view;
use crate::ast::StmtView;
use crate::crypto::encrypt_memory_with;
use crate::crypto::fits_cipher;
use crate::crypto::fresh_key;
use crate::crypto::fresh_nonce;
use crate::crypto::KEY_SIZE;
use crate::crypto::MemoryEncryptionCtx;
use crate::crypto::NONCE_SIZE;
use crate::crypto::opened;
use crate::crypto::sealed;
use crate::crypto::TAG_SIZE;
use crate::error::PassError;
use crate::parse::args_of;
use crate::parse::format_args_of;
use crate::parse::FormatArgs;
use crate::text::byte_list;
use crate::text::push_byte_list;

verus! {

/// The text of a decryption block up to the bytes of the key.
pub const DECRYPT_HEAD: &'static str =
    "let result = r2d2::crypto::decrypt_memory(r2d2::crypto::MemoryEncryptionCtx { key: [";

/// The text of a decryption block between the bytes of the key and those of the nonce.
pub const DECRYPT_NONCE: &'static str = "], nonce: [";

/// The text of a decryption block between the bytes of the nonce and those of the ciphertext.
pub const DECRYPT_CIPHERTEXT: &'static str = "], ciphertext: ::std::vec![";

/// The text of a decryption block behind the bytes of the ciphertext.
pub const DECRYPT_CALL_END: &'static str = "], }); ";

/// What a decryption block yields for a string that the program owns.
pub const YIELD_STRING: &'static str = "::std::string::String::from_utf8(result).unwrap()";

/// What a decryption block yields for a string that the program borrows.
pub const YIELD_STR: &'static str = "::std::string::String::from_utf8(result).unwrap().as_str()";

/// What a decryption block yields for bytes that the program owns.
pub const YIELD_BYTES: &'static str = "result";

/// What a decryption block yields for bytes that the program borrows: a slice of a value
/// that lives as long as the statement around the block.
pub const YIELD_SLICE: &'static str = "::std::convert::identity(result).as_slice()";

/// The expression that a decryption block ends with.
pub open spec fn yield_text(kind: LitKind, owned: bool) -> Seq<char> {
    match kind {
        LitKind::Str => if owned { YIELD_STRING@ } else { YIELD_STR@ },
        LitKind::ByteStr => if owned { YIELD_BYTES@ } else { YIELD_SLICE@ },
    }
}

/// The statements of a decryption block: the call of the decryption routine on the record,
/// whose bytes are written out, and the value that the block yields.
pub open spec fn decryption_text(
    key: Seq<u8>,
    nonce: Seq<u8>,
    ciphertext: Seq<u8>,
    kind: LitKind,
    owned: bool,
) -> Seq<char> {
    DECRYPT_HEAD@ + byte_list(key) + DECRYPT_NONCE@ + byte_list(nonce) + DECRYPT_CIPHERTEXT@
        + byte_list(ciphertext) + DECRYPT_CALL_END@ + yield_text(kind, owned)
}

/// The block that stands for an encrypted literal.
pub open spec fn decryption_block(
    key: Seq<u8>,
    nonce: Seq<u8>,
    ciphertext: Seq<u8>,
    kind: LitKind,
    owned: bool,
) -> ExprView {
    ExprView::Block(
        BlockView {
            stmts: seq![
                StmtView {
                    attrs: Seq::empty(),
                    kind: StmtKindView::Verbatim(
                        decryption_text(key, nonce, ciphertext, kind, owned),
                    ),
                },
            ],
        },
    )
}

/// True where `dst` is a block that decrypts, when the program runs, to the bytes of `lit`.
pub open spec fn decrypts(dst: ExprView, lit: LiteralView, owned: bool) -> bool {
    exists|key: Seq<u8>, nonce: Seq<u8>, ciphertext: Seq<u8>|
        {
            &&& dst == #[trigger] decryption_block(key, nonce, ciphertext, lit.kind, owned)
            &&& key.len() == KEY_SIZE
            &&& nonce.len() == NONCE_SIZE
            &&& ciphertext.len() == lit.value.len() + TAG_SIZE
            &&& opened(key, nonce, ciphertext) == Some(lit.value)
        }
}

/// What the pass puts in the place of a literal: a decryption block, or the literal itself
/// where it is too long for the cipher.
pub open spec fn encrypted_literal(lit: LiteralView, dst: ExprView, owned: bool) -> bool {
    if fits_cipher(lit.value.len()) {
        decrypts(dst, lit, owned)
    } else {
        dst == ExprView::Lit(lit)
    }
}

/// True for the names of the macros whose arguments the pass understands.
pub open spec fn is_format_macro(name: Seq<char>) -> bool {
    name == "println"@ || name == "eprintln"@ || name == "format"@ || name == "concat"@
}

/// True where a format literal has no placeholder: no opening brace among its bytes.
pub open spec fn is_trivial_format(lit: LiteralView) -> bool {
    !lit.value.contains(0x7bu8)
}

/// The format literal that takes one argument and prints it.
pub open spec fn placeholder_literal() -> LiteralView {
    LiteralView { kind: LitKind::Str, text: "\"{}\""@, value: seq![0x7bu8, 0x7du8] }
}

/// True where the pass can work on the arguments of a formatting macro: they read as format
/// arguments, the format expression is a string literal, and the pass can work on the
/// positional arguments.
pub open spec fn workable_macro(mac: MacroCallView) -> bool
    decreases mac,
{
    if !is_format_macro(mac.name) {
        true
    } else {
        match mac.body {
            MacroBodyView::Tokens(_) => false,
            MacroBodyView::Args(args) => {
                &&& format_args_of(args) is Some
                &&& args.len() > 0
                &&& args[0] is Lit
                &&& args[0]->Lit_0.kind == LitKind::Str
                &&& forall|i: int|
                    1 <= i < args.len() ==> (#[trigger] args[i]) is Named || workable_expr(
                        args[i],
                    )
            },
        }
    }
}

/// True where the pass can work on an expression: every formatting macro that it comes to
/// has arguments that it can work on.
pub open spec fn workable_expr(e: ExprView) -> bool
    decreases e,
{
    match e {
        ExprView::Verbatim(_) => true,
        ExprView::Lit(_) => true,
        ExprView::Macro(mac) => workable_macro(mac),
        ExprView::Block(block) => workable_stmts(block.stmts),
        ExprView::Unsafe(block) => workable_stmts(block.stmts),
        ExprView::Named(_, value) => workable_expr(*value),
        ExprView::Args(args) => workable_list(args),
        ExprView::Group(kind, parts) => is_sealed(kind) || workable_list(parts),
    }
}

/// True where the pass can work on every expression of a list.
pub open spec fn workable_list(exprs: Seq<ExprView>) -> bool
    decreases exprs,
{
    forall|i: int| 0 <= i < exprs.len() ==> workable_expr(#[trigger] exprs[i])
}

/// True where the pass can work on a statement.
pub open spec fn workable_kind(kind: StmtKindView) -> bool
    decreases kind,
{
    match kind {
        StmtKindView::Local(local) => match local.init {
            Some(init) => workable_expr(init),
            None => true,
        },
        StmtKindView::Item(e) => workable_expr(e),
        StmtKindView::Expr(e) => workable_expr(e),
        StmtKindView::Semi(e) => workable_expr(e),
        StmtKindView::Verbatim(_) => true,
        StmtKindView::Branch(_) => true,
    }
}

/// True where the pass can work on every statement of a list.
pub open spec fn workable_stmts(stmts: Seq<StmtView>) -> bool
    decreases stmts,
{
    forall|i: int| 0 <= i < stmts.len() ==> workable_kind((#[trigger] stmts[i]).kind)
}

/// What the pass makes of the invocation of a formatting macro. A single trivial format
/// literal becomes the argument of the format `"{}"` and is encrypted there; else the
/// positional arguments are encrypted and the format expression and the named arguments
/// stay.
pub open spec fn encrypted_macro(src: MacroCallView, dst: MacroCallView) -> bool
    decreases src,
{
    if !is_format_macro(src.name) {
        dst == src
    } else {
        &&& dst.name == src.name
        &&& dst.path == src.path
        &&& dst.delimiter == src.delimiter
        &&& src.body is Args
        &&& dst.body is Args
        &&& src.body->Args_0.len() > 0
        &&& src.body->Args_0[0] is Lit
        &&& ({
            let args = src.body->Args_0;
            let out = dst.body->Args_0;
            let format = args[0]->Lit_0;
            if args.len() == 1 && is_trivial_format(format) {
                &&& out.len() == 2
                &&& out[0] == ExprView::Lit(placeholder_literal())
                &&& encrypted_literal(format, out[1], false)
            } else {
                &&& out.len() == args.len()
                &&& out[0] == args[0]
                &&& forall|i: int|
                    1 <= i < args.len() ==> if args[i] is Named {
                        #[trigger] out[i] == args[i]
                    } else {
                        encrypted_expr(args[i], out[i])
                    }
            }
        })
    }
}

/// What the pass makes of an expression. A literal becomes a decryption block that yields a
/// borrowed value; a literal that is itself the argument of a call stays, and so does what is
/// in a constant, a type or a pattern.
pub open spec fn encrypted_expr(src: ExprView, dst: ExprView) -> bool
    decreases src,
{
    match src {
        ExprView::Verbatim(_) => dst == src,
        ExprView::Lit(lit) => encrypted_literal(lit, dst, false),
        ExprView::Macro(mac) => dst is Macro && encrypted_macro(mac, dst->Macro_0),
        ExprView::Block(block) => dst is Block && encrypted_stmts(
            block.stmts,
            dst->Block_0.stmts,
        ),
        ExprView::Unsafe(block) => dst is Unsafe && encrypted_stmts(
            block.stmts,
            dst->Unsafe_0.stmts,
        ),
        ExprView::Named(name, value) => dst is Named && dst->Named_0 == name && encrypted_expr(
            *value,
            *dst->Named_1,
        ),
        ExprView::Args(args) => dst is Args && encrypted_args(args, dst->Args_0),
        ExprView::Group(kind, parts) => if is_sealed(kind) {
            dst == src
        } else {
            dst is Group && dst->Group_0 == kind && encrypted_list(parts, dst->Group_1)
        },
    }
}

/// What the pass makes of a list of expressions.
pub open spec fn encrypted_list(src: Seq<ExprView>, dst: Seq<ExprView>) -> bool
    decreases src,
{
    &&& dst.len() == src.len()
    &&& forall|i: int| 0 <= i < src.len() ==> encrypted_expr(src[i], #[trigger] dst[i])
}

/// What the pass makes of the arguments of a call: a literal stays, the rest is encrypted.
pub open spec fn encrypted_args(src: Seq<ExprView>, dst: Seq<ExprView>) -> bool
    decreases src,
{
    &&& dst.len() == src.len()
    &&& forall|i: int|
        0 <= i < src.len() ==> if src[i] is Lit {
            #[trigger] dst[i] == src[i]
        } else {
            encrypted_expr(src[i], dst[i])
        }
}

/// What the pass makes of a `let` binding. A literal that is bound without a reference type
/// becomes a decryption block that yields an owned value; one that is bound with a
/// reference type stays.
pub open spec fn encrypted_local(src: LocalView, dst: LocalView) -> bool
    decreases src,
{
    &&& dst.pattern == src.pattern
    &&& dst.by_reference == src.by_reference
    &&& match src.init {
        None => dst.init is None,
        Some(ExprView::Lit(lit)) => if src.by_reference {
            dst.init == src.init
        } else {
            dst.init is Some && encrypted_literal(lit, dst.init->0, true)
        },
        Some(init) => dst.init is Some && encrypted_expr(init, dst.init->0),
    }
}

/// What the pass makes of a statement, attributes apart.
pub open spec fn encrypted_kind(src: StmtKindView, dst: StmtKindView) -> bool
    decreases src,
{
    match src {
        StmtKindView::Local(local) => dst is Local && encrypted_local(local, dst->Local_0),
        StmtKindView::Item(e) => dst is Item && encrypted_expr(e, dst->Item_0),
        StmtKindView::Expr(e) => dst is Expr && encrypted_expr(e, dst->Expr_0),
        StmtKindView::Semi(e) => dst is Semi && encrypted_expr(e, dst->Semi_0),
        StmtKindView::Verbatim(_) => dst == src,
        StmtKindView::Branch(_) => dst == src,
    }
}

/// What the pass makes of a list of statements: each keeps its place and its attributes.
pub open spec fn encrypted_stmts(src: Seq<StmtView>, dst: Seq<StmtView>) -> bool
    decreases src,
{
    &&& dst.len() == src.len()
    &&& forall|i: int|
        0 <= i < src.len() ==> (#[trigger] dst[i]).attrs == src[i].attrs && encrypted_kind(
            src[i].kind,
            dst[i].kind,
        )
}

/// What the pass makes of a file.
pub open spec fn encrypted_file(src: FileView, dst: FileView) -> bool {
    encrypted_stmts(src.items, dst.items)
}

/// An encrypted literal on its way into the program.
#[derive(Debug, PartialEq, Eq)]
pub struct MemEncCtx {
    pub ctx: MemoryEncryptionCtx,
    /// What kind of literal was encrypted.
    pub kind: LitKind,
    /// True where the decryption block yields a value that the program owns.
    pub needs_owned_str: bool,
}

/// The expression that a decryption block ends with, as text.
fn yield_str(kind: LitKind, owned: bool) -> (text: &'static str)
    ensures
        text@ == yield_text(kind, owned),
{
    match kind {
        LitKind::Str => if owned { YIELD_STRING } else { YIELD_STR },
        LitKind::ByteStr => if owned { YIELD_BYTES } else { YIELD_SLICE },
    }
}

impl MemEncCtx {
    /// The statements of the decryption block.
    pub fn to_source(&self) -> (text: String)
        ensures
            text@ == decryption_text(
                self.ctx.key@,
                self.ctx.nonce@,
                self.ctx.ciphertext@,
                self.kind,
                self.needs_owned_str,
            ),
    {
        let mut text = String::from_str(DECRYPT_HEAD);
        push_byte_list(&mut text, self.ctx.key.as_slice());
        text.append(DECRYPT_NONCE);
        push_byte_list(&mut text, self.ctx.nonce.as_slice());
        text.append(DECRYPT_CIPHERTEXT);
        push_byte_list(&mut text, self.ctx.ciphertext.as_slice());
        text.append(DECRYPT_CALL_END);
        text.append(yield_str(self.kind, self.needs_owned_str));
        text
    }

    /// The decryption block.
    pub fn to_expr(&self) -> (block: Expr)
        ensures
            block@ == decryption_block(
                self.ctx.key@,
                self.ctx.nonce@,
                self.ctx.ciphertext@,
                self.kind,
                self.needs_owned_str,
            ),
    {
        let stmt = Stmt { attrs: Vec::new(), kind: StmtKind::Verbatim(self.to_source()) };
        let mut stmts: Vec<Stmt> = Vec::new();
        stmts.push(stmt);
        let block = Block { stmts };
        proof {
            lemma_stmts_view(block.stmts@);
            assert(attrs_view(block.stmts@[0].attrs@) =~= Seq::<AttributeView>::empty());
            assert(block@.stmts =~= seq![block.stmts@[0]@]);
        }
        Expr::Block(block)
    }
}

/// Tells whether the length of a plaintext suits the cipher.
fn fits(len: usize) -> (ok: bool)
    ensures
        ok == fits_cipher(len as nat),
{
    len / 64 < 0xffff_ffff
}

/// What stands in the place of a literal under a key and a nonce: the block that holds
/// them and the ciphertext, or the literal itself where it is too long for the cipher.
pub open spec fn literal_under(
    lit: LiteralView,
    owned: bool,
    key: Seq<u8>,
    nonce: Seq<u8>,
) -> ExprView {
    if fits_cipher(lit.value.len()) {
        decryption_block(key, nonce, sealed(key, nonce, lit.value), lit.kind, owned)
    } else {
        ExprView::Lit(lit)
    }
}

/// What stands in the place of a literal under the given key and nonce.
pub fn encrypt_literal_with(lit: &Literal, owned: bool, key: [u8; 32], nonce: [u8; 24]) -> (out:
    Expr)
    ensures
        out@ == literal_under(lit@, owned, key@, nonce@),
        encrypted_literal(lit@, out@, owned),
{
    if fits(lit.value.len()) {
        let record = MemEncCtx {
            ctx: encrypt_memory_with(key, nonce, lit.value.as_slice()),
            kind: lit.kind,
            needs_owned_str: owned,
        };
        let out = record.to_expr();
        assert(out@ == decryption_block(
            record.ctx.key@,
            record.ctx.nonce@,
            record.ctx.ciphertext@,
            lit@.kind,
            owned,
        ));
        out
    } else {
        Expr::Lit(clone_literal(lit))
    }
}

/// What stands in the place of a literal: the block that decrypts it under a key and a
/// nonce drawn afresh for this literal, or a copy of the literal where it is too long for
/// the cipher.
pub fn encrypt_literal(lit: &Literal, owned: bool) -> (out: Expr)
    ensures
        encrypted_literal(lit@, out@, owned),
        exists|key: Seq<u8>, nonce: Seq<u8>|
            key.len() == KEY_SIZE && nonce.len() == NONCE_SIZE && out@ == #[trigger] literal_under(
                lit@,
                owned,
                key,
                nonce,
            ),
{
    let key = fresh_key();
    let nonce = fresh_nonce();
    let out = encrypt_literal_with(lit, owned, key, nonce);
    assert(out@ == literal_under(lit@, owned, key@, nonce@));
    out
}

/// Tells whether a name is that of a macro whose arguments the pass understands.
pub fn understands_macro(name: &String) -> (known: bool)
    ensures
        known == is_format_macro(name@),
{
    *name == "println".to_owned() || *name == "eprintln".to_owned() || *name == "format".to_owned()
        || *name == "concat".to_owned()
}

/// Tells whether a format literal has no placeholder.
pub fn has_no_placeholder(lit: &Literal) -> (trivial: bool)
    ensures
        trivial == is_trivial_format(lit@),
{
    let mut i: usize = 0;
    while i < lit.value.len()
        invariant
            i <= lit.value@.len(),
            forall|j: int| 0 <= j < i ==> lit.value@[j] != 0x7bu8,
        decreases lit.value@.len() - i,
    {
        if lit.value[i] == 0x7b {
            assert(lit.value@.contains(0x7bu8));
            return false;
        }
        i = i + 1;
    }
    true
}

/// The format literal that takes one argument and prints it.
pub fn placeholder() -> (lit: Literal)
    ensures
        lit@ == placeholder_literal(),
{
    let mut value: Vec<u8> = Vec::new();
    value.push(0x7b);
    value.push(0x7d);
    assert(value@ =~= seq![0x7bu8, 0x7du8]);
    Literal { kind: LitKind::Str, text: String::from_str("\"{}\""), value }
}

/// Encrypts the literals in each expression of a list.
fn encrypt_list(exprs: &Vec<Expr>) -> (r: Result<Vec<Expr>, PassError>)
    ensures
        match r {
            Ok(out) => workable_list(exprs_view(exprs@)) && encrypted_list(
                exprs_view(exprs@),
                exprs_view(out@),
            ),
            Err(e) => e == PassError::MalformedMacroArguments && !workable_list(
                exprs_view(exprs@),
            ),
        },
    decreases exprs,
{
    proof {
        lemma_exprs_view(exprs@);
    }
    let mut out: Vec<Expr> = Vec::new();
    let mut i: usize = 0;
    while i < exprs.len()
        invariant
            i <= exprs@.len(),
            out@.len() == i,
            exprs_view(exprs@).len() == exprs@.len(),
            forall|j: int|
                #![trigger exprs_view(exprs@)[j]]
                0 <= j < exprs@.len() ==> exprs_view(exprs@)[j] == exprs@[j]@,
            forall|j: int| 0 <= j < i ==> workable_expr((#[trigger] exprs@[j])@),
            forall|j: int| 0 <= j < i ==> encrypted_expr(exprs@[j]@, (#[trigger] out@[j])@),
        decreases exprs@.len() - i,
    {
        match encrypt_expr(&exprs[i]) {
            Ok(e) => out.push(e),
            Err(e) => {
                assert(!workable_expr(exprs_view(exprs@)[i as int]));
                return Err(e);
            },
        }
        i = i + 1;
    }
    proof {
        lemma_exprs_view(out@);
        assert forall|j: int| 0 <= j < exprs@.len() implies workable_expr(
            #[trigger] exprs_view(exprs@)[j],
        ) by {
            assert(workable_expr(exprs@[j]@));
        }
        assert forall|j: int| 0 <= j < exprs@.len() implies encrypted_expr(
            exprs_view(exprs@)[j],
            #[trigger] exprs_view(out@)[j],
        ) by {
            assert(encrypted_expr(exprs@[j]@, out@[j]@));
        }
    }
    Ok(out)
}

/// Encrypts the literals in the arguments of a call, but those that are arguments
/// themselves.
fn encrypt_args(exprs: &Vec<Expr>) -> (r: Result<Vec<Expr>, PassError>)
    ensures
        match r {
            Ok(out) => workable_list(exprs_view(exprs@)) && encrypted_args(
                exprs_view(exprs@),
                exprs_view(out@),
            ),
            Err(e) => e == PassError::MalformedMacroArguments && !workable_list(
                exprs_view(exprs@),
            ),
        },
    decreases exprs,
{
    proof {
        lemma_exprs_view(exprs@);
    }
    let mut out: Vec<Expr> = Vec::new();
    let mut i: usize = 0;
    while i < exprs.len()
        invariant
            i <= exprs@.len(),
            out@.len() == i,
            exprs_view(exprs@).len() == exprs@.len(),
            forall|j: int|
                #![trigger exprs_view(exprs@)[j]]
                0 <= j < exprs@.len() ==> exprs_view(exprs@)[j] == exprs@[j]@,
            forall|j: int| 0 <= j < i ==> workable_expr((#[trigger] exprs@[j])@),
            forall|j: int|
                0 <= j < i ==> if exprs@[j]@ is Lit {
                    (#[trigger] out@[j])@ == exprs@[j]@
                } else {
                    encrypted_expr(exprs@[j]@, out@[j]@)
                },
        decreases exprs@.len() - i,
    {
        match &exprs[i] {
            Expr::Lit(lit) => {
                out.push(Expr::Lit(clone_literal(lit)));
            },
            other => {
                match encrypt_expr(other) {
                    Ok(e) => out.push(e),
                    Err(e) => {
                        assert(!workable_expr(exprs_view(exprs@)[i as int]));
                        return Err(e);
                    },
                }
            },
        }
        i = i + 1;
    }
    proof {
        lemma_exprs_view(out@);
        let src = exprs_view(exprs@);
        let dst = exprs_view(out@);
        assert forall|j: int| 0 <= j < src.len() implies workable_expr(#[trigger] src[j]) by {
            assert(workable_expr(exprs@[j]@));
        }
        assert forall|j: int| 0 <= j < src.len() implies if src[j] is Lit {
            #[trigger] dst[j] == src[j]
        } else {
            encrypted_expr(src[j], dst[j])
        } by {
            assert(dst[j] == out@[j]@);
            assert(src[j] == exprs@[j]@);
        }
    }
    Ok(out)
}

/// Encrypts the literals in an expression.
pub fn encrypt_expr(e: &Expr) -> (r: Result<Expr, PassError>)
    ensures
        match r {
            Ok(out) => workable_expr(e@) && encrypted_expr(e@, out@),
            Err(err) => err == PassError::MalformedMacroArguments && !workable_expr(e@),
        },
    decreases e,
{
    match e {
        Expr::Verbatim(text) => Ok(Expr::Verbatim(text.clone())),
        Expr::Lit(lit) => {
            Ok(encrypt_literal(lit, false))
        },
        Expr::Macro(mac) => match encrypt_macro(mac) {
            Ok(out) => Ok(Expr::Macro(out)),
            Err(err) => Err(err),
        },
        Expr::Block(block) => match encrypt_stmts(&block.stmts) {
            Ok(stmts) => {
                let inner = Block { stmts };
                assert(inner@.stmts == stmts_view(inner.stmts@));
                assert(block@.stmts == stmts_view(block.stmts@));
                Ok(Expr::Block(inner))
            },
            Err(err) => {
                assert(block@.stmts == stmts_view(block.stmts@));
                Err(err)
            },
        },
        Expr::Unsafe(block) => match encrypt_stmts(&block.stmts) {
            Ok(stmts) => {
                let inner = Block { stmts };
                assert(inner@.stmts == stmts_view(inner.stmts@));
                assert(block@.stmts == stmts_view(block.stmts@));
                Ok(Expr::Unsafe(inner))
            },
            Err(err) => {
                assert(block@.stmts == stmts_view(block.stmts@));
                Err(err)
            },
        },
        Expr::Named(name, value) => match encrypt_expr(&**value) {
            Ok(out) => Ok(Expr::Named(name.clone(), Box::new(out))),
            Err(err) => Err(err),
        },
        Expr::Args(args) => match encrypt_args(args) {
            Ok(out) => Ok(Expr::Args(out)),
            Err(err) => Err(err),
        },
        Expr::Group(kind, parts) => {
            if seals(*kind) {
                Ok(Expr::Group(*kind, clone_exprs(parts)))
            } else {
                match encrypt_list(parts) {
                    Ok(out) => Ok(Expr::Group(*kind, out)),
                    Err(err) => Err(err),
                }
            }
        },
    }
}

/// Encrypts the literals in a `let` binding.
fn encrypt_local(local: &Local) -> (r: Result<Local, PassError>)
    ensures
        match r {
            Ok(out) => workable_kind(StmtKindView::Local(local@)) && encrypted_local(
                local@,
                out@,
            ),
            Err(err) => err == PassError::MalformedMacroArguments && !workable_kind(
                StmtKindView::Local(local@),
            ),
        },
    decreases local,
{
    let init = match &local.init {
        None => None,
        Some(Expr::Lit(lit)) => {
            if local.by_reference {
                Some(Expr::Lit(clone_literal(lit)))
            } else {
                Some(encrypt_literal(lit, true))
            }
        },
        Some(init) => match encrypt_expr(init) {
            Ok(out) => Some(out),
            Err(err) => {
                return Err(err);
            },
        },
    };
    Ok(Local { pattern: clone_expr(&local.pattern), by_reference: local.by_reference, init })
}

/// Encrypts the literals in a statement.
fn encrypt_kind(kind: &StmtKind) -> (r: Result<StmtKind, PassError>)
    ensures
        match r {
            Ok(out) => workable_kind(kind@) && encrypted_kind(kind@, out@),
            Err(err) => err == PassError::MalformedMacroArguments && !workable_kind(kind@),
        },
    decreases kind,
{
    match kind {
        StmtKind::Local(local) => match encrypt_local(local) {
            Ok(out) => Ok(StmtKind::Local(out)),
            Err(err) => Err(err),
        },
        StmtKind::Item(e) => match encrypt_expr(e) {
            Ok(out) => Ok(StmtKind::Item(out)),
            Err(err) => Err(err),
        },
        StmtKind::Expr(e) => match encrypt_expr(e) {
            Ok(out) => Ok(StmtKind::Expr(out)),
            Err(err) => Err(err),
        },
        StmtKind::Semi(e) => match encrypt_expr(e) {
            Ok(out) => Ok(StmtKind::Semi(out)),
            Err(err) => Err(err),
        },
        StmtKind::Verbatim(text) => Ok(StmtKind::Verbatim(text.clone())),
        StmtKind::Branch(branch) => Ok(StmtKind::Branch(clone_branch(branch))),
    }
}

/// Encrypts the literals in a list of statements.
pub fn encrypt_stmts(stmts: &Vec<Stmt>) -> (r: Result<Vec<Stmt>, PassError>)
    ensures
        match r {
            Ok(out) => workable_stmts(stmts_view(stmts@)) && encrypted_stmts(
                stmts_view(stmts@),
                stmts_view(out@),
            ),
            Err(err) => err == PassError::MalformedMacroArguments && !workable_stmts(
                stmts_view(stmts@),
            ),
        },
    decreases stmts,
{
    proof {
        lemma_stmts_view(stmts@);
    }
    let mut out: Vec<Stmt> = Vec::new();
    let mut i: usize = 0;
    while i < stmts.len()
        invariant
            i <= stmts@.len(),
            out@.len() == i,
            stmts_view(stmts@).len() == stmts@.len(),
            forall|j: int|
                #![trigger stmts_view(stmts@)[j]]
                0 <= j < stmts@.len() ==> stmts_view(stmts@)[j] == stmts@[j]@,
            forall|j: int| 0 <= j < i ==> workable_kind((#[trigger] stmts@[j])@.kind),
            forall|j: int|
                0 <= j < i ==> (#[trigger] out@[j])@.attrs == stmts@[j]@.attrs && encrypted_kind(
                    stmts@[j]@.kind,
                    out@[j]@.kind,
                ),
        decreases stmts@.len() - i,
    {
        let stmt = &stmts[i];
        match encrypt_kind(&stmt.kind) {
            Ok(kind) => out.push(Stmt { attrs: clone_attrs(&stmt.attrs), kind }),
            Err(err) => {
                assert(!workable_kind(stmts_view(stmts@)[i as int].kind));
                return Err(err);
            },
        }
        i = i + 1;
    }
    proof {
        lemma_stmts_view(out@);
        let src = stmts_view(stmts@);
        let dst = stmts_view(out@);
        assert forall|j: int| 0 <= j < src.len() implies workable_kind(
            (#[trigger] src[j]).kind,
        ) by {
            assert(workable_kind(stmts@[j]@.kind));
        }
        assert forall|j: int| 0 <= j < src.len() implies (#[trigger] dst[j]).attrs == src[j].attrs
            && encrypted_kind(src[j].kind, dst[j].kind) by {
            assert(dst[j] == out@[j]@);
            assert(src[j] == stmts@[j]@);
        }
    }
    Ok(out)
}

/// Encrypts the literals among the arguments of a formatting macro; any other macro is
/// copied.
fn encrypt_macro(mac: &MacroCall) -> (r: Result<MacroCall, PassError>)
    ensures
        match r {
            Ok(out) => workable_macro(mac@) && encrypted_macro(mac@, out@),
            Err(err) => err == PassError::MalformedMacroArguments && !workable_macro(mac@),
        },
    decreases mac,
{
    if !understands_macro(&mac.name) {
        return Ok(clone_macro(mac));
    }
    let args = match &mac.body {
        MacroBody::Tokens(_) => {
            return Err(PassError::MalformedMacroArguments);
        },
        MacroBody::Args(args) => args,
    };
    let ghost views = exprs_view(args@);
    proof {
        lemma_exprs_view(args@);
    }
    let parsed = match FormatArgs::parse(args) {
        Ok(parsed) => parsed,
        Err(err) => {
            return Err(err);
        },
    };
    assert(args@.len() > 0);
    let format = match &args[0] {
        Expr::Lit(lit) => lit,
        _ => {
            return Err(PassError::MalformedMacroArguments);
        },
    };
    match format.kind {
        LitKind::Str => {},
        LitKind::ByteStr => {
            return Err(PassError::MalformedMacroArguments);
        },
    }
    let ghost k = crate::parse::first_named(views, 1);
    proof {
        crate::parse::lemma_first_named(views, 1);
        lemma_exprs_view(parsed.positional_args@);
    }
    let mut out_args: Vec<Expr> = Vec::new();
    if args.len() == 1 && has_no_placeholder(format) {
        let first = Expr::Lit(placeholder());
        let second = encrypt_literal(format, false);
        out_args.push(first);
        out_args.push(second);
        proof {
            lemma_exprs_view(out_args@);
        }
    } else {
        let count = parsed.positional_args.len();
        assert(count == k - 1);
        let mut positional: Vec<Expr> = Vec::new();
        let mut i: usize = 0;
        while i < count
            invariant
                i <= count,
                count == k - 1,
                1 <= k <= args@.len(),
                positional@.len() == i,
                views == exprs_view(args@),
                views.len() == args@.len(),
                is_format_macro(mac@.name),
                mac@.body == MacroBodyView::Args(views),
                forall|j: int|
                    #![trigger views[j]]
                    0 <= j < args@.len() ==> views[j] == args@[j]@,
                forall|j: int| 1 <= j < k ==> !(views[j] is Named),
                mac.body == MacroBody::Args(*args),
                forall|j: int| 1 <= j < i + 1 ==> workable_expr(#[trigger] views[j]),
                forall|j: int|
                    0 <= j < i ==> encrypted_expr(views[j + 1], (#[trigger] positional@[j])@),
            decreases count - i,
        {
            match encrypt_expr(&args[i + 1]) {
                Ok(e) => positional.push(e),
                Err(err) => {
                    assert(!workable_expr(views[i + 1]));
                    assert(!(views[i + 1] is Named));
                    return Err(err);
                },
            }
            i = i + 1;
        }
        let rewritten = FormatArgs {
            format_string: parsed.format_string,
            positional_args: positional,
            named_args: parsed.named_args,
        };
        out_args = rewritten.to_args();
        proof {
            lemma_exprs_view(rewritten.positional_args@);
            let out = exprs_view(out_args@);
            let fa = format_args_of(views).unwrap();
            let rest = views.subrange(k, views.len() as int);
            assert(rewritten@.named_args == fa.named_args);
            assert(out == args_of(rewritten@));
            assert(out.len() == views.len());
            assert(out[0] == views[0]);
            assert forall|j: int| 1 <= j < views.len() implies if views[j] is Named {
                #[trigger] out[j] == views[j]
            } else {
                encrypted_expr(views[j], out[j])
            } by {
                if j < k {
                    assert(out[j] == rewritten.positional_args@[j - 1]@);
                    assert(encrypted_expr(views[(j - 1) + 1], rewritten.positional_args@[j - 1]@));
                    assert(!(views[j] is Named));
                } else {
                    assert(rest[j - k] is Named);
                    assert(rest[j - k] == views[j]);
                    assert(out[j] == crate::parse::named_expr(fa.named_args[j - k]));
                }
            }
            assert forall|j: int| 1 <= j < views.len() implies (#[trigger] views[j]) is Named
                || workable_expr(views[j]) by {
                if j < k {
                    assert(workable_expr(views[j]));
                } else {
                    assert(rest[j - k] is Named);
                    assert(rest[j - k] == views[j]);
                }
            }
        }
    }
    Ok(
        MacroCall {
            name: mac.name.clone(),
            path: mac.path.clone(),
            delimiter: mac.delimiter,
            body: MacroBody::Args(out_args),
        },
    )
}

/// Encrypts the string and byte-string literals of a file. Fails where the arguments of a
/// formatting macro are not a string literal followed by positional and then named
/// arguments.
pub fn encrypt_strings(input: &File) -> (r: Result<File, PassError>)
    ensures
        match r {
            Ok(out) => workable_stmts(input@.items) && encrypted_file(input@, out@),
            Err(err) => err == PassError::MalformedMacroArguments && !workable_stmts(
                input@.items,
            ),
        },
{
    match encrypt_stmts(&input.items) {
        Ok(items) => Ok(File { items }),
        Err(err) => Err(err),
    }
}

/// Every literal that the pass encrypts is reconstructed byte for byte where it is used: the
/// source of what stands in its place is a block that decrypts a record whose plaintext is
/// the bytes of the literal.
pub proof fn lemma_literal_reconstructed(lit: LiteralView, dst: ExprView, owned: bool)
    requires
        fits_cipher(lit.value.len()),
        encrypted_literal(lit, dst, owned),
    ensures
        exists|key: Seq<u8>, nonce: Seq<u8>, ciphertext: Seq<u8>|
            {
                &&& opened(key, nonce, ciphertext) == Some(lit.value)
                &&& crate::ast::expr_source(dst) == "{\n"@ + #[trigger] decryption_text(
                    key,
                    nonce,
                    ciphertext,
                    lit.kind,
                    owned,
                ) + "\n"@ + "}"@
            },
{
    let (key, nonce, ciphertext) = choose|key: Seq<u8>, nonce: Seq<u8>, ciphertext: Seq<u8>|
        {
            &&& dst == #[trigger] decryption_block(key, nonce, ciphertext, lit.kind, owned)
            &&& key.len() == KEY_SIZE
            &&& nonce.len() == NONCE_SIZE
            &&& ciphertext.len() == lit.value.len() + TAG_SIZE
            &&& opened(key, nonce, ciphertext) == Some(lit.value)
        };
    let text = decryption_text(key, nonce, ciphertext, lit.kind, owned);
    let stmt = StmtView { attrs: Seq::empty(), kind: StmtKindView::Verbatim(text) };
    let stmts = seq![stmt];
    assert(stmts.drop_last() =~= Seq::<StmtView>::empty());
    assert(crate::ast::attrs_source(stmt.attrs) =~= Seq::<char>::empty());
    assert(crate::ast::stmt_source(stmt) =~= text);
    assert(crate::ast::stmts_source(stmts) =~= text + "\n"@) by {
        assert(crate::ast::stmts_source(stmts.drop_last()) =~= Seq::<char>::empty());
        assert(stmts.last() == stmt);
    }
    assert(crate::ast::block_source(BlockView { stmts }) =~= "{\n"@ + (text + "\n"@) + "}"@);
    assert(crate::ast::expr_source(dst) =~= "{\n"@ + text + "\n"@ + "}"@);
}

/// A decryption block is not changed by the pass.
pub proof fn lemma_block_stays(block: ExprView, lit: LiteralView, owned: bool, dst: ExprView)
    requires
        decrypts(block, lit, owned),
        encrypted_expr(block, dst),
    ensures
        dst == block,
{
    let src = block->Block_0.stmts;
    let out = dst->Block_0.stmts;
    assert(encrypted_stmts(src, out));
    assert(encrypted_kind(src[0].kind, out[0].kind));
    assert(out[0] == src[0]);
    assert(out =~= src);
}

/// What the pass puts in the place of an expression that is no literal is no literal.
pub proof fn lemma_shape_kept(src: ExprView, dst: ExprView)
    requires
        !(src is Lit),
        encrypted_expr(src, dst),
    ensures
        !(dst is Lit),
{
}

/// A second run of the pass on an expression changes nothing.
pub proof fn lemma_repeat_expr(a: ExprView, b: ExprView, c: ExprView)
    requires
        encrypted_expr(a, b),
        encrypted_expr(b, c),
    ensures
        c == b,
    decreases a,
{
    match a {
        ExprView::Verbatim(_) => {},
        ExprView::Lit(lit) => {
            if fits_cipher(lit.value.len()) {
                lemma_block_stays(b, lit, false, c);
            }
        },
        ExprView::Macro(mac) => {
            lemma_repeat_macro(mac, b->Macro_0, c->Macro_0);
        },
        ExprView::Block(block) => {
            lemma_repeat_stmts(block.stmts, b->Block_0.stmts, c->Block_0.stmts);
        },
        ExprView::Unsafe(block) => {
            lemma_repeat_stmts(block.stmts, b->Unsafe_0.stmts, c->Unsafe_0.stmts);
        },
        ExprView::Named(_, value) => {
            lemma_repeat_expr(*value, *b->Named_1, *c->Named_1);
        },
        ExprView::Args(args) => {
            let bs = b->Args_0;
            let cs = c->Args_0;
            assert(encrypted_args(args, bs));
            assert(encrypted_args(bs, cs));
            assert forall|i: int| 0 <= i < bs.len() implies cs[i] == bs[i] by {
                if args[i] is Lit {
                    assert(bs[i] == args[i]);
                } else if bs[i] is Lit {
                } else {
                    assert(encrypted_expr(args[i], bs[i]));
                    lemma_repeat_expr(args[i], bs[i], cs[i]);
                }
            }
            assert(cs =~= bs);
        },
        ExprView::Group(kind, parts) => {
            if !is_sealed(kind) {
                lemma_repeat_list(parts, b->Group_1, c->Group_1);
            }
        },
    }
}

/// A second run of the pass on a list of expressions changes nothing.
pub proof fn lemma_repeat_list(a: Seq<ExprView>, b: Seq<ExprView>, c: Seq<ExprView>)
    requires
        encrypted_list(a, b),
        encrypted_list(b, c),
    ensures
        c == b,
    decreases a,
{
    assert forall|i: int| 0 <= i < b.len() implies c[i] == b[i] by {
        assert(encrypted_expr(a[i], b[i]));
        lemma_repeat_expr(a[i], b[i], c[i]);
    }
    assert(c =~= b);
}

/// A second run of the pass on a macro invocation changes nothing.
pub proof fn lemma_repeat_macro(a: MacroCallView, b: MacroCallView, c: MacroCallView)
    requires
        encrypted_macro(a, b),
        encrypted_macro(b, c),
    ensures
        c == b,
    decreases a,
{
    if is_format_macro(a.name) {
        let args = a.body->Args_0;
        let bs = b.body->Args_0;
        let cs = c.body->Args_0;
        let format = args[0]->Lit_0;
        if args.len() == 1 && is_trivial_format(format) {
            assert(bs[0] == ExprView::Lit(placeholder_literal()));
            assert(cs.len() == 2);
            assert(cs[0] == bs[0]);
            if fits_cipher(format.value.len()) {
                assert(decrypts(bs[1], format, false));
                assert(!(bs[1] is Named));
                lemma_block_stays(bs[1], format, false, cs[1]);
            } else {
                assert(bs[1] == ExprView::Lit(format));
            }
            assert(cs =~= bs);
        } else {
            assert(bs[0] == args[0]);
            assert(cs.len() == bs.len());
            assert forall|i: int| 0 <= i < bs.len() implies cs[i] == bs[i] by {
                if i == 0 {
                } else if bs[i] is Named {
                } else {
                    if args[i] is Named {
                        assert(bs[i] == args[i]);
                    } else {
                        assert(encrypted_expr(args[i], bs[i]));
                        lemma_repeat_expr(args[i], bs[i], cs[i]);
                    }
                }
            }
            assert(cs =~= bs);
        }
        assert(c.body == b.body);
    }
}

/// A second run of the pass on a statement changes nothing.
pub proof fn lemma_repeat_kind(a: StmtKindView, b: StmtKindView, c: StmtKindView)
    requires
        encrypted_kind(a, b),
        encrypted_kind(b, c),
    ensures
        c == b,
    decreases a,
{
    match a {
        StmtKindView::Local(local) => {
            let lb = b->Local_0;
            let lc = c->Local_0;
            match local.init {
                None => {},
                Some(ExprView::Lit(lit)) => {
                    if !local.by_reference && fits_cipher(lit.value.len()) {
                        assert(decrypts(lb.init->0, lit, true));
                        lemma_block_stays(lb.init->0, lit, true, lc.init->0);
                    }
                },
                Some(init) => {
                    lemma_shape_kept(init, lb.init->0);
                    lemma_repeat_expr(init, lb.init->0, lc.init->0);
                },
            }
        },
        StmtKindView::Item(e) => {
            lemma_repeat_expr(e, b->Item_0, c->Item_0);
        },
        StmtKindView::Expr(e) => {
            lemma_repeat_expr(e, b->Expr_0, c->Expr_0);
        },
        StmtKindView::Semi(e) => {
            lemma_repeat_expr(e, b->Semi_0, c->Semi_0);
        },
        StmtKindView::Verbatim(_) => {},
        StmtKindView::Branch(_) => {},
    }
}

/// A second run of the pass on a list of statements changes nothing.
pub proof fn lemma_repeat_stmts(a: Seq<StmtView>, b: Seq<StmtView>, c: Seq<StmtView>)
    requires
        encrypted_stmts(a, b),
        encrypted_stmts(b, c),
    ensures
        c == b,
    decreases a,
{
    assert forall|i: int| 0 <= i < b.len() implies c[i] == b[i] by {
        assert(b[i].attrs == a[i].attrs);
        assert(c[i].attrs == b[i].attrs);
        lemma_repeat_kind(a[i].kind, b[i].kind, c[i].kind);
    }
    assert(c =~= b);
}

/// Applied twice, the pass gives what it gives applied once: the second run finds no
/// literal to encrypt and leaves the file as the first run made it.
pub proof fn lemma_repeat_file(a: FileView, b: FileView, c: FileView)
    requires
        encrypted_file(a, b),
        encrypted_file(b, c),
    ensures
        c == b,
{
    lemma_repeat_stmts(a.items, b.items, c.items);
}

/// The pass leaves an empty block empty.
pub proof fn lemma_empty_block_kept(dst: ExprView)
    requires
        encrypted_expr(ExprView::Block(BlockView { stmts: Seq::empty() }), dst),
    ensures
        dst == ExprView::Block(BlockView { stmts: Seq::empty() }),
{
    assert(encrypted_stmts(Seq::empty(), dst->Block_0.stmts));
    assert(dst->Block_0.stmts =~= Seq::<StmtView>::empty());
}

/// What the pass puts in the place of an expression is a named value only where the
/// expression was one.
pub proof fn lemma_named_kept(src: ExprView, dst: ExprView)
    requires
        encrypted_expr(src, dst),
    ensures
        dst is Named <==> src is Named,
{
}

/// What the pass puts in the place of a literal is something that it can work on.
pub proof fn lemma_literal_workable(lit: LiteralView, dst: ExprView, owned: bool)
    requires
        encrypted_literal(lit, dst, owned),
    ensures
        workable_expr(dst),
{
    if fits_cipher(lit.value.len()) {
        let stmts = dst->Block_0.stmts;
        assert(stmts.len() == 1);
        assert(workable_kind(stmts[0].kind));
        assert(workable_stmts(stmts));
    }
}

/// The pass can work on what it has made of an expression.
pub proof fn lemma_output_workable_expr(src: ExprView, dst: ExprView)
    requires
        workable_expr(src),
        encrypted_expr(src, dst),
    ensures
        workable_expr(dst),
    decreases src,
{
    match src {
        ExprView::Verbatim(_) => {},
        ExprView::Lit(lit) => {
            lemma_literal_workable(lit, dst, false);
        },
        ExprView::Macro(mac) => {
            lemma_output_workable_macro(mac, dst->Macro_0);
        },
        ExprView::Block(block) => {
            lemma_output_workable_stmts(block.stmts, dst->Block_0.stmts);
        },
        ExprView::Unsafe(block) => {
            lemma_output_workable_stmts(block.stmts, dst->Unsafe_0.stmts);
        },
        ExprView::Named(_, value) => {
            lemma_output_workable_expr(*value, *dst->Named_1);
        },
        ExprView::Args(args) => {
            let out = dst->Args_0;
            assert(workable_list(args));
            assert(encrypted_args(args, out));
            assert forall|i: int| 0 <= i < out.len() implies workable_expr(#[trigger] out[i]) by {
                assert(workable_expr(args[i]));
                if !(args[i] is Lit) {
                    lemma_output_workable_expr(args[i], out[i]);
                }
            }
            assert(workable_list(out));
        },
        ExprView::Group(kind, parts) => {
            if !is_sealed(kind) {
                let out = dst->Group_1;
                assert(workable_list(parts));
                assert(encrypted_list(parts, out));
                assert forall|i: int| 0 <= i < out.len() implies workable_expr(
                    #[trigger] out[i],
                ) by {
                    assert(workable_expr(parts[i]));
                    lemma_output_workable_expr(parts[i], out[i]);
                }
                assert(workable_list(out));
            }
        },
    }
}

/// The pass can work on what it has made of a macro invocation.
pub proof fn lemma_output_workable_macro(src: MacroCallView, dst: MacroCallView)
    requires
        workable_macro(src),
        encrypted_macro(src, dst),
    ensures
        workable_macro(dst),
    decreases src,
{
    if is_format_macro(src.name) {
        let args = src.body->Args_0;
        let out = dst.body->Args_0;
        let format = args[0]->Lit_0;
        if args.len() == 1 && is_trivial_format(format) {
            lemma_literal_workable(format, out[1], false);
            assert(!(out[1] is Named));
            crate::parse::lemma_first_named(out, 1);
            let k = crate::parse::first_named(out, 1);
            assert(k == 2) by {
                if k < 2 {
                    assert(out[k] is Named);
                }
            }
            assert(out.subrange(k, out.len() as int).len() == 0);
            assert(format_args_of(out) is Some);
            assert forall|i: int| 1 <= i < out.len() implies (#[trigger] out[i]) is Named
                || workable_expr(out[i]) by {
                assert(i == 1);
            }
        } else {
            assert forall|i: int| 1 <= i < out.len() implies ((#[trigger] out[i]) is Named
                <==> args[i] is Named) by {
                if !(args[i] is Named) {
                    lemma_named_kept(args[i], out[i]);
                }
            }
            crate::parse::lemma_first_named(args, 1);
            crate::parse::lemma_first_named(out, 1);
            let k = crate::parse::first_named(args, 1);
            let k2 = crate::parse::first_named(out, 1);
            assert(k2 == k) by {
                if k2 < k {
                    assert(out[k2] is Named);
                    assert(!(args[k2] is Named));
                }
                if k < k2 {
                    assert(args[k] is Named);
                    assert(!(out[k] is Named));
                }
            }
            let rest = args.subrange(k, args.len() as int);
            let rest2 = out.subrange(k, out.len() as int);
            assert forall|i: int| 0 <= i < rest2.len() implies (#[trigger] rest2[i]) is Named by {
                assert(rest[i] is Named);
                assert(rest[i] == args[k + i]);
                assert(rest2[i] == out[k + i]);
            }
            assert(format_args_of(out) is Some);
            assert forall|i: int| 1 <= i < out.len() implies (#[trigger] out[i]) is Named
                || workable_expr(out[i]) by {
                if !(args[i] is Named) {
                    assert(workable_expr(args[i]));
                    lemma_output_workable_expr(args[i], out[i]);
                }
            }
        }
    }
}

/// The pass can work on what it has made of a statement.
pub proof fn lemma_output_workable_kind(src: StmtKindView, dst: StmtKindView)
    requires
        workable_kind(src),
        encrypted_kind(src, dst),
    ensures
        workable_kind(dst),
    decreases src,
{
    match src {
        StmtKindView::Local(local) => {
            let made = dst->Local_0;
            match local.init {
                None => {},
                Some(ExprView::Lit(lit)) => {
                    if !local.by_reference {
                        lemma_literal_workable(lit, made.init->0, true);
                    }
                },
                Some(init) => {
                    lemma_output_workable_expr(init, made.init->0);
                },
            }
        },
        StmtKindView::Item(e) => {
            lemma_output_workable_expr(e, dst->Item_0);
        },
        StmtKindView::Expr(e) => {
            lemma_output_workable_expr(e, dst->Expr_0);
        },
        StmtKindView::Semi(e) => {
            lemma_output_workable_expr(e, dst->Semi_0);
        },
        StmtKindView::Verbatim(_) => {},
        StmtKindView::Branch(_) => {},
    }
}

/// The pass can work on what it has made of a list of statements.
pub proof fn lemma_output_workable_stmts(src: Seq<StmtView>, dst: Seq<StmtView>)
    requires
        workable_stmts(src),
        encrypted_stmts(src, dst),
    ensures
        workable_stmts(dst),
    decreases src,
{
    assert forall|i: int| 0 <= i < dst.len() implies workable_kind((#[trigger] dst[i]).kind) by {
        assert(workable_kind(src[i].kind));
        lemma_output_workable_kind(src[i].kind, dst[i].kind);
    }
}

/// The pass succeeds on its own output: where it could work on a file, it can work on what
/// it has made of the file, so that a second run does not fail.
pub proof fn lemma_output_workable_file(src: FileView, dst: FileView)
    requires
        workable_stmts(src.items),
        encrypted_file(src, dst),
    ensures
        workable_stmts(dst.items),
{
    lemma_output_workable_stmts(src.items, dst.items);
}

} // verus!
