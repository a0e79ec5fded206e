//! The syntax tree that the passes work on, its mathematical view and its source text.

use vstd::prelude::*;
use vstd::string::StringExecFns;
use crate::shatter::IntegrityCheck;

verus! {

/// An attribute on a statement or an item.
#[derive(Debug, PartialEq, Eq)]
pub struct Attribute {
    /// The identifier of the attribute's path, empty where the path is longer.
    pub name: String,
    /// The attribute as it stands in the source, brackets included.
    pub text: String,
}

/// An attribute as a mathematical value.
pub struct AttributeView {
    pub name: Seq<char>,
    pub text: Seq<char>,
}

impl View for Attribute {
    type V = AttributeView;

    open spec fn view(&self) -> AttributeView {
        AttributeView { name: self.name@, text: self.text@ }
    }
}

/// The kinds of literal that the string pass encrypts.
#[derive(Debug, Clone, Copy, PartialEq, Eq, Structural)]
pub enum LitKind {
    Str,
    ByteStr,
}

/// A string or byte-string literal.
#[derive(Debug, PartialEq, Eq)]
pub struct Literal {
    pub kind: LitKind,
    /// The literal as it stands in the source, quotes and escapes included.
    pub text: String,
    /// The bytes that the literal denotes.
    pub value: Vec<u8>,
}

/// A literal as a mathematical value.
pub struct LiteralView {
    pub kind: LitKind,
    pub text: Seq<char>,
    pub value: Seq<u8>,
}

impl View for Literal {
    type V = LiteralView;

    open spec fn view(&self) -> LiteralView {
        LiteralView { kind: self.kind, text: self.text@, value: self.value@ }
    }
}

/// The brackets around the body of a macro invocation.
#[derive(Debug, Clone, Copy, PartialEq, Eq, Structural)]
pub enum Delimiter {
    Paren,
    Brace,
    Bracket,
}

/// What a group of parts is, as far as the passes tell groups apart.
#[derive(Debug, Clone, Copy, PartialEq, Eq, Structural)]
pub enum GroupKind {
    /// Any form that no pass treats specially.
    Plain,
    /// `break`, `continue`, `return` or `yield`, with what follows the keyword.
    Jump,
    /// A constant item or a type: what is in it is evaluated when the program is compiled.
    Const,
    /// A pattern: what is in it is matched, not evaluated.
    Pattern,
}

/// True for the groups that hold nothing that runs where they stand: constants and
/// patterns. A pass that puts code into a program leaves what is in them alone.
pub open spec fn is_sealed(kind: GroupKind) -> bool {
    kind == GroupKind::Const || kind == GroupKind::Pattern
}

/// Tells whether a group holds nothing that runs where it stands.
pub fn seals(kind: GroupKind) -> (sealed: bool)
    ensures
        sealed == is_sealed(kind),
{
    kind == GroupKind::Const || kind == GroupKind::Pattern
}

/// The body of a macro invocation.
#[derive(Debug, PartialEq, Eq)]
pub enum MacroBody {
    /// Expressions separated by commas.
    Args(Vec<Expr>),
    /// Tokens that are no list of expressions, as source text.
    Tokens(String),
}

/// A macro invocation.
#[derive(Debug, PartialEq, Eq)]
pub struct MacroCall {
    /// The identifier of the macro's path, empty where the path is longer.
    pub name: String,
    /// The path as it stands in the source.
    pub path: String,
    pub delimiter: Delimiter,
    pub body: MacroBody,
}

/// An expression, an item, or any part of one.
#[derive(Debug, PartialEq, Eq)]
pub enum Expr {
    /// Source text that the passes do not look into.
    Verbatim(String),
    /// A string or byte-string literal.
    Lit(Literal),
    Macro(MacroCall),
    /// A block in braces.
    Block(Block),
    /// A block in braces behind the keyword `unsafe`.
    Unsafe(Block),
    /// `name = value`.
    Named(String, Box<Expr>),
    /// The arguments of a call, in parentheses.
    Args(Vec<Expr>),
    /// The parts of any other form, in the order of the source.
    Group(GroupKind, Vec<Expr>),
}

/// A `let` binding.
#[derive(Debug, PartialEq, Eq)]
pub struct Local {
    /// The pattern, with its type where one is written.
    pub pattern: Expr,
    /// True where the binding is annotated with a reference type.
    pub by_reference: bool,
    pub init: Option<Expr>,
}

/// A branch that the shatter pass has put into a block: statements that set a condition up,
/// and an `if` on the condition whose body is never meant to run.
#[derive(Debug, PartialEq, Eq)]
pub struct Branch {
    /// The statements that set the condition up, as source text.
    pub setup: String,
    /// The condition, as source text.
    pub check: String,
    /// The record of the integrity probe, where the condition is one.
    pub record: Option<IntegrityCheck>,
    pub body: Block,
}

/// What a statement is.
#[derive(Debug, PartialEq, Eq)]
pub enum StmtKind {
    Local(Local),
    Item(Expr),
    /// An expression without a semicolon.
    Expr(Expr),
    /// An expression with a semicolon.
    Semi(Expr),
    /// Statements that a pass has generated, as source text.
    Verbatim(String),
    /// A branch that the shatter pass has generated.
    Branch(Branch),
}

/// A statement of a block or an item of a file, with its attributes.
#[derive(Debug, PartialEq, Eq)]
pub struct Stmt {
    pub attrs: Vec<Attribute>,
    pub kind: StmtKind,
}

/// A block: statements in braces.
#[derive(Debug, PartialEq, Eq)]
pub struct Block {
    pub stmts: Vec<Stmt>,
}

/// A source file: its items.
#[derive(Debug, PartialEq, Eq)]
pub struct File {
    pub items: Vec<Stmt>,
}

/// The body of a macro invocation as a mathematical value.
pub enum MacroBodyView {
    Args(Seq<ExprView>),
    Tokens(Seq<char>),
}

/// A macro invocation as a mathematical value.
pub struct MacroCallView {
    pub name: Seq<char>,
    pub path: Seq<char>,
    pub delimiter: Delimiter,
    pub body: MacroBodyView,
}

/// An expression as a mathematical value.
pub enum ExprView {
    Verbatim(Seq<char>),
    Lit(LiteralView),
    Macro(MacroCallView),
    Block(BlockView),
    Unsafe(BlockView),
    Named(Seq<char>, Box<ExprView>),
    Args(Seq<ExprView>),
    Group(GroupKind, Seq<ExprView>),
}

/// A `let` binding as a mathematical value.
pub struct LocalView {
    pub pattern: ExprView,
    pub by_reference: bool,
    pub init: Option<ExprView>,
}

/// A generated branch as a mathematical value.
pub struct BranchView {
    pub setup: Seq<char>,
    pub check: Seq<char>,
    pub record: Option<IntegrityCheck>,
    pub body: BlockView,
}

/// What a statement is, as a mathematical value.
pub enum StmtKindView {
    Local(LocalView),
    Item(ExprView),
    Expr(ExprView),
    Semi(ExprView),
    Verbatim(Seq<char>),
    Branch(BranchView),
}

/// A statement as a mathematical value.
pub struct StmtView {
    pub attrs: Seq<AttributeView>,
    pub kind: StmtKindView,
}

/// A block as a mathematical value.
pub struct BlockView {
    pub stmts: Seq<StmtView>,
}

/// A file as a mathematical value.
pub struct FileView {
    pub items: Seq<StmtView>,
}

/// The views of a list of attributes.
pub open spec fn attrs_view(attrs: Seq<Attribute>) -> Seq<AttributeView> {
    attrs.map_values(|a: Attribute| a@)
}

/// The views of a list of expressions.
pub open spec fn exprs_view(exprs: Seq<Expr>) -> Seq<ExprView>
    decreases exprs,
{
    if exprs.len() == 0 {
        Seq::empty()
    } else {
        exprs_view(exprs.drop_last()).push(exprs.last()@)
    }
}

/// The views of a list of statements.
pub open spec fn stmts_view(stmts: Seq<Stmt>) -> Seq<StmtView>
    decreases stmts,
{
    if stmts.len() == 0 {
        Seq::empty()
    } else {
        stmts_view(stmts.drop_last()).push(stmts.last()@)
    }
}

impl View for MacroCall {
    type V = MacroCallView;

    open spec fn view(&self) -> MacroCallView
        decreases self,
    {
        MacroCallView {
            name: self.name@,
            path: self.path@,
            delimiter: self.delimiter,
            body: match self.body {
                MacroBody::Args(args) => MacroBodyView::Args(exprs_view(args@)),
                MacroBody::Tokens(tokens) => MacroBodyView::Tokens(tokens@),
            },
        }
    }
}

impl View for Expr {
    type V = ExprView;

    open spec fn view(&self) -> ExprView
        decreases self,
    {
        match self {
            Expr::Verbatim(text) => ExprView::Verbatim(text@),
            Expr::Lit(lit) => ExprView::Lit(lit@),
            Expr::Macro(mac) => ExprView::Macro(mac@),
            Expr::Block(block) => ExprView::Block(block@),
            Expr::Unsafe(block) => ExprView::Unsafe(block@),
            Expr::Named(name, value) => ExprView::Named(name@, Box::new((**value)@)),
            Expr::Args(args) => ExprView::Args(exprs_view(args@)),
            Expr::Group(kind, parts) => ExprView::Group(*kind, exprs_view(parts@)),
        }
    }
}

impl View for Local {
    type V = LocalView;

    open spec fn view(&self) -> LocalView
        decreases self,
    {
        LocalView {
            pattern: self.pattern@,
            by_reference: self.by_reference,
            init: match self.init {
                Some(e) => Some(e@),
                None => None,
            },
        }
    }
}

impl View for Branch {
    type V = BranchView;

    open spec fn view(&self) -> BranchView
        decreases self,
    {
        BranchView {
            setup: self.setup@,
            check: self.check@,
            record: self.record,
            body: self.body@,
        }
    }
}

impl View for StmtKind {
    type V = StmtKindView;

    open spec fn view(&self) -> StmtKindView
        decreases self,
    {
        match self {
            StmtKind::Local(local) => StmtKindView::Local(local@),
            StmtKind::Item(e) => StmtKindView::Item(e@),
            StmtKind::Expr(e) => StmtKindView::Expr(e@),
            StmtKind::Semi(e) => StmtKindView::Semi(e@),
            StmtKind::Verbatim(text) => StmtKindView::Verbatim(text@),
            StmtKind::Branch(branch) => StmtKindView::Branch(branch@),
        }
    }
}

impl View for Stmt {
    type V = StmtView;

    open spec fn view(&self) -> StmtView
        decreases self,
    {
        StmtView { attrs: attrs_view(self.attrs@), kind: self.kind@ }
    }
}

impl View for Block {
    type V = BlockView;

    open spec fn view(&self) -> BlockView
        decreases self,
    {
        BlockView { stmts: stmts_view(self.stmts@) }
    }
}

impl View for File {
    type V = FileView;

    open spec fn view(&self) -> FileView {
        FileView { items: stmts_view(self.items@) }
    }
}

/// The view of a list of expressions holds the views of its items, in order.
pub proof fn lemma_exprs_view(exprs: Seq<Expr>)
    ensures
        exprs_view(exprs).len() == exprs.len(),
        forall|i: int|
            #![trigger exprs_view(exprs)[i]]
            #![trigger exprs[i]]
            0 <= i < exprs.len() ==> exprs_view(exprs)[i] == exprs[i]@,
    decreases exprs.len(),
{
    if exprs.len() > 0 {
        let init = exprs.drop_last();
        lemma_exprs_view(init);
        assert(exprs_view(exprs) == exprs_view(init).push(exprs.last()@));
        assert forall|i: int| 0 <= i < exprs.len() implies exprs_view(exprs)[i] == exprs[i]@ by {
            if i < exprs.len() - 1 {
                assert(init[i] == exprs[i]);
                assert(exprs_view(init)[i] == init[i]@);
            }
        }
    }
}

/// The view of a list of statements holds the views of its items, in order.
pub proof fn lemma_stmts_view(stmts: Seq<Stmt>)
    ensures
        stmts_view(stmts).len() == stmts.len(),
        forall|i: int|
            #![trigger stmts_view(stmts)[i]]
            #![trigger stmts[i]]
            0 <= i < stmts.len() ==> stmts_view(stmts)[i] == stmts[i]@,
    decreases stmts.len(),
{
    if stmts.len() > 0 {
        let init = stmts.drop_last();
        lemma_stmts_view(init);
        assert(stmts_view(stmts) == stmts_view(init).push(stmts.last()@));
        assert forall|i: int| 0 <= i < stmts.len() implies stmts_view(stmts)[i] == stmts[i]@ by {
            if i < stmts.len() - 1 {
                assert(init[i] == stmts[i]);
                assert(stmts_view(init)[i] == init[i]@);
            }
        }
    }
}

/// The view of a list with one more expression.
pub proof fn lemma_exprs_view_push(exprs: Seq<Expr>, e: Expr)
    ensures
        exprs_view(exprs.push(e)) == exprs_view(exprs).push(e@),
{
    assert(exprs.push(e).drop_last() =~= exprs);
}

/// The view of a list with one more statement.
pub proof fn lemma_stmts_view_push(stmts: Seq<Stmt>, s: Stmt)
    ensures
        stmts_view(stmts.push(s)) == stmts_view(stmts).push(s@),
{
    assert(stmts.push(s).drop_last() =~= stmts);
}

/// The opening bracket of a delimiter.
pub open spec fn opening(d: Delimiter) -> Seq<char> {
    match d {
        Delimiter::Paren => "("@,
        Delimiter::Brace => "{"@,
        Delimiter::Bracket => "["@,
    }
}

/// The closing bracket of a delimiter.
pub open spec fn closing(d: Delimiter) -> Seq<char> {
    match d {
        Delimiter::Paren => ")"@,
        Delimiter::Brace => "}"@,
        Delimiter::Bracket => "]"@,
    }
}

/// The source text of a list of expressions: each followed by `sep`, but the last.
pub open spec fn list_source(parts: Seq<ExprView>, sep: Seq<char>) -> Seq<char>
    decreases parts,
{
    if parts.len() == 0 {
        Seq::empty()
    } else if parts.len() == 1 {
        expr_source(parts[0])
    } else {
        list_source(parts.drop_last(), sep) + sep + expr_source(parts.last())
    }
}

/// The source text of a macro invocation: path, `!`, and the body in its brackets.
pub open spec fn macro_source(mac: MacroCallView) -> Seq<char>
    decreases mac,
{
    mac.path + "!"@ + opening(mac.delimiter) + match mac.body {
        MacroBodyView::Args(args) => list_source(args, ", "@),
        MacroBodyView::Tokens(tokens) => tokens,
    } + closing(mac.delimiter)
}

/// The source text of an expression.
pub open spec fn expr_source(e: ExprView) -> Seq<char>
    decreases e,
{
    match e {
        ExprView::Verbatim(text) => text,
        ExprView::Lit(lit) => lit.text,
        ExprView::Macro(mac) => macro_source(mac),
        ExprView::Block(block) => block_source(block),
        ExprView::Unsafe(block) => "unsafe "@ + block_source(block),
        ExprView::Named(name, value) => name + " = "@ + expr_source(*value),
        ExprView::Args(args) => "("@ + list_source(args, ", "@) + ")"@,
        ExprView::Group(_, parts) => list_source(parts, " "@),
    }
}

/// The source text of the attributes of a statement: each followed by a space.
pub open spec fn attrs_source(attrs: Seq<AttributeView>) -> Seq<char>
    decreases attrs.len(),
{
    if attrs.len() == 0 {
        Seq::empty()
    } else {
        attrs_source(attrs.drop_last()) + attrs.last().text + " "@
    }
}

/// The source text of a `let` binding.
pub open spec fn local_source(local: LocalView) -> Seq<char>
    decreases local,
{
    "let "@ + expr_source(local.pattern) + match local.init {
        Some(init) => " = "@ + expr_source(init),
        None => Seq::empty(),
    } + ";"@
}

/// The source text of a statement, attributes first.
pub open spec fn stmt_source(stmt: StmtView) -> Seq<char>
    decreases stmt,
{
    attrs_source(stmt.attrs) + match stmt.kind {
        StmtKindView::Local(local) => local_source(local),
        StmtKindView::Item(e) => expr_source(e),
        StmtKindView::Expr(e) => expr_source(e),
        StmtKindView::Semi(e) => expr_source(e) + ";"@,
        StmtKindView::Verbatim(text) => text,
        StmtKindView::Branch(branch) => branch_source(branch),
    }
}

/// The source text of a generated branch: the setup, and the `if` on the condition.
pub open spec fn branch_source(branch: BranchView) -> Seq<char>
    decreases branch,
{
    branch.setup + "\nif "@ + branch.check + " "@ + block_source(branch.body)
}

/// The source text of a list of statements: each followed by a line break.
pub open spec fn stmts_source(stmts: Seq<StmtView>) -> Seq<char>
    decreases stmts,
{
    if stmts.len() == 0 {
        Seq::empty()
    } else {
        stmts_source(stmts.drop_last()) + stmt_source(stmts.last()) + "\n"@
    }
}

/// The source text of a block: its statements in braces.
pub open spec fn block_source(block: BlockView) -> Seq<char>
    decreases block,
{
    "{\n"@ + stmts_source(block.stmts) + "}"@
}

/// The source text of a file.
pub open spec fn file_source(file: FileView) -> Seq<char> {
    stmts_source(file.items)
}

/// The opening bracket of a delimiter, as text.
fn opening_str(d: Delimiter) -> (s: &'static str)
    ensures
        s@ == opening(d),
{
    match d {
        Delimiter::Paren => "(",
        Delimiter::Brace => "{",
        Delimiter::Bracket => "[",
    }
}

/// The closing bracket of a delimiter, as text.
fn closing_str(d: Delimiter) -> (s: &'static str)
    ensures
        s@ == closing(d),
{
    match d {
        Delimiter::Paren => ")",
        Delimiter::Brace => "}",
        Delimiter::Bracket => "]",
    }
}

/// Appends the source text of a list of expressions.
pub fn push_list(out: &mut String, parts: &Vec<Expr>, sep: &str)
    ensures
        final(out)@ == old(out)@ + list_source(exprs_view(parts@), sep@),
    decreases parts,
{
    let ghost start = out@;
    let ghost views = exprs_view(parts@);
    proof {
        lemma_exprs_view(parts@);
    }
    let mut i: usize = 0;
    assert(views.take(0) =~= Seq::<ExprView>::empty());
    while i < parts.len()
        invariant
            i <= parts@.len(),
            views == exprs_view(parts@),
            views.len() == parts@.len(),
            forall|j: int| 0 <= j < parts@.len() ==> views[j] == (#[trigger] parts@[j])@,
            out@ == start + list_source(views.take(i as int), sep@),
        decreases parts@.len() - i,
    {
        if i > 0 {
            out.append(sep);
        }
        push_expr(out, &parts[i]);
        proof {
            let next = views.take(i + 1);
            assert(next.drop_last() =~= views.take(i as int));
            assert(next.last() == parts@[i as int]@);
            if i == 0 {
                assert(next[0] == next.last());
            }
            assert(out@ =~= start + list_source(next, sep@));
        }
        i = i + 1;
    }
    assert(views.take(parts@.len() as int) =~= views);
}

/// Appends the source text of a macro invocation.
pub fn push_macro(out: &mut String, mac: &MacroCall)
    ensures
        final(out)@ == old(out)@ + macro_source(mac@),
    decreases mac,
{
    out.append(mac.path.as_str());
    out.append("!");
    out.append(opening_str(mac.delimiter));
    match &mac.body {
        MacroBody::Args(args) => push_list(out, args, ", "),
        MacroBody::Tokens(tokens) => out.append(tokens.as_str()),
    }
    out.append(closing_str(mac.delimiter));
    assert(final(out)@ =~= old(out)@ + macro_source(mac@));
}

/// Appends the source text of an expression.
pub fn push_expr(out: &mut String, e: &Expr)
    ensures
        final(out)@ == old(out)@ + expr_source(e@),
    decreases e,
{
    match e {
        Expr::Verbatim(text) => out.append(text.as_str()),
        Expr::Lit(lit) => out.append(lit.text.as_str()),
        Expr::Macro(mac) => push_macro(out, mac),
        Expr::Block(block) => push_block(out, block),
        Expr::Unsafe(block) => {
            out.append("unsafe ");
            push_block(out, block);
        },
        Expr::Named(name, value) => {
            out.append(name.as_str());
            out.append(" = ");
            push_expr(out, &**value);
        },
        Expr::Args(args) => {
            out.append("(");
            push_list(out, args, ", ");
            out.append(")");
        },
        Expr::Group(_, parts) => push_list(out, parts, " "),
    }
    assert(final(out)@ =~= old(out)@ + expr_source(e@));
}

/// Appends the source text of a list of attributes.
pub fn push_attrs(out: &mut String, attrs: &Vec<Attribute>)
    ensures
        final(out)@ == old(out)@ + attrs_source(attrs_view(attrs@)),
{
    let ghost start = out@;
    let ghost views = attrs_view(attrs@);
    let mut i: usize = 0;
    assert(views.take(0) =~= Seq::<AttributeView>::empty());
    while i < attrs.len()
        invariant
            i <= attrs@.len(),
            views == attrs_view(attrs@),
            out@ == start + attrs_source(views.take(i as int)),
        decreases attrs@.len() - i,
    {
        out.append(attrs[i].text.as_str());
        out.append(" ");
        proof {
            let next = views.take(i + 1);
            assert(next.drop_last() =~= views.take(i as int));
            assert(next.last() == attrs@[i as int]@);
            assert(out@ =~= start + attrs_source(next));
        }
        i = i + 1;
    }
    assert(views.take(attrs@.len() as int) =~= views);
}

/// Appends the source text of a `let` binding.
pub fn push_local(out: &mut String, local: &Local)
    ensures
        final(out)@ == old(out)@ + local_source(local@),
    decreases local,
{
    out.append("let ");
    push_expr(out, &local.pattern);
    match &local.init {
        Some(init) => {
            out.append(" = ");
            push_expr(out, init);
        },
        None => {},
    }
    out.append(";");
    assert(final(out)@ =~= old(out)@ + local_source(local@));
}

/// Appends the source text of a statement.
pub fn push_stmt(out: &mut String, stmt: &Stmt)
    ensures
        final(out)@ == old(out)@ + stmt_source(stmt@),
    decreases stmt,
{
    push_attrs(out, &stmt.attrs);
    match &stmt.kind {
        StmtKind::Local(local) => push_local(out, local),
        StmtKind::Item(e) => push_expr(out, e),
        StmtKind::Expr(e) => push_expr(out, e),
        StmtKind::Semi(e) => {
            push_expr(out, e);
            out.append(";");
        },
        StmtKind::Verbatim(text) => out.append(text.as_str()),
        StmtKind::Branch(branch) => push_branch(out, branch),
    }
    assert(final(out)@ =~= old(out)@ + stmt_source(stmt@));
}

/// Appends the source text of a generated branch.
pub fn push_branch(out: &mut String, branch: &Branch)
    ensures
        final(out)@ == old(out)@ + branch_source(branch@),
    decreases branch,
{
    out.append(branch.setup.as_str());
    out.append("\nif ");
    out.append(branch.check.as_str());
    out.append(" ");
    push_block(out, &branch.body);
    assert(final(out)@ =~= old(out)@ + branch_source(branch@));
}

/// Appends the source text of a list of statements.
pub fn push_stmts(out: &mut String, stmts: &Vec<Stmt>)
    ensures
        final(out)@ == old(out)@ + stmts_source(stmts_view(stmts@)),
    decreases stmts,
{
    let ghost start = out@;
    let ghost views = stmts_view(stmts@);
    proof {
        lemma_stmts_view(stmts@);
    }
    let mut i: usize = 0;
    assert(views.take(0) =~= Seq::<StmtView>::empty());
    while i < stmts.len()
        invariant
            i <= stmts@.len(),
            views == stmts_view(stmts@),
            views.len() == stmts@.len(),
            forall|j: int| 0 <= j < stmts@.len() ==> views[j] == (#[trigger] stmts@[j])@,
            out@ == start + stmts_source(views.take(i as int)),
        decreases stmts@.len() - i,
    {
        push_stmt(out, &stmts[i]);
        out.append("\n");
        proof {
            let next = views.take(i + 1);
            assert(next.drop_last() =~= views.take(i as int));
            assert(next.last() == stmts@[i as int]@);
            assert(out@ =~= start + stmts_source(next));
        }
        i = i + 1;
    }
    assert(views.take(stmts@.len() as int) =~= views);
}

/// Appends the source text of a block.
pub fn push_block(out: &mut String, block: &Block)
    ensures
        final(out)@ == old(out)@ + block_source(block@),
    decreases block,
{
    out.append("{\n");
    push_stmts(out, &block.stmts);
    out.append("}");
    assert(final(out)@ =~= old(out)@ + block_source(block@));
}

impl File {
    /// The source text of the file.
    pub fn to_source(&self) -> (text: String)
        ensures
            text@ == file_source(self@),
    {
        let mut out = String::new();
        push_stmts(&mut out, &self.items);
        assert(out@ =~= file_source(self@));
        out
    }
}

/// A copy of a list of attributes.
pub fn clone_attrs(attrs: &Vec<Attribute>) -> (out: Vec<Attribute>)
    ensures
        attrs_view(out@) == attrs_view(attrs@),
{
    let mut out: Vec<Attribute> = Vec::new();
    let mut i: usize = 0;
    while i < attrs.len()
        invariant
            i <= attrs@.len(),
            out@.len() == i,
            forall|j: int| 0 <= j < i ==> out@[j]@ == attrs@[j]@,
        decreases attrs@.len() - i,
    {
        out.push(Attribute { name: attrs[i].name.clone(), text: attrs[i].text.clone() });
        i = i + 1;
    }
    assert(attrs_view(out@) =~= attrs_view(attrs@));
    out
}

/// A copy of a literal.
pub fn clone_literal(lit: &Literal) -> (out: Literal)
    ensures
        out@ == lit@,
{
    let value = lit.value.clone();
    assert(value@ =~= lit.value@);
    Literal { kind: lit.kind, text: lit.text.clone(), value }
}

/// A copy of a list of expressions.
pub fn clone_exprs(exprs: &Vec<Expr>) -> (out: Vec<Expr>)
    ensures
        exprs_view(out@) == exprs_view(exprs@),
    decreases exprs,
{
    let mut out: Vec<Expr> = Vec::new();
    let mut i: usize = 0;
    while i < exprs.len()
        invariant
            i <= exprs@.len(),
            out@.len() == i,
            forall|j: int| 0 <= j < i ==> out@[j]@ == exprs@[j]@,
        decreases exprs@.len() - i,
    {
        out.push(clone_expr(&exprs[i]));
        i = i + 1;
    }
    proof {
        lemma_exprs_view(out@);
        lemma_exprs_view(exprs@);
        assert(exprs_view(out@) =~= exprs_view(exprs@));
    }
    out
}

/// A copy of a macro invocation.
pub fn clone_macro(mac: &MacroCall) -> (out: MacroCall)
    ensures
        out@ == mac@,
    decreases mac,
{
    MacroCall {
        name: mac.name.clone(),
        path: mac.path.clone(),
        delimiter: mac.delimiter,
        body: match &mac.body {
            MacroBody::Args(args) => MacroBody::Args(clone_exprs(args)),
            MacroBody::Tokens(tokens) => MacroBody::Tokens(tokens.clone()),
        },
    }
}

/// A copy of an expression.
pub fn clone_expr(e: &Expr) -> (out: Expr)
    ensures
        out@ == e@,
    decreases e,
{
    match e {
        Expr::Verbatim(text) => Expr::Verbatim(text.clone()),
        Expr::Lit(lit) => Expr::Lit(clone_literal(lit)),
        Expr::Macro(mac) => Expr::Macro(clone_macro(mac)),
        Expr::Block(block) => Expr::Block(clone_block(block)),
        Expr::Unsafe(block) => Expr::Unsafe(clone_block(block)),
        Expr::Named(name, value) => Expr::Named(name.clone(), Box::new(clone_expr(&**value))),
        Expr::Args(args) => Expr::Args(clone_exprs(args)),
        Expr::Group(kind, parts) => Expr::Group(*kind, clone_exprs(parts)),
    }
}

/// A copy of a `let` binding.
pub fn clone_local(local: &Local) -> (out: Local)
    ensures
        out@ == local@,
    decreases local,
{
    Local {
        pattern: clone_expr(&local.pattern),
        by_reference: local.by_reference,
        init: match &local.init {
            Some(init) => Some(clone_expr(init)),
            None => None,
        },
    }
}

/// A copy of a statement.
pub fn clone_stmt(stmt: &Stmt) -> (out: Stmt)
    ensures
        out@ == stmt@,
    decreases stmt,
{
    Stmt {
        attrs: clone_attrs(&stmt.attrs),
        kind: match &stmt.kind {
            StmtKind::Local(local) => StmtKind::Local(clone_local(local)),
            StmtKind::Item(e) => StmtKind::Item(clone_expr(e)),
            StmtKind::Expr(e) => StmtKind::Expr(clone_expr(e)),
            StmtKind::Semi(e) => StmtKind::Semi(clone_expr(e)),
            StmtKind::Verbatim(text) => StmtKind::Verbatim(text.clone()),
            StmtKind::Branch(branch) => StmtKind::Branch(clone_branch(branch)),
        },
    }
}

/// A copy of a generated branch.
pub fn clone_branch(branch: &Branch) -> (out: Branch)
    ensures
        out@ == branch@,
    decreases branch,
{
    Branch {
        setup: branch.setup.clone(),
        check: branch.check.clone(),
        record: branch.record,
        body: clone_block(&branch.body),
    }
}

/// A copy of a list of statements.
pub fn clone_stmts(stmts: &Vec<Stmt>) -> (out: Vec<Stmt>)
    ensures
        stmts_view(out@) == stmts_view(stmts@),
    decreases stmts,
{
    let mut out: Vec<Stmt> = Vec::new();
    let mut i: usize = 0;
    while i < stmts.len()
        invariant
            i <= stmts@.len(),
            out@.len() == i,
            forall|j: int| 0 <= j < i ==> out@[j]@ == stmts@[j]@,
        decreases stmts@.len() - i,
    {
        out.push(clone_stmt(&stmts[i]));
        i = i + 1;
    }
    proof {
        lemma_stmts_view(out@);
        lemma_stmts_view(stmts@);
        assert(stmts_view(out@) =~= stmts_view(stmts@));
    }
    out
}

/// A copy of a block.
pub fn clone_block(block: &Block) -> (out: Block)
    ensures
        out@ == block@,
    decreases block,
{
    Block { stmts: clone_stmts(&block.stmts) }
}

/// True where one of the attributes is called `name`.
pub open spec fn has_attribute(attrs: Seq<AttributeView>, name: Seq<char>) -> bool {
    exists|i: int| 0 <= i < attrs.len() && (#[trigger] attrs[i]).name == name
}

/// The attributes that are not called `name`, in their order.
pub open spec fn without_attribute(attrs: Seq<AttributeView>, name: Seq<char>) -> Seq<AttributeView>
    decreases attrs.len(),
{
    if attrs.len() == 0 {
        Seq::empty()
    } else if attrs.last().name == name {
        without_attribute(attrs.drop_last(), name)
    } else {
        without_attribute(attrs.drop_last(), name).push(attrs.last())
    }
}

/// Attributes among which none is called `name` are all kept.
pub proof fn lemma_without_absent(attrs: Seq<AttributeView>, name: Seq<char>)
    requires
        !has_attribute(attrs, name),
    ensures
        without_attribute(attrs, name) == attrs,
    decreases attrs.len(),
{
    if attrs.len() > 0 {
        let init = attrs.drop_last();
        assert(attrs[attrs.len() - 1].name != name);
        assert(!has_attribute(init, name)) by {
            if has_attribute(init, name) {
                let i = choose|i: int| 0 <= i < init.len() && (#[trigger] init[i]).name == name;
                assert(attrs[i].name == name);
            }
        }
        lemma_without_absent(init, name);
        assert(init.push(attrs.last()) =~= attrs);
    }
}

/// What is left after stripping holds no attribute called `name`, and stripping again
/// changes nothing.
pub proof fn lemma_without_twice(attrs: Seq<AttributeView>, name: Seq<char>)
    ensures
        !has_attribute(without_attribute(attrs, name), name),
        without_attribute(without_attribute(attrs, name), name) == without_attribute(attrs, name),
    decreases attrs.len(),
{
    if attrs.len() > 0 {
        let init = attrs.drop_last();
        lemma_without_twice(init, name);
        let kept = without_attribute(init, name);
        if attrs.last().name != name {
            let all = kept.push(attrs.last());
            assert(!has_attribute(all, name)) by {
                if has_attribute(all, name) {
                    let i = choose|i: int| 0 <= i < all.len() && (#[trigger] all[i]).name == name;
                    if i < kept.len() {
                        assert(kept[i].name == name);
                    }
                }
            }
        }
        lemma_without_absent(without_attribute(attrs, name), name);
    } else {
        assert(!has_attribute(without_attribute(attrs, name), name));
    }
}

/// Tells whether one of the attributes is called `name`.
pub fn contains_attribute(attrs: &Vec<Attribute>, name: &str) -> (found: bool)
    ensures
        found == has_attribute(attrs_view(attrs@), name@),
{
    let wanted = name.to_owned();
    let ghost views = attrs_view(attrs@);
    let mut i: usize = 0;
    while i < attrs.len()
        invariant
            i <= attrs@.len(),
            wanted@ == name@,
            views == attrs_view(attrs@),
            forall|j: int| 0 <= j < i ==> (#[trigger] views[j]).name != name@,
        decreases attrs@.len() - i,
    {
        if attrs[i].name == wanted {
            assert(views[i as int].name == name@);
            return true;
        }
        i = i + 1;
    }
    false
}

/// The attributes that are not called `name`, copied in their order.
pub fn strip_attribute(attrs: &Vec<Attribute>, name: &str) -> (out: Vec<Attribute>)
    ensures
        attrs_view(out@) == without_attribute(attrs_view(attrs@), name@),
{
    let wanted = name.to_owned();
    let ghost views = attrs_view(attrs@);
    let mut out: Vec<Attribute> = Vec::new();
    let mut i: usize = 0;
    assert(views.take(0) =~= Seq::<AttributeView>::empty());
    assert(attrs_view(out@) =~= Seq::<AttributeView>::empty());
    while i < attrs.len()
        invariant
            i <= attrs@.len(),
            wanted@ == name@,
            views == attrs_view(attrs@),
            attrs_view(out@) == without_attribute(views.take(i as int), name@),
        decreases attrs@.len() - i,
    {
        proof {
            let next = views.take(i + 1);
            assert(next.drop_last() =~= views.take(i as int));
            assert(next.last() == attrs@[i as int]@);
        }
        if !(attrs[i].name == wanted) {
            let copy = Attribute { name: attrs[i].name.clone(), text: attrs[i].text.clone() };
            let ghost before = out@;
            out.push(copy);
            assert(attrs_view(out@) =~= attrs_view(before).push(copy@));
        }
        i = i + 1;
    }
    assert(views.take(attrs@.len() as int) =~= views);
    out
}

impl Stmt {
    /// An expression in the place of a statement: the expression with a semicolon.
    pub fn from_expr(e: Expr) -> (stmt: Stmt)
        ensures
            stmt@ == (StmtView { attrs: Seq::empty(), kind: StmtKindView::Semi(e@) }),
    {
        let stmt = Stmt { attrs: Vec::new(), kind: StmtKind::Semi(e) };
        assert(attrs_view(stmt.attrs@) =~= Seq::<AttributeView>::empty());
        stmt
    }

    /// Tells whether the statement has an attribute called `name`.
    pub fn has_attribute(&self, name: &str) -> (found: bool)
        ensures
            found == has_attribute(self@.attrs, name@),
    {
        contains_attribute(&self.attrs, name)
    }
}

/// The block that holds one statement without attributes.
pub open spec fn single(kind: StmtKindView) -> BlockView {
    BlockView { stmts: seq![StmtView { attrs: Seq::empty(), kind }] }
}

impl Block {
    /// The block that holds one statement without attributes.
    pub fn single(kind: StmtKind) -> (block: Block)
        ensures
            block@ == single(kind@),
    {
        let mut stmts: Vec<Stmt> = Vec::new();
        stmts.push(Stmt { attrs: Vec::new(), kind });
        let block = Block { stmts };
        proof {
            lemma_stmts_view(block.stmts@);
            assert(attrs_view(block.stmts@[0].attrs@) =~= Seq::<AttributeView>::empty());
            assert(block@.stmts =~= seq![block.stmts@[0]@]);
        }
        block
    }
}

} // verus!
