//! The arguments of the formatting macros and of the assertion macros.

use vstd::prelude::*;
use crate::ast::clone_expr;
use crate::ast::Expr;
use crate::ast::exprs_view;
use crate::ast::ExprView;
use crate::ast::lemma_exprs_view;
use crate::error::PassError;

verus! {

/// The arguments of a formatting macro such as `println!("{} is {n:.p$}", "x", p = 5, n = 0.01)`.
#[derive(Debug, PartialEq, Eq)]
pub struct FormatArgs {
    pub format_string: Expr,
    pub positional_args: Vec<Expr>,
    pub named_args: Vec<(String, Expr)>,
}

/// The arguments of a formatting macro as a mathematical value.
pub struct FormatArgsView {
    pub format_string: ExprView,
    pub positional_args: Seq<ExprView>,
    pub named_args: Seq<(Seq<char>, ExprView)>,
}

/// The views of a list of named arguments.
pub open spec fn named_view(named: Seq<(String, Expr)>) -> Seq<(Seq<char>, ExprView)> {
    named.map_values(|p: (String, Expr)| (p.0@, p.1@))
}

impl View for FormatArgs {
    type V = FormatArgsView;

    open spec fn view(&self) -> FormatArgsView {
        FormatArgsView {
            format_string: self.format_string@,
            positional_args: exprs_view(self.positional_args@),
            named_args: named_view(self.named_args@),
        }
    }
}

/// The least index from `from` on at which a named argument stands, or the length of the
/// list where none does.
pub open spec fn first_named(args: Seq<ExprView>, from: int) -> int
    decreases args.len() - from,
{
    if from < 0 || from >= args.len() {
        args.len() as int
    } else if args[from] is Named {
        from
    } else {
        first_named(args, from + 1)
    }
}

/// What a named argument holds: its name and its value.
pub open spec fn name_and_value(e: ExprView) -> (Seq<char>, ExprView) {
    match e {
        ExprView::Named(name, value) => (name, *value),
        _ => (Seq::empty(), e),
    }
}

/// A named argument as an expression.
pub open spec fn named_expr(p: (Seq<char>, ExprView)) -> ExprView {
    ExprView::Named(p.0, Box::new(p.1))
}

/// How a list of arguments reads as the arguments of a formatting macro: the first is the
/// format expression, positional arguments follow up to the first named one, and from there
/// on every argument is named. `None` where the list is empty or a positional argument
/// follows a named one.
pub open spec fn format_args_of(args: Seq<ExprView>) -> Option<FormatArgsView> {
    if args.len() == 0 {
        None
    } else {
        let k = first_named(args, 1);
        let rest = args.subrange(k, args.len() as int);
        if forall|i: int| 0 <= i < rest.len() ==> rest[i] is Named {
            Some(
                FormatArgsView {
                    format_string: args[0],
                    positional_args: args.subrange(1, k),
                    named_args: rest.map_values(|e: ExprView| name_and_value(e)),
                },
            )
        } else {
            None
        }
    }
}

/// The list of arguments that reads as `fa`.
pub open spec fn args_of(fa: FormatArgsView) -> Seq<ExprView> {
    seq![fa.format_string] + fa.positional_args + fa.named_args.map_values(
        |p: (Seq<char>, ExprView)| named_expr(p),
    )
}

/// Where the first named argument stands: within the list, behind arguments that are not
/// named.
pub proof fn lemma_first_named(args: Seq<ExprView>, from: int)
    requires
        0 <= from <= args.len(),
    ensures
        from <= first_named(args, from) <= args.len(),
        first_named(args, from) < args.len() ==> args[first_named(args, from)] is Named,
        forall|i: int| from <= i < first_named(args, from) ==> !(args[i] is Named),
    decreases args.len() - from,
{
    if from < args.len() && !(args[from] is Named) {
        lemma_first_named(args, from + 1);
    }
}

impl FormatArgs {
    /// Reads a list of arguments as the arguments of a formatting macro.
    pub fn parse(args: &Vec<Expr>) -> (r: Result<FormatArgs, PassError>)
        ensures
            match r {
                Ok(fa) => format_args_of(exprs_view(args@)) == Some(fa@),
                Err(e) => e == PassError::MalformedMacroArguments && format_args_of(
                    exprs_view(args@),
                ) is None,
            },
    {
        let ghost views = exprs_view(args@);
        proof {
            lemma_exprs_view(args@);
        }
        if args.len() == 0 {
            return Err(PassError::MalformedMacroArguments);
        }
        let format_string = clone_expr(&args[0]);
        let mut positional_args: Vec<Expr> = Vec::new();
        let mut i: usize = 1;
        let mut in_positional = true;
        while in_positional && i < args.len()
            invariant
                1 <= i <= args@.len(),
                views == exprs_view(args@),
                views.len() == args@.len(),
                forall|j: int| 0 <= j < args@.len() ==> #[trigger] views[j] == args@[j]@,
                first_named(views, 1) == first_named(views, i as int),
                !in_positional ==> i < args@.len() && views[i as int] is Named,
                exprs_view(positional_args@) == views.subrange(1, i as int),
            decreases args@.len() - i + if in_positional { 1int } else { 0int },
        {
            match &args[i] {
                Expr::Named(_, _) => {
                    assert(views[i as int] == args@[i as int]@);
                    in_positional = false;
                },
                other => {
                    assert(views[i as int] == args@[i as int]@);
                    let copy = clone_expr(other);
                    proof {
                        crate::ast::lemma_exprs_view_push(positional_args@, copy);
                        assert(views.subrange(1, i as int).push(copy@) =~= views.subrange(
                            1,
                            i + 1,
                        ));
                    }
                    positional_args.push(copy);
                    i = i + 1;
                },
            }
        }
        let ghost k = i as int;
        assert(k == first_named(views, 1));
        let ghost rest = views.subrange(k, views.len() as int);
        let mut named_args: Vec<(String, Expr)> = Vec::new();
        while i < args.len()
            invariant
                1 <= k <= i <= args@.len(),
                k == first_named(views, 1),
                named_args@.len() == i - k,
                views == exprs_view(args@),
                views.len() == args@.len(),
                rest == views.subrange(k, views.len() as int),
                forall|j: int| 0 <= j < args@.len() ==> #[trigger] views[j] == args@[j]@,
                forall|j: int| 0 <= j < i - k ==> rest[j] is Named,
                named_view(named_args@) == rest.take(i - k).map_values(
                    |e: ExprView| name_and_value(e),
                ),
            decreases args@.len() - i,
        {
            assert(views[i as int] == args@[i as int]@);
            assert(rest[i - k] == views[i as int]);
            match &args[i] {
                Expr::Named(name, value) => {
                    let pair = (name.clone(), clone_expr(&**value));
                    let ghost before = named_args@;
                    named_args.push(pair);
                    assert(named_view(named_args@) =~= rest.take(i + 1 - k).map_values(
                        |e: ExprView| name_and_value(e),
                    )) by {
                        assert(named_args@ == before.push(pair));
                        assert(named_view(before) == rest.take(i - k).map_values(
                            |e: ExprView| name_and_value(e),
                        ));
                        assert forall|j: int| 0 <= j < i + 1 - k implies named_view(
                            named_args@,
                        )[j] == rest.take(i + 1 - k).map_values(
                            |e: ExprView| name_and_value(e),
                        )[j] by {
                            if j < i - k {
                                assert(named_args@[j] == before[j]);
                                assert(named_view(named_args@)[j] == named_view(before)[j]);
                            } else {
                                assert(named_args@[j] == pair);
                            }
                        }
                    }
                },
                _ => {
                    assert(!(rest[i - k] is Named));
                    return Err(PassError::MalformedMacroArguments);
                },
            }
            i = i + 1;
        }
        assert(rest.take(rest.len() as int) =~= rest);
        Ok(FormatArgs { format_string, positional_args, named_args })
    }

    /// The arguments as a list: the format expression, the positional arguments, and the
    /// named ones each as `name = value`.
    pub fn to_args(&self) -> (args: Vec<Expr>)
        ensures
            exprs_view(args@) == args_of(self@),
    {
        let mut args: Vec<Expr> = Vec::new();
        args.push(clone_expr(&self.format_string));
        let ghost head = seq![self.format_string@];
        proof {
            lemma_exprs_view(args@);
            lemma_exprs_view(self.positional_args@);
            assert(exprs_view(args@) =~= head);
        }
        let ghost positional = exprs_view(self.positional_args@);
        let mut i: usize = 0;
        while i < self.positional_args.len()
            invariant
                i <= self.positional_args@.len(),
                positional == exprs_view(self.positional_args@),
                positional.len() == self.positional_args@.len(),
                forall|j: int|
                    0 <= j < positional.len() ==> #[trigger] positional[j]
                        == self.positional_args@[j]@,
                exprs_view(args@) == head + positional.take(i as int),
            decreases self.positional_args@.len() - i,
        {
            let copy = clone_expr(&self.positional_args[i]);
            proof {
                crate::ast::lemma_exprs_view_push(args@, copy);
                assert((head + positional.take(i as int)).push(copy@) =~= head + positional.take(
                    i + 1,
                ));
            }
            args.push(copy);
            i = i + 1;
        }
        assert(positional.take(positional.len() as int) =~= positional);
        let ghost named = named_view(self.named_args@).map_values(
            |p: (Seq<char>, ExprView)| named_expr(p),
        );
        let mut n: usize = 0;
        while n < self.named_args.len()
            invariant
                n <= self.named_args@.len(),
                named == named_view(self.named_args@).map_values(
                    |p: (Seq<char>, ExprView)| named_expr(p),
                ),
                exprs_view(args@) == head + positional + named.take(n as int),
            decreases self.named_args@.len() - n,
        {
            let pair = &self.named_args[n];
            let copy = Expr::Named(pair.0.clone(), Box::new(clone_expr(&pair.1)));
            proof {
                crate::ast::lemma_exprs_view_push(args@, copy);
                assert(copy@ == named[n as int]);
                assert((head + positional + named.take(n as int)).push(copy@) =~= head
                    + positional + named.take(n + 1));
            }
            args.push(copy);
            n = n + 1;
        }
        assert(named.take(named.len() as int) =~= named);
        args
    }
}

/// The message of an assertion: what the arguments from `from` on read as, if they read as
/// the arguments of a formatting macro.
pub open spec fn message_of(args: Seq<ExprView>, from: int) -> Option<FormatArgsView> {
    if from < args.len() {
        format_args_of(args.subrange(from, args.len() as int))
    } else {
        None
    }
}

/// Reads the arguments from `from` on as the message of an assertion.
fn message_after(args: &Vec<Expr>, from: usize) -> (r: Option<FormatArgs>)
    ensures
        match r {
            Some(fa) => message_of(exprs_view(args@), from as int) == Some(fa@),
            None => message_of(exprs_view(args@), from as int) is None,
        },
{
    let ghost views = exprs_view(args@);
    proof {
        lemma_exprs_view(args@);
    }
    if from >= args.len() {
        return None;
    }
    let mut tail: Vec<Expr> = Vec::new();
    let mut i: usize = from;
    while i < args.len()
        invariant
            from <= i <= args@.len(),
            views == exprs_view(args@),
            views.len() == args@.len(),
            forall|j: int| 0 <= j < args@.len() ==> #[trigger] views[j] == args@[j]@,
            exprs_view(tail@) == views.subrange(from as int, i as int),
        decreases args@.len() - i,
    {
        let copy = clone_expr(&args[i]);
        proof {
            crate::ast::lemma_exprs_view_push(tail@, copy);
            assert(views.subrange(from as int, i as int).push(copy@) =~= views.subrange(
                from as int,
                i + 1,
            ));
        }
        tail.push(copy);
        i = i + 1;
    }
    match FormatArgs::parse(&tail) {
        Ok(fa) => Some(fa),
        Err(_) => None,
    }
}

/// The arguments of `assert!` and `debug_assert!`.
#[derive(Debug, PartialEq, Eq)]
pub struct AssertArgs {
    pub condition: Expr,
    pub message: Option<FormatArgs>,
}

/// The arguments of an assertion as a mathematical value.
pub struct AssertArgsView {
    pub condition: ExprView,
    pub message: Option<FormatArgsView>,
}

impl View for AssertArgs {
    type V = AssertArgsView;

    open spec fn view(&self) -> AssertArgsView {
        AssertArgsView {
            condition: self.condition@,
            message: match self.message {
                Some(fa) => Some(fa@),
                None => None,
            },
        }
    }
}

/// How a list of arguments reads as those of an assertion: the condition, then a message
/// where what follows reads as one. `None` where the list is empty.
pub open spec fn assert_args_of(args: Seq<ExprView>) -> Option<AssertArgsView> {
    if args.len() == 0 {
        None
    } else {
        Some(AssertArgsView { condition: args[0], message: message_of(args, 1) })
    }
}

impl AssertArgs {
    /// Reads a list of arguments as those of an assertion.
    pub fn parse(args: &Vec<Expr>) -> (r: Result<AssertArgs, PassError>)
        ensures
            match r {
                Ok(parsed) => assert_args_of(exprs_view(args@)) == Some(parsed@),
                Err(e) => e == PassError::MalformedMacroArguments && assert_args_of(
                    exprs_view(args@),
                ) is None,
            },
    {
        proof {
            lemma_exprs_view(args@);
        }
        if args.len() == 0 {
            return Err(PassError::MalformedMacroArguments);
        }
        Ok(AssertArgs { condition: clone_expr(&args[0]), message: message_after(args, 1) })
    }
}

/// The arguments of `assert_eq!`, `assert_ne!` and their `debug_` forms.
#[derive(Debug, PartialEq, Eq)]
pub struct AssertCmpArgs {
    pub first_condition: Expr,
    pub second_condition: Expr,
    pub message: Option<FormatArgs>,
}

/// The arguments of a comparing assertion as a mathematical value.
pub struct AssertPairView {
    pub first_condition: ExprView,
    pub second_condition: ExprView,
    pub message: Option<FormatArgsView>,
}

impl View for AssertCmpArgs {
    type V = AssertPairView;

    open spec fn view(&self) -> AssertPairView {
        AssertPairView {
            first_condition: self.first_condition@,
            second_condition: self.second_condition@,
            message: match self.message {
                Some(fa) => Some(fa@),
                None => None,
            },
        }
    }
}

/// How a list of arguments reads as those of a comparing assertion: the two sides, then a
/// message where what follows reads as one. `None` where the list holds fewer than two.
pub open spec fn assert_pair_of(args: Seq<ExprView>) -> Option<AssertPairView> {
    if args.len() < 2 {
        None
    } else {
        Some(
            AssertPairView {
                first_condition: args[0],
                second_condition: args[1],
                message: message_of(args, 2),
            },
        )
    }
}

impl AssertCmpArgs {
    /// Reads a list of arguments as those of a comparing assertion.
    pub fn parse(args: &Vec<Expr>) -> (r: Result<Self, PassError>)
        ensures
            match r {
                Ok(parsed) => assert_pair_of(exprs_view(args@)) == Some(parsed@),
                Err(e) => e == PassError::MalformedMacroArguments && assert_pair_of(
                    exprs_view(args@),
                ) is None,
            },
    {
        proof {
            lemma_exprs_view(args@);
        }
        if args.len() < 2 {
            return Err(PassError::MalformedMacroArguments);
        }
        Ok(
            Self {
                first_condition: clone_expr(&args[0]),
                second_condition: clone_expr(&args[1]),
                message: message_after(args, 2),
            },
        )
    }
}

/// The arguments that stand for a parsed list are read back as that list: writing out what
/// was parsed gives the arguments that were parsed.
pub proof fn lemma_parse_then_write(args: Seq<ExprView>)
    requires
        format_args_of(args) is Some,
    ensures
        args_of(format_args_of(args).unwrap()) == args,
{
    lemma_first_named(args, 1);
    let k = first_named(args, 1);
    let rest = args.subrange(k, args.len() as int);
    let fa = format_args_of(args).unwrap();
    let named = fa.named_args.map_values(|p: (Seq<char>, ExprView)| named_expr(p));
    assert forall|i: int| 0 <= i < rest.len() implies named[i] == rest[i] by {
        assert(rest[i] is Named);
    }
    assert(named =~= rest);
    assert(args_of(fa) =~= args);
}

/// Arguments that are written out are read back as they were: where no positional argument
/// has the form of a named one, parsing the list that stands for `fa` gives `fa`.
pub proof fn lemma_write_then_parse(fa: FormatArgsView)
    requires
        forall|i: int| 0 <= i < fa.positional_args.len() ==> !(fa.positional_args[i] is Named),
    ensures
        format_args_of(args_of(fa)) == Some(fa),
{
    let args = args_of(fa);
    let named = fa.named_args.map_values(|p: (Seq<char>, ExprView)| named_expr(p));
    let k: int = (1 + fa.positional_args.len()) as int;
    lemma_first_named(args, 1);
    assert forall|i: int| 1 <= i < k implies !(args[i] is Named) by {
        assert(args[i] == fa.positional_args[i - 1]);
    }
    if k < args.len() {
        assert(args[k] == named[0]);
        assert(args[k] is Named);
    }
    assert(first_named(args, 1) == k) by {
        let f = first_named(args, 1);
        if f < k {
            assert(args[f] is Named);
        }
        if f > k {
            assert(!(args[k] is Named));
        }
    }
    let rest = args.subrange(k, args.len() as int);
    assert(rest =~= named);
    assert(args.subrange(1, k) =~= fa.positional_args);
    assert(rest.map_values(|e: ExprView| name_and_value(e)) =~= fa.named_args);
}

} // verus!
