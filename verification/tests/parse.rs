use r2d2::ast::Expr;
use r2d2::ast::LitKind;
use r2d2::ast::Literal;
use r2d2::error::PassError;
use r2d2::parse::AssertArgs;
use r2d2::parse::AssertCmpArgs;
use r2d2::parse::FormatArgs;

fn verbatim(text: &str) -> Expr {
    Expr::Verbatim(text.to_string())
}

fn lit(value: &str) -> Expr {
    Expr::Lit(Literal {
        kind: LitKind::Str,
        text: format!("{:?}", value),
        value: value.as_bytes().to_vec(),
    })
}

fn named(name: &str, value: Expr) -> Expr {
    Expr::Named(name.to_string(), Box::new(value))
}

#[test]
fn format_string_then_positional_then_named() {
    let args = vec![
        lit("{} is {n:.p$}"),
        lit("x"),
        named("p", verbatim("5")),
        named("n", verbatim("0.01")),
    ];
    let parsed = FormatArgs::parse(&args).unwrap();
    assert_eq!(parsed.format_string, lit("{} is {n:.p$}"));
    assert_eq!(parsed.positional_args, vec![lit("x")]);
    assert_eq!(
        parsed.named_args,
        vec![("p".to_string(), verbatim("5")), ("n".to_string(), verbatim("0.01"))]
    );
    assert_eq!(parsed.to_args(), args);
}

#[test]
fn format_string_alone() {
    let parsed = FormatArgs::parse(&vec![lit("Hello, world!")]).unwrap();
    assert_eq!(parsed.format_string, lit("Hello, world!"));
    assert!(parsed.positional_args.is_empty());
    assert!(parsed.named_args.is_empty());
    assert_eq!(parsed.to_args(), vec![lit("Hello, world!")]);
}

#[test]
fn named_arguments_only() {
    let args = vec![lit("{a}"), named("a", verbatim("1"))];
    let parsed = FormatArgs::parse(&args).unwrap();
    assert!(parsed.positional_args.is_empty());
    assert_eq!(parsed.named_args.len(), 1);
}

#[test]
fn no_arguments_are_malformed() {
    assert_eq!(FormatArgs::parse(&vec![]), Err(PassError::MalformedMacroArguments));
}

#[test]
fn positional_after_named_is_malformed() {
    let args = vec![lit("{}{a}"), named("a", verbatim("1")), verbatim("2")];
    assert_eq!(FormatArgs::parse(&args), Err(PassError::MalformedMacroArguments));
}

#[test]
fn a_named_format_expression_is_taken_as_the_format() {
    let args = vec![named("a", verbatim("1")), verbatim("2")];
    let parsed = FormatArgs::parse(&args).unwrap();
    assert_eq!(parsed.format_string, named("a", verbatim("1")));
    assert_eq!(parsed.positional_args, vec![verbatim("2")]);
}

#[test]
fn assertion_with_and_without_message() {
    let bare = AssertArgs::parse(&vec![verbatim("7 == 7")]).unwrap();
    assert_eq!(bare.condition, verbatim("7 == 7"));
    assert_eq!(bare.message, None);
    let with = AssertArgs::parse(&vec![verbatim("ok"), lit("failed: {}"), verbatim("why")]).unwrap();
    assert_eq!(with.condition, verbatim("ok"));
    let message = with.message.unwrap();
    assert_eq!(message.format_string, lit("failed: {}"));
    assert_eq!(message.positional_args, vec![verbatim("why")]);
}

#[test]
fn assertion_with_a_malformed_message_has_none() {
    let parsed =
        AssertArgs::parse(&vec![verbatim("ok"), lit("{a}"), named("a", verbatim("1")), verbatim("2")])
            .unwrap();
    assert_eq!(parsed.message, None);
}

#[test]
fn assertion_without_condition_is_malformed() {
    assert_eq!(AssertArgs::parse(&vec![]), Err(PassError::MalformedMacroArguments));
}

#[test]
fn comparing_assertion_takes_two_sides() {
    let parsed = AssertCmpArgs::parse(&vec![verbatim("x"), verbatim("8")]).unwrap();
    assert_eq!(parsed.first_condition, verbatim("x"));
    assert_eq!(parsed.second_condition, verbatim("8"));
    assert_eq!(parsed.message, None);
    let with = AssertCmpArgs::parse(&vec![verbatim("x"), verbatim("8"), lit("differ")]).unwrap();
    assert_eq!(with.message.unwrap().format_string, lit("differ"));
}

#[test]
fn comparing_assertion_with_one_side_is_malformed() {
    assert_eq!(AssertCmpArgs::parse(&vec![verbatim("x")]), Err(PassError::MalformedMacroArguments));
    assert_eq!(AssertCmpArgs::parse(&vec![]), Err(PassError::MalformedMacroArguments));
}

#[test]
fn error_messages() {
    assert_eq!(PassError::MalformedMacroArguments.message(), "malformed macro arguments");
    assert_eq!(PassError::Parse.message(), "the source does not parse");
    assert_eq!(
        PassError::KillDateAbsent.message(),
        "refusing to use a default kill date in release mode"
    );
    assert_eq!(PassError::KillDatePast.message(), "cannot use a kill date in the past");
    assert_eq!(PassError::KillDateInvalid.message(), "the kill date is not a number of seconds");
}
