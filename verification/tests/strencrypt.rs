use r2d2::ast::clone_exprs;
use r2d2::ast::Block;
use r2d2::ast::Delimiter;
use r2d2::ast::Expr;
use r2d2::ast::File;
use r2d2::ast::GroupKind;
use r2d2::ast::LitKind;
use r2d2::ast::Literal;
use r2d2::ast::Local;
use r2d2::ast::MacroBody;
use r2d2::ast::MacroCall;
use r2d2::ast::Stmt;
use r2d2::ast::StmtKind;
use r2d2::crypto::encrypt_memory_with;
use r2d2::crypto::try_decrypt_memory;
use r2d2::crypto::MemoryEncryptionCtx;
use r2d2::error::PassError;
use r2d2::strencrypt::encrypt_expr;
use r2d2::strencrypt::encrypt_literal;
use r2d2::strencrypt::encrypt_literal_with;
use r2d2::strencrypt::encrypt_stmts;
use r2d2::strencrypt::encrypt_strings;
use r2d2::strencrypt::has_no_placeholder;
use r2d2::strencrypt::placeholder;
use r2d2::strencrypt::understands_macro;
use r2d2::strencrypt::MemEncCtx;

fn verbatim(text: &str) -> Expr {
    Expr::Verbatim(text.to_string())
}

fn literal(value: &str) -> Literal {
    Literal { kind: LitKind::Str, text: format!("{:?}", value), value: value.as_bytes().to_vec() }
}

fn lit(value: &str) -> Expr {
    Expr::Lit(literal(value))
}

fn bytes_lit(value: &[u8]) -> Expr {
    Expr::Lit(Literal { kind: LitKind::ByteStr, text: "b\"..\"".to_string(), value: value.to_vec() })
}

fn mac(name: &str, args: Vec<Expr>) -> Expr {
    Expr::Macro(MacroCall {
        name: name.to_string(),
        path: name.to_string(),
        delimiter: Delimiter::Paren,
        body: MacroBody::Args(args),
    })
}

fn stmt(kind: StmtKind) -> Stmt {
    Stmt { attrs: Vec::new(), kind }
}

fn bytes_between(text: &str, open: &str, close: &str) -> Vec<u8> {
    let start = text.find(open).unwrap() + open.len();
    let end = start + text[start..].find(close).unwrap();
    text[start..end]
        .split(", ")
        .filter(|item| !item.is_empty())
        .map(|item| item.strip_suffix("u8").unwrap().parse::<u8>().unwrap())
        .collect()
}

fn text_of_block(e: &Expr) -> String {
    match e {
        Expr::Block(Block { stmts }) => {
            assert_eq!(stmts.len(), 1);
            assert!(stmts[0].attrs.is_empty());
            match &stmts[0].kind {
                StmtKind::Verbatim(text) => text.clone(),
                other => panic!("not a decryption block: {:?}", other),
            }
        }
        other => panic!("not a block: {:?}", other),
    }
}

fn decrypted(e: &Expr) -> Vec<u8> {
    let text = text_of_block(e);
    assert!(text.starts_with(
        "let result = r2d2::crypto::decrypt_memory(r2d2::crypto::MemoryEncryptionCtx { key: ["
    ));
    let key = bytes_between(&text, "key: [", "]");
    let nonce = bytes_between(&text, "nonce: [", "]");
    let ciphertext = bytes_between(&text, "ciphertext: ::std::vec![", "]");
    let mut ctx =
        MemoryEncryptionCtx { key: [0u8; 32], nonce: [0u8; 24], ciphertext };
    ctx.key.copy_from_slice(&key);
    ctx.nonce.copy_from_slice(&nonce);
    try_decrypt_memory(ctx).unwrap()
}

fn yields(e: &Expr) -> String {
    let text = text_of_block(e);
    text[text.find("}); ").unwrap() + 4..].to_string()
}

#[test]
fn source_of_a_decryption_block() {
    let ctx = encrypt_memory_with([1u8; 32], [2u8; 24], b"");
    let tag: Vec<String> = ctx.ciphertext.iter().map(|b| format!("{}u8", b)).collect();
    let record = MemEncCtx { ctx, kind: LitKind::Str, needs_owned_str: true };
    let ones = vec!["1u8"; 32].join(", ");
    let twos = vec!["2u8"; 24].join(", ");
    assert_eq!(
        record.to_source(),
        format!(
            "let result = r2d2::crypto::decrypt_memory(r2d2::crypto::MemoryEncryptionCtx {{ key: [{}], nonce: [{}], ciphertext: ::std::vec![{}], }}); ::std::string::String::from_utf8(result).unwrap()",
            ones,
            twos,
            tag.join(", ")
        )
    );
    assert_eq!(text_of_block(&record.to_expr()), record.to_source());
}

#[test]
fn what_a_decryption_block_yields() {
    let forms = [
        (LitKind::Str, true, "::std::string::String::from_utf8(result).unwrap()"),
        (LitKind::Str, false, "::std::string::String::from_utf8(result).unwrap().as_str()"),
        (LitKind::ByteStr, true, "result"),
        (LitKind::ByteStr, false, "::std::convert::identity(result).as_slice()"),
    ];
    for (kind, owned, text) in forms {
        let record = MemEncCtx {
            ctx: encrypt_memory_with([0u8; 32], [0u8; 24], b"abc"),
            kind,
            needs_owned_str: owned,
        };
        assert_eq!(yields(&record.to_expr()), text);
    }
}

#[test]
fn a_literal_is_reconstructed_byte_for_byte() {
    for value in ["", "x", "Hello, world!", "tab\tand \"quotes\" and {braces}", "ünïcödé ✓"] {
        let out = encrypt_literal(&literal(value), false);
        assert_eq!(decrypted(&out), value.as_bytes());
    }
    let out = encrypt_literal(
        &Literal { kind: LitKind::ByteStr, text: "b\"\\xff\\x00\"".to_string(), value: vec![255, 0] },
        true,
    );
    assert_eq!(decrypted(&out), vec![255, 0]);
    assert_eq!(yields(&out), "result");
}

#[test]
fn the_plaintext_is_not_in_the_block() {
    let out = encrypt_literal(&literal("Hello, world!"), false);
    let text = text_of_block(&out);
    assert!(!text.contains("Hello"));
    let plain: Vec<String> = b"Hello, world!".iter().map(|b| format!("{}u8", b)).collect();
    assert!(!text.contains(&plain.join(", ")));
}

#[test]
fn hello_world_is_printed_through_a_placeholder() {
    let out = encrypt_expr(&mac("println", vec![lit("Hello, world!")])).unwrap();
    match out {
        Expr::Macro(MacroCall { name, path, delimiter, body: MacroBody::Args(args) }) => {
            assert_eq!(name, "println");
            assert_eq!(path, "println");
            assert_eq!(delimiter, Delimiter::Paren);
            assert_eq!(args.len(), 2);
            assert_eq!(args[0], Expr::Lit(placeholder()));
            assert_eq!(decrypted(&args[1]), b"Hello, world!");
            assert_eq!(
                yields(&args[1]),
                "::std::string::String::from_utf8(result).unwrap().as_str()"
            );
        }
        other => panic!("unexpected {:?}", other),
    }
}

#[test]
fn the_placeholder_literal() {
    let p = placeholder();
    assert_eq!(p.kind, LitKind::Str);
    assert_eq!(p.text, "\"{}\"");
    assert_eq!(p.value, b"{}");
}

#[test]
fn a_literal_bound_by_let_is_owned() {
    let local = Local { pattern: verbatim("x"), by_reference: false, init: Some(lit("foobar")) };
    let out = encrypt_stmts(&vec![stmt(StmtKind::Local(local))]).unwrap();
    match &out[0].kind {
        StmtKind::Local(Local { pattern, by_reference, init: Some(init) }) => {
            assert_eq!(*pattern, verbatim("x"));
            assert!(!by_reference);
            assert_eq!(decrypted(init), b"foobar");
            assert_eq!(yields(init), "::std::string::String::from_utf8(result).unwrap()");
        }
        other => panic!("unexpected {:?}", other),
    }
}

#[test]
fn a_byte_string_bound_by_let_is_owned_bytes() {
    let local =
        Local { pattern: verbatim("x"), by_reference: false, init: Some(bytes_lit(b"\x01\x02")) };
    let out = encrypt_stmts(&vec![stmt(StmtKind::Local(local))]).unwrap();
    match &out[0].kind {
        StmtKind::Local(Local { init: Some(init), .. }) => {
            assert_eq!(decrypted(init), vec![1, 2]);
            assert_eq!(yields(init), "result");
        }
        other => panic!("unexpected {:?}", other),
    }
}

#[test]
fn a_literal_bound_with_a_reference_type_stays() {
    let local =
        Local { pattern: verbatim("x: &str"), by_reference: true, init: Some(lit("foobar")) };
    let stmts = vec![stmt(StmtKind::Local(local))];
    assert_eq!(encrypt_stmts(&stmts).unwrap(), stmts);
}

#[test]
fn a_let_with_another_value_is_gone_into() {
    let value = Expr::Group(GroupKind::Plain, vec![verbatim("if c"), Expr::Block(Block {
        stmts: vec![stmt(StmtKind::Expr(lit("a")))],
    })]);
    let local = Local { pattern: verbatim("x"), by_reference: false, init: Some(value) };
    let out = encrypt_stmts(&vec![stmt(StmtKind::Local(local))]).unwrap();
    match &out[0].kind {
        StmtKind::Local(Local { init: Some(Expr::Group(_, parts)), .. }) => match &parts[1] {
            Expr::Block(b) => match &b.stmts[0].kind {
                StmtKind::Expr(e) => {
                    assert_eq!(decrypted(e), b"a");
                    assert_eq!(
                        yields(e),
                        "::std::string::String::from_utf8(result).unwrap().as_str()"
                    );
                }
                other => panic!("unexpected {:?}", other),
            },
            other => panic!("unexpected {:?}", other),
        },
        other => panic!("unexpected {:?}", other),
    }
}

#[test]
fn positional_arguments_are_encrypted_and_the_rest_stays() {
    let named_p = Expr::Named("p".to_string(), Box::new(verbatim("5")));
    let named_n = Expr::Named("n".to_string(), Box::new(lit("0.01")));
    let args = vec![lit("{} is {n:.p$}"), lit("x"), named_p, named_n];
    let out = encrypt_expr(&mac("println", clone_exprs(&args))).unwrap();
    match out {
        Expr::Macro(MacroCall { body: MacroBody::Args(made), .. }) => {
            assert_eq!(made.len(), 4);
            assert_eq!(made[0], args[0]);
            assert_eq!(decrypted(&made[1]), b"x");
            assert_eq!(made[2], args[2]);
            assert_eq!(made[3], args[3]);
        }
        other => panic!("unexpected {:?}", other),
    }
}

#[test]
fn a_format_with_a_placeholder_is_not_rewritten() {
    let args = vec![lit("{}")];
    assert_eq!(encrypt_expr(&mac("format", clone_exprs(&args))).unwrap(), mac("format", args));
}

#[test]
fn each_formatting_macro_is_understood() {
    for name in ["println", "eprintln", "format", "concat"] {
        assert!(understands_macro(&name.to_string()));
        match encrypt_expr(&mac(name, vec![lit("plain")])).unwrap() {
            Expr::Macro(MacroCall { body: MacroBody::Args(made), .. }) => assert_eq!(made.len(), 2),
            other => panic!("unexpected {:?}", other),
        }
    }
    for name in ["print", "write", "vec", "", "Println"] {
        assert!(!understands_macro(&name.to_string()));
    }
}

#[test]
fn other_macros_are_left_alone() {
    let e = mac("vec", vec![lit("a"), lit("b")]);
    assert_eq!(encrypt_expr(&e).unwrap(), e);
    let tokens = Expr::Macro(MacroCall {
        name: "matches".to_string(),
        path: "matches".to_string(),
        delimiter: Delimiter::Paren,
        body: MacroBody::Tokens("x, \"a\" | \"b\"".to_string()),
    });
    assert_eq!(encrypt_expr(&tokens).unwrap(), tokens);
}

#[test]
fn literals_that_are_arguments_of_a_call_stay() {
    let call = Expr::Group(
        GroupKind::Plain,
        vec![
            verbatim("f"),
            Expr::Args(vec![
                lit("direct"),
                Expr::Group(GroupKind::Plain, vec![lit("nested"), verbatim(".len()")]),
            ]),
        ],
    );
    match encrypt_expr(&call).unwrap() {
        Expr::Group(_, parts) => match &parts[1] {
            Expr::Args(args) => {
                assert_eq!(args[0], lit("direct"));
                match &args[1] {
                    Expr::Group(_, inner) => assert_eq!(decrypted(&inner[0]), b"nested"),
                    other => panic!("unexpected {:?}", other),
                }
            }
            other => panic!("unexpected {:?}", other),
        },
        other => panic!("unexpected {:?}", other),
    }
}

#[test]
fn constant_items_are_left_alone() {
    let item = Expr::Group(GroupKind::Const, vec![verbatim("const NAME: &str ="), lit("value"), verbatim(";")]);
    assert_eq!(encrypt_expr(&item).unwrap(), item);
}

#[test]
fn verbatim_text_is_left_alone() {
    let e = verbatim("match x { \"a\" => 1, _ => 2 }");
    assert_eq!(encrypt_expr(&e).unwrap(), e);
}

#[test]
fn malformed_arguments_of_a_formatting_macro_are_fatal() {
    let no_args = mac("println", vec![]);
    assert_eq!(encrypt_expr(&no_args), Err(PassError::MalformedMacroArguments));
    let not_a_literal = mac("println", vec![verbatim("FORMAT")]);
    assert_eq!(encrypt_expr(&not_a_literal), Err(PassError::MalformedMacroArguments));
    let bytes = mac("println", vec![bytes_lit(b"x")]);
    assert_eq!(encrypt_expr(&bytes), Err(PassError::MalformedMacroArguments));
    let out_of_order = mac(
        "format",
        vec![lit("{a}{}"), Expr::Named("a".to_string(), Box::new(verbatim("1"))), verbatim("2")],
    );
    assert_eq!(encrypt_expr(&out_of_order), Err(PassError::MalformedMacroArguments));
    let tokens = Expr::Macro(MacroCall {
        name: "println".to_string(),
        path: "println".to_string(),
        delimiter: Delimiter::Paren,
        body: MacroBody::Tokens("\"{}\" x".to_string()),
    });
    assert_eq!(encrypt_expr(&tokens), Err(PassError::MalformedMacroArguments));
    let deep = File {
        items: vec![stmt(StmtKind::Item(Expr::Group(
            GroupKind::Plain,
            vec![verbatim("fn f()"), Expr::Block(Block { stmts: vec![stmt(StmtKind::Semi(no_args))] })],
        )))],
    };
    assert_eq!(encrypt_strings(&deep), Err(PassError::MalformedMacroArguments));
}

#[test]
fn a_second_run_changes_nothing() {
    let body = Block {
        stmts: vec![
            stmt(StmtKind::Local(Local {
                pattern: verbatim("x"),
                by_reference: false,
                init: Some(lit("foobar")),
            })),
            stmt(StmtKind::Semi(mac("println", vec![lit("Hello, world!")]))),
            stmt(StmtKind::Semi(mac("println", vec![lit("{} {}"), lit("a"), verbatim("x")]))),
            stmt(StmtKind::Expr(Expr::Unsafe(Block { stmts: vec![stmt(StmtKind::Expr(bytes_lit(b"z")))] }))),
        ],
    };
    let file = File {
        items: vec![stmt(StmtKind::Item(Expr::Group(
            GroupKind::Plain,
            vec![verbatim("fn main()"), Expr::Block(body)],
        )))],
    };
    let once = encrypt_strings(&file).unwrap();
    assert_ne!(once, file);
    let twice = encrypt_strings(&once).unwrap();
    assert_eq!(twice, once);
}

#[test]
fn the_string_pass_keeps_an_empty_block() {
    let empty = Expr::Block(Block { stmts: Vec::new() });
    assert_eq!(encrypt_expr(&empty).unwrap(), empty);
    assert_eq!(encrypt_stmts(&Vec::new()).unwrap(), Vec::new());
    assert_eq!(encrypt_strings(&File { items: Vec::new() }).unwrap(), File { items: Vec::new() });
}

#[test]
fn trivial_formats_have_no_opening_brace() {
    assert!(has_no_placeholder(&literal("Hello, world!")));
    assert!(has_no_placeholder(&literal("")));
    assert!(has_no_placeholder(&literal("closing } only")));
    assert!(!has_no_placeholder(&literal("{}")));
    assert!(!has_no_placeholder(&literal("escaped {{")));
}

#[test]
fn two_encryptions_of_one_literal_differ() {
    let a = encrypt_literal(&literal("same"), false);
    let b = encrypt_literal(&literal("same"), false);
    assert_ne!(a, b);
    assert_eq!(decrypted(&a), decrypted(&b));
}

#[test]
fn literals_in_patterns_and_types_stay() {
    let pattern = Expr::Group(GroupKind::Pattern, vec![lit("a"), verbatim("|"), lit("b")]);
    assert_eq!(encrypt_expr(&pattern).unwrap(), pattern);
    let arm = Expr::Group(
        GroupKind::Plain,
        vec![
            verbatim("match x {"),
            Expr::Group(GroupKind::Pattern, vec![lit("a")]),
            verbatim("=>"),
            lit("yes"),
            verbatim(", _ =>"),
            lit("no"),
            verbatim("}"),
        ],
    );
    match encrypt_expr(&arm).unwrap() {
        Expr::Group(_, parts) => {
            assert_eq!(parts[1], Expr::Group(GroupKind::Pattern, vec![lit("a")]));
            assert_eq!(decrypted(&parts[3]), b"yes");
            assert_eq!(decrypted(&parts[5]), b"no");
        }
        other => panic!("unexpected {:?}", other),
    }
    let local = Local {
        pattern: Expr::Group(GroupKind::Pattern, vec![lit("p")]),
        by_reference: false,
        init: Some(verbatim("x")),
    };
    let stmts = vec![stmt(StmtKind::Local(local))];
    assert_eq!(encrypt_stmts(&stmts).unwrap(), stmts);
    let malformed_inside = Expr::Group(GroupKind::Const, vec![mac("println", vec![])]);
    assert_eq!(encrypt_expr(&malformed_inside).unwrap(), malformed_inside);
}

#[test]
fn the_pass_succeeds_on_its_own_output() {
    let file = File {
        items: vec![stmt(StmtKind::Semi(mac(
            "println",
            vec![lit("{} {a}"), lit("x"), Expr::Named("a".to_string(), Box::new(lit("y")))],
        )))],
    };
    let once = encrypt_strings(&file).unwrap();
    assert!(encrypt_strings(&once).is_ok());
}

#[test]
fn a_literal_under_a_given_key_and_nonce() {
    let key = [3u8; 32];
    let nonce = [5u8; 24];
    let out = encrypt_literal_with(&literal("abc"), true, key, nonce);
    let record = encrypt_memory_with(key, nonce, b"abc");
    let list = |bytes: &[u8]| {
        bytes.iter().map(|b| format!("{}u8", b)).collect::<Vec<_>>().join(", ")
    };
    assert_eq!(
        text_of_block(&out),
        format!(
            "let result = r2d2::crypto::decrypt_memory(r2d2::crypto::MemoryEncryptionCtx {{ key: [{}], nonce: [{}], ciphertext: ::std::vec![{}], }}); ::std::string::String::from_utf8(result).unwrap()",
            list(&key),
            list(&nonce),
            list(&record.ciphertext)
        )
    );
    assert_eq!(record.ciphertext.len(), 3 + 16);
    assert_eq!(decrypted(&out), b"abc".to_vec());
}

#[test]
fn the_nonces_of_the_literals_of_one_file_differ() {
    let mut stmts = Vec::new();
    for i in 0..200 {
        stmts.push(stmt(StmtKind::Semi(lit(&format!("text {}", i % 7)))));
    }
    let out = encrypt_stmts(&stmts).unwrap();
    let mut nonces: Vec<Vec<u8>> = Vec::new();
    for s in &out {
        match &s.kind {
            StmtKind::Semi(e) => nonces.push(bytes_between(&text_of_block(e), "nonce: [", "]")),
            other => panic!("not a statement with a semicolon: {:?}", other),
        }
    }
    assert_eq!(nonces.len(), 200);
    for nonce in &nonces {
        assert_eq!(nonce.len(), 24);
    }
    nonces.sort();
    nonces.dedup();
    assert_eq!(nonces.len(), 200);
}

#[test]
fn other_nonces_give_other_blocks() {
    let a = encrypt_literal_with(&literal("same"), false, [1u8; 32], [2u8; 24]);
    let b = encrypt_literal_with(&literal("same"), false, [1u8; 32], [4u8; 24]);
    assert_ne!(a, b);
    assert_eq!(decrypted(&a), decrypted(&b));
    assert_eq!(a, encrypt_literal_with(&literal("same"), false, [1u8; 32], [2u8; 24]));
}
