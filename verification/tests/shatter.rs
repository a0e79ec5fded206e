use r2d2::ast::Block;
use r2d2::ast::Delimiter;
use r2d2::ast::Expr;
use r2d2::ast::File;
use r2d2::ast::GroupKind;
use r2d2::ast::Local;
use r2d2::ast::MacroBody;
use r2d2::ast::MacroCall;
use r2d2::ast::Stmt;
use r2d2::ast::StmtKind;
use r2d2::error::PassError;
use r2d2::shatter::pass::action_of;
use r2d2::shatter::pass::decides_injection;
use r2d2::shatter::assertion::assert_kind_of;
use r2d2::shatter::pass::diverges;
use r2d2::shatter::assertion::failure_condition_of;
use r2d2::shatter::condition::false_condition_with;
use r2d2::shatter::trap::garbage_asm_with;
use r2d2::shatter::trap::garbage_bytes;
use r2d2::shatter::ident::generate_unique_ident;
use r2d2::shatter::assertion::guard_with;
use r2d2::shatter::condition::kill_date_condition_with;
use r2d2::shatter::condition::kill_date_target;
use r2d2::shatter::linux;
use r2d2::shatter::condition::parse_seconds;
use r2d2::shatter::shatter;
use r2d2::shatter::shatter_at;
use r2d2::shatter::trap::shatter_statement_with;
use r2d2::shatter::ident::unique_ident_from;
use r2d2::shatter::windows;
use r2d2::shatter::x86_64;
use r2d2::shatter::pass::Action;
use r2d2::shatter::assertion::AssertKind;
use r2d2::shatter::ConditionType;
use r2d2::shatter::IntegrityCheck;
use r2d2::shatter::IntegrityCheckType;
use r2d2::shatter::Settings;
use r2d2::shatter::Shatter;
use r2d2::shatter::ShatterConfig;
use r2d2::shatter::ShatterType;
use r2d2::shatter::Target;
use r2d2::shatter::condition::DEBUG_KILLDATE_DURATION_SECS;

fn verbatim(text: &str) -> Expr {
    Expr::Verbatim(text.to_string())
}

fn stmt(kind: StmtKind) -> Stmt {
    Stmt { attrs: Vec::new(), kind }
}

fn mac(name: &str, args: Vec<Expr>) -> MacroCall {
    MacroCall {
        name: name.to_string(),
        path: name.to_string(),
        delimiter: Delimiter::Paren,
        body: MacroBody::Args(args),
    }
}

fn settings(target: Target, percent: u8) -> Settings {
    Settings {
        target,
        kill_date: 4102444800,
        inject_percent: percent,
        catalogue: x86_64::load_catalogue(x86_64::PARTIAL_PREFIXES),
    }
}

fn config(target: Target, percent: u8) -> ShatterConfig {
    ShatterConfig {
        target,
        kill_date: Some("4102444800".to_string()),
        debug: false,
        inject_percent: percent,
        catalogue: x86_64::PARTIAL_PREFIXES.to_string(),
    }
}

fn is_minted(ident: &str) -> bool {
    ident.len() == 36
        && ident.starts_with("var_")
        && ident[4..].chars().all(|c| c.is_ascii_digit() || ('a'..='f').contains(&c))
}

fn asm_tokens(block: &Block) -> String {
    assert_eq!(block.stmts.len(), 1);
    assert!(block.stmts[0].attrs.is_empty());
    match &block.stmts[0].kind {
        StmtKind::Semi(Expr::Macro(MacroCall { name, path, delimiter, body: MacroBody::Tokens(t) })) => {
            assert_eq!(name, "");
            assert_eq!(path, "std::arch::asm");
            assert_eq!(*delimiter, Delimiter::Paren);
            t.clone()
        }
        other => panic!("no assembly: {:?}", other),
    }
}

/// The assembly block inside a trap and whether the trap wraps it in `unsafe`.
fn open_trap(trap: &Block) -> (Block, bool) {
    assert_eq!(trap.stmts.len(), 1);
    assert!(trap.stmts[0].attrs.is_empty());
    match &trap.stmts[0].kind {
        StmtKind::Expr(Expr::Block(inner)) => (r2d2::ast::clone_block(inner), false),
        StmtKind::Expr(Expr::Unsafe(wrapper)) => {
            assert_eq!(wrapper.stmts.len(), 1);
            match &wrapper.stmts[0].kind {
                StmtKind::Expr(Expr::Block(inner)) => (r2d2::ast::clone_block(inner), true),
                other => panic!("unexpected {:?}", other),
            }
        }
        other => panic!("unexpected {:?}", other),
    }
}

fn garbage_bytes_of(tokens: &str) -> Vec<u8> {
    let body = tokens.strip_suffix("clobber_abi(\"C\"),").unwrap();
    body.split(", ")
        .filter(|d| !d.is_empty())
        .map(|d| {
            let hex = d.strip_prefix("\".byte 0x").unwrap().strip_suffix(";\"").unwrap();
            u8::from_str_radix(hex, 16).unwrap()
        })
        .collect()
}

#[test]
fn an_identifier_from_given_bits() {
    assert_eq!(unique_ident_from(0x1f, 0xabc), "var_000000000000001f0000000000000abc");
    assert_eq!(unique_ident_from(0, 0), "var_00000000000000000000000000000000");
    assert_eq!(
        unique_ident_from(u64::MAX, 0x0123456789abcdef),
        "var_ffffffffffffffff0123456789abcdef"
    );
    assert_ne!(unique_ident_from(0x1, 0x23), unique_ident_from(0x12, 0x3));
}

#[test]
fn minted_identifiers_are_valid_and_differ() {
    let mut all: Vec<String> = Vec::new();
    for _ in 0..100 {
        let ident = generate_unique_ident();
        assert!(is_minted(&ident));
        assert!(!ident.chars().next().unwrap().is_ascii_digit());
        assert!(!all.contains(&ident));
        all.push(ident);
    }
}

#[test]
fn the_condition_that_is_always_false() {
    let cond = false_condition_with("a", "b");
    assert_eq!(cond.setup, "let a = r2d2::subtle::Choice::from(0u8); let b = bool::from(a);");
    assert_eq!(cond.check, "b");
    let made = Shatter::new().generate_false_condition();
    assert!(is_minted(&made.check));
    let choice = &made.setup[4..40];
    assert!(is_minted(choice));
    assert_ne!(choice, made.check);
    assert_eq!(made.setup, false_condition_with(choice, &made.check).setup);
}

#[test]
fn the_kill_date_condition() {
    let cond = kill_date_condition_with("now", 1234);
    assert_eq!(
        cond.setup,
        "let now = ::std::time::SystemTime::now().duration_since(::std::time::UNIX_EPOCH).unwrap();"
    );
    assert_eq!(cond.check, "now.as_secs() >= 1234u64");
    let made = Shatter::new().generate_kill_date_check(u64::MAX);
    assert!(made.check.ends_with(".as_secs() >= 18446744073709551615u64"));
    assert!(is_minted(&made.check[..36]));
}

#[test]
fn seconds_are_decimal_digits_that_fit() {
    assert_eq!(parse_seconds("0"), Some(0));
    assert_eq!(parse_seconds("007"), Some(7));
    assert_eq!(parse_seconds("1700000000"), Some(1700000000));
    assert_eq!(parse_seconds("18446744073709551615"), Some(u64::MAX));
    assert_eq!(parse_seconds("18446744073709551616"), None);
    assert_eq!(parse_seconds("99999999999999999999999"), None);
    assert_eq!(parse_seconds(""), None);
    assert_eq!(parse_seconds("+5"), None);
    assert_eq!(parse_seconds("-5"), None);
    assert_eq!(parse_seconds("12a"), None);
    assert_eq!(parse_seconds(" 12"), None);
    assert_eq!(parse_seconds("1_000"), None);
    assert_eq!(parse_seconds("１２"), None);
}

#[test]
fn the_kill_date_of_a_build() {
    assert_eq!(kill_date_target(Some("2000"), 1000, false), Ok(2000));
    assert_eq!(kill_date_target(Some("2000"), 1000, true), Ok(2000));
    assert_eq!(kill_date_target(Some("1001"), 1000, false), Ok(1001));
    assert_eq!(kill_date_target(Some("1000"), 1000, false), Err(PassError::KillDatePast));
    assert_eq!(kill_date_target(Some("999"), 1000, true), Err(PassError::KillDatePast));
    assert_eq!(kill_date_target(Some("soon"), 1000, true), Err(PassError::KillDateInvalid));
    assert_eq!(kill_date_target(Some(""), 1000, false), Err(PassError::KillDateInvalid));
    assert_eq!(kill_date_target(None, 1000, false), Err(PassError::KillDateAbsent));
    assert_eq!(kill_date_target(None, 1000, true), Ok(7000));
    assert_eq!(DEBUG_KILLDATE_DURATION_SECS, 6000);
    assert_eq!(kill_date_target(None, u64::MAX - 6000, true), Ok(u64::MAX));
    assert_eq!(kill_date_target(None, u64::MAX - 5999, true), Ok(u64::MAX));
    assert_eq!(kill_date_target(None, u64::MAX, true), Ok(u64::MAX));
}

#[test]
fn the_probe_for_a_tracer() {
    let names = linux::ProbeNames {
        file: "f".to_string(),
        reader: "r".to_string(),
        pid: "p".to_string(),
        line: "l".to_string(),
    };
    let cond = linux::anti_debug_check_with(&names);
    assert_eq!(
        cond.setup,
        "let mut p: u64 = 0; let f = ::std::fs::File::open(\"/proc/self/status\").unwrap(); let r = ::std::io::BufReader::new(f); for l in <::std::io::BufReader<::std::fs::File> as ::std::io::BufRead>::lines(r).map(|line| line.unwrap()).filter(|line| line.starts_with(\"TracerPid:\")) { let l = &l[10..].trim(); p = l.parse::<u64>().unwrap(); break; }"
    );
    assert_eq!(cond.check, "p != 0");
    let made = linux::generate_anti_debug_check();
    assert!(made.check.ends_with(" != 0"));
    assert!(is_minted(&made.check[..36]));
    assert!(made.setup.contains("TracerPid:"));
    assert_eq!(Shatter::new().generate_anti_debug_check(Target::Linux).check.len(), 41);
}

#[test]
fn the_probe_for_a_debugger() {
    let cond = windows::generate_anti_debug_check();
    assert_eq!(cond.setup, "");
    assert_eq!(
        cond.check,
        "unsafe { r2d2::windows::Win32::System::Diagnostics::Debug::IsDebuggerPresent().as_bool() }"
    );
    assert_eq!(Shatter::new().generate_anti_debug_check(Target::Windows), cond);
}

#[test]
fn the_integrity_probe_holds_its_record_byte_for_byte() {
    let mut hash = [0u8; 64];
    let mut salt = [0u8; 32];
    for i in 0..64 {
        hash[i] = (200 + i) as u8;
    }
    for i in 0..32 {
        salt[i] = (3 * i) as u8;
    }
    let check = IntegrityCheck { check_type: IntegrityCheckType::ALL, hash, salt };
    let cond = windows::integrity_check_with(&check, "H", "S");
    let hash_list: Vec<String> = hash.iter().map(|b| format!("{}u8", b)).collect();
    let salt_list: Vec<String> = salt.iter().map(|b| format!("{}u8", b)).collect();
    assert!(cond.setup.starts_with(&format!(
        "#[used] #[link_section = \".rdata\"] #[allow(non_upper_case_globals)] static H: [u8; 64usize] = [{}]; #[used] #[link_section = \".text\"] #[allow(non_upper_case_globals)] static S: [u8; 32usize] = [{}]; let mut calculated_hash",
        hash_list.join(", "),
        salt_list.join(", ")
    )));
    assert!(cond.setup.contains("section.virtual_size.min(section.size_of_raw_data)"));
    assert!(cond.setup.ends_with(
        "calculated_hash = r2d2::crypto::hash(text_slice, Some(S.as_slice())); break; } } }"
    ));
    assert_eq!(cond.check, "calculated_hash.as_slice() != H.as_slice()");
}

#[test]
fn a_generated_integrity_probe_has_a_fresh_record() {
    let (cond, record) = windows::generate_integrity_check();
    let hash_list: Vec<String> = record.hash.iter().map(|b| format!("{}u8", b)).collect();
    let salt_list: Vec<String> = record.salt.iter().map(|b| format!("{}u8", b)).collect();
    assert!(cond.setup.contains(&format!("[{}]", hash_list.join(", "))));
    assert!(cond.setup.contains(&format!("[{}]", salt_list.join(", "))));
    let (_, other) = windows::generate_integrity_check();
    assert_ne!(other.hash, record.hash);
    assert_ne!(other.salt, record.salt);
}

#[test]
fn the_linux_integrity_probe_holds_its_record_byte_for_byte() {
    let mut hash = [0u8; 64];
    let mut salt = [0u8; 32];
    for i in 0..64 {
        hash[i] = (100 + i) as u8;
    }
    for i in 0..32 {
        salt[i] = (7 * i) as u8;
    }
    let check = IntegrityCheck { check_type: IntegrityCheckType::ALL, hash, salt };
    let cond = linux::integrity_check_with(&check, "H", "S");
    let hash_list: Vec<String> = hash.iter().map(|b| format!("{}u8", b)).collect();
    let salt_list: Vec<String> = salt.iter().map(|b| format!("{}u8", b)).collect();
    assert!(cond.setup.starts_with(&format!(
        "#[used] #[link_section = \".rodata\"] #[allow(non_upper_case_globals)] static H: [u8; 64usize] = [{}]; #[used] #[link_section = \".text\"] #[allow(non_upper_case_globals)] static S: [u8; 32usize] = [{}]; let mut calculated_hash",
        hash_list.join(", "),
        salt_list.join(", ")
    )));
    assert!(cond.setup.contains("r2d2::goblin::elf::Elf::parse(&file).unwrap()"));
    assert!(cond.setup.contains("for section in elf.section_headers.iter().rev() {"));
    assert!(cond.setup.contains(
        "let anchor = file[start..start + size].windows(32usize).position(|window| window == S.as_slice()).unwrap(); let addr = S.as_ptr().sub(anchor);"
    ));
    assert!(cond.setup.ends_with(
        "calculated_hash = r2d2::crypto::hash(text_slice, Some(S.as_slice())); break; } } }"
    ));
    assert_eq!(cond.check, "calculated_hash.as_slice() != H.as_slice()");
    let file = File {
        items: vec![stmt(StmtKind::Item(Expr::Group(
            GroupKind::Plain,
            vec![
                verbatim("fn main()"),
                Expr::Block(Block {
                    stmts: vec![
                        stmt(StmtKind::Verbatim(cond.setup)),
                        stmt(StmtKind::Expr(verbatim(&format!("if {} {{}}", cond.check)))),
                    ],
                }),
            ],
        )))],
    };
    assert!(syn::parse_file(&file.to_source()).is_ok());
}

#[test]
fn a_generated_linux_integrity_probe_has_a_fresh_record() {
    let (cond, record) = linux::generate_integrity_check();
    let hash_list: Vec<String> = record.hash.iter().map(|b| format!("{}u8", b)).collect();
    let salt_list: Vec<String> = record.salt.iter().map(|b| format!("{}u8", b)).collect();
    assert!(cond.setup.contains(&format!("[{}]", hash_list.join(", "))));
    assert!(cond.setup.contains(&format!("[{}]", salt_list.join(", "))));
    assert!(cond.check.starts_with("calculated_hash.as_slice() != var_"));
    let (_, other) = linux::generate_integrity_check();
    assert_ne!(other.hash, record.hash);
    assert_ne!(other.salt, record.salt);
}

#[test]
fn a_record_from_given_bytes() {
    let record = IntegrityCheck::from_bytes(&vec![9u8; 64], &vec![4u8; 32]);
    assert_eq!(record.hash, [9u8; 64]);
    assert_eq!(record.salt, [4u8; 32]);
    assert_eq!(record.check_type, IntegrityCheckType::ALL);
    assert_ne!(IntegrityCheck::generate().salt, IntegrityCheck::generate().salt);
}

#[test]
fn the_state_keeps_the_records_of_its_probes() {
    let mut state = Shatter::new();
    assert!(!state.inside_unsafe_block);
    assert!(state.integrity_checks.is_empty());
    let (_, first) = state.generate_integrity_check(Target::Windows);
    let (_, second) = state.generate_integrity_check(Target::Linux);
    assert_eq!(state.integrity_checks, vec![first, second]);
    let s = settings(Target::Windows, 100);
    let (_, none) = state.generate_condition(ConditionType::FALSE, &s);
    assert_eq!(none, None);
    let (_, none) = state.generate_condition(ConditionType::DEBUG, &s);
    assert_eq!(none, None);
    let (cond, none) = state.generate_condition(ConditionType::KILLDATE, &s);
    assert_eq!(none, None);
    assert!(cond.check.ends_with(">= 4102444800u64"));
    assert_eq!(state.integrity_checks.len(), 2);
    let (_, fourth) = state.generate_condition(ConditionType::INTEGRITY, &s);
    assert_eq!(state.integrity_checks.len(), 3);
    assert_eq!(state.integrity_checks[2], fourth.unwrap());
}

#[test]
fn every_kind_of_condition_comes_up() {
    let mut state = Shatter::new();
    let s = settings(Target::Windows, 100);
    let mut seen = [false; 4];
    for _ in 0..400 {
        let before = state.integrity_checks.len();
        let (cond, record) = state.generate_branch_condition(&s);
        if record.is_some() {
            assert_eq!(state.integrity_checks.len(), before + 1);
            assert!(cond.check.starts_with("calculated_hash.as_slice() != "));
            seen[2] = true;
        } else {
            assert_eq!(state.integrity_checks.len(), before);
            if cond.check.starts_with("unsafe {") {
                seen[1] = true;
            } else if cond.check.contains(".as_secs() >= ") {
                seen[3] = true;
            } else {
                assert!(is_minted(&cond.check));
                seen[0] = true;
            }
        }
    }
    assert_eq!(seen, [true; 4]);
}

#[test]
fn garbage_is_one_directive_for_each_byte() {
    let block = garbage_asm_with(&vec![0xAB, 0x01, 0x00, 0xF0]);
    assert_eq!(
        asm_tokens(&block),
        "\".byte 0xAB;\", \".byte 0x1;\", \".byte 0x0;\", \".byte 0xF0;\", clobber_abi(\"C\"),"
    );
    assert_eq!(asm_tokens(&garbage_asm_with(&Vec::new())), "clobber_abi(\"C\"),");
}

#[test]
fn the_rabbit_hole_rotates_by_the_given_count() {
    let block = x86_64::rabbit_hole_with(5);
    assert_eq!(
        asm_tokens(&block),
        "\"mov rax, rsp; rcl rax, 5; mov rsp, r14; mov rbx, r9; mov rdi, r8; mov r8, rsi; mov rsi, rbp; rcr rsi, 5; mov rbp, r10; mov rcx, r11; mov rdx, r12; jmp [rax + 8*rbx + rsi]; \", clobber_abi(\"C\"),"
    );
    assert!(asm_tokens(&x86_64::rabbit_hole_with(32)).contains("rcl rax, 32; "));
}

#[test]
fn a_generated_rabbit_hole_rotates_by_less_than_33() {
    let mut counts: Vec<usize> = Vec::new();
    for _ in 0..300 {
        let tokens = asm_tokens(&x86_64::generate_rabbit_hole());
        let start = tokens.find("rcl rax, ").unwrap() + 9;
        let end = start + tokens[start..].find(';').unwrap();
        let count: usize = tokens[start..end].parse().unwrap();
        assert!((1..33).contains(&count));
        assert_eq!(tokens, asm_tokens(&x86_64::rabbit_hole_with(count)));
        if !counts.contains(&count) {
            counts.push(count);
        }
    }
    assert!(counts.len() > 1);
}

#[test]
fn the_catalogue_is_read_from_json() {
    let catalogue = x86_64::load_catalogue("[[[1, 2], [3]], [], [[255]]]");
    assert_eq!(catalogue, vec![vec![vec![1u8, 2], vec![3]], vec![], vec![vec![255]]]);
    assert_eq!(x86_64::partial_instruction_at(&catalogue, 0, 0), vec![1, 2]);
    assert_eq!(x86_64::partial_instruction_at(&catalogue, 0, 1), vec![3]);
    assert_eq!(x86_64::partial_instruction_at(&catalogue, 2, 0), vec![255]);
    assert_eq!(x86_64::partial_instruction_at(&catalogue, 1, 0), Vec::<u8>::new());
    assert_eq!(x86_64::partial_instruction_at(&catalogue, 0, 2), Vec::<u8>::new());
    assert_eq!(x86_64::partial_instruction_at(&catalogue, 3, 0), Vec::<u8>::new());
    let built_in = x86_64::load_catalogue(x86_64::PARTIAL_PREFIXES);
    assert_eq!(built_in.len(), 10);
    assert_eq!(built_in[0][0], vec![5]);
    assert_eq!(built_in[9], vec![vec![15, 132], vec![15, 133]]);
    assert!(built_in.iter().all(|i| !i.is_empty() && i.iter().all(|e| !e.is_empty())));
}

#[test]
fn a_malformed_catalogue_is_empty() {
    for text in ["", "nonsense", "[[[256]]]", "[[1, 2]]", "{\"a\": 1}", "[[[-1]]]", "[[[1]]"] {
        assert_eq!(x86_64::load_catalogue(text), Vec::<Vec<Vec<u8>>>::new());
    }
    assert_eq!(x86_64::load_catalogue("[]"), Vec::<Vec<Vec<u8>>>::new());
}

#[test]
fn a_partial_instruction_is_an_entry_of_the_catalogue() {
    let catalogue = x86_64::load_catalogue("[[[1, 2], [3]], [[4, 5, 6]]]");
    let mut seen: Vec<Vec<u8>> = Vec::new();
    for _ in 0..200 {
        let bytes = x86_64::generate_partial_instruction(&catalogue);
        assert!(catalogue.iter().any(|i| i.contains(&bytes)));
        if !seen.contains(&bytes) {
            seen.push(bytes);
        }
    }
    assert_eq!(seen.len(), 3);
    assert_eq!(x86_64::generate_partial_instruction(&Vec::new()), Vec::<u8>::new());
    assert_eq!(x86_64::generate_partial_instruction(&vec![vec![]]), Vec::<u8>::new());
}

#[test]
fn without_a_catalogue_the_garbage_is_random_bytes() {
    let state = Shatter::new();
    let mut s = settings(Target::Linux, 100);
    s.catalogue = Vec::new();
    let mut lengths: Vec<usize> = Vec::new();
    let mut all: Vec<Vec<u8>> = Vec::new();
    for _ in 0..100 {
        let bytes = garbage_bytes_of(&asm_tokens(&state.generate_garbage_asm(&s)));
        assert!((32..96).contains(&bytes.len()));
        if !lengths.contains(&bytes.len()) {
            lengths.push(bytes.len());
        }
        assert!(!all.contains(&bytes));
        all.push(bytes);
    }
    assert!(lengths.len() > 1);
}

#[test]
fn with_a_catalogue_the_garbage_is_one_of_its_entries() {
    let state = Shatter::new();
    let s = settings(Target::Linux, 100);
    for _ in 0..50 {
        let bytes = garbage_bytes_of(&asm_tokens(&state.generate_garbage_asm(&s)));
        assert!(s.catalogue.iter().any(|i| i.contains(&bytes)));
    }
}

#[test]
fn a_trap_is_wrapped_unless_inside_unsafe() {
    let body = garbage_asm_with(&vec![1]);
    let outside = shatter_statement_with(garbage_asm_with(&vec![1]), false);
    let (inner, wrapped) = open_trap(&outside);
    assert!(wrapped);
    assert_eq!(inner, body);
    let inside = shatter_statement_with(garbage_asm_with(&vec![1]), true);
    let (inner, wrapped) = open_trap(&inside);
    assert!(!wrapped);
    assert_eq!(inner, body);
    let file = File { items: vec![stmt(StmtKind::Expr(Expr::Block(outside)))] };
    assert_eq!(
        file.to_source(),
        "{\nunsafe {\n{\nstd::arch::asm!(\".byte 0x1;\", clobber_abi(\"C\"),);\n}\n}\n}\n"
    );
}

#[test]
fn generated_traps_follow_the_state() {
    let s = settings(Target::Linux, 100);
    let mut state = Shatter::new();
    let (inner, wrapped) = open_trap(&state.generate_shatter_statement(ShatterType::STATIC, &s));
    assert!(wrapped);
    assert!(asm_tokens(&inner).starts_with("\".byte 0x"));
    let (inner, wrapped) = open_trap(&state.generate_shatter_statement(ShatterType::DYNAMIC, &s));
    assert!(wrapped);
    assert!(asm_tokens(&inner).starts_with("\"mov rax, rsp;"));
    state.inside_unsafe_block = true;
    let (_, wrapped) = open_trap(&state.generate_shatter_statement(ShatterType::STATIC, &s));
    assert!(!wrapped);
    let (_, wrapped) = open_trap(&state.generate_shatter_statement(ShatterType::DYNAMIC, &s));
    assert!(!wrapped);
}

#[test]
fn the_names_of_the_assertion_macros() {
    for name in ["assert", "debug_assert"] {
        assert_eq!(assert_kind_of(&name.to_string()), Some(AssertKind::Holds));
    }
    for name in ["assert_eq", "debug_assert_eq"] {
        assert_eq!(assert_kind_of(&name.to_string()), Some(AssertKind::Equal));
    }
    for name in ["assert_ne", "debug_assert_ne"] {
        assert_eq!(assert_kind_of(&name.to_string()), Some(AssertKind::Differ));
    }
    for name in ["", "println", "assert_matches", "Assert"] {
        assert_eq!(assert_kind_of(&name.to_string()), None);
    }
    for name in ["compile_error", "panic", "unreachable", "unimplemented"] {
        assert!(diverges(&name.to_string()));
    }
    for name in ["todo", "assert", ""] {
        assert!(!diverges(&name.to_string()));
    }
}

#[test]
fn what_the_pass_does_at_each_form_of_statement() {
    let local = StmtKind::Local(Local { pattern: verbatim("x"), by_reference: false, init: None });
    assert_eq!(action_of(&local), Action::Append);
    assert_eq!(action_of(&StmtKind::Item(verbatim("fn f() {}"))), Action::Append);
    assert_eq!(action_of(&StmtKind::Expr(verbatim("x"))), Action::Keep);
    assert_eq!(action_of(&StmtKind::Semi(verbatim("f()"))), Action::Append);
    for jump in ["break", "continue", "return", "yield"] {
        let e = Expr::Group(GroupKind::Jump, vec![verbatim(jump)]);
        assert_eq!(action_of(&StmtKind::Semi(e)), Action::Keep);
    }
    for name in ["compile_error", "panic", "unreachable", "unimplemented"] {
        assert_eq!(action_of(&StmtKind::Semi(Expr::Macro(mac(name, vec![])))), Action::Keep);
    }
    assert_eq!(
        action_of(&StmtKind::Semi(Expr::Macro(mac("assert", vec![verbatim("x")])))),
        Action::Convert(AssertKind::Holds)
    );
    assert_eq!(
        action_of(&StmtKind::Semi(Expr::Macro(mac("debug_assert_eq", vec![])))),
        Action::Convert(AssertKind::Equal)
    );
    assert_eq!(
        action_of(&StmtKind::Semi(Expr::Macro(mac("assert_ne", vec![])))),
        Action::Convert(AssertKind::Differ)
    );
    assert_eq!(action_of(&StmtKind::Semi(Expr::Macro(mac("println", vec![])))), Action::Append);
    assert_eq!(action_of(&StmtKind::Expr(Expr::Macro(mac("assert", vec![])))), Action::Keep);
    assert_eq!(action_of(&StmtKind::Verbatim("x;".to_string())), Action::Keep);
    assert_eq!(
        action_of(&StmtKind::Semi(Expr::Group(GroupKind::Plain, vec![verbatim("return")]))),
        Action::Append
    );
}

#[test]
fn the_condition_under_which_an_assertion_fails() {
    let source = |e: Expr| File { items: vec![stmt(StmtKind::Expr(e))] }.to_source();
    let holds = failure_condition_of(AssertKind::Holds, &mac("assert", vec![verbatim("7 == 7")]));
    assert_eq!(source(holds.unwrap()), "! (7 == 7)\n");
    let with_message = failure_condition_of(
        AssertKind::Holds,
        &mac("assert", vec![verbatim("ok"), verbatim("\"message\"")]),
    );
    assert_eq!(source(with_message.unwrap()), "! (ok)\n");
    let equal =
        failure_condition_of(AssertKind::Equal, &mac("assert_eq", vec![verbatim("x"), verbatim("8")]));
    assert_eq!(source(equal.unwrap()), "(x) != (8)\n");
    let differ =
        failure_condition_of(AssertKind::Differ, &mac("assert_ne", vec![verbatim("x"), verbatim("8")]));
    assert_eq!(source(differ.unwrap()), "(x) == (8)\n");
    let grouped = failure_condition_of(
        AssertKind::Equal,
        &mac("assert_eq", vec![verbatim("a && b"), verbatim("c")]),
    );
    assert_eq!(source(grouped.unwrap()), "(a && b) != (c)\n");
    assert_eq!(failure_condition_of(AssertKind::Holds, &mac("assert", vec![])), None);
    assert_eq!(failure_condition_of(AssertKind::Equal, &mac("assert_eq", vec![verbatim("x")])), None);
    assert_eq!(failure_condition_of(AssertKind::Differ, &mac("assert_ne", vec![])), None);
    let tokens = MacroCall {
        name: "assert".to_string(),
        path: "assert".to_string(),
        delimiter: Delimiter::Paren,
        body: MacroBody::Tokens("x".to_string()),
    };
    assert_eq!(failure_condition_of(AssertKind::Holds, &tokens), None);
}

#[test]
fn a_guard_is_an_if_on_the_condition() {
    let made = guard_with(verbatim("x != 8"), Block { stmts: Vec::new() });
    assert_eq!(File { items: vec![made] }.to_source(), "if x != 8 {\n}\n");
}

#[test]
fn an_assertion_becomes_a_guarded_rabbit_hole() {
    let s = settings(Target::Linux, 100);
    let state = Shatter::new();
    let made = state
        .convert_assert(&mac("assert", vec![verbatim("7 == 7")]), AssertKind::Holds, &s)
        .unwrap();
    assert!(made.attrs.is_empty());
    match &made.kind {
        StmtKind::Expr(Expr::Group(GroupKind::Plain, parts)) => {
            assert_eq!(parts.len(), 3);
            assert_eq!(parts[0], verbatim("if"));
            assert_eq!(
                parts[1],
                Expr::Group(
                    GroupKind::Plain,
                    vec![verbatim("!"), Expr::Args(vec![verbatim("7 == 7")])]
                )
            );
            match &parts[2] {
                Expr::Block(body) => {
                    let (inner, wrapped) = open_trap(body);
                    assert!(wrapped);
                    assert!(asm_tokens(&inner).contains("jmp [rax + 8*rbx + rsi]"));
                }
                other => panic!("unexpected {:?}", other),
            }
        }
        other => panic!("unexpected {:?}", other),
    }
    assert_eq!(state.convert_assert(&mac("assert_eq", vec![verbatim("x")]), AssertKind::Equal, &s), None);
}

fn body_of(file: &File) -> Vec<Stmt> {
    match &file.items[0].kind {
        StmtKind::Item(Expr::Group(_, parts)) => match &parts[1] {
            Expr::Block(b) => r2d2::ast::clone_stmts(&b.stmts),
            other => panic!("unexpected {:?}", other),
        },
        other => panic!("unexpected {:?}", other),
    }
}

fn program(stmts: Vec<Stmt>) -> File {
    File {
        items: vec![stmt(StmtKind::Item(Expr::Group(
            GroupKind::Plain,
            vec![verbatim("fn main()"), Expr::Block(Block { stmts })],
        )))],
    }
}

fn sample() -> Vec<Stmt> {
    vec![
        stmt(StmtKind::Local(Local {
            pattern: verbatim("x"),
            by_reference: false,
            init: Some(verbatim("7")),
        })),
        stmt(StmtKind::Semi(Expr::Macro(mac("assert", vec![verbatim("x == 7")])))),
        stmt(StmtKind::Semi(Expr::Macro(mac("println", vec![verbatim("\"after\"")])))),
        stmt(StmtKind::Semi(Expr::Macro(mac("assert_eq", vec![verbatim("x")])))),
        stmt(StmtKind::Expr(Expr::Group(
            GroupKind::Plain,
            vec![verbatim("if x > 1"), Expr::Block(Block { stmts: vec![stmt(StmtKind::Semi(verbatim("f()")))] })],
        ))),
        stmt(StmtKind::Semi(Expr::Macro(mac("panic", vec![])))),
        stmt(StmtKind::Semi(Expr::Group(GroupKind::Jump, vec![verbatim("return")]))),
    ]
}

fn is_branch(s: &Stmt) -> bool {
    matches!(s.kind, StmtKind::Branch(_))
}

fn is_guard(s: &Stmt) -> bool {
    match &s.kind {
        StmtKind::Expr(Expr::Group(GroupKind::Plain, parts)) => {
            parts.len() == 3 && parts[0] == verbatim("if") && matches!(parts[2], Expr::Block(_))
        }
        _ => false,
    }
}

#[test]
fn branches_follow_the_statements_that_may_have_one() {
    let input = program(sample());
    let (out, state) = shatter_at(&input, &config(Target::Windows, 100), 1000).unwrap();
    assert!(!state.inside_unsafe_block);
    assert_eq!(out.items.len(), 1);
    let made = body_of(&out);
    let given = sample();
    assert_eq!(made.len(), 9);
    assert_eq!(made[0], given[0]);
    assert!(is_branch(&made[1]));
    assert!(is_guard(&made[2]));
    assert_eq!(made[3], given[2]);
    assert!(is_branch(&made[4]));
    assert_eq!(made[5], given[3]);
    match &made[6].kind {
        StmtKind::Expr(Expr::Group(_, parts)) => match &parts[1] {
            Expr::Block(inner) => {
                assert_eq!(inner.stmts.len(), 2);
                assert_eq!(inner.stmts[0], stmt(StmtKind::Semi(verbatim("f()"))));
                assert!(is_branch(&inner.stmts[1]));
            }
            other => panic!("unexpected {:?}", other),
        },
        other => panic!("unexpected {:?}", other),
    }
    assert_eq!(made[7], given[5]);
    assert_eq!(made[8], given[6]);
}

fn records_in(stmts: &Vec<Stmt>, found: &mut Vec<IntegrityCheck>) {
    for s in stmts {
        match &s.kind {
            StmtKind::Branch(b) => {
                if let Some(r) = b.record {
                    found.push(r);
                }
            }
            StmtKind::Expr(Expr::Group(_, parts)) | StmtKind::Item(Expr::Group(_, parts)) => {
                for p in parts {
                    if let Expr::Block(b) = p {
                        records_in(&b.stmts, found);
                    }
                }
            }
            StmtKind::Expr(Expr::Unsafe(b)) | StmtKind::Expr(Expr::Block(b)) => {
                records_in(&b.stmts, found)
            }
            _ => {}
        }
    }
}

#[test]
fn the_records_are_those_of_the_integrity_probes() {
    let mut stmts = Vec::new();
    for i in 0..60 {
        stmts.push(stmt(StmtKind::Semi(verbatim(&format!("f{}()", i)))));
    }
    let (out, state) = shatter_at(&program(stmts), &config(Target::Windows, 100), 1000).unwrap();
    let made = body_of(&out);
    assert_eq!(made.len(), 120);
    let mut found = Vec::new();
    records_in(&made, &mut found);
    assert!(!found.is_empty());
    assert_eq!(state.integrity_checks, found);
    for s in &made {
        if let StmtKind::Branch(b) = &s.kind {
            let (inner, wrapped) = open_trap(&b.body);
            assert!(wrapped);
            assert!(!garbage_bytes_of(&asm_tokens(&inner)).is_empty());
            match b.record {
                Some(r) => {
                    let list: Vec<String> = r.salt.iter().map(|x| format!("{}u8", x)).collect();
                    assert!(b.setup.contains(&list.join(", ")));
                }
                None => assert!(!b.setup.contains("link_section")),
            }
        }
    }
}

#[test]
fn on_linux_the_records_are_those_of_the_probes_too() {
    let mut stmts = Vec::new();
    for i in 0..60 {
        stmts.push(stmt(StmtKind::Semi(verbatim(&format!("f{}()", i)))));
    }
    let (out, state) = shatter_at(&program(stmts), &config(Target::Linux, 100), 1000).unwrap();
    let made = body_of(&out);
    assert_eq!(made.len(), 120);
    let mut found = Vec::new();
    records_in(&made, &mut found);
    assert!(!found.is_empty());
    assert_eq!(state.integrity_checks, found);
    for s in &made {
        if let StmtKind::Branch(b) = &s.kind {
            assert_eq!(b.record.is_some(), b.setup.contains("link_section = \".rodata\""));
        }
    }
}

#[test]
fn at_a_share_of_nought_no_branch_is_made() {
    let input = program(sample());
    let (out, state) = shatter_at(&input, &config(Target::Windows, 0), 1000).unwrap();
    let made = body_of(&out);
    let given = sample();
    assert_eq!(made.len(), 7);
    assert!(is_guard(&made[1]));
    for i in [0usize, 2, 3, 4, 5, 6] {
        assert_eq!(made[i], given[i]);
    }
    assert!(state.integrity_checks.is_empty());
}

#[test]
fn at_a_share_between_some_places_get_a_branch() {
    let mut stmts = Vec::new();
    for i in 0..200 {
        stmts.push(stmt(StmtKind::Semi(verbatim(&format!("f{}()", i)))));
    }
    let (out, _) = shatter_at(&program(stmts), &config(Target::Linux, 50), 1000).unwrap();
    let made = body_of(&out);
    let branches = made.iter().filter(|s| is_branch(s)).count();
    assert_eq!(made.len(), 200 + branches);
    assert!(branches > 20 && branches < 180);
    let mut kept = made.iter().filter(|s| !is_branch(s));
    for i in 0..200 {
        assert_eq!(*kept.next().unwrap(), stmt(StmtKind::Semi(verbatim(&format!("f{}()", i)))));
    }
}

#[test]
fn an_assertion_inside_unsafe_is_not_wrapped_again() {
    let assertion = || stmt(StmtKind::Semi(Expr::Macro(mac("assert", vec![verbatim("ok")]))));
    let inside = stmt(StmtKind::Expr(Expr::Unsafe(Block { stmts: vec![assertion()] })));
    let input = program(vec![inside, assertion()]);
    let (out, _) = shatter_at(&input, &config(Target::Linux, 100), 1000).unwrap();
    let made = body_of(&out);
    assert_eq!(made.len(), 2);
    let trap_of = |s: &Stmt| match &s.kind {
        StmtKind::Expr(Expr::Group(_, parts)) => match &parts[2] {
            Expr::Block(b) => open_trap(b).1,
            other => panic!("unexpected {:?}", other),
        },
        other => panic!("unexpected {:?}", other),
    };
    match &made[0].kind {
        StmtKind::Expr(Expr::Unsafe(b)) => {
            assert_eq!(b.stmts.len(), 1);
            assert!(is_guard(&b.stmts[0]));
            assert!(!trap_of(&b.stmts[0]));
        }
        other => panic!("unexpected {:?}", other),
    }
    assert!(is_guard(&made[1]));
    assert!(trap_of(&made[1]));
}

#[test]
fn a_branch_inside_unsafe_is_not_wrapped_either() {
    let inside = stmt(StmtKind::Expr(Expr::Unsafe(Block {
        stmts: vec![stmt(StmtKind::Semi(verbatim("f()")))],
    })));
    let input = program(vec![inside, stmt(StmtKind::Semi(verbatim("g()")))]);
    let (out, _) = shatter_at(&input, &config(Target::Linux, 100), 1000).unwrap();
    let made = body_of(&out);
    assert_eq!(made.len(), 3);
    match &made[0].kind {
        StmtKind::Expr(Expr::Unsafe(b)) => match &b.stmts[1].kind {
            StmtKind::Branch(branch) => assert!(!open_trap(&branch.body).1),
            other => panic!("unexpected {:?}", other),
        },
        other => panic!("unexpected {:?}", other),
    }
    match &made[2].kind {
        StmtKind::Branch(branch) => assert!(open_trap(&branch.body).1),
        other => panic!("unexpected {:?}", other),
    }
}

#[test]
fn the_shatter_pass_keeps_an_empty_block() {
    let empty = program(Vec::new());
    let (out, state) = shatter_at(&empty, &config(Target::Windows, 100), 1000).unwrap();
    assert_eq!(out, empty);
    assert!(state.integrity_checks.is_empty());
    let mut state = Shatter::new();
    let s = settings(Target::Windows, 100);
    assert_eq!(state.shatter_stmts(&Vec::new(), &s), Vec::new());
    assert_eq!(
        state.shatter_expr(&Expr::Block(Block { stmts: Vec::new() }), &s),
        Expr::Block(Block { stmts: Vec::new() })
    );
    let nothing = File { items: Vec::new() };
    assert_eq!(shatter_at(&nothing, &config(Target::Linux, 100), 1).unwrap().0, nothing);
}

#[test]
fn items_of_a_file_get_no_branch_between_them() {
    let file = File {
        items: vec![
            stmt(StmtKind::Item(verbatim("struct A;"))),
            stmt(StmtKind::Item(verbatim("struct B;"))),
        ],
    };
    let (out, _) = shatter_at(&file, &config(Target::Windows, 100), 1000).unwrap();
    assert_eq!(out, file);
}

#[test]
fn a_kill_date_that_cannot_be_used_stops_the_pass() {
    let input = program(sample());
    let mut c = config(Target::Linux, 100);
    c.kill_date = None;
    c.debug = false;
    assert_eq!(shatter_at(&input, &c, 1000), Err(PassError::KillDateAbsent));
    assert_eq!(shatter(&input, &c), Err(PassError::KillDateAbsent));
    c.debug = true;
    assert!(shatter_at(&input, &c, 1000).is_ok());
    assert!(shatter(&input, &c).is_ok());
    c.kill_date = Some("tomorrow".to_string());
    assert_eq!(shatter_at(&input, &c, 1000), Err(PassError::KillDateInvalid));
    assert_eq!(shatter(&input, &c), Err(PassError::KillDateInvalid));
    c.kill_date = Some("1000".to_string());
    assert_eq!(shatter_at(&input, &c, 1000), Err(PassError::KillDatePast));
    assert!(shatter_at(&input, &c, 999).is_ok());
}

#[test]
fn the_clock_is_read_for_the_kill_date() {
    let input = program(sample());
    let mut c = config(Target::Linux, 100);
    c.kill_date = Some("1000000000".to_string());
    assert_eq!(shatter(&input, &c), Err(PassError::KillDatePast));
    c.kill_date = Some("18446744073709551615".to_string());
    assert!(shatter(&input, &c).is_ok());
}

#[test]
fn the_default_kill_date_lies_6000_seconds_ahead() {
    let mut c = config(Target::Linux, 100);
    c.kill_date = None;
    c.debug = true;
    let mut stmts = Vec::new();
    for i in 0..80 {
        stmts.push(stmt(StmtKind::Semi(verbatim(&format!("f{}()", i)))));
    }
    let (out, _) = shatter_at(&program(stmts), &c, 1000).unwrap();
    let mut seen = false;
    for s in body_of(&out) {
        if let StmtKind::Branch(b) = s.kind {
            if b.check.contains(".as_secs() >= ") {
                assert!(b.check.ends_with(".as_secs() >= 7000u64"));
                seen = true;
            }
        }
    }
    assert!(seen);
}

#[test]
fn a_branch_goes_where_the_draw_is_below_the_share() {
    assert!(decides_injection(100, 0));
    assert!(decides_injection(100, 99));
    assert!(!decides_injection(0, 0));
    assert!(!decides_injection(0, 99));
    assert!(decides_injection(50, 49));
    assert!(!decides_injection(50, 50));
    assert!(decides_injection(1, 0));
    assert!(!decides_injection(1, 1));
    assert!(decides_injection(255, 99));
}

#[test]
fn random_bytes_stand_in_only_where_nothing_was_chosen() {
    assert_eq!(garbage_bytes(vec![15, 132], vec![1; 40]), vec![15, 132]);
    assert_eq!(garbage_bytes(Vec::new(), vec![1; 40]), vec![1; 40]);
    assert_eq!(garbage_bytes(vec![0], Vec::new()), vec![0]);
    assert_eq!(garbage_bytes(Vec::new(), Vec::new()), Vec::<u8>::new());
}

#[test]
fn a_catalogue_with_a_gap_may_fall_back() {
    let state = Shatter::new();
    let mut s = settings(Target::Linux, 100);
    s.catalogue = vec![vec![vec![7, 8]], vec![]];
    let mut entry = false;
    let mut fallback = false;
    for _ in 0..200 {
        let bytes = garbage_bytes_of(&asm_tokens(&state.generate_garbage_asm(&s)));
        if bytes == vec![7, 8] {
            entry = true;
        } else {
            assert!((32..96).contains(&bytes.len()));
            fallback = true;
        }
    }
    assert!(entry && fallback);
}

#[test]
fn constants_and_patterns_are_not_shattered() {
    let inner = Block { stmts: vec![stmt(StmtKind::Semi(verbatim("f()")))] };
    let constant = Expr::Group(
        GroupKind::Const,
        vec![verbatim("const X: u8 ="), Expr::Block(r2d2::ast::clone_block(&inner)), verbatim(";")],
    );
    let pattern = Expr::Group(GroupKind::Pattern, vec![Expr::Block(inner)]);
    let input = File {
        items: vec![stmt(StmtKind::Item(constant)), stmt(StmtKind::Item(pattern))],
    };
    let (out, state) = shatter_at(&input, &config(Target::Windows, 100), 1000).unwrap();
    assert_eq!(out, input);
    assert!(state.integrity_checks.is_empty());
}
