use jiminy::aggregate::{
    extract_error_metadata, extract_instruction_metadata, extract_state_metadata,
    has_rust_extension, is_instruction_source, is_state_source, order_by_tag, unique_codes,
};
use jiminy::capability::{parse_capability, AccountKind, Capability};
use jiminy::errors::{parse_error_macro, ErrorMeta, ErrorVariant};
use jiminy::instruction::{
    parse_field_line, parse_instruction_file, parse_macro_content, parse_new_account_line,
    InstructionMeta,
};
use jiminy::state::{
    extract_struct_name, parse_define_state_macro, parse_state_field_line, parse_state_file,
};

fn letters(s: &str) -> Vec<char> {
    s.chars().collect()
}

fn asks(kind: AccountKind, writable: bool) -> Capability {
    Capability { kind, writable }
}

const INITIALIZE_COUNTER: &str = r#"use crate::{
    define_instruction_with_metadata,
    state::{Counter, COUNTER_SEED},
    CounterProgramError,
};
use pinocchio::pubkey;

define_instruction_with_metadata!(
    discriminant: 0,
    InitializeCounter,
    accounts: {
        owner: signer => writable, desc: "Owner of the counter",
        counter: uninitialized, desc: "Counter PDA to be initialized",
        system_program: any, desc: "System program",
    },
    data: {},
    process: {
        let (counter_pda, counter_bump) = pubkey::find_program_address(
            &[
                COUNTER_SEED,
                owner.key().as_ref(),
            ],
            &crate::ID,
        );
        if counter.key().ne(&counter_pda) {
            return Err(CounterProgramError::CounterKeyIncorrect.into());
        }
        Ok(())
    }
);"#;

const INCREMENT: &str = r#"define_instruction_with_metadata!(
    discriminant: 1,
    Increment,
    accounts: {
        owner: signer, desc: "Owner of the counter",
        counter: program => writable, desc: "Counter PDA to increment",
    },
    data: {},
    process: {
        let counter_state = load_mut!(counter, Counter);
        Ok(())
    }
);"#;

const INITIALIZE_VOTE: &str = r#"define_instruction_with_metadata!(
    discriminant: 2,
    InitializeVote,
    accounts: {
        authority: signer => writable, desc: "Authority of the vault",
        platform: program, desc: "Platform pda key",
        vault: any => writable, desc: "platforms fee vault pda",
        vote: signer => writable, desc: "new vote account",
        token: token, desc: "vote token",
        vote_vault: any => writable, desc: "votes vault pda",
        vote_vault_token_account: uninitialized, desc: "votes token account for storing funds",
        rent: any, desc: "Rent program",
        system_program: any, desc: "System program",
        token_program: any, desc: "Token program",
        associated_token_program: any, desc: "Associated Token program",
    },
    data: {
        time_to_add: [u8; 8],
    },
    process: {
        let platform_state = load_mut!(platform, Platform);
        transfer_sol!(authority, vault, fee_sol);
        Ok(())
    }
);"#;

const COUNTER_ERRORS: &str = r#"// Define errors using the define_errors! macro
// This will be parsed by the build script and generated in generated.rs
define_errors! {
    CounterProgramError,
    InvalidDiscriminator = 6001,
    Unauthorized = 6002,
    CounterKeyIncorrect = 6003,
    CounterAlreadyInitialized = 6004,
    CounterNotInitialized = 6005,
    CounterUnderflow = 6006,
}"#;

const VOTE_STATE: &str = r#"use crate::define_state;

// Seeds
pub const PLATFORM_SEED: &[u8; 6] = b"config";
pub const POSITION_SEED: &[u8; 8] = b"position";

define_state! {
    pub struct Platform {
        pub authority: [u8; 32],
        pub fee: [u8; 2],
        pub platform_bump: u8,
        pub vault_bump: u8,
    }

    pub struct Vote {
        pub token: [u8; 32],
        pub true_votes: [u8; 8],
        pub false_votes: [u8; 8],
        pub end_timestamp: [u8; 8],
        pub vault_bump: u8,
    }

    pub struct Position {
        pub amount: [u8; 8],
        pub side: u8,
        pub bump: u8,
    }
}
"#;

fn slot_summary(meta: &InstructionMeta) -> Vec<(String, usize, String, Capability)> {
    meta.accounts
        .iter()
        .map(|a| (a.name.clone(), a.index, a.desc.clone(), a.capability))
        .collect()
}

fn fields_summary(meta: &InstructionMeta) -> Vec<(String, String)> {
    meta.fields.iter().map(|f| (f.name.clone(), f.field_type.clone())).collect()
}

#[test]
fn counter_initialization_is_read_from_its_source_file() {
    let meta = parse_instruction_file(INITIALIZE_COUNTER).unwrap();
    assert_eq!(meta.name, "InitializeCounter");
    assert_eq!(meta.discriminator, 0);
    assert_eq!(
        slot_summary(&meta),
        vec![
            ("owner".to_string(), 0, "Owner of the counter".to_string(), asks(AccountKind::Signer, true)),
            (
                "counter".to_string(),
                1,
                "Counter PDA to be initialized".to_string(),
                asks(AccountKind::UninitializedOwned, true)
            ),
            ("system_program".to_string(), 2, "System program".to_string(), asks(AccountKind::Unconstrained, false)),
        ]
    );
    assert!(meta.fields.is_empty());
}

#[test]
fn vote_initialization_is_read_from_its_source_file() {
    let meta = parse_instruction_file(INITIALIZE_VOTE).unwrap();
    assert_eq!(meta.name, "InitializeVote");
    assert_eq!(meta.discriminator, 2);
    let names: Vec<&str> = meta.accounts.iter().map(|a| a.name.as_str()).collect();
    assert_eq!(
        names,
        vec![
            "authority",
            "platform",
            "vault",
            "vote",
            "token",
            "vote_vault",
            "vote_vault_token_account",
            "rent",
            "system_program",
            "token_program",
            "associated_token_program"
        ]
    );
    let caps: Vec<Capability> = meta.accounts.iter().map(|a| a.capability).collect();
    assert_eq!(
        caps,
        vec![
            asks(AccountKind::Signer, true),
            asks(AccountKind::ProgramOwned, false),
            asks(AccountKind::Unconstrained, true),
            asks(AccountKind::Signer, true),
            asks(AccountKind::ExternalTokenOwned, false),
            asks(AccountKind::Unconstrained, true),
            asks(AccountKind::UninitializedOwned, true),
            asks(AccountKind::Unconstrained, false),
            asks(AccountKind::Unconstrained, false),
            asks(AccountKind::Unconstrained, false),
            asks(AccountKind::Unconstrained, false),
        ]
    );
    assert_eq!(meta.accounts[6].desc, "votes token account for storing funds");
    assert_eq!(fields_summary(&meta), vec![("time_to_add".to_string(), "[u8; 8]".to_string())]);
}

#[test]
fn slots_are_numbered_in_file_order() {
    let meta = parse_instruction_file(INITIALIZE_VOTE).unwrap();
    assert_eq!(meta.accounts.len(), 11);
    for (i, account) in meta.accounts.iter().enumerate() {
        assert_eq!(account.index, i);
    }
}

#[test]
fn account_line_without_marker_is_skipped() {
    let text = "(\n discriminant: 4,\n Skip,\n accounts: {\n  a: signer, desc: \"first\",\n  b: any,\n  c: token, desc: \"third\",\n },\n data: {},\n process: {}\n)";
    let meta = parse_macro_content(&letters(text)).unwrap();
    assert_eq!(
        slot_summary(&meta),
        vec![
            ("a".to_string(), 0, "first".to_string(), asks(AccountKind::Signer, false)),
            ("c".to_string(), 1, "third".to_string(), asks(AccountKind::ExternalTokenOwned, false)),
        ]
    );
}

#[test]
fn marked_line_with_one_colon_declares_nothing() {
    let text = "(\n Name,\n accounts: {\n  a signer, desc: \"first\",\n  b: any, desc: \"second\",\n },\n process: {}\n)";
    let meta = parse_macro_content(&letters(text)).unwrap();
    assert_eq!(
        slot_summary(&meta),
        vec![("b".to_string(), 0, "second".to_string(), asks(AccountKind::Unconstrained, false))]
    );
}

#[test]
fn name_is_the_first_line_that_ends_with_a_comma() {
    let text = "(\n accounts: {\n  a: signer, desc: \"first\",\n  b: any, desc: \"second\",\n }\n)";
    let meta = parse_macro_content(&letters(text)).unwrap();
    assert_eq!(meta.name, "a: signer, desc: \"first\"");
    assert_eq!(meta.accounts.len(), 1);
    assert_eq!(meta.accounts[0].name, "b");
    assert_eq!(meta.accounts[0].index, 0);
}

#[test]
fn declaration_without_name_is_none() {
    assert!(parse_macro_content(&letters("(\n discriminant: 3,\n accounts: {\n }\n)")).is_none());
    assert!(parse_macro_content(&letters("")).is_none());
    assert!(parse_macro_content(&letters("(\n define_instruction_foo,\n ,\n)")).is_none());
}

#[test]
fn nothing_is_read_after_the_handler_begins() {
    let text = "(\n discriminant: 1,\n First,\n process: {\n discriminant: 9,\n accounts: {\n  a: signer, desc: \"x\",\n data: {\n  f: u8,\n)";
    let meta = parse_macro_content(&letters(text)).unwrap();
    assert_eq!(meta.discriminator, 1);
    assert!(meta.accounts.is_empty());
    assert!(meta.fields.is_empty());
}

#[test]
fn tag_that_is_no_byte_is_zero() {
    for (line, tag) in [
        ("discriminant: 7,", 7u8),
        ("discriminant: 255,", 255),
        ("discriminant: 256,", 0),
        ("discriminant: x,", 0),
        ("discriminant:,", 0),
        ("discriminant: +12,,", 12),
        ("discriminant: 3: 4,", 3),
    ] {
        let text = format!("(\n {}\n Name,\n)", line);
        assert_eq!(parse_macro_content(&letters(&text)).unwrap().discriminator, tag, "{}", line);
    }
}

#[test]
fn later_tag_line_replaces_the_earlier() {
    let text = "(\n discriminant: 7,\n Name,\n discriminant: 9,\n)";
    assert_eq!(parse_macro_content(&letters(text)).unwrap().discriminator, 9);
}

#[test]
fn data_fields_keep_their_type_as_written() {
    let text = "(\n Name,\n data: {\n  amount: [u8; 8],\n  side: u8,\n  key: pinocchio::pubkey::Pubkey,\n  plain\n }\n)";
    let meta = parse_macro_content(&letters(text)).unwrap();
    assert_eq!(
        fields_summary(&meta),
        vec![
            ("amount".to_string(), "[u8; 8]".to_string()),
            ("side".to_string(), "u8".to_string()),
            ("key".to_string(), "pinocchio::pubkey::Pubkey".to_string()),
        ]
    );
}

#[test]
fn field_line_is_split_at_its_first_colon() {
    let f = parse_field_line(&letters("  amount : [u8; 8],,")).unwrap();
    assert_eq!((f.name.as_str(), f.field_type.as_str()), ("amount", "[u8; 8]"));
    let f = parse_field_line(&letters(":")).unwrap();
    assert_eq!((f.name.as_str(), f.field_type.as_str()), ("", ""));
    assert!(parse_field_line(&letters("no colon")).is_none());
}

#[test]
fn account_line_is_cut_at_its_colons() {
    let a = parse_new_account_line(&letters("authority: signer => writable, desc: \"Authority of the vault\","), 3).unwrap();
    assert_eq!(a.name, "authority");
    assert_eq!(a.index, 3);
    assert_eq!(a.desc, "Authority of the vault");
    assert_eq!(a.capability, asks(AccountKind::Signer, true));
    let a = parse_new_account_line(&letters("x: any, desc: \"a: b\","), 0).unwrap();
    assert_eq!(a.desc, "a");
    assert!(parse_new_account_line(&letters("x any, desc: \"a\","), 0).is_none());
    assert!(parse_new_account_line(&letters("no colon"), 0).is_none());
}

#[test]
fn capability_words_are_recognised() {
    assert_eq!(parse_capability(&letters("signer")), asks(AccountKind::Signer, false));
    assert_eq!(parse_capability(&letters("signer => writable")), asks(AccountKind::Signer, true));
    assert_eq!(parse_capability(&letters("program")), asks(AccountKind::ProgramOwned, false));
    assert_eq!(parse_capability(&letters("program => writable, desc")), asks(AccountKind::ProgramOwned, true));
    assert_eq!(parse_capability(&letters("uninitialized")), asks(AccountKind::UninitializedOwned, true));
    assert_eq!(parse_capability(&letters("uninitialized => writable")), asks(AccountKind::UninitializedOwned, true));
    assert_eq!(parse_capability(&letters("token")), asks(AccountKind::ExternalTokenOwned, false));
    assert_eq!(parse_capability(&letters("token => writable")), asks(AccountKind::ExternalTokenOwned, true));
    assert_eq!(parse_capability(&letters("not_token")), asks(AccountKind::NotTokenOwned, false));
    assert_eq!(parse_capability(&letters("not_token => writable")), asks(AccountKind::NotTokenOwned, true));
    assert_eq!(parse_capability(&letters("any")), asks(AccountKind::Unconstrained, false));
    assert_eq!(parse_capability(&letters("any => writable")), asks(AccountKind::Unconstrained, true));
    assert_eq!(parse_capability(&letters("")), asks(AccountKind::Unconstrained, false));
    assert_eq!(parse_capability(&letters("something else")), asks(AccountKind::Unconstrained, false));
}

#[test]
fn file_without_declaration_is_none() {
    assert!(parse_instruction_file("pub mod a;\npub mod b;\n").is_none());
    assert!(parse_instruction_file("").is_none());
}

#[test]
fn declaration_that_is_never_closed_is_none() {
    let text = "define_instruction_with_metadata!(\n discriminant: 1,\n Name,\n accounts: {\n";
    assert!(parse_instruction_file(text).is_none());
}

#[test]
fn short_marker_is_used_where_the_long_is_absent() {
    let text = "define_instruction!(\n discriminant: 5,\n Short,\n process: {}\n);";
    let meta = parse_instruction_file(text).unwrap();
    assert_eq!((meta.name.as_str(), meta.discriminator), ("Short", 5));
    let both = format!("{}\n{}", text, INCREMENT);
    assert_eq!(parse_instruction_file(&both).unwrap().name, "Increment");
}

#[test]
fn error_table_is_read_in_order() {
    let tables = extract_error_metadata(COUNTER_ERRORS);
    assert_eq!(tables.len(), 1);
    assert_eq!(tables[0].name, "CounterProgramError");
    let variants: Vec<(String, u32)> = tables[0].variants.iter().map(|v| (v.name.clone(), v.code)).collect();
    assert_eq!(
        variants,
        vec![
            ("InvalidDiscriminator".to_string(), 6001),
            ("Unauthorized".to_string(), 6002),
            ("CounterKeyIncorrect".to_string(), 6003),
            ("CounterAlreadyInitialized".to_string(), 6004),
            ("CounterNotInitialized".to_string(), 6005),
            ("CounterUnderflow".to_string(), 6006),
        ]
    );
}

#[test]
fn error_table_without_variants_is_discarded() {
    assert!(parse_error_macro(&letters("{\n Name,\n}")).is_none());
    assert!(extract_error_metadata("define_errors! {\n Name,\n}").is_empty());
}

#[test]
fn error_table_without_name_is_discarded() {
    assert!(parse_error_macro(&letters("{\n}")).is_none());
    assert!(parse_error_macro(&letters("{ Name, A = 1 }")).is_none());
    assert!(parse_error_macro(&letters("no braces")).is_none());
    assert!(extract_error_metadata("nothing declared").is_empty());
}

#[test]
fn error_variant_needs_a_code_of_32_bits() {
    let table = parse_error_macro(&letters("{\n E,\n A = 1,\n B = x,\n C = 4294967295\n D = 4294967296,\n E = -1,\n F=+7,,\n}")).unwrap();
    let variants: Vec<(String, u32)> = table.variants.iter().map(|v| (v.name.clone(), v.code)).collect();
    assert_eq!(
        variants,
        vec![("A".to_string(), 1), ("C".to_string(), 4294967295), ("F".to_string(), 7)]
    );
}

#[test]
fn error_table_ends_at_its_closing_brace() {
    let text = "define_errors! {\n E,\n A = 1,\n}\n B = 2,\n";
    let tables = extract_error_metadata(text);
    assert_eq!(tables[0].variants.len(), 1);
}

#[test]
fn duplicate_codes_keep_the_first_variant() {
    let text = "define_errors! {\n E,\n A = 1,\n B = 2,\n C = 1,\n D = 3,\n E = 2,\n}";
    let tables = extract_error_metadata(text);
    let variants: Vec<(String, u32)> = tables[0].variants.iter().map(|v| (v.name.clone(), v.code)).collect();
    assert_eq!(
        variants,
        vec![("A".to_string(), 1), ("B".to_string(), 2), ("D".to_string(), 3)]
    );
}

#[test]
fn codes_of_a_table_are_pairwise_distinct() {
    let table = ErrorMeta {
        name: "E".to_string(),
        variants: vec![
            ErrorVariant { name: "A".to_string(), code: 5 },
            ErrorVariant { name: "B".to_string(), code: 5 },
            ErrorVariant { name: "C".to_string(), code: 6 },
            ErrorVariant { name: "D".to_string(), code: 5 },
        ],
    };
    let unique = unique_codes(&table);
    assert_eq!(unique.name, "E");
    for i in 0..unique.variants.len() {
        for j in 0..i {
            assert_ne!(unique.variants[i].code, unique.variants[j].code);
        }
    }
    let names: Vec<&str> = unique.variants.iter().map(|v| v.name.as_str()).collect();
    assert_eq!(names, vec!["A", "C"]);
}

#[test]
fn records_are_read_with_their_fields() {
    let records = parse_state_file(VOTE_STATE).unwrap();
    let summary: Vec<(String, Vec<(String, String)>)> = records
        .iter()
        .map(|r| (r.name.clone(), r.fields.iter().map(|f| (f.name.clone(), f.field_type.clone())).collect()))
        .collect();
    let f = |n: &str, t: &str| (n.to_string(), t.to_string());
    assert_eq!(
        summary,
        vec![
            (
                "Platform".to_string(),
                vec![f("authority", "[u8; 32]"), f("fee", "[u8; 2]"), f("platform_bump", "u8"), f("vault_bump", "u8")]
            ),
            (
                "Vote".to_string(),
                vec![
                    f("token", "[u8; 32]"),
                    f("true_votes", "[u8; 8]"),
                    f("false_votes", "[u8; 8]"),
                    f("end_timestamp", "[u8; 8]"),
                    f("vault_bump", "u8")
                ]
            ),
            ("Position".to_string(), vec![f("amount", "[u8; 8]"), f("side", "u8"), f("bump", "u8")]),
        ]
    );
}

#[test]
fn every_declaration_of_a_file_is_read() {
    let text = "define_state! {\n pub struct A {\n  pub x: u8,\n }\n}\nother\ndefine_state! {\n pub struct B {\n }\n}\n";
    let records = parse_state_file(text).unwrap();
    let names: Vec<&str> = records.iter().map(|r| r.name.as_str()).collect();
    assert_eq!(names, vec!["A", "B"]);
    assert_eq!(records[0].fields.len(), 1);
    assert!(records[1].fields.is_empty());
}

#[test]
fn file_without_records_is_none() {
    assert!(parse_state_file("").is_none());
    assert!(parse_state_file("use crate::define_state;\n").is_none());
    assert!(parse_state_file("define_state! {\n}\n").is_none());
    assert!(parse_state_file("define_state! {\n pub struct A {\n").is_none());
    assert!(parse_define_state_macro(&letters("no braces")).is_none());
}

#[test]
fn record_that_is_not_closed_is_given_up() {
    let text = "{\n pub struct A {\n  pub x: u8,\n pub struct B {\n  pub y: u8,\n }\n }\n}";
    let records = parse_define_state_macro(&letters(text)).unwrap();
    let names: Vec<&str> = records.iter().map(|r| r.name.as_str()).collect();
    assert_eq!(names, vec!["B"]);
    assert_eq!(records[0].fields[0].name, "y");
}

#[test]
fn record_name_is_the_third_word() {
    assert_eq!(extract_struct_name(&letters("pub struct Counter {")), Some("Counter".to_string()));
    assert_eq!(extract_struct_name(&letters("pub struct Counter{")), Some("Counter".to_string()));
    assert_eq!(extract_struct_name(&letters("pub   struct\tCounter{{ more")), Some("Counter".to_string()));
    assert_eq!(extract_struct_name(&letters("pub struct {")), Some("".to_string()));
    assert_eq!(extract_struct_name(&letters("pub struct")), None);
    assert_eq!(extract_struct_name(&letters("pub structure Counter {")), None);
    assert_eq!(extract_struct_name(&letters("struct pub Counter {")), None);
}

#[test]
fn record_field_needs_its_visibility() {
    let f = parse_state_field_line(&letters("pub owner: [u8; 32],")).unwrap();
    assert_eq!((f.name.as_str(), f.field_type.as_str()), ("owner", "[u8; 32]"));
    let f = parse_state_field_line(&letters("pub  key : a::B,,")).unwrap();
    assert_eq!((f.name.as_str(), f.field_type.as_str()), ("key", "a::B"));
    assert!(parse_state_field_line(&letters("owner: [u8; 32],")).is_none());
    assert!(parse_state_field_line(&letters("pub: u8,")).is_none());
    assert!(parse_state_field_line(&letters("pub owner")).is_none());
}

#[test]
fn instructions_are_ordered_by_tag() {
    let sources = vec![
        INITIALIZE_VOTE.to_string(),
        "pub mod nothing;".to_string(),
        INCREMENT.to_string(),
        INITIALIZE_COUNTER.to_string(),
    ];
    let instructions = extract_instruction_metadata(&sources);
    let tags: Vec<(u8, &str)> = instructions.iter().map(|i| (i.discriminator, i.name.as_str())).collect();
    assert_eq!(tags, vec![(0, "InitializeCounter"), (1, "Increment"), (2, "InitializeVote")]);
    assert_eq!(instructions[2].accounts.len(), 11);
    assert_eq!(instructions[2].fields[0].field_type, "[u8; 8]");
}

#[test]
fn first_instruction_of_a_tag_stands_for_it() {
    let make = |name: &str, tag: u8| InstructionMeta {
        name: name.to_string(),
        discriminator: tag,
        accounts: Vec::new(),
        fields: Vec::new(),
    };
    let items = vec![make("c", 200), make("a", 3), make("b", 200), make("d", 0), make("e", 3), make("f", 255)];
    let ordered = order_by_tag(&items);
    let tags: Vec<(u8, &str)> = ordered.iter().map(|i| (i.discriminator, i.name.as_str())).collect();
    assert_eq!(tags, vec![(0, "d"), (3, "a"), (200, "c"), (255, "f")]);
    assert!(order_by_tag(&[]).is_empty());
}

#[test]
fn records_of_all_files_make_one_list() {
    let sources = vec![
        "define_state! {\n pub struct A {\n  pub x: u8,\n }\n}".to_string(),
        "nothing".to_string(),
        VOTE_STATE.to_string(),
    ];
    let records = extract_state_metadata(&sources);
    let names: Vec<&str> = records.iter().map(|r| r.name.as_str()).collect();
    assert_eq!(names, vec!["A", "Platform", "Vote", "Position"]);
}

#[test]
fn source_files_are_told_by_their_names() {
    for (name, rust, instruction, state) in [
        ("increment.rs", true, true, true),
        ("mod.rs", true, false, true),
        ("lib.rs", true, true, false),
        ("generated.rs", true, true, false),
        ("error.rs", true, true, false),
        ("errors.rs", true, true, true),
        (".rs", false, false, false),
        ("rs", false, false, false),
        ("a.rs.bak", false, false, false),
        ("a.b.rs", true, true, true),
        ("readme.md", false, false, false),
        ("", false, false, false),
        ("x.RS", false, false, false),
    ] {
        assert_eq!(has_rust_extension(name), rust, "{}", name);
        assert_eq!(is_instruction_source(name), instruction, "{}", name);
        assert_eq!(is_state_source(name), state, "{}", name);
        let by_std = std::path::Path::new(name).extension().and_then(|s| s.to_str()) == Some("rs");
        assert_eq!(has_rust_extension(name), by_std, "{}", name);
    }
}
