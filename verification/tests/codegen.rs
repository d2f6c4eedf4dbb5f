use jiminy::aggregate::{
    extract_error_metadata, extract_instruction_metadata, extract_state_metadata,
};
use jiminy::capability::{AccountKind, Capability};
use jiminy::codegen::generate_program_code;
use jiminy::errors::{ErrorMeta, ErrorVariant};
use jiminy::instruction::{AccountMeta, FieldMeta, InstructionMeta};
use jiminy::state::{StateFieldMeta, StateMeta};

const INITIALIZE_COUNTER: &str = r#"define_instruction_with_metadata!(
    discriminant: 0,
    InitializeCounter,
    accounts: {
        owner: signer => writable, desc: "Owner of the counter",
        counter: uninitialized, desc: "Counter PDA to be initialized",
        system_program: any, desc: "System program",
    },
    data: {},
    process: {
        Ok(())
    }
);"#;

const INCREMENT: &str = r#"define_instruction_with_metadata!(
    discriminant: 1,
    Increment,
    accounts: {
        owner: signer, desc: "Owner of the counter",
        counter: program => writable, desc: "Counter PDA to increment",
    },
    data: {
        by: [u8; 8],
    },
    process: {
        Ok(())
    }
);"#;

const ERRORS: &str = r#"define_errors! {
    CounterProgramError,
    InvalidDiscriminator = 6001,
    Unauthorized = 6002,
}"#;

const STATE: &str = r#"define_state! {
    pub struct Counter {
        pub owner: [u8; 32],
        pub count: [u8; 8],
        pub bump: u8,
    }
}"#;

const COUNTER_PROGRAM: &str = r#"use shank::ShankInstruction;
use shank::ShankType;
use pinocchio::program_error::ProgramError;

// Generated error enum: CounterProgramError
#[derive(Clone, PartialEq, ShankType)]
pub enum CounterProgramError {
    InvalidDiscriminator = 6001,
    Unauthorized = 6002,
}

impl From<CounterProgramError> for ProgramError {
    fn from(e: CounterProgramError) -> Self {
        Self::Custom(e as u32)
    }
}

#[repr(u8)]
#[derive(Clone, Debug, PartialEq, ShankInstruction)]
pub enum ProgramInstructions {
    #[account(0, signer, writable, name = "owner", desc = "Owner of the counter")]
    #[account(1, writable, name = "counter", desc = "Counter PDA to be initialized")]
    #[account(2, name = "system_program", desc = "System program")]
    InitializeCounter {
    },

    #[account(0, signer, name = "owner", desc = "Owner of the counter")]
    #[account(1, writable, name = "counter", desc = "Counter PDA to increment")]
    Increment {
        by: [u8; 8],
    },

}

// ShankAccount definitions for state structs
// These are generated for IDL compatibility
#[repr(C)]
#[derive(Clone, shank::ShankAccount)]
pub struct Counter {
    pub owner: [u8; 32],
    pub count: [u8; 8],
    pub bump: u8,
}

pub fn process_instruction(
    program_id: &pinocchio::pubkey::Pubkey,
    accounts: &[pinocchio::account_info::AccountInfo],
    instruction_data: &[u8],
) -> pinocchio::ProgramResult {
    if program_id != &crate::ID {
        return Err(pinocchio::program_error::ProgramError::IncorrectProgramId);
    }

    match instruction_data.first() {
        Some(0) => {
            crate::instructions::InitializeCounterInstruction::try_from((accounts, &instruction_data[1..]))?.process()
        }
        Some(1) => {
            crate::instructions::IncrementInstruction::try_from((accounts, &instruction_data[1..]))?.process()
        }
        _ => Err(CounterProgramError::InvalidDiscriminator.into()),
    }
}
"#;

#[test]
fn counter_program_is_generated_from_its_sources() {
    let instructions = extract_instruction_metadata(&[INCREMENT.to_string(), INITIALIZE_COUNTER.to_string()]);
    let errors = extract_error_metadata(ERRORS);
    let records = extract_state_metadata(&[STATE.to_string()]);
    assert_eq!(generate_program_code(&instructions, &errors, &records), COUNTER_PROGRAM);
}

#[test]
fn generation_is_deterministic() {
    let instructions = extract_instruction_metadata(&[INCREMENT.to_string(), INITIALIZE_COUNTER.to_string()]);
    let errors = extract_error_metadata(ERRORS);
    let records = extract_state_metadata(&[STATE.to_string()]);
    let first = generate_program_code(&instructions, &errors, &records);
    let second = generate_program_code(&instructions, &errors, &records);
    assert_eq!(first, second);
}

#[test]
fn program_without_instructions_rejects_every_operation() {
    let errors = extract_error_metadata(ERRORS);
    let records = extract_state_metadata(&[STATE.to_string()]);
    let expected = r#"use shank::ShankInstruction;
use shank::ShankType;
use pinocchio::program_error::ProgramError;

// Generated error enum: CounterProgramError
#[derive(Clone, PartialEq, ShankType)]
pub enum CounterProgramError {
    InvalidDiscriminator = 6001,
    Unauthorized = 6002,
}

impl From<CounterProgramError> for ProgramError {
    fn from(e: CounterProgramError) -> Self {
        Self::Custom(e as u32)
    }
}

// No instructions found - using fallback
pub enum ProgramInstructions {}

pub fn process_instruction(_program_id: &pinocchio::pubkey::Pubkey, _accounts: &[pinocchio::account_info::AccountInfo], _instruction_data: &[u8]) -> pinocchio::ProgramResult {
    Err(pinocchio::program_error::ProgramError::InvalidInstructionData)
}
"#;
    assert_eq!(generate_program_code(&[], &errors, &records), expected);
}

#[test]
fn program_without_anything_is_the_fallback_alone() {
    let expected = r#"use shank::ShankInstruction;

// No instructions found - using fallback
pub enum ProgramInstructions {}

pub fn process_instruction(_program_id: &pinocchio::pubkey::Pubkey, _accounts: &[pinocchio::account_info::AccountInfo], _instruction_data: &[u8]) -> pinocchio::ProgramResult {
    Err(pinocchio::program_error::ProgramError::InvalidInstructionData)
}
"#;
    assert_eq!(generate_program_code(&[], &[], &[]), expected);
}

#[test]
fn program_without_error_table_uses_the_general_error() {
    let instruction = InstructionMeta {
        name: "Ping".to_string(),
        discriminator: 200,
        accounts: Vec::new(),
        fields: Vec::new(),
    };
    let expected = r#"use shank::ShankInstruction;

#[repr(u8)]
#[derive(Clone, Debug, PartialEq, ShankInstruction)]
pub enum ProgramInstructions {
    Ping {
    },

}

// ShankAccount definitions for state structs
// These are generated for IDL compatibility
pub fn process_instruction(
    program_id: &pinocchio::pubkey::Pubkey,
    accounts: &[pinocchio::account_info::AccountInfo],
    instruction_data: &[u8],
) -> pinocchio::ProgramResult {
    if program_id != &crate::ID {
        return Err(pinocchio::program_error::ProgramError::IncorrectProgramId);
    }

    match instruction_data.first() {
        Some(200) => {
            crate::instructions::PingInstruction::try_from((accounts, &instruction_data[1..]))?.process()
        }
        _ => Err(pinocchio::program_error::ProgramError::InvalidInstructionData),
    }
}
"#;
    assert_eq!(generate_program_code(&[instruction], &[], &[]), expected);
}

#[test]
fn every_capability_has_its_tags() {
    let slot = |index: usize, kind: AccountKind, writable: bool| AccountMeta {
        name: format!("a{}", index),
        index,
        desc: "d".to_string(),
        capability: Capability { kind, writable },
    };
    let instruction = InstructionMeta {
        name: "All".to_string(),
        discriminator: 9,
        accounts: vec![
            slot(0, AccountKind::Signer, false),
            slot(1, AccountKind::Signer, true),
            slot(2, AccountKind::ProgramOwned, false),
            slot(3, AccountKind::ProgramOwned, true),
            slot(4, AccountKind::UninitializedOwned, false),
            slot(5, AccountKind::UninitializedOwned, true),
            slot(6, AccountKind::ExternalTokenOwned, true),
            slot(7, AccountKind::NotTokenOwned, false),
            slot(8, AccountKind::Unconstrained, true),
            slot(12, AccountKind::Unconstrained, false),
        ],
        fields: vec![
            FieldMeta { name: "x".to_string(), field_type: "u8".to_string() },
            FieldMeta { name: "y".to_string(), field_type: "[u8; 2]".to_string() },
        ],
    };
    let code = generate_program_code(&[instruction], &[], &[]);
    let expected = r#"    #[account(0, signer, name = "a0", desc = "d")]
    #[account(1, signer, writable, name = "a1", desc = "d")]
    #[account(2, name = "a2", desc = "d")]
    #[account(3, writable, name = "a3", desc = "d")]
    #[account(4, writable, name = "a4", desc = "d")]
    #[account(5, writable, name = "a5", desc = "d")]
    #[account(6, writable, name = "a6", desc = "d")]
    #[account(7, name = "a7", desc = "d")]
    #[account(8, writable, name = "a8", desc = "d")]
    #[account(12, name = "a12", desc = "d")]
    All {
        x: u8,
        y: [u8; 2],
    },
"#;
    assert!(code.contains(expected), "{}", code);
}

#[test]
fn first_error_table_names_the_reserved_variant() {
    let table = |name: &str, code: u32| ErrorMeta {
        name: name.to_string(),
        variants: vec![ErrorVariant { name: "V".to_string(), code }],
    };
    let instruction = InstructionMeta {
        name: "Ping".to_string(),
        discriminator: 0,
        accounts: Vec::new(),
        fields: Vec::new(),
    };
    let record = StateMeta {
        name: "Empty".to_string(),
        fields: vec![StateFieldMeta { name: "f".to_string(), field_type: "u8".to_string() }],
    };
    let code = generate_program_code(&[instruction], &[table("First", 1), table("Second", 4294967295)], &[record]);
    assert!(code.contains("        _ => Err(First::InvalidDiscriminator.into()),\n"));
    assert!(code.contains("pub enum First {\n    V = 1,\n}\n\nimpl From<First> for ProgramError {\n"));
    assert!(code.contains("pub enum Second {\n    V = 4294967295,\n}\n\nimpl From<Second> for ProgramError {\n"));
    assert!(code.contains("#[repr(C)]\n#[derive(Clone, shank::ShankAccount)]\npub struct Empty {\n    pub f: u8,\n}\n\npub fn process_instruction(\n"));
}

#[test]
fn instructions_are_generated_by_ascending_tag() {
    let make = |name: &str, tag: u8| InstructionMeta {
        name: name.to_string(),
        discriminator: tag,
        accounts: Vec::new(),
        fields: Vec::new(),
    };
    let unordered = [make("Third", 9), make("First", 0), make("Second", 3), make("Again", 3)];
    let ordered = [make("First", 0), make("Second", 3), make("Third", 9)];
    let code = generate_program_code(&unordered, &[], &[]);
    assert_eq!(code, generate_program_code(&ordered, &[], &[]));
    let first = code.find("    First {\n").unwrap();
    let second = code.find("    Second {\n").unwrap();
    let third = code.find("    Third {\n").unwrap();
    assert!(first < second && second < third);
    assert!(!code.contains("Again"));
    let arms: Vec<usize> = ["Some(0)", "Some(3)", "Some(9)"].iter().map(|arm| code.find(arm).unwrap()).collect();
    assert!(arms[0] < arms[1] && arms[1] < arms[2]);
}
