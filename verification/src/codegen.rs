//! The source text that is generated for a program.
//!
//! [`program_code`] is the text for given instructions, error tables and
//! records: first the error tables as enumerated types, each with its
//! conversion into the program's general error; then the instructions as one
//! tagged union, every variant annotated with its account slots; then the
//! records as fixed-layout types; then the routine that selects an
//! instruction by its tag. Without instructions the text ends after the
//! error tables with a routine that rejects every operation.
//!
//! The text is described piece by piece: each `with_*` function is the text
//! so far, followed by one more piece.

use crate::aggregate::{instructions_by_tag, order_by_tag};
use crate::capability::AccountKind;
use crate::errors::{domains_of, DomainVariant, ErrorDomain, ErrorMeta};
use crate::instruction::{
    descriptors_of, AccountMeta, AccountSlot, DataField, InstructionDescriptor, InstructionMeta,
};
use crate::state::{records_of, RecordField, StateMeta, StateRecord};
use crate::text::{decimal, push_decimal};
use vstd::prelude::*;
use vstd::string::StringExecFns;

verus! {

/// `out`, then the line of one variant of an error table.
pub open spec fn with_variant(out: Seq<char>, variant: DomainVariant) -> Seq<char> {
    out + "    "@ + variant.name + " = "@ + decimal(variant.code as nat) + ",\n"@
}

/// `out`, then the lines of the first `n` variants.
pub open spec fn with_variants(out: Seq<char>, variants: Seq<DomainVariant>, n: int) -> Seq<char>
    decreases n,
{
    if n <= 0 {
        out
    } else {
        with_variant(with_variants(out, variants, n - 1), variants[n - 1])
    }
}

/// `out`, then one error table: its enumerated type and the conversion that
/// maps each variant to its code.
pub open spec fn with_error(out: Seq<char>, domain: ErrorDomain) -> Seq<char> {
    with_variants(
        out
            + "// Generated error enum: "@ + domain.name + "\n"@
            + "#[derive(Clone, PartialEq, ShankType)]\n"@
            + "pub enum "@ + domain.name + " {\n"@,
        domain.variants,
        domain.variants.len() as int,
    )
        + "}\n\n"@
        + "impl From<"@ + domain.name + "> for ProgramError {\n"@
        + "    fn from(e: "@ + domain.name + ") -> Self {\n"@
        + "        Self::Custom(e as u32)\n"@
        + "    }\n"@
        + "}\n\n"@
}

/// `out`, then the first `n` error tables.
pub open spec fn with_errors(out: Seq<char>, errors: Seq<ErrorDomain>, n: int) -> Seq<char>
    decreases n,
{
    if n <= 0 {
        out
    } else {
        with_error(with_errors(out, errors, n - 1), errors[n - 1])
    }
}

/// `out`, then the tags of a slot's capability: `signer` for an account that
/// must sign, `writable` for one that must be writable.
pub open spec fn with_tags(out: Seq<char>, slot: AccountSlot) -> Seq<char> {
    let signer = if slot.capability.kind == AccountKind::Signer {
        out + ", signer"@
    } else {
        out
    };
    if slot.capability.requires_writable() {
        signer + ", writable"@
    } else {
        signer
    }
}

/// `out`, then the annotation of one account slot.
pub open spec fn with_account(out: Seq<char>, slot: AccountSlot) -> Seq<char> {
    with_tags(out + "    #[account("@ + decimal(slot.index), slot) + ", name = \""@ + slot.name
        + "\", desc = \""@ + slot.desc + "\")]\n"@
}

/// `out`, then the annotations of the first `n` slots.
pub open spec fn with_accounts(out: Seq<char>, slots: Seq<AccountSlot>, n: int) -> Seq<char>
    decreases n,
{
    if n <= 0 {
        out
    } else {
        with_account(with_accounts(out, slots, n - 1), slots[n - 1])
    }
}

/// `out`, then the line of one payload field.
pub open spec fn with_field(out: Seq<char>, field: DataField) -> Seq<char> {
    out + "        "@ + field.name + ": "@ + field.field_type + ",\n"@
}

/// `out`, then the lines of the first `n` fields.
pub open spec fn with_fields(out: Seq<char>, fields: Seq<DataField>, n: int) -> Seq<char>
    decreases n,
{
    if n <= 0 {
        out
    } else {
        with_field(with_fields(out, fields, n - 1), fields[n - 1])
    }
}

/// `out`, then the variant of one instruction: the annotations of its slots,
/// its name and its fields.
pub open spec fn with_instruction(out: Seq<char>, instruction: InstructionDescriptor) -> Seq<
    char,
> {
    with_fields(
        with_accounts(out, instruction.accounts, instruction.accounts.len() as int) + "    "@
            + instruction.name + " {\n"@,
        instruction.fields,
        instruction.fields.len() as int,
    ) + "    },\n\n"@
}

/// `out`, then the variants of the first `n` instructions.
pub open spec fn with_instructions(
    out: Seq<char>,
    instructions: Seq<InstructionDescriptor>,
    n: int,
) -> Seq<char>
    decreases n,
{
    if n <= 0 {
        out
    } else {
        with_instruction(with_instructions(out, instructions, n - 1), instructions[n - 1])
    }
}

/// `out`, then the line of one field of a record.
pub open spec fn with_record_field(out: Seq<char>, field: RecordField) -> Seq<char> {
    out + "    pub "@ + field.name + ": "@ + field.field_type + ",\n"@
}

/// `out`, then the lines of the first `n` fields of a record.
pub open spec fn with_record_fields(out: Seq<char>, fields: Seq<RecordField>, n: int) -> Seq<char>
    decreases n,
{
    if n <= 0 {
        out
    } else {
        with_record_field(with_record_fields(out, fields, n - 1), fields[n - 1])
    }
}

/// `out`, then the type of one record.
pub open spec fn with_record(out: Seq<char>, record: StateRecord) -> Seq<char> {
    with_record_fields(
        out
            + "#[repr(C)]\n"@
            + "#[derive(Clone, shank::ShankAccount)]\n"@
            + "pub struct "@ + record.name + " {\n"@,
        record.fields,
        record.fields.len() as int,
    ) + "}\n\n"@
}

/// `out`, then the types of the first `n` records.
pub open spec fn with_records(out: Seq<char>, records: Seq<StateRecord>, n: int) -> Seq<char>
    decreases n,
{
    if n <= 0 {
        out
    } else {
        with_record(with_records(out, records, n - 1), records[n - 1])
    }
}

/// `out`, then the arm that hands an operation with one instruction's tag
/// to that instruction.
pub open spec fn with_arm(out: Seq<char>, instruction: InstructionDescriptor) -> Seq<char> {
    out
        + "        Some("@ + decimal(instruction.discriminator as nat) + ") => {\n"@
        + "            crate::instructions::"@ + instruction.name
        + "Instruction::try_from((accounts, &instruction_data[1..]))?.process()\n"@
        + "        }\n"@
}

/// `out`, then the arms of the first `n` instructions.
pub open spec fn with_arms(out: Seq<char>, instructions: Seq<InstructionDescriptor>, n: int) -> Seq<
    char,
>
    decreases n,
{
    if n <= 0 {
        out
    } else {
        with_arm(with_arms(out, instructions, n - 1), instructions[n - 1])
    }
}

/// `out`, then the arm for a tag that no instruction has: the reserved
/// variant of the first error table, or the general error for an invalid
/// instruction where no table was declared.
pub open spec fn with_unknown_arm(out: Seq<char>, errors: Seq<ErrorDomain>) -> Seq<char> {
    if errors.len() > 0 {
        out + "        _ => Err("@ + errors[0].name + "::InvalidDiscriminator.into()),\n"@
    } else {
        out
            + "        _ => Err(pinocchio::program_error::ProgramError::InvalidInstructionData),\n"@
    }
}

/// The imports that the text begins with.
pub open spec fn with_imports(out: Seq<char>, errors: Seq<ErrorDomain>) -> Seq<char> {
    if errors.len() > 0 {
        out
            + "use shank::ShankInstruction;\n"@
            + "use shank::ShankType;\n"@
            + "use pinocchio::program_error::ProgramError;\n\n"@
    } else {
        out + "use shank::ShankInstruction;\n\n"@
    }
}

/// `out`, then what stands for a program without instructions: an empty
/// union and a routine that rejects every operation.
pub open spec fn with_fallback(out: Seq<char>) -> Seq<char> {
    out
        + "// No instructions found - using fallback\n"@
        + "pub enum ProgramInstructions {}\n\n"@
        + "pub fn process_instruction(_program_id: &pinocchio::pubkey::Pubkey, _accounts: &[pinocchio::account_info::AccountInfo], _instruction_data: &[u8]) -> pinocchio::ProgramResult {\n"@
        + "    Err(pinocchio::program_error::ProgramError::InvalidInstructionData)\n"@
        + "}\n"@
}

/// `out`, then the tagged union of the instructions.
pub open spec fn with_union(out: Seq<char>, instructions: Seq<InstructionDescriptor>) -> Seq<char> {
    with_instructions(
        out
            + "#[repr(u8)]\n"@
            + "#[derive(Clone, Debug, PartialEq, ShankInstruction)]\n"@
            + "pub enum ProgramInstructions {\n"@,
        instructions,
        instructions.len() as int,
    ) + "}\n\n"@
}

/// `out`, then the types of the records under their heading.
pub open spec fn with_layouts(out: Seq<char>, records: Seq<StateRecord>) -> Seq<char> {
    with_records(
        out
            + "// ShankAccount definitions for state structs\n"@
            + "// These are generated for IDL compatibility\n"@,
        records,
        records.len() as int,
    )
}

/// `out`, then the routine that selects an instruction by its tag. It
/// rejects an operation for another program, hands an operation with a known
/// tag to its instruction and answers any other with the arm for an unknown
/// tag.
pub open spec fn with_dispatch(
    out: Seq<char>,
    instructions: Seq<InstructionDescriptor>,
    errors: Seq<ErrorDomain>,
) -> Seq<char> {
    with_unknown_arm(
        with_arms(
            out
                + "pub fn process_instruction(\n"@
                + "    program_id: &pinocchio::pubkey::Pubkey,\n"@
                + "    accounts: &[pinocchio::account_info::AccountInfo],\n"@
                + "    instruction_data: &[u8],\n"@
                + ") -> pinocchio::ProgramResult {\n"@
                + "    if program_id != &crate::ID {\n"@
                + "        return Err(pinocchio::program_error::ProgramError::IncorrectProgramId);\n"@
                + "    }\n\n"@
                + "    match instruction_data.first() {\n"@,
            instructions,
            instructions.len() as int,
        ),
        errors,
    ) + "    }\n}\n"@
}

/// The source text for instructions that stand in the union and in the
/// routine in the order in which they are given.
pub open spec fn code_in_order(
    instructions: Seq<InstructionDescriptor>,
    errors: Seq<ErrorDomain>,
    records: Seq<StateRecord>,
) -> Seq<char> {
    let head = with_errors(with_imports(Seq::empty(), errors), errors, errors.len() as int);
    if instructions.len() == 0 {
        with_fallback(head)
    } else {
        with_dispatch(with_layouts(with_union(head, instructions), records), instructions, errors)
    }
}

/// The source text that is generated for a program. The instructions stand
/// in the union and in the routine by ascending tag, one for each tag.
pub open spec fn program_code(
    instructions: Seq<InstructionDescriptor>,
    errors: Seq<ErrorDomain>,
    records: Seq<StateRecord>,
) -> Seq<char> {
    code_in_order(instructions_by_tag(instructions), errors, records)
}

fn push_error(out: &mut String, error: &ErrorMeta)
    ensures
        final(out)@ == with_error(old(out)@, error@),
{
    out.append("// Generated error enum: ");
    out.append(error.name.as_str());
    out.append("\n");
    out.append("#[derive(Clone, PartialEq, ShankType)]\n");
    out.append("pub enum ");
    out.append(error.name.as_str());
    out.append(" {\n");
    let ghost start = out@;
    let mut i: usize = 0;
    while i < error.variants.len()
        invariant
            i <= error.variants.len(),
            out@ == with_variants(start, error@.variants, i as int),
        decreases error.variants.len() - i,
    {
        let variant = &error.variants[i];
        assert(error@.variants[i as int] == variant@);
        out.append("    ");
        out.append(variant.name.as_str());
        out.append(" = ");
        push_decimal(out, variant.code as u64);
        out.append(",\n");
        i += 1;
    }
    out.append("}\n\n");
    out.append("impl From<");
    out.append(error.name.as_str());
    out.append("> for ProgramError {\n");
    out.append("    fn from(e: ");
    out.append(error.name.as_str());
    out.append(") -> Self {\n");
    out.append("        Self::Custom(e as u32)\n");
    out.append("    }\n");
    out.append("}\n\n");
}

fn push_account(out: &mut String, account: &AccountMeta)
    ensures
        final(out)@ == with_account(old(out)@, account@),
{
    out.append("    #[account(");
    push_decimal(out, account.index as u64);
    if account.capability.kind == AccountKind::Signer {
        out.append(", signer");
    }
    if account.capability.must_be_writable() {
        out.append(", writable");
    }
    out.append(", name = \"");
    out.append(account.name.as_str());
    out.append("\", desc = \"");
    out.append(account.desc.as_str());
    out.append("\")]\n");
}

fn push_instruction(out: &mut String, instruction: &InstructionMeta)
    ensures
        final(out)@ == with_instruction(old(out)@, instruction@),
{
    let mut i: usize = 0;
    while i < instruction.accounts.len()
        invariant
            i <= instruction.accounts.len(),
            out@ == with_accounts(old(out)@, instruction@.accounts, i as int),
        decreases instruction.accounts.len() - i,
    {
        assert(instruction@.accounts[i as int] == instruction.accounts[i as int]@);
        push_account(out, &instruction.accounts[i]);
        i += 1;
    }
    out.append("    ");
    out.append(instruction.name.as_str());
    out.append(" {\n");
    let ghost start = out@;
    let mut k: usize = 0;
    while k < instruction.fields.len()
        invariant
            k <= instruction.fields.len(),
            out@ == with_fields(start, instruction@.fields, k as int),
        decreases instruction.fields.len() - k,
    {
        let field = &instruction.fields[k];
        assert(instruction@.fields[k as int] == field@);
        out.append("        ");
        out.append(field.name.as_str());
        out.append(": ");
        out.append(field.field_type.as_str());
        out.append(",\n");
        k += 1;
    }
    out.append("    },\n\n");
}

fn push_record(out: &mut String, record: &StateMeta)
    ensures
        final(out)@ == with_record(old(out)@, record@),
{
    out.append("#[repr(C)]\n");
    out.append("#[derive(Clone, shank::ShankAccount)]\n");
    out.append("pub struct ");
    out.append(record.name.as_str());
    out.append(" {\n");
    let ghost start = out@;
    let mut i: usize = 0;
    while i < record.fields.len()
        invariant
            i <= record.fields.len(),
            out@ == with_record_fields(start, record@.fields, i as int),
        decreases record.fields.len() - i,
    {
        let field = &record.fields[i];
        assert(record@.fields[i as int] == field@);
        out.append("    pub ");
        out.append(field.name.as_str());
        out.append(": ");
        out.append(field.field_type.as_str());
        out.append(",\n");
        i += 1;
    }
    out.append("}\n\n");
}

fn push_dispatch(out: &mut String, instructions: &[InstructionMeta], errors: &[ErrorMeta])
    ensures
        final(out)@ == with_dispatch(
            old(out)@,
            descriptors_of(instructions@),
            domains_of(errors@),
        ),
{
    out.append("pub fn process_instruction(\n");
    out.append("    program_id: &pinocchio::pubkey::Pubkey,\n");
    out.append("    accounts: &[pinocchio::account_info::AccountInfo],\n");
    out.append("    instruction_data: &[u8],\n");
    out.append(") -> pinocchio::ProgramResult {\n");
    out.append("    if program_id != &crate::ID {\n");
    out.append("        return Err(pinocchio::program_error::ProgramError::IncorrectProgramId);\n");
    out.append("    }\n\n");
    out.append("    match instruction_data.first() {\n");
    let ghost start = out@;
    let mut i: usize = 0;
    while i < instructions.len()
        invariant
            i <= instructions.len(),
            out@ == with_arms(start, descriptors_of(instructions@), i as int),
        decreases instructions.len() - i,
    {
        let instruction = &instructions[i];
        assert(descriptors_of(instructions@)[i as int] == instruction@);
        out.append("        Some(");
        push_decimal(out, instruction.discriminator as u64);
        out.append(") => {\n");
        out.append("            crate::instructions::");
        out.append(instruction.name.as_str());
        out.append("Instruction::try_from((accounts, &instruction_data[1..]))?.process()\n");
        out.append("        }\n");
        i += 1;
    }
    if errors.len() > 0 {
        assert(domains_of(errors@)[0] == errors@[0]@);
        out.append("        _ => Err(");
        out.append(errors[0].name.as_str());
        out.append("::InvalidDiscriminator.into()),\n");
    } else {
        out.append(
            "        _ => Err(pinocchio::program_error::ProgramError::InvalidInstructionData),\n",
        );
    }
    out.append("    }\n}\n");
}

/// Generates the source text for a program.
pub fn generate_program_code(
    instructions: &[InstructionMeta],
    errors: &[ErrorMeta],
    state_structs: &[StateMeta],
) -> (code: String)
    ensures
        code@ == program_code(
            descriptors_of(instructions@),
            domains_of(errors@),
            records_of(state_structs@),
        ),
{
    let ordered = order_by_tag(instructions);
    let instructions = ordered.as_slice();
    let mut code = String::new();
    if errors.len() > 0 {
        code.append("use shank::ShankInstruction;\n");
        code.append("use shank::ShankType;\n");
        code.append("use pinocchio::program_error::ProgramError;\n\n");
    } else {
        code.append("use shank::ShankInstruction;\n\n");
    }
    let ghost imports = code@;
    assert(imports == with_imports(Seq::empty(), domains_of(errors@)));
    let mut i: usize = 0;
    while i < errors.len()
        invariant
            i <= errors.len(),
            code@ == with_errors(imports, domains_of(errors@), i as int),
        decreases errors.len() - i,
    {
        assert(domains_of(errors@)[i as int] == errors@[i as int]@);
        push_error(&mut code, &errors[i]);
        i += 1;
    }
    if instructions.len() == 0 {
        code.append("// No instructions found - using fallback\n");
        code.append("pub enum ProgramInstructions {}\n\n");
        code.append("pub fn process_instruction(_program_id: &pinocchio::pubkey::Pubkey, _accounts: &[pinocchio::account_info::AccountInfo], _instruction_data: &[u8]) -> pinocchio::ProgramResult {\n");
        code.append("    Err(pinocchio::program_error::ProgramError::InvalidInstructionData)\n");
        code.append("}\n");
        return code;
    }
    code.append("#[repr(u8)]\n");
    code.append("#[derive(Clone, Debug, PartialEq, ShankInstruction)]\n");
    code.append("pub enum ProgramInstructions {\n");
    let ghost union_start = code@;
    let mut k: usize = 0;
    while k < instructions.len()
        invariant
            k <= instructions.len(),
            code@ == with_instructions(union_start, descriptors_of(instructions@), k as int),
        decreases instructions.len() - k,
    {
        assert(descriptors_of(instructions@)[k as int] == instructions@[k as int]@);
        push_instruction(&mut code, &instructions[k]);
        k += 1;
    }
    code.append("}\n\n");
    code.append("// ShankAccount definitions for state structs\n");
    code.append("// These are generated for IDL compatibility\n");
    let ghost layouts_start = code@;
    let mut r: usize = 0;
    while r < state_structs.len()
        invariant
            r <= state_structs.len(),
            code@ == with_records(layouts_start, records_of(state_structs@), r as int),
        decreases state_structs.len() - r,
    {
        assert(records_of(state_structs@)[r as int] == state_structs@[r as int]@);
        push_record(&mut code, &state_structs[r]);
        r += 1;
    }
    push_dispatch(&mut code, instructions, errors);
    code
}

} // verus!
