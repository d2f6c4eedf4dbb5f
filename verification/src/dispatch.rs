//! Selecting the instruction of an operation.
//!
//! An operation comes as the address of the program it is meant for, the
//! accounts it works on and a payload. The payload's first byte is the tag
//! of an instruction; the rest are the instruction's fields, one after the
//! other with nothing between them. [`process_instruction`] decides whether
//! the operation is handed to a handler, and with which fields: it checks
//! the program's address, then the tag, then the accounts slot by slot, then
//! the size of the payload. The handler runs only on `Ok`.

use crate::account::{Account, Address, ProgramError};
use crate::capability::{accounts_verdict, validate_accounts, Capability};
use crate::errors::ErrorMeta;
use crate::instruction::InstructionMeta;
use vstd::prelude::*;
use vstd::slice::slice_subrange;

verus! {

/// What the routine knows of one instruction.
#[derive(Debug)]
pub struct InstructionLayout {
    /// The tag by which the instruction is selected.
    pub discriminator: u8,
    /// The capabilities of the account slots, in the declared order.
    pub slots: Vec<Capability>,
    /// The sizes of the payload's fields in bytes, in the declared order.
    pub field_sizes: Vec<usize>,
}

/// What the routine knows of a program. It is set up once and only read
/// after that.
#[derive(Debug)]
pub struct Program {
    /// The program's address.
    pub id: Address,
    /// The instructions. Where two have the same tag, the first is meant.
    pub instructions: Vec<InstructionLayout>,
    /// The code that the program's error table reserves for a tag that no
    /// instruction has; `None` where the program declares no table.
    pub unknown_discriminator: Option<u32>,
}

/// An operation that is handed to its handler.
#[derive(Debug)]
pub struct Call {
    /// The index of the instruction among those of the program.
    pub instruction: usize,
    /// The bytes of the payload's fields, in the declared order.
    pub fields: Vec<Vec<u8>>,
}

/// What a [`Call`] stands for.
pub struct CallModel {
    pub instruction: int,
    pub fields: Seq<Seq<u8>>,
}

impl View for Call {
    type V = CallModel;

    open spec fn view(&self) -> CallModel {
        CallModel {
            instruction: self.instruction as int,
            fields: Seq::new(self.fields@.len(), |i: int| self.fields@[i]@),
        }
    }
}

/// The first index at or after `from` of an instruction with the tag `tag`.
pub open spec fn layout_index_from(instructions: Seq<InstructionLayout>, tag: u8, from: int) -> Option<
    int,
>
    decreases instructions.len() - from,
{
    if from < 0 || from >= instructions.len() {
        None
    } else if instructions[from].discriminator == tag {
        Some(from)
    } else {
        layout_index_from(instructions, tag, from + 1)
    }
}

/// The sizes of the first `n` fields together.
pub open spec fn fields_len(sizes: Seq<usize>, n: int) -> nat
    decreases n,
{
    if n <= 0 {
        0
    } else {
        fields_len(sizes, n - 1) + sizes[n - 1] as nat
    }
}

/// The fields of a payload: each begins where the one before it ends.
pub open spec fn fields_in(payload: Seq<u8>, sizes: Seq<usize>) -> Seq<Seq<u8>> {
    Seq::new(
        sizes.len(),
        |k: int| payload.subrange(fields_len(sizes, k) as int, fields_len(sizes, k + 1) as int),
    )
}

/// The error for a tag that no instruction has.
pub open spec fn unknown_tag_error(program: Program) -> ProgramError {
    match program.unknown_discriminator {
        Some(code) => ProgramError::Custom(code),
        None => ProgramError::InvalidInstructionData,
    }
}

/// What becomes of an operation.
///
/// An operation for another program is rejected with `IncorrectProgramId`.
/// One without a tag, or with a tag that no instruction has, is rejected
/// with the error for an unknown tag. Then the accounts are checked against
/// the slots of the instruction, and the first slot that rejects its
/// account gives the error. Then the payload behind the tag must be as long
/// as the fields together, else the operation is rejected with
/// `InvalidInstructionData`. What is left is handed to the handler.
pub open spec fn dispatch(
    program: Program,
    program_id: Seq<u8>,
    accounts: Seq<Account>,
    data: Seq<u8>,
) -> Result<CallModel, ProgramError> {
    if program_id != program.id@ {
        Err(ProgramError::IncorrectProgramId)
    } else if data.len() == 0 {
        Err(unknown_tag_error(program))
    } else {
        match layout_index_from(program.instructions@, data[0], 0) {
            None => Err(unknown_tag_error(program)),
            Some(i) => {
                let layout = program.instructions@[i];
                match accounts_verdict(layout.slots@, accounts, program_id) {
                    Err(e) => Err(e),
                    Ok(_) => if data.len() - 1 != fields_len(
                        layout.field_sizes@,
                        layout.field_sizes@.len() as int,
                    ) {
                        Err(ProgramError::InvalidInstructionData)
                    } else {
                        Ok(
                            CallModel {
                                instruction: i,
                                fields: fields_in(
                                    data.subrange(1, data.len() as int),
                                    layout.field_sizes@,
                                ),
                            },
                        )
                    },
                }
            },
        }
    }
}

/// The sizes of a longer run of fields are together no less.
pub proof fn lemma_fields_len_grows(sizes: Seq<usize>, k: int, n: int)
    requires
        k <= n,
    ensures
        fields_len(sizes, k) <= fields_len(sizes, n),
    decreases n - k,
{
    if k < n {
        lemma_fields_len_grows(sizes, k, n - 1);
    }
}

/// Cuts a payload into its fields; `None` if it is not exactly as long as
/// the fields together.
pub fn decode_fields(payload: &[u8], sizes: &[usize]) -> (r: Option<Vec<Vec<u8>>>)
    ensures
        match r {
            Some(fields) => {
                &&& payload@.len() == fields_len(sizes@, sizes@.len() as int)
                &&& Seq::new(fields@.len(), |i: int| fields@[i]@) == fields_in(payload@, sizes@)
            },
            None => payload@.len() != fields_len(sizes@, sizes@.len() as int),
        },
{
    let mut fields: Vec<Vec<u8>> = Vec::new();
    let mut offset: usize = 0;
    let mut k: usize = 0;
    while k < sizes.len()
        invariant
            k <= sizes.len(),
            offset <= payload.len(),
            offset == fields_len(sizes@, k as int),
            fields.len() == k,
            forall|j: int|
                0 <= j < k ==> (#[trigger] fields@[j])@ == payload@.subrange(
                    fields_len(sizes@, j) as int,
                    fields_len(sizes@, j + 1) as int,
                ),
        decreases sizes.len() - k,
    {
        if sizes[k] > payload.len() - offset {
            proof {
                lemma_fields_len_grows(sizes@, k + 1, sizes@.len() as int);
            }
            return None;
        }
        let end: usize = offset + sizes[k];
        fields.push(vstd::slice::slice_to_vec(slice_subrange(payload, offset, end)));
        offset = end;
        k += 1;
    }
    if offset != payload.len() {
        return None;
    }
    assert(Seq::new(fields@.len(), |i: int| fields@[i]@) =~= fields_in(payload@, sizes@));
    Some(fields)
}

impl Program {
    /// Finds the instruction that a tag means.
    pub fn find(&self, tag: u8) -> (r: Option<usize>)
        ensures
            match r {
                Some(i) => i < self.instructions.len() && layout_index_from(
                    self.instructions@,
                    tag,
                    0,
                ) == Some(i as int),
                None => layout_index_from(self.instructions@, tag, 0) is None,
            },
    {
        let mut i: usize = 0;
        while i < self.instructions.len()
            invariant
                i <= self.instructions.len(),
                layout_index_from(self.instructions@, tag, 0) == layout_index_from(
                    self.instructions@,
                    tag,
                    i as int,
                ),
            decreases self.instructions.len() - i,
        {
            if self.instructions[i].discriminator == tag {
                return Some(i);
            }
            i += 1;
        }
        None
    }

    /// The error for a tag that no instruction has.
    pub fn unknown_tag(&self) -> (e: ProgramError)
        ensures
            e == unknown_tag_error(*self),
    {
        match self.unknown_discriminator {
            Some(code) => ProgramError::Custom(code),
            None => ProgramError::InvalidInstructionData,
        }
    }
}

/// Decides what becomes of an operation.
pub fn process_instruction(
    program: &Program,
    program_id: &Address,
    accounts: &[Account],
    instruction_data: &[u8],
) -> (r: Result<Call, ProgramError>)
    ensures
        match r {
            Ok(call) => dispatch(*program, program_id@, accounts@, instruction_data@) == Ok::<
                CallModel,
                ProgramError,
            >(call@),
            Err(e) => dispatch(*program, program_id@, accounts@, instruction_data@) == Err::<
                CallModel,
                ProgramError,
            >(e),
        },
{
    if !pinocchio::pubkey::pubkey_eq(program_id, &program.id) {
        return Err(ProgramError::IncorrectProgramId);
    }
    if instruction_data.len() == 0 {
        return Err(program.unknown_tag());
    }
    let index = match program.find(instruction_data[0]) {
        Some(index) => index,
        None => {
            return Err(program.unknown_tag());
        },
    };
    let layout = &program.instructions[index];
    match validate_accounts(layout.slots.as_slice(), accounts, program_id) {
        Err(e) => {
            return Err(e);
        },
        Ok(_) => {},
    }
    let payload = slice_subrange(instruction_data, 1, instruction_data.len());
    match decode_fields(payload, layout.field_sizes.as_slice()) {
        None => Err(ProgramError::InvalidInstructionData),
        Some(fields) => Ok(Call { instruction: index, fields }),
    }
}

/// An operation whose tag no instruction has is answered with the error
/// for an unknown tag, whatever its accounts are: where the program declares
/// an error table, with the code that the table reserves.
pub proof fn lemma_unknown_tag(
    program: Program,
    program_id: Seq<u8>,
    accounts: Seq<Account>,
    data: Seq<u8>,
)
    requires
        program_id == program.id@,
        data.len() == 0 || layout_index_from(program.instructions@, data[0], 0) is None,
    ensures
        dispatch(program, program_id, accounts, data) == Err::<CallModel, ProgramError>(
            unknown_tag_error(program),
        ),
        program.unknown_discriminator matches Some(code) ==> dispatch(
            program,
            program_id,
            accounts,
            data,
        ) == Err::<CallModel, ProgramError>(ProgramError::Custom(code)),
{
}

/// No field is read before every account has passed: an operation with an
/// account that its slot rejects is answered with that slot's error,
/// whatever its payload holds behind the tag.
pub proof fn lemma_rejected_account(
    program: Program,
    program_id: Seq<u8>,
    accounts: Seq<Account>,
    data: Seq<u8>,
    index: int,
    error: ProgramError,
)
    requires
        program_id == program.id@,
        data.len() > 0,
        layout_index_from(program.instructions@, data[0], 0) == Some(index),
        accounts_verdict(program.instructions@[index].slots@, accounts, program_id) == Err::<
            (),
            ProgramError,
        >(error),
    ensures
        dispatch(program, program_id, accounts, data) == Err::<CallModel, ProgramError>(error),
{
}

/// The capabilities of the slots of an instruction, in their order.
pub open spec fn capabilities_of(instruction: InstructionMeta) -> Seq<Capability> {
    Seq::new(instruction.accounts@.len(), |i: int| instruction.accounts@[i].capability)
}

impl InstructionLayout {
    /// What the routine knows of a declared instruction whose fields have
    /// the given sizes; `None` where the sizes are not as many as the
    /// fields.
    pub fn new(instruction: &InstructionMeta, field_sizes: Vec<usize>) -> (r: Option<
        InstructionLayout,
    >)
        ensures
            match r {
                Some(layout) => {
                    &&& field_sizes@.len() == instruction.fields@.len()
                    &&& layout.discriminator == instruction.discriminator
                    &&& layout.slots@ == capabilities_of(*instruction)
                    &&& layout.field_sizes@ == field_sizes@
                },
                None => field_sizes@.len() != instruction.fields@.len(),
            },
    {
        if field_sizes.len() != instruction.fields.len() {
            return None;
        }
        let mut slots: Vec<Capability> = Vec::new();
        let mut i: usize = 0;
        while i < instruction.accounts.len()
            invariant
                i <= instruction.accounts.len(),
                slots.len() == i,
                forall|k: int| 0 <= k < i ==> slots@[k] == instruction.accounts@[k].capability,
            decreases instruction.accounts.len() - i,
        {
            slots.push(instruction.accounts[i].capability);
            i += 1;
        }
        assert(slots@ =~= capabilities_of(*instruction));
        Some(InstructionLayout { discriminator: instruction.discriminator, slots, field_sizes })
    }
}

/// The code that the error tables of a program reserve for a tag that no
/// instruction has: that of the first table, if there is one.
pub open spec fn reserved_by(errors: Seq<ErrorMeta>) -> Option<u32> {
    if errors.len() > 0 {
        Some(errors[0]@.reserved_code())
    } else {
        None
    }
}

impl Program {
    /// Sets up what the routine knows of a program.
    pub fn new(id: Address, instructions: Vec<InstructionLayout>, errors: &[ErrorMeta]) -> (program:
        Program)
        ensures
            program.id == id,
            program.instructions == instructions,
            program.unknown_discriminator == reserved_by(errors@),
    {
        let unknown_discriminator = if errors.len() > 0 {
            Some(errors[0].reserved_code())
        } else {
            None
        };
        Program { id, instructions, unknown_discriminator }
    }
}

} // verus!
