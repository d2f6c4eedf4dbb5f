//! Accounts as the runtime sees them.
//!
//! An [`Account`] holds, as plain values, what the rules of this crate read
//! of an account and what they change: its address, its owner, its balance,
//! its storage and the two flags of the current operation.

use vstd::prelude::*;

verus! {

/// An address: 32 bytes.
pub type Address = [u8; 32];

/// The reasons for which an operation is rejected.
#[derive(Clone, Copy, Debug, PartialEq, Eq, Structural)]
pub enum ProgramError {
    /// A code of the program's own error table.
    Custom(u32),
    /// The payload does not have the declared shape, or no instruction is
    /// known by its tag and no error table was declared.
    InvalidInstructionData,
    /// An account is not writable where it must be, or its storage does not
    /// have the size of the record.
    InvalidAccountData,
    /// The operation was sent to another program.
    IncorrectProgramId,
    /// An account that must sign did not.
    MissingRequiredSignature,
    /// An account that must be new holds a balance.
    AccountAlreadyInitialized,
    /// An account that must exist holds no balance.
    UninitializedAccount,
    /// Fewer accounts came than the instruction declares.
    NotEnoughAccountKeys,
    /// An account is not owned by the program that must own it.
    InvalidAccountOwner,
}

/// The address that owns accounts which no program has claimed yet: 32 zero
/// bytes.
pub open spec fn system_program_id() -> Seq<u8> {
    Seq::new(32, |i: int| 0u8)
}

/// The address of the token program.
pub open spec fn token_program_id() -> Seq<u8> {
    seq![
        6u8, 221, 246, 225, 215, 101, 161, 147, 217, 203, 225, 70, 206, 235, 121, 172,
        28, 180, 133, 237, 95, 91, 55, 145, 58, 140, 245, 133, 126, 255, 0, 169,
    ]
}

/// The address that owns accounts which no program has claimed yet.
pub fn system_program() -> (id: Address)
    ensures
        id@ == system_program_id(),
{
    let id: Address = [0u8; 32];
    assert(id@ =~= system_program_id());
    id
}

/// The address of the token program.
pub fn token_program() -> (id: Address)
    ensures
        id@ == token_program_id(),
{
    let id: Address = [
        6, 221, 246, 225, 215, 101, 161, 147, 217, 203, 225, 70, 206, 235, 121, 172,
        28, 180, 133, 237, 95, 91, 55, 145, 58, 140, 245, 133, 126, 255, 0, 169,
    ];
    assert(id@ =~= token_program_id());
    id
}

/// What an [`Account`] stands for.
pub struct AccountModel {
    pub key: Seq<u8>,
    pub owner: Seq<u8>,
    pub lamports: nat,
    pub data: Seq<u8>,
    pub is_signer: bool,
    pub is_writable: bool,
}

/// One account of an operation.
#[derive(Clone, Debug)]
pub struct Account {
    /// The account's address.
    pub key: Address,
    /// The program that owns the account.
    pub owner: Address,
    /// The account's balance.
    pub lamports: u64,
    /// The account's storage.
    pub data: Vec<u8>,
    /// Whether the account signed the operation.
    pub is_signer: bool,
    /// Whether the operation may change the account.
    pub is_writable: bool,
}

impl View for Account {
    type V = AccountModel;

    open spec fn view(&self) -> AccountModel {
        AccountModel {
            key: self.key@,
            owner: self.owner@,
            lamports: self.lamports as nat,
            data: self.data@,
            is_signer: self.is_signer,
            is_writable: self.is_writable,
        }
    }
}

/// `pinocchio::pubkey::pubkey_eq` compares two addresses eight bytes at a
/// time; it returns `true` exactly when all 32 bytes agree.
pub assume_specification[ pinocchio::pubkey::pubkey_eq ](
    left: &pinocchio::pubkey::Pubkey,
    right: &pinocchio::pubkey::Pubkey,
) -> (r: bool)
    ensures
        r == (left@ == right@),
;

impl Account {
    /// Decides whether the account's address is `key`.
    pub fn has_key(&self, key: &Address) -> (r: bool)
        ensures
            r == (self@.key == key@),
    {
        pinocchio::pubkey::pubkey_eq(&self.key, key)
    }

    /// Decides whether `program` owns the account.
    pub fn is_owned_by(&self, program: &Address) -> (r: bool)
        ensures
            r == (self@.owner == program@),
    {
        pinocchio::pubkey::pubkey_eq(&self.owner, program)
    }
}

} // verus!
