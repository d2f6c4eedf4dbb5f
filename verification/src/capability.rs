//! The capability an instruction asks of each of its accounts.
//!
//! Every account slot names one capability, and one rule stands for each:
//! [`Capability::rule`] says, for any account, whether the slot accepts it
//! and with which error it does not. The rules are checked slot by slot, in
//! the declared order, before anything of the payload is read.

use crate::account::{
    system_program, system_program_id, token_program, token_program_id, Account, AccountModel,
    Address, ProgramError,
};
use crate::text::{chars_of, contains, has_infix};
use vstd::prelude::*;

verus! {

/// What a slot asks of the account's identity and state.
#[derive(Clone, Copy, Debug, PartialEq, Eq, Structural)]
pub enum AccountKind {
    /// The account signed the operation. Declared as `signer`.
    Signer,
    /// This program owns the account, and it holds a balance. Declared as
    /// `program`.
    ProgramOwned,
    /// Nobody has claimed the account yet, and it holds no balance.
    /// Declared as `uninitialized`.
    UninitializedOwned,
    /// The token program owns the account, and it holds a balance.
    /// Declared as `token`.
    ExternalTokenOwned,
    /// The token program does not own the account. Declared as `not_token`.
    NotTokenOwned,
    /// Any account. Declared as `any`.
    Unconstrained,
}

/// The capability of one account slot.
#[derive(Clone, Copy, Debug, PartialEq, Eq, Structural)]
pub struct Capability {
    /// What the slot asks of the account's identity and state.
    pub kind: AccountKind,
    /// Whether the account is marked as writable.
    pub writable: bool,
}

impl Capability {
    /// Whether the slot asks for a writable account. An account that is to
    /// be created is changed by its creation, so such a slot asks for one
    /// whether or not the declaration says so.
    pub open spec fn requires_writable(self) -> bool {
        self.writable || self.kind == AccountKind::UninitializedOwned
    }

    /// The last check of every rule: a slot that asks for a writable account
    /// rejects one that is not with `InvalidAccountData`.
    pub open spec fn writable_rule(self, account: AccountModel) -> Result<(), ProgramError> {
        if self.requires_writable() && !account.is_writable {
            Err(ProgramError::InvalidAccountData)
        } else {
            Ok(())
        }
    }

    /// The slot's verdict on `account`, for the program `program_id`: `Ok`
    /// if the account is accepted, else the error of the first check that
    /// it fails.
    pub open spec fn rule(self, account: AccountModel, program_id: Seq<u8>) -> Result<
        (),
        ProgramError,
    > {
        match self.kind {
            AccountKind::Signer => if !account.is_signer {
                Err(ProgramError::MissingRequiredSignature)
            } else {
                self.writable_rule(account)
            },
            AccountKind::ProgramOwned => if account.owner != program_id {
                Err(ProgramError::InvalidAccountOwner)
            } else if account.lamports == 0 {
                Err(ProgramError::UninitializedAccount)
            } else {
                self.writable_rule(account)
            },
            AccountKind::UninitializedOwned => if account.lamports != 0 {
                Err(ProgramError::AccountAlreadyInitialized)
            } else if account.owner != system_program_id() {
                Err(ProgramError::InvalidAccountOwner)
            } else {
                self.writable_rule(account)
            },
            AccountKind::ExternalTokenOwned => if account.owner != token_program_id() {
                Err(ProgramError::InvalidAccountOwner)
            } else if account.lamports == 0 {
                Err(ProgramError::UninitializedAccount)
            } else {
                self.writable_rule(account)
            },
            AccountKind::NotTokenOwned => if account.owner == token_program_id() {
                Err(ProgramError::InvalidAccountOwner)
            } else {
                self.writable_rule(account)
            },
            AccountKind::Unconstrained => self.writable_rule(account),
        }
    }

    /// The accounts that the slot accepts.
    pub open spec fn accepts(self, account: AccountModel, program_id: Seq<u8>) -> bool {
        &&& self.requires_writable() ==> account.is_writable
        &&& match self.kind {
            AccountKind::Signer => account.is_signer,
            AccountKind::ProgramOwned => account.owner == program_id && account.lamports != 0,
            AccountKind::UninitializedOwned => account.owner == system_program_id()
                && account.lamports == 0,
            AccountKind::ExternalTokenOwned => account.owner == token_program_id()
                && account.lamports != 0,
            AccountKind::NotTokenOwned => account.owner != token_program_id(),
            AccountKind::Unconstrained => true,
        }
    }

    /// Decides whether the slot asks for a writable account.
    pub fn must_be_writable(&self) -> (r: bool)
        ensures
            r == self.requires_writable(),
    {
        self.writable || self.kind == AccountKind::UninitializedOwned
    }

    /// Checks `account` against the slot's rule.
    pub fn validate_account(&self, account: &Account, program_id: &Address) -> (r: Result<
        (),
        ProgramError,
    >)
        ensures
            r == self.rule(account@, program_id@),
    {
        match self.kind {
            AccountKind::Signer => {
                if !account.is_signer {
                    return Err(ProgramError::MissingRequiredSignature);
                }
            },
            AccountKind::ProgramOwned => {
                if !account.is_owned_by(program_id) {
                    return Err(ProgramError::InvalidAccountOwner);
                }
                if account.lamports == 0 {
                    return Err(ProgramError::UninitializedAccount);
                }
            },
            AccountKind::UninitializedOwned => {
                if account.lamports != 0 {
                    return Err(ProgramError::AccountAlreadyInitialized);
                }
                if !account.is_owned_by(&system_program()) {
                    return Err(ProgramError::InvalidAccountOwner);
                }
            },
            AccountKind::ExternalTokenOwned => {
                if !account.is_owned_by(&token_program()) {
                    return Err(ProgramError::InvalidAccountOwner);
                }
                if account.lamports == 0 {
                    return Err(ProgramError::UninitializedAccount);
                }
            },
            AccountKind::NotTokenOwned => {
                if account.is_owned_by(&token_program()) {
                    return Err(ProgramError::InvalidAccountOwner);
                }
            },
            AccountKind::Unconstrained => {},
        }
        if self.must_be_writable() && !account.is_writable {
            return Err(ProgramError::InvalidAccountData);
        }
        Ok(())
    }
}

/// The capability that a declaration's text asks for. The text is searched
/// for the words of a fixed vocabulary; what else it holds is not looked at.
/// The first word found, in the order `signer`, `uninitialized`, `not_token`,
/// `token`, `program`, names the kind, and a text with none of them asks for
/// any account. The account is marked writable if the text holds `writable`
/// or `uninitialized`.
pub open spec fn capability_of(text: Seq<char>) -> Capability {
    Capability {
        kind: if contains(text, "signer"@) {
            AccountKind::Signer
        } else if contains(text, "uninitialized"@) {
            AccountKind::UninitializedOwned
        } else if contains(text, "not_token"@) {
            AccountKind::NotTokenOwned
        } else if contains(text, "token"@) {
            AccountKind::ExternalTokenOwned
        } else if contains(text, "program"@) {
            AccountKind::ProgramOwned
        } else {
            AccountKind::Unconstrained
        },
        writable: contains(text, "writable"@) || contains(text, "uninitialized"@),
    }
}

/// Reads the capability that a declaration's text asks for.
pub fn parse_capability(text: &[char]) -> (capability: Capability)
    ensures
        capability == capability_of(text@),
{
    let uninitialized = has_infix(text, chars_of("uninitialized").as_slice());
    let kind = if has_infix(text, chars_of("signer").as_slice()) {
        AccountKind::Signer
    } else if uninitialized {
        AccountKind::UninitializedOwned
    } else if has_infix(text, chars_of("not_token").as_slice()) {
        AccountKind::NotTokenOwned
    } else if has_infix(text, chars_of("token").as_slice()) {
        AccountKind::ExternalTokenOwned
    } else if has_infix(text, chars_of("program").as_slice()) {
        AccountKind::ProgramOwned
    } else {
        AccountKind::Unconstrained
    };
    let writable = uninitialized || has_infix(text, chars_of("writable").as_slice());
    Capability { kind, writable }
}

/// The verdict of the slots from index `i` on: the error of the first slot
/// whose rule rejects the account at its position, `Ok` if none does.
pub open spec fn first_failure(
    slots: Seq<Capability>,
    accounts: Seq<Account>,
    program_id: Seq<u8>,
    i: int,
) -> Result<(), ProgramError>
    decreases slots.len() - i,
{
    if i < 0 || i >= slots.len() {
        Ok(())
    } else {
        match slots[i].rule(accounts[i]@, program_id) {
            Err(e) => Err(e),
            Ok(_) => first_failure(slots, accounts, program_id, i + 1),
        }
    }
}

/// The verdict on the accounts of an operation. Each slot takes the account
/// at its own position; accounts beyond the last slot are not looked at.
pub open spec fn accounts_verdict(
    slots: Seq<Capability>,
    accounts: Seq<Account>,
    program_id: Seq<u8>,
) -> Result<(), ProgramError> {
    if accounts.len() < slots.len() {
        Err(ProgramError::NotEnoughAccountKeys)
    } else {
        first_failure(slots, accounts, program_id, 0)
    }
}

/// Checks the accounts of an operation against the slots of its
/// instruction, in the declared order.
pub fn validate_accounts(slots: &[Capability], accounts: &[Account], program_id: &Address) -> (r:
    Result<(), ProgramError>)
    ensures
        r == accounts_verdict(slots@, accounts@, program_id@),
{
    if accounts.len() < slots.len() {
        return Err(ProgramError::NotEnoughAccountKeys);
    }
    let mut i: usize = 0;
    while i < slots.len()
        invariant
            i <= slots.len() <= accounts.len(),
            first_failure(slots@, accounts@, program_id@, 0) == first_failure(
                slots@,
                accounts@,
                program_id@,
                i as int,
            ),
        decreases slots.len() - i,
    {
        match slots[i].validate_account(&accounts[i], program_id) {
            Err(e) => {
                return Err(e);
            },
            Ok(_) => {},
        }
        i += 1;
    }
    Ok(())
}

/// A rule accepts exactly the accounts that its row of the table names.
pub proof fn lemma_rule_accepts(capability: Capability, account: AccountModel, program_id: Seq<u8>)
    ensures
        capability.rule(account, program_id) is Ok <==> capability.accepts(account, program_id),
{
}

/// A slot for an account that is to be created rejects every account that
/// holds a balance with `AccountAlreadyInitialized`, whoever owns it.
pub proof fn lemma_funded_account_is_not_new(
    capability: Capability,
    account: AccountModel,
    program_id: Seq<u8>,
)
    requires
        capability.kind == AccountKind::UninitializedOwned,
        account.lamports != 0,
    ensures
        capability.rule(account, program_id) == Err::<(), ProgramError>(
            ProgramError::AccountAlreadyInitialized,
        ),
{
}

/// The slot that stands before the first failing one decides nothing: the
/// verdict is the error of the first slot whose rule rejects its account.
pub proof fn lemma_first_failure(
    slots: Seq<Capability>,
    accounts: Seq<Account>,
    program_id: Seq<u8>,
    i: int,
)
    requires
        0 <= i,
    ensures
        match first_failure(slots, accounts, program_id, i) {
            Ok(_) => forall|k: int|
                i <= k < slots.len() ==> slots[k].rule(accounts[k]@, program_id) is Ok,
            Err(e) => exists|k: int|
                {
                    &&& i <= k < slots.len()
                    &&& slots[k].rule(accounts[k]@, program_id) == Err::<(), ProgramError>(e)
                    &&& forall|j: int|
                        i <= j < k ==> slots[j].rule(accounts[j]@, program_id) is Ok
                },
        },
    decreases slots.len() - i,
{
    if i < slots.len() {
        match slots[i].rule(accounts[i]@, program_id) {
            Err(e) => {
                assert(slots[i].rule(accounts[i]@, program_id) == Err::<(), ProgramError>(e));
            },
            Ok(_) => {
                lemma_first_failure(slots, accounts, program_id, i + 1);
                match first_failure(slots, accounts, program_id, i + 1) {
                    Ok(_) => {},
                    Err(e) => {
                        let k = choose|k: int|
                            {
                                &&& i + 1 <= k < slots.len()
                                &&& slots[k].rule(accounts[k]@, program_id) == Err::<
                                    (),
                                    ProgramError,
                                >(e)
                                &&& forall|j: int|
                                    i + 1 <= j < k ==> slots[j].rule(accounts[j]@, program_id) is Ok
                            };
                        assert(forall|j: int|
                            i <= j < k ==> slots[j].rule(accounts[j]@, program_id) is Ok);
                    },
                }
            },
        }
    }
}

} // verus!
