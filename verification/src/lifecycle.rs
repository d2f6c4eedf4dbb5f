//! The life of an account: creation, transfers, closure.
//!
//! Creating an account and moving a balance are the work of other programs.
//! This module says what is asked of them: [`create_pda`], [`transfer_sol`]
//! and [`transfer_tokens`] give the request as a value, and the caller sends
//! it. Closing an account is done in place, by [`close`].

use crate::account::{system_program, system_program_id, Account, AccountModel, Address};
use crate::capability::{AccountKind, Capability};
use vstd::prelude::*;

verus! {

/// Who stands for a request.
#[derive(Debug)]
pub enum Authority {
    /// The accounts that signed the operation.
    Signers,
    /// The address that the program derives from these seeds, the bump
    /// among them.
    Derived(Vec<Vec<u8>>),
}

/// A request to another program.
#[derive(Debug)]
pub enum Request {
    /// Create an account of `space` bytes, funded with `lamports` by the
    /// payer and owned by `owner`.
    CreateAccount { space: u64, lamports: u64, owner: Address, authority: Authority },
    /// Move `lamports` of native balance.
    TransferSol { lamports: u64 },
    /// Move `amount` of a token balance.
    TransferTokens { amount: u64, authority: Authority },
}

/// The byte strings that a vector of vectors holds.
pub open spec fn seeds_of(seeds: Seq<Vec<u8>>) -> Seq<Seq<u8>> {
    Seq::new(seeds.len(), |i: int| seeds[i]@)
}

/// The byte strings that a slice of slices holds.
pub open spec fn slices_of(seeds: Seq<&[u8]>) -> Seq<Seq<u8>> {
    Seq::new(seeds.len(), |i: int| seeds[i]@)
}

/// What an [`Authority`] stands for: `None` for the signers of the
/// operation, else the seeds of the derived address.
pub open spec fn authority_seeds(authority: Authority) -> Option<Seq<Seq<u8>>> {
    match authority {
        Authority::Signers => None,
        Authority::Derived(seeds) => Some(seeds_of(seeds@)),
    }
}

fn owned_seeds(seeds: &[&[u8]]) -> (owned: Vec<Vec<u8>>)
    ensures
        seeds_of(owned@) == slices_of(seeds@),
{
    let mut owned: Vec<Vec<u8>> = Vec::new();
    let mut i: usize = 0;
    while i < seeds.len()
        invariant
            i <= seeds.len(),
            owned.len() == i,
            forall|k: int| 0 <= k < i ==> (#[trigger] owned[k])@ == seeds[k]@,
        decreases seeds.len() - i,
    {
        owned.push(vstd::slice::slice_to_vec(seeds[i]));
        i += 1;
    }
    assert(seeds_of(owned@) =~= slices_of(seeds@));
    owned
}

/// The request that creates the account at a derived address: `space`
/// bytes, funded with the balance that keeps an account of that size, owned
/// by this program, and stood for by the address derived from the seeds
/// followed by the bump.
pub fn create_pda(
    space: usize,
    rent_minimum: u64,
    seeds: &[&[u8]],
    bump: u8,
    program_id: &Address,
) -> (request: Request)
    ensures
        request matches Request::CreateAccount { space: s, lamports, owner, authority } && {
            &&& s == space
            &&& lamports == rent_minimum
            &&& owner@ == program_id@
            &&& authority_seeds(authority) == Some(slices_of(seeds@).push(seq![bump]))
        },
{
    let mut all = owned_seeds(seeds);
    let ghost before = seeds_of(all@);
    let mut last: Vec<u8> = Vec::new();
    last.push(bump);
    assert(last@ =~= seq![bump]);
    all.push(last);
    assert(seeds_of(all@) =~= before.push(seq![bump]));
    Request::CreateAccount {
        space: space as u64,
        lamports: rent_minimum,
        owner: *program_id,
        authority: Authority::Derived(all),
    }
}

/// The request that creates an account which signs for itself: `space`
/// bytes, funded with the balance that keeps an account of that size, and
/// owned by this program.
pub fn create_account(space: usize, rent_minimum: u64, program_id: &Address) -> (request: Request)
    ensures
        request matches Request::CreateAccount { space: s, lamports, owner, authority } && {
            &&& s == space
            &&& lamports == rent_minimum
            &&& owner@ == program_id@
            &&& authority_seeds(authority) is None
        },
{
    Request::CreateAccount {
        space: space as u64,
        lamports: rent_minimum,
        owner: *program_id,
        authority: Authority::Signers,
    }
}

/// The request that moves `amount` of native balance.
pub fn transfer_sol(amount: u64) -> (request: Request)
    ensures
        request matches Request::TransferSol { lamports } && lamports == amount,
{
    Request::TransferSol { lamports: amount }
}

/// The request that moves `amount` of a token balance, stood for by the
/// signers of the operation or, where seeds are given, by the address
/// derived from them.
pub fn transfer_tokens(amount: u64, seeds: Option<&[&[u8]]>) -> (request: Request)
    ensures
        request matches Request::TransferTokens { amount: a, authority } && {
            &&& a == amount
            &&& authority_seeds(authority) == match seeds {
                Some(seeds) => Some(slices_of(seeds@)),
                None => None,
            }
        },
{
    let authority = match seeds {
        Some(seeds) => Authority::Derived(owned_seeds(seeds)),
        None => Authority::Signers,
    };
    Request::TransferTokens { amount, authority }
}

/// The byte that marks the storage of a closed account.
pub const TOMBSTONE: u8 = 0xff;

/// The storage of a closed account: one byte, the tombstone where there was
/// storage to mark, else zero.
pub open spec fn closed_data(data: Seq<u8>) -> Seq<u8> {
    if data.len() > 0 {
        seq![TOMBSTONE]
    } else {
        seq![0u8]
    }
}

/// A closed account: no balance, the smallest storage, and no program's
/// any more.
pub open spec fn closed(account: AccountModel) -> AccountModel {
    AccountModel {
        lamports: 0,
        data: closed_data(account.data),
        owner: system_program_id(),
        ..account
    }
}

/// A closed account is no live state: no slot for an account that must
/// exist accepts it, whichever program asks.
pub proof fn lemma_closed_account_is_not_live(
    account: AccountModel,
    capability: Capability,
    program_id: Seq<u8>,
)
    requires
        capability.kind == AccountKind::ProgramOwned || capability.kind
            == AccountKind::ExternalTokenOwned,
    ensures
        capability.rule(closed(account), program_id) is Err,
{
}

/// Closes `account`: its whole balance goes to `beneficiary`, its storage
/// is marked and shrunk to one byte, and it is given back to the owner of
/// unclaimed accounts. The two balances together fit 64 bits.
pub fn close(account: &mut Account, beneficiary: &mut Account)
    requires
        old(account).lamports + old(beneficiary).lamports <= u64::MAX,
    ensures
        final(account)@ == closed(old(account)@),
        final(beneficiary)@ == (AccountModel {
            lamports: old(beneficiary)@.lamports + old(account)@.lamports,
            ..old(beneficiary)@
        }),
{
    beneficiary.lamports = beneficiary.lamports + account.lamports;
    let marked = account.data.len() > 0;
    account.data.clear();
    account.data.push(if marked {
        TOMBSTONE
    } else {
        0
    });
    assert(account.data@ =~= closed_data(old(account).data@));
    account.lamports = 0;
    account.owner = system_program();
}

} // verus!
