//! Derived addresses.
//!
//! A program can own an address that no key signs for: the address is
//! computed from seeds, a bump and the program's own address. An account is
//! taken for the one that the program means only if its address is the
//! derived one.

use crate::account::{Account, Address, ProgramError};
use vstd::prelude::*;

verus! {

/// The address that `pinocchio_pubkey` derives from the seeds, the bump and
/// the program's address: the SHA-256 digest of the seeds, the bump, the
/// program's address and a fixed marker, one after the other.
pub uninterp spec fn derived_address(seeds: Seq<Seq<u8>>, bump: u8, program_id: Seq<u8>) -> Seq<u8>;

/// The seeds that an array of byte slices holds.
pub open spec fn seed_views<const N: usize>(seeds: &[&[u8]; N]) -> Seq<Seq<u8>> {
    Seq::new(N as nat, |i: int| seeds@[i]@)
}

/// Calls `pinocchio_pubkey::derive_address_const`, which computes off chain
/// what `pinocchio_pubkey::derive_address` computes on chain. The result
/// depends on the three arguments alone. The function does not compile for
/// 16 seeds or more.
#[verifier::external_body]
fn derive_address_const<const N: usize>(seeds: &[&[u8]; N], bump: u8, program_id: &Address) -> (address:
    Address)
    ensures
        address@ == derived_address(seed_views(seeds), bump, program_id@),
{
    pinocchio_pubkey::derive_address_const(seeds, Some(bump), program_id)
}

/// Derives the address for the seeds, the bump and the program. The bump is
/// taken as it is given: no other is tried.
pub fn derive_address<const N: usize>(seeds: &[&[u8]; N], bump: u8, program_id: &Address) -> (address:
    Address)
    ensures
        address@ == derived_address(seed_views(seeds), bump, program_id@),
{
    derive_address_const(seeds, bump, program_id)
}

/// The verdict on an address that is held against the expected one: `Ok`
/// if they are the same, else the error that the caller chose.
pub open spec fn address_verdict(key: Seq<u8>, expected: Seq<u8>, error: ProgramError) -> Result<
    (),
    ProgramError,
> {
    if key == expected {
        Ok(())
    } else {
        Err(error)
    }
}

/// Holds the account's address against an address that was derived.
pub fn check_address(account: &Account, expected: &Address, error: ProgramError) -> (r: Result<
    (),
    ProgramError,
>)
    ensures
        r == address_verdict(account@.key, expected@, error),
{
    if account.has_key(expected) {
        Ok(())
    } else {
        Err(error)
    }
}

/// Asserts that the account's address is the one derived from the seeds,
/// the bump and the program.
pub fn assert_pda<const N: usize>(
    account: &Account,
    seeds: &[&[u8]; N],
    bump: u8,
    program_id: &Address,
    error: ProgramError,
) -> (r: Result<(), ProgramError>)
    ensures
        r == address_verdict(
            account@.key,
            derived_address(seed_views(seeds), bump, program_id@),
            error,
        ),
        r is Ok <==> account@.key == derived_address(seed_views(seeds), bump, program_id@),
{
    let expected = derive_address(seeds, bump, program_id);
    check_address(account, &expected, error)
}

/// One assertion of a batch: an address, the address that was derived for
/// it, and the error to report if they differ.
#[derive(Clone, Copy, Debug)]
pub struct PdaCheck {
    /// The address of the account.
    pub key: Address,
    /// The derived address.
    pub expected: Address,
    /// The error of this assertion.
    pub error: ProgramError,
}

/// The verdict of the assertions from index `i` on: the error of the first
/// whose addresses differ, `Ok` if none does.
pub open spec fn first_mismatch(checks: Seq<PdaCheck>, i: int) -> Result<(), ProgramError>
    decreases checks.len() - i,
{
    if i < 0 || i >= checks.len() {
        Ok(())
    } else if checks[i].key@ != checks[i].expected@ {
        Err(checks[i].error)
    } else {
        first_mismatch(checks, i + 1)
    }
}

/// Evaluates several assertions in their order and stops at the first
/// whose addresses differ.
pub fn validate_pdas(checks: &[PdaCheck]) -> (r: Result<(), ProgramError>)
    ensures
        r == first_mismatch(checks@, 0),
{
    let mut i: usize = 0;
    while i < checks.len()
        invariant
            i <= checks.len(),
            first_mismatch(checks@, 0) == first_mismatch(checks@, i as int),
        decreases checks.len() - i,
    {
        if !pinocchio::pubkey::pubkey_eq(&checks[i].key, &checks[i].expected) {
            return Err(checks[i].error);
        }
        i += 1;
    }
    Ok(())
}

/// The same seeds, bump and program give the same address.
pub proof fn lemma_derivation_is_a_function(
    seeds: Seq<Seq<u8>>,
    bump: u8,
    program_id: Seq<u8>,
    other_seeds: Seq<Seq<u8>>,
    other_bump: u8,
    other_program_id: Seq<u8>,
)
    requires
        seeds == other_seeds,
        bump == other_bump,
        program_id == other_program_id,
    ensures
        derived_address(seeds, bump, program_id) == derived_address(
            other_seeds,
            other_bump,
            other_program_id,
        ),
{
}

/// The batch passes exactly when every assertion of it holds.
pub proof fn lemma_batch_passes(checks: Seq<PdaCheck>, i: int)
    requires
        0 <= i,
    ensures
        first_mismatch(checks, i) is Ok <==> forall|k: int|
            i <= k < checks.len() ==> (#[trigger] checks[k]).key@ == checks[k].expected@,
    decreases checks.len() - i,
{
    if i < checks.len() {
        lemma_batch_passes(checks, i + 1);
    }
}

} // verus!
