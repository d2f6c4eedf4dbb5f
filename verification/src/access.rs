//! Views of an account's storage.
//!
//! A record of `N` bytes is read and written in place: the view is the
//! account's storage itself, taken as an array of `N` bytes, and it is
//! handed out only if the storage has exactly that size. A view lasts as
//! long as its borrow of the account, so the storage cannot be resized while
//! the view is held.

use crate::account::{Account, AccountModel, ProgramError};
use vstd::prelude::*;

verus! {

/// `bytemuck::PodCastError`: why a cast was refused. Nothing is read of it.
#[verifier::external_type_specification]
#[verifier::external_body]
pub struct ExPodCastError(bytemuck::PodCastError);

/// Calls `bytemuck::try_from_bytes` for an array of `N` bytes. The cast
/// succeeds exactly when the slice has `N` bytes, since a byte array can
/// stand at any address, and the array is then the slice itself.
#[verifier::external_body]
fn try_from_bytes<const N: usize>(data: &[u8]) -> (r: Result<&[u8; N], bytemuck::PodCastError>)
    ensures
        r is Ok <==> data@.len() == N,
        r matches Ok(view) ==> view@ == data@,
{
    bytemuck::try_from_bytes::<[u8; N]>(data)
}

/// Calls `bytemuck::try_from_bytes_mut` for an array of `N` bytes. The cast
/// succeeds exactly when the slice has `N` bytes; the array is then the
/// slice itself, so what is written to the array is written to the slice.
/// A slice of another size is left as it is.
#[verifier::external_body]
fn try_from_bytes_mut<const N: usize>(data: &mut [u8]) -> (r: Result<
    &mut [u8; N],
    bytemuck::PodCastError,
>)
    ensures
        r is Ok <==> old(data)@.len() == N,
        match r {
            Ok(view) => view@ == old(data)@ && final(data)@ == final(view)@,
            Err(_) => final(data)@ == old(data)@,
        },
{
    bytemuck::try_from_bytes_mut::<[u8; N]>(data)
}

/// Views the account's storage as a record of `N` bytes. The storage must
/// have exactly that size, else the result is `InvalidAccountData`.
pub fn load<const N: usize>(account: &Account) -> (r: Result<&[u8; N], ProgramError>)
    ensures
        match r {
            Ok(view) => account@.data.len() == N && view@ == account@.data,
            Err(e) => account@.data.len() != N && e == ProgramError::InvalidAccountData,
        },
{
    match try_from_bytes::<N>(account.data.as_slice()) {
        Ok(view) => Ok(view),
        Err(_) => Err(ProgramError::InvalidAccountData),
    }
}

/// Views the account's storage as a record of `N` bytes that can be
/// written. The storage must have exactly that size, else the result is
/// `InvalidAccountData` and the account is unchanged. What is written to the
/// view is the account's storage afterwards; nothing else of the account
/// changes.
pub fn load_mut<const N: usize>(account: &mut Account) -> (r: Result<&mut [u8; N], ProgramError>)
    ensures
        match r {
            Ok(view) => {
                &&& old(account)@.data.len() == N
                &&& view@ == old(account)@.data
                &&& final(account)@ == (AccountModel { data: final(view)@, ..old(account)@ })
            },
            Err(e) => {
                &&& old(account)@.data.len() != N
                &&& e == ProgramError::InvalidAccountData
                &&& final(account)@ == old(account)@
            },
        },
{
    match try_from_bytes_mut::<N>(account.data.as_mut_slice()) {
        Ok(view) => Ok(view),
        Err(_) => Err(ProgramError::InvalidAccountData),
    }
}

/// Views the account's storage as a record of `N` bytes that can be
/// written, as [`load_mut`] does.
pub fn load_unchecked<const N: usize>(account: &mut Account) -> (r: Result<
    &mut [u8; N],
    ProgramError,
>)
    ensures
        match r {
            Ok(view) => {
                &&& old(account)@.data.len() == N
                &&& view@ == old(account)@.data
                &&& final(account)@ == (AccountModel { data: final(view)@, ..old(account)@ })
            },
            Err(e) => {
                &&& old(account)@.data.len() != N
                &&& e == ProgramError::InvalidAccountData
                &&& final(account)@ == old(account)@
            },
        },
{
    load_mut::<N>(account)
}

/// Copies `src` over `dst`. The two have the same length.
pub fn fast_copy(src: &[u8], dst: &mut [u8])
    requires
        src@.len() == old(dst)@.len(),
    ensures
        final(dst)@ == src@,
{
    let mut i: usize = 0;
    while i < src.len()
        invariant
            i <= src.len(),
            dst@.len() == src@.len(),
            forall|k: int| 0 <= k < i ==> dst@[k] == src@[k],
        decreases src.len() - i,
    {
        dst[i] = src[i];
        i += 1;
    }
    assert(dst@ =~= src@);
}

/// The number that eight bytes spell, the lowest byte first.
pub open spec fn le_value(bytes: Seq<u8>) -> nat {
    (bytes[0] + 256 * (bytes[1] + 256 * (bytes[2] + 256 * (bytes[3] + 256 * (bytes[4] + 256 * (
    bytes[5] + 256 * (bytes[6] + 256 * bytes[7]))))))) as nat
}

/// The number that eight bytes spell, the highest byte first.
pub open spec fn be_value(bytes: Seq<u8>) -> nat {
    (bytes[7] + 256 * (bytes[6] + 256 * (bytes[5] + 256 * (bytes[4] + 256 * (bytes[3] + 256 * (
    bytes[2] + 256 * (bytes[1] + 256 * bytes[0]))))))) as nat
}

/// Reads eight bytes as a number, the lowest byte first.
pub fn to_le_bytes(bytes: [u8; 8]) -> (value: u64)
    ensures
        value == le_value(bytes@),
{
    let b6: u64 = bytes[6] as u64 + 256 * (bytes[7] as u64);
    let b5: u64 = bytes[5] as u64 + 256 * b6;
    let b4: u64 = bytes[4] as u64 + 256 * b5;
    let b3: u64 = bytes[3] as u64 + 256 * b4;
    let b2: u64 = bytes[2] as u64 + 256 * b3;
    let b1: u64 = bytes[1] as u64 + 256 * b2;
    bytes[0] as u64 + 256 * b1
}

/// Reads eight bytes as a number, the highest byte first.
pub fn to_be_bytes(bytes: [u8; 8]) -> (value: u64)
    ensures
        value == be_value(bytes@),
{
    let b1: u64 = bytes[1] as u64 + 256 * (bytes[0] as u64);
    let b2: u64 = bytes[2] as u64 + 256 * b1;
    let b3: u64 = bytes[3] as u64 + 256 * b2;
    let b4: u64 = bytes[4] as u64 + 256 * b3;
    let b5: u64 = bytes[5] as u64 + 256 * b4;
    let b6: u64 = bytes[6] as u64 + 256 * b5;
    bytes[7] as u64 + 256 * b6
}

} // verus!
