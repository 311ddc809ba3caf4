//! Erasure of secrets: passwords and derived keys are overwritten with zeros
//! once they are no longer needed.
//!
//! This is best effort. It reaches the buffer that is handed in, not the copies
//! that an earlier reallocation or a move may have left elsewhere in memory.

use vstd::prelude::*;
use zeroize::Zeroize;

verus! {

/// A key of which every byte is zero.
pub open spec fn erased_key() -> Seq<u8> {
    Seq::new(32, |i: int| 0u8)
}

/// `Zeroize::zeroize` on an array of 32 bytes: every byte is overwritten with
/// zero, by writes that the compiler may not remove.
#[verifier::external_body]
fn wipe_key(key: &mut [u8; 32])
    ensures
        final(key)@ == erased_key(),
{
    key.zeroize();
}

/// `Zeroize::zeroize` on a `String`: its bytes and its spare capacity are
/// overwritten with zeros, and the string is left empty.
#[verifier::external_body]
fn wipe_string(s: &mut String)
    ensures
        final(s)@ == Seq::<char>::empty(),
{
    s.zeroize();
}

/// Overwrites a derived key with zeros.
pub fn erase_key(key: &mut [u8; 32])
    ensures
        final(key)@ == erased_key(),
{
    wipe_key(key);
}

/// Overwrites a password with zeros and leaves it empty.
pub fn erase_password(password: &mut String)
    ensures
        final(password)@ == Seq::<char>::empty(),
{
    wipe_string(password);
}

} // verus!
