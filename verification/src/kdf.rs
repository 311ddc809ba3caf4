//! The key derivation service: Argon2id, from a password and a salt to a
//! 32-byte key.

use crate::error::VaultError;
use crate::params::{costs_valid, CostParams};
use vstd::prelude::*;
use vstd::utf8::encode_utf8;

verus! {

/// The length of a derived key in bytes.
pub const KEY_LEN: usize = 32;

/// The longest password, in bytes, that the derivation takes.
pub const MAX_PASSWORD_LEN: usize = 0xFFFF_FFFF;

/// The shortest salt, in bytes, that the derivation takes.
pub const MIN_SALT_LEN: usize = 8;

/// The longest salt, in bytes, that the derivation takes.
pub const MAX_SALT_LEN: usize = 0xFFFF_FFFF;

/// The error type of the `argon2` crate. Nothing is read from it: every value
/// is reported as `DerivationFailure`.
#[verifier::external_type_specification]
#[verifier::external_body]
pub struct ExArgon2Error(argon2::Error);

/// The Argon2id hash (version 0x13, 32 bytes of output, no secret, no
/// associated data) of a password under a salt and a triple of costs.
pub uninterp spec fn argon2id_key(
    password: Seq<u8>,
    salt: Seq<u8>,
    m_cost: u32,
    t_cost: u32,
    p_cost: u32,
) -> Seq<u8>;

/// Whether the derivation takes a password and a salt of these lengths.
pub open spec fn lengths_accepted(password_len: nat, salt_len: nat) -> bool {
    password_len <= MAX_PASSWORD_LEN && MIN_SALT_LEN <= salt_len <= MAX_SALT_LEN
}

/// `argon2::Argon2::hash_password_into_with_memory`, on a context made by
/// `Argon2::new` for Argon2id, version 0x13, with parameters from `Params::new`,
/// an output buffer of 32 bytes, and as many zeroed blocks of memory as
/// `Params::block_count` asks for.
///
/// The memory is reserved with `Vec::try_reserve_exact`, so that a lack of
/// memory is an error and not the end of the process. The contract claims that
/// the call fails on a password of more than 2^32 - 1 bytes and on a salt that
/// does not have between 8 and 2^32 - 1 (the crate's `verify_inputs`), and that
/// a key that comes back is a function of the five arguments alone. It does not
/// promise a key: whether the memory can be had is for the machine to say. The
/// precondition keeps out the costs that `Params::new` refuses, among them the
/// lane counts on which its test `m_cost < p_cost * 8` overflows.
#[verifier::external_body]
fn argon2id_hash(password: &[u8], salt: &[u8], m_cost: u32, t_cost: u32, p_cost: u32) -> (r: Result<
    [u8; 32],
    argon2::Error,
>)
    requires
        costs_valid(m_cost, t_cost, p_cost),
    ensures
        !lengths_accepted(password@.len(), salt@.len()) ==> r is Err,
        r matches Ok(key) ==> key@ == argon2id_key(password@, salt@, m_cost, t_cost, p_cost),
{
    let params = argon2::Params::new(m_cost, t_cost, p_cost, None)?;
    let mut memory: Vec<argon2::Block> = Vec::new();
    memory.try_reserve_exact(params.block_count()).or(Err(argon2::Error::MemoryTooMuch))?;
    memory.resize(params.block_count(), argon2::Block::default());
    let context = argon2::Argon2::new(argon2::Algorithm::Argon2id, argon2::Version::V0x13, params);
    let mut key = [0u8; 32];
    context.hash_password_into_with_memory(password, salt, &mut key, &mut memory)?;
    Ok(key)
}

/// What deriving a key gives where the memory for it can be had: the
/// parameters are tested first, then the lengths of password and salt.
pub open spec fn derive_key_spec(password: Seq<char>, salt: Seq<u8>, params: CostParams) -> Result<
    Seq<u8>,
    VaultError,
> {
    if !params.valid() {
        Err(VaultError::InvalidParameters)
    } else if !lengths_accepted(encode_utf8(password).len(), salt.len()) {
        Err(VaultError::DerivationFailure)
    } else {
        Ok(argon2id_key(encode_utf8(password), salt, params.m_cost, params.t_cost, params.p_cost))
    }
}

/// Whether an error is one that deriving a key may end in: the one that
/// `derive_key_spec` gives, or, in the place of a key, the failure to get the
/// memory that the parameters ask for.
pub open spec fn derivation_may_fail_with(
    e: VaultError,
    password: Seq<char>,
    salt: Seq<u8>,
    params: CostParams,
) -> bool {
    match derive_key_spec(password, salt, params) {
        Err(expected) => e == expected,
        Ok(_) => e == VaultError::DerivationFailure,
    }
}

/// What the library makes of the outcome of the hash: the key where there is
/// one, and `DerivationFailure` for every error.
pub fn key_or_failure(outcome: Result<[u8; 32], argon2::Error>) -> (r: Result<[u8; 32], VaultError>)
    ensures
        match outcome {
            Ok(key) => r == Ok::<[u8; 32], VaultError>(key),
            Err(_) => r == Err::<[u8; 32], VaultError>(VaultError::DerivationFailure),
        },
{
    match outcome {
        Ok(key) => Ok(key),
        Err(_) => Err(VaultError::DerivationFailure),
    }
}

/// Derives the 32-byte key of a password, taken by its UTF-8 bytes, under a salt
/// and cost parameters.
///
/// Parameters that the derivation refuses give `InvalidParameters`; a password
/// or a salt of a length that it does not take gives `DerivationFailure`. In
/// every other case the key is the Argon2id hash of the arguments, so that the
/// same arguments always give the same key; unless the memory that the
/// parameters ask for cannot be had, which gives `DerivationFailure` too.
pub fn derive_key_from_password(password: &str, salt: &[u8], params: &CostParams) -> (r: Result<
    [u8; 32],
    VaultError,
>)
    ensures
        match r {
            Ok(key) => derive_key_spec(password@, salt@, *params) == Ok::<Seq<u8>, VaultError>(
                key@,
            ),
            Err(e) => derivation_may_fail_with(e, password@, salt@, *params),
        },
{
    if !params.is_valid() {
        return Err(VaultError::InvalidParameters);
    }
    key_or_failure(
        argon2id_hash(password.as_bytes(), salt, params.m_cost, params.t_cost, params.p_cost),
    )
}

} // verus!
