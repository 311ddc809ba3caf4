//! The vault file: a fixed header that carries the cost parameters, the salt
//! and the nonce, followed by the sealed payload.
//!
//! | offset | size | field                         |
//! |--------|------|-------------------------------|
//! | 0      | 4    | magic tag `RPSS`              |
//! | 4      | 1    | format version                |
//! | 5      | 4    | memory cost, little-endian    |
//! | 9      | 4    | time cost, little-endian      |
//! | 13     | 4    | parallelism, little-endian    |
//! | 17     | 16   | salt                          |
//! | 33     | 12   | nonce                         |
//! | 45     | rest | ciphertext and its tag        |

use crate::aead::{
    aead_decrypt, aead_encrypt, chacha20poly1305_open, chacha20poly1305_seal, openable, sealable,
    MAX_PLAINTEXT_LEN, NONCE_LEN, TAG_LEN,
};
use crate::error::VaultError;
use crate::kdf::{
    derivation_may_fail_with, derive_key_from_password, derive_key_spec, MAX_PASSWORD_LEN,
};
use crate::params::CostParams;
use crate::random::random_bytes;
use crate::secret::{erase_key, erase_password, erased_key};
use vstd::prelude::*;
use vstd::slice::{slice_subrange, slice_to_vec};
use vstd::utf8::encode_utf8;

verus! {

/// The length of the header in bytes.
pub const HEADER_LEN: usize = 45;

/// The one format version that is written and read.
pub const FORMAT_VERSION: u8 = 1;

/// The length of the salt in bytes.
pub const SALT_LEN: usize = 16;

/// The magic tag, the ASCII letters `RPSS`.
pub open spec fn magic() -> Seq<u8> {
    seq![0x52u8, 0x50u8, 0x53u8, 0x53u8]
}

/// The four bytes of a number, least significant first.
pub open spec fn u32_le_bytes(x: u32) -> Seq<u8> {
    seq![
        (x % 256) as u8,
        ((x / 256) % 256) as u8,
        ((x / 65536) % 256) as u8,
        ((x / 16777216) % 256) as u8,
    ]
}

/// The number that four bytes stand for, least significant first.
pub open spec fn u32_from_le(bytes: Seq<u8>) -> u32
    recommends
        bytes.len() == 4,
{
    (bytes[0] + 256 * bytes[1] + 65536 * bytes[2] + 16777216 * bytes[3]) as u32
}

/// The header of a vault file.
pub open spec fn header_bytes(params: CostParams, salt: Seq<u8>, nonce: Seq<u8>) -> Seq<u8> {
    magic() + seq![FORMAT_VERSION] + u32_le_bytes(params.m_cost) + u32_le_bytes(params.t_cost)
        + u32_le_bytes(params.p_cost) + salt + nonce
}

/// The cost parameters that a file of at least 45 bytes carries.
pub open spec fn header_params(data: Seq<u8>) -> CostParams {
    CostParams {
        m_cost: u32_from_le(data.subrange(5, 9)),
        t_cost: u32_from_le(data.subrange(9, 13)),
        p_cost: u32_from_le(data.subrange(13, 17)),
    }
}

/// The salt that a file of at least 45 bytes carries.
pub open spec fn header_salt(data: Seq<u8>) -> Seq<u8> {
    data.subrange(17, 33)
}

/// The nonce that a file of at least 45 bytes carries.
pub open spec fn header_nonce(data: Seq<u8>) -> Seq<u8> {
    data.subrange(33, 45)
}

/// What follows the header: the ciphertext and its tag.
pub open spec fn sealed_part(data: Seq<u8>) -> Seq<u8> {
    data.subrange(HEADER_LEN as int, data.len() as int)
}

/// The error that the header of a file is refused with, if any. The length is
/// tested first, then the magic tag, the version, and the cost parameters.
pub open spec fn header_error(data: Seq<u8>) -> Option<VaultError> {
    if data.len() < HEADER_LEN {
        Some(VaultError::TruncatedFile)
    } else if data.subrange(0, 4) != magic() {
        Some(VaultError::BadMagic)
    } else if data[4] != FORMAT_VERSION {
        Some(VaultError::UnsupportedVersion)
    } else if !header_params(data).valid() {
        Some(VaultError::InvalidParameters)
    } else {
        None
    }
}

/// What opening sealed bytes gives: nothing where they are shorter than a tag
/// or longer than anything the cipher seals, and else what the cipher makes of
/// them.
pub open spec fn opened(key: Seq<u8>, nonce: Seq<u8>, sealed: Seq<u8>) -> Option<Seq<u8>> {
    if openable(sealed.len()) {
        chacha20poly1305_open(key, nonce, sealed)
    } else {
        None
    }
}

/// What decoding a file under a password gives where the memory for the
/// derivation can be had: the header is validated, the key derived from the
/// password and the file's salt and cost parameters, and the sealed part opened
/// under that key and the file's nonce. A sealed part that does not
/// authenticate gives `AuthenticationFailure`, whatever the cause: a wrong
/// password, a changed byte, or a length that no sealed payload has.
pub open spec fn decrypt_vault_spec(data: Seq<u8>, password: Seq<char>) -> Result<
    Seq<u8>,
    VaultError,
> {
    match header_error(data) {
        Some(e) => Err(e),
        None => match derive_key_spec(password, header_salt(data), header_params(data)) {
            Err(e) => Err(e),
            Ok(key) => match opened(key, header_nonce(data), sealed_part(data)) {
                Some(plaintext) => Ok(plaintext),
                None => Err(VaultError::AuthenticationFailure),
            },
        },
    }
}

/// What encoding a payload gives, once salt and nonce are drawn: the header,
/// then the payload sealed under the key that the password derives.
pub open spec fn encrypt_vault_spec(
    plaintext: Seq<u8>,
    password: Seq<char>,
    params: CostParams,
    salt: Seq<u8>,
    nonce: Seq<u8>,
) -> Result<Seq<u8>, VaultError> {
    match derive_key_spec(password, salt, params) {
        Err(e) => Err(e),
        Ok(key) => Ok(
            header_bytes(params, salt, nonce) + chacha20poly1305_seal(key, nonce, plaintext),
        ),
    }
}

/// Whether a payload of this length can be sealed into a vault file: the
/// cipher must take it, and the file must fit into memory.
pub open spec fn payload_fits(len: nat) -> bool {
    sealable(len) && len + HEADER_LEN + TAG_LEN <= isize::MAX
}

/// Tests whether a payload of this length can be sealed into a vault file.
pub fn payload_len_fits(len: usize) -> (fits: bool)
    ensures
        fits == payload_fits(len as nat),
{
    len as u64 <= MAX_PLAINTEXT_LEN && len <= isize::MAX as usize - (HEADER_LEN + TAG_LEN)
}

/// Reading back the bytes of a number gives the number.
pub proof fn lemma_u32_le_roundtrip(x: u32)
    ensures
        u32_le_bytes(x).len() == 4,
        u32_from_le(u32_le_bytes(x)) == x,
{
}

/// Writing the number that four bytes stand for gives the four bytes.
pub proof fn lemma_u32_le_bytes_of_value(bytes: Seq<u8>)
    requires
        bytes.len() == 4,
    ensures
        u32_le_bytes(u32_from_le(bytes)) == bytes,
{
    let b0 = bytes[0] as int;
    let b1 = bytes[1] as int;
    let b2 = bytes[2] as int;
    let b3 = bytes[3] as int;
    let x = b0 + 256 * b1 + 65536 * b2 + 16777216 * b3;
    assert(0 <= x < 0x1_0000_0000);
    assert(u32_from_le(bytes) == x);
    assert(x % 256 == b0);
    assert(x / 256 == b1 + 256 * b2 + 65536 * b3);
    assert((x / 256) % 256 == b1);
    assert(x / 65536 == b2 + 256 * b3);
    assert((x / 65536) % 256 == b2);
    assert(x / 16777216 == b3);
    let written = u32_le_bytes(u32_from_le(bytes));
    assert(written[0] == bytes[0]);
    assert(written[1] == bytes[1]);
    assert(written[2] == bytes[2]);
    assert(written[3] == bytes[3]);
    assert(written =~= bytes);
}

/// Appends the four bytes of a number, least significant first.
pub fn push_u32_le(out: &mut Vec<u8>, x: u32)
    ensures
        final(out)@ == old(out)@ + u32_le_bytes(x),
{
    out.push((x % 256) as u8);
    out.push(((x / 256) % 256) as u8);
    out.push(((x / 65536) % 256) as u8);
    out.push(((x / 16777216) % 256) as u8);
    proof {
        assert(out@ =~= old(out)@ + u32_le_bytes(x));
    }
}

/// Reads the number that stands at `at`, least significant byte first.
pub fn read_u32_le(data: &[u8], at: usize) -> (x: u32)
    requires
        at + 4 <= data@.len(),
    ensures
        x == u32_from_le(data@.subrange(at as int, at + 4)),
{
    let b0 = data[at] as u32;
    let b1 = data[at + 1] as u32;
    let b2 = data[at + 2] as u32;
    let b3 = data[at + 3] as u32;
    b0 + 256 * b1 + 65536 * b2 + 16777216 * b3
}

/// Appends bytes to a vector.
pub fn append_bytes(out: &mut Vec<u8>, bytes: &[u8])
    ensures
        final(out)@ == old(out)@ + bytes@,
{
    let mut i: usize = 0;
    while i < bytes.len()
        invariant
            i <= bytes.len(),
            out@ == old(out)@ + bytes@.subrange(0, i as int),
        decreases bytes.len() - i,
    {
        out.push(bytes[i]);
        i += 1;
        proof {
            assert(out@ =~= old(out)@ + bytes@.subrange(0, i as int));
        }
    }
    proof {
        assert(bytes@.subrange(0, i as int) =~= bytes@);
    }
}

/// The fields of a header that was read and found valid.
#[derive(Debug)]
pub struct Header {
    /// The cost parameters of the key derivation.
    pub params: CostParams,
    /// The salt, 16 bytes.
    pub salt: Vec<u8>,
    /// The nonce, 12 bytes.
    pub nonce: Vec<u8>,
}

/// Writes the header of a vault file.
pub fn encode_header(params: &CostParams, salt: &[u8; 16], nonce: &[u8; 12]) -> (out: Vec<u8>)
    ensures
        out@ == header_bytes(*params, salt@, nonce@),
        out@.len() == HEADER_LEN,
{
    let mut out: Vec<u8> = Vec::new();
    out.push(0x52u8);
    out.push(0x50u8);
    out.push(0x53u8);
    out.push(0x53u8);
    out.push(FORMAT_VERSION);
    proof {
        assert(out@ =~= magic() + seq![FORMAT_VERSION]);
    }
    push_u32_le(&mut out, params.m_cost);
    push_u32_le(&mut out, params.t_cost);
    push_u32_le(&mut out, params.p_cost);
    append_bytes(&mut out, salt.as_slice());
    append_bytes(&mut out, nonce.as_slice());
    out
}

/// Reads and validates the header of a vault file: the length first, then the
/// magic tag, the version, and the cost parameters.
pub fn parse_header(data: &[u8]) -> (r: Result<Header, VaultError>)
    ensures
        match r {
            Ok(header) => {
                &&& header_error(data@) is None
                &&& header.params == header_params(data@)
                &&& header.salt@ == header_salt(data@)
                &&& header.nonce@ == header_nonce(data@)
            },
            Err(e) => header_error(data@) == Some(e),
        },
{
    if data.len() < HEADER_LEN {
        return Err(VaultError::TruncatedFile);
    }
    if data[0] != 0x52u8 || data[1] != 0x50u8 || data[2] != 0x53u8 || data[3] != 0x53u8 {
        proof {
            let tag = data@.subrange(0, 4);
            assert(tag[0] != magic()[0] || tag[1] != magic()[1] || tag[2] != magic()[2] || tag[3]
                != magic()[3]);
        }
        return Err(VaultError::BadMagic);
    }
    proof {
        assert(data@.subrange(0, 4) =~= magic());
    }
    if data[4] != FORMAT_VERSION {
        return Err(VaultError::UnsupportedVersion);
    }
    let params = CostParams {
        m_cost: read_u32_le(data, 5),
        t_cost: read_u32_le(data, 9),
        p_cost: read_u32_le(data, 13),
    };
    if !params.is_valid() {
        return Err(VaultError::InvalidParameters);
    }
    Ok(
        Header {
            params,
            salt: slice_to_vec(slice_subrange(data, 17, 33)),
            nonce: slice_to_vec(slice_subrange(data, 33, 45)),
        },
    )
}

/// A file that is made of a header and sealed bytes is read back as it was
/// written: the header is found valid, and every field is the one that was
/// written.
pub proof fn lemma_header_roundtrip(
    params: CostParams,
    salt: Seq<u8>,
    nonce: Seq<u8>,
    sealed: Seq<u8>,
)
    requires
        params.valid(),
        salt.len() == SALT_LEN,
        nonce.len() == NONCE_LEN,
    ensures
        header_error(header_bytes(params, salt, nonce) + sealed) is None,
        header_params(header_bytes(params, salt, nonce) + sealed) == params,
        header_salt(header_bytes(params, salt, nonce) + sealed) == salt,
        header_nonce(header_bytes(params, salt, nonce) + sealed) == nonce,
        sealed_part(header_bytes(params, salt, nonce) + sealed) == sealed,
{
    let file = header_bytes(params, salt, nonce) + sealed;
    assert(file.len() == HEADER_LEN + sealed.len());
    assert(file.subrange(0, 4) =~= magic());
    assert(file[4] == FORMAT_VERSION);
    assert(file.subrange(5, 9) =~= u32_le_bytes(params.m_cost));
    assert(file.subrange(9, 13) =~= u32_le_bytes(params.t_cost));
    assert(file.subrange(13, 17) =~= u32_le_bytes(params.p_cost));
    lemma_u32_le_roundtrip(params.m_cost);
    lemma_u32_le_roundtrip(params.t_cost);
    lemma_u32_le_roundtrip(params.p_cost);
    assert(header_salt(file) =~= salt);
    assert(header_nonce(file) =~= nonce);
    assert(sealed_part(file) =~= sealed);
}

/// Seals a payload under a key and erases the key.
fn seal_and_erase(key: &mut [u8; 32], nonce: &[u8; 12], plaintext: &[u8]) -> (sealed: Vec<u8>)
    requires
        payload_fits(plaintext@.len()),
    ensures
        final(key)@ == erased_key(),
        sealed@ == chacha20poly1305_seal(old(key)@, nonce@, plaintext@),
        sealed@.len() == plaintext@.len() + TAG_LEN,
        chacha20poly1305_open(old(key)@, nonce@, sealed@) == Some(plaintext@),
{
    let r = aead_encrypt(key, nonce.as_slice(), plaintext);
    erase_key(key);
    r.unwrap()
}

/// Opens sealed bytes under a key and erases the key. Sealed bytes that are
/// longer than anything the cipher seals are refused unopened.
fn open_and_erase(key: &mut [u8; 32], nonce: &[u8], sealed: &[u8]) -> (r: Result<
    Vec<u8>,
    VaultError,
>)
    requires
        nonce@.len() == NONCE_LEN,
    ensures
        final(key)@ == erased_key(),
        match r {
            Ok(plaintext) => opened(old(key)@, nonce@, sealed@) == Some(plaintext@),
            Err(e) => e == VaultError::AuthenticationFailure && opened(
                old(key)@,
                nonce@,
                sealed@,
            ) is None,
        },
{
    if sealed.len() as u64 > TAG_LEN as u64 + MAX_PLAINTEXT_LEN {
        erase_key(key);
        return Err(VaultError::AuthenticationFailure);
    }
    let r = aead_decrypt(key, nonce, sealed);
    erase_key(key);
    match r {
        Ok(plaintext) => Ok(plaintext),
        Err(_) => Err(VaultError::AuthenticationFailure),
    }
}

/// Encodes a payload into a vault file under the given salt and nonce.
///
/// The key is derived from the password, the salt and the cost parameters, the
/// payload sealed under it and the nonce, and the header put in front. The key
/// is erased before the function returns. The only errors are those of the
/// derivation. The file decodes, under the same password, to the payload.
///
/// Salt and nonce must be fresh for every file: `encrypt_vault` draws them.
pub fn encrypt_vault_with(
    plaintext: &[u8],
    password: &str,
    params: &CostParams,
    salt: &[u8; 16],
    nonce: &[u8; 12],
) -> (r: Result<Vec<u8>, VaultError>)
    requires
        payload_fits(plaintext@.len()),
    ensures
        match r {
            Ok(file) => {
                &&& encrypt_vault_spec(plaintext@, password@, *params, salt@, nonce@) == Ok::<
                    Seq<u8>,
                    VaultError,
                >(file@)
                &&& file@.len() == HEADER_LEN + plaintext@.len() + TAG_LEN
                &&& decrypt_vault_spec(file@, password@) == Ok::<Seq<u8>, VaultError>(plaintext@)
            },
            Err(e) => derivation_may_fail_with(e, password@, salt@, *params),
        },
{
    let mut key = match derive_key_from_password(password, salt.as_slice(), params) {
        Ok(key) => key,
        Err(e) => {
            return Err(e);
        },
    };
    let sealed = seal_and_erase(&mut key, nonce, plaintext);
    let mut file = encode_header(params, salt, nonce);
    append_bytes(&mut file, sealed.as_slice());
    proof {
        lemma_header_roundtrip(*params, salt@, nonce@, sealed@);
    }
    Ok(file)
}

/// Encodes a payload into a vault file under a password.
///
/// A fresh salt and a fresh nonce are drawn from the operating system's random
/// source for every call. The password is erased on every path, and so is the
/// derived key. Parameters that the derivation refuses give
/// `InvalidParameters`; a password that it does not take gives
/// `DerivationFailure`, and so does a lack of the memory that the parameters
/// ask for. A file that comes back decodes, under the same password, to the
/// payload.
pub fn encrypt_vault(plaintext: &[u8], password: &mut String, params: &CostParams) -> (r: Result<
    Vec<u8>,
    VaultError,
>)
    requires
        payload_fits(plaintext@.len()),
    ensures
        final(password)@ == Seq::<char>::empty(),
        match r {
            Ok(file) => {
                &&& encrypt_vault_spec(
                    plaintext@,
                    old(password)@,
                    *params,
                    header_salt(file@),
                    header_nonce(file@),
                ) == Ok::<Seq<u8>, VaultError>(file@)
                &&& file@.len() == HEADER_LEN + plaintext@.len() + TAG_LEN
                &&& decrypt_vault_spec(file@, old(password)@) == Ok::<Seq<u8>, VaultError>(
                    plaintext@,
                )
            },
            Err(e) => if params.valid() {
                e == VaultError::DerivationFailure
            } else {
                e == VaultError::InvalidParameters
            },
        },
        !params.valid() ==> r is Err,
        encode_utf8(old(password)@).len() > MAX_PASSWORD_LEN ==> r is Err,
{
    let salt: [u8; 16] = random_bytes();
    let nonce: [u8; 12] = random_bytes();
    let r = encrypt_vault_with(plaintext, password.as_str(), params, &salt, &nonce);
    proof {
        if r is Ok {
            lemma_header_roundtrip(
                *params,
                salt@,
                nonce@,
                chacha20poly1305_seal(
                    derive_key_spec(old(password)@, salt@, *params)->Ok_0,
                    nonce@,
                    plaintext@,
                ),
            );
        }
    }
    erase_password(password);
    r
}

/// Decodes a vault file under a password and returns the payload.
///
/// The file is examined in this order, and the first failure decides the
/// error: a file shorter than its header gives `TruncatedFile`; another magic
/// tag `BadMagic`; another version `UnsupportedVersion`; cost parameters that
/// the derivation refuses `InvalidParameters`; a password that it does not
/// take, or a lack of the memory that the parameters ask for,
/// `DerivationFailure`; sealed bytes that do not authenticate under the derived
/// key `AuthenticationFailure`, be the password wrong or the file modified;
/// among them every sealed part that is shorter than a tag. The derived key is
/// erased before the function returns.
pub fn decrypt_vault(data: &[u8], password: &str) -> (r: Result<Vec<u8>, VaultError>)
    ensures
        match r {
            Ok(plaintext) => decrypt_vault_spec(data@, password@) == Ok::<Seq<u8>, VaultError>(
                plaintext@,
            ),
            Err(e) => decrypt_vault_spec(data@, password@) == Err::<Seq<u8>, VaultError>(e)
                || header_error(data@) is None && derivation_may_fail_with(
                e,
                password@,
                header_salt(data@),
                header_params(data@),
            ),
        },
{
    let header = match parse_header(data) {
        Ok(header) => header,
        Err(e) => {
            return Err(e);
        },
    };
    let mut key = match derive_key_from_password(password, header.salt.as_slice(), &header.params) {
        Ok(key) => key,
        Err(e) => {
            return Err(e);
        },
    };
    let sealed = slice_subrange(data, HEADER_LEN, data.len());
    open_and_erase(&mut key, header.nonce.as_slice(), sealed)
}

/// The file that encoding gives, where the derivation takes password and
/// parameters: the header, then the payload sealed under the derived key.
pub open spec fn vault_file(
    plaintext: Seq<u8>,
    password: Seq<char>,
    params: CostParams,
    salt: Seq<u8>,
    nonce: Seq<u8>,
) -> Seq<u8> {
    header_bytes(params, salt, nonce) + chacha20poly1305_seal(
        derive_key_spec(password, salt, params)->Ok_0,
        nonce,
        plaintext,
    )
}

/// Decoding under another password than the one a file was encoded with.
///
/// The header is found valid and the key derived from the other password; what
/// comes out is then decided by the cipher alone. Where it refuses the sealed
/// bytes under the other key, the answer is `AuthenticationFailure`, and no
/// other error is possible. That the cipher refuses them cannot be proved of
/// every pair of passwords: two passwords may derive the same key.
pub proof fn lemma_decode_under_other_password(
    plaintext: Seq<u8>,
    password: Seq<char>,
    other: Seq<char>,
    params: CostParams,
    salt: Seq<u8>,
    nonce: Seq<u8>,
)
    requires
        password != other,
        params.valid(),
        salt.len() == SALT_LEN,
        nonce.len() == NONCE_LEN,
        encode_utf8(password).len() <= MAX_PASSWORD_LEN,
        encode_utf8(other).len() <= MAX_PASSWORD_LEN,
    ensures
        encrypt_vault_spec(plaintext, password, params, salt, nonce) == Ok::<Seq<u8>, VaultError>(
            vault_file(plaintext, password, params, salt, nonce),
        ),
        decrypt_vault_spec(vault_file(plaintext, password, params, salt, nonce), other)
            == match opened(
            derive_key_spec(other, salt, params)->Ok_0,
            nonce,
            sealed_part(vault_file(plaintext, password, params, salt, nonce)),
        ) {
            Some(payload) => Ok::<Seq<u8>, VaultError>(payload),
            None => Err::<Seq<u8>, VaultError>(VaultError::AuthenticationFailure),
        },
        opened(
            derive_key_spec(other, salt, params)->Ok_0,
            nonce,
            sealed_part(vault_file(plaintext, password, params, salt, nonce)),
        ) is None ==> decrypt_vault_spec(
            vault_file(plaintext, password, params, salt, nonce),
            other,
        ) == Err::<Seq<u8>, VaultError>(VaultError::AuthenticationFailure),
{
    let sealed = chacha20poly1305_seal(
        derive_key_spec(password, salt, params)->Ok_0,
        nonce,
        plaintext,
    );
    lemma_header_roundtrip(params, salt, nonce, sealed);
}

/// Decoding a file of which one byte of the sealed part was changed.
///
/// The header is untouched, so it is found valid and the same key is derived;
/// what comes out is then decided by the cipher alone. Where it refuses the
/// changed bytes, the answer is `AuthenticationFailure`, and no other error is
/// possible.
pub proof fn lemma_decode_tampered(data: Seq<u8>, password: Seq<char>, at: int, byte: u8)
    requires
        header_error(data) is None,
        HEADER_LEN <= at < data.len(),
        encode_utf8(password).len() <= MAX_PASSWORD_LEN,
    ensures
        header_error(data.update(at, byte)) is None,
        header_params(data.update(at, byte)) == header_params(data),
        header_salt(data.update(at, byte)) == header_salt(data),
        header_nonce(data.update(at, byte)) == header_nonce(data),
        sealed_part(data.update(at, byte)) == sealed_part(data).update(at - HEADER_LEN, byte),
        decrypt_vault_spec(data.update(at, byte), password) == match opened(
            derive_key_spec(password, header_salt(data), header_params(data))->Ok_0,
            header_nonce(data),
            sealed_part(data).update(at - HEADER_LEN, byte),
        ) {
            Some(payload) => Ok::<Seq<u8>, VaultError>(payload),
            None => Err::<Seq<u8>, VaultError>(VaultError::AuthenticationFailure),
        },
{
    let tampered = data.update(at, byte);
    assert(tampered.subrange(0, 4) =~= data.subrange(0, 4));
    assert(tampered.subrange(5, 9) =~= data.subrange(5, 9));
    assert(tampered.subrange(9, 13) =~= data.subrange(9, 13));
    assert(tampered.subrange(13, 17) =~= data.subrange(13, 17));
    assert(header_salt(tampered) =~= header_salt(data));
    assert(header_nonce(tampered) =~= header_nonce(data));
    assert(sealed_part(tampered) =~= sealed_part(data).update(at - HEADER_LEN, byte));
}

/// A file with a valid header whose sealed part is shorter than a tag, or
/// longer than anything the cipher seals, does not authenticate, whatever the
/// password.
pub proof fn lemma_sealed_part_of_wrong_length(data: Seq<u8>, password: Seq<char>)
    requires
        header_error(data) is None,
        encode_utf8(password).len() <= MAX_PASSWORD_LEN,
        !openable(sealed_part(data).len()),
    ensures
        decrypt_vault_spec(data, password) == Err::<Seq<u8>, VaultError>(
            VaultError::AuthenticationFailure,
        ),
{
}

/// A file that is cut off inside its header is refused as truncated, whatever
/// it holds.
pub proof fn lemma_short_file_is_truncated(data: Seq<u8>, password: Seq<char>)
    requires
        data.len() < HEADER_LEN,
    ensures
        decrypt_vault_spec(data, password) == Err::<Seq<u8>, VaultError>(
            VaultError::TruncatedFile,
        ),
{
}

} // verus!
