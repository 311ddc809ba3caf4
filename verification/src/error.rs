//! The error kinds that the vault reports.

use vstd::prelude::*;

verus! {

/// Every way in which a vault operation can fail.
///
/// The kinds fall into groups: invalid input (`InvalidLength`), cryptographic
/// failures (`InvalidParameters`, `DerivationFailure`, `AuthenticationFailure`),
/// file format failures (`TruncatedFile`, `BadMagic`, `UnsupportedVersion`,
/// `MalformedPayload`), and the remaining kinds which stand for themselves.
#[derive(Clone, Copy, Debug, PartialEq, Eq, Structural)]
pub enum VaultError {
    /// A generated password must have at least four characters.
    InvalidLength,
    /// A character category has no characters left to draw from.
    EmptyPool,
    /// The cost parameters violate the constraints of the key derivation.
    InvalidParameters,
    /// The key derivation could not be carried out.
    DerivationFailure,
    /// The sealed bytes do not authenticate under the derived key: the password
    /// is wrong or the file was modified. The two causes are not told apart.
    AuthenticationFailure,
    /// The file is shorter than its fixed header.
    TruncatedFile,
    /// The file does not start with the vault's magic tag.
    BadMagic,
    /// The file's format version is not one this library reads.
    UnsupportedVersion,
    /// The decrypted payload is not a record collection.
    MalformedPayload,
    /// No record has the requested name.
    NotFound,
    /// A vault already exists where a new one was to be created.
    AlreadyExists,
    /// The file system refused an operation.
    IoError,
}

/// The group an error kind belongs to.
#[derive(Clone, Copy, Debug, PartialEq, Eq, Structural)]
pub enum ErrorClass {
    Input,
    Crypto,
    Format,
    EmptyPool,
    NotFound,
    AlreadyExists,
    Io,
}

impl VaultError {
    /// The group of this error kind.
    pub open spec fn class_spec(self) -> ErrorClass {
        match self {
            VaultError::InvalidLength => ErrorClass::Input,
            VaultError::InvalidParameters
            | VaultError::DerivationFailure
            | VaultError::AuthenticationFailure => ErrorClass::Crypto,
            VaultError::TruncatedFile
            | VaultError::BadMagic
            | VaultError::UnsupportedVersion
            | VaultError::MalformedPayload => ErrorClass::Format,
            VaultError::EmptyPool => ErrorClass::EmptyPool,
            VaultError::NotFound => ErrorClass::NotFound,
            VaultError::AlreadyExists => ErrorClass::AlreadyExists,
            VaultError::IoError => ErrorClass::Io,
        }
    }

    /// The message shown for this error kind. A failed authentication has one
    /// message, which does not say whether the password was wrong or the file
    /// was modified.
    pub fn message(&self) -> (text: &'static str)
        ensures
            text@ == self.message_spec(),
    {
        match self {
            VaultError::InvalidLength => "password length must be at least 4",
            VaultError::EmptyPool => "a character pool is empty",
            VaultError::InvalidParameters => "invalid key derivation parameters",
            VaultError::DerivationFailure => "key derivation failed",
            VaultError::AuthenticationFailure => "wrong password or corrupted vault",
            VaultError::TruncatedFile => "vault file is too short",
            VaultError::BadMagic => "not a vault file",
            VaultError::UnsupportedVersion => "unsupported vault format version",
            VaultError::MalformedPayload => "vault contents are malformed",
            VaultError::NotFound => "not found",
            VaultError::AlreadyExists => "vault already exists",
            VaultError::IoError => "file system error",
        }
    }

    /// The characters of the message for this error kind.
    pub open spec fn message_spec(self) -> Seq<char> {
        match self {
            VaultError::InvalidLength => "password length must be at least 4"@,
            VaultError::EmptyPool => "a character pool is empty"@,
            VaultError::InvalidParameters => "invalid key derivation parameters"@,
            VaultError::DerivationFailure => "key derivation failed"@,
            VaultError::AuthenticationFailure => "wrong password or corrupted vault"@,
            VaultError::TruncatedFile => "vault file is too short"@,
            VaultError::BadMagic => "not a vault file"@,
            VaultError::UnsupportedVersion => "unsupported vault format version"@,
            VaultError::MalformedPayload => "vault contents are malformed"@,
            VaultError::NotFound => "not found"@,
            VaultError::AlreadyExists => "vault already exists"@,
            VaultError::IoError => "file system error"@,
        }
    }

    /// Computes the group of this error kind.
    pub fn class(&self) -> (c: ErrorClass)
        ensures
            c == self.class_spec(),
    {
        match self {
            VaultError::InvalidLength => ErrorClass::Input,
            VaultError::InvalidParameters
            | VaultError::DerivationFailure
            | VaultError::AuthenticationFailure => ErrorClass::Crypto,
            VaultError::TruncatedFile
            | VaultError::BadMagic
            | VaultError::UnsupportedVersion
            | VaultError::MalformedPayload => ErrorClass::Format,
            VaultError::EmptyPool => ErrorClass::EmptyPool,
            VaultError::NotFound => ErrorClass::NotFound,
            VaultError::AlreadyExists => ErrorClass::AlreadyExists,
            VaultError::IoError => ErrorClass::Io,
        }
    }
}

} // verus!
