use rustpass::error::VaultError;
use rustpass::kdf::{derive_key_from_password, key_or_failure};
use rustpass::params::{default_params, CostParams};

fn light() -> CostParams {
    CostParams { m_cost: 8, t_cost: 1, p_cost: 1 }
}

#[test]
fn derivation_is_deterministic() {
    let salt = [3u8; 16];
    let first = derive_key_from_password("password", &salt, &light()).unwrap();
    let second = derive_key_from_password("password", &salt, &light()).unwrap();
    assert_eq!(first, second);
    assert_ne!(first, [0u8; 32]);
}

#[test]
fn derivation_depends_on_every_input() {
    let salt = [3u8; 16];
    let key = derive_key_from_password("password", &salt, &light()).unwrap();
    assert_ne!(key, derive_key_from_password("passwore", &salt, &light()).unwrap());
    assert_ne!(key, derive_key_from_password("password", &[4u8; 16], &light()).unwrap());
    let more_time = CostParams { m_cost: 8, t_cost: 2, p_cost: 1 };
    assert_ne!(key, derive_key_from_password("password", &salt, &more_time).unwrap());
    let more_memory = CostParams { m_cost: 16, t_cost: 1, p_cost: 1 };
    assert_ne!(key, derive_key_from_password("password", &salt, &more_memory).unwrap());
    let more_lanes = CostParams { m_cost: 16, t_cost: 1, p_cost: 2 };
    assert_ne!(
        derive_key_from_password("password", &salt, &more_memory).unwrap(),
        derive_key_from_password("password", &salt, &more_lanes).unwrap()
    );
}

#[test]
fn derivation_is_argon2id_version_19() {
    let salt = b"0123456789abcdef";
    let key = derive_key_from_password("hunter2", salt, &light()).unwrap();
    let params = argon2::Params::new(8, 1, 1, None).unwrap();
    let context = argon2::Argon2::new(argon2::Algorithm::Argon2id, argon2::Version::V0x13, params);
    let mut expected = [0u8; 32];
    context.hash_password_into(b"hunter2", salt, &mut expected).unwrap();
    assert_eq!(key, expected);
}

#[test]
fn invalid_parameters_are_refused_before_anything_else() {
    let salt = [0u8; 16];
    for (m, t, p) in [(7, 1, 1), (0, 1, 1), (8, 0, 1), (8, 1, 0), (8, 1, 2), (15, 1, 2)] {
        let params = CostParams { m_cost: m, t_cost: t, p_cost: p };
        assert_eq!(
            derive_key_from_password("pw", &salt, &params),
            Err(VaultError::InvalidParameters)
        );
    }
    // Invalid parameters win over a salt that is too short.
    let params = CostParams { m_cost: 7, t_cost: 1, p_cost: 1 };
    assert_eq!(derive_key_from_password("pw", &[], &params), Err(VaultError::InvalidParameters));
}

#[test]
fn lane_counts_beyond_the_limit_are_refused_without_overflow() {
    let salt = [0u8; 16];
    for p in [0x0100_0000u32, 0x2000_0000, 0x2000_0001, 0x8000_0000, u32::MAX] {
        let params = CostParams { m_cost: u32::MAX, t_cost: 1, p_cost: p };
        assert!(!params.is_valid());
        assert_eq!(
            derive_key_from_password("pw", &salt, &params),
            Err(VaultError::InvalidParameters)
        );
        assert_eq!(CostParams::new(u32::MAX, 1, p), Err(VaultError::InvalidParameters));
    }
}

#[test]
fn salt_of_a_length_that_is_not_taken_is_a_derivation_failure() {
    assert_eq!(
        derive_key_from_password("pw", &[1u8; 7], &light()),
        Err(VaultError::DerivationFailure)
    );
    assert_eq!(derive_key_from_password("pw", &[], &light()), Err(VaultError::DerivationFailure));
    assert!(derive_key_from_password("pw", &[1u8; 8], &light()).is_ok());
}

#[test]
fn empty_password_is_taken() {
    assert!(derive_key_from_password("", &[1u8; 16], &light()).is_ok());
}

#[test]
fn cost_parameters_are_validated() {
    assert_eq!(CostParams::new(8, 1, 1), Ok(CostParams { m_cost: 8, t_cost: 1, p_cost: 1 }));
    assert_eq!(
        CostParams::new(u32::MAX, u32::MAX, 0x00ff_ffff),
        Ok(CostParams { m_cost: u32::MAX, t_cost: u32::MAX, p_cost: 0x00ff_ffff })
    );
    assert_eq!(CostParams::new(16, 1, 2), Ok(CostParams { m_cost: 16, t_cost: 1, p_cost: 2 }));
    assert_eq!(CostParams::new(15, 1, 2), Err(VaultError::InvalidParameters));
    assert_eq!(CostParams::new(7, 1, 1), Err(VaultError::InvalidParameters));
    assert_eq!(CostParams::new(8, 0, 1), Err(VaultError::InvalidParameters));
    assert_eq!(CostParams::new(8, 1, 0), Err(VaultError::InvalidParameters));
    assert_eq!(CostParams::new(u32::MAX, 1, 0x0100_0000), Err(VaultError::InvalidParameters));
}

#[test]
fn cost_parameters_agree_with_the_derivation() {
    for (m, t, p) in [
        (8u32, 1u32, 1u32),
        (7, 1, 1),
        (8, 0, 1),
        (8, 1, 0),
        (16, 1, 2),
        (15, 1, 2),
        (65536, 3, 1),
        (u32::MAX, 1, 0x00ff_ffff),
        (u32::MAX, 1, 0x0100_0000),
    ] {
        let ours = CostParams { m_cost: m, t_cost: t, p_cost: p }.is_valid();
        let theirs = argon2::Params::new(m, t, p, None).is_ok();
        assert_eq!(ours, theirs);
    }
}

#[test]
fn default_parameters() {
    let p = default_params();
    assert_eq!(p, CostParams { m_cost: 64 * 1024, t_cost: 3, p_cost: 1 });
    assert!(p.is_valid());
}

#[test]
fn erasing_a_key_leaves_zeros() {
    let mut key = derive_key_from_password("password", &[3u8; 16], &light()).unwrap();
    assert_ne!(key, [0u8; 32]);
    rustpass::secret::erase_key(&mut key);
    assert_eq!(key, [0u8; 32]);
}

#[test]
fn erasing_a_password_leaves_it_empty() {
    let mut password = String::from("master password");
    rustpass::secret::erase_password(&mut password);
    assert_eq!(password, "");
    rustpass::secret::erase_password(&mut password);
    assert_eq!(password, "");
}

#[test]
fn every_error_of_the_hash_is_a_derivation_failure() {
    assert_eq!(key_or_failure(Ok([7u8; 32])), Ok([7u8; 32]));
    for e in [
        argon2::Error::PwdTooLong,
        argon2::Error::SaltTooShort,
        argon2::Error::SaltTooLong,
        argon2::Error::MemoryTooMuch,
        argon2::Error::MemoryTooLittle,
        argon2::Error::OutputTooShort,
    ] {
        assert_eq!(key_or_failure(Err(e)), Err(VaultError::DerivationFailure));
    }
}

#[test]
fn derivation_with_more_lanes_and_memory() {
    let params = CostParams { m_cost: 256, t_cost: 2, p_cost: 4 };
    let salt = b"0123456789abcdef";
    let key = derive_key_from_password("hunter2", salt, &params).unwrap();
    let theirs = argon2::Params::new(256, 2, 4, None).unwrap();
    let context = argon2::Argon2::new(argon2::Algorithm::Argon2id, argon2::Version::V0x13, theirs);
    let mut expected = [0u8; 32];
    context.hash_password_into(b"hunter2", salt, &mut expected).unwrap();
    assert_eq!(key, expected);
}
