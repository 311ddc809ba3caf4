use chacha20poly1305::aead::{Aead, KeyInit};
use rustpass::codec::{
    decrypt_vault, encode_header, encrypt_vault, encrypt_vault_with, parse_header,
    payload_len_fits, push_u32_le, read_u32_le, FORMAT_VERSION, HEADER_LEN,
};
use rustpass::error::VaultError;
use rustpass::kdf::derive_key_from_password;
use rustpass::params::{default_params, CostParams};

fn light() -> CostParams {
    CostParams::new(8, 1, 1).unwrap()
}

fn sample_file(payload: &[u8], password: &str) -> Vec<u8> {
    let mut pw = String::from(password);
    encrypt_vault(payload, &mut pw, &light()).unwrap()
}

#[test]
fn round_trip_returns_the_payload() {
    let payload = b"{\"entries\":[]}".to_vec();
    let file = sample_file(&payload, "correct horse");
    assert_eq!(decrypt_vault(&file, "correct horse"), Ok(payload));
}

#[test]
fn round_trip_of_an_empty_payload() {
    let file = sample_file(b"", "pw");
    assert_eq!(file.len(), 45 + 16);
    assert_eq!(decrypt_vault(&file, "pw"), Ok(Vec::new()));
}

#[test]
fn round_trip_with_a_password_that_is_not_ascii() {
    let payload = vec![0u8, 1, 2, 255, 254];
    let file = sample_file(&payload, "pässwörd ✓");
    assert_eq!(decrypt_vault(&file, "pässwörd ✓"), Ok(payload));
    assert_eq!(decrypt_vault(&file, "passwort"), Err(VaultError::AuthenticationFailure));
}

#[test]
fn round_trip_with_the_default_parameters() {
    let payload = b"secret".to_vec();
    let mut pw = String::from("master");
    let file = encrypt_vault(&payload, &mut pw, &default_params()).unwrap();
    assert_eq!(read_u32_le(&file, 5), 65536);
    assert_eq!(read_u32_le(&file, 9), 3);
    assert_eq!(read_u32_le(&file, 13), 1);
    assert_eq!(decrypt_vault(&file, "master"), Ok(payload));
}

#[test]
fn encrypt_erases_the_password() {
    let mut pw = String::from("to be erased");
    let r = encrypt_vault(b"x", &mut pw, &light());
    assert!(r.is_ok());
    assert!(pw.is_empty());
}

#[test]
fn encrypt_erases_the_password_on_the_error_path() {
    let mut pw = String::from("to be erased");
    let bad = CostParams { m_cost: 1, t_cost: 1, p_cost: 1 };
    assert_eq!(encrypt_vault(b"x", &mut pw, &bad), Err(VaultError::InvalidParameters));
    assert!(pw.is_empty());
}

#[test]
fn wrong_password_is_an_authentication_failure() {
    let file = sample_file(b"payload", "first");
    assert_eq!(decrypt_vault(&file, "second"), Err(VaultError::AuthenticationFailure));
    assert_eq!(decrypt_vault(&file, ""), Err(VaultError::AuthenticationFailure));
    assert_eq!(decrypt_vault(&file, "first "), Err(VaultError::AuthenticationFailure));
}

#[test]
fn every_flipped_bit_of_the_sealed_part_is_an_authentication_failure() {
    let file = sample_file(b"abc", "pw");
    assert_eq!(file.len(), 45 + 3 + 16);
    for at in HEADER_LEN..file.len() {
        for bit in 0..8 {
            let mut tampered = file.clone();
            tampered[at] ^= 1u8 << bit;
            assert_eq!(decrypt_vault(&tampered, "pw"), Err(VaultError::AuthenticationFailure));
        }
    }
    assert_eq!(decrypt_vault(&file, "pw"), Ok(b"abc".to_vec()));
}

#[test]
fn changed_salt_or_nonce_is_an_authentication_failure() {
    let file = sample_file(b"abc", "pw");
    let mut salt_changed = file.clone();
    salt_changed[17] ^= 1;
    assert_eq!(decrypt_vault(&salt_changed, "pw"), Err(VaultError::AuthenticationFailure));
    let mut nonce_changed = file.clone();
    nonce_changed[44] ^= 0x80;
    assert_eq!(decrypt_vault(&nonce_changed, "pw"), Err(VaultError::AuthenticationFailure));
}

#[test]
fn cut_off_tag_is_an_authentication_failure() {
    let file = sample_file(b"abc", "pw");
    assert_eq!(decrypt_vault(&file[..45], "pw"), Err(VaultError::AuthenticationFailure));
    assert_eq!(decrypt_vault(&file[..60], "pw"), Err(VaultError::AuthenticationFailure));
    assert_eq!(
        decrypt_vault(&file[..file.len() - 1], "pw"),
        Err(VaultError::AuthenticationFailure)
    );
}

#[test]
fn two_saves_have_different_salts_and_nonces() {
    let first = sample_file(b"same payload", "same password");
    let second = sample_file(b"same payload", "same password");
    assert_ne!(first[17..33], second[17..33]);
    assert_ne!(first[33..45], second[33..45]);
    assert_ne!(first[45..], second[45..]);
    assert_eq!(first[..17], second[..17]);
}

#[test]
fn salt_and_nonce_are_not_left_at_zero() {
    let file = sample_file(b"p", "pw");
    assert_ne!(file[17..33], [0u8; 16]);
    assert_ne!(file[33..45], [0u8; 12]);
}

#[test]
fn short_files_are_truncated() {
    assert_eq!(decrypt_vault(&[], "pw"), Err(VaultError::TruncatedFile));
    assert_eq!(decrypt_vault(b"RPSS", "pw"), Err(VaultError::TruncatedFile));
    let file = sample_file(b"abc", "pw");
    assert_eq!(decrypt_vault(&file[..44], "pw"), Err(VaultError::TruncatedFile));
    // The length is tested before the magic tag.
    assert_eq!(decrypt_vault(&[0u8; 44], "pw"), Err(VaultError::TruncatedFile));
}

#[test]
fn another_magic_tag_is_refused() {
    let file = sample_file(b"abc", "pw");
    for at in 0..4 {
        let mut other = file.clone();
        other[at] ^= 0x20;
        assert_eq!(decrypt_vault(&other, "pw"), Err(VaultError::BadMagic));
    }
    // The magic tag is tested before the version and the parameters.
    assert_eq!(decrypt_vault(&[0u8; 45], "pw"), Err(VaultError::BadMagic));
}

#[test]
fn another_version_is_refused() {
    let file = sample_file(b"abc", "pw");
    for version in [0u8, 2, 255] {
        let mut other = file.clone();
        other[4] = version;
        assert_eq!(decrypt_vault(&other, "pw"), Err(VaultError::UnsupportedVersion));
    }
    // The version is tested before the parameters.
    let mut other = file.clone();
    other[4] = 2;
    other[5..9].copy_from_slice(&[0, 0, 0, 0]);
    assert_eq!(decrypt_vault(&other, "pw"), Err(VaultError::UnsupportedVersion));
}

#[test]
fn invalid_parameters_in_the_header_are_refused() {
    let file = sample_file(b"abc", "pw");
    let mut low_memory = file.clone();
    low_memory[5..9].copy_from_slice(&7u32.to_le_bytes());
    assert_eq!(decrypt_vault(&low_memory, "pw"), Err(VaultError::InvalidParameters));
    let mut no_pass = file.clone();
    no_pass[9..13].copy_from_slice(&0u32.to_le_bytes());
    assert_eq!(decrypt_vault(&no_pass, "pw"), Err(VaultError::InvalidParameters));
    let mut no_lane = file.clone();
    no_lane[13..17].copy_from_slice(&0u32.to_le_bytes());
    assert_eq!(decrypt_vault(&no_lane, "pw"), Err(VaultError::InvalidParameters));
    let mut lanes = file.clone();
    lanes[13..17].copy_from_slice(&2u32.to_le_bytes());
    assert_eq!(decrypt_vault(&lanes, "pw"), Err(VaultError::InvalidParameters));
    let mut all_ones = file.clone();
    all_ones[5..17].copy_from_slice(&[0xff; 12]);
    assert_eq!(decrypt_vault(&all_ones, "pw"), Err(VaultError::InvalidParameters));
}

#[test]
fn header_has_the_documented_layout() {
    let params = CostParams { m_cost: 0x0102_0304, t_cost: 3, p_cost: 0x00ff_ffff };
    let salt = [0xaau8; 16];
    let nonce = [0xbbu8; 12];
    let header = encode_header(&params, &salt, &nonce);
    let mut expected = vec![b'R', b'P', b'S', b'S', 1];
    expected.extend_from_slice(&[0x04, 0x03, 0x02, 0x01]);
    expected.extend_from_slice(&[3, 0, 0, 0]);
    expected.extend_from_slice(&[0xff, 0xff, 0xff, 0]);
    expected.extend_from_slice(&salt);
    expected.extend_from_slice(&nonce);
    assert_eq!(header, expected);
    assert_eq!(header.len(), HEADER_LEN);
    assert_eq!(FORMAT_VERSION, 1);
}

#[test]
fn parse_header_reads_what_encode_header_wrote() {
    let params = CostParams { m_cost: 4096, t_cost: 2, p_cost: 4 };
    let salt = [7u8; 16];
    let nonce = [9u8; 12];
    let mut file = encode_header(&params, &salt, &nonce);
    file.extend_from_slice(b"sealed bytes");
    let header = parse_header(&file).unwrap();
    assert_eq!(header.params, params);
    assert_eq!(header.salt, salt.to_vec());
    assert_eq!(header.nonce, nonce.to_vec());
}

#[test]
fn parse_header_reports_each_error() {
    assert_eq!(parse_header(&[0u8; 10]).unwrap_err(), VaultError::TruncatedFile);
    assert_eq!(parse_header(&[0u8; 45]).unwrap_err(), VaultError::BadMagic);
    let mut file = encode_header(&light(), &[0; 16], &[0; 12]);
    file[4] = 9;
    assert_eq!(parse_header(&file).unwrap_err(), VaultError::UnsupportedVersion);
    let bad = CostParams { m_cost: 8, t_cost: 1, p_cost: 2 };
    let file = encode_header(&bad, &[0; 16], &[0; 12]);
    assert_eq!(parse_header(&file).unwrap_err(), VaultError::InvalidParameters);
}

#[test]
fn u32_is_written_and_read_least_significant_byte_first() {
    let mut out = vec![0xee];
    push_u32_le(&mut out, 0x1234_5678);
    assert_eq!(out, vec![0xee, 0x78, 0x56, 0x34, 0x12]);
    assert_eq!(read_u32_le(&out, 1), 0x1234_5678);
    let mut out = Vec::new();
    push_u32_le(&mut out, u32::MAX);
    push_u32_le(&mut out, 0);
    push_u32_le(&mut out, 65536);
    assert_eq!(out, vec![255, 255, 255, 255, 0, 0, 0, 0, 0, 0, 1, 0]);
    assert_eq!(read_u32_le(&out, 0), u32::MAX);
    assert_eq!(read_u32_le(&out, 4), 0);
    assert_eq!(read_u32_le(&out, 8), 65536);
    for x in [0u32, 1, 255, 256, 65535, 65536, 0x00ff_ffff, 0x0100_0000, 0xdead_beef] {
        let mut out = Vec::new();
        push_u32_le(&mut out, x);
        assert_eq!(out, x.to_le_bytes().to_vec());
        assert_eq!(read_u32_le(&out, 0), x);
    }
}

#[test]
fn encoding_under_given_salt_and_nonce_is_repeatable() {
    let salt = [1u8; 16];
    let nonce = [2u8; 12];
    let first = encrypt_vault_with(b"payload", "pw", &light(), &salt, &nonce).unwrap();
    let second = encrypt_vault_with(b"payload", "pw", &light(), &salt, &nonce).unwrap();
    assert_eq!(first, second);
    assert_eq!(first[..45], encode_header(&light(), &salt, &nonce)[..]);
    assert_eq!(first.len(), 45 + 7 + 16);
    assert_eq!(decrypt_vault(&first, "pw"), Ok(b"payload".to_vec()));
    let other_nonce = encrypt_vault_with(b"payload", "pw", &light(), &salt, &[3u8; 12]).unwrap();
    assert_ne!(first[45..], other_nonce[45..]);
    let other_salt = encrypt_vault_with(b"payload", "pw", &light(), &[4u8; 16], &nonce).unwrap();
    assert_ne!(first[45..], other_salt[45..]);
}

#[test]
fn sealed_part_is_what_the_cipher_makes_under_the_derived_key() {
    let salt = [5u8; 16];
    let nonce = [6u8; 12];
    let payload = b"the payload, in the clear";
    let file = encrypt_vault_with(payload, "pw", &light(), &salt, &nonce).unwrap();
    assert_ne!(&file[45..45 + payload.len()], &payload[..]);
    let key = derive_key_from_password("pw", &salt, &light()).unwrap();
    let cipher = chacha20poly1305::ChaCha20Poly1305::new(chacha20poly1305::Key::from_slice(&key));
    let sealed = cipher
        .encrypt(chacha20poly1305::Nonce::from_slice(&nonce), &payload[..])
        .unwrap();
    assert_eq!(file[45..], sealed[..]);
    let opened = cipher
        .decrypt(chacha20poly1305::Nonce::from_slice(&nonce), &file[45..])
        .unwrap();
    assert_eq!(opened, payload.to_vec());
}

#[test]
fn encoding_with_invalid_parameters_fails() {
    let bad = CostParams { m_cost: 8, t_cost: 0, p_cost: 1 };
    assert_eq!(
        encrypt_vault_with(b"p", "pw", &bad, &[0; 16], &[0; 12]),
        Err(VaultError::InvalidParameters)
    );
}

#[test]
fn payload_length_limit() {
    assert!(payload_len_fits(0));
    assert!(payload_len_fits(1 << 20));
    assert!(!payload_len_fits(usize::MAX));
    assert!(!payload_len_fits(isize::MAX as usize));
    assert!(!payload_len_fits(isize::MAX as usize - 60));
    // The cipher takes 2^32 - 2 blocks of 64 bytes and not one byte more.
    let limit: u64 = 64 * (u32::MAX as u64 - 1);
    assert_eq!(limit, 274_877_906_816);
    if (usize::MAX as u64) > limit {
        assert!(payload_len_fits((limit - 1) as usize));
        assert!(payload_len_fits(limit as usize));
        assert!(!payload_len_fits((limit + 1) as usize));
        assert!(!payload_len_fits((limit + 63) as usize));
        assert!(!payload_len_fits((limit + 64) as usize));
    }
}
