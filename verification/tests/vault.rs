use pwdeck::error::PwdError;
use pwdeck::password::Entry;
use pwdeck::vault::{Vault, HEADER_SIZE, NONCE_SIZE};

const VAULT_PASSWD: &str = "123";

fn test_vault() -> Vault {
    let mut vault = Vault::new(VAULT_PASSWD);

    vault
        .insert_entry("Reddit", Entry::new("user1", "321foo"))
        .unwrap();
    vault
        .insert_entry("Reddit", Entry::new("user2", "123bar"))
        .unwrap();
    vault
        .insert_entry("Github", Entry::new("foo@email.com", "baz"))
        .unwrap();
    vault
        .insert_entry("Google", Entry::new("main", "password"))
        .unwrap();
    vault
        .insert_entry("Google", Entry::new("secondary", "password"))
        .unwrap();

    vault
}

#[test]
fn insert_entry() {
    let vault = test_vault();

    println!("{:#?}", vault.schema().passwords.len());
    assert_eq!(vault.schema().passwords.len(), 3);
}

#[test]
fn insert_appends_in_order() {
    let vault = test_vault();
    let groups = &vault.schema().passwords;

    assert_eq!(groups[0].0, "Reddit");
    assert_eq!(groups[1].0, "Github");
    assert_eq!(groups[2].0, "Google");
    assert_eq!(groups[0].1.len(), 2);
    assert_eq!(groups[0].1[0].name().as_str(), "user1");
    assert_eq!(groups[0].1[1].name().as_str(), "user2");
    assert_eq!(groups[2].1[0].name().as_str(), "main");
    assert_eq!(groups[2].1[1].name().as_str(), "secondary");
}

#[test]
fn empty_password() {
    let mut vault = Vault::new(VAULT_PASSWD);
    let entry = Entry::new("test", "");

    assert!(vault.insert_entry("Test", entry).is_err());
    assert_eq!(vault.schema().passwords.len(), 0);
}

#[test]
fn sync_file() {
    let vault = test_vault();
    let mut pwdeck_file: Vec<u8> = Vec::new();

    assert!(vault.sync(&mut pwdeck_file).is_ok());
    assert!(pwdeck_file.len() > HEADER_SIZE);
}

#[test]
fn retrieve_vault() {
    let vault = test_vault();
    let mut pwdeck_file: Vec<u8> = Vec::new();
    vault.sync(&mut pwdeck_file).unwrap();

    let retrieved = Vault::from_file(&pwdeck_file, VAULT_PASSWD);
    assert!(retrieved.is_ok());
    let retrieved = retrieved.unwrap();

    println!("{:#?}", retrieved.schema().passwords.len());
    assert_eq!(retrieved.schema().passwords.len(), 3);

    let original = &vault.schema().passwords;
    let recovered = &retrieved.schema().passwords;
    for (og, rg) in original.iter().zip(recovered.iter()) {
        assert_eq!(og.0, rg.0);
        assert_eq!(og.1.len(), rg.1.len());
        for (oe, re) in og.1.iter().zip(rg.1.iter()) {
            assert!(oe == re, "entry changed across the round trip");
        }
    }
}

#[test]
fn retrieve_wrong_password() {
    let vault = test_vault();
    let mut pwdeck_file: Vec<u8> = Vec::new();
    vault.sync(&mut pwdeck_file).unwrap();

    let result = Vault::from_file(&pwdeck_file, "Wrong password");
    assert!(matches!(result, Err(PwdError::AuthenticationFailed)));
}

#[test]
fn tamper_detection() {
    let vault = test_vault();
    let mut pwdeck_file: Vec<u8> = Vec::new();
    vault.sync(&mut pwdeck_file).unwrap();

    let ciphertext_len = pwdeck_file.len() - HEADER_SIZE;
    let offsets = [0, ciphertext_len / 2, ciphertext_len - 1];
    for &offset in offsets.iter() {
        for bit in 0..8 {
            let mut tampered = pwdeck_file.clone();
            tampered[HEADER_SIZE + offset] ^= 1u8 << bit;
            let result = Vault::from_file(&tampered, VAULT_PASSWD);
            assert!(
                matches!(result, Err(PwdError::AuthenticationFailed)),
                "bit flip at ciphertext byte {} bit {} was not detected",
                offset,
                bit
            );
        }
    }
}

#[test]
fn nonce_uniqueness() {
    let vault = test_vault();
    for _ in 0..3 {
        let mut first: Vec<u8> = Vec::new();
        let mut second: Vec<u8> = Vec::new();
        vault.sync(&mut first).unwrap();
        vault.sync(&mut second).unwrap();
        let first_nonce = &first[9..9 + NONCE_SIZE];
        let second_nonce = &second[9..9 + NONCE_SIZE];
        assert_ne!(first_nonce, second_nonce);
    }
}

#[test]
fn truncated_file_is_io_error() {
    let result = Vault::from_file(&vec![0u8; 10], VAULT_PASSWD);
    assert!(matches!(result, Err(PwdError::IO)));

    let empty: Vec<u8> = Vec::new();
    let result = Vault::from_file(&empty, VAULT_PASSWD);
    assert!(matches!(result, Err(PwdError::IO)));
}

#[test]
fn bad_cost_parameters_are_invalid_vault_file() {
    // A header whose block-size factor is zero: scrypt rejects it before any
    // decryption is attempted.
    let mut file: Vec<u8> = Vec::new();
    file.push(12); // cost exponent
    file.extend_from_slice(&0u32.to_le_bytes()); // block-size factor 0
    file.extend_from_slice(&1u32.to_le_bytes()); // parallelism factor
    file.extend_from_slice(&[0u8; 12]); // nonce
    file.extend_from_slice(&[0u8; 32]); // salt
    file.extend_from_slice(&[0u8; 40]); // some ciphertext

    let result = Vault::from_file(&file, VAULT_PASSWD);
    assert!(matches!(result, Err(PwdError::InvalidVaultFile)));
}

#[test]
fn entry_ids_are_fresh() {
    let first = Entry::new("a", "pw");
    let second = Entry::new("a", "pw");
    assert_eq!(first.id().len(), 21);
    assert_eq!(second.id().len(), 21);
    assert_ne!(first.id(), second.id());
}

#[test]
fn entry_accessors() {
    let entry = Entry::new("alice", "hunter2");
    assert_eq!(entry.name().as_str(), "alice");
    assert_eq!(entry.password().expose().as_str(), "hunter2");
}
