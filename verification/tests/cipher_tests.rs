use gost_cipher::cipher::{round_key, CipherError, Direction, GostCypher};
use std::time::Instant;

fn test_key() -> Vec<u32> {
    vec![
        0xFFFFFFFF, 0x12345678, 0x00120477, 0x77AE441F, 0x81C63123, 0x99DEEEEE, 0x09502978,
        0x68FA3105,
    ]
}

#[test]
fn ghost_task_decrypt_success() {
    let cipher = GostCypher::new();
    let data = 0xb202da8a5342f0ac_u64; // 64-bit block
    let key = test_key();

    let g = 128 * 1024;
    let start = Instant::now();

    for _ in 0..g {
        let _ = cipher.encrypt(data, &key);
    }

    let duration = start.elapsed().as_secs_f64() / g as f64;

    let encrypted = cipher.encrypt(data, &key).unwrap();
    let decrypted = cipher.decrypt(encrypted, &key).unwrap();

    println!("===============================");
    println!("Average time per encryption: {:.10} seconds", duration);
    println!(
        "Text: {:#x}\nCiphertext: {:#x}\nDecrypted text: {:#x}\nMatch: {}",
        data,
        encrypted,
        decrypted,
        data == decrypted
    );
    assert_eq!(data, decrypted);
}

#[test]
fn round_trip_vector_one() {
    let cipher = GostCypher::new();
    let block = 0xFE12847EFE12847E_u64;
    let key = test_key();
    let encrypted = cipher.encrypt(block, &key).unwrap();
    let decrypted = cipher.decrypt(encrypted, &key).unwrap();
    assert_eq!(decrypted, block);
}

#[test]
fn round_trip_vector_two() {
    let cipher = GostCypher::new();
    let block = 0xb202da8a5342f0ac_u64;
    let key = test_key();
    let encrypted = cipher.encrypt(block, &key).unwrap();
    assert_ne!(encrypted, block);
    let decrypted = cipher.decrypt(encrypted, &key).unwrap();
    assert_eq!(decrypted, block);
}

#[test]
fn key_of_length_seven_is_rejected() {
    let cipher = GostCypher::new();
    let key: Vec<u32> = vec![1, 2, 3, 4, 5, 6, 7];
    assert_eq!(
        cipher.encrypt(0xFE12847EFE12847E, &key),
        Err(CipherError::InvalidKeyLength)
    );
    assert_eq!(
        cipher.decrypt(0xFE12847EFE12847E, &key),
        Err(CipherError::InvalidKeyLength)
    );
}

#[test]
fn key_of_length_nine_is_rejected() {
    let cipher = GostCypher::new();
    let key: Vec<u32> = vec![1, 2, 3, 4, 5, 6, 7, 8, 9];
    assert_eq!(
        cipher.encrypt(0xFE12847EFE12847E, &key),
        Err(CipherError::InvalidKeyLength)
    );
    assert_eq!(
        cipher.decrypt(0xFE12847EFE12847E, &key),
        Err(CipherError::InvalidKeyLength)
    );
}

fn standard_rows() -> Vec<Vec<u8>> {
    vec![
        vec![4, 10, 9, 2, 13, 8, 0, 14, 6, 11, 1, 12, 7, 15, 5, 3],
        vec![14, 11, 4, 12, 6, 13, 15, 10, 2, 3, 8, 1, 0, 7, 5, 9],
        vec![5, 8, 1, 13, 10, 3, 4, 2, 14, 15, 12, 7, 6, 0, 9, 11],
        vec![7, 13, 10, 1, 0, 8, 9, 15, 14, 4, 6, 12, 11, 2, 5, 3],
        vec![6, 12, 7, 1, 5, 15, 13, 8, 4, 10, 9, 14, 0, 3, 11, 2],
        vec![4, 11, 10, 0, 7, 2, 1, 13, 3, 6, 8, 5, 9, 12, 15, 14],
        vec![13, 11, 4, 1, 3, 15, 5, 9, 0, 10, 14, 7, 6, 8, 2, 12],
        vec![1, 15, 13, 0, 5, 7, 10, 4, 9, 2, 3, 14, 6, 11, 8, 12],
    ]
}

#[test]
fn table_with_short_row_is_rejected() {
    let mut rows = standard_rows();
    rows[3].pop(); // a row of length 15
    let cipher = GostCypher::with_table(rows);
    assert!(!cipher.table_valid());
    assert_eq!(
        cipher.encrypt(0xFE12847EFE12847E, &test_key()),
        Err(CipherError::InvalidSubstitutionTable)
    );
    assert_eq!(
        cipher.decrypt(0xFE12847EFE12847E, &test_key()),
        Err(CipherError::InvalidSubstitutionTable)
    );
}

#[test]
fn table_with_wide_entry_is_rejected() {
    let mut rows = standard_rows();
    rows[5][9] = 16; // an entry outside the 4-bit range
    let cipher = GostCypher::with_table(rows);
    assert!(!cipher.table_valid());
    assert_eq!(
        cipher.encrypt(0xFE12847EFE12847E, &test_key()),
        Err(CipherError::InvalidSubstitutionTable)
    );
}

#[test]
fn valid_table_is_accepted() {
    let cipher = GostCypher::with_table(standard_rows());
    assert!(cipher.table_valid());
    let block = 0xFE12847EFE12847E_u64;
    let key = test_key();
    let encrypted = cipher.encrypt(block, &key).unwrap();
    assert_eq!(cipher.decrypt(encrypted, &key).unwrap(), block);
}

#[test]
fn substitution_is_deterministic() {
    let cipher = GostCypher::new();
    let word = 0xDEADBEEF_u32;
    assert_eq!(cipher.s(word), cipher.s(word));
}

#[test]
fn substitution_of_zero_packs_first_entries() {
    let cipher = GostCypher::new();
    // Entry 0 of each row, packed nibble by nibble: 4, 14, 5, 7, 6, 4, 13, 1.
    assert_eq!(cipher.s(0), 0x1D4675E4);
}

#[test]
fn substitution_selects_by_nibble() {
    let cipher = GostCypher::new();
    // Nibble i of the input is i, so row i is read at entry i.
    assert_eq!(cipher.s(0x76543210), 0x452511B4);
}

#[test]
fn rotation_round_trip() {
    for &word in &[0_u32, 1, 0xFFFFFFFF, 0x12345678, 0x80000001, 0xDEADBEEF] {
        let left = (word << 11) | (word >> 21);
        let back = (left >> 11) | (left << 21);
        assert_eq!(back, word);
    }
}

#[test]
fn key_schedule_is_reversed_for_decryption() {
    let key = test_key();
    for i in 0..32 {
        assert_eq!(
            round_key(i, Direction::Decrypt, &key),
            round_key(31 - i, Direction::Encrypt, &key)
        );
    }
}

#[test]
fn key_schedule_values() {
    let key = test_key();
    // Encryption: the eight keys in order three times, then reversed once.
    for i in 0..24 {
        assert_eq!(round_key(i, Direction::Encrypt, &key), key[i % 8]);
    }
    for i in 24..32 {
        assert_eq!(round_key(i, Direction::Encrypt, &key), key[7 - i % 8]);
    }
    // Decryption: the eight keys in order once, then reversed three times.
    for i in 0..8 {
        assert_eq!(round_key(i, Direction::Decrypt, &key), key[i]);
    }
    for i in 8..32 {
        assert_eq!(round_key(i, Direction::Decrypt, &key), key[7 - i % 8]);
    }
}

#[test]
fn encryption_round_swaps_halves() {
    let cipher = GostCypher::new();
    let (left, right) = (0x01234567, 0x89ABCDEF);
    let k = 0x5A5A5A5A;
    let (new_left, new_right) = cipher.encryption_round(left, right, k);
    assert_eq!(new_left, right);
    assert_eq!(new_right, left ^ cipher.f(right, k));
    // The decryption round undoes it.
    let (back_left, back_right) = cipher.decryption_round(new_left, new_right, k);
    assert_eq!((back_left, back_right), (left, right));
}
