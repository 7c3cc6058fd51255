use aidb::cipher::{apply_keystream, check_value};
use aidb::codec::{check_password, decode_database, encode_database, DbError};

const SECRET_CHECK: [u8; 16] = [54, 10, 92, 50, 129, 45, 240, 238, 11, 192, 194, 189, 43, 54, 131, 12];

#[test]
fn short_inputs_are_too_small() {
    for n in 0..24usize {
        let b = vec![0u8; n];
        assert_eq!(decode_database(&b, "secret"), Err(DbError::TooSmall));
    }
    let mut almost = encode_database(&b"[]".to_vec(), "secret");
    almost.truncate(23);
    assert_eq!(decode_database(&almost, "secret"), Err(DbError::TooSmall));
}

#[test]
fn missing_magic_is_bad_format() {
    for n in [24usize, 25, 100] {
        let b = vec![7u8; n];
        assert_eq!(decode_database(&b, "secret"), Err(DbError::BadFormat));
    }
    let mut b = encode_database(&b"[]".to_vec(), "secret");
    b[0] = b'A';
    assert_eq!(decode_database(&b, "secret"), Err(DbError::BadFormat));
}

#[test]
fn length_field_must_match_payload() {
    let mut b = encode_database(&b"[1,2,3]".to_vec(), "secret");
    b.push(0);
    assert_eq!(decode_database(&b, "secret"), Err(DbError::SizeMismatch));
    let mut c = encode_database(&b"[1,2,3]".to_vec(), "secret");
    c[7] = 99;
    assert_eq!(decode_database(&c, "secret"), Err(DbError::SizeMismatch));
}

#[test]
fn round_trip_gives_payload_back() {
    let plain = br#"[{"id":"1","title":"bank","user":"u","pass":"p","url":"","notes":""}]"#.to_vec();
    let b = encode_database(&plain, "secret");
    assert_eq!(decode_database(&b, "secret"), Ok(plain));
}

#[test]
fn round_trip_of_empty_payload() {
    let b = encode_database(&Vec::new(), "");
    assert_eq!(b.len(), 24);
    assert_eq!(decode_database(&b, ""), Ok(Vec::new()));
}

#[test]
fn wrong_password_is_refused() {
    let b = encode_database(&b"[]".to_vec(), "secret");
    assert_eq!(decode_database(&b, "Secret"), Err(DbError::WrongPassword));
    assert_eq!(decode_database(&b, ""), Err(DbError::WrongPassword));
}

#[test]
fn header_layout() {
    let plain = vec![0x5au8; 300];
    let b = encode_database(&plain, "secret");
    assert_eq!(&b[0..4], b"aidb");
    assert_eq!(&b[4..8], &[0u8, 0, 1, 44]);
    assert_eq!(&b[8..24], &SECRET_CHECK);
    assert_eq!(b.len(), 324);
    assert_ne!(&b[24..], &plain[..]);
}

#[test]
fn check_value_is_md5_of_password_and_fixed_text() {
    assert_eq!(check_value("secret"), SECRET_CHECK.to_vec());
    assert_eq!(
        check_value("correct"),
        vec![251u8, 121, 22, 2, 153, 72, 171, 163, 109, 134, 60, 208, 75, 169, 170, 121]
    );
}

#[test]
fn keystream_matches_aes_ctr() {
    let mut d = b"0123456789abcdef".to_vec();
    apply_keystream("secret", &mut d);
    assert_eq!(d, vec![244u8, 85, 100, 101, 224, 25, 158, 82, 96, 234, 8, 13, 128, 190, 8, 174]);
    apply_keystream("secret", &mut d);
    assert_eq!(d, b"0123456789abcdef".to_vec());
    let b = encode_database(&b"[]".to_vec(), "secret");
    assert_eq!(&b[24..], &[159u8, 57]);
}

#[test]
fn check_password_reads_header_only() {
    let b = encode_database(&b"[1]".to_vec(), "secret");
    let head = b[..24].to_vec();
    assert_eq!(check_password(&head, b.len() as u64, "secret"), Ok(true));
    assert_eq!(check_password(&head, b.len() as u64, "other"), Ok(false));
    assert_eq!(check_password(&head, 20, "secret"), Err(DbError::TooSmall));
    assert_eq!(check_password(&head, b.len() as u64 + 1, "secret"), Err(DbError::SizeMismatch));
    let mut bad = head.clone();
    bad[1] = 0;
    assert_eq!(check_password(&bad, b.len() as u64, "secret"), Err(DbError::BadFormat));
}
