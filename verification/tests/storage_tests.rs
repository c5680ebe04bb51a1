use kinto_integrity::errors::Error;
use kinto_integrity::der::split_der_key;
use kinto_integrity::storage::{decode, CertStorage, Entry, IssuerSerial};

fn is_key(payload: &[u8]) -> Vec<u8> {
    let mut key = vec![b'i', b's'];
    key.extend_from_slice(payload);
    key
}

fn spk_key(payload: &[u8]) -> Vec<u8> {
    let mut key = vec![b's', b'p', b'k'];
    key.extend_from_slice(payload);
    key
}

#[test]
fn split_two_elements() {
    let key = [0x30u8, 0x03, 0x01, 0x02, 0x03, 0x02, 0x01, 0x09];
    let (first, rest) = split_der_key(&key).unwrap();
    assert_eq!(first, &[0x30u8, 0x03, 0x01, 0x02, 0x03]);
    assert_eq!(rest, &[0x02u8, 0x01, 0x09]);
}

#[test]
fn split_concatenation_is_exact() {
    let first = [0x06u8, 0x03, 0x55, 0x04, 0x03];
    let second = [0x13u8, 0x02, 0x68, 0x69];
    let mut key = first.to_vec();
    key.extend_from_slice(&second);
    let (a, b) = split_der_key(&key).unwrap();
    assert_eq!(a, &first[..]);
    assert_eq!(b, &second[..]);
}

#[test]
fn split_short_form_needs_full_content() {
    let key = [0x30u8, 0x05, 0x01, 0x02];
    assert_eq!(split_der_key(&key).unwrap_err(), Error::KeyTooShort);
    let key = [0x30u8];
    assert_eq!(split_der_key(&key).unwrap_err(), Error::KeyTooShort);
}

#[test]
fn split_indefinite_length_unsupported() {
    let key = [0x30u8, 0x80, 0x00, 0x00];
    assert_eq!(
        split_der_key(&key).unwrap_err(),
        Error::UnsupportedIndefiniteLength
    );
}

#[test]
fn split_one_byte_long_form_non_canonical() {
    let key = [0x30u8, 0x81, 0x05, 0x01, 0x02, 0x03, 0x04, 0x05];
    assert_eq!(split_der_key(&key).unwrap_err(), Error::BadDerLength);
}

#[test]
fn split_one_byte_long_form_at_boundary() {
    let mut key = vec![0x30u8, 0x81, 0x80];
    key.extend_from_slice(&[0xaau8; 0x80]);
    key.extend_from_slice(&[0x02u8, 0x01, 0x07]);
    let (a, b) = split_der_key(&key).unwrap();
    assert_eq!(a.len(), 0x83);
    assert_eq!(b, &[0x02u8, 0x01, 0x07]);
    let short = &key[..0x82];
    assert_eq!(split_der_key(short).unwrap_err(), Error::KeyTooShort);
}

#[test]
fn split_two_byte_long_form_non_canonical() {
    let mut key = vec![0x30u8, 0x82, 0x00, 0xff];
    key.extend_from_slice(&[0xaau8; 0xff]);
    assert_eq!(split_der_key(&key).unwrap_err(), Error::BadDerLength);
}

#[test]
fn split_two_byte_long_form_at_boundary() {
    let mut key = vec![0x30u8, 0x82, 0x01, 0x00];
    key.extend_from_slice(&[0xaau8; 0x100]);
    key.push(0xff);
    let (a, b) = split_der_key(&key).unwrap();
    assert_eq!(a.len(), 0x104);
    assert_eq!(b, &[0xffu8]);
}

#[test]
fn split_length_of_length_too_long() {
    let key = [0x30u8, 0x83, 0x01, 0x02, 0x03];
    assert_eq!(split_der_key(&key).unwrap_err(), Error::KeyTooLong);
    let key = [0x30u8, 0xff, 0x00];
    assert_eq!(split_der_key(&key).unwrap_err(), Error::KeyTooLong);
}

#[test]
fn decode_skips_non_revoked_values() {
    let key = is_key(&[0x02, 0x01, 0x05, 0x02, 0x01, 0x06]);
    assert!(decode(&key, Some(0)).unwrap().is_none());
    assert!(decode(&key, None).unwrap().is_none());
    assert!(decode(&key, Some(2)).unwrap().is_none());
    assert!(decode(&key, Some(-1)).unwrap().is_none());
}

#[test]
fn decode_skips_foreign_prefix() {
    let key = [b'x', b'y', 0x02, 0x01, 0x05];
    assert!(decode(&key, Some(1)).unwrap().is_none());
}

#[test]
fn decode_issuer_serial_entry() {
    let key = is_key(&[0x02, 0x01, 0x05, 0x02, 0x01, 0x06]);
    match decode(&key, Some(1)).unwrap().unwrap() {
        Entry::IssuerSerial { issuer_name, serial } => {
            assert_eq!(issuer_name, base64::encode(&[0x02u8, 0x01, 0x05]));
            assert_eq!(serial, base64::encode(&[0x02u8, 0x01, 0x06]));
        }
        _ => panic!("expected an issuer/serial entry"),
    }
}

#[test]
fn decode_subject_key_hash_entry() {
    let key = spk_key(&[0x04, 0x02, 0x0a, 0x1b, 0x04, 0x01, 0x7f]);
    match decode(&key, Some(1)).unwrap().unwrap() {
        Entry::SubjectKeyHash { subject, key_hash } => {
            assert_eq!(subject, base64::encode(&[0x04u8, 0x02, 0x0a, 0x1b]));
            assert_eq!(key_hash, base64::encode(&[0x04u8, 0x01, 0x7f]));
        }
        _ => panic!("expected a subject/key-hash entry"),
    }
}

#[test]
fn decode_propagates_splitter_failure() {
    let key = is_key(&[0x30, 0x81, 0x05, 0x01, 0x02, 0x03, 0x04, 0x05]);
    assert_eq!(decode(&key, Some(1)).unwrap_err(), Error::BadDerLength);
    assert!(decode(&key, Some(0)).unwrap().is_none());
}

#[test]
fn load_counts_only_revoked_entries() {
    let payload = [0x02u8, 0x01, 0x05, 0x02, 0x01, 0x06];
    let entries = vec![
        (is_key(&payload), Some(0)),
        (is_key(&payload), None),
        (is_key(&payload), Some(7)),
        (is_key(&payload), Some(1)),
    ];
    let cs = CertStorage::from_entries(&entries).unwrap();
    assert_eq!(cs.data.len(), 1);
    assert_eq!(cs.data[0].issuer_name, base64::encode(&[0x02u8, 0x01, 0x05]));
    assert_eq!(cs.data[0].serial, base64::encode(&[0x02u8, 0x01, 0x06]));
}

#[test]
fn load_collapses_equal_records() {
    let payload = [0x02u8, 0x01, 0x05, 0x02, 0x01, 0x06];
    let other = [0x02u8, 0x01, 0x05, 0x02, 0x01, 0x07];
    let entries = vec![
        (is_key(&payload), Some(1)),
        (is_key(&payload), Some(1)),
        (is_key(&other), Some(1)),
    ];
    let cs = CertStorage::from_entries(&entries).unwrap();
    assert_eq!(cs.data.len(), 2);
}

#[test]
fn load_skips_subject_key_hash_records() {
    let payload = [0x02u8, 0x01, 0x05, 0x02, 0x01, 0x06];
    let entries = vec![(spk_key(&payload), Some(1)), (is_key(&payload), Some(1))];
    let cs = CertStorage::from_entries(&entries).unwrap();
    assert_eq!(cs.data.len(), 1);
}

#[test]
fn load_fails_on_first_bad_entry() {
    let good = [0x02u8, 0x01, 0x05, 0x02, 0x01, 0x06];
    let entries = vec![
        (is_key(&good), Some(1)),
        (is_key(&[0x30, 0x80, 0x00]), Some(1)),
        (is_key(&[0x30]), Some(1)),
    ];
    assert_eq!(
        CertStorage::from_entries(&entries).unwrap_err(),
        Error::UnsupportedIndefiniteLength
    );
}

#[test]
fn asdasd() {
    let entries = vec![
        (is_key(&[0x02, 0x01, 0x05, 0x02, 0x01, 0x06]), Some(1)),
        (is_key(&[0x02, 0x01, 0x15, 0x02, 0x01, 0x16]), Some(1)),
    ];
    let c: CertStorage = CertStorage::from_entries(&entries).unwrap();
    for e in c.data {
        println!("{}", e.issuer_name)
    }
}

#[test]
fn records_with_equal_fields_are_equal() {
    let a = IssuerSerial {
        issuer_name: String::from("aWII"),
        serial: String::from("AQ=="),
    };
    let b = IssuerSerial {
        issuer_name: String::from("aWII"),
        serial: String::from("AQ=="),
    };
    assert_eq!(a, b);
}
