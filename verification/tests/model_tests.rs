use std::collections::HashSet;

use kinto_integrity::asn1::{parse_issuers, parse_name};
use kinto_integrity::errors::Error;
use kinto_integrity::model::{
    CCADBEntry, CCADBReport, Intermediary, Kinto, KintoEntry, Return, Revocations,
    RevocationsEntry,
};
use kinto_integrity::storage::{CertStorage, IssuerSerial};

const OID_CN: [u8; 3] = [0x55, 0x04, 0x03];
const OID_ORG: [u8; 3] = [0x55, 0x04, 0x0a];

fn tlv(tag: u8, content: &[u8]) -> Vec<u8> {
    assert!(content.len() < 0x80);
    let mut v = vec![tag, content.len() as u8];
    v.extend_from_slice(content);
    v
}

fn atv(oid: &[u8], value: &[u8]) -> Vec<u8> {
    let mut inner = tlv(0x06, oid);
    inner.extend_from_slice(&tlv(0x13, value));
    tlv(0x30, &inner)
}

fn name_der(attrs: &[(&[u8], &[u8])]) -> Vec<u8> {
    let mut content = Vec::new();
    for (oid, value) in attrs {
        content.extend_from_slice(&tlv(0x31, &atv(oid, value)));
    }
    tlv(0x30, &content)
}

fn name_b64(common_name: &str, organization: &str) -> String {
    base64::encode(&name_der(&[
        (&OID_CN, common_name.as_bytes()),
        (&OID_ORG, organization.as_bytes()),
    ]))
}

fn record(common_name: &str, organization: &str, serial: &str) -> Intermediary {
    Intermediary {
        common_name: common_name.to_string(),
        organization: organization.to_string(),
        serial: serial.to_string(),
    }
}

fn as_set(v: &[Intermediary]) -> HashSet<Intermediary> {
    v.iter().cloned().collect()
}

#[test]
fn parse_name_extracts_both_attributes() {
    let der = name_der(&[(&OID_CN, b"Foo"), (&OID_ORG, b"Bar")]);
    let issuer = parse_name(&der).unwrap();
    assert_eq!(issuer.common_name, "Foo");
    assert_eq!(issuer.organization, "Bar");
}

#[test]
fn parse_name_defaults_missing_attributes_to_empty() {
    let der = name_der(&[(&OID_CN, b"Only CN")]);
    let issuer = parse_name(&der).unwrap();
    assert_eq!(issuer.common_name, "Only CN");
    assert_eq!(issuer.organization, "");
}

#[test]
fn parse_name_ignores_other_attributes() {
    let der = name_der(&[(&[0x55, 0x04, 0x0b], b"Unit"), (&OID_CN, b"CN")]);
    let issuer = parse_name(&der).unwrap();
    assert_eq!(issuer.common_name, "CN");
    assert_eq!(issuer.organization, "");
}

#[test]
fn parse_name_decodes_multibyte_utf8() {
    let der = name_der(&[(&OID_CN, "Caf\u{e9}".as_bytes())]);
    let issuer = parse_name(&der).unwrap();
    assert_eq!(issuer.common_name, "Caf\u{e9}");
}

#[test]
fn parse_name_rejects_malformed_input() {
    assert_eq!(parse_name(&[]).unwrap_err(), Error::NameParseFailure);
    // not a SEQUENCE at the top
    let der = name_der(&[(&OID_CN, b"Foo")]);
    let mut wrong = der.clone();
    wrong[0] = 0x31;
    assert_eq!(parse_name(&wrong).unwrap_err(), Error::NameParseFailure);
    // trailing garbage after the outer element
    let mut trailing = der.clone();
    trailing.push(0x00);
    assert_eq!(parse_name(&trailing).unwrap_err(), Error::NameParseFailure);
    // bytes that are not valid UTF-8 in the attribute value
    let bad = name_der(&[(&OID_CN, &[0xff, 0xfe])]);
    assert_eq!(parse_name(&bad).unwrap_err(), Error::NameParseFailure);
}

#[test]
fn parse_issuers_keeps_positions() {
    let names = vec![name_b64("First", "One"), name_b64("Second", "Two")];
    let issuers = parse_issuers(&names).unwrap();
    assert_eq!(issuers.len(), 2);
    assert_eq!(issuers[0].common_name, "First");
    assert_eq!(issuers[0].organization, "One");
    assert_eq!(issuers[1].common_name, "Second");
    assert_eq!(issuers[1].organization, "Two");
}

#[test]
fn parse_issuers_fails_whole_batch() {
    let names = vec![name_b64("Good", "Org"), "!!! not base64 !!!".to_string()];
    assert_eq!(parse_issuers(&names).unwrap_err(), Error::NameParseFailure);
}

#[test]
fn storage_records_become_canonical() {
    let cs = CertStorage {
        data: vec![
            IssuerSerial {
                issuer_name: name_b64("Root", "Org"),
                serial: "AQI=".to_string(),
            },
            IssuerSerial {
                issuer_name: name_b64("Root", "Org"),
                serial: "AQM=".to_string(),
            },
        ],
    };
    let out = cs.to_intermediaries().unwrap();
    assert_eq!(
        as_set(&out),
        as_set(&[record("Root", "Org", "AQI="), record("Root", "Org", "AQM=")])
    );
}

#[test]
fn kinto_records_become_canonical_and_collapse() {
    let kinto = Kinto {
        data: vec![
            KintoEntry {
                issuer_name: name_b64("Root", "Org"),
                serial_number: "AQI=".to_string(),
            },
            KintoEntry {
                issuer_name: name_b64("Root", "Org"),
                serial_number: "AQI=".to_string(),
            },
        ],
    };
    let out = kinto.to_intermediaries().unwrap();
    assert_eq!(out.len(), 1);
    assert_eq!(out[0], record("Root", "Org", "AQI="));
}

#[test]
fn revocations_fan_out_over_serials() {
    let revocations = Revocations {
        data: vec![RevocationsEntry {
            issuer_name: name_b64("Root", "Org"),
            serials: vec!["AA==".to_string(), "AQ==".to_string(), "Ag==".to_string()],
        }],
    };
    let out = revocations.to_intermediaries().unwrap();
    assert_eq!(
        as_set(&out),
        as_set(&[
            record("Root", "Org", "AA=="),
            record("Root", "Org", "AQ=="),
            record("Root", "Org", "Ag=="),
        ])
    );
}

#[test]
fn ccadb_serial_is_reencoded() {
    let report = CCADBReport {
        report: vec![CCADBEntry {
            certificate_issuer_common_name: "Root".to_string(),
            certificate_issuer_organization: "Org".to_string(),
            certificate_serial_number: "0A1B".to_string(),
        }],
    };
    let out = report.to_intermediaries().unwrap();
    assert_eq!(out.len(), 1);
    assert_eq!(out[0].serial, base64::encode(&[0x0au8, 0x1b]));
    assert_eq!(out[0].serial, "Chs=");
}

#[test]
fn ccadb_rejects_bad_hex() {
    let report = CCADBReport {
        report: vec![CCADBEntry {
            certificate_issuer_common_name: "Root".to_string(),
            certificate_issuer_organization: "Org".to_string(),
            certificate_serial_number: "0A1".to_string(),
        }],
    };
    assert_eq!(report.to_intermediaries().unwrap_err(), Error::BadSerialHex);
}

#[test]
fn equal_sets_give_empty_differences() {
    let issuer = name_b64("Root", "Org");
    let cs = CertStorage {
        data: vec![IssuerSerial {
            issuer_name: issuer.clone(),
            serial: "AQI=".to_string(),
        }],
    };
    let kinto = Kinto {
        data: vec![KintoEntry {
            issuer_name: issuer.clone(),
            serial_number: "AQI=".to_string(),
        }],
    };
    let revocations = Revocations {
        data: vec![RevocationsEntry {
            issuer_name: issuer,
            serials: vec!["AQI=".to_string()],
        }],
    };
    let ret = Return::from_with_revocations(&cs, &kinto, &revocations).unwrap();
    assert!(ret.in_kinto_not_in_cert_storage.unwrap().is_empty());
    assert!(ret.in_cert_storage_not_in_kinto.unwrap().is_empty());
    assert!(ret.in_cert_storage_not_in_revocations.unwrap().is_empty());
    assert!(ret.in_revocations_not_in_cert_storage.unwrap().is_empty());
    assert!(ret.in_revocations_not_in_kinto.unwrap().is_empty());
    assert!(ret.in_kinto_not_in_revocations.unwrap().is_empty());
    assert!(ret.in_ccadb_not_in_cert_storage.is_none());
    assert!(ret.in_cert_storage_not_in_ccadb.is_none());
}

#[test]
fn two_way_differences_are_directional() {
    let cs = CertStorage {
        data: vec![
            IssuerSerial {
                issuer_name: name_b64("Shared", "Org"),
                serial: "AQ==".to_string(),
            },
            IssuerSerial {
                issuer_name: name_b64("StoreOnly", "Org"),
                serial: "Ag==".to_string(),
            },
        ],
    };
    let kinto = Kinto {
        data: vec![
            KintoEntry {
                issuer_name: name_b64("Shared", "Org"),
                serial_number: "AQ==".to_string(),
            },
            KintoEntry {
                issuer_name: name_b64("FeedOnly", "Org"),
                serial_number: "Aw==".to_string(),
            },
        ],
    };
    let ret = Return::from_without_revocations(&cs, &kinto).unwrap();
    let in_kinto = ret.in_kinto_not_in_cert_storage.unwrap();
    assert_eq!(as_set(&in_kinto), as_set(&[record("FeedOnly", "Org", "Aw==")]));
    let in_store = ret.in_cert_storage_not_in_kinto.unwrap();
    assert_eq!(as_set(&in_store), as_set(&[record("StoreOnly", "Org", "Ag==")]));
    assert!(ret.in_cert_storage_not_in_revocations.is_none());
    assert!(ret.in_revocations_not_in_cert_storage.is_none());
    assert!(ret.in_revocations_not_in_kinto.is_none());
    assert!(ret.in_kinto_not_in_revocations.is_none());
    assert!(ret.in_ccadb_not_in_cert_storage.is_none());
    assert!(ret.in_cert_storage_not_in_ccadb.is_none());
}

#[test]
fn ccadb_comparison_fills_only_its_fields() {
    let cs = CertStorage {
        data: vec![IssuerSerial {
            issuer_name: name_b64("Root", "Org"),
            serial: base64::encode(&[0x0au8, 0x1b]),
        }],
    };
    let report = CCADBReport {
        report: vec![CCADBEntry {
            certificate_issuer_common_name: "Root".to_string(),
            certificate_issuer_organization: "Org".to_string(),
            certificate_serial_number: "0A1B".to_string(),
        }],
    };
    let ret = Return::from_ccadb(&cs, &report).unwrap();
    assert!(ret.in_ccadb_not_in_cert_storage.unwrap().is_empty());
    assert!(ret.in_cert_storage_not_in_ccadb.unwrap().is_empty());
    assert!(ret.in_kinto_not_in_cert_storage.is_none());
    assert!(ret.in_cert_storage_not_in_kinto.is_none());
}

#[test]
fn three_way_comparison_fails_on_bad_issuer() {
    let cs = CertStorage {
        data: vec![IssuerSerial {
            issuer_name: "@@@".to_string(),
            serial: "AQ==".to_string(),
        }],
    };
    let kinto = Kinto { data: vec![] };
    let revocations = Revocations { data: vec![] };
    assert_eq!(
        Return::from_with_revocations(&cs, &kinto, &revocations).unwrap_err(),
        Error::NameParseFailure
    );
}

#[test]
fn differently_labelled_duplicates_collapse() {
    let kinto = Kinto {
        data: vec![
            KintoEntry {
                issuer_name: name_b64("Root", "Org"),
                serial_number: "AQ==".to_string(),
            },
            KintoEntry {
                issuer_name: name_b64("Root", "Org"),
                serial_number: "AQ==".to_string(),
            },
        ],
    };
    let out = kinto.to_intermediaries().unwrap();
    assert_eq!(out.len(), 1);
}

#[test]
fn smoke_from_revocations() {
    let rev = Revocations {
        data: vec![RevocationsEntry {
            issuer_name: name_b64("Smoke", "Org"),
            serials: vec!["AQ==".to_string(), "Ag==".to_string()],
        }],
    };
    let int: Vec<Intermediary> = rev.to_intermediaries().unwrap();
    println!("int = {:#?}", int);
}

#[test]
fn smoke_from_kinto() {
    let kinto = Kinto {
        data: vec![KintoEntry {
            issuer_name: name_b64("Smoke", "Org"),
            serial_number: "AQ==".to_string(),
        }],
    };
    let int: Vec<Intermediary> = kinto.to_intermediaries().unwrap();
    println!("int = {:#?}", int);
}

#[test]
fn differences_and_intersection_partition_the_union() {
    let a = vec![
        record("A", "O", "AQ=="),
        record("B", "O", "Ag=="),
        record("C", "O", "Aw=="),
    ];
    let b = vec![record("B", "O", "Ag=="), record("D", "O", "BA==")];
    let a_not_b = kinto_integrity::model::difference(&a, &b);
    let b_not_a = kinto_integrity::model::difference(&b, &a);
    let a_set = as_set(&a);
    let b_set = as_set(&b);
    let both: HashSet<Intermediary> = a_set.intersection(&b_set).cloned().collect();
    let mut rebuilt: HashSet<Intermediary> = as_set(&a_not_b);
    rebuilt.extend(both);
    rebuilt.extend(as_set(&b_not_a));
    let union: HashSet<Intermediary> = a_set.union(&b_set).cloned().collect();
    assert_eq!(rebuilt, union);
    let clash: Vec<Intermediary> = as_set(&a_not_b)
        .intersection(&as_set(&b_not_a))
        .cloned()
        .collect();
    assert!(clash.is_empty());
}
