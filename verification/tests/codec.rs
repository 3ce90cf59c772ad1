use pwdeck::codec::{decode_schema, encode_schema};
use pwdeck::password::Entry;
use pwdeck::security::{SecString, SecVec};
use pwdeck::vault::VaultSchema;

fn sample_schema() -> VaultSchema {
    VaultSchema {
        passwords: vec![
            (
                String::from("mail"),
                vec![Entry::new("alice", "pw1"), Entry::new("bob", "pw2")],
            ),
            (String::from("bank"), vec![Entry::new("carol", "pw3")]),
        ],
    }
}

#[test]
fn payload_round_trip() {
    let schema = sample_schema();
    let bytes = encode_schema(&schema);
    let decoded = decode_schema(&bytes).expect("a fresh encoding must decode");

    assert_eq!(decoded.passwords.len(), schema.passwords.len());
    for (og, rg) in schema.passwords.iter().zip(decoded.passwords.iter()) {
        assert_eq!(og.0, rg.0);
        assert_eq!(og.1.len(), rg.1.len());
        for (oe, re) in og.1.iter().zip(rg.1.iter()) {
            assert!(oe == re);
        }
    }
}

#[test]
fn unicode_survives_the_payload() {
    let schema = VaultSchema {
        passwords: vec![(
            String::from("caf\u{e9} \u{1f512}"),
            vec![Entry::new("\u{3042}", "p\u{e4}ss")],
        )],
    };
    let bytes = encode_schema(&schema);
    let decoded = decode_schema(&bytes).unwrap();
    assert_eq!(decoded.passwords[0].0, "caf\u{e9} \u{1f512}");
    assert_eq!(decoded.passwords[0].1[0].name().as_str(), "\u{3042}");
    assert_eq!(decoded.passwords[0].1[0].password().expose().as_str(), "p\u{e4}ss");
}

#[test]
fn duplicate_group_names_are_rejected() {
    let schema = VaultSchema {
        passwords: vec![
            (String::from("dup"), vec![Entry::new("a", "x")]),
            (String::from("dup"), vec![Entry::new("b", "y")]),
        ],
    };
    let bytes = encode_schema(&schema);
    assert!(decode_schema(&bytes).is_none());
}

#[test]
fn malformed_payloads_are_rejected() {
    assert!(decode_schema(&[]).is_none());
    assert!(decode_schema(&[1, 2, 3]).is_none());

    let schema = sample_schema();
    let mut bytes = encode_schema(&schema);
    bytes.push(0);
    assert!(decode_schema(&bytes).is_none(), "trailing bytes must be rejected");

    let bytes = encode_schema(&schema);
    assert!(decode_schema(&bytes[..bytes.len() - 1]).is_none(), "truncation must be rejected");
}

#[test]
fn secure_buffers_pass_values_through() {
    let s = SecString::new(String::from("secret"));
    assert_eq!(s.expose().as_str(), "secret");
    assert!(!s.is_empty());
    assert!(s == SecString::from(String::from("secret")));

    let mut s = s;
    s.erase();
    assert!(s.is_empty());

    let v = SecVec::new(vec![1u8, 2, 3]);
    assert_eq!(v.len(), 3);
    assert_eq!(v.expose(), &vec![1u8, 2, 3]);
    let mut v = v;
    v.erase();
    assert_eq!(v.len(), 0);
}
