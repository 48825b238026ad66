use council::cipher::{open, seal};
use council::codec::{decode, encode};
use council::errors::StoreError;
use council::secret_map::SecretMap;
use council::store::Council;

#[test]
fn seal_then_open_returns_the_plaintext() {
    let sealed = seal("some plaintext", b"pw").unwrap();
    assert_eq!(open(&sealed, b"pw").unwrap(), "some plaintext");
}

#[test]
fn sealing_produces_no_echo_of_the_plaintext() {
    let sealed = seal("some plaintext", b"pw").unwrap();
    assert_ne!(sealed.as_slice(), "some plaintext".as_bytes());
}

#[test]
fn opening_with_a_wrong_password_fails() {
    let sealed = seal("some plaintext", b"first password").unwrap();
    match open(&sealed, b"second password") {
        Err(StoreError::Decryption) => {}
        other => panic!("expected Decryption, got {:?}", other),
    }
}

#[test]
fn opening_a_tampered_container_fails() {
    let mut sealed = seal("some plaintext", b"pw").unwrap();
    let last = sealed.len() - 1;
    sealed[last] ^= 0x01;
    match open(&sealed, b"pw") {
        Err(StoreError::Decryption) => {}
        other => panic!("expected Decryption, got {:?}", other),
    }
}

#[test]
fn opening_garbage_fails() {
    match open(b"not a sealed container", b"pw") {
        Err(StoreError::Decryption) => {}
        other => panic!("expected Decryption, got {:?}", other),
    }
}

#[test]
fn encode_decode_round_trip() {
    let m = SecretMap::from_entries(vec![
        ("a".to_owned(), "1".to_owned()),
        ("quote\"and\\slash".to_owned(), "value with spaces".to_owned()),
        ("empty".to_owned(), "".to_owned()),
    ]);
    let text = encode(&m);
    let decoded = decode(&text).unwrap();
    assert_eq!(decoded.get(&"a".to_owned()).unwrap().as_str(), "1");
    assert_eq!(
        decoded.get(&"quote\"and\\slash".to_owned()).unwrap().as_str(),
        "value with spaces"
    );
    assert_eq!(decoded.get(&"empty".to_owned()).unwrap().as_str(), "");
    assert!(decoded.get(&"missing".to_owned()).is_none());
}

#[test]
fn encode_decode_round_trip_of_the_empty_map() {
    let text = encode(&SecretMap::empty());
    let decoded = decode(&text).unwrap();
    assert!(decoded.get(&"anything".to_owned()).is_none());
}

#[test]
fn encoding_is_a_textual_object_not_the_map_itself() {
    let m = SecretMap::from_entries(vec![("key".to_owned(), "value".to_owned())]);
    let text = encode(&m);
    assert!(text.contains('{'));
    assert!(text.contains("\"key\""));
    assert!(text.contains("\"value\""));
}

#[test]
fn decoding_malformed_text_fails() {
    for bad in ["", "not json at all", "[1, 2]", "{\"k\": 3}", "{\"k\": \"v\""] {
        match decode(bad) {
            Err(StoreError::MalformedStore) => {}
            other => panic!("expected MalformedStore on {:?}, got {:?}", bad, other.map(|_| ())),
        }
    }
}

#[test]
fn secret_map_basics() {
    let mut m = SecretMap::empty();
    assert!(!m.contains_key(&"k".to_owned()));
    m.insert("k".to_owned(), "v1".to_owned());
    assert_eq!(m.get(&"k".to_owned()).unwrap().as_str(), "v1");
    m.insert("k".to_owned(), "v2".to_owned());
    assert_eq!(m.get(&"k".to_owned()).unwrap().as_str(), "v2");
    assert_eq!(m.remove(&"k".to_owned()).unwrap().as_str(), "v2");
    assert!(m.remove(&"k".to_owned()).is_none());
    assert!(m.keys().is_empty());
}

#[test]
fn loading_sealed_non_json_is_malformed() {
    let sealed = seal("this is not a store", b"pw").unwrap();
    match Council::new(Some(sealed), b"pw") {
        Err(StoreError::MalformedStore) => {}
        other => panic!("expected MalformedStore, got {:?}", other.map(|_| ())),
    }
}

#[test]
fn loading_sealed_non_text_is_an_encoding_error() {
    // sealed bytes that decrypt correctly but are not valid UTF-8 text
    let mut cocoon = cocoon::Cocoon::new(b"pw");
    let sealed = cocoon.wrap(&[0xff, 0xfe, 0x00, 0x01]).unwrap();
    match Council::new(Some(sealed), b"pw") {
        Err(StoreError::Encoding) => {}
        other => panic!("expected Encoding, got {:?}", other.map(|_| ())),
    }
}
