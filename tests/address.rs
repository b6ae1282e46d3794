use group::{Group, GroupEncoding};
use pasta_curves::pallas;
use zeos_orchard::address::Address;

fn valid_key() -> [u8; 32] {
    pallas::Point::generator().to_bytes()
}

#[test]
fn test_bech32m_encode_decode() {
    let a = Address::from_parts([7u8; 11], valid_key());
    let encoded = a.to_bech32m();
    let decoded = Address::from_bech32m(&encoded).unwrap();
    assert_eq!(a.to_raw_address_bytes(), decoded.to_raw_address_bytes());
}

#[test]
fn bech32m_round_trip_for_random_addresses() {
    let mut rng = rand::rngs::OsRng;
    for _ in 0..8 {
        let mut d = [0u8; 11];
        rand::RngCore::fill_bytes(&mut rng, &mut d);
        let p = pallas::Point::random(&mut rng);
        let a = Address::from_parts(d, p.to_bytes());
        let text = a.to_bech32m();
        assert!(text.starts_with("za1"));
        let back = Address::from_bech32m(&text).unwrap();
        assert_eq!(back.to_raw_address_bytes(), a.to_raw_address_bytes());
    }
}

#[test]
fn raw_bytes_are_diversifier_then_key() {
    let key = valid_key();
    let a = Address::from_parts([1, 2, 3, 4, 5, 6, 7, 8, 9, 10, 11], key);
    let raw = a.to_raw_address_bytes();
    assert_eq!(&raw[..11], &[1, 2, 3, 4, 5, 6, 7, 8, 9, 10, 11]);
    assert_eq!(&raw[11..], &key);
    let back = Address::from_raw_address_bytes(&raw).unwrap();
    assert_eq!(back.diversifier(), a.diversifier());
    assert_eq!(back.pk_d(), key);
}

#[test]
fn identity_and_non_points_are_rejected() {
    let mut raw = [0u8; 43];
    assert!(Address::from_raw_address_bytes(&raw).is_none());
    for b in raw[11..].iter_mut() {
        *b = 0xff;
    }
    assert!(Address::from_raw_address_bytes(&raw).is_none());
}

#[test]
fn other_texts_are_rejected() {
    assert!(Address::from_bech32m(&"not an address".to_string()).is_none());
    let a = Address::from_parts([0u8; 11], valid_key());
    let text = a.to_bech32m();
    let other_hrp = text.replacen("za1", "zb1", 1);
    assert!(Address::from_bech32m(&other_hrp).is_none());
    let mut damaged = text.clone();
    let last = damaged.pop().unwrap();
    damaged.push(if last == 'q' { 'p' } else { 'q' });
    assert!(Address::from_bech32m(&damaged).is_none());
}
