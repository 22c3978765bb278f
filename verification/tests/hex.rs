use supervisor::hex::{from_hex, to_hex};

#[test]
fn hex_of_bytes() {
    assert_eq!(to_hex(&[0xde, 0xad, 0x00, 0x0f]), "dead000f");
    assert_eq!(to_hex(&[]), "");
}

#[test]
fn bytes_of_hex() {
    assert_eq!(from_hex("deAD000f"), Some(vec![0xde, 0xad, 0x00, 0x0f]));
    assert_eq!(from_hex(""), Some(vec![]));
}

#[test]
fn no_bytes_of_what_is_no_hex() {
    assert_eq!(from_hex("abc"), None);
    assert_eq!(from_hex("zz"), None);
    assert_eq!(from_hex("é"), None);
    assert_eq!(from_hex("éa"), None);
}

#[test]
fn hex_round_trips() {
    let all: Vec<u8> = (0..=255).collect();
    assert_eq!(from_hex(&to_hex(&all)), Some(all.clone()));
    assert_eq!(to_hex(&from_hex("00FFaB").unwrap()), "00ffab");
}
