use dit::hex_string::HexString;
use rand::{thread_rng, Rng};

#[test]
fn dit_core_hex_string_from_bytes_to_bytes_is_equal() {
    for _ in 0..1000 {
        let random_n = thread_rng().gen::<u32>();
        let hex_string = HexString::from_bytes(&random_n.to_le_bytes()[..]);
        let mut hex_bytes: [u8; 4] = [0; 4];
        for (i, byte) in (0..).zip(hex_string.to_bytes().into_iter()) {
            hex_bytes[i] = byte;
        }
        let converted = u32::from_le_bytes(hex_bytes);
        println!("{} = {}", random_n, converted);
        assert_eq!(random_n, converted)
    }
}

#[test]
fn model_hex_string_from_bytes_to_bytes_is_equal() {
    for _ in 0..1000 {
        let random_n = thread_rng().gen::<u32>();
        let hex_string = HexString::from_bytes(&random_n.to_le_bytes()[..]);
        let mut hex_bytes: [u8; 4] = [0; 4];
        for (i, byte) in (0..).zip(hex_string.to_bytes().into_iter()) {
            hex_bytes[i] = byte;
        }
        let converted = u32::from_le_bytes(hex_bytes);
        println!("{} = {}", random_n, converted);
        assert_eq!(random_n, converted)
    }
}

#[test]
fn hex_string_exact_text() {
    let h = HexString::from_bytes(&[0xde, 0xad, 0x01, 0x00]);
    assert_eq!(h.to_string(), "dead0100");
    assert_eq!(h.to_bytes(), vec![0xde, 0xad, 0x01, 0x00]);
}

#[test]
fn hex_string_default_is_zero_key() {
    let h = HexString::default();
    assert_eq!(h.to_string(), "00000000");
    assert_eq!(h.to_bytes(), vec![0, 0, 0, 0]);
}

#[test]
fn hex_string_from_text_accepts_only_even_lowercase_hex() {
    assert!(HexString::from_text(String::from("00ff")).is_some());
    assert!(HexString::from_text(String::from("")).is_some());
    assert!(HexString::from_text(String::from("0ff")).is_none());
    assert!(HexString::from_text(String::from("00FF")).is_none());
    assert!(HexString::from_text(String::from("zz")).is_none());
    let parsed = HexString::from_text(String::from("00ff")).unwrap();
    assert_eq!(parsed.to_bytes(), vec![0x00, 0xff]);
}
