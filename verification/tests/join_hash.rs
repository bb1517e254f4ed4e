use leafish::protocol::mojang::{server_hash, signed_hex_text, twos_compliment};

#[test]
fn server_hash_of_known_names() {
    assert_eq!(
        server_hash("Notch", &[], &[]),
        "4ed1f46bbe04bc756bcb17c0c7ce3e4632f06a48"
    );
    assert_eq!(
        server_hash("jeb_", &[], &[]),
        "-7c9d5b0044c130109a5d7b5fb5c317c02b4e28c1"
    );
    assert_eq!(
        server_hash("simon", &[], &[]),
        "88e16a1019277b15d58faf0541e11910eb756f6"
    );
}

#[test]
fn twos_compliment_negates() {
    let mut data = [0xFFu8, 0xFF];
    twos_compliment(&mut data);
    assert_eq!(data, [0x00, 0x01]);
    let mut data = [0x80u8, 0x00];
    twos_compliment(&mut data);
    assert_eq!(data, [0x80, 0x00]);
    let mut data = [0x00u8, 0x00];
    twos_compliment(&mut data);
    assert_eq!(data, [0x00, 0x00]);
    let mut data = [0x12u8, 0x00];
    twos_compliment(&mut data);
    assert_eq!(data, [0xEE, 0x00]);
}

#[test]
fn signed_hex_text_of_digests() {
    assert_eq!(signed_hex_text(&[0x00, 0x00, 0x00]), "0");
    assert_eq!(signed_hex_text(&[0x00, 0x0A, 0xBC]), "abc");
    assert_eq!(signed_hex_text(&[0xFF, 0xFF]), "-1");
    assert_eq!(signed_hex_text(&[0x80, 0x00]), "-8000");
    assert_eq!(signed_hex_text(&[0x7F, 0x01]), "7f01");
    assert_eq!(signed_hex_text(&[]), "0");
}
