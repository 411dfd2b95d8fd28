use universal_camera::crypto::sha256_hex;
use universal_camera::nearby::encode_hex;
use universal_camera::session::EphemeralKeyPair;

fn bytes32(text: &str) -> [u8; 32] {
    let mut out = [0u8; 32];
    for (index, byte) in out.iter_mut().enumerate() {
        *byte = u8::from_str_radix(&text[2 * index..2 * index + 2], 16).unwrap();
    }
    out
}

#[test]
fn sha256_digests_match_published_vectors() {
    assert_eq!(sha256_hex(b""), "e3b0c44298fc1c149afbf4c8996fb92427ae41e4649b934ca495991b7852b855");
    assert_eq!(sha256_hex(b"abc"), "ba7816bf8f01cfea414140de5dae2223b00361a396177a9cb410ff61f20015ad");
}

#[test]
fn x25519_public_keys_match_published_vectors() {
    let alice = EphemeralKeyPair::from_secret_bytes(bytes32(
        "77076d0a7318a57d3c16c17251b26645df4c2f87ebc0992ab177fba51db92c2a",
    ))
    .unwrap();
    let bob = EphemeralKeyPair::from_secret_bytes(bytes32(
        "5dab087e624a8a4b79e17f8b83800ee66f3bb1292618b6fd1c2f8b27ff88e0eb",
    ))
    .unwrap();
    assert_eq!(
        encode_hex(&alice.public_key().bytes),
        "8520f0098930a754748b7ddcb43ef75a0dbf3a0d26381af4eba4a98eaa9b4e6a"
    );
    assert_eq!(
        encode_hex(&bob.public_key().bytes),
        "de9edb7d7b7dc1b4d35b61c2ece435373f8343c85b78674dadfc7e146f882b4f"
    );
    assert!(EphemeralKeyPair::from_secret_bytes([0; 32]).is_err());
}
