use garage::digest::{md5sum, sha256sum};
use garage::s3_put::md5_etag;

#[test]
fn md5_known_values() {
    assert_eq!(
        md5sum(b""),
        [0xd4, 0x1d, 0x8c, 0xd9, 0x8f, 0x00, 0xb2, 0x04, 0xe9, 0x80, 0x09, 0x98, 0xec, 0xf8, 0x42, 0x7e]
    );
    assert_eq!(md5_etag(&md5sum(b"abc")), "900150983cd24fb0d6963f7d28e17f72");
}

#[test]
fn sha256_known_value() {
    assert_eq!(
        hex::encode(sha256sum(b"abc")),
        "ba7816bf8f01cfea414140de5dae2223b00361a396177a9cb410ff61f20015ad"
    );
}

#[test]
fn etag_is_lower_hex() {
    assert_eq!(md5_etag(&[0xab; 16]), "ab".repeat(16));
    assert_eq!(md5_etag(&[0x01, 0x23, 0x45, 0x67, 0x89, 0xab, 0xcd, 0xef, 0, 0, 0, 0, 0, 0, 0, 0xff]), "0123456789abcdef00000000000000ff");
}
