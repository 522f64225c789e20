use pexrc::fingerprint::{hash_file, Fingerprint, HashOptions};
use sha2::Digest;

#[test]
fn test_fingerprint_of_empty_content() {
    let f = Fingerprint::of_content(b"");
    assert_eq!(f.hex_digest(), "e3b0c44298fc1c149afbf4c8996fb92427ae41e4649b934ca495991b7852b855");
    assert_eq!(f.base64_digest(), "47DEQpj8HBSa-_TImW-5JCeuQeRkm5NMpJWZG3hSuFU");
    assert_eq!(f.to_string(), f.base64_digest());
}

#[test]
fn test_fingerprint_digests_of_bytes() {
    let f = Fingerprint::load(&[0xfb, 0xff, 0x00]);
    assert_eq!(f.as_bytes(), &[0xfb, 0xff, 0x00]);
    assert_eq!(f.hex_digest(), "fbff00");
    assert_eq!(f.base64_digest(), "-_8A");
}

#[test]
fn test_fingerprint_store_then_load() {
    let f = Fingerprint::of_content(b"abc");
    let mut sink = vec![1u8];
    f.store(&mut sink);
    assert_eq!(sink[0], 1);
    let back = Fingerprint::load(&sink[1..]);
    assert_eq!(back.hex_digest(), f.hex_digest());
}

#[test]
fn test_hash_file_pieces() {
    let nothing = hash_file(&HashOptions::new(), b"/a", Some(b"1"), Some(b"2"), Some(b"data"));
    assert_eq!(nothing.hex_digest(), Fingerprint::of_content(b"").hex_digest());

    let options = HashOptions::default().path(true).contents(true);
    let f = hash_file(&options, b"/a", Some(b"1"), Some(b"2"), Some(b"data"));
    let expected = sha2::Sha256::digest(b"path:/acontents:data");
    assert_eq!(f.as_bytes(), expected.as_slice());

    let all = HashOptions::new().path(true).mtime(true).size(true).contents(true);
    let input = all.hash_input(b"/a", Some(b"1"), Some(b"2"), None);
    assert_eq!(input, b"path:/amtime:1size:2contents:".to_vec());
}
