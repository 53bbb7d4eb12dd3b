use lsha::digest::RunningDigest;

#[test]
fn empty_digest() {
    let d = RunningDigest::new();
    assert_eq!(
        "e3b0c44298fc1c149afbf4c8996fb92427ae41e4649b934ca495991b7852b855",
        d.hex_digest()
    );
}

#[test]
fn known_three_bytes() {
    let mut d = RunningDigest::new();
    assert!(d.absorb(&[1, 2, 3]));
    assert_eq!(
        "039058c6f2c0cb492c533b0a4d14ef77cc0f78abccced5287d84a1a2011cfb81",
        d.hex_digest()
    );
}

#[test]
fn chunked_absorption_equals_one_shot() {
    let mut one = RunningDigest::new();
    assert!(one.absorb(&[1, 2, 3]));
    let mut chunked = RunningDigest::new();
    assert!(chunked.absorb(&[1]));
    assert!(chunked.absorb(&[]));
    assert!(chunked.absorb(&[2, 3]));
    assert_eq!(one.hex_digest(), chunked.hex_digest());

    let big: Vec<u8> = (0..200_000u32).map(|i| (i % 251) as u8).collect();
    let mut whole = RunningDigest::new();
    assert!(whole.absorb(&big));
    let mut parts = RunningDigest::new();
    for c in big.chunks(64 * 1024) {
        assert!(parts.absorb(c));
    }
    assert_eq!(whole.hex_digest(), parts.hex_digest());
}

#[test]
fn order_of_absorption_matters() {
    let mut ab = RunningDigest::new();
    assert!(ab.absorb(b"a"));
    assert!(ab.absorb(b"b"));
    let mut ba = RunningDigest::new();
    assert!(ba.absorb(b"b"));
    assert!(ba.absorb(b"a"));
    assert_ne!(ab.hex_digest(), ba.hex_digest());
}

#[test]
fn reading_the_digest_leaves_the_state_usable() {
    let mut d = RunningDigest::new();
    assert!(d.absorb(&[1]));
    let first = d.hex_digest();
    assert_eq!(first, d.hex_digest());
    assert!(d.absorb(&[2, 3]));
    assert_eq!(
        "039058c6f2c0cb492c533b0a4d14ef77cc0f78abccced5287d84a1a2011cfb81",
        d.hex_digest()
    );
}
