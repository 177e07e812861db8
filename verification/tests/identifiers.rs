use allele_norm::digest::{sha512t24u, truncate, TRUNCATED_LEN};

#[test]
fn identifier_of_nothing() {
    assert_eq!(sha512t24u(b""), "z4PhNX7vuL3xVChQ1m2AB9Yg5AULVxXc");
}

#[test]
fn identifier_of_a_sequence() {
    assert_eq!(sha512t24u(b"ACGT"), "aKF498dAxcJAqme6QYQ7EZ07-fiw8Kw2");
}

#[test]
fn identifier_has_a_fixed_length() {
    let long: Vec<u8> = vec![65; 10_000];
    for blob in [&b""[..], &b"A"[..], &b"ACGT"[..], &long[..]] {
        let id = sha512t24u(blob);
        assert_eq!(id.chars().count(), 32);
        assert!(id.chars().all(|c| c.is_ascii_alphanumeric() || c == '-' || c == '_'));
    }
}

#[test]
fn identifier_is_a_function_of_the_content() {
    assert_eq!(sha512t24u(b"ACGT"), sha512t24u(b"ACGT"));
    assert_ne!(sha512t24u(b"ACGT"), sha512t24u(b"ACGA"));
}

#[test]
fn truncate_keeps_the_first_bytes() {
    assert_eq!(TRUNCATED_LEN, 24);
    let hash: Vec<u8> = (0..64).collect();
    let head: Vec<u8> = (0..24).collect();
    assert_eq!(truncate(&hash), &head[..]);
    assert_eq!(truncate(&head), &head[..]);
    assert_eq!(truncate(&hash[..5]), &hash[..5]);
    assert_eq!(truncate(&[]), &[] as &[u8]);
}
