use fim::digest::{calculate_sha256, hash_file, to_hex_lower};

#[test]
fn sha256_of_empty_input() {
    assert_eq!(
        calculate_sha256(&[]),
        "e3b0c44298fc1c149afbf4c8996fb92427ae41e4649b934ca495991b7852b855"
    );
}

#[test]
fn sha256_of_abc() {
    assert_eq!(
        calculate_sha256(b"abc"),
        "ba7816bf8f01cfea414140de5dae2223b00361a396177a9cb410ff61f20015ad"
    );
}

#[test]
fn sha256_hex_is_64_lowercase_digits() {
    let h = calculate_sha256(b"some file contents\n");
    assert_eq!(h.len(), 64);
    assert!(h.chars().all(|c| c.is_ascii_digit() || ('a'..='f').contains(&c)));
}

#[test]
fn hex_writes_two_digits_per_byte() {
    assert_eq!(to_hex_lower(&[0x00, 0x0f, 0xa5, 0xff]), "000fa5ff");
    assert_eq!(to_hex_lower(&[]), "");
}

#[test]
fn hash_file_of_readable_contents() {
    assert_eq!(
        hash_file(Ok(b"abc".to_vec())),
        "ba7816bf8f01cfea414140de5dae2223b00361a396177a9cb410ff61f20015ad"
    );
}

#[test]
fn hash_file_of_unreadable_file_is_the_error_message() {
    let message = String::from("No such file or directory (os error 2)");
    assert_eq!(hash_file(Err(message.clone())), message);
}

#[test]
fn different_contents_give_different_hashes() {
    assert_ne!(calculate_sha256(b"version 1"), calculate_sha256(b"version 2"));
}
