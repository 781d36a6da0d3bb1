use fs_dir_cache::cache_key;

#[test]
fn cache_key_matches_direct_digest() {
    // The key is the name, a dash, and the hex digest of name, strings and
    // file contents in order.
    let strs = vec!["alpha".to_owned(), "beta".to_owned()];
    let files = vec![b"content one".to_vec(), b"content two".to_vec()];
    let key = cache_key("build", &strs, &files);

    let mut material: Vec<u8> = Vec::new();
    material.extend_from_slice(b"build");
    material.extend_from_slice(b"alpha");
    material.extend_from_slice(b"beta");
    material.extend_from_slice(b"content one");
    material.extend_from_slice(b"content two");
    let expected = format!("{}-{}", "build", blake3::hash(&material).to_hex());
    assert_eq!(key, expected);
}

#[test]
fn cache_key_has_name_prefix_and_64_hex_digits() {
    let key = cache_key("keyname", &Vec::new(), &Vec::new());
    assert!(key.starts_with("keyname-"));
    let digest = &key["keyname-".len()..];
    assert_eq!(digest.len(), 64);
    assert!(digest.chars().all(|c| c.is_ascii_hexdigit()));
    assert_eq!(digest, digest.to_lowercase());
    // The digest is a digest, not the input echoed back.
    assert!(!digest.contains("keyname"));
}

#[test]
fn cache_key_depends_on_every_part() {
    let none: Vec<Vec<u8>> = Vec::new();
    let base = cache_key("n", &vec!["a".to_owned()], &none);
    assert_ne!(base, cache_key("m", &vec!["a".to_owned()], &none));
    assert_ne!(base, cache_key("n", &vec!["b".to_owned()], &none));
    assert_ne!(
        base,
        cache_key("n", &vec!["a".to_owned()], &vec![b"x".to_vec()])
    );
}

#[test]
fn cache_key_hashes_the_concatenation_in_order() {
    // The digest is fed the parts back to back, so regrouping the same
    // bytes yields the same key, while reordering them does not.
    let none: Vec<Vec<u8>> = Vec::new();
    let grouped = cache_key("n", &vec!["ab".to_owned()], &none);
    let split = cache_key("n", &vec!["a".to_owned(), "b".to_owned()], &none);
    assert_eq!(grouped, split);
    let reordered = cache_key("n", &vec!["b".to_owned(), "a".to_owned()], &none);
    assert_ne!(grouped, reordered);
}
