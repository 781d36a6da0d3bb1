use fs_dir_cache::{key_dir_path, split_key_dir_path, PathError};

#[test]
fn splits_a_key_dir_path_into_root_and_key() {
    let (root, key) = split_key_dir_path("/var/cache/builds/key-abc123").expect("valid path");
    assert_eq!(root, "/var/cache/builds");
    assert_eq!(key, "key-abc123");
}

#[test]
fn a_bare_name_has_an_empty_root() {
    let (root, key) = split_key_dir_path("keyname").expect("valid path");
    assert_eq!(root, "");
    assert_eq!(key, "keyname");
}

#[test]
fn a_relative_dir_under_root_splits() {
    let (root, key) = split_key_dir_path("cache/key").expect("valid path");
    assert_eq!(root, "cache");
    assert_eq!(key, "key");
}

#[test]
fn trailing_separators_are_ignored() {
    for dir in ["/var/cache/builds/key-abc/", "/var/cache/builds/key-abc///"] {
        let (root, key) = split_key_dir_path(dir).expect("valid path");
        assert_eq!(root, "/var/cache/builds");
        assert_eq!(key, "key-abc");
    }
    let (root, key) = split_key_dir_path("cache/").expect("valid path");
    assert_eq!(root, "");
    assert_eq!(key, "cache");
}

#[test]
fn paths_without_a_final_component_are_rejected() {
    for bad in ["", "/", "///", ".", "..", "../", "cache/.", "cache/.."] {
        assert!(
            matches!(split_key_dir_path(bad), Err(PathError::InvalidComponent)),
            "{} must be rejected",
            bad
        );
    }
}

#[test]
fn non_ascii_paths_split_correctly() {
    let (root, key) = split_key_dir_path("/données/café-λ").expect("valid path");
    assert_eq!(root, "/données");
    assert_eq!(key, "café-λ");
}

#[test]
fn key_dir_path_joins_root_and_key() {
    assert_eq!(key_dir_path("/var/cache", "k-1"), "/var/cache/k-1");
    assert_eq!(key_dir_path("", "k"), "/k");
}

#[test]
fn splitting_undoes_joining() {
    let dir = key_dir_path("/var/cache", "key-abc");
    let (root, key) = split_key_dir_path(&dir).expect("valid path");
    assert_eq!(root, "/var/cache");
    assert_eq!(key, "key-abc");
}
