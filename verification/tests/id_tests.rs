use pastebin::id::generate_id;
use pastebin::id::is_valid_id;
use pastebin::id::ALPHABET_SIZE;
use pastebin::id::ID_LENGTH;
use std::collections::HashSet;

const ALPHABET: &str = "abcdefghjkmnpqrstuvwxyzABCDEFGHJKMNPQRSTUVWXYZ";

#[test]
fn alphabet_constants_match() {
    assert_eq!(ALPHABET.chars().count(), ALPHABET_SIZE);
    assert_eq!(ID_LENGTH, 12);
}

#[test]
fn generated_id_has_shape() {
    for _ in 0..200 {
        let id = generate_id();
        assert_eq!(id.chars().count(), ID_LENGTH);
        assert!(id.chars().all(|c| ALPHABET.contains(c)));
        assert!(is_valid_id(&id));
    }
}

#[test]
fn ten_thousand_ids_collide_never_in_practice() {
    let mut seen: HashSet<String> = HashSet::new();
    for _ in 0..10_000 {
        let id = generate_id();
        assert!(seen.insert(id));
    }
}

#[test]
fn valid_id_accepts_generated_shape_only() {
    assert!(is_valid_id("abcdefghjkmn"));
    assert!(is_valid_id("ABCDEFGHJKMN"));
    assert!(!is_valid_id(""));
    assert!(!is_valid_id("abcdefghjkm"));
    assert!(!is_valid_id("abcdefghjkmnp"));
    assert!(!is_valid_id("abcdefghjkmi"));
    assert!(!is_valid_id("abcdefghjkmO"));
    assert!(!is_valid_id("abcdefghjkm1"));
    assert!(!is_valid_id("../etc/passw"));
    assert!(!is_valid_id("abcde/ghjkmn"));
    assert!(!is_valid_id("abcde.ghjkmn"));
    assert!(!is_valid_id("abcde ghjkmn"));
}
