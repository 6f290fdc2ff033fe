use pastebin::disk::PasteDiskRepository;
use pastebin::repo::PasteMemRepository;
use pastebin::repo::PasteRepository;
use pastebin::repo::RepoError;

#[test]
fn create_read_round_trip() {
    let mut repo = PasteMemRepository::new();
    let content = b"hello pastebin".to_vec();
    assert_eq!(repo.create_paste("abcdefghjkmn", &content), Ok(()));
    assert_eq!(repo.read_paste("abcdefghjkmn"), Some(content));
}

#[test]
fn round_trip_keeps_empty_content() {
    let mut repo = PasteMemRepository::new();
    assert_eq!(repo.create_paste("abcdefghjkmn", &[]), Ok(()));
    assert_eq!(repo.read_paste("abcdefghjkmn"), Some(Vec::new()));
}

#[test]
fn round_trip_keeps_arbitrary_binary_bytes() {
    let mut repo = PasteMemRepository::new();
    let content: Vec<u8> = (0..=255u8).collect();
    assert_eq!(repo.create_paste("BBCDEFGHJKMN", &content), Ok(()));
    assert_eq!(repo.read_paste("BBCDEFGHJKMN"), Some(content));
}

#[test]
fn invalid_id_is_rejected_before_storage() {
    let mut repo = PasteMemRepository::new();
    assert_eq!(
        repo.create_paste("../etc/passw", b"x"),
        Err(RepoError::InvalidId)
    );
    assert_eq!(repo.create_paste("short", b"x"), Err(RepoError::InvalidId));
    assert_eq!(repo.read_paste("../etc/passw"), None);
}

#[test]
fn contains_is_consistent_with_read() {
    let mut repo = PasteMemRepository::new();
    assert!(!repo.contains_paste("abcdefghjkmn"));
    assert_eq!(repo.create_paste("abcdefghjkmn", b"v"), Ok(()));
    assert!(repo.contains_paste("abcdefghjkmn"));
    assert_eq!(repo.read_paste("abcdefghjkmn"), Some(b"v".to_vec()));
}

#[test]
fn create_twice_last_write_wins() {
    let mut repo = PasteMemRepository::new();
    assert_eq!(repo.create_paste("abcdefghjkmn", b"first"), Ok(()));
    assert_eq!(repo.create_paste("abcdefghjkmn", b"second"), Ok(()));
    assert_eq!(repo.read_paste("abcdefghjkmn"), Some(b"second".to_vec()));
}

#[test]
fn read_absent_returns_none_not_error() {
    let repo = PasteMemRepository::new();
    assert_eq!(repo.read_paste("abcdefghjkmn"), None);
}

#[test]
fn trait_methods_agree_with_inherent_ones() {
    let mut repo = PasteMemRepository::new();
    assert_eq!(
        PasteRepository::create(&mut repo, "abcdefghjkmn", b"via trait"),
        Ok(())
    );
    assert!(PasteRepository::contains(&repo, "abcdefghjkmn"));
    assert_eq!(
        PasteRepository::read(&repo, "abcdefghjkmn"),
        Some(b"via trait".to_vec())
    );
}

#[test]
fn disk_core_derives_path_inside_directory() {
    let core = PasteDiskRepository::new(String::from("/srv/pastes"));
    assert_eq!(
        core.paste_path("abcdefghjkmn"),
        Ok(String::from("/srv/pastes/abcdefghjkmn"))
    );
}

#[test]
fn disk_core_rejects_escaping_identifiers() {
    let core = PasteDiskRepository::new(String::from("/srv/pastes"));
    assert_eq!(core.paste_path("../../escape"), Err(RepoError::InvalidId));
    assert_eq!(core.paste_path(""), Err(RepoError::InvalidId));
    assert_eq!(core.paste_path("abcdefghjkm/"), Err(RepoError::InvalidId));
}
