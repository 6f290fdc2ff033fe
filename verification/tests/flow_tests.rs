use pastebin::flow::submit_paste;
use pastebin::id::is_valid_id;
use pastebin::repo::PasteMemRepository;
use std::collections::HashSet;

#[test]
fn submit_stores_under_fresh_valid_id() {
    let mut repo = PasteMemRepository::new();
    let content = b"submitted paste".to_vec();
    let id = submit_paste(&mut repo, &content).expect("submission against memory cannot fail");
    assert!(is_valid_id(&id));
    assert!(repo.contains_paste(&id));
    assert_eq!(repo.read_paste(&id), Some(content));
}

#[test]
fn submissions_get_distinct_ids_and_all_stay_readable() {
    let mut repo = PasteMemRepository::new();
    let mut ids: HashSet<String> = HashSet::new();
    for i in 0..100u8 {
        let id = submit_paste(&mut repo, &[i]).expect("submission against memory cannot fail");
        assert!(ids.insert(id));
    }
    for id in &ids {
        assert!(repo.contains_paste(id));
    }
}

#[test]
fn submit_keeps_binary_content_exact() {
    let mut repo = PasteMemRepository::new();
    let content: Vec<u8> = vec![0, 1, 2, 253, 254, 255, 0, 10, 13];
    let id = submit_paste(&mut repo, &content).expect("submission against memory cannot fail");
    assert_eq!(repo.read_paste(&id), Some(content));
}
