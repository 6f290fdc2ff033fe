use pastebin::store::BoundedPasteStore;

#[test]
fn capacity_invariant_held_after_every_store() {
    let mut st = BoundedPasteStore::new(3);
    for i in 0..10u8 {
        let id = format!("paste{i}");
        st.store(&id, vec![i]);
        assert!(st.len() <= st.capacity());
    }
    assert_eq!(st.len(), 3);
}

#[test]
fn fifo_eviction_drops_oldest_first() {
    let mut st = BoundedPasteStore::new(2);
    st.store("a", vec![1]);
    st.store("b", vec![2]);
    st.store("c", vec![3]);
    st.store("d", vec![4]);
    assert_eq!(st.get("a"), None);
    assert_eq!(st.get("b"), None);
    assert_eq!(st.get("c"), Some(vec![3]));
    assert_eq!(st.get("d"), Some(vec![4]));
    assert_eq!(st.len(), 2);
}

#[test]
fn overwrite_keeps_one_entry_and_size() {
    let mut st = BoundedPasteStore::new(3);
    st.store("x", vec![1]);
    st.store("y", vec![2]);
    st.store("x", vec![3]);
    assert_eq!(st.len(), 2);
    assert_eq!(st.get("x"), Some(vec![3]));
    assert_eq!(st.get("y"), Some(vec![2]));
}

#[test]
fn overwrite_in_full_store_evicts_nothing() {
    let mut st = BoundedPasteStore::new(2);
    st.store("a", vec![1]);
    st.store("b", vec![2]);
    st.store("a", vec![9]);
    assert_eq!(st.len(), 2);
    assert_eq!(st.get("a"), Some(vec![9]));
    assert_eq!(st.get("b"), Some(vec![2]));
}

#[test]
fn read_after_write_returns_exact_bytes() {
    let mut st = BoundedPasteStore::new(4);
    let content = vec![0u8, 255, 10, 13, 0, 42];
    st.store("blob", content.clone());
    assert_eq!(st.get("blob"), Some(content));
}

#[test]
fn absence_for_never_inserted_and_evicted() {
    let mut st = BoundedPasteStore::new(1);
    assert_eq!(st.get("never"), None);
    st.store("first", vec![1]);
    st.store("second", vec![2]);
    assert_eq!(st.get("first"), None);
    assert_eq!(st.get("second"), Some(vec![2]));
}

#[test]
fn zero_capacity_store_evicts_every_insert() {
    let mut st = BoundedPasteStore::new(0);
    st.store("a", vec![1]);
    assert_eq!(st.len(), 0);
    assert_eq!(st.get("a"), None);
}

#[test]
fn get_does_not_promote_entries() {
    let mut st = BoundedPasteStore::new(2);
    st.store("a", vec![1]);
    st.store("b", vec![2]);
    assert_eq!(st.get("a"), Some(vec![1]));
    st.store("c", vec![3]);
    assert_eq!(st.get("a"), None);
    assert_eq!(st.get("b"), Some(vec![2]));
    assert_eq!(st.get("c"), Some(vec![3]));
}

#[test]
fn sequential_fill_with_distinct_ids_leaves_min_of_n_and_capacity() {
    let n: usize = 10;
    let cap: usize = 3;
    let mut st = BoundedPasteStore::new(cap);
    for i in 0..n {
        let id = format!("distinct{i}");
        st.store(&id, vec![i as u8]);
    }
    assert_eq!(st.len(), n.min(cap));
    for i in 0..n {
        let id = format!("distinct{i}");
        if i + cap >= n {
            assert_eq!(st.get(&id), Some(vec![i as u8]));
        } else {
            assert_eq!(st.get(&id), None);
        }
    }
}

#[test]
fn small_run_fits_entirely() {
    let mut st = BoundedPasteStore::new(5);
    st.store("one", vec![1]);
    st.store("two", vec![2]);
    assert_eq!(st.len(), 2);
    assert_eq!(st.capacity(), 5);
    assert_eq!(st.get("one"), Some(vec![1]));
    assert_eq!(st.get("two"), Some(vec![2]));
}
