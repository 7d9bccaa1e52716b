use anticone_sync::errors::SyncError;
use anticone_sync::hash::BlockHash;
use anticone_sync::index::{build_block_indices, find_index, translate_hashes};

fn h(n: u64) -> BlockHash {
    BlockHash::from_words(n, n.wrapping_mul(31), n ^ 0xdead_beef, 0)
}

#[test]
fn find_index_present_and_absent() {
    let window = vec![h(10), h(20), h(30)];
    assert_eq!(find_index(&window, h(10)), Some(0));
    assert_eq!(find_index(&window, h(30)), Some(2));
    assert_eq!(find_index(&window, h(40)), None);
    let empty: Vec<BlockHash> = Vec::new();
    assert_eq!(find_index(&empty, h(10)), None);
}

#[test]
fn find_index_takes_first_occurrence() {
    let window = vec![h(1), h(7), h(2), h(7)];
    assert_eq!(find_index(&window, h(7)), Some(1));
}

#[test]
fn translate_maps_to_positions() {
    let window = vec![h(100), h(200), h(300)];
    let refs = vec![h(300), h(100), h(300), h(200)];
    let v = translate_hashes(&refs, &window).unwrap();
    assert_eq!(v, vec![2, 0, 2, 1]);
    for (k, r) in v.iter().zip(refs.iter()) {
        assert!((*k as usize) < window.len());
        assert_eq!(window[*k as usize], *r);
    }
}

#[test]
fn translate_empty_refs() {
    let window = vec![h(1), h(2)];
    let refs: Vec<BlockHash> = Vec::new();
    assert_eq!(translate_hashes(&refs, &window).unwrap(), Vec::<u64>::new());
}

#[test]
fn translate_missing_reference_fails() {
    let window = vec![h(1), h(2), h(3)];
    let refs = vec![h(1), h(9), h(2)];
    assert_eq!(translate_hashes(&refs, &window), Err(SyncError::IndexInvariantViolation));
}

#[test]
fn translate_missing_from_empty_window_fails() {
    let window: Vec<BlockHash> = Vec::new();
    let refs = vec![h(1)];
    assert_eq!(translate_hashes(&refs, &window), Err(SyncError::IndexInvariantViolation));
}

#[test]
fn block_indices_both_sides_translated() {
    let daa_window = vec![h(1), h(2), h(3), h(4)];
    let gd_window = vec![h(10), h(20)];
    let daa_refs = vec![h(4), h(1)];
    let gd_refs = vec![h(20), h(10), h(20)];
    let b = build_block_indices(&daa_refs, &gd_refs, &daa_window, &gd_window).unwrap();
    assert_eq!(b.daa_window_indices, vec![3, 0]);
    assert_eq!(b.ghostdag_data_indices, vec![1, 0, 1]);
}

#[test]
fn block_indices_missing_daa_reference_fails() {
    let daa_window = vec![h(1)];
    let gd_window = vec![h(10)];
    let daa_refs = vec![h(2)];
    let gd_refs = vec![h(10)];
    assert_eq!(
        build_block_indices(&daa_refs, &gd_refs, &daa_window, &gd_window),
        Err(SyncError::IndexInvariantViolation)
    );
}

#[test]
fn block_indices_missing_ghostdag_reference_fails() {
    let daa_window = vec![h(1)];
    let gd_window = vec![h(10)];
    let daa_refs = vec![h(1)];
    let gd_refs = vec![h(11)];
    assert_eq!(
        build_block_indices(&daa_refs, &gd_refs, &daa_window, &gd_window),
        Err(SyncError::IndexInvariantViolation)
    );
}

#[test]
fn block_indices_empty_anticone_block() {
    let daa_window: Vec<BlockHash> = Vec::new();
    let gd_window: Vec<BlockHash> = Vec::new();
    let daa_refs: Vec<BlockHash> = Vec::new();
    let gd_refs: Vec<BlockHash> = Vec::new();
    let b = build_block_indices(&daa_refs, &gd_refs, &daa_window, &gd_window).unwrap();
    assert!(b.daa_window_indices.is_empty());
    assert!(b.ghostdag_data_indices.is_empty());
}
