use std::collections::HashMap;

use photo_media::seeds::{is_valid_seed, seed_has_photo, valid_seed_clusters};

#[test]
fn a_seed_needs_enough_members() {
    let photo_ids: Vec<i64> = vec![1, 2, 3];
    assert!(is_valid_seed(&vec![0, 1, 2], &photo_ids, 3));
    assert!(!is_valid_seed(&vec![0, 1], &photo_ids, 3));
    assert!(is_valid_seed(&vec![], &photo_ids, 0));
}

#[test]
fn a_seed_holds_one_face_per_photo() {
    let photo_ids: Vec<i64> = vec![1, 2, 1, 4];
    assert!(!is_valid_seed(&vec![0, 1, 2], &photo_ids, 1));
    assert!(is_valid_seed(&vec![0, 1, 3], &photo_ids, 1));
    assert!(!is_valid_seed(&vec![3, 3], &photo_ids, 1));
}

#[test]
fn valid_seed_clusters_keep_the_given_order() {
    let photo_ids: Vec<i64> = vec![10, 11, 10, 12, 13];
    let clusters = vec![vec![0, 2], vec![1, 3], vec![4], vec![0, 1, 3]];
    assert_eq!(
        valid_seed_clusters(clusters, &photo_ids, 2),
        vec![vec![1, 3], vec![0, 1, 3]]
    );
    assert!(valid_seed_clusters(Vec::new(), &photo_ids, 2).is_empty());
}

#[test]
fn seed_photo_check_looks_members_up() {
    let photo_of: HashMap<i64, i64> = [(100, 1), (101, 2)].into_iter().collect();
    assert!(seed_has_photo(&vec![100, 101], &photo_of, 2));
    assert!(!seed_has_photo(&vec![100, 101], &photo_of, 3));
    // A member whose feature is unknown holds no photo.
    assert!(!seed_has_photo(&vec![999], &photo_of, 1));
    assert!(!seed_has_photo(&Vec::new(), &photo_of, 1));
}

#[test]
fn growing_keeps_one_face_per_photo() {
    let photo_of: HashMap<i64, i64> = [(1, 7), (2, 8), (3, 9), (4, 7)].into_iter().collect();
    let mut members: Vec<i64> = vec![1, 2];
    for candidate in [3i64, 4] {
        if !seed_has_photo(&members, &photo_of, photo_of[&candidate]) {
            members.push(candidate);
        }
    }
    assert_eq!(members, vec![1, 2, 3]);
}
