use photo_media::union_find::UnionFind;

#[test]
fn test_union_find_basic() {
    let mut uf = UnionFind::new(5);

    assert_eq!(uf.find(0), 0);
    assert_eq!(uf.find(1), 1);

    uf.union(0, 1);
    assert_eq!(uf.find(0), uf.find(1));

    uf.union(2, 3);
    assert_eq!(uf.find(2), uf.find(3));

    uf.union(0, 2);
    assert_eq!(uf.find(0), uf.find(3));
}

#[test]
fn test_cluster() {
    // (photo id, embedding) of three faces; the first two are identical.
    let photo_ids: Vec<i64> = vec![1, 2, 3];
    let embeddings: Vec<Vec<f32>> = vec![vec![1.0; 512], vec![1.0; 512], vec![100.0; 512]];
    let radius = 1.0f64;
    let mut near_pairs: Vec<(usize, usize)> = Vec::new();
    for i in 0..embeddings.len() {
        for j in (i + 1)..embeddings.len() {
            let dist: f64 = embeddings[i]
                .iter()
                .zip(embeddings[j].iter())
                .map(|(a, b)| ((a - b) as f64) * ((a - b) as f64))
                .sum::<f64>()
                .sqrt();
            if dist < radius {
                near_pairs.push((i, j));
            }
        }
    }

    let clusters = UnionFind::cluster(&photo_ids, &near_pairs);
    assert!(clusters.len() >= 1);
}

#[test]
fn union_of_equal_ranks_puts_first_root_under_second() {
    let mut uf = UnionFind::new(3);
    uf.union(0, 1);
    // Equal ranks: the root of the second argument wins.
    assert_eq!(uf.find(0), 1);
    assert_eq!(uf.find(1), 1);
    assert_eq!(uf.find(2), 2);
    // The taller tree (rooted at 1) absorbs the singleton 2.
    uf.union(2, 0);
    assert_eq!(uf.find(2), 1);
}

#[test]
fn union_within_one_set_changes_nothing() {
    let mut uf = UnionFind::new(4);
    uf.union(0, 1);
    uf.union(1, 0);
    assert_eq!(uf.find(0), uf.find(1));
    assert_ne!(uf.find(2), uf.find(0));
    assert_ne!(uf.find(3), uf.find(0));
    assert_ne!(uf.find(2), uf.find(3));
}

#[test]
fn union_merges_exactly_two_sets() {
    let mut uf = UnionFind::new(6);
    uf.union(0, 1);
    uf.union(2, 3);
    uf.union(4, 5);
    uf.union(1, 3);
    assert_eq!(uf.find(0), uf.find(2));
    assert_eq!(uf.find(1), uf.find(3));
    assert_ne!(uf.find(0), uf.find(4));
    assert_eq!(uf.find(4), uf.find(5));
}

#[test]
fn cluster_groups_by_links_in_increasing_order() {
    let photo_ids: Vec<i64> = vec![10, 11, 12, 13, 14];
    let near_pairs: Vec<(usize, usize)> = vec![(3, 1), (4, 0)];
    let clusters = UnionFind::cluster(&photo_ids, &near_pairs);
    assert_eq!(clusters.len(), 3);
    let mut groups: Vec<Vec<usize>> = clusters.values().cloned().collect();
    groups.sort();
    assert_eq!(groups, vec![vec![0, 4], vec![1, 3], vec![2]]);
    for (root, members) in clusters.iter() {
        assert!(members.contains(root));
    }
}

#[test]
fn cluster_skips_links_within_one_photo() {
    let photo_ids: Vec<i64> = vec![7, 7, 8];
    let near_pairs: Vec<(usize, usize)> = vec![(0, 1)];
    let clusters = UnionFind::cluster(&photo_ids, &near_pairs);
    assert_eq!(clusters.len(), 3);
    for members in clusters.values() {
        assert_eq!(members.len(), 1);
    }
}

#[test]
fn cluster_joins_transitively_across_photos() {
    // 0 and 2 share a photo, but both link to 1 from another photo.
    let photo_ids: Vec<i64> = vec![5, 6, 5];
    let near_pairs: Vec<(usize, usize)> = vec![(0, 1), (1, 2)];
    let clusters = UnionFind::cluster(&photo_ids, &near_pairs);
    assert_eq!(clusters.len(), 1);
    let members = clusters.values().next().unwrap();
    assert_eq!(members, &vec![0, 1, 2]);
}

#[test]
fn cluster_of_nothing_is_empty() {
    let photo_ids: Vec<i64> = Vec::new();
    let near_pairs: Vec<(usize, usize)> = Vec::new();
    let clusters = UnionFind::cluster(&photo_ids, &near_pairs);
    assert!(clusters.is_empty());
}

#[test]
fn cluster_keys_are_the_union_find_roots() {
    let photo_ids: Vec<i64> = vec![10, 11, 12, 13, 14];
    let near_pairs: Vec<(usize, usize)> = vec![(3, 1), (4, 0), (2, 0)];
    let clusters = UnionFind::cluster(&photo_ids, &near_pairs);
    let mut keys: Vec<usize> = clusters.keys().copied().collect();
    keys.sort();
    // (3, 1): equal ranks, 1 wins; (4, 0): 0 wins; (2, 0): 0 has the higher rank.
    assert_eq!(keys, vec![0, 1]);
    assert_eq!(clusters[&0], vec![0, 2, 4]);
    assert_eq!(clusters[&1], vec![1, 3]);
}
