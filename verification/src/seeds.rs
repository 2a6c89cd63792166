//! The integer rules of seed clustering: which clusters may seed a person,
//! and whether a growing person already holds a face of a given photo.
use std::collections::HashMap;
use vstd::prelude::*;

verus! {

broadcast use vstd::std_specs::hash::group_hash_axioms;

/// The members of a cluster (indices into `photo_ids`) come from pairwise
/// different photos.
pub open spec fn one_face_per_photo(photo_ids: Seq<i64>, members: Seq<usize>) -> bool {
    forall|x: int, y: int|
        0 <= x < y < members.len() ==> photo_ids[#[trigger] members[x] as int]
            != photo_ids[#[trigger] members[y] as int]
}

/// A cluster may seed a person when it has at least `min_points` members,
/// no two of them from the same photo.
pub open spec fn is_seed(photo_ids: Seq<i64>, members: Seq<usize>, min_points: nat) -> bool {
    members.len() >= min_points && one_face_per_photo(photo_ids, members)
}

/// A seed has at least `min_points` members and never two faces of one
/// photo, whichever two members are compared; a cluster that has enough
/// members and no such pair is a seed.
pub proof fn law_seed_faces_come_from_distinct_photos(
    photo_ids: Seq<i64>,
    members: Seq<usize>,
    min_points: nat,
)
    ensures
        is_seed(photo_ids, members, min_points) ==> members.len() >= min_points,
        is_seed(photo_ids, members, min_points) ==> forall|x: int, y: int|
            0 <= x < members.len() && 0 <= y < members.len() && x != y ==> photo_ids[members[x] as int]
                != photo_ids[members[y] as int],
        members.len() >= min_points && (forall|x: int, y: int|
            0 <= x < y < members.len() ==> photo_ids[members[x] as int]
                != photo_ids[members[y] as int]) ==> is_seed(photo_ids, members, min_points),
{
    if is_seed(photo_ids, members, min_points) {
        assert forall|x: int, y: int|
            0 <= x < members.len() && 0 <= y < members.len() && x != y implies photo_ids[members[x] as int]
            != photo_ids[members[y] as int] by {
            if x < y {
                assert(photo_ids[members[x] as int] != photo_ids[members[y] as int]);
            } else {
                assert(photo_ids[members[y] as int] != photo_ids[members[x] as int]);
            }
        }
    }
}

/// The clusters that may seed a person, in the order given.
pub open spec fn seed_clusters(photo_ids: Seq<i64>, clusters: Seq<Seq<usize>>, min_points: nat) -> Seq<
    Seq<usize>,
>
    decreases clusters.len(),
{
    if clusters.len() == 0 {
        Seq::empty()
    } else {
        let rest = seed_clusters(photo_ids, clusters.drop_last(), min_points);
        if is_seed(photo_ids, clusters.last(), min_points) {
            rest.push(clusters.last())
        } else {
            rest
        }
    }
}

/// The seeds kept from a list of clusters are exactly its clusters that
/// may seed a person: each kept one is a seed taken from the list, and each
/// seed of the list is kept.
pub proof fn law_seed_clusters_keep_exactly_the_seeds(
    photo_ids: Seq<i64>,
    clusters: Seq<Seq<usize>>,
    min_points: nat,
)
    ensures
        seed_clusters(photo_ids, clusters, min_points).len() <= clusters.len(),
        forall|x: int|
            0 <= x < seed_clusters(photo_ids, clusters, min_points).len() ==> is_seed(
                photo_ids,
                #[trigger] seed_clusters(photo_ids, clusters, min_points)[x],
                min_points,
            ) && clusters.contains(seed_clusters(photo_ids, clusters, min_points)[x]),
        forall|k: int|
            0 <= k < clusters.len() && is_seed(photo_ids, #[trigger] clusters[k], min_points)
                ==> seed_clusters(photo_ids, clusters, min_points).contains(clusters[k]),
    decreases clusters.len(),
{
    if clusters.len() > 0 {
        let prev = clusters.drop_last();
        law_seed_clusters_keep_exactly_the_seeds(photo_ids, prev, min_points);
        let a = seed_clusters(photo_ids, clusters, min_points);
        let b = seed_clusters(photo_ids, prev, min_points);
        assert forall|x: int| 0 <= x < a.len() implies is_seed(
            photo_ids,
            #[trigger] a[x],
            min_points,
        ) && clusters.contains(a[x]) by {
            if x < b.len() {
                assert(a[x] == b[x]);
                assert(is_seed(photo_ids, b[x], min_points));
                let y = choose|y: int| 0 <= y < prev.len() && prev[y] == b[x];
                assert(clusters[y] == a[x]);
            } else {
                assert(clusters[clusters.len() - 1] == a[x]);
            }
        }
        assert forall|k: int|
            0 <= k < clusters.len() && is_seed(
                photo_ids,
                #[trigger] clusters[k],
                min_points,
            ) implies a.contains(clusters[k]) by {
            if k < clusters.len() - 1 {
                assert(prev[k] == clusters[k]);
                let y = choose|y: int| 0 <= y < b.len() && b[y] == prev[k];
                assert(a[y] == b[y]);
            } else {
                assert(a[a.len() - 1] == clusters[k]);
            }
        }
    }
}

/// Every member of every cluster names a feature.
pub open spec fn members_in_range(clusters: Seq<Vec<usize>>, n: nat) -> bool {
    forall|c: int, k: int|
        0 <= c < clusters.len() && 0 <= k < clusters[c]@.len() ==> #[trigger] clusters[c]@[k] < n
}

/// Whether a cluster may seed a person: it has at least `min_points`
/// members, and no two of them come from the same photo.
pub fn is_valid_seed(members: &Vec<usize>, photo_ids: &[i64], min_points: usize) -> (valid: bool)
    requires
        forall|k: int| 0 <= k < members@.len() ==> #[trigger] members@[k] < photo_ids@.len(),
    ensures
        valid == is_seed(photo_ids@, members@, min_points as nat),
        valid ==> members@.len() >= min_points,
        valid ==> forall|x: int, y: int|
            0 <= x < y < members@.len() ==> photo_ids@[members@[x] as int]
                != photo_ids@[members@[y] as int],
        !valid ==> members@.len() < min_points || exists|x: int, y: int|
            0 <= x < y < members@.len() && photo_ids@[members@[x] as int]
                == photo_ids@[members@[y] as int],
{
    if members.len() < min_points {
        return false;
    }
    let mut x: usize = 0;
    while x < members.len()
        invariant
            x <= members@.len(),
            forall|k: int| 0 <= k < members@.len() ==> #[trigger] members@[k] < photo_ids@.len(),
            forall|a: int, b: int|
                0 <= a < x && a < b < members@.len() ==> photo_ids@[#[trigger] members@[a] as int]
                    != photo_ids@[#[trigger] members@[b] as int],
        decreases members.len() - x,
    {
        let photo = photo_ids[members[x]];
        let mut y: usize = x + 1;
        while y < members.len()
            invariant
                x < y <= members@.len(),
                forall|k: int| 0 <= k < members@.len() ==> #[trigger] members@[k] < photo_ids@.len(),
                photo == photo_ids@[members@[x as int] as int],
                forall|b: int|
                    x < b < y ==> photo != photo_ids@[#[trigger] members@[b] as int],
            decreases members.len() - y,
        {
            if photo_ids[members[y]] == photo {
                return false;
            }
            y = y + 1;
        }
        x = x + 1;
    }
    true
}

/// The clusters that may seed a person (see `is_valid_seed`), in the order
/// given; `photo_ids[i]` is the photo of feature `i`.
pub fn valid_seed_clusters(clusters: Vec<Vec<usize>>, photo_ids: &[i64], min_points: usize) -> (seeds:
    Vec<Vec<usize>>)
    requires
        members_in_range(clusters@, photo_ids@.len()),
    ensures
        seeds@.map_values(|s: Vec<usize>| s@) == seed_clusters(
            photo_ids@,
            clusters@.map_values(|s: Vec<usize>| s@),
            min_points as nat,
        ),
{
    let ghost views = clusters@.map_values(|s: Vec<usize>| s@);
    let ghost all = clusters@;
    let n = clusters.len();
    let mut rest = clusters;
    let mut seeds: Vec<Vec<usize>> = Vec::new();
    let mut k: usize = 0;
    while k < n
        invariant
            n == all.len(),
            k <= n,
            rest@ == all.skip(k as int),
            views == all.map_values(|s: Vec<usize>| s@),
            members_in_range(all, photo_ids@.len()),
            seeds@.map_values(|s: Vec<usize>| s@) == seed_clusters(
                photo_ids@,
                views.take(k as int),
                min_points as nat,
            ),
        decreases n - k,
    {
        let members = rest.remove(0);
        assert(members == all[k as int]);
        assert(views.take(k + 1).drop_last() =~= views.take(k as int));
        assert(views.take(k + 1).last() == members@);
        assert(rest@ =~= all.skip(k + 1));
        assert forall|j: int| 0 <= j < members@.len() implies #[trigger] members@[j]
            < photo_ids@.len() by {
            assert(all[k as int]@[j] < photo_ids@.len());
        }
        let ghost before = seeds@;
        if is_valid_seed(&members, photo_ids, min_points) {
            seeds.push(members);
            assert(seeds@.map_values(|s: Vec<usize>| s@) =~= before.map_values(
                |s: Vec<usize>| s@,
            ).push(all[k as int]@));
        }
        k = k + 1;
    }
    assert(views.take(n as int) =~= views);
    seeds
}

/// The photos already held by the members of a growing person, by feature id.
pub open spec fn holds_photo(photo_of: Map<i64, i64>, member_ids: Seq<i64>, photo_id: i64) -> bool {
    exists|k: int|
        0 <= k < member_ids.len() && #[trigger] photo_of.contains_key(member_ids[k])
            && photo_of[member_ids[k]] == photo_id
}

/// The known members of a person come from pairwise different photos.
pub open spec fn distinct_member_photos(photo_of: Map<i64, i64>, member_ids: Seq<i64>) -> bool {
    forall|x: int, y: int|
        0 <= x < y < member_ids.len() && photo_of.contains_key(#[trigger] member_ids[x])
            && photo_of.contains_key(#[trigger] member_ids[y]) ==> photo_of[member_ids[x]]
            != photo_of[member_ids[y]]
}

/// Whether one of `member_ids` is a face of `photo_id`, looked up in
/// `photo_of` (feature id to photo id); unknown members hold no photo.
pub fn seed_has_photo(member_ids: &Vec<i64>, photo_of: &HashMap<i64, i64>, photo_id: i64) -> (found:
    bool)
    ensures
        found == holds_photo(photo_of@, member_ids@, photo_id),
{
    let mut k: usize = 0;
    while k < member_ids.len()
        invariant
            k <= member_ids@.len(),
            forall|j: int|
                0 <= j < k ==> !(#[trigger] photo_of@.contains_key(member_ids@[j])
                    && photo_of@[member_ids@[j]] == photo_id),
        decreases member_ids.len() - k,
    {
        match photo_of.get(&member_ids[k]) {
            Some(p) => {
                if *p == photo_id {
                    assert(photo_of@.contains_key(member_ids@[k as int]));
                    return true;
                }
            },
            None => {},
        }
        k = k + 1;
    }
    false
}

/// Growing a person keeps one face per photo: a face whose photo the person
/// does not hold yet can join it, and its members still come from pairwise
/// different photos.
pub proof fn law_growth_keeps_one_face_per_photo(
    photo_of: Map<i64, i64>,
    member_ids: Seq<i64>,
    new_id: i64,
)
    requires
        distinct_member_photos(photo_of, member_ids),
        photo_of.contains_key(new_id),
        !holds_photo(photo_of, member_ids, photo_of[new_id]),
    ensures
        distinct_member_photos(photo_of, member_ids.push(new_id)),
{
    let grown = member_ids.push(new_id);
    assert forall|x: int, y: int|
        0 <= x < y < grown.len() && photo_of.contains_key(#[trigger] grown[x])
            && photo_of.contains_key(#[trigger] grown[y]) implies photo_of[grown[x]]
        != photo_of[grown[y]] by {
        if y == member_ids.len() {
            assert(grown[x] == member_ids[x]);
            assert(photo_of.contains_key(member_ids[x]));
        } else {
            assert(grown[x] == member_ids[x]);
            assert(grown[y] == member_ids[y]);
        }
    }
}

} // verus!
