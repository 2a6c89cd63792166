//! Counters kept beside the records: collection sizes, monthly timeline
//! counts, like toggles, and the outcome checks of updates and deletes.
use std::collections::{HashMap, HashSet};
use vstd::prelude::*;
use vstd::string::*;

use crate::errors::AppError;
use crate::paging::MediaRepo;
use crate::text::str_eq;

verus! {

broadcast use vstd::std_specs::hash::group_hash_axioms;

/// How many times `v` occurs in `s`.
pub open spec fn occurrences(s: Seq<i64>, v: i64) -> nat
    decreases s.len(),
{
    if s.len() == 0 {
        0
    } else {
        occurrences(s.drop_last(), v) + if s.last() == v {
            1nat
        } else {
            0nat
        }
    }
}

proof fn lemma_occurrences_bounds(s: Seq<i64>, v: i64)
    ensures
        occurrences(s, v) <= s.len(),
        occurrences(s, v) > 0 <==> s.contains(v),
    decreases s.len(),
{
    if s.len() > 0 {
        lemma_occurrences_bounds(s.drop_last(), v);
        if s.drop_last().contains(v) {
            let y = choose|y: int| 0 <= y < s.len() - 1 && s.drop_last()[y] == v;
            assert(s[y] == v);
        }
        if s.contains(v) && s.last() != v {
            let y = choose|y: int| 0 <= y < s.len() && s[y] == v;
            assert(s.drop_last()[y] == v);
        }
    }
}

/// Counting occurrences adds up over concatenation, and one value counts
/// once for itself and never for another: every removed link lowers the
/// count of exactly its own collection by one.
pub proof fn law_occurrences_count_each_link(s1: Seq<i64>, s2: Seq<i64>, v: i64, w: i64)
    ensures
        occurrences(s1 + s2, w) == occurrences(s1, w) + occurrences(s2, w),
        occurrences(seq![v], w) == if v == w {
            1nat
        } else {
            0nat
        },
        occurrences(Seq::<i64>::empty(), w) == 0,
    decreases s2.len(),
{
    assert(seq![v].drop_last() =~= Seq::<i64>::empty());
    assert(occurrences(Seq::<i64>::empty(), w) == 0);
    assert(seq![v].last() == v);
    if s2.len() == 0 {
        assert(s1 + s2 =~= s1);
    } else {
        law_occurrences_count_each_link(s1, s2.drop_last(), v, w);
        assert((s1 + s2).drop_last() =~= s1 + s2.drop_last());
        assert((s1 + s2).last() == s2.last());
    }
}

/// Links between collections and photos.
pub struct CollectionPhotoMapper;

impl CollectionPhotoMapper {
    /// The change of each collection's photo count when the links listed by
    /// `collection_ids` (one entry per removed link) are deleted: minus the
    /// number of links it loses.
    pub fn removal_deltas(collection_ids: &Vec<i64>) -> (deltas: HashMap<i64, i64>)
        requires
            collection_ids@.len() <= i64::MAX,
        ensures
            forall|c: i64| #[trigger] deltas@.contains_key(c) <==> collection_ids@.contains(c),
            forall|c: i64| #[trigger]
                deltas@.contains_key(c) ==> deltas@[c] == -(occurrences(collection_ids@, c) as int),
    {
        let ghost ids = collection_ids@;
        let mut deltas: HashMap<i64, i64> = HashMap::new();
        let mut k: usize = 0;
        while k < collection_ids.len()
            invariant
                k <= ids.len(),
                ids == collection_ids@,
                ids.len() <= i64::MAX,
                forall|c: i64| #[trigger]
                    deltas@.contains_key(c) <==> occurrences(ids.take(k as int), c) > 0,
                forall|c: i64| #[trigger]
                    deltas@.contains_key(c) ==> deltas@[c] == -(occurrences(ids.take(k as int), c) as int),
            decreases collection_ids.len() - k,
        {
            let c = collection_ids[k];
            assert(ids.take(k + 1).drop_last() =~= ids.take(k as int));
            proof {
                lemma_occurrences_bounds(ids.take(k as int), c);
            }
            let current = match deltas.get(&c) {
                Some(v) => *v,
                None => 0,
            };
            deltas.insert(c, current - 1);
            k = k + 1;
        }
        assert(ids.take(ids.len() as int) =~= ids);
        proof {
            assert forall|c: i64| #[trigger] deltas@.contains_key(c) <==> ids.contains(c) by {
                lemma_occurrences_bounds(ids, c);
            }
        }
        deltas
    }
}

/// The `YYYY-MM` month of a Unix time in seconds, as chrono renders it in
/// UTC; `None` when chrono cannot represent the time.
pub uninterp spec fn month_key_of(secs: i64) -> Option<Seq<char>>;

/// Renders the UTC month of a Unix time with chrono's
/// `DateTime::from_timestamp` and `format("%Y-%m")`. The contract names the
/// result (`month_key_of`); the calendar itself is not stated.
#[verifier::external_body]
fn month_key(secs: i64) -> (key: Option<String>)
    ensures
        match key {
            Some(k) => month_key_of(secs) == Some(k@),
            None => month_key_of(secs) is None,
        },
{
    chrono::DateTime::from_timestamp(secs, 0).map(|t| t.format("%Y-%m").to_string())
}

/// Where `key` first stands in the tally, if anywhere.
pub open spec fn tally_position(t: Seq<(Seq<char>, int)>, key: Seq<char>) -> int
    decreases t.len(),
{
    if t.len() == 0 {
        -1
    } else {
        let p = tally_position(t.drop_last(), key);
        if p >= 0 {
            p
        } else if t.last().0 == key {
            t.len() - 1
        } else {
            -1
        }
    }
}

/// Counts `keys`, each distinct key once, in the order of first appearance.
pub open spec fn tally(keys: Seq<Seq<char>>) -> Seq<(Seq<char>, int)>
    decreases keys.len(),
{
    if keys.len() == 0 {
        Seq::empty()
    } else {
        let t = tally(keys.drop_last());
        let key = keys.last();
        let p = tally_position(t, key);
        if p >= 0 {
            t.update(p, (key, t[p].1 + 1))
        } else {
            t.push((key, 1))
        }
    }
}

/// The months of `secs`, or `None` when one of them has none.
pub open spec fn month_keys(secs: Seq<i64>) -> Option<Seq<Seq<char>>>
    decreases secs.len(),
{
    if secs.len() == 0 {
        Some(Seq::empty())
    } else {
        match (month_keys(secs.drop_last()), month_key_of(secs.last())) {
            (Some(ks), Some(k)) => Some(ks.push(k)),
            _ => None,
        }
    }
}

proof fn lemma_tally_position(t: Seq<(Seq<char>, int)>, key: Seq<char>)
    ensures
        -1 <= tally_position(t, key) < t.len(),
        tally_position(t, key) >= 0 ==> t[tally_position(t, key)].0 == key,
        tally_position(t, key) < 0 ==> forall|x: int| 0 <= x < t.len() ==> #[trigger] t[x].0 != key,
        tally_position(t, key) >= 0 ==> forall|x: int|
            0 <= x < tally_position(t, key) ==> #[trigger] t[x].0 != key,
    decreases t.len(),
{
    if t.len() > 0 {
        let prev = t.drop_last();
        lemma_tally_position(prev, key);
        assert forall|x: int| 0 <= x < t.len() - 1 implies #[trigger] t[x].0 == prev[x].0 by {}
    }
}

proof fn lemma_tally_counts_bounded(keys: Seq<Seq<char>>)
    ensures
        tally(keys).len() <= keys.len(),
        forall|x: int| 0 <= x < tally(keys).len() ==> 1 <= #[trigger] tally(keys)[x].1 <= keys.len(),
    decreases keys.len(),
{
    if keys.len() > 0 {
        lemma_tally_counts_bounded(keys.drop_last());
        lemma_tally_position(tally(keys.drop_last()), keys.last());
    }
}

/// The monthly timeline counts.
pub struct TimelineStatMapper;

/// A tally with its keys as plain characters.
pub open spec fn tally_view(t: Seq<(String, i64)>) -> Seq<(Seq<char>, int)> {
    t.map_values(|p: (String, i64)| (p.0@, p.1 as int))
}

impl TimelineStatMapper {
    /// How many photos each month loses when photos with these creation
    /// times (Unix seconds) are deleted, each month once in order of first
    /// appearance; `None` when a time has no calendar month.
    pub fn month_decrements(created_ats: &Vec<i64>) -> (counts: Option<Vec<(String, i64)>>)
        requires
            created_ats@.len() <= i64::MAX,
        ensures
            match month_keys(created_ats@) {
                None => counts is None,
                Some(keys) => counts matches Some(c) && tally_view(c@) == tally(keys),
            },
    {
        let mut counts: Vec<(String, i64)> = Vec::new();
        let ghost mut keys: Seq<Seq<char>> = Seq::empty();
        let mut k: usize = 0;
        while k < created_ats.len()
            invariant
                k <= created_ats@.len(),
                created_ats@.len() <= i64::MAX,
                month_keys(created_ats@.take(k as int)) == Some(keys),
                keys.len() == k,
                tally_view(counts@) == tally(keys),
            decreases created_ats.len() - k,
        {
            let secs = created_ats[k];
            assert(created_ats@.take(k + 1).drop_last() =~= created_ats@.take(k as int));
            let key = match month_key(secs) {
                Some(key) => key,
                None => {
                    proof {
                        lemma_month_keys_none_extends(created_ats@, k as int);
                    }
                    return None;
                },
            };
            let ghost t = tally(keys);
            proof {
                lemma_tally_position(t, key@);
                lemma_tally_counts_bounded(keys);
            }
            let mut pos: usize = counts.len();
            let mut q: usize = 0;
            while q < counts.len()
                invariant
                    q <= counts@.len(),
                    tally_view(counts@) == t,
                    pos == counts@.len() ==> forall|x: int| 0 <= x < q ==> #[trigger] t[x].0 != key@,
                    pos < counts@.len() ==> pos < q && t[pos as int].0 == key@ && forall|x: int|
                        0 <= x < pos ==> #[trigger] t[x].0 != key@,
                    pos <= counts@.len(),
                decreases counts.len() - q,
            {
                assert(t[q as int].0 == counts@[q as int].0@);
                if pos == counts.len() && str_eq(counts[q].0.as_str(), key.as_str()) {
                    pos = q;
                }
                q = q + 1;
            }
            let ghost old_keys = keys;
            if pos < counts.len() {
                assert(tally_position(t, key@) == pos);
                assert(t[pos as int].1 <= keys.len());
                let bumped = counts[pos].1 + 1;
                let name = String::from_str(counts[pos].0.as_str());
                counts.set(pos, (name, bumped));
            } else {
                assert(tally_position(t, key@) < 0);
                counts.push((key, 1));
            }
            proof {
                keys = keys.push(key@);
                assert(keys.drop_last() =~= old_keys);
                assert(tally_view(counts@) =~= tally(keys));
            }
            k = k + 1;
        }
        assert(created_ats@.take(created_ats@.len() as int) =~= created_ats@);
        Some(counts)
    }
}

/// How many times `key` occurs in `keys`.
pub open spec fn key_count(keys: Seq<Seq<char>>, key: Seq<char>) -> int
    decreases keys.len(),
{
    if keys.len() == 0 {
        0
    } else {
        key_count(keys.drop_last(), key) + if keys.last() == key {
            1int
        } else {
            0int
        }
    }
}

/// The sum of the counts of a tally.
pub open spec fn tally_total(t: Seq<(Seq<char>, int)>) -> int
    decreases t.len(),
{
    if t.len() == 0 {
        0
    } else {
        tally_total(t.drop_last()) + t.last().1
    }
}

proof fn lemma_key_count_pos(keys: Seq<Seq<char>>, key: Seq<char>)
    ensures
        key_count(keys, key) >= 0,
        key_count(keys, key) > 0 ==> exists|k: int| 0 <= k < keys.len() && keys[k] == key,
    decreases keys.len(),
{
    if keys.len() > 0 {
        lemma_key_count_pos(keys.drop_last(), key);
        if key_count(keys.drop_last(), key) > 0 {
            let k = choose|k: int| 0 <= k < keys.len() - 1 && keys.drop_last()[k] == key;
            assert(keys[k] == key);
        } else if keys.last() == key {
            assert(keys[keys.len() - 1] == key);
        }
    }
}

proof fn lemma_total_update(t: Seq<(Seq<char>, int)>, p: int, entry: (Seq<char>, int))
    requires
        0 <= p < t.len(),
    ensures
        tally_total(t.update(p, entry)) == tally_total(t) - t[p].1 + entry.1,
    decreases t.len(),
{
    let u = t.update(p, entry);
    if p < t.len() - 1 {
        assert(u.drop_last() =~= t.drop_last().update(p, entry));
        lemma_total_update(t.drop_last(), p, entry);
    } else {
        assert(u.drop_last() =~= t.drop_last());
    }
}

/// A tally names each key once, counts each key as often as it occurs,
/// and its counts add up to the number of keys: no deleted photo is
/// counted twice or lost.
pub proof fn law_tally_counts_each_key_once(keys: Seq<Seq<char>>)
    ensures
        forall|x: int, y: int|
            0 <= x < y < tally(keys).len() ==> #[trigger] tally(keys)[x].0 != #[trigger] tally(
                keys,
            )[y].0,
        forall|x: int|
            0 <= x < tally(keys).len() ==> #[trigger] tally(keys)[x].1 == key_count(
                keys,
                tally(keys)[x].0,
            ),
        forall|k: int|
            0 <= k < keys.len() ==> exists|x: int|
                0 <= x < tally(keys).len() && #[trigger] tally(keys)[x].0 == #[trigger] keys[k],
        tally_total(tally(keys)) == keys.len(),
    decreases keys.len(),
{
    if keys.len() > 0 {
        let prev = keys.drop_last();
        let key = keys.last();
        let t = tally(prev);
        law_tally_counts_each_key_once(prev);
        lemma_tally_position(t, key);
        let p = tally_position(t, key);
        let t2 = tally(keys);
        if p >= 0 {
            lemma_total_update(t, p, (key, t[p].1 + 1));
        } else {
            assert(t2.drop_last() =~= t);
        }
        assert forall|x: int| 0 <= x < t2.len() implies #[trigger] t2[x].1 == key_count(
            keys,
            t2[x].0,
        ) by {
            assert(keys.drop_last() == prev);
            if x < t.len() {
                assert(t2[x].0 == t[x].0);
                if x != p {
                    assert(t[x].0 != key);
                }
            } else {
                lemma_key_count_pos(prev, key);
                if key_count(prev, key) > 0 {
                    let k = choose|k: int| 0 <= k < prev.len() && prev[k] == key;
                    let y = choose|y: int| 0 <= y < t.len() && t[y].0 == prev[k];
                    assert(t[y].0 == key);
                }
            }
        }
        assert forall|k: int| 0 <= k < keys.len() implies exists|x: int|
            0 <= x < t2.len() && #[trigger] t2[x].0 == #[trigger] keys[k] by {
            if k < keys.len() - 1 {
                assert(prev[k] == keys[k]);
                let x = choose|x: int| 0 <= x < t.len() && t[x].0 == prev[k];
                assert(t2[x].0 == keys[k]);
            } else if p >= 0 {
                assert(t2[p].0 == keys[k]);
            } else {
                assert(t2[t.len() as int].0 == keys[k]);
            }
        }
    }
}

proof fn lemma_month_keys_none_extends(secs: Seq<i64>, k: int)
    requires
        0 <= k < secs.len(),
        month_key_of(secs[k]) is None,
    ensures
        month_keys(secs) is None,
    decreases secs.len(),
{
    if k < secs.len() - 1 {
        lemma_month_keys_none_extends(secs.drop_last(), k);
    }
}

/// The error when a like is recorded twice.
pub open spec fn like_outcome_spec(inserted: bool) -> Result<(), AppError> {
    if inserted {
        Ok(())
    } else {
        Err(AppError::BadRequest("已经点赞过"))
    }
}

/// The error when a missing like is withdrawn.
pub open spec fn unlike_outcome_spec(deleted: bool) -> Result<(), AppError> {
    if deleted {
        Ok(())
    } else {
        Err(AppError::BadRequest("还未点赞"))
    }
}

impl MediaRepo {
    /// A like goes through only when its row was new.
    pub fn like_outcome(inserted: bool) -> (outcome: Result<(), AppError>)
        ensures
            outcome == like_outcome_spec(inserted),
    {
        if inserted {
            Ok(())
        } else {
            Err(AppError::BadRequest("已经点赞过"))
        }
    }

    /// An unlike goes through only when a like row was deleted.
    pub fn unlike_outcome(deleted: bool) -> (outcome: Result<(), AppError>)
        ensures
            outcome == unlike_outcome_spec(deleted),
    {
        if deleted {
            Ok(())
        } else {
            Err(AppError::BadRequest("还未点赞"))
        }
    }
}

/// Queries over collections.
pub struct CollectionMapper;

impl CollectionMapper {
    /// An update of a collection's information touches the table only when
    /// it changes the name or the description.
    pub fn info_update_needed(name: &Option<String>, description: &Option<String>) -> (needed:
        bool)
        ensures
            needed == (name is Some || description is Some),
    {
        name.is_some() || description.is_some()
    }

    /// An update that matched no row of the user's collections is refused.
    pub fn check_info_updated(rows_affected: u64) -> (outcome: Result<(), AppError>)
        ensures
            rows_affected == 0 ==> outcome == Err::<(), AppError>(
                AppError::BadRequest("修改收藏夹信息失败"),
            ),
            rows_affected != 0 ==> outcome == Ok::<(), AppError>(()),
    {
        if rows_affected == 0 {
            Err(AppError::BadRequest("修改收藏夹信息失败"))
        } else {
            Ok(())
        }
    }

    /// A delete that matched no row of the user's collections is refused.
    pub fn check_deleted(rows_affected: u64) -> (outcome: Result<(), AppError>)
        ensures
            rows_affected == 0 ==> outcome == Err::<(), AppError>(
                AppError::BadRequest("删除收藏夹失败"),
            ),
            rows_affected != 0 ==> outcome == Ok::<(), AppError>(()),
    {
        if rows_affected == 0 {
            Err(AppError::BadRequest("删除收藏夹失败"))
        } else {
            Ok(())
        }
    }
}

/// Assembles comment pages.
pub struct CommentService;

/// The comments of a page followed by the hot comments, each with whether
/// the user likes it.
pub open spec fn marked_comments(page_ids: Seq<i64>, hot_ids: Seq<i64>, liked: Set<i64>) -> Seq<
    (i64, bool),
> {
    (page_ids + hot_ids).map_values(|id: i64| (id, liked.contains(id)))
}

impl CommentService {
    /// The comments shown with a page: the page's own, then the hot ones,
    /// each marked as liked when the user likes it.
    pub fn mark_liked(page_ids: &Vec<i64>, hot_ids: &Vec<i64>, liked: &HashSet<i64>) -> (marked:
        Vec<(i64, bool)>)
        ensures
            marked@ == marked_comments(page_ids@, hot_ids@, liked@),
    {
        let ghost all = page_ids@ + hot_ids@;
        let mut marked: Vec<(i64, bool)> = Vec::new();
        let mut k: usize = 0;
        while k < page_ids.len()
            invariant
                k <= page_ids@.len(),
                all == page_ids@ + hot_ids@,
                marked@ =~= all.take(k as int).map_values(|id: i64| (id, liked@.contains(id))),
            decreases page_ids.len() - k,
        {
            let id = page_ids[k];
            marked.push((id, liked.contains(&id)));
            k = k + 1;
        }
        let mut q: usize = 0;
        while q < hot_ids.len()
            invariant
                q <= hot_ids@.len(),
                all == page_ids@ + hot_ids@,
                marked@ =~= all.take(page_ids@.len() + q).map_values(
                    |id: i64| (id, liked@.contains(id)),
                ),
            decreases hot_ids.len() - q,
        {
            let id = hot_ids[q];
            assert(all[page_ids@.len() + q] == id);
            marked.push((id, liked.contains(&id)));
            q = q + 1;
        }
        assert(all.take(all.len() as int) =~= all);
        marked
    }
}

} // verus!
