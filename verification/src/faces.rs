//! The integer side of keeping people in step with their faces: which
//! features each person loses, their new photo counts, and whether the
//! cover face has to be chosen again.
use std::collections::HashMap;
use vstd::prelude::*;

use crate::sql::{FacePersonMapper, PersonMapper};

verus! {

broadcast use vstd::std_specs::hash::group_hash_axioms;

/// The identifiers of the features of `features` that belong to `person`, in order.
pub open spec fn features_of(features: Seq<(i64, Option<i64>)>, person: i64) -> Seq<i64>
    decreases features.len(),
{
    if features.len() == 0 {
        Seq::empty()
    } else {
        let rest = features_of(features.drop_last(), person);
        if features.last().1 == Some(person) {
            rest.push(features.last().0)
        } else {
            rest
        }
    }
}

/// Grouping works feature by feature, in order: the group of a person over
/// two runs of features is its group over the first followed by its group
/// over the second, and a single feature joins exactly the group of the
/// person it belonged to (none when it belonged to no one).
pub proof fn law_features_group_one_by_one(
    s1: Seq<(i64, Option<i64>)>,
    s2: Seq<(i64, Option<i64>)>,
    feature: (i64, Option<i64>),
    person: i64,
)
    ensures
        features_of(s1 + s2, person) == features_of(s1, person) + features_of(s2, person),
        features_of(seq![feature], person) == if feature.1 == Some(person) {
            seq![feature.0]
        } else {
            Seq::<i64>::empty()
        },
    decreases s2.len(),
{
    assert(seq![feature].drop_last() =~= Seq::<(i64, Option<i64>)>::empty());
    assert(features_of(Seq::<(i64, Option<i64>)>::empty(), person) == Seq::<i64>::empty());
    assert(seq![feature].last() == feature);
    if s2.len() == 0 {
        assert(s1 + s2 =~= s1);
        assert(features_of(s1, person) + features_of(s2, person) =~= features_of(s1, person));
    } else {
        law_features_group_one_by_one(s1, s2.drop_last(), feature, person);
        assert((s1 + s2).drop_last() =~= s1 + s2.drop_last());
        assert((s1 + s2).last() == s2.last());
        assert(features_of(s1 + s2, person) =~= features_of(s1, person) + features_of(s2, person));
    }
    assert(features_of(seq![feature], person) =~= if feature.1 == Some(person) {
        seq![feature.0]
    } else {
        Seq::<i64>::empty()
    });
}

/// Some feature of `features` belongs to `person`.
pub open spec fn has_person(features: Seq<(i64, Option<i64>)>, person: i64) -> bool {
    exists|k: int| 0 <= k < features.len() && #[trigger] features[k].1 == Some(person)
}

proof fn lemma_features_of_nonempty(features: Seq<(i64, Option<i64>)>, person: i64)
    ensures
        features_of(features, person).len() > 0 <==> has_person(features, person),
    decreases features.len(),
{
    if features.len() > 0 {
        let prev = features.drop_last();
        lemma_features_of_nonempty(prev, person);
        if has_person(prev, person) {
            let k = choose|k: int| 0 <= k < prev.len() && #[trigger] prev[k].1 == Some(person);
            assert(features[k].1 == Some(person));
        }
        if has_person(features, person) && features.last().1 != Some(person) {
            let k = choose|k: int| 0 <= k < features.len() && #[trigger] features[k].1 == Some(person);
            assert(prev[k].1 == Some(person));
        }
    }
}

/// What deleting some of a person's features does to the person.
#[derive(Debug)]
pub struct PersonDecrement {
    pub person_id: i64,
    /// The deleted features of this person, in the order given.
    pub removed_feature_ids: Vec<i64>,
    /// The photo count less the deleted features, never below zero.
    pub new_total_photo_count: i64,
    /// The person's best-scoring feature is among the deleted ones.
    pub need_update_max_score: bool,
}

/// The photo count after removing `removed` photos, clamped at zero.
pub open spec fn decremented_count(count: i64, removed: nat) -> i64 {
    if count - removed < 0 {
        0
    } else {
        (count - removed) as i64
    }
}

/// The stored state of a person that a decrement reads.
#[derive(Debug, Clone, Copy, PartialEq, Eq, Structural)]
pub struct PersonCounts {
    pub person_id: i64,
    pub total_photo_count: i64,
    pub max_score_feature_id: i64,
}

/// The decrement of `person` when it loses the features `removed`.
pub open spec fn decrement_of(p: PersonCounts, removed: Seq<i64>) -> (i64, bool) {
    (
        decremented_count(p.total_photo_count, removed.len()),
        removed.contains(p.max_score_feature_id),
    )
}

/// The people of `persons` that lose features, in order.
pub open spec fn affected(persons: Seq<PersonCounts>, groups: Map<i64, Vec<i64>>) -> Seq<PersonCounts>
    decreases persons.len(),
{
    if persons.len() == 0 {
        Seq::empty()
    } else {
        let rest = affected(persons.drop_last(), groups);
        if groups.contains_key(persons.last().person_id) {
            rest.push(persons.last())
        } else {
            rest
        }
    }
}

/// A decrement re-chooses the best-scoring feature exactly when one of the
/// deleted features, at any position, is the person's best one; and the
/// photo count drops by the number of deleted features, stopping at zero.
pub proof fn law_decrement_flags_any_lost_best(p: PersonCounts, removed: Seq<i64>)
    ensures
        decrement_of(p, removed).1 <==> exists|y: int|
            0 <= y < removed.len() && removed[y] == p.max_score_feature_id,
        forall|y: int|
            0 <= y < removed.len() && removed[y] == p.max_score_feature_id ==> decrement_of(
                p,
                removed,
            ).1,
        p.total_photo_count >= removed.len() ==> decrement_of(p, removed).0
            == p.total_photo_count - removed.len(),
        p.total_photo_count < removed.len() ==> decrement_of(p, removed).0 == 0,
{
    if exists|y: int| 0 <= y < removed.len() && removed[y] == p.max_score_feature_id {
        let y = choose|y: int| 0 <= y < removed.len() && removed[y] == p.max_score_feature_id;
        assert(removed.contains(p.max_score_feature_id));
    }
}

/// The people that a plan covers are exactly those of `persons` that lost
/// features, each once per occurrence and in the order of `persons`.
pub proof fn law_affected_are_the_losers(persons: Seq<PersonCounts>, groups: Map<i64, Vec<i64>>)
    ensures
        forall|x: int|
            0 <= x < affected(persons, groups).len() ==> groups.contains_key(
                #[trigger] affected(persons, groups)[x].person_id,
            ) && persons.contains(affected(persons, groups)[x]),
        forall|k: int|
            0 <= k < persons.len() && groups.contains_key(#[trigger] persons[k].person_id)
                ==> affected(persons, groups).contains(persons[k]),
        affected(persons, groups).len() <= persons.len(),
    decreases persons.len(),
{
    if persons.len() > 0 {
        let prev = persons.drop_last();
        law_affected_are_the_losers(prev, groups);
        let a = affected(persons, groups);
        let b = affected(prev, groups);
        assert forall|x: int| 0 <= x < a.len() implies groups.contains_key(
            #[trigger] a[x].person_id,
        ) && persons.contains(a[x]) by {
            if x < b.len() {
                assert(a[x] == b[x]);
                assert(groups.contains_key(b[x].person_id));
                assert(prev.contains(b[x]));
                let y = choose|y: int| 0 <= y < prev.len() && prev[y] == b[x];
                assert(persons[y] == a[x]);
            } else {
                assert(persons[persons.len() - 1] == a[x]);
            }
        }
        assert forall|k: int|
            0 <= k < persons.len() && groups.contains_key(
                #[trigger] persons[k].person_id,
            ) implies a.contains(persons[k]) by {
            if k < persons.len() - 1 {
                assert(prev[k] == persons[k]);
                let y = choose|y: int| 0 <= y < b.len() && b[y] == prev[k];
                assert(a[y] == b[y]);
            } else {
                assert(a[a.len() - 1] == persons[k]);
            }
        }
    }
}

impl FacePersonMapper {
    /// Groups deleted features by the person they belonged to; features that
    /// belonged to no one are left out. Each group keeps the given order.
    pub fn group_features_by_person(features: &Vec<(i64, Option<i64>)>) -> (groups: HashMap<
        i64,
        Vec<i64>,
    >)
        ensures
            forall|p: i64| #[trigger]
                groups@.contains_key(p) <==> has_person(features@, p),
            forall|p: i64| #[trigger]
                groups@.contains_key(p) ==> groups@[p]@ == features_of(features@, p),
    {
        let mut groups: HashMap<i64, Vec<i64>> = HashMap::new();
        let mut k: usize = 0;
        while k < features.len()
            invariant
                k <= features@.len(),
                forall|p: i64| #[trigger]
                    groups@.contains_key(p) <==> features_of(features@.take(k as int), p).len()
                        > 0,
                forall|p: i64| #[trigger]
                    groups@.contains_key(p) ==> groups@[p]@ == features_of(
                        features@.take(k as int),
                        p,
                    ),
            decreases features.len() - k,
        {
            let (feature_id, person_id) = features[k];
            let ghost prev = features@.take(k as int);
            let ghost next = features@.take(k + 1);
            assert(next.drop_last() =~= prev);
            match person_id {
                None => {},
                Some(pid) => {
                    let mut members = match groups.remove(&pid) {
                        Some(v) => v,
                        None => Vec::new(),
                    };
                    members.push(feature_id);
                    groups.insert(pid, members);
                },
            }
            k = k + 1;
        }
        assert(features@.take(features@.len() as int) =~= features@);
        proof {
            assert forall|p: i64| #[trigger]
                groups@.contains_key(p) <==> has_person(features@, p) by {
                lemma_features_of_nonempty(features@, p);
            }
        }
        groups
    }

    /// The decrement of each person that loses features, in the order of
    /// `persons`: the photo count drops by the number of lost features (not
    /// below zero), and the best-scoring feature must be chosen again when
    /// it was lost.
    pub fn decrement_plan(groups: &HashMap<i64, Vec<i64>>, persons: &Vec<PersonCounts>) -> (plan:
        Vec<PersonDecrement>)
        requires
            forall|p: i64| #[trigger]
                groups@.contains_key(p) ==> groups@[p]@.len() <= i64::MAX,
        ensures
            plan@.len() == affected(persons@, groups@).len(),
            forall|x: int|
                0 <= x < plan@.len() ==> {
                    let p = #[trigger] affected(persons@, groups@)[x];
                    let removed = groups@[p.person_id]@;
                    &&& plan@[x].person_id == p.person_id
                    &&& plan@[x].removed_feature_ids@ == removed
                    &&& (plan@[x].new_total_photo_count, plan@[x].need_update_max_score)
                        == decrement_of(p, removed)
                    &&& (plan@[x].need_update_max_score <==> exists|y: int|
                        0 <= y < removed.len() && removed[y] == p.max_score_feature_id)
                    &&& plan@[x].new_total_photo_count == if p.total_photo_count >= removed.len() {
                        p.total_photo_count - removed.len()
                    } else {
                        0
                    }
                },
    {
        let mut plan: Vec<PersonDecrement> = Vec::new();
        let mut k: usize = 0;
        while k < persons.len()
            invariant
                k <= persons@.len(),
                forall|p: i64| #[trigger]
                    groups@.contains_key(p) ==> groups@[p]@.len() <= i64::MAX,
                plan@.len() == affected(persons@.take(k as int), groups@).len(),
                forall|x: int|
                    0 <= x < plan@.len() ==> {
                        let p = #[trigger] affected(persons@.take(k as int), groups@)[x];
                        let removed = groups@[p.person_id]@;
                        &&& plan@[x].person_id == p.person_id
                        &&& plan@[x].removed_feature_ids@ == removed
                        &&& (plan@[x].new_total_photo_count, plan@[x].need_update_max_score)
                            == decrement_of(p, removed)
                    },
            decreases persons.len() - k,
        {
            let person = persons[k];
            let ghost prev = persons@.take(k as int);
            let ghost next = persons@.take(k + 1);
            assert(next.drop_last() =~= prev);
            match groups.get(&person.person_id) {
                None => {},
                Some(removed) => {
                    let n = removed.len() as i64;
                    let new_count = if person.total_photo_count < n {
                        0
                    } else {
                        person.total_photo_count - n
                    };
                    let mut lost_best = false;
                    let mut q: usize = 0;
                    while q < removed.len()
                        invariant
                            q <= removed@.len(),
                            lost_best <==> exists|y: int|
                                0 <= y < q && removed@[y] == person.max_score_feature_id,
                        decreases removed.len() - q,
                    {
                        if removed[q] == person.max_score_feature_id {
                            lost_best = true;
                        }
                        q = q + 1;
                    }
                    proof {
                        if lost_best {
                            let y = choose|y: int|
                                0 <= y < q && removed@[y] == person.max_score_feature_id;
                            assert(removed@.contains(person.max_score_feature_id));
                        }
                    }
                    plan.push(
                        PersonDecrement {
                            person_id: person.person_id,
                            removed_feature_ids: removed.clone(),
                            new_total_photo_count: new_count,
                            need_update_max_score: lost_best,
                        },
                    );
                },
            }
            k = k + 1;
        }
        assert(persons@.take(persons@.len() as int) =~= persons@);
        plan
    }
}

/// The people of a plan whose best-scoring feature was deleted, in order.
pub open spec fn needing_new_best(plan: Seq<PersonDecrement>) -> Seq<i64>
    decreases plan.len(),
{
    if plan.len() == 0 {
        Seq::empty()
    } else {
        let rest = needing_new_best(plan.drop_last());
        if plan.last().need_update_max_score {
            rest.push(plan.last().person_id)
        } else {
            rest
        }
    }
}

/// The new best-scoring feature of a person: the top remaining feature that
/// the lookup `top` found, or -1 when the person has none left.
pub open spec fn best_replacement(top: Map<i64, Option<i64>>, person_id: i64) -> i64 {
    if top.contains_key(person_id) && top[person_id] is Some {
        top[person_id]->0
    } else {
        -1i64
    }
}

impl FacePersonMapper {
    /// The people whose best-scoring feature must be looked up again.
    pub fn persons_needing_new_best(plan: &Vec<PersonDecrement>) -> (ids: Vec<i64>)
        ensures
            ids@ == needing_new_best(plan@),
    {
        let mut ids: Vec<i64> = Vec::new();
        let mut k: usize = 0;
        while k < plan.len()
            invariant
                k <= plan@.len(),
                ids@ == needing_new_best(plan@.take(k as int)),
            decreases plan.len() - k,
        {
            assert(plan@.take(k + 1).drop_last() =~= plan@.take(k as int));
            if plan[k].need_update_max_score {
                ids.push(plan[k].person_id);
            }
            k = k + 1;
        }
        assert(plan@.take(plan@.len() as int) =~= plan@);
        ids
    }

    /// The best-scoring feature each decrement sets: `None` where the
    /// person keeps its own, else the top remaining feature found in `top`
    /// (person id to the id of its top feature), or -1 when none is left.
    pub fn new_best_features(plan: &Vec<PersonDecrement>, top: &HashMap<i64, Option<i64>>) -> (best:
        Vec<Option<i64>>)
        ensures
            best@.len() == plan@.len(),
            forall|k: int|
                0 <= k < plan@.len() ==> #[trigger] best@[k] == if plan@[k].need_update_max_score {
                    Some(best_replacement(top@, plan@[k].person_id))
                } else {
                    None
                },
    {
        let mut best: Vec<Option<i64>> = Vec::new();
        let mut k: usize = 0;
        while k < plan.len()
            invariant
                k <= plan@.len(),
                best@.len() == k,
                forall|x: int|
                    0 <= x < k ==> #[trigger] best@[x] == if plan@[x].need_update_max_score {
                        Some(best_replacement(top@, plan@[x].person_id))
                    } else {
                        None
                    },
            decreases plan.len() - k,
        {
            if plan[k].need_update_max_score {
                let feature = match top.get(&plan[k].person_id) {
                    Some(found) => match found {
                        Some(f) => *f,
                        None => -1,
                    },
                    None => -1,
                };
                best.push(Some(feature));
            } else {
                best.push(None);
            }
            k = k + 1;
        }
        best
    }
}

impl PersonMapper {
    /// Adding faces to a person: nothing to do without faces, else the face
    /// count grows by their number.
    pub fn added_face_count(face_count: u64, added: usize) -> (count: Option<u64>)
        requires
            face_count + added <= u64::MAX,
        ensures
            added == 0 ==> count is None,
            added > 0 ==> count == Some((face_count + added) as u64),
    {
        if added == 0 {
            None
        } else {
            Some(face_count + added as u64)
        }
    }

    /// Removing faces from a person: the face count drops by their number,
    /// and the cover has to be chosen again when its face is among them.
    pub fn removal_plan(face_count: u64, face_ids: &[i64], cover_face_id: i64) -> (plan: (u64, bool))
        requires
            face_ids@.len() <= face_count,
        ensures
            plan.0 == face_count - face_ids@.len(),
            plan.1 == face_ids@.contains(cover_face_id),
    {
        let mut cover_removed = false;
        let mut k: usize = 0;
        while k < face_ids.len()
            invariant
                k <= face_ids@.len(),
                cover_removed <==> exists|y: int| 0 <= y < k && face_ids@[y] == cover_face_id,
            decreases face_ids.len() - k,
        {
            if face_ids[k] == cover_face_id {
                cover_removed = true;
            }
            k = k + 1;
        }
        proof {
            if cover_removed {
                let y = choose|y: int| 0 <= y < k && face_ids@[y] == cover_face_id;
                assert(face_ids@.contains(cover_face_id));
            }
        }
        (face_count - face_ids.len() as u64, cover_removed)
    }
}

} // verus!
