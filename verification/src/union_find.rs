//! Disjoint-set forest with union by rank and path halving.
use std::collections::HashMap;
use vstd::prelude::*;

verus! {

broadcast use vstd::std_specs::hash::group_hash_axioms;

/// Number of positions of `s` that hold `v`.
pub open spec fn count_of(s: Seq<usize>, v: usize) -> nat
    decreases s.len(),
{
    if s.len() == 0 {
        0
    } else {
        count_of(s.drop_last(), v) + if s.last() == v {
            1nat
        } else {
            0nat
        }
    }
}

/// Every occurrence of `loser` in `reps` replaced by `winner`.
pub open spec fn relabel(reps: Seq<usize>, loser: usize, winner: usize) -> Seq<usize> {
    reps.map_values(|r: usize| if r == loser { winner } else { r })
}

proof fn lemma_count_le_len(s: Seq<usize>, v: usize)
    ensures
        count_of(s, v) <= s.len(),
    decreases s.len(),
{
    if s.len() > 0 {
        lemma_count_le_len(s.drop_last(), v);
    }
}

proof fn lemma_count_pos(s: Seq<usize>, v: usize, k: int)
    requires
        0 <= k < s.len(),
        s[k] == v,
    ensures
        count_of(s, v) >= 1,
    decreases s.len(),
{
    if k < s.len() - 1 {
        lemma_count_pos(s.drop_last(), v, k);
    }
}

proof fn lemma_count_relabel(s: Seq<usize>, loser: usize, winner: usize, v: usize)
    requires
        loser != winner,
    ensures
        v == winner ==> count_of(relabel(s, loser, winner), v) == count_of(s, winner) + count_of(
            s,
            loser,
        ),
        v != winner && v != loser ==> count_of(relabel(s, loser, winner), v) == count_of(s, v),
    decreases s.len(),
{
    if s.len() > 0 {
        let t = relabel(s, loser, winner);
        assert(t.drop_last() =~= relabel(s.drop_last(), loser, winner));
        lemma_count_relabel(s.drop_last(), loser, winner, v);
    }
}

/// A forest over the elements `0..n`: `parent` links, a rank per element,
/// and, as ghost state, the root that each element reaches.
pub struct UnionFind {
    parent: Vec<usize>,
    rank: Vec<usize>,
    roots: Ghost<Seq<usize>>,
}

impl View for UnionFind {
    type V = Seq<usize>;

    /// The representative (root) of each element.
    closed spec fn view(&self) -> Seq<usize> {
        self.roots@
    }
}

/// The root that wins when the trees rooted at `ri` and `rj` are joined:
/// the one of higher rank, `rj` when the ranks are equal.
pub open spec fn union_winner(ranks: Seq<usize>, ri: usize, rj: usize) -> usize {
    if ranks[ri as int] > ranks[rj as int] {
        ri
    } else {
        rj
    }
}

/// The root that is attached below the winner.
pub open spec fn union_loser(ranks: Seq<usize>, ri: usize, rj: usize) -> usize {
    if ranks[ri as int] > ranks[rj as int] {
        rj
    } else {
        ri
    }
}

/// The ranks after joining the trees rooted at `ri != rj`: only a tie
/// raises the rank of the winner, by one.
pub open spec fn union_ranks(ranks: Seq<usize>, ri: usize, rj: usize) -> Seq<usize> {
    if ranks[ri as int] == ranks[rj as int] {
        ranks.update(rj as int, (ranks[rj as int] + 1) as usize)
    } else {
        ranks
    }
}

/// A union joins exactly the two sets of its arguments: afterwards two
/// elements share a representative iff they did before, or one was with `i`
/// and the other with `j`.
pub proof fn law_union_merges_two_sets(
    reps: Seq<usize>,
    ranks: Seq<usize>,
    i: int,
    j: int,
    a: int,
    b: int,
)
    requires
        0 <= i < reps.len(),
        0 <= j < reps.len(),
        0 <= a < reps.len(),
        0 <= b < reps.len(),
        reps[i] < ranks.len(),
        reps[j] < ranks.len(),
    ensures
        ({
            let ri = reps[i];
            let rj = reps[j];
            let after = if ri == rj {
                reps
            } else {
                relabel(reps, union_loser(ranks, ri, rj), union_winner(ranks, ri, rj))
            };
            &&& after[i] == after[j]
            &&& (after[a] == after[b]) <==> (reps[a] == reps[b] || (reps[a] == ri && reps[b] == rj)
                || (reps[a] == rj && reps[b] == ri))
        }),
{
}

impl UnionFind {
    /// The rank of each element.
    pub closed spec fn ranks(&self) -> Seq<usize> {
        self.rank@
    }

    /// The forest is consistent with its ghost roots.
    pub closed spec fn wf(&self) -> bool {
        let n = self.parent@.len();
        let p = self.parent@;
        let rk = self.rank@;
        let r = self.roots@;
        &&& rk.len() == n
        &&& r.len() == n
        &&& forall|i: int| 0 <= i < n ==> #[trigger] p[i] < n
        &&& forall|i: int| 0 <= i < n ==> #[trigger] r[i] < n
        &&& forall|i: int| 0 <= i < n ==> r[#[trigger] r[i] as int] == r[i]
        &&& forall|i: int| 0 <= i < n ==> p[#[trigger] r[i] as int] == r[i]
        &&& forall|i: int| 0 <= i < n ==> r[#[trigger] p[i] as int] == r[i]
        &&& forall|i: int| 0 <= i < n && #[trigger] p[i] == i ==> r[i] == i
        &&& forall|i: int| 0 <= i < n && #[trigger] p[i] != i ==> rk[i] < rk[p[i] as int]
        &&& forall|i: int| 0 <= i < n ==> #[trigger] rk[i] < n
        &&& forall|i: int|
            0 <= i < n && #[trigger] r[i] == i ==> rk[i] < count_of(r, i as usize)
    }

    /// A forest of `n` singleton sets.
    pub fn new(n: usize) -> (uf: Self)
        ensures
            uf.wf(),
            uf@ == Seq::new(n as nat, |i: int| i as usize),
            uf.ranks() == Seq::new(n as nat, |i: int| 0usize),
    {
        let mut parent: Vec<usize> = Vec::new();
        let mut rank: Vec<usize> = Vec::new();
        let mut k: usize = 0;
        while k < n
            invariant
                k <= n,
                parent@ == Seq::new(k as nat, |i: int| i as usize),
                rank@ == Seq::new(k as nat, |i: int| 0usize),
            decreases n - k,
        {
            parent.push(k);
            rank.push(0);
            k = k + 1;
        }
        let ghost roots = Seq::new(n as nat, |i: int| i as usize);
        let uf = UnionFind { parent, rank, roots: Ghost(roots) };
        assert forall|i: int| 0 <= i < n && #[trigger] roots[i] == i implies 0 < count_of(
            roots,
            i as usize,
        ) by {
            lemma_count_pos(roots, i as usize, i);
        }
        uf
    }

    /// The representative of `i`; halves the path from `i` to its root on the way.
    pub fn find(&mut self, i: usize) -> (root: usize)
        requires
            old(self).wf(),
            i < old(self)@.len(),
        ensures
            final(self).wf(),
            final(self)@ == old(self)@,
            final(self).ranks() == old(self).ranks(),
            root == old(self)@[i as int],
    {
        let n = self.parent.len();
        let ghost start = i;
        let mut i = i;
        while self.parent[i] != i
            invariant
                self.wf(),
                self.parent@.len() == n,
                self@ == old(self)@,
                self.ranks() == old(self).ranks(),
                i < n,
                start < n,
                self@[i as int] == old(self)@[start as int],
            decreases n - self.rank@[i as int],
        {
            let p = self.parent[i];
            let pp = self.parent[p];
            self.parent.set(i, pp);
            i = pp;
        }
        i
    }

    /// Joins the sets of `i` and `j`; the root of lower rank goes under the other.
    pub fn union(&mut self, i: usize, j: usize)
        requires
            old(self).wf(),
            i < old(self)@.len(),
            j < old(self)@.len(),
        ensures
            final(self).wf(),
            final(self)@.len() == old(self)@.len(),
            ({
                let ri = old(self)@[i as int];
                let rj = old(self)@[j as int];
                let rk = old(self).ranks();
                if ri == rj {
                    final(self)@ == old(self)@ && final(self).ranks() == rk
                } else {
                    &&& final(self)@ == relabel(
                        old(self)@,
                        union_loser(rk, ri, rj),
                        union_winner(rk, ri, rj),
                    )
                    &&& final(self).ranks() == union_ranks(rk, ri, rj)
                }
            }),
    {
        let root_i = self.find(i);
        let root_j = self.find(j);
        if root_i != root_j {
            let rank_i = self.rank[root_i];
            let rank_j = self.rank[root_j];
            if rank_i < rank_j {
                self.link(root_i, root_j, false);
            } else if rank_i > rank_j {
                self.link(root_j, root_i, false);
            } else {
                self.link(root_i, root_j, true);
            }
        }
    }

    /// Attaches root `loser` below root `winner`, raising the rank of
    /// `winner` by one when `bump` is set.
    fn link(&mut self, loser: usize, winner: usize, bump: bool)
        requires
            old(self).wf(),
            loser < old(self)@.len(),
            winner < old(self)@.len(),
            loser != winner,
            old(self)@[loser as int] == loser,
            old(self)@[winner as int] == winner,
            bump ==> old(self).ranks()[loser as int] == old(self).ranks()[winner as int],
            !bump ==> old(self).ranks()[loser as int] < old(self).ranks()[winner as int],
        ensures
            final(self).wf(),
            final(self)@ == relabel(old(self)@, loser, winner),
            final(self).ranks() == if bump {
                old(self).ranks().update(
                    winner as int,
                    (old(self).ranks()[winner as int] + 1) as usize,
                )
            } else {
                old(self).ranks()
            },
    {
        let ghost old_roots = self.roots@;
        let ghost n = self.parent@.len();
        proof {
            lemma_count_relabel(old_roots, loser, winner, winner);
            lemma_count_pos(old_roots, loser, loser as int);
            lemma_count_le_len(relabel(old_roots, loser, winner), winner);
            lemma_count_le_len(old_roots, winner);
            assert(self.rank@[winner as int] < count_of(old_roots, winner));
            assert forall|v: usize| v != winner && v != loser implies count_of(
                relabel(old_roots, loser, winner),
                v,
            ) == count_of(old_roots, v) by {
                lemma_count_relabel(old_roots, loser, winner, v);
            }
        }
        self.parent.set(loser, winner);
        if bump {
            let len = self.parent.len();
            let r = self.rank[winner];
            assert(r < len);
            self.rank.set(winner, r + 1);
        }
        self.roots = Ghost(relabel(old_roots, loser, winner));
        proof {
            let r2 = self.roots@;
            assert forall|k: int| 0 <= k < n && #[trigger] r2[k] == k implies self.rank@[k]
                < count_of(r2, k as usize) by {
                if k != winner as int {
                    assert(old_roots[k] == k);
                }
            }
        }
    }
}

/// Whether `a` and `b` lie in one set once the links of `pairs` are joined
/// one after the other; a link whose two ends belong to the same photo
/// (`photo_ids`) is passed over.
pub open spec fn joined(photo_ids: Seq<i64>, pairs: Seq<(usize, usize)>, a: int, b: int) -> bool
    decreases pairs.len(),
{
    if pairs.len() == 0 {
        a == b
    } else {
        let prev = pairs.drop_last();
        let i = pairs.last().0 as int;
        let j = pairs.last().1 as int;
        if photo_ids[i] == photo_ids[j] {
            joined(photo_ids, prev, a, b)
        } else {
            ||| joined(photo_ids, prev, a, b)
            ||| joined(photo_ids, prev, a, i) && joined(photo_ids, prev, b, j)
            ||| joined(photo_ids, prev, a, j) && joined(photo_ids, prev, b, i)
        }
    }
}

proof fn lemma_joined_equivalence(photo_ids: Seq<i64>, pairs: Seq<(usize, usize)>)
    ensures
        forall|a: int| #[trigger] joined(photo_ids, pairs, a, a),
        forall|a: int, b: int|
            #[trigger] joined(photo_ids, pairs, a, b) ==> joined(photo_ids, pairs, b, a),
        forall|a: int, b: int, c: int|
            #[trigger] joined(photo_ids, pairs, a, b) && #[trigger] joined(photo_ids, pairs, b, c)
                ==> joined(photo_ids, pairs, a, c),
    decreases pairs.len(),
{
    if pairs.len() > 0 {
        let prev = pairs.drop_last();
        let i = pairs.last().0 as int;
        let j = pairs.last().1 as int;
        lemma_joined_equivalence(photo_ids, prev);
        assert forall|a: int| #[trigger] joined(photo_ids, pairs, a, a) by {
            assert(joined(photo_ids, prev, a, a));
        }
        assert forall|a: int, b: int| #[trigger]
            joined(photo_ids, pairs, a, b) implies joined(photo_ids, pairs, b, a) by {
            if joined(photo_ids, prev, a, b) {
                assert(joined(photo_ids, prev, b, a));
            }
        }
        assert forall|a: int, b: int, c: int|
            #[trigger] joined(photo_ids, pairs, a, b) && #[trigger] joined(
                photo_ids,
                pairs,
                b,
                c,
            ) implies joined(photo_ids, pairs, a, c) by {
            if photo_ids[i] != photo_ids[j] {
                let ab0 = joined(photo_ids, prev, a, b);
                let ab1 = joined(photo_ids, prev, a, i) && joined(photo_ids, prev, b, j);
                let bc0 = joined(photo_ids, prev, b, c);
                let bc1 = joined(photo_ids, prev, b, i) && joined(photo_ids, prev, c, j);
                let bc2 = joined(photo_ids, prev, b, j) && joined(photo_ids, prev, c, i);
                if ab0 {
                    if bc0 {
                        assert(joined(photo_ids, prev, a, c));
                    } else if bc1 {
                        assert(joined(photo_ids, prev, a, i));
                    } else {
                        assert(bc2);
                        assert(joined(photo_ids, prev, a, j));
                    }
                } else if ab1 {
                    if bc0 {
                        assert(joined(photo_ids, prev, j, b));
                        assert(joined(photo_ids, prev, j, c));
                        assert(joined(photo_ids, prev, c, j));
                    } else if bc1 {
                    } else {
                        assert(bc2);
                        assert(joined(photo_ids, prev, i, c));
                        assert(joined(photo_ids, prev, a, c));
                    }
                } else {
                    assert(joined(photo_ids, prev, a, j) && joined(photo_ids, prev, b, i));
                    if bc0 {
                        assert(joined(photo_ids, prev, i, b));
                        assert(joined(photo_ids, prev, i, c));
                        assert(joined(photo_ids, prev, c, i));
                    } else if bc1 {
                        assert(joined(photo_ids, prev, j, c));
                        assert(joined(photo_ids, prev, a, c));
                    } else {
                        assert(bc2);
                    }
                }
            } else {
                assert(joined(photo_ids, prev, a, b));
                assert(joined(photo_ids, prev, b, c));
                assert(joined(photo_ids, prev, a, c));
            }
        }
    }
}

/// Being joined is an equivalence relation: reflexive, symmetric and
/// transitive, so the clusters of a set of links partition the features.
pub proof fn law_joined_is_equivalence(
    photo_ids: Seq<i64>,
    pairs: Seq<(usize, usize)>,
    a: int,
    b: int,
    c: int,
)
    ensures
        joined(photo_ids, pairs, a, a),
        joined(photo_ids, pairs, a, b) ==> joined(photo_ids, pairs, b, a),
        joined(photo_ids, pairs, a, b) && joined(photo_ids, pairs, b, c) ==> joined(
            photo_ids,
            pairs,
            a,
            c,
        ),
{
    lemma_joined_equivalence(photo_ids, pairs);
}

/// Joining more links never separates two features that were together.
pub proof fn law_joined_grows(
    photo_ids: Seq<i64>,
    pairs: Seq<(usize, usize)>,
    more: Seq<(usize, usize)>,
    a: int,
    b: int,
)
    requires
        joined(photo_ids, pairs, a, b),
    ensures
        joined(photo_ids, pairs + more, a, b),
    decreases more.len(),
{
    if more.len() > 0 {
        assert((pairs + more).drop_last() =~= pairs + more.drop_last());
        law_joined_grows(photo_ids, pairs, more.drop_last(), a, b);
    }
}

/// Each link between two different photos ends up inside one cluster.
pub proof fn law_link_joins_its_ends(photo_ids: Seq<i64>, pairs: Seq<(usize, usize)>, k: int)
    requires
        0 <= k < pairs.len(),
        photo_ids[pairs[k].0 as int] != photo_ids[pairs[k].1 as int],
    ensures
        joined(photo_ids, pairs, pairs[k].0 as int, pairs[k].1 as int),
{
    let i = pairs[k].0 as int;
    let j = pairs[k].1 as int;
    let head = pairs.take(k + 1);
    let rest = pairs.skip(k + 1);
    assert(head.drop_last() =~= pairs.take(k));
    law_joined_is_equivalence(photo_ids, pairs.take(k), i, i, i);
    law_joined_is_equivalence(photo_ids, pairs.take(k), j, j, j);
    assert(joined(photo_ids, head, i, j));
    assert(head + rest =~= pairs);
    law_joined_grows(photo_ids, head, rest, i, j);
}

/// The representatives and ranks of the forest over `0..photo_ids.len()`
/// after the links of `pairs` are joined one after the other by `union`; a
/// link whose two ends belong to the same photo is passed over.
pub open spec fn forest_after(photo_ids: Seq<i64>, pairs: Seq<(usize, usize)>) -> (
    Seq<usize>,
    Seq<usize>,
)
    decreases pairs.len(),
{
    if pairs.len() == 0 {
        (
            Seq::new(photo_ids.len(), |i: int| i as usize),
            Seq::new(photo_ids.len(), |i: int| 0usize),
        )
    } else {
        let prev = forest_after(photo_ids, pairs.drop_last());
        let reps = prev.0;
        let ranks = prev.1;
        let i = pairs.last().0 as int;
        let j = pairs.last().1 as int;
        let ri = reps[i];
        let rj = reps[j];
        if photo_ids[i] == photo_ids[j] || ri == rj {
            prev
        } else {
            (
                relabel(reps, union_loser(ranks, ri, rj), union_winner(ranks, ri, rj)),
                union_ranks(ranks, ri, rj),
            )
        }
    }
}

/// Some cluster of `m` holds `e`.
pub open spec fn in_some_cluster(m: Map<usize, Vec<usize>>, e: usize) -> bool {
    exists|r: usize| #[trigger] m.contains_key(r) && m[r]@.contains(e)
}

/// The elements of `s` increase strictly from left to right.
pub open spec fn strictly_increasing(s: Seq<usize>) -> bool {
    forall|x: int, y: int| 0 <= x < y < s.len() ==> s[x] < s[y]
}

impl UnionFind {
    /// Groups the features `0..photo_ids.len()` into clusters: each link
    /// `(i, j)` of `near_pairs` joins the clusters of `i` and `j` unless both
    /// features come from the same photo. The result maps the root of each
    /// cluster to its members in increasing order.
    pub fn cluster(photo_ids: &[i64], near_pairs: &[(usize, usize)]) -> (clusters: HashMap<
        usize,
        Vec<usize>,
    >)
        requires
            forall|k: int|
                0 <= k < near_pairs@.len() ==> #[trigger] near_pairs@[k].0 < photo_ids@.len()
                    && near_pairs@[k].1 < photo_ids@.len(),
        ensures
            forall|r: usize| #[trigger]
                clusters@.contains_key(r) ==> r < photo_ids@.len() && strictly_increasing(
                    clusters@[r]@,
                ),
            forall|r: usize, e: usize|
                clusters@.contains_key(r) && e < photo_ids@.len() ==> (#[trigger] clusters@[r]@.contains(e)
                    <==> joined(photo_ids@, near_pairs@, r as int, e as int)),
            forall|r: usize, idx: int|
                clusters@.contains_key(r) && 0 <= idx < clusters@[r]@.len() ==> #[trigger] clusters@[r]@[idx]
                    < photo_ids@.len(),
            forall|e: usize| e < photo_ids@.len() ==> #[trigger] in_some_cluster(clusters@, e),
            forall|r1: usize, r2: usize|
                #![trigger clusters@.contains_key(r1), clusters@.contains_key(r2)]
                clusters@.contains_key(r1) && clusters@.contains_key(r2) && r1 != r2 ==> !joined(
                    photo_ids@,
                    near_pairs@,
                    r1 as int,
                    r2 as int,
                ),
            forall|r: usize| #[trigger]
                clusters@.contains_key(r) <==> r < photo_ids@.len() && forest_after(
                    photo_ids@,
                    near_pairs@,
                ).0[r as int] == r,
    {
        let n = photo_ids.len();
        let ghost ids = photo_ids@;
        let ghost pairs = near_pairs@;
        let mut uf = UnionFind::new(n);
        let mut k: usize = 0;
        assert(pairs.take(0) =~= Seq::<(usize, usize)>::empty());
        while k < near_pairs.len()
            invariant
                uf.wf(),
                uf@.len() == n,
                n == ids.len(),
                ids == photo_ids@,
                pairs == near_pairs@,
                k <= pairs.len(),
                forall|q: int|
                    0 <= q < pairs.len() ==> #[trigger] pairs[q].0 < n && pairs[q].1 < n,
                forall|a: int, b: int|
                    0 <= a < n && 0 <= b < n ==> (uf@[a] == uf@[b] <==> #[trigger] joined(
                        ids,
                        pairs.take(k as int),
                        a,
                        b,
                    )),
                uf@ == forest_after(ids, pairs.take(k as int)).0,
                uf.ranks() == forest_after(ids, pairs.take(k as int)).1,
            decreases near_pairs.len() - k,
        {
            let (i, j) = near_pairs[k];
            let ghost before = uf@;
            let ghost prev = pairs.take(k as int);
            let ghost next = pairs.take(k + 1);
            assert(next.drop_last() =~= prev);
            assert(next.last() == (i, j));
            if photo_ids[i] != photo_ids[j] {
                uf.union(i, j);
                proof {
                    uf.lemma_roots_are_roots(i as int);
                    uf.lemma_roots_are_roots(j as int);
                }
                assert forall|a: int, b: int| 0 <= a < n && 0 <= b < n implies (uf@[a] == uf@[b]
                    <==> #[trigger] joined(ids, next, a, b)) by {
                    assert(joined(ids, prev, a, b) == (before[a] == before[b]));
                    assert(joined(ids, prev, a, i as int) == (before[a] == before[i as int]));
                    assert(joined(ids, prev, b, j as int) == (before[b] == before[j as int]));
                    assert(joined(ids, prev, a, j as int) == (before[a] == before[j as int]));
                    assert(joined(ids, prev, b, i as int) == (before[b] == before[i as int]));
                }
            } else {
                assert forall|a: int, b: int| 0 <= a < n && 0 <= b < n implies (uf@[a] == uf@[b]
                    <==> #[trigger] joined(ids, next, a, b)) by {
                    assert(joined(ids, prev, a, b) == (before[a] == before[b]));
                }
            }
            k = k + 1;
        }
        assert(pairs.take(pairs.len() as int) =~= pairs);
        let mut clusters: HashMap<usize, Vec<usize>> = HashMap::new();
        let mut e: usize = 0;
        while e < n
            invariant
                uf.wf(),
                uf@.len() == n,
                n == ids.len(),
                e <= n,
                forall|a: int, b: int|
                    0 <= a < n && 0 <= b < n ==> (uf@[a] == uf@[b] <==> #[trigger] joined(
                        ids,
                        pairs,
                        a,
                        b,
                    )),
                forall|r: usize| #[trigger]
                    clusters@.contains_key(r) ==> r < n && uf@[r as int] == r
                        && strictly_increasing(clusters@[r]@),
                forall|r: usize, idx: int|
                    clusters@.contains_key(r) && 0 <= idx < clusters@[r]@.len() ==> #[trigger] clusters@[r]@[idx]
                        < e && uf@[clusters@[r]@[idx] as int] == r,
                forall|x: int|
                    0 <= x < e ==> #[trigger] clusters@.contains_key(uf@[x]) && clusters@[uf@[x]]@.contains(
                        x as usize,
                    ),
                uf@ == forest_after(ids, pairs).0,
            decreases n - e,
        {
            let root = uf.find(e);
            proof {
                uf.lemma_roots_are_roots(e as int);
            }
            let mut members = match clusters.remove(&root) {
                Some(v) => v,
                None => Vec::new(),
            };
            let ghost before = members@;
            members.push(e);
            assert(members@.last() == e);
            assert forall|idx: int| 0 <= idx < before.len() implies members@[idx] == before[idx] by {}
            clusters.insert(root, members);
            e = e + 1;
        }
        proof {
            assert forall|r: usize, x: usize|
                clusters@.contains_key(r) && x < n implies (#[trigger] clusters@[r]@.contains(x)
                <==> joined(ids, pairs, r as int, x as int)) by {
                if clusters@[r]@.contains(x) {
                    let idx = choose|idx: int| 0 <= idx < clusters@[r]@.len() && clusters@[r]@[idx] == x;
                    assert(uf@[clusters@[r]@[idx] as int] == r);
                }
                assert(joined(ids, pairs, r as int, x as int) == (uf@[r as int] == uf@[x as int]));
                assert(clusters@.contains_key(uf@[x as int]));
            }
            assert forall|r: usize| #[trigger]
                clusters@.contains_key(r) <==> r < n && uf@[r as int] == r by {
                if r < n && uf@[r as int] == r {
                    assert(clusters@.contains_key(uf@[r as int]));
                }
            }
            assert forall|x: usize| x < n implies #[trigger] in_some_cluster(clusters@, x) by {
                assert(clusters@.contains_key(uf@[x as int]) && clusters@[uf@[x as int]]@.contains(x));
            }
            assert forall|r1: usize, r2: usize|
                clusters@.contains_key(r1) && clusters@.contains_key(r2) && r1 != r2 implies !joined(
                ids,
                pairs,
                r1 as int,
                r2 as int,
            ) by {
                assert(joined(ids, pairs, r1 as int, r2 as int) == (uf@[r1 as int] == uf@[r2 as int]));
            }
        }
        clusters
    }

    /// A representative is its own representative.
    pub proof fn lemma_roots_are_roots(&self, i: int)
        requires
            self.wf(),
            0 <= i < self@.len(),
        ensures
            self@[i] < self@.len(),
            self@[self@[i] as int] == self@[i],
    {
    }
}

} // verus!
