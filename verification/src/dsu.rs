//! Disjoint-set forest with path compression, used to group nearby shapes
//! so they can be drawn as one merged shape.

use vstd::prelude::*;

verus! {

/// Every parent link stays inside the forest and climbs strictly in a
/// ghost ranking bounded by `bound`; this is what makes every chain of
/// parents end at a root.
pub open spec fn ranked(parent: Seq<usize>, rank: Seq<nat>, bound: nat) -> bool {
    &&& parent.len() == rank.len()
    &&& forall|i: int| 0 <= i < parent.len() ==> #[trigger] parent[i] < parent.len()
    &&& forall|i: int| 0 <= i < parent.len() ==> #[trigger] rank[i] < bound
    &&& forall|i: int|
        0 <= i < parent.len() && #[trigger] parent[i] != i ==> rank[i] < rank[parent[i] as int]
}

/// The root reached from `x` by following parent links.
pub open spec fn root_in(parent: Seq<usize>, rank: Seq<nat>, bound: nat, x: int) -> int
    decreases bound - rank[x],
    when ranked(parent, rank, bound) && 0 <= x < parent.len()
{
    if parent[x] == x {
        x
    } else {
        root_in(parent, rank, bound, parent[x] as int)
    }
}

/// A root is a fixed point of the parent links, lies in the forest and
/// ranks no lower than anything below it.
proof fn lemma_root(parent: Seq<usize>, rank: Seq<nat>, bound: nat, x: int)
    requires
        ranked(parent, rank, bound),
        0 <= x < parent.len(),
    ensures
        0 <= root_in(parent, rank, bound, x) < parent.len(),
        parent[root_in(parent, rank, bound, x)] == root_in(parent, rank, bound, x),
        rank[x] <= rank[root_in(parent, rank, bound, x)],
        root_in(parent, rank, bound, x) != x ==> rank[x] < rank[root_in(
            parent,
            rank,
            bound,
            x,
        )],
        parent[x] == x ==> root_in(parent, rank, bound, x) == x,
        parent[x] != x ==> root_in(parent, rank, bound, x) == root_in(
            parent,
            rank,
            bound,
            parent[x] as int,
        ),
    decreases bound - rank[x],
{
    assert(parent[x] < parent.len());
    if parent[x] != x {
        lemma_root(parent, rank, bound, parent[x] as int);
    }
}

/// Pointing `x` straight at its own root changes no element's root.
proof fn lemma_compress(parent: Seq<usize>, rank: Seq<nat>, bound: nat, x: int, y: int)
    requires
        ranked(parent, rank, bound),
        0 <= x < parent.len(),
        0 <= y < parent.len(),
    ensures
        ranked(
            parent.update(x, root_in(parent, rank, bound, x) as usize),
            rank,
            bound,
        ),
        root_in(parent.update(x, root_in(parent, rank, bound, x) as usize), rank, bound, y)
            == root_in(parent, rank, bound, y),
    decreases bound - rank[y],
{
    let r = root_in(parent, rank, bound, x);
    lemma_root(parent, rank, bound, x);
    let p2 = parent.update(x, r as usize);
    assert(ranked(p2, rank, bound)) by {
        assert forall|i: int| 0 <= i < p2.len() && #[trigger] p2[i] != i implies rank[i]
            < rank[p2[i] as int] by {
            if i == x {
                assert(r != x);
            } else {
                assert(p2[i] == parent[i]);
            }
        }
        assert forall|i: int| 0 <= i < p2.len() implies #[trigger] p2[i] < p2.len() by {
            if i != x {
                assert(p2[i] == parent[i]);
            }
        }
    }
    lemma_root(parent, rank, bound, y);
    lemma_root(p2, rank, bound, y);
    if y == x {
        if r != x {
            lemma_root(p2, rank, bound, r);
            assert(p2[r] == parent[r]);
        }
    } else if parent[y] != y {
        assert(p2[y] == parent[y]);
        lemma_compress(parent, rank, bound, x, parent[y] as int);
    } else {
        assert(p2[y] == parent[y]);
    }
}

/// The ranking after hanging root `ra` below root `rb`: the tree of `rb`
/// is lifted above everything that `ra` held.
pub open spec fn relinked_rank(
    parent: Seq<usize>,
    rank: Seq<nat>,
    bound: nat,
    ra: int,
    rb: int,
) -> Seq<nat> {
    Seq::new(
        rank.len(),
        |i: int|
            if root_in(parent, rank, bound, i) == rb {
                rank[i] + rank[ra] + 1
            } else {
                rank[i]
            },
    )
}

proof fn lemma_link_ranked(parent: Seq<usize>, rank: Seq<nat>, bound: nat, ra: int, rb: int)
    requires
        ranked(parent, rank, bound),
        0 <= ra < parent.len(),
        0 <= rb < parent.len(),
        parent[ra] == ra,
        parent[rb] == rb,
        ra != rb,
    ensures
        ranked(parent.update(ra, rb as usize), relinked_rank(parent, rank, bound, ra, rb), 2 * bound),
{
    let p2 = parent.update(ra, rb as usize);
    let r2 = relinked_rank(parent, rank, bound, ra, rb);
    lemma_root(parent, rank, bound, ra);
    lemma_root(parent, rank, bound, rb);
    assert forall|i: int| 0 <= i < p2.len() implies #[trigger] p2[i] < p2.len() by {
        if i != ra {
            assert(p2[i] == parent[i]);
        }
    }
    assert forall|i: int| 0 <= i < p2.len() implies #[trigger] r2[i] < 2 * bound by {
        assert(rank[i] < bound);
        assert(rank[ra] < bound);
    }
    assert forall|i: int| 0 <= i < p2.len() && #[trigger] p2[i] != i implies r2[i] < r2[p2[i]
        as int] by {
        if i == ra {
            assert(p2[i] == rb);
        } else {
            assert(p2[i] == parent[i]);
            lemma_root(parent, rank, bound, i);
            assert(parent[i] < parent.len());
        }
    }
}

/// After hanging root `ra` below root `rb`, whatever had root `ra` has
/// root `rb`, and every other root is unchanged.
proof fn lemma_link_root(
    parent: Seq<usize>,
    rank: Seq<nat>,
    bound: nat,
    ra: int,
    rb: int,
    y: int,
)
    requires
        ranked(parent, rank, bound),
        0 <= ra < parent.len(),
        0 <= rb < parent.len(),
        parent[ra] == ra,
        parent[rb] == rb,
        ra != rb,
        0 <= y < parent.len(),
    ensures
        root_in(
            parent.update(ra, rb as usize),
            relinked_rank(parent, rank, bound, ra, rb),
            2 * bound,
            y,
        ) == (if root_in(parent, rank, bound, y) == ra {
            rb
        } else {
            root_in(parent, rank, bound, y)
        }),
    decreases bound - rank[y],
{
    let p2 = parent.update(ra, rb as usize);
    let r2 = relinked_rank(parent, rank, bound, ra, rb);
    lemma_link_ranked(parent, rank, bound, ra, rb);
    lemma_root(parent, rank, bound, y);
    lemma_root(p2, r2, 2 * bound, y);
    if y == ra {
        lemma_root(p2, r2, 2 * bound, rb);
        assert(p2[rb] == rb);
    } else if parent[y] == y {
        assert(p2[y] == y);
    } else {
        assert(p2[y] == parent[y]);
        lemma_link_root(parent, rank, bound, ra, rb, parent[y] as int);
    }
}

/// `after` is `before` with the set of `a` hung below the set of `b`.
pub open spec fn merged(before: Dsu, after: Dsu, a: int, b: int) -> bool {
    &&& after.len() == before.len()
    &&& forall|y: int|
        0 <= y < before.len() ==> #[trigger] after.root(y) == (if before.root(y) == before.root(a) {
            before.root(b)
        } else {
            before.root(y)
        })
}

/// Merging the sets of `a` and `b` puts `a` and `b` together, keeps every
/// pair that was together, and joins no other pair: two elements share a
/// set afterwards exactly when they did before, or one was with `a` and
/// the other with `b`.
pub proof fn law_merge_joins_exactly(before: Dsu, after: Dsu, a: int, b: int, x: int, y: int)
    requires
        before.wf(),
        merged(before, after, a, b),
        0 <= a < before.len(),
        0 <= b < before.len(),
        0 <= x < before.len(),
        0 <= y < before.len(),
    ensures
        after.root(a) == after.root(b),
        (after.root(x) == after.root(y)) <==> (before.root(x) == before.root(y) || (before.root(x)
            == before.root(a) && before.root(y) == before.root(b)) || (before.root(x)
            == before.root(b) && before.root(y) == before.root(a))),
{
    before.lemma_root_is_member(b);
    let rb = before.root(b);
    assert(after.root(rb) == rb || before.root(rb) == before.root(a));
    assert(after.root(a) == after.root(b));
    assert(after.root(x) == after.root(y) ==> (before.root(x) == before.root(y) || (before.root(x)
            == before.root(a) && before.root(y) == before.root(b)) || (before.root(x)
            == before.root(b) && before.root(y) == before.root(a))));
}

/// A partition of `0..len` into disjoint sets, each named by its root.
pub struct Dsu {
    parent: Vec<usize>,
    rank: Ghost<Seq<nat>>,
    bound: Ghost<nat>,
}

impl Dsu {
    /// The forest is well formed.
    pub closed spec fn wf(&self) -> bool {
        ranked(self.parent@, self.rank@, self.bound@)
    }

    /// The number of elements.
    pub closed spec fn len(&self) -> nat {
        self.parent@.len()
    }

    /// The representative of the set that holds `x`.
    pub closed spec fn root(&self, x: int) -> int {
        root_in(self.parent@, self.rank@, self.bound@, x)
    }

    /// How far `x` may still climb in the ranking; it falls at each step
    /// towards the root.
    pub closed spec fn height_left(&self, x: int) -> int {
        self.bound@ - self.rank@[x]
    }

    /// Two forests share one ghost ranking.
    pub closed spec fn same_ranking(&self, other: Self) -> bool {
        self.rank@ == other.rank@ && self.bound@ == other.bound@
    }

    /// Representatives are elements, and each represents itself.
    pub proof fn lemma_root_is_member(&self, x: int)
        requires
            self.wf(),
            0 <= x < self.len(),
        ensures
            0 <= self.root(x) < self.len(),
            self.root(self.root(x)) == self.root(x),
    {
        lemma_root(self.parent@, self.rank@, self.bound@, x);
        lemma_root(self.parent@, self.rank@, self.bound@, self.root(x));
    }

    /// `n` singleton sets: every element is its own representative.
    pub fn new(n: usize) -> (d: Dsu)
        ensures
            d.wf(),
            d.len() == n,
            forall|x: int| 0 <= x < n ==> #[trigger] d.root(x) == x,
    {
        let mut parent: Vec<usize> = Vec::new();
        let mut i: usize = 0;
        while i < n
            invariant
                i <= n,
                parent@.len() == i,
                forall|j: int| 0 <= j < i ==> #[trigger] parent@[j] == j,
            decreases n - i,
        {
            parent.push(i);
            i = i + 1;
        }
        let ghost rank = Seq::new(n as nat, |j: int| 0nat);
        let d = Dsu { parent, rank: Ghost(rank), bound: Ghost(1) };
        assert forall|x: int| 0 <= x < n implies #[trigger] d.root(x) == x by {
            lemma_root(d.parent@, d.rank@, d.bound@, x);
        }
        d
    }

    /// The representative of `x`'s set. Each element visited on the way
    /// is pointed straight at it; no element's representative changes.
    pub fn find(&mut self, x: usize) -> (r: usize)
        requires
            old(self).wf(),
            x < old(self).len(),
        ensures
            final(self).wf(),
            final(self).len() == old(self).len(),
            r == old(self).root(x as int),
            final(self).same_ranking(*old(self)),
            forall|y: int| 0 <= y < old(self).len() ==> #[trigger] final(self).root(y) == old(self).root(y),
        decreases old(self).height_left(x as int),
    {
        proof {
            lemma_root(self.parent@, self.rank@, self.bound@, x as int);
        }
        let p = self.parent[x];
        if p != x {
            let ghost before = *self;
            proof {
                assert(before.parent@[x as int] < before.parent@.len());
                assert(self.rank@[x as int] < self.rank@[p as int]);
            }
            let r = self.find(p);
            let ghost mid = *self;
            proof {
                lemma_root(mid.parent@, self.rank@, self.bound@, x as int);
                lemma_root(before.parent@, self.rank@, self.bound@, x as int);
                assert(mid.root(x as int) == before.root(x as int));
                assert(r == mid.root(x as int));
                lemma_compress(mid.parent@, self.rank@, self.bound@, x as int, x as int);
            }
            self.parent.set(x, r);
            proof {
                assert(self.parent@ == mid.parent@.update(x as int, r));
                assert forall|y: int| 0 <= y < before.len() implies #[trigger] self.root(y)
                    == before.root(y) by {
                    lemma_compress(mid.parent@, self.rank@, self.bound@, x as int, y);
                    assert(mid.root(y) == before.root(y));
                }
                lemma_root(self.parent@, self.rank@, self.bound@, x as int);
            }
        }
        self.parent[x]
    }

    /// Merges the sets of `a` and `b`: the representative of `a`'s set is
    /// placed below the representative of `b`'s set, which then names the
    /// merged set.
    pub fn union(&mut self, a: usize, b: usize)
        requires
            old(self).wf(),
            a < old(self).len(),
            b < old(self).len(),
        ensures
            final(self).wf(),
            merged(*old(self), *final(self), a as int, b as int),
    {
        let ghost start = *self;
        let ra = self.find(a);
        let rb = self.find(b);
        if ra != rb {
            let ghost parent = self.parent@;
            let ghost rank = self.rank@;
            let ghost bound = self.bound@;
            proof {
                assert(self.root(a as int) == ra);
                assert(self.root(b as int) == rb);
                lemma_root(parent, rank, bound, a as int);
                lemma_root(parent, rank, bound, b as int);
                lemma_root(start.parent@, start.rank@, start.bound@, a as int);
                lemma_root(start.parent@, start.rank@, start.bound@, b as int);
                lemma_link_ranked(parent, rank, bound, ra as int, rb as int);
                assert forall|y: int| 0 <= y < parent.len() implies root_in(
                    parent.update(ra as int, rb),
                    relinked_rank(parent, rank, bound, ra as int, rb as int),
                    2 * bound,
                    y,
                ) == (if root_in(parent, rank, bound, y) == ra {
                    rb as int
                } else {
                    root_in(parent, rank, bound, y)
                }) by {
                    lemma_link_root(parent, rank, bound, ra as int, rb as int, y);
                }
            }
            let ghost cur = *self;
            self.parent.set(ra, rb);
            self.rank = Ghost(relinked_rank(parent, rank, bound, ra as int, rb as int));
            self.bound = Ghost(2 * bound);
            proof {
                assert forall|y: int| 0 <= y < start.len() implies #[trigger] self.root(y) == (if start.root(y)
                    == start.root(a as int) {
                    start.root(b as int)
                } else {
                    start.root(y)
                }) by {
                    lemma_link_root(parent, rank, bound, ra as int, rb as int, y);
                    assert(cur.root(y) == start.root(y));
                }
            }
        }
    }
}


/// The representatives after linking, in order, every pair in `links`
/// into a forest of `n` singletons.
pub open spec fn roots_after(n: nat, links: Seq<(usize, usize)>) -> Seq<int>
    decreases links.len(),
{
    if links.len() == 0 {
        Seq::new(n, |i: int| i)
    } else {
        let prev = roots_after(n, links.drop_last());
        let a = links.last().0 as int;
        let b = links.last().1 as int;
        Seq::new(n, |i: int| if prev[i] == prev[a] { prev[b] } else { prev[i] })
    }
}

/// `clusters` lists the elements `0..roots.len()` grouped by
/// representative: each group ascending, groups ordered by their first
/// element, every element in exactly one group.
pub open spec fn is_clustering(roots: Seq<int>, clusters: Seq<Seq<usize>>) -> bool {
    &&& forall|k: int| 0 <= k < clusters.len() ==> #[trigger] clusters[k].len() > 0
    &&& forall|k: int, j: int|
        0 <= k < clusters.len() && 0 <= j < clusters[k].len() ==> #[trigger] clusters[k][j]
            < roots.len() && roots[clusters[k][j] as int] == roots[clusters[k][0] as int]
    &&& forall|k: int, j1: int, j2: int|
        0 <= k < clusters.len() && 0 <= j1 < j2 < clusters[k].len() ==> #[trigger] clusters[k][j1]
            < #[trigger] clusters[k][j2]
    &&& forall|k1: int, k2: int|
        0 <= k1 < k2 < clusters.len() ==> #[trigger] clusters[k1][0] < #[trigger] clusters[k2][0]
            && roots[clusters[k1][0] as int] != roots[clusters[k2][0] as int]
    &&& forall|i: int| 0 <= i < roots.len() ==> #[trigger] listed(clusters, i)
}

/// The contents of each group.
pub open spec fn views(v: Seq<Vec<usize>>) -> Seq<Seq<usize>> {
    v.map_values(|c: Vec<usize>| c@)
}

/// `x` appears in one of the groups.
pub open spec fn listed(clusters: Seq<Seq<usize>>, x: int) -> bool {
    exists|k: int, j: int|
        0 <= k < clusters.len() && 0 <= j < clusters[k].len() && #[trigger] clusters[k][j] == x
}

/// Groups the elements `0..n` into the sets that linking each pair of
/// `links` in turn produces: the grouping step that decides which shapes
/// are merged and drawn as one.
pub fn merge_clusters(n: usize, links: &Vec<(usize, usize)>) -> (clusters: Vec<Vec<usize>>)
    requires
        forall|k: int| 0 <= k < links.len() ==> (#[trigger] links[k]).0 < n && links[k].1 < n,
    ensures
        is_clustering(roots_after(n as nat, links@), views(clusters@)),
{
    let mut dsu = Dsu::new(n);
    let mut k: usize = 0;
    while k < links.len()
        invariant
            k <= links.len(),
            forall|q: int| 0 <= q < links.len() ==> (#[trigger] links[q]).0 < n && links[q].1 < n,
            dsu.wf(),
            dsu.len() == n,
            forall|i: int| 0 <= i < n ==> #[trigger] dsu.root(i) == roots_after(n as nat, links@.take(k as int))[i],
        decreases links.len() - k,
    {
        let (a, b) = links[k];
        let ghost before = dsu;
        dsu.union(a, b);
        proof {
            assert(links@.take(k as int + 1).drop_last() =~= links@.take(k as int));
            assert(links@.take(k as int + 1).last() == links@[k as int]);
        }
        k = k + 1;
    }
    proof {
        assert(links@.take(links.len() as int) =~= links@);
    }
    let ghost roots = roots_after(n as nat, links@);
    proof {
        assert forall|x: int| 0 <= x < n implies 0 <= #[trigger] roots[x] < n by {
            dsu.lemma_root_is_member(x);
        }
    }
    let mut clusters: Vec<Vec<usize>> = Vec::new();
    let mut slot: Vec<usize> = Vec::new();
    let mut i: usize = 0;
    while i < n
        invariant
            i <= n,
            slot@.len() == i,
            forall|j: int| 0 <= j < i ==> #[trigger] slot@[j] == 0,
        decreases n - i,
    {
        slot.push(0);
        i = i + 1;
    }
    let mut i: usize = 0;
    while i < n
        invariant
            i <= n,
            dsu.wf(),
            dsu.len() == n,
            roots.len() == n,
            forall|x: int| 0 <= x < n ==> #[trigger] dsu.root(x) == roots[x],
            forall|x: int| 0 <= x < n ==> 0 <= #[trigger] roots[x] < n,
            slot@.len() == n,
            forall|r: int|
                0 <= r < n && #[trigger] slot@[r] != 0 ==> slot@[r] <= clusters@.len()
                    && roots[clusters@[slot@[r] - 1]@[0] as int] == r,
            forall|r: int|
                0 <= r < n && #[trigger] slot@[r] == 0 ==> forall|q: int|
                    0 <= q < clusters@.len() ==> roots[#[trigger] clusters@[q]@[0] as int] != r,
            forall|k: int| 0 <= k < clusters@.len() ==> #[trigger] clusters@[k]@.len() > 0,
            forall|k: int, j: int|
                0 <= k < clusters@.len() && 0 <= j < clusters@[k]@.len() ==> #[trigger] clusters@[k]@[j]
                    < i && roots[clusters@[k]@[j] as int] == roots[clusters@[k]@[0] as int],
            forall|k: int, j1: int, j2: int|
                0 <= k < clusters@.len() && 0 <= j1 < j2 < clusters@[k]@.len() ==> #[trigger] clusters@[k]@[j1]
                    < #[trigger] clusters@[k]@[j2],
            forall|k1: int, k2: int|
                0 <= k1 < k2 < clusters@.len() ==> #[trigger] clusters@[k1]@[0] < #[trigger] clusters@[k2]@[0]
                    && roots[clusters@[k1]@[0] as int] != roots[clusters@[k2]@[0] as int],
            forall|x: int| 0 <= x < i ==> #[trigger] listed(views(clusters@), x),
        decreases n - i,
    {
        let ghost before = clusters@;
        let r = dsu.find(i);
        proof {
            dsu.lemma_root_is_member(i as int);
        }
        if slot[r] == 0 {
            let mut fresh: Vec<usize> = Vec::new();
            fresh.push(i);
            clusters.push(fresh);
            slot.set(r, clusters.len());
            proof {
                let cs = views(clusters@);
                let bs = views(before);
                assert forall|x: int| 0 <= x < i + 1 implies #[trigger] listed(cs, x) by {
                    if x == i {
                        assert(cs[cs.len() - 1][0] == x);
                    } else {
                        assert(listed(bs, x));
                        let (k, j) = choose|k: int, j: int|
                            0 <= k < bs.len() && 0 <= j < bs[k].len() && #[trigger] bs[k][j] == x;
                        assert(cs[k][j] == x);
                    }
                }
            }
        } else {
            let idx = slot[r] - 1;
            clusters[idx].push(i);
            proof {
                let cs = views(clusters@);
                let bs = views(before);
                assert forall|x: int| 0 <= x < i + 1 implies #[trigger] listed(cs, x) by {
                    if x == i {
                        assert(cs[idx as int][cs[idx as int].len() - 1] == x);
                    } else {
                        assert(listed(bs, x));
                        let (k, j) = choose|k: int, j: int|
                            0 <= k < bs.len() && 0 <= j < bs[k].len() && #[trigger] bs[k][j] == x;
                        if k == idx {
                            assert(cs[k][j] == x);
                        } else {
                            assert(cs[k][j] == x);
                        }
                    }
                }
            }
        }
        i = i + 1;
    }
    proof {
        let cs = views(clusters@);
        assert forall|k: int| 0 <= k < cs.len() implies #[trigger] cs[k] == clusters@[k]@ by {}
    }
    clusters
}


/// The largest group of shapes drawn as one merged shape.
pub const MAX_MERGE_GROUP: usize = 4;

/// Whether a group of `size` linked shapes is drawn as one merged shape:
/// a lone shape is drawn as itself, and so is each shape of a group too
/// large to merge.
pub fn draws_merged(size: usize) -> (merged: bool)
    ensures
        merged == (size != 1 && size <= MAX_MERGE_GROUP),
{
    !(size == 1 || size > MAX_MERGE_GROUP)
}

} // verus!
