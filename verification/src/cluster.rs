//! Grouping of the fire pixels of one satellite image into clusters of adjacent pixels.
//!
//! Pixels are identified by their grid position (column, row) in the image. The grouping works
//! on those positions alone; the aggregate properties of a cluster are computed by the caller
//! from the pixels of each group.

use vstd::prelude::*;

verus! {

/// The grid position of a fire pixel in a satellite image.
#[derive(Debug, Clone, Copy, PartialEq, Eq, Structural)]
pub struct GridPoint {
    /// The column number (often indexed as 'i').
    pub x: isize,
    /// The row number (often indexed as 'j').
    pub y: isize,
}

/// Two grid positions touch: they are the same or one of the eight neighbours of each other.
pub open spec fn adjacent(a: GridPoint, b: GridPoint) -> bool {
    -1 <= a.x - b.x <= 1 && -1 <= a.y - b.y <= 1
}

/// The index `k` is that of a fire pixel among `pts`: a point other than `empty`.
pub open spec fn is_pixel(pts: Seq<GridPoint>, empty: GridPoint, k: int) -> bool {
    0 <= k < pts.len() && pts[k] != empty
}

/// The coordinate differences of any two pixels, and their negations, fit in an `isize`.
pub open spec fn differences_fit(pts: Seq<GridPoint>, empty: GridPoint) -> bool {
    forall|a: int, b: int|
        0 <= a < pts.len() && 0 <= b < pts.len() && pts[a] != empty && pts[b] != empty ==> {
            &&& isize::MIN < #[trigger] pts[a].x - #[trigger] pts[b].x <= isize::MAX
            &&& isize::MIN < pts[a].y - pts[b].y <= isize::MAX
        }
}

/// Every index in a group is that of a pixel.
#[verifier::opaque]
pub open spec fn members_are_pixels(pts: Seq<GridPoint>, empty: GridPoint, gs: Seq<Seq<usize>>) -> bool {
    forall|g: int, m: int|
        0 <= g < gs.len() && 0 <= m < gs[g].len() ==> is_pixel(pts, empty, #[trigger] gs[g][m] as int)
}

/// Every pixel is in a group.
#[verifier::opaque]
pub open spec fn every_pixel_grouped(pts: Seq<GridPoint>, empty: GridPoint, gs: Seq<Seq<usize>>) -> bool {
    forall|k: int|
        #[trigger] is_pixel(pts, empty, k) ==> exists|g: int, m: int|
            0 <= g < gs.len() && 0 <= m < gs[g].len() && #[trigger] gs[g][m] == k
}

/// No index is listed twice, in one group or in two.
#[verifier::opaque]
pub open spec fn listed_once(gs: Seq<Seq<usize>>) -> bool {
    forall|g1: int, m1: int, g2: int, m2: int|
        0 <= g1 < gs.len() && 0 <= m1 < gs[g1].len() && 0 <= g2 < gs.len() && 0 <= m2 < gs[g2].len()
            && #[trigger] gs[g1][m1] == #[trigger] gs[g2][m2] ==> g1 == g2 && m1 == m2
}

/// A pixel that touches a pixel of a group is in that group.
#[verifier::opaque]
pub open spec fn groups_closed(pts: Seq<GridPoint>, empty: GridPoint, gs: Seq<Seq<usize>>) -> bool {
    forall|g: int, m: int, k: int|
        0 <= g < gs.len() && 0 <= m < gs[g].len() && is_pixel(pts, empty, k) && adjacent(
            pts[#[trigger] gs[g][m] as int],
            #[trigger] pts[k],
        ) ==> exists|m2: int| 0 <= m2 < gs[g].len() && #[trigger] gs[g][m2] == k
}

/// Each group is not empty and starts at its smallest index.
#[verifier::opaque]
pub open spec fn groups_start_smallest(gs: Seq<Seq<usize>>) -> bool {
    &&& forall|g: int| 0 <= g < gs.len() ==> #[trigger] gs[g].len() >= 1
    &&& forall|g: int, m: int| 0 <= g < gs.len() && 0 < m < gs[g].len() ==> gs[g][0] < #[trigger] gs[g][m]
}

/// Every pixel of a group after the first touches a pixel listed before it in the group.
#[verifier::opaque]
pub open spec fn groups_connected(pts: Seq<GridPoint>, gs: Seq<Seq<usize>>) -> bool {
    forall|g: int, m: int|
        #![trigger gs[g][m]]
        0 <= g < gs.len() && 0 < m < gs[g].len() ==> exists|q: int|
            0 <= q < m && adjacent(pts[#[trigger] gs[g][q] as int], pts[gs[g][m] as int])
}

/// The groups come in the order of their first indexes.
#[verifier::opaque]
pub open spec fn groups_ordered(gs: Seq<Seq<usize>>) -> bool {
    forall|g1: int, g2: int| 0 <= g1 < g2 < gs.len() ==> #[trigger] gs[g1][0] < #[trigger] gs[g2][0]
}

/// `gs` groups the fire pixels of `pts` into their connected clusters:
/// - every index in a group is that of a pixel, and every pixel is in a group, once;
/// - a pixel that touches a pixel of a group is in that group;
/// - each group starts at its smallest index, and every later pixel of it touches a pixel
///   listed before it in the group, so the group is connected;
/// - the groups come in the order of their smallest indexes.
pub open spec fn component_grouping(pts: Seq<GridPoint>, empty: GridPoint, gs: Seq<Seq<usize>>) -> bool {
    &&& members_are_pixels(pts, empty, gs)
    &&& every_pixel_grouped(pts, empty, gs)
    &&& listed_once(gs)
    &&& groups_closed(pts, empty, gs)
    &&& groups_start_smallest(gs)
    &&& groups_connected(pts, gs)
    &&& groups_ordered(gs)
}

/// Two fire pixels that are grid neighbours (their columns and their rows each differ by at
/// most one) always land in the same cluster of a [`component_grouping`].
pub proof fn lemma_touching_pixels_share_a_cluster(pts: Seq<GridPoint>, empty: GridPoint, gs: Seq<Seq<usize>>)
    requires
        component_grouping(pts, empty, gs),
    ensures
        forall|g1: int, m1: int, g2: int, m2: int|
            0 <= g1 < gs.len() && 0 <= m1 < gs[g1].len() && 0 <= g2 < gs.len() && 0 <= m2 < gs[g2].len()
                && pts[#[trigger] gs[g1][m1] as int].x <= pts[#[trigger] gs[g2][m2] as int].x + 1
                && pts[gs[g2][m2] as int].x <= pts[gs[g1][m1] as int].x + 1
                && pts[gs[g1][m1] as int].y <= pts[gs[g2][m2] as int].y + 1
                && pts[gs[g2][m2] as int].y <= pts[gs[g1][m1] as int].y + 1 ==> g1 == g2,
{
    reveal(members_are_pixels);
    reveal(groups_closed);
    reveal(listed_once);
    assert forall|g1: int, m1: int, g2: int, m2: int|
        0 <= g1 < gs.len() && 0 <= m1 < gs[g1].len() && 0 <= g2 < gs.len() && 0 <= m2 < gs[g2].len()
            && pts[#[trigger] gs[g1][m1] as int].x <= pts[#[trigger] gs[g2][m2] as int].x + 1
            && pts[gs[g2][m2] as int].x <= pts[gs[g1][m1] as int].x + 1
            && pts[gs[g1][m1] as int].y <= pts[gs[g2][m2] as int].y + 1
            && pts[gs[g2][m2] as int].y <= pts[gs[g1][m1] as int].y + 1 implies g1 == g2 by {
        let k = gs[g2][m2] as int;
        assert(is_pixel(pts, empty, k));
        assert(adjacent(pts[gs[g1][m1] as int], pts[k]));
        let m3 = choose|m3: int| 0 <= m3 < gs[g1].len() && #[trigger] gs[g1][m3] == k;
        assert(gs[g1][m3] == gs[g2][m2]);
    }
}

/// Pixel `m` of group `g` has a grid neighbour (column and row each within one of its own)
/// listed before it in the group.
pub open spec fn has_earlier_neighbour(pts: Seq<GridPoint>, g: Seq<usize>, m: int) -> bool {
    exists|q: int|
        0 <= q < m && pts[#[trigger] g[q] as int].x <= pts[g[m] as int].x + 1
            && pts[g[m] as int].x <= pts[g[q] as int].x + 1
            && pts[g[q] as int].y <= pts[g[m] as int].y + 1
            && pts[g[m] as int].y <= pts[g[q] as int].y + 1
}

/// Every cluster of a [`component_grouping`] is a chain of grid neighbours: its pixels are
/// pixels of `pts`, and each pixel after the first has, listed before it in the same cluster,
/// a pixel whose column and row each differ from its own by at most one. So two pixels share a
/// cluster only when a chain of such neighbours links them; two lone pixels two rows apart,
/// say, are in different clusters.
pub proof fn lemma_clusters_are_chains_of_neighbours(pts: Seq<GridPoint>, empty: GridPoint, gs: Seq<Seq<usize>>)
    requires
        component_grouping(pts, empty, gs),
    ensures
        forall|g: int, m: int|
            0 <= g < gs.len() && 0 < m < gs[g].len() ==> #[trigger] has_earlier_neighbour(pts, gs[g], m),
        forall|g: int, m: int|
            0 <= g < gs.len() && 0 <= m < gs[g].len() ==> 0 <= #[trigger] gs[g][m] < pts.len()
                && pts[gs[g][m] as int] != empty,
{
    reveal(members_are_pixels);
    reveal(groups_connected);
    assert forall|g: int, m: int|
        0 <= g < gs.len() && 0 < m < gs[g].len() implies #[trigger] has_earlier_neighbour(pts, gs[g], m) by {
        assert(gs[g][m] == gs[g][m]);
        let q = choose|q: int| 0 <= q < m && adjacent(pts[#[trigger] gs[g][q] as int], pts[gs[g][m] as int]);
        assert(adjacent(pts[gs[g][q] as int], pts[gs[g][m] as int]));
        let gg = gs[g];
        assert(gg[q] == gs[g][q]);
        assert(0 <= q < m && pts[gg[q] as int].x <= pts[gg[m] as int].x + 1);
    }
    assert forall|g: int, m: int|
        0 <= g < gs.len() && 0 <= m < gs[g].len() implies 0 <= #[trigger] gs[g][m] < pts.len()
            && pts[gs[g][m] as int] != empty by {
        assert(is_pixel(pts, empty, gs[g][m] as int));
    }
}

/// Whether two grid positions touch, for positions whose coordinate differences fit.
fn touching(a: GridPoint, b: GridPoint) -> (r: bool)
    requires
        isize::MIN < a.x - b.x <= isize::MAX,
        isize::MIN < a.y - b.y <= isize::MAX,
    ensures
        r == adjacent(a, b),
{
    let dx = a.x - b.x;
    let dy = a.y - b.y;
    -1 <= dx && dx <= 1 && -1 <= dy && dy <= 1
}

/// Where each index stands while the groups are formed: `owner[k]` is the group of `k` (or
/// negative while `k` is in none) and `pos[k]` its place in that group.
spec fn placed(pts: Seq<GridPoint>, empty: GridPoint, gs: Seq<Seq<usize>>, owner: Seq<int>, pos: Seq<int>) -> bool {
    &&& owner.len() == pts.len()
    &&& pos.len() == pts.len()
    &&& forall|g: int, m: int|
        0 <= g < gs.len() && 0 <= m < gs[g].len() ==> {
            &&& is_pixel(pts, empty, #[trigger] gs[g][m] as int)
            &&& owner[gs[g][m] as int] == g
            &&& pos[gs[g][m] as int] == m
        }
    &&& forall|k: int|
        0 <= k < pts.len() && #[trigger] owner[k] >= 0 ==> {
            &&& owner[k] < gs.len()
            &&& 0 <= pos[k] < gs[owner[k]].len()
            &&& gs[owner[k]][pos[k]] == k
        }
}

/// Every pixel that touches one of the first `upto` pixels of group `g` belongs to group `g`.
spec fn closed_upto(pts: Seq<GridPoint>, empty: GridPoint, gs: Seq<Seq<usize>>, owner: Seq<int>, g: int, upto: int) -> bool {
    forall|l: int, k: int|
        0 <= l < upto && is_pixel(pts, empty, k) && adjacent(pts[#[trigger] gs[g][l] as int], #[trigger] pts[k])
            ==> owner[k] == g
}

/// A group as it is formed: it starts at `first`, the smallest of its indexes, and every later
/// pixel touches one listed before it.
spec fn grown_from(pts: Seq<GridPoint>, g: Seq<usize>, first: int) -> bool {
    &&& g.len() >= 1
    &&& g[0] == first
    &&& forall|m: int| 0 < m < g.len() ==> first < #[trigger] g[m]
    &&& forall|m: int|
        0 < m < g.len() ==> exists|q: int| 0 <= q < m && adjacent(pts[g[q] as int], pts[#[trigger] g[m] as int])
}

/// Indexes below `n` that occur once each are no more than `n`.
proof fn lemma_distinct_indexes_fit(s: Seq<usize>, n: int)
    requires
        0 <= n,
        s.no_duplicates(),
        forall|k: int| 0 <= k < s.len() ==> s[k] < n,
    ensures
        s.len() <= n,
{
    let t = s.map_values(|x: usize| x as int);
    assert(t.no_duplicates()) by {
        assert forall|a: int, b: int| 0 <= a < t.len() && 0 <= b < t.len() && a != b implies t[a] != t[b] by {
            assert(s[a] != s[b]);
        }
    }
    t.unique_seq_to_set();
    vstd::set_lib::lemma_int_range(0, n);
    assert(t.to_set().subset_of(vstd::set_lib::set_int_range(0, n))) by {
        assert forall|x: int| t.to_set().contains(x) implies vstd::set_lib::set_int_range(0, n).contains(x) by {
            let k = choose|k: int| 0 <= k < t.len() && t[k] == x;
            assert(s[k] < n);
        }
    }
    vstd::set_lib::lemma_len_subset(t.to_set(), vstd::set_lib::set_int_range(0, n));
}

/// Giving the pixel `j`, in no group yet, to the last group keeps the places consistent.
proof fn lemma_place_in_last(
    pts: Seq<GridPoint>,
    empty: GridPoint,
    gs: Seq<Seq<usize>>,
    owner: Seq<int>,
    pos: Seq<int>,
    j: usize,
)
    requires
        placed(pts, empty, gs, owner, pos),
        gs.len() >= 1,
        is_pixel(pts, empty, j as int),
        owner[j as int] < 0,
    ensures
        placed(
            pts,
            empty,
            gs.drop_last().push(gs.last().push(j)),
            owner.update(j as int, gs.len() - 1),
            pos.update(j as int, gs.last().len() as int),
        ),
{
    let gs2 = gs.drop_last().push(gs.last().push(j));
    let owner2 = owner.update(j as int, gs.len() - 1);
    let pos2 = pos.update(j as int, gs.last().len() as int);
    let last = gs.len() - 1;
    assert forall|g: int, m: int| 0 <= g < gs2.len() && 0 <= m < gs2[g].len() implies {
        &&& is_pixel(pts, empty, #[trigger] gs2[g][m] as int)
        &&& owner2[gs2[g][m] as int] == g
        &&& pos2[gs2[g][m] as int] == m
    } by {
        if g == last && m == gs.last().len() {
            assert(gs2[g][m] == j);
        } else {
            assert(gs2[g][m] == gs[g][m]);
            assert(owner[gs[g][m] as int] == g);
        }
    }
    assert forall|k: int| 0 <= k < pts.len() && #[trigger] owner2[k] >= 0 implies {
        &&& owner2[k] < gs2.len()
        &&& 0 <= pos2[k] < gs2[owner2[k]].len()
        &&& gs2[owner2[k]][pos2[k]] == k
    } by {
        if k != j {
            assert(owner[k] >= 0);
            assert(gs2[owner[k]][pos[k]] == gs[owner[k]][pos[k]]);
        }
    }
}

/// Closure of group `g` up to `upto` survives giving a pixel in no group yet to some group, and
/// a change of the groups that keeps the first `upto` pixels of group `g`.
proof fn lemma_closed_kept(
    pts: Seq<GridPoint>,
    empty: GridPoint,
    gs: Seq<Seq<usize>>,
    owner: Seq<int>,
    g: int,
    upto: int,
    gs2: Seq<Seq<usize>>,
    j: int,
    v: int,
)
    requires
        closed_upto(pts, empty, gs, owner, g, upto),
        0 <= g < gs.len(),
        g < gs2.len(),
        upto <= gs[g].len(),
        upto <= gs2[g].len(),
        forall|l: int| 0 <= l < upto ==> gs2[g][l] == gs[g][l],
        owner.len() == pts.len(),
        0 <= j < owner.len(),
        owner[j] < 0,
    ensures
        closed_upto(pts, empty, gs2, owner.update(j, v), g, upto),
{
    assert forall|l: int, k: int|
        0 <= l < upto && is_pixel(pts, empty, k) && adjacent(pts[#[trigger] gs2[g][l] as int], #[trigger] pts[k])
            implies owner.update(j, v)[k] == g by {
        assert(gs2[g][l] == gs[g][l]);
        assert(owner[k] == g);
    }
}

/// Group fire pixels into clusters of adjacent pixels.
///
/// `points` are the grid positions of the pixels; positions equal to `empty` are not pixels and
/// are skipped. Pixels that touch (one is one of the eight neighbours of the other) are in the
/// same cluster, so that each cluster holds the pixels linked by chains of touching pixels.
/// Each pixel not yet in a cluster, taken in index order, starts a new cluster, which takes in
/// every pixel touching one of its pixels until none is left. The result lists the indexes into
/// `points` of the pixels of each cluster, in the order they were taken in.
pub fn group_fire_points(points: &Vec<GridPoint>, empty: GridPoint) -> (r: Vec<Vec<usize>>)
    requires
        differences_fit(points@, empty),
    ensures
        component_grouping(points@, empty, r@.map_values(|g: Vec<usize>| g@)),
{
    let n = points.len();
    let mut taken: Vec<bool> = Vec::new();
    let mut k: usize = 0;
    while k < n
        invariant
            n == points@.len(),
            k <= n,
            taken@.len() == k,
            forall|m: int| 0 <= m < k ==> #[trigger] taken@[m] == (points@[m] == empty),
        decreases n - k,
    {
        taken.push(points[k] == empty);
        k += 1;
    }
    let ghost mut owner: Seq<int> = Seq::new(n as nat, |m: int| -1int);
    let ghost mut pos: Seq<int> = Seq::new(n as nat, |m: int| 0int);
    let ghost mut done: Seq<Seq<usize>> = Seq::empty();
    let mut clusters: Vec<Vec<usize>> = Vec::new();
    assert(clusters@.map_values(|g: Vec<usize>| g@) =~= done);
    let mut i: usize = 0;
    while i < n
        invariant
            n == points@.len(),
            i <= n,
            taken@.len() == n,
            differences_fit(points@, empty),
            clusters@.map_values(|g: Vec<usize>| g@) == done,
            placed(points@, empty, done, owner, pos),
            forall|m: int| 0 <= m < n ==> #[trigger] taken@[m] == (owner[m] >= 0 || points@[m] == empty),
            forall|m: int| 0 <= m < i ==> #[trigger] taken@[m],
            forall|g: int| 0 <= g < done.len() ==> closed_upto(points@, empty, done, owner, g, #[trigger] done[g].len() as int),
            forall|g: int| 0 <= g < done.len() ==> grown_from(points@, #[trigger] done[g], done[g][0] as int) && done[g][0] < i,
            forall|g1: int, g2: int| 0 <= g1 < g2 < done.len() ==> #[trigger] done[g1][0] < #[trigger] done[g2][0],
        decreases n - i,
    {
        if taken[i] {
            i += 1;
            continue;
        }
        let ghost cidx: int = done.len() as int;
        let ghost done_before = done;
        proof {
            lemma_place_in_last(points@, empty, done.push(seq![]), owner, pos, i);
            assert(done.push(seq![]).drop_last().push(seq![i]) =~= done.push(seq![i]));
            assert forall|g: int| 0 <= g < done.len() implies closed_upto(points@, empty, done.push(seq![i]), owner.update(i as int, cidx), g, #[trigger] done[g].len() as int) by {
                lemma_closed_kept(points@, empty, done, owner, g, done[g].len() as int, done.push(seq![i]), i as int, cidx);
            }
            owner = owner.update(i as int, cidx);
            pos = pos.update(i as int, 0);
        }
        taken.set(i, true);
        let mut group: Vec<usize> = Vec::new();
        group.push(i);
        assert(group@ =~= seq![i]);
        let mut head: usize = 0;
        while head < group.len()
            invariant
                n == points@.len(),
                i < n,
                taken@.len() == n,
                differences_fit(points@, empty),
                clusters@.map_values(|g: Vec<usize>| g@) == done,
                cidx == done.len(),
                placed(points@, empty, done.push(group@), owner, pos),
                forall|m: int| 0 <= m < n ==> #[trigger] taken@[m] == (owner[m] >= 0 || points@[m] == empty),
                forall|m: int| 0 <= m <= i ==> #[trigger] taken@[m],
                forall|g: int| 0 <= g < done.len() ==> closed_upto(points@, empty, done.push(group@), owner, g, #[trigger] done[g].len() as int),
                forall|g: int| 0 <= g < done.len() ==> grown_from(points@, #[trigger] done[g], done[g][0] as int) && done[g][0] < i,
                forall|g1: int, g2: int| 0 <= g1 < g2 < done.len() ==> #[trigger] done[g1][0] < #[trigger] done[g2][0],
                grown_from(points@, group@, i as int),
                head <= group@.len() <= n,
                closed_upto(points@, empty, done.push(group@), owner, cidx, head as int),
            decreases n - head,
        {
            let c = group[head];
            let mut j: usize = 0;
            while j < n
                invariant
                    n == points@.len(),
                    i < n,
                    taken@.len() == n,
                    differences_fit(points@, empty),
                    clusters@.map_values(|g: Vec<usize>| g@) == done,
                    cidx == done.len(),
                    placed(points@, empty, done.push(group@), owner, pos),
                    forall|m: int| 0 <= m < n ==> #[trigger] taken@[m] == (owner[m] >= 0 || points@[m] == empty),
                    forall|m: int| 0 <= m <= i ==> #[trigger] taken@[m],
                    forall|g: int| 0 <= g < done.len() ==> closed_upto(points@, empty, done.push(group@), owner, g, #[trigger] done[g].len() as int),
                    forall|g: int| 0 <= g < done.len() ==> grown_from(points@, #[trigger] done[g], done[g][0] as int) && done[g][0] < i,
                    forall|g1: int, g2: int| 0 <= g1 < g2 < done.len() ==> #[trigger] done[g1][0] < #[trigger] done[g2][0],
                    grown_from(points@, group@, i as int),
                    head < group@.len() <= n,
                    group@[head as int] == c,
                    closed_upto(points@, empty, done.push(group@), owner, cidx, head as int),
                    j <= n,
                    forall|m: int|
                        0 <= m < j && is_pixel(points@, empty, m) && adjacent(points@[c as int], #[trigger] points@[m])
                            ==> owner[m] == cidx,
                decreases n - j,
            {
                let ghost gs = done.push(group@);
                proof {
                    assert(gs[cidx][head as int] == c);
                    assert(is_pixel(points@, empty, c as int));
                    assert(owner[c as int] == cidx);
                }
                if !taken[j] {
                    assert(is_pixel(points@, empty, j as int));
                    if touching(points[c], points[j]) {
                        proof {
                            let len = group@.len() as int;
                            let gs2 = done.push(group@.push(j));
                            lemma_place_in_last(points@, empty, gs, owner, pos, j);
                            assert(gs.drop_last().push(gs.last().push(j)) =~= gs2);
                            assert forall|g: int| 0 <= g < done.len() implies closed_upto(points@, empty, gs2, owner.update(j as int, cidx), g, #[trigger] done[g].len() as int) by {
                                lemma_closed_kept(points@, empty, gs, owner, g, done[g].len() as int, gs2, j as int, cidx);
                            }
                            lemma_closed_kept(points@, empty, gs, owner, cidx, head as int, gs2, j as int, cidx);
                            owner = owner.update(j as int, cidx);
                            pos = pos.update(j as int, len);
                            assert(gs2[cidx][head as int] == c);
                            assert(gs2[cidx][len] == j);
                        }
                        taken.set(j, true);
                        let ghost old_group = group@;
                        group.push(j);
                        proof {
                            let gs2 = done.push(group@);
                            assert(group@.no_duplicates()) by {
                                assert forall|a: int, b: int| 0 <= a < group@.len() && 0 <= b < group@.len() && a != b implies group@[a] != group@[b] by {
                                    assert(gs2[cidx][a] == group@[a]);
                                    assert(gs2[cidx][b] == group@[b]);
                                }
                            }
                            assert forall|m: int| 0 <= m < group@.len() implies group@[m] < n by {
                                assert(gs2[cidx][m] == group@[m]);
                            }
                            lemma_distinct_indexes_fit(group@, n as int);
                            assert(grown_from(points@, group@, i as int)) by {
                                assert forall|m: int| 0 < m < group@.len() implies exists|q: int| 0 <= q < m && adjacent(points@[group@[q] as int], points@[#[trigger] group@[m] as int]) by {
                                    if m == group@.len() - 1 {
                                        assert(group@[head as int] == c);
                                        assert(group@[m] == j);
                                        assert(0 <= head < m && adjacent(points@[group@[head as int] as int], points@[group@[m] as int]));
                                    } else {
                                        assert(group@[m] == old_group[m]);
                                        let q = choose|q: int| 0 <= q < m && adjacent(points@[old_group[q] as int], points@[old_group[m] as int]);
                                        assert(group@[q] == old_group[q]);
                                        assert(0 <= q < m && adjacent(points@[group@[q] as int], points@[group@[m] as int]));
                                    }
                                }
                            }
                        }
                    }
                } else {
                    proof {
                        if is_pixel(points@, empty, j as int) && adjacent(points@[c as int], points@[j as int]) {
                            let g = owner[j as int];
                            assert(g >= 0);
                            if g < cidx {
                                let l = pos[j as int];
                                assert(gs[g][l] == j);
                                assert(adjacent(points@[gs[g][l] as int], points@[c as int]));
                                assert(owner[c as int] == g);
                            }
                        }
                    }
                }
                j += 1;
            }
            proof {
                let gs = done.push(group@);
                assert forall|l: int, m: int|
                    0 <= l < head + 1 && is_pixel(points@, empty, m) && adjacent(points@[#[trigger] gs[cidx][l] as int], #[trigger] points@[m])
                        implies owner[m] == cidx by {
                    if l == head {
                        assert(gs[cidx][l] == c);
                    }
                }
            }
            head += 1;
        }
        proof {
            let gs = done.push(group@);
            done = gs;
        }
        clusters.push(group);
        assert(clusters@.map_values(|g: Vec<usize>| g@) =~= done);
        proof {
            assert forall|g: int| 0 <= g < done.len() implies grown_from(points@, #[trigger] done[g], done[g][0] as int) && done[g][0] < i + 1 by {
                if g < cidx {
                    assert(done[g] == done_before[g]);
                }
            }
            assert forall|g1: int, g2: int| 0 <= g1 < g2 < done.len() implies #[trigger] done[g1][0] < #[trigger] done[g2][0] by {
                assert(done[g1] == done_before[g1]);
                if g2 < cidx {
                    assert(done[g2] == done_before[g2]);
                }
            }
        }
        i += 1;
    }
    proof {
        let gs = done;
        reveal(members_are_pixels);
        reveal(every_pixel_grouped);
        reveal(listed_once);
        reveal(groups_closed);
        reveal(groups_start_smallest);
        reveal(groups_connected);
        reveal(groups_ordered);
        assert forall|k: int| #[trigger] is_pixel(points@, empty, k) implies exists|g: int, m: int|
            0 <= g < gs.len() && 0 <= m < gs[g].len() && #[trigger] gs[g][m] == k by {
            assert(taken@[k]);
            assert(owner[k] >= 0);
            assert(gs[owner[k]][pos[k]] == k);
        }
        assert forall|g1: int, m1: int, g2: int, m2: int|
            0 <= g1 < gs.len() && 0 <= m1 < gs[g1].len() && 0 <= g2 < gs.len() && 0 <= m2 < gs[g2].len()
                && #[trigger] gs[g1][m1] == #[trigger] gs[g2][m2] implies g1 == g2 && m1 == m2 by {
            assert(owner[gs[g1][m1] as int] == g1);
            assert(owner[gs[g2][m2] as int] == g2);
        }
        assert forall|g: int, m: int, k: int|
            0 <= g < gs.len() && 0 <= m < gs[g].len() && is_pixel(points@, empty, k) && adjacent(
                points@[#[trigger] gs[g][m] as int],
                #[trigger] points@[k],
            ) implies exists|m2: int| 0 <= m2 < gs[g].len() && #[trigger] gs[g][m2] == k by {
            assert(closed_upto(points@, empty, gs, owner, g, gs[g].len() as int));
            assert(owner[k] == g);
            assert(gs[g][pos[k]] == k);
        }
        assert forall|g: int| 0 <= g < gs.len() implies #[trigger] gs[g].len() >= 1 by {
            assert(grown_from(points@, gs[g], gs[g][0] as int));
        }
        assert forall|g: int, m: int| 0 <= g < gs.len() && 0 < m < gs[g].len() implies gs[g][0] < #[trigger] gs[g][m] by {
            assert(grown_from(points@, gs[g], gs[g][0] as int));
        }
        assert forall|g: int, m: int| 0 <= g < gs.len() && 0 < m < gs[g].len() implies exists|q: int|
            0 <= q < m && adjacent(points@[gs[g][q] as int], points@[#[trigger] gs[g][m] as int]) by {
            assert(grown_from(points@, gs[g], gs[g][0] as int));
        }
    }
    clusters
}

} // verus!
