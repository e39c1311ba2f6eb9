use vstd::prelude::*;
use vstd::multiset::Multiset;

use crate::vector::{dist_sq, in_box, Vec2};

verus! {

broadcast use vstd::seq_lib::group_to_multiset_ensures;

/// Largest coordinate magnitude the index holds; squared distances between
/// such points fit in an `i64`.
pub const COORD_LIMIT: i64 = 536870912;

/// A kd-tree over (point, index) items. Verus refuses a declaration of
/// `kd_tree::KdTreeN` (its dimension parameter is bound by a typenum trait),
/// so the tree is held here, opaque, and reached through the wrappers below.
#[verifier::external_body]
pub struct PointTree {
    tree: kd_tree::KdTreeN<([i64; 2], usize), typenum::U2>,
}

/// The items a tree holds, as (x, y, index) triples, in no particular order.
pub uninterp spec fn tree_items(t: PointTree) -> Multiset<(int, int, int)>;

pub open spec fn as_triple(p: (i64, i64, usize)) -> (int, int, int) {
    (p.0 as int, p.1 as int, p.2 as int)
}

/// Relies on kd_tree::KdTreeN::build, which reorders the given items into a
/// tree and keeps each of them.
#[verifier::external_body]
fn build_tree(items: Vec<(i64, i64, usize)>) -> (t: PointTree)
    ensures
        tree_items(t) == items@.map_values(|p: (i64, i64, usize)| as_triple(p)).to_multiset(),
{
    PointTree { tree: kd_tree::KdTreeN::build(items.into_iter().map(|(x, y, i)| ([x, y], i)).collect()) }
}

/// The tree holds an item with index `k` whose squared distance to
/// `(qx, qy)` is below `radius * radius`.
pub open spec fn holds_near(
    t: PointTree,
    k: int,
    qx: i64,
    qy: i64,
    radius: i64,
) -> bool {
    exists|p: (int, int, int)|
        #[trigger] tree_items(t).contains(p) && p.2 == k && dist_sq((p.0, p.1), (qx as int, qy as int))
            < radius * radius
}

/// Relies on kd_tree::KdSliceN::within_radius, which visits each item of the
/// tree once and returns those whose squared distance to the query is below
/// `radius * radius`.
#[verifier::external_body]
fn tree_within_radius(
    t: &PointTree,
    qx: i64,
    qy: i64,
    radius: i64,
) -> (hits: Vec<usize>)
    requires
        -COORD_LIMIT <= qx <= COORD_LIMIT,
        -COORD_LIMIT <= qy <= COORD_LIMIT,
        0 <= radius <= COORD_LIMIT,
        forall|p: (int, int, int)| #[trigger]
            tree_items(*t).contains(p) ==> in_box((p.0, p.1), COORD_LIMIT as int),
        forall|p: (int, int, int)| #[trigger] tree_items(*t).count(p) <= 1,
        forall|p: (int, int, int), q: (int, int, int)|
            #[trigger] tree_items(*t).contains(p) && #[trigger] tree_items(*t).contains(q) && p.2
                == q.2 ==> p == q,
    ensures
        hits@.no_duplicates(),
        forall|k: usize| #[trigger] hits@.contains(k) <==> holds_near(*t, k as int, qx, qy, radius),
{
    t.tree.within_radius(&[qx, qy], radius).into_iter().map(|item| item.1).collect()
}

/// The points of `pts`, each with its position in `pts`.
pub open spec fn indexed(pts: Seq<(int, int)>) -> Seq<(int, int, int)> {
    Seq::new(pts.len(), |j: int| (pts[j].0, pts[j].1, j))
}

/// An immutable 2D point index answering radius queries; rebuilt whenever
/// the points move.
pub struct SpatialIndex {
    tree: PointTree,
    points: Vec<Vec2>,
}

impl View for SpatialIndex {
    type V = Seq<(int, int)>;

    closed spec fn view(&self) -> Seq<(int, int)> {
        self.points@.map_values(|v: Vec2| v@)
    }
}

impl SpatialIndex {
    pub closed spec fn wf(&self) -> bool {
        &&& tree_items(self.tree) == indexed(self@).to_multiset()
        &&& forall|j: int| 0 <= j < self@.len() ==> in_box(#[trigger] self@[j], COORD_LIMIT as int)
    }

    /// Indexes `points`; a query's answer names points by their position in `points`.
    pub fn build(points: &Vec<Vec2>) -> (r: SpatialIndex)
        requires
            forall|j: int| 0 <= j < points@.len() ==> in_box(#[trigger] points@[j]@, COORD_LIMIT as int),
        ensures
            r.wf(),
            r@ == points@.map_values(|v: Vec2| v@),
    {
        let mut items: Vec<(i64, i64, usize)> = Vec::new();
        let mut i: usize = 0;
        while i < points.len()
            invariant
                i <= points@.len(),
                items@.len() == i,
                forall|j: int| 0 <= j < i ==> #[trigger] items@[j] == (points@[j].x, points@[j].y, j as usize),
            decreases points@.len() - i,
        {
            items.push((points[i].x, points[i].y, i));
            i += 1;
        }
        let ghost pts = points@.map_values(|v: Vec2| v@);
        let ghost triples = items@.map_values(|p: (i64, i64, usize)| as_triple(p));
        assert(triples =~= indexed(pts));
        let tree = build_tree(items);
        SpatialIndex { tree, points: points.clone() }
    }

    proof fn lemma_tree_items(&self)
        requires
            self.wf(),
        ensures
            forall|p: (int, int, int)| #[trigger]
                tree_items(self.tree).contains(p) <==> (0 <= p.2 < self@.len() && p == (
                    self@[p.2].0,
                    self@[p.2].1,
                    p.2,
                )),
            forall|p: (int, int, int)| #[trigger]
                tree_items(self.tree).contains(p) ==> in_box((p.0, p.1), COORD_LIMIT as int),
            forall|p: (int, int, int)| #[trigger] tree_items(self.tree).count(p) <= 1,
    {
        let s = indexed(self@);
        assert(s.no_duplicates()) by {
            assert forall|a: int, b: int| 0 <= a < s.len() && 0 <= b < s.len() && a != b implies s[a]
                != s[b] by {
                assert(s[a].2 == a && s[b].2 == b);
            }
        }
        s.lemma_multiset_has_no_duplicates();
        assert forall|p: (int, int, int)| #[trigger]
            tree_items(self.tree).contains(p) <==> (0 <= p.2 < self@.len() && p == (
                self@[p.2].0,
                self@[p.2].1,
                p.2,
            )) by {
            if s.contains(p) {
                let j = choose|j: int| 0 <= j < s.len() && s[j] == p;
                assert(s[j].2 == j);
            }
            if 0 <= p.2 < self@.len() && p == (self@[p.2].0, self@[p.2].1, p.2) {
                assert(s[p.2] == p);
            }
        }
        assert forall|p: (int, int, int)| #[trigger] tree_items(self.tree).count(p) <= 1 by {
            if !s.to_multiset().contains(p) {
                assert(s.to_multiset().count(p) == 0);
            }
        }
    }

    /// The indices of the points within `radius` of `q`, the boundary
    /// included, each once.
    pub fn within_radius(&self, q: Vec2, radius: i64) -> (r: Vec<usize>)
        requires
            self.wf(),
            in_box(q@, COORD_LIMIT as int),
            0 <= radius < COORD_LIMIT,
        ensures
            r@.no_duplicates(),
            forall|k: usize|
                #[trigger] r@.contains(k) <==> (k < self@.len() && dist_sq(self@[k as int], q@) <= radius
                    * radius),
    {
        proof {
            self.lemma_tree_items();
        }
        let near = tree_within_radius(&self.tree, q.x, q.y, radius + 1);
        assert(COORD_LIMIT * COORD_LIMIT < i128::MAX) by (nonlinear_arith);
        assert(radius * radius <= COORD_LIMIT * COORD_LIMIT) by (nonlinear_arith)
            requires
                0 <= radius < COORD_LIMIT,
        ;
        let mut found: Vec<usize> = Vec::new();
        let mut i: usize = 0;
        while i < near.len()
            invariant
                i <= near@.len(),
                near@.no_duplicates(),
                found@.no_duplicates(),
                in_box(q@, COORD_LIMIT as int),
                self.wf(),
                0 <= radius < COORD_LIMIT,
                radius * radius <= COORD_LIMIT * COORD_LIMIT,
                forall|k: usize| #[trigger]
                    near@.contains(k) ==> (k < self@.len() && dist_sq(self@[k as int], q@) < (radius + 1)
                        * (radius + 1)),
                forall|k: usize|
                    #[trigger] found@.contains(k) <==> (near@.subrange(0, i as int).contains(k) && self.close_to(k as int, q@, radius as int)),
            decreases near@.len() - i,
        {
            let k = near[i];
            assert(near@.contains(k));
            let p = self.point(k);
            let dx = (p.x as i128) - (q.x as i128);
            let dy = (p.y as i128) - (q.y as i128);
            assert(dx * dx + dy * dy <= 8 * COORD_LIMIT * COORD_LIMIT) by (nonlinear_arith)
                requires
                    -2 * COORD_LIMIT <= dx <= 2 * COORD_LIMIT,
                    -2 * COORD_LIMIT <= dy <= 2 * COORD_LIMIT,
            ;
            assert(dx * dx >= 0 && dy * dy >= 0) by (nonlinear_arith);
            let d = dx * dx + dy * dy;
            let ghost before = found@;
            let ghost seen = near@.subrange(0, i as int);
            assert(near@.subrange(0, i + 1) == seen.push(k));
            assert(!seen.contains(k)) by {
                if seen.contains(k) {
                    let j = choose|j: int| 0 <= j < seen.len() && seen[j] == k;
                    assert(near@[j] == near@[i as int]);
                }
            }
            assert(d == dist_sq(self@[k as int], q@));
            assert(self.close_to(k as int, q@, radius as int) <==> d <= radius * radius);
            assert(!before.contains(k));
            if d <= (radius as i128) * (radius as i128) {
                found.push(k);
                assert(found@ == before.push(k));
            }
            proof {
                assert forall|k2: usize|
                    #[trigger] found@.contains(k2) <==> (seen.push(k).contains(k2) && self.close_to(k2 as int, q@, radius as int)) by {
                    if k2 == k {
                        assert(seen.push(k)[seen.len() as int] == k2);
                        if self.close_to(k as int, q@, radius as int) {
                            assert(found@[found@.len() - 1] == k);
                        } else {
                            assert(found@ == before);
                        }
                    }
                    if found@.contains(k2) && k2 != k {
                        let j = choose|j: int| 0 <= j < found@.len() && found@[j] == k2;
                        assert(before[j] == k2);
                        assert(before.contains(k2));
                    }
                    if seen.push(k).contains(k2) && k2 != k && self.close_to(k2 as int, q@, radius as int) {
                        let j = choose|j: int| 0 <= j < seen.len() + 1 && seen.push(k)[j] == k2;
                        assert(seen[j] == k2);
                        assert(before.contains(k2));
                        let j2 = choose|j2: int| 0 <= j2 < before.len() && before[j2] == k2;
                        assert(found@[j2] == k2);
                    }
                }
            }
            i += 1;
        }
        proof {
            assert(near@.subrange(0, i as int) == near@);
            assert forall|k: usize|
                #[trigger] found@.contains(k) <==> (k < self@.len() && dist_sq(self@[k as int], q@) <= radius
                    * radius) by {
                if k < self@.len() && dist_sq(self@[k as int], q@) <= radius * radius {
                    assert(radius * radius < (radius + 1) * (radius + 1)) by (nonlinear_arith)
                        requires
                            radius >= 0,
                    ;
                    let p = (self@[k as int].0, self@[k as int].1, k as int);
                    assert(tree_items(self.tree).contains(p));
                    assert(holds_near(self.tree, k as int, q.x, q.y, (radius + 1) as i64));
                }
            }
        }
        found
    }

    spec fn close_to(&self, k: int, q: (int, int), radius: int) -> bool {
        0 <= k < self@.len() && dist_sq(self@[k], q) <= radius * radius
    }

    /// The point stored at index `k`.
    fn point(&self, k: usize) -> (r: Vec2)
        requires
            self.wf(),
            k < self@.len(),
        ensures
            r@ == self@[k as int],
    {
        self.points[k]
    }
}

} // verus!
