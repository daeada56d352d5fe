//! A quadtree spatial index: a recursive rectangular partition of world
//! space that maps positions to membership sets of tile identifiers.
//!
//! The structure is fixed at construction time: a rectangle is quartered
//! recursively until a quarter's width would fall below the minimum leaf
//! width. Afterwards only leaf membership changes (insertions and
//! removals); leaves never re-split.

use vstd::prelude::*;

use crate::COORD_LIMIT;
use crate::geom::Pos;
use crate::rng::rand_below;

verus! {

/// The subsequence of `s` with every occurrence of `id` dropped, order kept.
pub open spec fn seq_without(s: Seq<usize>, id: usize) -> Seq<usize> {
    s.filter(|t: usize| t != id)
}

/// Number of occurrences of `id` in `s`.
pub open spec fn occ(s: Seq<usize>, id: usize) -> int
    decreases s.len(),
{
    if s.len() == 0 {
        0
    } else {
        occ(s.drop_last(), id) + if s.last() == id {
            1int
        } else {
            0int
        }
    }
}

/// Occurrence counts are non-negative, and a contained value occurs.
pub proof fn lemma_occ_contains(s: Seq<usize>, id: usize)
    ensures
        occ(s, id) >= 0,
        s.contains(id) ==> occ(s, id) >= 1,
    decreases s.len(),
{
    if s.len() > 0 {
        lemma_occ_contains(s.drop_last(), id);
        if s.contains(id) && s.last() != id {
            let k = choose|k: int| 0 <= k < s.len() && s[k] == id;
            assert(s.drop_last()[k] == id);
            assert(s.drop_last().contains(id));
        }
    }
}

/// A copy of `v` with every occurrence of `id` dropped, order kept.
fn without_id(v: &Vec<usize>, id: usize) -> (out: Vec<usize>)
    ensures
        out@ == seq_without(v@, id),
{
    let mut out: Vec<usize> = Vec::new();
    let mut i: usize = 0;
    proof {
        reveal(Seq::filter);
        assert(out@ =~= seq_without(v@.take(0), id));
    }
    while i < v.len()
        invariant
            i <= v.len(),
            out@ == seq_without(v@.take(i as int), id),
        decreases v.len() - i,
    {
        proof {
            reveal(Seq::filter);
            assert(v@.take(i as int + 1).drop_last() =~= v@.take(i as int));
            assert(v@.take(i as int + 1).last() == v@[i as int]);
        }
        if v[i] != id {
            out.push(v[i]);
        }
        i = i + 1;
    }
    proof {
        assert(v@.take(v.len() as int) =~= v@);
    }
    out
}

/// Linear membership scan.
fn vec_contains(v: &Vec<usize>, t: usize) -> (r: bool)
    ensures
        r == v@.contains(t),
{
    let mut i: usize = 0;
    while i < v.len()
        invariant
            i <= v@.len(),
            forall|k: int| 0 <= k < i ==> v@[k] != t,
        decreases v@.len() - i,
    {
        if v[i] == t {
            proof {
                assert(v@[i as int] == t);
            }
            return true;
        }
        i = i + 1;
    }
    proof {
        if v@.contains(t) {
            let k = choose|k: int| 0 <= k < v@.len() && v@[k] == t;
            assert(v@[k] != t);
        }
    }
    false
}

/// The members of `tiles` that also occur in `subset`, in order.
fn intersect(tiles: &Vec<usize>, subset: &Vec<usize>) -> (out: Vec<usize>)
    ensures
        forall|j: int|
            0 <= j < out@.len() ==> tiles@.contains(#[trigger] out@[j]) && subset@.contains(
                out@[j],
            ),
        out@.len() > 0 <==> exists|t: usize| #[trigger] tiles@.contains(t) && subset@.contains(t),
{
    let mut out: Vec<usize> = Vec::new();
    let mut i: usize = 0;
    while i < tiles.len()
        invariant
            i <= tiles@.len(),
            forall|j: int|
                0 <= j < out@.len() ==> tiles@.contains(#[trigger] out@[j]) && subset@.contains(
                    out@[j],
                ),
            out@.len() == 0 ==> forall|k: int| 0 <= k < i ==> !subset@.contains(
                #[trigger] tiles@[k],
            ),
        decreases tiles@.len() - i,
    {
        if vec_contains(subset, tiles[i]) {
            proof {
                assert(tiles@.contains(tiles@[i as int]));
            }
            out.push(tiles[i]);
        }
        i = i + 1;
    }
    proof {
        if out@.len() == 0 {
            assert forall|t: usize| #[trigger] tiles@.contains(t) implies !subset@.contains(
                t,
            ) by {
                let k = choose|k: int| 0 <= k < tiles@.len() && tiles@[k] == t;
                assert(!subset@.contains(tiles@[k]));
            }
        } else {
            assert(tiles@.contains(out@[0]) && subset@.contains(out@[0]));
        }
    }
    out
}

/// A node of the spatial index. `branches` is either empty (a leaf holding
/// the member tile identifiers in insertion order) or holds exactly four
/// quadrants of this node's rectangle.
pub struct QuadTree {
    pub branches: Vec<QuadTree>,
    pub tiles: Vec<usize>,
    pub min_width: i64,
    pub x: i64,
    pub y: i64,
    pub width: i64,
    pub height: i64,
}

impl QuadTree {
    /// The node's rectangle and threshold are within the world bounds.
    pub open spec fn rect_ok(self) -> bool {
        &&& 1 <= self.min_width
        &&& 0 <= self.width
        &&& 0 <= self.height
        &&& -COORD_LIMIT <= self.x
        &&& -COORD_LIMIT <= self.y
        &&& self.x + self.width <= COORD_LIMIT
        &&& self.y + self.height <= COORD_LIMIT
    }

    /// Containment is inclusive on all four edges, so a position exactly on
    /// a shared boundary may fall in several sibling rectangles; the fixed
    /// branch order then decides the tie.
    pub open spec fn contains_pt(self, p: Pos) -> bool {
        &&& self.x <= p.x
        &&& self.y <= p.y
        &&& p.x <= self.x + self.width
        &&& p.y <= self.y + self.height
    }

    /// Index of the first branch whose rectangle contains `p`, or -1.
    pub open spec fn route(self, p: Pos) -> int {
        if self.branches@[0].contains_pt(p) {
            0
        } else if self.branches@[1].contains_pt(p) {
            1
        } else if self.branches@[2].contains_pt(p) {
            2
        } else if self.branches@[3].contains_pt(p) {
            3
        } else {
            -1
        }
    }

    /// The four branches quarter this node's rectangle: the near quadrants
    /// take the floored half extents, the far quadrants the remainder, so
    /// that the four rectangles exactly cover the parent's.
    pub open spec fn quadrants_ok(self) -> bool {
        let hw = self.width / 2;
        let hh = self.height / 2;
        let b0 = self.branches@[0];
        let b1 = self.branches@[1];
        let b2 = self.branches@[2];
        let b3 = self.branches@[3];
        &&& b0.x == self.x && b0.y == self.y && b0.width == hw && b0.height == hh
        &&& b1.x == self.x && b1.y == self.y + hh && b1.width == hw && b1.height
            == self.height - hh
        &&& b2.x == self.x + hw && b2.y == self.y && b2.width == self.width - hw && b2.height == hh
        &&& b3.x == self.x + hw && b3.y == self.y + hh && b3.width == self.width - hw && b3.height
            == self.height - hh
        &&& b0.min_width == self.min_width
        &&& b1.min_width == self.min_width
        &&& b2.min_width == self.min_width
        &&& b3.min_width == self.min_width
    }

    /// Well-formed: the rectangle is bounded, and the node is either a leaf
    /// (when a further split would fall below the minimum width) or an
    /// internal node with four well-formed quadrants and no members of its
    /// own.
    pub open spec fn wf(self) -> bool
        decreases self,
    {
        &&& self.rect_ok()
        &&& if self.branches.len() == 0 {
            self.width / 2 < self.min_width
        } else {
            &&& self.branches.len() == 4
            &&& self.tiles.len() == 0
            &&& self.width / 2 >= self.min_width
            &&& self.quadrants_ok()
            &&& self.branches@[0].wf()
            &&& self.branches@[1].wf()
            &&& self.branches@[2].wf()
            &&& self.branches@[3].wf()
        }
    }

    /// `id` is a member of some leaf of this subtree.
    pub open spec fn in_tree(self, id: usize) -> bool
        decreases self,
    {
        if self.branches.len() != 4 {
            self.tiles@.contains(id)
        } else {
            ||| self.tiles@.contains(id)
            ||| self.branches@[0].in_tree(id)
            ||| self.branches@[1].in_tree(id)
            ||| self.branches@[2].in_tree(id)
            ||| self.branches@[3].in_tree(id)
        }
    }

    /// Every member identifier of this subtree is below `n`.
    pub open spec fn ids_below(self, n: int) -> bool {
        forall|id: usize| self.in_tree(id) ==> id < n
    }

    /// The first (insertion-order) member of the leaf whose rectangle the
    /// position falls in, routed through the first containing branch at
    /// every level; `None` outside the tree or at an empty leaf.
    pub open spec fn find_spec(self, p: Pos) -> Option<usize>
        decreases self,
    {
        if !self.contains_pt(p) {
            None
        } else if self.branches.len() != 4 {
            if self.tiles.len() > 0 {
                Some(self.tiles@[0])
            } else {
                None
            }
        } else {
            let r = self.route(p);
            if r >= 0 {
                self.branches@[r].find_spec(p)
            } else {
                None
            }
        }
    }

    /// The whole membership sequence of the leaf the position falls in, or
    /// `None` outside the tree or at an empty leaf.
    pub open spec fn find_all_spec(self, p: Pos) -> Option<Seq<usize>>
        decreases self,
    {
        if !self.contains_pt(p) {
            None
        } else if self.branches.len() != 4 {
            if self.tiles.len() > 0 {
                Some(self.tiles@)
            } else {
                None
            }
        } else {
            let r = self.route(p);
            if r >= 0 {
                self.branches@[r].find_all_spec(p)
            } else {
                None
            }
        }
    }

    /// A branch qualifies as a sampling source for position `p` when its
    /// rectangle does not contain `p` and its own membership intersects the
    /// subset of interest.
    pub open spec fn qualifies(self, p: Pos, subset: Seq<usize>) -> bool {
        &&& !self.contains_pt(p)
        &&& exists|t: usize| #[trigger] self.tiles@.contains(t) && subset.contains(t)
    }

    /// There is something to sample near `p` from `subset`: at some level
    /// along the branch path containing `p`, a sibling branch's own
    /// membership intersects `subset`. Leaves have no siblings below them,
    /// so a tree rooted at a leaf never yields a candidate.
    pub open spec fn has_candidate(self, p: Pos, subset: Seq<usize>) -> bool
        decreases self,
    {
        if !self.contains_pt(p) || self.branches.len() != 4 {
            false
        } else if self.branches@[0].qualifies(p, subset) || self.branches@[1].qualifies(p, subset)
            || self.branches@[2].qualifies(p, subset) || self.branches@[3].qualifies(p, subset) {
            true
        } else {
            let r = self.route(p);
            r >= 0 && self.branches@[r].has_candidate(p, subset)
        }
    }

    /// The two nodes describe the same rectangle and threshold.
    pub open spec fn rect_eq(self, post: QuadTree) -> bool {
        &&& post.x == self.x
        &&& post.y == self.y
        &&& post.width == self.width
        &&& post.height == self.height
        &&& post.min_width == self.min_width
    }

    /// `post` is this tree after inserting `id` at position `p`: the leaf
    /// reached through the first containing branch at every level has `id`
    /// appended to its membership, and everything else is unchanged. When
    /// `p` lies outside the tree, nothing changes.
    pub open spec fn inserted(self, post: QuadTree, p: Pos, id: usize) -> bool
        decreases self,
    {
        if !self.contains_pt(p) {
            post == self
        } else if self.branches.len() != 4 {
            &&& self.rect_eq(post)
            &&& post.branches@ == self.branches@
            &&& post.tiles@ == self.tiles@.push(id)
        } else {
            let r = self.route(p);
            if r >= 0 {
                &&& self.rect_eq(post)
                &&& post.tiles@ == self.tiles@
                &&& post.branches@.len() == 4
                &&& forall|j: int|
                    0 <= j < 4 && j != r ==> post.branches@[j] == self.branches@[j]
                &&& self.branches@[r].inserted(post.branches@[r], p, id)
            } else {
                post == self
            }
        }
    }

    /// `post` is this tree with every occurrence of `id` removed from
    /// every leaf's membership; order of the remaining members is kept.
    pub open spec fn removed(self, post: QuadTree, id: usize) -> bool
        decreases self,
    {
        &&& self.rect_eq(post)
        &&& if self.branches.len() != 4 {
            &&& post.branches@ == self.branches@
            &&& post.tiles@ == seq_without(self.tiles@, id)
        } else {
            &&& post.tiles@ == self.tiles@
            &&& post.branches@.len() == 4
            &&& self.branches@[0].removed(post.branches@[0], id)
            &&& self.branches@[1].removed(post.branches@[1], id)
            &&& self.branches@[2].removed(post.branches@[2], id)
            &&& self.branches@[3].removed(post.branches@[3], id)
        }
    }

    /// The full membership of the leaf reached from `p`, empty when `p` is
    /// outside the tree.
    pub open spec fn members_at(self, p: Pos) -> Seq<usize>
        decreases self,
    {
        if !self.contains_pt(p) {
            Seq::empty()
        } else if self.branches.len() != 4 {
            self.tiles@
        } else {
            let r = self.route(p);
            if r >= 0 {
                self.branches@[r].members_at(p)
            } else {
                Seq::empty()
            }
        }
    }

    /// Number of occurrences of `id` over all membership sequences of
    /// this subtree. A world that inserts each identifier once keeps
    /// every count at or below one.
    pub open spec fn count_of(self, id: usize) -> int
        decreases self,
    {
        occ(self.tiles@, id) + if self.branches.len() == 4 {
            self.branches@[0].count_of(id) + self.branches@[1].count_of(id)
                + self.branches@[2].count_of(id) + self.branches@[3].count_of(id)
        } else {
            0
        }
    }

    fn contains(&self, p: Pos) -> (r: bool)
        requires
            self.rect_ok(),
        ensures
            r == self.contains_pt(p),
    {
        self.x <= p.x && self.y <= p.y && p.x <= self.x + self.width && p.y <= self.y
            + self.height
    }

    /// Builds the fully split, empty index over the given rectangle.
    pub fn new(x: i64, y: i64, width: i64, height: i64, min_width: i64) -> (t: QuadTree)
        requires
            1 <= min_width,
            0 <= width,
            0 <= height,
            -COORD_LIMIT <= x,
            -COORD_LIMIT <= y,
            x + width <= COORD_LIMIT,
            y + height <= COORD_LIMIT,
        ensures
            t.wf(),
            t.x == x && t.y == y && t.width == width && t.height == height && t.min_width
                == min_width,
            forall|id: usize| !t.in_tree(id),
            forall|id: usize| #[trigger] t.count_of(id) == 0,
        decreases width,
    {
        let mut t = QuadTree {
            branches: Vec::new(),
            tiles: Vec::new(),
            min_width,
            x,
            y,
            width,
            height,
        };
        let hw = width / 2;
        let hh = height / 2;
        if hw >= min_width {
            let b0 = QuadTree::new(x, y, hw, hh, min_width);
            let b1 = QuadTree::new(x, y + hh, hw, height - hh, min_width);
            let b2 = QuadTree::new(x + hw, y, width - hw, hh, min_width);
            let b3 = QuadTree::new(x + hw, y + hh, width - hw, height - hh, min_width);
            t.branches.push(b0);
            t.branches.push(b1);
            t.branches.push(b2);
            t.branches.push(b3);
            proof {
                assert(t.branches@ =~= seq![b0, b1, b2, b3]);
                assert forall|id: usize| !t.in_tree(id) by {
                    assert(!b0.in_tree(id));
                    assert(!b1.in_tree(id));
                    assert(!b2.in_tree(id));
                    assert(!b3.in_tree(id));
                }
                assert forall|id: usize| #[trigger] t.count_of(id) == 0 by {
                    assert(b0.count_of(id) == 0);
                    assert(b1.count_of(id) == 0);
                    assert(b2.count_of(id) == 0);
                    assert(b3.count_of(id) == 0);
                    lemma_occ_contains(t.tiles@, id);
                    assert(occ(t.tiles@, id) <= 0) by {
                        assert(t.tiles@.len() == 0);
                    }
                }
            }
        }
        proof {
            if t.branches.len() == 0 {
                assert forall|id: usize| #[trigger] t.count_of(id) == 0 by {
                    assert(t.tiles@.len() == 0);
                }
            }
        }
        t
    }

    /// Inserts `id` at position `p`: recurses into the first branch whose
    /// rectangle contains `p` and appends `id` to the reached leaf.
    /// Returns false (and changes nothing) when `p` is outside this node's
    /// rectangle.
    pub fn insert(&mut self, p: Pos, id: usize) -> (r: bool)
        requires
            old(self).wf(),
        ensures
            final(self).wf(),
            old(self).inserted(*final(self), p, id),
            r == old(self).contains_pt(p),
        decreases *old(self),
    {
        if !self.contains(p) {
            return false;
        }
        if self.branches.len() == 0 {
            self.tiles.push(id);
            true
        } else {
            if self.branches[0].contains(p) {
                self.branches[0].insert(p, id);
            } else if self.branches[1].contains(p) {
                self.branches[1].insert(p, id);
            } else if self.branches[2].contains(p) {
                self.branches[2].insert(p, id);
            } else if self.branches[3].contains(p) {
                self.branches[3].insert(p, id);
            } else {
                proof {
                    assert(old(self).quadrants_ok());
                    assert(false);
                }
            }
            true
        }
    }

    /// Returns the first member of the unique leaf containing `p`, or
    /// `None` if `p` is outside the tree or the leaf is empty.
    pub fn find(&self, p: Pos) -> (r: Option<usize>)
        requires
            self.wf(),
        ensures
            r == self.find_spec(p),
        decreases *self,
    {
        if !self.contains(p) {
            None
        } else if self.branches.len() == 0 {
            if self.tiles.len() > 0 {
                Some(self.tiles[0])
            } else {
                None
            }
        } else {
            if self.branches[0].contains(p) {
                self.branches[0].find(p)
            } else if self.branches[1].contains(p) {
                self.branches[1].find(p)
            } else if self.branches[2].contains(p) {
                self.branches[2].find(p)
            } else if self.branches[3].contains(p) {
                self.branches[3].find(p)
            } else {
                None
            }
        }
    }

    /// Returns the entire membership sequence of the leaf containing `p`,
    /// or `None` if `p` is outside the tree or the leaf is empty.
    pub fn find_all(&self, p: Pos) -> (r: Option<&Vec<usize>>)
        requires
            self.wf(),
        ensures
            r is Some <==> self.find_all_spec(p) is Some,
            r is Some ==> r.unwrap()@ == self.find_all_spec(p).unwrap(),
        decreases *self,
    {
        if !self.contains(p) {
            None
        } else if self.branches.len() == 0 {
            if self.tiles.len() > 0 {
                Some(&self.tiles)
            } else {
                None
            }
        } else {
            if self.branches[0].contains(p) {
                self.branches[0].find_all(p)
            } else if self.branches[1].contains(p) {
                self.branches[1].find_all(p)
            } else if self.branches[2].contains(p) {
                self.branches[2].find_all(p)
            } else if self.branches[3].contains(p) {
                self.branches[3].find_all(p)
            } else {
                None
            }
        }
    }

    /// Samples one member, picked from this branch's own membership
    /// intersected with `subset`, provided the branch does not contain `p`.
    fn sibling_pick(&self, p: Pos, subset: &Vec<usize>) -> (c: Option<usize>)
        requires
            self.rect_ok(),
        ensures
            c is Some <==> self.qualifies(p, subset@),
            c is Some ==> self.tiles@.contains(c.unwrap()) && subset@.contains(c.unwrap()),
    {
        if self.contains(p) {
            return None;
        }
        let inter = intersect(&self.tiles, subset);
        if inter.len() > 0 {
            let k = rand_below(inter.len());
            Some(inter[k])
        } else {
            None
        }
    }

    /// Locates the leaf containing `p`, then samples a member of `subset`
    /// from a qualifying sibling branch: uniformly among the qualifying
    /// siblings and, within the chosen sibling, uniformly among its members
    /// that lie in `subset`. If no sibling on the current level qualifies,
    /// recurses into the branch containing `p`. Which member comes back is
    /// random, but whether one comes back at all is determined by
    /// `has_candidate`.
    pub fn find_around_in(&self, p: Pos, subset: &Vec<usize>) -> (r: Option<usize>)
        requires
            self.wf(),
        ensures
            r is Some <==> self.has_candidate(p, subset@),
            r is Some ==> subset@.contains(r.unwrap()) && self.in_tree(r.unwrap()),
            r is Some && self.count_of(r.unwrap()) <= 1 ==> !self.members_at(p).contains(
                r.unwrap(),
            ),
        decreases *self,
    {
        if !self.contains(p) {
            return None;
        }
        if self.branches.len() == 0 {
            return None;
        }
        let c0 = self.branches[0].sibling_pick(p, subset);
        let c1 = self.branches[1].sibling_pick(p, subset);
        let c2 = self.branches[2].sibling_pick(p, subset);
        let c3 = self.branches[3].sibling_pick(p, subset);
        let mut choices: Vec<usize> = Vec::new();
        if let Some(t) = c0 {
            choices.push(t);
        }
        if let Some(t) = c1 {
            choices.push(t);
        }
        if let Some(t) = c2 {
            choices.push(t);
        }
        if let Some(t) = c3 {
            choices.push(t);
        }
        proof {
            if c0 is Some {
                assert(self.branches@[0].in_tree(c0.unwrap()));
            }
            if c1 is Some {
                assert(self.branches@[1].in_tree(c1.unwrap()));
            }
            if c2 is Some {
                assert(self.branches@[2].in_tree(c2.unwrap()));
            }
            if c3 is Some {
                assert(self.branches@[3].in_tree(c3.unwrap()));
            }
        }
        if choices.len() > 0 {
            let k = rand_below(choices.len());
            let picked = choices[k];
            proof {
                assert((c0 is Some && picked == c0.unwrap()) || (c1 is Some && picked
                    == c1.unwrap()) || (c2 is Some && picked == c2.unwrap()) || (c3 is Some
                    && picked == c3.unwrap()));
                if self.count_of(picked) <= 1 {
                    if c0 is Some && picked == c0.unwrap() {
                        lemma_sibling_not_at(*self, p, 0, picked);
                    } else if c1 is Some && picked == c1.unwrap() {
                        lemma_sibling_not_at(*self, p, 1, picked);
                    } else if c2 is Some && picked == c2.unwrap() {
                        lemma_sibling_not_at(*self, p, 2, picked);
                    } else {
                        lemma_sibling_not_at(*self, p, 3, picked);
                    }
                }
            }
            return Some(picked);
        }
        if self.branches[0].contains(p) {
            let res = self.branches[0].find_around_in(p, subset);
            proof {
                if res is Some && self.count_of(res.unwrap()) <= 1 {
                    lemma_lift_not_at(*self, p, 0, res.unwrap());
                }
            }
            res
        } else if self.branches[1].contains(p) {
            let res = self.branches[1].find_around_in(p, subset);
            proof {
                if res is Some && self.count_of(res.unwrap()) <= 1 {
                    lemma_lift_not_at(*self, p, 1, res.unwrap());
                }
            }
            res
        } else if self.branches[2].contains(p) {
            let res = self.branches[2].find_around_in(p, subset);
            proof {
                if res is Some && self.count_of(res.unwrap()) <= 1 {
                    lemma_lift_not_at(*self, p, 2, res.unwrap());
                }
            }
            res
        } else if self.branches[3].contains(p) {
            let res = self.branches[3].find_around_in(p, subset);
            proof {
                if res is Some && self.count_of(res.unwrap()) <= 1 {
                    lemma_lift_not_at(*self, p, 3, res.unwrap());
                }
            }
            res
        } else {
            None
        }
    }

    /// Removes `id` from every leaf where it is present, keeping the order
    /// of the remaining members; safe to call with an absent `id`.
    pub fn remove(&mut self, id: usize)
        requires
            old(self).wf(),
        ensures
            final(self).wf(),
            old(self).removed(*final(self), id),
        decreases *old(self),
    {
        if self.branches.len() == 0 {
            if self.tiles.len() > 0 {
                self.tiles = without_id(&self.tiles, id);
            } else {
                proof {
                    reveal(Seq::filter);
                    assert(seq_without(self.tiles@, id) =~= self.tiles@);
                }
            }
        } else {
            self.branches[0].remove(id);
            self.branches[1].remove(id);
            self.branches[2].remove(id);
            self.branches[3].remove(id);
        }
    }

    /// Quarters this empty node recursively down to the minimum leaf width.
    pub fn split(&mut self)
        requires
            old(self).rect_ok(),
            old(self).branches.len() == 0,
            old(self).tiles.len() == 0,
        ensures
            final(self).wf(),
            final(self).x == old(self).x && final(self).y == old(self).y,
            final(self).width == old(self).width && final(self).height == old(self).height,
            final(self).min_width == old(self).min_width,
            forall|id: usize| !final(self).in_tree(id),
    {
        *self = QuadTree::new(self.x, self.y, self.width, self.height, self.min_width);
    }
}

/// Occurrence counts over a subtree are non-negative.
pub proof fn lemma_count_nonneg(t: QuadTree, id: usize)
    ensures
        t.count_of(id) >= 0,
    decreases t,
{
    lemma_occ_contains(t.tiles@, id);
    if t.branches.len() == 4 {
        lemma_count_nonneg(t.branches@[0], id);
        lemma_count_nonneg(t.branches@[1], id);
        lemma_count_nonneg(t.branches@[2], id);
        lemma_count_nonneg(t.branches@[3], id);
    }
}

/// A node's own membership sequence contributes fully to its count.
proof fn lemma_count_at_least_occ(t: QuadTree, id: usize)
    ensures
        t.count_of(id) >= occ(t.tiles@, id),
{
    if t.branches.len() == 4 {
        lemma_count_nonneg(t.branches@[0], id);
        lemma_count_nonneg(t.branches@[1], id);
        lemma_count_nonneg(t.branches@[2], id);
        lemma_count_nonneg(t.branches@[3], id);
    }
}

/// A member of the leaf reached from `p` occurs somewhere in the tree.
pub proof fn lemma_members_at_count(t: QuadTree, p: Pos, id: usize)
    ensures
        t.members_at(p).contains(id) ==> t.count_of(id) >= 1,
    decreases t,
{
    lemma_occ_contains(t.tiles@, id);
    if !t.contains_pt(p) {
    } else if t.branches.len() != 4 {
    } else {
        let r = t.route(p);
        if r >= 0 {
            lemma_members_at_count(t.branches@[r], p, id);
            lemma_count_nonneg(t.branches@[0], id);
            lemma_count_nonneg(t.branches@[1], id);
            lemma_count_nonneg(t.branches@[2], id);
            lemma_count_nonneg(t.branches@[3], id);
        }
    }
}

/// A member sampled from a sibling branch that does not contain `p`
/// cannot also sit in the leaf `p` routes to, unless the identifier
/// occurs more than once in the tree.
proof fn lemma_sibling_not_at(t: QuadTree, p: Pos, si: int, id: usize)
    requires
        t.branches@.len() == 4,
        0 <= si < 4,
        !t.branches@[si].contains_pt(p),
        t.branches@[si].tiles@.contains(id),
        t.count_of(id) <= 1,
    ensures
        !t.members_at(p).contains(id),
{
    if t.members_at(p).contains(id) {
        let r = t.route(p);
        assert(r >= 0);
        assert(r != si);
        assert(t.members_at(p) == t.branches@[r].members_at(p));
        lemma_members_at_count(t.branches@[r], p, id);
        lemma_occ_contains(t.branches@[si].tiles@, id);
        lemma_count_at_least_occ(t.branches@[si], id);
        lemma_occ_contains(t.tiles@, id);
        lemma_count_nonneg(t.branches@[0], id);
        lemma_count_nonneg(t.branches@[1], id);
        lemma_count_nonneg(t.branches@[2], id);
        lemma_count_nonneg(t.branches@[3], id);
        assert(t.branches@[si].count_of(id) >= 1);
        assert(t.count_of(id) >= 2);
    }
}

/// Lifts the sibling-exclusion guarantee through the branch `p` routes
/// into.
proof fn lemma_lift_not_at(t: QuadTree, p: Pos, bi: int, id: usize)
    requires
        t.branches@.len() == 4,
        0 <= bi < 4,
        t.contains_pt(p),
        t.route(p) == bi,
        t.count_of(id) <= 1,
        t.branches@[bi].count_of(id) <= 1 ==> !t.branches@[bi].members_at(p).contains(id),
    ensures
        !t.members_at(p).contains(id),
{
    lemma_occ_contains(t.tiles@, id);
    lemma_count_nonneg(t.branches@[0], id);
    lemma_count_nonneg(t.branches@[1], id);
    lemma_count_nonneg(t.branches@[2], id);
    lemma_count_nonneg(t.branches@[3], id);
    assert(t.branches@[bi].count_of(id) <= 1);
    assert(t.members_at(p) == t.branches@[bi].members_at(p));
}

/// The filtered sequence never contains the dropped identifier.
proof fn lemma_seq_without_no_id(s: Seq<usize>, id: usize)
    ensures
        !seq_without(s, id).contains(id),
    decreases s.len(),
{
    reveal(Seq::filter);
    if s.len() > 0 {
        lemma_seq_without_no_id(s.drop_last(), id);
        let sub = seq_without(s.drop_last(), id);
        let out = seq_without(s, id);
        if out.contains(id) {
            let j = choose|j: int| 0 <= j < out.len() && out[j] == id;
            if s.last() != id {
                if j < sub.len() {
                    assert(sub.contains(sub[j]));
                }
            } else {
                assert(sub.contains(sub[j]));
            }
        }
    }
}

/// A query outside the root rectangle never finds anything.
///
/// Law: for positions outside the tree, `find` and `find_all` always
/// return "not found".
pub proof fn lemma_find_outside(t: QuadTree, p: Pos)
    requires
        !t.contains_pt(p),
    ensures
        t.find_spec(p) is None,
        t.find_all_spec(p) is None,
{
}

/// Law: after inserting `id` at a contained position `p`, the leaf reached
/// from `p` holds its old membership with `id` appended, and `find` at `p`
/// returns the first member of that leaf — an identifier that was inserted
/// at a position routed to the same leaf.
pub proof fn lemma_find_after_insert(t: QuadTree, post: QuadTree, p: Pos, id: usize)
    requires
        t.wf(),
        t.contains_pt(p),
        t.inserted(post, p, id),
    ensures
        post.members_at(p) == t.members_at(p).push(id),
        post.find_spec(p) is Some,
        post.find_spec(p) == Some(post.members_at(p)[0]),
    decreases t,
{
    if t.branches.len() != 4 {
    } else {
        let r = t.route(p);
        assert(t.quadrants_ok());
        assert(r >= 0);
        let tr = t.branches@[r];
        let pr = post.branches@[r];
        assert(tr.inserted(pr, p, id));
        assert(tr.rect_eq(pr));
        lemma_find_after_insert(tr, pr, p, id);
        assert(post.route(p) == r);
    }
}

/// Law: after removing `id`, the membership `find_all` reports at any
/// position never includes `id`, in any leaf.
pub proof fn lemma_find_all_after_remove(t: QuadTree, post: QuadTree, id: usize, p: Pos)
    requires
        t.wf(),
        t.removed(post, id),
    ensures
        post.find_all_spec(p) is Some ==> !post.find_all_spec(p).unwrap().contains(id),
        !post.in_tree(id),
    decreases t,
{
    if t.branches.len() != 4 {
        lemma_seq_without_no_id(t.tiles@, id);
    } else {
        assert(t.branches@[0].removed(post.branches@[0], id));
        assert(t.branches@[1].removed(post.branches@[1], id));
        assert(t.branches@[2].removed(post.branches@[2], id));
        assert(t.branches@[3].removed(post.branches@[3], id));
        assert(t.branches@[0].rect_eq(post.branches@[0]));
        assert(t.branches@[1].rect_eq(post.branches@[1]));
        assert(t.branches@[2].rect_eq(post.branches@[2]));
        assert(t.branches@[3].rect_eq(post.branches@[3]));
        lemma_find_all_after_remove(t.branches@[0], post.branches@[0], id, p);
        lemma_find_all_after_remove(t.branches@[1], post.branches@[1], id, p);
        lemma_find_all_after_remove(t.branches@[2], post.branches@[2], id, p);
        lemma_find_all_after_remove(t.branches@[3], post.branches@[3], id, p);
    }
}

/// Inserting at one position changes the membership at any position by
/// at most an appended `id`: the reached leaf gains it, every other
/// leaf's membership is untouched.
pub proof fn lemma_insert_members_at(t: QuadTree, post: QuadTree, p2: Pos, id: usize, q: Pos)
    requires
        t.inserted(post, p2, id),
    ensures
        post.members_at(q) == t.members_at(q) || post.members_at(q) == t.members_at(q).push(id),
    decreases t,
{
    if !t.contains_pt(p2) {
    } else if t.branches.len() != 4 {
    } else {
        let r = t.route(p2);
        if r >= 0 {
            let tr = t.branches@[r];
            let pr = post.branches@[r];
            assert(tr.inserted(pr, p2, id));
            assert(tr.rect_eq(pr));
            assert(post.route(q) == t.route(q));
            let rq = t.route(q);
            if t.contains_pt(q) && rq >= 0 {
                if rq == r {
                    lemma_insert_members_at(tr, pr, p2, id, q);
                } else {
                    assert(post.branches@[rq] == t.branches@[rq]);
                }
            }
        }
    }
}

/// Inserting changes exactly one occurrence count: the inserted
/// identifier's count grows by one when the position is inside the
/// tree, and every other count is untouched.
pub proof fn lemma_insert_count(t: QuadTree, post: QuadTree, p2: Pos, id: usize, x: usize)
    requires
        t.wf(),
        t.inserted(post, p2, id),
    ensures
        post.count_of(x) == t.count_of(x) + (if t.contains_pt(p2) && x == id {
            1int
        } else {
            0int
        }),
    decreases t,
{
    if !t.contains_pt(p2) {
    } else if t.branches.len() != 4 {
        assert(post.tiles@.drop_last() =~= t.tiles@);
    } else {
        let r = t.route(p2);
        assert(t.quadrants_ok());
        assert(r >= 0);
        lemma_insert_count(t.branches@[r], post.branches@[r], p2, id, x);
        assert(t.branches@[r].contains_pt(p2));
    }
}

/// Inserting adds no member other than the inserted identifier.
pub proof fn lemma_insert_in_tree(t: QuadTree, post: QuadTree, p: Pos, id: usize)
    requires
        t.inserted(post, p, id),
    ensures
        forall|x: usize| post.in_tree(x) ==> t.in_tree(x) || x == id,
    decreases t,
{
    if !t.contains_pt(p) {
    } else if t.branches.len() != 4 {
        assert forall|x: usize| post.in_tree(x) implies t.in_tree(x) || x == id by {
            if post.in_tree(x) && x != id {
                let j = choose|j: int| 0 <= j < post.tiles@.len() && post.tiles@[j] == x;
                assert(post.tiles@[j] == t.tiles@.push(id)[j]);
                assert(t.tiles@.contains(t.tiles@[j]));
            }
        }
    } else {
        let r = t.route(p);
        if r >= 0 {
            lemma_insert_in_tree(t.branches@[r], post.branches@[r], p, id);
            assert forall|x: usize| post.in_tree(x) implies t.in_tree(x) || x == id by {
                if post.branches@[0].in_tree(x) && r != 0 {
                    assert(t.branches@[0].in_tree(x));
                }
                if post.branches@[1].in_tree(x) && r != 1 {
                    assert(t.branches@[1].in_tree(x));
                }
                if post.branches@[2].in_tree(x) && r != 2 {
                    assert(t.branches@[2].in_tree(x));
                }
                if post.branches@[3].in_tree(x) && r != 3 {
                    assert(t.branches@[3].in_tree(x));
                }
                if post.branches@[r].in_tree(x) {
                    assert(t.branches@[r].in_tree(x) || x == id);
                }
            }
        }
    }
}

/// Whatever a membership query reports is a member of the tree.
pub proof fn lemma_query_in_tree(t: QuadTree, p: Pos)
    ensures
        t.find_spec(p) is Some ==> t.in_tree(t.find_spec(p).unwrap()),
        t.find_all_spec(p) is Some ==> forall|j: int|
            0 <= j < t.find_all_spec(p).unwrap().len() ==> t.in_tree(
                #[trigger] t.find_all_spec(p).unwrap()[j],
            ),
    decreases t,
{
    if t.contains_pt(p) && t.branches.len() != 4 {
        if t.tiles.len() > 0 {
            assert(t.tiles@.contains(t.tiles@[0]));
            assert forall|j: int| 0 <= j < t.tiles@.len() implies t.in_tree(
                #[trigger] t.tiles@[j],
            ) by {
                assert(t.tiles@.contains(t.tiles@[j]));
            }
        }
    } else if t.contains_pt(p) && t.branches.len() == 4 {
        let r = t.route(p);
        if r >= 0 {
            lemma_query_in_tree(t.branches@[r], p);
        }
    }
}

} // verus!
