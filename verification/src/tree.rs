//! The tree and its growth.

use crate::chance::{roll_range, roll_ratio, Rolls};
use crate::laws::lemma_bounds_stay;
use crate::node::{
    lemma_tick_wf, left_shift, leaf_shift, margins, right_shift, trunk_shift, Node, TreeState,
    DEATH_AGE, EDGE_BOTTOM, EDGE_LEFT, EDGE_RIGHT, EDGE_TOP, GROUND, KNOT_AGE, KNOT_RATIO,
    LEAF_AGE, TRANSITION_AGE, TRANSITION_PENALTY, TRANSITION_RATIO,
};
use rand::rngs::StdRng;
use vstd::prelude::*;

verus! {

/// A tree: a node and the knots that grew out of it, each a tree of its own.
pub struct Tree {
    x: i16,
    y: i16,
    dxy: (i16, i16),
    pub age: i16,
    pub state: TreeState,
    knots: Vec<Tree>,
    xmax: i16,
    ymax: i16,
}

/// A tree as a mathematical value: its root and the shapes of its knots, oldest first.
pub struct Shape {
    pub node: Node,
    pub knots: Seq<Shape>,
}

impl View for Tree {
    type V = Shape;

    closed spec fn view(&self) -> Shape {
        self.shape()
    }
}

impl Tree {
    /// The tree as a mathematical value.
    pub closed spec fn shape(&self) -> Shape
        decreases self, self.knots().len() + 1,
    {
        Shape { node: self.node(), knots: self.shapes(self.knots().len()) }
    }

    /// The shapes of the first `k` knots.
    pub closed spec fn shapes(&self, k: nat) -> Seq<Shape>
        decreases self, k,
    {
        if k == 0 || k > self.knots().len() {
            Seq::empty()
        } else {
            self.shapes((k - 1) as nat).push(self.knots()[k - 1].shape())
        }
    }

    /// The shapes of the first `k` knots are those of the knots, in their order.
    proof fn lemma_shapes(&self, k: nat)
        requires
            k <= self.knots().len(),
        ensures
            self.shapes(k).len() == k,
            forall|i: int| 0 <= i < k ==> #[trigger] self.shapes(k)[i] == self.knots()[i]@,
        decreases k,
    {
        if k > 0 {
            self.lemma_shapes((k - 1) as nat);
        }
    }

    /// The shape of a tree is made of its root and of the shapes of its knots.
    pub proof fn lemma_view(&self)
        ensures
            self@.node == self.node(),
            self@.knots.len() == self.knots().len(),
            forall|i: int|
                0 <= i < self.knots().len() ==> #[trigger] self@.knots[i] == self.knots()[i]@,
    {
        self.lemma_shapes(self.knots().len());
    }

    /// The root node of the tree, without its knots.
    pub closed spec fn node(&self) -> Node {
        Node {
            x: self.x as int,
            y: self.y as int,
            dx: self.dxy.0 as int,
            dy: self.dxy.1 as int,
            age: self.age as int,
            state: self.state,
            xmax: self.xmax as int,
            ymax: self.ymax as int,
        }
    }

    /// The knots of the root, oldest first.
    pub closed spec fn knots(&self) -> Seq<Tree> {
        self.knots@
    }

    /// Every node of the tree is well formed and has the bounds of the root.
    pub open spec fn wf(&self) -> bool
        decreases self,
    {
        &&& self.node().wf()
        &&& forall|i: int|
            0 <= i < self.knots().len() ==> {
                let k = #[trigger] self.knots()[i];
                &&& k.wf()
                &&& k.node().xmax == self.node().xmax
                &&& k.node().ymax == self.node().ymax
            }
    }

    /// Every node of the tree is dead.
    pub open spec fn dead(&self) -> bool
        decreases self,
    {
        &&& self.node().state == TreeState::Dead
        &&& forall|i: int| 0 <= i < self.knots().len() ==> (#[trigger] self.knots()[i]).dead()
    }

    /// Every node of the tree is dead after `n` more ticks at the latest.
    pub open spec fn settles_within(&self, n: int) -> bool
        decreases self,
    {
        &&& self.node().span() <= n
        &&& forall|i: int|
            0 <= i < self.knots().len() ==> (#[trigger] self.knots()[i]).settles_within(n)
    }

    /// The nodes of the tree: the root, then those of each knot in turn.
    pub open spec fn census(&self) -> Seq<Node>
        decreases self, self.knots().len() + 1,
    {
        seq![self.node()] + self.brood(self.knots().len())
    }

    /// The nodes of the first `k` knots, in the order of [`Tree::census`].
    pub open spec fn brood(&self, k: nat) -> Seq<Node>
        decreases self, k,
    {
        if k == 0 || k > self.knots().len() {
            Seq::empty()
        } else {
            self.brood((k - 1) as nat) + self.knots()[k - 1].census()
        }
    }

    /// The knots of `b` are those of `a` and then the one described by `s`,
    /// which has no knots of its own yet.
    pub open spec fn sprouted(a: Tree, b: Tree, s: Option<Node>) -> bool {
        match s {
            None => b.knots() == a.knots(),
            Some(k) => {
                &&& b.knots().len() == a.knots().len() + 1
                &&& b.knots().subrange(0, a.knots().len() as int) == a.knots()
                &&& b.knots().last().node() == k
                &&& b.knots().last().knots().len() == 0
            },
        }
    }

    /// The root of `b` is the root of `a` one tick later, with `r` drawn for
    /// it, and `b` has one knot more than `a` where the root made one.
    pub open spec fn grew_by(a: Tree, b: Tree, r: Rolls) -> bool {
        &&& r.fits(a.node())
        &&& b.node() == a.node().tick(r)
        &&& match a.node().sprout(r) {
            None => b.knots().len() == a.knots().len(),
            Some(k) => {
                &&& b.knots().len() == a.knots().len() + 1
                &&& b.knots().last().node() == k
                &&& b.knots().last().knots().len() == 0
            },
        }
    }

    /// `b` is `a` one tick later, and `script` holds what was drawn in that
    /// tick: one record for every node of `a`, those for the nodes of the
    /// first knot first, then those of the next, and the record of the root
    /// last. Every knot of `a` is still there in `b`, in its place and one
    /// tick later itself.
    pub open spec fn ticked_by(a: Tree, b: Tree, script: Seq<Rolls>) -> bool
        decreases a,
    {
        &&& script.len() == a.census().len()
        &&& a.knots().len() <= b.knots().len()
        &&& forall|i: int|
            0 <= i < a.knots().len() ==> Tree::ticked_by(
                #[trigger] a.knots()[i],
                b.knots()[i],
                a.script_of_knot(script, i),
            )
        &&& Tree::grew_by(a, b, script.last())
    }

    /// The part of the script of a tick of this tree that belongs to its knot `i`.
    pub open spec fn script_of_knot(&self, script: Seq<Rolls>, i: int) -> Seq<Rolls> {
        script.subrange(self.brood(i as nat).len() as int, self.brood((i + 1) as nat).len() as int)
    }

    /// `b` is `a` one tick later, for some draws that fit.
    pub open spec fn ticked(a: Tree, b: Tree) -> bool {
        exists|script: Seq<Rolls>| Tree::ticked_by(a, b, script)
    }

    /// The two trees have the same nodes in the same places.
    pub open spec fn same_shape(a: Tree, b: Tree) -> bool
        decreases a,
    {
        &&& a.node() == b.node()
        &&& a.knots().len() == b.knots().len()
        &&& forall|i: int|
            0 <= i < a.knots().len() ==> Tree::same_shape(#[trigger] a.knots()[i], b.knots()[i])
    }

    /// The first `i` knots of `a` are found in `now`, each one tick later,
    /// and `script` holds what was drawn for their nodes.
    #[verifier::opaque]
    spec fn knots_ticked_by(a: Tree, now: Seq<Tree>, script: Seq<Rolls>, i: int) -> bool {
        &&& 0 <= i <= a.knots().len() <= now.len()
        &&& script.len() == a.brood(i as nat).len()
        &&& forall|j: int|
            0 <= j < i ==> Tree::ticked_by(
                #[trigger] a.knots()[j],
                now[j],
                a.script_of_knot(script, j),
            )
    }

    /// No knot has ticked before the first.
    proof fn lemma_knots_ticked_start(a: Tree, now: Seq<Tree>)
        requires
            a.knots().len() <= now.len(),
        ensures
            Tree::knots_ticked_by(a, now, Seq::empty(), 0),
    {
        reveal(Tree::knots_ticked_by);
    }

    /// When the next knot has ticked, the script grows by what was drawn for it.
    proof fn lemma_knots_ticked_next(
        a: Tree,
        now: Seq<Tree>,
        script: Seq<Rolls>,
        i: int,
        child: Tree,
        drawn: Seq<Rolls>,
    )
        requires
            Tree::knots_ticked_by(a, now, script, i),
            i < a.knots().len(),
            Tree::ticked_by(a.knots()[i], child, drawn),
        ensures
            Tree::knots_ticked_by(a, now.update(i, child), script + drawn, i + 1),
    {
        reveal(Tree::knots_ticked_by);
        let longer = script + drawn;
        assert(a.brood((i + 1) as nat) == a.brood(i as nat) + a.knots()[i].census());
        assert(a.script_of_knot(longer, i) =~= drawn);
        assert forall|j: int| 0 <= j < i + 1 implies Tree::ticked_by(
            #[trigger] a.knots()[j],
            now.update(i, child)[j],
            a.script_of_knot(longer, j),
        ) by {
            if j < i {
                a.lemma_brood_widens(j as nat, (j + 1) as nat);
                a.lemma_brood_widens((j + 1) as nat, i as nat);
                assert(a.script_of_knot(longer, j) =~= a.script_of_knot(script, j));
            }
        }
    }

    /// When every knot has ticked and then the root, the tree has ticked.
    proof fn lemma_knots_ticked_all(a: Tree, b: Tree, script: Seq<Rolls>, r: Rolls)
        requires
            Tree::knots_ticked_by(a, b.knots(), script, a.knots().len() as int),
            Tree::grew_by(a, b, r),
        ensures
            Tree::ticked_by(a, b, script.push(r)),
    {
        reveal(Tree::knots_ticked_by);
        let full = script.push(r);
        let n = a.knots().len();
        assert(full.last() == r);
        assert forall|j: int| 0 <= j < n implies Tree::ticked_by(
            #[trigger] a.knots()[j],
            b.knots()[j],
            a.script_of_knot(full, j),
        ) by {
            a.lemma_brood_widens(j as nat, (j + 1) as nat);
            a.lemma_brood_widens((j + 1) as nat, n);
            assert(a.script_of_knot(full, j) =~= a.script_of_knot(script, j));
        }
    }

    /// When every knot of `a` has ticked, giving `mid`, and then the root
    /// has made its step, giving `b`, then `b` is `a` one tick later.
    proof fn lemma_step_closes_tick(a: Tree, mid: Tree, b: Tree, script: Seq<Rolls>, r: Rolls)
        requires
            Tree::knots_ticked_by(a, mid.knots(), script, a.knots().len() as int),
            mid.knots().len() == a.knots().len(),
            mid.node() == a.node(),
            r.fits(mid.node()),
            b.node() == mid.node().tick(r),
            Tree::sprouted(mid, b, mid.node().sprout(r)),
        ensures
            Tree::ticked_by(a, b, script.push(r)),
    {
        assert(Tree::knots_ticked_by(a, b.knots(), script, a.knots().len() as int)) by {
            reveal(Tree::knots_ticked_by);
            assert forall|j: int| 0 <= j < a.knots().len() implies b.knots()[j]
                == mid.knots()[j] by {
                if mid.node().sprout(r).is_some() {
                    assert(b.knots().subrange(0, mid.knots().len() as int)[j] == b.knots()[j]);
                }
            }
        }
        Tree::lemma_knots_ticked_all(a, b, script, r);
    }

    /// The nodes of the first knots are among those of more of them.
    pub proof fn lemma_brood_widens(&self, j: nat, k: nat)
        requires
            j <= k <= self.knots().len(),
        ensures
            self.brood(j).len() <= self.brood(k).len(),
        decreases k,
    {
        if j < k {
            self.lemma_brood_widens(j, (k - 1) as nat);
        }
    }

    /// A young trunk without knots at the foot of a canvas with the given half-extents.
    pub fn new(xmax: i16, ymax: i16) -> (t: Tree)
        ensures
            t@ == (Shape { node: Node::seed(xmax as int, ymax as int), knots: Seq::empty() }),
            t.node() == Node::seed(xmax as int, ymax as int),
            t.knots().len() == 0,
            t.wf(),
    {
        let t = Tree {
            x: 0,
            y: GROUND,
            dxy: (0, 0),
            age: 0,
            state: TreeState::Trunk,
            knots: Vec::new(),
            xmax,
            ymax,
        };
        proof {
            t.lemma_view();
            assert(t@.knots =~= Seq::<Shape>::empty());
        }
        t
    }

    /// A copy of the root in the given state, without knots.
    pub fn new_at(&self, state: TreeState) -> (t: Tree)
        ensures
            t.node() == (Node { state: state, ..self.node() }),
            t.knots().len() == 0,
    {
        Tree {
            x: self.x,
            y: self.y,
            dxy: self.dxy,
            age: self.age,
            state,
            knots: Vec::new(),
            xmax: self.xmax,
            ymax: self.ymax,
        }
    }

    /// The margins to the top, the bottom, the left and the right edge.
    pub fn check_boundary(&self) -> (m: (i32, i32, i32, i32))
        ensures
            (m.0 as int, m.1 as int, m.2 as int, m.3 as int) == margins(
                self.node().x,
                self.node().y,
                self.node().xmax,
                self.node().ymax,
            ),
    {
        (
            self.y as i32 - self.ymax as i32,
            self.y as i32 - GROUND as i32,
            self.x as i32 + self.xmax as i32,
            self.x as i32 - self.xmax as i32,
        )
    }

    /// A knot is a smaller tree than the one it grew out of.
    pub proof fn lemma_knot_smaller(&self, i: int)
        requires
            0 <= i < self.knots().len(),
        ensures
            decreases_to!(*self => self.knots()[i]),
    {
    }

    /// The age of the root.
    pub fn age(&self) -> (a: i16)
        ensures
            a == self.node().age,
    {
        self.age
    }

    /// The state of the root.
    pub fn state(&self) -> (s: TreeState)
        ensures
            s == self.node().state,
    {
        self.state
    }

    /// The place of the root.
    pub fn position(&self) -> (p: (i16, i16))
        ensures
            p.0 == self.node().x,
            p.1 == self.node().y,
    {
        (self.x, self.y)
    }

    /// The last move of the root.
    pub fn displacement(&self) -> (d: (i16, i16))
        ensures
            d.0 == self.node().dx,
            d.1 == self.node().dy,
    {
        self.dxy
    }

    /// The half-extents of the canvas.
    pub fn bounds(&self) -> (b: (i16, i16))
        ensures
            b.0 == self.node().xmax,
            b.1 == self.node().ymax,
    {
        (self.xmax, self.ymax)
    }

    /// The number of knots of the root.
    pub fn knot_count(&self) -> (n: usize)
        ensures
            n == self.knots().len(),
    {
        self.knots.len()
    }

    /// The knot of the root at the given place.
    pub fn knot(&self, i: usize) -> (k: &Tree)
        requires
            i < self.knots().len(),
        ensures
            *k == self.knots()[i as int],
    {
        &self.knots[i]
    }

    /// True when every node of the tree is dead.
    pub fn is_dead(&self) -> (d: bool)
        ensures
            d == self.dead(),
        decreases self,
    {
        if self.state != TreeState::Dead {
            return false;
        }
        let mut i: usize = 0;
        while i < self.knots.len()
            invariant
                i <= self.knots().len(),
                forall|j: int| 0 <= j < i ==> (#[trigger] self.knots()[j]).dead(),
            decreases self.knots().len() - i,
        {
            if !self.knots[i].is_dead() {
                return false;
            }
            i += 1;
        }
        true
    }

    /// Adds the knot that the root makes towards the given side, if it makes one.
    pub fn knot_toward(&mut self, right: bool)
        ensures
            final(self).node() == old(self).node(),
            Tree::sprouted(*old(self), *final(self), old(self).node().knot(right)),
            old(self).wf() ==> final(self).wf(),
    {
        match self.state {
            TreeState::BranchLeft => {
                let k = self.new_at(TreeState::Trunk);
                self.knots.push(k);
            },
            TreeState::BranchRight => {
                let k = self.new_at(TreeState::Trunk);
                self.knots.push(k);
            },
            TreeState::Trunk => {
                let k = self.new_at(
                    if right {
                        TreeState::BranchRight
                    } else {
                        TreeState::BranchLeft
                    },
                );
                self.knots.push(k);
            },
            TreeState::Leaves => {},
            TreeState::Dead => {},
        }
        proof {
            let n = old(self).knots().len() as int;
            assert(self.knots().subrange(0, n) =~= old(self).knots());
            if old(self).wf() && self.knots().len() > n {
                assert(self.knots()[n].wf());
                assert forall|i: int| 0 <= i < self.knots().len() implies {
                    let k = #[trigger] self.knots()[i];
                    &&& k.wf()
                    &&& k.node().xmax == self.node().xmax
                    &&& k.node().ymax == self.node().ymax
                } by {
                    if i < n {
                        assert(self.knots()[i] == old(self).knots()[i]);
                    }
                }
            }
        }
    }

    /// Adds a knot to the root, if its state lets it make one: a branch
    /// starts a trunk, a trunk a branch to either side with even odds.
    pub fn force_knot(&mut self, rng: &mut StdRng)
        ensures
            final(self).node() == old(self).node(),
            exists|right: bool| #[trigger]
                Tree::sprouted(*old(self), *final(self), old(self).node().knot(right)),
            old(self).wf() ==> final(self).wf(),
    {
        let right = match self.state {
            TreeState::Trunk => roll_ratio(rng, 1, 2),
            _ => false,
        };
        self.knot_toward(right);
    }

    /// One tick of the root alone, with the given draws; the knots it has stay as they are.
    pub fn step(&mut self, rolls: Rolls)
        requires
            old(self).wf(),
            rolls.fits(old(self).node()),
        ensures
            final(self).node() == old(self).node().tick(rolls),
            Tree::sprouted(*old(self), *final(self), old(self).node().sprout(rolls)),
            final(self).wf(),
    {
        proof {
            lemma_tick_wf(self.node(), rolls);
        }
        if self.age < i16::MAX {
            self.age += 1;
        }
        if self.age > DEATH_AGE || self.state == TreeState::Dead {
            self.state = TreeState::Dead;
            return;
        }
        if self.age > LEAF_AGE {
            self.state = TreeState::Leaves;
        }
        self.dxy = match self.state {
            TreeState::Trunk => trunk_growth(self, rolls),
            TreeState::BranchLeft => left_shoot_growth(self, rolls),
            TreeState::BranchRight => right_shoot_growth(self, rolls),
            TreeState::Leaves => leaf_growth(self, rolls),
            TreeState::Dead => (0, 0),
        };
        self.x += self.dxy.0;
        self.y += self.dxy.1;

        let bnd = self.check_boundary();
        if bnd.0 > -2 {
            self.y += EDGE_TOP;
        }
        if bnd.1 < 0 {
            self.y += EDGE_BOTTOM;
        }
        if bnd.2 < 5 {
            self.x += EDGE_LEFT;
        }
        if bnd.3 > -5 {
            self.x += EDGE_RIGHT;
        }
        if self.state == TreeState::Trunk && self.age > TRANSITION_AGE && rolls.turn {
            self.age += TRANSITION_PENALTY;
            self.state = if rolls.turn_left {
                TreeState::BranchLeft
            } else {
                TreeState::BranchRight
            };
        }
        if rolls.knot && self.age > KNOT_AGE {
            self.knot_toward(rolls.knot_right);
        }
    }

    /// Draws what the root needs for its next tick, and nothing more: the
    /// draws for its move first, then whether a trunk turns and to which
    /// side, then whether the node makes a knot and, for a trunk, on which
    /// side.
    pub fn draw(&self, rng: &mut StdRng) -> (r: Rolls)
        ensures
            r.fits(self.node()),
            r.thrifty(self.node()),
    {
        let mut r = Rolls::still();
        let age: i16 = if self.age < i16::MAX {
            self.age + 1
        } else {
            self.age
        };
        if age > DEATH_AGE || self.state == TreeState::Dead {
            return r;
        }
        let state = if age > LEAF_AGE {
            TreeState::Leaves
        } else {
            self.state
        };
        match state {
            TreeState::Trunk => {
                if 0 <= age && age <= 10 {
                    r.sway = roll_range(rng, -1, 1);
                } else if 11 <= age && age <= TRANSITION_AGE {
                    r.sway = roll_range(rng, 1, 10);
                } else {
                    r.sway = roll_range(rng, -1, 2);
                    r.rise = roll_ratio(rng, 1, 3);
                }
            },
            TreeState::BranchLeft => {
                r.lift = roll_range(rng, 1, 10);
                r.sway = roll_range(rng, 1, 10);
            },
            TreeState::BranchRight => {
                r.lift = roll_range(rng, 1, 10);
                r.sway = roll_range(rng, 1, 10);
            },
            TreeState::Leaves => {
                r.lift = roll_range(rng, 1, 15);
                r.sway = roll_range(rng, -1, 1);
            },
            TreeState::Dead => {},
        }
        let trunk = state == TreeState::Trunk;
        if trunk && age > TRANSITION_AGE {
            r.turn = roll_ratio(rng, 1, TRANSITION_RATIO);
            if r.turn {
                r.turn_left = roll_ratio(rng, 4, 5);
            }
        }
        r.knot = roll_ratio(rng, 1, KNOT_RATIO);
        if r.knot && trunk && !r.turn && age > KNOT_AGE {
            r.knot_right = roll_ratio(rng, 1, 2);
        }
        r
    }

    /// One tick of the whole tree: every knot grows, oldest first, then the root.
    pub fn grow(&mut self, rng: &mut StdRng)
        requires
            old(self).wf(),
        ensures
            final(self).wf(),
            Tree::ticked(*old(self), *final(self)),
        decreases *old(self),
    {
        let n: usize = self.knots.len();
        let mut i: usize = 0;
        let ghost mut script: Seq<Rolls> = Seq::empty();
        proof {
            Tree::lemma_knots_ticked_start(*self, self.knots());
        }
        while i < n
            invariant
                i <= n,
                n == self.knots().len(),
                n == old(self).knots().len(),
                self.node() == old(self).node(),
                old(self).wf(),
                Tree::knots_ticked_by(*old(self), self.knots(), script, i as int),
                forall|j: int|
                    0 <= j < i ==> {
                        let k = #[trigger] self.knots()[j];
                        &&& k.wf()
                        &&& k.node().xmax == self.node().xmax
                        &&& k.node().ymax == self.node().ymax
                    },
                forall|j: int| i <= j < n ==> old(self).knots()[j] == self.knots()[j],
            decreases n - i,
        {
            let ghost before = self.knots();
            self.knots[i].grow(rng);
            proof {
                let child = self.knots()[i as int];
                let drawn = choose|drawn: Seq<Rolls>|
                    Tree::ticked_by(old(self).knots()[i as int], child, drawn);
                Tree::lemma_knots_ticked_next(*old(self), before, script, i as int, child, drawn);
                assert(self.knots() =~= before.update(i as int, child));
                script = script + drawn;
                lemma_bounds_stay(old(self).knots()[i as int], child);
            }
            i += 1;
        }
        let ghost mid = *self;
        let rolls = self.draw(rng);
        self.step(rolls);
        proof {
            Tree::lemma_step_closes_tick(*old(self), mid, *self, script, rolls);
        }
    }
}

/// The move of a trunk of the age of `t`.
pub fn trunk_growth(t: &Tree, rolls: Rolls) -> (d: (i16, i16))
    ensures
        (d.0 as int, d.1 as int) == trunk_shift(t.node().age, rolls),
{
    if 0 <= t.age && t.age <= 10 {
        (rolls.sway, 0)
    } else if 11 <= t.age && t.age <= TRANSITION_AGE {
        let x: i16 = if rolls.sway == 1 || rolls.sway == 2 {
            -1
        } else if rolls.sway == 3 || rolls.sway == 4 {
            1
        } else {
            0
        };
        let y: i16 = if t.age % 6 == 0 {
            1
        } else {
            0
        };
        (x, y)
    } else {
        let y: i16 = if rolls.rise {
            1
        } else {
            0
        };
        (rolls.sway, y)
    }
}

/// The move of a branch that drifts to the left.
pub fn left_shoot_growth(_t: &Tree, rolls: Rolls) -> (d: (i16, i16))
    ensures
        (d.0 as int, d.1 as int) == left_shift(rolls),
{
    let mut y: i16 = 0;
    if rolls.lift == 1 {
        y = -1;
    } else if rolls.lift == 9 || rolls.lift == 10 {
        y = 1;
    }
    let x: i16 = if rolls.sway == 1 || rolls.sway == 2 {
        -2
    } else if 3 <= rolls.sway && rolls.sway <= 6 {
        -1
    } else if 7 <= rolls.sway && rolls.sway <= 9 {
        0
    } else {
        1
    };
    (x, y)
}

/// The move of a branch that drifts to the right: that of a left one, mirrored.
pub fn right_shoot_growth(t: &Tree, rolls: Rolls) -> (d: (i16, i16))
    ensures
        (d.0 as int, d.1 as int) == right_shift(rolls),
{
    let xy = left_shoot_growth(t, rolls);
    (-xy.0, xy.1)
}

/// The move of a cluster of leaves.
pub fn leaf_growth(_t: &Tree, rolls: Rolls) -> (d: (i16, i16))
    ensures
        (d.0 as int, d.1 as int) == leaf_shift(rolls),
{
    let y: i16 = if rolls.lift == 1 {
        -1
    } else if rolls.lift == 2 {
        1
    } else {
        0
    };
    (rolls.sway, y)
}

} // verus!
