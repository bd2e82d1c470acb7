//! The model of a single node: its data as mathematical integers, and one
//! tick of it as a function of the node and of the values drawn for it.

use crate::chance::Rolls;
use vstd::prelude::*;

verus! {

/// One knot is made in about this many ticks.
pub const KNOT_RATIO: u32 = 22;

/// A node makes knots only above this age.
pub const KNOT_AGE: i16 = 20;

/// A trunk above the turning age turns into a branch in about one of this many ticks.
pub const TRANSITION_RATIO: u32 = 20;

/// A trunk turns into a branch only above this age.
pub const TRANSITION_AGE: i16 = 30;

/// The age added to a trunk at the moment it turns into a branch.
pub const TRANSITION_PENALTY: i16 = 20;

/// Above this age a node is a cluster of leaves.
pub const LEAF_AGE: i16 = 60;

/// Above this age a node is dead.
pub const DEATH_AGE: i16 = 90;

/// The height at which a tree starts, and below which it is pushed up again.
pub const GROUND: i16 = 4;

/// The push away from the top edge.
pub const EDGE_TOP: i16 = -2;

/// The push away from the bottom edge.
pub const EDGE_BOTTOM: i16 = 3;

/// The push away from the left edge.
pub const EDGE_LEFT: i16 = 4;

/// The push away from the right edge.
pub const EDGE_RIGHT: i16 = -4;

/// The stage of life of a node. A node only ever moves forward through
/// them: trunk, then one of the two branches, then leaves, then dead.
#[derive(PartialEq, Eq, Structural, Debug, Clone, Copy)]
pub enum TreeState {
    Trunk,
    BranchLeft,
    BranchRight,
    Leaves,
    Dead,
}

impl TreeState {
    /// How far along its life a node in this state is.
    pub open spec fn rank(self) -> int {
        match self {
            TreeState::Trunk => 0,
            TreeState::BranchLeft => 1,
            TreeState::BranchRight => 1,
            TreeState::Leaves => 2,
            TreeState::Dead => 3,
        }
    }

    pub open spec fn is_branch(self) -> bool {
        self == TreeState::BranchLeft || self == TreeState::BranchRight
    }
}

/// A node without its knots, over mathematical integers.
pub struct Node {
    pub x: int,
    pub y: int,
    /// The last move made, horizontally.
    pub dx: int,
    /// The last move made, vertically.
    pub dy: int,
    pub age: int,
    pub state: TreeState,
    pub xmax: int,
    pub ymax: int,
}

/// The age one tick later. It stops at the largest age a node can hold.
pub open spec fn aged(age: int) -> int {
    if age < i16::MAX {
        age + 1
    } else {
        age
    }
}

/// The horizontal move of a trunk in its middle years: mostly none.
pub open spec fn mid_sway(roll: int) -> int {
    if roll == 1 || roll == 2 {
        -1
    } else if roll == 3 || roll == 4 {
        1
    } else {
        0
    }
}

/// The move of a trunk of the given age.
pub open spec fn trunk_shift(age: int, r: Rolls) -> (int, int) {
    if 0 <= age <= 10 {
        (r.sway as int, 0)
    } else if 11 <= age <= TRANSITION_AGE {
        (mid_sway(r.sway as int), if age % 6 == 0 { 1 } else { 0 })
    } else {
        (r.sway as int, if r.rise { 1 } else { 0 })
    }
}

/// The move of a branch that drifts to the left.
pub open spec fn left_shift(r: Rolls) -> (int, int) {
    (
        if r.sway == 1 || r.sway == 2 {
            -2
        } else if 3 <= r.sway <= 6 {
            -1
        } else if 7 <= r.sway <= 9 {
            0
        } else {
            1
        },
        if r.lift == 1 {
            -1
        } else if r.lift == 9 || r.lift == 10 {
            1
        } else {
            0
        },
    )
}

/// The move of a branch that drifts to the right: that of a left one, mirrored.
pub open spec fn right_shift(r: Rolls) -> (int, int) {
    (-left_shift(r).0, left_shift(r).1)
}

/// The move of a cluster of leaves.
pub open spec fn leaf_shift(r: Rolls) -> (int, int) {
    (
        r.sway as int,
        if r.lift == 1 {
            -1
        } else if r.lift == 2 {
            1
        } else {
            0
        },
    )
}

/// The move of a node in the given state and of the given age.
pub open spec fn shift(state: TreeState, age: int, r: Rolls) -> (int, int) {
    match state {
        TreeState::Trunk => trunk_shift(age, r),
        TreeState::BranchLeft => left_shift(r),
        TreeState::BranchRight => right_shift(r),
        TreeState::Leaves => leaf_shift(r),
        TreeState::Dead => (0, 0),
    }
}

/// The four margins of a place: to the top, the bottom, the left and the right edge.
pub open spec fn margins(x: int, y: int, xmax: int, ymax: int) -> (int, int, int, int) {
    (y - ymax, y - GROUND, x + xmax, x - xmax)
}

/// A horizontal place after the pushes away from the left and the right edge.
pub open spec fn nudged_x(x: int, xmax: int) -> int {
    x + (if x + xmax < 5 { EDGE_LEFT as int } else { 0 })
      + (if x - xmax > -5 { EDGE_RIGHT as int } else { 0 })
}

/// A vertical place after the pushes away from the top and the bottom edge.
pub open spec fn nudged_y(y: int, ymax: int) -> int {
    y + (if y - ymax > -2 { EDGE_TOP as int } else { 0 })
      + (if y - GROUND < 0 { EDGE_BOTTOM as int } else { 0 })
}

impl Node {
    /// The root of a new tree on a canvas with the given half-extents: a
    /// trunk of age zero at the foot of the canvas, which has not moved yet.
    pub open spec fn seed(xmax: int, ymax: int) -> Node {
        Node {
            x: 0,
            y: GROUND as int,
            dx: 0,
            dy: 0,
            age: 0,
            state: TreeState::Trunk,
            xmax: xmax,
            ymax: ymax,
        }
    }

    /// The node is dead at the end of its next tick.
    pub open spec fn dies(self) -> bool {
        aged(self.age) > DEATH_AGE || self.state == TreeState::Dead
    }

    /// The state in which the node makes its next move: leaves once it is old enough.
    pub open spec fn ripened(self) -> TreeState {
        if aged(self.age) > LEAF_AGE {
            TreeState::Leaves
        } else {
            self.state
        }
    }

    /// The node turns from trunk into branch in its next tick.
    pub open spec fn turns(self, r: Rolls) -> bool {
        !self.dies() && self.ripened() == TreeState::Trunk && aged(self.age) > TRANSITION_AGE
            && r.turn
    }

    /// The node one tick later, given what was drawn for it.
    pub open spec fn tick(self, r: Rolls) -> Node {
        let age = aged(self.age);
        if self.dies() {
            Node { age: age, state: TreeState::Dead, ..self }
        } else {
            let d = shift(self.ripened(), age, r);
            Node {
                x: nudged_x(self.x + d.0, self.xmax),
                y: nudged_y(self.y + d.1, self.ymax),
                dx: d.0,
                dy: d.1,
                age: if self.turns(r) { age + TRANSITION_PENALTY } else { age },
                state: if self.turns(r) {
                    if r.turn_left { TreeState::BranchLeft } else { TreeState::BranchRight }
                } else {
                    self.ripened()
                },
                xmax: self.xmax,
                ymax: self.ymax,
            }
        }
    }

    /// The knot that this node makes when asked for one: a copy of it in
    /// another state. A branch starts a trunk, a trunk a branch towards the
    /// side given; leaves and dead nodes make none.
    pub open spec fn knot(self, right: bool) -> Option<Node> {
        match self.state {
            TreeState::BranchLeft => Some(Node { state: TreeState::Trunk, ..self }),
            TreeState::BranchRight => Some(Node { state: TreeState::Trunk, ..self }),
            TreeState::Trunk => Some(
                Node {
                    state: if right { TreeState::BranchRight } else { TreeState::BranchLeft },
                    ..self
                },
            ),
            TreeState::Leaves => None,
            TreeState::Dead => None,
        }
    }

    /// The knot that the node makes in its next tick, if any.
    pub open spec fn sprout(self, r: Rolls) -> Option<Node> {
        if !self.dies() && r.knot && self.tick(r).age > KNOT_AGE {
            self.tick(r).knot(r.knot_right)
        } else {
            None
        }
    }

    /// The number of ticks after which the node is dead at the latest.
    pub open spec fn span(self) -> int {
        if self.state == TreeState::Dead {
            0
        } else if self.age >= DEATH_AGE {
            1
        } else {
            DEATH_AGE + 1 - self.age
        }
    }

    /// The years in which a node can have moved.
    pub open spec fn moving_years(self) -> int {
        if self.age < DEATH_AGE {
            self.age
        } else {
            DEATH_AGE as int
        }
    }

    /// A node is well formed when its age is not negative and it is no
    /// farther from where a tree starts than its age lets it have gone.
    pub open spec fn wf(self) -> bool {
        &&& 0 <= self.age <= i16::MAX
        &&& -6 * self.moving_years() <= self.x <= 6 * self.moving_years()
        &&& -4 * self.moving_years() <= self.y - GROUND <= 4 * self.moving_years()
        &&& -2 <= self.dx <= 2
        &&& -1 <= self.dy <= 1
        &&& i16::MIN <= self.xmax <= i16::MAX
        &&& i16::MIN <= self.ymax <= i16::MAX
    }
}

/// A tick keeps a well-formed node well formed, whatever fitting values were drawn.
pub proof fn lemma_tick_wf(n: Node, r: Rolls)
    requires
        n.wf(),
        r.fits(n),
    ensures
        n.tick(r).wf(),
        !n.dies() ==> -2 <= shift(n.ripened(), aged(n.age), r).0 <= 2,
        !n.dies() ==> -1 <= shift(n.ripened(), aged(n.age), r).1 <= 1,
{
}

} // verus!
