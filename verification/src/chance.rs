//! The random source, and the record of what is drawn from it for one node
//! in one tick.

use crate::node::{aged, Node, TreeState, KNOT_AGE, TRANSITION_AGE};
use rand::Rng;
use vstd::prelude::*;

verus! {

/// The generator of `rand` that the growth draws from. Its state is opaque
/// here: of a drawn value nothing is known but what `rand` documents of
/// every outcome.
#[verifier::external_type_specification]
#[verifier::external_body]
pub struct ExStdRng(rand::rngs::StdRng);

/// Calls `Rng::gen_range` of `rand` on the inclusive range from `lo` to `hi`.
/// The claim is the documented one: the value lies in that range. An empty
/// range, on which `gen_range` panics, is excluded.
#[verifier::external_body]
pub(crate) fn roll_range(rng: &mut rand::rngs::StdRng, lo: i16, hi: i16) -> (r: i16)
    requires
        lo <= hi,
    ensures
        lo <= r <= hi,
{
    rng.gen_range(lo..=hi)
}

/// Calls `Rng::gen_ratio` of `rand`, which is true with probability `num` in
/// `den`. The claim is the documented one: always true when the two are
/// equal, never true when `num` is zero. A zero `den` or a `num` above
/// `den`, on which `gen_ratio` panics, is excluded.
#[verifier::external_body]
pub(crate) fn roll_ratio(rng: &mut rand::rngs::StdRng, num: u32, den: u32) -> (hit: bool)
    requires
        0 < den,
        num <= den,
    ensures
        num == den ==> hit,
        num == 0 ==> !hit,
{
    rng.gen_ratio(num, den)
}

/// What is drawn for one node in one tick. A draw that the node has no use
/// for in that tick is not made, and its field keeps the value of
/// [`Rolls::still`].
#[derive(Clone, Copy, Debug)]
pub struct Rolls {
    /// Decides the horizontal move.
    pub sway: i16,
    /// Decides the vertical move of a branch or of leaves.
    pub lift: i16,
    /// An old trunk climbs.
    pub rise: bool,
    /// A trunk turns into a branch.
    pub turn: bool,
    /// The trunk that turns becomes a left branch.
    pub turn_left: bool,
    /// The node makes a knot.
    pub knot: bool,
    /// The knot of a trunk is a right branch.
    pub knot_right: bool,
}

impl Rolls {
    /// The draws lie in the ranges that the node asks for in its next tick.
    pub open spec fn fits(self, n: Node) -> bool {
        n.dies() || match n.ripened() {
            TreeState::Trunk => {
                if 0 <= aged(n.age) <= 10 {
                    -1 <= self.sway <= 1
                } else if 11 <= aged(n.age) <= TRANSITION_AGE {
                    1 <= self.sway <= 10
                } else {
                    -1 <= self.sway <= 2
                }
            },
            TreeState::BranchLeft => 1 <= self.lift <= 10 && 1 <= self.sway <= 10,
            TreeState::BranchRight => 1 <= self.lift <= 10 && 1 <= self.sway <= 10,
            TreeState::Leaves => 1 <= self.lift <= 15 && -1 <= self.sway <= 1,
            TreeState::Dead => true,
        }
    }

    /// Nothing was drawn that the node has no use for in its next tick: a
    /// node that dies draws nothing, only a branch or leaves draw a lift,
    /// only a trunk past the turning age may climb by chance or turn, a side
    /// is drawn only for a trunk that turns, and the side of a knot only for
    /// a trunk that makes one.
    pub open spec fn thrifty(self, n: Node) -> bool {
        let trunk = !n.dies() && n.ripened() == TreeState::Trunk;
        let past_turning = !(0 <= aged(n.age) <= TRANSITION_AGE);
        &&& n.dies() ==> self.sway == 0 && !self.knot
        &&& self.lift != 0 ==> !n.dies() && n.ripened() != TreeState::Trunk
        &&& self.rise ==> trunk && past_turning
        &&& self.turn ==> trunk && aged(n.age) > TRANSITION_AGE
        &&& self.turn_left ==> self.turn
        &&& self.knot_right ==> self.knot && !self.turn && trunk && aged(n.age) > KNOT_AGE
    }

    /// The record in which nothing moves and nothing happens.
    pub fn still() -> (r: Rolls)
        ensures
            r == (Rolls {
                sway: 0,
                lift: 0,
                rise: false,
                turn: false,
                turn_left: false,
                knot: false,
                knot_right: false,
            }),
    {
        Rolls {
            sway: 0,
            lift: 0,
            rise: false,
            turn: false,
            turn_left: false,
            knot: false,
            knot_right: false,
        }
    }
}

} // verus!
