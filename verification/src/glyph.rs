//! The glyphs a tree is shown with: which characters stand for a node, and
//! how they are coloured and weighted.

use crate::chance::{roll_range, roll_ratio};
use crate::node::{Node, TreeState};
use crate::tree::Tree;
use rand::rngs::StdRng;
use vstd::prelude::*;

verus! {

/// The colour of a glyph.
#[derive(PartialEq, Eq, Structural, Debug, Clone, Copy)]
pub enum Tint {
    DarkYellow,
    Green,
    DarkGreen,
    Yellow,
}

/// What is shown for one node: its characters, their colour, and whether they are bold.
#[derive(Debug, Clone, Copy)]
pub struct Glyph {
    pub text: &'static str,
    pub tint: Tint,
    pub bold: bool,
}

/// The characters of a trunk: upright when it did not climb, else leaning
/// the way it moved.
pub open spec fn trunk_text(dx: int, dy: int) -> Seq<char> {
    if dy == 0 {
        "/~"@
    } else if dx < 0 {
        "\\|"@
    } else if dx == 0 {
        "/|\\"@
    } else {
        "|/"@
    }
}

/// The characters of a branch that sank, by the way it moved sideways; both
/// kinds of branch share them.
pub open spec fn shoot_text(dx: int) -> Seq<char> {
    if dx < 0 {
        "\\|"@
    } else if dx == 0 {
        "/|"@
    } else {
        "/"@
    }
}

/// The characters that stand for a node in the given state whose last move was `(dx, dy)`.
pub open spec fn glyph_text(state: TreeState, dx: int, dy: int) -> Seq<char> {
    match state {
        TreeState::Trunk => trunk_text(dx, dy),
        TreeState::BranchLeft => if dy > 0 {
            "\\"@
        } else if dy == 0 {
            "\\_"@
        } else {
            shoot_text(dx)
        },
        TreeState::BranchRight => if dy > 0 {
            "/"@
        } else if dy == 0 {
            "_/"@
        } else {
            shoot_text(dx)
        },
        TreeState::Leaves => "&&&"@,
        TreeState::Dead => "&"@,
    }
}

/// The colour of a node in the given state before any accent.
pub open spec fn base_tint(state: TreeState) -> Tint {
    match state {
        TreeState::Leaves => Tint::Green,
        TreeState::Dead => Tint::Yellow,
        _ => Tint::DarkYellow,
    }
}

/// What is drawn for showing one node.
#[derive(Clone, Copy, Debug)]
pub struct Accent {
    /// Makes a trunk, a branch or a dead node bold.
    pub flip: bool,
    /// Picks one of the ten accents of leaves.
    pub pick: i16,
}

impl Accent {
    /// The draw lies in the range that a node in the given state asks for.
    pub open spec fn fits(self, state: TreeState) -> bool {
        state == TreeState::Leaves ==> 1 <= self.pick <= 10
    }
}

/// The node is bold when shown with the given accent: leaves for the
/// first three of their ten accents, any other node when the coin says so.
pub open spec fn bold_by(state: TreeState, a: Accent) -> bool {
    match state {
        TreeState::Leaves => 1 <= a.pick <= 3,
        _ => a.flip,
    }
}

/// The colour of the node when shown with the given accent: leaves are
/// dark for the third to the fifth of their ten accents, and every other
/// node keeps its plain colour.
pub open spec fn tint_by(state: TreeState, a: Accent) -> Tint {
    match state {
        TreeState::Leaves => if 3 <= a.pick <= 5 {
            Tint::DarkGreen
        } else {
            Tint::Green
        },
        _ => base_tint(state),
    }
}

/// The glyph is the one that shows the node with the given accent.
pub open spec fn shown_by(n: Node, g: Glyph, a: Accent) -> bool {
    &&& g.text@ == glyph_text(n.state, n.dx, n.dy)
    &&& g.bold == bold_by(n.state, a)
    &&& g.tint == tint_by(n.state, a)
}

/// The glyph is one that the node can be shown with.
pub open spec fn portrays(n: Node, g: Glyph) -> bool {
    exists|a: Accent| a.fits(n.state) && #[trigger] shown_by(n, g, a)
}

/// The triples show the nodes with the given accents, one each and in
/// their order: the place of the node and its glyph.
pub open spec fn pictures_by(
    nodes: Seq<Node>,
    out: Seq<(i16, i16, Glyph)>,
    accents: Seq<Accent>,
) -> bool {
    &&& out.len() == nodes.len()
    &&& accents.len() == nodes.len()
    &&& forall|i: int|
        0 <= i < nodes.len() ==> {
            &&& (#[trigger] out[i]).0 == nodes[i].x
            &&& out[i].1 == nodes[i].y
            &&& accents[i].fits(nodes[i].state)
            &&& shown_by(nodes[i], out[i].2, accents[i])
        }
}

/// The triples show the nodes, one each and in their order, with some accents.
pub open spec fn pictures(nodes: Seq<Node>, out: Seq<(i16, i16, Glyph)>) -> bool {
    exists|accents: Seq<Accent>| pictures_by(nodes, out, accents)
}

/// Triples that show two runs of nodes show, joined, the two runs joined.
pub proof fn lemma_pictures_join(
    a: Seq<Node>,
    b: Seq<Node>,
    out_a: Seq<(i16, i16, Glyph)>,
    out_b: Seq<(i16, i16, Glyph)>,
)
    requires
        pictures(a, out_a),
        pictures(b, out_b),
    ensures
        pictures(a + b, out_a + out_b),
{
    let acc_a = choose|acc: Seq<Accent>| pictures_by(a, out_a, acc);
    let acc_b = choose|acc: Seq<Accent>| pictures_by(b, out_b, acc);
    let nodes = a + b;
    let out = out_a + out_b;
    let acc = acc_a + acc_b;
    assert forall|i: int| 0 <= i < nodes.len() implies {
        &&& (#[trigger] out[i]).0 == nodes[i].x
        &&& out[i].1 == nodes[i].y
        &&& acc[i].fits(nodes[i].state)
        &&& shown_by(nodes[i], out[i].2, acc[i])
    } by {
        if i < a.len() {
            assert(out[i] == out_a[i]);
        } else {
            assert(out[i] == out_b[i - a.len()]);
            assert(nodes[i] == b[i - a.len()]);
            assert(acc[i] == acc_b[i - a.len()]);
        }
    }
    assert(pictures_by(nodes, out, acc));
}

/// The glyph of a node in the given state whose last move was `dxy`, in
/// its plain colour and not bold.
pub fn plain_glyph(state: TreeState, dxy: (i16, i16)) -> (g: Glyph)
    ensures
        g.text@ == glyph_text(state, dxy.0 as int, dxy.1 as int),
        g.tint == base_tint(state),
        !g.bold,
{
    match state {
        TreeState::Trunk => {
            let text = if dxy.1 == 0 {
                "/~"
            } else if dxy.0 < 0 {
                "\\|"
            } else if dxy.0 == 0 {
                "/|\\"
            } else {
                "|/"
            };
            Glyph { text, tint: Tint::DarkYellow, bold: false }
        },
        TreeState::BranchLeft => {
            let text = if dxy.1 > 0 {
                "\\"
            } else if dxy.1 == 0 {
                "\\_"
            } else {
                shoot_glyph(dxy.0)
            };
            Glyph { text, tint: Tint::DarkYellow, bold: false }
        },
        TreeState::BranchRight => {
            let text = if dxy.1 > 0 {
                "/"
            } else if dxy.1 == 0 {
                "_/"
            } else {
                shoot_glyph(dxy.0)
            };
            Glyph { text, tint: Tint::DarkYellow, bold: false }
        },
        TreeState::Leaves => Glyph { text: "&&&", tint: Tint::Green, bold: false },
        TreeState::Dead => Glyph { text: "&", tint: Tint::Yellow, bold: false },
    }
}

/// The characters of a branch that sank and moved `dx` sideways.
pub fn shoot_glyph(dx: i16) -> (text: &'static str)
    ensures
        text@ == shoot_text(dx as int),
{
    if dx < 0 {
        "\\|"
    } else if dx == 0 {
        "/|"
    } else {
        "/"
    }
}

/// The glyph with its accent. Leaves take theirs from the pick: bold for 1
/// and 2, bold and dark for 3, dark for 4 and 5, none otherwise. Every
/// other node is bold when the coin says so.
pub fn accent(g: Glyph, state: TreeState, a: Accent) -> (h: Glyph)
    ensures
        h.text == g.text,
        h.bold == (g.bold || bold_by(state, a)),
        h.tint == match state {
            TreeState::Leaves => if 3 <= a.pick <= 5 { Tint::DarkGreen } else { g.tint },
            _ => g.tint,
        },
{
    match state {
        TreeState::Leaves => {
            if a.pick == 1 || a.pick == 2 {
                Glyph { text: g.text, tint: g.tint, bold: true }
            } else if a.pick == 3 {
                Glyph { text: g.text, tint: Tint::DarkGreen, bold: true }
            } else if a.pick == 4 || a.pick == 5 {
                Glyph { text: g.text, tint: Tint::DarkGreen, bold: g.bold }
            } else {
                g
            }
        },
        _ => {
            if a.flip {
                Glyph { text: g.text, tint: g.tint, bold: true }
            } else {
                g
            }
        },
    }
}

/// Draws the accent for a node in the given state: a trunk or a branch is
/// bold one time in three, a dead node one time in five, and leaves draw
/// one of ten accents.
pub fn draw_accent(state: TreeState, rng: &mut StdRng) -> (a: Accent)
    ensures
        a.fits(state),
        state == TreeState::Leaves ==> !a.flip,
        state != TreeState::Leaves ==> a.pick == 0,
{
    match state {
        TreeState::Leaves => Accent { flip: false, pick: roll_range(rng, 1, 10) },
        TreeState::Dead => Accent { flip: roll_ratio(rng, 1, 5), pick: 0 },
        _ => Accent { flip: roll_ratio(rng, 1, 3), pick: 0 },
    }
}

/// The glyph of the root of `t`, with an accent drawn for it.
pub fn choose_string(t: &Tree, rng: &mut StdRng) -> (g: Glyph)
    ensures
        portrays(t.node(), g),
{
    let state = t.state();
    let a = draw_accent(state, rng);
    let g = accent(plain_glyph(state, t.displacement()), state, a);
    proof {
        assert(shown_by(t.node(), g, a));
    }
    g
}

impl Tree {
    /// The whole tree as it is now: one triple for every node, dead ones
    /// too, the root first and then each knot's own nodes in turn. A triple
    /// holds the place of the node and a glyph for it.
    pub fn observe(&self, rng: &mut StdRng) -> (res: Vec<(i16, i16, Glyph)>)
        ensures
            res@.len() == self.census().len(),
            pictures(self.census(), res@),
        decreases self,
    {
        let mut res: Vec<(i16, i16, Glyph)> = Vec::new();
        let p = self.position();
        let g = choose_string(self, rng);
        res.push((p.0, p.1, g));
        proof {
            let a = choose|a: Accent| a.fits(self.node().state) && shown_by(self.node(), g, a);
            assert(pictures_by(seq![self.node()], res@, seq![a]));
            assert(self.brood(0) =~= Seq::<Node>::empty());
            assert(seq![self.node()] + self.brood(0) =~= seq![self.node()]);
        }
        let n: usize = self.knot_count();
        let mut i: usize = 0;
        while i < n
            invariant
                i <= n,
                n == self.knots().len(),
                pictures(seq![self.node()] + self.brood(i as nat), res@),
            decreases n - i,
        {
            let ghost before = res@;
            proof {
                self.lemma_knot_smaller(i as int);
            }
            let mut sub = self.knot(i).observe(rng);
            proof {
                let head = seq![self.node()] + self.brood(i as nat);
                let tail = self.knots()[i as int].census();
                lemma_pictures_join(head, tail, before, sub@);
                assert(self.brood((i + 1) as nat) == self.brood(i as nat) + tail);
                assert(seq![self.node()] + self.brood((i + 1) as nat) =~= head + tail);
            }
            res.append(&mut sub);
            i += 1;
        }
        res
    }
}

} // verus!
