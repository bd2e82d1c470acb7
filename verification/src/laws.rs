//! What holds of every tick of every tree, whatever is drawn: ages only
//! rise, states only move forward, the dead stay as they are, no node is
//! ever lost, and every tree dies in the end. And what is drawn is all
//! that chance decides: the same draws grow the same tree and show the
//! same picture.

use crate::chance::Rolls;
use crate::glyph::{pictures_by, Accent, Glyph};
use crate::node::{Node, TreeState, DEATH_AGE, TRANSITION_PENALTY};
use crate::tree::Tree;
use vstd::prelude::*;

verus! {

/// The path leads to a node of the tree: each step names a knot of the node reached so far.
pub open spec fn has_node(t: Tree, path: Seq<int>) -> bool
    decreases path.len(),
{
    path.len() == 0 || (0 <= path[0] < t.knots().len() && has_node(
        t.knots()[path[0]],
        path.skip(1),
    ))
}

/// The part of the tree that the path leads to.
pub open spec fn subtree(t: Tree, path: Seq<int>) -> Tree
    decreases path.len(),
{
    if path.len() == 0 {
        t
    } else {
        subtree(t.knots()[path[0]], path.skip(1))
    }
}

/// The tree after place `i` of the run is the one at that place, one tick later.
pub open spec fn ticks_at(run: Seq<Tree>, i: int) -> bool {
    Tree::ticked(run[i], run[i + 1])
}

/// Each tree of the run is the one before it, one tick later.
pub open spec fn is_run(run: Seq<Tree>) -> bool {
    forall|i: int| 0 <= i < run.len() - 1 ==> #[trigger] ticks_at(run, i)
}

/// What hangs at the end of the path in each tree of the run.
pub open spec fn subtrees(run: Seq<Tree>, path: Seq<int>) -> Seq<Tree> {
    Seq::new(run.len(), |i: int| subtree(run[i], path))
}

/// The tree after place `i` of the run is the one at that place, one tick
/// later, with the script of that place holding what was drawn.
pub open spec fn ticks_at_by(run: Seq<Tree>, scripts: Seq<Seq<Rolls>>, i: int) -> bool {
    Tree::ticked_by(run[i], run[i + 1], scripts[i])
}

/// Each tree of the run is the one before it, one tick later, with the
/// script of the same place holding what was drawn in that tick.
pub open spec fn is_run_by(run: Seq<Tree>, scripts: Seq<Seq<Rolls>>) -> bool {
    &&& run.len() == scripts.len() + 1
    &&& forall|i: int| 0 <= i < scripts.len() ==> #[trigger] ticks_at_by(run, scripts, i)
}

/// What a tick does to the root it does to every node: each node of the
/// tree is found again after the tick, along the same path, and what hangs
/// there is what hung there before, one tick later. So the laws below,
/// stated for a root, hold of every node of a tree.
pub proof fn lemma_tick_reaches_every_node(a: Tree, b: Tree, path: Seq<int>)
    requires
        Tree::ticked(a, b),
        has_node(a, path),
    ensures
        has_node(b, path),
        Tree::ticked(subtree(a, path), subtree(b, path)),
    decreases path.len(),
{
    if path.len() > 0 {
        let script = choose|script: Seq<Rolls>| Tree::ticked_by(a, b, script);
        assert(Tree::ticked_by(
            a.knots()[path[0]],
            b.knots()[path[0]],
            a.script_of_knot(script, path[0]),
        ));
        lemma_tick_reaches_every_node(a.knots()[path[0]], b.knots()[path[0]], path.skip(1));
    }
}

/// In a tick a node grows older by exactly one tick, or, once in its life,
/// at the moment a trunk turns into a branch, by one tick and the penalty
/// for turning. (An age at the largest value a node can hold stays there.)
pub proof fn lemma_age_rises(a: Tree, b: Tree)
    requires
        Tree::ticked(a, b),
        a.node().age < i16::MAX,
    ensures
        b.node().age == a.node().age + 1 || b.node().age == a.node().age + 1
            + TRANSITION_PENALTY,
        b.node().age != a.node().age + 1 ==> a.node().state == TreeState::Trunk
            && b.node().state.is_branch(),
{
    let script = choose|script: Seq<Rolls>| Tree::ticked_by(a, b, script);
    assert(Tree::grew_by(a, b, script.last()));
}

/// An age never falls in a tick.
pub proof fn lemma_age_never_falls(a: Tree, b: Tree)
    requires
        Tree::ticked(a, b),
    ensures
        a.node().age <= b.node().age,
{
    let script = choose|script: Seq<Rolls>| Tree::ticked_by(a, b, script);
    assert(Tree::grew_by(a, b, script.last()));
}

/// In a tick a node keeps its state or moves forward: a trunk may become a
/// branch, leaves or dead, a branch leaves or dead, leaves dead. Nothing
/// ever goes back, and a branch never changes sides.
pub proof fn lemma_state_moves_forward(a: Tree, b: Tree)
    requires
        Tree::ticked(a, b),
    ensures
        b.node().state == a.node().state || a.node().state.rank() < b.node().state.rank(),
{
    let script = choose|script: Seq<Rolls>| Tree::ticked_by(a, b, script);
    assert(Tree::grew_by(a, b, script.last()));
}

/// A dead node stays dead, where it is, with the last move it made.
pub proof fn lemma_dead_is_frozen(a: Tree, b: Tree)
    requires
        Tree::ticked(a, b),
        a.node().state == TreeState::Dead,
    ensures
        b.node().state == TreeState::Dead,
        b.node().x == a.node().x,
        b.node().y == a.node().y,
        b.node().dx == a.node().dx,
        b.node().dy == a.node().dy,
{
    let script = choose|script: Seq<Rolls>| Tree::ticked_by(a, b, script);
    assert(Tree::grew_by(a, b, script.last()));
}

/// The bounds of a node never change.
pub proof fn lemma_bounds_stay(a: Tree, b: Tree)
    requires
        Tree::ticked(a, b),
    ensures
        b.node().xmax == a.node().xmax,
        b.node().ymax == a.node().ymax,
{
    let script = choose|script: Seq<Rolls>| Tree::ticked_by(a, b, script);
    assert(Tree::grew_by(a, b, script.last()));
}

/// A tick loses no node: the tree has at least as many nodes after it as
/// before, and so have its first `k` knots together.
pub proof fn lemma_census_grows(a: Tree, b: Tree, k: nat)
    requires
        Tree::ticked(a, b),
        k <= a.knots().len(),
    ensures
        a.brood(k).len() <= b.brood(k).len(),
        k == a.knots().len() ==> a.census().len() <= b.census().len(),
    decreases a, k,
{
    let script = choose|script: Seq<Rolls>| Tree::ticked_by(a, b, script);
    if k > 0 {
        lemma_census_grows(a, b, (k - 1) as nat);
        let i = k - 1;
        a.lemma_knot_smaller(i);
        assert(Tree::ticked_by(a.knots()[i], b.knots()[i], a.script_of_knot(script, i)));
        lemma_census_grows(a.knots()[i], b.knots()[i], a.knots()[i].knots().len());
    }
    if k == a.knots().len() {
        b.lemma_brood_widens(k, b.knots().len());
    }
}

/// A tick brings the end of a tree one tick nearer, new knots included.
pub proof fn lemma_tick_spends(a: Tree, b: Tree, n: int)
    requires
        Tree::ticked(a, b),
        a.settles_within(n),
    ensures
        b.settles_within(if n > 0 { n - 1 } else { 0 }),
    decreases a,
{
    let m = if n > 0 { n - 1 } else { 0 };
    let script = choose|script: Seq<Rolls>| Tree::ticked_by(a, b, script);
    assert(Tree::grew_by(a, b, script.last()));
    assert forall|i: int| 0 <= i < b.knots().len() implies (#[trigger] b.knots()[i]).settles_within(
        m,
    ) by {
        if i < a.knots().len() {
            a.lemma_knot_smaller(i);
            assert(a.knots()[i].settles_within(n));
            assert(Tree::ticked_by(a.knots()[i], b.knots()[i], a.script_of_knot(script, i)));
            lemma_tick_spends(a.knots()[i], b.knots()[i], n);
        } else {
            assert(b.knots()[i] == b.knots().last());
        }
    }
}

/// A tree that settles within no ticks at all is dead, and the other way round.
pub proof fn lemma_settled_is_dead(t: Tree)
    ensures
        t.settles_within(0) == t.dead(),
    decreases t,
{
    assert forall|i: int| 0 <= i < t.knots().len() implies (#[trigger] t.knots()[i]).settles_within(
        0,
    ) == t.knots()[i].dead() by {
        t.lemma_knot_smaller(i);
        lemma_settled_is_dead(t.knots()[i]);
    }
}

/// A well-formed tree is dead after one tick more than the age of death, at the latest.
pub proof fn lemma_wf_settles(t: Tree)
    requires
        t.wf(),
    ensures
        t.settles_within(DEATH_AGE + 1),
    decreases t,
{
    assert forall|i: int| 0 <= i < t.knots().len() implies (#[trigger] t.knots()[i]).settles_within(
        DEATH_AGE + 1,
    ) by {
        t.lemma_knot_smaller(i);
        lemma_wf_settles(t.knots()[i]);
    }
}

/// A dead tree stays dead.
pub proof fn lemma_dead_stays_dead(a: Tree, b: Tree)
    requires
        Tree::ticked(a, b),
        a.dead(),
    ensures
        b.dead(),
{
    lemma_settled_is_dead(a);
    lemma_tick_spends(a, b, 0);
    lemma_settled_is_dead(b);
}

/// After `i` ticks a tree that settled within `n` settles within `n - i`.
pub proof fn lemma_run_spends(run: Seq<Tree>, n: int, i: int)
    requires
        is_run(run),
        0 <= i < run.len(),
        run[0].settles_within(n),
    ensures
        run[i].settles_within(if n > i { n - i } else { 0 }),
    decreases i,
{
    if i > 0 {
        lemma_run_spends(run, n, i - 1);
        assert(ticks_at(run, i - 1));
        lemma_tick_spends(run[i - 1], run[i], if n > i - 1 { n - (i - 1) } else { 0 });
    } else {
        if n < 0 {
            lemma_settling_lasts(run[0], n, 0);
        }
    }
}

/// A tree that settles within some ticks settles within any more.
pub proof fn lemma_settling_lasts(t: Tree, n: int, m: int)
    requires
        t.settles_within(n),
        n <= m,
    ensures
        t.settles_within(m),
    decreases t,
{
    assert forall|i: int| 0 <= i < t.knots().len() implies (#[trigger] t.knots()[i]).settles_within(
        m,
    ) by {
        t.lemma_knot_smaller(i);
        lemma_settling_lasts(t.knots()[i], n, m);
    }
}

/// Every tree dies: whatever is drawn, a well-formed tree is dead after
/// one tick more than the age of death, and dead it stays.
pub proof fn lemma_growth_ends(run: Seq<Tree>, i: int)
    requires
        is_run(run),
        run.len() > 0,
        run[0].wf(),
        DEATH_AGE + 1 <= i < run.len(),
    ensures
        run[i].dead(),
{
    lemma_wf_settles(run[0]);
    lemma_run_spends(run, DEATH_AGE + 1, i);
    lemma_settled_is_dead(run[i]);
}

/// A node of a tree is there through the whole run, and what hangs at it
/// makes a run of its own. So what the laws of this file say of the root
/// of a run, they say of every node of it.
pub proof fn lemma_run_at_every_node(run: Seq<Tree>, path: Seq<int>, i: int)
    requires
        is_run(run),
        0 <= i < run.len(),
        has_node(run[0], path),
    ensures
        has_node(run[i], path),
        i + 1 < run.len() ==> Tree::ticked(subtree(run[i], path), subtree(run[i + 1], path)),
        i + 1 == run.len() ==> is_run(subtrees(run, path)),
    decreases i,
{
    if i > 0 {
        lemma_run_at_every_node(run, path, i - 1);
        assert(ticks_at(run, i - 1));
        lemma_tick_reaches_every_node(run[i - 1], run[i], path);
    }
    if i + 1 < run.len() {
        assert(ticks_at(run, i));
        lemma_tick_reaches_every_node(run[i], run[i + 1], path);
    } else {
        let sub = subtrees(run, path);
        assert forall|k: int| 0 <= k < sub.len() - 1 implies #[trigger] ticks_at(sub, k) by {
            lemma_run_at_every_node(run, path, k);
        }
    }
}

/// Through a run the age of the root never falls and its state never goes
/// back: at a later tick it is the same, or one further along.
pub proof fn lemma_run_moves_forward(run: Seq<Tree>, i: int, j: int)
    requires
        is_run(run),
        0 <= i <= j < run.len(),
    ensures
        run[i].node().age <= run[j].node().age,
        run[j].node().state == run[i].node().state || run[i].node().state.rank()
            < run[j].node().state.rank(),
    decreases j - i,
{
    if i < j {
        lemma_run_moves_forward(run, i, j - 1);
        assert(ticks_at(run, j - 1));
        lemma_age_never_falls(run[j - 1], run[j]);
        lemma_state_moves_forward(run[j - 1], run[j]);
    }
}

/// Once the root is dead it is dead at every later tick of the run, where
/// it was when it died and with the last move it made.
pub proof fn lemma_run_dead_is_frozen(run: Seq<Tree>, i: int, j: int)
    requires
        is_run(run),
        0 <= i <= j < run.len(),
        run[i].node().state == TreeState::Dead,
    ensures
        run[j].node().state == TreeState::Dead,
        run[j].node().x == run[i].node().x,
        run[j].node().y == run[i].node().y,
        run[j].node().dx == run[i].node().dx,
        run[j].node().dy == run[i].node().dy,
    decreases j - i,
{
    if i < j {
        lemma_run_dead_is_frozen(run, i, j - 1);
        assert(ticks_at(run, j - 1));
        lemma_dead_is_frozen(run[j - 1], run[j]);
    }
}

/// The penalty for turning is paid at most once: after a tick in which the
/// age of the root rose by more than one, it rises by exactly one in every
/// later tick of the run.
pub proof fn lemma_penalty_is_paid_once(run: Seq<Tree>, i: int, j: int)
    requires
        is_run(run),
        0 <= i < j < run.len() - 1,
        run[i + 1].node().age != run[i].node().age + 1,
        run[j].node().age < i16::MAX,
    ensures
        run[j + 1].node().age == run[j].node().age + 1,
{
    assert(ticks_at(run, i));
    assert(ticks_at(run, j));
    lemma_run_moves_forward(run, i, j);
    lemma_age_rises(run[i], run[i + 1]);
    lemma_run_moves_forward(run, i + 1, j);
    lemma_age_rises(run[j], run[j + 1]);
}

/// Through a run the tree never has fewer nodes than before.
pub proof fn lemma_run_keeps_its_nodes(run: Seq<Tree>, i: int, j: int)
    requires
        is_run(run),
        0 <= i <= j < run.len(),
    ensures
        run[i].census().len() <= run[j].census().len(),
    decreases j - i,
{
    if i < j {
        lemma_run_keeps_its_nodes(run, i, j - 1);
        assert(ticks_at(run, j - 1));
        lemma_census_grows(run[j - 1], run[j], run[j - 1].knots().len());
    }
}

/// Trees of the same shape have the same nodes in the same order.
pub proof fn lemma_same_shape_same_census(a: Tree, b: Tree, k: nat)
    requires
        Tree::same_shape(a, b),
        k <= a.knots().len(),
    ensures
        a.brood(k) == b.brood(k),
        k == a.knots().len() ==> a.census() == b.census(),
    decreases a, k,
{
    if k > 0 {
        lemma_same_shape_same_census(a, b, (k - 1) as nat);
        let i = k - 1;
        a.lemma_knot_smaller(i);
        lemma_same_shape_same_census(a.knots()[i], b.knots()[i], a.knots()[i].knots().len());
    }
}

/// Two trees have the same nodes in the same places exactly when they have the same shape.
pub proof fn lemma_same_shape_is_same_view(a: Tree, b: Tree)
    ensures
        Tree::same_shape(a, b) == (a@ == b@),
    decreases a,
{
    a.lemma_view();
    b.lemma_view();
    if a.knots().len() == b.knots().len() {
        assert forall|i: int| 0 <= i < a.knots().len() implies Tree::same_shape(
            #[trigger] a.knots()[i],
            b.knots()[i],
        ) == (a.knots()[i]@ == b.knots()[i]@) by {
            a.lemma_knot_smaller(i);
            lemma_same_shape_is_same_view(a.knots()[i], b.knots()[i]);
        }
        if Tree::same_shape(a, b) {
            assert forall|i: int| 0 <= i < a@.knots.len() implies a@.knots[i] == b@.knots[i] by {
                assert(Tree::same_shape(a.knots()[i], b.knots()[i]));
            }
            assert(a@.knots =~= b@.knots);
        }
        if a@ == b@ {
            assert forall|i: int| 0 <= i < a.knots().len() implies Tree::same_shape(
                #[trigger] a.knots()[i],
                b.knots()[i],
            ) by {
                assert(a@.knots[i] == b@.knots[i]);
            }
        }
    }
}

/// Growth is decided by the draws alone: two trees of the same shape that
/// tick with the same draws have the same shape afterwards.
pub proof fn lemma_same_draws_same_tree(
    a1: Tree,
    a2: Tree,
    b1: Tree,
    b2: Tree,
    script: Seq<Rolls>,
)
    requires
        a1@ == a2@,
        Tree::ticked_by(a1, b1, script),
        Tree::ticked_by(a2, b2, script),
    ensures
        b1@ == b2@,
        b1.census() == b2.census(),
{
    lemma_same_shape_is_same_view(a1, a2);
    lemma_same_draws_same_shape(a1, a2, b1, b2, script);
    lemma_same_shape_is_same_view(b1, b2);
    lemma_same_shape_same_census(b1, b2, b1.knots().len());
}

/// The same, node by node.
pub proof fn lemma_same_draws_same_shape(
    a1: Tree,
    a2: Tree,
    b1: Tree,
    b2: Tree,
    script: Seq<Rolls>,
)
    requires
        Tree::same_shape(a1, a2),
        Tree::ticked_by(a1, b1, script),
        Tree::ticked_by(a2, b2, script),
    ensures
        Tree::same_shape(b1, b2),
    decreases a1,
{
    assert(Tree::grew_by(a1, b1, script.last()));
    assert(Tree::grew_by(a2, b2, script.last()));
    assert forall|i: int| 0 <= i < b1.knots().len() implies Tree::same_shape(
        #[trigger] b1.knots()[i],
        b2.knots()[i],
    ) by {
        if i < a1.knots().len() {
            a1.lemma_knot_smaller(i);
            lemma_same_shape_same_census(a1, a2, i as nat);
            lemma_same_shape_same_census(a1, a2, (i + 1) as nat);
            assert(a1.script_of_knot(script, i) == a2.script_of_knot(script, i));
            lemma_same_draws_same_shape(
                a1.knots()[i],
                a2.knots()[i],
                b1.knots()[i],
                b2.knots()[i],
                a1.script_of_knot(script, i),
            );
        } else {
            assert(b1.knots()[i] == b1.knots().last());
            assert(b2.knots()[i] == b2.knots().last());
        }
    }
}

/// Two runs that start from trees of the same shape and draw the same
/// values tick after tick pass through trees of the same shape, with the
/// same nodes in the same order.
pub proof fn lemma_same_draws_same_run(
    first: Seq<Tree>,
    second: Seq<Tree>,
    scripts: Seq<Seq<Rolls>>,
    i: int,
)
    requires
        is_run_by(first, scripts),
        is_run_by(second, scripts),
        first[0]@ == second[0]@,
        0 <= i < first.len(),
    ensures
        first[i]@ == second[i]@,
        first[i].census() == second[i].census(),
    decreases i,
{
    if i > 0 {
        lemma_same_draws_same_run(first, second, scripts, i - 1);
        assert(ticks_at_by(first, scripts, i - 1));
        assert(ticks_at_by(second, scripts, i - 1));
        lemma_same_draws_same_tree(first[i - 1], second[i - 1], first[i], second[i], scripts[i - 1]);
    } else {
        lemma_same_shape_is_same_view(first[0], second[0]);
        lemma_same_shape_same_census(first[0], second[0], first[0].knots().len());
    }
}

/// The two lists of triples agree in every place, character, colour and weight.
pub open spec fn same_pictures(
    first: Seq<(i16, i16, Glyph)>,
    second: Seq<(i16, i16, Glyph)>,
) -> bool {
    &&& first.len() == second.len()
    &&& forall|i: int|
        0 <= i < first.len() ==> {
            &&& (#[trigger] first[i]).0 == second[i].0
            &&& first[i].1 == second[i].1
            &&& first[i].2.text@ == second[i].2.text@
            &&& first[i].2.tint == second[i].2.tint
            &&& first[i].2.bold == second[i].2.bold
        }
}

/// What is shown is decided by the nodes and the accents drawn: two lists
/// of triples that show the same nodes with the same accents agree.
pub proof fn lemma_same_accents_same_pictures(
    nodes: Seq<Node>,
    accents: Seq<Accent>,
    first: Seq<(i16, i16, Glyph)>,
    second: Seq<(i16, i16, Glyph)>,
)
    requires
        pictures_by(nodes, first, accents),
        pictures_by(nodes, second, accents),
    ensures
        same_pictures(first, second),
{
    assert forall|i: int| 0 <= i < first.len() implies {
        &&& (#[trigger] first[i]).0 == second[i].0
        &&& first[i].1 == second[i].1
        &&& first[i].2.text@ == second[i].2.text@
        &&& first[i].2.tint == second[i].2.tint
        &&& first[i].2.bold == second[i].2.bold
    } by {
        assert(second[i].0 == nodes[i].x);
    }
}

/// Two runs that start from trees of the same shape and draw the same
/// values tick after tick show the same picture after every tick, where
/// the same accents are drawn for showing them.
pub proof fn lemma_same_draws_same_frames(
    first: Seq<Tree>,
    second: Seq<Tree>,
    scripts: Seq<Seq<Rolls>>,
    i: int,
    accents: Seq<Accent>,
    seen_first: Seq<(i16, i16, Glyph)>,
    seen_second: Seq<(i16, i16, Glyph)>,
)
    requires
        is_run_by(first, scripts),
        is_run_by(second, scripts),
        first[0]@ == second[0]@,
        0 <= i < first.len(),
        pictures_by(first[i].census(), seen_first, accents),
        pictures_by(second[i].census(), seen_second, accents),
    ensures
        same_pictures(seen_first, seen_second),
{
    lemma_same_draws_same_run(first, second, scripts, i);
    lemma_same_accents_same_pictures(first[i].census(), accents, seen_first, seen_second);
}

} // verus!
