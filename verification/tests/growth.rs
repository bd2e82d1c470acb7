use bonsai::chance::Rolls;
use bonsai::node::TreeState;
use bonsai::tree::{leaf_growth, left_shoot_growth, right_shoot_growth, trunk_growth, Tree};
use rand::rngs::StdRng;
use rand::SeedableRng;

fn rolls() -> Rolls {
    Rolls::still()
}

fn count_nodes(t: &Tree) -> usize {
    let mut n = 1;
    for i in 0..t.knot_count() {
        n += count_nodes(t.knot(i));
    }
    n
}

fn rank(s: TreeState) -> u8 {
    match s {
        TreeState::Trunk => 0,
        TreeState::BranchLeft | TreeState::BranchRight => 1,
        TreeState::Leaves => 2,
        TreeState::Dead => 3,
    }
}

/// A sway that fits a trunk which is about to reach the given age and moves it nowhere.
fn quiet(age_after: i16) -> Rolls {
    let mut r = rolls();
    r.sway = if age_after <= 10 { 0 } else if age_after <= 30 { 5 } else { 0 };
    r
}

fn trunk_of_age(age: i16) -> Tree {
    let mut t = Tree::new(40, 20);
    for a in 1..=age {
        t.step(quiet(a));
    }
    assert_eq!(t.age, age);
    assert_eq!(t.state, TreeState::Trunk);
    t
}

#[test]
fn new_tree_is_a_young_trunk_at_the_foot() {
    let t = Tree::new(40, 20);
    assert_eq!(t.age, 0);
    assert_eq!(t.age(), 0);
    assert_eq!(t.state, TreeState::Trunk);
    assert_eq!(t.state(), TreeState::Trunk);
    assert_eq!(t.position(), (0, 4));
    assert_eq!(t.displacement(), (0, 0));
    assert_eq!(t.bounds(), (40, 20));
    assert_eq!(t.knot_count(), 0);
    assert!(!t.is_dead());
}

#[test]
fn first_tick_of_a_new_tree() {
    for seed in 0..50u64 {
        let mut rng = StdRng::seed_from_u64(seed);
        let mut t = Tree::new(40, 20);
        t.grow(&mut rng);
        assert_eq!(t.age, 1);
        assert_eq!(t.state, TreeState::Trunk);
        let (x, y) = t.position();
        assert!((-2..=2).contains(&x));
        assert!((4..=5).contains(&y));
        assert!((-1..=1).contains(&x));
        assert_eq!(y, 4);
        assert_eq!(t.displacement(), (x, 0));
        assert_eq!(t.observe(&mut rng).len(), 1);
    }
}

#[test]
fn trunk_turns_left_at_tick_thirty_one() {
    let mut t = trunk_of_age(30);
    let mut r = rolls();
    r.turn = true;
    r.turn_left = true;
    t.step(r);
    assert_eq!(t.age, 30 + 1 + 20);
    assert_eq!(t.state, TreeState::BranchLeft);
}

#[test]
fn trunk_turns_right_when_the_side_draw_fails() {
    let mut t = trunk_of_age(30);
    let mut r = rolls();
    r.turn = true;
    r.turn_left = false;
    t.step(r);
    assert_eq!(t.age, 51);
    assert_eq!(t.state, TreeState::BranchRight);
}

#[test]
fn trunk_does_not_turn_at_the_turning_age_itself() {
    let mut t = trunk_of_age(29);
    let mut r = quiet(30);
    r.turn = true;
    r.turn_left = true;
    t.step(r);
    assert_eq!(t.age, 30);
    assert_eq!(t.state, TreeState::Trunk);
}

#[test]
fn seeded_trunk_turns_left_at_tick_thirty_one() {
    let mut found = 0;
    for seed in 0..4000u64 {
        let mut rng = StdRng::seed_from_u64(seed);
        let mut t = Tree::new(40, 20);
        for _ in 0..30 {
            t.grow(&mut rng);
        }
        assert_eq!(t.age, 30);
        assert_eq!(t.state, TreeState::Trunk);
        t.grow(&mut rng);
        if t.state == TreeState::BranchLeft {
            assert_eq!(t.age, 30 + 1 + 20);
            found += 1;
        } else if t.state == TreeState::BranchRight {
            assert_eq!(t.age, 51);
        } else {
            assert_eq!(t.state, TreeState::Trunk);
            assert_eq!(t.age, 31);
        }
    }
    assert!(found > 0);
}

#[test]
fn tree_is_dead_after_two_hundred_ticks_and_stays_dead() {
    for seed in 0..20u64 {
        let mut rng = StdRng::seed_from_u64(seed);
        let mut t = Tree::new(40, 20);
        for _ in 0..200 {
            t.grow(&mut rng);
        }
        assert!(t.is_dead());
        for _ in 0..25 {
            t.grow(&mut rng);
            assert!(t.is_dead());
        }
    }
}

#[test]
fn tree_is_dead_after_ninety_one_ticks() {
    for seed in 100..140u64 {
        let mut rng = StdRng::seed_from_u64(seed);
        let mut t = Tree::new(40, 20);
        for _ in 0..90 {
            t.grow(&mut rng);
        }
        t.grow(&mut rng);
        assert!(t.is_dead());
    }
}

#[test]
fn age_rises_by_one_or_by_one_and_the_penalty_once() {
    for seed in 0..40u64 {
        let mut rng = StdRng::seed_from_u64(seed);
        let mut t = Tree::new(40, 20);
        let mut jumps = 0;
        for _ in 0..120 {
            let before = t.age;
            let was = t.state;
            t.grow(&mut rng);
            if t.age == before + 21 {
                jumps += 1;
                assert_eq!(was, TreeState::Trunk);
                assert!(t.state == TreeState::BranchLeft || t.state == TreeState::BranchRight);
            } else {
                assert_eq!(t.age, before + 1);
            }
        }
        assert!(jumps <= 1);
    }
}

#[test]
fn state_never_goes_back() {
    for seed in 0..40u64 {
        let mut rng = StdRng::seed_from_u64(seed);
        let mut t = Tree::new(40, 20);
        for _ in 0..120 {
            let was = t.state;
            t.grow(&mut rng);
            assert!(t.state == was || rank(was) < rank(t.state));
        }
        assert_eq!(t.state, TreeState::Dead);
    }
}

#[test]
fn dead_node_is_frozen() {
    for seed in 0..20u64 {
        let mut rng = StdRng::seed_from_u64(seed);
        let mut t = Tree::new(40, 20);
        while t.state != TreeState::Dead {
            t.grow(&mut rng);
        }
        let place = t.position();
        let last = t.displacement();
        let age = t.age;
        for k in 1..=30 {
            t.grow(&mut rng);
            assert_eq!(t.state, TreeState::Dead);
            assert_eq!(t.position(), place);
            assert_eq!(t.displacement(), last);
            assert_eq!(t.age, age + k);
        }
    }
}

#[test]
fn node_count_never_falls_and_knots_share_the_bounds() {
    let mut saw_knots = false;
    for seed in 0..30u64 {
        let mut rng = StdRng::seed_from_u64(seed);
        let mut t = Tree::new(33, 17);
        let mut last = count_nodes(&t);
        for _ in 0..100 {
            t.grow(&mut rng);
            let now = count_nodes(&t);
            assert!(now >= last);
            last = now;
        }
        for i in 0..t.knot_count() {
            saw_knots = true;
            assert_eq!(t.knot(i).bounds(), (33, 17));
        }
    }
    assert!(saw_knots);
}

#[test]
fn same_seed_gives_the_same_tree() {
    for seed in [3u64, 17, 99] {
        let mut first = StdRng::seed_from_u64(seed);
        let mut second = StdRng::seed_from_u64(seed);
        let mut a = Tree::new(40, 20);
        let mut b = Tree::new(40, 20);
        for _ in 0..100 {
            a.grow(&mut first);
            b.grow(&mut second);
            assert_eq!(a.age, b.age);
            assert_eq!(a.state, b.state);
            assert_eq!(a.position(), b.position());
            assert_eq!(count_nodes(&a), count_nodes(&b));
        }
    }
}

#[test]
fn draws_lie_in_the_range_of_a_young_trunk_and_vary() {
    let t = Tree::new(40, 20);
    let mut seen = [false; 3];
    let mut knots = 0;
    for seed in 0..400u64 {
        let mut rng = StdRng::seed_from_u64(seed);
        let r = t.draw(&mut rng);
        assert!((-1..=1).contains(&r.sway));
        seen[(r.sway + 1) as usize] = true;
        assert_eq!(r.lift, 0);
        assert!(!r.rise);
        assert!(!r.turn);
        assert!(!r.turn_left);
        assert!(!r.knot_right);
        if r.knot {
            knots += 1;
        }
    }
    assert_eq!(seen, [true, true, true]);
    assert!(knots > 0);
    assert!(knots < 200);
}

#[test]
fn draws_of_a_middle_aged_trunk_lie_between_one_and_ten() {
    let t = trunk_of_age(15);
    let mut low = false;
    let mut high = false;
    for seed in 0..200u64 {
        let mut rng = StdRng::seed_from_u64(seed);
        let r = t.draw(&mut rng);
        assert!((1..=10).contains(&r.sway));
        low |= r.sway <= 2;
        high |= r.sway >= 9;
        assert!(!r.turn);
    }
    assert!(low && high);
}

#[test]
fn draws_of_an_old_trunk_may_turn_it() {
    let t = trunk_of_age(40);
    let mut turns = 0;
    let mut rises = 0;
    for seed in 0..600u64 {
        let mut rng = StdRng::seed_from_u64(seed);
        let r = t.draw(&mut rng);
        assert!((-1..=2).contains(&r.sway));
        if r.turn {
            turns += 1;
            assert!(!r.knot_right);
        } else {
            assert!(!r.turn_left);
        }
        if r.rise {
            rises += 1;
        }
    }
    assert!(turns > 0 && turns < 300);
    assert!(rises > 0 && rises < 600);
}

#[test]
fn draws_of_a_dead_node_are_none() {
    let mut t = Tree::new(40, 20);
    t.state = TreeState::Dead;
    let mut rng = StdRng::seed_from_u64(1);
    let r = t.draw(&mut rng);
    assert_eq!(r.sway, 0);
    assert_eq!(r.lift, 0);
    assert!(!r.rise && !r.turn && !r.turn_left && !r.knot && !r.knot_right);
}

#[test]
fn trunk_growth_by_age_band() {
    let mut r = rolls();
    r.sway = 1;
    assert_eq!(trunk_growth(&trunk_of_age(0), r), (1, 0));
    assert_eq!(trunk_growth(&trunk_of_age(10), r), (1, 0));
    r.sway = -1;
    assert_eq!(trunk_growth(&trunk_of_age(5), r), (-1, 0));

    r.sway = 1;
    assert_eq!(trunk_growth(&trunk_of_age(12), r), (-1, 1));
    r.sway = 2;
    assert_eq!(trunk_growth(&trunk_of_age(11), r), (-1, 0));
    r.sway = 3;
    assert_eq!(trunk_growth(&trunk_of_age(13), r), (1, 0));
    r.sway = 4;
    assert_eq!(trunk_growth(&trunk_of_age(18), r), (1, 1));
    r.sway = 5;
    assert_eq!(trunk_growth(&trunk_of_age(30), r), (0, 1));
    r.sway = 10;
    assert_eq!(trunk_growth(&trunk_of_age(29), r), (0, 0));

    r.sway = 2;
    r.rise = true;
    assert_eq!(trunk_growth(&trunk_of_age(31), r), (2, 1));
    r.sway = -1;
    r.rise = false;
    assert_eq!(trunk_growth(&trunk_of_age(45), r), (-1, 0));
}

#[test]
fn left_shoot_growth_by_draw() {
    let t = Tree::new(40, 20);
    let expect_x = [(1, -2), (2, -2), (3, -1), (4, -1), (5, -1), (6, -1), (7, 0), (8, 0), (9, 0), (10, 1)];
    let expect_y = [(1, -1), (2, 0), (3, 0), (4, 0), (5, 0), (6, 0), (7, 0), (8, 0), (9, 1), (10, 1)];
    for (sway, x) in expect_x {
        for (lift, y) in expect_y {
            let mut r = rolls();
            r.sway = sway;
            r.lift = lift;
            assert_eq!(left_shoot_growth(&t, r), (x, y));
        }
    }
}

#[test]
fn right_shoot_growth_mirrors_the_left() {
    let t = Tree::new(40, 20);
    for sway in 1..=10 {
        for lift in 1..=10 {
            let mut r = rolls();
            r.sway = sway;
            r.lift = lift;
            let left = left_shoot_growth(&t, r);
            assert_eq!(right_shoot_growth(&t, r), (-left.0, left.1));
        }
    }
    let mut r = rolls();
    r.sway = 1;
    r.lift = 9;
    assert_eq!(right_shoot_growth(&t, r), (2, 1));
}

#[test]
fn leaf_growth_by_draw() {
    let t = Tree::new(40, 20);
    let mut r = rolls();
    r.sway = -1;
    r.lift = 1;
    assert_eq!(leaf_growth(&t, r), (-1, -1));
    r.sway = 1;
    r.lift = 2;
    assert_eq!(leaf_growth(&t, r), (1, 1));
    r.sway = 0;
    for lift in 3..=15 {
        r.lift = lift;
        assert_eq!(leaf_growth(&t, r), (0, 0));
    }
}

#[test]
fn margins_of_a_new_tree() {
    assert_eq!(Tree::new(40, 20).check_boundary(), (-16, 0, 40, -40));
    assert_eq!(Tree::new(-32768, 32767).check_boundary(), (4 - 32767, 0, -32768, 32768));
}

#[test]
fn step_moves_by_the_draw() {
    let mut t = Tree::new(40, 20);
    let mut r = rolls();
    r.sway = 1;
    t.step(r);
    assert_eq!(t.position(), (1, 4));
    assert_eq!(t.displacement(), (1, 0));
    r.sway = -1;
    t.step(r);
    t.step(r);
    assert_eq!(t.position(), (-1, 4));
    assert_eq!(t.displacement(), (-1, 0));
    assert_eq!(t.age, 3);
}

#[test]
fn step_pushes_away_from_a_near_right_edge() {
    // Half-extent 6: a trunk at x = 1 moving right lands on x = 2, whose
    // margin to the right edge is -4, and is pushed back by 4.
    let mut t = Tree::new(6, 20);
    let mut r = rolls();
    r.sway = 1;
    t.step(r);
    assert_eq!(t.position(), (1, 4));
    t.step(r);
    assert_eq!(t.position(), (-2, 4));
    assert_eq!(t.displacement(), (1, 0));
}

#[test]
fn step_pushes_away_from_a_near_left_edge() {
    let mut t = Tree::new(6, 20);
    let mut r = rolls();
    r.sway = -1;
    t.step(r);
    assert_eq!(t.position(), (-1, 4));
    t.step(r);
    assert_eq!(t.position(), (2, 4));
    assert_eq!(t.displacement(), (-1, 0));
}

#[test]
fn both_side_pushes_cancel_on_a_narrow_canvas() {
    let mut t = Tree::new(3, 20);
    let mut r = rolls();
    r.sway = 1;
    t.step(r);
    assert_eq!(t.position(), (1, 4));
}

#[test]
fn step_pushes_down_from_the_top_and_up_from_the_ground() {
    let mut t = Tree::new(40, 5);
    t.step(rolls());
    assert_eq!(t.position(), (0, 2));
    t.step(rolls());
    assert_eq!(t.position(), (0, 5));
    t.step(rolls());
    assert_eq!(t.position(), (0, 3));
}

#[test]
fn node_turns_to_leaves_above_the_leaf_age() {
    let mut t = trunk_of_age(60);
    assert_eq!(t.state, TreeState::Trunk);
    let mut r = rolls();
    r.lift = 3;
    r.sway = 1;
    r.turn = true;
    r.turn_left = true;
    r.knot = true;
    t.step(r);
    assert_eq!(t.age, 61);
    assert_eq!(t.state, TreeState::Leaves);
    assert_eq!(t.displacement(), (1, 0));
    assert_eq!(t.knot_count(), 0);
}

#[test]
fn node_dies_above_the_death_age() {
    let mut t = trunk_of_age(60);
    let mut r = rolls();
    r.lift = 3;
    for _ in 61..=90 {
        t.step(r);
    }
    assert_eq!(t.age, 90);
    assert_eq!(t.state, TreeState::Leaves);
    let place = t.position();
    r.sway = 1;
    r.lift = 1;
    t.step(r);
    assert_eq!(t.age, 91);
    assert_eq!(t.state, TreeState::Dead);
    assert_eq!(t.position(), place);
    assert!(t.is_dead());
}

#[test]
fn age_stops_at_the_largest_value() {
    let mut t = Tree::new(40, 20);
    t.age = i16::MAX;
    t.step(rolls());
    assert_eq!(t.age, i16::MAX);
    assert_eq!(t.state, TreeState::Dead);
}

#[test]
fn step_makes_a_knot_only_above_the_knot_age() {
    let mut t = trunk_of_age(19);
    let mut r = quiet(20);
    r.knot = true;
    r.knot_right = true;
    t.step(r);
    assert_eq!(t.age, 20);
    assert_eq!(t.knot_count(), 0);
    t.step(r);
    assert_eq!(t.age, 21);
    assert_eq!(t.knot_count(), 1);
    let k = t.knot(0);
    assert_eq!(k.state, TreeState::BranchRight);
    assert_eq!(k.age, 21);
    assert_eq!(k.position(), t.position());
    assert_eq!(k.displacement(), t.displacement());
    assert_eq!(k.bounds(), t.bounds());
    assert_eq!(k.knot_count(), 0);
    r.knot_right = false;
    t.step(r);
    assert_eq!(t.knot_count(), 2);
    assert_eq!(t.knot(0).state, TreeState::BranchRight);
    assert_eq!(t.knot(0).age, 21);
    assert_eq!(t.knot(1).state, TreeState::BranchLeft);
    assert_eq!(t.knot(1).age, 22);
}

#[test]
fn a_trunk_that_turns_knots_a_trunk_in_the_same_tick() {
    let mut t = trunk_of_age(30);
    let mut r = rolls();
    r.turn = true;
    r.turn_left = false;
    r.knot = true;
    r.knot_right = true;
    t.step(r);
    assert_eq!(t.state, TreeState::BranchRight);
    assert_eq!(t.knot_count(), 1);
    assert_eq!(t.knot(0).state, TreeState::Trunk);
    assert_eq!(t.knot(0).age, 51);
}

#[test]
fn knot_toward_by_state() {
    let mut t = Tree::new(40, 20);
    t.knot_toward(true);
    t.knot_toward(false);
    assert_eq!(t.knot_count(), 2);
    assert_eq!(t.knot(0).state, TreeState::BranchRight);
    assert_eq!(t.knot(1).state, TreeState::BranchLeft);
    assert_eq!(t.state, TreeState::Trunk);

    t.state = TreeState::BranchLeft;
    t.knot_toward(true);
    assert_eq!(t.knot(2).state, TreeState::Trunk);
    t.state = TreeState::BranchRight;
    t.knot_toward(false);
    assert_eq!(t.knot(3).state, TreeState::Trunk);
    assert_eq!(t.knot_count(), 4);

    t.state = TreeState::Leaves;
    t.knot_toward(true);
    t.state = TreeState::Dead;
    t.knot_toward(true);
    assert_eq!(t.knot_count(), 4);
}

#[test]
fn force_knot_by_state() {
    let mut rng = StdRng::seed_from_u64(5);
    let mut t = Tree::new(40, 20);
    let mut left = 0;
    let mut right = 0;
    for i in 0..60 {
        t.force_knot(&mut rng);
        assert_eq!(t.knot_count(), i + 1);
        match t.knot(i).state {
            TreeState::BranchLeft => left += 1,
            TreeState::BranchRight => right += 1,
            other => panic!("a trunk knotted {:?}", other),
        }
        assert_eq!(t.knot(i).position(), (0, 4));
        assert_eq!(t.knot(i).age, 0);
    }
    assert!(left > 0 && right > 0);

    t.state = TreeState::BranchLeft;
    t.force_knot(&mut rng);
    assert_eq!(t.knot(60).state, TreeState::Trunk);
    t.state = TreeState::Leaves;
    t.force_knot(&mut rng);
    t.state = TreeState::Dead;
    t.force_knot(&mut rng);
    assert_eq!(t.knot_count(), 61);
}

#[test]
fn new_at_copies_the_root_without_its_knots() {
    let mut t = trunk_of_age(25);
    t.knot_toward(true);
    let k = t.new_at(TreeState::Leaves);
    assert_eq!(k.state, TreeState::Leaves);
    assert_eq!(k.age, 25);
    assert_eq!(k.position(), t.position());
    assert_eq!(k.displacement(), t.displacement());
    assert_eq!(k.bounds(), (40, 20));
    assert_eq!(k.knot_count(), 0);
}

#[test]
fn a_tree_with_a_live_knot_is_not_dead() {
    let mut t = Tree::new(40, 20);
    t.knot_toward(true);
    t.state = TreeState::Dead;
    assert!(!t.is_dead());
    let mut rng = StdRng::seed_from_u64(2);
    for _ in 0..91 {
        t.grow(&mut rng);
    }
    assert!(t.is_dead());
}

#[test]
fn knots_grow_with_their_tree() {
    let mut t = trunk_of_age(21);
    t.knot_toward(false);
    let mut rng = StdRng::seed_from_u64(11);
    t.grow(&mut rng);
    assert_eq!(t.age, 22);
    assert_eq!(t.knot(0).age, 22);
    assert_eq!(t.knot(0).state, TreeState::BranchLeft);
}
