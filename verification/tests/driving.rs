use bonsai::driver::{read_key, Driver, Key, TICK_BUDGET};
use bonsai::node::TreeState;
use bonsai::tree::Tree;
use rand::rngs::StdRng;
use rand::SeedableRng;

#[test]
fn keys_by_character() {
    assert_eq!(read_key('q'), Key::Quit);
    assert_eq!(read_key('d'), Key::Overlay);
    assert_eq!(read_key('Q'), Key::Other);
    assert_eq!(read_key('x'), Key::Other);
    assert_eq!(read_key(' '), Key::Other);
}

#[test]
fn a_new_driver_has_made_no_tick() {
    let d = Driver::new();
    assert_eq!(d.ticks, 0);
    assert!(!d.overlay);
    assert_eq!(TICK_BUDGET, 150);
}

#[test]
fn pressing_keys() {
    let mut d = Driver::new();
    assert!(!d.press(Key::Other));
    assert!(!d.overlay);
    assert!(!d.press(Key::Overlay));
    assert!(d.overlay);
    assert!(d.press(Key::Quit));
    assert!(d.overlay);
    assert!(!d.press(Key::Overlay));
    assert!(!d.overlay);
    assert_eq!(d.ticks, 0);
}

#[test]
fn driver_goes_on_while_the_tree_lives_and_the_budget_lasts() {
    let t = Tree::new(40, 20);
    assert!(Driver::new().goes_on(&t));
    assert!(Driver { ticks: 149, overlay: false }.goes_on(&t));
    assert!(!Driver { ticks: 150, overlay: false }.goes_on(&t));
    assert!(!Driver { ticks: 151, overlay: true }.goes_on(&t));
    let mut dead = Tree::new(40, 20);
    dead.state = TreeState::Dead;
    assert!(!Driver::new().goes_on(&dead));
}

#[test]
fn driver_grows_a_tree_to_its_end_within_the_budget() {
    for seed in 0..20u64 {
        let mut rng = StdRng::seed_from_u64(seed);
        let mut t = Tree::new(40, 20);
        let mut d = Driver::new();
        while d.goes_on(&t) {
            let before = d.ticks;
            d.tick(&mut t, &mut rng);
            assert_eq!(d.ticks, before + 1);
            assert_eq!(t.age, d.ticks as i16 + if t.age > d.ticks as i16 { 20 } else { 0 });
        }
        assert!(t.is_dead());
        assert!(d.ticks <= 91);
        assert!(d.ticks >= 71);
    }
}
