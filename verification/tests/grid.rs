use bonsai::screen::Grid;

#[test]
fn the_foot_of_the_tree_is_at_the_middle_of_the_bottom_row() {
    let g = Grid { x_max: 80, y_max: 24 };
    assert_eq!(g.cell(0, 0), Some((40, 24)));
    assert_eq!(g.cell(0, 4), Some((40, 20)));
    assert_eq!(g.cell(-3, 10), Some((37, 14)));
}

#[test]
fn the_corners_of_the_grid_are_shown() {
    let g = Grid { x_max: 80, y_max: 24 };
    assert_eq!(g.cell(-40, 24), Some((0, 0)));
    assert_eq!(g.cell(40, 0), Some((80, 24)));
    assert_eq!(g.cell(40, 24), Some((80, 0)));
}

#[test]
fn places_off_the_grid_are_dropped() {
    let g = Grid { x_max: 80, y_max: 24 };
    assert_eq!(g.cell(-41, 0), None);
    assert_eq!(g.cell(41, 0), None);
    assert_eq!(g.cell(0, 25), None);
    assert_eq!(g.cell(0, -1), None);
    assert_eq!(g.cell(i16::MIN, i16::MIN), None);
    assert_eq!(g.cell(i16::MAX, i16::MAX), None);
}

#[test]
fn an_odd_width_rounds_the_middle_down() {
    let g = Grid { x_max: 81, y_max: 10 };
    assert_eq!(g.cell(0, 0), Some((40, 10)));
    assert_eq!(g.cell(41, 0), Some((81, 10)));
    assert_eq!(g.cell(42, 0), None);
}

#[test]
fn the_widest_grid_is_handled() {
    let g = Grid { x_max: u16::MAX, y_max: u16::MAX };
    assert_eq!(g.cell(i16::MAX, i16::MAX), Some((32767 + 32767, 65535 - 32767)));
    assert_eq!(g.cell(0, i16::MIN), None);
    assert_eq!(g.cell(i16::MIN, 0), None);
}
