use vcte::cursor::{Cursor, Direction};

fn cursor() -> Cursor {
    let mut c = Cursor::new(80, 24);
    c.set_min(2, 1);
    c.set_max(10, 5);
    c
}

#[test]
fn new_fills_terminal_less_two_rows() {
    let c = Cursor::new(80, 24);
    assert_eq!((c.x, c.y, c.x_max, c.y_max, c.x_min, c.y_min), (0, 0, 80, 22, 0, 0));
    assert_eq!(Cursor::new(80, 1).y_max, 0);
}

#[test]
fn bounds_pull_position_inside() {
    let c = cursor();
    assert_eq!((c.x, c.y), (2, 1));
    let mut d = cursor();
    d.update(9, 4);
    d.set_max(5, 3);
    assert_eq!((d.x, d.y, d.x_max, d.y_max), (5, 3, 5, 3));
    d.set_max(0, 0);
    assert_eq!((d.x_max, d.y_max), (2, 1));
}

#[test]
fn update_clamps_into_bounds() {
    let mut c = cursor();
    c.update(50, 0);
    assert_eq!((c.x, c.y), (10, 1));
}

#[test]
fn move_to_past_max_scrolls_forward_by_one() {
    let mut c = cursor();
    c.move_to(4, 9);
    assert_eq!((c.x, c.y, c.y_offset, c.x_offset), (4, 5, 1, 0));
    c.move_to(40, 3);
    assert_eq!((c.x, c.y, c.x_offset, c.y_offset), (10, 3, 1, 1));
}

#[test]
fn move_to_below_min_scrolls_back_not_below_zero() {
    let mut c = cursor();
    c.move_to(4, 9);
    c.move_to(4, 9);
    c.move_to(0, 0);
    assert_eq!((c.x, c.y, c.x_offset, c.y_offset), (2, 1, 0, 1));
    c.move_to(0, 0);
    assert_eq!(c.y_offset, 0);
}

#[test]
fn down_n_times_past_bottom_scrolls_n_rows() {
    let mut c = cursor();
    c.update(3, 5);
    for _ in 0..7 {
        c.parse_direction(Direction::Down);
    }
    assert_eq!((c.y, c.y_offset), (5, 7));
}

#[test]
fn up_at_top_scrolls_back_in_place() {
    let mut c = cursor();
    c.move_to(3, 9);
    c.move_to(3, 9);
    c.update(3, 1);
    c.parse_direction(Direction::Up);
    assert_eq!((c.y, c.y_offset), (1, 1));
    c.parse_direction(Direction::Up);
    c.parse_direction(Direction::Up);
    assert_eq!((c.y, c.y_offset), (1, 0));
}

#[test]
fn left_and_right_step_one_column() {
    let mut c = cursor();
    c.parse_direction(Direction::Right);
    assert_eq!(c.x, 3);
    c.parse_direction(Direction::Left);
    assert_eq!(c.x, 2);
    c.parse_direction(Direction::Left);
    assert_eq!((c.x, c.x_offset), (2, 0));
    c.update(10, 1);
    c.parse_direction(Direction::Right);
    assert_eq!((c.x, c.x_offset), (10, 1));
}
