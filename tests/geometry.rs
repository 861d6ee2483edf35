use tilegame::actor::BoundingRect;

fn rect(x: isize, y: isize, width: isize, height: isize) -> BoundingRect {
    BoundingRect { x, y, width, height }
}

#[test]
fn overlapping_rects_collide_both_ways() {
    let a = rect(0, 0, 10, 10);
    let b = rect(5, 5, 10, 10);
    assert!(a.is_colliding(&b));
    assert!(b.is_colliding(&a));
}

#[test]
fn touching_edges_do_not_collide() {
    let a = rect(0, 0, 10, 10);
    let right = rect(10, 0, 10, 10);
    let below = rect(0, 10, 10, 10);
    assert!(!a.is_colliding(&right));
    assert!(!right.is_colliding(&a));
    assert!(!a.is_colliding(&below));
    assert!(!below.is_colliding(&a));
}

#[test]
fn zero_area_rect_never_collides() {
    let a = rect(0, 0, 10, 10);
    let flat = rect(5, 5, 0, 3);
    assert!(!a.is_colliding(&flat));
    assert!(!flat.is_colliding(&a));
}

#[test]
fn sweep_without_overlap_on_other_axis_is_none() {
    let s = rect(100, 0, 10, 10);
    let m = rect(0, 20, 5, 5);
    assert_eq!(s.sweep_collision_x(&m, 200), None);
    let m_side = rect(20, 0, 5, 5);
    assert_eq!(rect(0, 100, 10, 10).sweep_collision_y(&m_side, 200), None);
}

#[test]
fn sweep_starting_inside_stays_put() {
    let s = rect(100, 0, 10, 10);
    let m = rect(98, 2, 5, 5);
    assert_eq!(s.sweep_collision_x(&m, 300), Some(98));
    assert_eq!(s.sweep_collision_x(&m, -300), Some(98));
    assert_eq!(s.sweep_collision_x(&m, 98), Some(98));
    assert_eq!(s.sweep_collision_y(&m, 40), Some(2));
}

#[test]
fn sweep_right_stops_at_left_edge() {
    let s = rect(100, 0, 10, 10);
    let m = rect(0, 0, 5, 5);
    assert_eq!(s.sweep_collision_x(&m, 200), Some(95));
}

#[test]
fn sweep_left_stops_at_right_edge() {
    let s = rect(100, 0, 10, 10);
    let m = rect(150, 3, 5, 5);
    assert_eq!(s.sweep_collision_x(&m, 0), Some(110));
}

#[test]
fn sweep_that_falls_short_is_none() {
    let s = rect(100, 0, 10, 10);
    let m = rect(0, 0, 5, 5);
    assert_eq!(s.sweep_collision_x(&m, 95), None);
    assert_eq!(s.sweep_collision_x(&m, 50), None);
}

#[test]
fn sweep_away_from_obstacle_is_none() {
    let s = rect(100, 0, 10, 10);
    let m = rect(50, 0, 5, 5);
    assert_eq!(s.sweep_collision_x(&m, 0), None);
}

#[test]
fn sweep_down_and_up_stop_at_edges() {
    let s = rect(0, 100, 10, 10);
    let above = rect(2, 0, 4, 6);
    assert_eq!(s.sweep_collision_y(&above, 300), Some(94));
    let below = rect(2, 200, 4, 6);
    assert_eq!(s.sweep_collision_y(&below, 0), Some(110));
}
