use verlet_core::{Arena, Options, Rgba, Solver, Vec2, VerletObject};

const GREY: Rgba = Rgba { r: 128, g: 128, b: 128, a: 255 };

fn v(x: i32, y: i32) -> Vec2 {
    Vec2 { x, y }
}

fn body(cur: Vec2, old: Vec2, radius: i32) -> VerletObject {
    VerletObject {
        radius,
        current_position: cur,
        old_position: old,
        acceleration: v(0, 0),
        colour: GREY,
    }
}

fn rect_options(width: u32, height: u32) -> Options {
    Options {
        gravity_center: false,
        center: v(0, 0),
        strength: 0,
        arena: Arena::Rect { width, height },
    }
}

fn dist(a: Vec2, b: Vec2) -> f64 {
    let dx = (a.x - b.x) as f64;
    let dy = (a.y - b.y) as f64;
    (dx * dx + dy * dy).sqrt()
}

#[test]
fn rest_state_is_unchanged() {
    let mut solver = Solver::new(v(0, 0));
    solver.spawn(v(400, 300), 20, GREY);
    let before = solver.objects[0];
    let opts = rect_options(800, 600);
    for _ in 0..10 {
        solver.update(1, 8, &opts);
    }
    assert_eq!(solver.objects[0], before);
}

#[test]
fn free_fall_follows_closed_form() {
    let mut solver = Solver::new(v(0, 17));
    solver.objects.push(body(v(1000, 1000), v(990, 1000), 10));
    let opts = rect_options(100_000, 100_000);
    solver.update(1, 5, &opts);
    let o = solver.objects[0];
    // p0 + k * v0 + g * k * (k + 1) / 2 with k = 5
    assert_eq!(o.current_position, v(1050, 1000 + 17 * 15));
    assert_eq!(o.old_position, v(1040, 1000 + 17 * 10));
    assert_eq!(o.acceleration, v(0, 0));
}

#[test]
fn free_fall_scales_with_dt_squared() {
    let mut solver = Solver::new(v(0, 3));
    solver.spawn(v(500, 500), 5, GREY);
    let opts = rect_options(100_000, 100_000);
    solver.update(2, 3, &opts);
    // increment per step is 3 * 2 * 2 = 12; after 3 steps 12 * 6
    assert_eq!(solver.objects[0].current_position, v(500, 500 + 72));
}

#[test]
fn collision_separates_axis_aligned_pair_exactly() {
    let mut solver = Solver::new(v(0, 0));
    solver.spawn(v(1000, 1000), 10, GREY);
    solver.spawn(v(1010, 1000), 10, GREY);
    solver.solve_collisions();
    assert_eq!(solver.objects[0].current_position, v(995, 1000));
    assert_eq!(solver.objects[1].current_position, v(1015, 1000));
    assert_eq!(dist(solver.objects[0].current_position, solver.objects[1].current_position), 20.0);
}

#[test]
fn collision_separates_diagonal_pair_exactly() {
    let mut solver = Solver::new(v(0, 0));
    solver.spawn(v(0, 0), 30, GREY);
    solver.spawn(v(30, 40), 30, GREY);
    solver.solve_collisions();
    assert_eq!(solver.objects[0].current_position, v(-3, -4));
    assert_eq!(solver.objects[1].current_position, v(33, 44));
}

#[test]
fn collision_is_symmetric_and_reaches_contact_distance() {
    let mut solver = Solver::new(v(0, 0));
    solver.spawn(v(0, 0), 5000, GREY);
    solver.spawn(v(7000, 5000), 5000, GREY);
    solver.solve_collisions();
    let a = solver.objects[0].current_position;
    let b = solver.objects[1].current_position;
    assert_eq!(a, v(-568, -406));
    assert_eq!(b, v(7568, 5406));
    assert_eq!(a.x - 0, -(b.x - 7000));
    assert_eq!(a.y - 0, -(b.y - 5000));
    assert!((dist(a, b) - 10_000.0).abs() <= 2.0);
}

#[test]
fn separated_pair_is_untouched() {
    let mut solver = Solver::new(v(0, 0));
    solver.spawn(v(0, 0), 10, GREY);
    solver.spawn(v(20, 0), 10, GREY);
    solver.solve_collisions();
    assert_eq!(solver.objects[0].current_position, v(0, 0));
    assert_eq!(solver.objects[1].current_position, v(20, 0));
}

#[test]
fn coincident_bodies_separate_along_x() {
    let mut solver = Solver::new(v(0, 0));
    solver.spawn(v(500, 500), 10, GREY);
    solver.spawn(v(500, 500), 10, GREY);
    solver.update(1, 1, &rect_options(1000, 1000));
    let a = solver.objects[0];
    let b = solver.objects[1];
    assert_eq!(a.old_position, v(510, 500));
    assert_eq!(b.old_position, v(490, 500));
    assert_eq!(a.current_position, v(520, 500));
    assert_eq!(b.current_position, v(480, 500));
}

#[test]
fn rect_constraint_clamps_outside_bodies() {
    let mut solver = Solver::new(v(0, 0));
    solver.spawn(v(-5000, 99_999), 10, GREY);
    solver.spawn(v(900, -3), 10, GREY);
    solver.spawn(v(400, 300), 10, GREY);
    solver.apply_constraint(Arena::Rect { width: 800, height: 600 });
    assert_eq!(solver.objects[0].current_position, v(10, 590));
    assert_eq!(solver.objects[1].current_position, v(790, 10));
    assert_eq!(solver.objects[2].current_position, v(400, 300));
}

#[test]
fn rect_constraint_with_oversized_body_prefers_lower_bound() {
    let mut solver = Solver::new(v(0, 0));
    solver.spawn(v(0, 100), 50, GREY);
    solver.apply_constraint(Arena::Rect { width: 60, height: 60 });
    assert_eq!(solver.objects[0].current_position, v(50, 10));
}

#[test]
fn circle_constraint_moves_body_onto_boundary() {
    let mut solver = Solver::new(v(0, 0));
    solver.spawn(v(300, 400), 10, GREY);
    solver.spawn(v(10, 10), 10, GREY);
    let old = solver.objects[0].old_position;
    solver.apply_constraint(Arena::Circle { center: v(0, 0), radius: 100 });
    let p = solver.objects[0].current_position;
    assert_eq!(p, v(54, 72));
    assert!(p.x * p.x + p.y * p.y <= 90 * 90);
    assert_eq!(solver.objects[0].old_position, old);
    assert_eq!(solver.objects[1].current_position, v(10, 10));
}

#[test]
fn circle_constraint_on_oversized_body() {
    let mut solver = Solver::new(v(0, 0));
    solver.spawn(v(100, 100), 200, GREY);
    solver.spawn(v(130, 140), 200, GREY);
    solver.apply_constraint(Arena::Circle { center: v(100, 100), radius: 100 });
    assert_eq!(solver.objects[0].current_position, v(100, 100));
    assert_eq!(solver.objects[1].current_position, v(40, 20));
}

#[test]
fn spawn_grows_the_store() {
    let mut solver = Solver::new(v(0, 10));
    let n = 5;
    for i in 0..n {
        solver.spawn(v(10 * i, 20 * i), 5 + i, GREY);
    }
    assert_eq!(solver.count(), n as usize);
    for i in 0..n {
        let o = solver.objects[i as usize];
        assert_eq!(o.current_position, v(10 * i, 20 * i));
        assert_eq!(o.old_position, v(10 * i, 20 * i));
        assert_eq!(o.acceleration, v(0, 0));
        assert_eq!(o.radius, 5 + i);
    }
    solver.update(1, 8, &rect_options(1000, 1000));
    assert_eq!(solver.count(), n as usize);
}

#[test]
fn order_does_not_matter_without_overlaps() {
    let opts = rect_options(1000, 1000);
    let starts = [(v(100, 100), v(98, 101)), (v(500, 200), v(500, 200)), (v(300, 700), v(305, 690))];
    let mut forward = Solver::new(v(1, 4));
    for (c, o) in starts.iter() {
        forward.objects.push(body(*c, *o, 10));
    }
    let mut backward = Solver::new(v(1, 4));
    for (c, o) in starts.iter().rev() {
        backward.objects.push(body(*c, *o, 10));
    }
    forward.update(1, 1, &opts);
    backward.update(1, 1, &opts);
    let mut a: Vec<(i32, i32)> = forward.objects.iter().map(|o| (o.current_position.x, o.current_position.y)).collect();
    let mut b: Vec<(i32, i32)> = backward.objects.iter().map(|o| (o.current_position.x, o.current_position.y)).collect();
    a.sort();
    b.sort();
    assert_eq!(a, b);
    assert_eq!(forward.objects[0], backward.objects[2]);
}

#[test]
fn center_gravity_moves_position_not_acceleration() {
    let mut solver = Solver::new(v(0, 50));
    solver.spawn(v(100, 0), 5, GREY);
    solver.spawn(v(0, 0), 5, GREY);
    solver.spawn(v(-30, 40), 5, GREY);
    solver.apply_gravity(true, v(0, 0), 7);
    assert_eq!(solver.objects[0].current_position, v(93, 0));
    assert_eq!(solver.objects[0].acceleration, v(0, 0));
    assert_eq!(solver.objects[1].current_position, v(0, 0));
    assert_eq!(solver.objects[2].current_position, v(-30 + 4, 40 - 5));
}

#[test]
fn uniform_gravity_accumulates_acceleration() {
    let mut solver = Solver::new(v(-2, 50));
    solver.spawn(v(100, 0), 5, GREY);
    solver.apply_gravity(false, v(0, 0), 7);
    solver.apply_gravity(false, v(0, 0), 7);
    assert_eq!(solver.objects[0].acceleration, v(-4, 100));
    assert_eq!(solver.objects[0].current_position, v(100, 0));
}

#[test]
fn verlet_step_uses_implicit_velocity() {
    let mut o = body(v(10, 10), v(7, 12), 3);
    o.accelerate(v(2, -1));
    o.update_pos(3);
    assert_eq!(o.current_position, v(31, -1));
    assert_eq!(o.old_position, v(10, 10));
    assert_eq!(o.acceleration, v(0, 0));
}

#[test]
fn verlet_step_saturates_at_coordinate_range() {
    let mut o = body(v(i32::MAX - 1, i32::MIN + 1), v(0, 0), 3);
    o.update_pos(1);
    assert_eq!(o.current_position, v(i32::MAX, i32::MIN));
}

#[test]
fn update_all_pos_advances_every_body() {
    let mut solver = Solver::new(v(0, 0));
    solver.objects.push(body(v(5, 5), v(4, 3), 1));
    solver.objects.push(body(v(-5, 0), v(0, 0), 1));
    solver.update_all_pos(1);
    assert_eq!(solver.objects[0].current_position, v(6, 7));
    assert_eq!(solver.objects[1].current_position, v(-10, 0));
}

#[test]
fn collision_of_close_centers_reaches_contact_up_to_rounding() {
    let mut solver = Solver::new(v(0, 0));
    solver.spawn(v(0, 0), 50, GREY);
    solver.spawn(v(1, 1), 50, GREY);
    solver.solve_collisions();
    let a = solver.objects[0].current_position;
    let b = solver.objects[1].current_position;
    assert_eq!(a, v(-34, -34));
    assert_eq!(b, v(35, 35));
    // the new axis is 100 / sqrt(2) times the old one (-1, -1), within 2 units per coordinate
    let ideal = -100.0 / 2.0f64.sqrt();
    assert!(((a.x - b.x) as f64 - ideal).abs() < 2.0);
    assert!(((a.y - b.y) as f64 - ideal).abs() < 2.0);
    assert!((dist(a, b) - 100.0).abs() < 3.0);
}

#[test]
fn center_gravity_uses_true_direction_length() {
    let mut solver = Solver::new(v(0, 0));
    solver.spawn(v(0, 0), 5, GREY);
    solver.apply_gravity(true, v(1, 1), 286);
    // 286 along the unit vector (1, 1) / sqrt(2)
    assert_eq!(solver.objects[0].current_position, v(202, 202));
    assert_eq!(solver.objects[0].acceleration, v(0, 0));
    assert_eq!(solver.objects[0].old_position, v(0, 0));
}

#[test]
fn circle_constraint_lands_on_boundary_along_diagonal() {
    let mut solver = Solver::new(v(0, 0));
    solver.spawn(v(30, 30), 1, GREY);
    solver.apply_constraint(Arena::Circle { center: v(0, 0), radius: 11 });
    // 10 along the unit vector (1, 1) / sqrt(2)
    assert_eq!(solver.objects[0].current_position, v(7, 7));
}
