use roguemap::entity::apply_intent;
use roguemap::entity::Color;
use roguemap::entity::Intent;
use roguemap::entity::Object;
use roguemap::grid::Grid;
use roguemap::rect::Rect;

fn white() -> Color {
    Color { r: 255, g: 255, b: 255 }
}

#[test]
fn object_new_sets_all_fields() {
    let o = Object::new(3, 4, '@', white());
    assert_eq!(o.x, 3);
    assert_eq!(o.y, 4);
    assert_eq!(o.glyph, '@');
    assert_eq!(o.color, white());
}

#[test]
fn moving_into_a_wall_is_a_silent_no_op() {
    // A carved column leaves (4, 5) on floor while (5, 5) stays a
    // one-tile-wide wall next to it.
    let mut g = Grid::new_solid(10, 10);
    g.carve_v_corridor(3, 7, 4);
    assert!(!g.is_blocked(4, 5));
    assert!(g.is_blocked(5, 5));
    let mut player = Object::new(4, 5, '@', white());
    player.move_by(1, 0, &g);
    assert_eq!(player.x, 4);
    assert_eq!(player.y, 5);
}

#[test]
fn moving_onto_a_floor_tile_commits_the_position() {
    let mut g = Grid::new_solid(10, 10);
    g.carve_h_corridor(5, 6, 6);
    assert!(!g.is_blocked(6, 6));
    let mut player = Object::new(5, 6, '@', white());
    player.move_by(1, 0, &g);
    assert_eq!(player.x, 6);
    assert_eq!(player.y, 6);
}

#[test]
fn movement_is_atomic_per_call() {
    let mut g = Grid::new_solid(12, 12);
    g.carve_rect(Rect::new(1, 1, 8, 8));
    let mut player = Object::new(4, 4, '@', white());
    player.move_by(1, 0, &g);
    player.move_by(0, 1, &g);
    assert_eq!((player.x, player.y), (5, 5));
    // Into the border wall: nothing moves, nothing slides.
    player.move_by(-5, 0, &g);
    assert_eq!((player.x, player.y), (5, 5));
}

#[test]
fn exit_intent_stops_the_loop_and_moves_nothing() {
    let mut g = Grid::new_solid(10, 10);
    g.carve_rect(Rect::new(1, 1, 8, 8));
    let mut player = Object::new(4, 4, '@', white());
    let exit = apply_intent(&mut player, Intent::Exit, &g);
    assert!(exit);
    assert_eq!((player.x, player.y), (4, 4));
}

#[test]
fn directional_intents_move_through_open_floor() {
    let mut g = Grid::new_solid(10, 10);
    g.carve_rect(Rect::new(1, 1, 8, 8));
    let mut player = Object::new(4, 4, '@', white());
    assert!(!apply_intent(&mut player, Intent::Right, &g));
    assert_eq!((player.x, player.y), (5, 4));
    assert!(!apply_intent(&mut player, Intent::Down, &g));
    assert_eq!((player.x, player.y), (5, 5));
    assert!(!apply_intent(&mut player, Intent::Left, &g));
    assert_eq!((player.x, player.y), (4, 5));
    assert!(!apply_intent(&mut player, Intent::Up, &g));
    assert_eq!((player.x, player.y), (4, 4));
    assert!(!apply_intent(&mut player, Intent::Wait, &g));
    assert_eq!((player.x, player.y), (4, 4));
}

#[test]
fn directional_intent_against_a_wall_keeps_the_position() {
    let mut g = Grid::new_solid(10, 10);
    g.carve_v_corridor(2, 7, 4);
    let mut player = Object::new(4, 5, '@', white());
    let exit = apply_intent(&mut player, Intent::Right, &g);
    assert!(!exit);
    assert_eq!((player.x, player.y), (4, 5));
}
