use roguemap::dungeon::generate;
use roguemap::grid::Grid;
use roguemap::rect::Rect;
use roguemap::rng::RandomSource;
use roguemap::tile::Tile;

#[test]
fn tile_values() {
    let e = Tile::empty();
    assert!(!e.blocked);
    assert!(!e.block_sight);
    let w = Tile::wall();
    assert!(w.blocked);
    assert!(w.block_sight);
    assert_eq!(e, Tile::empty());
    assert_ne!(e, w);
}

#[test]
fn rect_new_and_center() {
    let r = Rect::new(0, 0, 10, 10);
    assert_eq!(r.x1, 0);
    assert_eq!(r.y1, 0);
    assert_eq!(r.x2, 10);
    assert_eq!(r.y2, 10);
    assert_eq!(r.center(), (5, 5));
    let r2 = Rect::new(3, 4, 5, 6);
    assert_eq!(r2.center(), ((3 + 8) / 2, (4 + 10) / 2));
}

#[test]
fn rect_intersection_cases() {
    let a = Rect::new(0, 0, 4, 4);
    let b = Rect::new(2, 2, 4, 4);
    assert!(a.intersects_with(&b));
    assert!(b.intersects_with(&a));
    // Border contact counts as intersecting: the test uses inclusive bounds.
    let c = Rect::new(4, 0, 3, 3);
    assert!(a.intersects_with(&c));
    let d = Rect::new(5, 5, 3, 3);
    assert!(!a.intersects_with(&d));
    assert!(!d.intersects_with(&a));
}

#[test]
fn new_solid_grid_is_all_walls() {
    let g = Grid::new_solid(8, 6);
    assert_eq!(g.width(), 8);
    assert_eq!(g.height(), 6);
    for x in 0..8 {
        for y in 0..6 {
            assert!(g.is_blocked(x, y));
            assert!(g.tile(x, y).block_sight);
        }
    }
}

#[test]
fn carve_rect_opens_interior_only() {
    let mut g = Grid::new_solid(10, 10);
    let room = Rect::new(2, 3, 4, 4); // x2 = 6, y2 = 7
    g.carve_rect(room);
    for x in 0..10 {
        for y in 0..10 {
            let inside = 2 < x && x < 6 && 3 < y && y < 7;
            assert_eq!(g.is_blocked(x, y), !inside);
        }
    }
}

#[test]
fn carve_rect_touching_the_grid_edge_leaves_the_border() {
    // The rectangle's exclusive bottom-right bound may equal the grid size:
    // interior carving never writes the border row or column itself.
    let mut g = Grid::new_solid(10, 10);
    let room = Rect::new(5, 5, 5, 5); // x2 == 10 == width, y2 == 10 == height
    g.carve_rect(room);
    for x in 0..10 {
        for y in 0..10 {
            let inside = 5 < x && x < 10 && 5 < y && y < 10;
            assert_eq!(g.is_blocked(x, y), !inside);
        }
    }
    // The border column and row of the rectangle stay solid.
    for k in 5..10 {
        assert!(g.is_blocked(5, k));
        assert!(g.is_blocked(k, 5));
    }
}

#[test]
fn h_corridor_direction_does_not_matter() {
    let mut a = Grid::new_solid(10, 10);
    a.carve_h_corridor(2, 7, 4);
    let mut b = Grid::new_solid(10, 10);
    b.carve_h_corridor(7, 2, 4);
    for x in 0..10 {
        for y in 0..10 {
            assert_eq!(a.is_blocked(x, y), b.is_blocked(x, y));
            let on = 2 <= x && x <= 7 && y == 4;
            assert_eq!(a.is_blocked(x, y), !on);
        }
    }
}

#[test]
fn v_corridor_direction_does_not_matter() {
    let mut a = Grid::new_solid(10, 10);
    a.carve_v_corridor(1, 8, 3);
    let mut b = Grid::new_solid(10, 10);
    b.carve_v_corridor(8, 1, 3);
    for x in 0..10 {
        for y in 0..10 {
            assert_eq!(a.is_blocked(x, y), b.is_blocked(x, y));
            let on = 1 <= y && y <= 8 && x == 3;
            assert_eq!(a.is_blocked(x, y), !on);
        }
    }
}

#[test]
fn is_blocked_is_idempotent() {
    let mut g = Grid::new_solid(10, 10);
    g.carve_rect(Rect::new(1, 1, 6, 6));
    for x in 0..10 {
        for y in 0..10 {
            let first = g.is_blocked(x, y);
            assert_eq!(g.is_blocked(x, y), first);
            assert_eq!(g.is_blocked(x, y), first);
        }
    }
}

#[test]
fn spawn_lies_on_a_floor_tile() {
    for seed in 0..8u64 {
        let mut rng = RandomSource::from_seed(seed);
        let level = generate(80, 45, 30, 6, 10, &mut rng);
        assert!(!level.grid.is_blocked(level.spawn_x, level.spawn_y));
    }
}

#[test]
fn single_room_run_defines_the_spawn() {
    // With one iteration the room list is empty, so the candidate can
    // overlap nothing: it is always accepted and the spawn is its center.
    let mut rng = RandomSource::from_seed(7);
    let level = generate(80, 45, 1, 6, 10, &mut rng);
    assert!(!level.grid.is_blocked(level.spawn_x, level.spawn_y));
    // A room interior never touches the map border, so neither does its
    // center.
    assert!(level.spawn_x > 0 && level.spawn_y > 0);
}

#[test]
fn identical_seeds_give_identical_levels() {
    let mut rng1 = RandomSource::from_seed(0xdead_beef);
    let level1 = generate(80, 45, 30, 6, 10, &mut rng1);
    let mut rng2 = RandomSource::from_seed(0xdead_beef);
    let level2 = generate(80, 45, 30, 6, 10, &mut rng2);
    assert_eq!(level1.spawn_x, level2.spawn_x);
    assert_eq!(level1.spawn_y, level2.spawn_y);
    for x in 0..80 {
        for y in 0..45 {
            assert_eq!(level1.grid.tile(x, y), level2.grid.tile(x, y));
        }
    }
}

#[test]
fn different_seeds_give_a_different_level_somewhere() {
    let mut rng1 = RandomSource::from_seed(1);
    let level1 = generate(80, 45, 30, 6, 10, &mut rng1);
    let mut rng2 = RandomSource::from_seed(2);
    let level2 = generate(80, 45, 30, 6, 10, &mut rng2);
    let mut differs = false;
    for x in 0..80 {
        for y in 0..45 {
            if level1.grid.tile(x, y) != level2.grid.tile(x, y) {
                differs = true;
            }
        }
    }
    assert!(differs);
}

#[test]
fn every_floor_tile_is_reachable_from_the_spawn() {
    // Rooms are chained each to the previously accepted one, so the carved
    // cells form one connected component containing the spawn.
    for seed in 0..4u64 {
        let mut rng = RandomSource::from_seed(seed);
        let level = generate(80, 45, 30, 6, 10, &mut rng);
        let g = &level.grid;
        let mut seen = vec![vec![false; 45]; 80];
        let mut queue = vec![(level.spawn_x, level.spawn_y)];
        seen[level.spawn_x as usize][level.spawn_y as usize] = true;
        while let Some((x, y)) = queue.pop() {
            let steps = [(1, 0), (-1, 0), (0, 1), (0, -1)];
            for (dx, dy) in steps {
                let nx = x + dx;
                let ny = y + dy;
                if 0 <= nx && nx < 80 && 0 <= ny && ny < 45 {
                    if !g.is_blocked(nx, ny) && !seen[nx as usize][ny as usize] {
                        seen[nx as usize][ny as usize] = true;
                        queue.push((nx, ny));
                    }
                }
            }
        }
        for x in 0..80 {
            for y in 0..45 {
                if !g.is_blocked(x, y) {
                    assert!(seen[x as usize][y as usize]);
                }
            }
        }
    }
}

#[test]
fn zero_iterations_give_a_solid_grid() {
    let mut rng = RandomSource::from_seed(3);
    let level = generate(20, 20, 0, 6, 10, &mut rng);
    assert_eq!((level.spawn_x, level.spawn_y), (0, 0));
    for x in 0..20 {
        for y in 0..20 {
            assert!(level.grid.is_blocked(x, y));
        }
    }
}
