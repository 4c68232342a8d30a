//! The dungeon generator: repeated random room placement with overlap
//! rejection, corridor carving between consecutive accepted rooms, and
//! player-start selection.

use vstd::prelude::*;
use crate::grid::Grid;
use crate::grid::span_hi;
use crate::grid::span_lo;
use crate::rect::Rect;
use crate::rng::RandomSource;
use crate::tile::Tile;

verus! {

/// One straight carved corridor leg, recorded so the finished grid can be
/// characterised exactly: a horizontal leg covers the inclusive span between
/// `xa` and `xb` on row `y`, a vertical one the span between `ya` and `yb`
/// on column `x`. The span is normalized, so the endpoint order never
/// matters.
pub ghost enum Seg {
    H { xa: int, xb: int, y: int },
    V { ya: int, yb: int, x: int },
}

/// The cells a corridor leg covers.
pub open spec fn seg_contains(s: Seg, x: int, y: int) -> bool {
    match s {
        Seg::H { xa, xb, y: sy } => y == sy && span_lo(xa, xb) <= x <= span_hi(xa, xb),
        Seg::V { ya, yb, x: sx } => x == sx && span_lo(ya, yb) <= y <= span_hi(ya, yb),
    }
}

/// A cell is carved when it lies strictly inside an accepted room or on a
/// corridor leg.
pub open spec fn carved_at(rooms: Seq<Rect>, segs: Seq<Seg>, x: int, y: int) -> bool {
    (exists|i: int| 0 <= i < rooms.len() && #[trigger] rooms[i].interior_contains(x, y)) || (
    exists|i: int| 0 <= i < segs.len() && seg_contains(#[trigger] segs[i], x, y))
}

/// The finished grid, exactly: floor on every carved cell, wall everywhere
/// else.
pub open spec fn grid_matches(g: Grid, rooms: Seq<Rect>, segs: Seq<Seg>) -> bool {
    forall|x: int, y: int| g.in_bounds(x, y) ==> #[trigger] g.tile_at(x, y) == (if carved_at(
        rooms,
        segs,
        x,
        y,
    ) {
        Tile::empty_spec()
    } else {
        Tile::wall_spec()
    })
}

/// An accepted room: well-formed, strictly inside the grid, at least two
/// cells on each axis so its center lies strictly inside it.
pub open spec fn room_ok(r: Rect, width: int, height: int) -> bool {
    r.wf() && r.x2 < width && r.y2 < height && r.x2 - r.x1 >= 2 && r.y2 - r.y1 >= 2
}

pub open spec fn rooms_ok(rooms: Seq<Rect>, width: int, height: int) -> bool {
    forall|i: int| 0 <= i < rooms.len() ==> room_ok(#[trigger] rooms[i], width, height)
}

/// Every accepted room's sides measure between `min_size` and `max_size`.
pub open spec fn rooms_sized(rooms: Seq<Rect>, min_size: int, max_size: int) -> bool {
    forall|i: int| 0 <= i < rooms.len() ==> min_size <= (#[trigger] rooms[i]).x2 - rooms[i].x1
        <= max_size && min_size <= rooms[i].y2 - rooms[i].y1 <= max_size
}

/// No two accepted rooms overlap, border contact included, under the same
/// bounding-box test used for placement rejection.
pub open spec fn rooms_disjoint(rooms: Seq<Rect>) -> bool {
    forall|i: int, j: int| 0 <= i < rooms.len() && 0 <= j < rooms.len() && i != j ==> !(
    #[trigger] rooms[i]).overlaps(#[trigger] rooms[j])
}

/// The two legs of the L-shaped corridor between centers `a` and `b`: a coin
/// flip decides whether the horizontal leg runs at `a`'s row and the
/// vertical one at `b`'s column, or the vertical leg at `a`'s column and the
/// horizontal one at `b`'s row. Either way the two legs join `a` to `b`.
pub open spec fn l_pair(a: (int, int), b: (int, int), s1: Seg, s2: Seg) -> bool {
    (s1 == (Seg::H { xa: a.0, xb: b.0, y: a.1 }) && s2 == (Seg::V { ya: a.1, yb: b.1, x: b.0 }))
        || (s1 == (Seg::V { ya: a.1, yb: b.1, x: a.0 }) && s2 == (Seg::H {
        xa: a.0,
        xb: b.0,
        y: b.1,
    }))
}

/// Each accepted room after the first is joined to the immediately
/// previously accepted room by one recorded L-shaped corridor.
pub open spec fn corridors_ok(rooms: Seq<Rect>, segs: Seq<Seg>) -> bool {
    &&& rooms.len() == 0 ==> segs.len() == 0
    &&& rooms.len() >= 1 ==> segs.len() == 2 * (rooms.len() - 1)
    &&& forall|k: int| 1 <= k < rooms.len() ==> l_pair(
        (#[trigger] rooms[k - 1]).center_spec(),
        rooms[k].center_spec(),
        segs[2 * k - 2],
        segs[2 * k - 1],
    )
}

/// Every cell on the inclusive horizontal span between `xa` and `xb` on row
/// `y` is on the grid and carved to floor.
pub open spec fn h_span_empty(g: Grid, xa: int, xb: int, y: int) -> bool {
    forall|x: int| span_lo(xa, xb) <= x <= span_hi(xa, xb) ==> g.in_bounds(x, y)
        && #[trigger] g.tile_at(x, y) == Tile::empty_spec()
}

/// Every cell on the inclusive vertical span between `ya` and `yb` on column
/// `x` is on the grid and carved to floor.
pub open spec fn v_span_empty(g: Grid, ya: int, yb: int, x: int) -> bool {
    forall|y: int| span_lo(ya, yb) <= y <= span_hi(ya, yb) ==> g.in_bounds(x, y)
        && #[trigger] g.tile_at(x, y) == Tile::empty_spec()
}

/// An L-shaped corridor of floor cells joins `a` and `b`: one leg along
/// `a`'s row or column, the other along `b`'s, meeting at the corner.
pub open spec fn corridor_connected(g: Grid, a: (int, int), b: (int, int)) -> bool {
    (h_span_empty(g, a.0, b.0, a.1) && v_span_empty(g, a.1, b.1, b.0)) || (v_span_empty(
        g,
        a.1,
        b.1,
        a.0,
    ) && h_span_empty(g, a.0, b.0, b.1))
}

/// Appending a room extends the carved set by exactly that room's interior.
proof fn lemma_carved_push_room(rooms: Seq<Rect>, segs: Seq<Seg>, r: Rect)
    ensures
        forall|x: int, y: int| #[trigger] carved_at(rooms.push(r), segs, x, y) <==> (carved_at(
            rooms,
            segs,
            x,
            y,
        ) || r.interior_contains(x, y)),
{
    let rs2 = rooms.push(r);
    assert forall|x: int, y: int| #[trigger] carved_at(rs2, segs, x, y) <==> (carved_at(
        rooms,
        segs,
        x,
        y,
    ) || r.interior_contains(x, y)) by {
        if carved_at(rs2, segs, x, y) {
            if exists|i: int| 0 <= i < rs2.len() && #[trigger] rs2[i].interior_contains(x, y) {
                let i = choose|i: int|
                    0 <= i < rs2.len() && #[trigger] rs2[i].interior_contains(x, y);
                if i < rooms.len() {
                    assert(rooms[i].interior_contains(x, y));
                } else {
                    assert(rs2[i] == r);
                }
            }
        }
        if carved_at(rooms, segs, x, y) || r.interior_contains(x, y) {
            if exists|i: int| 0 <= i < rooms.len() && #[trigger] rooms[i].interior_contains(x, y) {
                let i = choose|i: int|
                    0 <= i < rooms.len() && #[trigger] rooms[i].interior_contains(x, y);
                assert(rs2[i].interior_contains(x, y));
            } else if r.interior_contains(x, y) {
                assert(rs2[rooms.len() as int].interior_contains(x, y));
            }
        }
    }
}

/// Appending a corridor leg extends the carved set by exactly that leg.
proof fn lemma_carved_push_seg(rooms: Seq<Rect>, segs: Seq<Seg>, s: Seg)
    ensures
        forall|x: int, y: int| #[trigger] carved_at(rooms, segs.push(s), x, y) <==> (carved_at(
            rooms,
            segs,
            x,
            y,
        ) || seg_contains(s, x, y)),
{
    let ss2 = segs.push(s);
    assert forall|x: int, y: int| #[trigger] carved_at(rooms, ss2, x, y) <==> (carved_at(
        rooms,
        segs,
        x,
        y,
    ) || seg_contains(s, x, y)) by {
        if carved_at(rooms, ss2, x, y) {
            if exists|i: int| 0 <= i < ss2.len() && seg_contains(#[trigger] ss2[i], x, y) {
                let i = choose|i: int| 0 <= i < ss2.len() && seg_contains(#[trigger] ss2[i], x, y);
                if i < segs.len() {
                    assert(seg_contains(segs[i], x, y));
                } else {
                    assert(ss2[i] == s);
                }
            }
        }
        if carved_at(rooms, segs, x, y) || seg_contains(s, x, y) {
            if exists|i: int| 0 <= i < segs.len() && seg_contains(#[trigger] segs[i], x, y) {
                let i = choose|i: int| 0 <= i < segs.len() && seg_contains(#[trigger] segs[i], x, y);
                assert(seg_contains(ss2[i], x, y));
            } else if seg_contains(s, x, y) {
                assert(seg_contains(ss2[segs.len() as int], x, y));
            }
        }
    }
}

/// The center of an accepted room lies strictly inside it, hence on the
/// grid.
proof fn lemma_room_center(r: Rect, width: int, height: int)
    requires
        room_ok(r, width, height),
    ensures
        r.interior_contains(r.center_spec().0, r.center_spec().1),
        0 <= r.center_spec().0 < width,
        0 <= r.center_spec().1 < height,
{
    r.lemma_center_in_interior();
}

/// Corridor law, first half: on a grid that matches its records, both legs
/// of the recorded L-shaped corridor between the centers of two
/// consecutively accepted rooms are carved to floor, every cell of them.
pub proof fn lemma_corridor_carved(g: Grid, rooms: Seq<Rect>, segs: Seq<Seg>, k: int)
    requires
        grid_matches(g, rooms, segs),
        corridors_ok(rooms, segs),
        rooms_ok(rooms, g.spec_width(), g.spec_height()),
        1 <= k < rooms.len(),
    ensures
        corridor_connected(g, rooms[k - 1].center_spec(), rooms[k].center_spec()),
{
    let a = rooms[k - 1].center_spec();
    let b = rooms[k].center_spec();
    lemma_room_center(rooms[k - 1], g.spec_width(), g.spec_height());
    lemma_room_center(rooms[k], g.spec_width(), g.spec_height());
    let s1 = segs[2 * k - 2];
    let s2 = segs[2 * k - 1];
    assert(l_pair(a, b, s1, s2));
    if s1 == (Seg::H { xa: a.0, xb: b.0, y: a.1 }) && s2 == (Seg::V { ya: a.1, yb: b.1, x: b.0 }) {
        assert forall|x: int| span_lo(a.0, b.0) <= x <= span_hi(a.0, b.0) implies g.in_bounds(
            x,
            a.1,
        ) && #[trigger] g.tile_at(x, a.1) == Tile::empty_spec() by {
            assert(seg_contains(segs[2 * k - 2], x, a.1));
            assert(carved_at(rooms, segs, x, a.1));
        }
        assert forall|y: int| span_lo(a.1, b.1) <= y <= span_hi(a.1, b.1) implies g.in_bounds(
            b.0,
            y,
        ) && #[trigger] g.tile_at(b.0, y) == Tile::empty_spec() by {
            assert(seg_contains(segs[2 * k - 1], b.0, y));
            assert(carved_at(rooms, segs, b.0, y));
        }
        assert(h_span_empty(g, a.0, b.0, a.1));
        assert(v_span_empty(g, a.1, b.1, b.0));
    } else {
        assert(s1 == (Seg::V { ya: a.1, yb: b.1, x: a.0 }) && s2 == (Seg::H {
            xa: a.0,
            xb: b.0,
            y: b.1,
        }));
        assert forall|y: int| span_lo(a.1, b.1) <= y <= span_hi(a.1, b.1) implies g.in_bounds(
            a.0,
            y,
        ) && #[trigger] g.tile_at(a.0, y) == Tile::empty_spec() by {
            assert(seg_contains(segs[2 * k - 2], a.0, y));
            assert(carved_at(rooms, segs, a.0, y));
        }
        assert forall|x: int| span_lo(a.0, b.0) <= x <= span_hi(a.0, b.0) implies g.in_bounds(
            x,
            b.1,
        ) && #[trigger] g.tile_at(x, b.1) == Tile::empty_spec() by {
            assert(seg_contains(segs[2 * k - 1], x, b.1));
            assert(carved_at(rooms, segs, x, b.1));
        }
        assert(v_span_empty(g, a.1, b.1, a.0));
        assert(h_span_empty(g, a.0, b.0, b.1));
    }
}

/// A finished level: the carved grid and the chosen spawn coordinate,
/// together with ghost records of the accepted rooms and the carved corridor
/// legs, through which the contracts pin the grid down cell by cell. At run
/// time the room list is ephemeral: it exists only while generation runs.
pub struct Level {
    pub grid: Grid,
    pub spawn_x: i32,
    pub spawn_y: i32,
    pub rooms: Ghost<Seq<Rect>>,
    pub segs: Ghost<Seq<Seg>>,
}

/// Whether a candidate intersects any previously accepted room.
fn overlaps_any(rooms: &Vec<Rect>, r: &Rect) -> (b: bool)
    ensures
        b == exists|i: int| 0 <= i < rooms@.len() && r.overlaps(#[trigger] rooms@[i]),
{
    let n = rooms.len();
    let mut k: usize = 0;
    while k < n
        invariant
            n == rooms@.len(),
            k <= n,
            forall|i: int| 0 <= i < k ==> !r.overlaps(#[trigger] rooms@[i]),
        decreases n - k,
    {
        if r.intersects_with(&rooms[k]) {
            assert(r.overlaps(rooms@[k as int]));
            return true;
        }
        k = k + 1;
    }
    false
}

/// Generate one dungeon level.
///
/// For `max_rooms` iterations, draw a room whose sides measure between
/// `room_min_size` and `room_max_size` inclusive at a position where it fits
/// entirely on the grid; reject it if it intersects any previously accepted
/// room, otherwise carve its interior and join its center to the previously
/// accepted room's center with an L-shaped corridor whose leg order a coin
/// flip picks. The first accepted room's center becomes the spawn
/// coordinate. Rejected iterations are skipped entirely, so the level may
/// hold fewer than `max_rooms` rooms; with at least one iteration the first
/// candidate is always accepted, so the spawn is always defined and lies on
/// a floor cell.
#[verifier::loop_isolation(false)]
pub fn generate(
    width: i32,
    height: i32,
    max_rooms: i32,
    room_min_size: i32,
    room_max_size: i32,
    rng: &mut RandomSource,
) -> (level: Level)
    requires
        0 <= max_rooms,
        2 <= room_min_size <= room_max_size,
        room_max_size < width,
        room_max_size < height,
        width <= 0x3fff_ffff,
        height <= 0x3fff_ffff,
        width * height <= usize::MAX,
    ensures
        level.grid.wf(),
        level.grid.spec_width() == width,
        level.grid.spec_height() == height,
        rooms_ok(level.rooms@, width as int, height as int),
        rooms_sized(level.rooms@, room_min_size as int, room_max_size as int),
        rooms_disjoint(level.rooms@),
        corridors_ok(level.rooms@, level.segs@),
        grid_matches(level.grid, level.rooms@, level.segs@),
        level.rooms@.len() <= max_rooms,
        max_rooms >= 1 ==> level.rooms@.len() >= 1,
        level.rooms@.len() >= 1 ==> (level.spawn_x as int, level.spawn_y as int)
            == level.rooms@[0].center_spec(),
        level.rooms@.len() >= 1 ==> level.grid.in_bounds(
            level.spawn_x as int,
            level.spawn_y as int,
        ) && level.grid.tile_at(level.spawn_x as int, level.spawn_y as int)
            == Tile::empty_spec(),
        level.rooms@.len() == 0 ==> level.spawn_x == 0 && level.spawn_y == 0,
        forall|k: int| 1 <= k < level.rooms@.len() ==> corridor_connected(
            level.grid,
            (#[trigger] level.rooms@[k - 1]).center_spec(),
            level.rooms@[k].center_spec(),
        ),
{
    let mut grid = Grid::new_solid(width, height);
    let mut rooms: Vec<Rect> = Vec::new();
    let ghost mut segs_g: Seq<Seg> = Seq::empty();
    let mut spawn_x: i32 = 0;
    let mut spawn_y: i32 = 0;
    let mut iter: i32 = 0;
    while iter < max_rooms
        invariant
            0 <= iter <= max_rooms,
            rooms@.len() <= iter,
            iter >= 1 ==> rooms@.len() >= 1,
            grid.wf(),
            grid.spec_width() == width,
            grid.spec_height() == height,
            rooms_ok(rooms@, width as int, height as int),
            rooms_sized(rooms@, room_min_size as int, room_max_size as int),
            rooms_disjoint(rooms@),
            corridors_ok(rooms@, segs_g),
            grid_matches(grid, rooms@, segs_g),
            rooms@.len() >= 1 ==> (spawn_x as int, spawn_y as int) == rooms@[0].center_spec(),
            rooms@.len() == 0 ==> spawn_x == 0 && spawn_y == 0,
        decreases max_rooms - iter,
    {
        let w = rng.gen_range(room_min_size, room_max_size + 1);
        let h = rng.gen_range(room_min_size, room_max_size + 1);
        let x = rng.gen_range(0, width - w);
        let y = rng.gen_range(0, height - h);
        let new_room = Rect::new(x, y, w, h);
        let failed = overlaps_any(&rooms, &new_room);
        if !failed {
            let ghost rooms0 = rooms@;
            let ghost g0 = grid;
            grid.carve_rect(new_room);
            proof {
                lemma_carved_push_room(rooms0, segs_g, new_room);
                assert forall|xi: int, yi: int| grid.in_bounds(xi, yi) implies #[trigger] grid.tile_at(
                    xi,
                    yi,
                ) == (if carved_at(rooms0.push(new_room), segs_g, xi, yi) {
                    Tile::empty_spec()
                } else {
                    Tile::wall_spec()
                }) by {
                    assert(g0.in_bounds(xi, yi));
                    assert(g0.tile_at(xi, yi) == (if carved_at(rooms0, segs_g, xi, yi) {
                        Tile::empty_spec()
                    } else {
                        Tile::wall_spec()
                    }));
                }
                assert(grid_matches(grid, rooms0.push(new_room), segs_g));
                lemma_room_center(new_room, width as int, height as int);
            }
            let (new_x, new_y) = new_room.center();
            if rooms.len() == 0 {
                spawn_x = new_x;
                spawn_y = new_y;
            } else {
                let prev = rooms[rooms.len() - 1];
                proof {
                    assert(prev == rooms0[rooms0.len() - 1]);
                    lemma_room_center(prev, width as int, height as int);
                }
                let (prev_x, prev_y) = prev.center();
                let ghost a = prev.center_spec();
                let ghost b = new_room.center_spec();
                if rng.coin() {
                    let ghost s1 = Seg::H { xa: a.0, xb: b.0, y: a.1 };
                    let ghost s2 = Seg::V { ya: a.1, yb: b.1, x: b.0 };
                    let ghost g1 = grid;
                    grid.carve_h_corridor(prev_x, new_x, prev_y);
                    proof {
                        lemma_carved_push_seg(rooms0.push(new_room), segs_g, s1);
                        assert forall|xi: int, yi: int| grid.in_bounds(xi, yi) implies #[trigger] grid.tile_at(
                            xi,
                            yi,
                        ) == (if carved_at(rooms0.push(new_room), segs_g.push(s1), xi, yi) {
                            Tile::empty_spec()
                        } else {
                            Tile::wall_spec()
                        }) by {
                            assert(g1.in_bounds(xi, yi));
                            assert(g1.tile_at(xi, yi) == (if carved_at(
                                rooms0.push(new_room),
                                segs_g,
                                xi,
                                yi,
                            ) {
                                Tile::empty_spec()
                            } else {
                                Tile::wall_spec()
                            }));
                        }
                        segs_g = segs_g.push(s1);
                        assert(grid_matches(grid, rooms0.push(new_room), segs_g));
                    }
                    let ghost g2 = grid;
                    grid.carve_v_corridor(prev_y, new_y, new_x);
                    proof {
                        lemma_carved_push_seg(rooms0.push(new_room), segs_g, s2);
                        assert forall|xi: int, yi: int| grid.in_bounds(xi, yi) implies #[trigger] grid.tile_at(
                            xi,
                            yi,
                        ) == (if carved_at(rooms0.push(new_room), segs_g.push(s2), xi, yi) {
                            Tile::empty_spec()
                        } else {
                            Tile::wall_spec()
                        }) by {
                            assert(g2.in_bounds(xi, yi));
                            assert(g2.tile_at(xi, yi) == (if carved_at(
                                rooms0.push(new_room),
                                segs_g,
                                xi,
                                yi,
                            ) {
                                Tile::empty_spec()
                            } else {
                                Tile::wall_spec()
                            }));
                        }
                        segs_g = segs_g.push(s2);
                        assert(grid_matches(grid, rooms0.push(new_room), segs_g));
                    }
                } else {
                    let ghost s1 = Seg::V { ya: a.1, yb: b.1, x: a.0 };
                    let ghost s2 = Seg::H { xa: a.0, xb: b.0, y: b.1 };
                    let ghost g1 = grid;
                    grid.carve_v_corridor(prev_y, new_y, prev_x);
                    proof {
                        lemma_carved_push_seg(rooms0.push(new_room), segs_g, s1);
                        assert forall|xi: int, yi: int| grid.in_bounds(xi, yi) implies #[trigger] grid.tile_at(
                            xi,
                            yi,
                        ) == (if carved_at(rooms0.push(new_room), segs_g.push(s1), xi, yi) {
                            Tile::empty_spec()
                        } else {
                            Tile::wall_spec()
                        }) by {
                            assert(g1.in_bounds(xi, yi));
                            assert(g1.tile_at(xi, yi) == (if carved_at(
                                rooms0.push(new_room),
                                segs_g,
                                xi,
                                yi,
                            ) {
                                Tile::empty_spec()
                            } else {
                                Tile::wall_spec()
                            }));
                        }
                        segs_g = segs_g.push(s1);
                        assert(grid_matches(grid, rooms0.push(new_room), segs_g));
                    }
                    let ghost g2 = grid;
                    grid.carve_h_corridor(prev_x, new_x, new_y);
                    proof {
                        lemma_carved_push_seg(rooms0.push(new_room), segs_g, s2);
                        assert forall|xi: int, yi: int| grid.in_bounds(xi, yi) implies #[trigger] grid.tile_at(
                            xi,
                            yi,
                        ) == (if carved_at(rooms0.push(new_room), segs_g.push(s2), xi, yi) {
                            Tile::empty_spec()
                        } else {
                            Tile::wall_spec()
                        }) by {
                            assert(g2.in_bounds(xi, yi));
                            assert(g2.tile_at(xi, yi) == (if carved_at(
                                rooms0.push(new_room),
                                segs_g,
                                xi,
                                yi,
                            ) {
                                Tile::empty_spec()
                            } else {
                                Tile::wall_spec()
                            }));
                        }
                        segs_g = segs_g.push(s2);
                        assert(grid_matches(grid, rooms0.push(new_room), segs_g));
                    }
                }
            }
            rooms.push(new_room);
            proof {
                assert(rooms@ == rooms0.push(new_room));
                assert forall|i: int, j: int|
                    0 <= i < rooms@.len() && 0 <= j < rooms@.len() && i != j implies !(
                #[trigger] rooms@[i]).overlaps(#[trigger] rooms@[j]) by {
                    if i < rooms0.len() && j < rooms0.len() {
                        assert(!rooms0[i].overlaps(rooms0[j]));
                    } else if i == rooms0.len() {
                        assert(!new_room.overlaps(rooms0[j]));
                    } else {
                        assert(!new_room.overlaps(rooms0[i]));
                    }
                }
                assert(corridors_ok(rooms@, segs_g)) by {
                    if rooms0.len() >= 1 {
                        assert forall|k: int| 1 <= k < rooms@.len() implies l_pair(
                            (#[trigger] rooms@[k - 1]).center_spec(),
                            rooms@[k].center_spec(),
                            segs_g[2 * k - 2],
                            segs_g[2 * k - 1],
                        ) by {
                            if k < rooms0.len() {
                                assert(rooms@[k - 1] == rooms0[k - 1]);
                                assert(rooms@[k] == rooms0[k]);
                            } else {
                                assert(rooms@[k - 1] == rooms0[rooms0.len() - 1]);
                                assert(rooms@[k] == new_room);
                            }
                        }
                    }
                }
            }
        }
        iter = iter + 1;
    }
    proof {
        if rooms@.len() >= 1 {
            lemma_room_center(rooms@[0], width as int, height as int);
            let c = rooms@[0].center_spec();
            assert(rooms@[0].interior_contains(c.0, c.1));
            assert(carved_at(rooms@, segs_g, c.0, c.1));
            assert(grid.tile_at(c.0, c.1) == Tile::empty_spec());
        }
        assert forall|k: int| 1 <= k < rooms@.len() implies corridor_connected(
            grid,
            (#[trigger] rooms@[k - 1]).center_spec(),
            rooms@[k].center_spec(),
        ) by {
            lemma_corridor_carved(grid, rooms@, segs_g, k);
        }
    }
    Level { grid, spawn_x, spawn_y, rooms: Ghost(rooms@), segs: Ghost(segs_g) }
}

} // verus!
