//! Reachability over floor cells, and the connectivity law: an L-shaped
//! carved corridor joins its two endpoints by a walkable path.

use vstd::prelude::*;
use crate::dungeon::corridor_connected;
use crate::dungeon::corridors_ok;
use crate::dungeon::grid_matches;
use crate::dungeon::h_span_empty;
use crate::dungeon::lemma_corridor_carved;
use crate::dungeon::rooms_ok;
use crate::dungeon::v_span_empty;
use crate::dungeon::Seg;
use crate::grid::Grid;
use crate::rect::Rect;
use crate::grid::span_hi;
use crate::grid::span_lo;
use crate::tile::Tile;

verus! {

/// Two cells share an edge.
pub open spec fn adjacent(a: (int, int), b: (int, int)) -> bool {
    (a.0 == b.0 && (a.1 == b.1 + 1 || a.1 + 1 == b.1)) || (a.1 == b.1 && (a.0 == b.0 + 1 || a.0 + 1
        == b.0))
}

/// A walk across the grid: every cell on it is a floor cell, and each step
/// moves to an edge-adjacent cell.
pub open spec fn empty_path(g: Grid, p: Seq<(int, int)>) -> bool {
    (forall|i: int| 0 <= i < p.len() ==> g.in_bounds((#[trigger] p[i]).0, p[i].1) && g.tile_at(
        p[i].0,
        p[i].1,
    ) == Tile::empty_spec()) && (forall|i: int| 0 <= i < p.len() - 1 ==> adjacent(
        #[trigger] p[i],
        p[i + 1],
    ))
}

/// `b` can be reached from `a` by walking over floor cells.
pub open spec fn reachable(g: Grid, a: (int, int), b: (int, int)) -> bool {
    exists|p: Seq<(int, int)>|
        p.len() >= 1 && p[0] == a && p[p.len() - 1] == b && #[trigger] empty_path(g, p)
}

/// A floor cell reaches itself.
proof fn lemma_reachable_refl(g: Grid, a: (int, int))
    requires
        g.in_bounds(a.0, a.1),
        g.tile_at(a.0, a.1) == Tile::empty_spec(),
    ensures
        reachable(g, a, a),
{
    let p = seq![a];
    assert(p[0] == a);
    assert(empty_path(g, p));
}

/// One step between edge-adjacent floor cells is a walk.
proof fn lemma_reachable_step(g: Grid, a: (int, int), b: (int, int))
    requires
        adjacent(a, b),
        g.in_bounds(a.0, a.1),
        g.in_bounds(b.0, b.1),
        g.tile_at(a.0, a.1) == Tile::empty_spec(),
        g.tile_at(b.0, b.1) == Tile::empty_spec(),
    ensures
        reachable(g, a, b),
        reachable(g, b, a),
{
    let p = seq![a, b];
    assert(p[0] == a && p[p.len() - 1] == b);
    assert(empty_path(g, p));
    let q = seq![b, a];
    assert(q[0] == b && q[q.len() - 1] == a);
    assert(empty_path(g, q));
}

/// Reachability chains: a walk to `b` followed by a walk from `b` onward is
/// one walk.
proof fn lemma_reachable_trans(g: Grid, a: (int, int), b: (int, int), c: (int, int))
    requires
        reachable(g, a, b),
        reachable(g, b, c),
    ensures
        reachable(g, a, c),
{
    let p1 = choose|p: Seq<(int, int)>|
        p.len() >= 1 && p[0] == a && p[p.len() - 1] == b && #[trigger] empty_path(g, p);
    let p2 = choose|p: Seq<(int, int)>|
        p.len() >= 1 && p[0] == b && p[p.len() - 1] == c && #[trigger] empty_path(g, p);
    let p = p1 + p2.subrange(1, p2.len() as int);
    assert(p.len() == p1.len() + p2.len() - 1);
    assert forall|i: int| 0 <= i < p.len() implies g.in_bounds((#[trigger] p[i]).0, p[i].1)
        && g.tile_at(p[i].0, p[i].1) == Tile::empty_spec() by {
        if i < p1.len() {
            assert(p[i] == p1[i]);
        } else {
            assert(p[i] == p2[i - p1.len() + 1]);
        }
    }
    assert forall|i: int| 0 <= i < p.len() - 1 implies adjacent(#[trigger] p[i], p[i + 1]) by {
        if i + 1 < p1.len() {
            assert(p[i] == p1[i]);
            assert(p[i + 1] == p1[i + 1]);
        } else if i + 1 == p1.len() {
            assert(p[i] == p1[i]);
            assert(p1[i] == p2[0]);
            assert(p[i + 1] == p2[1]);
        } else {
            assert(p[i] == p2[i - p1.len() + 1]);
            assert(p[i + 1] == p2[i - p1.len() + 2]);
        }
    }
    assert(p[0] == a);
    assert(p[p.len() - 1] == c);
    assert(empty_path(g, p));
}

/// Any cell of a carved horizontal run reaches the run's right end, and back.
proof fn lemma_h_walk(g: Grid, xa: int, xb: int, y: int, i: int)
    requires
        h_span_empty(g, xa, xb, y),
        span_lo(xa, xb) <= i <= span_hi(xa, xb),
    ensures
        reachable(g, (i, y), (span_hi(xa, xb), y)),
        reachable(g, (span_hi(xa, xb), y), (i, y)),
    decreases span_hi(xa, xb) - i,
{
    assert(g.tile_at(i, y) == Tile::empty_spec());
    assert(g.in_bounds(i, y));
    if i == span_hi(xa, xb) {
        lemma_reachable_refl(g, (i, y));
    } else {
        assert(g.tile_at(i + 1, y) == Tile::empty_spec());
        assert(g.in_bounds(i + 1, y));
        lemma_h_walk(g, xa, xb, y, i + 1);
        lemma_reachable_step(g, (i, y), (i + 1, y));
        lemma_reachable_trans(g, (i, y), (i + 1, y), (span_hi(xa, xb), y));
        lemma_reachable_trans(g, (span_hi(xa, xb), y), (i + 1, y), (i, y));
    }
}

/// Any cell of a carved vertical run reaches the run's bottom end, and back.
proof fn lemma_v_walk(g: Grid, ya: int, yb: int, x: int, i: int)
    requires
        v_span_empty(g, ya, yb, x),
        span_lo(ya, yb) <= i <= span_hi(ya, yb),
    ensures
        reachable(g, (x, i), (x, span_hi(ya, yb))),
        reachable(g, (x, span_hi(ya, yb)), (x, i)),
    decreases span_hi(ya, yb) - i,
{
    assert(g.tile_at(x, i) == Tile::empty_spec());
    assert(g.in_bounds(x, i));
    if i == span_hi(ya, yb) {
        lemma_reachable_refl(g, (x, i));
    } else {
        assert(g.tile_at(x, i + 1) == Tile::empty_spec());
        assert(g.in_bounds(x, i + 1));
        lemma_v_walk(g, ya, yb, x, i + 1);
        lemma_reachable_step(g, (x, i), (x, i + 1));
        lemma_reachable_trans(g, (x, i), (x, i + 1), (x, span_hi(ya, yb)));
        lemma_reachable_trans(g, (x, span_hi(ya, yb)), (x, i + 1), (x, i));
    }
}

/// Both ends of a carved horizontal run reach each other.
proof fn lemma_h_span_reachable(g: Grid, xa: int, xb: int, y: int)
    requires
        h_span_empty(g, xa, xb, y),
    ensures
        reachable(g, (xa, y), (xb, y)),
        reachable(g, (xb, y), (xa, y)),
{
    lemma_h_walk(g, xa, xb, y, xa);
    lemma_h_walk(g, xa, xb, y, xb);
    lemma_reachable_trans(g, (xa, y), (span_hi(xa, xb), y), (xb, y));
    lemma_reachable_trans(g, (xb, y), (span_hi(xa, xb), y), (xa, y));
}

/// Both ends of a carved vertical run reach each other.
proof fn lemma_v_span_reachable(g: Grid, ya: int, yb: int, x: int)
    requires
        v_span_empty(g, ya, yb, x),
    ensures
        reachable(g, (x, ya), (x, yb)),
        reachable(g, (x, yb), (x, ya)),
{
    lemma_v_walk(g, ya, yb, x, ya);
    lemma_v_walk(g, ya, yb, x, yb);
    lemma_reachable_trans(g, (x, ya), (x, span_hi(ya, yb)), (x, yb));
    lemma_reachable_trans(g, (x, yb), (x, span_hi(ya, yb)), (x, ya));
}

/// Connectivity law: when an L-shaped corridor of carved floor cells joins
/// `a` and `b` — as the generator guarantees for the centers of each pair of
/// consecutively accepted rooms — the two endpoints are mutually reachable
/// by walking over floor cells.
pub proof fn lemma_corridor_implies_reachable(g: Grid, a: (int, int), b: (int, int))
    requires
        corridor_connected(g, a, b),
    ensures
        reachable(g, a, b),
        reachable(g, b, a),
{
    if h_span_empty(g, a.0, b.0, a.1) && v_span_empty(g, a.1, b.1, b.0) {
        lemma_h_span_reachable(g, a.0, b.0, a.1);
        lemma_v_span_reachable(g, a.1, b.1, b.0);
        lemma_reachable_trans(g, a, (b.0, a.1), b);
        lemma_reachable_trans(g, b, (b.0, a.1), a);
    } else {
        assert(v_span_empty(g, a.1, b.1, a.0) && h_span_empty(g, a.0, b.0, b.1));
        lemma_v_span_reachable(g, a.1, b.1, a.0);
        lemma_h_span_reachable(g, a.0, b.0, b.1);
        lemma_reachable_trans(g, a, (a.0, b.1), b);
        lemma_reachable_trans(g, b, (a.0, b.1), a);
    }
}

/// Connectivity law over a generated level's records: the centers of each
/// pair of consecutively accepted rooms are mutually reachable by walking
/// over floor cells, through the L-shaped corridor carved between them.
pub proof fn lemma_consecutive_centers_reachable(
    g: Grid,
    rooms: Seq<Rect>,
    segs: Seq<Seg>,
    k: int,
)
    requires
        grid_matches(g, rooms, segs),
        corridors_ok(rooms, segs),
        rooms_ok(rooms, g.spec_width(), g.spec_height()),
        1 <= k < rooms.len(),
    ensures
        reachable(g, rooms[k - 1].center_spec(), rooms[k].center_spec()),
        reachable(g, rooms[k].center_spec(), rooms[k - 1].center_spec()),
{
    lemma_corridor_carved(g, rooms, segs, k);
    lemma_corridor_implies_reachable(g, rooms[k - 1].center_spec(), rooms[k].center_spec());
}

} // verus!
