//! Positioned, drawable actors and the grid-aware movement rule.

use vstd::prelude::*;
use crate::grid::Grid;

verus! {

/// An RGB color for drawing. The display adapter converts it to whatever
/// color type its rendering library uses; the core never interprets it.
#[derive(Clone, Copy, Debug, PartialEq, Eq, Structural)]
pub struct Color {
    pub r: u8,
    pub g: u8,
    pub b: u8,
}

/// A generic positioned object: player, monster, item. Always represented by
/// one character on the screen.
#[derive(Debug)]
pub struct Object {
    pub x: i32,
    pub y: i32,
    pub glyph: char,
    pub color: Color,
}

/// A discrete intent, translated by the input adapter from raw key events.
/// The core consumes directional intents and the exit intent; everything
/// else the adapter handles itself.
#[derive(Clone, Copy, Debug, PartialEq, Eq, Structural)]
pub enum Intent {
    Up,
    Down,
    Left,
    Right,
    Exit,
    Wait,
}

/// The cell offset a movement intent asks for; control intents move nothing.
pub open spec fn intent_delta(intent: Intent) -> (int, int) {
    match intent {
        Intent::Up => (0, -1),
        Intent::Down => (0, 1),
        Intent::Left => (-1, 0),
        Intent::Right => (1, 0),
        Intent::Exit => (0, 0),
        Intent::Wait => (0, 0),
    }
}

/// Whether the intent asks for a move at all.
pub open spec fn is_move(intent: Intent) -> bool {
    intent != Intent::Exit && intent != Intent::Wait
}

impl Object {
    pub fn new(x: i32, y: i32, glyph: char, color: Color) -> (o: Object)
        ensures
            o == (Object { x, y, glyph, color }),
    {
        Object { x, y, glyph, color }
    }

    /// Atomic, all-or-nothing movement: compute the target cell and commit
    /// it only if the grid does not block it; otherwise a silent no-op that
    /// leaves the position unchanged. Callers keep the target on the grid:
    /// an out-of-bounds target is a programming error, not a recoverable
    /// case.
    pub fn move_by(&mut self, dx: i32, dy: i32, grid: &Grid)
        requires
            grid.wf(),
            grid.in_bounds(old(self).x + dx, old(self).y + dy),
        ensures
            final(self).glyph == old(self).glyph,
            final(self).color == old(self).color,
            !grid.tile_at(old(self).x + dx, old(self).y + dy).blocked ==> final(self).x == old(
                self,
            ).x + dx && final(self).y == old(self).y + dy,
            grid.tile_at(old(self).x + dx, old(self).y + dy).blocked ==> final(self).x == old(
                self,
            ).x && final(self).y == old(self).y,
    {
        proof {
            grid.lemma_dims_fit();
        }
        let tx = self.x + dx;
        let ty = self.y + dy;
        if !grid.is_blocked(tx, ty) {
            self.x = tx;
            self.y = ty;
        }
    }
}

/// One turn of the game rule: apply a translated input intent to the player.
/// Movement intents go through the guarded `move_by`; the exit intent asks
/// the owning run loop to stop; anything else is a no-op.
pub fn apply_intent(player: &mut Object, intent: Intent, grid: &Grid) -> (exit: bool)
    requires
        grid.wf(),
        is_move(intent) ==> grid.in_bounds(
            old(player).x + intent_delta(intent).0,
            old(player).y + intent_delta(intent).1,
        ),
    ensures
        exit == (intent == Intent::Exit),
        final(player).glyph == old(player).glyph,
        final(player).color == old(player).color,
        !is_move(intent) ==> final(player).x == old(player).x && final(player).y == old(player).y,
        is_move(intent) ==> {
            let tx = old(player).x + intent_delta(intent).0;
            let ty = old(player).y + intent_delta(intent).1;
            if grid.tile_at(tx, ty).blocked {
                final(player).x == old(player).x && final(player).y == old(player).y
            } else {
                final(player).x == tx && final(player).y == ty
            }
        },
{
    match intent {
        Intent::Up => {
            player.move_by(0, -1, grid);
            false
        },
        Intent::Down => {
            player.move_by(0, 1, grid);
            false
        },
        Intent::Left => {
            player.move_by(-1, 0, grid);
            false
        },
        Intent::Right => {
            player.move_by(1, 0, grid);
            false
        },
        Intent::Exit => true,
        Intent::Wait => false,
    }
}

} // verus!
