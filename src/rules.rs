//! The meaning of each action, as functions from the grid and the arena before
//! it to the grid and the arena after it.
use vstd::prelude::*;
use crate::hex::{dir_dx, dir_dy, rotated};
use crate::world::{Actor, Tile, cell};

verus! {

/// One of the six hex directions, taken relative to an actor's facing in
/// sixths of a full turn clockwise (`Ahead` is no turn, `Around` half a
/// turn), or one of the two markers for moving along the facing.
#[derive(Clone, Copy, Debug, PartialEq, Eq, Structural)]
pub enum Direction {
    Ahead,
    Right,
    RightBack,
    Around,
    LeftBack,
    Left,
    Forward,
    Backward,
}

impl Direction {
    pub open spec fn spec_turns(self) -> int {
        match self {
            Direction::Ahead => 0,
            Direction::Right => 1,
            Direction::RightBack => 2,
            Direction::Around => 3,
            Direction::LeftBack => 4,
            Direction::Left => 5,
            Direction::Forward => 0,
            Direction::Backward => 3,
        }
    }

    /// Number of sixths of a turn clockwise this direction stands for.
    pub fn turns(&self) -> (r: u8)
        ensures
            r as int == self.spec_turns(),
            r < 6,
    {
        match self {
            Direction::Ahead => 0,
            Direction::Right => 1,
            Direction::RightBack => 2,
            Direction::Around => 3,
            Direction::LeftBack => 4,
            Direction::Left => 5,
            Direction::Forward => 0,
            Direction::Backward => 3,
        }
    }

    /// `Forward` and `Backward` are markers for moving along the facing;
    /// they name no rotation.
    pub open spec fn is_relative_marker(self) -> bool {
        self == Direction::Forward || self == Direction::Backward
    }
}

/// What an actor does with its turn.
#[derive(Clone, Copy, Debug, PartialEq, Eq, Structural)]
pub enum Action {
    Run(Direction),
    Move(Direction),
    Turn(Direction),
    Melee(Direction),
    Use,
    Wait,
}

impl Action {
    /// A turn by a relative marker is a caller's error, never a move.
    pub open spec fn spec_is_legal(self) -> bool {
        match self {
            Action::Turn(d) => !d.is_relative_marker(),
            _ => true,
        }
    }

    /// Whether the action may be performed at all.
    pub fn is_legal(&self) -> (r: bool)
        ensures
            r == self.spec_is_legal(),
    {
        match self {
            Action::Turn(Direction::Forward) | Action::Turn(Direction::Backward) => false,
            _ => true,
        }
    }
}

/// The cell one step from `(x, y)` towards direction `d`, wrapped onto a
/// `w` by `h` grid.
pub open spec fn neighbor(w: int, h: int, x: int, y: int, d: int) -> (int, int) {
    ((x + dir_dx(d)) % w, (y + dir_dy(d)) % h)
}

/// The cell in front of `a` after turning by `turn` from its facing.
pub open spec fn ahead(w: int, h: int, a: Actor, turn: int) -> (int, int) {
    neighbor(w, h, a.x as int, a.y as int, rotated(a.facing as int, turn))
}

/// The actor with its current position remembered as the previous one.
pub open spec fn with_prev(a: Actor) -> Actor {
    Actor { prev_x: a.x, prev_y: a.y, prev_facing: a.facing, ..a }
}

/// Health left after a blow of `power`.
pub open spec fn strike(health: u32, power: u32) -> u32 {
    if health > power {
        (health - power) as u32
    } else {
        0
    }
}

/// A tile that cannot be entered.
pub open spec fn tile_blocked(t: Tile) -> bool {
    !t.terrain.spec_passable() || t.occupant is Some
}

/// Actor `id` tries to go to `(x, y)` facing `f`: on its own cell it only
/// turns; into a blocked tile nothing happens; otherwise the actor leaves its
/// tile for the new one.
pub open spec fn moved(
    tiles: Seq<Tile>,
    actors: Seq<Actor>,
    w: int,
    id: usize,
    x: usize,
    y: usize,
    f: u8,
) -> (Seq<Tile>, Seq<Actor>) {
    let a = actors[id as int];
    let src = cell(w, a.x as int, a.y as int);
    let dst = cell(w, x as int, y as int);
    if x == a.x && y == a.y {
        (tiles, actors.update(id as int, Actor { facing: f, ..a }))
    } else if tile_blocked(tiles[dst]) {
        (tiles, actors)
    } else {
        (
            tiles.update(src, Tile { occupant: None, ..tiles[src] }).update(
                dst,
                Tile { occupant: Some(id), ..tiles[dst] },
            ),
            actors.update(id as int, Actor { x, y, facing: f, ..a }),
        )
    }
}

/// Actor `id` strikes whoever stands at `(x, y)`. The target loses the
/// attacker's power in health; if it survives it strikes back, else its tile
/// lets it go. An empty cell, or the attacker's own, is struck in vain.
pub open spec fn melee(
    tiles: Seq<Tile>,
    actors: Seq<Actor>,
    w: int,
    id: usize,
    x: usize,
    y: usize,
) -> (Seq<Tile>, Seq<Actor>) {
    let c = cell(w, x as int, y as int);
    let occ = tiles[c].occupant;
    if occ is Some && occ->0 != id {
        let t = occ->0;
        let att = actors[id as int];
        let tg = actors[t as int];
        let th = strike(tg.health, att.race.spec_power());
        let ah = if th > 0 {
            strike(att.health, tg.race.spec_power())
        } else {
            att.health
        };
        if th > 0 {
            (
                tiles,
                actors.update(t as int, Actor { health: th, ..tg }).update(
                    id as int,
                    Actor { health: ah, ..att },
                ),
            )
        } else {
            (
                tiles.update(c, Tile { occupant: None, ..tiles[c] }),
                actors.update(t as int, Actor { health: th, present: false, ..tg }).update(
                    id as int,
                    Actor { health: ah, ..att },
                ),
            )
        }
    } else {
        (tiles, actors)
    }
}

/// The grid and the arena after actor `id` performs `action` on a `w` by `h`
/// grid.
pub open spec fn acted(
    tiles: Seq<Tile>,
    actors: Seq<Actor>,
    w: int,
    h: int,
    id: usize,
    action: Action,
) -> (Seq<Tile>, Seq<Actor>) {
    let a = with_prev(actors[id as int]);
    let acts = actors.update(id as int, a);
    match action {
        Action::Move(d) => {
            let p = ahead(w, h, a, d.spec_turns());
            moved(tiles, acts, w, id, p.0 as usize, p.1 as usize, a.facing)
        },
        Action::Run(d) => {
            let p = ahead(w, h, a, d.spec_turns());
            moved(tiles, acts, w, id, p.0 as usize, p.1 as usize, a.facing)
        },
        Action::Turn(d) => moved(
            tiles,
            acts,
            w,
            id,
            a.x,
            a.y,
            rotated(a.facing as int, d.spec_turns()) as u8,
        ),
        Action::Melee(d) => {
            let p = ahead(w, h, a, d.spec_turns());
            melee(tiles, acts, w, id, p.0 as usize, p.1 as usize)
        },
        Action::Use => (tiles, acts),
        Action::Wait => (tiles, acts),
    }
}

/// Id `id` names an actor of the arena that a tile owns and that has health.
pub open spec fn alive_in(actors: Seq<Actor>, id: usize) -> bool {
    id < actors.len() && actors[id as int].present && actors[id as int].spec_is_alive()
}

/// The ids of `reg`, in order, that still name a living placed actor.
pub open spec fn live_ids(actors: Seq<Actor>, reg: Seq<usize>) -> Seq<usize>
    decreases reg.len(),
{
    if reg.len() == 0 {
        Seq::empty()
    } else {
        let rest = live_ids(actors, reg.drop_last());
        if alive_in(actors, reg.last()) {
            rest.push(reg.last())
        } else {
            rest
        }
    }
}

/// How many ids of `reg` no longer name a living placed actor.
pub open spec fn dead_count(actors: Seq<Actor>, reg: Seq<usize>) -> nat
    decreases reg.len(),
{
    if reg.len() == 0 {
        0
    } else {
        dead_count(actors, reg.drop_last()) + if alive_in(actors, reg.last()) {
            0nat
        } else {
            1nat
        }
    }
}

} // verus!
