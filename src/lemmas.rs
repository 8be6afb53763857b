//! Properties of the world, proved over the invariant and the action model.
use vstd::prelude::*;
use crate::hex::rotated;
use crate::rules::{Action, Direction, acted, ahead, alive_in, dead_count, live_ids, melee, strike, tile_blocked, with_prev};
use crate::world::{GameState, Tile, cell, lemma_cell_bounds, lemma_cell_injective};

verus! {

/// Every occupied tile of a well-formed world holds an actor whose recorded
/// position is that tile's own.
pub proof fn lemma_occupant_stands_on_its_tile(g: GameState, x: int, y: int)
    requires
        g.wf(),
        0 <= x < g.width,
        0 <= y < g.height,
        g.tile_at(x, y).occupant is Some,
    ensures
        ({
            let a = g.tile_at(x, y).occupant->0;
            &&& g.resolves(a)
            &&& g.actors@[a as int].x == x
            &&& g.actors@[a as int].y == y
        }),
{
    lemma_cell_bounds(g.width as int, g.height as int, x, y);
    let i = g.idx(x, y);
    assert(g.occupant_of(i) == g.tile_at(x, y).occupant);
    let a = g.tile_at(x, y).occupant->0;
    lemma_cell_injective(g.width as int, g.actors@[a as int].x as int, g.actors@[a as int].y as int, x, y);
}

/// In a well-formed world no actor is the occupant of two tiles: two tiles
/// with the same occupant are one tile.
pub proof fn lemma_one_tile_per_actor(g: GameState, x1: int, y1: int, x2: int, y2: int)
    requires
        g.wf(),
        0 <= x1 < g.width,
        0 <= y1 < g.height,
        0 <= x2 < g.width,
        0 <= y2 < g.height,
        g.tile_at(x1, y1).occupant is Some,
        g.tile_at(x1, y1).occupant == g.tile_at(x2, y2).occupant,
    ensures
        x1 == x2 && y1 == y2,
{
    lemma_occupant_stands_on_its_tile(g, x1, y1);
    lemma_occupant_stands_on_its_tile(g, x2, y2);
}

/// A placed actor of a well-formed world is the occupant of exactly one
/// tile: the one at its recorded position.
pub proof fn lemma_placed_actor_owns_exactly_its_tile(g: GameState, id: usize, x: int, y: int)
    requires
        g.wf(),
        g.resolves(id),
        0 <= x < g.width,
        0 <= y < g.height,
    ensures
        g.tile_at(x, y).occupant == Some(id) <==> (x == g.actors@[id as int].x && y
            == g.actors@[id as int].y),
{
    let a = g.actors@[id as int];
    assert(a.facing < 6);
    if g.tile_at(x, y).occupant == Some(id) {
        lemma_occupant_stands_on_its_tile(g, x, y);
    }
}

/// A blow that leaves the target without health clears the target's tile at
/// once and takes the target off the grid; the attacker stays where it was
/// and every other tile is unchanged.
pub proof fn lemma_lethal_melee_clears_tile(g: GameState, id: usize, x: usize, y: usize)
    requires
        g.wf(),
        g.resolves(id),
        x < g.width,
        y < g.height,
        g.tile_at(x as int, y as int).occupant is Some,
        g.tile_at(x as int, y as int).occupant->0 != id,
        strike(
            g.actors@[g.tile_at(x as int, y as int).occupant->0 as int].health,
            g.actors@[id as int].race.spec_power(),
        ) == 0,
    ensures
        ({
            let t = g.tile_at(x as int, y as int).occupant->0;
            let c = cell(g.width as int, x as int, y as int);
            let r = melee(g.tiles@, g.actors@, g.width as int, id, x, y);
            &&& r.0 == g.tiles@.update(c, Tile { occupant: None, ..g.tiles@[c] })
            &&& !r.1[t as int].present
            &&& r.1[id as int].x == g.actors@[id as int].x
            &&& r.1[id as int].y == g.actors@[id as int].y
            &&& r.1[id as int].present
        }),
{
    lemma_cell_bounds(g.width as int, g.height as int, x as int, y as int);
    let c = cell(g.width as int, x as int, y as int);
    assert(g.occupant_of(c) == g.tile_at(x as int, y as int).occupant);
}

/// A move or a run towards an impassable or occupied tile leaves the grid
/// as it was, and every actor where it stood, facing as it faced, with its
/// health and its place; only the mover's previous position is refreshed,
/// to the position it still holds.
pub proof fn lemma_blocked_move_changes_nothing(g: GameState, id: usize, action: Action)
    requires
        g.wf(),
        g.resolves(id),
        action matches Action::Move(_) || action matches Action::Run(_),
        ({
            let d = match action {
                Action::Move(d) => d,
                Action::Run(d) => d,
                _ => Direction::Ahead,
            };
            let p = ahead(g.width as int, g.height as int, g.actors@[id as int], d.spec_turns());
            tile_blocked(g.tile_at(p.0, p.1))
        }),
    ensures
        ({
            let r = acted(g.tiles@, g.actors@, g.width as int, g.height as int, id, action);
            &&& r.0 == g.tiles@
            &&& r.1 == g.actors@.update(id as int, with_prev(g.actors@[id as int]))
            &&& r.1[id as int].x == g.actors@[id as int].x
            &&& r.1[id as int].y == g.actors@[id as int].y
            &&& r.1[id as int].facing == g.actors@[id as int].facing
            &&& r.1[id as int].health == g.actors@[id as int].health
            &&& r.1[id as int].present == g.actors@[id as int].present
        }),
{
}

/// A turn in place always takes effect: the grid stays as it was, the actor
/// keeps its cell, and only its facing changes, to the old facing rotated by
/// the direction.
pub proof fn lemma_turn_only_rotates(g: GameState, id: usize, d: Direction)
    requires
        g.wf(),
        g.resolves(id),
        Action::Turn(d).spec_is_legal(),
    ensures
        ({
            let a = g.actors@[id as int];
            let r = acted(g.tiles@, g.actors@, g.width as int, g.height as int, id, Action::Turn(d));
            &&& r.0 == g.tiles@
            &&& r.1.len() == g.actors@.len()
            &&& r.1[id as int].x == a.x
            &&& r.1[id as int].y == a.y
            &&& r.1[id as int].present == a.present
            &&& r.1[id as int].health == a.health
            &&& r.1[id as int].facing as int == rotated(a.facing as int, d.spec_turns())
            &&& forall|b: int| 0 <= b < g.actors@.len() && b != id ==> #[trigger] r.1[b] == g.actors@[b]
        }),
{
    let a = g.actors@[id as int];
    assert(a.facing < 6);
}

/// Pruning a registry keeps exactly the ids that name a living placed
/// actor: as many ids are dropped as name the dead or the removed, and each
/// id kept names a living placed actor.
pub proof fn lemma_prune_count(actors: Seq<crate::world::Actor>, reg: Seq<usize>)
    ensures
        live_ids(actors, reg).len() + dead_count(actors, reg) == reg.len(),
        forall|k: int|
            0 <= k < live_ids(actors, reg).len() ==> alive_in(
                actors,
                #[trigger] live_ids(actors, reg)[k],
            ),
    decreases reg.len(),
{
    crate::sim::lemma_live_ids_in(actors, reg);
    if reg.len() > 0 {
        lemma_prune_count(actors, reg.drop_last());
    }
}

} // verus!
