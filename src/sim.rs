//! The rules of the world: spawning, movement, action resolution, the
//! per-tick advance and world generation.
use vstd::prelude::*;
use crate::hex::{rotate, step, wrap_coord};
use crate::rules::{Action, acted, alive_in, live_ids, ahead, melee, moved, strike, with_prev};
use crate::world::{Actor, GameState, Tile, lemma_cell_bounds, lemma_cell_injective, lemma_wf_same_places};

verus! {

/// The arena after the actor that `occupant` names, if any, lost its tile.
pub open spec fn unplace(actors: Seq<Actor>, occupant: Option<usize>) -> Seq<Actor> {
    match occupant {
        Some(d) => actors.update(d as int, actors[d as int].removed()),
        None => actors,
    }
}

/// The decision logic of the actors, which the world consults during a tick.
pub trait Brain {
    /// Whether actor `id` wants its line of sight recomputed before it decides.
    fn needs_los(&self, game: &GameState, id: usize) -> bool;

    /// Recomputes what actor `id` sees of the grid.
    fn update_los(&mut self, game: &GameState, id: usize);

    /// The action actor `id` takes this tick, or `None` while it waits.
    fn decide(&mut self, game: &GameState, id: usize) -> Option<Action>;

    /// Tells actor `id` that its action was carried out.
    fn action_done(&mut self, id: usize);
}

/// A brain together with the record of what the world asked of it: the ids
/// whose sight was refreshed, the ids asked to decide and the ids told that
/// their action was done, each in call order.
pub struct Traced<B> {
    pub brain: B,
    pub los: Vec<usize>,
    pub decided: Vec<usize>,
    pub done: Vec<usize>,
}

impl<B: Brain> Traced<B> {
    /// The brain with empty records.
    pub fn new(brain: B) -> (r: Traced<B>)
        ensures
            r.los_log().len() == 0,
            r.decide_log().len() == 0,
            r.done_log().len() == 0,
    {
        Traced { brain, los: Vec::new(), decided: Vec::new(), done: Vec::new() }
    }

    pub open spec fn los_log(&self) -> Seq<usize> {
        self.los@
    }

    pub open spec fn decide_log(&self) -> Seq<usize> {
        self.decided@
    }

    pub open spec fn done_log(&self) -> Seq<usize> {
        self.done@
    }

    /// Whether actor `id` wants its line of sight recomputed.
    pub fn needs_los(&self, game: &GameState, id: usize) -> bool {
        self.brain.needs_los(game, id)
    }

    /// Recomputes what actor `id` sees, and records it.
    pub fn update_los(&mut self, game: &GameState, id: usize)
        ensures
            final(self).los_log() == old(self).los_log().push(id),
            final(self).decide_log() == old(self).decide_log(),
            final(self).done_log() == old(self).done_log(),
    {
        self.los.push(id);
        self.brain.update_los(game, id);
    }

    /// Asks actor `id` for its action, and records it.
    pub fn decide(&mut self, game: &GameState, id: usize) -> (r: Option<Action>)
        ensures
            final(self).los_log() == old(self).los_log(),
            final(self).decide_log() == old(self).decide_log().push(id),
            final(self).done_log() == old(self).done_log(),
    {
        self.decided.push(id);
        self.brain.decide(game, id)
    }

    /// Tells actor `id` that its action was done, and records it.
    pub fn action_done(&mut self, id: usize)
        ensures
            final(self).los_log() == old(self).los_log(),
            final(self).decide_log() == old(self).decide_log(),
            final(self).done_log() == old(self).done_log().push(id),
    {
        self.done.push(id);
        self.brain.action_done(id);
    }
}

/// `positions` are strictly increasing positions of `reg`, and `log` lists
/// the ids at those positions.
pub open spec fn picks(reg: Seq<usize>, positions: Seq<int>, log: Seq<usize>) -> bool {
    &&& log.len() == positions.len()
    &&& forall|j: int|
        0 <= j < positions.len() ==> {
            &&& 0 <= #[trigger] positions[j] < reg.len()
            &&& log[j] == reg[positions[j]]
        }
    &&& forall|i: int, j: int| 0 <= i < j < positions.len() ==> positions[i] < positions[j]
}

/// Health left after a blow of `power`.
pub fn strike_health(health: u32, power: u32) -> (r: u32)
    ensures
        r == strike(health, power),
{
    if health > power {
        health - power
    } else {
        0
    }
}

impl GameState {
    /// The cell in front of `a` after turning by `turn` sixths from its facing.
    pub fn ahead_of(&self, a: Actor, turn: u8) -> (r: (usize, usize))
        requires
            self.wf(),
            a.x < self.width,
            a.y < self.height,
            a.facing < 6,
            turn < 6,
        ensures
            r.0 < self.width,
            r.1 < self.height,
            (r.0 as int, r.1 as int) == ahead(self.width as int, self.height as int, a, turn as int),
    {
        let d = rotate(a.facing, turn);
        let p = step(a.x as i32, a.y as i32, d);
        (wrap_coord(p.0, self.width), wrap_coord(p.1, self.height))
    }

    /// Actor `id` strikes whoever stands at `(x, y)`; a target left without
    /// health loses its tile at once.
    fn melee_at(&mut self, id: usize, x: usize, y: usize)
        requires
            old(self).wf(),
            old(self).resolves(id),
            x < old(self).width,
            y < old(self).height,
        ensures
            final(self).only_weakens(*old(self)),
            final(self).wf(),
            final(self).width == old(self).width,
            final(self).height == old(self).height,
            final(self).registry@ == old(self).registry@,
            final(self).player == old(self).player,
            final(self).actors@.len() == old(self).actors@.len(),
            (final(self).tiles@, final(self).actors@) == melee(
                old(self).tiles@,
                old(self).actors@,
                old(self).width as int,
                id,
                x,
                y,
            ),
    {
        let i = self.index_of(x, y);
        let tile = self.tiles[i];
        proof {
            assert(self.occupant_of(i as int) == tile.occupant);
        }
        match tile.occupant {
            Some(t) => {
                if t != id {
                    let att = self.actors[id];
                    let tg = self.actors[t];
                    let th = strike_health(tg.health, att.race.power());
                    let ah = if th > 0 {
                        strike_health(att.health, tg.race.power())
                    } else {
                        att.health
                    };
                    let mut tg2 = tg;
                    tg2.health = th;
                    let mut att2 = att;
                    att2.health = ah;
                    if th == 0 {
                        tg2.present = false;
                        self.tiles.set(i, Tile { terrain: tile.terrain, occupant: None });
                    }
                    self.actors.set(t, tg2);
                    self.actors.set(id, att2);
                    proof {
                        let o = old(self);
                        assert forall|j: int|
                            #![trigger self.occupant_of(j)]
                            0 <= j < self.tiles@.len() && self.occupant_of(j) is Some implies {
                                let c = self.occupant_of(j)->0;
                                &&& c < self.actors@.len()
                                &&& self.actors@[c as int].present
                                &&& self.idx(self.actors@[c as int].x as int, self.actors@[c as int].y as int)
                                    == j
                            } by {
                            assert(o.occupant_of(j) == self.occupant_of(j));
                        }
                        assert forall|c: int|
                            #![trigger self.actors@[c]]
                            0 <= c < self.actors@.len() implies {
                                &&& self.actors@[c].facing < 6
                                &&& self.actors@[c].present ==> {
                                    &&& self.actors@[c].x < self.width
                                    &&& self.actors@[c].y < self.height
                                    &&& self.tile_at(self.actors@[c].x as int, self.actors@[c].y as int).occupant
                                        == Some(c as usize)
                                }
                            } by {
                            assert(o.actors@[c].facing < 6);
                            if self.actors@[c].present {
                                let oc = o.actors@[c];
                                lemma_cell_bounds(o.width as int, o.height as int, oc.x as int, oc.y as int);
                                let k = o.idx(oc.x as int, oc.y as int);
                                assert(o.tiles@[k].occupant == Some(c as usize));
                                if k == i as int {
                                    assert(c == t as int);
                                }
                            }
                        }
                        assert forall|k: int|
                            #![trigger self.registry@[k]]
                            0 <= k < self.registry@.len() implies self.registry@[k] < self.actors@.len() by {
                            assert(o.registry@[k] < o.actors@.len());
                        }
                    }
                }
            },
            None => {},
        }
    }

    /// Actor `id` performs `action`: its position is first remembered as the
    /// previous one; a move or a run steps towards the facing turned by the
    /// direction, keeping the facing; a turn rotates the facing in place; a
    /// melee strikes the cell in front turned by the direction; use and wait
    /// change nothing more.
    pub fn perform_action(&mut self, id: usize, action: Action)
        requires
            old(self).wf(),
            old(self).resolves(id),
            action.spec_is_legal(),
        ensures
            final(self).only_weakens(*old(self)),
            final(self).wf(),
            final(self).width == old(self).width,
            final(self).height == old(self).height,
            final(self).registry@ == old(self).registry@,
            final(self).player == old(self).player,
            final(self).actors@.len() == old(self).actors@.len(),
            (final(self).tiles@, final(self).actors@) == acted(
                old(self).tiles@,
                old(self).actors@,
                old(self).width as int,
                old(self).height as int,
                id,
                action,
            ),
    {
        let a0 = self.actors[id];
        let mut a = a0;
        a.prev_x = a0.x;
        a.prev_y = a0.y;
        a.prev_facing = a0.facing;
        self.actors.set(id, a);
        proof {
            assert(a == with_prev(old(self).actors@[id as int]));
            assert(old(self).actors@[id as int].facing < 6);
            assert forall|c: int|
                0 <= c < self.actors@.len() implies {
                    &&& #[trigger] self.actors@[c].x == old(self).actors@[c].x
                    &&& self.actors@[c].y == old(self).actors@[c].y
                    &&& self.actors@[c].present == old(self).actors@[c].present
                    &&& self.actors@[c].facing < 6
                } by {
                assert(old(self).actors@[c].facing < 6);
            }
            lemma_wf_same_places(*old(self), *self);
        }
        match action {
            Action::Move(d) => {
                let p = self.ahead_of(a, d.turns());
                self.move_creature_if_possible(id, p.0, p.1, a.facing);
            },
            Action::Run(d) => {
                let p = self.ahead_of(a, d.turns());
                self.move_creature_if_possible(id, p.0, p.1, a.facing);
            },
            Action::Turn(d) => {
                let f = rotate(a.facing, d.turns());
                self.move_creature_if_possible(id, a.x, a.y, f);
            },
            Action::Melee(d) => {
                let p = self.ahead_of(a, d.turns());
                self.melee_at(id, p.0, p.1);
            },
            Action::Use => {},
            Action::Wait => {},
        }
    }

    /// Places `actor` on the tile at its position when that tile's terrain is
    /// passable: the tile owns it, its id is appended to the registry and
    /// returned. An actor the tile held before loses its place. On impassable
    /// terrain nothing changes and the result is `None`.
    pub fn spawn(&mut self, actor: Actor) -> (r: Option<usize>)
        requires
            old(self).wf(),
            actor.x < old(self).width,
            actor.y < old(self).height,
            actor.facing < 6,
            old(self).actors@.len() < usize::MAX,
        ensures
            final(self).wf(),
            !old(self).tile_at(actor.x as int, actor.y as int).terrain.spec_passable() ==> {
                &&& r is None
                &&& *final(self) == *old(self)
            },
            old(self).tile_at(actor.x as int, actor.y as int).terrain.spec_passable() ==> {
                let t = old(self).tile_at(actor.x as int, actor.y as int);
                let id = old(self).actors@.len() as usize;
                &&& r == Some(id)
                &&& final(self).actors@.len() == old(self).actors@.len() + 1
                &&& final(self).width == old(self).width
                &&& final(self).height == old(self).height
                &&& final(self).tiles@ == old(self).tiles@.update(
                    old(self).idx(actor.x as int, actor.y as int),
                    Tile { terrain: t.terrain, occupant: Some(id) },
                )
                &&& final(self).actors@ == unplace(old(self).actors@, t.occupant).push(
                    actor.placed(),
                )
                &&& final(self).registry@ == old(self).registry@.push(id)
                &&& final(self).player == old(self).player
                &&& final(self).rng == old(self).rng
            },
    {
        let i = self.index_of(actor.x, actor.y);
        let t = self.tiles[i];
        proof {
            assert(self.occupant_of(i as int) == t.occupant);
        }
        if !t.terrain.is_passable() {
            return None;
        }
        let id = self.actors.len();
        match t.occupant {
            Some(d) => {
                let mut a = self.actors[d];
                a.present = false;
                self.actors.set(d, a);
            },
            None => {},
        }
        let mut a = actor;
        a.present = true;
        self.actors.push(a);
        self.tiles.set(i, Tile { terrain: t.terrain, occupant: Some(id) });
        self.registry.push(id);
        proof {
            let o = old(self);
            assert forall|j: int|
                #![trigger self.occupant_of(j)]
                0 <= j < self.tiles@.len() && self.occupant_of(j) is Some implies {
                    let b = self.occupant_of(j)->0;
                    &&& b < self.actors@.len()
                    &&& self.actors@[b as int].present
                    &&& self.idx(self.actors@[b as int].x as int, self.actors@[b as int].y as int)
                        == j
                } by {
                if j != i {
                    assert(o.tiles@[j] == self.tiles@[j]);
                    assert(o.occupant_of(j) == self.occupant_of(j));
                }
            }
            assert forall|b: int|
                #![trigger self.actors@[b]]
                0 <= b < self.actors@.len() implies {
                    &&& self.actors@[b].facing < 6
                    &&& self.actors@[b].present ==> {
                        &&& self.actors@[b].x < self.width
                        &&& self.actors@[b].y < self.height
                        &&& self.tile_at(self.actors@[b].x as int, self.actors@[b].y as int).occupant
                            == Some(b as usize)
                    }
                } by {
                if b < o.actors@.len() {
                    assert(o.actors@[b].facing < 6);
                    if self.actors@[b].present {
                        assert(o.actors@[b].present);
                        let ob = o.actors@[b];
                        lemma_cell_bounds(o.width as int, o.height as int, ob.x as int, ob.y as int);
                    }
                }
            }
            assert forall|k: int|
                #![trigger self.registry@[k]]
                0 <= k < self.registry@.len() implies self.registry@[k] < self.actors@.len() by {
                if k < o.registry@.len() {
                    assert(o.registry@[k] < o.actors@.len());
                }
            }
        }
        Some(id)
    }

    /// Moves actor `id` to `(x, y)`, facing `facing`. Staying on its own cell
    /// only turns it. Otherwise an impassable or occupied destination blocks the
    /// move and nothing changes; a free one takes the actor over from its old
    /// tile.
    pub fn move_creature_if_possible(&mut self, id: usize, x: usize, y: usize, facing: u8)
        requires
            old(self).wf(),
            old(self).resolves(id),
            x < old(self).width,
            y < old(self).height,
            facing < 6,
        ensures
            final(self).only_weakens(*old(self)),
            final(self).wf(),
            final(self).width == old(self).width,
            final(self).height == old(self).height,
            final(self).registry@ == old(self).registry@,
            final(self).player == old(self).player,
            final(self).actors@.len() == old(self).actors@.len(),
            (final(self).tiles@, final(self).actors@) == moved(
                old(self).tiles@,
                old(self).actors@,
                old(self).width as int,
                id,
                x,
                y,
                facing,
            ),
    {
        let a = self.actors[id];
        proof {
            assert(old(self).actors@[id as int] == a);
        }
        if x == a.x && y == a.y {
            let mut b = a;
            b.facing = facing;
            self.actors.set(id, b);
            proof {
                let o = old(self);
                assert forall|j: int|
                    #![trigger self.occupant_of(j)]
                    0 <= j < self.tiles@.len() && self.occupant_of(j) is Some implies {
                        let c = self.occupant_of(j)->0;
                        &&& c < self.actors@.len()
                        &&& self.actors@[c as int].present
                        &&& self.idx(self.actors@[c as int].x as int, self.actors@[c as int].y as int)
                            == j
                    } by {
                    assert(o.tiles@[j] == self.tiles@[j]);
                    assert(o.occupant_of(j) == self.occupant_of(j));
                }
                assert forall|c: int|
                    #![trigger self.actors@[c]]
                    0 <= c < self.actors@.len() implies {
                        &&& self.actors@[c].facing < 6
                        &&& self.actors@[c].present ==> {
                            &&& self.actors@[c].x < self.width
                            &&& self.actors@[c].y < self.height
                            &&& self.tile_at(self.actors@[c].x as int, self.actors@[c].y as int).occupant
                                == Some(c as usize)
                        }
                    } by {
                    assert(o.actors@[c].facing < 6);
                }
            }
            return;
        }
        let dst = self.index_of(x, y);
        let t = self.tiles[dst];
        if !t.terrain.is_passable() {
            return;
        }
        if t.occupant.is_some() {
            return;
        }
        let src = self.index_of(a.x, a.y);
        let s = self.tiles[src];
        proof {
            if src == dst {
                lemma_cell_injective(self.width as int, a.x as int, a.y as int, x as int, y as int);
            }
        }
        self.tiles.set(src, Tile { terrain: s.terrain, occupant: None });
        self.tiles.set(dst, Tile { terrain: t.terrain, occupant: Some(id) });
        let mut b = a;
        b.x = x;
        b.y = y;
        b.facing = facing;
        self.actors.set(id, b);
        proof {
            let o = old(self);
            assert forall|j: int|
                #![trigger self.occupant_of(j)]
                0 <= j < self.tiles@.len() && self.occupant_of(j) is Some implies {
                    let c = self.occupant_of(j)->0;
                    &&& c < self.actors@.len()
                    &&& self.actors@[c as int].present
                    &&& self.idx(self.actors@[c as int].x as int, self.actors@[c as int].y as int)
                        == j
                } by {
                if j != src as int && j != dst as int {
                    assert(o.tiles@[j] == self.tiles@[j]);
                    assert(o.occupant_of(j) == self.occupant_of(j));
                    let c = o.tiles@[j].occupant->0;
                    if c == id {
                        assert(o.tiles@[src as int].occupant == Some(id));
                    }
                }
            }
            assert forall|c: int|
                #![trigger self.actors@[c]]
                0 <= c < self.actors@.len() implies {
                    &&& self.actors@[c].facing < 6
                    &&& self.actors@[c].present ==> {
                        &&& self.actors@[c].x < self.width
                        &&& self.actors@[c].y < self.height
                        &&& self.tile_at(self.actors@[c].x as int, self.actors@[c].y as int).occupant
                            == Some(c as usize)
                    }
                } by {
                assert(o.actors@[c].facing < 6);
                if c == id {
                    assert(self.actors@[c] == b);
                    assert(self.tiles@[dst as int].occupant == Some(id));
                    assert(self.idx(x as int, y as int) == dst);
                }
                if c != id && self.actors@[c].present {
                    let oc = o.actors@[c];
                    lemma_cell_bounds(o.width as int, o.height as int, oc.x as int, oc.y as int);
                    assert(o.tiles@[o.idx(oc.x as int, oc.y as int)].occupant == Some(c as usize));
                    assert(o.actors@[id as int] == a);
                    assert(o.tiles@[src as int].occupant == Some(id));
                    let k = o.idx(oc.x as int, oc.y as int);
                    assert(k != src as int);
                    assert(k != dst as int);
                    assert(self.tiles@[k] == o.tiles@[k]);
                }
            }
        }
    }

    /// Asks the brain to recompute the player's line of sight, when a player
    /// is set and a tile still owns it.
    pub fn update_player_los<B: Brain>(&self, brain: &mut Traced<B>)
        requires
            self.wf(),
        ensures
            final(brain).decide_log() == old(brain).decide_log(),
            final(brain).done_log() == old(brain).done_log(),
            final(brain).los_log() == if self.player is Some && self.resolves(self.player->0) {
                old(brain).los_log().push(self.player->0)
            } else {
                old(brain).los_log()
            },
    {
        match self.player {
            Some(p) => {
                if self.actors[p].present {
                    brain.update_los(self, p);
                }
            },
            None => {},
        }
    }

    /// Drops from the registry every id that no longer names a living placed
    /// actor, keeping the order of the others.
    pub fn prune_registry(&mut self)
        requires
            old(self).wf(),
        ensures
            final(self).wf(),
            final(self).width == old(self).width,
            final(self).height == old(self).height,
            final(self).tiles@ == old(self).tiles@,
            final(self).actors@ == old(self).actors@,
            final(self).player == old(self).player,
            final(self).registry@ == live_ids(old(self).actors@, old(self).registry@),
            final(self).rng == old(self).rng,
    {
        let mut kept: Vec<usize> = Vec::new();
        let mut k: usize = 0;
        let n = self.registry.len();
        while k < n
            invariant
                self.wf(),
                self == old(self),
                n == self.registry@.len(),
                k <= n,
                kept@ == live_ids(self.actors@, self.registry@.subrange(0, k as int)),
            decreases n - k,
        {
            let id = self.registry[k];
            proof {
                let sub = self.registry@.subrange(0, k as int + 1);
                assert(sub.drop_last() == self.registry@.subrange(0, k as int));
                assert(sub.last() == id);
            }
            if self.actors[id].present && self.actors[id].health > 0 {
                kept.push(id);
            }
            k = k + 1;
        }
        proof {
            assert(self.registry@.subrange(0, n as int) == self.registry@);
        }
        self.registry = kept;
        proof {
            lemma_live_ids_in(self.actors@, old(self).registry@);
            let o = old(self);
            assert forall|k: int|
                #![trigger self.registry@[k]]
                0 <= k < self.registry@.len() implies self.registry@[k] < self.actors@.len() by {
                assert(alive_in(self.actors@, self.registry@[k]));
            }
            assert forall|j: int|
                #![trigger self.occupant_of(j)]
                0 <= j < self.tiles@.len() && self.occupant_of(j) is Some implies {
                    let c = self.occupant_of(j)->0;
                    &&& c < self.actors@.len()
                    &&& self.actors@[c as int].present
                    &&& self.idx(self.actors@[c as int].x as int, self.actors@[c as int].y as int)
                        == j
                } by {
                assert(o.occupant_of(j) == self.occupant_of(j));
            }
            assert forall|c: int|
                #![trigger self.actors@[c]]
                0 <= c < self.actors@.len() implies {
                    &&& self.actors@[c].facing < 6
                    &&& self.actors@[c].present ==> {
                        &&& self.actors@[c].x < self.width
                        &&& self.actors@[c].y < self.height
                        &&& self.tile_at(self.actors@[c].x as int, self.actors@[c].y as int).occupant
                            == Some(c as usize)
                    }
                } by {
                assert(o.actors@[c] == self.actors@[c]);
            }
        }
    }

    /// One step of the simulation. The registry as it stands is walked in
    /// order; each id that still names a living placed actor at its turn lets
    /// the brain refresh its sight when it is no player and asks for it, then
    /// decide; a decided action is performed and the brain told so. Then the
    /// registry keeps only the living. A turn by a relative marker is a
    /// caller's error: the step halts there with the actor's id, before the
    /// action and before the registry is pruned.
    pub fn tick<B: Brain>(&mut self, brain: &mut Traced<B>) -> (r: Result<(), usize>)
        requires
            old(self).wf(),
        ensures
            final(self).wf(),
            final(self).width == old(self).width,
            final(self).height == old(self).height,
            final(self).player == old(self).player,
            final(self).only_weakens(*old(self)),
            r is Ok ==> final(self).registry@ == live_ids(final(self).actors@, old(self).registry@),
            r is Err ==> {
                &&& old(self).registry@.contains(r->Err_0)
                &&& final(self).live(r->Err_0)
                &&& final(self).registry@ == old(self).registry@
            },
            (forall|k: int|
                0 <= k < old(self).registry@.len() ==> !old(self).live(
                    #[trigger] old(self).registry@[k],
                )) ==> r is Ok,
            final(brain).decide_log().len() >= old(brain).decide_log().len(),
            final(brain).decide_log().subrange(0, old(brain).decide_log().len() as int)
                == old(brain).decide_log(),
            exists|positions: Seq<int>|
                {
                    &&& #[trigger] picks(
                        old(self).registry@,
                        positions,
                        final(brain).decide_log().subrange(
                            old(brain).decide_log().len() as int,
                            final(brain).decide_log().len() as int,
                        ),
                    )
                    &&& forall|j: int|
                        0 <= j < positions.len() ==> old(self).live(
                            old(self).registry@[#[trigger] positions[j]],
                        )
                    &&& r is Ok ==> forall|k: int|
                        0 <= k < old(self).registry@.len() && final(self).live(
                            #[trigger] old(self).registry@[k],
                        ) ==> positions.contains(k)
                },
            final(brain).done_log().len() >= old(brain).done_log().len(),
            final(brain).done_log().subrange(0, old(brain).done_log().len() as int)
                == old(brain).done_log(),
            forall|j: int|
                old(brain).done_log().len() <= j < final(brain).done_log().len()
                    ==> final(brain).decide_log().subrange(
                    old(brain).decide_log().len() as int,
                    final(brain).decide_log().len() as int,
                ).contains(#[trigger] final(brain).done_log()[j]),
            final(brain).los_log().len() >= old(brain).los_log().len(),
            final(brain).los_log().subrange(0, old(brain).los_log().len() as int)
                == old(brain).los_log(),
            forall|j: int|
                old(brain).los_log().len() <= j < final(brain).los_log().len() ==> {
                    &&& old(self).registry@.contains(#[trigger] final(brain).los_log()[j])
                    &&& !final(self).actors@[final(brain).los_log()[j] as int].is_player
                },
    {
        let snapshot = self.registry.clone();
        proof {
            assert(snapshot@ == old(self).registry@);
        }
        let ghost d0 = brain.decide_log();
        let ghost n0 = brain.done_log();
        let ghost l0 = brain.los_log();
        let ghost mut positions: Seq<int> = Seq::empty();
        let mut k: usize = 0;
        while k < snapshot.len()
            invariant
                self.wf(),
                old(self).wf(),
                self.width == old(self).width,
                self.height == old(self).height,
                self.player == old(self).player,
                self.registry@ == old(self).registry@,
                self.only_weakens(*old(self)),
                snapshot@ == old(self).registry@,
                k <= snapshot@.len(),
                d0 == old(brain).decide_log(),
                n0 == old(brain).done_log(),
                l0 == old(brain).los_log(),
                brain.decide_log() == d0 + positions.map_values(|p: int| snapshot@[p]),
                forall|j: int| 0 <= j < positions.len() ==> 0 <= #[trigger] positions[j] < k,
                forall|i: int, j: int| 0 <= i < j < positions.len() ==> positions[i] < positions[j],
                forall|j: int|
                    0 <= j < positions.len() ==> old(self).live(
                        old(self).registry@[#[trigger] positions[j]],
                    ),
                forall|j: int|
                    0 <= j < k && self.live(#[trigger] old(self).registry@[j]) ==> positions.contains(j),
                brain.done_log().len() >= n0.len(),
                brain.done_log().subrange(0, n0.len() as int) == n0,
                forall|j: int|
                    n0.len() <= j < brain.done_log().len() ==> positions.map_values(
                        |p: int| snapshot@[p],
                    ).contains(#[trigger] brain.done_log()[j]),
                brain.los_log().len() >= l0.len(),
                brain.los_log().subrange(0, l0.len() as int) == l0,
                forall|j: int|
                    l0.len() <= j < brain.los_log().len() ==> {
                        &&& old(self).registry@.contains(#[trigger] brain.los_log()[j])
                        &&& !self.actors@[brain.los_log()[j] as int].is_player
                    },
            decreases snapshot@.len() - k,
        {
            let id = snapshot[k];
            proof {
                assert(self.registry@[k as int] == id);
                assert(old(self).registry@[k as int] == id);
            }
            if self.actors[id].present && self.actors[id].is_alive() {
                proof {
                    assert(self.live(id));
                    assert(old(self).live(id)) by {
                        assert(self.actors@[id as int].present ==> old(self).actors@[id as int].present);
                    }
                }
                if !self.actors[id].is_player && brain.needs_los(&*self, id) {
                    let ghost lb = brain.los_log();
                    brain.update_los(&*self, id);
                    proof {
                        assert(brain.los_log().subrange(0, l0.len() as int) =~= lb.subrange(0, l0.len() as int));
                        assert forall|j: int|
                            l0.len() <= j < brain.los_log().len() implies {
                                &&& old(self).registry@.contains(#[trigger] brain.los_log()[j])
                                &&& !self.actors@[brain.los_log()[j] as int].is_player
                            } by {
                            if j < lb.len() {
                                assert(brain.los_log()[j] == lb[j]);
                            } else {
                                assert(old(self).registry@[k as int] == id);
                            }
                        }
                    }
                }
                let decision = brain.decide(&*self, id);
                proof {
                    let old_pos = positions;
                    positions = positions.push(k as int);
                    assert(positions.map_values(|p: int| snapshot@[p]) =~= old_pos.map_values(
                        |p: int| snapshot@[p],
                    ).push(id));
                    assert(brain.decide_log() =~= d0 + positions.map_values(|p: int| snapshot@[p]));
                    assert forall|j: int|
                        n0.len() <= j < brain.done_log().len() implies positions.map_values(
                            |p: int| snapshot@[p],
                        ).contains(#[trigger] brain.done_log()[j]) by {
                        let e = brain.done_log()[j];
                        let ov = old_pos.map_values(|p: int| snapshot@[p]);
                        let i = choose|i: int| 0 <= i < ov.len() && #[trigger] ov[i] == e;
                        assert(positions.map_values(|p: int| snapshot@[p])[i] == e);
                    }
                    assert forall|j: int|
                        0 <= j < k + 1 && self.live(#[trigger] old(self).registry@[j]) implies positions.contains(j) by {
                        if j < k {
                            assert(old_pos.contains(j));
                            let i = choose|i: int| 0 <= i < old_pos.len() && #[trigger] old_pos[i] == j;
                            assert(positions[i] == j);
                        } else {
                            assert(positions[old_pos.len() as int] == j);
                        }
                    }
                }
                match decision {
                    Some(action) => {
                        if !action.is_legal() {
                            proof {
                                assert(old(self).registry@.contains(id)) by {
                                    assert(old(self).registry@[k as int] == id);
                                }
                                assert(brain.decide_log().subrange(0, d0.len() as int) =~= d0);
                                assert(brain.decide_log().subrange(d0.len() as int, brain.decide_log().len() as int)
                                    =~= positions.map_values(|p: int| snapshot@[p]));
                                assert(picks(old(self).registry@, positions, brain.decide_log().subrange(d0.len() as int, brain.decide_log().len() as int)));
                            }
                            return Err(id);
                        }
                        let ghost before = *self;
                        self.perform_action(id, action);
                        let ghost nb = brain.done_log();
                        brain.action_done(id);
                        proof {
                            assert(brain.done_log().subrange(0, n0.len() as int) =~= nb.subrange(0, n0.len() as int));
                            assert forall|j: int|
                                n0.len() <= j < brain.done_log().len() implies positions.map_values(
                                    |p: int| snapshot@[p],
                                ).contains(#[trigger] brain.done_log()[j]) by {
                                if j < nb.len() {
                                    assert(brain.done_log()[j] == nb[j]);
                                } else {
                                    let m = positions.len() - 1;
                                    assert(positions.map_values(|p: int| snapshot@[p])[m] == id);
                                }
                            }
                            assert forall|i: int|
                                0 <= i < self.tiles@.len() implies (#[trigger] self.tiles@[i]).terrain
                                    == old(self).tiles@[i].terrain by {
                                assert(before.tiles@[i].terrain == old(self).tiles@[i].terrain);
                            }
                            assert forall|a: int| 0 <= a < self.actors@.len() implies {
                                &&& (#[trigger] self.actors@[a]).present ==> old(self).actors@[a].present
                                &&& self.actors@[a].health <= old(self).actors@[a].health
                                &&& self.actors@[a].is_player == old(self).actors@[a].is_player
                                &&& self.actors@[a].race == old(self).actors@[a].race
                            } by {
                                assert(before.actors@[a].present ==> old(self).actors@[a].present);
                            }
                            assert forall|j: int|
                                0 <= j < k + 1 && self.live(#[trigger] old(self).registry@[j]) implies positions.contains(j) by {
                                let e = old(self).registry@[j];
                                assert(self.actors@[e as int].present ==> before.actors@[e as int].present);
                                assert(before.live(e));
                            }
                            assert forall|j: int|
                                l0.len() <= j < brain.los_log().len() implies {
                                    &&& old(self).registry@.contains(#[trigger] brain.los_log()[j])
                                    &&& !self.actors@[brain.los_log()[j] as int].is_player
                                } by {
                                let e = brain.los_log()[j];
                                assert(old(self).registry@.contains(e));
                                let i = choose|i: int| 0 <= i < old(self).registry@.len() && #[trigger] old(self).registry@[i] == e;
                                assert(old(self).registry@[i] < old(self).actors@.len());
                                assert(before.actors@[e as int].is_player == self.actors@[e as int].is_player);
                            }
                        }
                    },
                    None => {},
                }
            }
            k = k + 1;
        }
        proof {
            assert(brain.decide_log().subrange(0, d0.len() as int) =~= d0);
            assert(brain.decide_log().subrange(d0.len() as int, brain.decide_log().len() as int)
                =~= positions.map_values(|p: int| snapshot@[p]));
            assert(picks(old(self).registry@, positions, brain.decide_log().subrange(d0.len() as int, brain.decide_log().len() as int)));
        }
        self.prune_registry();
        Ok(())
    }
}

/// Every id that pruning keeps names a living placed actor.
pub proof fn lemma_live_ids_in(actors: Seq<Actor>, reg: Seq<usize>)
    ensures
        forall|k: int|
            0 <= k < live_ids(actors, reg).len() ==> alive_in(
                actors,
                #[trigger] live_ids(actors, reg)[k],
            ),
    decreases reg.len(),
{
    if reg.len() > 0 {
        let rest = live_ids(actors, reg.drop_last());
        lemma_live_ids_in(actors, reg.drop_last());
        assert forall|k: int| 0 <= k < live_ids(actors, reg).len() implies alive_in(
            actors,
            #[trigger] live_ids(actors, reg)[k],
        ) by {
            if k < rest.len() {
                assert(live_ids(actors, reg)[k] == rest[k]);
            }
        }
    }
}

} // verus!
