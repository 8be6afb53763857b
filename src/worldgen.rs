//! Editing the terrain and generating a world: seeded patches of terrain,
//! walls along the edges and a random population.
use vstd::prelude::*;
use crate::hex::{step, wrap_coord};
use crate::random::below;
use crate::rules::neighbor;
use crate::world::{GameState, Race, Terrain, Tile, Actor, lemma_cell_bounds, lemma_cell_injective, lemma_wf_same_places, lemma_wf_same_grid, lemma_index_cell};

verus! {

/// Random positions tried before a spawn gives up.
pub const SPAWN_ATTEMPTS: u32 = 1000;

/// The tile with its terrain replaced by `t`.
pub open spec fn repainted(tile: Tile, t: Terrain) -> Tile {
    Tile { terrain: t, ..tile }
}

/// `(px, py)` is `(x, y)` or one of its first `n` neighbours on a `w` by `h`
/// grid.
pub open spec fn near(w: int, h: int, x: int, y: int, n: int, px: int, py: int) -> bool
    decreases n,
{
    if n <= 0 {
        px == x && py == y
    } else {
        near(w, h, x, y, n - 1, px, py) || neighbor(w, h, x, y, n - 1) == (px, py)
    }
}

/// The cell lies on one of the four outermost rows or columns.
pub open spec fn on_border(w: int, h: int, x: int, y: int) -> bool {
    x == 0 || x == w - 1 || y == 0 || y == h - 1
}

/// The terrain a seeding roll of `0..6` picks: glass and sand one time in
/// six each, wall otherwise.
pub open spec fn spec_terrain_for_roll(r: u32) -> Terrain {
    if r == 0 {
        Terrain::GlassWall
    } else if r == 1 {
        Terrain::Sand
    } else {
        Terrain::Wall
    }
}

/// The terrain a seeding roll picks.
pub fn terrain_for_roll(r: u32) -> (t: Terrain)
    ensures
        t == spec_terrain_for_roll(r),
{
    if r == 0 {
        Terrain::GlassWall
    } else if r == 1 {
        Terrain::Sand
    } else {
        Terrain::Wall
    }
}

/// The terrain the last of the first `n` patches covering `(px, py)` paints
/// there, or `None` when none covers it. Patch `(x, y, roll)` covers `(x, y)`
/// and its six neighbours with `spec_terrain_for_roll(roll)`.
pub open spec fn last_cover(
    w: int,
    h: int,
    patches: Seq<(usize, usize, u32)>,
    n: int,
    px: int,
    py: int,
) -> Option<Terrain>
    decreases n,
{
    if n <= 0 {
        None
    } else if near(w, h, patches[n - 1].0 as int, patches[n - 1].1 as int, 6, px, py) {
        Some(spec_terrain_for_roll(patches[n - 1].2))
    } else {
        last_cover(w, h, patches, n - 1, px, py)
    }
}

/// The tile repainted with the covering terrain, if any.
pub open spec fn covered(tile: Tile, c: Option<Terrain>) -> Tile {
    match c {
        Some(t) => repainted(tile, t),
        None => tile,
    }
}

/// The terrain generation leaves at `(px, py)` on a `w` by `h` grid whose
/// terrain there was `t0`, after seeding `patches`: wall on the border, else
/// the last covering patch's terrain, else `t0`.
pub open spec fn generated_terrain(
    w: int,
    h: int,
    t0: Terrain,
    patches: Seq<(usize, usize, u32)>,
    px: int,
    py: int,
) -> Terrain {
    if on_border(w, h, px, py) {
        Terrain::Wall
    } else {
        match last_cover(w, h, patches, patches.len() as int, px, py) {
            Some(t) => t,
            None => t0,
        }
    }
}

/// The race of the `k`-th actor that generation spawns on a grid of `area`
/// tiles: scouts, then grunts, then heavies, then the human player.
pub open spec fn race_at(area: int, k: int) -> Race {
    if k < area / 200 {
        Race::Scout
    } else if k < area / 200 + area / 400 {
        Race::Grunt
    } else if k < area / 200 + area / 400 + area / 800 {
        Race::Heavy
    } else {
        Race::Human
    }
}

/// Number of non-player actors generation spawns on a grid of `area` tiles.
pub open spec fn crowd(area: int) -> int {
    area / 200 + area / 400 + area / 800
}

/// Two states with the same terrain tile by tile both have a passable tile
/// or neither has.
pub proof fn lemma_same_terrain_passable(a: GameState, b: GameState)
    requires
        b.same_terrain(a),
    ensures
        a.has_passable() == b.has_passable(),
{
    if a.has_passable() {
        let i = choose|i: int| 0 <= i < a.tiles@.len() && #[trigger] a.tiles@[i].terrain.spec_passable();
        assert(b.tiles@[i].terrain == a.tiles@[i].terrain);
    }
    if b.has_passable() {
        let i = choose|i: int| 0 <= i < b.tiles@.len() && #[trigger] b.tiles@[i].terrain.spec_passable();
        assert(b.tiles@[i].terrain == a.tiles@[i].terrain);
    }
}

impl GameState {
    /// The terrain of this state is what generation over `patches` makes of
    /// `o`'s terrain.
    pub open spec fn generated_from(&self, o: GameState, patches: Seq<(usize, usize, u32)>) -> bool {
        &&& patches.len() == o.width * o.height / 12
        &&& forall|k: int|
            0 <= k < patches.len() ==> {
                &&& (#[trigger] patches[k]).0 < o.width
                &&& patches[k].1 < o.height
                &&& patches[k].2 < 6
            }
        &&& forall|px: int, py: int|
            0 <= px < self.width && 0 <= py < self.height ==> #[trigger] self.tile_at(px, py).terrain
                == generated_terrain(
                self.width as int,
                self.height as int,
                o.tile_at(px, py).terrain,
                patches,
                px,
                py,
            )
    }

    /// Paints the patches in order: each `(x, y, roll)` covers `(x, y)` and
    /// its six neighbours with `terrain_for_roll(roll)`, later patches over
    /// earlier ones.
    pub fn seed_terrain(&mut self, patches: &Vec<(usize, usize, u32)>)
        requires
            old(self).wf(),
            forall|k: int|
                0 <= k < patches@.len() ==> (#[trigger] patches@[k]).0 < old(self).width
                    && patches@[k].1 < old(self).height,
        ensures
            final(self).wf(),
            final(self).width == old(self).width,
            final(self).height == old(self).height,
            final(self).actors@ == old(self).actors@,
            final(self).registry@ == old(self).registry@,
            final(self).player == old(self).player,
            forall|px: int, py: int|
                0 <= px < final(self).width && 0 <= py < final(self).height ==> #[trigger] final(self).tile_at(px, py) == covered(
                    old(self).tile_at(px, py),
                    last_cover(
                        old(self).width as int,
                        old(self).height as int,
                        patches@,
                        patches@.len() as int,
                        px,
                        py,
                    ),
                ),
    {
        let ghost w = self.width as int;
        let ghost h = self.height as int;
        let mut k: usize = 0;
        while k < patches.len()
            invariant
                self.wf(),
                self.width == old(self).width,
                self.height == old(self).height,
                w == self.width,
                h == self.height,
                self.actors@ == old(self).actors@,
                self.registry@ == old(self).registry@,
                self.player == old(self).player,
                k <= patches@.len(),
                forall|j: int|
                    0 <= j < patches@.len() ==> (#[trigger] patches@[j]).0 < w && patches@[j].1 < h,
                forall|px: int, py: int|
                    0 <= px < w && 0 <= py < h ==> #[trigger] self.tile_at(px, py) == covered(
                        old(self).tile_at(px, py),
                        last_cover(w, h, patches@, k as int, px, py),
                    ),
            decreases patches@.len() - k,
        {
            let p = patches[k];
            proof {
                assert(patches@[k as int] == p);
            }
            let ghost before = *self;
            self.paint_patch(p.0, p.1, terrain_for_roll(p.2));
            proof {
                assert forall|px: int, py: int|
                    0 <= px < w && 0 <= py < h implies #[trigger] self.tile_at(px, py) == covered(
                        old(self).tile_at(px, py),
                        last_cover(w, h, patches@, k as int + 1, px, py),
                    ) by {
                    assert(before.tile_at(px, py) == covered(
                        old(self).tile_at(px, py),
                        last_cover(w, h, patches@, k as int, px, py),
                    ));
                }
            }
            k = k + 1;
        }
    }

    /// Every tile of the grid equals the same tile of `o`, repainted with `t`
    /// where `sel` holds.
    pub open spec fn painted_from(
        &self,
        o: GameState,
        t: Terrain,
        sel: spec_fn(int, int) -> bool,
    ) -> bool {
        forall|px: int, py: int|
            0 <= px < self.width && 0 <= py < self.height ==> #[trigger] self.tile_at(px, py) == if sel(
                px,
                py,
            ) {
                repainted(o.tile_at(px, py), t)
            } else {
                o.tile_at(px, py)
            }
    }

    /// Replaces the terrain of the tile at `(x, y)`; its occupant stays.
    pub fn set_terrain(&mut self, x: usize, y: usize, t: Terrain)
        requires
            old(self).wf(),
            x < old(self).width,
            y < old(self).height,
        ensures
            final(self).wf(),
            final(self).width == old(self).width,
            final(self).height == old(self).height,
            final(self).actors@ == old(self).actors@,
            final(self).registry@ == old(self).registry@,
            final(self).player == old(self).player,
            final(self).tiles@ == old(self).tiles@.update(
                old(self).idx(x as int, y as int),
                repainted(old(self).tile_at(x as int, y as int), t),
            ),
            final(self).painted_from(*old(self), t, |px: int, py: int| px == x && py == y),
    {
        let i = self.index_of(x, y);
        let tile = self.tiles[i];
        self.tiles.set(i, Tile { terrain: t, occupant: tile.occupant });
        proof {
            let o = *old(self);
            assert forall|j: int| 0 <= j < self.tiles@.len() implies #[trigger] self.occupant_of(j)
                == o.occupant_of(j) by {}
            assert forall|a: int|
                0 <= a < self.actors@.len() implies {
                    &&& #[trigger] self.actors@[a].x == o.actors@[a].x
                    &&& self.actors@[a].y == o.actors@[a].y
                    &&& self.actors@[a].present == o.actors@[a].present
                    &&& self.actors@[a].facing < 6
                } by {
                assert(o.actors@[a].facing < 6);
            }
            lemma_wf_same_places(o, *self);
            assert forall|px: int, py: int|
                0 <= px < self.width && 0 <= py < self.height implies #[trigger] self.tile_at(px, py)
                    == if px == x && py == y {
                    repainted(o.tile_at(px, py), t)
                } else {
                    o.tile_at(px, py)
                } by {
                lemma_cell_bounds(self.width as int, self.height as int, px, py);
                if self.idx(px, py) == i as int {
                    lemma_cell_injective(self.width as int, px, py, x as int, y as int);
                }
            }
        }
    }

    /// The neighbour of `(x, y)` towards direction `d`, wrapped onto the grid.
    pub fn neighbor_of(&self, x: usize, y: usize, d: u8) -> (r: (usize, usize))
        requires
            self.wf(),
            x < self.width,
            y < self.height,
            d < 6,
        ensures
            r.0 < self.width,
            r.1 < self.height,
            (r.0 as int, r.1 as int) == neighbor(
                self.width as int,
                self.height as int,
                x as int,
                y as int,
                d as int,
            ),
    {
        let p = step(x as i32, y as i32, d);
        (wrap_coord(p.0, self.width), wrap_coord(p.1, self.height))
    }

    /// Paints `(x, y)` and its six neighbours with terrain `t`.
    pub fn paint_patch(&mut self, x: usize, y: usize, t: Terrain)
        requires
            old(self).wf(),
            x < old(self).width,
            y < old(self).height,
        ensures
            final(self).wf(),
            final(self).width == old(self).width,
            final(self).height == old(self).height,
            final(self).actors@ == old(self).actors@,
            final(self).registry@ == old(self).registry@,
            final(self).player == old(self).player,
            final(self).painted_from(
                *old(self),
                t,
                |px: int, py: int|
                    near(old(self).width as int, old(self).height as int, x as int, y as int, 6, px, py),
            ),
    {
        let ghost w = self.width as int;
        let ghost h = self.height as int;
        self.set_terrain(x, y, t);
        let mut d: u8 = 0;
        while d < 6
            invariant
                self.wf(),
                self.width == old(self).width,
                self.height == old(self).height,
                w == self.width,
                h == self.height,
                self.actors@ == old(self).actors@,
                self.registry@ == old(self).registry@,
                self.player == old(self).player,
                x < self.width,
                y < self.height,
                d <= 6,
                self.painted_from(
                    *old(self),
                    t,
                    |px: int, py: int| near(w, h, x as int, y as int, d as int, px, py),
                ),
            decreases 6 - d,
        {
            let p = self.neighbor_of(x, y, d);
            let ghost before = *self;
            self.set_terrain(p.0, p.1, t);
            proof {
                assert forall|px: int, py: int|
                    0 <= px < self.width && 0 <= py < self.height implies #[trigger] self.tile_at(px, py)
                        == if near(w, h, x as int, y as int, d as int + 1, px, py) {
                        repainted(old(self).tile_at(px, py), t)
                    } else {
                        old(self).tile_at(px, py)
                    } by {
                    assert(before.tile_at(px, py) == if near(w, h, x as int, y as int, d as int, px, py) {
                        repainted(old(self).tile_at(px, py), t)
                    } else {
                        old(self).tile_at(px, py)
                    });
                }
            }
            d = d + 1;
        }
    }

    /// Forces every tile on the outermost rows and columns to wall.
    pub fn force_border_walls(&mut self)
        requires
            old(self).wf(),
        ensures
            final(self).wf(),
            final(self).width == old(self).width,
            final(self).height == old(self).height,
            final(self).actors@ == old(self).actors@,
            final(self).registry@ == old(self).registry@,
            final(self).player == old(self).player,
            final(self).painted_from(
                *old(self),
                Terrain::Wall,
                |px: int, py: int| on_border(old(self).width as int, old(self).height as int, px, py),
            ),
    {
        let w = self.width;
        let h = self.height;
        let mut x: usize = 0;
        while x < w
            invariant
                self.wf(),
                self.width == w,
                self.height == h,
                w == old(self).width,
                h == old(self).height,
                self.actors@ == old(self).actors@,
                self.registry@ == old(self).registry@,
                self.player == old(self).player,
                x <= w,
                self.painted_from(
                    *old(self),
                    Terrain::Wall,
                    |px: int, py: int| (py == 0 || py == h - 1) && px < x,
                ),
            decreases w - x,
        {
            let ghost before = *self;
            self.set_terrain(x, 0, Terrain::Wall);
            let ghost mid = *self;
            self.set_terrain(x, h - 1, Terrain::Wall);
            proof {
                assert forall|px: int, py: int|
                    0 <= px < self.width && 0 <= py < self.height implies #[trigger] self.tile_at(px, py)
                        == if (py == 0 || py == h - 1) && px < x + 1 {
                        repainted(old(self).tile_at(px, py), Terrain::Wall)
                    } else {
                        old(self).tile_at(px, py)
                    } by {
                    assert(before.tile_at(px, py) == if (py == 0 || py == h - 1) && px < x {
                        repainted(old(self).tile_at(px, py), Terrain::Wall)
                    } else {
                        old(self).tile_at(px, py)
                    });
                    assert(mid.tile_at(px, py) == if px == x && py == 0 {
                        repainted(before.tile_at(px, py), Terrain::Wall)
                    } else {
                        before.tile_at(px, py)
                    });
                }
            }
            x = x + 1;
        }
        let mut y: usize = 0;
        while y < h
            invariant
                self.wf(),
                self.width == w,
                self.height == h,
                w == old(self).width,
                h == old(self).height,
                self.actors@ == old(self).actors@,
                self.registry@ == old(self).registry@,
                self.player == old(self).player,
                y <= h,
                self.painted_from(
                    *old(self),
                    Terrain::Wall,
                    |px: int, py: int| (py == 0 || py == h - 1) || ((px == 0 || px == w - 1) && py < y),
                ),
            decreases h - y,
        {
            let ghost before = *self;
            self.set_terrain(0, y, Terrain::Wall);
            let ghost mid = *self;
            self.set_terrain(w - 1, y, Terrain::Wall);
            proof {
                assert forall|px: int, py: int|
                    0 <= px < self.width && 0 <= py < self.height implies #[trigger] self.tile_at(px, py)
                        == if (py == 0 || py == h - 1) || ((px == 0 || px == w - 1) && py < y + 1) {
                        repainted(old(self).tile_at(px, py), Terrain::Wall)
                    } else {
                        old(self).tile_at(px, py)
                    } by {
                    assert(before.tile_at(px, py) == if (py == 0 || py == h - 1) || ((px == 0 || px
                        == w - 1) && py < y) {
                        repainted(old(self).tile_at(px, py), Terrain::Wall)
                    } else {
                        old(self).tile_at(px, py)
                    });
                    assert(mid.tile_at(px, py) == if px == 0 && py == y {
                        repainted(before.tile_at(px, py), Terrain::Wall)
                    } else {
                        before.tile_at(px, py)
                    });
                }
            }
            y = y + 1;
        }
    }

    /// Draws a random number below `n` from the world's random source.
    fn draw(&mut self, n: u32) -> (r: u32)
        requires
            old(self).wf(),
            n > 0,
        ensures
            r < n,
            final(self).wf(),
            final(self).width == old(self).width,
            final(self).height == old(self).height,
            final(self).tiles@ == old(self).tiles@,
            final(self).actors@ == old(self).actors@,
            final(self).registry@ == old(self).registry@,
            final(self).player == old(self).player,
    {
        let r = below(&mut self.rng, n);
        proof {
            lemma_wf_same_grid(*old(self), *self);
        }
        r
    }

    /// The grid holds the same terrain as `o`'s, tile by tile.
    pub open spec fn same_terrain(&self, o: GameState) -> bool {
        &&& self.tiles@.len() == o.tiles@.len()
        &&& forall|i: int|
            0 <= i < self.tiles@.len() ==> #[trigger] self.tiles@[i].terrain == o.tiles@[i].terrain
    }

    /// Every actor of `o`'s arena keeps its race and its player flag here.
    pub open spec fn keeps_roles(&self, o: GameState) -> bool {
        &&& self.actors@.len() >= o.actors@.len()
        &&& forall|a: int|
            0 <= a < o.actors@.len() ==> {
                &&& (#[trigger] self.actors@[a]).race == o.actors@[a].race
                &&& self.actors@[a].is_player == o.actors@[a].is_player
            }
    }

    /// Some tile of the grid has passable terrain.
    pub open spec fn has_passable(&self) -> bool {
        exists|i: int| 0 <= i < self.tiles@.len() && #[trigger] self.tiles@[i].terrain.spec_passable()
    }

    /// Spawns a new actor of `race` at a random position and facing with
    /// passable terrain. Up to `SPAWN_ATTEMPTS` random positions are tried;
    /// after that the first passable tile in row order is taken. The result
    /// is `None` exactly when no tile is passable; nothing but the random
    /// source changed then.
    pub fn spawn_random(&mut self, is_player: bool, race: Race) -> (r: Option<usize>)
        requires
            old(self).wf(),
            old(self).actors@.len() < usize::MAX,
        ensures
            final(self).wf(),
            final(self).width == old(self).width,
            final(self).height == old(self).height,
            final(self).player == old(self).player,
            final(self).same_terrain(*old(self)),
            final(self).keeps_roles(*old(self)),
            r is Some <==> old(self).has_passable(),
            r is None ==> {
                &&& final(self).tiles@ == old(self).tiles@
                &&& final(self).actors@ == old(self).actors@
                &&& final(self).registry@ == old(self).registry@
            },
            r is Some ==> {
                let id = r->0;
                &&& id == old(self).actors@.len()
                &&& final(self).actors@.len() == id + 1
                &&& final(self).registry@ == old(self).registry@.push(id)
                &&& final(self).resolves(id)
                &&& final(self).actors@[id as int].race == race
                &&& final(self).actors@[id as int].is_player == is_player
                &&& final(self).actors@[id as int].health == race.spec_max_health()
                &&& final(self).tile_at(
                    final(self).actors@[id as int].x as int,
                    final(self).actors@[id as int].y as int,
                ).terrain.spec_passable()
            },
    {
        let mut tries: u32 = 0;
        while tries < SPAWN_ATTEMPTS
            invariant
                self.wf(),
                self.width == old(self).width,
                self.height == old(self).height,
                self.player == old(self).player,
                self.tiles@ == old(self).tiles@,
                self.actors@ == old(self).actors@,
                self.registry@ == old(self).registry@,
                old(self).actors@.len() < usize::MAX,
                old(self).wf(),
            decreases SPAWN_ATTEMPTS - tries,
        {
            let x = self.draw(self.width as u32) as usize;
            let y = self.draw(self.height as u32) as usize;
            let f = self.draw(6) as u8;
            assert(x < self.width && y < self.height);
            let r = self.spawn(Actor::new(x, y, f, is_player, race));
            if r.is_some() {
                proof {
                    let id = r->0;
                    let a = self.actors@[id as int];
                    lemma_cell_bounds(self.width as int, self.height as int, x as int, y as int);
                    assert(self.tiles@[self.idx(x as int, y as int)].terrain == old(self).tiles@[self.idx(x as int, y as int)].terrain);
                    assert(old(self).tiles@[old(self).idx(x as int, y as int)].terrain.spec_passable());
                    assert forall|a: int| 0 <= a < old(self).actors@.len() implies {
                        &&& (#[trigger] self.actors@[a]).race == old(self).actors@[a].race
                        &&& self.actors@[a].is_player == old(self).actors@[a].is_player
                    } by {
                        let occ = old(self).tiles@[old(self).idx(x as int, y as int)].occupant;
                        if occ is Some {
                            assert(old(self).occupant_of(old(self).idx(x as int, y as int)) == occ);
                            assert(occ->0 < old(self).actors@.len());
                        }
                    }

                    assert forall|i: int|
                        0 <= i < self.tiles@.len() implies #[trigger] self.tiles@[i].terrain == old(self).tiles@[i].terrain by {
                        if i != self.idx(x as int, y as int) {
                            assert(self.tiles@[i] == old(self).tiles@[i]);
                        }
                    }
                }
                return r;
            }
            tries = tries + 1;
        }
        let n = self.tiles.len();
        let w = self.width;
        let mut i: usize = 0;
        while i < n
            invariant
                self.wf(),
                self.width == old(self).width,
                self.height == old(self).height,
                self.player == old(self).player,
                self.tiles@ == old(self).tiles@,
                self.actors@ == old(self).actors@,
                self.registry@ == old(self).registry@,
                old(self).actors@.len() < usize::MAX,
                old(self).wf(),
                n == self.tiles@.len(),
                w == self.width,
                i <= n,
                forall|j: int| 0 <= j < i ==> !(#[trigger] self.tiles@[j].terrain.spec_passable()),
            decreases n - i,
        {
            if self.tiles[i].terrain.is_passable() {
                proof {
                    lemma_index_cell(self.width as int, self.height as int, i as int);
                }
                let x = i % w;
                let y = i / w;
                let r = self.spawn(Actor::new(x, y, 0, is_player, race));
                proof {
                    let id = r->0;
                    assert(old(self).tiles@[i as int].terrain.spec_passable());
                    assert forall|a: int| 0 <= a < old(self).actors@.len() implies {
                        &&& (#[trigger] self.actors@[a]).race == old(self).actors@[a].race
                        &&& self.actors@[a].is_player == old(self).actors@[a].is_player
                    } by {
                        let occ = old(self).tiles@[i as int].occupant;
                        if occ is Some {
                            assert(old(self).occupant_of(i as int) == occ);
                            assert(occ->0 < old(self).actors@.len());
                        }
                        let u = crate::sim::unplace(old(self).actors@, occ);
                        assert(u.len() == old(self).actors@.len());
                        assert(u[a].race == old(self).actors@[a].race);
                        assert(self.actors@.len() == u.len() + 1);
                        assert(self.actors@[a] == u[a]);
                    }

                    assert forall|j: int|
                        0 <= j < self.tiles@.len() implies #[trigger] self.tiles@[j].terrain == old(self).tiles@[j].terrain by {
                        if j != i as int {
                            assert(self.tiles@[j] == old(self).tiles@[j]);
                        }
                    }
                }
                return r;
            }
            i = i + 1;
        }
        None
    }

    /// Spawns `n` non-player actors of `race` at random passable positions;
    /// none where no tile is passable.
    fn spawn_many(&mut self, n: usize, race: Race)
        requires
            old(self).wf(),
            old(self).actors@.len() + n < usize::MAX,
        ensures
            final(self).wf(),
            final(self).width == old(self).width,
            final(self).height == old(self).height,
            final(self).player == old(self).player,
            final(self).same_terrain(*old(self)),
            final(self).keeps_roles(*old(self)),
            old(self).has_passable() ==> {
                &&& final(self).actors@.len() == old(self).actors@.len() + n
                &&& final(self).registry@ == old(self).registry@ + Seq::new(
                    n as nat,
                    |k: int| (old(self).actors@.len() + k) as usize,
                )
                &&& forall|k: int|
                    0 <= k < n ==> {
                        &&& (#[trigger] final(self).actors@[old(self).actors@.len() + k]).race == race
                        &&& !final(self).actors@[old(self).actors@.len() + k].is_player
                    }
            },
            !old(self).has_passable() ==> {
                &&& final(self).actors@ == old(self).actors@
                &&& final(self).registry@ == old(self).registry@
            },
    {
        let mut k: usize = 0;
        while k < n
            invariant
                self.wf(),
                self.width == old(self).width,
                self.height == old(self).height,
                self.player == old(self).player,
                self.same_terrain(*old(self)),
                self.keeps_roles(*old(self)),
                k <= n,
                old(self).actors@.len() + n < usize::MAX,
                old(self).has_passable() ==> {
                    &&& self.actors@.len() == old(self).actors@.len() + k
                    &&& self.registry@ == old(self).registry@ + Seq::new(
                        k as nat,
                        |j: int| (old(self).actors@.len() + j) as usize,
                    )
                    &&& forall|j: int|
                        0 <= j < k ==> {
                            &&& (#[trigger] self.actors@[old(self).actors@.len() + j]).race == race
                            &&& !self.actors@[old(self).actors@.len() + j].is_player
                        }
                },
                !old(self).has_passable() ==> {
                    &&& self.actors@ == old(self).actors@
                    &&& self.registry@ == old(self).registry@
                },
            decreases n - k,
        {
            let ghost before = *self;
            proof {
                lemma_same_terrain_passable(*old(self), before);
            }
            let _ = self.spawn_random(false, race);
            proof {
                assert forall|i: int|
                    0 <= i < self.tiles@.len() implies #[trigger] self.tiles@[i].terrain == old(self).tiles@[i].terrain by {
                    assert(before.tiles@[i].terrain == old(self).tiles@[i].terrain);
                }
                assert forall|a: int| 0 <= a < old(self).actors@.len() implies {
                    &&& (#[trigger] self.actors@[a]).race == old(self).actors@[a].race
                    &&& self.actors@[a].is_player == old(self).actors@[a].is_player
                } by {
                    assert(before.actors@[a].race == old(self).actors@[a].race);
                }
                if old(self).has_passable() {
                    let base = old(self).actors@.len();
                    assert(self.registry@ =~= old(self).registry@ + Seq::new(
                        (k + 1) as nat,
                        |j: int| (base + j) as usize,
                    ));
                    assert forall|j: int|
                        0 <= j < k + 1 implies {
                            &&& (#[trigger] self.actors@[base + j]).race == race
                            &&& !self.actors@[base + j].is_player
                        } by {
                        if j < k {
                            assert(before.actors@[base + j].race == race);
                        }
                    }
                }
            }
            k = k + 1;
        }
    }

    /// Generates the world. First `width * height / 12` random patches are
    /// seeded (see `seed_terrain`; glass or sand one time in six each, wall
    /// otherwise), then the outermost rows and columns are walled. Then
    /// `area / 200` scouts, `area / 400` grunts and `area / 800` heavies are
    /// spawned, and last the human player, whose id becomes the player's.
    /// Where the generated terrain has no passable tile nobody is spawned.
    #[verifier::rlimit(100)]
    pub fn randomize_map(&mut self)
        requires
            old(self).wf(),
            old(self).actors@.len() + old(self).width * old(self).height < usize::MAX,
        ensures
            final(self).wf(),
            final(self).width == old(self).width,
            final(self).height == old(self).height,
            exists|p: Seq<(usize, usize, u32)>| #[trigger] final(self).generated_from(*old(self), p),
            final(self).keeps_roles(*old(self)),
            final(self).has_passable() ==> {
                let base = old(self).actors@.len();
                let area = old(self).width * old(self).height;
                let n = crowd(area);
                &&& final(self).actors@.len() == base + n + 1
                &&& final(self).registry@ == old(self).registry@ + Seq::new(
                    (n + 1) as nat,
                    |k: int| (base + k) as usize,
                )
                &&& forall|k: int|
                    0 <= k <= n ==> {
                        &&& (#[trigger] final(self).actors@[base + k]).race == race_at(area, k)
                        &&& final(self).actors@[base + k].is_player == (k == n)
                    }
                &&& final(self).player == Some((base + n) as usize)
            },
            !final(self).has_passable() ==> {
                &&& final(self).actors@ == old(self).actors@
                &&& final(self).registry@ == old(self).registry@
                &&& final(self).player == old(self).player
            },
    {
        let w = self.width;
        let h = self.height;
        proof {
            assert(w * h <= 1000 * 1000) by (nonlinear_arith)
                requires
                    0 < w <= 1000,
                    0 < h <= 1000,
            ;
        }
        let area = w * h;
        let mut patches: Vec<(usize, usize, u32)> = Vec::new();
        let mut k: usize = 0;
        while k < area / 12
            invariant
                self.wf(),
                self.width == w,
                self.height == h,
                w == old(self).width,
                h == old(self).height,
                area == w * h,
                self.tiles@ == old(self).tiles@,
                self.actors@ == old(self).actors@,
                self.registry@ == old(self).registry@,
                self.player == old(self).player,
                patches@.len() == k,
                k <= area / 12,
                forall|j: int|
                    0 <= j < patches@.len() ==> {
                        &&& (#[trigger] patches@[j]).0 < w
                        &&& patches@[j].1 < h
                        &&& patches@[j].2 < 6
                    },
            decreases area / 12 - k,
        {
            let x = self.draw(w as u32) as usize;
            let y = self.draw(h as u32) as usize;
            let roll = self.draw(6);
            patches.push((x, y, roll));
            k = k + 1;
        }
        self.seed_terrain(&patches);
        let ghost seeded = *self;
        self.force_border_walls();
        let ghost walled = *self;
        proof {
            assert forall|px: int, py: int|
                0 <= px < walled.width && 0 <= py < walled.height implies #[trigger] walled.tile_at(px, py).terrain
                    == generated_terrain(
                    walled.width as int,
                    walled.height as int,
                    old(self).tile_at(px, py).terrain,
                    patches@,
                    px,
                    py,
                ) by {
                assert(seeded.tile_at(px, py) == covered(
                    old(self).tile_at(px, py),
                    last_cover(w as int, h as int, patches@, patches@.len() as int, px, py),
                ));
            }
            assert(walled.generated_from(*old(self), patches@));
        }
        let ghost base = self.actors@.len();
        let ghost reg0 = self.registry@;
        self.spawn_many(area / 200, Race::Scout);
        let ghost g1 = *self;
        self.spawn_many(area / 400, Race::Grunt);
        let ghost g2 = *self;
        self.spawn_many(area / 800, Race::Heavy);
        let ghost g3 = *self;
        let r = self.spawn_random(true, Race::Human);
        let ghost g4 = *self;
        match r {
            Some(p) => {
                self.player = Some(p);
                proof {
                    lemma_wf_same_grid(g4, *self);
                }
            },
            None => {},
        }
        proof {
            let n1 = area as int / 200;
            let n2 = area as int / 400;
            let n3 = area as int / 800;
            assert forall|i: int| 0 <= i < self.tiles@.len() implies #[trigger] self.tiles@[i].terrain
                == walled.tiles@[i].terrain by {
                assert(g1.tiles@[i].terrain == walled.tiles@[i].terrain);
                assert(g2.tiles@[i].terrain == g1.tiles@[i].terrain);
                assert(g3.tiles@[i].terrain == g2.tiles@[i].terrain);
                assert(g4.tiles@[i].terrain == g3.tiles@[i].terrain);
            }
            lemma_same_terrain_passable(walled, g1);
            lemma_same_terrain_passable(walled, *self);
            assert forall|i: int| 0 <= i < g2.tiles@.len() implies #[trigger] g2.tiles@[i].terrain
                == walled.tiles@[i].terrain by {
                assert(g1.tiles@[i].terrain == walled.tiles@[i].terrain);
            }
            lemma_same_terrain_passable(walled, g2);
            assert forall|i: int| 0 <= i < g3.tiles@.len() implies #[trigger] g3.tiles@[i].terrain
                == walled.tiles@[i].terrain by {
                assert(g1.tiles@[i].terrain == walled.tiles@[i].terrain);
                assert(g2.tiles@[i].terrain == g1.tiles@[i].terrain);
            }
            lemma_same_terrain_passable(walled, g3);
            assert forall|px: int, py: int|
                0 <= px < self.width && 0 <= py < self.height implies #[trigger] self.tile_at(px, py).terrain
                    == generated_terrain(
                    self.width as int,
                    self.height as int,
                    old(self).tile_at(px, py).terrain,
                    patches@,
                    px,
                    py,
                ) by {
                lemma_cell_bounds(w as int, h as int, px, py);
                assert(walled.tile_at(px, py).terrain == generated_terrain(
                    w as int,
                    h as int,
                    old(self).tile_at(px, py).terrain,
                    patches@,
                    px,
                    py,
                ));
            }
            assert(self.generated_from(*old(self), patches@));
            assert forall|a: int| 0 <= a < old(self).actors@.len() implies {
                &&& (#[trigger] self.actors@[a]).race == old(self).actors@[a].race
                &&& self.actors@[a].is_player == old(self).actors@[a].is_player
            } by {
                assert(g1.actors@[a].race == old(self).actors@[a].race);
                assert(g2.actors@[a].race == g1.actors@[a].race);
                assert(g3.actors@[a].race == g2.actors@[a].race);
                assert(g4.actors@[a].race == g3.actors@[a].race);
            }
            if self.has_passable() {
                let n = n1 + n2 + n3;
                assert(self.registry@ =~= old(self).registry@ + Seq::new(
                    (n + 1) as nat,
                    |k: int| (base + k) as usize,
                ));
                assert forall|k: int|
                    0 <= k <= n implies {
                        &&& (#[trigger] self.actors@[base + k]).race == race_at(area as int, k)
                        &&& self.actors@[base + k].is_player == (k == n)
                    } by {
                    if k < n1 {
                        assert(g1.actors@[base + k].race == Race::Scout);
                        assert(g2.actors@[base + k].race == g1.actors@[base + k].race);
                        assert(g3.actors@[base + k].race == g2.actors@[base + k].race);
                        assert(g4.actors@[base + k].race == g3.actors@[base + k].race);
                    } else if k < n1 + n2 {
                        assert(g2.actors@[g1.actors@.len() + (k - n1)].race == Race::Grunt);
                        assert(g3.actors@[base + k].race == g2.actors@[base + k].race);
                        assert(g4.actors@[base + k].race == g3.actors@[base + k].race);
                    } else if k < n {
                        assert(g3.actors@[g2.actors@.len() + (k - n1 - n2)].race == Race::Heavy);
                        assert(g4.actors@[base + k].race == g3.actors@[base + k].race);
                    }
                }
            }
        }
    }
}

} // verus!
