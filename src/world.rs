//! The world's data: terrain, tiles, actors and the game state that owns them,
//! with the invariant that ties each tile's occupant to the actor's position.
use vstd::prelude::*;
use crate::random::{fresh_rng, seeded_rng};

verus! {

/// Largest width or height of a grid.
pub const MAX_SIDE: usize = 1000;

/// Side of the square world that `GameState::new` builds.
pub const WORLD_SIDE: usize = 100;

/// What a tile is made of.
#[derive(Clone, Copy, Debug, PartialEq, Eq, Structural)]
pub enum Terrain {
    Wall,
    Floor,
    GlassWall,
    Sand,
}

impl Terrain {
    pub open spec fn spec_passable(self) -> bool {
        self == Terrain::Floor || self == Terrain::Sand
    }

    /// Whether an actor may stand on this terrain.
    pub fn is_passable(&self) -> (r: bool)
        ensures
            r == self.spec_passable(),
    {
        match self {
            Terrain::Floor | Terrain::Sand => true,
            _ => false,
        }
    }
}

/// The kind of an actor.
#[derive(Clone, Copy, Debug, PartialEq, Eq, Structural)]
pub enum Race {
    Human,
    Scout,
    Grunt,
    Heavy,
}

impl Race {
    pub open spec fn spec_max_health(self) -> u32 {
        match self {
            Race::Human => 10,
            Race::Scout => 4,
            Race::Grunt => 6,
            Race::Heavy => 12,
        }
    }

    pub open spec fn spec_power(self) -> u32 {
        match self {
            Race::Human => 3,
            Race::Scout => 1,
            Race::Grunt => 2,
            Race::Heavy => 3,
        }
    }

    /// Health an actor of this race starts with.
    pub fn max_health(&self) -> (r: u32)
        ensures
            r == self.spec_max_health(),
    {
        match self {
            Race::Human => 10,
            Race::Scout => 4,
            Race::Grunt => 6,
            Race::Heavy => 12,
        }
    }

    /// Damage one blow of an actor of this race deals.
    pub fn power(&self) -> (r: u32)
        ensures
            r == self.spec_power(),
    {
        match self {
            Race::Human => 3,
            Race::Scout => 1,
            Race::Grunt => 2,
            Race::Heavy => 3,
        }
    }
}

/// One cell of the grid: its terrain and the id of the actor it owns, if any.
#[derive(Clone, Copy, Debug, PartialEq, Eq, Structural)]
pub struct Tile {
    pub terrain: Terrain,
    pub occupant: Option<usize>,
}

/// A mobile entity. It lives in the game's arena under a stable id; `present`
/// says whether a tile still owns it.
#[derive(Clone, Copy, Debug, PartialEq, Eq, Structural)]
pub struct Actor {
    pub x: usize,
    pub y: usize,
    pub facing: u8,
    pub prev_x: usize,
    pub prev_y: usize,
    pub prev_facing: u8,
    pub race: Race,
    pub is_player: bool,
    pub health: u32,
    pub present: bool,
}

impl Actor {
    /// A fresh actor at `(x, y)` facing `facing`, at full health, not yet
    /// placed on any tile.
    pub fn new(x: usize, y: usize, facing: u8, is_player: bool, race: Race) -> (r: Actor)
        ensures
            r == (Actor {
                x,
                y,
                facing,
                prev_x: x,
                prev_y: y,
                prev_facing: facing,
                race,
                is_player,
                health: race.spec_max_health(),
                present: false,
            }),
    {
        Actor {
            x,
            y,
            facing,
            prev_x: x,
            prev_y: y,
            prev_facing: facing,
            race,
            is_player,
            health: race.max_health(),
            present: false,
        }
    }

    /// The same actor, owned by a tile.
    pub open spec fn placed(self) -> Actor {
        Actor { present: true, ..self }
    }

    /// The same actor, owned by no tile.
    pub open spec fn removed(self) -> Actor {
        Actor { present: false, ..self }
    }

    pub open spec fn spec_is_alive(self) -> bool {
        self.health > 0
    }

    /// Whether the actor still has health left.
    pub fn is_alive(&self) -> (r: bool)
        ensures
            r == self.spec_is_alive(),
    {
        self.health > 0
    }
}

/// The whole simulation: a wrap-around grid of `width * height` tiles stored
/// row by row, the arena of every actor ever spawned, the registry of actor
/// ids in spawn order, the player's id and the random source.
pub struct GameState {
    pub width: usize,
    pub height: usize,
    pub tiles: Vec<Tile>,
    pub actors: Vec<Actor>,
    pub registry: Vec<usize>,
    pub player: Option<usize>,
    pub rng: rand::rngs::StdRng,
}

/// Position of cell `(x, y)` in a row-major grid of the given width.
pub open spec fn cell(width: int, x: int, y: int) -> int {
    y * width + x
}

/// Cells of a grid are laid out one to one.
pub proof fn lemma_cell_bounds(width: int, height: int, x: int, y: int)
    requires
        0 <= x < width,
        0 <= y < height,
    ensures
        0 <= cell(width, x, y) < width * height,
{
    assert(0 <= y * width + x < width * height) by (nonlinear_arith)
        requires
            0 <= x < width,
            0 <= y < height,
    ;
}

/// The `i`-th tile of a `width` by `height` grid is cell
/// `(i % width, i / width)`.
pub proof fn lemma_index_cell(width: int, height: int, i: int)
    requires
        0 < width,
        0 < height,
        0 <= i < width * height,
    ensures
        0 <= i % width < width,
        0 <= i / width < height,
        cell(width, i % width, i / width) == i,
{
    vstd::arithmetic::div_mod::lemma_fundamental_div_mod(i, width);
    let q = i / width;
    let r = i % width;
    assert(0 <= r < width) by {
        vstd::arithmetic::div_mod::lemma_mod_bound(i, width);
    }
    assert(q * width + r == i) by (nonlinear_arith)
        requires
            i == width * q + r,
    ;
    assert(0 <= q < height) by (nonlinear_arith)
        requires
            q * width + r == i,
            0 <= r < width,
            0 <= i < width * height,
            0 < width,
    ;
}

/// Two cells of a grid at the same position are the same cell.
pub proof fn lemma_cell_injective(width: int, x1: int, y1: int, x2: int, y2: int)
    requires
        0 <= x1 < width,
        0 <= x2 < width,
        0 <= y1,
        0 <= y2,
        cell(width, x1, y1) == cell(width, x2, y2),
    ensures
        x1 == x2 && y1 == y2,
{
    assert(x1 == x2 && y1 == y2) by (nonlinear_arith)
        requires
            0 <= x1 < width,
            0 <= x2 < width,
            0 <= y1,
            0 <= y2,
            y1 * width + x1 == y2 * width + x2,
    ;
}

/// A state whose placed actors stand where those of a well-formed state
/// stand, over a grid with the same occupants, is well formed too.
pub proof fn lemma_wf_same_places(s: GameState, t: GameState)
    requires
        s.wf(),
        t.width == s.width,
        t.height == s.height,
        t.tiles@.len() == s.tiles@.len(),
        forall|i: int| 0 <= i < t.tiles@.len() ==> #[trigger] t.occupant_of(i) == s.occupant_of(i),
        t.registry@ == s.registry@,
        t.player is Some ==> t.player->0 < t.actors@.len(),
        t.actors@.len() == s.actors@.len(),
        forall|a: int|
            0 <= a < t.actors@.len() ==> {
                &&& #[trigger] t.actors@[a].x == s.actors@[a].x
                &&& t.actors@[a].y == s.actors@[a].y
                &&& t.actors@[a].present == s.actors@[a].present
                &&& t.actors@[a].facing < 6
            },
    ensures
        t.wf(),
{
    assert forall|i: int|
        #![trigger t.occupant_of(i)]
        0 <= i < t.tiles@.len() && t.occupant_of(i) is Some implies {
            let a = t.occupant_of(i)->0;
            &&& a < t.actors@.len()
            &&& t.actors@[a as int].present
            &&& t.idx(t.actors@[a as int].x as int, t.actors@[a as int].y as int) == i
        } by {
        assert(s.occupant_of(i) == t.occupant_of(i));
        let a = t.occupant_of(i)->0;
        assert(t.actors@[a as int].x == s.actors@[a as int].x);
    }
    assert forall|a: int|
        #![trigger t.actors@[a]]
        0 <= a < t.actors@.len() implies {
            &&& t.actors@[a].facing < 6
            &&& t.actors@[a].present ==> {
                &&& t.actors@[a].x < t.width
                &&& t.actors@[a].y < t.height
                &&& t.tile_at(t.actors@[a].x as int, t.actors@[a].y as int).occupant
                    == Some(a as usize)
            }
        } by {
        assert(t.actors@[a].x == s.actors@[a].x);
        assert(s.actors@[a].facing < 6);
        if t.actors@[a].present {
            let sa = s.actors@[a];
            lemma_cell_bounds(s.width as int, s.height as int, sa.x as int, sa.y as int);
            assert(t.occupant_of(s.idx(sa.x as int, sa.y as int)) == s.occupant_of(s.idx(sa.x as int, sa.y as int)));
        }
    }
    assert forall|k: int|
        #![trigger t.registry@[k]]
        0 <= k < t.registry@.len() implies t.registry@[k] < t.actors@.len() by {
        assert(s.registry@[k] < s.actors@.len());
    }
}

/// A state with the grid, arena and registry of a well-formed state, and a
/// player id inside the arena, is well formed too.
pub proof fn lemma_wf_same_grid(s: GameState, t: GameState)
    requires
        s.wf(),
        t.width == s.width,
        t.height == s.height,
        t.tiles@ == s.tiles@,
        t.actors@ == s.actors@,
        t.registry@ == s.registry@,
        t.player is Some ==> t.player->0 < t.actors@.len(),
    ensures
        t.wf(),
{
    assert forall|j: int| 0 <= j < t.tiles@.len() implies #[trigger] t.occupant_of(j)
        == s.occupant_of(j) by {}
    assert forall|a: int|
        0 <= a < t.actors@.len() implies {
            &&& #[trigger] t.actors@[a].x == s.actors@[a].x
            &&& t.actors@[a].y == s.actors@[a].y
            &&& t.actors@[a].present == s.actors@[a].present
            &&& t.actors@[a].facing < 6
        } by {
        assert(s.actors@[a].facing < 6);
    }
    lemma_wf_same_places(s, t);
}

impl GameState {
    pub open spec fn idx(&self, x: int, y: int) -> int {
        cell(self.width as int, x, y)
    }

    pub open spec fn tile_at(&self, x: int, y: int) -> Tile {
        self.tiles@[self.idx(x, y)]
    }

    /// The occupant of the `i`-th tile of `tiles`.
    pub open spec fn occupant_of(&self, i: int) -> Option<usize> {
        self.tiles@[i].occupant
    }

    /// The id names an actor that a tile still owns.
    pub open spec fn resolves(&self, id: usize) -> bool {
        id < self.actors@.len() && self.actors@[id as int].present
    }

    /// Compared with `o`, the arena holds the same actors with the same races
    /// and player flags; none regained a tile or health, and the terrain
    /// and the random source are unchanged.
    pub open spec fn only_weakens(&self, o: GameState) -> bool {
        &&& self.actors@.len() == o.actors@.len()
        &&& self.tiles@.len() == o.tiles@.len()
        &&& self.rng == o.rng
        &&& forall|i: int|
            0 <= i < self.tiles@.len() ==> (#[trigger] self.tiles@[i]).terrain == o.tiles@[i].terrain
        &&& forall|a: int|
            0 <= a < self.actors@.len() ==> {
                &&& (#[trigger] self.actors@[a]).present ==> o.actors@[a].present
                &&& self.actors@[a].health <= o.actors@[a].health
                &&& self.actors@[a].is_player == o.actors@[a].is_player
                &&& self.actors@[a].race == o.actors@[a].race
            }
    }

    /// The id names an actor that a tile still owns and that has health left.
    pub open spec fn live(&self, id: usize) -> bool {
        self.resolves(id) && self.actors@[id as int].spec_is_alive()
    }

    /// The game's invariant: every occupant sits where its tile is, every
    /// placed actor is its tile's occupant, and every id is in the arena.
    pub open spec fn wf(&self) -> bool {
        &&& 0 < self.width <= MAX_SIDE
        &&& 0 < self.height <= MAX_SIDE
        &&& self.tiles@.len() == self.width * self.height
        &&& self.actors@.len() <= usize::MAX
        &&& forall|i: int|
            #![trigger self.occupant_of(i)]
            0 <= i < self.tiles@.len() && self.occupant_of(i) is Some ==> {
                let a = self.occupant_of(i)->0;
                &&& a < self.actors@.len()
                &&& self.actors@[a as int].present
                &&& self.idx(self.actors@[a as int].x as int, self.actors@[a as int].y as int) == i
            }
        &&& forall|a: int|
            #![trigger self.actors@[a]]
            0 <= a < self.actors@.len() ==> {
                &&& self.actors@[a].facing < 6
                &&& self.actors@[a].present ==> {
                    &&& self.actors@[a].x < self.width
                    &&& self.actors@[a].y < self.height
                    &&& self.tile_at(self.actors@[a].x as int, self.actors@[a].y as int).occupant
                        == Some(a as usize)
                }
            }
        &&& forall|k: int|
            #![trigger self.registry@[k]]
            0 <= k < self.registry@.len() ==> self.registry@[k] < self.actors@.len()
        &&& self.player is Some ==> self.player->0 < self.actors@.len()
    }

    /// The tile at `(x, y)` cannot be entered: its terrain is impassable or an
    /// actor stands there.
    pub open spec fn blocked(&self, x: int, y: int) -> bool {
        !self.tile_at(x, y).terrain.spec_passable() || self.tile_at(x, y).occupant is Some
    }

    /// Position of cell `(x, y)` in `tiles`.
    pub fn index_of(&self, x: usize, y: usize) -> (r: usize)
        requires
            self.wf(),
            x < self.width,
            y < self.height,
        ensures
            r as int == self.idx(x as int, y as int),
            r < self.tiles@.len(),
    {
        proof {
            lemma_cell_bounds(self.width as int, self.height as int, x as int, y as int);
            assert(self.width * self.height <= MAX_SIDE * MAX_SIDE) by (nonlinear_arith)
                requires
                    0 < self.width <= MAX_SIDE,
                    0 < self.height <= MAX_SIDE,
            ;
            assert(0 <= y * self.width <= y * self.width + x) by (nonlinear_arith)
                requires
                    0 <= x,
                    0 <= y,
                    0 < self.width,
            ;
        }
        y * self.width + x
    }

    fn build(width: usize, height: usize, rng: rand::rngs::StdRng) -> (r: GameState)
        requires
            0 < width <= MAX_SIDE,
            0 < height <= MAX_SIDE,
        ensures
            r.wf(),
            r.width == width,
            r.height == height,
            forall|i: int|
                0 <= i < r.tiles@.len() ==> r.tiles@[i] == (Tile {
                    terrain: Terrain::Floor,
                    occupant: None,
                }),
            r.actors@.len() == 0,
            r.registry@.len() == 0,
            r.player is None,
    {
        assert(width * height <= MAX_SIDE * MAX_SIDE) by (nonlinear_arith)
            requires
                0 < width <= MAX_SIDE,
                0 < height <= MAX_SIDE,
        ;
        let n: usize = width * height;
        let mut tiles: Vec<Tile> = Vec::new();
        let mut i: usize = 0;
        while i < n
            invariant
                i <= n,
                tiles@.len() == i,
                forall|j: int|
                    0 <= j < tiles@.len() ==> tiles@[j] == (Tile {
                        terrain: Terrain::Floor,
                        occupant: None,
                    }),
            decreases n - i,
        {
            tiles.push(Tile { terrain: Terrain::Floor, occupant: None });
            i = i + 1;
        }
        GameState {
            width,
            height,
            tiles,
            actors: Vec::new(),
            registry: Vec::new(),
            player: None,
            rng,
        }
    }

    /// An all-floor world of `WORLD_SIDE` by `WORLD_SIDE` tiles with no
    /// actors, no player and a freshly seeded random source.
    pub fn new() -> (r: GameState)
        ensures
            r.wf(),
            r.width == WORLD_SIDE,
            r.height == WORLD_SIDE,
            forall|i: int|
                0 <= i < r.tiles@.len() ==> r.tiles@[i] == (Tile {
                    terrain: Terrain::Floor,
                    occupant: None,
                }),
            r.actors@.len() == 0,
            r.registry@.len() == 0,
            r.player is None,
    {
        GameState::build(WORLD_SIDE, WORLD_SIDE, fresh_rng())
    }

    /// The same world as `new`, with a random source fixed by `seed`.
    pub fn with_seed(seed: u64) -> (r: GameState)
        ensures
            r.wf(),
            r.width == WORLD_SIDE,
            r.height == WORLD_SIDE,
            forall|i: int|
                0 <= i < r.tiles@.len() ==> r.tiles@[i] == (Tile {
                    terrain: Terrain::Floor,
                    occupant: None,
                }),
            r.actors@.len() == 0,
            r.registry@.len() == 0,
            r.player is None,
    {
        GameState::build(WORLD_SIDE, WORLD_SIDE, seeded_rng(seed))
    }
}

} // verus!
