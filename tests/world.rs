use rhex::hex::wrap_coord;
use rhex::rules::{Action, Direction};
use rhex::sim::{strike_health, Brain, Traced};
use rhex::world::{Actor, GameState, Race, Terrain, Tile, WORLD_SIDE};
use rhex::worldgen::{terrain_for_roll, SPAWN_ATTEMPTS};

/// A brain that hands out a fixed list of decisions, one per call, and
/// records whom it was asked about.
struct Script {
    plan: Vec<Option<Action>>,
    next: usize,
    decided: Vec<usize>,
    done: Vec<usize>,
    sighted: Vec<usize>,
    wants_los: bool,
}

impl Script {
    fn new(plan: Vec<Option<Action>>) -> Script {
        Script { plan, next: 0, decided: vec![], done: vec![], sighted: vec![], wants_los: false }
    }
}

impl Brain for Script {
    fn needs_los(&self, _game: &GameState, _id: usize) -> bool {
        self.wants_los
    }

    fn update_los(&mut self, _game: &GameState, id: usize) {
        self.sighted.push(id);
    }

    fn decide(&mut self, _game: &GameState, id: usize) -> Option<Action> {
        self.decided.push(id);
        let a = if self.next < self.plan.len() { self.plan[self.next] } else { None };
        self.next += 1;
        a
    }

    fn action_done(&mut self, id: usize) {
        self.done.push(id);
    }
}

fn put(g: &mut GameState, x: usize, y: usize, facing: u8, race: Race) -> usize {
    g.spawn(Actor::new(x, y, facing, false, race)).expect("spawn on floor")
}

fn tile(g: &GameState, x: usize, y: usize) -> Tile {
    g.tiles[y * g.width + x]
}

#[test]
fn new_world_is_empty_floor() {
    let g = GameState::new();
    assert_eq!(g.width, WORLD_SIDE);
    assert_eq!(g.height, 100);
    assert_eq!(g.tiles.len(), 10000);
    assert!(g.tiles.iter().all(|t| t.terrain == Terrain::Floor && t.occupant.is_none()));
    assert!(g.actors.is_empty());
    assert!(g.registry.is_empty());
    assert!(g.player.is_none());
}

#[test]
fn spawn_places_actor_on_its_tile() {
    let mut g = GameState::new();
    let id = put(&mut g, 3, 4, 1, Race::Grunt);
    assert_eq!(id, 0);
    assert_eq!(tile(&g, 3, 4).occupant, Some(0));
    assert_eq!(g.registry, vec![0]);
    assert!(g.actors[0].present);
    assert_eq!(g.actors[0].health, 6);
}

#[test]
fn spawn_on_impassable_terrain_changes_nothing() {
    let mut g = GameState::new();
    g.set_terrain(3, 4, Terrain::GlassWall);
    let tiles = g.tiles.clone();
    assert_eq!(g.spawn(Actor::new(3, 4, 0, false, Race::Scout)), None);
    assert_eq!(g.tiles, tiles);
    assert!(g.actors.is_empty());
    assert!(g.registry.is_empty());
}

#[test]
fn spawn_on_sand_succeeds() {
    let mut g = GameState::new();
    g.set_terrain(3, 4, Terrain::Sand);
    assert_eq!(g.spawn(Actor::new(3, 4, 0, false, Race::Scout)), Some(0));
}

#[test]
fn spawn_onto_occupied_tile_displaces_the_occupant() {
    let mut g = GameState::new();
    let a = put(&mut g, 3, 4, 0, Race::Scout);
    let b = put(&mut g, 3, 4, 0, Race::Heavy);
    assert_eq!(tile(&g, 3, 4).occupant, Some(b));
    assert!(!g.actors[a].present);
    assert_eq!(g.registry, vec![a, b]);
}

#[test]
fn move_forward_steps_along_facing() {
    let mut g = GameState::new();
    let id = put(&mut g, 5, 5, 0, Race::Human);
    g.perform_action(id, Action::Move(Direction::Forward));
    assert_eq!((g.actors[id].x, g.actors[id].y), (5, 6));
    assert_eq!((g.actors[id].prev_x, g.actors[id].prev_y), (5, 5));
    assert_eq!(g.actors[id].facing, 0);
    assert_eq!(tile(&g, 5, 5).occupant, None);
    assert_eq!(tile(&g, 5, 6).occupant, Some(id));
}

#[test]
fn run_moves_like_move() {
    let mut g = GameState::new();
    let id = put(&mut g, 5, 5, 1, Race::Human);
    g.perform_action(id, Action::Run(Direction::Right));
    // facing 1 turned right once is direction 2: one step +x, -y
    assert_eq!((g.actors[id].x, g.actors[id].y), (6, 4));
    assert_eq!(g.actors[id].facing, 1);
}

#[test]
fn move_wraps_around_the_edge() {
    let mut g = GameState::new();
    let id = put(&mut g, 5, 99, 0, Race::Human);
    g.perform_action(id, Action::Move(Direction::Forward));
    assert_eq!((g.actors[id].x, g.actors[id].y), (5, 0));
    let id2 = put(&mut g, 0, 10, 0, Race::Scout);
    g.perform_action(id2, Action::Move(Direction::LeftBack));
    assert_eq!((g.actors[id2].x, g.actors[id2].y), (99, 10));
}

#[test]
fn move_into_wall_changes_nothing() {
    let mut g = GameState::new();
    let id = put(&mut g, 5, 5, 0, Race::Human);
    g.set_terrain(5, 6, Terrain::Wall);
    let tiles = g.tiles.clone();
    let before = g.actors[id];
    g.perform_action(id, Action::Move(Direction::Forward));
    assert_eq!(g.tiles, tiles);
    assert_eq!(g.actors[id], before);
}

#[test]
fn move_into_occupied_tile_changes_nothing() {
    let mut g = GameState::new();
    let a = put(&mut g, 5, 5, 0, Race::Human);
    let b = put(&mut g, 5, 6, 3, Race::Grunt);
    let tiles = g.tiles.clone();
    let actors = g.actors.clone();
    g.perform_action(a, Action::Move(Direction::Forward));
    assert_eq!(g.tiles, tiles);
    assert_eq!(g.actors, actors);
    g.perform_action(b, Action::Run(Direction::Forward));
    assert_eq!(g.tiles, tiles);
    assert_eq!(g.actors, actors);
}

#[test]
fn turn_example_facing_zero_turn_two() {
    let mut g = GameState::new();
    let id = put(&mut g, 7, 7, 0, Race::Human);
    let tiles = g.tiles.clone();
    g.perform_action(id, Action::Turn(Direction::RightBack));
    assert_eq!(g.actors[id].facing, 2);
    assert_eq!((g.actors[id].x, g.actors[id].y), (7, 7));
    assert_eq!(g.tiles, tiles);
}

#[test]
fn half_turn_in_place_is_a_turn() {
    let mut g = GameState::new();
    let id = put(&mut g, 7, 7, 1, Race::Human);
    g.perform_action(id, Action::Turn(Direction::Around));
    assert_eq!(g.actors[id].facing, 4);
    g.perform_action(id, Action::Turn(Direction::Ahead));
    assert_eq!(g.actors[id].facing, 4);
    g.perform_action(id, Action::Move(Direction::Backward));
    // facing 4 turned around is direction 1: one step +x
    assert_eq!((g.actors[id].x, g.actors[id].y), (8, 7));
}

#[test]
fn turn_wraps_the_wheel_and_keeps_occupancy() {
    let mut g = GameState::new();
    let id = put(&mut g, 7, 7, 5, Race::Human);
    g.set_terrain(7, 7, Terrain::Wall);
    let tiles = g.tiles.clone();
    g.perform_action(id, Action::Turn(Direction::Left));
    assert_eq!(g.actors[id].facing, 4);
    assert_eq!(g.actors[id].prev_facing, 5);
    assert_eq!(g.tiles, tiles);
}

#[test]
fn use_and_wait_only_record_previous_position() {
    let mut g = GameState::new();
    let id = put(&mut g, 7, 7, 3, Race::Human);
    let tiles = g.tiles.clone();
    g.perform_action(id, Action::Use);
    g.perform_action(id, Action::Wait);
    assert_eq!(g.tiles, tiles);
    assert_eq!((g.actors[id].x, g.actors[id].y, g.actors[id].facing), (7, 7, 3));
}

#[test]
fn melee_kill_clears_tile_then_prune_drops_handle() {
    let mut g = GameState::new();
    let att = put(&mut g, 10, 10, 0, Race::Human);
    let tgt = put(&mut g, 10, 11, 3, Race::Scout);
    g.actors[tgt].health = 1;
    g.perform_action(att, Action::Melee(Direction::Forward));
    assert_eq!(tile(&g, 10, 11).occupant, None);
    assert!(!g.actors[tgt].present);
    assert_eq!(g.actors[tgt].health, 0);
    assert_eq!(g.actors[att].health, 10);
    assert!(g.registry.contains(&tgt));
    g.prune_registry();
    assert_eq!(g.registry, vec![att]);
}

#[test]
fn melee_on_survivor_draws_a_counter_blow() {
    let mut g = GameState::new();
    let att = put(&mut g, 10, 10, 0, Race::Human);
    let tgt = put(&mut g, 10, 11, 3, Race::Heavy);
    g.perform_action(att, Action::Melee(Direction::Forward));
    assert_eq!(g.actors[tgt].health, 9);
    assert_eq!(g.actors[att].health, 7);
    assert_eq!(tile(&g, 10, 11).occupant, Some(tgt));
}

#[test]
fn melee_on_empty_cell_does_nothing() {
    let mut g = GameState::new();
    let att = put(&mut g, 10, 10, 0, Race::Human);
    let tiles = g.tiles.clone();
    g.perform_action(att, Action::Melee(Direction::Around));
    assert_eq!(g.tiles, tiles);
    assert_eq!(g.actors[att].health, 10);
}

#[test]
fn tick_runs_actors_in_spawn_order() {
    let mut g = GameState::new();
    let a = put(&mut g, 1, 1, 0, Race::Scout);
    let b = put(&mut g, 20, 20, 0, Race::Scout);
    let mut script = Script::new(vec![Some(Action::Move(Direction::Forward)), None]);
    script.wants_los = true;
    let mut t = Traced::new(script);
    assert_eq!(g.tick(&mut t), Ok(()));
    assert_eq!(t.decided, vec![a, b]);
    assert_eq!(t.los, vec![a, b]);
    assert_eq!(t.done, vec![a]);
    let brain = t.brain;
    assert_eq!(brain.decided, vec![a, b]);
    assert_eq!(brain.sighted, vec![a, b]);
    assert_eq!(brain.done, vec![a]);
    assert_eq!((g.actors[a].x, g.actors[a].y), (1, 2));
    assert_eq!((g.actors[b].x, g.actors[b].y), (20, 20));
    assert_eq!(g.registry, vec![a, b]);
}

#[test]
fn tick_skips_dead_and_prunes_them() {
    let mut g = GameState::new();
    let a = put(&mut g, 1, 1, 0, Race::Human);
    let b = put(&mut g, 1, 2, 0, Race::Scout);
    let c = put(&mut g, 30, 30, 0, Race::Grunt);
    let d = put(&mut g, 40, 40, 0, Race::Grunt);
    g.actors[b].health = 1;
    g.actors[d].health = 0;
    let mut t = Traced::new(Script::new(vec![Some(Action::Melee(Direction::Forward)), Some(Action::Wait)]));
    let before = g.registry.len();
    assert_eq!(g.tick(&mut t), Ok(()));
    let brain = t.brain;
    // b dies under a's blow and is never asked; d was already dead
    assert_eq!(brain.decided, vec![a, c]);
    assert_eq!(g.registry.len(), before - 2);
    assert_eq!(g.registry, vec![a, c]);
    assert!(g.registry.iter().all(|&id| g.actors[id].present && g.actors[id].health > 0));
}

#[test]
fn tick_halts_on_turn_by_relative_marker() {
    let mut g = GameState::new();
    let a = put(&mut g, 1, 1, 0, Race::Human);
    let _b = put(&mut g, 5, 5, 0, Race::Scout);
    g.actors[_b].health = 0;
    let mut t = Traced::new(Script::new(vec![Some(Action::Turn(Direction::Backward))]));
    assert_eq!(g.tick(&mut t), Err(a));
    assert_eq!(g.registry.len(), 2);
    assert!(t.done.is_empty());
    assert_eq!(t.decided, vec![a]);
}

#[test]
fn player_los_refresh_goes_to_the_player() {
    let mut g = GameState::new();
    let mut t = Traced::new(Script::new(vec![]));
    g.update_player_los(&mut t);
    assert!(t.brain.sighted.is_empty());
    let p = g.spawn(Actor::new(2, 2, 0, true, Race::Human)).unwrap();
    g.player = Some(p);
    g.update_player_los(&mut t);
    assert_eq!(t.brain.sighted, vec![p]);
    assert_eq!(t.los, vec![p]);
    assert!(t.decided.is_empty());
}

#[test]
fn tick_never_refreshes_the_player_sight() {
    let mut g = GameState::new();
    let p = g.spawn(Actor::new(2, 2, 0, true, Race::Human)).unwrap();
    g.player = Some(p);
    let s = put(&mut g, 9, 9, 0, Race::Scout);
    let mut script = Script::new(vec![None, None]);
    script.wants_los = true;
    let mut t = Traced::new(script);
    assert_eq!(g.tick(&mut t), Ok(()));
    assert_eq!(t.los, vec![s]);
    assert_eq!(t.decided, vec![p, s]);
}

#[test]
fn spawn_random_on_saturated_grid_gives_up() {
    let mut g = GameState::new();
    for y in 0..100 {
        for x in 0..100 {
            g.set_terrain(x, y, Terrain::Wall);
        }
    }
    assert!(SPAWN_ATTEMPTS > 0);
    assert_eq!(g.spawn_random(false, Race::Scout), None);
    assert!(g.registry.is_empty());
}

#[test]
fn spawn_random_finds_the_only_passable_tile() {
    let mut g = GameState::with_seed(5);
    for y in 0..100 {
        for x in 0..100 {
            if (x, y) != (37, 61) {
                g.set_terrain(x, y, Terrain::Wall);
            }
        }
    }
    let id = g.spawn_random(false, Race::Grunt).unwrap();
    assert_eq!((g.actors[id].x, g.actors[id].y), (37, 61));
    assert_eq!(tile(&g, 37, 61).occupant, Some(id));
}

#[test]
fn seed_terrain_later_patches_win() {
    let mut g = GameState::new();
    g.seed_terrain(&vec![(10, 10, 1), (11, 10, 0), (50, 50, 4)]);
    // (10, 10) is covered by both patches: the later glass wins
    assert_eq!(tile(&g, 10, 10).terrain, Terrain::GlassWall);
    // (9, 10) is covered only by the first
    assert_eq!(tile(&g, 9, 10).terrain, Terrain::Sand);
    assert_eq!(tile(&g, 12, 10).terrain, Terrain::GlassWall);
    assert_eq!(tile(&g, 50, 50).terrain, Terrain::Wall);
    assert_eq!(tile(&g, 30, 30).terrain, Terrain::Floor);
}

#[test]
fn spawn_random_lands_on_passable_terrain() {
    let mut g = GameState::with_seed(3);
    let id = g.spawn_random(true, Race::Human).unwrap();
    let a = g.actors[id];
    assert!(a.present && a.is_player && a.race == Race::Human);
    assert_eq!(tile(&g, a.x, a.y).occupant, Some(id));
}

#[test]
fn paint_patch_covers_cell_and_six_neighbours() {
    let mut g = GameState::new();
    g.paint_patch(10, 10, Terrain::Sand);
    let sand = g.tiles.iter().filter(|t| t.terrain == Terrain::Sand).count();
    assert_eq!(sand, 7);
    for (x, y) in [(10, 10), (10, 11), (11, 10), (11, 9), (10, 9), (9, 10), (9, 11)] {
        assert_eq!(tile(&g, x, y).terrain, Terrain::Sand);
    }
    g.paint_patch(0, 0, Terrain::GlassWall);
    assert_eq!(tile(&g, 99, 0).terrain, Terrain::GlassWall);
    assert_eq!(tile(&g, 1, 99).terrain, Terrain::GlassWall);
}

#[test]
fn border_walls_cover_the_edges_only() {
    let mut g = GameState::new();
    g.force_border_walls();
    let walls = g.tiles.iter().filter(|t| t.terrain == Terrain::Wall).count();
    assert_eq!(walls, 4 * 100 - 4);
    assert_eq!(tile(&g, 0, 50).terrain, Terrain::Wall);
    assert_eq!(tile(&g, 99, 50).terrain, Terrain::Wall);
    assert_eq!(tile(&g, 50, 0).terrain, Terrain::Wall);
    assert_eq!(tile(&g, 50, 99).terrain, Terrain::Wall);
    assert_eq!(tile(&g, 1, 1).terrain, Terrain::Floor);
}

fn race_counts(g: &GameState) -> [usize; 4] {
    let mut c = [0usize; 4];
    for a in g.actors.iter().filter(|a| a.present) {
        let k = match a.race {
            Race::Human => 0,
            Race::Scout => 1,
            Race::Grunt => 2,
            Race::Heavy => 3,
        };
        c[k] += 1;
    }
    c
}

#[test]
fn randomize_map_walls_border_and_populates() {
    let mut g = GameState::with_seed(11);
    g.randomize_map();
    for i in 0..100 {
        assert_eq!(tile(&g, i, 0).terrain, Terrain::Wall);
        assert_eq!(tile(&g, i, 99).terrain, Terrain::Wall);
        assert_eq!(tile(&g, 0, i).terrain, Terrain::Wall);
        assert_eq!(tile(&g, 99, i).terrain, Terrain::Wall);
    }
    assert_eq!(g.actors.len(), 50 + 25 + 12 + 1);
    assert_eq!(g.registry.len(), 88);
    let p = g.player.unwrap();
    assert!(g.actors[p].is_player);
    assert_eq!(g.actors[p].race, Race::Human);
    assert_eq!(*g.registry.last().unwrap(), p);
    assert_eq!(race_counts(&g)[0], 1);
    for (k, &id) in g.registry.iter().enumerate() {
        assert_eq!(id, k);
        let want = if k < 50 {
            Race::Scout
        } else if k < 75 {
            Race::Grunt
        } else if k < 87 {
            Race::Heavy
        } else {
            Race::Human
        };
        assert_eq!(g.actors[id].race, want);
        assert_eq!(g.actors[id].is_player, k == 87);
    }
    for (i, t) in g.tiles.iter().enumerate() {
        if let Some(a) = t.occupant {
            assert_eq!(g.actors[a].y * 100 + g.actors[a].x, i);
        }
    }
}

#[test]
fn world_generation_is_deterministic_for_a_seed() {
    let mut g1 = GameState::with_seed(42);
    let mut g2 = GameState::with_seed(42);
    g1.randomize_map();
    g2.randomize_map();
    let t1: Vec<Terrain> = g1.tiles.iter().map(|t| t.terrain).collect();
    let t2: Vec<Terrain> = g2.tiles.iter().map(|t| t.terrain).collect();
    assert_eq!(t1, t2);
    assert_eq!(race_counts(&g1), race_counts(&g2));
    assert!(t1.iter().any(|t| *t != Terrain::Wall && *t != Terrain::Floor));
}

#[test]
fn terrain_rolls_follow_their_odds() {
    assert_eq!(terrain_for_roll(0), Terrain::GlassWall);
    assert_eq!(terrain_for_roll(1), Terrain::Sand);
    for r in 2..6 {
        assert_eq!(terrain_for_roll(r), Terrain::Wall);
    }
    assert!(Terrain::Floor.is_passable() && Terrain::Sand.is_passable());
    assert!(!Terrain::Wall.is_passable() && !Terrain::GlassWall.is_passable());
}

#[test]
fn hex_steps_and_wrapping() {
    let g = GameState::new();
    // one step along each of the six directions from (2, 2)
    assert_eq!(g.neighbor_of(2, 2, 0), (2, 3));
    assert_eq!(g.neighbor_of(2, 2, 1), (3, 2));
    assert_eq!(g.neighbor_of(2, 2, 2), (3, 1));
    assert_eq!(g.neighbor_of(2, 2, 3), (2, 1));
    assert_eq!(g.neighbor_of(2, 2, 4), (1, 2));
    assert_eq!(g.neighbor_of(2, 2, 5), (1, 3));
    // facing 4 turned back by three sixths faces 1
    assert_eq!(g.ahead_of(Actor::new(2, 2, 4, false, Race::Scout), 3), (3, 2));
    assert_eq!(wrap_coord(-1, 100), 99);
    assert_eq!(wrap_coord(100, 100), 0);
    assert_eq!(wrap_coord(42, 100), 42);
}

#[test]
fn ahead_of_turns_and_wraps() {
    let g = GameState::new();
    let a = Actor::new(0, 0, 3, false, Race::Scout);
    // facing 3 is -y: from row 0 it wraps to row 99
    assert_eq!(g.ahead_of(a, 0), (0, 99));
    // turned back it faces +y
    assert_eq!(g.ahead_of(a, 3), (0, 1));
    assert_eq!(g.neighbor_of(99, 5, 1), (0, 5));
}

#[test]
fn strike_health_saturates() {
    assert_eq!(strike_health(10, 3), 7);
    assert_eq!(strike_health(3, 3), 0);
    assert_eq!(strike_health(1, 3), 0);
    assert_eq!(Race::Heavy.power(), 3);
    assert_eq!(Race::Scout.max_health(), 4);
    assert_eq!(Direction::LeftBack.turns(), 4);
    assert!(Action::Turn(Direction::Right).is_legal());
    assert!(!Action::Turn(Direction::Forward).is_legal());
    assert!(Action::Move(Direction::Backward).is_legal());
    assert!(Action::Turn(Direction::Ahead).is_legal());
    assert!(Action::Turn(Direction::Around).is_legal());
    assert!(!Action::Turn(Direction::Backward).is_legal());
    assert_eq!(Direction::Backward.turns(), 3);
    assert!(Actor::new(0, 0, 0, false, Race::Grunt).is_alive());
}
