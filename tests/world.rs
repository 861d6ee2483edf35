use std::rc::Rc;
use tilegame::actor::{ActorInfo, BoundingRect};
use tilegame::game::{Actor, Game, GameState, PendingEvent};
use tilegame::map::{MapLayer, TileMap};

#[derive(Default)]
struct Recorder {
    updates: usize,
    deaths: usize,
    world_hits: usize,
    actor_hits: Vec<usize>,
    destroy_on_update: bool,
    spawn_on_update: bool,
    buttons: Vec<String>,
    inits: usize,
    released: usize,
    moves: usize,
    damage_on_touch: i32,
}

impl Actor for Recorder {
    fn update(&mut self, me: &mut ActorInfo, _map: &Option<TileMap>, _actors: &Vec<ActorInfo>, events: &mut Vec<PendingEvent<Self>>) {
        self.updates += 1;
        if self.destroy_on_update {
            me.destroy();
        }
        if self.spawn_on_update {
            self.spawn_on_update = false;
            events.push(PendingEvent::AddActor(ActorInfo::new(1, 1), Recorder::default()));
        }
    }

    fn before_move(&mut self, _me: &mut ActorInfo, _map: &Option<TileMap>, _actors: &Vec<ActorInfo>, _events: &mut Vec<PendingEvent<Self>>) {
    }

    fn after_move(&mut self, _me: &mut ActorInfo, _map: &Option<TileMap>, _actors: &Vec<ActorInfo>, _events: &mut Vec<PendingEvent<Self>>) {
        self.moves += 1;
    }

    fn on_collide_with_world(&mut self, _me: &mut ActorInfo, _map: &Option<TileMap>, _actors: &Vec<ActorInfo>, _events: &mut Vec<PendingEvent<Self>>) {
        self.world_hits += 1;
    }

    fn on_collide_with_actor(&mut self, _me: &mut ActorInfo, other: usize, _map: &Option<TileMap>, _actors: &Vec<ActorInfo>, events: &mut Vec<PendingEvent<Self>>) {
        if self.damage_on_touch != 0 {
            events.push(PendingEvent::AdjustHealth(other, self.damage_on_touch));
        }
        self.actor_hits.push(other);
    }

    fn init(&mut self, _me: &mut ActorInfo, _map: &Option<TileMap>, _actors: &Vec<ActorInfo>, _events: &mut Vec<PendingEvent<Self>>) {
        self.inits += 1;
    }

    fn on_persistent_actor_removed(&mut self, _me: &mut ActorInfo, _map: &Option<TileMap>, _actors: &Vec<ActorInfo>, _events: &mut Vec<PendingEvent<Self>>) {
        self.released += 1;
    }

    fn on_button_down(&mut self, _me: &mut ActorInfo, name: &str, _map: &Option<TileMap>, _actors: &Vec<ActorInfo>, _events: &mut Vec<PendingEvent<Self>>) {
        self.buttons.push(format!("down {}", name));
    }

    fn on_button_up(&mut self, _me: &mut ActorInfo, name: &str, _map: &Option<TileMap>, _actors: &Vec<ActorInfo>, _events: &mut Vec<PendingEvent<Self>>) {
        self.buttons.push(format!("up {}", name));
    }

    fn on_death(&mut self, _me: &mut ActorInfo, _map: &Option<TileMap>, _actors: &Vec<ActorInfo>, _events: &mut Vec<PendingEvent<Self>>) {
        self.deaths += 1;
    }
}

fn open_map() -> TileMap {
    let mut map = TileMap::new("open");
    map.layers.push(Rc::new(MapLayer::new("main", 32, 32, 8, 8, 8)));
    map
}

fn boxed(x: isize, y: isize, blocking: bool) -> ActorInfo {
    let mut a = ActorInfo::new(x, y);
    a.set_collision_bounds(BoundingRect { x: 0, y: 0, width: 8, height: 8 });
    a.blocking_collision = blocking;
    a
}

fn world_with(actors: Vec<ActorInfo>, behaviors: Vec<Recorder>) -> GameState<Recorder> {
    let mut state: GameState<Recorder> = GameState::new();
    state.load_map(open_map(), actors, behaviors);
    state.apply_pending_events();
    state
}

#[test]
fn mover_stops_against_stationary_actor() {
    let stationary = boxed(50, 50, true);
    let mut mover = boxed(30, 50, false);
    mover.velocity_x = 2 * 256;
    let mut state = world_with(vec![stationary, mover], vec![Recorder::default(), Recorder::default()]);
    for _ in 0..6 {
        state.tick(&mut ());
    }
    assert_eq!(state.actors[1].x, 42);
    assert!(state.behaviors[1].actor_hits.is_empty());
    state.tick(&mut ());
    assert_eq!(state.actors[1].x, 42);
    assert_eq!(state.actors[1].velocity_x, 0);
    assert_eq!(state.behaviors[1].actor_hits, vec![0]);
    for _ in 0..5 {
        state.tick(&mut ());
    }
    assert_eq!(state.actors[1].x, 42);
    assert_eq!(state.behaviors[1].actor_hits, vec![0]);
    assert_eq!(state.actors[0].x, 50);
}

#[test]
fn death_callback_runs_once() {
    let mut state = world_with(vec![ActorInfo::new(5, 5)], vec![Recorder::default()]);
    assert!(state.adjust_health(0, -150));
    assert!(state.actors[0].health <= 0);
    assert_eq!(state.behaviors[0].deaths, 1);
    assert!(!state.adjust_health(0, -150));
    assert_eq!(state.actors[0].health, -50);
    assert_eq!(state.behaviors[0].deaths, 1);
}

#[test]
fn destroyed_actor_leaves_on_the_next_tick() {
    let doomed = Recorder { destroy_on_update: true, ..Recorder::default() };
    let mut state = world_with(vec![boxed(10, 10, false), boxed(12, 12, false)], vec![doomed, Recorder::default()]);
    state.tick(&mut ());
    assert_eq!(state.actors.len(), 2);
    assert!(state.actors[0].destroyed);
    assert_eq!(state.behaviors[0].updates, 1);
    // the doomed actor still got this tick's overlap callback
    assert_eq!(state.behaviors[0].actor_hits, vec![1]);
    assert_eq!(state.behaviors[1].actor_hits, vec![0]);
    state.tick(&mut ());
    assert_eq!(state.actors.len(), 1);
    assert_eq!(state.behaviors[0].updates, 2);
    assert!(!state.actors[0].destroyed);
}

#[test]
fn spawned_actor_joins_next_tick() {
    let spawner = Recorder { spawn_on_update: true, ..Recorder::default() };
    let mut state = world_with(vec![ActorInfo::new(0, 0)], vec![spawner]);
    state.tick(&mut ());
    assert_eq!(state.actors.len(), 1);
    state.tick(&mut ());
    assert_eq!(state.actors.len(), 2);
    assert_eq!(state.behaviors[1].updates, 1);
    assert_eq!((state.actors[1].x, state.actors[1].y), (1, 1));
}

#[test]
fn paused_world_does_not_tick_actors() {
    let mut a = ActorInfo::new(0, 0);
    a.velocity_x = 256;
    let mut state = world_with(vec![a], vec![Recorder::default()]);
    state.pause();
    assert!(state.is_paused());
    state.tick(&mut ());
    assert_eq!(state.actors[0].x, 0);
    assert_eq!(state.behaviors[0].updates, 0);
    assert_eq!(state.frame, 1);
    state.resume();
    state.tick(&mut ());
    assert_eq!(state.actors[0].x, 1);
}

#[test]
fn unload_map_clears_world() {
    let mut state = world_with(vec![ActorInfo::new(0, 0)], vec![Recorder::default()]);
    assert!(state.map.is_some());
    state.unload_map();
    state.tick(&mut ());
    assert!(state.map.is_none());
    assert!(state.actors.is_empty());
}

#[test]
fn invalid_spawn_is_dropped() {
    let mut state = world_with(vec![], vec![]);
    let mut bad = ActorInfo::new(0, 0);
    bad.x = isize::MAX;
    state.add_actor(bad, Recorder::default());
    state.add_actor(ActorInfo::new(2, 3), Recorder::default());
    state.apply_pending_events();
    assert_eq!(state.actors.len(), 1);
    assert_eq!(state.actors[0].x, 2);
}

#[test]
fn world_collision_reaches_callback() {
    let mut a = boxed(240, 0, false);
    a.velocity_x = 20 * 256;
    let mut state = world_with(vec![a], vec![Recorder::default()]);
    state.tick(&mut ());
    assert_eq!(state.actors[0].x, 248);
    assert_eq!(state.behaviors[0].world_hits, 1);
}

#[test]
fn input_goes_to_controlled_actor_only() {
    let doomed = Recorder { destroy_on_update: true, ..Recorder::default() };
    let mut state = world_with(vec![ActorInfo::new(0, 0), ActorInfo::new(1, 1)], vec![doomed, Recorder::default()]);
    state.button_down("jump");
    assert!(state.behaviors[0].buttons.is_empty() && state.behaviors[1].buttons.is_empty());
    state.set_controlled_actor(Some(1));
    state.tick(&mut ());
    state.button_down("jump");
    state.button_up("jump");
    assert_eq!(state.behaviors[1].buttons, vec!["down jump", "up jump"]);
    assert!(state.behaviors[0].buttons.is_empty());
    // the first actor leaves; the handle follows the controlled actor
    state.tick(&mut ());
    assert_eq!(state.actors.len(), 1);
    assert_eq!(state.controlled_actor, Some(0));
    state.button_down("fire");
    assert_eq!(state.behaviors[0].buttons, vec!["down jump", "up jump", "down fire"]);
}

struct FrameCounter(usize);

impl Game for FrameCounter {
    fn tick(&mut self) {
        self.0 += 1;
    }
}

#[test]
fn game_hook_runs_every_frame() {
    let mut state = world_with(vec![ActorInfo::new(0, 0)], vec![Recorder::default()]);
    let mut game = FrameCounter(0);
    state.tick(&mut game);
    state.pause();
    state.tick(&mut game);
    assert_eq!(game.0, 2);
    assert_eq!(state.behaviors[0].updates, 1);
    assert_eq!(state.frame, 2);
}

#[test]
fn fade_and_camera_events_apply_next_tick() {
    let mut state = world_with(vec![], vec![]);
    state.fade_out();
    state.set_camera_shake(2, -3);
    state.set_scroll(10, 20);
    assert_eq!(state.target_fade_alpha, 0);
    state.tick(&mut ());
    assert_eq!(state.target_fade_alpha, 16);
    assert_eq!(state.fade_alpha, 1);
    assert_eq!((state.camera_shake_x, state.camera_shake_y), (2, -3));
    assert_eq!((state.scroll_x, state.scroll_y), (10, 20));
    for _ in 0..20 {
        state.tick(&mut ());
    }
    assert_eq!(state.fade_alpha, 16);
    state.fade_in();
    state.tick(&mut ());
    assert_eq!(state.fade_alpha, 15);
}

#[test]
fn persistent_actor_follows_map_changes() {
    let mut state = world_with(vec![ActorInfo::new(1, 0)], vec![Recorder::default()]);
    assert_eq!(state.behaviors[0].inits, 1);
    state.add_persistent_actor(ActorInfo::new(7, 7), Recorder::default());
    state.add_actor(ActorInfo::new(8, 8), Recorder::default());
    state.tick(&mut ());
    assert_eq!(state.actors.len(), 3);
    assert_eq!(state.persistent, vec![false, true, false]);
    state.load_map(open_map(), vec![ActorInfo::new(2, 2)], vec![Recorder::default()]);
    state.tick(&mut ());
    assert_eq!(state.actors.len(), 2);
    assert_eq!((state.actors[0].x, state.actors[1].x), (2, 7));
    assert_eq!(state.persistent, vec![false, true]);
    assert_eq!(state.behaviors[1].inits, 1);
    assert_eq!(state.behaviors[1].updates, 2);
    state.unload_map();
    state.tick(&mut ());
    assert!(state.actors.is_empty());
    assert_eq!(state.stashed_actors.len(), 1);
    state.load_map(open_map(), vec![], vec![]);
    state.tick(&mut ());
    assert_eq!(state.actors.len(), 1);
    assert_eq!(state.actors[0].x, 7);
    assert_eq!(state.behaviors[0].inits, 2);
    assert!(state.stashed_actors.is_empty());
}

#[test]
fn clearing_persistence_notifies_and_ends_it() {
    let mut state = world_with(vec![], vec![]);
    state.add_persistent_actor(ActorInfo::new(7, 7), Recorder::default());
    state.tick(&mut ());
    state.clear_persistent_actors();
    state.tick(&mut ());
    assert_eq!(state.behaviors[0].released, 1);
    assert_eq!(state.persistent, vec![false]);
    state.load_map(open_map(), vec![], vec![]);
    state.tick(&mut ());
    assert!(state.actors.is_empty());
}

#[test]
fn damage_zone_hurts_another_actor_next_tick() {
    let zone = Recorder { damage_on_touch: -150, ..Recorder::default() };
    let mut state = world_with(vec![boxed(10, 10, false), boxed(12, 12, false)], vec![zone, Recorder::default()]);
    state.tick(&mut ());
    // the hit is queued during the tick and applied at the start of the next
    assert_eq!(state.actors[1].health, 100);
    assert_eq!(state.pending_events.len(), 1);
    state.tick(&mut ());
    assert!(state.actors[1].health <= 0);
    assert_eq!(state.behaviors[1].deaths, 1);
    assert_eq!(state.actors[0].health, 100);
    assert_eq!(state.behaviors[0].moves, 2);
}
