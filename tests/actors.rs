use std::rc::Rc;
use tilegame::actor::{ActorInfo, BoundingRect, MovementCollision};
use tilegame::map::{BlendMode, MapLayer, TileMap};
use tilegame::sprite::{Sprite, SpriteAnimation};
use tilegame::tile::Animation;

fn open_map() -> Option<TileMap> {
    let mut map = TileMap::new("open");
    map.layers.push(Rc::new(MapLayer::new("main", 32, 32, 8, 8, 8)));
    Some(map)
}

fn boxed(x: isize, y: isize, blocking: bool) -> ActorInfo {
    let mut a = ActorInfo::new(x, y);
    a.set_collision_bounds(BoundingRect { x: 0, y: 0, width: 8, height: 8 });
    a.blocking_collision = blocking;
    a
}

#[test]
fn new_actor_defaults() {
    let a = ActorInfo::new(3, -4);
    assert_eq!((a.x, a.y, a.subpixel_x, a.velocity_x), (3, -4, 0, 0));
    assert_eq!(a.health, 100);
    assert!(a.collision_bounds.is_none());
    assert!(!a.blocking_collision);
    assert!(!a.is_destroyed());
}

#[test]
fn velocity_integrates_without_drift() {
    let mut a = ActorInfo::new(10, 0);
    a.velocity_x = 384;
    let actors: Vec<ActorInfo> = Vec::new();
    for _ in 0..3 {
        assert_eq!(a.move_with_collision(&None, &actors, 0), MovementCollision::Unobstructed);
    }
    // (10 * 256 + 3 * 384) / 256 = 14.5
    assert_eq!(a.x, 14);
    assert_eq!(a.subpixel_x, 128);
    assert_eq!(a.velocity_x, 384);
}

#[test]
fn negative_velocity_rounds_down() {
    let mut a = ActorInfo::new(0, 0);
    a.velocity_y = -1;
    a.move_with_collision(&None, &Vec::new(), 0);
    assert_eq!(a.y, -1);
    assert_eq!(a.subpixel_y, 255);
}

#[test]
fn move_stops_at_blocking_actor() {
    let wall = boxed(50, 50, true);
    let mut mover = boxed(40, 50, false);
    mover.velocity_x = 5 * 256;
    let actors = vec![wall, boxed(0, 0, false)];
    let outcome = mover.move_with_collision(&open_map(), &actors, 1);
    assert_eq!(outcome, MovementCollision::CollidedWithActor(0));
    assert_eq!(mover.x, 42);
    assert_eq!(mover.subpixel_x, 0);
    assert_eq!(mover.velocity_x, 0);
}

#[test]
fn move_ignores_non_blocking_and_itself() {
    let ghost = boxed(50, 50, false);
    let mut mover = boxed(40, 50, true);
    mover.velocity_x = 20 * 256;
    let snapshot = vec![ghost, boxed(40, 50, true)];
    let outcome = mover.move_with_collision(&open_map(), &snapshot, 1);
    assert_eq!(outcome, MovementCollision::Unobstructed);
    assert_eq!(mover.x, 60);
}

#[test]
fn move_stops_at_map_edge() {
    let mut mover = boxed(240, 0, false);
    mover.velocity_x = 30 * 256;
    mover.velocity_y = 256;
    let outcome = mover.move_with_collision(&open_map(), &Vec::new(), 0);
    assert_eq!(outcome, MovementCollision::CollidedWithWorld);
    assert_eq!(mover.x, 248);
    assert_eq!(mover.velocity_x, 0);
    assert_eq!(mover.y, 1);
    assert_eq!(mover.velocity_y, 256);
}

#[test]
fn actor_cause_wins_over_world_cause() {
    let blocker = boxed(0, 20, true);
    let mut mover = boxed(240, 0, false);
    mover.velocity_x = 30 * 256;
    mover.velocity_y = 30 * 256;
    let outcome = mover.move_with_collision(&open_map(), &vec![blocker], 5);
    assert_eq!(outcome, MovementCollision::CollidedWithWorld);
    let blocker_below = boxed(248, 20, true);
    let mut mover2 = boxed(240, 0, false);
    mover2.velocity_x = 30 * 256;
    mover2.velocity_y = 30 * 256;
    let outcome2 = mover2.move_with_collision(&open_map(), &vec![blocker_below], 5);
    assert_eq!(outcome2, MovementCollision::CollidedWithActor(0));
    assert_eq!((mover2.x, mover2.y), (248, 12));
}

#[test]
fn overlap_scan_reports_triggers() {
    let me = boxed(10, 10, false);
    let actors = vec![boxed(12, 12, false), boxed(18, 10, true), boxed(10, 10, true), ActorInfo::new(10, 10)];
    assert_eq!(me.check_for_actor_collision(&actors, 2), vec![0]);
    assert_eq!(ActorInfo::new(10, 10).check_for_actor_collision(&actors, 9), Vec::<usize>::new());
}

#[test]
fn health_drops_once() {
    let mut a = ActorInfo::new(0, 0);
    assert!(a.adjust_health(-150));
    assert_eq!(a.health, -50);
    assert!(!a.adjust_health(-10));
    assert_eq!(a.health, -50);
    assert!(!a.adjust_health(500));
    assert_eq!(a.health, -50);
}

#[test]
fn health_saturates() {
    let mut a = ActorInfo::new(0, 0);
    assert!(!a.adjust_health(i32::MAX));
    assert_eq!(a.health, i32::MAX);
    let mut b = ActorInfo::new(0, 0);
    b.health = 1;
    assert!(b.adjust_health(i32::MIN));
    assert_eq!(b.health, i32::MIN + 1);
}

fn one_frame(name: &str) -> SpriteAnimation {
    SpriteAnimation {
        name: name.to_string(),
        width: 1,
        height: 1,
        depth: 8,
        single_frame_size: 1,
        palette: None,
        data: vec![0],
        animation: Animation::new(vec![1]),
        frames: 1,
        looping: true,
    }
}

fn hero() -> Rc<Sprite> {
    let mut sprite = Sprite::new("hero", 1, 1, 8);
    sprite.push(one_frame("idle"));
    sprite.push(one_frame("walk"));
    Rc::new(sprite)
}

#[test]
fn sprites_attach_in_order() {
    let mut a = ActorInfo::new(0, 0);
    assert_eq!(a.add_sprite(hero(), 1, 2), 0);
    assert_eq!(a.add_sprite_with_blending(hero(), 0, 0, BlendMode::Add, 7), 1);
    assert_eq!(a.sprites[0].animation.name, "idle");
    assert_eq!(a.sprites[1].blend_mode, BlendMode::Add);
    assert_eq!(a.get_sprite_alpha(1), 7);
    assert_eq!(a.get_sprite_alpha(5), 0);
}

#[test]
fn sprite_alpha_adjusts_within_limits() {
    let mut a = ActorInfo::new(0, 0);
    a.add_sprite(hero(), 0, 0);
    a.adjust_sprite_alpha(0, 10);
    assert_eq!(a.get_sprite_alpha(0), 10);
    a.adjust_sprite_alpha(0, 10);
    assert_eq!(a.get_sprite_alpha(0), 16);
    a.adjust_sprite_alpha(0, -3);
    assert_eq!(a.get_sprite_alpha(0), 13);
    a.adjust_sprite_alpha(0, -128);
    assert_eq!(a.get_sprite_alpha(0), 0);
    a.set_sprite_alpha(3, 9);
    a.set_sprite_alpha(0, 200);
    assert_eq!(a.get_sprite_alpha(0), 200);
}

#[test]
fn start_animation_switches_once() {
    let mut a = ActorInfo::new(0, 0);
    a.add_sprite(hero(), 0, 0);
    a.sprites[0].animation_frame = 9;
    a.start_animation("idle");
    assert_eq!(a.sprites[0].animation_frame, 9);
    a.start_animation("walk");
    assert_eq!(a.sprites[0].animation.name, "walk");
    assert_eq!(a.sprites[0].animation_index, 1);
    assert_eq!(a.sprites[0].animation_frame, 0);
    a.sprites[0].animation_frame = 4;
    a.start_animation("walk");
    assert_eq!(a.sprites[0].animation_frame, 4);
    a.start_animation("jump");
    assert_eq!(a.sprites[0].animation_index, 1);
    a.advance_animations();
    assert_eq!(a.sprites[0].animation_frame, 5);
}

#[test]
fn collision_bounds_set_and_clear() {
    let mut a = ActorInfo::new(0, 0);
    a.set_collision_bounds(BoundingRect { x: 1, y: 2, width: 3, height: 4 });
    assert_eq!(a.collision_bounds, Some(BoundingRect { x: 1, y: 2, width: 3, height: 4 }));
    a.clear_collision_bounds();
    assert_eq!(a.collision_bounds, None);
    assert!(a.is_valid());
    a.velocity_x = isize::MAX;
    assert!(!a.is_valid());
}

#[test]
fn blocking_actor_stops_mover_without_map() {
    let wall = boxed(50, 50, true);
    let mut mover = boxed(30, 50, false);
    mover.velocity_x = 2 * 256;
    let actors = vec![wall];
    for _ in 0..6 {
        assert_eq!(mover.move_with_collision(&None, &actors, 1), MovementCollision::Unobstructed);
    }
    assert_eq!(mover.x, 42);
    assert_eq!(mover.move_with_collision(&None, &actors, 1), MovementCollision::CollidedWithActor(0));
    assert_eq!((mover.x, mover.y, mover.velocity_x), (42, 50, 0));
}

#[test]
fn position_bound_keeps_resting_actor_in_place() {
    let mut edge = ActorInfo::new(1 << 20, 0);
    assert!(edge.is_valid());
    edge.subpixel_x = 1;
    assert!(!edge.is_valid());
    edge.subpixel_x = 0;
    edge.move_with_collision(&None, &Vec::new(), 0);
    assert_eq!((edge.x, edge.subpixel_x), (1 << 20, 0));
}
