use std::rc::Rc;
use tilegame::actor::BoundingRect;
use tilegame::map::{MapLayer, TileMap, TileRef};
use tilegame::palette::{Palette, RawPalette};
use tilegame::sprite::{Sprite, SpriteAnimation};
use tilegame::tile::{Animation, Tile, TileSet};

fn solid_tiles() -> Rc<TileSet> {
    let mut set = TileSet::new("walls", 8, 8, 8, None);
    set.push(Tile { palette: None, data: vec![0; 64], collision: vec![] });
    set.push(Tile {
        palette: None,
        data: vec![1; 64],
        collision: vec![BoundingRect { x: 0, y: 0, width: 8, height: 8 }],
    });
    Rc::new(set)
}

fn layer_with_wall(wall_x: usize, wall_y: usize) -> MapLayer {
    let tiles = solid_tiles();
    let mut layer = MapLayer::new("main", 16, 16, 8, 8, 8);
    layer.set_tile(wall_x, wall_y, Some(TileRef { tile_set: tiles, tile_index: 1 }));
    layer
}

fn rect(x: isize, y: isize, width: isize, height: isize) -> BoundingRect {
    BoundingRect { x, y, width, height }
}

#[test]
fn convert_color_spreads_channels() {
    assert_eq!(Palette::convert_color(0x7fff), 0xf8f8f8);
    assert_eq!(Palette::convert_color(0x001f), 0x0000f8);
    assert_eq!(Palette::convert_color(0x03e0), 0x00f800);
    assert_eq!(Palette::convert_color(0x7c00), 0xf80000);
    assert_eq!(Palette::convert_color(0x0421), 0x080808);
}

#[test]
fn palette_from_raw_converts_entries() {
    let raw = RawPalette { name: "p".to_string(), id: "id".to_string(), entries: vec![0x001f, 0x7c00] };
    let palette = Palette::from_raw(raw);
    assert_eq!(palette.entries, vec![0xf8, 0xf80000]);
    assert_eq!(palette.name, "p");
}

#[test]
fn animation_table_repeats_frames() {
    let anim = Animation::new(vec![2, 0, 3]);
    assert_eq!(anim.total_length, 5);
    assert_eq!(anim.frame_for_time, vec![0, 0, 2, 2, 2]);
}

#[test]
fn tile_set_frames_loop() {
    let mut set = TileSet::new("anim", 2, 2, 8, Some(Animation::new(vec![1, 2])));
    assert_eq!(set.frames, 2);
    assert_eq!(set.single_frame_size, 4);
    set.push(Tile { palette: None, data: vec![1, 1, 1, 1, 2, 2, 2, 2], collision: vec![] });
    assert_eq!(set.frame_for_time(0), 0);
    assert_eq!(set.frame_for_time(1), 1);
    assert_eq!(set.frame_for_time(2), 1);
    assert_eq!(set.frame_for_time(3), 0);
    assert_eq!(set.data_for_frame(0, 1), &[2, 2, 2, 2]);
    assert_eq!(set.data_for_time(0, 4), &[2, 2, 2, 2]);
}

#[test]
fn tile_set_frame_sizes_by_depth() {
    assert_eq!(TileSet::new("a", 5, 3, 4, None).single_frame_size, 9);
    assert_eq!(TileSet::new("b", 5, 3, 8, None).single_frame_size, 15);
    assert_eq!(TileSet::new("c", 5, 3, 16, None).single_frame_size, 30);
    assert_eq!(TileSet::new("d", 5, 3, 16, None).id, "runtime");
}

fn animation(name: &str, lengths: Vec<usize>, looping: bool) -> SpriteAnimation {
    let animation = Animation::new(lengths);
    let frames = animation.frame_lengths.len();
    SpriteAnimation {
        name: name.to_string(),
        width: 1,
        height: 1,
        depth: 8,
        single_frame_size: 1,
        palette: None,
        data: (0..frames as u8).collect(),
        animation,
        frames,
        looping,
    }
}

#[test]
fn sprite_lookup_prefers_last_of_a_name() {
    let mut sprite = Sprite::new("hero", 1, 1, 8);
    sprite.push(animation("idle", vec![1], true));
    sprite.push(animation("walk", vec![1, 1], true));
    sprite.push(animation("walk", vec![2], true));
    assert_eq!(sprite.animation_index_by_name("walk"), Some(2));
    assert_eq!(sprite.animation_index_by_name("idle"), Some(0));
    assert_eq!(sprite.animation_index_by_name("run"), None);
    assert!(sprite.get_animation_by_name("run").is_none());
    assert_eq!(sprite.get_animation_by_name("walk").unwrap().frames, 1);
    assert_eq!(sprite.get_default_animation().name, "idle");
}

#[test]
fn non_looping_animation_holds_last_frame() {
    let once = animation("once", vec![1, 2], false);
    assert_eq!(once.frame_for_time(0), 0);
    assert_eq!(once.frame_for_time(2), 1);
    assert_eq!(once.frame_for_time(50), 1);
    assert_eq!(once.data_for_time(50), &[1]);
    let looping = animation("loop", vec![1, 2], true);
    assert_eq!(looping.frame_for_time(3), 0);
}

#[test]
fn layer_check_collision_finds_wall_and_edges() {
    let layer = layer_with_wall(5, 5);
    assert!(layer.check_collision(&rect(38, 38, 4, 4)));
    assert!(!layer.check_collision(&rect(10, 10, 8, 8)));
    assert!(!layer.check_collision(&rect(32, 40, 8, 8)));
    assert!(layer.check_collision(&rect(-1, 10, 4, 4)));
    assert!(layer.check_collision(&rect(125, 10, 4, 4)));
}

#[test]
fn layer_sweep_stops_at_wall() {
    let layer = layer_with_wall(5, 1);
    // wall occupies x 40..48, y 8..16
    assert_eq!(layer.sweep_collision_x(&rect(0, 8, 8, 8), 100), Some(32));
    assert_eq!(layer.sweep_collision_x(&rect(100, 10, 8, 4), 0), Some(48));
    assert_eq!(layer.sweep_collision_x(&rect(0, 20, 8, 8), 100), None);
    assert_eq!(layer.sweep_collision_y(&rect(40, 60, 8, 8), 0), Some(16));
}

#[test]
fn layer_sweep_stops_at_map_edge() {
    let layer = MapLayer::new("empty", 16, 16, 8, 8, 8);
    assert_eq!(layer.sweep_collision_x(&rect(100, 0, 8, 8), 200), Some(120));
    assert_eq!(layer.sweep_collision_x(&rect(10, 0, 8, 8), -50), Some(0));
    assert_eq!(layer.sweep_collision_y(&rect(0, 100, 8, 8), 500), Some(120));
    assert_eq!(layer.sweep_collision_x(&rect(10, 0, 8, 8), 50), None);
    // already outside on the other axis
    assert_eq!(layer.sweep_collision_x(&rect(10, -4, 8, 8), 50), Some(10));
}

#[test]
fn layer_sweep_inside_wall_stays() {
    let layer = layer_with_wall(5, 1);
    assert_eq!(layer.sweep_collision_x(&rect(42, 10, 4, 4), 90), Some(42));
}

#[test]
fn map_sweeps_narrow_across_layers() {
    let mut map = TileMap::new("m");
    map.layers.push(Rc::new(layer_with_wall(10, 0)));
    map.layers.push(Rc::new(layer_with_wall(6, 0)));
    // first layer stops at 72, the second narrows to 40
    assert_eq!(map.sweep_collision_x(&rect(0, 0, 8, 8), 110), Some(40));
    assert_eq!(map.sweep_collision_x(&rect(0, 0, 8, 8), 0), None);
    assert!(map.check_collision(&rect(50, 2, 4, 4)));
    assert!(!map.check_collision(&rect(20, 2, 4, 4)));
}

#[test]
fn map_ignores_effect_layers() {
    let mut effect = layer_with_wall(3, 0);
    effect.effect = true;
    let mut map = TileMap::new("m");
    map.layers.push(Rc::new(effect));
    assert_eq!(map.bounds(), None);
    assert_eq!(map.sweep_collision_x(&rect(0, 0, 8, 8), 60), None);
    assert!(!map.check_collision(&rect(24, 0, 8, 8)));
    map.layers.push(Rc::new(MapLayer::new("main", 4, 3, 8, 16, 8)));
    assert_eq!(map.bounds(), Some(BoundingRect { x: 0, y: 0, width: 32, height: 48 }));
}

#[test]
fn resize_keeps_shared_cells() {
    let mut layer = layer_with_wall(2, 1);
    layer.resize(3, 5);
    assert_eq!(layer.width, 3);
    assert_eq!(layer.tiles.len(), 15);
    assert!(layer.get_tile(2, 1).is_some());
    assert!(layer.get_tile(0, 4).is_none());
    layer.resize(2, 2);
    assert!(layer.tiles.iter().all(|t| t.is_none()));
}

#[test]
fn layer_validation() {
    let layer = layer_with_wall(1, 1);
    assert!(layer.is_valid());
    let mut broken = layer.clone();
    broken.tiles.pop();
    assert!(!broken.is_valid());
    let mut map = TileMap::new("m");
    map.layers.push(Rc::new(layer));
    assert!(map.is_valid());
    map.layers.push(Rc::new(broken));
    assert!(!map.is_valid());
}
