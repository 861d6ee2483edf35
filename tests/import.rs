use tilegame::actor::BoundingRect;
use tilegame::sprite::{RawSprite, RawSpriteAnimation, Sprite};
use tilegame::tile::{ImportError, RawTile, RawTileSet, TileSet};

fn raw_tile(hex: &str) -> RawTile {
    RawTile { palette: None, data: hex.as_bytes().to_vec(), collision: vec![] }
}

fn raw_set(depth: usize, anim: Option<Vec<usize>>, tiles: Vec<RawTile>) -> RawTileSet {
    RawTileSet { name: "set".to_string(), id: "set-id".to_string(), width: 2, height: 1, depth, tiles, anim }
}

#[test]
fn tile_set_import_decodes_hex() {
    let mut tile = raw_tile("0a0B");
    tile.collision = vec![BoundingRect { x: 0, y: 0, width: 2, height: 1 }];
    let set = TileSet::from_raw(raw_set(8, None, vec![tile, raw_tile("ff00")])).unwrap();
    assert_eq!(set.tiles[0].data, vec![0x0a, 0x0b]);
    assert_eq!(set.tiles[1].data, vec![0xff, 0x00]);
    assert_eq!(set.tiles[0].collision.len(), 1);
    assert_eq!(set.frames, 1);
    assert_eq!(set.id, "set-id");
}

#[test]
fn tile_set_import_with_animation() {
    let set = TileSet::from_raw(raw_set(8, Some(vec![2, 1]), vec![raw_tile("01020304")])).unwrap();
    assert_eq!(set.frames, 2);
    assert_eq!(set.frame_for_time(2), 1);
    assert_eq!(set.data_for_frame(0, 1), &[3, 4]);
}

#[test]
fn tile_set_import_errors() {
    let bad_depth = TileSet::from_raw(raw_set(7, None, vec![]));
    assert_eq!(bad_depth.err(), Some(ImportError::InvalidDepth));
    let zero = TileSet::from_raw(raw_set(8, Some(vec![0, 0]), vec![]));
    assert_eq!(zero.err(), Some(ImportError::ZeroLengthAnimation));
    let long = TileSet::from_raw(raw_set(8, Some(vec![0x8000, 0x8000]), vec![]));
    assert_eq!(long.err(), Some(ImportError::AnimationTooLong));
    let not_hex = TileSet::from_raw(raw_set(8, None, vec![raw_tile("0g00")]));
    assert_eq!(not_hex.err(), Some(ImportError::InvalidData));
    let odd = TileSet::from_raw(raw_set(8, None, vec![raw_tile("000")]));
    assert_eq!(odd.err(), Some(ImportError::InvalidData));
    let short = TileSet::from_raw(raw_set(8, None, vec![raw_tile("00"), raw_tile("zz")]));
    assert_eq!(short.err(), Some(ImportError::WrongDataSize));
    let huge = TileSet::from_raw(RawTileSet {
        name: "h".to_string(),
        id: "h".to_string(),
        width: usize::MAX,
        height: 3,
        depth: 16,
        tiles: vec![],
        anim: None,
    });
    assert_eq!(huge.err(), Some(ImportError::TooLarge));
}

fn raw_anim(name: &str, hex: &str, lengths: Vec<usize>) -> RawSpriteAnimation {
    RawSpriteAnimation {
        name: name.to_string(),
        palette: None,
        data: hex.as_bytes().to_vec(),
        anim: lengths,
        looping: true,
    }
}

#[test]
fn sprite_import_builds_animations() {
    let raw = RawSprite {
        name: "hero".to_string(),
        id: "hero-id".to_string(),
        width: 1,
        height: 1,
        depth: 8,
        anim: vec![raw_anim("idle", "7f", vec![4]), raw_anim("walk", "0102", vec![1, 1])],
    };
    let sprite = Sprite::from_raw(raw).unwrap();
    assert_eq!(sprite.animations.len(), 2);
    assert_eq!(sprite.animations[1].data, vec![1, 2]);
    assert_eq!(sprite.animations[0].data, vec![0x7f]);
    assert_eq!(sprite.animation_index_by_name("walk"), Some(1));
    assert_eq!(sprite.get_default_animation().animation.total_length, 4);
}

#[test]
fn sprite_import_errors() {
    let make = |anim: Vec<RawSpriteAnimation>| RawSprite {
        name: "s".to_string(),
        id: "s".to_string(),
        width: 1,
        height: 1,
        depth: 8,
        anim,
    };
    assert_eq!(Sprite::from_raw(make(vec![raw_anim("a", "00", vec![0])])).err(), Some(ImportError::ZeroLengthAnimation));
    assert_eq!(Sprite::from_raw(make(vec![raw_anim("a", "0", vec![1])])).err(), Some(ImportError::InvalidData));
    assert_eq!(Sprite::from_raw(make(vec![raw_anim("a", "0000", vec![1])])).err(), Some(ImportError::WrongDataSize));
    assert_eq!(
        Sprite::from_raw(make(vec![raw_anim("a", "00", vec![1]), raw_anim("b", "xx", vec![0x10000])])).err(),
        Some(ImportError::AnimationTooLong)
    );
}

use std::rc::Rc;
use tilegame::map::{BlendMode, MapActor, MapError, MapLayer, RawMapActor, RawMapLayer, TileMap};
use tilegame::tile::Tile;

fn font_set() -> Rc<TileSet> {
    let mut set = TileSet::new("tiles", 8, 8, 8, None);
    set.push(Tile { palette: None, data: vec![0; 64], collision: vec![BoundingRect { x: 0, y: 0, width: 8, height: 8 }] });
    Rc::new(set)
}

fn raw_layer(tiles: Vec<Vec<usize>>) -> RawMapLayer {
    RawMapLayer {
        name: "layer".to_string(),
        id: "layer-id".to_string(),
        width: 2,
        height: 1,
        tile_width: 8,
        tile_height: 8,
        tile_depth: 8,
        tile_sets: vec![font_set()],
        tiles,
        effect: false,
        blend: 1,
        alpha: 3,
        parallax_x: 0x100,
        parallax_y: 0x100,
        auto_scroll_x: 0,
        auto_scroll_y: 0,
    }
}

#[test]
fn map_layer_import_resolves_cells() {
    let layer = MapLayer::from_raw(raw_layer(vec![vec![], vec![0, 0]]), false).unwrap();
    assert!(layer.tiles[0].is_none());
    assert_eq!(layer.tiles[1].as_ref().unwrap().tile_index, 0);
    assert_eq!(layer.blend_mode, BlendMode::Add);
    assert!(layer.check_collision(&BoundingRect { x: 9, y: 1, width: 2, height: 2 }));
    assert!(!layer.check_collision(&BoundingRect { x: 1, y: 1, width: 2, height: 2 }));
}

#[test]
fn map_layer_import_errors() {
    let mut blend = raw_layer(vec![vec![], vec![]]);
    blend.blend = 4;
    assert_eq!(MapLayer::from_raw(blend, false).err(), Some(MapError::InvalidBlendMode));
    assert_eq!(MapLayer::from_raw(raw_layer(vec![vec![], vec![]]), true).err(), Some(MapError::NotEffectLayer));
    let mut effect = raw_layer(vec![vec![], vec![]]);
    effect.effect = true;
    assert_eq!(MapLayer::from_raw(effect, false).err(), Some(MapError::EffectLayerAsNormal));
    let mut scrolling = raw_layer(vec![vec![], vec![]]);
    scrolling.auto_scroll_x = 2;
    assert_eq!(MapLayer::from_raw(scrolling, false).err(), Some(MapError::ScrollingNonEffect));
    assert_eq!(MapLayer::from_raw(raw_layer(vec![vec![]]), false).err(), Some(MapError::TileCount));
    let mut mismatch = raw_layer(vec![vec![], vec![]]);
    mismatch.tile_depth = 4;
    assert_eq!(MapLayer::from_raw(mismatch, false).err(), Some(MapError::TileSetMismatch));
    assert_eq!(MapLayer::from_raw(raw_layer(vec![vec![1, 0], vec![]]), false).err(), Some(MapError::InvalidTileSetReference));
    assert_eq!(MapLayer::from_raw(raw_layer(vec![vec![0], vec![]]), false).err(), Some(MapError::InvalidTileFormat));
    assert_eq!(MapLayer::from_raw(raw_layer(vec![vec![0, 5], vec![]]), false).err(), Some(MapError::InvalidTile));
    let mut zero = raw_layer(vec![]);
    zero.tile_width = 0;
    assert_eq!(MapLayer::from_raw(zero, false).err(), Some(MapError::InvalidGeometry));
}

#[test]
fn map_assembly_checks_main_layer() {
    let layer = Rc::new(MapLayer::from_raw(raw_layer(vec![vec![], vec![]]), false).unwrap());
    let map = TileMap::from_layers("m".to_string(), "m-id".to_string(), 0x7fff, vec![layer.clone()], 0, vec![]).unwrap();
    assert_eq!(map.background_color, 0xf8f8f8);
    assert_eq!(map.main_layer, Some(0));
    let bad = TileMap::from_layers("m".to_string(), "m-id".to_string(), 0, vec![layer.clone()], 1, vec![]);
    assert_eq!(bad.err(), Some(MapError::InvalidMainLayer));
    let negative = TileMap::from_layers("m".to_string(), "m-id".to_string(), 0, vec![layer.clone()], -1, vec![]);
    assert_eq!(negative.err(), Some(MapError::InvalidMainLayer));
}

#[test]
fn map_actors_are_placed_in_pixels() {
    let layer = Rc::new(MapLayer::from_raw(raw_layer(vec![vec![], vec![]]), false).unwrap());
    let actors = vec![
        RawMapActor { x: 3, y: 2, width: None, height: Some(16), kind: "door".to_string() },
        RawMapActor { x: -1, y: 0, width: Some(4), height: None, kind: "key".to_string() },
    ];
    let map = TileMap::from_layers("m".to_string(), "m".to_string(), 0, vec![layer.clone()], 0, actors).unwrap();
    assert_eq!((map.actors[0].x, map.actors[0].y, map.actors[0].width, map.actors[0].height), (24, 16, 1, 16));
    assert_eq!((map.actors[1].x, map.actors[1].width, map.actors[1].height), (-8, 4, 1));
    assert_eq!(map.actors[1].actor_type, "key");
    let far = vec![RawMapActor { x: isize::MAX, y: 0, width: None, height: None, kind: "far".to_string() }];
    let bad = TileMap::from_layers("m".to_string(), "m".to_string(), 0, vec![layer], 0, far);
    assert_eq!(bad.err(), Some(MapError::ActorOutOfRange));
    let one = MapActor::place(RawMapActor { x: 2, y: 5, width: None, height: None, kind: "x".to_string() }, 16, 8).unwrap();
    assert_eq!((one.x, one.y), (32, 40));
}

#[test]
fn collision_rect_must_stay_in_its_tile() {
    let mut set = TileSet::new("wide", 8, 8, 8, None);
    set.push(Tile { palette: None, data: vec![0; 64], collision: vec![BoundingRect { x: 4, y: 0, width: 8, height: 8 }] });
    let mut raw = raw_layer(vec![vec![0, 0], vec![]]);
    raw.tile_sets = vec![Rc::new(set)];
    assert_eq!(MapLayer::from_raw(raw, false).err(), Some(MapError::InvalidTile));
}
