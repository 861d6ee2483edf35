use std::rc::Rc;
use tilegame::map::{BlendMode, MapLayer, TileRef};
use tilegame::sprite::Sprite;
use tilegame::tile::{Tile, TileSet};
use tilegame::ui::{EmptyLayout, UILayerContents};
use tilegame::widgets::UIWrappingLabel;

fn font() -> Rc<TileSet> {
    let mut set = TileSet::new("font", 8, 8, 8, None);
    for _ in 0..3 {
        set.push(Tile { palette: None, data: vec![0; 64], collision: vec![] });
    }
    Rc::new(set)
}

fn contents() -> UILayerContents {
    UILayerContents { layer: MapLayer::new("text", 5, 2, 8, 8, 8), font_tile_set: Some(font()), font_base: b'a', sprites: vec![] }
}

fn index_at(c: &UILayerContents, x: usize, y: usize) -> Option<usize> {
    c.layer.get_tile(x, y).as_ref().map(|t| t.tile_index)
}

#[test]
fn write_places_glyphs_and_tab_stops() {
    let mut c = contents();
    assert_eq!((c.width(), c.height()), (5, 2));
    c.write(0, 0, "ab\tzc");
    assert_eq!(index_at(&c, 0, 0), Some(0));
    assert_eq!(index_at(&c, 1, 0), Some(1));
    assert_eq!(index_at(&c, 2, 0), None);
    assert_eq!(index_at(&c, 3, 0), None);
    assert_eq!(index_at(&c, 4, 0), Some(2));
    // from column 1 the tab reaches column 5, past the edge
    c.write(1, 1, "ab\tc");
    assert_eq!(index_at(&c, 1, 1), Some(0));
    assert_eq!(index_at(&c, 2, 1), Some(1));
    assert_eq!(index_at(&c, 4, 1), None);
}

#[test]
fn write_clips_at_edges() {
    let mut c = contents();
    c.write(-1, 1, "abc");
    assert_eq!(index_at(&c, 0, 1), Some(1));
    assert_eq!(index_at(&c, 1, 1), Some(2));
    c.write(0, 2, "aaa");
    c.write(0, -1, "aaa");
    assert_eq!(index_at(&c, 0, 0), None);
    c.write(3, 0, "cccccc");
    assert_eq!(index_at(&c, 3, 0), Some(2));
    assert_eq!(index_at(&c, 4, 0), Some(2));
}

#[test]
fn write_without_font_does_nothing() {
    let mut c = contents();
    c.font_tile_set = None;
    c.write(0, 0, "abc");
    assert!(c.layer.tiles.iter().all(|t| t.is_none()));
}

#[test]
fn clear_and_set_tile() {
    let mut c = contents();
    c.set_tile(2, 1, TileRef { tile_set: font(), tile_index: 1 });
    c.set_tile(9, 1, TileRef { tile_set: font(), tile_index: 1 });
    assert_eq!(index_at(&c, 2, 1), Some(1));
    let mut sprite = Sprite::new("s", 1, 1, 8);
    sprite.push(tilegame::sprite::SpriteAnimation {
        name: "idle".to_string(),
        width: 1,
        height: 1,
        depth: 8,
        single_frame_size: 1,
        palette: None,
        data: vec![0],
        animation: tilegame::tile::Animation::new(vec![1]),
        frames: 1,
        looping: true,
    });
    let sprite = Rc::new(sprite);
    c.add_sprite(1, 2, sprite.clone());
    c.add_sprite_with_blending(0, 0, sprite.clone(), BlendMode::Subtract, 4);
    c.add_sprite_animation(3, 3, sprite.get_default_animation());
    c.add_sprite_animation_with_blending(3, 3, sprite.get_default_animation(), BlendMode::Multiply, 2);
    assert_eq!(c.sprites.len(), 4);
    assert_eq!(c.sprites[1].blend_mode, BlendMode::Subtract);
    c.clear();
    assert!(c.sprites.is_empty());
    assert!(c.layer.tiles.iter().all(|t| t.is_none()));
}

#[test]
fn empty_layout_builders() {
    let a = EmptyLayout::with_fixed_size(3, 4);
    assert_eq!((a.width, a.height), (Some(3), Some(4)));
    let b = EmptyLayout::with_fixed_width(3);
    assert_eq!((b.width, b.height), (Some(3), None));
    let c = EmptyLayout::with_fixed_height(4);
    assert_eq!((c.width, c.height), (None, Some(4)));
    let d = EmptyLayout::with_fill();
    assert_eq!((d.width, d.height), (None, None));
}

#[test]
fn wrap_text_breaks_at_spaces() {
    assert_eq!(UIWrappingLabel::wrap_text("hello world foo", 8), vec!["hello ", "world ", "foo"]);
}

#[test]
fn wrap_text_keeps_newlines_and_long_words() {
    assert_eq!(UIWrappingLabel::wrap_text("a\n\nb", 10), vec!["a", "", "b"]);
    assert_eq!(UIWrappingLabel::wrap_text("abcdefghij", 3), vec!["abcdefghij"]);
    assert_eq!(UIWrappingLabel::wrap_text("a\tb", 10), vec!["a\tb"]);
    assert!(UIWrappingLabel::wrap_text("", 5).is_empty());
}

#[test]
fn wrap_text_loses_only_newlines() {
    let text = "a long line of words\nthat wraps\tsomewhere   here";
    let lines = UIWrappingLabel::wrap_text(text, 7);
    assert!(lines.len() > 2);
    assert_eq!(lines.concat(), text.replace('\n', ""));
}
