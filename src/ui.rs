use vstd::prelude::*;
use std::rc::Rc;
use crate::map::{BlendMode, MapLayer, TileRef, tile_ok};
use crate::sprite::{Sprite, SpriteAnimation};
use crate::tile::TileSet;
use crate::shared::share;
use vstd::string::StrSliceExecFns;

verus! {

/// A sprite animation drawn on a UI layer at a fixed position.
pub struct UISprite {
    pub animation: Rc<SpriteAnimation>,
    pub x: isize,
    pub y: isize,
    pub blend_mode: BlendMode,
    pub alpha: u8,
}

/// What a UI layer shows: a tile grid, written with a font tile set, and
/// sprites on top.
pub struct UILayerContents {
    pub layer: MapLayer,
    pub font_tile_set: Option<Rc<TileSet>>,
    pub font_base: u8,
    pub sprites: Vec<UISprite>,
}

pub enum HorizontalAnchor {
    Left,
    Center,
    Right,
}

pub enum VerticalAnchor {
    Top,
    Center,
    Bottom,
}

pub enum BackgroundLayoutAlignment {
    AlignToBackground,
    AlignToForeground,
}

/// A layout that takes space and shows nothing; a missing extent fills what
/// is available.
pub struct EmptyLayout {
    pub width: Option<isize>,
    pub height: Option<isize>,
}

impl EmptyLayout {
    pub fn with_fixed_size(width: isize, height: isize) -> (r: EmptyLayout)
        ensures
            r.width == Some(width),
            r.height == Some(height),
    {
        EmptyLayout { width: Some(width), height: Some(height) }
    }

    pub fn with_fixed_width(width: isize) -> (r: EmptyLayout)
        ensures
            r.width == Some(width),
            r.height is None,
    {
        EmptyLayout { width: Some(width), height: None }
    }

    pub fn with_fixed_height(height: isize) -> (r: EmptyLayout)
        ensures
            r.width is None,
            r.height == Some(height),
    {
        EmptyLayout { width: None, height: Some(height) }
    }

    pub fn with_fill() -> (r: EmptyLayout)
        ensures
            r.width is None,
            r.height is None,
    {
        EmptyLayout { width: None, height: None }
    }
}

/// Tile `i` of a font can be placed on a layer.
pub open spec fn glyph_ok(font: Rc<TileSet>, i: int, tile_width: int, tile_height: int) -> bool {
    tile_ok(Some(TileRef { tile_set: font, tile_index: i as usize }), tile_width, tile_height)
}

impl UILayerContents {
    pub open spec fn wf(&self) -> bool {
        &&& self.layer.wf()
        &&& (self.font_tile_set matches Some(f) ==> forall|i: int| 0 <= i < f.tiles@.len() ==>
                #[trigger] glyph_ok(f, i, self.layer.tile_width as int, self.layer.tile_height as int))
    }

    /// Width of the grid, in cells.
    pub fn width(&self) -> (r: isize)
        requires
            self.wf(),
        ensures
            r == self.layer.width,
    {
        proof {
            crate::map::lemma_grid_cells(self.layer.width as int, self.layer.height as int,
                self.layer.tile_width as int, self.layer.tile_height as int);
        }
        self.layer.width as isize
    }

    /// Height of the grid, in cells.
    pub fn height(&self) -> (r: isize)
        requires
            self.wf(),
        ensures
            r == self.layer.height,
    {
        proof {
            crate::map::lemma_grid_cells(self.layer.width as int, self.layer.height as int,
                self.layer.tile_width as int, self.layer.tile_height as int);
        }
        self.layer.height as isize
    }

    /// Empties every cell and removes the sprites.
    pub fn clear(&mut self)
        requires
            old(self).wf(),
        ensures
            final(self).wf(),
            final(self).layer.width == old(self).layer.width,
            final(self).layer.height == old(self).layer.height,
            final(self).layer.tiles@.len() == old(self).layer.tiles@.len(),
            forall|i: int| 0 <= i < final(self).layer.tiles@.len() ==> (#[trigger] final(self).layer.tiles@[i]) is None,
            final(self).sprites@.len() == 0,
            final(self).font_tile_set == old(self).font_tile_set,
            final(self).font_base == old(self).font_base,
    {
        let n = self.layer.tiles.len();
        let mut i: usize = 0;
        while i < n
            invariant
                n == self.layer.tiles@.len(),
                n == old(self).layer.tiles@.len(),
                self.layer.width == old(self).layer.width,
                self.layer.height == old(self).layer.height,
                self.layer.tile_width == old(self).layer.tile_width,
                self.layer.tile_height == old(self).layer.tile_height,
                self.font_tile_set == old(self).font_tile_set,
                self.font_base == old(self).font_base,
                self.sprites == old(self).sprites,
                old(self).wf(),
                i <= n,
                forall|j: int| 0 <= j < i ==> (#[trigger] self.layer.tiles@[j]) is None,
                forall|j: int| i <= j < n ==> #[trigger] self.layer.tiles@[j] == old(self).layer.tiles@[j],
            decreases n - i,
        {
            self.layer.tiles.set(i, None);
            i += 1;
        }
        self.sprites.clear();
        proof {
            assert forall|j: int| 0 <= j < self.layer.tiles@.len() implies tile_ok(#[trigger] self.layer.tiles@[j], self.layer.tile_width as int, self.layer.tile_height as int) by {
                assert(self.layer.tiles@[j] is None);
            }
        }
    }

    /// Puts `tile` in cell `(x, y)`; a cell outside the grid is ignored.
    pub fn set_tile(&mut self, x: isize, y: isize, tile: TileRef)
        requires
            old(self).wf(),
            tile_ok(Some(tile), old(self).layer.tile_width as int, old(self).layer.tile_height as int),
        ensures
            final(self).wf(),
            final(self).layer.tiles@ == if 0 <= x < old(self).layer.width && 0 <= y < old(self).layer.height {
                old(self).layer.tiles@.update(y * old(self).layer.width + x, Some(tile))
            } else {
                old(self).layer.tiles@
            },
            final(self).sprites == old(self).sprites,
    {
        if x >= 0 && x < self.width() && y >= 0 && y < self.height() {
            self.layer.set_tile(x as usize, y as usize, Some(tile));
        }
    }

    /// Adds the first animation of `sprite` at `(x, y)`, normal blending.
    pub fn add_sprite(&mut self, x: isize, y: isize, sprite: Rc<Sprite>)
        requires
            sprite.animations@.len() > 0,
        ensures
            final(self).sprites@ == old(self).sprites@.push(UISprite {
                animation: sprite.animations@[0], x, y, blend_mode: BlendMode::Normal, alpha: 0,
            }),
            final(self).layer == old(self).layer,
    {
        let animation = sprite.get_default_animation();
        self.sprites.push(UISprite { animation, x, y, blend_mode: BlendMode::Normal, alpha: 0 });
    }

    /// Adds the first animation of `sprite` at `(x, y)` with the given blending.
    pub fn add_sprite_with_blending(&mut self, x: isize, y: isize, sprite: Rc<Sprite>, blend_mode: BlendMode, alpha: u8)
        requires
            sprite.animations@.len() > 0,
        ensures
            final(self).sprites@ == old(self).sprites@.push(UISprite {
                animation: sprite.animations@[0], x, y, blend_mode, alpha,
            }),
            final(self).layer == old(self).layer,
    {
        let animation = sprite.get_default_animation();
        self.sprites.push(UISprite { animation, x, y, blend_mode, alpha });
    }

    /// Adds `animation` at `(x, y)`, normal blending.
    pub fn add_sprite_animation(&mut self, x: isize, y: isize, animation: Rc<SpriteAnimation>)
        ensures
            final(self).sprites@ == old(self).sprites@.push(UISprite {
                animation, x, y, blend_mode: BlendMode::Normal, alpha: 0,
            }),
            final(self).layer == old(self).layer,
    {
        self.sprites.push(UISprite { animation, x, y, blend_mode: BlendMode::Normal, alpha: 0 });
    }

    /// Adds `animation` at `(x, y)` with the given blending.
    pub fn add_sprite_animation_with_blending(&mut self, x: isize, y: isize, animation: Rc<SpriteAnimation>,
        blend_mode: BlendMode, alpha: u8)
        ensures
            final(self).sprites@ == old(self).sprites@.push(UISprite { animation, x, y, blend_mode, alpha }),
            final(self).layer == old(self).layer,
    {
        self.sprites.push(UISprite { animation, x, y, blend_mode, alpha });
    }
}

/// Where text is being written: the column reached, the position within the
/// current four-column tab stop, and the cells so far.
pub struct Pen {
    pub x: int,
    pub phase: int,
    pub tiles: Seq<Option<TileRef>>,
}

/// One character of text written on row `y`: a tab moves to the next tab
/// stop; a character the font has occupies one column, and is drawn when
/// that column is on the grid; any other character is skipped.
pub open spec fn pen_step(font: Rc<TileSet>, base: u8, width: int, y: int, pen: Pen, ch: char) -> Pen {
    if ch == '\t' {
        Pen { x: pen.x + (4 - pen.phase), phase: 0, tiles: pen.tiles }
    } else if (ch as u32) < base || (ch as u32) - base >= font.tiles@.len() {
        pen
    } else {
        Pen {
            x: pen.x + 1,
            phase: (pen.phase + 1) % 4,
            tiles: if 0 <= pen.x < width {
                pen.tiles.update(y * width + pen.x, Some(TileRef { tile_set: font, tile_index: ((ch as u32) - base) as usize }))
            } else {
                pen.tiles
            },
        }
    }
}

/// `text` written from `pen` on, first character first.
pub open spec fn pen_write(font: Rc<TileSet>, base: u8, width: int, y: int, pen: Pen, text: Seq<char>) -> Pen
    decreases text.len(),
{
    if text.len() == 0 {
        pen
    } else {
        pen_write(font, base, width, y, pen_step(font, base, width, y, pen, text[0]), text.drop_first())
    }
}

/// Past the right edge nothing more is drawn.
pub proof fn lemma_pen_past_edge(font: Rc<TileSet>, base: u8, width: int, y: int, pen: Pen, text: Seq<char>)
    requires
        pen.x >= width,
        0 <= pen.phase < 4,
    ensures
        pen_write(font, base, width, y, pen, text).tiles == pen.tiles,
    decreases text.len(),
{
    if text.len() > 0 {
        lemma_pen_past_edge(font, base, width, y, pen_step(font, base, width, y, pen, text[0]), text.drop_first());
    }
}

impl UILayerContents {
    /// Writes `text` on row `y` from column `x` with the font; nothing
    /// happens without a font or on a row outside the grid.
    #[verifier::rlimit(30)]
    pub fn write(&mut self, x: isize, y: isize, text: &str)
        requires
            old(self).wf(),
        ensures
            final(self).wf(),
            final(self).sprites == old(self).sprites,
            final(self).font_tile_set == old(self).font_tile_set,
            final(self).layer.width == old(self).layer.width,
            final(self).layer.height == old(self).layer.height,
            final(self).layer.tiles@ == match old(self).font_tile_set {
                Some(font) => if 0 <= y < old(self).layer.height {
                    pen_write(font, old(self).font_base, old(self).layer.width as int, y as int,
                        Pen { x: x as int, phase: 0, tiles: old(self).layer.tiles@ }, text@).tiles
                } else {
                    old(self).layer.tiles@
                },
                None => old(self).layer.tiles@,
            },
    {
        let font = match &self.font_tile_set {
            Some(f) => share(f),
            None => return,
        };
        if y < 0 || y >= self.height() {
            return;
        }
        let width = self.width();
        let base = self.font_base;
        let ghost start = Pen { x: x as int, phase: 0, tiles: self.layer.tiles@ };
        if x >= width {
            proof {
                lemma_pen_past_edge(font, base, width as int, y as int, start, text@);
            }
            return;
        }
        let n = text.unicode_len();
        proof {
            crate::map::lemma_grid_cells(self.layer.width as int, self.layer.height as int,
                self.layer.tile_width as int, self.layer.tile_height as int);
            assert(text@.subrange(0, n as int) =~= text@);
        }
        let mut cur_x = x;
        let mut phase: usize = 0;
        let mut i: usize = 0;
        while i < n
            invariant
                self.wf(),
                self.font_tile_set == old(self).font_tile_set,
                old(self).font_tile_set == Some(font),
                self.font_base == base,
                old(self).font_base == base,
                start == (Pen { x: x as int, phase: 0, tiles: old(self).layer.tiles@ }),
                self.sprites == old(self).sprites,
                self.layer.width == old(self).layer.width,
                self.layer.height == old(self).layer.height,
                width == self.layer.width,
                width <= crate::map::MAP_LIMIT,
                0 <= y < self.layer.height,
                n == text@.len(),
                i <= n,
                cur_x < width,
                phase < 4,
                pen_write(font, base, width as int, y as int, start, text@)
                    == pen_write(font, base, width as int, y as int,
                        Pen { x: cur_x as int, phase: phase as int, tiles: self.layer.tiles@ }, text@.subrange(i as int, n as int)),
            decreases n - i,
        {
            let ch = text.get_char(i);
            let ghost pen = Pen { x: cur_x as int, phase: phase as int, tiles: self.layer.tiles@ };
            proof {
                assert(text@.subrange(i as int, n as int).drop_first() =~= text@.subrange(i + 1, n as int));
                assert(text@.subrange(i as int, n as int)[0] == ch);
            }
            if ch == '\t' {
                cur_x = cur_x + (4 - phase) as isize;
                phase = 0;
            } else {
                let ord = ch as u32;
                if ord >= base as u32 && ((ord - base as u32) as usize) < font.tiles.len() {
                    let index = (ord - base as u32) as usize;
                    if cur_x >= 0 {
                        let tile = TileRef { tile_set: share(&font), tile_index: index };
                        assert(glyph_ok(font, index as int, self.layer.tile_width as int, self.layer.tile_height as int));
                        self.layer.set_tile(cur_x as usize, y as usize, Some(tile));
                    }
                    cur_x = cur_x + 1;
                    phase = (phase + 1) % 4;
                }
            }
            proof {
                let rest = text@.subrange(i as int, n as int);
                assert(pen_write(font, base, width as int, y as int, pen, rest)
                    == pen_write(font, base, width as int, y as int, pen_step(font, base, width as int, y as int, pen, ch),
                        rest.drop_first()));
                assert(Pen { x: cur_x as int, phase: phase as int, tiles: self.layer.tiles@ }
                    == pen_step(font, base, width as int, y as int, pen, ch));
            }
            i += 1;
            if cur_x >= width {
                proof {
                    lemma_pen_past_edge(font, base, width as int, y as int,
                        Pen { x: cur_x as int, phase: phase as int, tiles: self.layer.tiles@ }, text@.subrange(i as int, n as int));
                    assert(pen_write(font, base, width as int, y as int, start, text@).tiles == self.layer.tiles@);
                }
                return;
            }
        }
        proof {
            assert(text@.subrange(n as int, n as int) =~= Seq::<char>::empty());
        }
    }
}

} // verus!
