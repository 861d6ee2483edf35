use vstd::prelude::*;
use std::rc::Rc;
use crate::actor::BoundingRect;
use crate::asset::RUNTIME_ASSET;
use crate::palette::Palette;


verus! {

/// A palette together with the first entry that a tile's colour indices
/// start from.
pub struct PaletteWithOffset {
    pub palette: Rc<Palette>,
    pub offset: usize,
}

/// One tile: its pixel data for every animation frame, and the rectangles,
/// in tile-local pixels, that block movement.
pub struct Tile {
    pub palette: Option<PaletteWithOffset>,
    pub data: Vec<u8>,
    pub collision: Vec<BoundingRect>,
}

/// Frame timing of an animation: how many ticks each frame is shown, and
/// for every tick of one cycle the frame shown then.
pub struct Animation {
    pub total_length: usize,
    pub frame_lengths: Vec<usize>,
    pub frame_for_time: Vec<usize>,
}

pub struct TileSet {
    pub name: String,
    pub id: String,
    pub width: usize,
    pub height: usize,
    pub depth: usize,
    pub frames: usize,
    pub single_frame_size: usize,
    pub tiles: Vec<Tile>,
    pub animation: Option<Animation>,
}

/// Sum of the frame lengths.
pub open spec fn total_of(lengths: Seq<usize>) -> nat
    decreases lengths.len(),
{
    if lengths.len() == 0 {
        0
    } else {
        total_of(lengths.drop_last()) + lengths.last() as nat
    }
}

/// The frame index shown at each tick of one cycle: frame `i` repeated
/// `lengths[i]` times, frames in order.
pub open spec fn timeline_of(lengths: Seq<usize>) -> Seq<usize>
    decreases lengths.len(),
{
    if lengths.len() == 0 {
        Seq::empty()
    } else {
        timeline_of(lengths.drop_last()) + Seq::new(
            lengths.last() as nat,
            |_j: int| (lengths.len() - 1) as usize,
        )
    }
}

pub proof fn lemma_timeline_len(lengths: Seq<usize>)
    ensures
        timeline_of(lengths).len() == total_of(lengths),
    decreases lengths.len(),
{
    if lengths.len() > 0 {
        lemma_timeline_len(lengths.drop_last());
    }
}

/// Bytes of one frame of a tile of the given size and colour depth.
pub open spec fn frame_size(width: int, height: int, depth: int) -> int {
    if depth == 4 {
        ((width + 1) / 2) * height
    } else if depth == 8 {
        width * height
    } else {
        width * height * 2
    }
}

pub open spec fn depth_ok(depth: usize) -> bool {
    depth == 4 || depth == 8 || depth == 16
}

impl Animation {
    /// Consistent timing: the table covers one cycle, which is not empty.
    pub open spec fn wf(&self) -> bool {
        &&& self.total_length as int == total_of(self.frame_lengths@)
        &&& self.frame_for_time@ == timeline_of(self.frame_lengths@)
        &&& self.total_length > 0
    }

    /// Builds the per-tick frame table for the given frame lengths.
    pub fn new(frame_lengths: Vec<usize>) -> (r: Animation)
        requires
            total_of(frame_lengths@) <= usize::MAX,
        ensures
            r.frame_lengths@ == frame_lengths@,
            r.total_length as int == total_of(frame_lengths@),
            r.frame_for_time@ == timeline_of(frame_lengths@),
    {
        let mut total_length: usize = 0;
        let mut frame_for_time: Vec<usize> = Vec::new();
        let mut frame: usize = 0;
        while frame < frame_lengths.len()
            invariant
                frame <= frame_lengths@.len(),
                total_of(frame_lengths@) <= usize::MAX,
                total_length as int == total_of(frame_lengths@.subrange(0, frame as int)),
                frame_for_time@ == timeline_of(frame_lengths@.subrange(0, frame as int)),
            decreases frame_lengths@.len() - frame,
        {
            let length = frame_lengths[frame];
            let ghost before = frame_for_time@;
            let mut j: usize = 0;
            while j < length
                invariant
                    j <= length,
                    frame_for_time@ == before + Seq::new(j as nat, |_k: int| frame),
                decreases length - j,
            {
                frame_for_time.push(frame);
                j += 1;
                assert(frame_for_time@ =~= before + Seq::new(j as nat, |_k: int| frame));
            }
            proof {
                let next = frame_lengths@.subrange(0, frame + 1);
                assert(next.drop_last() =~= frame_lengths@.subrange(0, frame as int));
                lemma_total_prefix_bound(frame_lengths@, frame + 1);
            }
            total_length = total_length + length;
            frame += 1;
        }
        assert(frame_lengths@.subrange(0, frame_lengths@.len() as int) =~= frame_lengths@);
        Animation { total_length, frame_lengths, frame_for_time }
    }
}

/// Every entry of the table names one of the frames.
pub proof fn lemma_timeline_frames(lengths: Seq<usize>, t: int)
    requires
        0 <= t < timeline_of(lengths).len(),
    ensures
        (timeline_of(lengths)[t] as int) < lengths.len(),
    decreases lengths.len(),
{
    if lengths.len() > 0 {
        let prev = timeline_of(lengths.drop_last());
        if t < prev.len() {
            lemma_timeline_frames(lengths.drop_last(), t);
        }
    }
}

/// Number of animation frames of a tile set with the given animation.
pub open spec fn frames_of(animation: Option<Animation>) -> int {
    match animation {
        Some(a) => a.frame_lengths@.len() as int,
        None => 1,
    }
}

/// Frame shown at tick `t` by an animation that repeats forever.
pub open spec fn looping_frame(a: Animation, t: int) -> int {
    a.frame_for_time@[t % (a.total_length as int)] as int
}

impl TileSet {
    pub open spec fn spec_frame_for_time(&self, t: int) -> int {
        match self.animation {
            Some(a) => looping_frame(a, t),
            None => 0,
        }
    }

    pub open spec fn wf(&self) -> bool {
        &&& depth_ok(self.depth)
        &&& self.single_frame_size as int == frame_size(self.width as int, self.height as int, self.depth as int)
        &&& self.frames as int == frames_of(self.animation)
        &&& (self.animation matches Some(a) ==> a.wf())
        &&& forall|i: int| 0 <= i < self.tiles@.len() ==>
                (#[trigger] self.tiles@[i]).data@.len() == self.frames * self.single_frame_size
    }

    /// An empty tile set built at run time.
    pub fn new(name: &str, width: usize, height: usize, depth: usize, animation: Option<Animation>) -> (r: TileSet)
        requires
            depth_ok(depth),
            frame_size(width as int, height as int, depth as int) <= usize::MAX,
            animation matches Some(a) ==> a.wf(),
        ensures
            r.wf(),
            r.name@ == name@,
            r.id@ == RUNTIME_ASSET@,
            r.width == width,
            r.height == height,
            r.depth == depth,
            r.tiles@.len() == 0,
            r.animation == animation,
    {
        let frames: usize = match &animation {
            Some(anim) => anim.frame_lengths.len(),
            None => 1,
        };
        let single_frame_size: usize = if depth == 4 {
            ((width / 2) + (width % 2)) * height
        } else if depth == 8 {
            width * height
        } else {
            width * height * 2
        };
        proof {
            if depth == 4 {
                assert((width / 2) + (width % 2) == (width + 1) / 2);
            }
        }
        TileSet {
            name: name.to_owned(),
            id: RUNTIME_ASSET.to_owned(),
            width,
            height,
            depth,
            frames,
            single_frame_size,
            tiles: Vec::new(),
            animation,
        }
    }

    /// Appends a tile whose data holds every frame of the set.
    pub fn push(&mut self, tile: Tile)
        requires
            old(self).wf(),
            tile.data@.len() == old(self).frames * old(self).single_frame_size,
        ensures
            final(self).wf(),
            final(self).tiles@ == old(self).tiles@.push(tile),
            final(self).frames == old(self).frames,
            final(self).single_frame_size == old(self).single_frame_size,
            final(self).animation == old(self).animation,
            final(self).width == old(self).width,
            final(self).height == old(self).height,
    {
        self.tiles.push(tile);
        proof {
            assert forall|i: int| 0 <= i < self.tiles@.len() implies
                (#[trigger] self.tiles@[i]).data@.len() == self.frames * self.single_frame_size by {
                if i < old(self).tiles@.len() {
                    assert(self.tiles@[i] == old(self).tiles@[i]);
                }
            }
        }
    }

    /// The bytes of one frame of one tile.
    pub fn data_for_frame(&self, tile: usize, frame: usize) -> (r: &[u8])
        requires
            self.wf(),
            tile < self.tiles@.len(),
            frame < self.frames,
        ensures
            r@ == self.tiles@[tile as int].data@.subrange(
                frame * self.single_frame_size,
                (frame + 1) * self.single_frame_size,
            ),
    {
        let data = &self.tiles[tile].data;
        let data_len = data.len();
        assert(data_len == self.frames * self.single_frame_size);
        proof {
            let n = self.frames as int;
            let s = self.single_frame_size as int;
            let f = frame as int;
            assert((f + 1) * s <= n * s) by (nonlinear_arith)
                requires
                    0 <= f < n,
                    0 <= s,
            ;
            assert(f * s <= (f + 1) * s) by (nonlinear_arith)
                requires
                    0 <= f,
                    0 <= s,
            ;
        }
        vstd::slice::slice_subrange(
            data.as_slice(),
            frame * self.single_frame_size,
            (frame + 1) * self.single_frame_size,
        )
    }

    /// The frame shown at tick `t`: the animation repeats forever, and a set
    /// without animation always shows its first frame.
    pub fn frame_for_time(&self, t: usize) -> (r: usize)
        requires
            self.wf(),
        ensures
            r < self.frames,
            r as int == self.spec_frame_for_time(t as int),
    {
        match &self.animation {
            Some(animation) => {
                proof {
                    lemma_timeline_len(animation.frame_lengths@);
                    lemma_timeline_frames(animation.frame_lengths@, t as int % animation.total_length as int);
                }
                animation.frame_for_time[t % animation.total_length]
            },
            None => 0,
        }
    }

    /// The bytes of one tile as shown at tick `t`.
    pub fn data_for_time(&self, tile: usize, t: usize) -> (r: &[u8])
        requires
            self.wf(),
            tile < self.tiles@.len(),
        ensures
            r@ == self.tiles@[tile as int].data@.subrange(
                self.spec_frame_for_time(t as int) * self.single_frame_size,
                (self.spec_frame_for_time(t as int) + 1) * self.single_frame_size,
            ),
    {
        let frame = self.frame_for_time(t);
        self.data_for_frame(tile, frame)
    }
}

/// A prefix never sums to more than the whole.
pub proof fn lemma_total_prefix_bound(lengths: Seq<usize>, n: int)
    requires
        0 <= n <= lengths.len(),
    ensures
        total_of(lengths.subrange(0, n)) <= total_of(lengths),
    decreases lengths.len(),
{
    if n < lengths.len() {
        assert(lengths.drop_last().subrange(0, n) =~= lengths.subrange(0, n));
        lemma_total_prefix_bound(lengths.drop_last(), n);
    } else {
        assert(lengths.subrange(0, n) =~= lengths);
    }
}

/// Value of one ASCII hex digit, either case.
pub open spec fn hex_digit(c: u8) -> int {
    if 0x30 <= c <= 0x39 {
        c - 0x30
    } else if 0x61 <= c <= 0x66 {
        c - 0x61 + 10
    } else if 0x41 <= c <= 0x46 {
        c - 0x41 + 10
    } else {
        -1
    }
}

/// Text made of pairs of hex digits.
pub open spec fn hex_valid(text: Seq<u8>) -> bool {
    &&& text.len() % 2 == 0
    &&& forall|i: int| 0 <= i < text.len() ==> hex_digit(#[trigger] text[i]) >= 0
}

/// The bytes that pairs of hex digits spell, first digit high.
pub open spec fn hex_bytes(text: Seq<u8>) -> Seq<u8> {
    Seq::new(text.len() / 2, |i: int| (hex_digit(text[2 * i]) * 16 + hex_digit(text[2 * i + 1])) as u8)
}

#[verifier::external_type_specification]
#[verifier::external_body]
pub struct ExFromHexError(hex::FromHexError);

/// Relies on `hex::decode`: text of an even number of hex digits, in either
/// case, decodes to one byte per pair; any other text is an error.
#[verifier::external_body]
pub(crate) fn decode_hex(text: &Vec<u8>) -> (r: Result<Vec<u8>, hex::FromHexError>)
    ensures
        r is Ok <==> hex_valid(text@),
        r matches Ok(bytes) ==> bytes@ == hex_bytes(text@),
{
    hex::decode(text)
}

/// Why stored image data was rejected.
#[derive(Clone, Copy, Debug, PartialEq, Eq, Structural)]
pub enum ImportError {
    /// colour depth other than 4, 8 or 16 bits
    InvalidDepth,
    /// a frame too large to address
    TooLarge,
    /// an animation whose frames last no time at all
    ZeroLengthAnimation,
    /// an animation of 0x10000 ticks or more
    AnimationTooLong,
    /// pixel data that is not hex text
    InvalidData,
    /// pixel data of the wrong size for its frames
    WrongDataSize,
}

/// A tile as stored: palette, pixel data as hex text, collision rectangles.
pub struct RawTile {
    pub palette: Option<PaletteWithOffset>,
    pub data: Vec<u8>,
    pub collision: Vec<BoundingRect>,
}

/// A tile set as stored.
pub struct RawTileSet {
    pub name: String,
    pub id: String,
    pub width: usize,
    pub height: usize,
    pub depth: usize,
    pub tiles: Vec<RawTile>,
    pub anim: Option<Vec<usize>>,
}

/// What is wrong with stored pixel data meant to hold `size` bytes, if
/// anything.
pub open spec fn data_error(text: Seq<u8>, size: int) -> Option<ImportError> {
    if !hex_valid(text) {
        Some(ImportError::InvalidData)
    } else if text.len() / 2 != size {
        Some(ImportError::WrongDataSize)
    } else {
        None
    }
}

/// The first problem among the first `n` stored tiles.
pub open spec fn tiles_error(tiles: Seq<RawTile>, n: nat, size: int) -> Option<ImportError>
    decreases n,
{
    if n == 0 {
        None
    } else {
        match tiles_error(tiles, (n - 1) as nat, size) {
            Some(e) => Some(e),
            None => data_error(tiles[n - 1].data@, size),
        }
    }
}

/// Once a problem is found among the first `k` tiles, it stays the first.
pub proof fn lemma_tiles_error_stays(tiles: Seq<RawTile>, k: nat, n: nat, size: int)
    requires
        k <= n,
        tiles_error(tiles, k, size) is Some,
    ensures
        tiles_error(tiles, n, size) == tiles_error(tiles, k, size),
    decreases n,
{
    if n > k {
        lemma_tiles_error_stays(tiles, k, (n - 1) as nat, size);
    }
}

/// Problem with a stored animation, if any.
pub open spec fn animation_error(anim: Option<Vec<usize>>) -> Option<ImportError> {
    match anim {
        Some(a) => if total_of(a@) == 0 {
            Some(ImportError::ZeroLengthAnimation)
        } else if total_of(a@) >= 0x10000 {
            Some(ImportError::AnimationTooLong)
        } else {
            None
        },
        None => None,
    }
}

/// Checks a frame format and computes its size in bytes.
pub(crate) fn checked_frame_size(width: usize, height: usize, depth: usize) -> (r: Result<usize, ImportError>)
    ensures
        r == if !depth_ok(depth) {
            Err(ImportError::InvalidDepth)
        } else if frame_size(width as int, height as int, depth as int) > usize::MAX {
            Err(ImportError::TooLarge)
        } else {
            Ok(frame_size(width as int, height as int, depth as int) as usize)
        },
{
    if depth != 4 && depth != 8 && depth != 16 {
        return Err(ImportError::InvalidDepth);
    }
    let row: usize = if depth == 4 { (width / 2) + (width % 2) } else { width };
    proof {
        if depth == 4 {
            assert((width / 2) + (width % 2) == (width + 1) / 2);
        }
    }
    let area = match row.checked_mul(height) {
        Some(a) => a,
        None => {
            proof {
                if depth == 16 {
                    assert(row * height * 2 >= row * height) by (nonlinear_arith)
                        requires
                            row * height >= 0,
                    ;
                }
            }
            return Err(ImportError::TooLarge);
        },
    };
    if depth == 16 {
        match area.checked_mul(2) {
            Some(size) => Ok(size),
            None => Err(ImportError::TooLarge),
        }
    } else {
        Ok(area)
    }
}

/// Sums frame lengths, stopping once the sum reaches 0x10000.
pub(crate) fn check_animation(lengths: &Vec<usize>) -> (r: Result<(), ImportError>)
    ensures
        r == match animation_error(Some(*lengths)) {
            Some(e) => Err(e),
            None => Ok::<(), ImportError>(()),
        },
{
    let mut total: usize = 0;
    let mut i: usize = 0;
    while i < lengths.len()
        invariant
            i <= lengths@.len(),
            total as int == total_of(lengths@.subrange(0, i as int)),
            total < 0x10000,
        decreases lengths@.len() - i,
    {
        proof {
            assert(lengths@.subrange(0, i + 1).drop_last() =~= lengths@.subrange(0, i as int));
        }
        if lengths[i] >= 0x10000 - total {
            proof {
                lemma_total_prefix_bound(lengths@, i + 1);
            }
            return Err(ImportError::AnimationTooLong);
        }
        total = total + lengths[i];
        i += 1;
    }
    assert(lengths@.subrange(0, lengths@.len() as int) =~= lengths@);
    if total == 0 {
        Err(ImportError::ZeroLengthAnimation)
    } else {
        Ok(())
    }
}

impl TileSet {
    /// Builds a tile set from stored data, checking it as it goes; the
    /// first problem found is returned.
    #[verifier::rlimit(30)]
    pub fn from_raw(raw: RawTileSet) -> (r: Result<TileSet, ImportError>)
        ensures
            r is Err <==> (!depth_ok(raw.depth)
                || frame_size(raw.width as int, raw.height as int, raw.depth as int) > usize::MAX
                || animation_error(raw.anim) is Some
                || tiles_error(raw.tiles@, raw.tiles@.len(), (frames_of_lengths(raw.anim)
                    * frame_size(raw.width as int, raw.height as int, raw.depth as int))) is Some),
            r matches Err(e) ==> e == (if !depth_ok(raw.depth) {
                ImportError::InvalidDepth
            } else if frame_size(raw.width as int, raw.height as int, raw.depth as int) > usize::MAX {
                ImportError::TooLarge
            } else if animation_error(raw.anim) is Some {
                animation_error(raw.anim)->0
            } else {
                tiles_error(raw.tiles@, raw.tiles@.len(), frames_of_lengths(raw.anim)
                    * frame_size(raw.width as int, raw.height as int, raw.depth as int))->0
            }),
            r matches Ok(ts) ==> {
                &&& ts.wf()
                &&& ts.name == raw.name
                &&& ts.id == raw.id
                &&& ts.width == raw.width
                &&& ts.height == raw.height
                &&& ts.depth == raw.depth
                &&& ts.frames == frames_of_lengths(raw.anim)
                &&& ts.tiles@.len() == raw.tiles@.len()
                &&& forall|i: int| 0 <= i < raw.tiles@.len() ==> {
                    &&& (#[trigger] ts.tiles@[i]).data@ == hex_bytes(raw.tiles@[i].data@)
                    &&& ts.tiles@[i].palette == raw.tiles@[i].palette
                    &&& ts.tiles@[i].collision == raw.tiles@[i].collision
                }
            },
    {
        let ghost stored = raw.tiles@;
        let ghost wanted = frames_of_lengths(raw.anim) * frame_size(raw.width as int, raw.height as int, raw.depth as int);
        let RawTileSet { name, id, width, height, depth, tiles, anim } = raw;
        let single_frame_size = match checked_frame_size(width, height, depth) {
            Ok(size) => size,
            Err(e) => return Err(e),
        };
        let animation = match anim {
            Some(lengths) => {
                match check_animation(&lengths) {
                    Ok(()) => {},
                    Err(e) => return Err(e),
                }
                Some(Animation::new(lengths))
            },
            None => None,
        };
        let frames: usize = match &animation {
            Some(a) => a.frame_lengths.len(),
            None => 1,
        };
        let ghost size = frames * single_frame_size;
        assert(size == wanted);
        let expected = frames.checked_mul(single_frame_size);
        let mut tiles = tiles;
        let n_tiles = tiles.len();
        let ghost all = tiles@;
        let mut out: Vec<Tile> = Vec::new();
        let mut i: usize = 0;
        while tiles.len() > 0
            invariant
                tiles@ == all.subrange(i as int, all.len() as int),
                i <= all.len(),
                out@.len() == i,
                tiles_error(all, i as nat, size) is None,
                all == stored,
                raw.tiles@ == stored,
                wanted == frames_of_lengths(raw.anim) * frame_size(raw.width as int, raw.height as int, raw.depth as int),
                raw.width == width,
                raw.height == height,
                raw.depth == depth,
                raw.name == name,
                raw.id == id,
                all.len() == n_tiles,
                size == wanted,
                depth_ok(raw.depth),
                frame_size(raw.width as int, raw.height as int, raw.depth as int) <= usize::MAX,
                animation_error(raw.anim) is None,
                single_frame_size as int == frame_size(raw.width as int, raw.height as int, raw.depth as int),
                frames as int == frames_of_lengths(raw.anim),
                animation matches Some(a) ==> a.wf() && a.frame_lengths@.len() == frames,
                animation is None ==> frames == 1,
                expected matches Some(e) ==> e == size,
                expected is None ==> size > usize::MAX,
                forall|k: int| 0 <= k < i ==> {
                    &&& (#[trigger] out@[k]).data@ == hex_bytes(all[k].data@)
                    &&& out@[k].palette == all[k].palette
                    &&& out@[k].collision == all[k].collision
                    &&& out@[k].data@.len() == size
                },
            decreases tiles@.len(),
        {
            let t = tiles.remove(0);
            assert(t == all[i as int]);
            let data = match decode_hex(&t.data) {
                Ok(bytes) => bytes,
                Err(_) => {
                    proof {
                        lemma_tiles_error_stays(all, (i + 1) as nat, all.len(), size);
                    }
                    return Err(ImportError::InvalidData);
                },
            };
            let got = data.len();
            let fits = match expected {
                Some(e) => got == e,
                None => false,
            };
            if !fits {
                proof {
                    assert(data@.len() == t.data@.len() / 2);
                    lemma_tiles_error_stays(all, (i + 1) as nat, all.len(), size);
                }
                return Err(ImportError::WrongDataSize);
            }
            out.push(Tile { palette: t.palette, data, collision: t.collision });
            i += 1;
        }
        Ok(TileSet { name, id, width, height, depth, frames, single_frame_size, tiles: out, animation })
    }
}

/// Number of frames of an animation with the given lengths, or of a still.
pub open spec fn frames_of_lengths(anim: Option<Vec<usize>>) -> int {
    match anim {
        Some(a) => a@.len() as int,
        None => 1,
    }
}

} // verus!
