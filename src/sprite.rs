use vstd::prelude::*;
use std::rc::Rc;
use crate::asset::RUNTIME_ASSET;
use crate::shared::share;
use crate::tile::{Animation, ImportError, PaletteWithOffset, animation_error, check_animation, checked_frame_size,
    data_error, decode_hex, depth_ok, frame_size, hex_bytes, lemma_timeline_frames, lemma_timeline_len};

verus! {

/// One named animation of a sprite: pixel data of every frame and its timing.
pub struct SpriteAnimation {
    pub name: String,
    pub width: usize,
    pub height: usize,
    pub depth: usize,
    pub single_frame_size: usize,
    pub palette: Option<PaletteWithOffset>,
    pub data: Vec<u8>,
    pub animation: Animation,
    pub frames: usize,
    pub looping: bool,
}

/// A sprite: a set of animations of one size and colour depth, in the order
/// they were added.
pub struct Sprite {
    pub name: String,
    pub id: String,
    pub width: usize,
    pub height: usize,
    pub depth: usize,
    pub single_frame_size: usize,
    pub animations: Vec<Rc<SpriteAnimation>>,
}

impl SpriteAnimation {
    pub open spec fn wf(&self) -> bool {
        &&& self.animation.wf()
        &&& self.frames == self.animation.frame_lengths@.len()
        &&& self.data@.len() == self.frames * self.single_frame_size
    }

    /// Frame shown at tick `t`: a looping animation repeats, any other one
    /// holds its last frame once it has run through.
    pub open spec fn spec_frame_for_time(&self, t: int) -> int {
        let table = self.animation.frame_for_time@;
        let total = self.animation.total_length as int;
        if self.looping {
            table[t % total] as int
        } else if t >= total {
            table[total - 1] as int
        } else {
            table[t] as int
        }
    }

    pub fn data_for_frame(&self, frame: usize) -> (r: &[u8])
        requires
            self.wf(),
            frame < self.frames,
        ensures
            r@ == self.data@.subrange(frame * self.single_frame_size, (frame + 1) * self.single_frame_size),
    {
        let data_len = self.data.len();
        assert(data_len == self.frames * self.single_frame_size);
        proof {
            let n = self.frames as int;
            let s = self.single_frame_size as int;
            let f = frame as int;
            assert((f + 1) * s <= n * s && f * s <= (f + 1) * s) by (nonlinear_arith)
                requires
                    0 <= f < n,
                    0 <= s,
            ;
        }
        vstd::slice::slice_subrange(
            self.data.as_slice(),
            frame * self.single_frame_size,
            (frame + 1) * self.single_frame_size,
        )
    }

    pub fn frame_for_time(&self, t: usize) -> (r: usize)
        requires
            self.wf(),
        ensures
            r < self.frames,
            r as int == self.spec_frame_for_time(t as int),
    {
        let total = self.animation.total_length;
        proof {
            lemma_timeline_len(self.animation.frame_lengths@);
        }
        let i = if self.looping {
            t % total
        } else if t >= total {
            total - 1
        } else {
            t
        };
        proof {
            lemma_timeline_frames(self.animation.frame_lengths@, i as int);
        }
        self.animation.frame_for_time[i]
    }

    pub fn data_for_time(&self, t: usize) -> (r: &[u8])
        requires
            self.wf(),
        ensures
            r@ == self.data@.subrange(
                self.spec_frame_for_time(t as int) * self.single_frame_size,
                (self.spec_frame_for_time(t as int) + 1) * self.single_frame_size,
            ),
    {
        let frame = self.frame_for_time(t);
        self.data_for_frame(frame)
    }
}

/// Index of the last animation named `name` among the first `n`, if any.
pub open spec fn last_named(animations: Seq<Rc<SpriteAnimation>>, name: Seq<char>, n: int) -> Option<int>
    decreases n,
{
    if n <= 0 {
        None
    } else if animations[n - 1].name@ == name {
        Some(n - 1)
    } else {
        last_named(animations, name, n - 1)
    }
}

impl Sprite {
    pub open spec fn wf(&self) -> bool {
        &&& depth_ok(self.depth)
        &&& self.single_frame_size as int == frame_size(self.width as int, self.height as int, self.depth as int)
        &&& forall|i: int| 0 <= i < self.animations@.len() ==> (#[trigger] self.animations@[i]).wf()
    }

    /// The animation that a lookup by `name` finds: of several with that
    /// name, the one added last.
    pub open spec fn named(&self, name: Seq<char>) -> Option<int> {
        last_named(self.animations@, name, self.animations@.len() as int)
    }

    /// A sprite without animations, built at run time.
    pub fn new(name: &str, width: usize, height: usize, depth: usize) -> (r: Sprite)
        requires
            depth_ok(depth),
            frame_size(width as int, height as int, depth as int) <= usize::MAX,
        ensures
            r.wf(),
            r.name@ == name@,
            r.id@ == RUNTIME_ASSET@,
            r.width == width,
            r.height == height,
            r.depth == depth,
            r.animations@.len() == 0,
    {
        let single_frame_size: usize = if depth == 4 {
            ((width / 2) + (width % 2)) * height
        } else if depth == 8 {
            width * height
        } else {
            width * height * 2
        };
        proof {
            if depth == 4 {
                assert((width / 2) + (width % 2) == (width + 1) / 2);
            }
        }
        Sprite {
            name: name.to_owned(),
            id: RUNTIME_ASSET.to_owned(),
            width,
            height,
            depth,
            single_frame_size,
            animations: Vec::new(),
        }
    }

    /// Adds an animation of this sprite's size and depth.
    pub fn push(&mut self, animation: SpriteAnimation)
        requires
            old(self).wf(),
            animation.wf(),
            animation.width == old(self).width,
            animation.height == old(self).height,
            animation.depth == old(self).depth,
        ensures
            final(self).wf(),
            final(self).animations@ == old(self).animations@.push(Rc::new(animation)),
            final(self).width == old(self).width,
            final(self).height == old(self).height,
            final(self).depth == old(self).depth,
    {
        self.animations.push(Rc::new(animation));
        proof {
            assert forall|i: int| 0 <= i < self.animations@.len() implies (#[trigger] self.animations@[i]).wf() by {
                if i < old(self).animations@.len() {
                    assert(self.animations@[i] == old(self).animations@[i]);
                }
            }
        }
    }

    /// The first animation added.
    pub fn get_default_animation(&self) -> (r: Rc<SpriteAnimation>)
        requires
            self.animations@.len() > 0,
        ensures
            r == self.animations@[0],
    {
        share(&self.animations[0])
    }

    /// Position of the animation called `name`; of several, the last added.
    pub fn animation_index_by_name(&self, name: &str) -> (r: Option<usize>)
        ensures
            opt_usize(r) == self.named(name@),
            r matches Some(i) ==> i < self.animations@.len(),
    {
        let key = name.to_owned();
        let mut i: usize = self.animations.len();
        while i > 0
            invariant
                i <= self.animations@.len(),
                key@ == name@,
                self.named(name@) == last_named(self.animations@, name@, i as int),
            decreases i,
        {
            if self.animations[i - 1].name == key {
                return Some(i - 1);
            }
            i -= 1;
        }
        None
    }

    /// The animation called `name`; of several, the last added.
    pub fn get_animation_by_name(&self, name: &str) -> (r: Option<Rc<SpriteAnimation>>)
        ensures
            r is Some <==> self.named(name@) is Some,
            r matches Some(a) ==> a == self.animations@[self.named(name@)->0],
    {
        match self.animation_index_by_name(name) {
            Some(i) => Some(share(&self.animations[i])),
            None => None,
        }
    }
}

/// An optional index read as a mathematical integer.
pub open spec fn opt_usize(r: Option<usize>) -> Option<int> {
    match r {
        Some(v) => Some(v as int),
        None => None,
    }
}

/// One animation of a sprite as stored: frame lengths, pixel data of all
/// frames as hex text, and whether it repeats.
pub struct RawSpriteAnimation {
    pub name: String,
    pub palette: Option<PaletteWithOffset>,
    pub data: Vec<u8>,
    pub anim: Vec<usize>,
    pub looping: bool,
}

/// A sprite as stored.
pub struct RawSprite {
    pub name: String,
    pub id: String,
    pub width: usize,
    pub height: usize,
    pub depth: usize,
    pub anim: Vec<RawSpriteAnimation>,
}

/// What is wrong with one stored animation of frames of `size` bytes.
pub open spec fn raw_animation_error(a: RawSpriteAnimation, size: int) -> Option<ImportError> {
    match animation_error(Some(a.anim)) {
        Some(e) => Some(e),
        None => data_error(a.data@, a.anim@.len() * size),
    }
}

/// The first problem among the first `n` stored animations.
pub open spec fn animations_error(anims: Seq<RawSpriteAnimation>, n: nat, size: int) -> Option<ImportError>
    decreases n,
{
    if n == 0 {
        None
    } else {
        match animations_error(anims, (n - 1) as nat, size) {
            Some(e) => Some(e),
            None => raw_animation_error(anims[n - 1], size),
        }
    }
}

pub proof fn lemma_animations_error_stays(anims: Seq<RawSpriteAnimation>, k: nat, n: nat, size: int)
    requires
        k <= n,
        animations_error(anims, k, size) is Some,
    ensures
        animations_error(anims, n, size) == animations_error(anims, k, size),
    decreases n,
{
    if n > k {
        lemma_animations_error_stays(anims, k, (n - 1) as nat, size);
    }
}

/// The first problem with a stored sprite, if any.
pub open spec fn sprite_error(raw: RawSprite) -> Option<ImportError> {
    let size = frame_size(raw.width as int, raw.height as int, raw.depth as int);
    if !depth_ok(raw.depth) {
        Some(ImportError::InvalidDepth)
    } else if size > usize::MAX {
        Some(ImportError::TooLarge)
    } else {
        animations_error(raw.anim@, raw.anim@.len(), size)
    }
}

impl Sprite {
    /// Builds a sprite from stored data, checking it as it goes; the first
    /// problem found is returned.
    #[verifier::rlimit(30)]
    pub fn from_raw(raw: RawSprite) -> (r: Result<Sprite, ImportError>)
        ensures
            r is Err <==> sprite_error(raw) is Some,
            r matches Err(e) ==> sprite_error(raw) == Some(e),
            r matches Ok(sprite) ==> {
                &&& sprite.wf()
                &&& sprite.name == raw.name
                &&& sprite.id == raw.id
                &&& sprite.width == raw.width
                &&& sprite.height == raw.height
                &&& sprite.depth == raw.depth
                &&& sprite.animations@.len() == raw.anim@.len()
                &&& forall|i: int| 0 <= i < raw.anim@.len() ==> {
                    &&& (#[trigger] sprite.animations@[i]).name == raw.anim@[i].name
                    &&& sprite.animations@[i].data@ == hex_bytes(raw.anim@[i].data@)
                    &&& sprite.animations@[i].animation.frame_lengths@ == raw.anim@[i].anim@
                    &&& sprite.animations@[i].looping == raw.anim@[i].looping
                    &&& sprite.animations@[i].palette == raw.anim@[i].palette
                }
            },
    {
        let ghost stored = raw;
        let RawSprite { name, id, width, height, depth, anim } = raw;
        let single_frame_size = match checked_frame_size(width, height, depth) {
            Ok(size) => size,
            Err(e) => return Err(e),
        };
        let ghost size = single_frame_size as int;
        let mut pending = anim;
        let n = pending.len();
        let ghost all = pending@;
        let mut animations: Vec<Rc<SpriteAnimation>> = Vec::new();
        let mut i: usize = 0;
        while pending.len() > 0
            invariant
                pending@ == all.subrange(i as int, all.len() as int),
                all == stored.anim@,
                stored == raw,
                all.len() == n,
                i <= n,
                size == frame_size(stored.width as int, stored.height as int, stored.depth as int),
                size == single_frame_size,
                depth_ok(stored.depth),
                size <= usize::MAX,
                width == stored.width,
                height == stored.height,
                depth == stored.depth,
                name == stored.name,
                id == stored.id,
                animations@.len() == i,
                animations_error(all, i as nat, size) is None,
                forall|k: int| 0 <= k < i ==> {
                    &&& (#[trigger] animations@[k]).wf()
                    &&& animations@[k].name == all[k].name
                    &&& animations@[k].data@ == hex_bytes(all[k].data@)
                    &&& animations@[k].animation.frame_lengths@ == all[k].anim@
                    &&& animations@[k].looping == all[k].looping
                    &&& animations@[k].palette == all[k].palette
                    &&& animations@[k].width == width
                    &&& animations@[k].height == height
                    &&& animations@[k].depth == depth
                    &&& animations@[k].single_frame_size == single_frame_size
                },
            decreases pending@.len(),
        {
            let a = pending.remove(0);
            assert(a == all[i as int]);
            if let Err(e) = check_animation(&a.anim) {
                proof {
                    lemma_animations_error_stays(all, (i + 1) as nat, n as nat, size);
                }
                return Err(e);
            }
            let data = match decode_hex(&a.data) {
                Ok(bytes) => bytes,
                Err(_) => {
                    proof {
                        lemma_animations_error_stays(all, (i + 1) as nat, n as nat, size);
                    }
                    return Err(ImportError::InvalidData);
                },
            };
            let frames = a.anim.len();
            let got = data.len();
            let fits = match frames.checked_mul(single_frame_size) {
                Some(e) => got == e,
                None => false,
            };
            if !fits {
                proof {
                    assert(data@.len() == a.data@.len() / 2);
                    lemma_animations_error_stays(all, (i + 1) as nat, n as nat, size);
                }
                return Err(ImportError::WrongDataSize);
            }
            let RawSpriteAnimation { name: anim_name, palette, data: _, anim: lengths, looping } = a;
            let animation = Animation::new(lengths);
            animations.push(Rc::new(SpriteAnimation {
                name: anim_name,
                width,
                height,
                depth,
                single_frame_size,
                palette,
                data,
                animation,
                frames,
                looping,
            }));
            i += 1;
        }
        Ok(Sprite { name, id, width, height, depth, single_frame_size, animations })
    }
}

} // verus!
