//! Animated sprites: what they are, what a manager holds of them, and how
//! their animation runs.

use vstd::prelude::*;
use vstd::arithmetic::div_mod::lemma_add_mod_noop;
use vstd::arithmetic::div_mod::lemma_mod_bound;
use vstd::arithmetic::div_mod::lemma_small_mod;
use std::collections::HashMap;
use crate::color::Color;
use crate::fixed::Fixed;
use crate::fixed::max_int;
use crate::fixed::saturate;
use crate::fixed::saturating_sum;
use crate::framebuffer::TextureView;
use crate::player::Point;

verus! {

/// The kinds of sprite.
#[derive(Clone, Copy, Debug, PartialEq, Eq, Hash, Structural)]
pub enum SpriteType {
    Naruto,
}

impl SpriteType {
    /// The number under which the frames of this kind are kept.
    pub open spec fn spec_key(self) -> u64 {
        match self {
            SpriteType::Naruto => 0,
        }
    }

    /// The number under which the frames of this kind are kept.
    #[verifier::when_used_as_spec(spec_key)]
    pub fn key(self) -> (k: u64)
        ensures
            k == self.spec_key(),
    {
        match self {
            SpriteType::Naruto => 0,
        }
    }
}

/// One sprite in the world.
#[derive(Clone, Copy, Debug)]
pub struct AnimatedSprite {
    pub position: Point,
    pub sprite_type: SpriteType,
    pub current_frame: usize,
    pub frame_timer: Fixed,
    pub scale: Fixed,
    pub visible: bool,
}

/// One frame of an animation: `width * height` pixels, row by row.
#[derive(Clone, Debug)]
pub struct SpritePixelData {
    pub width: u32,
    pub height: u32,
    pub pixels: Vec<Color>,
}

impl View for SpritePixelData {
    type V = TextureView;

    open spec fn view(&self) -> TextureView {
        TextureView {
            width: self.width as nat,
            height: self.height as nat,
            pixels: self.pixels@,
        }
    }
}

/// The sprites of a maze, the frames of each kind of sprite, and the time
/// one frame is shown.
pub struct SpriteManager {
    pub sprites: Vec<AnimatedSprite>,
    sprite_pixel_data: HashMap<u64, Vec<SpritePixelData>>,
    frame_duration: Fixed,
}

/// What a sprite manager is, mathematically: its sprites, the frames loaded
/// for each kind of sprite, and the time one frame is shown.
pub struct SpritesView {
    pub sprites: Seq<AnimatedSprite>,
    pub frames: Map<SpriteType, Seq<TextureView>>,
    pub frame_duration: int,
}

impl SpritesView {
    /// The frames of a kind of sprite; none where none was loaded.
    pub open spec fn frames_of(self, kind: SpriteType) -> Seq<TextureView> {
        if self.frames.contains_key(kind) {
            self.frames[kind]
        } else {
            Seq::empty()
        }
    }
}

/// The views of the frames of an animation.
pub open spec fn frame_views(frames: Seq<SpritePixelData>) -> Seq<TextureView> {
    frames.map_values(|frame: SpritePixelData| frame@)
}

impl View for SpriteManager {
    type V = SpritesView;

    closed spec fn view(&self) -> SpritesView {
        SpritesView {
            sprites: self.sprites@,
            frames: Map::new(
                |kind: SpriteType| self.sprite_pixel_data@.contains_key(kind.key()),
                |kind: SpriteType| frame_views(self.sprite_pixel_data@[kind.key()]@),
            ),
            frame_duration: self.frame_duration as int,
        }
    }
}

/// The time one frame is shown unless told otherwise: eight hundredths of a
/// second.
pub const FRAME_DURATION: Fixed = 5242;

/// The number of frames an animation cycles through: the frames loaded for
/// its kind, or one where none is loaded.
pub open spec fn cycle_length(frame_count: int) -> int {
    max_int(frame_count, 1)
}

/// A sprite after one tick of `dt`: its timer runs on, and where it reaches
/// `duration` it starts again from zero and the next frame of the cycle
/// comes up.
pub open spec fn tick(sprite: AnimatedSprite, dt: int, duration: int, frame_count: int)
    -> AnimatedSprite {
    let elapsed = saturate(sprite.frame_timer + dt);
    if elapsed >= duration {
        AnimatedSprite {
            frame_timer: 0,
            current_frame: ((sprite.current_frame + 1) % cycle_length(frame_count)) as usize,
            ..sprite
        }
    } else {
        AnimatedSprite { frame_timer: elapsed as Fixed, ..sprite }
    }
}

/// A sprite after `k` ticks of `dt` each.
pub open spec fn ticks(sprite: AnimatedSprite, dt: int, duration: int, frame_count: int, k: nat)
    -> AnimatedSprite
    decreases k,
{
    if k == 0 {
        sprite
    } else {
        tick(ticks(sprite, dt, duration, frame_count, (k - 1) as nat), dt, duration, frame_count)
    }
}

/// Stepping to the next frame of a cycle, from a frame counted modulo the
/// cycle or not, lands on the same frame.
proof fn lemma_next_in_cycle(frame: int, length: int)
    requires
        frame >= 0,
        length >= 1,
    ensures
        (frame % length + 1) % length == (frame + 1) % length,
        0 <= (frame + 1) % length < length,
{
    lemma_mod_bound(frame + 1, length);
    if length == 1 {
        lemma_mod_bound(frame % length + 1, length);
    } else {
        lemma_add_mod_noop(frame, 1, length);
        lemma_small_mod(1, length as nat);
    }
}

/// An animation loops.  A sprite whose timer is not negative, ticked `k`
/// times by a frame's duration or more, shows the frame `k` places further
/// along the cycle, and after the first such tick its timer is at zero.
/// (Before the first tick this asks that the frame shown is one of the
/// cycle.)
pub proof fn lemma_animation_loops(
    sprite: AnimatedSprite,
    dt: Fixed,
    duration: Fixed,
    frame_count: usize,
    k: nat,
)
    requires
        sprite.frame_timer >= 0,
        dt >= duration,
        k > 0 || sprite.current_frame < cycle_length(frame_count as int),
    ensures
        ticks(sprite, dt as int, duration as int, frame_count as int, k).current_frame == (
        sprite.current_frame + k) % cycle_length(frame_count as int),
        k > 0 ==> ticks(sprite, dt as int, duration as int, frame_count as int, k).frame_timer
            == 0,
        ticks(sprite, dt as int, duration as int, frame_count as int, k).frame_timer >= 0,
    decreases k,
{
    let length = cycle_length(frame_count as int);
    if k == 0 {
        lemma_small_mod(sprite.current_frame as nat, length as nat);
    } else {
        let earlier = ticks(sprite, dt as int, duration as int, frame_count as int, (k - 1) as nat);
        let later = ticks(sprite, dt as int, duration as int, frame_count as int, k);
        assert(later == tick(earlier, dt as int, duration as int, frame_count as int));
        if k == 1 {
            assert(earlier == sprite);
            lemma_next_in_cycle(sprite.current_frame as int, length);
        } else {
            lemma_animation_loops(sprite, dt, duration, frame_count, (k - 1) as nat);
            lemma_next_in_cycle(sprite.current_frame + k - 1, length);
            assert(earlier.current_frame == (sprite.current_frame + k - 1) % length);
            assert((earlier.current_frame + 1) % length == (sprite.current_frame + k) % length);
        }
        assert(saturate(earlier.frame_timer + dt) >= duration);
        assert(later.current_frame == ((earlier.current_frame + 1) % length) as usize);
        lemma_mod_bound(earlier.current_frame + 1, length);
    }
}

/// The view of a frame that may be missing.
pub open spec fn frame_view(data: Option<&SpritePixelData>) -> Option<TextureView> {
    match data {
        Some(frame) => Some(frame@),
        None => None,
    }
}

/// The frame an animation shows at a frame index: the last one where the
/// index runs past the end, none where no frame is loaded.
pub open spec fn frame_shown(frames: Seq<TextureView>, index: int) -> Option<TextureView> {
    if frames.len() > 0 {
        if index < frames.len() {
            Some(frames[index])
        } else {
            Some(frames[frames.len() - 1])
        }
    } else {
        None
    }
}

impl SpriteManager {
    /// A manager with no sprite and no frame.
    pub fn new() -> (manager: SpriteManager)
        ensures
            manager@.sprites == Seq::<AnimatedSprite>::empty(),
            manager@.frames == Map::<SpriteType, Seq<TextureView>>::empty(),
            manager@.frame_duration == FRAME_DURATION,
    {
        let manager = SpriteManager {
            sprites: Vec::new(),
            sprite_pixel_data: HashMap::new(),
            frame_duration: FRAME_DURATION,
        };
        assert(manager@.frames =~= Map::<SpriteType, Seq<TextureView>>::empty());
        manager
    }

    /// The time one frame is shown.
    pub fn frame_duration(&self) -> (duration: Fixed)
        ensures
            duration == self@.frame_duration,
    {
        self.frame_duration
    }

    /// Sets the time one frame is shown.
    pub fn set_frame_duration(&mut self, duration: Fixed)
        ensures
            final(self)@ == (SpritesView { frame_duration: duration as int, ..old(self)@ }),
    {
        self.frame_duration = duration;
    }

    /// Replaces the sprites of the manager.
    pub fn set_sprites(&mut self, sprites: Vec<AnimatedSprite>)
        ensures
            final(self)@ == (SpritesView { sprites: sprites@, ..old(self)@ }),
    {
        self.sprites = sprites;
    }

    /// Replaces the frames of a kind of sprite.
    pub fn set_frames(&mut self, kind: SpriteType, frames: Vec<SpritePixelData>)
        ensures
            final(self)@ == (SpritesView {
                frames: old(self)@.frames.insert(kind, frame_views(frames@)),
                ..old(self)@
            }),
    {
        self.sprite_pixel_data.insert(kind.key(), frames);
        proof {
            assert forall|other: SpriteType| other.key() == kind.key() implies other == kind by {}
            assert(self@.frames =~= old(self)@.frames.insert(kind, frame_views(frames@)));
        }
    }

    /// The number of frames loaded for a kind of sprite.
    pub fn frame_count(&self, kind: SpriteType) -> (count: usize)
        ensures
            count == self@.frames_of(kind).len(),
    {
        match self.sprite_pixel_data.get(&kind.key()) {
            Some(frames) => frames.len(),
            None => 0,
        }
    }

    /// The number of sprites.
    pub fn sprite_count(&self) -> (count: usize)
        ensures
            count == self@.sprites.len(),
    {
        self.sprites.len()
    }

    /// The `n`-th sprite.
    pub fn sprite(&self, n: usize) -> (sprite: AnimatedSprite)
        requires
            n < self@.sprites.len(),
        ensures
            sprite == self@.sprites[n as int],
    {
        self.sprites[n]
    }

    /// The frame that a sprite shows now, if frames are loaded for its kind.
    pub fn current_frame_data(&self, sprite: &AnimatedSprite) -> (data: Option<&SpritePixelData>)
        ensures
            frame_view(data) == frame_shown(
                self@.frames_of(sprite.sprite_type),
                sprite.current_frame as int,
            ),
    {
        match self.sprite_pixel_data.get(&sprite.sprite_type.key()) {
            Some(frames) => {
                if frames.len() == 0 {
                    None
                } else if sprite.current_frame < frames.len() {
                    Some(&frames[sprite.current_frame])
                } else {
                    Some(&frames[frames.len() - 1])
                }
            },
            None => None,
        }
    }

    /// Advances the animation clock of every sprite by `dt`.
    pub fn update(&mut self, dt: Fixed)
        ensures
            final(self)@.frames == old(self)@.frames,
            final(self)@.frame_duration == old(self)@.frame_duration,
            final(self)@.sprites.len() == old(self)@.sprites.len(),
            forall|i: int|
                0 <= i < old(self)@.sprites.len() ==> #[trigger] final(self)@.sprites[i] == tick(
                    old(self)@.sprites[i],
                    dt as int,
                    old(self)@.frame_duration,
                    old(self)@.frames_of(old(self)@.sprites[i].sprite_type).len() as int,
                ),
    {
        let count: usize = self.sprites.len();
        let mut i: usize = 0;
        while i < count
            invariant
                i <= count,
                count == self.sprites@.len(),
                count == old(self).sprites@.len(),
                self.sprite_pixel_data == old(self).sprite_pixel_data,
                self.frame_duration == old(self).frame_duration,
                forall|j: int|
                    0 <= j < i ==> #[trigger] self.sprites@[j] == tick(
                        old(self)@.sprites[j],
                        dt as int,
                        old(self)@.frame_duration,
                        old(self)@.frames_of(old(self)@.sprites[j].sprite_type).len() as int,
                    ),
                forall|j: int| i <= j < count ==> #[trigger] self.sprites@[j] == old(self).sprites@[j],
            decreases count - i,
        {
            let sprite: AnimatedSprite = self.sprites[i];
            let elapsed: Fixed = saturating_sum(sprite.frame_timer, dt);
            let next: AnimatedSprite = if elapsed >= self.frame_duration {
                let loaded: usize = self.frame_count(sprite.sprite_type);
                let length: usize = if loaded > 1 {
                    loaded
                } else {
                    1
                };
                proof {
                    lemma_next_in_cycle(sprite.current_frame as int, length as int);
                    lemma_mod_bound(sprite.current_frame as int, length as int);
                }
                AnimatedSprite {
                    frame_timer: 0,
                    current_frame: (sprite.current_frame % length + 1) % length,
                    ..sprite
                }
            } else {
                AnimatedSprite { frame_timer: elapsed, ..sprite }
            };
            self.sprites.set(i, next);
            i = i + 1;
        }
    }
}

} // verus!
