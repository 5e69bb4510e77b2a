//! Frame-based playback of sprite animations cut from a texture atlas.
//!
//! All times are whole microseconds.

use vstd::prelude::*;
use std::collections::HashMap;
use crate::rendering::DrawCommand;

verus! {

broadcast use vstd::std_specs::hash::group_hash_axioms;

/// A rectangle of pixels inside a texture.
#[derive(Debug, Clone, Copy, PartialEq, Eq, Structural)]
pub struct Rect {
    pub x: u32,
    pub y: u32,
    pub w: u32,
    pub h: u32,
}

/// The playback state of one animation: `frames` frames shown over
/// `duration` microseconds, and how far into that span playback is.
#[derive(Debug, Clone, Copy, PartialEq, Eq, Structural)]
pub struct Animation {
    pub duration: u64,
    pub frames: u32,
    pub time_elapsed: u64,
    pub is_playing: bool,
    pub run_forever: bool,
}

/// `t` as a `u64`, or the largest `u64` where `t` does not fit.
pub open spec fn saturated(t: int) -> u64 {
    if t > u64::MAX {
        u64::MAX
    } else {
        t as u64
    }
}

impl Animation {
    /// The state after `time_elapsed` more microseconds.
    ///
    /// A stopped animation does not move. A playing one moves on by
    /// `time_elapsed`. Once it reaches `duration`, a looping animation wraps
    /// round (its position is taken modulo `duration`) and any other stops
    /// where it got to. A position that no `u64` can hold is kept at the
    /// largest `u64`; so is that of a looping animation of duration zero,
    /// which has nothing to wrap round.
    pub open spec fn advanced(self, time_elapsed: u64) -> Animation {
        let t = self.time_elapsed + time_elapsed;
        if !self.is_playing {
            self
        } else if t < self.duration {
            Animation { time_elapsed: t as u64, ..self }
        } else if !self.run_forever {
            Animation { time_elapsed: saturated(t), is_playing: false, ..self }
        } else if self.duration == 0 {
            Animation { time_elapsed: saturated(t), ..self }
        } else {
            Animation { time_elapsed: (t % (self.duration as int)) as u64, ..self }
        }
    }

    /// The index of the frame that is showing: the position scaled from
    /// `0..duration` to `0..frames` and rounded down, at most `u32::MAX`.
    /// With a duration of zero it is `0` at position zero or without frames,
    /// and `u32::MAX` otherwise.
    pub open spec fn spec_current_frame(&self) -> u32 {
        let scaled = self.time_elapsed * self.frames;
        if self.duration == 0 {
            if scaled == 0 {
                0
            } else {
                u32::MAX
            }
        } else if scaled / (self.duration as int) > u32::MAX {
            u32::MAX
        } else {
            (scaled / (self.duration as int)) as u32
        }
    }

    /// The draw that shows this animation at `position`: the rectangle that
    /// `anim_src` holds for the current frame, or nothing if it holds none.
    pub open spec fn spec_draw(self, position: (i32, i32), anim_src: AnimationSourceView) -> Option<
        DrawCommand,
    > {
        if anim_src.frames.contains_key(self.spec_current_frame()) {
            Some(
                DrawCommand {
                    texture_id: anim_src.texture_id,
                    x: position.0,
                    y: position.1,
                    source: Some(anim_src.frames[self.spec_current_frame()]),
                },
            )
        } else {
            None
        }
    }

    /// A stopped animation at position zero that does not loop.
    pub fn new(duration: u64, frames: u32) -> (anim: Animation)
        ensures
            anim == (Animation {
                duration,
                frames,
                time_elapsed: 0,
                is_playing: false,
                run_forever: false,
            }),
    {
        Animation { duration, frames, time_elapsed: 0, is_playing: false, run_forever: false }
    }

    /// Moves playback on by `time_elapsed` microseconds.
    pub fn update(&mut self, time_elapsed: u64)
        ensures
            *final(self) == old(self).advanced(time_elapsed),
    {
        if self.is_playing {
            let t: u128 = self.time_elapsed as u128 + time_elapsed as u128;
            if t < self.duration as u128 {
                self.time_elapsed = t as u64;
            } else if !self.run_forever {
                self.time_elapsed = saturate(t);
                self.stop();
            } else if self.duration == 0 {
                self.time_elapsed = saturate(t);
            } else {
                self.time_elapsed = (t % (self.duration as u128)) as u64;
            }
        }
    }

    /// Computes the draw that shows this animation at `position`.
    pub fn draw(&self, position: (i32, i32), anim_src: &AnimationSource) -> (cmd: Option<
        DrawCommand,
    >)
        ensures
            cmd == self.spec_draw(position, anim_src@),
    {
        let frame: u32 = self.current_frame();
        match anim_src.get_frame(&frame) {
            Some(source) => Some(
                DrawCommand {
                    texture_id: anim_src.texture_id,
                    x: position.0,
                    y: position.1,
                    source: Some(*source),
                },
            ),
            None => None,
        }
    }

    /// Starts or resumes playback.
    pub fn play(&mut self)
        ensures
            *final(self) == (Animation { is_playing: true, ..*old(self) }),
    {
        self.is_playing = true;
    }

    /// Switches looping on if it is off, and off if it is on.
    pub fn toggle_run_forever(&mut self)
        ensures
            *final(self) == (Animation { run_forever: !old(self).run_forever, ..*old(self) }),
    {
        self.run_forever = !self.run_forever;
    }

    /// Halts playback where it is.
    pub fn stop(&mut self)
        ensures
            *final(self) == (Animation { is_playing: false, ..*old(self) }),
    {
        self.is_playing = false;
    }

    /// Goes back to position zero.
    pub fn reset(&mut self)
        ensures
            *final(self) == (Animation { time_elapsed: 0, ..*old(self) }),
    {
        self.time_elapsed = 0;
    }

    /// The index of the frame that is showing.
    #[verifier::when_used_as_spec(spec_current_frame)]
    pub fn current_frame(&self) -> (frame: u32)
        ensures
            frame == self.spec_current_frame(),
    {
        assert(self.time_elapsed * self.frames <= 0xffff_ffff_ffff_ffff * 0xffff_ffff)
            by (nonlinear_arith)
            requires
                self.time_elapsed <= 0xffff_ffff_ffff_ffff,
                self.frames <= 0xffff_ffff,
        ;
        let scaled: u128 = self.time_elapsed as u128 * self.frames as u128;
        if self.duration == 0 {
            if scaled == 0 {
                0
            } else {
                u32::MAX
            }
        } else {
            let index: u128 = scaled / (self.duration as u128);
            if index > u32::MAX as u128 {
                u32::MAX
            } else {
                index as u32
            }
        }
    }
}

/// A looping animation that is inside its span stays inside it, however
/// much time goes by.
pub proof fn lemma_loop_stays_in_span(anim: Animation, time_elapsed: u64)
    requires
        anim.run_forever,
        anim.time_elapsed < anim.duration,
    ensures
        anim.advanced(time_elapsed).time_elapsed < anim.duration,
        anim.advanced(time_elapsed).is_playing == anim.is_playing,
{
    vstd::arithmetic::div_mod::lemma_mod_bound(
        anim.time_elapsed + time_elapsed,
        anim.duration as int,
    );
}

/// An animation that has frames and is inside its span shows one of them.
pub proof fn lemma_frame_in_range(anim: Animation)
    requires
        anim.frames > 0,
        anim.time_elapsed < anim.duration,
    ensures
        anim.spec_current_frame() < anim.frames,
{
    let scaled = anim.time_elapsed * anim.frames;
    let span = anim.duration as int;
    let frames = anim.frames as int;
    assert(scaled < frames * span && frames * span == span * frames) by (nonlinear_arith)
        requires
            scaled == anim.time_elapsed * frames,
            0 <= anim.time_elapsed < span,
            frames > 0,
    ;
    vstd::arithmetic::div_mod::lemma_div_by_multiple_is_strongly_ordered(
        scaled,
        frames * span,
        frames,
        span,
    );
    vstd::arithmetic::div_mod::lemma_div_multiples_vanish(frames, span);
}

/// `t` cut down to what a `u64` can hold.
fn saturate(t: u128) -> (r: u64)
    ensures
        r == saturated(t as int),
{
    if t > u64::MAX as u128 {
        u64::MAX
    } else {
        t as u64
    }
}

/// Where the frames of an animation lie in a texture atlas: for each frame
/// index that has one, its rectangle in the texture `texture_id`.
#[derive(Debug)]
pub struct AnimationSource {
    pub texture_id: u32,
    pub frames: HashMap<u32, Rect>,
}

/// What an `AnimationSource` holds, as a mathematical map.
#[verifier::ext_equal]
pub struct AnimationSourceView {
    pub texture_id: u32,
    pub frames: Map<u32, Rect>,
}

impl View for AnimationSource {
    type V = AnimationSourceView;

    open spec fn view(&self) -> AnimationSourceView {
        AnimationSourceView { texture_id: self.texture_id, frames: self.frames@ }
    }
}

impl Clone for AnimationSource {
    /// A source with the same frames in the same texture.
    fn clone(&self) -> (copy: AnimationSource)
        ensures
            copy@ == self@,
    {
        AnimationSource { texture_id: self.texture_id, frames: self.frames.clone() }
    }
}

impl AnimationSource {
    /// A source in texture `texture_id` that has no frames yet.
    pub fn new(texture_id: u32) -> (anim_src: AnimationSource)
        ensures
            anim_src@ == (AnimationSourceView { texture_id, frames: Map::empty() }),
    {
        AnimationSource { texture_id, frames: HashMap::new() }
    }

    /// Gives frame `id` the rectangle `params`, in place of any it had.
    pub fn set_frame(&mut self, id: u32, params: Rect)
        ensures
            final(self)@ == (AnimationSourceView {
                frames: old(self)@.frames.insert(id, params),
                ..old(self)@
            }),
    {
        self.frames.insert(id, params);
    }

    /// The rectangle of frame `id`, if it has one.
    pub fn get_frame(&self, id: &u32) -> (params: Option<&Rect>)
        ensures
            match params {
                Some(rect) => self@.frames.contains_key(*id) && *rect == self@.frames[*id],
                None => !self@.frames.contains_key(*id),
            },
    {
        self.frames.get(id)
    }
}

} // verus!
