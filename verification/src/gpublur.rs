//! Blurring what is behind a window: what is allocated, and what each pass does.
//!
//! The scene is assembled back to front in an offscreen buffer, and each window
//! blurs that buffer as it stands before the window is drawn: what ends up
//! behind a window is exactly what is behind it. The blur itself runs at half
//! size, between two buffers that change places.

use vstd::prelude::*;

use crate::number;
use crate::number::Number;
use crate::utils::{Rectangle, Size};

verus! {

/// A size, of which there is at least one pixel each way.
pub open spec fn at_least_one(size: Size) -> Size {
    Size {
        w: if size.w < 1 {
            1
        } else {
            size.w
        },
        h: if size.h < 1 {
            1
        } else {
            size.h
        },
    }
}

/// Half of a length, and at least one pixel.
pub open spec fn half_length(n: int) -> int {
    if n < 4 {
        1
    } else {
        n / 2
    }
}

fn half_side(n: i32) -> (half: i32)
    ensures
        half == half_length(n as int),
{
    if n < 4 {
        1
    } else {
        n / 2
    }
}

/// Half of a size, with at least one pixel each way.
pub fn half_size(size: Size) -> (half: Size)
    ensures
        half.w == half_length(size.w as int),
        half.h == half_length(size.h as int),
{
    Size { w: half_side(size.w), h: half_side(size.h) }
}

/// How far a pass spreads the blur, in pixels of the half-size buffer: a
/// fraction.
#[derive(Debug, Clone, Copy, PartialEq, Eq, Structural)]
pub struct Spread {
    pub over: u64,
    pub under: u64,
}

/// How many passes are run.
pub open spec fn pass_count(passes: u32) -> int {
    if passes < 1 {
        1
    } else if passes > 6 {
        6
    } else {
        passes as int
    }
}

/// How far pass `step` spreads the blur: further than the one before, since the
/// same distance again would stop spreading. The radius counts pixels of the
/// full-size scene.
pub open spec fn spread_of(radius: i32, passes: u32, step: int) -> Spread {
    Spread {
        over: ((if radius < 1 {
            1
        } else {
            radius as int
        }) * (step + 1)) as u64,
        under: (2 * pass_count(passes)) as u64,
    }
}

/// The buffers of a blur, as far as they have been allocated.
#[derive(Debug, Clone, Copy, PartialEq, Eq, Structural)]
pub struct GpuBlur {
    /// Whether the blur can be drawn at all.
    pub program: bool,
    pub scene: bool,
    pub ping: bool,
    pub pong: bool,
    pub size: Size,
}

impl GpuBlur {
    /// Nothing is allocated before the first frame.
    pub fn new(program: bool) -> (blur: GpuBlur)
        ensures
            blur == (GpuBlur {
                program,
                scene: false,
                ping: false,
                pong: false,
                size: Size { w: 0, h: 0 },
            }),
    {
        GpuBlur { program, scene: false, ping: false, pong: false, size: Size { w: 0, h: 0 } }
    }

    /// Whether there are no buffers to draw a frame of this size with.
    pub open spec fn lacks(self, size: Size) -> bool {
        self.program && (self.size != size || !self.scene)
    }

    /// Which sizes to allocate for a frame, of the scene and of the two buffers
    /// that are blurred between; nothing, where what is there will do or nothing
    /// can be drawn.
    pub fn wants(&self, size: Size) -> (sizes: Option<(Size, Size)>)
        ensures
            sizes is Some <==> self.lacks(size),
            sizes matches Some((full, half)) ==> full == at_least_one(size) && half.w
                == half_length(size.w as int) && half.h == half_length(size.h as int),
    {
        if !self.program || (self.size == size && self.scene) {
            return None;
        }
        let full: Size = Size {
            w: if size.w < 1 {
                1
            } else {
                size.w
            },
            h: if size.h < 1 {
                1
            } else {
                size.h
            },
        };
        Some((full, half_size(size)))
    }

    /// Take note of which of the buffers for a size could be allocated.
    pub fn allocated(&mut self, size: Size, scene: bool, ping: bool, pong: bool)
        ensures
            *final(self) == (GpuBlur { program: old(self).program, scene, ping, pong, size }),
    {
        self.scene = scene;
        self.ping = ping;
        self.pong = pong;
        self.size = size;
    }

    /// Whether a frame can blur, `fresh` telling whether its buffers were
    /// allocated for it.
    pub fn begin(&self, fresh: bool) -> (ready: bool)
        ensures
            ready == (self.program && (!fresh || (self.scene && self.ping && self.pong))),
    {
        self.program && (!fresh || (self.scene && self.ping && self.pong))
    }

    pub open spec fn without_scene(self) -> GpuBlur {
        GpuBlur { scene: false, ..self }
    }

    /// Hand the scene out to be drawn into; whether there was one. Until it is
    /// put back there is none, so that one that is lost is made again.
    pub fn take_scene(&mut self) -> (taken: bool)
        ensures
            taken == old(self).scene,
            *final(self) == old(self).without_scene(),
    {
        let taken: bool = self.scene;
        self.scene = false;
        taken
    }

    pub open spec fn with_scene(self) -> GpuBlur {
        GpuBlur { scene: true, ..self }
    }

    /// Put the scene back.
    pub fn put_scene(&mut self)
        ensures
            *final(self) == old(self).with_scene(),
    {
        self.scene = true;
    }

    /// Whether the scene can be scaled down into the first half-size buffer.
    pub open spec fn can_scale(self) -> bool {
        self.program && self.scene && self.ping
    }

    /// The buffers once the scene has been scaled down, `drawn` telling whether
    /// that went well: the buffer is lost where it did not.
    pub open spec fn scaled(self, drawn: bool) -> GpuBlur {
        if self.can_scale() {
            GpuBlur { ping: drawn, ..self }
        } else {
            self
        }
    }

    /// Take note of how scaling the scene down went; whether the passes follow.
    pub fn scaled_down(&mut self, drawn: bool) -> (goes_on: bool)
        ensures
            goes_on == (old(self).can_scale() && drawn),
            *final(self) == old(self).scaled(drawn),
    {
        if !(self.program && self.scene && self.ping) {
            return false;
        }
        self.ping = drawn;
        drawn
    }

    /// The buffers once a pass has been drawn from the first into the second and
    /// they have changed places, `drawn` telling whether that went well. Both are
    /// lost where it did not, and the first where there is no second.
    pub open spec fn after_pass(self, drawn: bool) -> GpuBlur {
        if !self.ping {
            self
        } else if !self.pong {
            GpuBlur { ping: false, ..self }
        } else {
            GpuBlur { ping: drawn, pong: drawn, ..self }
        }
    }

    /// Take note of how a pass went; whether the next one follows.
    pub fn passed(&mut self, drawn: bool) -> (goes_on: bool)
        ensures
            goes_on == (old(self).ping && old(self).pong && drawn),
            *final(self) == old(self).after_pass(drawn),
    {
        if !self.ping {
            return false;
        }
        if !self.pong {
            self.ping = false;
            return false;
        }
        self.ping = drawn;
        self.pong = drawn;
        drawn
    }

    /// How far each pass spreads, in order. Each draws from one of the two
    /// half-size buffers into the other, and the two change places, so that the
    /// result is always in the first.
    pub fn blur_scene(radius: i32, passes: u32) -> (spreads: Vec<Spread>)
        ensures
            spreads@ == Seq::new(
                pass_count(passes) as nat,
                |step: int| spread_of(radius, passes, step),
            ),
    {
        let steps: u64 = if passes < 1 {
            1
        } else if passes > 6 {
            6
        } else {
            passes as u64
        };
        let reach: u64 = if radius < 1 {
            1
        } else {
            radius as u64
        };
        let mut spreads: Vec<Spread> = Vec::new();
        for step in 0..steps
            invariant
                1 <= steps <= 6,
                steps == pass_count(passes),
                1 <= reach <= i32::MAX,
                reach == if radius < 1 {
                    1
                } else {
                    radius as int
                },
                spreads@.len() == step,
                forall|k: int| 0 <= k < step ==> spreads@[k] == spread_of(radius, passes, k),
        {
            assert(reach * (step + 1) <= reach * 6) by (nonlinear_arith)
                requires
                    step + 1 <= 6,
                    reach >= 0,
            ;
            spreads.push(Spread { over: reach * (step + 1), under: 2 * steps });
        }
        assert(spreads@ =~= Seq::new(
            pass_count(passes) as nat,
            |step: int| spread_of(radius, passes, step),
        ));
        spreads
    }

    /// The part of the half-size buffer that lies behind a rectangle of the
    /// screen: where it starts, and how big it is. An odd coordinate keeps its
    /// half pixel.
    pub fn half_src(rect: Rectangle) -> (src: ((Number, Number), (Number, Number)))
        ensures
            src.0.0 == number::half(rect.loc.x as int),
            src.0.1 == number::half(rect.loc.y as int),
            src.1.0 == number::half(rect.size.w as int),
            src.1.1 == number::half(rect.size.h as int),
    {
        (
            (Number::half_of(rect.loc.x), Number::half_of(rect.loc.y)),
            (Number::half_of(rect.size.w), Number::half_of(rect.size.h)),
        )
    }
}

/// The buffers once the scene has been scaled down and `n` passes have been
/// drawn, all of it well.
pub open spec fn after_passes(blur: GpuBlur, n: int) -> GpuBlur
    decreases n,
{
    if n <= 0 {
        blur.scaled(true)
    } else {
        after_passes(blur, n - 1).after_pass(true)
    }
}

/// A blur that goes well leaves every buffer where it was, after each of its
/// passes.
pub proof fn a_blur_that_goes_well_loses_nothing(blur: GpuBlur, n: int)
    requires
        blur.can_scale(),
        blur.pong,
    ensures
        after_passes(blur, n) == blur,
    decreases n,
{
    if n > 0 {
        a_blur_that_goes_well_loses_nothing(blur, n - 1);
    }
}

/// A scene that is taken is there again once it is put back, and one that is not
/// put back is allocated again with the next frame.
pub proof fn a_lost_scene_is_made_again(blur: GpuBlur, size: Size)
    ensures
        blur.scene ==> blur.without_scene().with_scene() == blur,
        blur.program ==> blur.without_scene().lacks(size),
{
}

/// Every pass spreads further than the one before, and the last spreads half of
/// the radius: the buffers are half size, so that is the radius on screen.
pub proof fn each_pass_spreads_further(radius: i32, passes: u32, step: int)
    requires
        1 <= radius,
        0 <= step < pass_count(passes),
    ensures
        step + 1 < pass_count(passes) ==> spread_of(radius, passes, step).over < spread_of(
            radius,
            passes,
            step + 1,
        ).over,
        step + 1 == pass_count(passes) ==> 2 * spread_of(radius, passes, step).over == radius
            * spread_of(radius, passes, step).under,
{
    let n = pass_count(passes);
    assert(0 < radius * (step + 1) < radius * (step + 2) <= radius * 7) by (nonlinear_arith)
        requires
            radius >= 1,
            0 <= step < 6,
    ;
    assert(2 * (radius * n) == radius * (2 * n)) by (nonlinear_arith);
}

/// The buffers that are blurred between are half as big as the frame each way, up
/// to the pixel that an odd length leaves over, and never empty.
pub proof fn a_buffer_is_half_as_big(n: int)
    requires
        1 <= n,
    ensures
        1 <= half_length(n) <= n,
        2 <= n ==> 2 * half_length(n) <= n,
        n != 3 ==> n <= 2 * half_length(n) + 1,
{
}

/// A pass that goes wrong loses both of the buffers it works on, so that nothing
/// is drawn from what it left; the scene is not lost by it.
pub proof fn a_pass_that_goes_wrong_loses_its_buffers(blur: GpuBlur)
    requires
        blur.ping,
    ensures
        !blur.after_pass(false).ping,
        !blur.after_pass(false).pong,
        !blur.after_pass(false).can_scale(),
        blur.after_pass(false).scene == blur.scene,
        blur.after_pass(false).size == blur.size,
        !blur.pong ==> !blur.after_pass(true).ping,
        !blur.scaled(false).can_scale(),
{
}

} // verus!
