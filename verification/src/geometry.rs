//! Remembered floating geometry.
//!
//! A window that leaves floating and comes back must return where it was, not
//! to the origin; the same goes for maximise and fullscreen. Geometry is
//! recorded on every move and resize, so a window is explicitly marked
//! displaced, and while displaced its floating rectangle is frozen: otherwise
//! maximising would overwrite the rectangle that it is supposed to return to.

use vstd::prelude::*;

use crate::utils::Rectangle;

verus! {

#[derive(Debug, Clone, Copy, PartialEq, Eq)]
pub struct FloatingGeometry {
    /// Where to return to. Only updated while the window is *not* displaced.
    pub floating: Option<Rectangle>,
    /// Set while the window is maximised, fullscreened or tiled.
    pub displaced: bool,
    /// This window floats even in a tiled workspace. Kept separate from
    /// `displaced`: that is where the window is right now, this is whether the
    /// layout is entitled to move it at all.
    pub exempt: bool,
}

impl Default for FloatingGeometry {
    fn default() -> (g: FloatingGeometry)
        ensures
            g == (FloatingGeometry { floating: None, displaced: false, exempt: false }),
    {
        FloatingGeometry { floating: None, displaced: false, exempt: false }
    }
}

impl FloatingGeometry {
    /// The geometry once a rectangle has been reported.
    pub open spec fn remembering(self, rect: Rectangle) -> FloatingGeometry {
        if self.displaced || rect.size.w <= 0 || rect.size.h <= 0 {
            self
        } else {
            FloatingGeometry { floating: Some(rect), ..self }
        }
    }

    pub open spec fn marked_displaced(self, value: bool) -> FloatingGeometry {
        FloatingGeometry { displaced: value, ..self }
    }

    pub open spec fn marked_exempt(self, value: bool) -> FloatingGeometry {
        FloatingGeometry { exempt: value, ..self }
    }

    /// Record the current rectangle as the floating one.
    ///
    /// Ignored while displaced, and for a window that has not drawn anything
    /// yet and so has no size.
    pub fn remember(&mut self, rect: Rectangle)
        ensures
            *final(self) == old(self).remembering(rect),
    {
        if self.displaced {
            return;
        }
        if rect.size.w <= 0 || rect.size.h <= 0 {
            return;
        }
        self.floating = Some(rect);
    }

    pub fn recall(&self) -> (rect: Option<Rectangle>)
        ensures
            rect == self.floating,
    {
        self.floating
    }

    pub fn displaced(&self) -> (b: bool)
        ensures
            b == self.displaced,
    {
        self.displaced
    }

    pub fn set_displaced(&mut self, value: bool)
        ensures
            *final(self) == old(self).marked_displaced(value),
    {
        self.displaced = value;
    }

    /// Whether the tiling layout must leave this window alone.
    pub fn exempt(&self) -> (b: bool)
        ensures
            b == self.exempt,
    {
        self.exempt
    }

    pub fn set_exempt(&mut self, value: bool)
        ensures
            *final(self) == old(self).marked_exempt(value),
    {
        self.exempt = value;
    }
}

/// Displacement freezes the remembered rectangle: whatever is reported while a
/// window is displaced, it comes back to where it was.
pub proof fn displacement_freezes_the_rectangle(g: FloatingGeometry, reported: Rectangle)
    ensures
        g.marked_displaced(true).remembering(reported).marked_displaced(false).floating
            == g.floating,
{
}

/// Once a window is restored, the rectangles it reports are recorded again.
pub proof fn recording_resumes_once_restored(g: FloatingGeometry, reported: Rectangle)
    requires
        reported.size.w > 0,
        reported.size.h > 0,
    ensures
        g.marked_displaced(true).marked_displaced(false).remembering(reported).floating == Some(
            reported,
        ),
{
}

/// Displacing a window and exempting it do not touch each other.
pub proof fn exemption_and_displacement_are_independent(g: FloatingGeometry, a: bool, b: bool)
    ensures
        g.marked_displaced(a).exempt == g.exempt,
        g.marked_exempt(b).displaced == g.displaced,
        g.marked_displaced(a).marked_exempt(b) == g.marked_exempt(b).marked_displaced(a),
{
}

} // verus!
