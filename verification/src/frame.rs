//! The real clock the frame loop is driven by.
//!
//! A monotonic clock is an operating-system resource, so everything it says
//! depends on when it is asked: nothing about the numbers it reports is a
//! function of anything this library holds.

use std::time::{Duration, Instant};

use vstd::prelude::*;

verus! {

/// `std::time::Instant`, carried through unopened.
#[verifier::external_type_specification]
#[verifier::external_body]
pub struct ExInstant(Instant);

/// The current moment, by `std::time::Instant::now`. Depends on when it is
/// called, so nothing is claimed of it.
#[verifier::external_body]
fn instant_now() -> Instant {
    Instant::now()
}

/// Time since `origin`, by `std::time::Instant::elapsed`. Depends on when it is
/// called, so nothing is claimed of it.
#[verifier::external_body]
fn elapsed_since(origin: &Instant) -> Duration {
    origin.elapsed()
}

/// The real clock: an `Instant`, counted from when the loop started.
#[derive(Debug)]
pub struct Monotonic {
    origin: Instant,
}

impl Monotonic {
    /// A clock whose origin is now.
    pub fn new() -> Monotonic {
        Monotonic { origin: instant_now() }
    }

    /// How long it has been since the origin.
    ///
    /// `Instant` is documented as monotonically non-decreasing, which is what a
    /// frame loop asks of its clock, so no clamping is done here.
    pub fn now(&mut self) -> Duration {
        elapsed_since(&self.origin)
    }
}

impl Default for Monotonic {
    /// A clock whose origin is now.
    fn default() -> Monotonic {
        Monotonic::new()
    }
}


/// Where a screenshot is between being asked for and being taken.
///
/// The request goes in from a key press and the picture comes out at the end
/// of the frame that served it. The host never writes a file: it hands the
/// picture over, and where it lands is the runner's decision.
#[derive(Debug)]
pub enum Capture<P> {
    /// Nobody has asked.
    Idle,
    /// Asked for, not yet served.
    Wanted,
    /// Read back and waiting to be taken by the runner.
    Taken(P),
}

impl<P> Capture<P> {
    /// Nobody has asked yet.
    pub fn new() -> (capture: Capture<P>)
        ensures
            capture is Idle,
    {
        Capture::Idle
    }

    /// Asks for the next drawn frame to be read back.
    ///
    /// Asking twice before either is served is one screenshot, not two: this
    /// is a request, not a queue. A picture that has been read back and not
    /// yet collected is not overwritten.
    pub fn request_capture(&mut self)
        ensures
            *old(self) is Idle ==> *final(self) is Wanted,
            !(*old(self) is Idle) ==> *final(self) == *old(self),
    {
        if matches!(self, Capture::Idle) {
            *self = Capture::Wanted;
        }
    }

    /// At the end of a frame: a wanted picture is taken from what the frame
    /// drew, if it drew anything. A request survives a frame with nowhere to
    /// draw, so the next frame that has an image answers it.
    pub fn serve(&mut self, drawn: Option<P>)
        ensures
            (*old(self) is Wanted && drawn is Some) ==> *final(self) == Capture::Taken(drawn->0),
            !(*old(self) is Wanted && drawn is Some) ==> *final(self) == *old(self),
    {
        if matches!(self, Capture::Wanted) {
            if let Some(picture) = drawn {
                *self = Capture::Taken(picture);
            }
        }
    }

    /// Takes the screenshot the last frame produced, if it produced one.
    ///
    /// Drained rather than borrowed, so a picture is written once. A request
    /// that has not been served is put back rather than dropped.
    pub fn take_capture(&mut self) -> (picture: Option<P>)
        ensures
            match *old(self) {
                Capture::Taken(p) => picture == Some(p) && *final(self) is Idle,
                _ => picture is None && *final(self) == *old(self),
            },
    {
        let mut state = Capture::Idle;
        std::mem::swap(&mut state, self);
        match state {
            Capture::Taken(picture) => Some(picture),
            other => {
                *self = other;
                None
            },
        }
    }
}

/// The debug overlay's own switches: whether it draws, which entity it shows,
/// and whether its glyph atlas has been built.
///
/// Off by default, and the atlas is built the first time the overlay is
/// switched on and kept from then on, so nothing that never opens the overlay
/// pays for it.
#[derive(Debug)]
pub struct Overlay {
    /// Whether the overlay draws.
    pub on: bool,
    /// Which entity is shown, taken modulo the entity count when it is shown.
    /// A counter rather than a handle, so it survives a reload.
    pub selected: usize,
    /// Whether the glyph atlas has been built.
    pub atlas_built: bool,
}

impl Overlay {
    /// Off, showing the first entity, with no atlas.
    pub fn new() -> (overlay: Overlay)
        ensures
            !overlay.on,
            overlay.selected == 0,
            !overlay.atlas_built,
    {
        Overlay { on: false, selected: 0, atlas_built: false }
    }

    /// Switches the overlay on or off, and returns the state it switched to.
    /// Whether the atlas has to be built now is `on && !atlas_built` before
    /// the switch; after it, an overlay that is on always has one.
    pub fn toggle_inspector(&mut self) -> (on: bool)
        ensures
            on == !old(self).on,
            final(self).on == on,
            final(self).selected == old(self).selected,
            final(self).atlas_built == (old(self).atlas_built || on),
    {
        self.on = !self.on;
        if self.on && !self.atlas_built {
            self.atlas_built = true;
        }
        self.on
    }

    /// Shows the next entity, wrapping at the end of the counter's range.
    pub fn inspect_next(&mut self)
        ensures
            final(self).selected == (if old(self).selected == usize::MAX {
                0
            } else {
                (old(self).selected + 1) as usize
            }),
            final(self).on == old(self).on,
            final(self).atlas_built == old(self).atlas_built,
    {
        self.selected = if self.selected == usize::MAX {
            0
        } else {
            self.selected + 1
        };
    }

    /// Whether the overlay is currently drawing.
    pub fn inspector_on(&self) -> (on: bool)
        ensures
            on == self.on,
    {
        self.on
    }
}

} // verus!
