//! Decisions of the window loop: where an input event goes, and whether a
//! resize is taken.
use vstd::prelude::*;

verus! {

/// A key press, as far as the simulation controls tell keys apart.
#[derive(Clone, Copy, Debug, PartialEq, Eq)]
pub enum ControlKey {
    Space,
    KeyR,
    Enter,
    Other,
}

/// Where an input event ends up.
#[derive(Clone, Copy, Debug, PartialEq, Eq)]
pub enum InputOutcome {
    /// Taken by the control panel or the camera.
    Consumed,
    /// Pause or resume the simulation.
    TogglePause,
    /// Reset the simulation.
    Reset,
    /// Scatter the flock anew.
    Randomize,
    /// Nobody wanted it.
    Ignored,
}

/// Routes an event: the control panel sees it first, then the camera; a key
/// press that neither took toggles pause on Space, resets on R and
/// randomises on Enter. `pressed` is the key of a key press, `None` for
/// every other event (releases included).
pub fn route_input(
    ui_consumed: bool,
    camera_consumed: bool,
    pressed: Option<ControlKey>,
) -> (outcome: InputOutcome)
    ensures
        outcome == (if ui_consumed || camera_consumed {
            InputOutcome::Consumed
        } else {
            match pressed {
                Some(ControlKey::Space) => InputOutcome::TogglePause,
                Some(ControlKey::KeyR) => InputOutcome::Reset,
                Some(ControlKey::Enter) => InputOutcome::Randomize,
                _ => InputOutcome::Ignored,
            }
        }),
{
    if ui_consumed || camera_consumed {
        return InputOutcome::Consumed;
    }
    match pressed {
        Some(ControlKey::Space) => InputOutcome::TogglePause,
        Some(ControlKey::KeyR) => InputOutcome::Reset,
        Some(ControlKey::Enter) => InputOutcome::Randomize,
        _ => InputOutcome::Ignored,
    }
}

/// Whether the window loop counts the event as handled.
pub fn is_handled(outcome: InputOutcome) -> (handled: bool)
    ensures
        handled == !(outcome is Ignored),
{
    match outcome {
        InputOutcome::Ignored => false,
        _ => true,
    }
}

/// The size of the drawing surface, never zero along either axis.
pub struct Viewport {
    width: u32,
    height: u32,
}

impl Viewport {
    pub closed spec fn width_spec(&self) -> u32 {
        self.width
    }

    pub closed spec fn height_spec(&self) -> u32 {
        self.height
    }

    /// Both sides at least one pixel.
    pub open spec fn well_formed(&self) -> bool {
        self.width_spec() >= 1 && self.height_spec() >= 1
    }

    /// A viewport of the window's size, with a zero side raised to one.
    pub fn new(width: u32, height: u32) -> (v: Self)
        ensures
            v.width_spec() == (if width == 0 { 1 } else { width }),
            v.height_spec() == (if height == 0 { 1 } else { height }),
            v.well_formed(),
    {
        Viewport {
            width: if width == 0 { 1 } else { width },
            height: if height == 0 { 1 } else { height },
        }
    }

    /// Takes a new window size unless one side is zero (a minimised window),
    /// in which case the viewport stays as it was. Returns whether it was
    /// taken.
    pub fn resize(&mut self, width: u32, height: u32) -> (taken: bool)
        ensures
            taken == (width != 0 && height != 0),
            taken ==> final(self).width_spec() == width && final(self).height_spec() == height,
            !taken ==> final(self).width_spec() == old(self).width_spec(),
            !taken ==> final(self).height_spec() == old(self).height_spec(),
            old(self).well_formed() ==> final(self).well_formed(),
    {
        if width == 0 || height == 0 {
            return false;
        }
        self.width = width;
        self.height = height;
        true
    }

    pub fn width(&self) -> (w: u32)
        ensures
            w == self.width_spec(),
    {
        self.width
    }

    pub fn height(&self) -> (h: u32)
        ensures
            h == self.height_spec(),
    {
        self.height
    }
}

} // verus!
