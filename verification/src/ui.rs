//! State of the control panel and what a frame of it asks for.
use vstd::prelude::*;

verus! {

/// Which overlays the view draws.
#[derive(Clone, Copy, Debug, PartialEq, Eq)]
pub struct UiState {
    pub show_trails: bool,
    pub show_neighbor_radius: bool,
    pub show_bounds: bool,
}

impl Default for UiState {
    /// Trails and bounds shown, the neighbour-radius overlay hidden.
    fn default() -> (s: Self)
        ensures
            s.show_trails,
            !s.show_neighbor_radius,
            s.show_bounds,
    {
        UiState { show_trails: true, show_neighbor_radius: false, show_bounds: true }
    }
}

/// What the user asked for in one frame of the control panel.
#[derive(Clone, Copy, Debug, PartialEq, Eq)]
pub struct UiAction {
    pub reset: bool,
    pub randomize: bool,
}

impl Default for UiAction {
    /// Nothing asked for.
    fn default() -> (a: Self)
        ensures
            !a.reset,
            !a.randomize,
    {
        UiAction { reset: false, randomize: false }
    }
}

} // verus!
