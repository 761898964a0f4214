//! Configuration values the engine itself speaks of.
//!
//! Colors, fonts, paddings and the rest of the visual configuration belong
//! to the renderer and never enter the library; the anchor edge is plain
//! data carried for the surface setup.
use vstd::prelude::*;

verus! {

/// Where the pop-up surface is anchored on the output; `Center` means no
/// anchor at all.
#[derive(Clone, Copy, Debug, PartialEq, Eq, Structural)]
pub enum ConfigAnchor {
    Center,
    Top,
    Bottom,
    Left,
    Right,
    TopLeft,
    TopRight,
    BottomLeft,
    BottomRight,
}

impl Default for ConfigAnchor {
    fn default() -> (r: Self)
        ensures
            r == ConfigAnchor::Center,
    {
        ConfigAnchor::Center
    }
}

} // verus!
