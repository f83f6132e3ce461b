//! What the parts of the screen show.

use vstd::prelude::*;

verus! {

/// What the main part of the screen shows.
#[derive(Debug, Clone, Copy, PartialEq, Eq, Structural)]
pub enum View {
    List,
    Tree,
}

/// What the panel below it shows.
#[derive(Debug, Clone, Copy, PartialEq, Eq, Structural)]
pub enum PanelMode {
    Closed,
    Detail,
    BuildLog,
    BumpLog,
    GitMenu,
    Help,
}

} // verus!
