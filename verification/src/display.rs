use vstd::prelude::*;

verus! {

/// A display configuration: resolution and refresh rate.
///
/// An immutable value that is cloned into a watcher at construction. Applying
/// or restoring a mode is the job of an external display controller driven by
/// the surrounding application; this library only decides when to do so.
#[derive(Clone, Copy, Debug, PartialEq, Eq, Structural)]
pub struct DisplayMode {
    pub width: u32,
    pub height: u32,
    pub refresh_rate: u32,
}

} // verus!
