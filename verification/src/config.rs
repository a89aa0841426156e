use vstd::prelude::*;

verus! {

/// The persisted application configuration: the watch target and forced
/// resolution, the target application's install paths, and a debug flag.
///
/// Loading, saving and resetting the on-disk document are the surrounding
/// application's job; this library only consumes the plain values.
#[derive(Clone, Debug)]
pub struct AppConfig {
    pub watcher: WatcherConfig,
    pub valorant: ValorantConfig,
    pub development: DevelopmentConfig,
}

/// The watch target (a process path) and the display values forced while it
/// runs. `game_path` is optional: it may never have been configured.
#[derive(Clone, Debug)]
pub struct WatcherConfig {
    pub game_path: Option<String>,
    pub width: u32,
    pub height: u32,
    pub fps: u32,
}

/// The target application's launcher and install paths, either of which may
/// never have been configured.
#[derive(Clone, Debug)]
pub struct ValorantConfig {
    pub launcher_path: Option<String>,
    pub game_path: Option<String>,
}

/// A development-only flag, opaque to every operation of the library.
#[derive(Clone, Copy, Debug)]
pub struct DevelopmentConfig {
    debug: bool,
}

impl DevelopmentConfig {
    /// What the private flag holds.
    pub closed spec fn spec_debug(&self) -> bool {
        self.debug
    }

    /// The flag is private as a matter of encapsulation; construction and
    /// reading go through these two accessors.
    pub fn new(debug: bool) -> (c: DevelopmentConfig)
        ensures
            c.spec_debug() == debug,
    {
        DevelopmentConfig { debug }
    }

    pub fn debug(&self) -> (d: bool)
        ensures
            d == self.spec_debug(),
    {
        self.debug
    }
}

} // verus!
