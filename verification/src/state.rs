use vstd::prelude::*;
use crate::config::{AppConfig, ValorantConfig, WatcherConfig};
use crate::display::DisplayMode;
use crate::error::AppError;
use crate::watcher::{poll_action, PollAction, ProcessWatcher};

verus! {

/// An owned copy of an optional string, with its value carried into the
/// contract (a derived clone of `Option<String>` would carry nothing).
fn clone_opt_string(o: &Option<String>) -> (r: Option<String>)
    ensures
        r == *o,
{
    match o {
        Some(s) => Some(s.clone()),
        None => None,
    }
}

/// The registry that holds the application's sole watcher slot. Every
/// operation of the surrounding application goes through one registry value
/// behind one lock, so the slot is mutated by at most one operation at a
/// time; the methods here are that critical section's logic.
///
/// "Watching" is decided by one authority throughout: whether the watcher
/// owns a background task (`ProcessWatcher::spec_watching`), never the
/// sampled presence flag, which answers only "is the game running".
pub struct WatcherRegistry {
    slot: Option<ProcessWatcher>,
}

impl WatcherRegistry {
    /// The slot's content.
    pub closed spec fn spec_slot(&self) -> Option<ProcessWatcher> {
        self.slot
    }

    /// A watcher exists and owns a background task.
    pub open spec fn spec_watching(&self) -> bool {
        match self.spec_slot() {
            Some(w) => w.spec_watching(),
            None => false,
        }
    }

    /// A watcher exists and its last sample saw the process.
    pub open spec fn spec_gaming(&self) -> bool {
        match self.spec_slot() {
            Some(w) => w.spec_presence(),
            None => false,
        }
    }

    /// An empty registry: no watcher yet.
    pub fn new() -> (r: WatcherRegistry)
        ensures
            r.spec_slot() is None,
    {
        WatcherRegistry { slot: None }
    }

    /// Replaces the slot by a fresh Idle watcher built from the watcher
    /// configuration. A previous watcher is stopped first, never overwritten
    /// in place: the result says whether the caller must cancel the old poll
    /// task, so no task is ever orphaned. Fails, changing nothing, when no
    /// watch target was ever configured.
    pub fn create_general_watcher(&mut self, config: &WatcherConfig) -> (r: Result<bool, AppError>)
        ensures
            match r {
                Ok(cancel_prev) => {
                    &&& config.game_path matches Some(path)
                    &&& cancel_prev == old(self).spec_watching()
                    &&& final(self).spec_slot() matches Some(w)
                    &&& w.spec_process_name() == config.game_path->Some_0@
                    &&& w.spec_display_mode() == (DisplayMode {
                        width: config.width,
                        height: config.height,
                        refresh_rate: config.fps,
                    })
                    &&& !w.spec_presence()
                    &&& !w.spec_watching()
                },
                Err(e) => {
                    &&& e == AppError::MissingConfiguration
                    &&& config.game_path is None
                    &&& *final(self) == *old(self)
                },
            },
    {
        match &config.game_path {
            None => Err(AppError::MissingConfiguration),
            Some(path) => {
                let prev = self.slot.take();
                let cancel_prev = match prev {
                    Some(mut w) => w.stop(),
                    None => false,
                };
                let mode = DisplayMode {
                    width: config.width,
                    height: config.height,
                    refresh_rate: config.fps,
                };
                self.slot = Some(ProcessWatcher::new(path.clone(), mode));
                Ok(cancel_prev)
            },
        }
    }

    /// Replaces the slot by a fresh Idle watcher that watches the target
    /// application's launcher, and returns the configuration to persist:
    /// the same one with the watch target set to that launcher path. The
    /// previous watcher is stopped first, as in `create_general_watcher`.
    /// Fails, changing nothing, when no launcher path was ever configured.
    pub fn create_preset_watcher(&mut self, config: &AppConfig) -> (r: Result<
        (bool, AppConfig),
        AppError,
    >)
        ensures
            match r {
                Ok((cancel_prev, updated)) => {
                    &&& config.valorant.launcher_path matches Some(path)
                    &&& cancel_prev == old(self).spec_watching()
                    &&& final(self).spec_slot() matches Some(w)
                    &&& w.spec_process_name() == config.valorant.launcher_path->Some_0@
                    &&& w.spec_display_mode() == (DisplayMode {
                        width: config.watcher.width,
                        height: config.watcher.height,
                        refresh_rate: config.watcher.fps,
                    })
                    &&& !w.spec_presence()
                    &&& !w.spec_watching()
                    &&& updated.watcher.game_path == config.valorant.launcher_path
                    &&& updated.watcher.width == config.watcher.width
                    &&& updated.watcher.height == config.watcher.height
                    &&& updated.watcher.fps == config.watcher.fps
                    &&& updated.valorant.launcher_path == config.valorant.launcher_path
                    &&& updated.valorant.game_path == config.valorant.game_path
                    &&& updated.development == config.development
                },
                Err(e) => {
                    &&& e == AppError::MissingConfiguration
                    &&& config.valorant.launcher_path is None
                    &&& *final(self) == *old(self)
                },
            },
    {
        match &config.valorant.launcher_path {
            None => Err(AppError::MissingConfiguration),
            Some(path) => {
                let prev = self.slot.take();
                let cancel_prev = match prev {
                    Some(mut w) => w.stop(),
                    None => false,
                };
                let mode = DisplayMode {
                    width: config.watcher.width,
                    height: config.watcher.height,
                    refresh_rate: config.watcher.fps,
                };
                self.slot = Some(ProcessWatcher::new(path.clone(), mode));
                let updated = AppConfig {
                    watcher: WatcherConfig {
                        game_path: clone_opt_string(&config.valorant.launcher_path),
                        width: config.watcher.width,
                        height: config.watcher.height,
                        fps: config.watcher.fps,
                    },
                    valorant: ValorantConfig {
                        launcher_path: clone_opt_string(&config.valorant.launcher_path),
                        game_path: clone_opt_string(&config.valorant.game_path),
                    },
                    development: config.development,
                };
                Ok((cancel_prev, updated))
            },
        }
    }

    /// Flips the watching state. A Watching watcher is stopped; an Idle one
    /// is started; an empty slot is filled from the watcher configuration
    /// and started. The result says whether the registry is now watching:
    /// on `true` the caller must spawn the poll task, on `false` cancel it
    /// and restore the default display settings. Fails, changing nothing,
    /// when the slot is empty and no watch target was ever configured.
    pub fn toggle_watching(&mut self, config: Option<&WatcherConfig>) -> (r: Result<bool, AppError>)
        ensures
            match r {
                Ok(now_watching) => {
                    &&& now_watching == !old(self).spec_watching()
                    &&& final(self).spec_watching() == now_watching
                    &&& final(self).spec_slot() is Some
                    &&& (old(self).spec_slot() matches Some(w) ==> {
                        let w2 = final(self).spec_slot()->Some_0;
                        &&& w2.spec_process_name() == w.spec_process_name()
                        &&& w2.spec_display_mode() == w.spec_display_mode()
                        &&& w2.spec_presence() == w.spec_presence()
                    })
                    &&& (old(self).spec_slot() is None ==> {
                        let w2 = final(self).spec_slot()->Some_0;
                        &&& config matches Some(c) && c.game_path matches Some(path)
                            && w2.spec_process_name() == path@
                        &&& w2.spec_display_mode() == (DisplayMode {
                            width: config->Some_0.width,
                            height: config->Some_0.height,
                            refresh_rate: config->Some_0.fps,
                        })
                        &&& !w2.spec_presence()
                    })
                },
                Err(e) => {
                    &&& e == AppError::MissingConfiguration
                    &&& old(self).spec_slot() is None
                    &&& (config is None || config->Some_0.game_path is None)
                    &&& *final(self) == *old(self)
                },
            },
    {
        let slot = self.slot.take();
        match slot {
            Some(mut w) => {
                if w.stop() {
                    self.slot = Some(w);
                    Ok(false)
                } else {
                    w.start();
                    self.slot = Some(w);
                    Ok(true)
                }
            },
            None => {
                match config {
                    Some(c) => {
                        match &c.game_path {
                            Some(path) => {
                                let mode = DisplayMode {
                                    width: c.width,
                                    height: c.height,
                                    refresh_rate: c.fps,
                                };
                                let mut w = ProcessWatcher::new(path.clone(), mode);
                                w.start();
                                self.slot = Some(w);
                                Ok(true)
                            },
                            None => Err(AppError::MissingConfiguration),
                        }
                    },
                    None => Err(AppError::MissingConfiguration),
                }
            },
        }
    }

    /// The watched name and display mode, for the caller that spawns the
    /// poll task on the watcher's behalf.
    pub fn watch_target(&self) -> (r: Option<(String, DisplayMode)>)
        ensures
            match r {
                Some(t) => {
                    &&& self.spec_slot() matches Some(w)
                    &&& t.0@ == w.spec_process_name()
                    &&& t.1 == w.spec_display_mode()
                },
                None => self.spec_slot() is None,
            },
    {
        match &self.slot {
            Some(w) => Some((w.process_name().clone(), w.display_mode())),
            None => None,
        }
    }

    /// Whether the registry is watching: a watcher exists and owns a task.
    pub fn get_watching_status(&self) -> (r: bool)
        ensures
            r == self.spec_watching(),
    {
        match &self.slot {
            Some(w) => w.is_watching(),
            None => false,
        }
    }

    /// Whether the watched process was seen by the latest sample.
    pub fn get_gaming_status(&self) -> (r: bool)
        ensures
            r == self.spec_gaming(),
    {
        match &self.slot {
            Some(w) => w.is_running(),
            None => false,
        }
    }

    /// One poll sample routed to the watcher, if any: swaps its presence
    /// flag and reports the edge that was crossed.
    pub fn poll_tick(&mut self, present_now: bool) -> (action: PollAction)
        ensures
            old(self).spec_slot() is None ==> action == PollAction::DoNothing && *final(self)
                == *old(self),
            old(self).spec_slot() matches Some(w) ==> {
                &&& action == poll_action(w.spec_presence(), present_now)
                &&& final(self).spec_slot() matches Some(w2)
                &&& w2.spec_presence() == present_now
                &&& w2.spec_process_name() == w.spec_process_name()
                &&& w2.spec_display_mode() == w.spec_display_mode()
                &&& w2.spec_watching() == w.spec_watching()
            },
    {
        let slot = self.slot.take();
        match slot {
            Some(mut w) => {
                let action = w.tick(present_now);
                self.slot = Some(w);
                action
            },
            None => PollAction::DoNothing,
        }
    }
}

} // verus!
