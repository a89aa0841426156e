use vstd::prelude::*;
use crate::display::DisplayMode;

verus! {

// ---------------------------------------------------------------------------
// Case-insensitive process-name matching: the poll loop compares process
// names without regard to ASCII case.
// ---------------------------------------------------------------------------
/// The character's code with ASCII upper case folded to lower case.
pub open spec fn lower_code(c: char) -> int {
    if 65 <= c as u32 && c as u32 <= 90 {
        c as u32 + 32
    } else {
        c as u32 as int
    }
}

/// The two texts are equal up to ASCII case.
pub open spec fn eq_ignore_case(a: Seq<char>, b: Seq<char>) -> bool {
    a.len() == b.len() && forall|i: int|
        0 <= i < a.len() ==> lower_code(#[trigger] a[i]) == lower_code(b[i])
}

/// Whether `a` and `b` are equal up to ASCII case.
pub fn str_eq_ignore_case(a: &str, b: &str) -> (r: bool)
    ensures
        r == eq_ignore_case(a@, b@),
{
    let n = a.unicode_len();
    if n != b.unicode_len() {
        return false;
    }
    let mut i: usize = 0;
    while i < n
        invariant
            n == a@.len() == b@.len(),
            0 <= i <= n,
            forall|j: int| 0 <= j < i ==> lower_code(#[trigger] a@[j]) == lower_code(b@[j]),
        decreases n - i,
    {
        let ca = a.get_char(i) as u32;
        let cb = b.get_char(i) as u32;
        let la = if 65 <= ca && ca <= 90 {
            ca + 32
        } else {
            ca
        };
        let lb = if 65 <= cb && cb <= 90 {
            cb + 32
        } else {
            cb
        };
        if la != lb {
            return false;
        }
        i = i + 1;
    }
    true
}

/// Some sampled process name equals `target` up to ASCII case.
pub open spec fn some_process_matches(
    procs: Seq<(String, Option<String>)>,
    target: Seq<char>,
) -> bool {
    exists|i: int| 0 <= i < procs.len() && eq_ignore_case((#[trigger] procs[i]).0@, target)
}

/// Whether any entry's name matches `target` up to ASCII case.
pub fn any_process_matches(procs: &Vec<(String, Option<String>)>, target: &str) -> (r: bool)
    ensures
        r == some_process_matches(procs@, target@),
{
    let n = procs.len();
    let mut i: usize = 0;
    while i < n
        invariant
            n == procs@.len(),
            0 <= i <= n,
            forall|j: int| 0 <= j < i ==> !eq_ignore_case((#[trigger] procs@[j]).0@, target@),
        decreases n - i,
    {
        if str_eq_ignore_case(procs[i].0.as_str(), target) {
            return true;
        }
        i = i + 1;
    }
    false
}

/// Samples the machine's process table and reports whether a process named
/// `target` (compared without regard to ASCII case) is running. The result
/// depends on the machine's state at the moment of the call, so nothing more
/// can be promised of it; the matching itself is `any_process_matches`.
pub fn process_present(target: &str) -> bool {
    let procs = crate::utils::sample_processes();
    any_process_matches(&procs, target)
}

// ---------------------------------------------------------------------------
// The watcher state machine.
//
// A watcher is Idle (no background poll task) or Watching (one task). The
// poll task itself lives in the surrounding application; `start` and `stop`
// decide whether a task must be spawned or cancelled, and `tick` is the
// decision the task takes on every sample: swap the presence flag and report
// which edge, if any, was crossed.
// ---------------------------------------------------------------------------
/// What a poll tick asks the surrounding application to do: nothing, apply
/// the configured display mode (the process appeared), or restore the
/// system's default display settings (the process disappeared).
#[derive(Clone, Copy, Debug, PartialEq, Eq, Structural)]
pub enum PollAction {
    DoNothing,
    ApplyMode,
    RestoreDefaults,
}

/// The edge-triggered decision: act only when the new sample differs from
/// the previous one.
pub open spec fn poll_action(prev: bool, now: bool) -> PollAction {
    if prev == now {
        PollAction::DoNothing
    } else if now {
        PollAction::ApplyMode
    } else {
        PollAction::RestoreDefaults
    }
}

/// One process watcher: the watched name, the display mode to force while
/// the process runs, the last sampled presence flag, and whether a
/// background poll task is running on its behalf.
pub struct ProcessWatcher {
    process_name: String,
    display_mode: DisplayMode,
    is_running: bool,
    watching: bool,
}

impl ProcessWatcher {
    /// The watched process name.
    pub closed spec fn spec_process_name(&self) -> Seq<char> {
        self.process_name@
    }

    /// The display mode applied when the process appears.
    pub closed spec fn spec_display_mode(&self) -> DisplayMode {
        self.display_mode
    }

    /// The presence flag: whether the last poll saw the process.
    pub closed spec fn spec_presence(&self) -> bool {
        self.is_running
    }

    /// Whether a background poll task is running: Watching versus Idle.
    pub closed spec fn spec_watching(&self) -> bool {
        self.watching
    }

    /// A fresh watcher: Idle, with the presence flag down.
    pub fn new(process_name: String, display_mode: DisplayMode) -> (w: ProcessWatcher)
        ensures
            w.spec_process_name() == process_name@,
            w.spec_display_mode() == display_mode,
            !w.spec_presence(),
            !w.spec_watching(),
    {
        ProcessWatcher { process_name, display_mode, is_running: false, watching: false }
    }

    /// The latest sampled presence flag. Independent of Idle or Watching: an
    /// Idle watcher keeps reporting its last sample.
    pub fn is_running(&self) -> (r: bool)
        ensures
            r == self.spec_presence(),
    {
        self.is_running
    }

    /// Whether this watcher owns a background poll task.
    pub fn is_watching(&self) -> (r: bool)
        ensures
            r == self.spec_watching(),
    {
        self.watching
    }

    /// The watched name, for the poll task that samples on this watcher's
    /// behalf.
    pub fn process_name(&self) -> (n: &String)
        ensures
            n@ == self.spec_process_name(),
    {
        &self.process_name
    }

    /// The configured display mode, for the application of an appearance
    /// edge.
    pub fn display_mode(&self) -> (m: DisplayMode)
        ensures
            m == self.spec_display_mode(),
    {
        self.display_mode
    }

    /// Enters Watching. On a watcher already Watching this changes nothing
    /// and asks for no second task: at most one background task ever exists
    /// per watcher. Returns whether the caller must spawn the poll task.
    pub fn start(&mut self) -> (spawn: bool)
        ensures
            spawn == !old(self).spec_watching(),
            old(self).spec_watching() ==> *final(self) == *old(self),
            !old(self).spec_watching() ==> final(self).spec_watching(),
            final(self).spec_process_name() == old(self).spec_process_name(),
            final(self).spec_display_mode() == old(self).spec_display_mode(),
            final(self).spec_presence() == old(self).spec_presence(),
    {
        if self.watching {
            false
        } else {
            self.watching = true;
            true
        }
    }

    /// Leaves Watching. On an Idle watcher this changes nothing; the
    /// presence flag keeps its last sample either way. Returns whether the
    /// caller must cancel the poll task.
    pub fn stop(&mut self) -> (cancel: bool)
        ensures
            cancel == old(self).spec_watching(),
            !old(self).spec_watching() ==> *final(self) == *old(self),
            old(self).spec_watching() ==> !final(self).spec_watching(),
            final(self).spec_process_name() == old(self).spec_process_name(),
            final(self).spec_display_mode() == old(self).spec_display_mode(),
            final(self).spec_presence() == old(self).spec_presence(),
    {
        let was_watching = self.watching;
        if was_watching {
            self.watching = false;
        }
        was_watching
    }

    /// One poll sample: swaps the presence flag with the new sample and
    /// reports the edge that was crossed, if any. Everything else is kept.
    pub fn tick(&mut self, present_now: bool) -> (action: PollAction)
        ensures
            action == poll_action(old(self).spec_presence(), present_now),
            final(self).spec_presence() == present_now,
            final(self).spec_process_name() == old(self).spec_process_name(),
            final(self).spec_display_mode() == old(self).spec_display_mode(),
            final(self).spec_watching() == old(self).spec_watching(),
    {
        let prev = self.is_running;
        self.is_running = present_now;
        if prev == present_now {
            PollAction::DoNothing
        } else if present_now {
            PollAction::ApplyMode
        } else {
            PollAction::RestoreDefaults
        }
    }
}

} // verus!

