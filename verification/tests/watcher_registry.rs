use fps_enhancer::config::{AppConfig, DevelopmentConfig, ValorantConfig, WatcherConfig};
use fps_enhancer::display::DisplayMode;
use fps_enhancer::error::AppError;
use fps_enhancer::state::WatcherRegistry;
use fps_enhancer::utils::{get_running_process_path, select_process_path};
use fps_enhancer::watcher::{any_process_matches, process_present, PollAction, ProcessWatcher};

fn mode() -> DisplayMode {
    DisplayMode { width: 1920, height: 1080, refresh_rate: 240 }
}

fn watcher_config(path: Option<&str>) -> WatcherConfig {
    WatcherConfig {
        game_path: path.map(|p| p.to_string()),
        width: 1920,
        height: 1080,
        fps: 240,
    }
}

#[test]
fn fresh_watcher_is_idle_with_flag_down() {
    let w = ProcessWatcher::new("game.exe".to_string(), mode());
    assert!(!w.is_watching());
    assert!(!w.is_running());
    assert_eq!(w.process_name().as_str(), "game.exe");
    assert_eq!(w.display_mode(), mode());
}

#[test]
fn stop_on_idle_watcher_changes_nothing() {
    let mut w = ProcessWatcher::new("game.exe".to_string(), mode());
    let cancel = w.stop();
    assert!(!cancel);
    assert!(!w.is_watching());
    assert!(!w.is_running());
}

#[test]
fn start_twice_spawns_only_one_task() {
    let mut w = ProcessWatcher::new("game.exe".to_string(), mode());
    assert!(w.start());
    assert!(w.is_watching());
    let second = w.start();
    assert!(!second);
    assert!(w.is_watching());
}

#[test]
fn stop_keeps_last_presence_sample() {
    let mut w = ProcessWatcher::new("game.exe".to_string(), mode());
    w.start();
    w.tick(true);
    assert!(w.is_running());
    let cancel = w.stop();
    assert!(cancel);
    assert!(!w.is_watching());
    assert!(w.is_running());
}

#[test]
fn tick_reports_edges_only() {
    let mut w = ProcessWatcher::new("game.exe".to_string(), mode());
    w.start();
    assert_eq!(w.tick(true), PollAction::ApplyMode);
    assert_eq!(w.tick(true), PollAction::DoNothing);
    assert_eq!(w.tick(false), PollAction::RestoreDefaults);
    assert_eq!(w.tick(false), PollAction::DoNothing);
}

#[test]
fn sample_sequence_triggers_exactly_two_callbacks() {
    let mut w = ProcessWatcher::new("game.exe".to_string(), mode());
    w.start();
    let samples = [false, false, true, true, false];
    let mut actions: Vec<PollAction> = Vec::new();
    for s in samples {
        actions.push(w.tick(s));
    }
    let invocations = actions
        .iter()
        .filter(|a| **a != PollAction::DoNothing)
        .count();
    assert_eq!(invocations, 2);
    assert_eq!(actions[2], PollAction::ApplyMode);
    assert_eq!(actions[4], PollAction::RestoreDefaults);
    assert_eq!(actions[0], PollAction::DoNothing);
    assert_eq!(actions[1], PollAction::DoNothing);
    assert_eq!(actions[3], PollAction::DoNothing);
}

#[test]
fn empty_registry_reports_nothing() {
    let r = WatcherRegistry::new();
    assert!(!r.get_watching_status());
    assert!(!r.get_gaming_status());
}

#[test]
fn toggle_without_watcher_and_without_config_fails() {
    let mut r = WatcherRegistry::new();
    assert_eq!(r.toggle_watching(None).unwrap_err(), AppError::MissingConfiguration);
    let cfg = watcher_config(None);
    assert_eq!(
        r.toggle_watching(Some(&cfg)).unwrap_err(),
        AppError::MissingConfiguration
    );
    assert!(!r.get_watching_status());
}

#[test]
fn toggle_constructs_starts_and_stops() {
    let mut r = WatcherRegistry::new();
    let cfg = watcher_config(Some("game.exe"));
    assert_eq!(r.toggle_watching(Some(&cfg)).unwrap(), true);
    assert!(r.get_watching_status());
    assert_eq!(r.toggle_watching(None).unwrap(), false);
    assert!(!r.get_watching_status());
    assert_eq!(r.toggle_watching(None).unwrap(), true);
    assert!(r.get_watching_status());
}

#[test]
fn watching_and_gaming_status_diverge() {
    let mut r = WatcherRegistry::new();
    let cfg = watcher_config(Some("game.exe"));
    r.toggle_watching(Some(&cfg)).unwrap();
    assert!(r.get_watching_status());
    assert!(!r.get_gaming_status());
    assert_eq!(r.poll_tick(true), PollAction::ApplyMode);
    assert!(r.get_gaming_status());
    assert_eq!(r.toggle_watching(None).unwrap(), false);
    assert!(!r.get_watching_status());
    assert!(r.get_gaming_status());
}

#[test]
fn poll_tick_on_empty_registry_does_nothing() {
    let mut r = WatcherRegistry::new();
    assert_eq!(r.poll_tick(true), PollAction::DoNothing);
    assert!(!r.get_gaming_status());
}

#[test]
fn create_general_watcher_requires_game_path() {
    let mut r = WatcherRegistry::new();
    let cfg = watcher_config(None);
    assert_eq!(
        r.create_general_watcher(&cfg).unwrap_err(),
        AppError::MissingConfiguration
    );
}

#[test]
fn create_general_watcher_stops_previous_task() {
    let mut r = WatcherRegistry::new();
    let cfg = watcher_config(Some("game.exe"));
    assert_eq!(r.create_general_watcher(&cfg).unwrap(), false);
    r.toggle_watching(None).unwrap();
    assert!(r.get_watching_status());
    let cancel_prev = r.create_general_watcher(&cfg).unwrap();
    assert!(cancel_prev);
    assert!(!r.get_watching_status());
}

#[test]
fn create_preset_watcher_persists_launcher_as_target() {
    let mut r = WatcherRegistry::new();
    let cfg = AppConfig {
        watcher: watcher_config(Some("old.exe")),
        valorant: ValorantConfig {
            launcher_path: Some("launcher.exe".to_string()),
            game_path: Some("C:\\Games\\VALORANT".to_string()),
        },
        development: DevelopmentConfig::new(false),
    };
    let (cancel_prev, updated) = r.create_preset_watcher(&cfg).unwrap();
    assert!(!cancel_prev);
    assert_eq!(updated.watcher.game_path.as_deref(), Some("launcher.exe"));
    assert_eq!(updated.valorant.game_path.as_deref(), Some("C:\\Games\\VALORANT"));
    assert!(!r.get_watching_status());
}

#[test]
fn create_preset_watcher_requires_launcher_path() {
    let mut r = WatcherRegistry::new();
    let cfg = AppConfig {
        watcher: watcher_config(None),
        valorant: ValorantConfig { launcher_path: None, game_path: None },
        development: DevelopmentConfig::new(true),
    };
    assert_eq!(
        r.create_preset_watcher(&cfg).unwrap_err(),
        AppError::MissingConfiguration
    );
}

#[test]
fn development_flag_round_trips() {
    assert!(DevelopmentConfig::new(true).debug());
    assert!(!DevelopmentConfig::new(false).debug());
}

fn entry(name: &str, path: Option<&str>) -> (String, Option<String>) {
    (name.to_string(), path.map(|p| p.to_string()))
}

#[test]
fn process_name_matching_ignores_ascii_case() {
    let procs = vec![entry("NOTEPAD.EXE", Some("C:\\n.exe"))];
    assert!(any_process_matches(&procs, "notepad.exe"));
    assert!(!any_process_matches(&procs, "other.exe"));
    assert!(any_process_matches(&procs, "NotePad.exe"));
}

#[test]
fn select_path_no_match() {
    let procs = vec![entry("a.exe", Some("C:\\a.exe"))];
    assert_eq!(select_process_path(&procs, "b.exe"), None);
}

#[test]
fn select_path_single_match() {
    let procs = vec![entry("a.exe", Some("C:\\a.exe")), entry("b.exe", Some("C:\\b.exe"))];
    assert_eq!(select_process_path(&procs, "A.EXE"), Some("C:\\a.exe".to_string()));
    let procs = vec![entry("a.exe", None)];
    assert_eq!(select_process_path(&procs, "a.exe"), None);
}

#[test]
fn select_path_duplicates_with_same_path() {
    let procs = vec![
        entry("a.exe", Some("C:\\a.exe")),
        entry("A.exe", Some("C:\\a.exe")),
    ];
    assert_eq!(select_process_path(&procs, "a.exe"), Some("C:\\a.exe".to_string()));
}

#[test]
fn select_path_duplicates_with_differing_paths() {
    let procs = vec![
        entry("a.exe", Some("C:\\one\\a.exe")),
        entry("a.exe", Some("C:\\two\\a.exe")),
    ];
    assert_eq!(select_process_path(&procs, "a.exe"), None);
}

#[test]
fn select_path_duplicates_without_any_path() {
    let procs = vec![entry("a.exe", None), entry("a.exe", None)];
    assert_eq!(select_process_path(&procs, "a.exe"), Some(String::new()));
}

#[test]
fn sampling_finds_no_absurdly_named_process() {
    let name = "no_process_would_ever_carry_this_name_0x5f3759df.exe";
    assert!(!process_present(name));
    assert_eq!(get_running_process_path(name), None);
}
