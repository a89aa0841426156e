use fps_enhancer::error::AppError;
use fps_enhancer::valorant::{
    config_folder_path, find_user_folder, get_last_login_user,
    modify_game_resolution_config_for_last_user, patch_settings_content, public_settings_path,
    riot_machine_config_path, user_settings_path,
};

#[test]
fn patch_forces_resolution_and_vsync() {
    let content = "ResolutionSizeX=800\nbUseVSync=True\nOther=1".to_string();
    let r = patch_settings_content(content, 1920, 1080);
    let lines: Vec<&str> = r.split('\n').collect();
    assert!(lines.contains(&"ResolutionSizeX=1920"));
    assert!(lines.contains(&"bUseVSync=False"));
    assert!(lines.contains(&"Other=1"));
    assert!(!lines.contains(&"ResolutionSizeX=800"));
    assert!(!lines.contains(&"bUseVSync=True"));
}

#[test]
fn patch_inserts_fullscreen_mode_after_first_line_when_absent() {
    let content = "ResolutionSizeX=800\nbUseVSync=True\nOther=1".to_string();
    let r = patch_settings_content(content, 1920, 1080);
    assert_eq!(r, "ResolutionSizeX=1920\nFullscreenMode=2\nbUseVSync=False\nOther=1");
}

#[test]
fn patch_rewrites_existing_fullscreen_mode_without_duplicate() {
    let content = "Other=1\nFullscreenMode=0\nResolutionSizeY=600".to_string();
    let r = patch_settings_content(content, 1920, 1080);
    assert_eq!(r, "Other=1\nFullscreenMode=2\nResolutionSizeY=1080");
    let occurrences = r
        .split('\n')
        .filter(|l| l.starts_with("FullscreenMode="))
        .count();
    assert_eq!(occurrences, 1);
}

#[test]
fn patch_forces_every_recognized_key() {
    let content = [
        "bShouldLetterbox=True",
        "bLastConfirmedShouldLetterbox=True",
        "bUseVSync=True",
        "bUseDynamicResolution=True",
        "ResolutionSizeX=640",
        "LastUserConfirmedResolutionSizeX=640",
        "ResolutionSizeY=480",
        "LastUserConfirmedResolutionSizeY=480",
        "LastConfirmedFullscreenMode=0",
        "PreferredFullscreenMode=0",
        "FullscreenMode=0",
        "Unrelated=Keep",
    ]
    .join("\n");
    let r = patch_settings_content(content, 2560, 1440);
    let expected = [
        "bShouldLetterbox=False",
        "bLastConfirmedShouldLetterbox=False",
        "bUseVSync=False",
        "bUseDynamicResolution=False",
        "ResolutionSizeX=2560",
        "LastUserConfirmedResolutionSizeX=2560",
        "ResolutionSizeY=1440",
        "LastUserConfirmedResolutionSizeY=1440",
        "LastConfirmedFullscreenMode=2",
        "PreferredFullscreenMode=2",
        "FullscreenMode=2",
        "Unrelated=Keep",
    ]
    .join("\n");
    assert_eq!(r, expected);
}

#[test]
fn patch_leaves_unrecognized_lines_unchanged() {
    let content = "[Section]\nSomething=Else\n".to_string();
    let r = patch_settings_content(content, 1024, 768);
    assert_eq!(r, "[Section]\nFullscreenMode=2\nSomething=Else\n");
}

#[test]
fn patch_both_settings_files_at_once() {
    let user = "ResolutionSizeX=1\nFullscreenMode=0".to_string();
    let shared = "ResolutionSizeY=2\nFullscreenMode=0".to_string();
    let (u, s) = modify_game_resolution_config_for_last_user(user, shared, 800, 600);
    assert_eq!(u, "ResolutionSizeX=800\nFullscreenMode=2");
    assert_eq!(s, "ResolutionSizeY=600\nFullscreenMode=2");
}

#[test]
fn last_login_user_found() {
    let info = "Version=1\nLastKnownUser=alice\nRegion=eu".to_string();
    assert_eq!(get_last_login_user(&info).unwrap(), "alice");
}

#[test]
fn last_login_user_takes_first_matching_line() {
    let info = "LastKnownUser=first\nLastKnownUser=second".to_string();
    assert_eq!(get_last_login_user(&info).unwrap(), "first");
}

#[test]
fn last_login_user_missing() {
    let info = "Version=1\nRegion=eu".to_string();
    assert_eq!(get_last_login_user(&info).unwrap_err(), AppError::NotFound);
}

#[test]
fn user_folder_found_by_substring() {
    let entries: Vec<String> = vec![
        "Crashes".to_string(),
        "alice-1234".to_string(),
        "WindowsClient".to_string(),
    ];
    assert_eq!(find_user_folder(&entries, "alice").unwrap(), "alice-1234");
}

#[test]
fn user_folder_takes_first_match() {
    let entries: Vec<String> = vec!["bob-1".to_string(), "bob-2".to_string()];
    assert_eq!(find_user_folder(&entries, "bob").unwrap(), "bob-1");
}

#[test]
fn user_folder_missing() {
    let entries: Vec<String> = vec!["Crashes".to_string()];
    assert_eq!(
        find_user_folder(&entries, "alice").unwrap_err(),
        AppError::NotFound
    );
}

#[test]
fn settings_paths_are_built_from_game_path() {
    let gp = "C:\\Games\\VALORANT";
    assert_eq!(
        user_settings_path(gp, "alice-1234"),
        "C:\\Games\\VALORANT\\ShooterGame\\Saved\\Config\\alice-1234\\WindowsClient\\GameUserSettings.ini"
    );
    assert_eq!(
        public_settings_path(gp),
        "C:\\Games\\VALORANT\\ShooterGame\\Saved\\Config\\WindowsClient\\GameUserSettings.ini"
    );
    assert_eq!(
        riot_machine_config_path(gp),
        "C:\\Games\\VALORANT\\ShooterGame\\Saved\\Config\\WindowsClient\\RiotLocalMachine.ini"
    );
    assert_eq!(
        config_folder_path(gp),
        "C:\\Games\\VALORANT\\ShooterGame\\Saved\\Config"
    );
}

#[test]
fn patch_keeps_crlf_separators() {
    let content = "ResolutionSizeX=800\r\nbUseVSync=True\r\nOther=1".to_string();
    let r = patch_settings_content(content, 1920, 1080);
    assert_eq!(r, "ResolutionSizeX=1920\r\nFullscreenMode=2\r\nbUseVSync=False\r\nOther=1");
}

#[test]
fn patch_rewrites_crlf_fullscreen_in_place() {
    let content = "FullscreenMode=1\r\nResolutionSizeY=600\r\n".to_string();
    let r = patch_settings_content(content, 1920, 1080);
    assert_eq!(r, "FullscreenMode=2\r\nResolutionSizeY=1080\r\n");
}

#[test]
fn last_login_user_value_has_no_carriage_return() {
    let info = "Version=1\r\nLastKnownUser=alice\r\nRegion=eu".to_string();
    assert_eq!(get_last_login_user(&info).unwrap(), "alice");
}
