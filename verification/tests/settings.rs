use zapret_gui::settings::{
    autodetect_candidates, looks_like_zapret, autodetect_zapret_path, validate_zapret_path,
    zapret_markers, Settings, ZapretProbe,
};
use zapret_gui::state::{close_to_tray, launch_target, not_zapret_message, start_request, tray_tooltip, AppState};

#[test]
fn default_settings() {
    let s = Settings::default();
    assert_eq!(s.zapret_path, None);
    assert_eq!(s.strategy, None);
    assert_eq!(s.game_filter, "off");
    assert!(s.minimize_to_tray);
    assert_eq!(s.theme, "dark");
    assert!(!s.autostart_zapret);
    let app = AppState::new(s);
    assert_eq!(app.zapret.child_pid, None);
    assert_eq!(app.settings.theme, "dark");
}

#[test]
fn config_path_under_config_dir() {
    assert_eq!(Settings::config_path(None), "config.json");
    let p = Settings::config_path(Some("/home/u/.config")).replace('\\', "/");
    assert_eq!(p, "/home/u/.config/ZapretGUI/config.json");
}

#[test]
fn markers_and_validation() {
    let m = zapret_markers("/z");
    assert!(m.winws.replace('\\', "/").ends_with("/z/bin/winws.exe"));
    assert!(m.general.replace('\\', "/").ends_with("/z/general.bat"));
    assert!(looks_like_zapret(true, true));
    assert!(!looks_like_zapret(true, false));
    assert!(!looks_like_zapret(false, true));
    assert!(validate_zapret_path("/z", true, true));
    assert!(!validate_zapret_path("", true, true));
}

#[test]
fn autodetect_candidates_in_order() {
    let c = autodetect_candidates(Some("/opt/app/zapret-gui"), Some("/work"), Some("/home/u"));
    assert_eq!(c.len(), 14);
    assert_eq!(c[0], "/opt/app");
    assert_eq!(c[1], "/work");
    assert_eq!(c[2].replace('\\', "/"), "/home/u/zapret-discord-youtube");
    assert_eq!(c[3].replace('\\', "/"), "/home/u/Desktop/zapret-discord-youtube");
    assert!(c[6].ends_with("zapret-discord-youtube"));
    assert!(c[7].ends_with("zapret"));
    assert!(c[13].starts_with("C:\\Program Files (x86)"));
    let c = autodetect_candidates(None, None, None);
    assert_eq!(c.len(), 8);
}

#[test]
fn program_folder_is_always_a_candidate() {
    // A bare program name has the empty folder as its parent: still listed.
    let c = autodetect_candidates(Some("zapret-gui"), None, None);
    assert_eq!(c.len(), 9);
    assert_eq!(c[0], "");
    let c = autodetect_candidates(Some("/apps/zapret-discord-youtube/zapret-gui"), Some("/work"), None);
    assert_eq!(c.len(), 10);
    assert_eq!(c[0], "/apps/zapret-discord-youtube");
    assert_eq!(c[1], "/work");
    // Exactly the parent, not a folder further up; doubled `/` are dropped.
    let c = autodetect_candidates(Some("/apps//zg/zapret-gui"), None, None);
    assert_eq!(c[0], "/apps//zg");
    let c = autodetect_candidates(Some("/apps//zapret-gui"), None, None);
    assert_eq!(c[0], "/apps");
    let c = autodetect_candidates(Some("/zapret-gui"), None, None);
    assert_eq!(c[0], "/");
    // The root has no parent.
    let c = autodetect_candidates(Some("/"), None, None);
    assert_eq!(c.len(), 8);
}

#[test]
fn pick_first_zapret_dir() {
    let probes = vec![
        ZapretProbe { dir: "a".to_string(), winws_exists: true, general_exists: false },
        ZapretProbe { dir: "b".to_string(), winws_exists: true, general_exists: true },
        ZapretProbe { dir: "c".to_string(), winws_exists: true, general_exists: true },
    ];
    assert_eq!(autodetect_zapret_path(&probes), Some("b".to_string()));
    assert_eq!(autodetect_zapret_path(&probes[..1].iter().map(|p| ZapretProbe { dir: p.dir.clone(), winws_exists: p.winws_exists, general_exists: p.general_exists }).collect()), None);
}

#[test]
fn launch_target_needs_folder_and_strategy() {
    let mut s = Settings::default();
    assert_eq!(launch_target(&s), Err("Не указана папка с zapret".to_string()));
    s.zapret_path = Some("C:\\z".to_string());
    assert_eq!(launch_target(&s), Err("Не выбрана стратегия".to_string()));
    s.strategy = Some("general.bat".to_string());
    assert_eq!(launch_target(&s), Ok(("C:\\z".to_string(), "general.bat".to_string())));
    assert_eq!(not_zapret_message("D:\\x"), "В папке D:\\x не найдены winws.exe и general.bat");
    assert_eq!(tray_tooltip(true), "ZapretGUI — активно");
    assert_eq!(tray_tooltip(false), "ZapretGUI — отключено");
}

#[test]
fn start_request_checks_in_order() {
    let mut s = Settings::default();
    assert_eq!(start_request(&s, false), Err("Не указана папка с zapret".to_string()));
    s.zapret_path = Some("D:\\x".to_string());
    assert_eq!(start_request(&s, false), Err("Не выбрана стратегия".to_string()));
    s.strategy = Some("general.bat".to_string());
    assert_eq!(
        start_request(&s, false),
        Err("В папке D:\\x не найдены winws.exe и general.bat".to_string())
    );
    assert_eq!(start_request(&s, true), Ok(("D:\\x".to_string(), "general.bat".to_string())));
}

#[test]
fn closing_hides_to_tray_as_configured() {
    let mut st = AppState::new(Settings::default());
    assert!(close_to_tray(Some(&st)));
    st.settings.minimize_to_tray = false;
    assert!(!close_to_tray(Some(&st)));
    assert!(close_to_tray(None));
}
