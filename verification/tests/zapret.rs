use zapret_gui::zapret::{
    current_status, find_winws_pid, start, stop, sync_game_filter_file, ProcessEntry,
    StartAction, StartEvent, StartStage, ZapretState,
};

fn p(pid: u32, name: &str) -> ProcessEntry {
    ProcessEntry { pid, name: name.to_string() }
}

#[test]
fn sync_game_filter_writes_mode() {
    let dir = "gf-write";
    let plan = sync_game_filter_file(dir, "all");
    let flag = plan.flag_file.replace('\\', "/");
    assert!(flag.ends_with("utils/game_filter.enabled"));
    assert_eq!(plan.content.as_deref(), Some("all"));
}

#[test]
fn sync_game_filter_removes_for_off() {
    let dir = "gf-remove";
    let plan = sync_game_filter_file(dir, "off");
    assert!(plan.flag_file.ends_with("game_filter.enabled"));
    assert_eq!(plan.content, None);
}

#[test]
fn sync_game_filter_creates_utils_dir() {
    let dir = "gf-mkdir";
    // Note: utils folder doesn't exist yet.
    let plan = sync_game_filter_file(dir, "udp");
    let utils = plan.utils_dir.replace('\\', "/");
    assert_eq!(utils, "gf-mkdir/utils");
    assert!(plan.flag_file.starts_with(&plan.utils_dir));
    assert_eq!(plan.content.as_deref(), Some("udp"));
}

#[test]
fn unknown_game_filter_mode_removes_file() {
    assert_eq!(sync_game_filter_file("d", "TCP").content, None);
    assert_eq!(sync_game_filter_file("d", "tcp").content.as_deref(), Some("tcp"));
}

#[test]
fn status_prefers_owned_process() {
    let procs = vec![p(5, "winws.exe"), p(7, "other")];
    let st = current_status(&ZapretState { child_pid: Some(7) }, &procs);
    assert!(st.active);
    assert_eq!(st.pid, Some(7));
}

#[test]
fn status_finds_any_winws_when_owned_is_gone() {
    let procs = vec![p(3, "explorer.exe"), p(9, "WinWS.EXE"), p(11, "winws")];
    let st = current_status(&ZapretState { child_pid: Some(42) }, &procs);
    assert!(st.active);
    assert_eq!(st.pid, Some(9));
    assert_eq!(find_winws_pid(&vec![p(1, "winws"), p(2, "winws.exe")]), Some(1));
    let st = current_status(&ZapretState { child_pid: None }, &vec![p(1, "winwsx")]);
    assert!(!st.active);
    assert_eq!(st.pid, None);
}

#[test]
fn stop_forgets_the_owned_pid() {
    let mut state = ZapretState { child_pid: Some(12) };
    assert_eq!(stop(&mut state), Some(12));
    assert_eq!(state.child_pid, None);
    assert_eq!(stop(&mut state), None);
}

fn finish(a: StartAction) -> Result<u32, String> {
    match a {
        StartAction::Finish { result } => result,
        _ => panic!("expected the start to finish"),
    }
}

#[test]
fn start_runs_to_success() {
    let mut state = ZapretState::default();
    let (mut flow, first) = start("z", "general.bat", "tcp");
    assert!(matches!(first, StartAction::ListProcesses { wait_ms: 0 }));
    let a = flow.step(&mut state, StartEvent::Processes { procs: vec![p(1, "init")] });
    match a {
        StartAction::CheckFile { path } => assert!(path.ends_with("general.bat")),
        _ => panic!(),
    }
    let a = flow.step(&mut state, StartEvent::FileChecked { exists: true });
    match a {
        StartAction::CheckFile { path } => assert!(path.ends_with("winws.exe")),
        _ => panic!(),
    }
    let a = flow.step(&mut state, StartEvent::FileChecked { exists: true });
    match a {
        StartAction::SyncGameFilter { plan } => assert_eq!(plan.content.as_deref(), Some("tcp")),
        _ => panic!(),
    }
    let a = flow.step(&mut state, StartEvent::GameFilterSynced { result: Ok(()) });
    match a {
        StartAction::RunBat { bat, dir } => {
            assert!(bat.ends_with("general.bat"));
            assert_eq!(dir, "z");
        }
        _ => panic!(),
    }
    let a = flow.step(&mut state, StartEvent::BatRan { result: Ok(()) });
    assert!(matches!(a, StartAction::ListProcesses { wait_ms: 300 }));
    let a = flow.step(&mut state, StartEvent::Processes { procs: vec![] });
    assert!(matches!(a, StartAction::ListProcesses { wait_ms: 300 }));
    let a = flow.step(&mut state, StartEvent::Processes { procs: vec![p(77, "winws.exe")] });
    assert!(matches!(a, StartAction::ListProcesses { wait_ms: 1200 }));
    assert!(matches!(flow.stage, StartStage::Confirm { pid: 77 }));
    assert_eq!(state.child_pid, None);
    let a = flow.step(&mut state, StartEvent::Processes { procs: vec![p(77, "winws.exe")] });
    assert_eq!(finish(a), Ok(77));
    assert_eq!(state.child_pid, Some(77));
    assert!(matches!(flow.stage, StartStage::Done));
}

#[test]
fn start_refused_while_running() {
    let mut state = ZapretState { child_pid: Some(4) };
    let (mut flow, _) = start("z", "general.bat", "off");
    let a = flow.step(&mut state, StartEvent::Processes { procs: vec![p(4, "winws.exe")] });
    assert_eq!(finish(a), Err("zapret уже запущен".to_string()));
    assert_eq!(state.child_pid, Some(4));
}

fn to_check_stage(mode: &str) -> (zapret_gui::zapret::StartFlow, ZapretState) {
    let mut state = ZapretState::default();
    let (mut flow, _) = start("z", "s.bat", mode);
    flow.step(&mut state, StartEvent::Processes { procs: vec![] });
    (flow, state)
}

#[test]
fn start_reports_missing_files() {
    let (mut flow, mut state) = to_check_stage("off");
    let err = finish(flow.step(&mut state, StartEvent::FileChecked { exists: false })).unwrap_err();
    assert!(err.starts_with("Файл стратегии не найден: "));
    assert!(err.ends_with("s.bat"));

    let (mut flow, mut state) = to_check_stage("off");
    flow.step(&mut state, StartEvent::FileChecked { exists: true });
    let err = finish(flow.step(&mut state, StartEvent::FileChecked { exists: false })).unwrap_err();
    assert!(err.starts_with("winws.exe не найден: "));
    assert!(err.ends_with("winws.exe"));
}

#[test]
fn start_reports_sync_and_launch_failures() {
    let (mut flow, mut state) = to_check_stage("all");
    flow.step(&mut state, StartEvent::FileChecked { exists: true });
    flow.step(&mut state, StartEvent::FileChecked { exists: true });
    let err = finish(flow.step(&mut state, StartEvent::GameFilterSynced { result: Err("denied".to_string()) }));
    assert_eq!(err, Err("Не удалось обновить игровой фильтр: denied".to_string()));

    let (mut flow, mut state) = to_check_stage("all");
    flow.step(&mut state, StartEvent::FileChecked { exists: true });
    flow.step(&mut state, StartEvent::FileChecked { exists: true });
    flow.step(&mut state, StartEvent::GameFilterSynced { result: Ok(()) });
    assert!(flow.expects(&StartEvent::Unsupported));
    assert!(!flow.expects(&StartEvent::FileChecked { exists: true }));
    let err = finish(flow.step(&mut state, StartEvent::BatRan { result: Err("no cmd".to_string()) }));
    assert_eq!(err, Err("Не удалось запустить cmd.exe: no cmd".to_string()));

    let (mut flow, mut state) = to_check_stage("all");
    flow.step(&mut state, StartEvent::FileChecked { exists: true });
    flow.step(&mut state, StartEvent::FileChecked { exists: true });
    flow.step(&mut state, StartEvent::GameFilterSynced { result: Ok(()) });
    let err = finish(flow.step(&mut state, StartEvent::Unsupported));
    assert_eq!(err, Err("zapret поддерживается только на Windows".to_string()));
    assert_eq!(state.child_pid, None);
}

fn to_poll_stage() -> (zapret_gui::zapret::StartFlow, ZapretState) {
    let (mut flow, mut state) = to_check_stage("off");
    flow.step(&mut state, StartEvent::FileChecked { exists: true });
    flow.step(&mut state, StartEvent::FileChecked { exists: true });
    flow.step(&mut state, StartEvent::GameFilterSynced { result: Ok(()) });
    flow.step(&mut state, StartEvent::BatRan { result: Ok(()) });
    (flow, state)
}

#[test]
fn start_gives_up_after_ten_looks() {
    let (mut flow, mut state) = to_poll_stage();
    for _ in 0..9 {
        let a = flow.step(&mut state, StartEvent::Processes { procs: vec![p(2, "cmd.exe")] });
        assert!(matches!(a, StartAction::ListProcesses { wait_ms: 300 }));
    }
    let err = finish(flow.step(&mut state, StartEvent::Processes { procs: vec![] })).unwrap_err();
    assert!(err.starts_with("winws.exe не запустился. Чаще всего это значит:\n1) "));
    assert!(err.ends_with("пришлите скриншот ошибки."));
    assert_eq!(state.child_pid, None);
}

#[test]
fn start_detects_immediate_exit() {
    let (mut flow, mut state) = to_poll_stage();
    flow.step(&mut state, StartEvent::Processes { procs: vec![p(8, "winws.exe")] });
    let err = finish(flow.step(&mut state, StartEvent::Processes { procs: vec![p(9, "winws.exe")] }))
        .unwrap_err();
    assert!(err.starts_with("winws.exe запустился, но сразу же завершился. "));
    assert_eq!(state.child_pid, None);
}

#[test]
fn start_after_stop_proceeds_unless_winws_runs() {
    let mut state = ZapretState { child_pid: Some(5) };
    assert_eq!(stop(&mut state), Some(5));
    // Our old pid is reused by an unrelated process: no longer counts.
    let (mut flow, _) = start("z", "general.bat", "off");
    let a = flow.step(&mut state, StartEvent::Processes { procs: vec![p(5, "notepad.exe")] });
    assert!(matches!(a, StartAction::CheckFile { .. }));
    let (mut flow, _) = start("z", "general.bat", "off");
    let a = flow.step(&mut state, StartEvent::Processes { procs: vec![p(6, "winws.exe")] });
    assert_eq!(finish(a), Err("zapret уже запущен".to_string()));
}
