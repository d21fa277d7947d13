//! The `winws.exe` process: its status, and the start and stop protocols.
//!
//! Starting zapret alternates checks of the file system, running the
//! strategy's batch file and watching the process list. The decisions are
//! made here, one event at a time ([`StartFlow::step`]); the caller performs
//! each requested [`StartAction`] and reports its outcome as a
//! [`StartEvent`].

use vstd::prelude::*;

use crate::paths;
use crate::settings;
use crate::strategies;
use crate::text;
use crate::text::{chars_of, concat_str, lowercase_chars};

verus! {

/// State of the zapret process this program started.
pub struct ZapretState {
    /// PID of the winws.exe we're tracking.
    pub child_pid: Option<u32>,
}

impl Default for ZapretState {
    fn default() -> (r: Self)
        ensures
            r.child_pid is None,
    {
        ZapretState { child_pid: None }
    }
}

/// Snapshot of zapret status.
#[derive(Clone, Copy, Debug)]
pub struct Status {
    pub active: bool,
    pub pid: Option<u32>,
}

/// A running process, as the process list reports it.
pub struct ProcessEntry {
    pub pid: u32,
    pub name: String,
}

/// The view of a process list: pids and names in listing order.
pub open spec fn procs_view(ps: Seq<ProcessEntry>) -> Seq<(u32, Seq<char>)> {
    ps.map_values(|p: ProcessEntry| (p.pid, p.name@))
}

/// A process called `name` is winws: its lower-cased name is `winws.exe`
/// or `winws`.
pub open spec fn is_winws_name(name: Seq<char>) -> bool {
    text::lowercase(name) == strategies::winws_name() || text::lowercase(name) == "winws"@
}

/// The pid of the first winws process in the list, if any.
pub open spec fn first_winws(ps: Seq<(u32, Seq<char>)>) -> Option<u32>
    decreases ps.len(),
{
    if ps.len() == 0 {
        None
    } else if is_winws_name(ps[0].1) {
        Some(ps[0].0)
    } else {
        first_winws(ps.drop_first())
    }
}

/// A process with this pid is in the list.
pub open spec fn is_running(ps: Seq<(u32, Seq<char>)>, pid: u32) -> bool {
    exists|i: int| 0 <= i < ps.len() && ps[i].0 == pid
}

/// The status for a process list: the process we own when it still runs,
/// otherwise any winws process (left over from an earlier session or run
/// as a service), otherwise inactive.
pub open spec fn status_of(owned: Option<u32>, ps: Seq<(u32, Seq<char>)>) -> (bool, Option<u32>) {
    if owned is Some && is_running(ps, owned->0) {
        (true, owned)
    } else {
        match first_winws(ps) {
            Some(q) => (true, Some(q)),
            None => (false, None),
        }
    }
}

/// The pid of the first winws process in the list.
pub fn find_winws_pid(procs: &Vec<ProcessEntry>) -> (r: Option<u32>)
    ensures
        r == first_winws(procs_view(procs@)),
{
    let ghost pv = procs_view(procs@);
    let winws = chars_of("winws.exe");
    let bare = chars_of("winws");
    let mut i: usize = 0;
    assert(pv.skip(0) == pv);
    while i < procs.len()
        invariant
            i <= procs.len(),
            pv == procs_view(procs@),
            winws@ == strategies::winws_name(),
            bare@ == "winws"@,
            first_winws(pv) == first_winws(pv.skip(i as int)),
        decreases procs.len() - i,
    {
        let name = chars_of(procs[i].name.as_str());
        let lower = lowercase_chars(&name);
        assert(pv.skip(i as int)[0] == (procs@[i as int].pid, procs@[i as int].name@));
        if text::eq_chars(&lower, &winws) || text::eq_chars(&lower, &bare) {
            return Some(procs[i].pid);
        }
        assert(pv.skip(i as int).drop_first() == pv.skip(i + 1 as int));
        i = i + 1;
    }
    None
}

/// Whether a process with this pid is in the list.
pub fn process_running(procs: &Vec<ProcessEntry>, pid: u32) -> (r: bool)
    ensures
        r == is_running(procs_view(procs@), pid),
{
    let ghost pv = procs_view(procs@);
    let mut i: usize = 0;
    while i < procs.len()
        invariant
            i <= procs.len(),
            pv == procs_view(procs@),
            forall|k: int| 0 <= k < i ==> pv[k].0 != pid,
        decreases procs.len() - i,
    {
        assert(pv[i as int].0 == procs@[i as int].pid);
        if procs[i].pid == pid {
            return true;
        }
        i = i + 1;
    }
    false
}

/// Status of zapret, given the current process list.
pub fn current_status(state: &ZapretState, procs: &Vec<ProcessEntry>) -> (r: Status)
    ensures
        (r.active, r.pid) == status_of(state.child_pid, procs_view(procs@)),
{
    if let Some(pid) = state.child_pid {
        if process_running(procs, pid) {
            return Status { active: true, pid: Some(pid) };
        }
    }
    // Scan for any running winws.exe (e.g. left over from a previous session,
    // or installed as a service).
    match find_winws_pid(procs) {
        Some(pid) => Status { active: true, pid: Some(pid) },
        None => Status { active: false, pid: None },
    }
}

/// A status is active exactly when it names a process.
pub proof fn law_status_active_iff_pid(owned: Option<u32>, ps: Seq<(u32, Seq<char>)>)
    ensures
        status_of(owned, ps).0 <==> status_of(owned, ps).1 is Some,
{
}

/// While the process we started still runs, the status reports it, whatever
/// else runs.
pub proof fn law_owned_process_reported(pid: u32, ps: Seq<(u32, Seq<char>)>)
    requires
        is_running(ps, pid),
    ensures
        status_of(Some(pid), ps) == (true, Some(pid)),
{
}

/// Stop zapret: forget the tracked process and return its pid, which the
/// caller kills before it kills every other `winws.exe`.
pub fn stop(state: &mut ZapretState) -> (r: Option<u32>)
    ensures
        r == old(state).child_pid,
        final(state).child_pid is None,
{
    state.child_pid.take()
}

/// After a stop, the status no longer depends on the process we started:
/// only a running winws process makes it active.
pub proof fn law_status_after_stop(ps: Seq<(u32, Seq<char>)>)
    ensures
        status_of(None, ps) == match first_winws(ps) {
            Some(q) => (true, Some(q)),
            None => (false, None),
        },
{
}


/// How to bring the game-filter flag file (`utils/game_filter.enabled`)
/// in line with the chosen mode, as zapret's `service.bat` menu does: the
/// file holds the mode while the filter is on, and is absent when it is off.
pub struct GameFilterSync {
    /// The `utils` folder, created when missing.
    pub utils_dir: String,
    /// The flag file inside it.
    pub flag_file: String,
    /// `Some(text)`: write `text` to the flag file; `None`: remove the flag
    /// file if it exists.
    pub content: Option<String>,
}

/// The game filter is on for modes `all`, `tcp` and `udp`.
pub open spec fn game_filter_on(mode: Seq<char>) -> bool {
    mode == "all"@ || mode == "tcp"@ || mode == "udp"@
}

/// `g` is the game-filter plan for `zapret_dir` and `mode`.
pub open spec fn is_sync_plan(zapret_dir: Seq<char>, mode: Seq<char>, g: GameFilterSync) -> bool {
    &&& paths::joined(zapret_dir, "utils"@, g.utils_dir@)
    &&& paths::joined(g.utils_dir@, "game_filter.enabled"@, g.flag_file@)
    &&& if game_filter_on(mode) {
        g.content matches Some(c) && c@ == mode
    } else {
        g.content is None
    }
}

/// The plan that synchronises the on-disk game-filter file of `zapret_dir`
/// with the user's choice `mode` ("off" or unknown removes the file).
pub fn sync_game_filter_file(zapret_dir: &str, mode: &str) -> (r: GameFilterSync)
    ensures
        is_sync_plan(zapret_dir@, mode@, r),
{
    let utils_dir = paths::path_join(zapret_dir, "utils");
    let flag_file = paths::path_join(utils_dir.as_str(), "game_filter.enabled");
    let m = chars_of(mode);
    let on = text::eq_chars(&m, &chars_of("all")) || text::eq_chars(
        &m,
        &chars_of("tcp"),
    ) || text::eq_chars(&m, &chars_of("udp"));
    let content = if on {
        Some(mode.to_owned())
    } else {
        None
    };
    GameFilterSync { utils_dir, flag_file, content }
}


/// How long to wait before the first look for the freshly started process
/// and between later looks, in milliseconds.
pub const POLL_WAIT_MS: u32 = 300;

/// How many times the process list is searched for `winws.exe` after the
/// batch file has run.
pub const POLL_TRIES: u32 = 10;

/// How long a found `winws.exe` must stay up before the start counts as
/// successful, in milliseconds (it exits within about a second when the
/// WinDivert driver cannot be loaded).
pub const CONFIRM_WAIT_MS: u32 = 1200;

/// Where a start is in its protocol.
#[derive(Clone, Copy, Debug)]
pub enum StartStage {
    /// Waiting for the process list, to refuse a second start.
    CheckRunning,
    /// Waiting to learn whether the strategy file exists.
    CheckStrategyFile,
    /// Waiting to learn whether `bin/winws.exe` exists.
    CheckWinws,
    /// Waiting for the game-filter file to be brought in line.
    SyncGameFilter,
    /// Waiting for the batch file to have run.
    RunBat,
    /// Waiting for the process list; `tries` looks found no `winws.exe` yet.
    Poll { tries: u32 },
    /// `winws.exe` was seen as `pid`; waiting for the list that confirms it
    /// stayed up.
    Confirm { pid: u32 },
    /// The start is over.
    Done,
}

/// What the caller must do next for a start in progress.
pub enum StartAction {
    /// Wait `wait_ms` milliseconds, then report the running processes.
    ListProcesses { wait_ms: u32 },
    /// Report whether the file at `path` exists.
    CheckFile { path: String },
    /// Carry out the game-filter plan and report whether it succeeded.
    SyncGameFilter { plan: GameFilterSync },
    /// Run the batch file `bat` with `cmd.exe /c` in folder `dir`, without a
    /// console window and with no standard streams, wait until `cmd.exe`
    /// exits, and report whether it could be started.
    RunBat { bat: String, dir: String },
    /// The start is over with this outcome: the pid of the running
    /// `winws.exe`, or the error text for the user.
    Finish { result: Result<u32, String> },
}

/// The outcome of a [`StartAction`].
pub enum StartEvent {
    /// The running processes, answering `ListProcesses`.
    Processes { procs: Vec<ProcessEntry> },
    /// Whether the file exists, answering `CheckFile`.
    FileChecked { exists: bool },
    /// The outcome of the game-filter plan, answering `SyncGameFilter`.
    GameFilterSynced { result: Result<(), String> },
    /// Whether `cmd.exe` could be started, answering `RunBat`.
    BatRan { result: Result<(), String> },
    /// This platform cannot run the batch file, answering `RunBat`.
    Unsupported,
}

/// The view of a start action: paths and texts as character sequences.
pub enum ActionView {
    ListProcesses(u32),
    CheckFile(Seq<char>),
    SyncGameFilter(Seq<char>, Seq<char>, Option<Seq<char>>),
    RunBat(Seq<char>, Seq<char>),
    Finish(Result<u32, Seq<char>>),
}

/// The view of a start event.
pub enum EventView {
    Processes(Seq<(u32, Seq<char>)>),
    FileChecked(bool),
    GameFilterSynced(Result<(), Seq<char>>),
    BatRan(Result<(), Seq<char>>),
    Unsupported,
}

/// A string result, its text as a character sequence.
pub open spec fn result_view<T>(r: Result<T, String>) -> Result<T, Seq<char>> {
    match r {
        Ok(v) => Ok(v),
        Err(e) => Err(e@),
    }
}

/// The view of an optional string.
pub open spec fn option_view(o: Option<String>) -> Option<Seq<char>> {
    match o {
        Some(s) => Some(s@),
        None => None,
    }
}

impl View for StartAction {
    type V = ActionView;

    open spec fn view(&self) -> ActionView {
        match self {
            StartAction::ListProcesses { wait_ms } => ActionView::ListProcesses(*wait_ms),
            StartAction::CheckFile { path } => ActionView::CheckFile(path@),
            StartAction::SyncGameFilter { plan } => ActionView::SyncGameFilter(
                plan.utils_dir@,
                plan.flag_file@,
                option_view(plan.content),
            ),
            StartAction::RunBat { bat, dir } => ActionView::RunBat(bat@, dir@),
            StartAction::Finish { result } => ActionView::Finish(result_view(*result)),
        }
    }
}

impl View for StartEvent {
    type V = EventView;

    open spec fn view(&self) -> EventView {
        match self {
            StartEvent::Processes { procs } => EventView::Processes(procs_view(procs@)),
            StartEvent::FileChecked { exists } => EventView::FileChecked(*exists),
            StartEvent::GameFilterSynced { result } => EventView::GameFilterSynced(
                result_view(*result),
            ),
            StartEvent::BatRan { result } => EventView::BatRan(result_view(*result)),
            StartEvent::Unsupported => EventView::Unsupported,
        }
    }
}

/// The fixed data of a start: the zapret folder, the strategy file, the
/// `winws.exe` path and the game-filter plan.
pub struct StartPlan {
    pub dir: Seq<char>,
    pub bat: Seq<char>,
    pub winws: Seq<char>,
    pub sync: (Seq<char>, Seq<char>, Option<Seq<char>>),
}

/// Error text when a winws process already runs.
pub open spec fn already_running_message() -> Seq<char> {
    "zapret уже запущен"@
}

/// Error text when the strategy file at `bat` is missing.
pub open spec fn missing_strategy_message(bat: Seq<char>) -> Seq<char> {
    "Файл стратегии не найден: "@ + bat
}

/// Error text when `winws.exe` at `winws` is missing.
pub open spec fn missing_winws_message(winws: Seq<char>) -> Seq<char> {
    "winws.exe не найден: "@ + winws
}

/// Error text when the game-filter file could not be updated.
pub open spec fn sync_failed_message(e: Seq<char>) -> Seq<char> {
    "Не удалось обновить игровой фильтр: "@ + e
}

/// Error text when `cmd.exe` could not be started.
pub open spec fn cmd_failed_message(e: Seq<char>) -> Seq<char> {
    "Не удалось запустить cmd.exe: "@ + e
}

/// Error text on platforms other than Windows.
pub open spec fn unsupported_message() -> Seq<char> {
    "zapret поддерживается только на Windows"@
}

/// The advice appended to the errors of a failed launch.
pub open spec fn launch_advice() -> Seq<char> {
    "Чаще всего это значит:\n\
     1) приложение запущено без прав администратора (драйвер WinDivert не грузится без них) — \
     перезапустите от имени администратора;\n\
     2) winws.exe / WinDivert64.sys заблокирован антивирусом — добавьте папку bin в исключения;\n\
     3) уже запущен другой экземпляр zapret или установлена служба zapret \
     (попробуйте `service.bat` → пункт «Remove Services»).\n\n\
     Если не помогло — запустите выбранный .bat вручную из папки zapret \
     через двойной клик и пришлите скриншот ошибки."@
}

/// Error text when `winws.exe` never appeared.
pub open spec fn not_started_message() -> Seq<char> {
    "winws.exe не запустился. "@ + launch_advice()
}

/// Error text when `winws.exe` appeared but exited again.
pub open spec fn exited_message() -> Seq<char> {
    "winws.exe запустился, но сразу же завершился. "@ + launch_advice()
}

/// The event answers the action that `stage` waits for.
pub open spec fn stage_expects(stage: StartStage, e: EventView) -> bool {
    match stage {
        StartStage::CheckRunning => e is Processes,
        StartStage::CheckStrategyFile => e is FileChecked,
        StartStage::CheckWinws => e is FileChecked,
        StartStage::SyncGameFilter => e is GameFilterSynced,
        StartStage::RunBat => e is BatRan || e is Unsupported,
        StartStage::Poll { .. } => e is Processes,
        StartStage::Confirm { .. } => e is Processes,
        StartStage::Done => false,
    }
}

/// One step of the start protocol: from `stage`, with the pid we own, on
/// event `e`, the next stage, the action for the caller, and the pid we own
/// afterwards.
pub open spec fn start_transition(
    plan: StartPlan,
    stage: StartStage,
    owned: Option<u32>,
    e: EventView,
) -> (StartStage, ActionView, Option<u32>) {
    let finish_err = |m: Seq<char>| (StartStage::Done, ActionView::Finish(Err(m)), owned);
    match stage {
        StartStage::CheckRunning => match e {
            EventView::Processes(ps) => if status_of(owned, ps).0 {
                finish_err(already_running_message())
            } else {
                (StartStage::CheckStrategyFile, ActionView::CheckFile(plan.bat), owned)
            },
            _ => (stage, ActionView::Finish(Err(seq![])), owned),
        },
        StartStage::CheckStrategyFile => match e {
            EventView::FileChecked(found) => if !found {
                finish_err(missing_strategy_message(plan.bat))
            } else {
                (StartStage::CheckWinws, ActionView::CheckFile(plan.winws), owned)
            },
            _ => (stage, ActionView::Finish(Err(seq![])), owned),
        },
        StartStage::CheckWinws => match e {
            EventView::FileChecked(found) => if !found {
                finish_err(missing_winws_message(plan.winws))
            } else {
                (
                    StartStage::SyncGameFilter,
                    ActionView::SyncGameFilter(plan.sync.0, plan.sync.1, plan.sync.2),
                    owned,
                )
            },
            _ => (stage, ActionView::Finish(Err(seq![])), owned),
        },
        StartStage::SyncGameFilter => match e {
            EventView::GameFilterSynced(r) => match r {
                Err(m) => finish_err(sync_failed_message(m)),
                Ok(_) => (StartStage::RunBat, ActionView::RunBat(plan.bat, plan.dir), owned),
            },
            _ => (stage, ActionView::Finish(Err(seq![])), owned),
        },
        StartStage::RunBat => match e {
            EventView::BatRan(r) => match r {
                Err(m) => finish_err(cmd_failed_message(m)),
                Ok(_) => (
                    StartStage::Poll { tries: 0 },
                    ActionView::ListProcesses(POLL_WAIT_MS),
                    owned,
                ),
            },
            EventView::Unsupported => finish_err(unsupported_message()),
            _ => (stage, ActionView::Finish(Err(seq![])), owned),
        },
        StartStage::Poll { tries } => match e {
            EventView::Processes(ps) => match first_winws(ps) {
                Some(p) => (
                    StartStage::Confirm { pid: p },
                    ActionView::ListProcesses(CONFIRM_WAIT_MS),
                    owned,
                ),
                None => if tries + 1 >= POLL_TRIES {
                    finish_err(not_started_message())
                } else {
                    (
                        StartStage::Poll { tries: (tries + 1) as u32 },
                        ActionView::ListProcesses(POLL_WAIT_MS),
                        owned,
                    )
                },
            },
            _ => (stage, ActionView::Finish(Err(seq![])), owned),
        },
        StartStage::Confirm { pid } => match e {
            EventView::Processes(ps) => if is_running(ps, pid) {
                (StartStage::Done, ActionView::Finish(Ok(pid)), Some(pid))
            } else {
                finish_err(exited_message())
            },
            _ => (stage, ActionView::Finish(Err(seq![])), owned),
        },
        StartStage::Done => (stage, ActionView::Finish(Err(seq![])), owned),
    }
}


/// A start of zapret in progress.
pub struct StartFlow {
    /// Where the start is.
    pub stage: StartStage,
    /// The zapret folder.
    pub dir: String,
    /// The strategy's batch file.
    pub bat: String,
    /// The `bin/winws.exe` of the zapret folder.
    pub winws: String,
    /// The game-filter plan.
    pub sync: GameFilterSync,
}

impl StartFlow {
    /// The fixed data of this start; the stage, which changes, is the
    /// `stage` field.
    pub open spec fn plan(&self) -> StartPlan {
        StartPlan {
            dir: self.dir@,
            bat: self.bat@,
            winws: self.winws@,
            sync: (self.sync.utils_dir@, self.sync.flag_file@, option_view(self.sync.content)),
        }
    }

    /// The poll counter stays below its limit.
    pub open spec fn wf(&self) -> bool {
        self.stage matches StartStage::Poll { tries } ==> tries < POLL_TRIES
    }

    /// Whether `event` answers the action this start waits for.
    pub fn expects(&self, event: &StartEvent) -> (r: bool)
        ensures
            r == stage_expects(self.stage, event@),
    {
        match self.stage {
            StartStage::CheckRunning => matches!(event, StartEvent::Processes { .. }),
            StartStage::CheckStrategyFile => matches!(event, StartEvent::FileChecked { .. }),
            StartStage::CheckWinws => matches!(event, StartEvent::FileChecked { .. }),
            StartStage::SyncGameFilter => matches!(event, StartEvent::GameFilterSynced { .. }),
            StartStage::RunBat => matches!(event, StartEvent::BatRan { .. } | StartEvent::Unsupported),
            StartStage::Poll { .. } => matches!(event, StartEvent::Processes { .. }),
            StartStage::Confirm { .. } => matches!(event, StartEvent::Processes { .. }),
            StartStage::Done => false,
        }
    }

    /// Advance the start on `event`, the outcome of the last action, and
    /// return the next action. A successful start records the pid of
    /// `winws.exe` in `state`.
    pub fn step(&mut self, state: &mut ZapretState, event: StartEvent) -> (r: StartAction)
        requires
            old(self).wf(),
            stage_expects(old(self).stage, event@),
        ensures
            ({
                let (stage, action, owned) = start_transition(
                    old(self).plan(),
                    old(self).stage,
                    old(state).child_pid,
                    event@,
                );
                &&& final(self).stage == stage
                &&& r@ == action
                &&& final(state).child_pid == owned
            }),
            final(self).plan() == old(self).plan(),
            final(self).wf(),
    {
        match self.stage {
            StartStage::CheckRunning => {
                if let StartEvent::Processes { procs } = event {
                    let status = current_status(state, &procs);
                    if status.active {
                        self.stage = StartStage::Done;
                        return StartAction::Finish { result: Err("zapret уже запущен".to_owned()) };
                    }
                    self.stage = StartStage::CheckStrategyFile;
                    StartAction::CheckFile { path: self.bat.clone() }
                } else {
                    StartAction::Finish { result: Err(String::new()) }
                }
            },
            StartStage::CheckStrategyFile => {
                if let StartEvent::FileChecked { exists } = event {
                    if !exists {
                        self.stage = StartStage::Done;
                        let m = concat_str("Файл стратегии не найден: ", self.bat.as_str());
                        return StartAction::Finish { result: Err(m) };
                    }
                    self.stage = StartStage::CheckWinws;
                    StartAction::CheckFile { path: self.winws.clone() }
                } else {
                    StartAction::Finish { result: Err(String::new()) }
                }
            },
            StartStage::CheckWinws => {
                if let StartEvent::FileChecked { exists } = event {
                    if !exists {
                        self.stage = StartStage::Done;
                        let m = concat_str("winws.exe не найден: ", self.winws.as_str());
                        return StartAction::Finish { result: Err(m) };
                    }
                    self.stage = StartStage::SyncGameFilter;
                    let plan = GameFilterSync {
                        utils_dir: self.sync.utils_dir.clone(),
                        flag_file: self.sync.flag_file.clone(),
                        content: match &self.sync.content {
                            Some(c) => Some(c.clone()),
                            None => None,
                        },
                    };
                    StartAction::SyncGameFilter { plan }
                } else {
                    StartAction::Finish { result: Err(String::new()) }
                }
            },
            StartStage::SyncGameFilter => {
                if let StartEvent::GameFilterSynced { result } = event {
                    match result {
                        Err(e) => {
                            self.stage = StartStage::Done;
                            let m = concat_str("Не удалось обновить игровой фильтр: ", e.as_str());
                            StartAction::Finish { result: Err(m) }
                        },
                        Ok(()) => {
                            self.stage = StartStage::RunBat;
                            StartAction::RunBat { bat: self.bat.clone(), dir: self.dir.clone() }
                        },
                    }
                } else {
                    StartAction::Finish { result: Err(String::new()) }
                }
            },
            StartStage::RunBat => {
                match event {
                    StartEvent::BatRan { result } => match result {
                        Err(e) => {
                            self.stage = StartStage::Done;
                            let m = concat_str("Не удалось запустить cmd.exe: ", e.as_str());
                            StartAction::Finish { result: Err(m) }
                        },
                        Ok(()) => {
                            self.stage = StartStage::Poll { tries: 0 };
                            StartAction::ListProcesses { wait_ms: POLL_WAIT_MS }
                        },
                    },
                    StartEvent::Unsupported => {
                        self.stage = StartStage::Done;
                        StartAction::Finish {
                            result: Err("zapret поддерживается только на Windows".to_owned()),
                        }
                    },
                    _ => StartAction::Finish { result: Err(String::new()) },
                }
            },
            StartStage::Poll { tries } => {
                if let StartEvent::Processes { procs } = event {
                    match find_winws_pid(&procs) {
                        Some(pid) => {
                            self.stage = StartStage::Confirm { pid };
                            StartAction::ListProcesses { wait_ms: CONFIRM_WAIT_MS }
                        },
                        None => {
                            if tries + 1 >= POLL_TRIES {
                                self.stage = StartStage::Done;
                                let m = concat_str("winws.exe не запустился. ", launch_advice_text());
                                StartAction::Finish { result: Err(m) }
                            } else {
                                self.stage = StartStage::Poll { tries: tries + 1 };
                                StartAction::ListProcesses { wait_ms: POLL_WAIT_MS }
                            }
                        },
                    }
                } else {
                    StartAction::Finish { result: Err(String::new()) }
                }
            },
            StartStage::Confirm { pid } => {
                if let StartEvent::Processes { procs } = event {
                    self.stage = StartStage::Done;
                    if process_running(&procs, pid) {
                        state.child_pid = Some(pid);
                        StartAction::Finish { result: Ok(pid) }
                    } else {
                        let m = concat_str(
                            "winws.exe запустился, но сразу же завершился. ",
                            launch_advice_text(),
                        );
                        StartAction::Finish { result: Err(m) }
                    }
                } else {
                    StartAction::Finish { result: Err(String::new()) }
                }
            },
            StartStage::Done => StartAction::Finish { result: Err(String::new()) },
        }
    }
}

/// The advice appended to the errors of a failed launch.
fn launch_advice_text() -> (r: &'static str)
    ensures
        r@ == launch_advice(),
{
    "Чаще всего это значит:\n\
     1) приложение запущено без прав администратора (драйвер WinDivert не грузится без них) — \
     перезапустите от имени администратора;\n\
     2) winws.exe / WinDivert64.sys заблокирован антивирусом — добавьте папку bin в исключения;\n\
     3) уже запущен другой экземпляр zapret или установлена служба zapret \
     (попробуйте `service.bat` → пункт «Remove Services»).\n\n\
     Если не помогло — запустите выбранный .bat вручную из папки zapret \
     через двойной клик и пришлите скриншот ошибки."
}

/// Begin starting zapret from folder `zapret_dir` with strategy file
/// `strategy_file` and game-filter mode `game_filter_mode`. The first action
/// asks for the process list, to refuse the start while zapret runs.
pub fn start(zapret_dir: &str, strategy_file: &str, game_filter_mode: &str) -> (r: (
    StartFlow,
    StartAction,
))
    ensures
        r.0.stage == StartStage::CheckRunning,
        r.0.dir@ == zapret_dir@,
        paths::joined(zapret_dir@, strategy_file@, r.0.bat@),
        exists|bin: Seq<char>|
            #[trigger] paths::joined(zapret_dir@, "bin"@, bin) && paths::joined(
                bin,
                strategies::winws_name(),
                r.0.winws@,
            ),
        is_sync_plan(zapret_dir@, game_filter_mode@, r.0.sync),
        r.1@ == ActionView::ListProcesses(0),
{
    let bat = strategies::resolve_strategy(zapret_dir, strategy_file);
    let markers = settings::zapret_markers(zapret_dir);
    let sync = sync_game_filter_file(zapret_dir, game_filter_mode);
    let flow = StartFlow { stage: StartStage::CheckRunning, dir: zapret_dir.to_owned(), bat, winws: markers.winws, sync };
    (flow, StartAction::ListProcesses { wait_ms: 0 })
}


/// Steps a start can still take from `stage` at most.
pub open spec fn steps_left(stage: StartStage) -> int {
    match stage {
        StartStage::CheckRunning => 16,
        StartStage::CheckStrategyFile => 15,
        StartStage::CheckWinws => 14,
        StartStage::SyncGameFilter => 13,
        StartStage::RunBat => 12,
        StartStage::Poll { tries } => 11 - tries,
        StartStage::Confirm { .. } => 1,
        StartStage::Done => 0,
    }
}

/// Every step of a start gets closer to its end: the number of steps left
/// drops, the poll counter stays in bounds, and a start that asks for
/// nothing more is done. So a start ends after at most sixteen events.
pub proof fn law_start_makes_progress(plan: StartPlan, stage: StartStage, owned: Option<u32>, e: EventView)
    requires
        stage_expects(stage, e),
        stage matches StartStage::Poll { tries } ==> tries < POLL_TRIES,
    ensures
        ({
            let (next, action, _) = start_transition(plan, stage, owned, e);
            &&& 0 <= steps_left(next) < steps_left(stage)
            &&& next matches StartStage::Poll { tries } ==> tries < POLL_TRIES
            &&& (next is Done <==> action is Finish)
        }),
{
}

/// A start succeeds only from a confirming look at the process list in
/// which the found `winws.exe` still runs, and a success records its pid as
/// ours; nothing else changes the pid we own.
pub proof fn law_start_success_records_pid(
    plan: StartPlan,
    stage: StartStage,
    owned: Option<u32>,
    e: EventView,
)
    requires
        stage_expects(stage, e),
    ensures
        ({
            let (_, action, owned2) = start_transition(plan, stage, owned, e);
            &&& action matches ActionView::Finish(Ok(p)) ==> {
                &&& stage == StartStage::Confirm { pid: p }
                &&& e matches EventView::Processes(ps) && is_running(ps, p)
                &&& owned2 == Some(p)
            }
            &&& !(action matches ActionView::Finish(Ok(_))) ==> owned2 == owned
        }),
{
}

/// A start is refused while zapret runs: the first look at the process
/// list ends it with the "already running" error, leaving everything as it
/// was.
pub proof fn law_start_refused_while_running(
    plan: StartPlan,
    owned: Option<u32>,
    ps: Seq<(u32, Seq<char>)>,
)
    requires
        status_of(owned, ps).0,
    ensures
        start_transition(plan, StartStage::CheckRunning, owned, EventView::Processes(ps)) == (
            StartStage::Done,
            ActionView::Finish(Err(already_running_message())),
            owned,
        ),
{
}

/// The checks come in order: the `winws.exe` file is checked only after the
/// strategy file was found, the game filter is synced only after
/// `winws.exe` was found, and the batch file of the plan is run only after
/// the game filter was synced.
pub proof fn law_start_checks_in_order(
    plan: StartPlan,
    stage: StartStage,
    owned: Option<u32>,
    e: EventView,
)
    requires
        stage_expects(stage, e),
    ensures
        ({
            let (_, action, _) = start_transition(plan, stage, owned, e);
            &&& action == ActionView::CheckFile(plan.winws) && plan.winws != plan.bat ==> (stage
                == StartStage::CheckStrategyFile && e == EventView::FileChecked(true))
            &&& action is SyncGameFilter ==> (stage == StartStage::CheckWinws && e
                == EventView::FileChecked(true))
            &&& action is RunBat ==> (stage == StartStage::SyncGameFilter
                && e is GameFilterSynced && e->GameFilterSynced_0 is Ok && action
                == ActionView::RunBat(plan.bat, plan.dir))
        }),
{
}


/// After a stop, a new start is refused only while some `winws.exe` still
/// runs: with no process of ours recorded, the first look at the process
/// list moves on to the file checks exactly when no winws process is listed.
pub proof fn law_start_after_stop(plan: StartPlan, ps: Seq<(u32, Seq<char>)>)
    ensures
        (start_transition(plan, StartStage::CheckRunning, None, EventView::Processes(ps)).0
            == StartStage::CheckStrategyFile) <==> first_winws(ps) is None,
{
}


/// A process of the list with this pid is named like winws.
pub open spec fn winws_listed(ps: Seq<(u32, Seq<char>)>, q: u32) -> bool {
    exists|i: int| 0 <= i < ps.len() && ps[i].0 == q && is_winws_name(ps[i].1)
}

/// Some process of the list is named like winws.
pub open spec fn any_winws_listed(ps: Seq<(u32, Seq<char>)>) -> bool {
    exists|i: int| 0 <= i < ps.len() && is_winws_name(ps[i].1)
}

/// The first winws process found is one of the list, and none is found
/// only when none is listed.
proof fn lemma_first_winws_listed(ps: Seq<(u32, Seq<char>)>)
    ensures
        first_winws(ps) matches Some(q) ==> winws_listed(ps, q),
        first_winws(ps) is None <==> !any_winws_listed(ps),
    decreases ps.len(),
{
    if ps.len() > 0 {
        lemma_first_winws_listed(ps.drop_first());
        if !is_winws_name(ps[0].1) {
            if let Some(q) = first_winws(ps.drop_first()) {
                let i = choose|i: int|
                    0 <= i < ps.drop_first().len() && ps.drop_first()[i].0 == q && is_winws_name(
                        ps.drop_first()[i].1,
                    );
                assert(ps[i + 1] == ps.drop_first()[i]);
            }
            if any_winws_listed(ps) {
                let i = choose|i: int| 0 <= i < ps.len() && is_winws_name(ps[i].1);
                assert(i != 0);
                assert(ps.drop_first()[i - 1] == ps[i]);
            }
        } else {
            assert(winws_listed(ps, ps[0].0));
            assert(any_winws_listed(ps));
        }
    }
}

/// The status only ever names a process of the list: the one we started,
/// while it runs, or a winws process. It is active exactly when the process
/// we started runs or some winws process is listed; a recorded pid whose
/// process is gone counts for nothing.
pub proof fn law_status_names_listed_process(owned: Option<u32>, ps: Seq<(u32, Seq<char>)>)
    ensures
        status_of(owned, ps).1 matches Some(q) ==> (owned == Some(q) && is_running(ps, q))
            || winws_listed(ps, q),
        status_of(owned, ps).0 <==> ((owned matches Some(p) && is_running(ps, p))
            || any_winws_listed(ps)),
        (owned matches Some(p) && !is_running(ps, p) && !any_winws_listed(ps)) ==> status_of(
            owned,
            ps,
        ) == (false, None::<u32>),
{
    lemma_first_winws_listed(ps);
}

/// A start is refused exactly when zapret runs: the first look at the
/// process list goes on to check the strategy file when neither the
/// process we started nor any winws process is listed, and otherwise ends
/// with the "already running" error.
pub proof fn law_start_refused_exactly_when_running(
    plan: StartPlan,
    owned: Option<u32>,
    ps: Seq<(u32, Seq<char>)>,
)
    ensures
        ({
            let (next, action, owned2) = start_transition(
                plan,
                StartStage::CheckRunning,
                owned,
                EventView::Processes(ps),
            );
            let running = (owned matches Some(p) && is_running(ps, p)) || any_winws_listed(ps);
            &&& !running ==> (next == StartStage::CheckStrategyFile && action
                == ActionView::CheckFile(plan.bat))
            &&& running ==> (next == StartStage::Done && action == ActionView::Finish(
                Err(already_running_message()),
            ))
            &&& owned2 == owned
        }),
{
    law_status_names_listed_process(owned, ps);
}

/// Once both files are found, a start syncs the game filter with its own
/// plan: for a plan made for `mode`, the flag file holds `mode` when the
/// mode is `all`, `tcp` or `udp`, and is removed for any other mode.
pub proof fn law_start_syncs_own_plan(
    plan: StartPlan,
    zapret_dir: Seq<char>,
    mode: Seq<char>,
    g: GameFilterSync,
    owned: Option<u32>,
)
    requires
        is_sync_plan(zapret_dir, mode, g),
        plan.sync == (g.utils_dir@, g.flag_file@, option_view(g.content)),
    ensures
        start_transition(plan, StartStage::CheckWinws, owned, EventView::FileChecked(true)) == (
            StartStage::SyncGameFilter,
            ActionView::SyncGameFilter(
                g.utils_dir@,
                g.flag_file@,
                if mode == "all"@ || mode == "tcp"@ || mode == "udp"@ {
                    Some(mode)
                } else {
                    None
                },
            ),
            owned,
        ),
{
}

/// While waiting for `winws.exe`, a look at the process list goes on to
/// confirm a winws process of that list when one is listed; otherwise it
/// looks again, until the last try, which ends with the "not started"
/// error. The pid we own does not change.
pub proof fn law_poll_confirms_listed_winws(
    plan: StartPlan,
    tries: u32,
    owned: Option<u32>,
    ps: Seq<(u32, Seq<char>)>,
)
    requires
        tries < POLL_TRIES,
    ensures
        ({
            let (next, action, owned2) = start_transition(
                plan,
                StartStage::Poll { tries },
                owned,
                EventView::Processes(ps),
            );
            &&& any_winws_listed(ps) ==> (next matches StartStage::Confirm { pid } && winws_listed(
                ps,
                pid,
            ) && action == ActionView::ListProcesses(CONFIRM_WAIT_MS))
            &&& (!any_winws_listed(ps) && tries + 1 < POLL_TRIES) ==> (next == StartStage::Poll {
                tries: (tries + 1) as u32,
            } && action == ActionView::ListProcesses(POLL_WAIT_MS))
            &&& (!any_winws_listed(ps) && tries + 1 >= POLL_TRIES) ==> (next == StartStage::Done
                && action == ActionView::Finish(Err(not_started_message())))
            &&& owned2 == owned
        }),
{
    lemma_first_winws_listed(ps);
}

} // verus!
