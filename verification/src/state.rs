//! The application state and the decisions of the user commands around it.

use vstd::prelude::*;

use crate::settings::Settings;
use crate::text::concat_str;
use crate::zapret::ZapretState;

verus! {

/// Shared application state: the settings and the tracked zapret process.
pub struct AppState {
    pub settings: Settings,
    pub zapret: ZapretState,
}

impl AppState {
    /// The state at program start, with the settings as loaded and no
    /// zapret process tracked yet.
    pub fn new(settings: Settings) -> (r: Self)
        ensures
            r.settings == settings,
            r.zapret.child_pid is None,
    {
        AppState { settings, zapret: ZapretState::default() }
    }
}

/// Error text when no zapret folder is set.
pub open spec fn no_folder_message() -> Seq<char> {
    "Не указана папка с zapret"@
}

/// Error text when no strategy is chosen.
pub open spec fn no_strategy_message() -> Seq<char> {
    "Не выбрана стратегия"@
}

/// The zapret folder and the strategy file a start uses, from the settings:
/// an error when the folder is not set, else when no strategy is chosen.
pub fn launch_target(settings: &Settings) -> (r: Result<(String, String), String>)
    ensures
        match (settings.zapret_path, settings.strategy) {
            (None, _) => r matches Err(e) && e@ == no_folder_message(),
            (Some(_), None) => r matches Err(e) && e@ == no_strategy_message(),
            (Some(p), Some(s)) => r matches Ok((p2, s2)) && p2@ == p@ && s2@ == s@,
        },
{
    match &settings.zapret_path {
        None => Err("Не указана папка с zapret".to_owned()),
        Some(p) => match &settings.strategy {
            None => Err("Не выбрана стратегия".to_owned()),
            Some(s) => Ok((p.clone(), s.clone())),
        },
    }
}

/// Error text when folder `dir` does not look like zapret.
pub fn not_zapret_message(dir: &str) -> (r: String)
    ensures
        r@ == "В папке "@ + dir@ + " не найдены winws.exe и general.bat"@,
{
    let a = concat_str("В папке ", dir);
    concat_str(a.as_str(), " не найдены winws.exe и general.bat")
}

/// The folder and strategy file a start from the user uses, checked in the
/// order the user is told about problems: no folder set, no strategy
/// chosen, then a folder that does not look like zapret
/// (`folder_is_zapret` says whether it does).
pub fn start_request(settings: &Settings, folder_is_zapret: bool) -> (r: Result<
    (String, String),
    String,
>)
    ensures
        match (settings.zapret_path, settings.strategy) {
            (None, _) => r matches Err(e) && e@ == no_folder_message(),
            (Some(_), None) => r matches Err(e) && e@ == no_strategy_message(),
            (Some(p), Some(s)) => if folder_is_zapret {
                r matches Ok((p2, s2)) && p2@ == p@ && s2@ == s@
            } else {
                r matches Err(e) && e@ == "В папке "@ + p@ + " не найдены winws.exe и general.bat"@
            },
        },
{
    let (dir, strategy) = launch_target(settings)?;
    if !folder_is_zapret {
        return Err(not_zapret_message(dir.as_str()));
    }
    Ok((dir, strategy))
}

/// Whether closing the main window only hides it to the tray: as the
/// settings say, and yes when no application state is available.
pub fn close_to_tray(state: Option<&AppState>) -> (r: bool)
    ensures
        r == match state {
            Some(s) => s.settings.minimize_to_tray,
            None => true,
        },
{
    match state {
        Some(s) => s.settings.minimize_to_tray,
        None => true,
    }
}

/// The tray icon's tooltip for the zapret status.
pub fn tray_tooltip(active: bool) -> (r: &'static str)
    ensures
        r@ == if active {
            "ZapretGUI — активно"@
        } else {
            "ZapretGUI — отключено"@
        },
{
    if active {
        "ZapretGUI — активно"
    } else {
        "ZapretGUI — отключено"
    }
}


/// Whether this process runs with administrator rights, from the
/// `TokenIsElevated` value of its access token, or `None` when the token
/// could not be opened or queried.
pub fn is_elevated_from(token_elevation: Option<u32>) -> (r: bool)
    ensures
        r == (token_elevation matches Some(v) && v != 0),
{
    match token_elevation {
        Some(v) => v != 0,
        None => false,
    }
}

/// Error text when the request for administrator rights failed.
pub open spec fn elevation_refused_message() -> Seq<char> {
    "Не удалось запросить повышение прав (UAC отклонён)"@
}

/// The outcome of asking Windows to start this program again as
/// administrator, from the value `ShellExecuteW` returned: values up to 32
/// report an error (for instance, the user declined the UAC prompt).
pub fn relaunch_outcome(code: isize) -> (r: Result<(), String>)
    ensures
        code > 32 ==> r is Ok,
        code <= 32 ==> (r matches Err(e) && e@ == elevation_refused_message()),
{
    if code <= 32 {
        return Err("Не удалось запросить повышение прав (UAC отклонён)".to_owned());
    }
    Ok(())
}

} // verus!
