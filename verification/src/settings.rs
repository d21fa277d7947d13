//! User settings and the detection of a zapret installation.

use vstd::prelude::*;

use crate::paths;
use crate::text;

verus! {

/// The user's settings.
#[derive(Clone, Debug)]
pub struct Settings {
    /// Absolute path to a folder containing zapret-discord-youtube
    /// (the folder with `bin/`, `lists/`, and `general*.bat` files).
    pub zapret_path: Option<String>,
    /// File name of the chosen `general*.bat` strategy
    /// (relative to `zapret_path`). E.g. `general.bat`.
    pub strategy: Option<String>,
    /// Game-filter mode: "off" | "all" | "tcp" | "udp".
    pub game_filter: String,
    /// Hide window to tray on close instead of quitting.
    pub minimize_to_tray: bool,
    /// Theme: "dark" or "light".
    pub theme: String,
    /// Auto-start zapret when the app launches.
    pub autostart_zapret: bool,
}

/// The settings of a first start: no folder and no strategy chosen, game
/// filter off, minimise to tray, dark theme, no auto-start.
pub open spec fn is_default_settings(s: Settings) -> bool {
    &&& s.zapret_path is None
    &&& s.strategy is None
    &&& s.game_filter@ == "off"@
    &&& s.minimize_to_tray
    &&& s.theme@ == "dark"@
    &&& !s.autostart_zapret
}

impl Default for Settings {
    fn default() -> (r: Self)
        ensures
            is_default_settings(r),
    {
        Settings {
            zapret_path: None,
            strategy: None,
            game_filter: "off".to_owned(),
            minimize_to_tray: true,
            theme: "dark".to_owned(),
            autostart_zapret: false,
        }
    }
}

impl Settings {
    /// Where the settings file lives: `ZapretGUI/config.json` under the
    /// user's configuration folder `config_dir`, or `config.json` in the
    /// working folder when there is none.
    pub fn config_path(config_dir: Option<&str>) -> (r: String)
        ensures
            config_dir is None ==> r@ == "config.json"@,
            config_dir matches Some(d) ==> exists|app_dir: Seq<char>|
                #[trigger] paths::joined(d@, "ZapretGUI"@, app_dir) && paths::joined(
                    app_dir,
                    "config.json"@,
                    r@,
                ),
    {
        match config_dir {
            Some(d) => {
                let app_dir = paths::path_join(d, "ZapretGUI");
                let r = paths::path_join(app_dir.as_str(), "config.json");
                assert(paths::joined(d@, "ZapretGUI"@, app_dir@));
                r
            },
            None => "config.json".to_owned(),
        }
    }
}

/// The two files whose presence marks a zapret folder.
pub struct ZapretMarkers {
    /// `<dir>/bin/winws.exe`.
    pub winws: String,
    /// `<dir>/general.bat`.
    pub general: String,
}

/// `m` holds the marker paths of folder `dir`.
pub open spec fn markers_of(dir: Seq<char>, m: ZapretMarkers) -> bool {
    &&& exists|bin: Seq<char>|
        #[trigger] paths::joined(dir, "bin"@, bin) && paths::joined(
            bin,
            "winws.exe"@,
            m.winws@,
        )
    &&& paths::joined(dir, "general.bat"@, m.general@)
}

/// The paths of `bin/winws.exe` and `general.bat` inside `dir`.
pub fn zapret_markers(dir: &str) -> (m: ZapretMarkers)
    ensures
        markers_of(dir@, m),
{
    let bin = paths::path_join(dir, "bin");
    let winws = paths::path_join(bin.as_str(), "winws.exe");
    let general = paths::path_join(dir, "general.bat");
    assert(paths::joined(dir@, "bin"@, bin@));
    ZapretMarkers { winws, general }
}

/// A folder looks like zapret when both `bin/winws.exe` and `general.bat`
/// exist in it.
pub fn looks_like_zapret(winws_exists: bool, general_exists: bool) -> (r: bool)
    ensures
        r == (winws_exists && general_exists),
{
    winws_exists && general_exists
}

/// A folder path chosen by the user is accepted when it is not empty and
/// looks like zapret.
pub fn validate_zapret_path(path: &str, winws_exists: bool, general_exists: bool) -> (r: bool)
    ensures
        r == (path@.len() > 0 && winws_exists && general_exists),
{
    let empty = path.is_empty();
    !empty && looks_like_zapret(winws_exists, general_exists)
}

/// A folder that may hold zapret, with what was found in it.
pub struct ZapretProbe {
    /// The folder.
    pub dir: String,
    /// Whether `bin/winws.exe` exists in it.
    pub winws_exists: bool,
    /// Whether `general.bat` exists in it.
    pub general_exists: bool,
}

/// The first probed folder that looks like zapret, if any.
pub open spec fn first_zapret_dir(probes: Seq<ZapretProbe>) -> Option<Seq<char>>
    decreases probes.len(),
{
    if probes.len() == 0 {
        None
    } else if probes[0].winws_exists && probes[0].general_exists {
        Some(probes[0].dir@)
    } else {
        first_zapret_dir(probes.drop_first())
    }
}

/// Best-effort detection of a zapret installation: the first of the
/// probed candidate folders, in order, that looks like zapret.
pub fn autodetect_zapret_path(probes: &Vec<ZapretProbe>) -> (r: Option<String>)
    ensures
        match first_zapret_dir(probes@) {
            None => r is None,
            Some(d) => r matches Some(s) && s@ == d,
        },
{
    let mut i: usize = 0;
    assert(probes@.skip(0) == probes@);
    while i < probes.len()
        invariant
            i <= probes.len(),
            first_zapret_dir(probes@) == first_zapret_dir(probes@.skip(i as int)),
        decreases probes.len() - i,
    {
        let p = &probes[i];
        if looks_like_zapret(p.winws_exists, p.general_exists) {
            return Some(p.dir.clone());
        }
        assert(probes@.skip(i as int).drop_first() == probes@.skip(i + 1 as int));
        i = i + 1;
    }
    None
}


/// Folders tried under the user's home folder.
pub open spec fn home_subdirs() -> Seq<Seq<char>> {
    seq![
        "zapret-discord-youtube"@,
        "Desktop/zapret-discord-youtube"@,
        "Documents/zapret-discord-youtube"@,
        "Downloads/zapret-discord-youtube"@,
    ]
}

/// Folders under which the usual zapret folder names are tried.
pub open spec fn drive_roots() -> Seq<Seq<char>> {
    seq!["C:\\"@, "D:\\"@, "C:\\Program Files"@, "C:\\Program Files (x86)"@]
}

/// Usual zapret folder names.
pub open spec fn root_subdirs() -> Seq<Seq<char>> {
    seq!["zapret-discord-youtube"@, "zapret"@]
}

/// `c` lists, in this order: the folder of the running program (present
/// whenever the program's path has a parent; a proper prefix of that path,
/// non-empty when a named component follows a `/`, and exactly the path
/// without its last component when the path is separated by `/` alone),
/// the working folder, the usual folders under the home folder, and
/// the usual folders under the drive roots.
pub open spec fn candidate_list(
    exe: Option<Seq<char>>,
    cwd: Option<Seq<char>>,
    home: Option<Seq<char>>,
    c: Seq<Seq<char>>,
) -> bool {
    exists|ne: int|
        #![trigger candidates_from(ne, exe, cwd, home, c)]
        candidates_from(ne, exe, cwd, home, c)
}

/// `candidate_list` where the program's folder takes `ne` entries.
pub open spec fn candidates_from(
    ne: int,
    exe: Option<Seq<char>>,
    cwd: Option<Seq<char>>,
    home: Option<Seq<char>>,
    c: Seq<Seq<char>>,
) -> bool {
    let nc = ne + if cwd is Some {
        1int
    } else {
        0int
    };
    let nh = nc + if home is Some {
        4int
    } else {
        0int
    };
    &&& 0 <= ne <= 1
    &&& exe is None ==> ne == 0
    &&& (exe matches Some(e) && paths::has_parent(e)) ==> ne == 1
    &&& ne == 1 ==> (exe matches Some(e) && c[0].len() < e.len() && text::starts_with(e, c[0])
        && (paths::has_inner_slash(e) ==> c[0].len() > 0) && (paths::slash_path(e)
        ==> c[0] == paths::slash_parent(e)))
    &&& cwd matches Some(d) ==> c[ne] == d
    &&& home matches Some(h) ==> forall|i: int|
        0 <= i < 4 ==> paths::joined(h, home_subdirs()[i], #[trigger] c[nc + i])
    &&& forall|a: int, b: int|
        0 <= a < 4 && 0 <= b < 2 ==> paths::joined(
            drive_roots()[a],
            root_subdirs()[b],
            #[trigger] c[nh + 2 * a + b],
        )
    &&& c.len() == nh + 8
}

/// The folders where a zapret installation is looked for, given the path
/// of the running program, the working folder and the home folder.
pub fn autodetect_candidates(exe: Option<&str>, cwd: Option<&str>, home: Option<&str>) -> (r: Vec<
    String,
>)
    ensures
        candidate_list(
            match exe {
                Some(e) => Some(e@),
                None => None,
            },
            match cwd {
                Some(d) => Some(d@),
                None => None,
            },
            match home {
                Some(h) => Some(h@),
                None => None,
            },
            r@.map_values(|s: String| s@),
        ),
{
    let mut out: Vec<String> = Vec::new();
    let mut ne: usize = 0;
    if let Some(e) = exe {
        if let Some(p) = paths::path_parent(e) {
            out.push(p);
            ne = 1;
        }
    }
    if let Some(d) = cwd {
        out.push(d.to_owned());
    }
    let nc = out.len();
    if let Some(h) = home {
        out.push(paths::path_join(h, "zapret-discord-youtube"));
        out.push(paths::path_join(h, "Desktop/zapret-discord-youtube"));
        out.push(paths::path_join(h, "Documents/zapret-discord-youtube"));
        out.push(paths::path_join(h, "Downloads/zapret-discord-youtube"));
    }
    let nh = out.len();
    out.push(paths::path_join("C:\\", "zapret-discord-youtube"));
    out.push(paths::path_join("C:\\", "zapret"));
    out.push(paths::path_join("D:\\", "zapret-discord-youtube"));
    out.push(paths::path_join("D:\\", "zapret"));
    out.push(paths::path_join("C:\\Program Files", "zapret-discord-youtube"));
    out.push(paths::path_join("C:\\Program Files", "zapret"));
    out.push(paths::path_join("C:\\Program Files (x86)", "zapret-discord-youtube"));
    out.push(paths::path_join("C:\\Program Files (x86)", "zapret"));
    let ghost c = out@.map_values(|s: String| s@);
    assert forall|a: int, b: int| 0 <= a < 4 && 0 <= b < 2 implies paths::joined(
        drive_roots()[a],
        root_subdirs()[b],
        #[trigger] c[nh + 2 * a + b],
    ) by {
        assert(c[nh + 2 * a + b] == out@[nh + 2 * a + b]@);
    }
    proof {
        if let Some(h) = home {
            assert forall|i: int| 0 <= i < 4 implies paths::joined(
                h@,
                home_subdirs()[i],
                #[trigger] c[nc + i],
            ) by {
                assert(c[nc + i] == out@[nc + i]@);
            }
        }
    }
    assert(candidates_from(
        ne as int,
        match exe {
            Some(e) => Some(e@),
            None => None,
        },
        match cwd {
            Some(d) => Some(d@),
            None => None,
        },
        match home {
            Some(h) => Some(h@),
            None => None,
        },
        c,
    ));
    out
}

/// The detected folder is the first probe that has both `bin/winws.exe`
/// and `general.bat`: every earlier probe lacks one of them. None is
/// detected exactly when no probe has both.
pub proof fn law_detected_folder_has_both_files(probes: Seq<ZapretProbe>)
    ensures
        first_zapret_dir(probes) matches Some(d) ==> exists|i: int|
            #![trigger probes[i]]
            0 <= i < probes.len() && probes[i].dir@ == d && probes[i].winws_exists
                && probes[i].general_exists && forall|j: int|
                0 <= j < i ==> !(#[trigger] probes[j].winws_exists && probes[j].general_exists),
        first_zapret_dir(probes) is None <==> forall|i: int|
            0 <= i < probes.len() ==> !(#[trigger] probes[i].winws_exists
                && probes[i].general_exists),
    decreases probes.len(),
{
    if probes.len() > 0 {
        let rest = probes.drop_first();
        law_detected_folder_has_both_files(rest);
        if probes[0].winws_exists && probes[0].general_exists {
            assert(probes[0].dir@ == probes[0].dir@);
        } else {
            if let Some(d) = first_zapret_dir(rest) {
                let i = choose|i: int|
                    #![trigger rest[i]]
                    0 <= i < rest.len() && rest[i].dir@ == d && rest[i].winws_exists
                        && rest[i].general_exists && forall|j: int|
                        0 <= j < i ==> !(#[trigger] rest[j].winws_exists
                            && rest[j].general_exists);
                assert(probes[i + 1] == rest[i]);
                assert forall|j: int| 0 <= j < i + 1 implies !(#[trigger] probes[j].winws_exists
                    && probes[j].general_exists) by {
                    if j > 0 {
                        assert(probes[j] == rest[j - 1]);
                    }
                }
            }
            if first_zapret_dir(rest) is None {
                assert forall|i: int| 0 <= i < probes.len() implies !(
                #[trigger] probes[i].winws_exists && probes[i].general_exists) by {
                    if i > 0 {
                        assert(probes[i] == rest[i - 1]);
                    }
                }
            } else {
                let i = choose|i: int|
                    #![trigger rest[i]]
                    0 <= i < rest.len() && rest[i].dir@ == first_zapret_dir(rest)->0
                        && rest[i].winws_exists && rest[i].general_exists && forall|j: int|
                        0 <= j < i ==> !(#[trigger] rest[j].winws_exists
                            && rest[j].general_exists);
                assert(probes[i + 1] == rest[i]);
            }
        }
    }
}

} // verus!
