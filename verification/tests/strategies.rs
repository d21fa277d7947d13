use zapret_gui::paths::path_with_trailing_sep;
use zapret_gui::strategies::{
    game_filter_values, list_strategies, parse_strategy, parse_strategy_args, parse_strategy_file, resolve_strategy,
    tokenize, DirEntryInfo,
};

#[test]
fn tokenizer_handles_quotes() {
    let toks = tokenize(r#"foo "a b" --x="c d" e"#);
    assert_eq!(toks, vec!["foo", "a b", "--x=c d", "e"]);
}

#[test]
fn substitutes_placeholders() {
    let dir = "zapret_test_strategy";
    let content = r#"@echo off
set "BIN=%~dp0bin\"
set "LISTS=%~dp0lists\"
start "zapret: %~n0" /min "%BIN%winws.exe" --wf-tcp=80,%GameFilterTCP% ^
--filter-tcp=80 --hostlist="%LISTS%list-general.txt" --new ^
--filter-udp=%GameFilterUDP% --dpi-desync=fake
"#;
    let parsed = parse_strategy(content, dir, "off").unwrap();
    assert!(parsed.args.iter().any(|a| a == "--wf-tcp=80,12"));
    assert!(parsed.args.iter().any(|a| a == "--filter-udp=12"));
    assert!(parsed.args.iter().any(|a| a.contains("list-general.txt")));
    assert!(parsed.args.iter().any(|a| a == "--dpi-desync=fake"));
}

#[test]
fn tokenizer_drops_quotes_and_outer_spaces() {
    assert_eq!(tokenize("  a\t\"\"  b "), vec!["a", "b"]);
    assert_eq!(tokenize("\"x  y\"z"), vec!["x  yz"]);
    assert!(tokenize("   ").is_empty());
    // Unicode white space (no-break space) separates tokens too.
    assert_eq!(tokenize("a\u{a0}b"), vec!["a", "b"]);
}

#[test]
fn parse_stitches_continuations_and_substitutes_dirs() {
    let raw = "rem\r\nstart \"x\" \"%BIN%WINWS.EXE\" --a=%BIN%x ^\r\n  --b=%LISTS%y \"\" ^\n--c=%GameFilter%\n";
    let parsed = parse_strategy_args(raw, "B/", "L/", "all").unwrap();
    assert_eq!(parsed.args, vec!["--a=B/x", "--b=L/y", "--c=1024-65535"]);
}

#[test]
fn parse_strategy_adds_bin_and_lists_folders() {
    let parsed = parse_strategy("start \"\" winws.exe %BIN% %LISTS%", "z", "off").unwrap();
    assert_eq!(parsed.args.len(), 2);
    for (arg, sub) in parsed.args.iter().zip(["bin", "lists"]) {
        let slash = format!("z/{}/", sub);
        let back = format!("z\\{}\\", sub);
        assert!(arg == &slash || arg == &back, "{}", arg);
    }
}

#[test]
fn parse_reports_missing_launch_line() {
    let err = parse_strategy_args("@echo off\nset X=1\n", "b", "l", "off").err().unwrap();
    assert_eq!(err, "В .bat нет команды запуска winws.exe");
}

#[test]
fn parse_takes_arguments_after_first_winws_token() {
    // Quotes inside a token are dropped, so `win"ws.exe"` is the winws token.
    let parsed = parse_strategy_args("start win\"ws.exe\" a winws.exe b", "b", "l", "off").unwrap();
    assert_eq!(parsed.args, vec!["a", "winws.exe", "b"]);
    // Only a `start` command counts, however it is cased and indented.
    let raw = "echo winws.exe 0\r\n  START \"z\" WinWS.exe 1\nstart y winws.exe 2";
    let parsed = parse_strategy_args(raw, "b", "l", "off").unwrap();
    assert_eq!(parsed.args, vec!["1"]);
}

#[test]
fn parse_needs_a_start_command() {
    let err = parse_strategy_args("@echo off\necho winws.exe\n", "b", "l", "off").err().unwrap();
    assert_eq!(err, "В .bat нет команды запуска winws.exe");
    let err = parse_strategy("\"%BIN%winws.exe\" --x", "z", "off").err().unwrap();
    assert_eq!(err, "В .bat нет команды запуска winws.exe");
}

#[test]
fn parse_drops_arguments_that_become_empty() {
    let parsed = parse_strategy_args("start winws.exe %BIN% keep", "", "", "off").unwrap();
    assert_eq!(parsed.args, vec!["keep"]);
}

#[test]
fn parse_leaves_plain_arguments_alone() {
    let parsed = parse_strategy_args("start winws.exe --x=BIN --y=GameFilter", "b", "l", "all").unwrap();
    assert_eq!(parsed.args, vec!["--x=BIN", "--y=GameFilter"]);
}

#[test]
fn game_filter_values_by_mode() {
    assert_eq!(game_filter_values("all"), ("1024-65535", "1024-65535", "1024-65535"));
    assert_eq!(game_filter_values("tcp"), ("1024-65535", "12", "1024-65535"));
    assert_eq!(game_filter_values("udp"), ("12", "1024-65535", "1024-65535"));
    assert_eq!(game_filter_values("off"), ("12", "12", "12"));
    assert_eq!(game_filter_values("ALL"), ("12", "12", "12"));
}

fn entry(name: &str, is_file: bool) -> DirEntryInfo {
    DirEntryInfo { file_name: name.to_string(), is_file }
}

#[test]
fn list_strategies_filters_and_sorts() {
    let entries = vec![
        entry("general (ALT2).bat", true),
        entry("service.bat", true),
        entry("GENERAL.BAT", true),
        entry("general (ALT).bat", true),
        entry("general-dir.bat", false),
        entry("general.txt", true),
        entry("general.bat.bat", true),
    ];
    let list = list_strategies(&entries);
    let names: Vec<&str> = list.iter().map(|s| s.name.as_str()).collect();
    let files: Vec<&str> = list.iter().map(|s| s.file_name.as_str()).collect();
    assert_eq!(names, vec!["GENERAL", "general", "general (ALT)", "general (ALT2)"]);
    assert_eq!(
        files,
        vec!["GENERAL.BAT", "general.bat.bat", "general (ALT).bat", "general (ALT2).bat"]
    );
}

#[test]
fn list_strategies_keeps_directory_order_for_equal_keys() {
    let entries = vec![entry("General.bat", true), entry("general.bat", true), entry("GENERAL.bat", true)];
    let list = list_strategies(&entries);
    let files: Vec<&str> = list.iter().map(|s| s.file_name.as_str()).collect();
    assert_eq!(files, vec!["General.bat", "general.bat", "GENERAL.bat"]);
    assert!(list_strategies(&Vec::new()).is_empty());
}

#[test]
fn resolve_strategy_joins_folder_and_file() {
    let p = resolve_strategy("C:/zapret", "general.bat");
    assert!(p == "C:/zapret/general.bat" || p == "C:/zapret\\general.bat", "{}", p);
    assert_eq!(resolve_strategy("dir/", "general.bat"), "dir/general.bat");
    assert_eq!(resolve_strategy("", "general.bat"), "general.bat");
    let d = resolve_strategy("C:", "general.bat");
    assert!(["C:general.bat", "C:/general.bat", "C:\\general.bat"].contains(&d.as_str()), "{}", d);
}

#[test]
fn trailing_separator_added_once() {
    let once = path_with_trailing_sep("abc");
    assert!(once == "abc/" || once == "abc\\");
    assert_eq!(path_with_trailing_sep(&once), once);
    assert_eq!(path_with_trailing_sep("x\\"), "x\\");
}

#[test]
fn unknown_game_filter_mode_parses_like_off() {
    let raw = "start \"\" winws.exe --filter-tcp=80,%GameFilterTCP% --filter-udp=%GameFilterUDP% --p=%GameFilter%";
    let off = parse_strategy_args(raw, "b/", "l/", "off").unwrap();
    let odd = parse_strategy_args(raw, "b/", "l/", "sometimes").unwrap();
    assert_eq!(odd.args, off.args);
    assert_eq!(off.args, vec!["--filter-tcp=80,12", "--filter-udp=12", "--p=12"]);
    let all = parse_strategy_args(raw, "b/", "l/", "all").unwrap();
    assert_ne!(all.args, off.args);
}

#[test]
fn placeholder_between_plain_text_is_replaced() {
    let raw = "start \"\" winws.exe --hostlist=\"%LISTS%list-general.txt\" --fake=%BIN%quic.bin --ports=443,%GameFilter%,50000";
    let parsed = parse_strategy(raw, "/opt/zapret", "udp").unwrap();
    let args: Vec<String> = parsed.args.iter().map(|a| a.replace('\\', "/")).collect();
    assert_eq!(args[0], "--hostlist=/opt/zapret/lists/list-general.txt");
    assert_eq!(args[1], "--fake=/opt/zapret/bin/quic.bin");
    assert_eq!(args[2], "--ports=443,1024-65535,50000");
    assert!(parsed.args.iter().all(|a| !a.contains('%')));
}

#[test]
fn adjacent_placeholders_can_leave_text_behind() {
    // `%LISTS%BIN%GameFilter%` holds `%BIN%` across two placeholders; it is
    // replaced first, as the replacement order dictates.
    let parsed = parse_strategy_args("start \"\" winws.exe %LISTS%BIN%GameFilter%", "B", "L", "off").unwrap();
    assert_eq!(parsed.args, vec!["%LISTSBGameFilter%"]);
}

#[test]
fn no_placeholder_survives_parsing() {
    let raw = "start \"\" winws.exe %BIN%%LISTS%%GameFilter%x%BIN%BIN% %LISTS%BIN%GameFilter% %GameFilter%TCP% %%BIN%%";
    let parsed = parse_strategy(raw, "/opt/z", "tcp").unwrap();
    for a in &parsed.args {
        for p in ["%BIN%", "%LISTS%", "%GameFilterTCP%", "%GameFilterUDP%", "%GameFilter%"] {
            assert!(!a.contains(p), "{} still holds {}", a, p);
        }
    }
    assert_eq!(parsed.args[2], "1024-65535TCP%");
    assert_eq!(parsed.args[3].replace('\\', "/"), "%/opt/z/bin/%");
}

#[test]
fn unreadable_strategy_file_is_reported() {
    let r = parse_strategy_file(Err("нет доступа".to_string()), "z/general.bat", "z", "off");
    assert_eq!(r.err().unwrap(), "Не удалось прочитать z/general.bat: нет доступа");
    let ok = parse_strategy_file(Ok("start \"\" winws.exe --a".to_string()), "z/general.bat", "z", "off");
    assert_eq!(ok.unwrap().args, vec!["--a"]);
    let bad = parse_strategy_file(Ok("echo hi".to_string()), "z/general.bat", "z", "off");
    assert!(bad.is_err());
}
