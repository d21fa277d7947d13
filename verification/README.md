# zapret_gui

The verified core of ZapretGUI, a one-button tray application that starts and
stops `winws.exe` from a [zapret-discord-youtube](https://github.com/Flowseal/zapret-discord-youtube)
folder. A start runs the chosen strategy's `.bat` file through `cmd.exe` and
then waits for `winws.exe` to appear.

- `src/` — the library, verified with Verus:
  - `text.rs`: character and string primitives (lines, trimming, search,
    replace, lexicographic order) with exact specifications;
  - `paths.rs`: joining paths through `std::path`, stated as far as it holds
    on every platform;
  - `strategies.rs`: the tokenizer, the parser of `general*.bat` files, the
    game-filter values and the sorted listing of strategies;
  - `settings.rs`: settings, the config-file location and the detection of a
    zapret folder;
  - `zapret.rs`: process status, stop, and the start protocol as a state
    machine (`StartFlow::step`), with its laws;
  - `state.rs`: application state and the decisions behind the UI commands.
- `app/` — the tauri program: file system, process list (`sysinfo`),
  spawning and killing processes, Windows elevation, serde copies of the
  library types, tray and commands.
- `tests/` — tests of the library.
