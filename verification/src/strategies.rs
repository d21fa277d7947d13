//! Strategy files (`general*.bat`): listing them, and reading the
//! `winws.exe` command line out of one.

use vstd::prelude::*;

use crate::paths;
use crate::text;
use crate::text::{
    append_chars, chars_of, contains_chars, ends_with_chars, is_whitespace, lex_less,
    lowercase_chars, replace_chars, split_lines, starts_with_chars, string_of, strings_of,
    trim_line_end_chars, trim_start_ws_chars, trim_suffix_all_chars,
};

verus! {

/// Scanning state of the command-line tokenizer after reading `s`: the
/// finished tokens, the token being built, and whether a double-quoted
/// section is open.
pub open spec fn tokenize_state(s: Seq<char>) -> (Seq<Seq<char>>, Seq<char>, bool)
    decreases s.len(),
{
    if s.len() == 0 {
        (seq![], seq![], false)
    } else {
        let (out, cur, quoted) = tokenize_state(s.drop_last());
        let c = s.last();
        if c == '"' {
            (out, cur, !quoted)
        } else if !quoted && text::spec_is_whitespace(c) {
            if cur.len() > 0 {
                (out.push(cur), seq![], quoted)
            } else {
                (out, cur, quoted)
            }
        } else {
            (out, cur.push(c), quoted)
        }
    }
}

/// CMD-style tokens of `s`: split at white space outside double quotes;
/// the quote characters themselves are dropped; no token is empty.
pub open spec fn spec_tokenize(s: Seq<char>) -> Seq<Seq<char>> {
    let (out, cur, _) = tokenize_state(s);
    if cur.len() > 0 {
        out.push(cur)
    } else {
        out
    }
}

/// The tokens of `line`, by `spec_tokenize`.
pub fn tokenize_chars(line: &Vec<char>) -> (r: Vec<Vec<char>>)
    ensures
        r@.map_values(|t: Vec<char>| t@) == spec_tokenize(line@),
{
    let mut out: Vec<Vec<char>> = Vec::new();
    let mut cur: Vec<char> = Vec::new();
    let mut quoted = false;
    let mut i: usize = 0;
    while i < line.len()
        invariant
            i <= line.len(),
            (out@.map_values(|t: Vec<char>| t@), cur@, quoted) == tokenize_state(
                line@.take(i as int),
            ),
        decreases line.len() - i,
    {
        let ch = line[i];
        assert(line@.take(i + 1 as int).drop_last() == line@.take(i as int));
        if ch == '"' {
            quoted = !quoted;
        } else if !quoted && is_whitespace(ch) {
            if cur.len() > 0 {
                out.push(cur);
                cur = Vec::new();
            }
        } else {
            cur.push(ch);
        }
        i = i + 1;
        assert(out@.map_values(|t: Vec<char>| t@) == tokenize_state(line@.take(i as int)).0);
    }
    assert(line@.take(i as int) == line@);
    if cur.len() > 0 {
        out.push(cur);
    }
    assert(out@.map_values(|t: Vec<char>| t@) == spec_tokenize(line@));
    out
}

/// Very small CMD-style tokenizer: splits on white space, honours
/// double-quoted strings (keeping their content, dropping the quotes).
pub fn tokenize(line: &str) -> (r: Vec<String>)
    ensures
        r@.map_values(|t: String| t@) == spec_tokenize(line@),
{
    let chars = chars_of(line);
    let toks = tokenize_chars(&chars);
    strings_of(&toks)
}


/// Number of double-quote characters in `s`.
pub open spec fn quote_count(s: Seq<char>) -> nat
    decreases s.len(),
{
    if s.len() == 0 {
        0
    } else {
        quote_count(s.drop_last()) + if s.last() == '"' {
            1nat
        } else {
            0nat
        }
    }
}

/// The tokenizer keeps character `c` read after `prefix`: it is not a quote,
/// and it is not white space outside a quoted section.
pub open spec fn tokenizer_keeps(prefix: Seq<char>, c: char) -> bool {
    c != '"' && !(quote_count(prefix) % 2 == 0 && text::spec_is_whitespace(c))
}

/// The characters of `s` that the tokenizer keeps, in order.
pub open spec fn kept_chars(s: Seq<char>) -> Seq<char>
    decreases s.len(),
{
    if s.len() == 0 {
        seq![]
    } else if tokenizer_keeps(s.drop_last(), s.last()) {
        kept_chars(s.drop_last()).push(s.last())
    } else {
        kept_chars(s.drop_last())
    }
}

/// No element of `t` is a double quote.
pub open spec fn quote_free(t: Seq<char>) -> bool {
    forall|j: int| 0 <= j < t.len() ==> t[j] != '"'
}

proof fn lemma_tokenize_state(s: Seq<char>)
    ensures
        ({
            let (out, cur, quoted) = tokenize_state(s);
            &&& out.flatten() + cur == kept_chars(s)
            &&& quoted == (quote_count(s) % 2 == 1)
            &&& forall|i: int| 0 <= i < out.len() ==> #[trigger] out[i].len() > 0
            &&& forall|i: int| 0 <= i < out.len() ==> quote_free(#[trigger] out[i])
            &&& quote_free(cur)
        }),
    decreases s.len(),
{
    broadcast use Seq::lemma_flatten_push;

    if s.len() > 0 {
        lemma_tokenize_state(s.drop_last());
        let (out0, cur0, q0) = tokenize_state(s.drop_last());
        let (out, cur, q) = tokenize_state(s);
        let c = s.last();
        if c == '"' {
        } else if !q0 && text::spec_is_whitespace(c) {
            if cur0.len() > 0 {
                assert(out0.push(cur0).flatten() == out0.flatten() + cur0);
                assert(out.flatten() + cur =~= out0.flatten() + cur0);
            }
        } else {
            assert(out.flatten() + cur =~= (out0.flatten() + cur0).push(c));
        }
    }
}

/// Tokenizing loses exactly the quote characters and the white space
/// outside quotes: the tokens, put end to end, are the kept characters of
/// the line; no token is empty and none holds a double quote.
pub proof fn law_tokens_are_kept_chars(s: Seq<char>)
    ensures
        spec_tokenize(s).flatten() == kept_chars(s),
        forall|i: int| 0 <= i < spec_tokenize(s).len() ==> #[trigger] spec_tokenize(s)[i].len() > 0,
        forall|i: int| 0 <= i < spec_tokenize(s).len() ==> quote_free(#[trigger] spec_tokenize(s)[i]),
{
    broadcast use Seq::lemma_flatten_push;

    lemma_tokenize_state(s);
    let (out, cur, q) = tokenize_state(s);
    if cur.len() == 0 {
        assert(out.flatten() + cur =~= out.flatten());
    }
}


/// Joining of physical lines into logical lines after reading `ls`: the
/// finished logical lines and the pending text of a line continued with a
/// trailing `^`.
pub open spec fn stitch_state(ls: Seq<Seq<char>>) -> (Seq<Seq<char>>, Seq<char>)
    decreases ls.len(),
{
    if ls.len() == 0 {
        (seq![], seq![])
    } else {
        let (joined, buf) = stitch_state(ls.drop_last());
        let t = text::trim_line_end(ls.last());
        if t.len() > 0 && t.last() == '^' {
            (joined, buf + t.drop_last().push(' '))
        } else {
            (joined.push(buf + t), seq![])
        }
    }
}

/// The logical lines of a batch file: each physical line without trailing
/// `\r`, space and tab; a line ending in `^` continues on the next one, the
/// `^` replaced by a space.
pub open spec fn logical_lines(raw: Seq<char>) -> Seq<Seq<char>> {
    let (joined, buf) = stitch_state(text::lines(raw));
    if buf.len() > 0 {
        joined.push(buf)
    } else {
        joined
    }
}

/// The name of the executable that strategy files launch and that does the
/// DPI bypass.
pub open spec fn winws_name() -> Seq<char> {
    "winws.exe"@
}

/// `s`, in lower case, mentions `winws.exe`.
pub open spec fn mentions_winws(s: Seq<char>) -> bool {
    text::contains(text::lowercase(s), winws_name())
}

/// `l` is a `start "..." winws.exe ...` command: lower-cased and without
/// leading white space it begins with `start`, and it mentions `winws.exe`.
pub open spec fn is_launch_command(l: Seq<char>) -> bool {
    text::starts_with(text::lowercase(text::trim_start_ws(l)), "start"@) && mentions_winws(l)
}

/// The first line of `ls` that is a `start ... winws.exe` command.
pub open spec fn launch_line(ls: Seq<Seq<char>>) -> Option<Seq<char>>
    decreases ls.len(),
{
    if ls.len() == 0 {
        None
    } else if is_launch_command(ls[0]) {
        Some(ls[0])
    } else {
        launch_line(ls.drop_first())
    }
}

/// The tokens after the first token that mentions `winws.exe`, if any does.
pub open spec fn args_after_winws(ts: Seq<Seq<char>>) -> Option<Seq<Seq<char>>>
    decreases ts.len(),
{
    if ts.len() == 0 {
        None
    } else if mentions_winws(ts[0]) {
        Some(ts.drop_first())
    } else {
        args_after_winws(ts.drop_first())
    }
}

/// Error text when no line of the file mentions `winws.exe`.
pub open spec fn no_launch_message() -> Seq<char> {
    "В .bat нет команды запуска winws.exe"@
}

/// Error text when the launch line has no `winws.exe` token.
pub open spec fn no_winws_message() -> Seq<char> {
    "Не удалось найти winws.exe в команде запуска"@
}

/// The raw `winws.exe` arguments of a strategy file with contents `raw`,
/// before placeholders are substituted, or the error text.
pub open spec fn launch_args(raw: Seq<char>) -> Result<Seq<Seq<char>>, Seq<char>> {
    match launch_line(logical_lines(raw)) {
        None => Err(no_launch_message()),
        Some(l) => match args_after_winws(spec_tokenize(l)) {
            None => Err(no_winws_message()),
            Some(a) => Ok(a),
        },
    }
}

/// Port ranges `(TCP, UDP, generic)` for a game-filter mode: `all`, `tcp`
/// and `udp` open `1024-65535` where they apply; anything else (`off`)
/// uses port `12`, which no game traffic uses.
pub open spec fn game_filter_ports(mode: Seq<char>) -> (Seq<char>, Seq<char>, Seq<char>) {
    if mode == "all"@ {
        ("1024-65535"@, "1024-65535"@, "1024-65535"@)
    } else if mode == "tcp"@ {
        ("1024-65535"@, "12"@, "1024-65535"@)
    } else if mode == "udp"@ {
        ("12"@, "1024-65535"@, "1024-65535"@)
    } else {
        ("12"@, "12"@, "12"@)
    }
}

/// Game-filter values (TCP, UDP, generic) for `mode`.
pub fn game_filter_values(mode: &str) -> (r: (&'static str, &'static str, &'static str))
    ensures
        (r.0@, r.1@, r.2@) == game_filter_ports(mode@),
{
    let m = chars_of(mode);
    let all = "1024-65535";
    let none = "12";
    if text::eq_chars(&m, &chars_of("all")) {
        (all, all, all)
    } else if text::eq_chars(&m, &chars_of("tcp")) {
        (all, none, all)
    } else if text::eq_chars(&m, &chars_of("udp")) {
        (none, all, all)
    } else {
        (none, none, none)
    }
}

/// One `winws.exe` argument with `%BIN%`, `%LISTS%`, `%GameFilterTCP%`,
/// `%GameFilterUDP%` and `%GameFilter%` replaced, in that order.
pub open spec fn substitute(a: Seq<char>, bin: Seq<char>, lists: Seq<char>, mode: Seq<char>) -> Seq<
    char,
> {
    let (tcp, udp, gf) = game_filter_ports(mode);
    text::replace_all(
        text::replace_all(
            text::replace_all(
                text::replace_all(text::replace_all(a, "%BIN%"@, bin), "%LISTS%"@, lists),
                "%GameFilterTCP%"@,
                tcp,
            ),
            "%GameFilterUDP%"@,
            udp,
        ),
        "%GameFilter%"@,
        gf,
    )
}

/// All arguments substituted, with the ones that became empty left out.
pub open spec fn substitute_all(
    args: Seq<Seq<char>>,
    bin: Seq<char>,
    lists: Seq<char>,
    mode: Seq<char>,
) -> Seq<Seq<char>>
    decreases args.len(),
{
    if args.len() == 0 {
        seq![]
    } else {
        let rest = substitute_all(args.drop_last(), bin, lists, mode);
        let a = substitute(args.last(), bin, lists, mode);
        if a.len() > 0 {
            rest.push(a)
        } else {
            rest
        }
    }
}

/// Parsed `winws.exe` invocation extracted from a `general*.bat` file.
#[derive(Debug, Clone)]
pub struct ParsedStrategy {
    pub args: Vec<String>,
}

impl ParsedStrategy {
    /// The arguments as character sequences.
    pub open spec fn arg_seqs(&self) -> Seq<Seq<char>> {
        self.args@.map_values(|a: String| a@)
    }
}

/// Physical lines joined into logical lines.
fn stitch_lines(ls: &Vec<Vec<char>>) -> (r: Vec<Vec<char>>)
    ensures
        ({
            let (joined, buf) = stitch_state(ls@.map_values(|l: Vec<char>| l@));
            r@.map_values(|l: Vec<char>| l@) == if buf.len() > 0 {
                joined.push(buf)
            } else {
                joined
            }
        }),
{
    let ghost src = ls@.map_values(|l: Vec<char>| l@);
    let mut joined: Vec<Vec<char>> = Vec::new();
    let mut buf: Vec<char> = Vec::new();
    let mut i: usize = 0;
    while i < ls.len()
        invariant
            i <= ls.len(),
            src == ls@.map_values(|l: Vec<char>| l@),
            (joined@.map_values(|l: Vec<char>| l@), buf@) == stitch_state(src.take(i as int)),
        decreases ls.len() - i,
    {
        assert(src.take(i + 1 as int).drop_last() == src.take(i as int));
        assert(src.take(i + 1 as int).last() == ls@[i as int]@);
        let t = trim_line_end_chars(&ls[i]);
        let n = t.len();
        if n > 0 && t[n - 1] == '^' {
            let mut k: usize = 0;
            let ghost b0 = buf@;
            while k < n - 1
                invariant
                    n == t.len() > 0,
                    k <= n - 1,
                    buf@ == b0 + t@.take(k as int),
                decreases n - 1 - k,
            {
                buf.push(t[k]);
                k = k + 1;
                assert(t@.take(k as int) == t@.take(k - 1 as int).push(t@[k - 1]));
            }
            buf.push(' ');
            assert(t@.take(n - 1 as int) == t@.drop_last());
        } else {
            append_chars(&mut buf, &t);
            joined.push(buf);
            buf = Vec::new();
        }
        i = i + 1;
        assert(joined@.map_values(|l: Vec<char>| l@) =~= stitch_state(src.take(i as int)).0);
    }
    assert(src.take(i as int) == src);
    if buf.len() > 0 {
        joined.push(buf);
    }
    assert(joined@.map_values(|l: Vec<char>| l@) =~= (if stitch_state(src).1.len() > 0 {
        stitch_state(src).0.push(stitch_state(src).1)
    } else {
        stitch_state(src).0
    }));
    joined
}

/// Whether `l` is a `start ... winws.exe` command.
fn is_launch_command_chars(l: &Vec<char>) -> (r: bool)
    ensures
        r == is_launch_command(l@),
{
    let trimmed = trim_start_ws_chars(l);
    let lower = lowercase_chars(&trimmed);
    starts_with_chars(&lower, &chars_of("start")) && mentions_winws_chars(l)
}

/// Whether `s`, in lower case, mentions `winws.exe`.
fn mentions_winws_chars(s: &Vec<char>) -> (r: bool)
    ensures
        r == mentions_winws(s@),
{
    let lower = lowercase_chars(s);
    let pat = chars_of("winws.exe");
    contains_chars(&lower, &pat)
}

/// One argument with all placeholders substituted.
fn substitute_chars(a: &Vec<char>, bin: &Vec<char>, lists: &Vec<char>, mode: &str) -> (r: Vec<char>)
    ensures
        r@ == substitute(a@, bin@, lists@, mode@),
{
    let (tcp, udp, gf) = game_filter_values(mode);
    let p_bin = chars_of("%BIN%");
    let p_lists = chars_of("%LISTS%");
    let p_tcp = chars_of("%GameFilterTCP%");
    let p_udp = chars_of("%GameFilterUDP%");
    let p_gf = chars_of("%GameFilter%");
    proof {
        reveal_strlit("%BIN%");
        reveal_strlit("%LISTS%");
        reveal_strlit("%GameFilterTCP%");
        reveal_strlit("%GameFilterUDP%");
        reveal_strlit("%GameFilter%");
    }
    let s1 = replace_chars(a, &p_bin, bin);
    let s2 = replace_chars(&s1, &p_lists, lists);
    let s3 = replace_chars(&s2, &p_tcp, &chars_of(tcp));
    let s4 = replace_chars(&s3, &p_udp, &chars_of(udp));
    replace_chars(&s4, &p_gf, &chars_of(gf))
}

/// Parse the contents `raw` of a `general*.bat` file and produce the
/// argument list to pass to `winws.exe`, with `%BIN%` and `%LISTS%`
/// replaced by `bin_dir` and `lists_dir` and the `%GameFilter*%`
/// placeholders by the values of `game_filter_mode`.
pub fn parse_strategy_args(raw: &str, bin_dir: &str, lists_dir: &str, game_filter_mode: &str) -> (r:
    Result<ParsedStrategy, String>)
    ensures
        match launch_args(raw@) {
            Err(m) => r matches Err(e) && e@ == m,
            Ok(a) => r matches Ok(p) && p.arg_seqs() == substitute_all(
                a,
                bin_dir@,
                lists_dir@,
                game_filter_mode@,
            ),
        },
{
    let physical = split_lines(raw);
    let joined = stitch_lines(&physical);
    let ghost ls = joined@.map_values(|l: Vec<char>| l@);
    assert(ls == logical_lines(raw@));
    // Find the `start ... winws.exe` launch line.
    let mut i: usize = 0;
    assert(ls.skip(0) == ls);
    while i < joined.len() && !is_launch_command_chars(&joined[i])
        invariant
            i <= joined.len(),
            ls == joined@.map_values(|l: Vec<char>| l@),
            launch_line(ls) == launch_line(ls.skip(i as int)),
        decreases joined.len() - i,
    {
        assert(ls.skip(i as int).drop_first() == ls.skip(i + 1 as int));
        i = i + 1;
    }
    if i == joined.len() {
        assert(ls.skip(i as int).len() == 0);
        return Err("В .bat нет команды запуска winws.exe".to_owned());
    }
    let line = &joined[i];
    assert(launch_line(ls) == Some(line@));
    let tokens = tokenize_chars(line);
    let ghost ts = tokens@.map_values(|t: Vec<char>| t@);
    // Drop everything up to and including winws.exe.
    let mut j: usize = 0;
    assert(ts.skip(0) == ts);
    while j < tokens.len() && !mentions_winws_chars(&tokens[j])
        invariant
            j <= tokens.len(),
            ts == tokens@.map_values(|t: Vec<char>| t@),
            args_after_winws(ts) == args_after_winws(ts.skip(j as int)),
        decreases tokens.len() - j,
    {
        assert(ts.skip(j as int).drop_first() == ts.skip(j + 1 as int));
        j = j + 1;
    }
    if j == tokens.len() {
        assert(ts.skip(j as int).len() == 0);
        return Err("Не удалось найти winws.exe в команде запуска".to_owned());
    }
    let ghost args = ts.skip(j + 1 as int);
    assert(args_after_winws(ts) == Some(args)) by {
        assert(ts.skip(j as int).drop_first() == args);
    }
    // Substitute variables.
    let bin = chars_of(bin_dir);
    let lists = chars_of(lists_dir);
    let mut out: Vec<Vec<char>> = Vec::new();
    let mut k: usize = j + 1;
    while k < tokens.len()
        invariant
            j < k <= tokens.len(),
            ts == tokens@.map_values(|t: Vec<char>| t@),
            args == ts.skip(j + 1 as int),
            bin@ == bin_dir@,
            lists@ == lists_dir@,
            out@.map_values(|t: Vec<char>| t@) == substitute_all(
                args.take(k - j - 1),
                bin_dir@,
                lists_dir@,
                game_filter_mode@,
            ),
        decreases tokens.len() - k,
    {
        assert(args.take(k - j) .drop_last() == args.take(k - j - 1));
        assert(args.take(k - j).last() == tokens@[k as int]@);
        let a = substitute_chars(&tokens[k], &bin, &lists, game_filter_mode);
        if a.len() > 0 {
            out.push(a);
        }
        k = k + 1;
        assert(out@.map_values(|t: Vec<char>| t@) =~= substitute_all(
            args.take(k - j - 1),
            bin_dir@,
            lists_dir@,
            game_filter_mode@,
        ));
    }
    assert(args.take(k - j - 1) == args);
    Ok(ParsedStrategy { args: strings_of(&out) })
}


/// Resolve the path to a strategy `.bat` file inside `zapret_dir`.
pub fn resolve_strategy(zapret_dir: &str, file_name: &str) -> (r: String)
    ensures
        paths::joined(zapret_dir@, file_name@, r@),
{
    paths::path_join(zapret_dir, file_name)
}

/// `r` is what parsing the contents `raw` of a strategy file in
/// `zapret_dir` gives: the error of `launch_args`, or the launch arguments
/// substituted with the `bin` and `lists` folders of `zapret_dir` and the
/// game-filter values of `mode`.
pub open spec fn strategy_outcome(
    raw: Seq<char>,
    zapret_dir: Seq<char>,
    mode: Seq<char>,
    r: Result<ParsedStrategy, String>,
) -> bool {
    match launch_args(raw) {
        Err(m) => r matches Err(e) && e@ == m,
        Ok(a) => r matches Ok(p) && exists|bin: Seq<char>, lists: Seq<char>|
            #![trigger substitute_all(a, bin, lists, mode)]
            paths::sub_dir(zapret_dir, "bin"@, bin) && paths::sub_dir(zapret_dir, "lists"@, lists)
                && p.arg_seqs() == substitute_all(a, bin, lists, mode),
    }
}

/// Parse the contents `raw` of a `general*.bat` file in `zapret_dir` and
/// produce the argument list to pass to `winws.exe`, with `%BIN%` and
/// `%LISTS%` replaced by the `bin` and `lists` folders of `zapret_dir`
/// (with a trailing separator) and the `%GameFilter*%` placeholders by the
/// values of `game_filter_mode`. Returns an error if no
/// `start "..." winws.exe ...` command is found.
pub fn parse_strategy(raw: &str, zapret_dir: &str, game_filter_mode: &str) -> (r: Result<
    ParsedStrategy,
    String,
>)
    ensures
        strategy_outcome(raw@, zapret_dir@, game_filter_mode@, r),
{
    let bin = paths::sub_dir_path(zapret_dir, "bin");
    let lists = paths::sub_dir_path(zapret_dir, "lists");
    let r = parse_strategy_args(raw, bin.as_str(), lists.as_str(), game_filter_mode);
    proof {
        if let Ok(a) = launch_args(raw@) {
            assert(substitute_all(a, bin@, lists@, game_filter_mode@) == substitute_all(
                a,
                bin@,
                lists@,
                game_filter_mode@,
            ));
        }
    }
    r
}

/// Error text when the strategy file at `bat_path` could not be read, with
/// the reason `err`.
pub open spec fn read_failed_message(bat_path: Seq<char>, err: Seq<char>) -> Seq<char> {
    "Не удалось прочитать "@ + bat_path + ": "@ + err
}

/// Parse the strategy file at `bat_path`, given the outcome of reading it:
/// its contents, or the reason it could not be read. A failed read gives
/// `read_failed_message`; contents are parsed as by `parse_strategy`.
pub fn parse_strategy_file(
    read: Result<String, String>,
    bat_path: &str,
    zapret_dir: &str,
    game_filter_mode: &str,
) -> (r: Result<ParsedStrategy, String>)
    ensures
        match read {
            Err(err) => r matches Err(e) && e@ == read_failed_message(bat_path@, err@),
            Ok(raw) => strategy_outcome(raw@, zapret_dir@, game_filter_mode@, r),
        },
{
    match read {
        Ok(raw) => parse_strategy(raw.as_str(), zapret_dir, game_filter_mode),
        Err(err) => {
            let mut m = chars_of("Не удалось прочитать ");
            append_chars(&mut m, &chars_of(bat_path));
            append_chars(&mut m, &chars_of(": "));
            append_chars(&mut m, &chars_of(err.as_str()));
            Err(string_of(&m))
        },
    }
}

/// Every argument that parsing yields is non-empty.
pub proof fn law_substituted_args_nonempty(
    args: Seq<Seq<char>>,
    bin: Seq<char>,
    lists: Seq<char>,
    mode: Seq<char>,
)
    ensures
        forall|i: int|
            0 <= i < substitute_all(args, bin, lists, mode).len() ==> #[trigger] substitute_all(
                args,
                bin,
                lists,
                mode,
            )[i].len() > 0,
    decreases args.len(),
{
    if args.len() > 0 {
        law_substituted_args_nonempty(args.drop_last(), bin, lists, mode);
        let rest = substitute_all(args.drop_last(), bin, lists, mode);
        let all = substitute_all(args, bin, lists, mode);
        assert forall|i: int| 0 <= i < all.len() implies #[trigger] all[i].len() > 0 by {
            if i < rest.len() {
                assert(all[i] == rest[i]);
            }
        }
    }
}

/// Replacing a pattern whose first character does not occur in `s` leaves
/// `s` unchanged.
proof fn lemma_replace_absent(s: Seq<char>, from: Seq<char>, to: Seq<char>)
    requires
        from.len() > 0,
        !s.contains(from[0]),
    ensures
        text::replace_all(s, from, to) == s,
    decreases s.len(),
{
    if s.len() >= from.len() {
        assert(s.take(from.len() as int)[0] == s[0]);
        assert(s.skip(1).len() < s.len());
        assert forall|c: char| s.skip(1).contains(c) implies s.contains(c) by {
            let k = choose|k: int| 0 <= k < s.skip(1).len() && s.skip(1)[k] == c;
            assert(s[k + 1] == c);
        }
        lemma_replace_absent(s.skip(1), from, to);
        assert(seq![s[0]] + s.skip(1) =~= s);
    }
}

/// An argument without `%` passes substitution unchanged: only the
/// `%…%` placeholders are ever replaced.
pub proof fn law_plain_arg_unchanged(a: Seq<char>, bin: Seq<char>, lists: Seq<char>, mode: Seq<char>)
    requires
        !a.contains('%'),
    ensures
        substitute(a, bin, lists, mode) == a,
{
    reveal_strlit("%BIN%");
    reveal_strlit("%LISTS%");
    reveal_strlit("%GameFilterTCP%");
    reveal_strlit("%GameFilterUDP%");
    reveal_strlit("%GameFilter%");
    lemma_replace_absent(a, "%BIN%"@, bin);
    lemma_replace_absent(a, "%LISTS%"@, lists);
    let (tcp, udp, gf) = game_filter_ports(mode);
    lemma_replace_absent(a, "%GameFilterTCP%"@, tcp);
    lemma_replace_absent(a, "%GameFilterUDP%"@, udp);
    lemma_replace_absent(a, "%GameFilter%"@, gf);
}


/// A game-filter mode other than `all`, `tcp` and `udp` substitutes every
/// argument exactly as `off` does (the contents of the file do not depend on
/// the mode, so such a mode parses like `off`).
pub proof fn law_unknown_mode_is_off(
    args: Seq<Seq<char>>,
    bin: Seq<char>,
    lists: Seq<char>,
    mode: Seq<char>,
)
    requires
        mode != "all"@,
        mode != "tcp"@,
        mode != "udp"@,
    ensures
        substitute_all(args, bin, lists, mode) == substitute_all(args, bin, lists, "off"@),
    decreases args.len(),
{
    reveal_strlit("off");
    reveal_strlit("all");
    reveal_strlit("tcp");
    reveal_strlit("udp");
    assert("off"@ != "all"@ && "off"@ != "tcp"@ && "off"@ != "udp"@) by {
        assert("off"@[0] != "all"@[0] && "off"@[0] != "tcp"@[0] && "off"@[0] != "udp"@[0]);
    }
    assert(game_filter_ports(mode) == game_filter_ports("off"@));
    if args.len() > 0 {
        law_unknown_mode_is_off(args.drop_last(), bin, lists, mode);
        assert(substitute(args.last(), bin, lists, mode) == substitute(
            args.last(),
            bin,
            lists,
            "off"@,
        ));
    }
}

/// The placeholders, in the order in which they are replaced.
pub open spec fn placeholders() -> Seq<Seq<char>> {
    seq!["%BIN%"@, "%LISTS%"@, "%GameFilterTCP%"@, "%GameFilterUDP%"@, "%GameFilter%"@]
}

/// The value that placeholder `k` of `placeholders()` stands for.
pub open spec fn placeholder_value(k: int, bin: Seq<char>, lists: Seq<char>, mode: Seq<char>) -> Seq<
    char,
> {
    let (tcp, udp, gf) = game_filter_ports(mode);
    if k == 0 {
        bin
    } else if k == 1 {
        lists
    } else if k == 2 {
        tcp
    } else if k == 3 {
        udp
    } else {
        gf
    }
}

/// `p` is a word between two `%`, with no `%` inside.
pub open spec fn percent_word(p: Seq<char>) -> bool {
    &&& p.len() >= 2
    &&& p[0] == '%'
    &&& p.last() == '%'
    &&& forall|i: int| 0 < i < p.len() - 1 ==> p[i] != '%'
}

/// Text without the pattern's first character in front does not change
/// where the pattern is found.
proof fn lemma_replace_after_plain(x: Seq<char>, s: Seq<char>, from: Seq<char>, to: Seq<char>)
    requires
        from.len() > 0,
        !x.contains(from[0]),
    ensures
        text::replace_all(x + s, from, to) == x + text::replace_all(s, from, to),
    decreases x.len(),
{
    if x.len() > 0 {
        let t = x + s;
        if t.len() >= from.len() {
            assert(t.take(from.len() as int)[0] == x[0]);
            assert(t.skip(1) == x.skip(1) + s);
            assert forall|c: char| x.skip(1).contains(c) implies x.contains(c) by {
                let k = choose|k: int| 0 <= k < x.skip(1).len() && x.skip(1)[k] == c;
                assert(x[k + 1] == c);
            }
            lemma_replace_after_plain(x.skip(1), s, from, to);
            assert(seq![x[0]] + (x.skip(1) + text::replace_all(s, from, to)) == x
                + text::replace_all(s, from, to));
        } else {
            assert(s.len() < from.len());
        }
    } else {
        assert(x + s == s);
    }
}

/// A `%` followed by `%`-free text holds no `%`-word.
proof fn lemma_percent_then_plain(y: Seq<char>, from: Seq<char>, to: Seq<char>)
    requires
        percent_word(from),
        !y.contains('%'),
    ensures
        text::replace_all(seq!['%'] + y, from, to) == seq!['%'] + y,
{
    let t = seq!['%'] + y;
    if t.len() >= from.len() {
        let n = from.len() as int;
        assert(t.take(n)[n - 1] == y[n - 2]);
        assert(t.take(n) != from);
        assert(t.skip(1) == y);
        lemma_replace_absent(y, from, to);
    }
}

/// Another `%`-word passes a replacement untouched, with `%`-free text
/// after it.
proof fn lemma_other_word(p: Seq<char>, y: Seq<char>, from: Seq<char>, to: Seq<char>)
    requires
        percent_word(p),
        percent_word(from),
        p != from,
        !y.contains('%'),
    ensures
        text::replace_all(p + y, from, to) == p + y,
{
    let t = p + y;
    let n = from.len() as int;
    let m = p.len() as int;
    if t.len() >= n {
        if n < m {
            assert(t.take(n)[n - 1] == p[n - 1]);
        } else if n == m {
            assert(t.take(n) == p);
        } else {
            assert(t.take(n)[m - 1] == p[m - 1]);
        }
        assert(t.take(n) != from);
        let w = p.subrange(1, m - 1);
        assert(!w.contains('%')) by {
            if w.contains('%') {
                let i = choose|i: int| 0 <= i < w.len() && w[i] == '%';
                assert(p[i + 1] == '%');
            }
        }
        assert(t.skip(1) == w + (seq!['%'] + y));
        lemma_replace_after_plain(w, seq!['%'] + y, from, to);
        lemma_percent_then_plain(y, from, to);
        assert(seq![t[0]] + (w + (seq!['%'] + y)) == t);
    }
}

proof fn lemma_placeholders_are_words()
    ensures
        forall|k: int| 0 <= k < 5 ==> percent_word(#[trigger] placeholders()[k]),
        forall|a: int, b: int|
            0 <= a < 5 && 0 <= b < 5 && a != b ==> #[trigger] placeholders()[a]
                != #[trigger] placeholders()[b],
{
    reveal_strlit("%BIN%");
    reveal_strlit("%LISTS%");
    reveal_strlit("%GameFilterTCP%");
    reveal_strlit("%GameFilterUDP%");
    reveal_strlit("%GameFilter%");
    let ps = placeholders();
    assert(percent_word(ps[0]));
    assert(percent_word(ps[1]));
    assert(percent_word(ps[2]));
    assert(percent_word(ps[3]));
    assert(percent_word(ps[4]));
    assert(ps[0][1] != ps[1][1] && ps[0][1] != ps[2][1] && ps[1][1] != ps[2][1]);
    assert(ps[2].len() == ps[3].len() && ps[2][11] != ps[3][11]);
    assert(ps[4].len() != ps[2].len() && ps[4].len() != ps[3].len());
    assert(ps[4][1] != ps[0][1] && ps[4][1] != ps[1][1]);
}

/// The text before the placeholder `j` is replaced, when `x`, placeholder
/// `k` and `y` were substituted in order.
spec fn stage(
    x: Seq<char>,
    y: Seq<char>,
    k: int,
    j: int,
    bin: Seq<char>,
    lists: Seq<char>,
    mode: Seq<char>,
) -> Seq<char> {
    if j <= k {
        x + placeholders()[k] + y
    } else {
        x + placeholder_value(k, bin, lists, mode) + y
    }
}

proof fn lemma_stage_step(
    x: Seq<char>,
    y: Seq<char>,
    k: int,
    j: int,
    bin: Seq<char>,
    lists: Seq<char>,
    mode: Seq<char>,
)
    requires
        0 <= k < 5,
        0 <= j < 5,
        !x.contains('%'),
        !y.contains('%'),
        !placeholder_value(k, bin, lists, mode).contains('%'),
    ensures
        text::replace_all(
            stage(x, y, k, j, bin, lists, mode),
            placeholders()[j],
            placeholder_value(j, bin, lists, mode),
        ) == stage(x, y, k, j + 1, bin, lists, mode),
{
    lemma_placeholders_are_words();
    let p = placeholders()[k];
    let from = placeholders()[j];
    let to = placeholder_value(j, bin, lists, mode);
    assert(percent_word(p) && percent_word(from));
    if j < k {
        assert(x + p + y == x + (p + y));
        lemma_replace_after_plain(x, p + y, from, to);
        lemma_other_word(p, y, from, to);
    } else if j == k {
        assert(x + p + y == x + (p + y));
        lemma_replace_after_plain(x, p + y, from, to);
        let t = p + y;
        assert(t.take(p.len() as int) == p);
        assert(t.skip(p.len() as int) == y);
        lemma_replace_absent(y, from, to);
        assert(x + (to + y) == x + to + y);
    } else {
        let v = placeholder_value(k, bin, lists, mode);
        let s = x + v + y;
        assert(!s.contains('%')) by {
            if s.contains('%') {
                let i = choose|i: int| 0 <= i < s.len() && s[i] == '%';
                if i < x.len() {
                    assert(x[i] == '%');
                } else if i < x.len() + v.len() {
                    assert(v[i - x.len()] == '%');
                } else {
                    assert(y[i - x.len() - v.len()] == '%');
                }
            }
        }
        lemma_replace_absent(s, from, to);
    }
}

/// An argument holding one placeholder between `%`-free text comes out
/// with that placeholder replaced by its value and nothing else changed,
/// when the `bin` and `lists` folders hold no `%`; no `%` is left in it.
pub proof fn law_placeholder_replaced(
    x: Seq<char>,
    y: Seq<char>,
    k: int,
    bin: Seq<char>,
    lists: Seq<char>,
    mode: Seq<char>,
)
    requires
        0 <= k < 5,
        !x.contains('%'),
        !y.contains('%'),
        !bin.contains('%'),
        !lists.contains('%'),
    ensures
        substitute(x + placeholders()[k] + y, bin, lists, mode) == x + placeholder_value(
            k,
            bin,
            lists,
            mode,
        ) + y,
        !substitute(x + placeholders()[k] + y, bin, lists, mode).contains('%'),
{
    reveal_strlit("12");
    reveal_strlit("1024-65535");
    let v = placeholder_value(k, bin, lists, mode);
    assert(!v.contains('%')) by {
        if v.contains('%') {
            let i = choose|i: int| 0 <= i < v.len() && v[i] == '%';
            assert(v[i] == '%');
        }
    }
    lemma_stage_step(x, y, k, 0, bin, lists, mode);
    lemma_stage_step(x, y, k, 1, bin, lists, mode);
    lemma_stage_step(x, y, k, 2, bin, lists, mode);
    lemma_stage_step(x, y, k, 3, bin, lists, mode);
    lemma_stage_step(x, y, k, 4, bin, lists, mode);
    let s = x + v + y;
    assert(!s.contains('%')) by {
        if s.contains('%') {
            let i = choose|i: int| 0 <= i < s.len() && s[i] == '%';
            if i < x.len() {
                assert(x[i] == '%');
            } else if i < x.len() + v.len() {
                assert(v[i - x.len()] == '%');
            } else {
                assert(y[i - x.len() - v.len()] == '%');
            }
        }
    }
}

/// A character that can occur in a placeholder: `%` or an ASCII letter.
pub open spec fn word_char(c: char) -> bool {
    c == '%' || ('a' <= c && c <= 'z') || ('A' <= c && c <= 'Z')
}

proof fn lemma_placeholder_chars()
    ensures
        forall|k: int, i: int|
            0 <= k < 5 && 0 <= i < placeholders()[k].len() ==> word_char(
                #[trigger] placeholders()[k][i],
            ),
{
    reveal_strlit("%BIN%");
    reveal_strlit("%LISTS%");
    reveal_strlit("%GameFilterTCP%");
    reveal_strlit("%GameFilterUDP%");
    reveal_strlit("%GameFilter%");
    let ps = placeholders();
    assert(forall|i: int| 0 <= i < ps[0].len() ==> word_char(#[trigger] ps[0][i]));
    assert(forall|i: int| 0 <= i < ps[1].len() ==> word_char(#[trigger] ps[1][i]));
    assert(forall|i: int| 0 <= i < ps[2].len() ==> word_char(#[trigger] ps[2][i]));
    assert(forall|i: int| 0 <= i < ps[3].len() ==> word_char(#[trigger] ps[3][i]));
    assert(forall|i: int| 0 <= i < ps[4].len() ==> word_char(#[trigger] ps[4][i]));
}

/// If the result of a replacement starts with `u`, which ends with `%` and
/// lacks a character `c` of the replacement text `to` (itself free of
/// `%`), then the text before the replacement starts with `u` too.
proof fn lemma_prefix_before_replace(
    t: Seq<char>,
    u: Seq<char>,
    from: Seq<char>,
    to: Seq<char>,
    c: char,
)
    requires
        from.len() > 0,
        !to.contains('%'),
        to.contains(c),
        !u.contains(c),
        u.len() > 0,
        u.last() == '%',
        text::starts_with(text::replace_all(t, from, to), u),
    ensures
        text::starts_with(t, u),
    decreases t.len(),
{
    let r = text::replace_all(t, from, to);
    let n = from.len() as int;
    let m = u.len() as int;
    if t.len() < n {
    } else if t.take(n) == from {
        let rest = text::replace_all(t.skip(n), from, to);
        assert(r == to + rest);
        if m <= to.len() {
            assert(r.take(m)[m - 1] == to[m - 1]);
            assert(false);
        } else {
            let idx = choose|idx: int| 0 <= idx < to.len() && to[idx] == c;
            assert(r.take(m)[idx] == to[idx]);
            assert(u[idx] == c);
            assert(false);
        }
    } else {
        let rest = text::replace_all(t.skip(1), from, to);
        assert(r == seq![t[0]] + rest);
        assert(u[0] == r.take(m)[0]);
        if m > 1 {
            let u1 = u.skip(1);
            assert(!u1.contains(c)) by {
                if u1.contains(c) {
                    let k = choose|k: int| 0 <= k < u1.len() && u1[k] == c;
                    assert(u[k + 1] == c);
                }
            }
            assert(rest.take(m - 1) =~= r.take(m).skip(1));
            lemma_prefix_before_replace(t.skip(1), u1, from, to, c);
            assert(t.take(m) =~= seq![t[0]] + t.skip(1).take(m - 1));
            assert(u =~= seq![u[0]] + u1);
        } else {
            assert(t.take(m) =~= seq![t[0]]);
            assert(u =~= seq![u[0]]);
        }
    }
}

/// An occurrence of a `%`-word in the text after `s.skip(d)` is one in `s`.
proof fn lemma_contains_suffix(s: Seq<char>, d: int, q: Seq<char>)
    requires
        0 <= d <= s.len(),
        text::contains(s.skip(d), q),
    ensures
        text::contains(s, q),
{
    let i = choose|i: int| text::occurs_at(s.skip(d), q, i);
    assert(s.subrange(i + d, i + d + q.len()) =~= s.skip(d).subrange(i, i + q.len()));
    assert(text::occurs_at(s, q, i + d));
}

/// A replacement by text that holds no `%` and a character foreign to the
/// `%`-word `q` creates no occurrence of `q`.
proof fn lemma_replace_creates_no_word(
    s: Seq<char>,
    q: Seq<char>,
    from: Seq<char>,
    to: Seq<char>,
    c: char,
)
    requires
        from.len() > 0,
        !to.contains('%'),
        to.contains(c),
        !q.contains(c),
        q.len() >= 2,
        q[0] == '%',
        q.last() == '%',
        !text::contains(s, q),
    ensures
        !text::contains(text::replace_all(s, from, to), q),
    decreases s.len(),
{
    let r = text::replace_all(s, from, to);
    let n = from.len() as int;
    let m = q.len() as int;
    if text::contains(r, q) {
        let i = choose|i: int| text::occurs_at(r, q, i);
        if s.len() < n {
            assert(r == s);
        } else if s.take(n) == from {
            let rest = text::replace_all(s.skip(n), from, to);
            assert(r == to + rest);
            if !text::contains(s.skip(n), q) {
                lemma_replace_creates_no_word(s.skip(n), q, from, to, c);
            } else {
                lemma_contains_suffix(s, n, q);
            }
            if i < to.len() {
                assert(r.subrange(i, i + m)[0] == to[i]);
            } else {
                assert(rest.subrange(i - to.len(), i - to.len() + m) =~= r.subrange(i, i + m));
                assert(text::occurs_at(rest, q, i - to.len()));
            }
        } else {
            let rest = text::replace_all(s.skip(1), from, to);
            assert(r == seq![s[0]] + rest);
            if !text::contains(s.skip(1), q) {
                lemma_replace_creates_no_word(s.skip(1), q, from, to, c);
            } else {
                lemma_contains_suffix(s, 1, q);
            }
            if i >= 1 {
                assert(rest.subrange(i - 1, i - 1 + m) =~= r.subrange(i, i + m));
                assert(text::occurs_at(rest, q, i - 1));
            } else {
                let u = q.skip(1);
                assert(!u.contains(c)) by {
                    if u.contains(c) {
                        let k = choose|k: int| 0 <= k < u.len() && u[k] == c;
                        assert(q[k + 1] == c);
                    }
                }
                assert(rest.take(m - 1) =~= r.subrange(0, m).skip(1));
                lemma_prefix_before_replace(s.skip(1), u, from, to, c);
                assert(s.subrange(0, m) =~= seq![s[0]] + s.skip(1).take(m - 1));
                assert(q =~= seq![q[0]] + u);
                assert(text::occurs_at(s, q, 0));
            }
        }
    }
}

/// After replacing the `%`-word `from` by text that holds no `%` and a
/// character foreign to `from`, `from` no longer occurs.
proof fn lemma_replace_removes_word(s: Seq<char>, from: Seq<char>, to: Seq<char>, c: char)
    requires
        !to.contains('%'),
        to.contains(c),
        !from.contains(c),
        from.len() >= 2,
        from[0] == '%',
        from.last() == '%',
    ensures
        !text::contains(text::replace_all(s, from, to), from),
    decreases s.len(),
{
    let r = text::replace_all(s, from, to);
    let n = from.len() as int;
    if text::contains(r, from) {
        let i = choose|i: int| text::occurs_at(r, from, i);
        if s.len() < n {
            assert(r == s);
        } else if s.take(n) == from {
            let rest = text::replace_all(s.skip(n), from, to);
            assert(r == to + rest);
            lemma_replace_removes_word(s.skip(n), from, to, c);
            if i < to.len() {
                assert(r.subrange(i, i + n)[0] == to[i]);
            } else {
                assert(rest.subrange(i - to.len(), i - to.len() + n) =~= r.subrange(i, i + n));
                assert(text::occurs_at(rest, from, i - to.len()));
            }
        } else {
            let rest = text::replace_all(s.skip(1), from, to);
            assert(r == seq![s[0]] + rest);
            lemma_replace_removes_word(s.skip(1), from, to, c);
            if i >= 1 {
                assert(rest.subrange(i - 1, i - 1 + n) =~= r.subrange(i, i + n));
                assert(text::occurs_at(rest, from, i - 1));
            } else {
                let u = from.skip(1);
                assert(!u.contains(c)) by {
                    if u.contains(c) {
                        let k = choose|k: int| 0 <= k < u.len() && u[k] == c;
                        assert(from[k + 1] == c);
                    }
                }
                assert(rest.take(n - 1) =~= r.subrange(0, n).skip(1));
                lemma_prefix_before_replace(s.skip(1), u, from, to, c);
                assert(s.take(n) =~= seq![s[0]] + s.skip(1).take(n - 1));
                assert(from =~= seq![from[0]] + u);
            }
        }
    }
}

/// `a` with the first `j` placeholders replaced, in order.
spec fn replaced_upto(a: Seq<char>, j: nat, bin: Seq<char>, lists: Seq<char>, mode: Seq<char>) -> Seq<
    char,
>
    decreases j,
{
    if j == 0 {
        a
    } else {
        text::replace_all(
            replaced_upto(a, (j - 1) as nat, bin, lists, mode),
            placeholders()[j - 1],
            placeholder_value(j - 1, bin, lists, mode),
        )
    }
}

/// Each placeholder value holds no `%` and a character that no placeholder
/// holds.
proof fn lemma_values_foreign(j: int, bin: Seq<char>, lists: Seq<char>, mode: Seq<char>) -> (c:
    char)
    requires
        0 <= j < 5,
        !bin.contains('%'),
        !lists.contains('%'),
        bin.len() > 0,
        paths::is_sep(bin.last()),
        lists.len() > 0,
        paths::is_sep(lists.last()),
    ensures
        !placeholder_value(j, bin, lists, mode).contains('%'),
        placeholder_value(j, bin, lists, mode).contains(c),
        !word_char(c),
{
    reveal_strlit("12");
    reveal_strlit("1024-65535");
    let v = placeholder_value(j, bin, lists, mode);
    assert(!v.contains('%')) by {
        if v.contains('%') {
            let i = choose|i: int| 0 <= i < v.len() && v[i] == '%';
            assert(v[i] == '%');
        }
    }
    if j == 0 {
        assert(bin[bin.len() - 1] == bin.last());
        bin.last()
    } else if j == 1 {
        assert(lists[lists.len() - 1] == lists.last());
        lists.last()
    } else {
        assert(v[0] == '1');
        '1'
    }
}

/// No placeholder is left in an argument after substitution, whatever the
/// argument holds, when the `bin` and `lists` values hold no `%` and end
/// with a separator.
pub proof fn law_no_placeholder_left(
    a: Seq<char>,
    bin: Seq<char>,
    lists: Seq<char>,
    mode: Seq<char>,
)
    requires
        !bin.contains('%'),
        !lists.contains('%'),
        bin.len() > 0,
        paths::is_sep(bin.last()),
        lists.len() > 0,
        paths::is_sep(lists.last()),
    ensures
        forall|k: int|
            0 <= k < 5 ==> !text::contains(
                substitute(a, bin, lists, mode),
                #[trigger] placeholders()[k],
            ),
{
    lemma_placeholders_are_words();
    lemma_placeholder_chars();
    reveal_with_fuel(replaced_upto, 6);
    assert(substitute(a, bin, lists, mode) == replaced_upto(a, 5, bin, lists, mode));
    assert forall|k: int| 0 <= k < 5 implies !text::contains(
        substitute(a, bin, lists, mode),
        #[trigger] placeholders()[k],
    ) by {
        let q = placeholders()[k];
        assert(percent_word(q));
        let c = lemma_values_foreign(k, bin, lists, mode);
        assert(!q.contains(c)) by {
            if q.contains(c) {
                let i = choose|i: int| 0 <= i < q.len() && q[i] == c;
                assert(word_char(q[i]));
            }
        }
        lemma_replace_removes_word(
            replaced_upto(a, k as nat, bin, lists, mode),
            q,
            placeholder_value(k, bin, lists, mode),
            c,
        );
        lemma_word_stays_gone(a, k, k + 1, bin, lists, mode);
    }
}

/// Once placeholder `k` is gone, the later replacements do not bring it
/// back.
proof fn lemma_word_stays_gone(
    a: Seq<char>,
    k: int,
    j: int,
    bin: Seq<char>,
    lists: Seq<char>,
    mode: Seq<char>,
)
    requires
        0 <= k < j <= 5,
        !bin.contains('%'),
        !lists.contains('%'),
        bin.len() > 0,
        paths::is_sep(bin.last()),
        lists.len() > 0,
        paths::is_sep(lists.last()),
        !text::contains(replaced_upto(a, j as nat, bin, lists, mode), placeholders()[k]),
    ensures
        !text::contains(replaced_upto(a, 5, bin, lists, mode), placeholders()[k]),
    decreases 5 - j,
{
    if j < 5 {
        lemma_placeholders_are_words();
        lemma_placeholder_chars();
        let q = placeholders()[k];
        assert(percent_word(q));
        let cj = lemma_values_foreign(j, bin, lists, mode);
        assert(!q.contains(cj)) by {
            if q.contains(cj) {
                let i = choose|i: int| 0 <= i < q.len() && q[i] == cj;
                assert(word_char(q[i]));
            }
        }
        assert(percent_word(placeholders()[j]));
        lemma_replace_creates_no_word(
            replaced_upto(a, j as nat, bin, lists, mode),
            q,
            placeholders()[j],
            placeholder_value(j, bin, lists, mode),
            cj,
        );
        lemma_word_stays_gone(a, k, j + 1, bin, lists, mode);
    }
}

/// A lone placeholder `k` (for the game filter, `k >= 2`) is replaced by its
/// value, whatever the `bin` and `lists` folders hold.
proof fn lemma_lone_game_filter_placeholder(
    k: int,
    bin: Seq<char>,
    lists: Seq<char>,
    mode: Seq<char>,
)
    requires
        2 <= k < 5,
    ensures
        substitute(placeholders()[k], bin, lists, mode) == placeholder_value(k, bin, lists, mode),
{
    reveal_strlit("12");
    reveal_strlit("1024-65535");
    let e = Seq::<char>::empty();
    let v = placeholder_value(k, bin, lists, mode);
    assert(!v.contains('%')) by {
        if v.contains('%') {
            let i = choose|i: int| 0 <= i < v.len() && v[i] == '%';
            assert(v[i] == '%');
        }
    }
    assert(!e.contains('%'));
    lemma_stage_step(e, e, k, 0, bin, lists, mode);
    lemma_stage_step(e, e, k, 1, bin, lists, mode);
    lemma_stage_step(e, e, k, 2, bin, lists, mode);
    lemma_stage_step(e, e, k, 3, bin, lists, mode);
    lemma_stage_step(e, e, k, 4, bin, lists, mode);
    assert(e + placeholders()[k] + e == placeholders()[k]);
    assert(e + v + e == v);
}

/// The game-filter placeholders take the ports of the mode, whatever the
/// `bin` and `lists` folders hold: `%GameFilterTCP%` the TCP ports,
/// `%GameFilterUDP%` the UDP ports and `%GameFilter%` the generic ones.
/// `1024-65535` opens the game ports where the mode turns them on (`all`
/// for both protocols, `tcp` for TCP, `udp` for UDP, any of the three for
/// the generic one), and `12` keeps them closed otherwise.
pub proof fn law_game_filter_placeholders(bin: Seq<char>, lists: Seq<char>, mode: Seq<char>)
    ensures
        substitute("%GameFilterTCP%"@, bin, lists, mode) == game_filter_ports(mode).0,
        substitute("%GameFilterUDP%"@, bin, lists, mode) == game_filter_ports(mode).1,
        substitute("%GameFilter%"@, bin, lists, mode) == game_filter_ports(mode).2,
        substitute("%GameFilterTCP%"@, bin, lists, mode) == if mode == "all"@ || mode == "tcp"@ {
            "1024-65535"@
        } else {
            "12"@
        },
        substitute("%GameFilterUDP%"@, bin, lists, mode) == if mode == "all"@ || mode == "udp"@ {
            "1024-65535"@
        } else {
            "12"@
        },
        substitute("%GameFilter%"@, bin, lists, mode) == if mode == "all"@ || mode == "tcp"@
            || mode == "udp"@ {
            "1024-65535"@
        } else {
            "12"@
        },
{
    lemma_lone_game_filter_placeholder(2, bin, lists, mode);
    lemma_lone_game_filter_placeholder(3, bin, lists, mode);
    lemma_lone_game_filter_placeholder(4, bin, lists, mode);
    reveal_strlit("all");
    reveal_strlit("tcp");
    reveal_strlit("udp");
    assert("tcp"@ != "all"@ && "udp"@ != "all"@ && "udp"@ != "tcp"@) by {
        assert("tcp"@[0] != "all"@[0] && "udp"@[0] != "all"@[0] && "udp"@[0] != "tcp"@[0]);
    }
}

/// `%BIN%` becomes the `bin` folder and `%LISTS%` the `lists` folder, when
/// neither folder holds `%`.
pub proof fn law_folder_placeholders(bin: Seq<char>, lists: Seq<char>, mode: Seq<char>)
    requires
        !bin.contains('%'),
        !lists.contains('%'),
    ensures
        substitute("%BIN%"@, bin, lists, mode) == bin,
        substitute("%LISTS%"@, bin, lists, mode) == lists,
{
    let e = Seq::<char>::empty();
    law_placeholder_replaced(e, e, 0, bin, lists, mode);
    law_placeholder_replaced(e, e, 1, bin, lists, mode);
    assert(e + placeholders()[0] + e == "%BIN%"@);
    assert(e + placeholders()[1] + e == "%LISTS%"@);
    assert(e + bin + e == bin);
    assert(e + lists + e == lists);
}

/// For a zapret folder without `%`, no argument that parsing yields holds a
/// placeholder: the `bin` and `lists` folders substituted are free of `%`
/// and end with a separator.
pub proof fn law_parsed_args_have_no_placeholder(
    zapret_dir: Seq<char>,
    bin: Seq<char>,
    lists: Seq<char>,
    args: Seq<Seq<char>>,
    mode: Seq<char>,
)
    requires
        paths::sub_dir(zapret_dir, "bin"@, bin),
        paths::sub_dir(zapret_dir, "lists"@, lists),
        !zapret_dir.contains('%'),
    ensures
        forall|i: int, k: int|
            0 <= i < substitute_all(args, bin, lists, mode).len() && 0 <= k < 5
                ==> !text::contains(
                #[trigger] substitute_all(args, bin, lists, mode)[i],
                #[trigger] placeholders()[k],
            ),
    decreases args.len(),
{
    reveal_strlit("bin");
    reveal_strlit("lists");
    assert(!"bin"@.contains('%')) by {
        if "bin"@.contains('%') {
            let i = choose|i: int| 0 <= i < "bin"@.len() && "bin"@[i] == '%';
            assert("bin"@[i] == '%');
        }
    }
    assert(!"lists"@.contains('%')) by {
        if "lists"@.contains('%') {
            let i = choose|i: int| 0 <= i < "lists"@.len() && "lists"@[i] == '%';
            assert("lists"@[i] == '%');
        }
    }
    paths::law_sub_dir_adds_only_separators(zapret_dir, "bin"@, bin, '%');
    paths::law_sub_dir_adds_only_separators(zapret_dir, "lists"@, lists, '%');
    paths::law_sub_dir_ends_with_sep(zapret_dir, "bin"@, bin);
    paths::law_sub_dir_ends_with_sep(zapret_dir, "lists"@, lists);
    if args.len() > 0 {
        law_parsed_args_have_no_placeholder(zapret_dir, bin, lists, args.drop_last(), mode);
        law_no_placeholder_left(args.last(), bin, lists, mode);
        let rest = substitute_all(args.drop_last(), bin, lists, mode);
        let all = substitute_all(args, bin, lists, mode);
        assert forall|i: int, k: int| 0 <= i < all.len() && 0 <= k < 5 implies !text::contains(
            #[trigger] all[i],
            #[trigger] placeholders()[k],
        ) by {
            if i < rest.len() {
                assert(all[i] == rest[i]);
            }
        }
    }
}

/// For a zapret folder without `%`, the `bin` and `lists` folders that
/// parsing substitutes hold no `%` either, so an argument holding one
/// placeholder between `%`-free text comes out with the placeholder
/// replaced by its value and no `%` left.
pub proof fn law_parsed_placeholder_filled(
    zapret_dir: Seq<char>,
    bin: Seq<char>,
    lists: Seq<char>,
    x: Seq<char>,
    y: Seq<char>,
    k: int,
    mode: Seq<char>,
)
    requires
        paths::sub_dir(zapret_dir, "bin"@, bin),
        paths::sub_dir(zapret_dir, "lists"@, lists),
        !zapret_dir.contains('%'),
        0 <= k < 5,
        !x.contains('%'),
        !y.contains('%'),
    ensures
        substitute(x + placeholders()[k] + y, bin, lists, mode) == x + placeholder_value(
            k,
            bin,
            lists,
            mode,
        ) + y,
        !substitute(x + placeholders()[k] + y, bin, lists, mode).contains('%'),
{
    reveal_strlit("bin");
    reveal_strlit("lists");
    assert(!"bin"@.contains('%')) by {
        if "bin"@.contains('%') {
            let i = choose|i: int| 0 <= i < "bin"@.len() && "bin"@[i] == '%';
            assert("bin"@[i] == '%');
        }
    }
    assert(!"lists"@.contains('%')) by {
        if "lists"@.contains('%') {
            let i = choose|i: int| 0 <= i < "lists"@.len() && "lists"@[i] == '%';
            assert("lists"@[i] == '%');
        }
    }
    paths::law_sub_dir_adds_only_separators(zapret_dir, "bin"@, bin, '%');
    paths::law_sub_dir_adds_only_separators(zapret_dir, "lists"@, lists, '%');
    law_placeholder_replaced(x, y, k, bin, lists, mode);
}

/// A strategy the user can pick.
#[derive(Debug, Clone)]
pub struct Strategy {
    /// Display name (e.g. "general", "general (ALT)").
    pub name: String,
    /// Bare file name (e.g. "general.bat", "general (ALT).bat").
    pub file_name: String,
}

/// One entry of the zapret directory, as the file system reports it.
pub struct DirEntryInfo {
    /// The entry's file name.
    pub file_name: String,
    /// Whether the entry is a regular file.
    pub is_file: bool,
}

/// A file of this name is a strategy: in lower case it starts with
/// `general` and ends with `.bat`.
pub open spec fn is_strategy_name(name: Seq<char>) -> bool {
    text::starts_with(text::lowercase(name), "general"@) && text::ends_with(
        text::lowercase(name),
        ".bat"@,
    )
}

/// The display name of a strategy file: the name with trailing `.bat`
/// removed, then trailing `.BAT` removed.
pub open spec fn display_name(name: Seq<char>) -> Seq<char> {
    text::trim_suffix_all(text::trim_suffix_all(name, ".bat"@), ".BAT"@)
}

/// The names of the entries that are strategy files, in directory order.
pub open spec fn strategy_file_names(entries: Seq<(Seq<char>, bool)>) -> Seq<Seq<char>>
    decreases entries.len(),
{
    if entries.len() == 0 {
        seq![]
    } else {
        let rest = strategy_file_names(entries.drop_last());
        let (name, is_file) = entries.last();
        if is_file && is_strategy_name(name) {
            rest.push(name)
        } else {
            rest
        }
    }
}

/// Key by which strategies are sorted: the display name in lower case.
pub open spec fn sort_key(name: Seq<char>) -> Seq<char> {
    text::lowercase(display_name(name))
}

/// The sort keys of a list of strategy file names.
pub open spec fn strategy_keys(names: Seq<Seq<char>>) -> Seq<Seq<char>> {
    names.map_values(|n: Seq<char>| sort_key(n))
}

/// Item `i` goes before item `j` in a stable sort by `keys`: a smaller key,
/// or the same key and an earlier position.
pub open spec fn stable_before(keys: Seq<Seq<char>>, i: int, j: int) -> bool {
    text::lex_lt(keys[i], keys[j]) || (keys[i] == keys[j] && i < j)
}

/// `order` lists the positions `0..keys.len()` each once, sorted stably by
/// `keys`.
pub open spec fn is_stable_order(keys: Seq<Seq<char>>, order: Seq<int>) -> bool {
    &&& order.len() == keys.len()
    &&& forall|i: int| 0 <= i < order.len() ==> 0 <= #[trigger] order[i] < keys.len()
    &&& forall|k: int| 0 <= k < keys.len() ==> #[trigger] order.contains(k)
    &&& forall|i: int, j: int|
        0 <= i < j < order.len() ==> stable_before(keys, #[trigger] order[i], #[trigger] order[j])
}

/// The view of a directory entry.
pub open spec fn entry_view(e: DirEntryInfo) -> (Seq<char>, bool) {
    (e.file_name@, e.is_file)
}

/// `r` is the strategy for file `name`.
pub open spec fn is_strategy_for(r: Strategy, name: Seq<char>) -> bool {
    r.file_name@ == name && r.name@ == display_name(name)
}

/// `stable_before` never holds both ways.
proof fn lemma_stable_before_asymmetric(keys: Seq<Seq<char>>, i: int, j: int)
    ensures
        !(stable_before(keys, i, j) && stable_before(keys, j, i)),
        !stable_before(keys, i, i),
{
    text::lemma_lex_lt_asymmetric(keys[i], keys[j]);
    text::lemma_lex_lt_asymmetric(keys[i], keys[i]);
}

/// In a stable order no position is listed twice.
proof fn lemma_stable_order_distinct(keys: Seq<Seq<char>>, o: Seq<int>, i: int, j: int)
    requires
        is_stable_order(keys, o),
        0 <= i < o.len(),
        0 <= j < o.len(),
        i != j,
    ensures
        o[i] != o[j],
{
    if i < j {
        assert(stable_before(keys, o[i], o[j]));
        lemma_stable_before_asymmetric(keys, o[i], o[j]);
    } else {
        assert(stable_before(keys, o[j], o[i]));
        lemma_stable_before_asymmetric(keys, o[j], o[i]);
    }
}

proof fn lemma_stable_orders_agree_upto(keys: Seq<Seq<char>>, p: Seq<int>, q: Seq<int>, i: int)
    requires
        is_stable_order(keys, p),
        is_stable_order(keys, q),
        0 <= i < p.len(),
    ensures
        forall|g: int| 0 <= g <= i ==> p[g] == q[g],
    decreases i,
{
    if i > 0 {
        lemma_stable_orders_agree_upto(keys, p, q, i - 1);
    }
    let a = p[i];
    let b = q[i];
    if a != b {
        // b is listed in p after i, and a is listed in q after i.
        assert(p.contains(b));
        assert(q.contains(a));
        let j = choose|j: int| 0 <= j < p.len() && p[j] == b;
        let k = choose|k: int| 0 <= k < q.len() && q[k] == a;
        if j < i {
            assert(q[j] == b);
            lemma_stable_order_distinct(keys, q, j, i);
        }
        if k < i {
            assert(p[k] == a);
            lemma_stable_order_distinct(keys, p, k, i);
        }
        assert(stable_before(keys, p[i], p[j]));
        assert(stable_before(keys, q[i], q[k]));
        lemma_stable_before_asymmetric(keys, a, b);
    }
}

/// A stable order is determined by its keys: two stable orders of the same
/// keys are equal, so a stably sorted listing is unique.
pub proof fn law_stable_order_unique(keys: Seq<Seq<char>>, p: Seq<int>, q: Seq<int>)
    requires
        is_stable_order(keys, p),
        is_stable_order(keys, q),
    ensures
        p == q,
{
    if p.len() > 0 {
        lemma_stable_orders_agree_upto(keys, p, q, p.len() - 1);
    }
    assert(p =~= q);
}


/// `order` lists the positions `0..n` each once, sorted stably by `keys`.
pub open spec fn stable_prefix_order(keys: Seq<Seq<char>>, n: int, order: Seq<int>) -> bool {
    &&& order.len() == n
    &&& forall|i: int| 0 <= i < order.len() ==> 0 <= #[trigger] order[i] < n
    &&& forall|k: int| 0 <= k < n ==> #[trigger] order.contains(k)
    &&& forall|i: int, j: int|
        0 <= i < j < order.len() ==> stable_before(keys, #[trigger] order[i], #[trigger] order[j])
}

/// Inserting position `n` where its key fits keeps a stable order stable.
proof fn lemma_insert_keeps_order(keys: Seq<Seq<char>>, n: int, old: Seq<int>, pos: int)
    requires
        0 <= n < keys.len(),
        stable_prefix_order(keys, n, old),
        0 <= pos <= old.len(),
        forall|t: int| pos <= t < old.len() ==> text::lex_lt(keys[n], keys[#[trigger] old[t]]),
        pos > 0 ==> !text::lex_lt(keys[n], keys[old[pos - 1]]),
    ensures
        stable_prefix_order(keys, n + 1, old.insert(pos, n)),
{
    let new = old.insert(pos, n);
    assert(new.len() == n + 1);
    assert forall|i: int| 0 <= i < new.len() implies 0 <= #[trigger] new[i] < n + 1 by {
        if i < pos {
            assert(new[i] == old[i]);
        } else if i > pos {
            assert(new[i] == old[i - 1]);
        }
    }
    assert forall|k: int| 0 <= k < n + 1 implies #[trigger] new.contains(k) by {
        if k == n {
            assert(new[pos] == n);
        } else {
            assert(old.contains(k));
            let i = choose|i: int| 0 <= i < old.len() && old[i] == k;
            if i < pos {
                assert(new[i] == k);
            } else {
                assert(new[i + 1] == k);
            }
        }
    }
    // Keys of the entries before `pos` are at most the key of `n`.
    assert forall|i: int| 0 <= i < pos implies stable_before(keys, #[trigger] old[i], n) by {
        let last = old[pos - 1];
        text::lemma_lex_lt_total(keys[last], keys[n]);
        if i < pos - 1 {
            assert(stable_before(keys, old[i], last));
            if text::lex_lt(keys[old[i]], keys[last]) && text::lex_lt(keys[last], keys[n]) {
                text::lemma_lex_lt_transitive(keys[old[i]], keys[last], keys[n]);
            }
        }
    }
    assert forall|i: int, j: int| 0 <= i < j < new.len() implies stable_before(
        keys,
        #[trigger] new[i],
        #[trigger] new[j],
    ) by {
        if j < pos {
            assert(new[i] == old[i] && new[j] == old[j]);
        } else if j == pos {
            assert(new[i] == old[i]);
        } else if i < pos {
            assert(new[i] == old[i] && new[j] == old[j - 1]);
            assert(stable_before(keys, old[i], old[j - 1]));
        } else if i == pos {
            assert(new[j] == old[j - 1]);
        } else {
            assert(new[i] == old[i - 1] && new[j] == old[j - 1]);
        }
    }
}

/// The positions `0..keys.len()` sorted stably by `keys`.
fn stable_order(keys: &Vec<Vec<char>>) -> (r: Vec<usize>)
    ensures
        is_stable_order(
            keys@.map_values(|k: Vec<char>| k@),
            r@.map_values(|x: usize| x as int),
        ),
{
    let ghost ks = keys@.map_values(|k: Vec<char>| k@);
    let mut order: Vec<usize> = Vec::new();
    let mut n: usize = 0;
    assert(order@.map_values(|x: usize| x as int) =~= Seq::<int>::empty());
    while n < keys.len()
        invariant
            n <= keys.len(),
            ks == keys@.map_values(|k: Vec<char>| k@),
            stable_prefix_order(ks, n as int, order@.map_values(|x: usize| x as int)),
        decreases keys.len() - n,
    {
        let ghost ov = order@.map_values(|x: usize| x as int);
        let mut pos = order.len();
        loop
            invariant
                n < keys.len(),
                ks == keys@.map_values(|k: Vec<char>| k@),
                ov == order@.map_values(|x: usize| x as int),
                stable_prefix_order(ks, n as int, ov),
                pos <= order.len(),
                forall|t: int| pos <= t < ov.len() ==> text::lex_lt(ks[n as int], ks[#[trigger] ov[t]]),
            ensures
                pos <= order.len(),
                forall|t: int| pos <= t < ov.len() ==> text::lex_lt(ks[n as int], ks[#[trigger] ov[t]]),
                pos > 0 ==> !text::lex_lt(ks[n as int], ks[ov[pos - 1]]),
            decreases pos,
        {
            if pos == 0 {
                break;
            }
            let e = order[pos - 1];
            assert(ov[pos - 1] == e as int);
            if !lex_less(&keys[n], &keys[e]) {
                break;
            }
            pos = pos - 1;
        }
        proof {
            if pos > 0 {
                assert(ov[pos - 1] == order@[pos - 1] as int);
            }
            lemma_insert_keeps_order(ks, n as int, ov, pos as int);
        }
        order.insert(pos, n);
        assert(order@.map_values(|x: usize| x as int) =~= ov.insert(pos as int, n as int));
        n = n + 1;
    }
    order
}


/// Whether a file called `name` is a strategy file.
fn is_strategy_name_chars(name: &Vec<char>) -> (r: bool)
    ensures
        r == is_strategy_name(name@),
{
    let lower = lowercase_chars(name);
    starts_with_chars(&lower, &chars_of("general")) && ends_with_chars(&lower, &chars_of(".bat"))
}

/// The display name of strategy file `name`.
fn display_name_chars(name: &Vec<char>) -> (r: Vec<char>)
    ensures
        r@ == display_name(name@),
{
    let a = trim_suffix_all_chars(name, &chars_of(".bat"));
    trim_suffix_all_chars(&a, &chars_of(".BAT"))
}

/// List the strategy files (`general*.bat`, in any case) among the entries
/// of a zapret directory, sorted stably by lower-cased display name.
pub fn list_strategies(entries: &Vec<DirEntryInfo>) -> (r: Vec<Strategy>)
    ensures
        ({
            let names = strategy_file_names(entries@.map_values(|e: DirEntryInfo| entry_view(e)));
            &&& r.len() == names.len()
            &&& exists|order: Seq<int>|
                #[trigger] is_stable_order(strategy_keys(names), order)
                    && forall|
                    i: int,
                | 0 <= i < r.len() ==> is_strategy_for(#[trigger] r@[i], names[order[i]])
        }),
{
    let ghost ev = entries@.map_values(|e: DirEntryInfo| entry_view(e));
    let mut names: Vec<Vec<char>> = Vec::new();
    let mut i: usize = 0;
    while i < entries.len()
        invariant
            i <= entries.len(),
            ev == entries@.map_values(|e: DirEntryInfo| entry_view(e)),
            names@.map_values(|n: Vec<char>| n@) == strategy_file_names(ev.take(i as int)),
        decreases entries.len() - i,
    {
        assert(ev.take(i + 1 as int).drop_last() == ev.take(i as int));
        assert(ev.take(i + 1 as int).last() == entry_view(entries@[i as int]));
        let e = &entries[i];
        if e.is_file {
            let name = chars_of(e.file_name.as_str());
            if is_strategy_name_chars(&name) {
                names.push(name);
            }
        }
        i = i + 1;
        assert(names@.map_values(|n: Vec<char>| n@) =~= strategy_file_names(ev.take(i as int)));
    }
    assert(ev.take(i as int) == ev);
    let ghost nv = names@.map_values(|n: Vec<char>| n@);
    let mut displays: Vec<Vec<char>> = Vec::new();
    let mut keys: Vec<Vec<char>> = Vec::new();
    let mut j: usize = 0;
    while j < names.len()
        invariant
            j <= names.len(),
            nv == names@.map_values(|n: Vec<char>| n@),
            displays.len() == j,
            keys.len() == j,
            forall|k: int| 0 <= k < j ==> #[trigger] displays@[k]@ == display_name(nv[k]),
            forall|k: int| 0 <= k < j ==> #[trigger] keys@[k]@ == sort_key(nv[k]),
        decreases names.len() - j,
    {
        let d = display_name_chars(&names[j]);
        let key = lowercase_chars(&d);
        displays.push(d);
        keys.push(key);
        j = j + 1;
    }
    let ghost ks = strategy_keys(nv);
    assert(keys@.map_values(|k: Vec<char>| k@) =~= ks);
    let order = stable_order(&keys);
    let ghost ov = order@.map_values(|x: usize| x as int);
    let mut out: Vec<Strategy> = Vec::new();
    let mut t: usize = 0;
    while t < order.len()
        invariant
            t <= order.len(),
            is_stable_order(ks, ov),
            ks == strategy_keys(nv),
            ks.len() == names.len(),
            ov == order@.map_values(|x: usize| x as int),
            nv == names@.map_values(|n: Vec<char>| n@),
            displays.len() == names.len(),
            forall|k: int| 0 <= k < names.len() ==> #[trigger] displays@[k]@ == display_name(nv[k]),
            out.len() == t,
            forall|k: int| 0 <= k < t ==> is_strategy_for(#[trigger] out@[k], nv[ov[k]]),
        decreases order.len() - t,
    {
        let idx = order[t];
        assert(ov[t as int] == idx as int);
        let st = Strategy { name: string_of(&displays[idx]), file_name: string_of(&names[idx]) };
        out.push(st);
        t = t + 1;
    }
    out
}


/// Only regular files named `general*.bat` (in any case) are listed, each
/// in the order the directory gives them, and every such file is listed.
pub proof fn law_listed_names_are_strategy_files(entries: Seq<(Seq<char>, bool)>)
    ensures
        forall|i: int|
            0 <= i < strategy_file_names(entries).len() ==> is_strategy_name(
                #[trigger] strategy_file_names(entries)[i],
            ),
        strategy_file_names(entries) == entries.filter(
            |e: (Seq<char>, bool)| e.1 && is_strategy_name(e.0),
        ).map_values(|e: (Seq<char>, bool)| e.0),
    decreases entries.len(),
{
    let pred = |e: (Seq<char>, bool)| e.1 && is_strategy_name(e.0);
    reveal_with_fuel(Seq::<_>::filter, 1);
    if entries.len() > 0 {
        law_listed_names_are_strategy_files(entries.drop_last());
        let rest = strategy_file_names(entries.drop_last());
        let all = strategy_file_names(entries);
        assert forall|i: int| 0 <= i < all.len() implies is_strategy_name(#[trigger] all[i]) by {
            if i < rest.len() {
                assert(all[i] == rest[i]);
            }
        }
        assert(entries.filter(pred) == if pred(entries.last()) {
            entries.drop_last().filter(pred).push(entries.last())
        } else {
            entries.drop_last().filter(pred)
        });
        assert(all =~= entries.filter(pred).map_values(|e: (Seq<char>, bool)| e.0));
    } else {
        assert(entries.filter(pred) =~= Seq::<(Seq<char>, bool)>::empty());
        assert(strategy_file_names(entries) =~= Seq::<Seq<char>>::empty());
    }
}

} // verus!
