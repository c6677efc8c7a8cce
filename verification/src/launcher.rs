//! How Codex is launched: command lines, Windows argument quoting, launch
//! options and the launch status record.
use vstd::prelude::*;
use crate::paths::{extension, file_stem, path_extension, path_file_stem};
use crate::text::{
    chars_of, decimal, join, owned, parse_u16, parse_u16_vec, push_all, push_decimal, push_str,
    string_from_chars, trim, trim_vec, vec_eq, vec_eq_str,
};

verus! {

/// How the launcher waits for a launched process.
#[derive(Debug, Clone, Copy, PartialEq, Eq)]
pub enum ProcessWaitStrategy {
    TrackedChild,
    ExternalWaitCommand,
}

/// Whether the macOS app is quit when the launch is torn down.
#[derive(Debug, Clone, Copy, PartialEq, Eq)]
pub enum MacosCleanupPolicy {
    QuitIfNotPreviouslyRunning,
    SkipQuitBecauseAlreadyRunning,
}

/// How processes are waited for and terminated on Windows.
#[derive(Debug, Clone, Copy, PartialEq, Eq)]
pub enum WindowsProcessControlStrategy {
    NativeWindowsApi,
}

/// The Windows process control strategy: the native Windows API.
pub fn windows_process_control_strategy() -> (r: WindowsProcessControlStrategy)
    ensures
        r == WindowsProcessControlStrategy::NativeWindowsApi,
{
    WindowsProcessControlStrategy::NativeWindowsApi
}

/// A launched Codex: a spawned command, or a packaged-app activation.
#[derive(Debug)]
pub enum CodexLaunch {
    Process {
        command: Vec<String>,
        wait_strategy: ProcessWaitStrategy,
        macos_cleanup_policy: Option<MacosCleanupPolicy>,
    },
    PackagedActivation { app_user_model_id: String, arguments: String, process_id: Option<u32> },
}

impl CodexLaunch {
    /// The process id of a packaged activation; a spawned command has none.
    pub fn process_id(&self) -> (r: Option<u32>)
        ensures
            r == match *self {
                CodexLaunch::PackagedActivation { process_id, .. } => process_id,
                CodexLaunch::Process { .. } => None::<u32>,
            },
    {
        match self {
            CodexLaunch::PackagedActivation { process_id, .. } => *process_id,
            CodexLaunch::Process { .. } => None,
        }
    }
}

/// Options of one launch.
#[derive(Debug)]
pub struct LaunchOptions {
    pub app_dir: Option<String>,
    pub debug_port: u16,
    pub helper_port: u16,
}

pub open spec fn default_debug_port() -> u16 {
    9229
}

pub open spec fn default_helper_port() -> u16 {
    57321
}

impl Default for LaunchOptions {
    /// No app directory, debug port 9229, helper port 57321.
    fn default() -> (r: Self)
        ensures
            r.app_dir is None,
            r.debug_port == default_debug_port(),
            r.helper_port == default_helper_port(),
    {
        LaunchOptions { app_dir: None, debug_port: 9229, helper_port: 57321 }
    }
}

/// The views of a vector of strings.
pub open spec fn views(v: Seq<String>) -> Seq<Seq<char>> {
    v.map_values(|s: String| s@)
}

/// The options that `args` set, starting from `o` = (app dir, debug port, helper port).
/// A flag takes the next argument as its value; an empty app path and a port
/// that is not a `u16` are ignored; unknown arguments are skipped.
pub open spec fn parse_opts(args: Seq<Seq<char>>, o: (Option<Seq<char>>, u16, u16)) -> (
    Option<Seq<char>>,
    u16,
    u16,
)
    decreases args.len(),
{
    if args.len() == 0 {
        o
    } else if args[0] == "--app-path"@ || args[0] == "--debug-port"@ || args[0] == "--helper-port"@ {
        if args.len() < 2 {
            o
        } else {
            let v = args[1];
            let next = if args[0] == "--app-path"@ {
                if trim(v).len() > 0 {
                    (Some(trim(v)), o.1, o.2)
                } else {
                    o
                }
            } else if args[0] == "--debug-port"@ {
                match parse_u16(v) {
                    Some(p) => (o.0, p, o.2),
                    None => o,
                }
            } else {
                match parse_u16(v) {
                    Some(p) => (o.0, o.1, p),
                    None => o,
                }
            };
            parse_opts(args.skip(2), next)
        }
    } else {
        parse_opts(args.drop_first(), o)
    }
}

/// Launch options from command-line arguments (`--app-path`, `--debug-port`,
/// `--helper-port`), on top of the defaults.
pub fn parse_launch_options(args: &Vec<String>) -> (r: LaunchOptions)
    ensures
        ({
            let m = parse_opts(views(args@), (None, default_debug_port(), default_helper_port()));
            &&& (match r.app_dir {
                Some(d) => m.0 == Some(d@),
                None => m.0 is None,
            })
            &&& r.debug_port == m.1
            &&& r.helper_port == m.2
        }),
{
    let mut options = LaunchOptions::default();
    let ghost all = views(args@);
    let ghost mut app: Option<Seq<char>> = None;
    let mut i: usize = 0;
    proof {
        assert(all.skip(0) == all);
    }
    while i < args.len()
        invariant
            i <= args.len(),
            all == views(args@),
            (match options.app_dir {
                Some(d) => app == Some(d@),
                None => app is None,
            }),
            parse_opts(all, (None, default_debug_port(), default_helper_port())) == parse_opts(
                all.skip(i as int),
                (app, options.debug_port, options.helper_port),
            ),
        decreases args.len() - i,
    {
        let a = chars_of(args[i].as_str());
        let ghost rest = all.skip(i as int);
        proof {
            assert(rest[0] == a@);
        }
        let is_app = vec_eq_str(&a, "--app-path");
        let is_debug = vec_eq_str(&a, "--debug-port");
        let is_helper = vec_eq_str(&a, "--helper-port");
        if is_app || is_debug || is_helper {
            if i + 1 >= args.len() {
                proof {
                    assert(rest.len() < 2);
                    assert(all.skip(args.len() as int).len() == 0);
                }
                i = args.len();
                proof {
                    assert(parse_opts(all.skip(i as int), (app, options.debug_port, options.helper_port))
                        == (app, options.debug_port, options.helper_port));
                }
                continue;
            }
            let v = chars_of(args[i + 1].as_str());
            proof {
                assert(rest[1] == v@);
                assert(rest.skip(2) == all.skip(i + 2));
            }
            if is_app {
                let t = trim_vec(&v);
                if t.len() > 0 {
                    options.app_dir = Some(string_from_chars(&t));
                    proof {
                        app = Some(t@);
                    }
                }
            } else if is_debug {
                match parse_u16_vec(&v) {
                    Some(p) => options.debug_port = p,
                    None => {},
                }
            } else {
                match parse_u16_vec(&v) {
                    Some(p) => options.helper_port = p,
                    None => {},
                }
            }
            i = i + 2;
        } else {
            proof {
                assert(rest.drop_first() == all.skip(i + 1));
            }
            i = i + 1;
        }
    }
    proof {
        assert(all.skip(i as int).len() == 0);
    }
    options
}

/// `--remote-debugging-port=<port>` and `--remote-allow-origins=http://127.0.0.1:<port>`.
pub open spec fn debug_flags(port: u16) -> Seq<Seq<char>> {
    seq![
        "--remote-debugging-port="@ + decimal(port as nat),
        "--remote-allow-origins=http://127.0.0.1:"@ + decimal(port as nat),
    ]
}

fn flag_with_port(prefix: &str, port: u16) -> (r: String)
    ensures
        r@ == prefix@ + decimal(port as nat),
{
    let mut v = chars_of(prefix);
    push_decimal(&mut v, port as u64);
    string_from_chars(&v)
}

fn push_copies(out: &mut Vec<String>, extra: &Vec<String>)
    ensures
        views(final(out)@) == views(old(out)@) + views(extra@),
{
    let mut i: usize = 0;
    while i < extra.len()
        invariant
            i <= extra.len(),
            views(out@) == views(old(out)@) + views(extra@.take(i as int)),
        decreases extra.len() - i,
    {
        let ghost before = out@;
        let c = extra[i].clone();
        out.push(c);
        proof {
            assert(extra@.take(i + 1) == extra@.take(i as int).push(extra@[i as int]));
            assert(views(out@) =~= views(before).push(c@));
            assert(views(extra@.take(i + 1)) =~= views(extra@.take(i as int)).push(c@));
            assert(views(out@) =~= views(old(out)@) + views(extra@.take(i + 1)));
        }
        i = i + 1;
    }
    proof {
        assert(extra@.take(extra@.len() as int) == extra@);
    }
}

/// Codex's command-line arguments: the debugging flags for `debug_port`
/// followed by `extra_args` as given. The settings layer, which is not part
/// of this library, normalises the extra arguments before they get here.
pub fn build_codex_arguments(debug_port: u16, extra_args: &Vec<String>) -> (r: Vec<String>)
    ensures
        views(r@) == debug_flags(debug_port) + views(extra_args@),
{
    let mut args: Vec<String> = Vec::new();
    args.push(flag_with_port("--remote-debugging-port=", debug_port));
    args.push(flag_with_port("--remote-allow-origins=http://127.0.0.1:", debug_port));
    proof {
        assert(views(args@) == debug_flags(debug_port));
    }
    push_copies(&mut args, extra_args);
    args
}

/// The Codex command: `executable` followed by [`build_codex_arguments`].
pub fn build_codex_command(executable: &str, debug_port: u16, extra_args: &Vec<String>) -> (r: Vec<
    String,
>)
    ensures
        views(r@) == seq![executable@] + debug_flags(debug_port) + views(extra_args@),
{
    let mut command: Vec<String> = Vec::new();
    command.push(owned(executable));
    let args = build_codex_arguments(debug_port, extra_args);
    push_copies(&mut command, &args);
    command
}

/// The macOS command: `open -W -a <app> --args` followed by the Codex arguments.
pub fn build_macos_open_command(app_dir: &str, debug_port: u16, extra_args: &Vec<String>) -> (r: Vec<
    String,
>)
    ensures
        views(r@) == seq!["open"@, "-W"@, "-a"@, app_dir@, "--args"@] + debug_flags(debug_port)
            + views(extra_args@),
{
    let mut command: Vec<String> = Vec::new();
    command.push(owned("open"));
    command.push(owned("-W"));
    command.push(owned("-a"));
    command.push(owned(app_dir));
    command.push(owned("--args"));
    proof {
        assert(views(command@) == seq!["open"@, "-W"@, "-a"@, app_dir@, "--args"@]);
    }
    let args = build_codex_arguments(debug_port, extra_args);
    push_copies(&mut command, &args);
    command
}

/// `name` with every `"` written as `\"`.
pub open spec fn escape_quotes(name: Seq<char>) -> Seq<char>
    decreases name.len(),
{
    if name.len() == 0 {
        Seq::empty()
    } else {
        escape_quotes(name.drop_last()) + if name.last() == '"' {
            seq!['\\', '"']
        } else {
            seq![name.last()]
        }
    }
}

/// The AppleScript that quits the app named `name`.
pub open spec fn quit_script(name: Seq<char>) -> Seq<char> {
    "tell application \""@ + escape_quotes(name) + "\" to quit"@
}

/// The app name: the file stem of the app directory, `Codex` when it has none.
pub open spec fn app_name(app_dir: Seq<char>) -> Seq<char> {
    match file_stem(app_dir) {
        Some(s) => s,
        None => "Codex"@,
    }
}

/// The command that quits the macOS app, unless it was already running.
pub fn build_macos_cleanup_command(app_dir: &str, policy: MacosCleanupPolicy) -> (r: Option<
    Vec<String>,
>)
    ensures
        policy == MacosCleanupPolicy::SkipQuitBecauseAlreadyRunning ==> r is None,
        policy == MacosCleanupPolicy::QuitIfNotPreviouslyRunning ==> (r matches Some(c) && views(c@)
            == seq!["osascript"@, "-e"@, quit_script(app_name(app_dir@))]),
{
    match policy {
        MacosCleanupPolicy::SkipQuitBecauseAlreadyRunning => return None,
        MacosCleanupPolicy::QuitIfNotPreviouslyRunning => {},
    }
    let name = match path_file_stem(app_dir) {
        Some(s) => chars_of(s.as_str()),
        None => chars_of("Codex"),
    };
    let mut script = chars_of("tell application \"");
    let mut i: usize = 0;
    let ghost start = script@;
    while i < name.len()
        invariant
            i <= name.len(),
            script@ == start + escape_quotes(name@.take(i as int)),
        decreases name.len() - i,
    {
        if name[i] == '"' {
            script.push('\\');
            script.push('"');
        } else {
            script.push(name[i]);
        }
        proof {
            assert(name@.take(i + 1).drop_last() == name@.take(i as int));
        }
        i = i + 1;
    }
    proof {
        assert(name@.take(name@.len() as int) == name@);
    }
    push_str(&mut script, "\" to quit");
    let mut command: Vec<String> = Vec::new();
    command.push(owned("osascript"));
    command.push(owned("-e"));
    command.push(string_from_chars(&script));
    proof {
        assert(views(command@) == seq!["osascript"@, "-e"@, quit_script(app_name(app_dir@))]);
    }
    Some(command)
}

/// The argument after the first `-a`, if any.
pub open spec fn app_after_flag(c: Seq<Seq<char>>) -> Option<Seq<char>>
    decreases c.len(),
{
    if c.len() == 0 {
        None
    } else if c[0] == "-a"@ {
        if c.len() > 1 {
            Some(c[1])
        } else {
            None
        }
    } else {
        app_after_flag(c.drop_first())
    }
}

/// The app directory of a macOS open command: the argument after `-a`.
pub fn macos_app_dir_from_open_command(command: &Vec<String>) -> (r: Option<String>)
    ensures
        match r {
            Some(d) => app_after_flag(views(command@)) == Some(d@),
            None => app_after_flag(views(command@)) is None,
        },
{
    let ghost all = views(command@);
    let mut i: usize = 0;
    proof {
        assert(all.skip(0) == all);
    }
    while i < command.len()
        invariant
            i <= command.len(),
            all == views(command@),
            app_after_flag(all) == app_after_flag(all.skip(i as int)),
        decreases command.len() - i,
    {
        let part = chars_of(command[i].as_str());
        proof {
            assert(all.skip(i as int)[0] == part@);
        }
        if vec_eq_str(&part, "-a") {
            if i + 1 < command.len() {
                proof {
                    assert(all.skip(i as int)[1] == command@[i + 1]@);
                }
                return Some(command[i + 1].clone());
            }
            return None;
        }
        proof {
            assert(all.skip(i as int).drop_first() == all.skip(i + 1));
        }
        i = i + 1;
    }
    None
}

/// `n` copies of `c`.
pub open spec fn copies(c: char, n: nat) -> Seq<char> {
    Seq::new(n, |_i: int| c)
}

/// The quoted body of an argument, with `bs` backslashes pending before `s`:
/// backslashes are doubled before a quote (which is escaped) and at the end.
pub open spec fn quoted_body(s: Seq<char>, bs: nat) -> Seq<char>
    decreases s.len(),
{
    if s.len() == 0 {
        copies('\\', 2 * bs)
    } else if s[0] == '\\' {
        quoted_body(s.drop_first(), bs + 1)
    } else if s[0] == '"' {
        copies('\\', 2 * bs + 1) + seq!['"'] + quoted_body(s.drop_first(), 0)
    } else {
        copies('\\', bs) + seq![s[0]] + quoted_body(s.drop_first(), 0)
    }
}

pub open spec fn needs_quotes(s: Seq<char>) -> bool {
    s.len() == 0 || exists|i: int| 0 <= i < s.len() && (s[i] == ' ' || s[i] == '\t' || s[i] == '"')
}

/// An argument as Windows command-line parsing reads it back.
pub open spec fn quote_arg(s: Seq<char>) -> Seq<char> {
    if needs_quotes(s) {
        seq!['"'] + quoted_body(s, 0) + seq!['"']
    } else {
        s
    }
}

fn push_copies_char(out: &mut Vec<char>, c: char, n: usize)
    ensures
        final(out)@ == old(out)@ + copies(c, n as nat),
{
    let mut i: usize = 0;
    while i < n
        invariant
            i <= n,
            out@ == old(out)@ + copies(c, i as nat),
        decreases n - i,
    {
        out.push(c);
        proof {
            assert(copies(c, (i + 1) as nat) == copies(c, i as nat).push(c));
        }
        i = i + 1;
    }
}

/// Quotes one argument for a Windows command line.
pub fn quote_windows_argument(arg: &str) -> (r: String)
    ensures
        r@ == quote_arg(arg@),
{
    let v = chars_of(arg);
    let mut needs = v.len() == 0;
    let mut k: usize = 0;
    while k < v.len()
        invariant
            k <= v.len(),
            needs == (v@.len() == 0 || exists|i: int|
                0 <= i < k && (v@[i] == ' ' || v@[i] == '\t' || v@[i] == '"')),
        decreases v.len() - k,
    {
        if v[k] == ' ' || v[k] == '\t' || v[k] == '"' {
            needs = true;
        }
        k = k + 1;
    }
    if !needs {
        return owned(arg);
    }
    let mut out: Vec<char> = Vec::new();
    out.push('"');
    let mut backslashes: usize = 0;
    let mut i: usize = 0;
    proof {
        assert(v@.skip(0) == v@);
    }
    while i < v.len()
        invariant
            i <= v.len(),
            backslashes <= i,
            out@ + quoted_body(v@.skip(i as int), backslashes as nat) == seq!['"'] + quoted_body(
                v@,
                0,
            ),
        decreases v.len() - i,
    {
        let c = v[i];
        let ghost rest = v@.skip(i as int);
        proof {
            assert(rest[0] == c);
            assert(rest.drop_first() == v@.skip(i + 1));
        }
        if c == '\\' {
            backslashes = backslashes + 1;
        } else if c == '"' {
            let ghost before = out@;
            push_copies_char(&mut out, '\\', backslashes);
            push_copies_char(&mut out, '\\', backslashes);
            out.push('\\');
            proof {
                assert(copies('\\', backslashes as nat) + copies('\\', backslashes as nat) + seq!['\\']
                    =~= copies('\\', (2 * backslashes + 1) as nat));
            }
            out.push('"');
            proof {
                assert(out@ + quoted_body(v@.skip(i + 1), 0) == before + quoted_body(
                    rest,
                    backslashes as nat,
                ));
            }
            backslashes = 0;
        } else {
            let ghost before = out@;
            push_copies_char(&mut out, '\\', backslashes);
            out.push(c);
            proof {
                assert(out@ + quoted_body(v@.skip(i + 1), 0) == before + quoted_body(
                    rest,
                    backslashes as nat,
                ));
            }
            backslashes = 0;
        }
        i = i + 1;
    }
    proof {
        assert(v@.skip(i as int).len() == 0);
    }
    push_copies_char(&mut out, '\\', backslashes);
    push_copies_char(&mut out, '\\', backslashes);
    proof {
        assert(copies('\\', backslashes as nat) + copies('\\', backslashes as nat) =~= copies(
            '\\',
            (2 * backslashes) as nat,
        ));
    }
    out.push('"');
    string_from_chars(&out)
}

/// The Windows command line of `args`: each argument quoted, separated by spaces.
pub fn command_line_arguments(args: &Vec<String>) -> (r: String)
    ensures
        r@ == join(views(args@).map_values(|a: Seq<char>| quote_arg(a)), seq![' ']),
{
    let ghost parts = views(args@).map_values(|a: Seq<char>| quote_arg(a));
    let mut out: Vec<char> = Vec::new();
    let mut i: usize = 0;
    proof {
        assert(parts.take(0) == Seq::<Seq<char>>::empty());
    }
    while i < args.len()
        invariant
            i <= args.len(),
            parts == views(args@).map_values(|a: Seq<char>| quote_arg(a)),
            out@ == join(parts.take(i as int), seq![' ']),
        decreases args.len() - i,
    {
        let q = quote_windows_argument(args[i].as_str());
        let qv = chars_of(q.as_str());
        if i > 0 {
            out.push(' ');
        }
        push_all(&mut out, &qv);
        proof {
            assert(parts.take(i + 1).drop_last() == parts.take(i as int));
            assert(parts.take(i + 1).last() == qv@);
            if i == 0 {
                assert(parts.take(1) == seq![qv@]);
            }
        }
        i = i + 1;
    }
    proof {
        assert(parts.take(args@.len() as int) == parts);
    }
    string_from_chars(&out)
}

/// The number of backslashes `s` starts with.
pub open spec fn backslash_run(s: Seq<char>) -> nat
    decreases s.len(),
{
    if s.len() > 0 && s[0] == '\\' {
        1 + backslash_run(s.drop_first())
    } else {
        0
    }
}

pub proof fn lemma_backslash_run(s: Seq<char>)
    ensures
        backslash_run(s) <= s.len(),
        s.len() > 0 && s[0] == '\\' ==> backslash_run(s) >= 1,
        forall|i: int| 0 <= i < backslash_run(s) ==> s[i] == '\\',
        backslash_run(s) < s.len() ==> s[backslash_run(s) as int] != '\\',
    decreases s.len(),
{
    if s.len() > 0 && s[0] == '\\' {
        lemma_backslash_run(s.drop_first());
        assert forall|i: int| 0 <= i < backslash_run(s) implies s[i] == '\\' by {
            if i > 0 {
                assert(s[i] == s.drop_first()[i - 1]);
            }
        }
    }
}

/// How Windows splits a command line into arguments (the arguments after the
/// program name), reading `s` with the argument read so far `cur` (`open`
/// once an argument has begun) and `quoted` inside quotes:
/// - a space or tab outside quotes ends the argument; runs of them only
///   separate;
/// - `2n` backslashes before a quote give `n` backslashes, and the quote
///   opens or closes a quoted part;
/// - `2n + 1` backslashes before a quote give `n` backslashes and a literal
///   quote;
/// - other backslashes are literal;
/// - inside quotes, `""` gives a literal quote.
pub open spec fn split_command_line(s: Seq<char>, cur: Seq<char>, open: bool, quoted: bool) -> Seq<
    Seq<char>,
>
    decreases s.len(),
{
    if s.len() == 0 {
        if open {
            seq![cur]
        } else {
            Seq::empty()
        }
    } else if s[0] == '\\' {
        proof {
            lemma_backslash_run(s);
        }
        let n = backslash_run(s);
        if n < s.len() && s[n as int] == '"' {
            if n % 2 == 1 {
                split_command_line(s.skip(n + 1int), cur + copies('\\', n / 2) + seq!['"'], true, quoted)
            } else if quoted && n + 1 < s.len() && s[n + 1int] == '"' {
                split_command_line(s.skip(n + 2int), cur + copies('\\', n / 2) + seq!['"'], true, true)
            } else {
                split_command_line(s.skip(n + 1int), cur + copies('\\', n / 2), true, !quoted)
            }
        } else {
            split_command_line(s.skip(n as int), cur + copies('\\', n), true, quoted)
        }
    } else if s[0] == '"' {
        if quoted && s.len() > 1 && s[1] == '"' {
            split_command_line(s.skip(2), cur.push('"'), true, true)
        } else {
            split_command_line(s.drop_first(), cur, true, !quoted)
        }
    } else if (s[0] == ' ' || s[0] == '\t') && !quoted {
        if open {
            seq![cur] + split_command_line(s.drop_first(), Seq::empty(), false, false)
        } else {
            split_command_line(s.drop_first(), cur, false, false)
        }
    } else {
        split_command_line(s.drop_first(), cur.push(s[0]), true, quoted)
    }
}

/// A run of `n` backslashes before a character that is no backslash.
proof fn lemma_run_before(n: nat, t: Seq<char>)
    requires
        t.len() == 0 || t[0] != '\\',
    ensures
        backslash_run(copies('\\', n) + t) == n,
        (copies('\\', n) + t).skip(n as int) == t,
        n > 0 ==> (copies('\\', n) + t)[0] == '\\',
    decreases n,
{
    let x = copies('\\', n) + t;
    assert(x.skip(n as int) =~= t);
    if n > 0 {
        assert(x[0] == '\\');
        assert(x.drop_first() =~= copies('\\', (n - 1) as nat) + t);
        lemma_run_before((n - 1) as nat, t);
    } else {
        assert(x =~= t);
    }
}

/// An argument without spaces, tabs or quotes is read as it is.
proof fn lemma_split_plain(a: Seq<char>, rest: Seq<char>, cur: Seq<char>, open: bool)
    requires
        forall|i: int| 0 <= i < a.len() ==> #[trigger] a[i] != ' ' && a[i] != '\t' && a[i] != '"',
        rest.len() == 0 || rest[0] == ' ',
    ensures
        split_command_line(a + rest, cur, open, false) == split_command_line(
            rest,
            cur + a,
            open || a.len() > 0,
            false,
        ),
    decreases a.len(),
{
    let x = a + rest;
    if a.len() == 0 {
        assert(x =~= rest);
        assert(cur + a =~= cur);
    } else if a[0] == '\\' {
        lemma_backslash_run(a);
        let k = backslash_run(a);
        let tail = a.skip(k as int);
        assert(a =~= copies('\\', k) + tail);
        assert(tail.len() == 0 || tail[0] != '\\') by {
            if tail.len() > 0 {
                assert(tail[0] == a[k as int]);
            }
        }
        assert(x =~= copies('\\', k) + (tail + rest));
        assert((tail + rest).len() == 0 || (tail + rest)[0] != '\\') by {
            if tail.len() > 0 {
                assert((tail + rest)[0] == tail[0]);
            } else {
                assert(tail + rest =~= rest);
            }
        }
        lemma_run_before(k, tail + rest);
        assert(backslash_run(x) == k);
        assert(!(k < x.len() && x[k as int] == '"')) by {
            if k < x.len() {
                assert(x[k as int] == (tail + rest)[0]);
                if tail.len() > 0 {
                    assert((tail + rest)[0] == a[k as int]);
                }
            }
        }
        assert(x.skip(k as int) == tail + rest);
        assert forall|i: int| 0 <= i < tail.len() implies #[trigger] tail[i] != ' ' && tail[i] != '\t'
            && tail[i] != '"' by {
            assert(tail[i] == a[i + k]);
        }
        lemma_split_plain(tail, rest, cur + copies('\\', k), true);
        assert(cur + copies('\\', k) + tail =~= cur + a);
    } else {
        let c = a[0];
        assert(x[0] == c);
        assert(x.drop_first() =~= a.drop_first() + rest);
        assert forall|i: int| 0 <= i < a.drop_first().len() implies #[trigger] a.drop_first()[i]
            != ' ' && a.drop_first()[i] != '\t' && a.drop_first()[i] != '"' by {
            assert(a.drop_first()[i] == a[i + 1]);
        }
        lemma_split_plain(a.drop_first(), rest, cur.push(c), true);
        assert(cur.push(c) + a.drop_first() =~= cur + a);
    }
}

/// A quoted body, `bs` backslashes owed before it, is read back inside the
/// quotes up to its closing quote.
proof fn lemma_split_quoted(s: Seq<char>, bs: nat, rest: Seq<char>, cur: Seq<char>)
    requires
        rest.len() == 0 || rest[0] == ' ',
    ensures
        split_command_line(quoted_body(s, bs) + seq!['"'] + rest, cur, true, true)
            == split_command_line(rest, cur + copies('\\', bs) + s, true, false),
    decreases s.len(),
{
    let x = quoted_body(s, bs) + seq!['"'] + rest;
    if s.len() == 0 {
        let t = seq!['"'] + rest;
        assert(x =~= copies('\\', 2 * bs) + t);
        assert(cur + copies('\\', bs) + s =~= cur + copies('\\', bs));
        if bs == 0 {
            assert(x =~= t);
            assert(x[0] == '"');
            assert(x.drop_first() =~= rest);
            assert(copies('\\', 0) =~= Seq::<char>::empty());
            assert(cur + copies('\\', 0) =~= cur);
            if x.len() > 1 {
                assert(x[1] == rest[0]);
            }
        } else {
            lemma_run_before(2 * bs, t);
            assert(x[(2 * bs) as int] == '"');
            assert(x.skip((2 * bs + 1) as int) =~= rest);
            if 2 * bs + 1 < x.len() {
                assert(x[(2 * bs + 1) as int] == rest[0]);
            }
            assert((2 * bs) as nat / 2 == bs);
        }
    } else if s[0] == '\\' {
        lemma_split_quoted(s.drop_first(), bs + 1, rest, cur);
        assert(cur + copies('\\', bs + 1) + s.drop_first() =~= cur + copies('\\', bs) + s);
    } else if s[0] == '"' {
        let inner = quoted_body(s.drop_first(), 0) + seq!['"'] + rest;
        let t = seq!['"'] + inner;
        assert(x =~= copies('\\', 2 * bs + 1) + t);
        lemma_run_before(2 * bs + 1, t);
        assert(x[(2 * bs + 1) as int] == '"');
        assert(x.skip((2 * bs + 2) as int) =~= inner);
        assert((2 * bs + 1) as nat / 2 == bs);
        assert((2 * bs + 1) as nat % 2 == 1);
        let cur2 = cur + copies('\\', bs) + seq!['"'];
        lemma_split_quoted(s.drop_first(), 0, rest, cur2);
        assert(cur2 + copies('\\', 0) + s.drop_first() =~= cur + copies('\\', bs) + s);
    } else {
        let c = s[0];
        let inner = quoted_body(s.drop_first(), 0) + seq!['"'] + rest;
        let t = seq![c] + inner;
        assert(x =~= copies('\\', bs) + t);
        let cur2 = cur + copies('\\', bs);
        if bs == 0 {
            assert(x =~= t);
            assert(x[0] == c);
            assert(x.drop_first() =~= inner);
            assert(cur2 =~= cur);
        } else {
            lemma_run_before(bs, t);
            assert(x[bs as int] == c);
            assert(x.skip(bs as int) =~= t);
            assert(t[0] == c);
            assert(t.drop_first() =~= inner);
            assert(split_command_line(x, cur, true, true) == split_command_line(t, cur2, true, true));
        }
        assert(split_command_line(t, cur2, true, true) == split_command_line(inner, cur2.push(c), true, true));
        lemma_split_quoted(s.drop_first(), 0, rest, cur2.push(c));
        assert(cur2.push(c) + copies('\\', 0) + s.drop_first() =~= cur + copies('\\', bs) + s);
    }
}

/// One quoted argument, followed by a space or the end, is read back as the
/// argument.
proof fn lemma_split_arg(a: Seq<char>, rest: Seq<char>)
    requires
        rest.len() == 0 || rest[0] == ' ',
    ensures
        split_command_line(quote_arg(a) + rest, Seq::empty(), false, false) == split_command_line(
            rest,
            a,
            true,
            false,
        ),
{
    if needs_quotes(a) {
        let x = quote_arg(a) + rest;
        assert(x[0] == '"');
        assert(x.drop_first() =~= quoted_body(a, 0) + seq!['"'] + rest);
        lemma_split_quoted(a, 0, rest, Seq::empty());
        assert(Seq::<char>::empty() + copies('\\', 0) + a =~= a);
    } else {
        assert forall|i: int| 0 <= i < a.len() implies #[trigger] a[i] != ' ' && a[i] != '\t' && a[i]
            != '"' by {
            if a[i] == ' ' || a[i] == '\t' || a[i] == '"' {
                assert(needs_quotes(a));
            }
        }
        lemma_split_plain(a, rest, Seq::empty(), false);
        assert(Seq::<char>::empty() + a =~= a);
    }
}

proof fn lemma_join_front(parts: Seq<Seq<char>>, sep: Seq<char>)
    requires
        parts.len() >= 2,
    ensures
        join(parts, sep) == parts[0] + sep + join(parts.drop_first(), sep),
    decreases parts.len(),
{
    if parts.len() == 2 {
        assert(parts.drop_first().len() == 1);
        assert(join(parts.drop_last(), sep) == parts[0]);
    } else {
        lemma_join_front(parts.drop_last(), sep);
        assert(parts.drop_last().drop_first() =~= parts.drop_first().drop_last());
        assert(parts.drop_first().last() == parts.last());
        assert(join(parts.drop_first(), sep) == join(parts.drop_first().drop_last(), sep) + sep
            + parts.drop_first().last());
    }
}

/// Windows reads back the arguments written by `command_line_arguments`:
/// splitting the command line it makes by Windows' rules gives exactly
/// `args`, empty arguments and arguments with spaces, tabs, quotes or
/// trailing backslashes included.
pub proof fn law_command_line_round_trips(args: Seq<Seq<char>>)
    ensures
        split_command_line(
            join(args.map_values(|a: Seq<char>| quote_arg(a)), seq![' ']),
            Seq::empty(),
            false,
            false,
        ) == args,
    decreases args.len(),
{
    let parts = args.map_values(|a: Seq<char>| quote_arg(a));
    if args.len() == 0 {
        assert(join(parts, seq![' ']) == Seq::<char>::empty());
        assert(args =~= Seq::<Seq<char>>::empty());
    } else if args.len() == 1 {
        assert(join(parts, seq![' ']) == quote_arg(args[0]));
        lemma_split_arg(args[0], Seq::empty());
        assert(quote_arg(args[0]) + Seq::<char>::empty() =~= quote_arg(args[0]));
        assert(args =~= seq![args[0]]);
    } else {
        lemma_join_front(parts, seq![' ']);
        let tail_args = args.drop_first();
        assert(parts.drop_first() =~= tail_args.map_values(|a: Seq<char>| quote_arg(a)));
        let rest_line = join(parts.drop_first(), seq![' ']);
        let rest = seq![' '] + rest_line;
        assert(join(parts, seq![' ']) =~= quote_arg(args[0]) + rest);
        lemma_split_arg(args[0], rest);
        assert(rest[0] == ' ');
        assert(rest.drop_first() =~= rest_line);
        law_command_line_round_trips(tail_args);
        assert(args =~= seq![args[0]] + tail_args);
    }
}

/// A packaged-app activation of Codex for `app_user_model_id`, when the app
/// directory belongs to a packaged app.
pub fn build_packaged_activation(
    app_user_model_id: Option<String>,
    debug_port: u16,
    extra_args: &Vec<String>,
) -> (r: Option<CodexLaunch>)
    ensures
        app_user_model_id is None ==> r is None,
        app_user_model_id matches Some(id) ==> (r matches Some(
            CodexLaunch::PackagedActivation { app_user_model_id: rid, arguments, process_id },
        ) && rid@ == id@ && process_id is None && arguments@ == join(
            (debug_flags(debug_port) + views(extra_args@)).map_values(|a: Seq<char>| quote_arg(a)),
            seq![' '],
        )),
{
    match app_user_model_id {
        Some(id) => {
            let args = build_codex_arguments(debug_port, extra_args);
            let arguments = command_line_arguments(&args);
            Some(CodexLaunch::PackagedActivation { app_user_model_id: id, arguments, process_id: None })
        },
        None => None,
    }
}

/// A `.app` bundle, opened on macOS through `open`.
pub open spec fn is_macos_app(app_dir: Seq<char>) -> bool {
    extension(app_dir) == Some("app"@)
}

/// How Codex is launched from `app_dir`: a packaged app (`packaged_id`, its
/// application user model id, only on Windows) is activated; a `.app` bundle
/// is opened with `open -W -a`, waited for by that command, and quit on
/// cleanup only when it was not already running (`macos_app_running`);
/// otherwise `executable` is spawned and tracked as a child process.
pub fn codex_launch_plan(
    packaged_id: Option<String>,
    app_dir: &str,
    executable: &str,
    macos_app_running: bool,
    debug_port: u16,
    extra_args: &Vec<String>,
) -> (r: CodexLaunch)
    ensures
        packaged_id matches Some(id) ==> (r matches CodexLaunch::PackagedActivation {
            app_user_model_id: rid,
            arguments,
            process_id,
        } && rid@ == id@ && process_id is None && arguments@ == join(
            (debug_flags(debug_port) + views(extra_args@)).map_values(|a: Seq<char>| quote_arg(a)),
            seq![' '],
        )),
        packaged_id is None && is_macos_app(app_dir@) ==> (r matches CodexLaunch::Process {
            command,
            wait_strategy,
            macos_cleanup_policy,
        } && views(command@) == seq!["open"@, "-W"@, "-a"@, app_dir@, "--args"@] + debug_flags(
            debug_port,
        ) + views(extra_args@) && wait_strategy == ProcessWaitStrategy::ExternalWaitCommand
            && macos_cleanup_policy == Some(
            if macos_app_running {
                MacosCleanupPolicy::SkipQuitBecauseAlreadyRunning
            } else {
                MacosCleanupPolicy::QuitIfNotPreviouslyRunning
            },
        )),
        packaged_id is None && !is_macos_app(app_dir@) ==> (r matches CodexLaunch::Process {
            command,
            wait_strategy,
            macos_cleanup_policy,
        } && views(command@) == seq![executable@] + debug_flags(debug_port) + views(extra_args@)
            && wait_strategy == ProcessWaitStrategy::TrackedChild && macos_cleanup_policy is None),
{
    if packaged_id.is_some() {
        match build_packaged_activation(packaged_id, debug_port, extra_args) {
            Some(a) => return a,
            None => {
                assert(false);
                return CodexLaunch::PackagedActivation {
                    app_user_model_id: String::new(),
                    arguments: String::new(),
                    process_id: None,
                };
            },
        }
    }
    let is_app = match path_extension(app_dir) {
        Some(e) => vec_eq_str(&e, "app"),
        None => false,
    };
    if is_app {
        let policy = if macos_app_running {
            MacosCleanupPolicy::SkipQuitBecauseAlreadyRunning
        } else {
            MacosCleanupPolicy::QuitIfNotPreviouslyRunning
        };
        CodexLaunch::Process {
            command: build_macos_open_command(app_dir, debug_port, extra_args),
            wait_strategy: ProcessWaitStrategy::ExternalWaitCommand,
            macos_cleanup_policy: Some(policy),
        }
    } else {
        CodexLaunch::Process {
            command: build_codex_command(executable, debug_port, extra_args),
            wait_strategy: ProcessWaitStrategy::TrackedChild,
            macos_cleanup_policy: None,
        }
    }
}

/// What asking for the bridge context gave before an injection attempt.
#[derive(Debug, Clone, Copy, PartialEq, Eq)]
pub enum BridgeContextLookup {
    Found,
    Missing,
    Failed,
}

/// How an injection attempt injects.
#[derive(Debug, Clone, Copy, PartialEq, Eq)]
pub enum InjectVia {
    /// Install the bridge with the context found.
    Bridge,
    /// Inject the plain script.
    Plain,
    /// Nothing: the attempt has failed already.
    Fail,
}

/// The bridge context comes first: with one the bridge is installed,
/// without one the plain script is injected, and a failed lookup fails the
/// attempt.
pub fn injection_via(lookup: BridgeContextLookup) -> (r: InjectVia)
    ensures
        r == match lookup {
            BridgeContextLookup::Found => InjectVia::Bridge,
            BridgeContextLookup::Missing => InjectVia::Plain,
            BridgeContextLookup::Failed => InjectVia::Fail,
        },
{
    match lookup {
        BridgeContextLookup::Found => InjectVia::Bridge,
        BridgeContextLookup::Missing => InjectVia::Plain,
        BridgeContextLookup::Failed => InjectVia::Fail,
    }
}

/// Where a retried injection stands after an attempt.
#[derive(Debug, Clone, Copy, PartialEq, Eq)]
pub enum RetryProgress {
    /// The attempt succeeded.
    Done,
    /// Wait `wait_ms`, then make attempt `next_attempt`.
    Retry { next_attempt: u32, wait_ms: u64 },
    /// The last attempt failed: give up.
    GiveUp,
}

pub open spec fn retry_after(attempt: u32, max_attempts: u32, wait_ms: u64, succeeded: bool) -> RetryProgress {
    if succeeded {
        RetryProgress::Done
    } else if attempt < max_attempts {
        RetryProgress::Retry { next_attempt: (attempt + 1) as u32, wait_ms }
    } else {
        RetryProgress::GiveUp
    }
}

/// The attempts the launch makes to inject once Codex started, a second
/// apart.
pub open spec fn ensure_injection_attempts() -> u32 {
    120
}

/// The attempts of one injection, half a second apart.
pub open spec fn inject_attempts() -> u32 {
    20
}

/// After attempt `attempt` (counted from 1) of the launch's injection: done
/// when it succeeded; otherwise (the failure is logged as
/// `launcher.ensure_injection_retry_failed` with the attempt number) another
/// attempt a second later, up to 120 in all, after which the injection is
/// not ready and the launch goes on degraded.
pub fn ensure_injection_progress(attempt: u32, succeeded: bool) -> (r: RetryProgress)
    requires
        1 <= attempt <= ensure_injection_attempts(),
    ensures
        r == retry_after(attempt, ensure_injection_attempts(), 1000, succeeded),
{
    if succeeded {
        RetryProgress::Done
    } else if attempt < 120 {
        RetryProgress::Retry { next_attempt: attempt + 1, wait_ms: 1000 }
    } else {
        RetryProgress::GiveUp
    }
}

/// After attempt `attempt` (counted from 1) of one injection: done when it
/// succeeded; otherwise another attempt half a second later, up to 20 in
/// all, after which the last attempt's error is returned.
pub fn inject_progress(attempt: u32, succeeded: bool) -> (r: RetryProgress)
    requires
        1 <= attempt <= inject_attempts(),
    ensures
        r == retry_after(attempt, inject_attempts(), 500, succeeded),
{
    if succeeded {
        RetryProgress::Done
    } else if attempt < 20 {
        RetryProgress::Retry { next_attempt: attempt + 1, wait_ms: 500 }
    } else {
        RetryProgress::GiveUp
    }
}

/// A retried injection makes at most its number of attempts: each retry
/// moves to the next attempt, and the last one never retries.
pub proof fn law_retry_is_bounded(attempt: u32, max_attempts: u32, wait_ms: u64, succeeded: bool)
    requires
        1 <= attempt <= max_attempts,
    ensures
        retry_after(attempt, max_attempts, wait_ms, succeeded) matches RetryProgress::Retry {
            next_attempt,
            ..
        } ==> next_attempt == attempt + 1 && next_attempt <= max_attempts,
        attempt == max_attempts && !succeeded ==> retry_after(attempt, max_attempts, wait_ms, succeeded)
            == RetryProgress::GiveUp,
{
}

/// What the launcher does when Codex++ already runs and it hands over to
/// it.
#[derive(Debug, Clone, Copy, PartialEq, Eq)]
pub struct ExistingActivation {
    /// Start the helper on the requested port (its failure ends the hand-over).
    pub start_helper: bool,
    /// Try to inject into the running Codex.
    pub ensure_injection: bool,
    /// Start the bridge watchdog (its failure ends the hand-over).
    pub start_bridge_watchdog: bool,
    /// The status written, if any: `running` or `running_degraded`.
    pub status: Option<&'static str>,
}

pub open spec fn existing_activation_status(enhancements_enabled: bool, injection_ready: bool) -> Option<
    Seq<char>,
> {
    if enhancements_enabled && injection_ready {
        Some("running"@)
    } else if enhancements_enabled {
        Some("running_degraded"@)
    } else {
        None
    }
}

/// The hand-over to a running Codex++: Codex is launched (or activated)
/// first, and its outcome is what the hand-over returns in the end. With
/// enhancements, the helper is started and the injection tried; a ready
/// injection starts the bridge watchdog and writes `running`, one that is
/// not ready writes `running_degraded`. Without enhancements none of this
/// happens and no status is written. `injection_ready` is what the
/// injection gave (false when it was not tried).
pub fn existing_activation(enhancements_enabled: bool, injection_ready: bool) -> (r: ExistingActivation)
    ensures
        r.start_helper == enhancements_enabled,
        r.ensure_injection == enhancements_enabled,
        r.start_bridge_watchdog == (enhancements_enabled && injection_ready),
        match existing_activation_status(enhancements_enabled, injection_ready) {
            Some(s) => r.status matches Some(t) && t@ == s,
            None => r.status is None,
        },
{
    let status = if enhancements_enabled && injection_ready {
        Some("running")
    } else if enhancements_enabled {
        Some("running_degraded")
    } else {
        None
    };
    ExistingActivation {
        start_helper: enhancements_enabled,
        ensure_injection: enhancements_enabled,
        start_bridge_watchdog: enhancements_enabled && injection_ready,
        status,
    }
}

/// The computer-use guard artifacts found on disk.
#[derive(Debug)]
pub struct GuardArtifacts {
    pub notify_exe: Option<String>,
    pub marketplace_path: Option<String>,
    pub sky_package_json: Option<String>,
    pub runtime_exports_needed: bool,
}

pub open spec fn artifacts_ready(a: GuardArtifacts) -> bool {
    a.notify_exe is Some && a.marketplace_path is Some && (!a.runtime_exports_needed
        || a.sky_package_json is Some)
}

/// Whether every artifact that the guard needs is present.
pub fn post_launch_guard_artifacts_ready(artifacts: &GuardArtifacts) -> (r: bool)
    ensures
        r == artifacts_ready(*artifacts),
{
    artifacts.notify_exe.is_some() && artifacts.marketplace_path.is_some() && (
    !artifacts.runtime_exports_needed || artifacts.sky_package_json.is_some())
}

/// Number of consecutive unchanged, ready attempts after which the guard stops.
pub open spec fn stable_attempts() -> usize {
    3
}

/// The post-launch guard stops once the artifacts are ready and the config
/// stayed unchanged for three attempts in a row.
pub fn should_stop_post_launch_computer_use_guard(
    stable_unchanged_attempts: usize,
    artifacts: &GuardArtifacts,
) -> (r: bool)
    ensures
        r == (stable_unchanged_attempts >= stable_attempts() && artifacts_ready(*artifacts)),
{
    stable_unchanged_attempts >= 3 && post_launch_guard_artifacts_ready(artifacts)
}

/// The record of the latest launch.
#[derive(Debug)]
pub struct LaunchStatus {
    pub status: String,
    pub message: String,
    pub started_at_ms: u64,
    pub debug_port: Option<u16>,
    pub helper_port: Option<u16>,
    pub codex_app: Option<String>,
}

/// A launch status record, stamped with `started_at_ms`.
pub fn launch_status(
    status: &str,
    message: &str,
    debug_port: u16,
    helper_port: u16,
    app_dir: &str,
    started_at_ms: u64,
) -> (r: LaunchStatus)
    ensures
        r.status@ == status@,
        r.message@ == message@,
        r.started_at_ms == started_at_ms,
        r.debug_port == Some(debug_port),
        r.helper_port == Some(helper_port),
        r.codex_app matches Some(a) && a@ == app_dir@,
{
    LaunchStatus {
        status: owned(status),
        message: owned(message),
        started_at_ms,
        debug_port: Some(debug_port),
        helper_port: Some(helper_port),
        codex_app: Some(owned(app_dir)),
    }
}

/// What trying to take the launcher's single-instance port gave.
#[derive(Debug, Clone, Copy, PartialEq, Eq)]
pub enum GuardAttempt {
    /// The guard is held; `fallback` when it is a lock file rather than the port.
    Acquired { fallback: bool },
    /// Another launcher holds the lock.
    WouldBlock,
    /// Another process listens on the port.
    AddrInUse,
    /// Any other error.
    Failed,
}

/// What the launcher does next about its single-instance guard.
#[derive(Debug, Clone, Copy, PartialEq, Eq)]
pub enum GuardStep {
    /// Go on launching with the guard (logging the fallback lock when used).
    Launch { log_fallback: bool },
    /// Another launcher runs: hand over to it, activating the running Codex
    /// app and launching nothing.
    AlreadyRunning,
    /// Check whether the other launcher is stale before giving up.
    CheckStale,
    /// Fail with the error.
    Fail,
}

pub open spec fn guard_step_for(attempt: GuardAttempt, allow_stale_recovery: bool) -> GuardStep {
    match attempt {
        GuardAttempt::Acquired { fallback } => GuardStep::Launch { log_fallback: fallback },
        GuardAttempt::WouldBlock => GuardStep::AlreadyRunning,
        GuardAttempt::AddrInUse => if allow_stale_recovery {
            GuardStep::CheckStale
        } else {
            GuardStep::AlreadyRunning
        },
        GuardAttempt::Failed => GuardStep::Fail,
    }
}

/// The launcher's decision on one attempt to take its single-instance
/// guard. After a stale check that recovers, the launcher stops the old
/// processes and tries once more without recovery.
pub fn guard_step(attempt: GuardAttempt, allow_stale_recovery: bool) -> (r: GuardStep)
    ensures
        r == guard_step_for(attempt, allow_stale_recovery),
{
    match attempt {
        GuardAttempt::Acquired { fallback } => GuardStep::Launch { log_fallback: fallback },
        GuardAttempt::WouldBlock => GuardStep::AlreadyRunning,
        GuardAttempt::AddrInUse => if allow_stale_recovery {
            GuardStep::CheckStale
        } else {
            GuardStep::AlreadyRunning
        },
        GuardAttempt::Failed => GuardStep::Fail,
    }
}

/// The diagnostic event a guard attempt is logged under.
#[derive(Debug, Clone, Copy, PartialEq, Eq)]
pub enum GuardEvent {
    /// `launcher.already_running`, with the guard's port and the requested
    /// debugging port.
    AlreadyRunning { guard_port: u16, debug_port: u16 },
    /// `launcher.guard_fallback`, with the guard port that was asked for (the
    /// fallback lock's path is added by the caller).
    Fallback { requested_guard_port: u16 },
}

impl GuardEvent {
    /// The event's name.
    pub fn name(self) -> (r: &'static str)
        ensures
            r@ == match self {
                GuardEvent::AlreadyRunning { .. } => "launcher.already_running"@,
                GuardEvent::Fallback { .. } => "launcher.guard_fallback"@,
            },
    {
        match self {
            GuardEvent::AlreadyRunning { .. } => "launcher.already_running",
            GuardEvent::Fallback { .. } => "launcher.guard_fallback",
        }
    }
}

pub open spec fn guard_event_for(attempt: GuardAttempt, guard_port: u16, debug_port: u16) -> Option<
    GuardEvent,
> {
    match attempt {
        GuardAttempt::Acquired { fallback } => if fallback {
            Some(GuardEvent::Fallback { requested_guard_port: guard_port })
        } else {
            None
        },
        GuardAttempt::WouldBlock | GuardAttempt::AddrInUse => Some(
            GuardEvent::AlreadyRunning { guard_port, debug_port },
        ),
        GuardAttempt::Failed => None,
    }
}

/// The event logged on a guard attempt: another launcher holding the lock or
/// the port is logged as already running (before any stale check), a guard
/// held through the fallback lock as a fallback, nothing otherwise. When the
/// launcher is already running and not stale, the launcher hands over: it
/// activates the running Codex app and launches nothing.
pub fn guard_event(attempt: GuardAttempt, guard_port: u16, debug_port: u16) -> (r: Option<GuardEvent>)
    ensures
        r == guard_event_for(attempt, guard_port, debug_port),
{
    match attempt {
        GuardAttempt::Acquired { fallback } => if fallback {
            Some(GuardEvent::Fallback { requested_guard_port: guard_port })
        } else {
            None
        },
        GuardAttempt::WouldBlock | GuardAttempt::AddrInUse => Some(
            GuardEvent::AlreadyRunning { guard_port, debug_port },
        ),
        GuardAttempt::Failed => None,
    }
}

/// The retry after a stale launcher was stopped never checks again, so the
/// launcher tries at most twice.
pub proof fn law_guard_retry_does_not_recover_again(attempt: GuardAttempt)
    ensures
        guard_step_for(attempt, false) != GuardStep::CheckStale,
{
}

/// The settings that shape a launch.
#[derive(Debug, Clone, Copy, PartialEq, Eq)]
pub struct LaunchFlags {
    pub provider_sync_enabled: bool,
    pub computer_use_guard_enabled: bool,
    pub protocol_proxy_enabled: bool,
    pub enhancements_enabled: bool,
}

/// The steps of a launch, in the order they can run.
#[derive(Debug, Clone, Copy, PartialEq, Eq)]
pub enum LaunchStep {
    Begin,
    ProviderSync,
    ComputerUseConfig,
    StartHelper,
    LaunchCodex,
    GuardWatchdog,
    EnsureInjection,
    BridgeWatchdog,
    SaveRunning,
    SaveDegraded,
    Finished,
}

pub open spec fn step_rank(s: LaunchStep) -> int {
    match s {
        LaunchStep::Begin => 0,
        LaunchStep::ProviderSync => 1,
        LaunchStep::ComputerUseConfig => 2,
        LaunchStep::StartHelper => 3,
        LaunchStep::LaunchCodex => 4,
        LaunchStep::GuardWatchdog => 5,
        LaunchStep::EnsureInjection => 6,
        LaunchStep::BridgeWatchdog => 7,
        LaunchStep::SaveRunning => 8,
        LaunchStep::SaveDegraded => 8,
        LaunchStep::Finished => 9,
    }
}

pub open spec fn helper_needed(f: LaunchFlags) -> bool {
    f.enhancements_enabled || f.protocol_proxy_enabled
}

/// The step that follows `last`: provider sync, computer-use configuration,
/// the helper, Codex itself, the computer-use watchdog and the injection,
/// each when the settings ask for it; then the bridge watchdog and the
/// `running` status when the injection is ready (or not wanted), or the
/// `running_degraded` status when it is not.
pub open spec fn step_after(f: LaunchFlags, last: LaunchStep, injection_ready: bool) -> LaunchStep {
    if step_rank(last) < 1 && f.provider_sync_enabled {
        LaunchStep::ProviderSync
    } else if step_rank(last) < 2 && f.computer_use_guard_enabled {
        LaunchStep::ComputerUseConfig
    } else if step_rank(last) < 3 && helper_needed(f) {
        LaunchStep::StartHelper
    } else if step_rank(last) < 4 {
        LaunchStep::LaunchCodex
    } else if step_rank(last) < 5 && f.computer_use_guard_enabled {
        LaunchStep::GuardWatchdog
    } else if step_rank(last) < 6 && f.enhancements_enabled {
        LaunchStep::EnsureInjection
    } else if step_rank(last) < 7 && f.enhancements_enabled && injection_ready {
        LaunchStep::BridgeWatchdog
    } else if step_rank(last) < 8 {
        if f.enhancements_enabled && !injection_ready {
            LaunchStep::SaveDegraded
        } else {
            LaunchStep::SaveRunning
        }
    } else {
        LaunchStep::Finished
    }
}

/// A launch as a sequence of decisions: the next step once `last` has
/// succeeded. `injection_ready` is what the injection step
/// reported (ignored before it ran).
pub fn next_launch_step(flags: LaunchFlags, last: LaunchStep, injection_ready: bool) -> (r: LaunchStep)
    ensures
        r == step_after(flags, last, injection_ready),
{
    let rank: u8 = match last {
        LaunchStep::Begin => 0,
        LaunchStep::ProviderSync => 1,
        LaunchStep::ComputerUseConfig => 2,
        LaunchStep::StartHelper => 3,
        LaunchStep::LaunchCodex => 4,
        LaunchStep::GuardWatchdog => 5,
        LaunchStep::EnsureInjection => 6,
        LaunchStep::BridgeWatchdog => 7,
        LaunchStep::SaveRunning => 8,
        LaunchStep::SaveDegraded => 8,
        LaunchStep::Finished => 9,
    };
    if rank < 1 && flags.provider_sync_enabled {
        LaunchStep::ProviderSync
    } else if rank < 2 && flags.computer_use_guard_enabled {
        LaunchStep::ComputerUseConfig
    } else if rank < 3 && (flags.enhancements_enabled || flags.protocol_proxy_enabled) {
        LaunchStep::StartHelper
    } else if rank < 4 {
        LaunchStep::LaunchCodex
    } else if rank < 5 && flags.computer_use_guard_enabled {
        LaunchStep::GuardWatchdog
    } else if rank < 6 && flags.enhancements_enabled {
        LaunchStep::EnsureInjection
    } else if rank < 7 && flags.enhancements_enabled && injection_ready {
        LaunchStep::BridgeWatchdog
    } else if rank < 8 {
        if flags.enhancements_enabled && !injection_ready {
            LaunchStep::SaveDegraded
        } else {
            LaunchStep::SaveRunning
        }
    } else {
        LaunchStep::Finished
    }
}

/// The helper port of a launch: the protocol proxy's port when the active
/// relay uses the proxy, otherwise the requested one.
pub fn launch_helper_port(requested: u16, protocol_proxy_enabled: bool, proxy_port: u16) -> (r: u16)
    ensures
        r == if protocol_proxy_enabled {
            proxy_port
        } else {
            requested
        },
{
    if protocol_proxy_enabled {
        proxy_port
    } else {
        requested
    }
}

/// What a failed launch undoes.
#[derive(Debug, Clone, Copy, PartialEq, Eq)]
pub struct LaunchCleanup {
    pub shutdown_helper: bool,
    pub terminate_codex: bool,
}

/// The cleanup when the step `failed` fails: the helper is shut down when
/// it had started; Codex is terminated only when it had launched and the
/// injection had become ready (a Codex still waiting for its bridge keeps
/// running).
pub open spec fn cleanup_for(f: LaunchFlags, failed: LaunchStep, injection_ready: bool) -> LaunchCleanup {
    LaunchCleanup {
        shutdown_helper: helper_needed(f) && step_rank(failed) > 3,
        terminate_codex: step_rank(failed) > 6 && f.enhancements_enabled && injection_ready,
    }
}

/// The cleanup of a launch after the step `failed` failed.
pub fn launch_cleanup(flags: LaunchFlags, failed: LaunchStep, injection_ready: bool) -> (r: LaunchCleanup)
    ensures
        r == cleanup_for(flags, failed, injection_ready),
{
    let rank: u8 = match failed {
        LaunchStep::Begin => 0,
        LaunchStep::ProviderSync => 1,
        LaunchStep::ComputerUseConfig => 2,
        LaunchStep::StartHelper => 3,
        LaunchStep::LaunchCodex => 4,
        LaunchStep::GuardWatchdog => 5,
        LaunchStep::EnsureInjection => 6,
        LaunchStep::BridgeWatchdog => 7,
        LaunchStep::SaveRunning => 8,
        LaunchStep::SaveDegraded => 8,
        LaunchStep::Finished => 9,
    };
    LaunchCleanup {
        shutdown_helper: (flags.enhancements_enabled || flags.protocol_proxy_enabled) && rank > 3,
        terminate_codex: rank > 6 && flags.enhancements_enabled && injection_ready,
    }
}

/// What a launch does once a step has run.
pub enum LaunchAdvance<E> {
    /// Run this step next (`Finished`: the launch is up).
    Next(LaunchStep),
    /// Loading the settings or resolving the app directory failed: the
    /// error is returned as it is; nothing was started, nothing is undone,
    /// and no status is saved or written.
    Abort(E),
    /// A step failed: undo `cleanup`, save `status` (a `failed` record whose
    /// message is the error's text), write the `failed` status once, and
    /// return `error` unchanged.
    Failed { cleanup: LaunchCleanup, status: LaunchStatus, error: E },
}

pub open spec fn is_injection_step(step: LaunchStep) -> bool {
    step == LaunchStep::EnsureInjection
}

/// The launch after `step` ran with `outcome`. `Begin` stands for loading
/// the settings and resolving the app directory. The injection step's `Ok`
/// says whether the injection became ready; `injection_ready` is what it
/// said before (false before it ran). `error_text` is the text of the error
/// in `outcome`; the status record is stamped with `now_ms`.
pub fn advance_launch<E>(
    flags: LaunchFlags,
    step: LaunchStep,
    outcome: Result<bool, E>,
    injection_ready: bool,
    error_text: &str,
    debug_port: u16,
    helper_port: u16,
    app_dir: &str,
    now_ms: u64,
) -> (r: LaunchAdvance<E>)
    ensures
        match outcome {
            Ok(ready) => r == LaunchAdvance::<E>::Next(
                step_after(
                    flags,
                    step,
                    if is_injection_step(step) {
                        ready
                    } else {
                        injection_ready
                    },
                ),
            ),
            Err(e) => if step == LaunchStep::Begin {
                r == LaunchAdvance::<E>::Abort(e)
            } else {
                r matches LaunchAdvance::Failed { cleanup, status, error } && cleanup == cleanup_for(
                    flags,
                    step,
                    injection_ready,
                ) && error == e && status.status@ == "failed"@ && status.message@ == error_text@
                    && status.started_at_ms == now_ms && status.debug_port == Some(debug_port)
                    && status.helper_port == Some(helper_port) && (status.codex_app matches Some(a)
                    && a@ == app_dir@)
            },
        },
{
    match outcome {
        Ok(ready) => {
            let now_ready = match step {
                LaunchStep::EnsureInjection => ready,
                _ => injection_ready,
            };
            LaunchAdvance::Next(next_launch_step(flags, step, now_ready))
        },
        Err(e) => match step {
            LaunchStep::Begin => LaunchAdvance::Abort(e),
            _ => {
                let cleanup = launch_cleanup(flags, step, injection_ready);
                let status = launch_status(
                    "failed",
                    error_text,
                    debug_port,
                    helper_port,
                    app_dir,
                    now_ms,
                );
                LaunchAdvance::Failed { cleanup, status, error: e }
            },
        },
    }
}

/// Each step of a launch comes after the one before it, so a launch ends
/// within ten steps.
pub proof fn law_launch_steps_advance(f: LaunchFlags, last: LaunchStep, injection_ready: bool)
    requires
        last != LaunchStep::Finished,
    ensures
        step_rank(step_after(f, last, injection_ready)) > step_rank(last),
{
}

/// Every launch starts Codex: from any step before it, the steps lead to
/// `LaunchCodex` and skip nothing after it.
pub proof fn law_launch_reaches_codex(f: LaunchFlags, last: LaunchStep, injection_ready: bool)
    requires
        step_rank(last) < 4,
    ensures
        step_rank(step_after(f, last, injection_ready)) <= 4,
{
}

/// A launch without enhancements never terminates Codex when it fails: the
/// user keeps the app they started.
pub proof fn law_plain_launch_keeps_codex(f: LaunchFlags, failed: LaunchStep, injection_ready: bool)
    requires
        !f.enhancements_enabled,
    ensures
        !cleanup_for(f, failed, injection_ready).terminate_codex,
{
}

/// A failure before the helper started never shuts it down.
pub proof fn law_cleanup_only_started_helper(f: LaunchFlags, failed: LaunchStep, injection_ready: bool)
    requires
        step_rank(failed) <= 3,
    ensures
        !cleanup_for(f, failed, injection_ready).shutdown_helper,
{
}

/// The seconds after launch at which the computer-use guard checks again.
pub open spec fn guard_schedule() -> Seq<u64> {
    seq![0u64, 5, 15, 30, 60, 120, 180, 240, 300]
}

/// The seconds after launch at which the computer-use guard checks.
pub fn post_launch_guard_schedule() -> (r: Vec<u64>)
    ensures
        r@ == guard_schedule(),
{
    let mut r: Vec<u64> = Vec::new();
    r.push(0);
    r.push(5);
    r.push(15);
    r.push(30);
    r.push(60);
    r.push(120);
    r.push(180);
    r.push(240);
    r.push(300);
    proof {
        assert(r@ =~= guard_schedule());
    }
    r
}

/// How one check of the computer-use guard went.
#[derive(Debug, Clone, Copy, PartialEq, Eq)]
pub enum GuardCheck {
    /// The artifacts could not be found.
    ResolveFailed,
    /// The configuration could not be written.
    ConfigFailed,
    /// The configuration was checked; `changed` when it had to be written.
    ConfigApplied { changed: bool, artifacts_ready: bool },
}

/// The count of checks in a row that found everything ready and unchanged.
pub open spec fn stable_after(stable: nat, check: GuardCheck) -> nat {
    match check {
        GuardCheck::ConfigApplied { changed, artifacts_ready } => if !changed && artifacts_ready {
            stable + 1
        } else {
            0
        },
        _ => 0,
    }
}

/// The computer-use guard's count of stable checks after a check.
pub fn next_stable_attempts(stable_unchanged_attempts: usize, check: GuardCheck) -> (r: usize)
    requires
        stable_unchanged_attempts < usize::MAX,
    ensures
        r == stable_after(stable_unchanged_attempts as nat, check),
{
    match check {
        GuardCheck::ConfigApplied { changed, artifacts_ready } => if !changed && artifacts_ready {
            stable_unchanged_attempts + 1
        } else {
            0
        },
        _ => 0,
    }
}

/// The wait before the next check: its delay less the previous one.
pub fn guard_wait_seconds(delay: u64, previous_delay: u64) -> (r: u64)
    ensures
        r == if delay >= previous_delay {
            delay - previous_delay
        } else {
            0
        },
{
    delay.saturating_sub(previous_delay)
}

/// A failed check starts the count of stable checks again.
pub proof fn law_guard_failure_resets_stability(stable: nat)
    ensures
        stable_after(stable, GuardCheck::ResolveFailed) == 0,
        stable_after(stable, GuardCheck::ConfigFailed) == 0,
        stable_after(stable, GuardCheck::ConfigApplied { changed: true, artifacts_ready: true }) == 0,
{
}

} // verus!
