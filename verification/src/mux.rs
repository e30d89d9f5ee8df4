//! Which terminal multiplexer shows the log, and how it is told to.

use crate::decimal;
use vstd::prelude::*;

verus! {

/// How many rows, or columns, a multiplexer gives to the log.
pub const PANE_HEIGHT: &'static str = "10";

/// What can show the log while `direnv` runs.
#[non_exhaustive]
#[derive(Debug, Clone, Copy, PartialEq, Eq, Structural)]
pub enum Multiplexer {
    Tmux,
    Zellij,
    Wezterm,
    Kitty,
    Inline,
}

/// The environment variables that tell which multiplexer there is, where they are
/// set.
pub struct MuxEnv {
    /// `TMUX`
    pub tmux: Option<String>,
    /// `ZELLIJ`
    pub zellij: Option<String>,
    /// `TERM_PROGRAM`
    pub term_program: Option<String>,
    /// `KITTY_LISTEN_ON`
    pub kitty_listen_on: Option<String>,
    /// `DIRENV_INSTANT_INLINE_VIEWER`
    pub inline_viewer: Option<String>,
}

impl MuxEnv {
    /// WezTerm is the terminal.
    pub open spec fn in_wezterm(self) -> bool {
        self.term_program matches Some(v) && v@ == "WezTerm"@
    }

    /// The inline viewer is wanted.
    pub open spec fn wants_inline(self) -> bool {
        self.inline_viewer matches Some(v) && v@ != "0"@
    }
}

/// What has to be known of the background process for a viewer to follow it.
pub struct DaemonContext {
    pub temp_stderr: String,
    pub socket_path: String,
    pub tty_path: Option<String>,
    pub project_name: String,
}

/// What else goes into the command of a viewer.
pub struct SpawnEnv {
    /// The path of the running program, where it is known.
    pub exe: Option<String>,
    /// `KITTY_LISTEN_ON`, or why it cannot be read.
    pub kitty_listen_on: Result<String, String>,
    /// `DIRENV_INSTANT_KITTY_LAUNCH_ARGS`, where it is set.
    pub kitty_launch_args: Option<String>,
}

/// A command to run: a program, its arguments, and variables to set for it.
pub struct SpawnPlan {
    pub program: String,
    pub args: Vec<String>,
    pub env: Vec<(String, String)>,
}

/// Why no viewer can be started.
pub enum SpawnError {
    /// The inline viewer has no terminal to draw on.
    NoTtyPath,
    /// The address of the kitty terminal cannot be read.
    Kitty(String),
}

impl SpawnError {
    /// The words for it.
    pub fn message(&self) -> (text: String)
        ensures
            match self {
                SpawnError::NoTtyPath => text@ == "no TTY path for inline viewer"@,
                SpawnError::Kitty(cause) => text@ == cause@,
            },
    {
        match self {
            SpawnError::NoTtyPath => "no TTY path for inline viewer".to_string(),
            SpawnError::Kitty(cause) => cause.clone(),
        }
    }
}

/// The texts of a list of strings.
pub open spec fn texts(list: Seq<String>) -> Seq<Seq<char>> {
    Seq::new(list.len(), |i: int| list[i]@)
}

/// The names and values of a list of variables.
pub open spec fn settings(list: Seq<(String, String)>) -> Seq<(Seq<char>, Seq<char>)> {
    Seq::new(list.len(), |i: int| (list[i].0@, list[i].1@))
}

/// Appends a string.
fn push_text(list: &mut Vec<String>, text: &str)
    ensures
        texts(final(list)@) == texts(old(list)@).push(text@),
{
    list.push(text.to_string());
    assert(texts(list@) =~= texts(old(list)@).push(text@));
}

/// Appends a variable.
fn push_setting(list: &mut Vec<(String, String)>, name: &str, value: &str)
    ensures
        settings(final(list)@) == settings(old(list)@).push((name@, value@)),
{
    list.push((name.to_string(), value.to_string()));
    assert(settings(list@) =~= settings(old(list)@).push((name@, value@)));
}

/// The program that viewers run: the running one by its path, or else by name.
pub open spec fn viewer_program(env: SpawnEnv) -> Seq<char> {
    match env.exe {
        Some(path) => path@,
        None => "direnv-instant"@,
    }
}

/// A line without the carriage return that stood before its line feed.
pub open spec fn without_cr(line: Seq<char>) -> Seq<char> {
    if line.len() > 0 && line.last() == '\r' {
        line.drop_last()
    } else {
        line
    }
}

/// The lines of a text that are complete, and what follows the last line feed. A
/// line ends with a line feed, or with a carriage return and a line feed.
pub open spec fn split_lines(text: Seq<char>) -> (Seq<Seq<char>>, Seq<char>)
    decreases text.len(),
{
    if text.len() == 0 {
        (seq![], seq![])
    } else {
        let (lines, rest) = split_lines(text.drop_last());
        if text.last() == '\n' {
            (lines.push(without_cr(rest)), seq![])
        } else {
            (lines, rest.push(text.last()))
        }
    }
}

/// The lines of a text; what follows the last line feed is one unless it is empty.
pub open spec fn text_lines(text: Seq<char>) -> Seq<Seq<char>> {
    let (lines, rest) = split_lines(text);
    if rest.len() == 0 {
        lines
    } else {
        lines.push(rest)
    }
}

/// The lines that hold something.
pub open spec fn non_empty(lines: Seq<Seq<char>>) -> Seq<Seq<char>>
    decreases lines.len(),
{
    if lines.len() == 0 {
        seq![]
    } else if lines.last().len() == 0 {
        non_empty(lines.drop_last())
    } else {
        non_empty(lines.drop_last()).push(lines.last())
    }
}

/// One line more.
proof fn lemma_non_empty_push(lines: Seq<Seq<char>>, line: Seq<char>)
    ensures
        non_empty(lines.push(line)) == (if line.len() == 0 {
            non_empty(lines)
        } else {
            non_empty(lines).push(line)
        }),
{
    assert(lines.push(line).drop_last() =~= lines);
}

/// The arguments that kitty launches a window with, where none are given.
pub open spec fn default_kitty_launch_args() -> Seq<Seq<char>> {
    seq!["--location"@, "vsplit"@, "--keep-focus"@, "--self"@]
}

/// The arguments that kitty launches a window with: one on each line of the
/// setting.
pub open spec fn kitty_args(setting: Option<String>) -> Seq<Seq<char>> {
    match setting {
        Some(text) => non_empty(text_lines(text@)),
        None => default_kitty_launch_args(),
    }
}

/// No argument for kitty is empty or goes over more than one line.
pub proof fn law_kitty_args_are_lines(text: Seq<char>)
    ensures
        forall|i: int|
            0 <= i < non_empty(text_lines(text)).len() ==> {
                &&& (#[trigger] non_empty(text_lines(text))[i]).len() > 0
                &&& !non_empty(text_lines(text))[i].contains('\n')
            },
{
    lemma_split_lines_hold_no_feed(text);
    lemma_non_empty_keeps(text_lines(text));
}

/// Neither a complete line nor what follows holds a line feed.
proof fn lemma_split_lines_hold_no_feed(text: Seq<char>)
    ensures
        forall|i: int|
            0 <= i < split_lines(text).0.len() ==> !(#[trigger] split_lines(text).0[i]).contains(
                '\n',
            ),
        !split_lines(text).1.contains('\n'),
    decreases text.len(),
{
    if text.len() > 0 {
        lemma_split_lines_hold_no_feed(text.drop_last());
        let (lines, rest) = split_lines(text.drop_last());
        assert(!without_cr(rest).contains('\n'));
    }
}

/// What is left of some lines without line feeds.
proof fn lemma_non_empty_keeps(lines: Seq<Seq<char>>)
    requires
        forall|i: int| 0 <= i < lines.len() ==> !(#[trigger] lines[i]).contains('\n'),
    ensures
        forall|i: int|
            0 <= i < non_empty(lines).len() ==> {
                &&& (#[trigger] non_empty(lines)[i]).len() > 0
                &&& !non_empty(lines)[i].contains('\n')
            },
    decreases lines.len(),
{
    if lines.len() > 0 {
        assert(lines.last() == lines[lines.len() - 1]);
        lemma_non_empty_keeps(lines.drop_last());
        let before = non_empty(lines.drop_last());
        let all = non_empty(lines);
        assert forall|i: int| 0 <= i < all.len() implies (#[trigger] all[i]).len() > 0
            && !all[i].contains('\n') by {
            if i < before.len() {
                assert(all[i] == before[i]);
            }
        }
    }
}

/// The lines of a text that hold something.
fn non_empty_lines(text: &str) -> (args: Vec<String>)
    ensures
        texts(args@) == non_empty(text_lines(text@)),
{
    let mut args: Vec<String> = Vec::new();
    let len: usize = text.unicode_len();
    let mut start: usize = 0;
    let mut i: usize = 0;
    proof {
        assert(text@.take(0) =~= Seq::<char>::empty());
        assert(texts(args@) =~= non_empty(split_lines(text@.take(0)).0));
        assert(text@.subrange(0, 0) =~= split_lines(text@.take(0)).1);
    }
    while i < len
        invariant
            start <= i <= len == text@.len(),
            texts(args@) == non_empty(split_lines(text@.take(i as int)).0),
            text@.subrange(start as int, i as int) == split_lines(text@.take(i as int)).1,
        decreases len - i,
    {
        let c: char = text.get_char(i);
        let ghost (lines, rest) = split_lines(text@.take(i as int));
        proof {
            assert(text@.take(i + 1).drop_last() =~= text@.take(i as int));
            lemma_non_empty_push(lines, without_cr(rest));
        }
        if c == '\n' {
            let end: usize = if i > start && text.get_char(i - 1) == '\r' {
                i - 1
            } else {
                i
            };
            assert(text@.subrange(start as int, end as int) =~= without_cr(rest));
            if end > start {
                push_text(&mut args, text.substring_char(start, end));
            }
            start = i + 1;
            assert(text@.subrange(start as int, i + 1) =~= Seq::<char>::empty());
        } else {
            assert(text@.subrange(start as int, i + 1) =~= rest.push(c));
        }
        i = i + 1;
    }
    assert(text@.take(len as int) =~= text@);
    proof {
        let (lines, rest) = split_lines(text@);
        lemma_non_empty_push(lines, rest);
    }
    if start < len {
        push_text(&mut args, text.substring_char(start, len));
    }
    args
}

/// The arguments that kitty launches a window with.
pub fn kitty_launch_args(setting: &Option<String>) -> (args: Vec<String>)
    ensures
        texts(args@) == kitty_args(*setting),
{
    match setting {
        Some(text) => non_empty_lines(text.as_str()),
        None => {
            let mut args: Vec<String> = Vec::new();
            push_text(&mut args, "--location");
            push_text(&mut args, "vsplit");
            push_text(&mut args, "--keep-focus");
            push_text(&mut args, "--self");
            assert(texts(args@) =~= default_kitty_launch_args());
            args
        },
    }
}

impl Multiplexer {
    /// Which multiplexer there is: the first one found, in this order. The inline
    /// viewer comes last and only where it is asked for.
    pub fn detect(env: &MuxEnv) -> (found: Option<Self>)
        ensures
            found == (if env.tmux is Some {
                Some(Multiplexer::Tmux)
            } else if env.zellij is Some {
                Some(Multiplexer::Zellij)
            } else if env.in_wezterm() {
                Some(Multiplexer::Wezterm)
            } else if env.kitty_listen_on is Some {
                Some(Multiplexer::Kitty)
            } else if env.wants_inline() {
                Some(Multiplexer::Inline)
            } else {
                None
            }),
    {
        if env.tmux.is_some() {
            return Some(Multiplexer::Tmux);
        }
        if env.zellij.is_some() {
            return Some(Multiplexer::Zellij);
        }
        if let Some(program) = &env.term_program {
            if *program == "WezTerm".to_string() {
                return Some(Multiplexer::Wezterm);
            }
        }
        if env.kitty_listen_on.is_some() {
            return Some(Multiplexer::Kitty);
        }
        if let Some(wanted) = &env.inline_viewer {
            if *wanted != "0".to_string() {
                return Some(Multiplexer::Inline);
            }
        }
        None
    }

    /// The program that is run to show the log.
    pub open spec fn program(self, env: SpawnEnv) -> Seq<char> {
        match self {
            Multiplexer::Tmux => "tmux"@,
            Multiplexer::Zellij => "zellij"@,
            Multiplexer::Wezterm => "wezterm"@,
            Multiplexer::Kitty => "kitty"@,
            Multiplexer::Inline => viewer_program(env),
        }
    }

    /// The arguments that make a multiplexer open a pane; the inline viewer needs
    /// none.
    pub open spec fn pane_args(self, env: SpawnEnv) -> Seq<Seq<char>> {
        match self {
            Multiplexer::Tmux => seq!["split-window"@, "-d"@, "-l"@, PANE_HEIGHT@],
            Multiplexer::Zellij => seq![
                "action"@,
                "new-pane"@,
                "-d"@,
                "down"@,
                "--width"@,
                PANE_HEIGHT@,
                "--close-on-exit"@,
                "--"@,
            ],
            Multiplexer::Wezterm => seq!["cli"@, "split-pane"@, "--bottom"@, "--cells"@, PANE_HEIGHT@],
            Multiplexer::Kitty => seq!["@"@, "--to"@, env.kitty_listen_on->Ok_0@, "launch"@]
                + kitty_args(env.kitty_launch_args),
            Multiplexer::Inline => seq![],
        }
    }

    /// All arguments: those that open a pane, then what runs in it.
    pub open spec fn args(self, ctx: DaemonContext, env: SpawnEnv) -> Seq<Seq<char>> {
        if self is Inline {
            seq![]
        } else {
            self.pane_args(env) + seq![
                viewer_program(env),
                "watch"@,
                ctx.temp_stderr@,
                ctx.socket_path@,
            ]
        }
    }

    /// The variables that are set: the inline viewer is told by them what to show.
    pub open spec fn variables(self, ctx: DaemonContext) -> Seq<(Seq<char>, Seq<char>)> {
        if self is Inline {
            seq![
                ("DIRENV_INSTANT_INTERNAL_INLINE_VIEWER"@, "1"@),
                ("DIRENV_INSTANT_INTERNAL_LOG_PATH"@, ctx.temp_stderr@),
                ("DIRENV_INSTANT_INTERNAL_SOCKET_PATH"@, ctx.socket_path@),
                ("DIRENV_INSTANT_INTERNAL_TTY_PATH"@, ctx.tty_path->0@),
                ("DIRENV_INSTANT_INTERNAL_PROJECT_NAME"@, ctx.project_name@),
            ]
        } else {
            seq![]
        }
    }

    /// The command that shows the log. It fails for the inline viewer without a
    /// terminal, and for kitty without an address, and for nothing else.
    pub fn spawn(&self, ctx: &DaemonContext, env: &SpawnEnv) -> (plan: Result<
        SpawnPlan,
        SpawnError,
    >)
        ensures
            plan matches Err(SpawnError::NoTtyPath) <==> self is Inline && ctx.tty_path is None,
            plan matches Err(SpawnError::Kitty(_)) <==> self is Kitty && env.kitty_listen_on is Err,
            plan matches Err(SpawnError::Kitty(cause)) ==> cause@ == env.kitty_listen_on->Err_0@,
            plan matches Ok(cmd) ==> {
                &&& cmd.program@ == self.program(*env)
                &&& texts(cmd.args@) == self.args(*ctx, *env)
                &&& settings(cmd.env@) == self.variables(*ctx)
            },
    {
        let bin: String = match &env.exe {
            Some(path) => path.clone(),
            None => "direnv-instant".to_string(),
        };
        let mut args: Vec<String> = Vec::new();
        let mut vars: Vec<(String, String)> = Vec::new();
        assert(texts(args@) =~= seq![]);
        assert(settings(vars@) =~= seq![]);
        let program: String = match self {
            Multiplexer::Inline => {
                let tty_path = match &ctx.tty_path {
                    Some(path) => path,
                    None => {
                        return Err(SpawnError::NoTtyPath);
                    },
                };
                push_setting(&mut vars, "DIRENV_INSTANT_INTERNAL_INLINE_VIEWER", "1");
                push_setting(
                    &mut vars,
                    "DIRENV_INSTANT_INTERNAL_LOG_PATH",
                    ctx.temp_stderr.as_str(),
                );
                push_setting(
                    &mut vars,
                    "DIRENV_INSTANT_INTERNAL_SOCKET_PATH",
                    ctx.socket_path.as_str(),
                );
                push_setting(&mut vars, "DIRENV_INSTANT_INTERNAL_TTY_PATH", tty_path.as_str());
                push_setting(
                    &mut vars,
                    "DIRENV_INSTANT_INTERNAL_PROJECT_NAME",
                    ctx.project_name.as_str(),
                );
                assert(settings(vars@) =~= self.variables(*ctx));
                return Ok(SpawnPlan { program: bin, args, env: vars });
            },
            Multiplexer::Tmux => {
                push_text(&mut args, "split-window");
                push_text(&mut args, "-d");
                push_text(&mut args, "-l");
                push_text(&mut args, PANE_HEIGHT);
                "tmux".to_string()
            },
            Multiplexer::Zellij => {
                push_text(&mut args, "action");
                push_text(&mut args, "new-pane");
                push_text(&mut args, "-d");
                push_text(&mut args, "down");
                push_text(&mut args, "--width");
                push_text(&mut args, PANE_HEIGHT);
                push_text(&mut args, "--close-on-exit");
                push_text(&mut args, "--");
                "zellij".to_string()
            },
            Multiplexer::Wezterm => {
                push_text(&mut args, "cli");
                push_text(&mut args, "split-pane");
                push_text(&mut args, "--bottom");
                push_text(&mut args, "--cells");
                push_text(&mut args, PANE_HEIGHT);
                "wezterm".to_string()
            },
            Multiplexer::Kitty => {
                let listen_on = match &env.kitty_listen_on {
                    Ok(address) => address,
                    Err(cause) => {
                        return Err(SpawnError::Kitty(cause.clone()));
                    },
                };
                push_text(&mut args, "@");
                push_text(&mut args, "--to");
                push_text(&mut args, listen_on.as_str());
                push_text(&mut args, "launch");
                let mut launch_args = kitty_launch_args(&env.kitty_launch_args);
                let ghost head = args@;
                let ghost tail = launch_args@;
                args.append(&mut launch_args);
                assert(texts(args@) =~= texts(head) + texts(tail));
                "kitty".to_string()
            },
        };
        assert(texts(args@) =~= self.pane_args(*env));
        push_text(&mut args, bin.as_str());
        push_text(&mut args, "watch");
        push_text(&mut args, ctx.temp_stderr.as_str());
        push_text(&mut args, ctx.socket_path.as_str());
        assert(texts(args@) =~= self.args(*ctx, *env));
        Ok(SpawnPlan { program, args, env: vars })
    }
}

/// The delay that is set, in seconds, where it is set to a number.
pub open spec fn delay_seconds(setting: Option<&str>) -> Option<nat> {
    match setting {
        Some(text) => decimal::unsigned_value(text@, u64::MAX as nat),
        None => None,
    }
}

/// Whether the delay that is set can be counted in milliseconds.
pub open spec fn delay_counts(setting: Option<&str>) -> bool {
    delay_seconds(setting) matches Some(s) ==> s * 1000 <= u64::MAX
}

/// Whether the delay that is set can be counted in milliseconds.
pub fn mux_delay_counts(setting: Option<&str>) -> (yes: bool)
    ensures
        yes == delay_counts(setting),
{
    match setting {
        Some(text) => match decimal::parse_unsigned(text, u64::MAX) {
            Some(seconds) => seconds <= u64::MAX / 1000,
            None => true,
        },
        None => true,
    }
}

/// How long to wait, in milliseconds, before the log is shown: as many seconds as
/// are set, or four.
pub fn mux_delay_ms(setting: Option<&str>) -> (ms: u64)
    requires
        delay_counts(setting),
    ensures
        ms == (match delay_seconds(setting) {
            Some(s) => s * 1000,
            None => 4000,
        }),
{
    match setting {
        Some(text) => match decimal::parse_unsigned(text, u64::MAX) {
            Some(seconds) => seconds * 1000,
            None => 4000,
        },
        None => 4000,
    }
}

/// A line with what ends it: a line feed, or a carriage return and a line feed.
pub open spec fn ended(line: Seq<char>, with_return: bool) -> Seq<char> {
    if with_return {
        line + seq!['\r', '\n']
    } else {
        line + seq!['\n']
    }
}

/// A text of `lines`, each with what ends it, and of what follows the last of them.
/// No line holds a line feed, and one that a line feed alone ends does not end with a
/// carriage return. Every text is one of these.
pub open spec fn is_text_of(
    text: Seq<char>,
    lines: Seq<Seq<char>>,
    with_return: Seq<bool>,
    rest: Seq<char>,
) -> bool {
    &&& lines.len() == with_return.len()
    &&& text == Seq::new(lines.len(), |i: int| ended(lines[i], with_return[i])).flatten() + rest
    &&& !rest.contains('\n')
    &&& forall|i: int|
        0 <= i < lines.len() ==> !(#[trigger] lines[i]).contains('\n') && (with_return[i]
            || lines[i].len() == 0 || lines[i].last() != '\r')
}

/// Every text is made of lines with what ends them and of what follows.
pub proof fn law_every_text_has_lines(text: Seq<char>)
    ensures
        exists|lines: Seq<Seq<char>>, with_return: Seq<bool>, rest: Seq<char>| #[trigger]
            is_text_of(text, lines, with_return, rest),
    decreases text.len(),
{
    if text.len() == 0 {
        let none = Seq::<Seq<char>>::empty();
        let flags = Seq::<bool>::empty();
        let parts = Seq::new(0, |i: int| ended(none[i], flags[i]));
        assert(parts.flatten() =~= Seq::<char>::empty());
        assert(text =~= parts.flatten() + seq![]);
        assert(is_text_of(text, none, flags, seq![]));
    } else {
        let before = text.drop_last();
        let c = text.last();
        law_every_text_has_lines(before);
        let (lines, flags, rest) = choose|
            lines: Seq<Seq<char>>,
            flags: Seq<bool>,
            rest: Seq<char>,
        | #[trigger] is_text_of(before, lines, flags, rest);
        let parts = Seq::new(lines.len(), |i: int| ended(lines[i], flags[i]));
        assert(before == parts.flatten() + rest);
        assert(text =~= before.push(c));
        if c == '\n' {
            let flag = rest.len() > 0 && rest.last() == '\r';
            let line = if flag {
                rest.drop_last()
            } else {
                rest
            };
            let all = lines.push(line);
            let all_flags = flags.push(flag);
            let all_parts = Seq::new(all.len(), |i: int| ended(all[i], all_flags[i]));
            assert(all_parts =~= parts.push(ended(line, flag)));
            parts.lemma_flatten_push(ended(line, flag));
            assert(text =~= all_parts.flatten() + seq![]);
            assert forall|i: int| 0 <= i < all.len() implies !(#[trigger] all[i]).contains('\n')
                && (all_flags[i] || all[i].len() == 0 || all[i].last() != '\r') by {
                if i < lines.len() {
                    assert(all[i] == lines[i]);
                } else if all[i].contains('\n') {
                    let k = choose|k: int| 0 <= k < line.len() && line[k] == '\n';
                    assert(rest[k] == '\n');
                }
            }
            assert(is_text_of(text, all, all_flags, seq![]));
        } else {
            assert(text =~= parts.flatten() + rest.push(c));
            if rest.push(c).contains('\n') {
                let k = choose|k: int| 0 <= k < rest.push(c).len() && rest.push(c)[k] == '\n';
                assert(rest[k] == '\n');
            }
            assert(is_text_of(text, lines, flags, rest.push(c)));
        }
    }
}

/// More text without a line feed goes to what follows the last line.
proof fn lemma_split_goes_on(text: Seq<char>, more: Seq<char>)
    requires
        !more.contains('\n'),
    ensures
        split_lines(text + more) == (split_lines(text).0, split_lines(text).1 + more),
    decreases more.len(),
{
    if more.len() == 0 {
        assert(text + more =~= text);
        assert(split_lines(text).1 + more =~= split_lines(text).1);
    } else {
        let before = more.drop_last();
        assert(more[more.len() - 1] == more.last());
        assert forall|c: char| before.contains(c) implies more.contains(c) by {
            let i = choose|i: int| 0 <= i < before.len() && before[i] == c;
            assert(more[i] == c);
        }
        lemma_split_goes_on(text, before);
        assert(more.last() != '\n');
        assert((text + more).drop_last() =~= text + before);
        assert((text + more).last() == more.last());
        assert((split_lines(text).1 + before).push(more.last()) =~= split_lines(text).1 + more);
    }
}

/// The lines of a text that is put together from them.
proof fn lemma_split_of_lines(text: Seq<char>, lines: Seq<Seq<char>>, with_return: Seq<bool>)
    requires
        is_text_of(text, lines, with_return, seq![]),
    ensures
        split_lines(text) == (lines, Seq::<char>::empty()),
    decreases lines.len(),
{
    let parts = Seq::new(lines.len(), |i: int| ended(lines[i], with_return[i]));
    assert(text =~= parts.flatten());
    if lines.len() == 0 {
        assert(parts.flatten() =~= Seq::<char>::empty());
        assert(split_lines(text).0 =~= lines);
    } else {
        let n = lines.len() - 1;
        let before = lines.drop_last();
        let line = lines.last();
        let fewer = Seq::new(n as nat, |i: int| ended(before[i], with_return.drop_last()[i]));
        let head = fewer.flatten();
        assert(head + seq![] =~= head);
        assert forall|i: int| 0 <= i < before.len() implies !(#[trigger] before[i]).contains('\n')
            && (with_return.drop_last()[i] || before[i].len() == 0 || before[i].last() != '\r') by {
            assert(before[i] == lines[i]);
        }
        lemma_split_of_lines(head, before, with_return.drop_last());
        assert(lines[n] == line);
        assert(parts =~= fewer.push(ended(line, with_return[n])));
        fewer.lemma_flatten_push(ended(line, with_return[n]));
        let body = if with_return[n] {
            line.push('\r')
        } else {
            line
        };
        assert(text =~= (head + body).push('\n'));
        assert(!body.contains('\n')) by {
            if body.contains('\n') {
                let i = choose|i: int| 0 <= i < body.len() && body[i] == '\n';
                assert(line[i] == '\n');
            }
        }
        lemma_split_goes_on(head, body);
        assert(text.drop_last() =~= head + body);
        assert(Seq::<char>::empty() + body =~= body);
        assert(without_cr(body) =~= line);
        assert(before.push(line) =~= lines);
    }
}

/// The lines that hold something, in order.
proof fn lemma_non_empty_is_filter(lines: Seq<Seq<char>>)
    ensures
        non_empty(lines) == lines.filter(|line: Seq<char>| line.len() > 0),
    decreases lines.len(),
{
    reveal(Seq::filter);
    if lines.len() > 0 {
        lemma_non_empty_is_filter(lines.drop_last());
    }
}

/// The lines of a text that hold something, and what follows them if it does.
proof fn lemma_lines_of_text(
    text: Seq<char>,
    lines: Seq<Seq<char>>,
    with_return: Seq<bool>,
    rest: Seq<char>,
)
    requires
        is_text_of(text, lines, with_return, rest),
    ensures
        non_empty(text_lines(text)) == lines.push(rest).filter(
            |line: Seq<char>| line.len() > 0,
        ),
{
    let head = Seq::new(lines.len(), |i: int| ended(lines[i], with_return[i])).flatten();
    assert(head + seq![] =~= head);
    lemma_split_of_lines(head, lines, with_return);
    lemma_split_goes_on(head, rest);
    assert(Seq::<char>::empty() + rest =~= rest);
    lemma_non_empty_push(lines, rest);
    lemma_non_empty_is_filter(lines.push(rest));
}

/// The strings of a list.
pub open spec fn words(list: Seq<String>) -> Seq<Seq<char>> {
    list.map_values(|text: String| text@)
}

/// Where the launch setting is set, the arguments for kitty are its lines that hold
/// something, in order and as they are; where it is not, they are these four.
pub proof fn law_kitty_gets_the_lines_that_are_set(
    setting: &Option<String>,
    args: Vec<String>,
    lines: Seq<Seq<char>>,
    with_return: Seq<bool>,
    rest: Seq<char>,
)
    requires
        call_ensures(kitty_launch_args, (setting,), args),
        setting matches Some(text) ==> is_text_of(text@, lines, with_return, rest),
    ensures
        setting is Some ==> words(args@) == lines.push(rest).filter(
            |line: Seq<char>| line.len() > 0,
        ),
        setting is None ==> words(args@) == seq![
            "--location"@,
            "vsplit"@,
            "--keep-focus"@,
            "--self"@,
        ],
{
    assert(words(args@) =~= texts(args@));
    if let Some(text) = setting {
        lemma_lines_of_text(text@, lines, with_return, rest);
    }
}

/// The command for a multiplexer is its own program with its own words for a new
/// pane, and then the viewer: this program by its path, or by its name where that is
/// not known, told to watch the log and the socket of the background process.
pub proof fn law_multiplexer_runs_the_viewer(
    mux: &Multiplexer,
    ctx: &DaemonContext,
    env: &SpawnEnv,
    plan: Result<SpawnPlan, SpawnError>,
)
    requires
        call_ensures(Multiplexer::spawn, (mux, ctx, env), plan),
        mux is Tmux || mux is Zellij || mux is Wezterm,
    ensures
        plan matches Ok(cmd) && {
            let viewer = seq![
                match env.exe {
                    Some(path) => path@,
                    None => "direnv-instant"@,
                },
                "watch"@,
                ctx.temp_stderr@,
                ctx.socket_path@,
            ];
            &&& cmd.env@.len() == 0
            &&& mux is Tmux ==> cmd.program@ == "tmux"@ && words(cmd.args@) == seq![
                "split-window"@,
                "-d"@,
                "-l"@,
                "10"@,
            ] + viewer
            &&& mux is Zellij ==> cmd.program@ == "zellij"@ && words(cmd.args@) == seq![
                "action"@,
                "new-pane"@,
                "-d"@,
                "down"@,
                "--width"@,
                "10"@,
                "--close-on-exit"@,
                "--"@,
            ] + viewer
            &&& mux is Wezterm ==> cmd.program@ == "wezterm"@ && words(cmd.args@) == seq![
                "cli"@,
                "split-pane"@,
                "--bottom"@,
                "--cells"@,
                "10"@,
            ] + viewer
        },
{
    if let Ok(cmd) = plan {
        assert(words(cmd.args@) =~= texts(cmd.args@));
        assert(settings(cmd.env@).len() == cmd.env@.len());
    }
}

/// The command for kitty goes to the kitty terminal at its address. Between the word
/// that launches a window and the viewer stand the lines of the launch setting that
/// hold something, in order and as they are, where it is set, and four words of this
/// library's own only where it is not. Without an address there is no command, and
/// the cause is handed on.
pub proof fn law_kitty_launches_the_viewer(
    ctx: &DaemonContext,
    env: &SpawnEnv,
    plan: Result<SpawnPlan, SpawnError>,
    lines: Seq<Seq<char>>,
    with_return: Seq<bool>,
    rest: Seq<char>,
)
    requires
        call_ensures(Multiplexer::spawn, (&Multiplexer::Kitty, ctx, env), plan),
        env.kitty_launch_args matches Some(text) ==> is_text_of(text@, lines, with_return, rest),
    ensures
        env.kitty_listen_on matches Err(cause) ==> plan matches Err(SpawnError::Kitty(told))
            && told@ == cause@,
        env.kitty_listen_on matches Ok(address) ==> plan matches Ok(cmd) && {
            let launch = if env.kitty_launch_args is Some {
                lines.push(rest).filter(|line: Seq<char>| line.len() > 0)
            } else {
                seq!["--location"@, "vsplit"@, "--keep-focus"@, "--self"@]
            };
            &&& cmd.program@ == "kitty"@
            &&& cmd.env@.len() == 0
            &&& words(cmd.args@) == seq!["@"@, "--to"@, address@, "launch"@] + launch + seq![
                match env.exe {
                    Some(path) => path@,
                    None => "direnv-instant"@,
                },
                "watch"@,
                ctx.temp_stderr@,
                ctx.socket_path@,
            ]
        },
{
    if let Some(text) = env.kitty_launch_args {
        lemma_lines_of_text(text@, lines, with_return, rest);
    }
    if let Ok(cmd) = plan {
        assert(words(cmd.args@) =~= texts(cmd.args@));
        assert(settings(cmd.env@).len() == cmd.env@.len());
    }
}

/// The inline viewer is this program itself, without arguments. Variables tell it
/// that it is the viewer, and where log, socket and terminal are, each under its own
/// name. Without a terminal there is no command.
pub proof fn law_inline_viewer_is_told_what_to_show(
    ctx: &DaemonContext,
    env: &SpawnEnv,
    plan: Result<SpawnPlan, SpawnError>,
)
    requires
        call_ensures(Multiplexer::spawn, (&Multiplexer::Inline, ctx, env), plan),
    ensures
        ctx.tty_path is None ==> plan matches Err(SpawnError::NoTtyPath),
        ctx.tty_path matches Some(tty) ==> plan matches Ok(cmd) && {
            &&& cmd.program@ == (match env.exe {
                Some(path) => path@,
                None => "direnv-instant"@,
            })
            &&& cmd.args@.len() == 0
            &&& cmd.env@.map_values(|var: (String, String)| (var.0@, var.1@)) == seq![
                ("DIRENV_INSTANT_INTERNAL_INLINE_VIEWER"@, "1"@),
                ("DIRENV_INSTANT_INTERNAL_LOG_PATH"@, ctx.temp_stderr@),
                ("DIRENV_INSTANT_INTERNAL_SOCKET_PATH"@, ctx.socket_path@),
                ("DIRENV_INSTANT_INTERNAL_TTY_PATH"@, tty@),
                ("DIRENV_INSTANT_INTERNAL_PROJECT_NAME"@, ctx.project_name@),
            ]
        },
{
    if let Ok(cmd) = plan {
        assert(texts(cmd.args@).len() == cmd.args@.len());
        assert(cmd.env@.map_values(|var: (String, String)| (var.0@, var.1@)) =~= settings(
            cmd.env@,
        ));
    }
}

/// A multiplexer is found by its own variable, whatever that is set to, but for the
/// terminal program, which has to be WezTerm, and for the inline viewer, which any
/// value but `0` asks for. Tmux comes before zellij, that before WezTerm, kitty and
/// the inline viewer.
pub proof fn law_detect_goes_by_the_variables(env: &MuxEnv, found: Option<Multiplexer>)
    requires
        call_ensures(Multiplexer::detect, (env,), found),
    ensures
        ({
            let tmux = env.tmux is Some;
            let zellij = env.zellij is Some;
            let wezterm = env.term_program is Some && env.term_program->0@ == "WezTerm"@;
            let kitty = env.kitty_listen_on is Some;
            let inline = env.inline_viewer is Some && env.inline_viewer->0@ != "0"@;
            &&& found == Some(Multiplexer::Tmux) <==> tmux
            &&& found == Some(Multiplexer::Zellij) <==> zellij && !tmux
            &&& found == Some(Multiplexer::Wezterm) <==> wezterm && !tmux && !zellij
            &&& found == Some(Multiplexer::Kitty) <==> kitty && !tmux && !zellij && !wezterm
            &&& found == Some(Multiplexer::Inline) <==> inline && !tmux && !zellij && !wezterm
                && !kitty
            &&& found is None <==> !tmux && !zellij && !wezterm && !kitty && !inline
        }),
{
}

/// The delay is as many thousand milliseconds as the number that is set says, and
/// four thousand where no number is set that is small enough to be read. It can be
/// counted unless it is too large for that.
pub proof fn law_delay_is_set_in_seconds(setting: Option<&str>, counts: bool, ms: u64)
    requires
        call_ensures(mux_delay_counts, (setting,), counts),
        counts ==> call_ensures(mux_delay_ms, (setting,), ms),
    ensures
        setting is None ==> counts && ms == 4000,
        setting matches Some(text) ==> {
            let digits = decimal::after_sign(text@, '+');
            &&& forall|v: nat|
                v <= 0xffff_ffff_ffff_ffff && #[trigger] decimal::is_number(digits, v) ==> {
                    &&& counts == (v * 1000 <= 0xffff_ffff_ffff_ffff)
                    &&& counts ==> ms == v * 1000
                }
            &&& (forall|v: nat|
                v <= 0xffff_ffff_ffff_ffff ==> !#[trigger] decimal::is_number(digits, v))
                ==> counts && ms == 4000
        },
{
    if let Some(text) = setting {
        decimal::lemma_unsigned_is_number(text@, u64::MAX as nat);
        let digits = decimal::after_sign(text@, '+');
        assert forall|v: nat|
            v <= 0xffff_ffff_ffff_ffff && #[trigger] decimal::is_number(
                digits,
                v,
            ) implies delay_seconds(setting) == Some(v) by {
            if let Some(w) = delay_seconds(setting) {
                decimal::law_digits_name_one_number(v, w, decimal::digits_in(digits));
            }
        }
    }
}

/// The words for a failure: that there is no terminal, or the cause as it was given.
pub proof fn law_failure_is_put_into_words(error: &SpawnError, text: String)
    requires
        call_ensures(SpawnError::message, (error,), text),
    ensures
        error is NoTtyPath ==> text@ == "no TTY path for inline viewer"@,
        error matches SpawnError::Kitty(cause) ==> text@ == cause@,
{
}

} // verus!
