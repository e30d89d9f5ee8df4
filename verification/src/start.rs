//! What is done at each shell prompt, step by step.

use crate::decimal;
use vstd::prelude::*;

verus! {

/// A variable that the shell is told to keep.
#[derive(Debug, Clone, Copy, PartialEq, Eq, Structural)]
pub enum StartVar {
    CurrentDir,
    EnvFile,
    StderrFile,
}

impl StartVar {
    /// The variable's name.
    pub open spec fn called(self) -> Seq<char> {
        match self {
            StartVar::CurrentDir => "__DIRENV_INSTANT_CURRENT_DIR"@,
            StartVar::EnvFile => "__DIRENV_INSTANT_ENV_FILE"@,
            StartVar::StderrFile => "__DIRENV_INSTANT_STDERR_FILE"@,
        }
    }

    /// The variable's name.
    pub fn name(self) -> (name: String)
        ensures
            name@ == self.called(),
    {
        match self {
            StartVar::CurrentDir => "__DIRENV_INSTANT_CURRENT_DIR".to_string(),
            StartVar::EnvFile => "__DIRENV_INSTANT_ENV_FILE".to_string(),
            StartVar::StderrFile => "__DIRENV_INSTANT_STDERR_FILE".to_string(),
        }
    }

    /// The text that the variable is given.
    pub open spec fn text(self, facts: StartFacts) -> Seq<char> {
        match self {
            StartVar::CurrentDir => facts.dir@,
            StartVar::EnvFile => facts.env_file@,
            StartVar::StderrFile => facts.stderr_file@,
        }
    }

    /// The text that the variable is given: the directory, or the path of a file.
    pub fn value(self, facts: &StartFacts) -> (text: String)
        ensures
            text@ == self.text(*facts),
    {
        match self {
            StartVar::CurrentDir => facts.dir.clone(),
            StartVar::EnvFile => facts.env_file.clone(),
            StartVar::StderrFile => facts.stderr_file.clone(),
        }
    }
}

/// The paths of a background process: the file that the environment goes to, the
/// file that messages go to, and the socket that it listens on.
pub struct DaemonFiles {
    pub env_file: Vec<u8>,
    pub stderr_file: Vec<u8>,
    pub socket: Vec<u8>,
}

impl DaemonFiles {
    /// The paths are the same, byte for byte.
    pub open spec fn same_as(self, other: DaemonFiles) -> bool {
        &&& self.env_file@ == other.env_file@
        &&& self.stderr_file@ == other.stderr_file@
        &&& self.socket@ == other.socket@
    }

    /// Copies the paths.
    pub fn copied(&self) -> (copy: DaemonFiles)
        ensures
            copy.same_as(*self),
    {
        DaemonFiles {
            env_file: copied_path(&self.env_file),
            stderr_file: copied_path(&self.stderr_file),
            socket: copied_path(&self.socket),
        }
    }
}

/// Copies a path.
fn copied_path(path: &Vec<u8>) -> (copy: Vec<u8>)
    ensures
        copy@ == path@,
{
    let copy = path.clone();
    assert(copy@ =~= path@);
    copy
}

/// What a run has come to know.
pub struct StartFacts {
    /// The process to signal.
    pub parent_pid: i32,
    /// The path of the directory that was found.
    pub dir_path: Vec<u8>,
    /// That directory as it is shown.
    pub dir: String,
    /// The directory that the shell remembers, if it does.
    pub remembered: Option<String>,
    /// The paths of the background process for that directory, once they are known.
    pub files: DaemonFiles,
    /// The file that the environment goes to, as it is shown.
    pub env_file: String,
    /// The file that messages go to, as it is shown.
    pub stderr_file: String,
}

/// The process to signal when the environment is ready: the one that is set, where
/// it is a number, or else the parent.
pub open spec fn shell_pid(setting: Option<&str>, parent: i32) -> int {
    match setting {
        Some(text) => match decimal::signed_value(text@) {
            Some(pid) => pid,
            None => parent as int,
        },
        None => parent as int,
    }
}

/// The process to signal when the environment is ready.
pub fn parent_pid(setting: Option<&str>, parent: i32) -> (pid: i32)
    ensures
        pid == shell_pid(setting, parent),
{
    match setting {
        Some(text) => match decimal::parse_signed(text) {
            Some(pid) => pid,
            None => parent,
        },
        None => parent,
    }
}

/// The parts of a path, from the root down.
pub open spec fn path_parts(path: Seq<Vec<u8>>) -> Seq<Seq<u8>> {
    Seq::new(path.len(), |i: int| path[i]@)
}

/// Whether two paths have the same parts.
fn same_path(a: &Vec<Vec<u8>>, b: &Vec<Vec<u8>>) -> (same: bool)
    ensures
        same == (path_parts(a@) == path_parts(b@)),
{
    if a.len() != b.len() {
        assert(path_parts(a@).len() != path_parts(b@).len());
        return false;
    }
    let mut i: usize = 0;
    while i < a.len()
        invariant
            i <= a@.len() == b@.len(),
            forall|k: int| 0 <= k < i ==> (#[trigger] a@[k])@ == b@[k]@,
        decreases a@.len() - i,
    {
        if !same_bytes(&a[i], &b[i]) {
            assert(path_parts(a@)[i as int] != path_parts(b@)[i as int]);
            return false;
        }
        i = i + 1;
    }
    assert(path_parts(a@) =~= path_parts(b@));
    true
}

/// Whether two rows of bytes are the same.
fn same_bytes(a: &Vec<u8>, b: &Vec<u8>) -> (same: bool)
    ensures
        same == (a@ == b@),
{
    if a.len() != b.len() {
        return false;
    }
    let mut i: usize = 0;
    while i < a.len()
        invariant
            i <= a@.len() == b@.len(),
            forall|k: int| 0 <= k < i ==> a@[k] == b@[k],
        decreases a@.len() - i,
    {
        if a[i] != b[i] {
            return false;
        }
        i = i + 1;
    }
    assert(a@ =~= b@);
    true
}

/// Whether the shell remembers a directory other than the one that was found.
/// Directories are compared part by part.
pub fn remembers_other_dir(remembered: &Option<Vec<Vec<u8>>>, found: &Vec<Vec<u8>>) -> (yes: bool)
    ensures
        yes == (remembered matches Some(dir) && path_parts(dir@) != path_parts(found@)),
{
    match remembered {
        Some(dir) => !same_path(dir, found),
        None => false,
    }
}

/// One thing to do. Some are questions, answered with yes or no.
#[derive(Debug, Clone, Copy, PartialEq, Eq, Structural)]
pub enum StartStep {
    /// Is the shell nushell?
    AskNushell,
    /// Hand over to what nushell needs. Last step.
    RunNushell,
    /// Is there an `.envrc` in the directory or above it?
    FindEnvrc,
    /// Have the shell forget the directory.
    UnsetCurrentDir,
    /// Run `direnv` in place of this process. Last step.
    RunDirenv { show_errors: bool },
    /// Does the shell remember a directory other than the one that was found?
    AskOtherDir,
    /// Stop the background process of the remembered directory.
    StopDaemon,
    /// Have the shell keep a variable.
    Export(StartVar),
    /// Is there a multiplexer to show the log in?
    DetectMultiplexer,
    /// Make the files for a background process. Did it work?
    CreateContext,
    /// Say that the files could not be made.
    ReportContextError,
    /// Is there a background process for the directory already?
    AskSocket,
    /// Tell it of this shell. Did it take note?
    NotifyDaemon,
    /// Remove the files again. Last step.
    CleanupTempFiles,
    /// Start a background process. Last step.
    StartDaemon,
}

impl StartStep {
    /// Nothing follows.
    pub open spec fn is_last(self) -> bool {
        self is RunNushell || self is RunDirenv || self is CleanupTempFiles || self is StartDaemon
    }

    /// The step that follows, where `yes` is the answer to a question.
    pub open spec fn successor(self, yes: bool) -> Option<StartStep> {
        match self {
            StartStep::AskNushell => Some(
                if yes {
                    StartStep::RunNushell
                } else {
                    StartStep::FindEnvrc
                },
            ),
            StartStep::FindEnvrc => Some(
                if yes {
                    StartStep::AskOtherDir
                } else {
                    StartStep::UnsetCurrentDir
                },
            ),
            StartStep::UnsetCurrentDir => Some(StartStep::RunDirenv { show_errors: false }),
            StartStep::AskOtherDir => Some(
                if yes {
                    StartStep::StopDaemon
                } else {
                    StartStep::Export(StartVar::CurrentDir)
                },
            ),
            StartStep::StopDaemon => Some(StartStep::Export(StartVar::CurrentDir)),
            StartStep::Export(StartVar::CurrentDir) => Some(StartStep::DetectMultiplexer),
            StartStep::DetectMultiplexer => Some(
                if yes {
                    StartStep::CreateContext
                } else {
                    StartStep::RunDirenv { show_errors: true }
                },
            ),
            StartStep::CreateContext => Some(
                if yes {
                    StartStep::Export(StartVar::EnvFile)
                } else {
                    StartStep::ReportContextError
                },
            ),
            StartStep::ReportContextError => Some(StartStep::RunDirenv { show_errors: true }),
            StartStep::Export(StartVar::EnvFile) => Some(StartStep::Export(StartVar::StderrFile)),
            StartStep::Export(StartVar::StderrFile) => Some(StartStep::AskSocket),
            StartStep::AskSocket => Some(
                if yes {
                    StartStep::NotifyDaemon
                } else {
                    StartStep::StartDaemon
                },
            ),
            StartStep::NotifyDaemon => Some(
                if yes {
                    StartStep::CleanupTempFiles
                } else {
                    StartStep::StartDaemon
                },
            ),
            _ => None,
        }
    }

    /// How many steps can still follow.
    pub open spec fn steps_left(self) -> nat {
        match self {
            StartStep::AskNushell => 11,
            StartStep::FindEnvrc => 10,
            StartStep::AskOtherDir => 9,
            StartStep::StopDaemon => 8,
            StartStep::Export(StartVar::CurrentDir) => 7,
            StartStep::DetectMultiplexer => 6,
            StartStep::CreateContext => 5,
            StartStep::Export(StartVar::EnvFile) => 4,
            StartStep::Export(StartVar::StderrFile) => 3,
            StartStep::AskSocket => 2,
            StartStep::NotifyDaemon => 1,
            StartStep::UnsetCurrentDir => 1,
            StartStep::ReportContextError => 1,
            _ => 0,
        }
    }

    /// The first step.
    pub fn first() -> (step: Self)
        ensures
            step == StartStep::AskNushell,
    {
        StartStep::AskNushell
    }

    /// The step that follows, where `yes` is the answer to a question.
    pub fn next(self, yes: bool) -> (step: Option<Self>)
        ensures
            step == self.successor(yes),
            step is None <==> self.is_last(),
            step matches Some(s) ==> s.steps_left() < self.steps_left(),
    {
        match self {
            StartStep::AskNushell => if yes {
                Some(StartStep::RunNushell)
            } else {
                Some(StartStep::FindEnvrc)
            },
            StartStep::FindEnvrc => if yes {
                Some(StartStep::AskOtherDir)
            } else {
                Some(StartStep::UnsetCurrentDir)
            },
            StartStep::UnsetCurrentDir => Some(StartStep::RunDirenv { show_errors: false }),
            StartStep::AskOtherDir => if yes {
                Some(StartStep::StopDaemon)
            } else {
                Some(StartStep::Export(StartVar::CurrentDir))
            },
            StartStep::StopDaemon => Some(StartStep::Export(StartVar::CurrentDir)),
            StartStep::Export(StartVar::CurrentDir) => Some(StartStep::DetectMultiplexer),
            StartStep::DetectMultiplexer => if yes {
                Some(StartStep::CreateContext)
            } else {
                Some(StartStep::RunDirenv { show_errors: true })
            },
            StartStep::CreateContext => if yes {
                Some(StartStep::Export(StartVar::EnvFile))
            } else {
                Some(StartStep::ReportContextError)
            },
            StartStep::ReportContextError => Some(StartStep::RunDirenv { show_errors: true }),
            StartStep::Export(StartVar::EnvFile) => Some(StartStep::Export(StartVar::StderrFile)),
            StartStep::Export(StartVar::StderrFile) => Some(StartStep::AskSocket),
            StartStep::AskSocket => if yes {
                Some(StartStep::NotifyDaemon)
            } else {
                Some(StartStep::StartDaemon)
            },
            StartStep::NotifyDaemon => if yes {
                Some(StartStep::CleanupTempFiles)
            } else {
                Some(StartStep::StartDaemon)
            },
            StartStep::RunNushell => None,
            StartStep::RunDirenv { .. } => None,
            StartStep::CleanupTempFiles => None,
            StartStep::StartDaemon => None,
        }
    }
}

/// What a step does to the world, with all that it needs to be told. Directories,
/// files and sockets are named by their paths, byte for byte. Most of the questions
/// need to be told nothing.
pub enum StartEffect {
    Nothing,
    /// Do what nushell needs, for a process to signal.
    RunNushell { parent_pid: i32 },
    /// Have the shell forget a variable.
    Unset { name: String },
    /// Run a program in place of this process, with or without its messages.
    RunDirenv { program: String, show_errors: bool },
    /// Stop the background process of a directory.
    StopDaemon { dir: String },
    /// Have the shell keep a variable.
    Export { name: String, value: String },
    /// Make the files for a background process of a directory, for a process to
    /// signal.
    CreateContext { parent_pid: i32, dir_path: Vec<u8> },
    /// Say that the files could not be made.
    ReportContextError,
    /// Look whether a socket is there.
    LookForSocket { socket: Vec<u8> },
    /// Tell the background process that listens on a socket of a process to signal.
    NotifyDaemon { socket: Vec<u8>, parent_pid: i32 },
    /// Remove the files that were made for a background process.
    CleanupTempFiles { files: DaemonFiles },
    /// Start a background process of a directory that runs a program and uses these
    /// files.
    StartDaemon { program: String, dir_path: Vec<u8>, files: DaemonFiles },
}

impl StartStep {
    /// What the step does. A variable is forgotten or kept under its own name and
    /// with its own text; the process that is stopped is that of the directory that
    /// the shell remembers; and everyone who is to signal a process is told the same
    /// one. Files are made, and the background process is started, for the directory
    /// that was found. The socket that is looked for is the one that is told of the
    /// process to signal, and the files that are removed or handed on are those that
    /// were made.
    pub fn effect(self, facts: &StartFacts) -> (effect: StartEffect)
        ensures
            match self {
                StartStep::RunNushell => effect == (StartEffect::RunNushell {
                    parent_pid: facts.parent_pid,
                }),
                StartStep::UnsetCurrentDir => effect matches StartEffect::Unset { name } && name@
                    == StartVar::CurrentDir.called(),
                StartStep::RunDirenv { show_errors: shown } => {
                    effect matches StartEffect::RunDirenv { program, show_errors } && program@
                        == "direnv"@ && show_errors == shown
                },
                StartStep::StopDaemon => match facts.remembered {
                    Some(remembered) => effect matches StartEffect::StopDaemon { dir } && dir@
                        == remembered@,
                    None => effect is Nothing,
                },
                StartStep::Export(var) => effect matches StartEffect::Export { name, value }
                    && name@ == var.called() && value@ == var.text(*facts),
                StartStep::CreateContext => {
                    effect matches StartEffect::CreateContext { parent_pid, dir_path } && parent_pid
                        == facts.parent_pid && dir_path@ == facts.dir_path@
                },
                StartStep::ReportContextError => effect is ReportContextError,
                StartStep::AskSocket => effect matches StartEffect::LookForSocket { socket }
                    && socket@ == facts.files.socket@,
                StartStep::NotifyDaemon => {
                    effect matches StartEffect::NotifyDaemon { socket, parent_pid } && socket@
                        == facts.files.socket@ && parent_pid == facts.parent_pid
                },
                StartStep::CleanupTempFiles => {
                    effect matches StartEffect::CleanupTempFiles { files } && files.same_as(
                        facts.files,
                    )
                },
                StartStep::StartDaemon => {
                    effect matches StartEffect::StartDaemon { program, dir_path, files } && program@
                        == "direnv"@ && dir_path@ == facts.dir_path@ && files.same_as(facts.files)
                },
                StartStep::AskNushell
                | StartStep::FindEnvrc
                | StartStep::AskOtherDir
                | StartStep::DetectMultiplexer => effect is Nothing,
            },
    {
        match self {
            StartStep::RunNushell => StartEffect::RunNushell { parent_pid: facts.parent_pid },
            StartStep::UnsetCurrentDir => StartEffect::Unset { name: StartVar::CurrentDir.name() },
            StartStep::RunDirenv { show_errors } => StartEffect::RunDirenv {
                program: "direnv".to_string(),
                show_errors,
            },
            StartStep::StopDaemon => match &facts.remembered {
                Some(dir) => StartEffect::StopDaemon { dir: dir.clone() },
                None => StartEffect::Nothing,
            },
            StartStep::Export(var) => StartEffect::Export {
                name: var.name(),
                value: var.value(facts),
            },
            StartStep::CreateContext => StartEffect::CreateContext {
                parent_pid: facts.parent_pid,
                dir_path: copied_path(&facts.dir_path),
            },
            StartStep::ReportContextError => StartEffect::ReportContextError,
            StartStep::AskSocket => StartEffect::LookForSocket {
                socket: copied_path(&facts.files.socket),
            },
            StartStep::NotifyDaemon => StartEffect::NotifyDaemon {
                socket: copied_path(&facts.files.socket),
                parent_pid: facts.parent_pid,
            },
            StartStep::CleanupTempFiles => StartEffect::CleanupTempFiles {
                files: facts.files.copied(),
            },
            StartStep::StartDaemon => StartEffect::StartDaemon {
                program: "direnv".to_string(),
                dir_path: copied_path(&facts.dir_path),
                files: facts.files.copied(),
            },
            StartStep::AskNushell => StartEffect::Nothing,
            StartStep::FindEnvrc => StartEffect::Nothing,
            StartStep::AskOtherDir => StartEffect::Nothing,
            StartStep::DetectMultiplexer => StartEffect::Nothing,
        }
    }
}

/// The steps from `step` on, where `answers` gives the answers.
pub open spec fn steps_from(step: StartStep, answers: spec_fn(StartStep) -> bool) -> Seq<StartStep>
    decreases step.steps_left(),
{
    match step.successor(answers(step)) {
        Some(next) => seq![step] + steps_from(next, answers),
        None => seq![step],
    }
}

/// All steps, where `answers` gives the answers.
pub open spec fn run_steps(answers: spec_fn(StartStep) -> bool) -> Seq<StartStep> {
    steps_from(StartStep::AskNushell, answers)
}

/// The steps in a directory that has an `.envrc`, once it was found.
pub open spec fn project_steps(answers: spec_fn(StartStep) -> bool) -> Seq<StartStep> {
    seq![StartStep::AskOtherDir] + (if answers(StartStep::AskOtherDir) {
        seq![StartStep::StopDaemon]
    } else {
        seq![]
    }) + seq![StartStep::Export(StartVar::CurrentDir), StartStep::DetectMultiplexer] + (
    if !answers(StartStep::DetectMultiplexer) {
        seq![StartStep::RunDirenv { show_errors: true }]
    } else if !answers(StartStep::CreateContext) {
        seq![
            StartStep::CreateContext,
            StartStep::ReportContextError,
            StartStep::RunDirenv { show_errors: true },
        ]
    } else {
        seq![
            StartStep::CreateContext,
            StartStep::Export(StartVar::EnvFile),
            StartStep::Export(StartVar::StderrFile),
            StartStep::AskSocket,
        ] + daemon_steps(answers)
    })
}

/// The steps once the files for a background process are there.
pub open spec fn daemon_steps(answers: spec_fn(StartStep) -> bool) -> Seq<StartStep> {
    if !answers(StartStep::AskSocket) {
        seq![StartStep::StartDaemon]
    } else if answers(StartStep::NotifyDaemon) {
        seq![StartStep::NotifyDaemon, StartStep::CleanupTempFiles]
    } else {
        seq![StartStep::NotifyDaemon, StartStep::StartDaemon]
    }
}

/// What a run does, for every answer it may get: nushell is handed over; without
/// an `.envrc` the directory is forgotten and `direnv` runs quietly in place of
/// the process; with one, a background process of another directory is stopped,
/// the directory is remembered, and then either `direnv` runs in place of the
/// process, for want of a multiplexer or of files, or a background process that
/// is there already takes over, or a new one is started.
pub proof fn law_run_steps(answers: spec_fn(StartStep) -> bool)
    ensures
        run_steps(answers) == (if answers(StartStep::AskNushell) {
            seq![StartStep::AskNushell, StartStep::RunNushell]
        } else if !answers(StartStep::FindEnvrc) {
            seq![
                StartStep::AskNushell,
                StartStep::FindEnvrc,
                StartStep::UnsetCurrentDir,
                StartStep::RunDirenv { show_errors: false },
            ]
        } else {
            seq![StartStep::AskNushell, StartStep::FindEnvrc] + project_steps(answers)
        }),
{
    let all = run_steps(answers);
    let quiet = StartStep::RunDirenv { show_errors: false };
    assert(steps_from(quiet, answers) == seq![quiet]);
    if answers(StartStep::AskNushell) {
        assert(steps_from(StartStep::RunNushell, answers) == seq![StartStep::RunNushell]);
        assert(all =~= seq![StartStep::AskNushell, StartStep::RunNushell]);
    } else if !answers(StartStep::FindEnvrc) {
        assert(steps_from(StartStep::UnsetCurrentDir, answers) =~= seq![
            StartStep::UnsetCurrentDir,
            quiet,
        ]);
        assert(steps_from(StartStep::FindEnvrc, answers) =~= seq![
            StartStep::FindEnvrc,
            StartStep::UnsetCurrentDir,
            quiet,
        ]);
        assert(all =~= seq![
            StartStep::AskNushell,
            StartStep::FindEnvrc,
            StartStep::UnsetCurrentDir,
            quiet,
        ]);
    } else {
        lemma_project_steps(answers);
        assert(steps_from(StartStep::FindEnvrc, answers) =~= seq![StartStep::FindEnvrc]
            + project_steps(answers));
        assert(all =~= seq![StartStep::AskNushell, StartStep::FindEnvrc] + project_steps(answers));
    }
}

proof fn lemma_daemon_steps(answers: spec_fn(StartStep) -> bool)
    ensures
        steps_from(StartStep::AskSocket, answers) == seq![StartStep::AskSocket] + daemon_steps(
            answers,
        ),
{
    assert(steps_from(StartStep::StartDaemon, answers) == seq![StartStep::StartDaemon]);
    assert(steps_from(StartStep::CleanupTempFiles, answers) == seq![StartStep::CleanupTempFiles]);
    if answers(StartStep::AskSocket) {
        assert(steps_from(StartStep::NotifyDaemon, answers) =~= daemon_steps(answers));
    }
}

proof fn lemma_project_steps(answers: spec_fn(StartStep) -> bool)
    ensures
        steps_from(StartStep::AskOtherDir, answers) == project_steps(answers),
{
    let loud = StartStep::RunDirenv { show_errors: true };
    let current = StartStep::Export(StartVar::CurrentDir);
    let env_file = StartStep::Export(StartVar::EnvFile);
    let stderr_file = StartStep::Export(StartVar::StderrFile);
    assert(steps_from(loud, answers) == seq![loud]);
    if answers(StartStep::DetectMultiplexer) {
        if answers(StartStep::CreateContext) {
            lemma_daemon_steps(answers);
            assert(steps_from(stderr_file, answers) =~= seq![stderr_file, StartStep::AskSocket]
                + daemon_steps(answers));
            assert(steps_from(env_file, answers) =~= seq![
                env_file,
                stderr_file,
                StartStep::AskSocket,
            ] + daemon_steps(answers));
            assert(steps_from(StartStep::CreateContext, answers) =~= seq![
                StartStep::CreateContext,
                env_file,
                stderr_file,
                StartStep::AskSocket,
            ] + daemon_steps(answers));
        } else {
            assert(steps_from(StartStep::ReportContextError, answers) =~= seq![
                StartStep::ReportContextError,
                loud,
            ]);
            assert(steps_from(StartStep::CreateContext, answers) =~= seq![
                StartStep::CreateContext,
                StartStep::ReportContextError,
                loud,
            ]);
        }
    }
    let rest = steps_from(StartStep::DetectMultiplexer, answers);
    assert(steps_from(current, answers) == seq![current] + rest);
    if answers(StartStep::AskOtherDir) {
        assert(steps_from(StartStep::StopDaemon, answers) == seq![StartStep::StopDaemon] + (
        seq![current] + rest));
    }
    assert(steps_from(StartStep::AskOtherDir, answers) =~= project_steps(answers));
}

/// Every run ends, and with exactly one last step.
pub proof fn law_run_ends_once(answers: spec_fn(StartStep) -> bool)
    ensures
        run_steps(answers).len() > 0,
        run_steps(answers).last().is_last(),
        forall|i: int|
            0 <= i < run_steps(answers).len() - 1 ==> !(#[trigger] run_steps(answers)[i]).is_last(),
{
    lemma_steps_end_once(StartStep::AskNushell, answers);
}

proof fn lemma_steps_end_once(step: StartStep, answers: spec_fn(StartStep) -> bool)
    ensures
        steps_from(step, answers).len() > 0,
        steps_from(step, answers).last().is_last(),
        forall|i: int|
            0 <= i < steps_from(step, answers).len() - 1 ==> !(#[trigger] steps_from(
                step,
                answers,
            )[i]).is_last(),
    decreases step.steps_left(),
{
    match step.successor(answers(step)) {
        Some(next) => {
            lemma_steps_end_once(next, answers);
            let rest = steps_from(next, answers);
            let all = steps_from(step, answers);
            assert(all == seq![step] + rest);
            assert forall|i: int| 0 <= i < all.len() - 1 implies !(#[trigger] all[i]).is_last() by {
                if i > 0 {
                    assert(all[i] == rest[i - 1]);
                }
            }
        },
        None => {},
    }
}

/// A background process is started only in a directory with an `.envrc`, with a
/// multiplexer to show its log in, after its files were made and the shell was
/// told of all three variables, and where none is there that takes note.
pub proof fn law_daemon_is_prepared(answers: spec_fn(StartStep) -> bool)
    requires
        run_steps(answers).contains(StartStep::StartDaemon),
    ensures
        answers(StartStep::FindEnvrc),
        answers(StartStep::DetectMultiplexer),
        answers(StartStep::CreateContext),
        !(answers(StartStep::AskSocket) && answers(StartStep::NotifyDaemon)),
        run_steps(answers).contains(StartStep::Export(StartVar::CurrentDir)),
        run_steps(answers).contains(StartStep::Export(StartVar::EnvFile)),
        run_steps(answers).contains(StartStep::Export(StartVar::StderrFile)),
        run_steps(answers).last() == StartStep::StartDaemon,
{
    law_run_steps(answers);
    let all = run_steps(answers);
    let at = if answers(StartStep::AskOtherDir) {
        4int
    } else {
        3int
    };
    assert(all[at] == StartStep::Export(StartVar::CurrentDir));
    assert(all[at + 3] == StartStep::Export(StartVar::EnvFile));
    assert(all[at + 4] == StartStep::Export(StartVar::StderrFile));
}

/// `steps` are all steps of a run: the first one is asked for, each next one is what
/// follows the answer to the one before, and nothing follows the last.
pub open spec fn is_whole_run(steps: Seq<StartStep>, answers: spec_fn(StartStep) -> bool) -> bool {
    &&& steps.len() > 0
    &&& call_ensures(StartStep::first, (), steps[0])
    &&& forall|i: int|
        0 <= i < steps.len() ==> call_ensures(
            StartStep::next,
            (#[trigger] steps[i], answers(steps[i])),
            if i + 1 < steps.len() {
                Some(steps[i + 1])
            } else {
                None
            },
        )
}

/// What is asked for is what the steps are made of.
proof fn lemma_whole_run(steps: Seq<StartStep>, answers: spec_fn(StartStep) -> bool, i: int)
    requires
        is_whole_run(steps, answers),
        0 <= i < steps.len(),
    ensures
        steps.skip(i) == steps_from(steps[i], answers),
    decreases steps.len() - i,
{
    assert(steps[i].successor(answers(steps[i])) == (if i + 1 < steps.len() {
        Some(steps[i + 1])
    } else {
        None
    }));
    if i + 1 < steps.len() {
        lemma_whole_run(steps, answers, i + 1);
        assert(steps.skip(i) =~= seq![steps[i]] + steps.skip(i + 1));
    } else {
        assert(steps.skip(i) =~= seq![steps[i]]);
    }
}

/// Nushell is handed over at once, and no other shell is. Without an `.envrc` the
/// directory is forgotten and `direnv` runs quietly in place of the process, and
/// nothing else is done.
pub proof fn law_runs_without_a_project(
    steps: Seq<StartStep>,
    answers: spec_fn(StartStep) -> bool,
)
    requires
        is_whole_run(steps, answers),
    ensures
        answers(StartStep::AskNushell) ==> steps == seq![
            StartStep::AskNushell,
            StartStep::RunNushell,
        ],
        !answers(StartStep::AskNushell) && !answers(StartStep::FindEnvrc) ==> steps == seq![
            StartStep::AskNushell,
            StartStep::FindEnvrc,
            StartStep::UnsetCurrentDir,
            StartStep::RunDirenv { show_errors: false },
        ],
{
    lemma_whole_run(steps, answers, 0);
    assert(steps.skip(0) =~= steps);
    law_run_steps(answers);
}

/// With an `.envrc` the background process of another directory is stopped if there
/// is one, the directory is remembered, and a multiplexer is looked for. What follows
/// depends on the answers alone: `direnv` runs in place of the process and shows its
/// messages, where there is no multiplexer or the files cannot be made; or the shell
/// is told of the files, and a background process that is there and takes note makes
/// them needless, or else one is started.
pub proof fn law_runs_in_a_project(steps: Seq<StartStep>, answers: spec_fn(StartStep) -> bool)
    requires
        is_whole_run(steps, answers),
        !answers(StartStep::AskNushell),
        answers(StartStep::FindEnvrc),
    ensures
        steps == seq![StartStep::AskNushell, StartStep::FindEnvrc, StartStep::AskOtherDir] + (
        if answers(StartStep::AskOtherDir) {
            seq![StartStep::StopDaemon]
        } else {
            seq![]
        }) + seq![StartStep::Export(StartVar::CurrentDir), StartStep::DetectMultiplexer] + (
        if !answers(StartStep::DetectMultiplexer) {
            seq![StartStep::RunDirenv { show_errors: true }]
        } else if !answers(StartStep::CreateContext) {
            seq![
                StartStep::CreateContext,
                StartStep::ReportContextError,
                StartStep::RunDirenv { show_errors: true },
            ]
        } else {
            seq![
                StartStep::CreateContext,
                StartStep::Export(StartVar::EnvFile),
                StartStep::Export(StartVar::StderrFile),
                StartStep::AskSocket,
            ] + (if !answers(StartStep::AskSocket) {
                seq![StartStep::StartDaemon]
            } else if answers(StartStep::NotifyDaemon) {
                seq![StartStep::NotifyDaemon, StartStep::CleanupTempFiles]
            } else {
                seq![StartStep::NotifyDaemon, StartStep::StartDaemon]
            })
        }),
{
    lemma_whole_run(steps, answers, 0);
    assert(steps.skip(0) =~= steps);
    law_run_steps(answers);
}

/// The shell is told of the directory, of the file for the environment and of the
/// file for messages, each under its own name, and forgets the directory under the
/// name that it was told.
pub proof fn law_variables_are_told_apart(
    var: StartVar,
    facts: &StartFacts,
    name: String,
    value: String,
    kept: StartEffect,
    forgotten: StartEffect,
)
    requires
        call_ensures(StartVar::name, (var,), name),
        call_ensures(StartVar::value, (var, facts), value),
        call_ensures(StartStep::effect, (StartStep::Export(var), facts), kept),
        call_ensures(StartStep::effect, (StartStep::UnsetCurrentDir, facts), forgotten),
    ensures
        var is CurrentDir ==> name@ == "__DIRENV_INSTANT_CURRENT_DIR"@ && value@ == facts.dir@,
        var is EnvFile ==> name@ == "__DIRENV_INSTANT_ENV_FILE"@ && value@ == facts.env_file@,
        var is StderrFile ==> name@ == "__DIRENV_INSTANT_STDERR_FILE"@ && value@
            == facts.stderr_file@,
        kept matches StartEffect::Export { name: told, value: text } && told@ == name@ && text@
            == value@,
        forgotten matches StartEffect::Unset { name: told } && told@
            == "__DIRENV_INSTANT_CURRENT_DIR"@,
{
}

/// Whoever is told of a process to signal is told of the one that is known, and of
/// nothing but the found directory, its socket and its files. `direnv` is what runs,
/// and it shows its messages where the step says so. What is stopped is the
/// background process of the directory that the shell remembers.
pub proof fn law_steps_keep_to_the_facts(
    step: StartStep,
    facts: &StartFacts,
    effect: StartEffect,
)
    requires
        call_ensures(StartStep::effect, (step, facts), effect),
    ensures
        step is RunNushell ==> (effect matches StartEffect::RunNushell { parent_pid } && parent_pid
            == facts.parent_pid),
        step matches StartStep::RunDirenv { show_errors: wanted } ==> (
        effect matches StartEffect::RunDirenv { program, show_errors } && program@ == "direnv"@
            && show_errors == wanted),
        step is StopDaemon && facts.remembered is Some ==> (
        effect matches StartEffect::StopDaemon { dir } && dir@ == facts.remembered->0@),
        step is StopDaemon && facts.remembered is None ==> effect is Nothing,
        step is CreateContext ==> (
        effect matches StartEffect::CreateContext { parent_pid, dir_path } && parent_pid
            == facts.parent_pid && dir_path@ == facts.dir_path@),
        step is ReportContextError ==> effect is ReportContextError,
        step is AskSocket ==> (effect matches StartEffect::LookForSocket { socket } && socket@
            == facts.files.socket@),
        step is NotifyDaemon ==> (
        effect matches StartEffect::NotifyDaemon { socket, parent_pid } && socket@
            == facts.files.socket@ && parent_pid == facts.parent_pid),
        step is CleanupTempFiles ==> (effect matches StartEffect::CleanupTempFiles { files } && {
            &&& files.env_file@ == facts.files.env_file@
            &&& files.stderr_file@ == facts.files.stderr_file@
            &&& files.socket@ == facts.files.socket@
        }),
        step is StartDaemon ==> (
        effect matches StartEffect::StartDaemon { program, dir_path, files } && {
            &&& program@ == "direnv"@
            &&& dir_path@ == facts.dir_path@
            &&& files.env_file@ == facts.files.env_file@
            &&& files.stderr_file@ == facts.files.stderr_file@
            &&& files.socket@ == facts.files.socket@
        }),
        step is AskNushell || step is FindEnvrc || step is AskOtherDir || step is DetectMultiplexer
            ==> effect is Nothing,
{
}

/// The process to signal is the one that is set, where a number is set that can be
/// one, and else the parent.
pub proof fn law_process_that_is_set_is_signalled(setting: Option<&str>, parent: i32, pid: i32)
    requires
        call_ensures(parent_pid, (setting, parent), pid),
    ensures
        setting is None ==> pid == parent,
        setting matches Some(text) ==> text@.len() > 0 && text@[0] == '-' ==> {
            let digits = text@.skip(1);
            &&& forall|v: nat|
                v <= 0x8000_0000 && #[trigger] decimal::is_number(digits, v) ==> pid == -(v as int)
            &&& (forall|v: nat| v <= 0x8000_0000 ==> !#[trigger] decimal::is_number(digits, v))
                ==> pid == parent
        },
        setting matches Some(text) ==> !(text@.len() > 0 && text@[0] == '-') ==> {
            let digits = decimal::after_sign(text@, '+');
            &&& forall|v: nat|
                v <= 0x7fff_ffff && #[trigger] decimal::is_number(digits, v) ==> pid == v
            &&& (forall|v: nat| v <= 0x7fff_ffff ==> !#[trigger] decimal::is_number(digits, v))
                ==> pid == parent
        },
{
    if let Some(text) = setting {
        decimal::lemma_signed_is_number(text@);
        if text@.len() > 0 && text@[0] == '-' {
            let digits = text@.skip(1);
            if let Some(w) = decimal::signed_value(text@) {
                assert forall|v: nat| #[trigger] decimal::is_number(digits, v) implies v == -w by {
                    decimal::law_digits_name_one_number(
                        v,
                        (-w) as nat,
                        decimal::digits_in(digits),
                    );
                }
            }
        } else {
            let digits = decimal::after_sign(text@, '+');
            if let Some(w) = decimal::signed_value(text@) {
                assert forall|v: nat| #[trigger] decimal::is_number(digits, v) implies v == w by {
                    decimal::law_digits_name_one_number(v, w as nat, decimal::digits_in(digits));
                }
            }
        }
    }
}

/// The shell remembers another directory exactly if it remembers one, and that has
/// more parts or fewer than the one that was found, or another part somewhere.
pub proof fn law_other_directory_differs_in_a_part(
    remembered: &Option<Vec<Vec<u8>>>,
    found: &Vec<Vec<u8>>,
    yes: bool,
)
    requires
        call_ensures(remembers_other_dir, (remembered, found), yes),
    ensures
        remembered is None ==> !yes,
        remembered matches Some(dir) ==> (!yes <==> dir@.len() == found@.len() && forall|i: int|
            0 <= i < dir@.len() ==> (#[trigger] dir@[i])@ == found@[i]@),
{
    if let Some(dir) = remembered {
        let a = path_parts(dir@);
        let b = path_parts(found@);
        if dir@.len() == found@.len() && forall|i: int|
            0 <= i < dir@.len() ==> (#[trigger] dir@[i])@ == found@[i]@ {
            assert(a =~= b);
        }
        if a == b {
            assert(a.len() == b.len());
            assert forall|i: int| 0 <= i < dir@.len() implies (#[trigger] dir@[i])@
                == found@[i]@ by {
                assert(a[i] == b[i]);
            }
        }
    }
}

} // verus!
