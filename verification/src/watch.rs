//! The viewer that shows a log in a pane below the shell, step by step.

use crate::layout::SplitConfig;
use crate::pane::{PaneState, SplitPane};
use crate::pane_laws::PaneEvent;
use crate::winsize::{set_winsize, WinSize};
use crate::{decimal, layout, log, pane_laws};
use vstd::prelude::*;

verus! {

/// How long the log file may take to appear, in nanoseconds.
pub const LOG_WAIT_NANOS: u128 = 5_000_000_000;

/// How long is waited between two looks for the log file, in milliseconds.
pub const LOG_POLL_MILLIS: u64 = 50;

/// How much is read at once.
pub const READ_SIZE: usize = 8192;

/// How much of the reply of the background process is read.
pub const REPLY_SIZE: usize = 16;

/// What the terminal that `direnv` writes to is told: it has the pane's rows and
/// the columns of the terminal that the pane is on.
pub fn pty_size(pane: &SplitPane) -> (request: WinSize)
    ensures
        request.rows == pane@.pane_rows,
        request.cols == pane@.cols,
        request == (WinSize {
            rows: pane@.pane_rows as u16,
            cols: pane@.cols as u16,
            x_pixels: 0,
            y_pixels: 0,
        }),
{
    let (rows, cols) = pane.pane_size();
    set_winsize(rows, cols)
}

/// The cursor's row that is set, where it is set to a number that can be one.
pub open spec fn cursor_row(setting: Option<&str>) -> Option<nat> {
    match setting {
        Some(text) => decimal::unsigned_value(text@, u16::MAX as nat),
        None => None,
    }
}

/// The proportions of the split, for the cursor's row that is set, if one is.
pub fn split_config(setting: Option<&str>) -> (config: SplitConfig)
    ensures
        config == (SplitConfig {
            min_pane_rows: 2,
            max_pane_rows: 10,
            preferred_pane_rows: 10,
            min_top_rows: 22,
            cursor_row: match cursor_row(setting) {
                Some(row) => Some(row as u16),
                None => None,
            },
        }),
        config.valid(),
{
    match setting {
        Some(text) => match decimal::parse_unsigned(text, u16::MAX as u64) {
            Some(row) => SplitConfig::tmux_like(row as u16),
            None => SplitConfig::tmux_like_current_row(),
        },
        None => SplitConfig::tmux_like_current_row(),
    }
}

/// Whether the log file has taken too long to appear.
pub fn log_wait_over(elapsed_nanos: u128) -> (over: bool)
    ensures
        over == (elapsed_nanos > LOG_WAIT_NANOS),
{
    elapsed_nanos > LOG_WAIT_NANOS
}

/// Whether a read gave something: it worked, and it was not the end.
pub fn got_data(count: Option<usize>) -> (yes: bool)
    ensures
        yes == (count matches Some(n) && n > 0),
{
    match count {
        Some(n) => n > 0,
        None => false,
    }
}

/// One thing for the viewer to do. Some are questions, answered with yes or no.
#[derive(Debug, Clone, Copy, PartialEq, Eq, Structural)]
pub enum WatchStep {
    /// Open the terminal. Did it work?
    OpenTty,
    /// Say that the terminal could not be opened. Last step.
    ReportTty,
    /// Open the log file. Did it work?
    OpenLog,
    /// Has the log file taken too long?
    AskTimeout,
    /// Say so. Last step.
    ReportTimeout,
    /// Wait a little.
    Pause,
    /// Split the screen.
    Setup,
    /// Ask for the terminal that `direnv` writes to. Was it handed over?
    RequestPty,
    /// Give it the pane's size, as `pty_size` says.
    SetPtySize,
    /// Connect to the background process. Did it work?
    Connect,
    /// Go without a word. Last step.
    Leave,
    /// Follow a change of the terminal's size.
    Resize,
    /// Wait for one round. Did the background process send something, or go?
    AwaitSocket,
    /// Read what it sent. Is it still there?
    ReadSocket,
    /// Read on in the log. Was there more?
    ReadLog,
    /// Take in what was read.
    Ingest,
    /// Draw the pane.
    Redraw,
    /// Read the rest of the log. Was there more?
    DrainLog,
    /// Take in what was read of the rest.
    IngestRest,
    /// Draw the pane a last time.
    LastRedraw,
    /// Undo the split. Last step.
    Teardown,
}

impl WatchStep {
    /// Nothing follows.
    pub open spec fn is_last(self) -> bool {
        self is ReportTty || self is ReportTimeout || self is Leave || self is Teardown
    }

    /// The step that follows, where `yes` is the answer to a question.
    pub open spec fn successor(self, yes: bool) -> Option<WatchStep> {
        match self {
            WatchStep::OpenTty => Some(
                if yes {
                    WatchStep::OpenLog
                } else {
                    WatchStep::ReportTty
                },
            ),
            WatchStep::OpenLog => Some(
                if yes {
                    WatchStep::Setup
                } else {
                    WatchStep::AskTimeout
                },
            ),
            WatchStep::AskTimeout => Some(
                if yes {
                    WatchStep::ReportTimeout
                } else {
                    WatchStep::Pause
                },
            ),
            WatchStep::Pause => Some(WatchStep::OpenLog),
            WatchStep::Setup => Some(WatchStep::RequestPty),
            WatchStep::RequestPty => Some(
                if yes {
                    WatchStep::SetPtySize
                } else {
                    WatchStep::Connect
                },
            ),
            WatchStep::SetPtySize => Some(WatchStep::Connect),
            WatchStep::Connect => Some(
                if yes {
                    WatchStep::Resize
                } else {
                    WatchStep::Leave
                },
            ),
            WatchStep::Resize => Some(WatchStep::AwaitSocket),
            WatchStep::AwaitSocket => Some(
                if yes {
                    WatchStep::ReadSocket
                } else {
                    WatchStep::ReadLog
                },
            ),
            WatchStep::ReadSocket => Some(
                if yes {
                    WatchStep::ReadLog
                } else {
                    WatchStep::DrainLog
                },
            ),
            WatchStep::ReadLog => Some(
                if yes {
                    WatchStep::Ingest
                } else {
                    WatchStep::Redraw
                },
            ),
            WatchStep::Ingest => Some(WatchStep::Redraw),
            WatchStep::Redraw => Some(WatchStep::Resize),
            WatchStep::DrainLog => Some(
                if yes {
                    WatchStep::IngestRest
                } else {
                    WatchStep::LastRedraw
                },
            ),
            WatchStep::IngestRest => Some(WatchStep::DrainLog),
            WatchStep::LastRedraw => Some(WatchStep::Teardown),
            _ => None,
        }
    }

    /// The first step.
    pub fn first() -> (step: Self)
        ensures
            step == WatchStep::OpenTty,
    {
        WatchStep::OpenTty
    }

    /// The step that follows, where `yes` is the answer to a question.
    pub fn next(self, yes: bool) -> (step: Option<Self>)
        ensures
            step == self.successor(yes),
            step is None <==> self.is_last(),
    {
        match self {
            WatchStep::OpenTty => if yes {
                Some(WatchStep::OpenLog)
            } else {
                Some(WatchStep::ReportTty)
            },
            WatchStep::OpenLog => if yes {
                Some(WatchStep::Setup)
            } else {
                Some(WatchStep::AskTimeout)
            },
            WatchStep::AskTimeout => if yes {
                Some(WatchStep::ReportTimeout)
            } else {
                Some(WatchStep::Pause)
            },
            WatchStep::Pause => Some(WatchStep::OpenLog),
            WatchStep::Setup => Some(WatchStep::RequestPty),
            WatchStep::RequestPty => if yes {
                Some(WatchStep::SetPtySize)
            } else {
                Some(WatchStep::Connect)
            },
            WatchStep::SetPtySize => Some(WatchStep::Connect),
            WatchStep::Connect => if yes {
                Some(WatchStep::Resize)
            } else {
                Some(WatchStep::Leave)
            },
            WatchStep::Resize => Some(WatchStep::AwaitSocket),
            WatchStep::AwaitSocket => if yes {
                Some(WatchStep::ReadSocket)
            } else {
                Some(WatchStep::ReadLog)
            },
            WatchStep::ReadSocket => if yes {
                Some(WatchStep::ReadLog)
            } else {
                Some(WatchStep::DrainLog)
            },
            WatchStep::ReadLog => if yes {
                Some(WatchStep::Ingest)
            } else {
                Some(WatchStep::Redraw)
            },
            WatchStep::Ingest => Some(WatchStep::Redraw),
            WatchStep::Redraw => Some(WatchStep::Resize),
            WatchStep::DrainLog => if yes {
                Some(WatchStep::IngestRest)
            } else {
                Some(WatchStep::LastRedraw)
            },
            WatchStep::IngestRest => Some(WatchStep::DrainLog),
            WatchStep::LastRedraw => Some(WatchStep::Teardown),
            WatchStep::ReportTty => None,
            WatchStep::ReportTimeout => None,
            WatchStep::Leave => None,
            WatchStep::Teardown => None,
        }
    }
}

/// `steps` is the beginning of a run in which the `i`-th step was answered with
/// `answers[i]`.
pub open spec fn is_run(steps: Seq<WatchStep>, answers: Seq<bool>) -> bool {
    &&& steps.len() > 0
    &&& steps.len() == answers.len()
    &&& steps[0] == WatchStep::OpenTty
    &&& forall|i: int|
        0 <= i < steps.len() - 1 ==> (#[trigger] steps[i]).successor(answers[i]) == Some(
            steps[i + 1],
        )
}

/// The stretch of a run that a step belongs to: the files are opened, the pane is
/// set up and the background process found, the log is followed, the rest of it is
/// shown.
pub open spec fn stretch(step: WatchStep) -> nat {
    match step {
        WatchStep::OpenTty
        | WatchStep::ReportTty
        | WatchStep::OpenLog
        | WatchStep::AskTimeout
        | WatchStep::ReportTimeout
        | WatchStep::Pause => 0,
        WatchStep::Setup
        | WatchStep::RequestPty
        | WatchStep::SetPtySize
        | WatchStep::Connect
        | WatchStep::Leave => 1,
        WatchStep::Resize
        | WatchStep::AwaitSocket
        | WatchStep::ReadSocket
        | WatchStep::ReadLog
        | WatchStep::Ingest
        | WatchStep::Redraw => 2,
        WatchStep::DrainLog
        | WatchStep::IngestRest
        | WatchStep::LastRedraw
        | WatchStep::Teardown => 3,
    }
}

/// A run never goes back to an earlier stretch.
pub proof fn law_run_goes_forward(steps: Seq<WatchStep>, answers: Seq<bool>, i: int, j: int)
    requires
        is_run(steps, answers),
        0 <= i <= j < steps.len(),
    ensures
        stretch(steps[i]) <= stretch(steps[j]),
    decreases j - i,
{
    if i < j {
        law_run_goes_forward(steps, answers, i, j - 1);
        assert(steps[j - 1].successor(answers[j - 1]) == Some(steps[j]));
    }
}

/// The screen is split at most once, and nothing is drawn or taken in before.
pub proof fn law_split_once_before_drawing(steps: Seq<WatchStep>, answers: Seq<bool>, j: int)
    requires
        is_run(steps, answers),
        0 <= j < steps.len(),
        stretch(steps[j]) >= 1,
    ensures
        exists|i: int| 0 <= i <= j && #[trigger] steps[i] == WatchStep::Setup,
        forall|i: int, k: int|
            0 <= i < steps.len() && 0 <= k < steps.len() && #[trigger] steps[i] == WatchStep::Setup
                && #[trigger] steps[k] == WatchStep::Setup ==> i == k,
    decreases j,
{
    assert forall|i: int, k: int|
        0 <= i < steps.len() && 0 <= k < steps.len() && #[trigger] steps[i] == WatchStep::Setup
            && #[trigger] steps[k] == WatchStep::Setup implies i == k by {
        if i < k {
            law_run_goes_forward(steps, answers, i, k - 1);
            assert(steps[k - 1].successor(answers[k - 1]) == Some(steps[k]));
        } else if k < i {
            law_run_goes_forward(steps, answers, k, i - 1);
            assert(steps[i - 1].successor(answers[i - 1]) == Some(steps[i]));
        }
    }
    if steps[j] != WatchStep::Setup {
        assert(steps[j - 1].successor(answers[j - 1]) == Some(steps[j]));
        law_split_once_before_drawing(steps, answers, j - 1);
        let i = choose|i: int| 0 <= i <= j - 1 && #[trigger] steps[i] == WatchStep::Setup;
        assert(0 <= i <= j && steps[i] == WatchStep::Setup);
    }
}

/// Once the log is followed, a run ends in one way only: the split is undone.
pub proof fn law_split_is_undone(steps: Seq<WatchStep>, answers: Seq<bool>, i: int)
    requires
        is_run(steps, answers),
        0 <= i < steps.len(),
        steps[i] == WatchStep::Resize,
        steps.last().is_last(),
    ensures
        steps.last() == WatchStep::Teardown,
{
    law_run_goes_forward(steps, answers, i, steps.len() - 1);
}

/// What is read of the log is taken in at once, and drawn before more is read;
/// of the rest of the log, all is taken in before it is drawn.
pub proof fn law_what_is_read_is_shown(steps: Seq<WatchStep>, answers: Seq<bool>, i: int)
    requires
        is_run(steps, answers),
        0 <= i,
        i + 2 < steps.len(),
        answers[i],
    ensures
        steps[i] == WatchStep::ReadLog ==> steps[i + 1] == WatchStep::Ingest && steps[i + 2]
            == WatchStep::Redraw,
        steps[i] == WatchStep::DrainLog ==> steps[i + 1] == WatchStep::IngestRest && steps[i + 2]
            == WatchStep::DrainLog,
{
    assert(steps[i].successor(answers[i]) == Some(steps[i + 1]));
    assert(steps[i + 1].successor(answers[i + 1]) == Some(steps[i + 2]));
}

/// The split is undone only after the log was read to its end and the pane was
/// drawn once more, and that only after the background process had gone.
pub proof fn law_log_is_read_to_its_end(steps: Seq<WatchStep>, answers: Seq<bool>)
    requires
        is_run(steps, answers),
        steps.last() == WatchStep::Teardown,
    ensures
        steps.len() > 3,
        steps[steps.len() - 2] == WatchStep::LastRedraw,
        steps[steps.len() - 3] == WatchStep::DrainLog,
        !answers[steps.len() - 3],
        exists|i: int|
            0 <= i < steps.len() && #[trigger] steps[i] == WatchStep::ReadSocket && !answers[i],
{
    let n = steps.len() as int;
    assert(steps[n - 2].successor(answers[n - 2]) == Some(steps[n - 1]));
    assert(steps[n - 3].successor(answers[n - 3]) == Some(steps[n - 2]));
    lemma_drain_follows_close(steps, answers, n - 3);
}

/// The rest of the log is read only after the background process had gone.
proof fn lemma_drain_follows_close(steps: Seq<WatchStep>, answers: Seq<bool>, j: int)
    requires
        is_run(steps, answers),
        0 <= j < steps.len(),
        steps[j] is DrainLog || steps[j] is IngestRest,
    ensures
        exists|i: int|
            0 <= i < steps.len() && #[trigger] steps[i] == WatchStep::ReadSocket && !answers[i],
    decreases j,
{
    assert(steps[j - 1].successor(answers[j - 1]) == Some(steps[j]));
    if steps[j - 1] != WatchStep::ReadSocket {
        lemma_drain_follows_close(steps, answers, j - 1);
    }
}

/// What was read of the log in the first `n` steps, where `reads[i]` is what the
/// `i`-th step has read.
pub open spec fn pieces_read(
    steps: Seq<WatchStep>,
    answers: Seq<bool>,
    reads: Seq<Seq<u8>>,
    n: int,
) -> Seq<Seq<u8>>
    decreases n,
{
    if n <= 0 {
        seq![]
    } else if (steps[n - 1] is ReadLog || steps[n - 1] is DrainLog) && answers[n - 1] {
        pieces_read(steps, answers, reads, n - 1).push(reads[n - 1])
    } else {
        pieces_read(steps, answers, reads, n - 1)
    }
}

/// What was taken in in the first `n` steps: each time what the step before has
/// read.
pub open spec fn pieces_taken_in(
    steps: Seq<WatchStep>,
    reads: Seq<Seq<u8>>,
    n: int,
) -> Seq<Seq<u8>>
    decreases n,
{
    if n <= 0 {
        seq![]
    } else if steps[n - 1] is Ingest || steps[n - 1] is IngestRest {
        pieces_taken_in(steps, reads, n - 1).push(reads[n - 2])
    } else {
        pieces_taken_in(steps, reads, n - 1)
    }
}

/// The `n`-th step has read something that is not yet taken in.
pub open spec fn piece_is_waiting(steps: Seq<WatchStep>, answers: Seq<bool>, n: int) -> bool {
    n > 0 && (steps[n - 1] is ReadLog || steps[n - 1] is DrainLog) && answers[n - 1]
}

/// Everything that is read of the log is taken in, once and in order; only what
/// the last step has read may still be waiting.
pub proof fn law_everything_read_is_taken_in(
    steps: Seq<WatchStep>,
    answers: Seq<bool>,
    reads: Seq<Seq<u8>>,
    n: int,
)
    requires
        is_run(steps, answers),
        reads.len() == steps.len(),
        0 <= n <= steps.len(),
    ensures
        pieces_read(steps, answers, reads, n) == (if piece_is_waiting(steps, answers, n) {
            pieces_taken_in(steps, reads, n).push(reads[n - 1])
        } else {
            pieces_taken_in(steps, reads, n)
        }),
    decreases n,
{
    if n > 0 {
        law_everything_read_is_taken_in(steps, answers, reads, n - 1);
        if n > 1 {
            assert(steps[n - 2].successor(answers[n - 2]) == Some(steps[n - 1]));
        }
    }
}

/// When the split is undone, the pane has taken in all of the log that was read.
/// On a terminal that keeps its size it shows the end of it, at the terminal's
/// width.
pub proof fn law_viewer_shows_whole_log(
    steps: Seq<WatchStep>,
    answers: Seq<bool>,
    reads: Seq<Seq<u8>>,
    fresh: PaneState,
)
    requires
        is_run(steps, answers),
        reads.len() == steps.len(),
        steps.last() == WatchStep::Teardown,
        fresh.wf(),
        fresh.pane_rows > 0,
    ensures
        fresh.ingested_in_turn(pieces_taken_in(steps, reads, steps.len() as int))
            == fresh.ingested(
            log::joined(pieces_read(steps, answers, reads, steps.len() as int)),
        ),
{
    law_everything_read_is_taken_in(steps, answers, reads, steps.len() as int);
    pane_laws::law_ingest_in_pieces(fresh, pieces_read(steps, answers, reads, steps.len() as int));
}

/// What happens to the pane in the first `n` steps: it takes in what the step
/// before has read, and it follows the terminal's size, which `sizes` gives for
/// each step where it is known.
pub open spec fn pane_events(
    steps: Seq<WatchStep>,
    reads: Seq<Seq<u8>>,
    sizes: Seq<Option<(u16, u16)>>,
    n: int,
) -> Seq<PaneEvent>
    decreases n,
{
    if n <= 0 {
        seq![]
    } else if steps[n - 1] is Ingest || steps[n - 1] is IngestRest {
        pane_events(steps, reads, sizes, n - 1).push(PaneEvent::Piece(reads[n - 2]))
    } else if steps[n - 1] is Resize {
        pane_events(steps, reads, sizes, n - 1).push(PaneEvent::Size(sizes[n - 1]))
    } else {
        pane_events(steps, reads, sizes, n - 1)
    }
}

/// The pieces among the events, in order.
pub open spec fn pieces_among(events: Seq<PaneEvent>) -> Seq<Seq<u8>>
    decreases events.len(),
{
    if events.len() == 0 {
        seq![]
    } else {
        match events.last() {
            PaneEvent::Piece(data) => pieces_among(events.drop_last()).push(data),
            PaneEvent::Size(_) => pieces_among(events.drop_last()),
        }
    }
}

/// The pieces among the pane's events are those that are taken in.
proof fn lemma_pieces_among_events(
    steps: Seq<WatchStep>,
    reads: Seq<Seq<u8>>,
    sizes: Seq<Option<(u16, u16)>>,
    n: int,
)
    ensures
        pieces_among(pane_events(steps, reads, sizes, n)) == pieces_taken_in(steps, reads, n),
    decreases n,
{
    if n > 0 {
        lemma_pieces_among_events(steps, reads, sizes, n - 1);
        let before = pane_events(steps, reads, sizes, n - 1);
        let events = pane_events(steps, reads, sizes, n);
        if events != before {
            assert(events.drop_last() =~= before);
        }
    }
}

/// Every size that is known leaves a pane of these proportions at least one row.
pub open spec fn known_sizes_leave_a_row(
    config: SplitConfig,
    sizes: Seq<Option<(u16, u16)>>,
) -> bool {
    forall|i: int|
        0 <= i < sizes.len() ==> (#[trigger] sizes[i] matches Some(size) ==> layout::pane_height(
            size.0 as int,
            config,
        ) > 0)
}

/// The sizes among the pane's events leave it a row.
proof fn lemma_event_sizes_leave_a_row(
    config: SplitConfig,
    steps: Seq<WatchStep>,
    reads: Seq<Seq<u8>>,
    sizes: Seq<Option<(u16, u16)>>,
    n: int,
)
    requires
        known_sizes_leave_a_row(config, sizes),
        n <= sizes.len(),
    ensures
        pane_laws::sizes_leave_a_row(config, pane_events(steps, reads, sizes, n)),
    decreases n,
{
    if n > 0 {
        lemma_event_sizes_leave_a_row(config, steps, reads, sizes, n - 1);
        assert(sizes[n - 1] matches Some(size) ==> layout::pane_height(size.0 as int, config) > 0);
    }
}

/// Whatever sizes the terminal takes on the way, as long as each leaves the pane a
/// row: when the split is undone, the pane remembers the end of all of the log that
/// was read, each piece laid out at the width of its time, and shows it.
pub proof fn law_viewer_follows_log_and_terminal(
    steps: Seq<WatchStep>,
    answers: Seq<bool>,
    reads: Seq<Seq<u8>>,
    sizes: Seq<Option<(u16, u16)>>,
    fresh: PaneState,
)
    requires
        is_run(steps, answers),
        reads.len() == steps.len(),
        sizes.len() == steps.len(),
        steps.last() == WatchStep::Teardown,
        fresh.wf(),
        fresh.pane_rows > 0,
        known_sizes_leave_a_row(fresh.config, sizes),
    ensures
        ({
            let n = steps.len() as int;
            let events = pane_events(steps, reads, sizes, n);
            let pane = fresh.after_all(events);
            let whole = pane_laws::whole_log(fresh.log(), fresh.cols, events);
            let len = whole.lines.len() as int;
            let kept = pane.log().lines.len() as int;
            &&& pieces_among(events) == pieces_read(steps, answers, reads, n)
            &&& pane.wf()
            &&& 0 < kept <= len
            &&& pane.log().lines == whole.lines.skip(len - kept)
            &&& pane.log().col == whole.col
            &&& pane.log().esc == whole.esc
            &&& pane.rows == log::shown(pane.log().lines, pane.pane_rows)
        }),
{
    let n = steps.len() as int;
    law_everything_read_is_taken_in(steps, answers, reads, n);
    lemma_pieces_among_events(steps, reads, sizes, n);
    lemma_event_sizes_leave_a_row(fresh.config, steps, reads, sizes, n);
    pane_laws::law_pane_remembers_end_of_log(fresh, pane_events(steps, reads, sizes, n));
}

/// The background process is read from only when it has sent something or gone.
pub proof fn law_socket_is_read_when_ready(steps: Seq<WatchStep>, answers: Seq<bool>, i: int)
    requires
        is_run(steps, answers),
        0 <= i < steps.len(),
        steps[i] == WatchStep::ReadSocket,
    ensures
        i > 0,
        steps[i - 1] == WatchStep::AwaitSocket,
        answers[i - 1],
{
    assert(steps[i - 1].successor(answers[i - 1]) == Some(steps[i]));
}

/// `steps` is what comes of asking for the first step, and then for the one that
/// follows the answer to each.
pub open spec fn is_asked_for(steps: Seq<WatchStep>, answers: Seq<bool>) -> bool {
    &&& steps.len() > 0
    &&& steps.len() == answers.len()
    &&& call_ensures(WatchStep::first, (), steps[0])
    &&& forall|i: int|
        0 <= i < steps.len() - 1 ==> call_ensures(
            WatchStep::next,
            (#[trigger] steps[i], answers[i]),
            Some(steps[i + 1]),
        )
}

/// What is asked for is a run, so that all that holds of runs holds of it.
pub proof fn law_asking_makes_a_run(steps: Seq<WatchStep>, answers: Seq<bool>)
    requires
        is_asked_for(steps, answers),
    ensures
        is_run(steps, answers),
{
}

/// Nothing follows exactly these four steps.
pub proof fn law_viewer_ends_in_four_ways(step: WatchStep, yes: bool, next: Option<WatchStep>)
    requires
        call_ensures(WatchStep::next, (step, yes), next),
    ensures
        next is None <==> step == WatchStep::ReportTty || step == WatchStep::ReportTimeout || step
            == WatchStep::Leave || step == WatchStep::Teardown,
{
}

/// The terminal is opened first, and nothing is done without it but to say so. Then
/// the log file is opened, again and again with a pause between, until it is there or
/// has taken too long. Only when it is there the screen is split.
pub proof fn law_viewer_waits_for_the_log(steps: Seq<WatchStep>, answers: Seq<bool>, i: int)
    requires
        is_asked_for(steps, answers),
        0 <= i < steps.len() - 1,
    ensures
        steps[0] == WatchStep::OpenTty,
        steps[i] == WatchStep::OpenTty ==> steps[i + 1] == (if answers[i] {
            WatchStep::OpenLog
        } else {
            WatchStep::ReportTty
        }),
        steps[i] == WatchStep::OpenLog ==> steps[i + 1] == (if answers[i] {
            WatchStep::Setup
        } else {
            WatchStep::AskTimeout
        }),
        steps[i] == WatchStep::AskTimeout ==> steps[i + 1] == (if answers[i] {
            WatchStep::ReportTimeout
        } else {
            WatchStep::Pause
        }),
        steps[i] == WatchStep::Pause ==> steps[i + 1] == WatchStep::OpenLog,
{
    law_asking_makes_a_run(steps, answers);
}

/// After the split the terminal of `direnv` is asked for, and given the pane's size
/// exactly if it was handed over. Either way the background process is connected to;
/// the log is followed exactly if that worked.
pub proof fn law_viewer_connects_after_the_split(steps: Seq<WatchStep>, answers: Seq<bool>, i: int)
    requires
        is_asked_for(steps, answers),
        0 <= i < steps.len() - 1,
    ensures
        steps[i] == WatchStep::Setup ==> steps[i + 1] == WatchStep::RequestPty,
        steps[i] == WatchStep::RequestPty ==> steps[i + 1] == (if answers[i] {
            WatchStep::SetPtySize
        } else {
            WatchStep::Connect
        }),
        steps[i] == WatchStep::SetPtySize ==> steps[i + 1] == WatchStep::Connect,
        steps[i] == WatchStep::Connect ==> steps[i + 1] == (if answers[i] {
            WatchStep::Resize
        } else {
            WatchStep::Leave
        }),
{
    law_asking_makes_a_run(steps, answers);
}

/// Each round follows the terminal's size, waits for the background process, reads
/// from it exactly if it has something, reads on in the log unless that process has
/// gone, takes in what there was, and draws the pane before the next round.
pub proof fn law_viewer_goes_round(steps: Seq<WatchStep>, answers: Seq<bool>, i: int)
    requires
        is_asked_for(steps, answers),
        0 <= i < steps.len() - 1,
    ensures
        steps[i] == WatchStep::Resize ==> steps[i + 1] == WatchStep::AwaitSocket,
        steps[i] == WatchStep::AwaitSocket ==> steps[i + 1] == (if answers[i] {
            WatchStep::ReadSocket
        } else {
            WatchStep::ReadLog
        }),
        steps[i] == WatchStep::ReadSocket ==> steps[i + 1] == (if answers[i] {
            WatchStep::ReadLog
        } else {
            WatchStep::DrainLog
        }),
        steps[i] == WatchStep::ReadLog ==> steps[i + 1] == (if answers[i] {
            WatchStep::Ingest
        } else {
            WatchStep::Redraw
        }),
        steps[i] == WatchStep::Ingest ==> steps[i + 1] == WatchStep::Redraw,
        steps[i] == WatchStep::Redraw ==> steps[i + 1] == WatchStep::Resize,
{
    law_asking_makes_a_run(steps, answers);
}

/// Once the background process has gone, the rest of the log is taken in piece by
/// piece until there is no more; then the pane is drawn, and the split is undone.
pub proof fn law_viewer_shows_the_rest(steps: Seq<WatchStep>, answers: Seq<bool>, i: int)
    requires
        is_asked_for(steps, answers),
        0 <= i < steps.len() - 1,
    ensures
        steps[i] == WatchStep::DrainLog ==> steps[i + 1] == (if answers[i] {
            WatchStep::IngestRest
        } else {
            WatchStep::LastRedraw
        }),
        steps[i] == WatchStep::IngestRest ==> steps[i + 1] == WatchStep::DrainLog,
        steps[i] == WatchStep::LastRedraw ==> steps[i + 1] == WatchStep::Teardown,
{
    law_asking_makes_a_run(steps, answers);
}

/// The cursor's row is the number that is set, where one is set that can be a row,
/// and is left open where none is. The proportions are those of a tmux split.
pub proof fn law_cursor_row_is_taken_from_the_setting(setting: Option<&str>, config: SplitConfig)
    requires
        call_ensures(split_config, (setting,), config),
    ensures
        config.min_pane_rows == 2,
        config.max_pane_rows == 10,
        config.preferred_pane_rows == 10,
        config.min_top_rows == 22,
        setting is None ==> config.cursor_row is None,
        setting matches Some(text) ==> {
            let digits = decimal::after_sign(text@, '+');
            &&& forall|v: nat|
                v <= 0xffff && #[trigger] decimal::is_number(digits, v) ==> (
                config.cursor_row matches Some(row) && row == v)
            &&& (forall|v: nat| v <= 0xffff ==> !#[trigger] decimal::is_number(digits, v))
                ==> config.cursor_row is None
        },
{
    if let Some(text) = setting {
        decimal::lemma_unsigned_is_number(text@, u16::MAX as nat);
        let digits = decimal::after_sign(text@, '+');
        if let Some(w) = cursor_row(setting) {
            assert forall|v: nat| #[trigger] decimal::is_number(digits, v) implies v == w by {
                decimal::law_digits_name_one_number(v, w, decimal::digits_in(digits));
            }
        }
    }
}

/// The log file has five seconds, to the nanosecond; and a read gave something
/// exactly if it worked and gave at least one byte.
pub proof fn law_waiting_and_reading(
    elapsed_nanos: u128,
    over: bool,
    count: Option<usize>,
    yes: bool,
)
    requires
        call_ensures(log_wait_over, (elapsed_nanos,), over),
        call_ensures(got_data, (count,), yes),
    ensures
        over <==> elapsed_nanos > 5 * 1_000_000_000,
        count is None ==> !yes,
        count matches Some(n) ==> (yes <==> n >= 1),
{
}

/// The terminal that `direnv` writes to is as high as the pane and as wide as the
/// terminal that the pane is on, so that what fits on its lines fits in the pane.
pub proof fn law_pty_is_as_large_as_the_pane(pane: &SplitPane, request: WinSize, size: (u16, u16))
    requires
        call_ensures(pty_size, (pane,), request),
        call_ensures(SplitPane::pane_size, (pane,), size),
    ensures
        request.rows == size.0 && size.0 == pane@.pane_rows,
        request.cols == size.1 && size.1 == pane@.cols,
        request.x_pixels == 0,
        request.y_pixels == 0,
{
}

/// Between two looks for the log file a hundredth of the time is waited that it has.
/// Eight times 1024 bytes are read of the log at once, and of the reply
/// sixteen.
pub proof fn law_measures_of_the_viewer()
    ensures
        100 * (LOG_POLL_MILLIS * 1_000_000) == LOG_WAIT_NANOS,
        LOG_WAIT_NANOS == 5 * 1_000_000_000,
        READ_SIZE == 8 * 1024,
        REPLY_SIZE == 16,
{
}

} // verus!
