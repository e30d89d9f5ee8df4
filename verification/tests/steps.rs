use direnv_instant::envrc::EnvrcStep;
use direnv_instant::pty::{first_passed_fd, watch_request, ControlMsg, PtyStep};
use direnv_instant::start::{
    parent_pid, remembers_other_dir, DaemonFiles, StartEffect, StartFacts, StartStep, StartVar,
};
use direnv_instant::timeout::{reply_timeout, round_timeout};
use direnv_instant::watch::{got_data, log_wait_over, split_config, WatchStep};

fn start_run(yes: &[StartStep]) -> Vec<StartStep> {
    let mut steps = vec![StartStep::first()];
    loop {
        let step = *steps.last().unwrap();
        match step.next(yes.contains(&step)) {
            Some(next) => steps.push(next),
            None => return steps,
        }
    }
}

#[test]
fn nushell_is_handed_over() {
    assert_eq!(
        start_run(&[StartStep::AskNushell]),
        [StartStep::AskNushell, StartStep::RunNushell]
    );
}

#[test]
fn without_envrc_direnv_runs_quietly() {
    assert_eq!(
        start_run(&[]),
        [
            StartStep::AskNushell,
            StartStep::FindEnvrc,
            StartStep::UnsetCurrentDir,
            StartStep::RunDirenv { show_errors: false },
        ]
    );
}

#[test]
fn without_multiplexer_direnv_runs_in_place() {
    assert_eq!(
        start_run(&[StartStep::FindEnvrc, StartStep::AskOtherDir]),
        [
            StartStep::AskNushell,
            StartStep::FindEnvrc,
            StartStep::AskOtherDir,
            StartStep::StopDaemon,
            StartStep::Export(StartVar::CurrentDir),
            StartStep::DetectMultiplexer,
            StartStep::RunDirenv { show_errors: true },
        ]
    );
}

#[test]
fn without_files_direnv_runs_in_place() {
    let steps = start_run(&[StartStep::FindEnvrc, StartStep::DetectMultiplexer]);
    assert_eq!(
        steps[5..],
        [
            StartStep::CreateContext,
            StartStep::ReportContextError,
            StartStep::RunDirenv { show_errors: true },
        ]
    );
}

#[test]
fn daemon_is_started_or_told() {
    let yes = [
        StartStep::FindEnvrc,
        StartStep::DetectMultiplexer,
        StartStep::CreateContext,
        StartStep::AskSocket,
        StartStep::NotifyDaemon,
    ];
    assert_eq!(
        start_run(&yes)[5..],
        [
            StartStep::CreateContext,
            StartStep::Export(StartVar::EnvFile),
            StartStep::Export(StartVar::StderrFile),
            StartStep::AskSocket,
            StartStep::NotifyDaemon,
            StartStep::CleanupTempFiles,
        ]
    );
    assert_eq!(*start_run(&yes[..4]).last().unwrap(), StartStep::StartDaemon);
    let steps = start_run(&yes[..3]);
    assert_eq!(*steps.last().unwrap(), StartStep::StartDaemon);
    assert!(!steps.contains(&StartStep::NotifyDaemon));
}

#[test]
fn names_of_the_variables() {
    assert_eq!(StartVar::CurrentDir.name(), "__DIRENV_INSTANT_CURRENT_DIR");
    assert_eq!(StartVar::EnvFile.name(), "__DIRENV_INSTANT_ENV_FILE");
    assert_eq!(StartVar::StderrFile.name(), "__DIRENV_INSTANT_STDERR_FILE");
}

fn facts() -> StartFacts {
    StartFacts {
        parent_pid: 42,
        dir_path: b"/home/\xffnew".to_vec(),
        dir: "/home/new".to_string(),
        remembered: Some("/home/old".to_string()),
        files: DaemonFiles {
            env_file: b"/tmp/\xffenv".to_vec(),
            stderr_file: b"/tmp/\xffstderr".to_vec(),
            socket: b"/run/\xffsocket".to_vec(),
        },
        env_file: "/tmp/env".to_string(),
        stderr_file: "/tmp/stderr".to_string(),
    }
}

#[test]
fn variables_get_their_own_values() {
    for (var, name, value) in [
        (StartVar::CurrentDir, "__DIRENV_INSTANT_CURRENT_DIR", "/home/new"),
        (StartVar::EnvFile, "__DIRENV_INSTANT_ENV_FILE", "/tmp/env"),
        (StartVar::StderrFile, "__DIRENV_INSTANT_STDERR_FILE", "/tmp/stderr"),
    ] {
        assert_eq!(var.value(&facts()), value);
        match StartStep::Export(var).effect(&facts()) {
            StartEffect::Export { name: n, value: v } => assert_eq!((n.as_str(), v.as_str()), (name, value)),
            _ => panic!("must export"),
        }
    }
    match StartStep::UnsetCurrentDir.effect(&facts()) {
        StartEffect::Unset { name } => assert_eq!(name, "__DIRENV_INSTANT_CURRENT_DIR"),
        _ => panic!("must unset"),
    }
}

#[test]
fn remembered_directory_is_the_one_stopped() {
    match StartStep::StopDaemon.effect(&facts()) {
        StartEffect::StopDaemon { dir } => assert_eq!(dir, "/home/old"),
        _ => panic!("must stop"),
    }
    let mut nothing = facts();
    nothing.remembered = None;
    assert!(matches!(StartStep::StopDaemon.effect(&nothing), StartEffect::Nothing));
}

#[test]
fn other_effects_of_the_steps() {
    assert!(matches!(
        StartStep::RunNushell.effect(&facts()),
        StartEffect::RunNushell { parent_pid: 42 }
    ));
    for shown in [true, false] {
        match (StartStep::RunDirenv { show_errors: shown }).effect(&facts()) {
            StartEffect::RunDirenv { program, show_errors } => {
                assert_eq!((program.as_str(), show_errors), ("direnv", shown))
            }
            _ => panic!("must run"),
        }
    }
    assert!(matches!(
        StartStep::ReportContextError.effect(&facts()),
        StartEffect::ReportContextError
    ));
    for step in [
        StartStep::AskNushell,
        StartStep::FindEnvrc,
        StartStep::AskOtherDir,
        StartStep::DetectMultiplexer,
    ] {
        assert!(matches!(step.effect(&facts()), StartEffect::Nothing));
    }
}

#[test]
fn files_are_made_for_the_found_directory() {
    match StartStep::CreateContext.effect(&facts()) {
        StartEffect::CreateContext { parent_pid, dir_path } => {
            assert_eq!(parent_pid, 42);
            assert_eq!(dir_path, b"/home/\xffnew");
        }
        _ => panic!("must make files"),
    }
}

#[test]
fn socket_looked_for_is_the_one_notified() {
    match StartStep::AskSocket.effect(&facts()) {
        StartEffect::LookForSocket { socket } => assert_eq!(socket, b"/run/\xffsocket"),
        _ => panic!("must look"),
    }
    match StartStep::NotifyDaemon.effect(&facts()) {
        StartEffect::NotifyDaemon { socket, parent_pid } => {
            assert_eq!(socket, b"/run/\xffsocket");
            assert_eq!(parent_pid, 42);
        }
        _ => panic!("must notify"),
    }
}

fn assert_own_files(files: &DaemonFiles) {
    assert_eq!(files.env_file, b"/tmp/\xffenv");
    assert_eq!(files.stderr_file, b"/tmp/\xffstderr");
    assert_eq!(files.socket, b"/run/\xffsocket");
}

#[test]
fn files_removed_or_handed_on_are_those_made() {
    match StartStep::CleanupTempFiles.effect(&facts()) {
        StartEffect::CleanupTempFiles { files } => assert_own_files(&files),
        _ => panic!("must clean up"),
    }
    match StartStep::StartDaemon.effect(&facts()) {
        StartEffect::StartDaemon { program, dir_path, files } => {
            assert_eq!(program, "direnv");
            assert_eq!(dir_path, b"/home/\xffnew");
            assert_own_files(&files);
        }
        _ => panic!("must start"),
    }
}

#[test]
fn process_to_signal() {
    assert_eq!(parent_pid(Some("123"), 7), 123);
    assert_eq!(parent_pid(Some("-1"), 7), -1);
    assert_eq!(parent_pid(Some("x"), 7), 7);
    assert_eq!(parent_pid(Some("2147483648"), 7), 7);
    assert_eq!(parent_pid(None, 7), 7);
}

fn parts(path: &[&str]) -> Vec<Vec<u8>> {
    path.iter().map(|part| part.as_bytes().to_vec()).collect()
}

#[test]
fn directories_are_compared_part_by_part() {
    let found = parts(&["/", "home", "project"]);
    assert!(!remembers_other_dir(&None, &found));
    assert!(!remembers_other_dir(&Some(parts(&["/", "home", "project"])), &found));
    assert!(remembers_other_dir(&Some(parts(&["/", "home"])), &found));
    assert!(remembers_other_dir(&Some(parts(&["/", "home", "Project"])), &found));
    assert!(remembers_other_dir(&Some(parts(&["/", "homeproject"])), &found));
    assert!(remembers_other_dir(&Some(parts(&["home", "project"])), &found));
}

fn search(holds: &[bool]) -> Option<usize> {
    let mut dir = 0;
    let mut step = EnvrcStep::first();
    loop {
        let yes = match step {
            EnvrcStep::TakeCurrentDir => !holds.is_empty(),
            EnvrcStep::Probe => holds[dir],
            EnvrcStep::Ascend => {
                dir += 1;
                dir < holds.len()
            }
            EnvrcStep::Found => return Some(dir),
            EnvrcStep::NotFound => return None,
        };
        step = step.next(yes).unwrap();
    }
}

#[test]
fn nearest_envrc_is_found() {
    assert_eq!(search(&[]), None);
    assert_eq!(search(&[false, false, false]), None);
    assert_eq!(search(&[true, true]), Some(0));
    assert_eq!(search(&[false, false, true, true]), Some(2));
    assert_eq!(EnvrcStep::Found.next(true), None);
    assert_eq!(EnvrcStep::NotFound.next(true), None);
}

fn walk(from: WatchStep, answers: &[bool]) -> Vec<WatchStep> {
    let mut steps = vec![from];
    for &yes in answers {
        steps.push(steps.last().unwrap().next(yes).unwrap());
    }
    steps
}

#[test]
fn viewer_that_cannot_start() {
    assert_eq!(walk(WatchStep::first(), &[false])[1], WatchStep::ReportTty);
    assert_eq!(
        walk(WatchStep::first(), &[true, false, false, true, false, true])[1..],
        [
            WatchStep::OpenLog,
            WatchStep::AskTimeout,
            WatchStep::Pause,
            WatchStep::OpenLog,
            WatchStep::AskTimeout,
            WatchStep::ReportTimeout,
        ]
    );
    for last in [
        WatchStep::ReportTty,
        WatchStep::ReportTimeout,
        WatchStep::Leave,
        WatchStep::Teardown,
    ] {
        assert_eq!(last.next(true), None);
        assert_eq!(last.next(false), None);
    }
}

#[test]
fn viewer_from_split_to_first_round() {
    assert_eq!(
        walk(WatchStep::OpenLog, &[true, true, true, true, true])[1..],
        [
            WatchStep::Setup,
            WatchStep::RequestPty,
            WatchStep::SetPtySize,
            WatchStep::Connect,
            WatchStep::Resize,
        ]
    );
    assert_eq!(
        walk(WatchStep::RequestPty, &[false, false])[1..],
        [WatchStep::Connect, WatchStep::Leave]
    );
}

#[test]
fn viewer_rounds_and_end() {
    assert_eq!(
        walk(WatchStep::Resize, &[true, false, true, true, true])[1..],
        [
            WatchStep::AwaitSocket,
            WatchStep::ReadLog,
            WatchStep::Ingest,
            WatchStep::Redraw,
            WatchStep::Resize,
        ]
    );
    assert_eq!(
        walk(WatchStep::AwaitSocket, &[true, true, false])[1..],
        [WatchStep::ReadSocket, WatchStep::ReadLog, WatchStep::Redraw]
    );
    assert_eq!(
        walk(WatchStep::ReadSocket, &[false, true, true, false, true])[1..],
        [
            WatchStep::DrainLog,
            WatchStep::IngestRest,
            WatchStep::DrainLog,
            WatchStep::LastRedraw,
            WatchStep::Teardown,
        ]
    );
}

#[test]
fn small_answers_of_the_viewer() {
    assert!(got_data(Some(1)));
    assert!(!got_data(Some(0)));
    assert!(!got_data(None));
    assert!(!log_wait_over(5_000_000_000));
    assert!(log_wait_over(5_000_000_001));
    assert_eq!(split_config(Some("12")).cursor_row, Some(12));
    assert_eq!(split_config(Some("65536")).cursor_row, None);
    assert_eq!(split_config(None).cursor_row, None);
    assert_eq!(split_config(None).preferred_pane_rows, 10);
}

#[test]
fn waiting_times() {
    let reply = reply_timeout();
    assert_eq!((reply.seconds, reply.microseconds), (5, 0));
    let round = round_timeout();
    assert_eq!((round.seconds, round.microseconds), (0, 50_000));
}

#[test]
fn request_for_the_terminal() {
    let mut step = PtyStep::first();
    let mut steps = vec![step];
    while let Some(next) = step.next(true) {
        step = next;
        steps.push(step);
    }
    assert_eq!(
        steps,
        [
            PtyStep::Connect,
            PtyStep::Send,
            PtyStep::AwaitReply,
            PtyStep::Receive,
            PtyStep::TakeDescriptor,
        ]
    );
    for step in &steps[..4] {
        assert_eq!(step.next(false), Some(PtyStep::GiveUp));
    }
    assert_eq!(PtyStep::GiveUp.next(true), None);
    assert_eq!(watch_request(), b"WATCH\n");
}

#[test]
fn first_descriptor_is_taken() {
    assert_eq!(first_passed_fd(&vec![]), None);
    assert_eq!(first_passed_fd(&vec![ControlMsg::Other, ControlMsg::Rights(vec![])]), None);
    let msgs = vec![
        ControlMsg::Other,
        ControlMsg::Rights(vec![]),
        ControlMsg::Rights(vec![9, 4]),
        ControlMsg::Rights(vec![5]),
    ];
    assert_eq!(first_passed_fd(&msgs), Some(9));
}
