use direnv_instant::mux::{
    kitty_launch_args, mux_delay_counts, mux_delay_ms, DaemonContext, Multiplexer, MuxEnv,
    SpawnEnv, SpawnError,
};

fn no_env() -> MuxEnv {
    MuxEnv {
        tmux: None,
        zellij: None,
        term_program: None,
        kitty_listen_on: None,
        inline_viewer: None,
    }
}

fn some(text: &str) -> Option<String> {
    Some(text.to_string())
}

fn ctx(tty: Option<&str>) -> DaemonContext {
    DaemonContext {
        temp_stderr: "/tmp/err".to_string(),
        socket_path: "/tmp/sock".to_string(),
        tty_path: tty.map(|t| t.to_string()),
        project_name: "project".to_string(),
    }
}

fn spawn_env() -> SpawnEnv {
    SpawnEnv {
        exe: some("/bin/di"),
        kitty_listen_on: Ok("unix:/k".to_string()),
        kitty_launch_args: None,
    }
}

#[test]
fn multiplexers_are_found_in_order() {
    assert_eq!(Multiplexer::detect(&no_env()), None);
    let mut env = no_env();
    env.inline_viewer = some("1");
    assert_eq!(Multiplexer::detect(&env), Some(Multiplexer::Inline));
    env.kitty_listen_on = some("unix:/k");
    assert_eq!(Multiplexer::detect(&env), Some(Multiplexer::Kitty));
    env.term_program = some("WezTerm");
    assert_eq!(Multiplexer::detect(&env), Some(Multiplexer::Wezterm));
    env.zellij = some("");
    assert_eq!(Multiplexer::detect(&env), Some(Multiplexer::Zellij));
    env.tmux = some("");
    assert_eq!(Multiplexer::detect(&env), Some(Multiplexer::Tmux));
}

#[test]
fn inline_viewer_is_off_at_zero() {
    let mut env = no_env();
    env.inline_viewer = some("0");
    assert_eq!(Multiplexer::detect(&env), None);
    env.inline_viewer = some("");
    assert_eq!(Multiplexer::detect(&env), Some(Multiplexer::Inline));
    env.term_program = some("wezterm");
    assert_eq!(Multiplexer::detect(&env), Some(Multiplexer::Inline));
}

#[test]
fn commands_of_the_multiplexers() {
    let tail = ["/bin/di", "watch", "/tmp/err", "/tmp/sock"];
    let cases: [(Multiplexer, &str, Vec<&str>); 4] = [
        (Multiplexer::Tmux, "tmux", vec!["split-window", "-d", "-l", "10"]),
        (
            Multiplexer::Zellij,
            "zellij",
            vec!["action", "new-pane", "-d", "down", "--width", "10", "--close-on-exit", "--"],
        ),
        (
            Multiplexer::Wezterm,
            "wezterm",
            vec!["cli", "split-pane", "--bottom", "--cells", "10"],
        ),
        (
            Multiplexer::Kitty,
            "kitty",
            vec![
                "@", "--to", "unix:/k", "launch", "--location", "vsplit", "--keep-focus", "--self",
            ],
        ),
    ];
    for (mux, program, mut args) in cases {
        args.extend(tail);
        let plan = match mux.spawn(&ctx(None), &spawn_env()) {
            Ok(plan) => plan,
            Err(_) => panic!("no command for {mux:?}"),
        };
        assert_eq!(plan.program, program);
        assert_eq!(plan.args, args);
        assert_eq!(plan.env, Vec::<(String, String)>::new());
    }
}

#[test]
fn inline_viewer_is_told_by_variables() {
    let plan = match Multiplexer::Inline.spawn(&ctx(Some("/dev/pts/3")), &spawn_env()) {
        Ok(plan) => plan,
        Err(_) => panic!("no command"),
    };
    assert_eq!(plan.program, "/bin/di");
    assert_eq!(plan.args, Vec::<String>::new());
    let expected = [
        ("DIRENV_INSTANT_INTERNAL_INLINE_VIEWER", "1"),
        ("DIRENV_INSTANT_INTERNAL_LOG_PATH", "/tmp/err"),
        ("DIRENV_INSTANT_INTERNAL_SOCKET_PATH", "/tmp/sock"),
        ("DIRENV_INSTANT_INTERNAL_TTY_PATH", "/dev/pts/3"),
        ("DIRENV_INSTANT_INTERNAL_PROJECT_NAME", "project"),
    ];
    assert_eq!(plan.env.len(), expected.len());
    for (set, want) in plan.env.iter().zip(expected) {
        assert_eq!((set.0.as_str(), set.1.as_str()), want);
    }
}

#[test]
fn viewer_is_called_by_name_where_its_path_is_not_known() {
    let mut env = spawn_env();
    env.exe = None;
    let plan = match Multiplexer::Tmux.spawn(&ctx(None), &env) {
        Ok(plan) => plan,
        Err(_) => panic!("no command"),
    };
    assert_eq!(plan.args[4], "direnv-instant");
}

#[test]
fn what_keeps_a_viewer_from_starting() {
    match Multiplexer::Inline.spawn(&ctx(None), &spawn_env()) {
        Err(e) => {
            assert!(matches!(e, SpawnError::NoTtyPath));
            assert_eq!(e.message(), "no TTY path for inline viewer");
        }
        Ok(_) => panic!("must fail"),
    }
    let mut env = spawn_env();
    env.kitty_listen_on = Err("environment variable not found".to_string());
    match Multiplexer::Kitty.spawn(&ctx(None), &env) {
        Err(e) => {
            assert!(matches!(e, SpawnError::Kitty(_)));
            assert_eq!(e.message(), "environment variable not found");
        }
        Ok(_) => panic!("must fail"),
    }
    assert!(Multiplexer::Tmux.spawn(&ctx(None), &env).is_ok());
}

#[test]
fn kitty_arguments_stand_on_lines() {
    for text in [
        "", "\n", "\r\n", "a", "a\n", "a\nb", "a\r\nb\r\n", "a\n\n\nb c\n", "a\r", "\r", "a\rb\n",
        "--x=é\n\n--y\r\r\n", "\n\na",
    ] {
        let expected: Vec<String> = text
            .lines()
            .filter(|arg| !arg.is_empty())
            .map(String::from)
            .collect();
        assert_eq!(kitty_launch_args(&some(text)), expected, "{text:?}");
    }
    assert_eq!(
        kitty_launch_args(&None),
        ["--location", "vsplit", "--keep-focus", "--self"]
    );
    assert_eq!(kitty_launch_args(&some("--a b\r\n\n--c\n")), ["--a b", "--c"]);
}

#[test]
fn delays() {
    assert_eq!(mux_delay_ms(None), 4000);
    assert_eq!(mux_delay_ms(Some("soon")), 4000);
    assert_eq!(mux_delay_ms(Some("-1")), 4000);
    assert_eq!(mux_delay_ms(Some("18446744073709551616")), 4000);
    assert_eq!(mux_delay_ms(Some("0")), 0);
    assert_eq!(mux_delay_ms(Some("+7")), 7000);
    assert_eq!(mux_delay_ms(Some("18446744073709551")), 18446744073709551000);
    assert!(mux_delay_counts(None));
    assert!(mux_delay_counts(Some("18446744073709551")));
    assert!(!mux_delay_counts(Some("18446744073709552")));
}
