# direnv-instant

The verified part of a front end that runs `direnv` in the background and shows
its log below the shell.

- `src/` is a Verus library. It decides and it draws: it turns a log into the rows
  of a pane (`log`, `pane`), lays the pane out (`layout`), writes the control
  sequences that draw it (`ctl`), chooses and calls a multiplexer (`mux`), and says
  step by step what a prompt (`start`, `envrc`) and a viewer (`watch`, `pty`) have
  to do. `pane_laws` says what the pane shows of a log that comes in pieces while
  the terminal changes its size. `screen` models a terminal, and proves on it what
  the pane does to the shell: its lines and its cursor stay, and in the end it has
  the screen back. That is proved for a terminal that does not change its size from
  setup to teardown, leaves the shell at least two rows, and has its cursor in the
  row that the pane takes it to be in, and for text that stays on its line. Lines
  that had to be taken from the shell to make room come back blank.
- `app/` is ordinary Rust around it: environment variables, terminals, sockets and
  processes. The shell and the background process are behind the trait
  `start::Host`.
- `tests/` runs the library, among others on a small terminal.

`timeout` takes two values from the `nix` crate; what is claimed of them stands
there.
