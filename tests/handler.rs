use task_server::{Action, ConnState, ReadEvent, Request, TaskKind};

fn line(s: &str) -> ReadEvent {
    ReadEvent::Line(s.to_string())
}

#[test]
fn ordinary_line_runs_ungated() {
    let (state, action) = ConnState::Reading.on_read(&line("1:42\n"));
    assert_eq!(state, ConnState::Reading);
    assert_eq!(action, Action::Run(Request { kind: TaskKind::Ordinary, seed: 42 }));
}

#[test]
fn cpu_intensive_line_runs_gated() {
    let (state, action) = ConnState::Reading.on_read(&line("0:7\n"));
    assert_eq!(state, ConnState::Reading);
    assert_eq!(
        action,
        Action::RunGated(Request { kind: TaskKind::CpuIntensive, seed: 7 })
    );
}

#[test]
fn bad_lines_keep_the_connection_open() {
    for bad in ["abc:xyz\n", "5\n", "999:1\n", "7:1\n"] {
        let (state, action) = ConnState::Reading.on_read(&line(bad));
        assert_eq!(state, ConnState::Reading);
        assert_eq!(action, Action::ReadNext);
    }
    let (state, action) = ConnState::Reading.on_read(&line("1:3\n"));
    assert_eq!(state, ConnState::Reading);
    assert_eq!(action, Action::Run(Request { kind: TaskKind::Ordinary, seed: 3 }));
}

#[test]
fn eof_and_errors_close() {
    assert_eq!(
        ConnState::Reading.on_read(&ReadEvent::Eof),
        (ConnState::Closed, Action::Close)
    );
    assert_eq!(
        ConnState::Reading.on_read(&ReadEvent::Failed),
        (ConnState::Closed, Action::Close)
    );
}

#[test]
fn closed_is_terminal() {
    assert_eq!(
        ConnState::Closed.on_read(&line("1:42\n")),
        (ConnState::Closed, Action::Close)
    );
}

#[test]
fn requests_run_in_line_order() {
    let lines = ["1:1\n", "0:2\n", "bad\n", "1:3\n", "0:4\n"];
    let mut state = ConnState::Reading;
    let mut seeds = Vec::new();
    for l in lines {
        let (next, action) = state.on_read(&line(l));
        state = next;
        match action {
            Action::Run(r) | Action::RunGated(r) => seeds.push(r.seed),
            Action::ReadNext => {}
            Action::Close => panic!("closed on a line"),
        }
    }
    assert_eq!(seeds, vec![1, 2, 3, 4]);
}

#[test]
fn unicode_padded_line_runs() {
    let (state, action) = ConnState::Reading.on_read(&line("\u{a0}1:2\u{3000}\n"));
    assert_eq!(state, ConnState::Reading);
    assert_eq!(action, Action::Run(Request { kind: TaskKind::Ordinary, seed: 2 }));
}
