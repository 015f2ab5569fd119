use vmux::tmux::{
    bell_windows_from_output, sessions_from_output, CommandOutput, RealTmuxAdapter, TmuxAdapter,
    TmuxBellWindow, TmuxCommand, TmuxError, TmuxSession,
};

struct FakeTmux {
    sessions: Vec<TmuxSession>,
    bell_windows: Vec<TmuxBellWindow>,
    last_client: std::cell::RefCell<Vec<String>>,
}

impl FakeTmux {
    fn new(names: &[&str]) -> Self {
        let sessions = names
            .iter()
            .map(|name| TmuxSession {
                id: (*name).to_string(),
                name: (*name).to_string(),
                windows: None,
                attached: false,
            })
            .collect();
        Self {
            sessions,
            bell_windows: Vec::new(),
            last_client: std::cell::RefCell::new(Vec::new()),
        }
    }

    fn with_bell_windows(names: &[&str], bell_windows: Vec<TmuxBellWindow>) -> Self {
        let mut fake = Self::new(names);
        fake.bell_windows = bell_windows;
        fake
    }
}

impl TmuxAdapter for FakeTmux {
    fn list_sessions(&mut self) -> Result<Vec<TmuxSession>, TmuxError> {
        Ok(self.sessions.clone())
    }

    fn list_bell_windows(&mut self) -> Result<Vec<TmuxBellWindow>, TmuxError> {
        Ok(self.bell_windows.clone())
    }

    fn build_client_command(
        &mut self,
        session_name: &str,
        _window_id: Option<&str>,
        _pane_id: Option<&str>,
    ) -> Result<TmuxCommand, TmuxError> {
        self.last_client.borrow_mut().push(session_name.to_string());
        Ok(TmuxCommand {
            program: "tmux-client-placeholder".to_string(),
            args: Vec::new(),
        })
    }
}

#[test]
fn fake_tmux_adapter_records_client_build() {
    let mut fake = FakeTmux::new(&["one", "two"]);
    let sessions = fake.list_sessions().unwrap();
    assert_eq!(sessions.len(), 2);

    let _cmd = fake.build_client_command("two", None, None).unwrap();
    assert_eq!(fake.last_client.borrow().as_slice(), &["two".to_string()]);
}

#[test]
fn real_tmux_adapter_builds_exact_pane_target_command() {
    let adapter = RealTmuxAdapter::from_env(None);
    let cmd = adapter.build_client_command("demo", Some("@7"), Some("%9"));

    assert_eq!(cmd.program, "tmux");
    assert_eq!(
        cmd.args,
        vec![
            "attach-session".to_string(),
            "-t".to_string(),
            "demo".to_string(),
            ";".to_string(),
            "select-window".to_string(),
            "-t".to_string(),
            "@7".to_string(),
            ";".to_string(),
            "select-pane".to_string(),
            "-t".to_string(),
            "%9".to_string(),
        ]
    );
}

#[test]
fn fake_tmux_adapter_returns_bell_windows() {
    let mut fake = FakeTmux::with_bell_windows(
        &["one", "two"],
        vec![TmuxBellWindow {
            session_name: "one".to_string(),
            window_id: "@1".to_string(),
        }],
    );

    let bell_windows = fake.list_bell_windows().unwrap();
    assert_eq!(bell_windows.len(), 1);
    assert_eq!(bell_windows[0].session_name, "one");
    assert_eq!(bell_windows[0].window_id, "@1");
}

fn wrote(stdout: &[u8]) -> Result<CommandOutput, String> {
    Ok(CommandOutput {
        success: true,
        status: "exit status: 0".to_string(),
        stdout: stdout.to_vec(),
    })
}

fn session(id: &str, name: &str, windows: Option<u32>, attached: bool) -> TmuxSession {
    TmuxSession {
        id: id.to_string(),
        name: name.to_string(),
        windows,
        attached,
    }
}

#[test]
fn sessions_are_read_from_what_tmux_lists() {
    assert_eq!(
        sessions_from_output(wrote(b"$1\tmain\t3\t1\n\n$2\tops: a\tx\t0\r\n")),
        Ok(vec![
            session("$1", "main", Some(3), true),
            session("$2", "ops: a", None, false),
        ])
    );
    assert_eq!(sessions_from_output(wrote(b"")), Ok(Vec::new()));
    assert_eq!(
        sessions_from_output(wrote(b"$1\tmain\t4294967295\t0\tmore\n$2\tn\t4294967296\t0")),
        Ok(vec![
            session("$1", "main", Some(u32::MAX), false),
            session("$2", "n", None, false),
        ])
    );
}

#[test]
fn bad_lists_of_sessions_are_refused() {
    assert_eq!(
        sessions_from_output(wrote(b"$1\tmain\t3\t1\n$2:ops:1:0\nx\n")),
        Err(TmuxError::Parse("unexpected list-sessions line: $2:ops:1:0".to_string()))
    );
    assert_eq!(
        sessions_from_output(wrote(b"$1\tmain\t3\tyes\n")),
        Err(TmuxError::Parse(
            "unexpected attached flag 'yes' in line: $1\tmain\t3\tyes".to_string()
        ))
    );
    assert_eq!(
        sessions_from_output(wrote(b"\xff")),
        Err(TmuxError::Utf8(
            "invalid utf-8 sequence of 1 bytes from index 0".to_string()
        ))
    );
    assert_eq!(
        sessions_from_output(Err("not found".to_string())),
        Err(TmuxError::Io("not found".to_string()))
    );
    assert_eq!(
        sessions_from_output(Ok(CommandOutput {
            success: false,
            status: "exit status: 1".to_string(),
            stdout: Vec::new(),
        })),
        Err(TmuxError::TmuxFailed(
            "tmux list-sessions exited with status exit status: 1".to_string()
        ))
    );
}

#[test]
fn windows_with_a_bell_are_read_from_what_tmux_lists() {
    assert_eq!(
        bell_windows_from_output(wrote(b"one:@1:1\n \none:@2:0\ntwo:@3:1:x\n")),
        Ok(vec![
            TmuxBellWindow {
                session_name: "one".to_string(),
                window_id: "@1".to_string(),
            },
            TmuxBellWindow {
                session_name: "two".to_string(),
                window_id: "@3".to_string(),
            },
        ])
    );
    assert_eq!(
        bell_windows_from_output(wrote(b"one:@1\n")),
        Err(TmuxError::Parse("unexpected list-windows line: one:@1".to_string()))
    );
    assert_eq!(
        bell_windows_from_output(Ok(CommandOutput {
            success: false,
            status: "signal: 9".to_string(),
            stdout: b"one:@1:1\n".to_vec(),
        })),
        Err(TmuxError::TmuxFailed(
            "tmux list-windows exited with status signal: 9".to_string()
        ))
    );
}

#[test]
fn commands_go_to_the_named_socket() {
    let adapter = RealTmuxAdapter::from_env(Some("ops".to_string()));
    let command = adapter.list_sessions_command();
    assert_eq!(command.program, "tmux");
    assert_eq!(
        command.args,
        vec![
            "-L",
            "ops",
            "list-sessions",
            "-F",
            "#{session_id}\t#S\t#{session_windows}\t#{?session_attached,1,0}",
        ]
    );
    let adapter = RealTmuxAdapter::from_env(None);
    assert_eq!(
        adapter.list_bell_windows_command().args,
        vec!["list-windows", "-a", "-F", "#S:#{window_id}:#{window_bell_flag}"]
    );
    assert_eq!(
        adapter.build_client_command("$1", None, None).args,
        vec!["attach-session", "-t", "$1"]
    );
    assert_eq!(
        adapter.build_client_command("$1", None, Some("%2")).args,
        vec!["attach-session", "-t", "$1", ";", "select-pane", "-t", "%2"]
    );
}

#[test]
fn tmux_errors_are_put_in_words() {
    let words = "x".to_string();
    assert_eq!(TmuxError::Io(words.clone()).message(), "tmux io error: x");
    assert_eq!(TmuxError::Utf8(words.clone()).message(), "tmux utf8 error: x");
    assert_eq!(TmuxError::TmuxFailed(words.clone()).message(), "tmux failed: x");
    assert_eq!(TmuxError::Parse(words).message(), "tmux parse error: x");
}
