use serde_json::Value;
use vmux::notify::{
    context_from_text, default_ledger_path, ledger_line, ledger_open_error, ledger_path_from_env,
    ledger_record_from_payload, live_context_command, live_context_from_output,
    load_recent_activity_windows, merge_tmux_context, run_notify, tmux_socket_spec_from_env,
    NotificationLedgerRecord, NotificationLedgerSession, NotificationPayloadV1,
    NotificationTerminal, NotificationTmuxContext, NotifyError, TmuxSocketSpec,
};
use vmux::panes::Timestamp;
use vmux::recent_activity::PayloadError;
use vmux::tmux::CommandOutput;

fn text(value: &Value, name: &str) -> String {
    value[name].as_str().unwrap().to_string()
}

fn optional(value: &Value, name: &str) -> Option<String> {
    value[name].as_str().map(|text| text.to_string())
}

fn record_from_line(line: &str) -> Option<NotificationLedgerRecord> {
    let value: Value = serde_json::from_str(line).ok()?;
    let session = &value["session"];
    Some(NotificationLedgerRecord {
        version: value["version"].as_u64().unwrap() as u8,
        kind: text(&value, "kind"),
        source: text(&value, "source"),
        timestamp: value["timestamp"].as_u64().unwrap(),
        title: text(&value, "title"),
        subtitle: text(&value, "subtitle"),
        body: text(&value, "body"),
        latest_assistant_message: text(&value, "latestAssistantMessage"),
        cwd: text(&value, "cwd"),
        platform: optional(&value, "platform"),
        terminal_bundle_id: optional(&value, "terminalBundleId"),
        session: NotificationLedgerSession {
            session_id: optional(session, "sessionId"),
            session_name: optional(session, "sessionName"),
            window_id: optional(session, "windowId"),
            window_index: session["windowIndex"].as_i64().map(|index| index as i32),
            window_name: optional(session, "windowName"),
            pane_id: optional(session, "paneId"),
            client_name: optional(session, "clientName"),
            client_pid: session["clientPid"].as_u64().map(|pid| pid as u32),
        },
    })
}

fn payload(tmux: Option<NotificationTmuxContext>) -> NotificationPayloadV1 {
    NotificationPayloadV1 {
        version: 1,
        title: "Demo".to_string(),
        subtitle: "Agent".to_string(),
        body: "Working \"hard\"".to_string(),
        latest_assistant_message: "Hello\nthere".to_string(),
        platform: "darwin".to_string(),
        timestamp: 1234567890,
        cwd: "/tmp".to_string(),
        terminal: NotificationTerminal { bundle_id: None },
        tmux,
    }
}

fn context() -> NotificationTmuxContext {
    NotificationTmuxContext {
        session_name: "main".to_string(),
        window_id: "@0".to_string(),
        window_index: -1,
        window_name: "w".to_string(),
        pane_id: "%0".to_string(),
        client_name: "zsh".to_string(),
        client_pid: Some(1234),
    }
}

fn nowhere() -> NotificationLedgerSession {
    NotificationLedgerSession {
        session_id: None,
        session_name: None,
        window_id: None,
        window_index: None,
        window_name: None,
        pane_id: None,
        client_name: None,
        client_pid: None,
    }
}

#[test]
fn load_recent_activity_windows_ignores_old_and_malformed_records() {
    let ledger = [
        "{\"version\":1,\"kind\":\"system-notification\",\"source\":\"vmux\",\"timestamp\":100000,\"title\":\"a\",\"subtitle\":\"b\",\"body\":\"c\",\"latestAssistantMessage\":\"d\",\"cwd\":\"/tmp\",\"session\":{\"sessionId\":\"%1\",\"sessionName\":\"one\",\"windowId\":\"@1\",\"windowIndex\":0,\"windowName\":\"main\",\"paneId\":\"%1\",\"clientName\":\"zsh\",\"clientPid\":123}}\n",
        "not json\n",
        "{\"version\":1,\"kind\":\"system-notification\",\"source\":\"vmux\",\"timestamp\":1,\"title\":\"old\",\"subtitle\":\"b\",\"body\":\"c\",\"latestAssistantMessage\":\"d\",\"cwd\":\"/tmp\",\"session\":{\"sessionId\":\"%2\",\"sessionName\":\"two\",\"windowId\":\"@2\",\"windowIndex\":0,\"windowName\":\"main\",\"paneId\":\"%2\",\"clientName\":\"zsh\",\"clientPid\":123}}\n",
    ]
    .concat();
    let lines: Vec<Option<NotificationLedgerRecord>> =
        ledger.lines().map(record_from_line).collect();
    assert!(lines[0].is_some() && lines[1].is_none() && lines[2].is_some());

    let now = Timestamp::from_millis(100000 + 60_000);
    let windows = load_recent_activity_windows(&lines, now);
    assert_eq!(windows.len(), 1);
    assert_eq!(windows[0].0.session_name, "one");
    assert_eq!(windows[0].0.window_id, "@1");
    assert_eq!(windows[0].1, Timestamp::from_millis(100000));
}

#[test]
fn records_without_a_window_or_of_another_sort_make_none_recent() {
    let mut record = ledger_record_from_payload(
        payload(Some(context())),
        merge_tmux_context(Some(context()), None),
    );
    let at = |millis: u64| Timestamp::from_millis(millis);
    let time = record.timestamp;
    let records = vec![None, Some(record.clone()), None];
    assert_eq!(load_recent_activity_windows(&records, at(time)).len(), 1);
    assert_eq!(load_recent_activity_windows(&records, at(time + 120_000)).len(), 1);
    assert_eq!(load_recent_activity_windows(&records, at(time + 120_001)).len(), 0);
    assert_eq!(load_recent_activity_windows(&records, at(time - 1)).len(), 0);

    record.kind = "other".to_string();
    assert_eq!(load_recent_activity_windows(&vec![Some(record.clone())], at(time)).len(), 0);
    record.kind = "system-notification".to_string();
    record.session.window_id = None;
    assert_eq!(load_recent_activity_windows(&vec![Some(record.clone())], at(time)).len(), 0);
    record.session.window_id = Some("@1".to_string());
    record.session.session_name = None;
    assert_eq!(load_recent_activity_windows(&vec![Some(record)], at(time)).len(), 0);
}

#[test]
fn ledger_is_in_the_cache_of_the_home_directory() {
    assert_eq!(
        default_ledger_path(Some("/home/me")),
        "/home/me/.cache/vmux/session-updates.jsonl"
    );
    assert_eq!(default_ledger_path(None), "./.cache/vmux/session-updates.jsonl");
    assert_eq!(ledger_path_from_env(Some("/x"), Some("/home/me")), "/x");
    assert_eq!(
        ledger_path_from_env(None, Some("/home/me/")),
        "/home/me/.cache/vmux/session-updates.jsonl"
    );
}

#[test]
fn socket_comes_from_the_environment() {
    assert_eq!(
        tmux_socket_spec_from_env(Some(" ops "), Some("/tmp/s,1,0")),
        Some(TmuxSocketSpec::Named("ops".to_string()))
    );
    assert_eq!(
        tmux_socket_spec_from_env(Some("  "), Some(" /tmp/s ,1,0")),
        Some(TmuxSocketSpec::Path("/tmp/s".to_string()))
    );
    assert_eq!(tmux_socket_spec_from_env(None, Some(",1,0")), None);
    assert_eq!(tmux_socket_spec_from_env(None, None), None);
}

#[test]
fn tmux_is_asked_for_the_context() {
    let format = "#{session_id}\t#{session_name}\t#{window_id}\t#{window_index}\t#{window_name}\t#{pane_id}\t#{client_name}\t#{client_pid}";
    let named = TmuxSocketSpec::Named("ops".to_string());
    assert_eq!(
        live_context_command(&named, Some(" %3 ")).args,
        vec!["-L", "ops", "display-message", "-p", "-t", "%3", "-F", format]
    );
    let path = TmuxSocketSpec::Path("/tmp/s".to_string());
    let command = live_context_command(&path, Some(" "));
    assert_eq!(command.program, "tmux");
    assert_eq!(command.args, vec!["-S", "/tmp/s", "display-message", "-p", "-F", format]);
    assert_eq!(live_context_command(&path, None), command);
}

#[test]
fn context_is_read_from_what_tmux_says() {
    let session = context_from_text("$1\tmain\t@2\t-3\tw\t%4\t/dev/ttys1\t99\r\n\n").unwrap();
    assert_eq!(
        session,
        NotificationLedgerSession {
            session_id: Some("$1".to_string()),
            session_name: Some("main".to_string()),
            window_id: Some("@2".to_string()),
            window_index: Some(-3),
            window_name: Some("w".to_string()),
            pane_id: Some("%4".to_string()),
            client_name: Some("/dev/ttys1".to_string()),
            client_pid: Some(99),
        }
    );
    let session = context_from_text("\t\t\t\t\t\t\t").unwrap();
    assert_eq!(session.session_id, Some(String::new()));
    assert_eq!(session.window_index, None);
    assert_eq!(session.client_pid, None);
    assert_eq!(context_from_text("$1\tmain\t@2\t3\tw\t%4\tc"), None);

    let output = |success: bool, stdout: &[u8]| {
        Some(CommandOutput {
            success,
            status: String::new(),
            stdout: stdout.to_vec(),
        })
    };
    assert_eq!(live_context_from_output(None), None);
    assert_eq!(live_context_from_output(output(false, b"\t\t\t\t\t\t\t")), None);
    assert_eq!(live_context_from_output(output(true, b"\xff\t\t\t\t\t\t\t")), None);
    assert!(live_context_from_output(output(true, b"\t\t\t\t\t\t\t")).is_some());
}

#[test]
fn tmux_is_believed_before_the_sender() {
    let mut live = nowhere();
    live.session_id = Some("$9".to_string());
    assert_eq!(merge_tmux_context(Some(context()), Some(live.clone())), live);
    let merged = merge_tmux_context(Some(context()), None);
    assert_eq!(merged.session_id, None);
    assert_eq!(merged.session_name, Some("main".to_string()));
    assert_eq!(merged.window_index, Some(-1));
    assert_eq!(merged.client_pid, Some(1234));
    assert_eq!(merge_tmux_context(None, None), nowhere());
}

#[test]
fn records_are_written_as_one_line_of_json() {
    let line = run_notify("payload.json", Ok(payload(Some(context()))), None).unwrap();
    assert_eq!(
        line,
        "{\"version\":1,\"kind\":\"system-notification\",\"source\":\"vmux\",\"timestamp\":1234567890,\"title\":\"Demo\",\"subtitle\":\"Agent\",\"body\":\"Working \\\"hard\\\"\",\"latestAssistantMessage\":\"Hello\\nthere\",\"cwd\":\"/tmp\",\"platform\":\"darwin\",\"terminalBundleId\":null,\"session\":{\"sessionId\":null,\"sessionName\":\"main\",\"windowId\":\"@0\",\"windowIndex\":-1,\"windowName\":\"w\",\"paneId\":\"%0\",\"clientName\":\"zsh\",\"clientPid\":1234}}"
    );
    let record = record_from_line(&line).unwrap();
    assert_eq!(
        record,
        ledger_record_from_payload(
            payload(Some(context())),
            merge_tmux_context(Some(context()), None)
        )
    );
    assert_eq!(ledger_line(&record), line);
    let mut low = record.clone();
    low.session.window_index = Some(i32::MIN);
    assert!(ledger_line(&low).contains("\"windowIndex\":-2147483648,"));
    low.session = nowhere();
    assert!(ledger_line(&low).ends_with("\"clientName\":null,\"clientPid\":null}}"));
}

#[test]
fn notifications_without_context_or_payload_are_refused() {
    assert_eq!(
        run_notify("p", Ok(payload(None)), None),
        Err(NotifyError::Usage(
            "notify requires tmux context in payload or tmux environment".to_string()
        ))
    );
    assert!(run_notify("p", Ok(payload(None)), Some(nowhere())).is_ok());
    assert_eq!(
        run_notify("", Ok(payload(None)), None),
        Err(NotifyError::Usage("payload path is required".to_string()))
    );
    assert_eq!(
        run_notify("p", Err(PayloadError::Unreadable("gone".to_string())), None),
        Err(NotifyError::LedgerWrite("failed to read payload p: gone".to_string()))
    );
    assert_eq!(
        run_notify("p", Err(PayloadError::Malformed("bad".to_string())), None),
        Err(NotifyError::Json("bad".to_string()))
    );
    assert_eq!(
        ledger_open_error("l", "denied"),
        NotifyError::LedgerWrite("failed to open l: denied".to_string())
    );
}

#[test]
fn notify_errors_are_put_in_words() {
    let words = "x".to_string();
    assert_eq!(NotifyError::Usage(words.clone()).message(), "notify usage error: x");
    assert_eq!(NotifyError::Io(words.clone()).message(), "notify io error: x");
    assert_eq!(NotifyError::Json(words.clone()).message(), "notify payload parse error: x");
    assert_eq!(NotifyError::LedgerWrite(words).message(), "notify ledger error: x");
}
