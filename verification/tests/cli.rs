use vmux::cli::{parse_mode, Mode};
use vmux::recent_activity::RecentActivityError;
use vmux::{TmuxError, VmuxError};

fn parse(args: &[&str]) -> Result<Mode, VmuxError> {
    parse_mode(&args.iter().map(|arg| arg.to_string()).collect())
}

#[test]
fn arguments_name_the_mode_and_the_payload() {
    assert_eq!(parse(&[]), Ok(Mode::Ui));
    assert_eq!(parse(&["notify", "payload.json"]), Ok(Mode::Notify { payload: 1 }));
    assert_eq!(
        parse(&["notify", "--payload-path", "payload.json"]),
        Ok(Mode::Notify { payload: 2 })
    );
    assert_eq!(parse(&["clear", "payload.json"]), Ok(Mode::Clear { payload: 1 }));
    assert_eq!(
        parse(&["clear", "--payload-path", "--payload-path"]),
        Ok(Mode::Clear { payload: 2 })
    );
}

#[test]
fn wrong_arguments_are_answered_with_the_usage() {
    assert_eq!(
        parse(&["serve"]),
        Err(VmuxError::Usage("unrecognized argument: serve".to_string()))
    );
    let usage = VmuxError::Usage(
        "notify usage: vmux notify [--payload-path] <payload-path>".to_string(),
    );
    for args in [
        &["notify"][..],
        &["notify", "--payload-path"],
        &["notify", "a", "b"],
        &["notify", "a", "--payload-path"],
        &["notify", "a", "--payload-path", "b"],
        &["notify", "--payload-path", "a", "b"],
        &["notify", "--payload-path", "a", "--payload-path", "b"],
        &["notify", "--payload-path", "a", "--payload-path"],
    ] {
        assert_eq!(parse(args), Err(VmuxError::Usage(
            "notify usage: vmux notify [--payload-path] <payload-path>".to_string(),
        )));
    }
    assert_eq!(usage.exit_code(), 2);
    assert_eq!(
        parse(&["clear"]),
        Err(VmuxError::Usage(
            "clear usage: vmux clear [--payload-path] <payload-path>".to_string()
        ))
    );
}

#[test]
fn errors_tell_what_went_wrong_where() {
    let usage = VmuxError::Usage("x".to_string());
    assert_eq!(usage.message(), "usage error: x");
    let tmux = VmuxError::from(TmuxError::Parse("x".to_string()));
    assert_eq!(tmux, VmuxError::Tmux(TmuxError::Parse("x".to_string())));
    assert_eq!(tmux.message(), "tmux error: tmux parse error: x");
    assert_eq!(tmux.exit_code(), 1);
    let activity = VmuxError::RecentActivity(RecentActivityError::Io("x".to_string()));
    assert_eq!(activity.message(), "recent activity error: recent activity io error: x");
    assert_eq!(activity.exit_code(), 1);
    let terminal = VmuxError::Terminal("x".to_string());
    assert_eq!(terminal.message(), "terminal error: x");
    assert_eq!(terminal.exit_code(), 1);
}
