//! The tmux commands that are run, and what is made of their output.

use crate::lines::{lines, text_from_utf8, text_lines, utf8_error_text};
use crate::text::{
    is_blank, is_blank_line, join, lemma_split_append_piece, lemma_split_of_piece,
    lemma_unsigned_of_numeral, numeral_of, option_view, parse_unsigned, push_text, same_text,
    split, split_on, str_view, unsigned_of, views_of,
};
use vstd::prelude::*;
use vstd::utf8::{decode_utf8, valid_utf8};

verus! {

#[derive(Clone, Debug, PartialEq, Eq)]
pub struct TmuxSession {
    pub id: String,
    pub name: String,
    pub windows: Option<u32>,
    pub attached: bool,
}

pub struct SessionView {
    pub id: Seq<char>,
    pub name: Seq<char>,
    pub windows: Option<u32>,
    pub attached: bool,
}

impl View for TmuxSession {
    type V = SessionView;

    open spec fn view(&self) -> SessionView {
        SessionView {
            id: self.id@,
            name: self.name@,
            windows: self.windows,
            attached: self.attached,
        }
    }
}

pub open spec fn session_views(sessions: Seq<TmuxSession>) -> Seq<SessionView> {
    sessions.map_values(|session: TmuxSession| session@)
}

/// A window that has rung the bell.
#[derive(Clone, Debug, PartialEq, Eq)]
pub struct TmuxBellWindow {
    pub session_name: String,
    pub window_id: String,
}

pub struct WindowView {
    pub session_name: Seq<char>,
    pub window_id: Seq<char>,
}

impl View for TmuxBellWindow {
    type V = WindowView;

    open spec fn view(&self) -> WindowView {
        WindowView { session_name: self.session_name@, window_id: self.window_id@ }
    }
}

pub open spec fn window_views(windows: Seq<TmuxBellWindow>) -> Seq<WindowView> {
    windows.map_values(|window: TmuxBellWindow| window@)
}

/// Why tmux could not be asked, or not be understood.
#[derive(Debug, PartialEq, Eq)]
pub enum TmuxError {
    /// tmux could not be run; holds what the system says.
    Io(String),
    /// The output is no UTF-8.
    Utf8(String),
    TmuxFailed(String),
    Parse(String),
}

pub enum TmuxErrorView {
    Io(Seq<char>),
    Utf8(Seq<char>),
    TmuxFailed(Seq<char>),
    Parse(Seq<char>),
}

impl View for TmuxError {
    type V = TmuxErrorView;

    open spec fn view(&self) -> TmuxErrorView {
        match *self {
            TmuxError::Io(words) => TmuxErrorView::Io(words@),
            TmuxError::Utf8(words) => TmuxErrorView::Utf8(words@),
            TmuxError::TmuxFailed(words) => TmuxErrorView::TmuxFailed(words@),
            TmuxError::Parse(words) => TmuxErrorView::Parse(words@),
        }
    }
}

impl TmuxErrorView {
    /// The error in words.
    pub open spec fn message(self) -> Seq<char> {
        match self {
            TmuxErrorView::Io(words) => "tmux io error: "@ + words,
            TmuxErrorView::Utf8(words) => "tmux utf8 error: "@ + words,
            TmuxErrorView::TmuxFailed(words) => "tmux failed: "@ + words,
            TmuxErrorView::Parse(words) => "tmux parse error: "@ + words,
        }
    }
}

impl TmuxError {
    /// The error in words.
    pub fn message(&self) -> (message: String)
        ensures
            message@ == self@.message(),
    {
        match self {
            TmuxError::Io(words) => join("tmux io error: ", words.as_str()),
            TmuxError::Utf8(words) => join("tmux utf8 error: ", words.as_str()),
            TmuxError::TmuxFailed(words) => join("tmux failed: ", words.as_str()),
            TmuxError::Parse(words) => join("tmux parse error: ", words.as_str()),
        }
    }
}

/// A command to run.
#[derive(Clone, Debug, PartialEq, Eq)]
pub struct TmuxCommand {
    pub program: String,
    pub args: Vec<String>,
}

pub struct CommandView {
    pub program: Seq<char>,
    pub args: Seq<Seq<char>>,
}

impl View for TmuxCommand {
    type V = CommandView;

    open spec fn view(&self) -> CommandView {
        CommandView { program: self.program@, args: views_of(self.args@) }
    }
}

/// How a command ended, and what it wrote.
#[derive(Clone, Debug, PartialEq, Eq)]
pub struct CommandOutput {
    pub success: bool,
    /// The exit status in words.
    pub status: String,
    pub stdout: Vec<u8>,
}

/// What tmux is asked for, so that the chooser can do without it.
pub trait TmuxAdapter {
    /// List all tmux sessions.
    fn list_sessions(&mut self) -> Result<Vec<TmuxSession>, TmuxError>;

    /// List windows currently flagged as having a bell.
    fn list_bell_windows(&mut self) -> Result<Vec<TmuxBellWindow>, TmuxError>;

    /// The command of a client that attaches to the given session, and focuses the given window
    /// and pane. The caller runs it in a pseudo terminal.
    fn build_client_command(
        &mut self,
        session_id: &str,
        window_id: Option<&str>,
        pane_id: Option<&str>,
    ) -> Result<TmuxCommand, TmuxError>;
}

/// The `tmux` binary, on the default socket or a named one.
#[derive(Clone, Debug, PartialEq, Eq)]
pub struct RealTmuxAdapter {
    pub socket_name: Option<String>,
}

/// The tmux command on a socket, with the given arguments.
pub open spec fn tmux_command(socket_name: Option<Seq<char>>, args: Seq<Seq<char>>) -> CommandView {
    CommandView {
        program: "tmux"@,
        args: match socket_name {
            Some(socket) => seq!["-L"@, socket] + args,
            None => args,
        },
    }
}

/// What tmux is to tell of each session: its id, its name, how many windows it has, and whether
/// a client is attached, with tabs between.
pub open spec fn session_format() -> Seq<char> {
    "#{session_id}\t#S\t#{session_windows}\t#{?session_attached,1,0}"@
}

/// What tmux is to tell of each window: the name of its session, its id and whether its bell
/// has rung, with colons between.
pub open spec fn window_format() -> Seq<char> {
    "#S:#{window_id}:#{window_bell_flag}"@
}

/// The arguments that attach a client, and then move it to a window and a pane.
pub open spec fn client_args(
    session_id: Seq<char>,
    window_id: Option<Seq<char>>,
    pane_id: Option<Seq<char>>,
) -> Seq<Seq<char>> {
    let attach = seq!["attach-session"@, "-t"@, session_id];
    let window = match window_id {
        Some(id) => seq![";"@, "select-window"@, "-t"@, id],
        None => Seq::empty(),
    };
    let pane = match pane_id {
        Some(id) => seq![";"@, "select-pane"@, "-t"@, id],
        None => Seq::empty(),
    };
    attach + window + pane
}

impl RealTmuxAdapter {
    /// The adapter for the value of `VMUX_TMUX_SOCKET`, if it is set.
    pub fn from_env(socket_name: Option<String>) -> (adapter: RealTmuxAdapter)
        ensures
            adapter.socket_name == socket_name,
    {
        RealTmuxAdapter { socket_name }
    }

    fn base_command(&self) -> (command: TmuxCommand)
        ensures
            command@ == tmux_command(option_view(self.socket_name), Seq::empty()),
    {
        let mut args: Vec<String> = Vec::new();
        assert(views_of(args@) =~= Seq::empty());
        match &self.socket_name {
            Some(socket) => {
                push_text(&mut args, "-L");
                push_text(&mut args, socket.as_str());
                assert(views_of(args@) =~= seq!["-L"@, socket@] + Seq::empty());
            },
            None => {},
        }
        TmuxCommand { program: "tmux".to_owned(), args }
    }

    /// The command that lists the sessions.
    pub fn list_sessions_command(&self) -> (command: TmuxCommand)
        ensures
            command@ == tmux_command(
                option_view(self.socket_name),
                seq!["list-sessions"@, "-F"@, session_format()],
            ),
    {
        let mut command = self.base_command();
        push_text(&mut command.args, "list-sessions");
        push_text(&mut command.args, "-F");
        push_text(
            &mut command.args,
            "#{session_id}\t#S\t#{session_windows}\t#{?session_attached,1,0}",
        );
        assert(command@.args =~= tmux_command(
            option_view(self.socket_name),
            seq!["list-sessions"@, "-F"@, session_format()],
        ).args);
        command
    }

    /// The command that lists the windows of all sessions.
    pub fn list_bell_windows_command(&self) -> (command: TmuxCommand)
        ensures
            command@ == tmux_command(
                option_view(self.socket_name),
                seq!["list-windows"@, "-a"@, "-F"@, window_format()],
            ),
    {
        let mut command = self.base_command();
        push_text(&mut command.args, "list-windows");
        push_text(&mut command.args, "-a");
        push_text(&mut command.args, "-F");
        push_text(&mut command.args, "#S:#{window_id}:#{window_bell_flag}");
        assert(command@.args =~= tmux_command(
            option_view(self.socket_name),
            seq!["list-windows"@, "-a"@, "-F"@, window_format()],
        ).args);
        command
    }

    /// The command of a client that attaches to a session, and then moves to a window and a
    /// pane.
    pub fn build_client_command(
        &self,
        session_id: &str,
        window_id: Option<&str>,
        pane_id: Option<&str>,
    ) -> (command: TmuxCommand)
        ensures
            command@ == tmux_command(
                option_view(self.socket_name),
                client_args(session_id@, str_view(window_id), str_view(pane_id)),
            ),
    {
        let mut command = self.base_command();
        push_text(&mut command.args, "attach-session");
        push_text(&mut command.args, "-t");
        push_text(&mut command.args, session_id);
        match window_id {
            Some(id) => {
                push_text(&mut command.args, ";");
                push_text(&mut command.args, "select-window");
                push_text(&mut command.args, "-t");
                push_text(&mut command.args, id);
            },
            None => {},
        }
        match pane_id {
            Some(id) => {
                push_text(&mut command.args, ";");
                push_text(&mut command.args, "select-pane");
                push_text(&mut command.args, "-t");
                push_text(&mut command.args, id);
            },
            None => {},
        }
        assert(command@.args =~= tmux_command(
            option_view(self.socket_name),
            client_args(session_id@, str_view(window_id), str_view(pane_id)),
        ).args);
        command
    }
}

/// The number of windows that a field gives, if it is a number.
pub open spec fn windows_of(field: Seq<char>) -> Option<u32> {
    match unsigned_of(field, u32::MAX as nat) {
        Some(n) => Some(n as u32),
        None => None,
    }
}

/// What a line of the list of sessions tells, or what is wrong with it.
pub open spec fn session_of_line(line: Seq<char>) -> Result<SessionView, Seq<char>> {
    let fields = split_on(line, '\t');
    if fields.len() < 4 {
        Err("unexpected list-sessions line: "@ + line)
    } else if fields[3] != "1"@ && fields[3] != "0"@ {
        Err("unexpected attached flag '"@ + fields[3] + "' in line: "@ + line)
    } else {
        Ok(
            SessionView {
                id: fields[0],
                name: fields[1],
                windows: windows_of(fields[2]),
                attached: fields[3] == "1"@,
            },
        )
    }
}

/// The sessions that lines tell of, in order; blank lines do not count. The first bad line makes
/// the list an error.
pub open spec fn sessions_of_lines(lines: Seq<Seq<char>>) -> Result<Seq<SessionView>, Seq<char>>
    decreases lines.len(),
{
    if lines.len() == 0 {
        Ok(Seq::empty())
    } else {
        match sessions_of_lines(lines.drop_last()) {
            Err(words) => Err(words),
            Ok(sessions) => if is_blank(lines.last()) {
                Ok(sessions)
            } else {
                match session_of_line(lines.last()) {
                    Ok(session) => Ok(sessions.push(session)),
                    Err(words) => Err(words),
                }
            },
        }
    }
}

/// What a line of the list of windows tells: the window if its bell has rung, nothing if not,
/// or what is wrong with the line.
pub open spec fn bell_window_of_line(line: Seq<char>) -> Result<Option<WindowView>, Seq<char>> {
    let fields = split_on(line, ':');
    if fields.len() < 3 {
        Err("unexpected list-windows line: "@ + line)
    } else if fields[2] != "1"@ {
        Ok(None)
    } else {
        Ok(Some(WindowView { session_name: fields[0], window_id: fields[1] }))
    }
}

/// The windows whose bell has rung, in the order of the lines; blank lines do not count. The
/// first bad line makes the list an error.
pub open spec fn bell_windows_of_lines(lines: Seq<Seq<char>>) -> Result<Seq<WindowView>, Seq<char>>
    decreases lines.len(),
{
    if lines.len() == 0 {
        Ok(Seq::empty())
    } else {
        match bell_windows_of_lines(lines.drop_last()) {
            Err(words) => Err(words),
            Ok(windows) => if is_blank(lines.last()) {
                Ok(windows)
            } else {
                match bell_window_of_line(lines.last()) {
                    Ok(Some(window)) => Ok(windows.push(window)),
                    Ok(None) => Ok(windows),
                    Err(words) => Err(words),
                }
            },
        }
    }
}

/// The text that a command wrote, or why there is none.
pub open spec fn output_text(
    subcommand: Seq<char>,
    output: Result<CommandOutput, String>,
) -> Result<Seq<char>, TmuxErrorView> {
    match output {
        Err(words) => Err(TmuxErrorView::Io(words@)),
        Ok(output) => if !output.success {
            Err(
                TmuxErrorView::TmuxFailed(
                    "tmux "@ + subcommand + " exited with status "@ + output.status@,
                ),
            )
        } else if !valid_utf8(output.stdout@) {
            Err(TmuxErrorView::Utf8(utf8_error_text(output.stdout@)))
        } else {
            Ok(decode_utf8(output.stdout@))
        },
    }
}

fn read_output(subcommand: &str, output: Result<CommandOutput, String>) -> (text: Result<
    String,
    TmuxError,
>)
    ensures
        match output_text(subcommand@, output) {
            Ok(expected) => text matches Ok(text) && text@ == expected,
            Err(expected) => text matches Err(error) && error@ == expected,
        },
{
    match output {
        Err(words) => Err(TmuxError::Io(words)),
        Ok(output) => {
            if !output.success {
                let mut words = join("tmux ", subcommand);
                words.append(" exited with status ");
                words.append(output.status.as_str());
                return Err(TmuxError::TmuxFailed(words));
            }
            match text_from_utf8(output.stdout) {
                Ok(text) => Ok(text),
                Err(words) => Err(TmuxError::Utf8(words)),
            }
        },
    }
}

fn read_session(line: &str) -> (session: Result<TmuxSession, String>)
    ensures
        match session_of_line(line@) {
            Ok(expected) => session matches Ok(session) && session@ == expected,
            Err(expected) => session matches Err(words) && words@ == expected,
        },
{
    let fields = split(line, '\t');
    let ghost expected = split_on(line@, '\t');
    assert(fields@.len() == expected.len());
    if fields.len() < 4 {
        return Err(join("unexpected list-sessions line: ", line));
    }
    assert(expected[0] == fields@[0]@);
    assert(expected[1] == fields@[1]@);
    assert(expected[2] == fields@[2]@);
    assert(expected[3] == fields@[3]@);
    let flag = fields[3].as_str();
    let attached = same_text(flag, "1");
    if !attached && !same_text(flag, "0") {
        let mut words = join("unexpected attached flag '", flag);
        words.append("' in line: ");
        words.append(line);
        return Err(words);
    }
    let windows: Option<u32> = match parse_unsigned(fields[2].as_str(), u32::MAX as u64) {
        Some(n) => Some(n as u32),
        None => None,
    };
    Ok(
        TmuxSession {
            id: fields[0].clone(),
            name: fields[1].clone(),
            windows,
            attached,
        },
    )
}

/// The sessions that a run of the command that lists them tells of.
pub fn sessions_from_output(output: Result<CommandOutput, String>) -> (sessions: Result<
    Vec<TmuxSession>,
    TmuxError,
>)
    ensures
        match output_text("list-sessions"@, output) {
            Err(expected) => sessions matches Err(error) && error@ == expected,
            Ok(text) => match sessions_of_lines(text_lines(text)) {
                Ok(expected) => sessions matches Ok(sessions) && session_views(sessions@)
                    == expected,
                Err(words) => sessions matches Err(error) && error@ == TmuxErrorView::Parse(words),
            },
        },
{
    let text = match read_output("list-sessions", output) {
        Ok(text) => text,
        Err(error) => {
            return Err(error);
        },
    };
    let lines = lines(text.as_str());
    let ghost all = text_lines(text@);
    let mut sessions: Vec<TmuxSession> = Vec::new();
    assert(session_views(sessions@) =~= Seq::empty());
    assert(lines@.len() == all.len());
    let mut i: usize = 0;
    while i < lines.len()
        invariant
            i <= lines@.len(),
            all == views_of(lines@),
            all == text_lines(text@),
            output_text("list-sessions"@, output) == Ok::<Seq<char>, TmuxErrorView>(text@),
            sessions_of_lines(all.take(i as int)) == Ok::<Seq<SessionView>, Seq<char>>(
                session_views(sessions@),
            ),
        decreases lines@.len() - i,
    {
        let ghost before = session_views(sessions@);
        assert(all.take(i + 1).drop_last() =~= all.take(i as int));
        assert(all.take(i + 1).last() == lines@[i as int]@);
        if !is_blank_line(lines[i].as_str()) {
            match read_session(lines[i].as_str()) {
                Ok(session) => {
                    let ghost view = session@;
                    sessions.push(session);
                    assert(session_views(sessions@) =~= before.push(view));
                },
                Err(words) => {
                    proof {
                        lemma_bad_session_line_stays(all, i + 1);
                    }
                    return Err(TmuxError::Parse(words));
                },
            }
        }
        i = i + 1;
    }
    assert(all.take(i as int) =~= all);
    Ok(sessions)
}

proof fn lemma_bad_session_line_stays(lines: Seq<Seq<char>>, n: int)
    requires
        0 <= n <= lines.len(),
        sessions_of_lines(lines.take(n)) is Err,
    ensures
        sessions_of_lines(lines) == sessions_of_lines(lines.take(n)),
    decreases lines.len() - n,
{
    if n == lines.len() {
        assert(lines.take(n) =~= lines);
    } else {
        assert(lines.take(n + 1).drop_last() =~= lines.take(n));
        lemma_bad_session_line_stays(lines, n + 1);
    }
}

proof fn lemma_bad_window_line_stays(lines: Seq<Seq<char>>, n: int)
    requires
        0 <= n <= lines.len(),
        bell_windows_of_lines(lines.take(n)) is Err,
    ensures
        bell_windows_of_lines(lines) == bell_windows_of_lines(lines.take(n)),
    decreases lines.len() - n,
{
    if n == lines.len() {
        assert(lines.take(n) =~= lines);
    } else {
        assert(lines.take(n + 1).drop_last() =~= lines.take(n));
        lemma_bad_window_line_stays(lines, n + 1);
    }
}

fn read_bell_window(line: &str) -> (window: Result<Option<TmuxBellWindow>, String>)
    ensures
        match bell_window_of_line(line@) {
            Ok(Some(expected)) => window matches Ok(Some(window)) && window@ == expected,
            Ok(None) => window matches Ok(None),
            Err(expected) => window matches Err(words) && words@ == expected,
        },
{
    let fields = split(line, ':');
    let ghost expected = split_on(line@, ':');
    assert(fields@.len() == expected.len());
    if fields.len() < 3 {
        return Err(join("unexpected list-windows line: ", line));
    }
    assert(expected[0] == fields@[0]@);
    assert(expected[1] == fields@[1]@);
    assert(expected[2] == fields@[2]@);
    if !same_text(fields[2].as_str(), "1") {
        return Ok(None);
    }
    Ok(
        Some(
            TmuxBellWindow { session_name: fields[0].clone(), window_id: fields[1].clone() },
        ),
    )
}

/// The windows with a bell that a run of the command that lists windows tells of.
pub fn bell_windows_from_output(output: Result<CommandOutput, String>) -> (windows: Result<
    Vec<TmuxBellWindow>,
    TmuxError,
>)
    ensures
        match output_text("list-windows"@, output) {
            Err(expected) => windows matches Err(error) && error@ == expected,
            Ok(text) => match bell_windows_of_lines(text_lines(text)) {
                Ok(expected) => windows matches Ok(windows) && window_views(windows@) == expected,
                Err(words) => windows matches Err(error) && error@ == TmuxErrorView::Parse(words),
            },
        },
{
    let text = match read_output("list-windows", output) {
        Ok(text) => text,
        Err(error) => {
            return Err(error);
        },
    };
    let lines = lines(text.as_str());
    let ghost all = text_lines(text@);
    let mut windows: Vec<TmuxBellWindow> = Vec::new();
    assert(window_views(windows@) =~= Seq::empty());
    assert(lines@.len() == all.len());
    let mut i: usize = 0;
    while i < lines.len()
        invariant
            i <= lines@.len(),
            all == views_of(lines@),
            all == text_lines(text@),
            output_text("list-windows"@, output) == Ok::<Seq<char>, TmuxErrorView>(text@),
            bell_windows_of_lines(all.take(i as int)) == Ok::<Seq<WindowView>, Seq<char>>(
                window_views(windows@),
            ),
        decreases lines@.len() - i,
    {
        let ghost before = window_views(windows@);
        assert(all.take(i + 1).drop_last() =~= all.take(i as int));
        assert(all.take(i + 1).last() == lines@[i as int]@);
        if !is_blank_line(lines[i].as_str()) {
            match read_bell_window(lines[i].as_str()) {
                Ok(Some(window)) => {
                    let ghost view = window@;
                    windows.push(window);
                    assert(window_views(windows@) =~= before.push(view));
                },
                Ok(None) => {},
                Err(words) => {
                    proof {
                        lemma_bad_window_line_stays(all, i + 1);
                    }
                    return Err(TmuxError::Parse(words));
                },
            }
        }
        i = i + 1;
    }
    assert(all.take(i as int) =~= all);
    Ok(windows)
}

/// A session that tmux lists in the format that it is asked for is read back, if neither its id
/// nor its name holds a tab.
pub proof fn law_listed_session_is_read_back(
    id: Seq<char>,
    name: Seq<char>,
    windows: u32,
    attached: bool,
)
    requires
        !id.contains('\t'),
        !name.contains('\t'),
    ensures
        ({
            let flag = if attached {
                "1"@
            } else {
                "0"@
            };
            let tab = seq!['\t'];
            session_of_line(id + tab + name + tab + numeral_of(windows as nat) + tab + flag) == Ok::<
                SessionView,
                Seq<char>,
            >(SessionView { id, name, windows: Some(windows), attached })
        }),
{
    reveal_strlit("1");
    reveal_strlit("0");
    let flag = if attached {
        "1"@
    } else {
        "0"@
    };
    let tab = seq!['\t'];
    let count = numeral_of(windows as nat);
    let first = id;
    let second = first.push('\t') + name;
    let third = second.push('\t') + count;
    let fourth = third.push('\t') + flag;
    lemma_numeral_has_no_tab(windows as nat);
    lemma_split_of_piece(id, '\t');
    lemma_split_append_piece(first, '\t', name);
    lemma_split_append_piece(second, '\t', count);
    lemma_split_append_piece(third, '\t', flag);
    assert(id + tab + name + tab + count + tab + flag =~= fourth);
    assert(split_on(fourth, '\t') =~= seq![id, name, count, flag]);
    lemma_unsigned_of_numeral(windows as nat, u32::MAX as nat);
    assert("1"@[0] != "0"@[0]);
}

proof fn lemma_numeral_has_no_tab(n: nat)
    ensures
        !numeral_of(n).contains('\t'),
    decreases n,
{
    if n >= 10 {
        lemma_numeral_has_no_tab(n / 10);
        let head = numeral_of(n / 10);
        assert forall|i: int| 0 <= i < numeral_of(n).len() implies numeral_of(n)[i] != '\t' by {
            if i < head.len() {
                assert(head.contains(head[i]));
                assert(numeral_of(n)[i] == head[i]);
            }
        }
    }
}

/// A window that tmux lists in the format that it is asked for is read back if its bell has
/// rung, and left out if not, if neither its id nor the name of its session holds a colon.
pub proof fn law_listed_window_is_read_back(
    session_name: Seq<char>,
    window_id: Seq<char>,
    bell: bool,
)
    requires
        !session_name.contains(':'),
        !window_id.contains(':'),
    ensures
        ({
            let flag = if bell {
                "1"@
            } else {
                "0"@
            };
            let colon = seq![':'];
            bell_window_of_line(session_name + colon + window_id + colon + flag) == Ok::<
                Option<WindowView>,
                Seq<char>,
            >(
                if bell {
                    Some(WindowView { session_name, window_id })
                } else {
                    None
                },
            )
        }),
{
    reveal_strlit("1");
    reveal_strlit("0");
    let flag = if bell {
        "1"@
    } else {
        "0"@
    };
    let colon = seq![':'];
    let second = session_name.push(':') + window_id;
    let third = second.push(':') + flag;
    lemma_split_of_piece(session_name, ':');
    lemma_split_append_piece(session_name, ':', window_id);
    lemma_split_append_piece(second, ':', flag);
    assert(session_name + colon + window_id + colon + flag =~= third);
    assert(split_on(third, ':') =~= seq![session_name, window_id, flag]);
    assert("1"@[0] != "0"@[0]);
}

} // verus!
