//! What holds of the commands that tmux is run with, and of what is made of its output.

use crate::lines::utf8_error_text;
use crate::text::{is_blank, split_on, unsigned_of};
use crate::tmux::{
    bell_window_of_line, bell_windows_of_lines, client_args, output_text, session_of_line,
    sessions_of_lines, tmux_command, CommandOutput, SessionView, TmuxErrorView, WindowView,
};
use vstd::prelude::*;
use vstd::utf8::{decode_utf8, valid_utf8};

verus! {

/// tmux is run on the socket that was named, and on its own if none was; the arguments follow.
pub proof fn law_named_socket_comes_first(socket_name: Seq<char>, args: Seq<Seq<char>>)
    ensures
        tmux_command(Some(socket_name), args).program == "tmux"@,
        tmux_command(Some(socket_name), args).args == seq!["-L"@].push(socket_name) + args,
        tmux_command(None, args).program == "tmux"@,
        tmux_command(None, args).args == args,
{
    assert(seq!["-L"@, socket_name] =~= seq!["-L"@].push(socket_name));
}

/// A client attaches to the session first. Then it moves to the window, if one is named, and
/// last to the pane, if one is named; it does nothing else.
pub proof fn law_client_attaches_and_then_moves(
    session_id: Seq<char>,
    window_id: Option<Seq<char>>,
    pane_id: Option<Seq<char>>,
)
    ensures
        ({
            let args = client_args(session_id, window_id, pane_id);
            let n = args.len() as int;
            &&& n >= 3 && args[0] == "attach-session"@ && args[1] == "-t"@ && args[2] == session_id
            &&& n == 3 + (if window_id is Some {
                4int
            } else {
                0
            }) + (if pane_id is Some {
                4int
            } else {
                0
            })
            &&& window_id matches Some(id) ==> args[3] == ";"@ && args[4] == "select-window"@
                && args[5] == "-t"@ && args[6] == id
            &&& pane_id matches Some(id) ==> args[n - 4] == ";"@ && args[n - 3] == "select-pane"@
                && args[n - 2] == "-t"@ && args[n - 1] == id
        }),
{
}

/// What a command wrote is taken only if it could be run, succeeded and wrote text; else it is
/// told which of these failed first.
pub proof fn law_output_counts_only_on_success(
    subcommand: Seq<char>,
    output: CommandOutput,
    words: String,
)
    ensures
        output_text(subcommand, Err(words)) == Err::<Seq<char>, TmuxErrorView>(
            TmuxErrorView::Io(words@),
        ),
        !output.success ==> output_text(subcommand, Ok(output)) == Err::<Seq<char>, TmuxErrorView>(
            TmuxErrorView::TmuxFailed(
                "tmux "@ + subcommand + " exited with status "@ + output.status@,
            ),
        ),
        output.success && !valid_utf8(output.stdout@) ==> output_text(subcommand, Ok(output))
            == Err::<Seq<char>, TmuxErrorView>(
            TmuxErrorView::Utf8(utf8_error_text(output.stdout@)),
        ),
        output.success && valid_utf8(output.stdout@) ==> output_text(subcommand, Ok(output))
            == Ok::<Seq<char>, TmuxErrorView>(decode_utf8(output.stdout@)),
{
}

/// A line of the list of sessions tells an id, a name, a number of windows, and by 1 or 0
/// whether a client is attached. A number that cannot be read is left out; with too few fields or
/// another flag the line is bad.
pub proof fn law_session_line_tells_four_things(line: Seq<char>, fields: Seq<Seq<char>>)
    requires
        fields == split_on(line, '\t'),
    ensures
        match session_of_line(line) {
            Ok(session) => {
                &&& fields.len() >= 4
                &&& session.id == fields[0]
                &&& session.name == fields[1]
                &&& session.windows is Some == unsigned_of(fields[2], 0xffff_ffff) is Some
                &&& session.windows matches Some(n) ==> unsigned_of(fields[2], 0xffff_ffff) == Some(
                    n as nat,
                )
                &&& session.attached ==> fields[3] == "1"@
                &&& !session.attached ==> fields[3] == "0"@
            },
            Err(words) => {
                ||| fields.len() < 4 && words == "unexpected list-sessions line: "@ + line
                ||| fields.len() >= 4 && fields[3] != "1"@ && fields[3] != "0"@ && words
                    == "unexpected attached flag '"@ + fields[3] + "' in line: "@ + line
            },
        },
{
}

/// Where every line is good, there is a session for each, in their order.
pub proof fn law_every_session_is_listed(lines: Seq<Seq<char>>)
    requires
        forall|i: int|
            0 <= i < lines.len() ==> !is_blank(#[trigger] lines[i]) && session_of_line(
                lines[i],
            ) is Ok,
    ensures
        sessions_of_lines(lines) matches Ok(sessions) && sessions.len() == lines.len() && forall|
            i: int,
        |
            0 <= i < lines.len() ==> #[trigger] sessions[i] == session_of_line(lines[i])->Ok_0,
    decreases lines.len(),
{
    if lines.len() > 0 {
        let shorter = lines.drop_last();
        assert forall|i: int| 0 <= i < shorter.len() implies !is_blank(#[trigger] shorter[i])
            && session_of_line(shorter[i]) is Ok by {
            assert(shorter[i] == lines[i]);
        }
        law_every_session_is_listed(shorter);
        let before = sessions_of_lines(shorter)->Ok_0;
        assert(session_of_line(lines[lines.len() - 1]) is Ok);
        let sessions = sessions_of_lines(lines)->Ok_0;
        assert forall|i: int| 0 <= i < lines.len() implies #[trigger] sessions[i]
            == session_of_line(lines[i])->Ok_0 by {
            if i < shorter.len() {
                assert(sessions[i] == before[i]);
                assert(shorter[i] == lines[i]);
            }
        }
    }
}

/// A blank line among the sessions, or among the windows, is as good as not there.
pub proof fn law_blank_line_is_ignored(
    before: Seq<Seq<char>>,
    line: Seq<char>,
    after: Seq<Seq<char>>,
)
    requires
        is_blank(line),
    ensures
        sessions_of_lines(before.push(line) + after) == sessions_of_lines(before + after),
        bell_windows_of_lines(before.push(line) + after) == bell_windows_of_lines(before + after),
    decreases after.len(),
{
    let with = before.push(line) + after;
    if after.len() == 0 {
        assert(with =~= before.push(line));
        assert(with.drop_last() =~= before);
        assert(before + after =~= before);
    } else {
        assert(with.drop_last() =~= before.push(line) + after.drop_last());
        assert((before + after).drop_last() =~= before + after.drop_last());
        law_blank_line_is_ignored(before, line, after.drop_last());
    }
}

/// The first bad line among the sessions makes the whole list an error.
pub proof fn law_bad_session_line_is_an_error(
    before: Seq<Seq<char>>,
    line: Seq<char>,
    after: Seq<Seq<char>>,
)
    requires
        sessions_of_lines(before) is Ok,
        !is_blank(line),
        session_of_line(line) is Err,
    ensures
        sessions_of_lines(before.push(line) + after) == Err::<Seq<SessionView>, Seq<char>>(
            session_of_line(line)->Err_0,
        ),
    decreases after.len(),
{
    let with = before.push(line) + after;
    if after.len() == 0 {
        assert(with =~= before.push(line));
        assert(with.drop_last() =~= before);
    } else {
        assert(with.drop_last() =~= before.push(line) + after.drop_last());
        law_bad_session_line_is_an_error(before, line, after.drop_last());
    }
}

/// A line of the list of windows tells the name of a session, an id, and by 1 that the bell has
/// rung; with too few fields the line is bad.
pub proof fn law_window_line_tells_three_things(line: Seq<char>, fields: Seq<Seq<char>>)
    requires
        fields == split_on(line, ':'),
    ensures
        match bell_window_of_line(line) {
            Ok(Some(window)) => fields.len() >= 3 && fields[2] == "1"@ && window.session_name
                == fields[0] && window.window_id == fields[1],
            Ok(None) => fields.len() >= 3 && fields[2] != "1"@,
            Err(words) => fields.len() < 3 && words == "unexpected list-windows line: "@ + line,
        },
{
}

/// A line more adds its window if its bell has rung, and nothing if not; a bad one makes the
/// whole list an error, which it stays.
pub proof fn law_window_line_adds_its_window(lines: Seq<Seq<char>>, line: Seq<char>)
    requires
        !is_blank(line),
    ensures
        bell_windows_of_lines(Seq::empty()) == Ok::<Seq<WindowView>, Seq<char>>(Seq::empty()),
        match (bell_windows_of_lines(lines), bell_window_of_line(line)) {
            (Err(words), _) => bell_windows_of_lines(lines.push(line)) == Err::<
                Seq<WindowView>,
                Seq<char>,
            >(words),
            (Ok(windows), Ok(Some(window))) => bell_windows_of_lines(lines.push(line)) matches Ok(
                more,
            ) && more.len() == windows.len() + 1 && more.drop_last() == windows && more.last()
                == window,
            (Ok(windows), Ok(None)) => bell_windows_of_lines(lines.push(line)) == Ok::<
                Seq<WindowView>,
                Seq<char>,
            >(windows),
            (Ok(_), Err(words)) => bell_windows_of_lines(lines.push(line)) == Err::<
                Seq<WindowView>,
                Seq<char>,
            >(words),
        },
{
    assert(lines.push(line).drop_last() =~= lines);
    if bell_windows_of_lines(lines) is Ok && bell_window_of_line(line) matches Ok(Some(_)) {
        let windows = bell_windows_of_lines(lines)->Ok_0;
        let window = bell_window_of_line(line)->Ok_0->0;
        assert(windows.push(window).drop_last() =~= windows);
    }
}

} // verus!
