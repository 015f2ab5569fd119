//! The command line.

use crate::error::VmuxError;
use crate::error::VmuxErrorView;
use crate::text::{join, same_text, views_of};
use vstd::prelude::*;

verus! {

/// What to do. A payload is named by the position of its path among the arguments.
#[derive(Clone, Copy, Debug, PartialEq, Eq, Structural)]
pub enum Mode {
    Ui,
    Notify { payload: usize },
    Clear { payload: usize },
}

/// How a mode with a payload is used.
pub open spec fn usage_of(mode: Seq<char>) -> Seq<char> {
    mode + " usage: vmux "@ + mode + " [--payload-path] <payload-path>"@
}

/// Where the path of the payload stands among the arguments: after the mode, or after the mode
/// and `--payload-path`. Nothing else may stand there.
pub open spec fn payload_at(args: Seq<Seq<char>>) -> Option<usize> {
    if args.len() == 2 && args[1] != "--payload-path"@ {
        Some(1)
    } else if args.len() == 3 && args[1] == "--payload-path"@ {
        Some(2)
    } else {
        None
    }
}

/// What the arguments ask for, without the name of the program, or how they are wrong.
pub open spec fn mode_of(args: Seq<Seq<char>>) -> Result<Mode, VmuxErrorView> {
    if args.len() == 0 {
        Ok(Mode::Ui)
    } else if args[0] != "notify"@ && args[0] != "clear"@ {
        Err(VmuxErrorView::Usage("unrecognized argument: "@ + args[0]))
    } else {
        match payload_at(args) {
            Some(payload) => Ok(
                if args[0] == "notify"@ {
                    Mode::Notify { payload }
                } else {
                    Mode::Clear { payload }
                },
            ),
            None => Err(VmuxErrorView::Usage(usage_of(args[0]))),
        }
    }
}

/// Finds the path of the payload: the one argument after the mode that is no `--payload-path`,
/// or that follows one.
fn find_payload(args: &Vec<String>) -> (payload: Option<usize>)
    requires
        args@.len() > 0,
    ensures
        payload == payload_at(views_of(args@)),
{
    let ghost all = views_of(args@);
    let mut payload: Option<usize> = None;
    let mut i: usize = 1;
    while i < args.len()
        invariant
            1 <= i <= args@.len(),
            all == views_of(args@),
            i == 1 ==> payload is None,
            i == 2 ==> payload == Some(1usize) && all[1] != "--payload-path"@,
            i == 3 ==> payload == Some(2usize) && all[1] == "--payload-path"@,
            i <= 3,
        decreases args@.len() - i,
    {
        assert(all[i as int] == args@[i as int]@);
        assert(i > 1 ==> all[1] == args@[1]@);
        if same_text(args[i].as_str(), "--payload-path") {
            i = i + 1;
            if i >= args.len() {
                return None;
            }
        }
        if payload.is_some() {
            return None;
        }
        payload = Some(i);
        i = i + 1;
    }
    payload
}

/// Reads the arguments, without the name of the program.
pub fn parse_mode(args: &Vec<String>) -> (mode: Result<Mode, VmuxError>)
    ensures
        match mode_of(views_of(args@)) {
            Ok(expected) => mode == Ok::<Mode, VmuxError>(expected),
            Err(expected) => mode matches Err(error) && error@ == expected,
        },
        mode matches Ok(Mode::Notify { payload }) ==> payload < args@.len(),
        mode matches Ok(Mode::Clear { payload }) ==> payload < args@.len(),
{
    if args.len() == 0 {
        return Ok(Mode::Ui);
    }
    assert(views_of(args@)[0] == args@[0]@);
    let name = args[0].as_str();
    let notify = same_text(name, "notify");
    if !notify && !same_text(name, "clear") {
        return Err(VmuxError::Usage(join("unrecognized argument: ", name)));
    }
    match find_payload(args) {
        Some(payload) => {
            if notify {
                Ok(Mode::Notify { payload })
            } else {
                Ok(Mode::Clear { payload })
            }
        },
        None => {
            let mut usage = join(name, " usage: vmux ");
            usage.append(name);
            usage.append(" [--payload-path] <payload-path>");
            Err(VmuxError::Usage(usage))
        },
    }
}

/// Without arguments the chooser is opened, and only then.
pub proof fn law_no_arguments_open_the_chooser(args: Seq<Seq<char>>)
    ensures
        (mode_of(args) == Ok::<Mode, VmuxErrorView>(Mode::Ui)) == (args.len() == 0),
{
}

/// `notify` and `clear` take one path, with or without `--payload-path` before it, and nothing
/// else; what is wrong is answered with how the mode is used.
pub proof fn law_modes_take_one_path(args: Seq<Seq<char>>)
    requires
        args.len() > 0,
        args[0] == "notify"@ || args[0] == "clear"@,
    ensures
        ({
            let flagged = args.len() > 1 && args[1] == "--payload-path"@;
            let fits = if flagged {
                args.len() == 3
            } else {
                args.len() == 2
            };
            let at = if flagged {
                2usize
            } else {
                1usize
            };
            mode_of(args) == if !fits {
                Err::<Mode, VmuxErrorView>(
                    VmuxErrorView::Usage(
                        args[0] + " usage: vmux "@ + args[0]
                            + " [--payload-path] <payload-path>"@,
                    ),
                )
            } else if args[0] == "notify"@ {
                Ok(Mode::Notify { payload: at })
            } else {
                Ok(Mode::Clear { payload: at })
            }
        }),
{
}

/// Any other first argument is refused, and named.
pub proof fn law_other_arguments_are_refused(args: Seq<Seq<char>>)
    requires
        args.len() > 0,
        args[0] != "notify"@,
        args[0] != "clear"@,
    ensures
        mode_of(args) == Err::<Mode, VmuxErrorView>(
            VmuxErrorView::Usage("unrecognized argument: "@ + args[0]),
        ),
{
}

} // verus!
