//! Messages between the command line and the daemon: requests, replies, the
//! commands that produce them, and the shell actions they trigger.
use vstd::prelude::*;

verus! {

/// What the finder window should do.
#[derive(Clone, Copy, Debug, PartialEq, Eq, Structural)]
pub enum FinderAction {
    Open,
    Close,
    Toggle,
}

/// What the launcher window should do.
#[derive(Clone, Copy, Debug, PartialEq, Eq, Structural)]
pub enum LauncherAction {
    Open,
    Close,
    Toggle,
}

/// A request to the daemon.
#[derive(Clone, Copy, Debug, PartialEq, Eq, Structural)]
pub enum Request {
    Finder { action: FinderAction },
    Launcher { action: LauncherAction },
}

/// A successful answer of the daemon.
#[derive(Clone, Copy, Debug, PartialEq, Eq, Structural)]
pub enum Response {
    Handled,
}

/// The action that the daemon dispatches in the shell for a request.
#[derive(Clone, Copy, Debug, PartialEq, Eq, Structural)]
pub enum ShellAction {
    LauncherOpen,
    LauncherClose,
    LauncherToggle,
    FinderOpen,
    FinderClose,
    FinderToggle,
}

/// The command line: `ghost-shell msg <launcher|finder> <action>`.
#[derive(Clone, Copy, Debug, PartialEq, Eq, Structural)]
pub struct Cli {
    pub command: Command,
}

#[derive(Clone, Copy, Debug, PartialEq, Eq, Structural)]
pub enum Command {
    Msg { command: MsgCommand },
}

#[derive(Clone, Copy, Debug, PartialEq, Eq, Structural)]
pub enum MsgCommand {
    Launcher { action: LauncherCommand },
    Finder { action: FinderCommand },
}

#[derive(Clone, Copy, Debug, PartialEq, Eq, Structural)]
pub enum LauncherCommand {
    Toggle,
}

#[derive(Clone, Copy, Debug, PartialEq, Eq, Structural)]
pub enum FinderCommand {
    Toggle,
}

/// The request that a command line sends.
pub open spec fn request_of(cli: Cli) -> Request {
    match cli.command {
        Command::Msg { command } => match command {
            MsgCommand::Launcher { action } => match action {
                LauncherCommand::Toggle => Request::Launcher { action: LauncherAction::Toggle },
            },
            MsgCommand::Finder { action } => match action {
                FinderCommand::Toggle => Request::Finder { action: FinderAction::Toggle },
            },
        },
    }
}

/// The shell action that a request triggers.
pub open spec fn action_of(request: Request) -> ShellAction {
    match request {
        Request::Launcher { action } => match action {
            LauncherAction::Open => ShellAction::LauncherOpen,
            LauncherAction::Close => ShellAction::LauncherClose,
            LauncherAction::Toggle => ShellAction::LauncherToggle,
        },
        Request::Finder { action } => match action {
            FinderAction::Open => ShellAction::FinderOpen,
            FinderAction::Close => ShellAction::FinderClose,
            FinderAction::Toggle => ShellAction::FinderToggle,
        },
    }
}

impl Cli {
    /// The request that this command line sends to the daemon.
    pub fn request(&self) -> (r: Request)
        ensures
            r == request_of(*self),
    {
        match self.command {
            Command::Msg { command } => match command {
                MsgCommand::Launcher { action } => match action {
                    LauncherCommand::Toggle => Request::Launcher { action: LauncherAction::Toggle },
                },
                MsgCommand::Finder { action } => match action {
                    FinderCommand::Toggle => Request::Finder { action: FinderAction::Toggle },
                },
            },
        }
    }
}

/// The shell action that the daemon dispatches for `request`, and its reply:
/// every request is handled.
pub fn handle_request(request: Request) -> (r: (ShellAction, Result<Response, String>))
    ensures
        r.0 == action_of(request),
        r.1 == Ok::<Response, String>(Response::Handled),
{
    let action = match request {
        Request::Launcher { action } => match action {
            LauncherAction::Open => ShellAction::LauncherOpen,
            LauncherAction::Close => ShellAction::LauncherClose,
            LauncherAction::Toggle => ShellAction::LauncherToggle,
        },
        Request::Finder { action } => match action {
            FinderAction::Open => ShellAction::FinderOpen,
            FinderAction::Close => ShellAction::FinderClose,
            FinderAction::Toggle => ShellAction::FinderToggle,
        },
    };
    (action, Ok(Response::Handled))
}

/// A message on the socket: its bytes followed by a newline.
pub fn frame(payload: &Vec<u8>) -> (r: Vec<u8>)
    ensures
        r@ == payload@.push(10u8),
{
    let mut r: Vec<u8> = Vec::new();
    let mut i: usize = 0;
    while i < payload.len()
        invariant
            i <= payload@.len(),
            r@ == payload@.take(i as int),
        decreases payload@.len() - i,
    {
        r.push(payload[i]);
        proof {
            assert(payload@.take(i + 1) =~= payload@.take(i as int).push(payload@[i as int]));
        }
        i = i + 1;
    }
    r.push(10u8);
    proof {
        assert(payload@.take(payload@.len() as int) =~= payload@);
    }
    r
}

/// The command line toggles the window it names, and the daemon toggles that
/// window when it receives the request.
pub proof fn lemma_command_toggles_named_window(cli: Cli)
    ensures
        cli.command matches Command::Msg { command: MsgCommand::Launcher { .. } } ==> action_of(request_of(cli))
            == ShellAction::LauncherToggle,
        cli.command matches Command::Msg { command: MsgCommand::Finder { .. } } ==> action_of(request_of(cli))
            == ShellAction::FinderToggle,
{
}

/// The daemon does what a request asks, to the window it names: opening,
/// closing or toggling the launcher or the finder. Distinct requests lead to
/// distinct actions.
pub proof fn lemma_request_names_window_and_verb(request: Request, other: Request)
    ensures
        request == (Request::Launcher { action: LauncherAction::Open }) ==> action_of(request)
            == ShellAction::LauncherOpen,
        request == (Request::Launcher { action: LauncherAction::Close }) ==> action_of(request)
            == ShellAction::LauncherClose,
        request == (Request::Launcher { action: LauncherAction::Toggle }) ==> action_of(request)
            == ShellAction::LauncherToggle,
        request == (Request::Finder { action: FinderAction::Open }) ==> action_of(request) == ShellAction::FinderOpen,
        request == (Request::Finder { action: FinderAction::Close }) ==> action_of(request) == ShellAction::FinderClose,
        request == (Request::Finder { action: FinderAction::Toggle }) ==> action_of(request)
            == ShellAction::FinderToggle,
        action_of(request) == action_of(other) ==> request == other,
{
}

} // verus!
