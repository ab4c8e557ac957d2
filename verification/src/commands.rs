//! What the terminal client does for each command.
use vstd::prelude::*;

use crate::cli::{Command, SpecCommand};
use crate::text::{trim, trim_str};

verus! {

/// The step the client takes for a command.
#[derive(Debug, Clone, PartialEq, Eq)]
pub enum Action {
    /// Nothing to do.
    Nothing,
    /// Show the list of commands.
    ShowHelp,
    /// The command lacks its argument: show how it is used (`Usage: {usage}`).
    ShowUsage { usage: String },
    /// Connect to the peer at `address`.
    Connect { address: String },
    /// Disconnect the peer `username`.
    Disconnect { username: String },
    /// Show the connected peers.
    ShowPeers,
    /// Send `message` to every peer.
    Broadcast { message: String },
    /// Send `message` to the peer `username`.
    SendDirect { username: String, message: String },
    /// Change this node's username.
    Rename { username: String },
    /// Leave the client.
    Quit,
    /// Report a command that does not exist.
    ReportUnknown { command: String },
}

/// The mathematical content of an [`Action`].
pub enum SpecAction {
    Nothing,
    ShowHelp,
    ShowUsage { usage: Seq<char> },
    Connect { address: Seq<char> },
    Disconnect { username: Seq<char> },
    ShowPeers,
    Broadcast { message: Seq<char> },
    SendDirect { username: Seq<char>, message: Seq<char> },
    Rename { username: Seq<char> },
    Quit,
    ReportUnknown { command: Seq<char> },
}

impl View for Action {
    type V = SpecAction;

    open spec fn view(&self) -> SpecAction {
        match self {
            Action::Nothing => SpecAction::Nothing,
            Action::ShowHelp => SpecAction::ShowHelp,
            Action::ShowUsage { usage } => SpecAction::ShowUsage { usage: usage@ },
            Action::Connect { address } => SpecAction::Connect { address: address@ },
            Action::Disconnect { username } => SpecAction::Disconnect { username: username@ },
            Action::ShowPeers => SpecAction::ShowPeers,
            Action::Broadcast { message } => SpecAction::Broadcast { message: message@ },
            Action::SendDirect { username, message } => SpecAction::SendDirect {
                username: username@,
                message: message@,
            },
            Action::Rename { username } => SpecAction::Rename { username: username@ },
            Action::Quit => SpecAction::Quit,
            Action::ReportUnknown { command } => SpecAction::ReportUnknown { command: command@ },
        }
    }
}

/// The step for a command: a command whose argument is missing (empty, or
/// only white space for messages and recipients) gets its usage shown, any
/// other is carried out.
pub open spec fn action_for(command: SpecCommand) -> SpecAction {
    match command {
        SpecCommand::Empty => SpecAction::Nothing,
        SpecCommand::Help => SpecAction::ShowHelp,
        SpecCommand::Connect { address } => if address.len() == 0 {
            SpecAction::ShowUsage { usage: "connect <host:port>"@ }
        } else {
            SpecAction::Connect { address }
        },
        SpecCommand::Disconnect { username } => if username.len() == 0 {
            SpecAction::ShowUsage { usage: "disconnect <username>"@ }
        } else {
            SpecAction::Disconnect { username }
        },
        SpecCommand::Peers => SpecAction::ShowPeers,
        SpecCommand::Yap { message } => if trim(message).len() == 0 {
            SpecAction::ShowUsage { usage: "yap <message>"@ }
        } else {
            SpecAction::Broadcast { message }
        },
        SpecCommand::To { username, message } => if trim(username).len() == 0 || trim(
            message,
        ).len() == 0 {
            SpecAction::ShowUsage { usage: "to <username> <message>"@ }
        } else {
            SpecAction::SendDirect { username, message }
        },
        SpecCommand::Name { username } => if username.len() == 0 {
            SpecAction::ShowUsage { usage: "name <username>"@ }
        } else {
            SpecAction::Rename { username }
        },
        SpecCommand::Quit => SpecAction::Quit,
        SpecCommand::Unknown { command } => SpecAction::ReportUnknown { command },
    }
}

/// Whether `s` is empty once trimmed of white space.
fn blank(s: &String) -> (b: bool)
    ensures
        b == (trim(s@).len() == 0),
{
    trim_str(s.as_str()).as_str().is_empty()
}

/// The step the client takes for `command` (see [`action_for`]).
pub fn plan(command: Command) -> (action: Action)
    ensures
        action@ == action_for(command@),
{
    match command {
        Command::Empty => Action::Nothing,
        Command::Help => Action::ShowHelp,
        Command::Connect { address } => if address.as_str().is_empty() {
            Action::ShowUsage { usage: "connect <host:port>".to_owned() }
        } else {
            Action::Connect { address }
        },
        Command::Disconnect { username } => if username.as_str().is_empty() {
            Action::ShowUsage { usage: "disconnect <username>".to_owned() }
        } else {
            Action::Disconnect { username }
        },
        Command::Peers => Action::ShowPeers,
        Command::Yap { message } => if blank(&message) {
            Action::ShowUsage { usage: "yap <message>".to_owned() }
        } else {
            Action::Broadcast { message }
        },
        Command::To { username, message } => if blank(&username) || blank(&message) {
            Action::ShowUsage { usage: "to <username> <message>".to_owned() }
        } else {
            Action::SendDirect { username, message }
        },
        Command::Name { username } => if username.as_str().is_empty() {
            Action::ShowUsage { usage: "name <username>".to_owned() }
        } else {
            Action::Rename { username }
        },
        Command::Quit => Action::Quit,
        Command::Unknown { command } => Action::ReportUnknown { command },
    }
}


/// A command whose argument is there is carried out by the action of the
/// same kind, on the same argument; the argument-free commands map to their
/// own actions.
pub proof fn law_complete_commands_carried_out(argument: Seq<char>, message: Seq<char>)
    ensures
        argument.len() > 0 ==> action_for(SpecCommand::Connect { address: argument }) == (
        SpecAction::Connect { address: argument }),
        argument.len() > 0 ==> action_for(SpecCommand::Disconnect { username: argument }) == (
        SpecAction::Disconnect { username: argument }),
        argument.len() > 0 ==> action_for(SpecCommand::Name { username: argument }) == (
        SpecAction::Rename { username: argument }),
        trim(message).len() > 0 ==> action_for(SpecCommand::Yap { message }) == (
        SpecAction::Broadcast { message }),
        trim(argument).len() > 0 && trim(message).len() > 0 ==> action_for(
            SpecCommand::To { username: argument, message },
        ) == (SpecAction::SendDirect { username: argument, message }),
        action_for(SpecCommand::Help) == SpecAction::ShowHelp,
        action_for(SpecCommand::Peers) == SpecAction::ShowPeers,
        action_for(SpecCommand::Quit) == SpecAction::Quit,
        action_for(SpecCommand::Empty) == SpecAction::Nothing,
        action_for(SpecCommand::Unknown { command: argument }) == (SpecAction::ReportUnknown {
            command: argument,
        }),
{
}

/// A command whose argument is missing is never carried out: its usage is
/// shown instead.
pub proof fn law_missing_argument_shows_usage(argument: Seq<char>, message: Seq<char>)
    ensures
        argument.len() == 0 ==> action_for(SpecCommand::Connect { address: argument }) is ShowUsage,
        argument.len() == 0 ==> action_for(SpecCommand::Disconnect { username: argument }) is ShowUsage,
        argument.len() == 0 ==> action_for(SpecCommand::Name { username: argument }) is ShowUsage,
        trim(message).len() == 0 ==> action_for(SpecCommand::Yap { message }) is ShowUsage,
        trim(argument).len() == 0 || trim(message).len() == 0 ==> action_for(
            SpecCommand::To { username: argument, message },
        ) is ShowUsage,
{
}

} // verus!
