//! The lines the terminal client shows for what happens on the network.
use vstd::prelude::*;

verus! {

/// `{from}: {message}`, a chat message.
pub fn chat_message(from: &str, message: &str) -> (line: String)
    ensures
        line@ == from@ + ": "@ + message@,
{
    let mut line = from.to_owned();
    line.append(": ");
    line.append(message);
    line
}

/// `{from} -> {to}: {message}`, a direct message.
pub fn direct_message(from: &str, to: &str, message: &str) -> (line: String)
    ensures
        line@ == from@ + " -> "@ + to@ + ": "@ + message@,
{
    let mut line = from.to_owned();
    line.append(" -> ");
    line.append(to);
    line.append(": ");
    line.append(message);
    line
}

/// `*** {username} connected ({address})`, a peer that connected.
pub fn connected(username: &str, address: &str) -> (line: String)
    ensures
        line@ == "*** "@ + username@ + " connected ("@ + address@ + ")"@,
{
    let mut line = "*** ".to_owned();
    line.append(username);
    line.append(" connected (");
    line.append(address);
    line.append(")");
    line
}

/// `*** {username} disconnected`, a peer that left.
pub fn disconnected(username: &str) -> (line: String)
    ensures
        line@ == "*** "@ + username@ + " disconnected"@,
{
    let mut line = "*** ".to_owned();
    line.append(username);
    line.append(" disconnected");
    line
}


/// `prefix`, then `middle`, then `suffix`.
fn framed(prefix: &str, middle: &str, suffix: &str) -> (line: String)
    ensures
        line@ == prefix@ + middle@ + suffix@,
{
    let mut line = prefix.to_owned();
    line.append(middle);
    line.append(suffix);
    line
}

/// `prefix`, then `text`.
fn prefixed(prefix: &str, text: &str) -> (line: String)
    ensures
        line@ == prefix@ + text@,
{
    let mut line = prefix.to_owned();
    line.append(text);
    line
}

/// Each line by its characters.
pub open spec fn line_views(lines: Seq<String>) -> Seq<Seq<char>> {
    lines.map_values(|l: String| l@)
}

/// The list of commands, framed by blank lines.
pub fn help() -> (lines: Vec<String>)
    ensures
        line_views(lines@) == seq![
            ""@,
            "Commands:"@,
            "  connect <host:port>"@,
            "  disconnect <username>"@,
            "  peers"@,
            "  yap <message>"@,
            "  to <username> <message>"@,
            "  name <username>"@,
            "  help"@,
            "  quit"@,
            ""@,
        ],
{
    let mut lines: Vec<String> = Vec::new();
    lines.push("".to_owned());
    lines.push("Commands:".to_owned());
    lines.push("  connect <host:port>".to_owned());
    lines.push("  disconnect <username>".to_owned());
    lines.push("  peers".to_owned());
    lines.push("  yap <message>".to_owned());
    lines.push("  to <username> <message>".to_owned());
    lines.push("  name <username>".to_owned());
    lines.push("  help".to_owned());
    lines.push("  quit".to_owned());
    lines.push("".to_owned());
    assert(line_views(lines@) =~= seq![
        ""@,
        "Commands:"@,
        "  connect <host:port>"@,
        "  disconnect <username>"@,
        "  peers"@,
        "  yap <message>"@,
        "  to <username> <message>"@,
        "  name <username>"@,
        "  help"@,
        "  quit"@,
        ""@,
    ]);
    lines
}

/// The connected peers, one per line after a heading, or a line saying that
/// there are none.
pub fn peer_list(names: &Vec<String>) -> (lines: Vec<String>)
    ensures
        names@.len() == 0 ==> line_views(lines@) == seq!["No directly connected peers."@],
        names@.len() > 0 ==> {
            &&& lines@.len() == names@.len() + 1
            &&& lines@[0]@ == "Peers:"@
            &&& forall|i: int| 0 <= i < names@.len() ==> #[trigger] lines@[i + 1]@ == "  "@ + names@[i]@
        },
{
    let mut lines: Vec<String> = Vec::new();
    if names.len() == 0 {
        lines.push("No directly connected peers.".to_owned());
        assert(line_views(lines@) =~= seq!["No directly connected peers."@]);
        return lines;
    }
    lines.push("Peers:".to_owned());
    let mut i: usize = 0;
    while i < names.len()
        invariant
            i <= names@.len(),
            lines@.len() == i + 1,
            lines@[0]@ == "Peers:"@,
            forall|k: int| 0 <= k < i ==> #[trigger] lines@[k + 1]@ == "  "@ + names@[k]@,
        decreases names@.len() - i,
    {
        let line = prefixed("  ", names[i].as_str());
        let ghost before = lines@;
        lines.push(line);
        assert(lines@[i + 1]@ == "  "@ + names@[i as int]@);
        assert forall|k: int| 0 <= k < i + 1 implies #[trigger] lines@[k + 1]@ == "  "@ + names@[k]@ by {
            if k < i {
                assert(lines@[k + 1] == before[k + 1]);
            }
        }
        i = i + 1;
    }
    lines
}

/// `Usage: {usage}`.
pub fn usage(text: &str) -> (line: String)
    ensures
        line@ == "Usage: "@ + text@,
{
    prefixed("Usage: ", text)
}

/// `Connecting to {address}...`.
pub fn connecting(address: &str) -> (line: String)
    ensures
        line@ == "Connecting to "@ + address@ + "..."@,
{
    framed("Connecting to ", address, "...")
}

/// `Connected.`, after a connection succeeded.
pub fn connected_to() -> (line: String)
    ensures
        line@ == "Connected."@,
{
    "Connected.".to_owned()
}

/// `Connection failed: {error}`.
pub fn connection_failed(error: &str) -> (line: String)
    ensures
        line@ == "Connection failed: "@ + error@,
{
    prefixed("Connection failed: ", error)
}

/// `Disconnected from {username}.`.
pub fn disconnected_from(username: &str) -> (line: String)
    ensures
        line@ == "Disconnected from "@ + username@ + "."@,
{
    framed("Disconnected from ", username, ".")
}

/// `Error: {error}`.
pub fn error(message: &str) -> (line: String)
    ensures
        line@ == "Error: "@ + message@,
{
    prefixed("Error: ", message)
}

/// `Yap failed: {error}`.
pub fn yap_failed(error: &str) -> (line: String)
    ensures
        line@ == "Yap failed: "@ + error@,
{
    prefixed("Yap failed: ", error)
}

/// `Send failed: {error}`.
pub fn send_failed(error: &str) -> (line: String)
    ensures
        line@ == "Send failed: "@ + error@,
{
    prefixed("Send failed: ", error)
}

/// `Username changed to {username}.`.
pub fn username_changed(username: &str) -> (line: String)
    ensures
        line@ == "Username changed to "@ + username@ + "."@,
{
    framed("Username changed to ", username, ".")
}

/// `Name change failed: {error}`.
pub fn name_change_failed(error: &str) -> (line: String)
    ensures
        line@ == "Name change failed: "@ + error@,
{
    prefixed("Name change failed: ", error)
}

/// `Unknown command: {command}`, then the hint `Try 'help'.`.
pub fn unknown_command(command: &str) -> (lines: Vec<String>)
    ensures
        line_views(lines@) == seq!["Unknown command: "@ + command@, "Try 'help'."@],
{
    let mut lines: Vec<String> = Vec::new();
    lines.push(prefixed("Unknown command: ", command));
    lines.push("Try 'help'.".to_owned());
    assert(line_views(lines@) =~= seq!["Unknown command: "@ + command@, "Try 'help'."@]);
    lines
}

} // verus!
