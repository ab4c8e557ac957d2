use yap::cli::{parse, Command};
use yap::commands::{plan, Action};
use yap::input::Input;
use yap::local_identity::LocalIdentity;
use yap::output;
use yap::output::{chat_message, connected, direct_message, disconnected};
use yap::text::is_whitespace;

fn s(text: &str) -> String {
    text.to_string()
}

#[test]
fn parse_empty_and_blank() {
    assert_eq!(parse(""), Command::Empty);
    assert_eq!(parse("   \t  "), Command::Empty);
    assert_eq!(parse("\u{3000}\u{a0}"), Command::Empty);
}

#[test]
fn parse_help_variants() {
    assert_eq!(parse("help"), Command::Help);
    assert_eq!(parse("  HeLp  "), Command::Help);
    assert_eq!(parse("?"), Command::Help);
}

#[test]
fn parse_connect_trims_argument() {
    assert_eq!(
        parse("connect    127.0.0.1:7332  "),
        Command::Connect { address: s("127.0.0.1:7332") }
    );
    assert_eq!(parse("connect"), Command::Connect { address: s("") });
}

#[test]
fn parse_disconnect_peers_name() {
    assert_eq!(parse("disconnect bob"), Command::Disconnect { username: s("bob") });
    assert_eq!(parse("PEERS"), Command::Peers);
    assert_eq!(parse("name  Alice "), Command::Name { username: s("Alice") });
}

#[test]
fn parse_yap_keeps_inner_spaces() {
    assert_eq!(parse("yap hello   world"), Command::Yap { message: s("hello   world") });
}

#[test]
fn parse_to_splits_recipient() {
    assert_eq!(
        parse("to bob   how are you? "),
        Command::To { username: s("bob"), message: s("how are you?") }
    );
    assert_eq!(parse("to bob"), Command::To { username: s("bob"), message: s("") });
    assert_eq!(parse("to"), Command::To { username: s(""), message: s("") });
}

#[test]
fn parse_quit_and_exit() {
    assert_eq!(parse("quit"), Command::Quit);
    assert_eq!(parse("EXIT"), Command::Quit);
}

#[test]
fn parse_unknown_keeps_case() {
    assert_eq!(parse("Dance now"), Command::Unknown { command: s("Dance") });
}

#[test]
fn parse_splits_on_space_only() {
    // A tab is white space but does not separate the command word.
    assert_eq!(parse("yap\thi"), Command::Unknown { command: s("yap\thi") });
}

#[test]
fn whitespace_matches_std() {
    for u in 0u32..=0x10FFFF {
        if let Some(c) = char::from_u32(u) {
            assert_eq!(is_whitespace(c), c.is_whitespace(), "{u:#x}");
        }
    }
}

#[test]
fn plan_usage_for_missing_arguments() {
    assert_eq!(
        plan(Command::Connect { address: s("") }),
        Action::ShowUsage { usage: s("connect <host:port>") }
    );
    assert_eq!(
        plan(Command::Disconnect { username: s("") }),
        Action::ShowUsage { usage: s("disconnect <username>") }
    );
    assert_eq!(
        plan(Command::Yap { message: s("   ") }),
        Action::ShowUsage { usage: s("yap <message>") }
    );
    assert_eq!(
        plan(Command::To { username: s("bob"), message: s(" ") }),
        Action::ShowUsage { usage: s("to <username> <message>") }
    );
    assert_eq!(
        plan(Command::Name { username: s("") }),
        Action::ShowUsage { usage: s("name <username>") }
    );
}

#[test]
fn plan_carries_out_complete_commands() {
    assert_eq!(plan(Command::Empty), Action::Nothing);
    assert_eq!(plan(Command::Help), Action::ShowHelp);
    assert_eq!(plan(Command::Peers), Action::ShowPeers);
    assert_eq!(plan(Command::Quit), Action::Quit);
    assert_eq!(
        plan(Command::Connect { address: s("1.2.3.4:5") }),
        Action::Connect { address: s("1.2.3.4:5") }
    );
    assert_eq!(
        plan(Command::To { username: s("bob"), message: s("hi") }),
        Action::SendDirect { username: s("bob"), message: s("hi") }
    );
    assert_eq!(
        plan(Command::Unknown { command: s("x") }),
        Action::ReportUnknown { command: s("x") }
    );
}

#[test]
fn local_identity_trims_and_checks() {
    let id = LocalIdentity::new("  Blyth ").unwrap();
    assert_eq!(id.username(), "Blyth");
    assert_eq!(LocalIdentity::new("   ").unwrap_err(), "Username cannot be empty.");
    assert_eq!(
        LocalIdentity::new(&"a".repeat(33)).unwrap_err(),
        "Username cannot be longer than 32 characters."
    );
    assert!(LocalIdentity::new(&"a".repeat(32)).is_ok());
    // The limit counts bytes: eleven three-byte characters are too many.
    assert!(LocalIdentity::new(&"世".repeat(11)).is_err());
}

#[test]
fn local_identity_set_username() {
    let mut id = LocalIdentity::new("a").unwrap();
    id.set_username(s("b c"));
    assert_eq!(id.username(), "b c");
}

#[test]
fn input_line_from() {
    assert_eq!(Input::line_from(0, ""), None);
    assert_eq!(Input::line_from(7, "  hi \r\n"), Some(s("  hi")));
    let _prompt = Input::new();
}

#[test]
fn output_lines() {
    assert_eq!(chat_message("alice", "hi"), "alice: hi");
    assert_eq!(direct_message("alice", "bob", "yo"), "alice -> bob: yo");
    assert_eq!(connected("bob", "127.0.0.1:7331"), "*** bob connected (127.0.0.1:7331)");
    assert_eq!(disconnected("bob"), "*** bob disconnected");
}

#[test]
fn only_kelvin_sign_lowercases_into_ascii_letters() {
    // Command words are matched in ASCII lower case; the only other character
    // whose lower case is an ASCII letter is the Kelvin sign, and no command
    // word contains a 'k'.
    for u in 0x80u32..=0x10FFFF {
        if let Some(c) = char::from_u32(u) {
            let lower: String = c.to_lowercase().collect();
            if lower.chars().all(|l| l.is_ascii_lowercase()) {
                assert_eq!(c, '\u{212A}');
            }
        }
    }
    assert_eq!(parse("\u{212A}elp"), Command::Unknown { command: s("\u{212A}elp") });
}

#[test]
fn command_output_lines() {
    let help = output::help();
    assert_eq!(help.len(), 11);
    assert_eq!(help[1], "Commands:");
    assert_eq!(help[3], "  disconnect <username>");
    assert_eq!(help[10], "");
    assert_eq!(output::peer_list(&vec![]), vec![s("No directly connected peers.")]);
    assert_eq!(
        output::peer_list(&vec![s("alice"), s("bob")]),
        vec![s("Peers:"), s("  alice"), s("  bob")]
    );
    assert_eq!(output::usage("yap <message>"), "Usage: yap <message>");
    assert_eq!(output::connecting("1.2.3.4:5"), "Connecting to 1.2.3.4:5...");
    assert_eq!(output::connected_to(), "Connected.");
    assert_eq!(output::connection_failed("boom"), "Connection failed: boom");
    assert_eq!(output::disconnected_from("bob"), "Disconnected from bob.");
    assert_eq!(output::error("x"), "Error: x");
    assert_eq!(output::yap_failed("x"), "Yap failed: x");
    assert_eq!(output::send_failed("x"), "Send failed: x");
    assert_eq!(output::username_changed("bob"), "Username changed to bob.");
    assert_eq!(output::name_change_failed("x"), "Name change failed: x");
    assert_eq!(output::unknown_command("dance"), vec![s("Unknown command: dance"), s("Try 'help'.")]);
}
