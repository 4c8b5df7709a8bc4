use hosteld::cli::{parse_command, Command};

fn read(words: &[&str]) -> Command<String> {
    let mut args = vec!["hostelD".to_string()];
    args.extend(words.iter().map(|w| w.to_string()));
    parse_command(&args)
}

fn complaint(words: &[&str]) -> String {
    match read(words) {
        Command::Complain(why) => why,
        _ => panic!("understood"),
    }
}

#[test]
fn the_window_is_the_default() {
    assert!(matches!(read(&[]), Command::Gui));
    assert!(matches!(read(&["gui", "x"]), Command::Gui));
    assert!(matches!(parse_command(&Vec::new()), Command::Gui));
}

#[test]
fn plain_commands() {
    assert!(matches!(read(&["tui"]), Command::Tui));
    assert!(matches!(read(&["devices"]), Command::Devices));
    assert!(matches!(read(&["mic-test"]), Command::MicTest));
}

#[test]
fn calling_takes_three_words() {
    match read(&["call", "::1", "9000", "9001"]) {
        Command::Call { ip, port, local_port } => {
            assert_eq!((ip.as_str(), port.as_str(), local_port.as_str()), ("::1", "9000", "9001"))
        }
        _ => panic!("a call"),
    }
    assert_eq!(
        complaint(&["call", "::1", "9000"]),
        "Usage: hostelD call <peer-ip> <peer-port> <local-port>\nExample: hostelD call ::1 9000 9001"
    );
}

#[test]
fn listening_has_a_default_port() {
    assert!(matches!(read(&["listen"]), Command::Listen { port } if port == "9000"));
    assert!(matches!(read(&["listen", "77"]), Command::Listen { port } if port == "77"));
}

#[test]
fn sending_takes_three_words() {
    match read(&["send", "::1", "9000", "hi"]) {
        Command::Send { ip, port, message } => {
            assert_eq!((ip.as_str(), port.as_str(), message.as_str()), ("::1", "9000", "hi"))
        }
        _ => panic!("a message"),
    }
    assert_eq!(complaint(&["send", "::1"]), "Usage: hostelD send <ip> <port> <message>");
}

#[test]
fn other_words_are_unknown() {
    assert_eq!(complaint(&["dance"]), "Unknown command: dance");
}
