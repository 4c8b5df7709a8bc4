//! What the command line asks for.

use vstd::prelude::*;

use crate::text::{concat, copy, same, views};

verus! {

/// What the command line asks for, with texts of type `S`.
pub enum Command<S> {
    /// The window is opened.
    Gui,
    /// The terminal interface is opened.
    Tui,
    /// A peer is called.
    Call { ip: S, port: S, local_port: S },
    /// Datagrams on a port are echoed.
    Listen { port: S },
    /// A datagram is sent.
    Send { ip: S, port: S, message: S },
    /// The audio devices are listed.
    Devices,
    /// The microphone is played back.
    MicTest,
    /// The command line is not understood, for this reason.
    Complain(S),
}

impl View for Command<String> {
    type V = Command<Seq<char>>;

    open spec fn view(&self) -> Command<Seq<char>> {
        match *self {
            Command::Gui => Command::Gui,
            Command::Tui => Command::Tui,
            Command::Call { ip, port, local_port } => Command::Call {
                ip: ip@,
                port: port@,
                local_port: local_port@,
            },
            Command::Listen { port } => Command::Listen { port: port@ },
            Command::Send { ip, port, message } => Command::Send {
                ip: ip@,
                port: port@,
                message: message@,
            },
            Command::Devices => Command::Devices,
            Command::MicTest => Command::MicTest,
            Command::Complain(why) => Command::Complain(why@),
        }
    }
}

/// What a command line asks for. The first word is the program itself; without a second one
/// the window is opened.
pub open spec fn command_of(args: Seq<Seq<char>>) -> Command<Seq<char>> {
    if args.len() < 2 || args[1] == "gui"@ {
        Command::Gui
    } else if args[1] == "tui"@ {
        Command::Tui
    } else if args[1] == "call"@ {
        if args.len() < 5 {
            Command::Complain(
                "Usage: hostelD call <peer-ip> <peer-port> <local-port>\nExample: hostelD call ::1 9000 9001"@,
            )
        } else {
            Command::Call { ip: args[2], port: args[3], local_port: args[4] }
        }
    } else if args[1] == "listen"@ {
        Command::Listen {
            port: if args.len() > 2 {
                args[2]
            } else {
                "9000"@
            },
        }
    } else if args[1] == "send"@ {
        if args.len() < 5 {
            Command::Complain("Usage: hostelD send <ip> <port> <message>"@)
        } else {
            Command::Send { ip: args[2], port: args[3], message: args[4] }
        }
    } else if args[1] == "devices"@ {
        Command::Devices
    } else if args[1] == "mic-test"@ {
        Command::MicTest
    } else {
        Command::Complain("Unknown command: "@ + args[1])
    }
}

/// Reads the command line.
pub fn parse_command(args: &Vec<String>) -> (r: Command<String>)
    ensures
        r@ == command_of(views(args@)),
{
    if args.len() < 2 {
        return Command::Gui;
    }
    let word = args[1].as_str();
    if same(word, "gui") {
        Command::Gui
    } else if same(word, "tui") {
        Command::Tui
    } else if same(word, "call") {
        if args.len() < 5 {
            Command::Complain(
                copy(
                    "Usage: hostelD call <peer-ip> <peer-port> <local-port>\nExample: hostelD call ::1 9000 9001",
                ),
            )
        } else {
            Command::Call {
                ip: copy(args[2].as_str()),
                port: copy(args[3].as_str()),
                local_port: copy(args[4].as_str()),
            }
        }
    } else if same(word, "listen") {
        let port = if args.len() > 2 {
            copy(args[2].as_str())
        } else {
            copy("9000")
        };
        Command::Listen { port }
    } else if same(word, "send") {
        if args.len() < 5 {
            Command::Complain(copy("Usage: hostelD send <ip> <port> <message>"))
        } else {
            Command::Send {
                ip: copy(args[2].as_str()),
                port: copy(args[3].as_str()),
                message: copy(args[4].as_str()),
            }
        }
    } else if same(word, "devices") {
        Command::Devices
    } else if same(word, "mic-test") {
        Command::MicTest
    } else {
        Command::Complain(concat("Unknown command: ", word))
    }
}

/// Each command is known by its name, and takes the words behind it in their order. Without
/// a command the window is opened, one that lacks words is told how it is used, and one that
/// is not known is named.
pub proof fn commands_take_the_words_behind_them(args: Seq<Seq<char>>)
    ensures
        args.len() < 2 ==> command_of(args) is Gui,
        args.len() >= 2 ==> {
            let word = args[1];
            &&& word == "gui"@ ==> command_of(args) is Gui
            &&& word == "tui"@ ==> command_of(args) is Tui
            &&& word == "devices"@ ==> command_of(args) is Devices
            &&& word == "mic-test"@ ==> command_of(args) is MicTest
            &&& word == "call"@ && args.len() >= 5 ==> command_of(args) == (Command::Call {
                ip: args[2],
                port: args[3],
                local_port: args[4],
            })
            &&& word == "call"@ && args.len() < 5 ==> command_of(args) is Complain
            &&& word == "listen"@ && args.len() > 2 ==> command_of(args) == (Command::Listen {
                port: args[2],
            })
            &&& word == "listen"@ && args.len() == 2 ==> command_of(args) == (Command::Listen {
                port: "9000"@,
            })
            &&& word == "send"@ && args.len() >= 5 ==> command_of(args) == (Command::Send {
                ip: args[2],
                port: args[3],
                message: args[4],
            })
            &&& word == "send"@ && args.len() < 5 ==> command_of(args) is Complain
            &&& word != "gui"@ && word != "tui"@ && word != "devices"@ && word != "mic-test"@ && word
                != "call"@ && word != "listen"@ && word != "send"@ ==> command_of(args) == Command::<
                Seq<char>,
            >::Complain("Unknown command: "@ + word)
        },
{
    reveal_strlit("gui");
    reveal_strlit("tui");
    reveal_strlit("call");
    reveal_strlit("listen");
    reveal_strlit("send");
    reveal_strlit("devices");
    reveal_strlit("mic-test");
    assert("gui"@[0] == 'g');
    assert("tui"@[0] == 't');
    assert("call"@[0] == 'c');
    assert("listen"@[0] == 'l');
    assert("send"@[0] == 's');
    assert("devices"@[0] == 'd');
    assert("mic-test"@[0] == 'm');
}

} // verus!
