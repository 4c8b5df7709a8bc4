# hosteld

The decision core of a peer-to-peer voice, chat and screen-sharing client, with
its behaviour stated in contracts and proved with Verus.

The library (`src/`) computes on plain values only. It keeps the state of the
client, takes in events of the messaging service, of the call engines and of
the user, and answers with the new state and a list of actions. The program
around it (`app/`) does the actions: files, sockets, the window, sounds and
notifications.

| Module | What it holds |
|---|---|
| `app` | the whole state, and what touches more than one part of it |
| `events` | what comes in between two frames |
| `call` | the call between two peers |
| `messages` | chats, file transfers and contact requests |
| `groups`, `group`, `admin` | groups, their members and their calls |
| `channels`, `sidebar` | text and voice channels: merging, listing, joining |
| `chat` | how messages and files are shown |
| `settings` | settings, blocked contacts and banned addresses |
| `identity` | keys, contacts and the identifiers derived from them |
| `network` | the addresses of this machine |
| `picture` | decoding pictures, cutting them, and the size of avatars |
| `notify` | notification scripts |
| `logger`, `cli` | the log view and the command line |
| `effects` | the actions that the library asks for |
| `text`, `table`, `order` | texts, tables and stable sorting |

Each state has a view as mathematical data (`CallsData`, `MessagesData`,
`GroupsData`, `AppData`), and each operation states the view after it in terms
of the view before it. The laws that hold of several operations stand beside
them as public proof functions.

Verus takes these outside functions on trust, each behind one small item whose
contract says what is taken for granted: `sha2::Sha256::digest`,
`x25519_dalek::PublicKey::from`, `rand::thread_rng().fill_bytes`,
`image::load_from_memory` with `to_rgba8`, and of the standard library `String::push`,
`str::to_lowercase` and `char::to_uppercase`.
