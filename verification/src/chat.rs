//! How messages and files are shown in a chat.

use vstd::prelude::*;

use crate::app::{AppData, HostelApp};
use crate::call::{and_then_do, asks, no_actions};
use crate::effects::{maybe, Action, Effect, FileStatus};
use crate::group::{chat_recipients, group_chat_recipients, GroupMember, MemberData, Recipient};
use crate::groups::{
    kept_in_history, GroupCallData, GroupChatMsg, GroupChatMsgData, GroupsData, NavData,
};
use crate::identity::{contact_id, derive_contact_id};
use crate::messages::{about, followed, with_progress, without_transfer, Transfer, TransferData};
use crate::text::{concat, copy, decimal, decimal_text, same, trim, trimmed, views};

verus! {

/// The upper case of a character.
pub uninterp spec fn uppercase(c: char) -> Seq<char>;

/// `char::to_uppercase`: the result is a function of the character alone, named `uppercase`.
#[verifier::external_body]
fn to_uppercase(c: char) -> (r: String)
    ensures
        r@ == uppercase(c),
{
    c.to_uppercase().to_string()
}

/// The letter that stands for one without a picture: the first of the nickname in upper
/// case, or a question mark.
pub fn initial_of(nickname: &str) -> (r: String)
    ensures
        r@ == (if nickname@.len() == 0 {
            "?"@
        } else {
            uppercase(nickname@[0])
        }),
{
    let cs = crate::text::chars_of(nickname);
    if cs.len() == 0 {
        copy("?")
    } else {
        to_uppercase(cs[0])
    }
}

/// How far the first entry about a transfer says that it has come.
pub open spec fn progress_of(
    list: Seq<TransferData>,
    contact_id: Seq<char>,
    transfer_id: u32,
) -> Option<(u64, u64)>
    decreases list.len(),
{
    if list.len() == 0 {
        None
    } else if about(list[0], contact_id, transfer_id) {
        Some((list[0].done, list[0].total))
    } else {
        progress_of(list.drop_first(), contact_id, transfer_id)
    }
}

fn find_progress(list: &Vec<Transfer>, contact_id: &str, transfer_id: u32) -> (r: Option<(u64, u64)>)
    ensures
        r == progress_of(views(list@), contact_id@, transfer_id),
{
    let ghost all = views(list@);
    let mut i: usize = 0;
    assert(all.skip(0) =~= all);
    while i < list.len()
        invariant
            i <= list@.len(),
            all == views(list@),
            progress_of(all, contact_id@, transfer_id) == progress_of(
                all.skip(i as int),
                contact_id@,
                transfer_id,
            ),
        decreases list@.len() - i,
    {
        let t = &list[i];
        assert(all.skip(i as int)[0] == t@);
        assert(all.skip(i as int).drop_first() =~= all.skip(i + 1));
        if same(t.contact_id.as_str(), contact_id) && t.transfer_id == transfer_id {
            return Some((t.done, t.total));
        }
        i = i + 1;
    }
    None
}

/// How a file is shown in a chat.
pub struct FileRow {
    /// The line below the file.
    pub line: Option<String>,
    /// The bytes that went over, and all.
    pub progress: Option<(u64, u64)>,
    /// Whether the file can be accepted or declined.
    pub can_answer: bool,
    /// Whether the transfer can be stopped.
    pub can_cancel: bool,
    /// Where the file was saved.
    pub saved_path: Option<String>,
}

/// The line below a file.
pub open spec fn file_line(
    from_me: bool,
    status: FileStatus<Seq<char>>,
    progress: Option<(u64, u64)>,
) -> Option<Seq<char>> {
    match status {
        FileStatus::Offered => if from_me {
            Some("Waiting for response..."@)
        } else {
            None
        },
        FileStatus::Accepted => if progress is Some {
            None
        } else {
            Some("Transferring..."@)
        },
        FileStatus::Completed => Some("Completed"@),
        FileStatus::Rejected => Some("Rejected"@),
        FileStatus::Cancelled => Some("Cancelled"@),
        FileStatus::Failed(reason) => Some("Failed: "@ + reason),
    }
}

/// How a file of a chat with a contact is shown. `transfers` holds the transfers that are
/// followed.
pub fn file_row(
    contact_id: &str,
    from_me: bool,
    transfer_id: u32,
    status: &FileStatus<String>,
    saved_path: &Option<String>,
    transfers: &Vec<Transfer>,
) -> (r: FileRow)
    ensures
        r.progress == (if status@ is Accepted {
            progress_of(views(transfers@), contact_id@, transfer_id)
        } else {
            None
        }),
        maybe(r.line) == file_line(from_me, status@, r.progress),
        r.can_answer == (status@ is Offered && !from_me),
        r.can_cancel == (status@ is Accepted),
        maybe(r.saved_path) == (match maybe(*saved_path) {
            Some(p) if status@ is Completed && p.len() > 0 => Some(p),
            _ => None,
        }),
{
    let mut row = FileRow {
        line: None,
        progress: None,
        can_answer: false,
        can_cancel: false,
        saved_path: None,
    };
    match status {
        FileStatus::Offered => {
            if from_me {
                row.line = Some(copy("Waiting for response..."));
            } else {
                row.can_answer = true;
            }
        },
        FileStatus::Accepted => {
            row.progress = find_progress(transfers, contact_id, transfer_id);
            if row.progress.is_none() {
                row.line = Some(copy("Transferring..."));
            }
            row.can_cancel = true;
        },
        FileStatus::Completed => {
            row.line = Some(copy("Completed"));
            match saved_path {
                Some(p) => {
                    if !p.as_str().is_empty() {
                        row.saved_path = Some(copy(p.as_str()));
                    }
                },
                None => {},
            }
        },
        FileStatus::Rejected => {
            row.line = Some(copy("Rejected"));
        },
        FileStatus::Cancelled => {
            row.line = Some(copy("Cancelled"));
        },
        FileStatus::Failed(reason) => {
            row.line = Some(concat("Failed: ", reason.as_str()));
        },
    }
    row
}

/// The sender of a message in a group channel.
pub struct Sender {
    pub fingerprint: String,
    pub nickname: String,
}

/// The sender of a message as mathematical data.
#[verifier::ext_equal]
pub struct SenderData {
    pub fingerprint: Seq<char>,
    pub nickname: Seq<char>,
}

impl View for Sender {
    type V = SenderData;

    open spec fn view(&self) -> SenderData {
        SenderData { fingerprint: self.fingerprint@, nickname: self.nickname@ }
    }
}

/// How a message in a group channel is shown.
pub struct ChatRow {
    /// Whether it is one's own.
    pub own: bool,
    /// Whether its sender is named above it.
    pub headed: bool,
    /// The contact whose picture stands beside it.
    pub contact_id: Option<String>,
}

/// How a message in a group channel is shown, as mathematical data.
#[verifier::ext_equal]
pub struct ChatRowData {
    pub own: bool,
    pub headed: bool,
    pub contact_id: Option<Seq<char>>,
}

impl View for ChatRow {
    type V = ChatRowData;

    open spec fn view(&self) -> ChatRowData {
        ChatRowData { own: self.own, headed: self.headed, contact_id: maybe(self.contact_id) }
    }
}

/// The contact of the last member with a fingerprint.
pub open spec fn contact_of_fingerprint(
    members: Seq<MemberData>,
    me: Seq<u8>,
    fingerprint: Seq<char>,
) -> Option<Seq<char>>
    decreases members.len(),
{
    if members.len() == 0 {
        None
    } else if members.last().fingerprint == fingerprint {
        Some(contact_id(me, members.last().pubkey))
    } else {
        contact_of_fingerprint(members.drop_last(), me, fingerprint)
    }
}

fn find_fingerprint(members: &Vec<GroupMember>, me: &[u8; 32], fingerprint: &str) -> (r: Option<
    String,
>)
    ensures
        maybe(r) == contact_of_fingerprint(views(members@), me@, fingerprint@),
{
    let ghost all = views(members@);
    let mut i: usize = members.len();
    assert(all.take(i as int) =~= all);
    while i > 0
        invariant
            i <= members@.len(),
            all == views(members@),
            contact_of_fingerprint(all, me@, fingerprint@) == contact_of_fingerprint(
                all.take(i as int),
                me@,
                fingerprint@,
            ),
        decreases i,
    {
        let m = &members[i - 1];
        assert(all.take(i as int).last() == m@);
        assert(all.take(i as int).drop_last() =~= all.take(i - 1));
        if same(m.fingerprint.as_str(), fingerprint) {
            return Some(derive_contact_id(me, &m.pubkey));
        }
        i = i - 1;
    }
    assert(all.take(0) =~= Seq::<MemberData>::empty());
    None
}

/// How the message at a position of a group channel is shown. One without a fingerprint is
/// one's own. A message of the same nickname as the one before it is not headed.
pub open spec fn chat_row(
    senders: Seq<SenderData>,
    i: int,
    own_fingerprint: Seq<char>,
    members: Seq<MemberData>,
    me: Seq<u8>,
) -> ChatRowData {
    let s = senders[i];
    let own = s.fingerprint.len() == 0 || s.fingerprint == own_fingerprint;
    ChatRowData {
        own,
        headed: !(i > 0 && senders[i - 1].nickname == s.nickname),
        contact_id: if own {
            None
        } else {
            contact_of_fingerprint(members, me, s.fingerprint)
        },
    }
}

/// How the messages of a group channel are shown.
pub fn chat_rows(
    senders: &Vec<Sender>,
    own_fingerprint: &str,
    members: &Vec<GroupMember>,
    me: &[u8; 32],
) -> (r: Vec<ChatRow>)
    ensures
        views(r@) == Seq::new(
            senders@.len(),
            |i: int| chat_row(views(senders@), i, own_fingerprint@, views(members@), me@),
        ),
{
    let ghost ss = views(senders@);
    let ghost want = Seq::new(
        senders@.len(),
        |i: int| chat_row(ss, i, own_fingerprint@, views(members@), me@),
    );
    let mut out: Vec<ChatRow> = Vec::new();
    let mut i: usize = 0;
    assert(views(out@) =~= want.take(0));
    while i < senders.len()
        invariant
            i <= senders@.len(),
            ss == views(senders@),
            want == Seq::new(
                senders@.len(),
                |i: int| chat_row(ss, i, own_fingerprint@, views(members@), me@),
            ),
            views(out@) == want.take(i as int),
        decreases senders@.len() - i,
    {
        let ghost before = out@;
        let s = &senders[i];
        let own = s.fingerprint.as_str().is_empty() || same(
            s.fingerprint.as_str(),
            own_fingerprint,
        );
        let headed = !(i > 0 && same(
            senders[i - 1].nickname.as_str(),
            s.nickname.as_str(),
        ));
        let contact = if own {
            None
        } else {
            find_fingerprint(members, me, s.fingerprint.as_str())
        };
        out.push(ChatRow { own, headed, contact_id: contact });
        proof {
            assert(ss[i as int] == s@);
            assert(out@.last()@ == want[i as int]);
            assert(views(out@) =~= views(before).push(out@.last()@));
            assert(want.take(i + 1) =~= want.take(i as int).push(want[i as int]));
        }
        i = i + 1;
    }
    assert(want.take(i as int) =~= want);
    out
}

/// The contact of the last member with a nickname.
pub open spec fn contact_of_nickname(
    members: Seq<MemberData>,
    me: Seq<u8>,
    nickname: Seq<char>,
) -> Option<Seq<char>>
    decreases members.len(),
{
    if members.len() == 0 {
        None
    } else if members.last().nickname == nickname {
        Some(contact_id(me, members.last().pubkey))
    } else {
        contact_of_nickname(members.drop_last(), me, nickname)
    }
}

fn find_nickname(members: &Vec<GroupMember>, me: &[u8; 32], nickname: &str) -> (r: Option<String>)
    ensures
        maybe(r) == contact_of_nickname(views(members@), me@, nickname@),
{
    let ghost all = views(members@);
    let mut i: usize = members.len();
    assert(all.take(i as int) =~= all);
    while i > 0
        invariant
            i <= members@.len(),
            all == views(members@),
            contact_of_nickname(all, me@, nickname@) == contact_of_nickname(
                all.take(i as int),
                me@,
                nickname@,
            ),
        decreases i,
    {
        let m = &members[i - 1];
        assert(all.take(i as int).last() == m@);
        assert(all.take(i as int).drop_last() =~= all.take(i - 1));
        if same(m.nickname.as_str(), nickname) {
            return Some(derive_contact_id(me, &m.pubkey));
        }
        i = i - 1;
    }
    assert(all.take(0) =~= Seq::<MemberData>::empty());
    None
}

/// How the message at a position of a group call is shown. Here the nickname alone tells who
/// sent it.
pub open spec fn call_row(
    messages: Seq<GroupChatMsgData>,
    i: int,
    own_nickname: Seq<char>,
    members: Seq<MemberData>,
    me: Seq<u8>,
) -> ChatRowData {
    let nickname = messages[i].sender_nickname;
    ChatRowData {
        own: nickname == own_nickname,
        headed: !(i > 0 && messages[i - 1].sender_nickname == nickname),
        contact_id: if nickname == own_nickname {
            None
        } else {
            contact_of_nickname(members, me, nickname)
        },
    }
}

impl HostelApp {
    /// How the messages of the group call are shown.
    pub fn call_rows(&self) -> (r: Vec<ChatRow>)
        ensures
            views(r@) == Seq::new(
                self@.groups.call.messages.len(),
                |i: int|
                    call_row(
                        self@.groups.call.messages,
                        i,
                        self@.settings.nickname,
                        self@.groups.call.members,
                        self@.identity.pubkey,
                    ),
            ),
    {
        let messages = &self.groups.call.messages;
        let ghost ms = self@.groups.call.messages;
        let ghost want = Seq::new(
            ms.len(),
            |i: int|
                call_row(
                    ms,
                    i,
                    self@.settings.nickname,
                    self@.groups.call.members,
                    self@.identity.pubkey,
                ),
        );
        let own = self.settings.nickname.as_str();
        let mut out: Vec<ChatRow> = Vec::new();
        let mut i: usize = 0;
        assert(views(out@) =~= want.take(0));
        while i < messages.len()
            invariant
                i <= messages@.len(),
                own@ == self@.settings.nickname,
                ms == views(messages@),
                want == Seq::new(
                    ms.len(),
                    |i: int|
                        call_row(
                            ms,
                            i,
                            self@.settings.nickname,
                            self@.groups.call.members,
                            self@.identity.pubkey,
                        ),
                ),
                views(out@) == want.take(i as int),
            decreases messages@.len() - i,
        {
            let ghost before = out@;
            let nickname = messages[i].sender_nickname.as_str();
            let mine = same(nickname, own);
            let headed = !(i > 0 && same(messages[i - 1].sender_nickname.as_str(), nickname));
            let contact = if mine {
                None
            } else {
                find_nickname(&self.groups.call.members, &self.identity.pubkey, nickname)
            };
            out.push(ChatRow { own: mine, headed, contact_id: contact });
            proof {
                assert(ms[i as int] == messages@[i as int]@);
                assert(out@.last()@ == want[i as int]);
                assert(views(out@) =~= views(before).push(out@.last()@));
                assert(want.take(i + 1) =~= want.take(i as int).push(want[i as int]));
            }
            i = i + 1;
        }
        assert(want.take(i as int) =~= want);
        out
    }

    /// Sends what was typed in the group call, and keeps it in the history of the group under
    /// one's own name, unless it is blank; either way nothing stays typed.
    pub fn send_group_call_chat(&mut self) -> (r: Vec<Action>)
        ensures
            ({
                let a = old(self)@;
                let text = trimmed(a.groups.call.chat_input);
                &&& asks(
                    r@,
                    if text.len() == 0 {
                        seq![]
                    } else {
                        (if a.groups.call.connected {
                            seq![Effect::SendGroupCallMessage { text }]
                        } else {
                            seq![]
                        }) + kept_in_history(
                            a.groups.call,
                            a.identity.fingerprint,
                            a.settings.nickname,
                            text,
                        )
                    },
                )
                &&& final(self)@ == (AppData {
                    groups: GroupsData {
                        call: GroupCallData {
                            chat_input: seq![],
                            messages: if text.len() == 0 {
                                a.groups.call.messages
                            } else {
                                a.groups.call.messages.push(
                                    GroupChatMsgData {
                                        sender_index: 0,
                                        sender_nickname: a.settings.nickname,
                                        text,
                                    },
                                )
                            },
                            ..a.groups.call
                        },
                        ..a.groups
                    },
                    ..a
                })
            }),
    {
        let text = trim(self.groups.call.chat_input.as_str());
        self.groups.call.chat_input = String::new();
        let mut todo = no_actions();
        if text.as_str().is_empty() {
            return todo;
        }
        if self.groups.call.connected {
            and_then_do(&mut todo, Effect::SendGroupCallMessage { text: copy(text.as_str()) });
        }
        self.groups.call.keep_message(
            &mut todo,
            self.identity.fingerprint.as_str(),
            self.settings.nickname.as_str(),
            text.as_str(),
        );
        let ghost before = self.groups.call.messages@;
        let message = GroupChatMsg {
            sender_index: 0,
            sender_nickname: copy(self.settings.nickname.as_str()),
            text,
        };
        let ghost md = message@;
        self.groups.call.messages.push(message);
        assert(views(self.groups.call.messages@) =~= views(before).push(md));
        todo
    }
}

/// The heading above the members of a group.
pub fn members_heading(count: usize, online: usize) -> (r: String)
    ensures
        r@ == "Members ("@ + decimal(count as nat) + ") — "@ + decimal(online as nat) + " online"@,
{
    let a = concat("Members (", decimal_text(count as u64).as_str());
    let b = concat(a.as_str(), ") — ");
    let c = concat(b.as_str(), decimal_text(online as u64).as_str());
    concat(c.as_str(), " online")
}

/// The warning above the members of a group that is larger than calls are good for.
pub fn members_warning(count: usize) -> (r: Option<String>)
    ensures
        maybe(r) == (if count > 8 {
            Some(">8 — quality may degrade"@)
        } else {
            None
        }),
{
    if count > 8 {
        Some(copy(">8 — quality may degrade"))
    } else {
        None
    }
}

/// A message to a group, ready to be sent.
pub struct GroupSend {
    pub group_id: String,
    pub channel_id: String,
    pub fingerprint: String,
    pub nickname: String,
    pub text: String,
    pub recipients: Vec<Recipient>,
}

impl HostelApp {
    /// Sends what was typed in the shown group: the answer is the message to keep and to
    /// send. Nothing is sent from the fallback channel, which is left alone, nor where only
    /// white space was typed. Outside the fallback channel nothing stays typed, either way.
    pub fn send_group_chat(&mut self) -> (r: Option<GroupSend>)
        ensures
            ({
                let a = old(self)@;
                let typed = a.groups.nav.chat_input;
                let open = a.groups.shown() is Some && a.groups.nav.channel != "fallback"@;
                &&& final(self)@ == (if open {
                    AppData {
                        groups: GroupsData {
                            nav: NavData { chat_input: seq![], ..a.groups.nav },
                            ..a.groups
                        },
                        ..a
                    }
                } else {
                    a
                })
                &&& r is Some <==> open && trimmed(typed).len() > 0
                &&& r matches Some(m) ==> {
                    let g = a.groups.groups[a.groups.shown().unwrap() as int];
                    &&& m.group_id@ == g.group_id
                    &&& m.channel_id@ == a.groups.nav.channel
                    &&& m.fingerprint@ == a.identity.fingerprint
                    &&& m.nickname@ == a.settings.nickname
                    &&& m.text@ == trimmed(typed)
                    &&& views(m.recipients@) == chat_recipients(
                        g.members,
                        a.contacts,
                        a.identity.pubkey,
                    )
                }
            }),
    {
        let r = self.group_message();
        match self.groups.nav.detail {
            Some(i) => {
                if i < self.groups.groups.len() && !same(
                    self.groups.nav.channel.as_str(),
                    "fallback",
                ) {
                    self.groups.nav.chat_input = String::new();
                }
            },
            None => {},
        }
        r
    }

    fn group_message(&self) -> (r: Option<GroupSend>)
        ensures
            r is Some <==> self@.groups.shown() is Some && self@.groups.nav.channel
                != "fallback"@ && trimmed(self@.groups.nav.chat_input).len() > 0,
            r matches Some(m) ==> {
                let g = self@.groups.groups[self@.groups.shown().unwrap() as int];
                &&& m.group_id@ == g.group_id
                &&& m.channel_id@ == self@.groups.nav.channel
                &&& m.fingerprint@ == self@.identity.fingerprint
                &&& m.nickname@ == self@.settings.nickname
                &&& m.text@ == trimmed(self@.groups.nav.chat_input)
                &&& views(m.recipients@) == chat_recipients(
                    g.members,
                    self@.contacts,
                    self@.identity.pubkey,
                )
            },
    {
        match self.groups.nav.detail {
            Some(i) => {
                if i < self.groups.groups.len() {
                    let g = &self.groups.groups[i];
                    return match self.groups.chat_to_send(self.groups.nav.chat_input.as_str()) {
                        Some(text) => Some(
                            GroupSend {
                                group_id: copy(g.group_id.as_str()),
                                channel_id: copy(self.groups.nav.channel.as_str()),
                                fingerprint: copy(self.identity.fingerprint.as_str()),
                                nickname: copy(self.settings.nickname.as_str()),
                                text,
                                recipients: group_chat_recipients(
                                    &g.members,
                                    &self.contacts,
                                    &self.identity.pubkey,
                                ),
                            },
                        ),
                        None => None,
                    };
                }
            },
            None => {},
        }
        None
    }
}

/// The progress shown of a transfer is that of the first entry about it, and there is none
/// where no entry is about it.
pub proof fn progress_of_is(list: Seq<TransferData>, contact_id: Seq<char>, transfer_id: u32, i: int)
    requires
        0 <= i <= list.len(),
        forall|k: int|
            0 <= k < i ==> !((#[trigger] list[k]).contact_id == contact_id && list[k].transfer_id
                == transfer_id),
        i < list.len() ==> list[i].contact_id == contact_id && list[i].transfer_id == transfer_id,
    ensures
        i == list.len() ==> progress_of(list, contact_id, transfer_id) is None,
        i < list.len() ==> progress_of(list, contact_id, transfer_id) == Some(
            (list[i].done, list[i].total),
        ),
    decreases list.len(),
{
    if i > 0 {
        let t = list.drop_first();
        assert(!(list[0].contact_id == contact_id && list[0].transfer_id == transfer_id));
        assert forall|k: int| 0 <= k < i - 1 implies !((#[trigger] t[k]).contact_id == contact_id
            && t[k].transfer_id == transfer_id) by {
            assert(t[k] == list[k + 1]);
        }
        progress_of_is(t, contact_id, transfer_id, i - 1);
    }
}

proof fn first_about(list: Seq<TransferData>, contact_id: Seq<char>, transfer_id: u32) -> (i: int)
    ensures
        0 <= i <= list.len(),
        forall|k: int|
            0 <= k < i ==> !((#[trigger] list[k]).contact_id == contact_id && list[k].transfer_id
                == transfer_id),
        i < list.len() ==> list[i].contact_id == contact_id && list[i].transfer_id == transfer_id,
    decreases list.len(),
{
    if list.len() == 0 || (list[0].contact_id == contact_id && list[0].transfer_id == transfer_id) {
        0
    } else {
        let t = list.drop_first();
        let i = first_about(t, contact_id, transfer_id) + 1;
        assert forall|k: int| 0 <= k < i implies !((#[trigger] list[k]).contact_id == contact_id
            && list[k].transfer_id == transfer_id) by {
            if k > 0 {
                assert(t[k - 1] == list[k]);
            }
        }
        i
    }
}

/// Progress that is reported of a transfer is what is shown of it, and leaves every other
/// transfer as it was.
pub proof fn progress_is_of_one_transfer(
    list: Seq<TransferData>,
    t: TransferData,
    contact_id: Seq<char>,
    transfer_id: u32,
)
    ensures
        progress_of(with_progress(list, t), t.contact_id, t.transfer_id) == Some((t.done, t.total)),
        contact_id != t.contact_id || transfer_id != t.transfer_id ==> progress_of(
            with_progress(list, t),
            contact_id,
            transfer_id,
        ) == progress_of(list, contact_id, transfer_id),
{
    let after = with_progress(list, t);
    let i = first_about(list, t.contact_id, t.transfer_id);
    if i < list.len() {
        assert(about(list[i], t.contact_id, t.transfer_id));
        assert forall|k: int| 0 <= k < i implies !((#[trigger] after[k]).contact_id == t.contact_id
            && after[k].transfer_id == t.transfer_id) by {
            assert(!(list[k].contact_id == t.contact_id && list[k].transfer_id == t.transfer_id));
        }
    } else {
        assert forall|k: int| 0 <= k < i implies !((#[trigger] after[k]).contact_id == t.contact_id
            && after[k].transfer_id == t.transfer_id) by {
            assert(!(list[k].contact_id == t.contact_id && list[k].transfer_id == t.transfer_id));
        }
    }
    progress_of_is(after, t.contact_id, t.transfer_id, i);
    if contact_id != t.contact_id || transfer_id != t.transfer_id {
        let j = first_about(list, contact_id, transfer_id);
        progress_of_is(list, contact_id, transfer_id, j);
        assert forall|k: int| 0 <= k < j implies !((#[trigger] after[k]).contact_id == contact_id
            && after[k].transfer_id == transfer_id) by {
            assert(!(list[k].contact_id == contact_id && list[k].transfer_id == transfer_id));
        }
        if j < list.len() {
            progress_of_is(after, contact_id, transfer_id, j);
        } else {
            progress_of_is(after, contact_id, transfer_id, after.len() as int);
        }
    }
}

/// A transfer that ended is no longer followed, and every other is as it was.
pub proof fn ended_transfers_are_forgotten(
    list: Seq<TransferData>,
    ended_contact: Seq<char>,
    ended: u32,
    contact_id: Seq<char>,
    transfer_id: u32,
)
    ensures
        progress_of(without_transfer(list, ended_contact, ended), ended_contact, ended) is None,
        contact_id != ended_contact || transfer_id != ended ==> progress_of(
            without_transfer(list, ended_contact, ended),
            contact_id,
            transfer_id,
        ) == progress_of(list, contact_id, transfer_id),
    decreases list.len(),
{
    reveal(Seq::filter);
    if list.len() > 0 {
        let head = list.drop_last();
        let last = list.last();
        ended_transfers_are_forgotten(head, ended_contact, ended, contact_id, transfer_id);
        let kept = without_transfer(head, ended_contact, ended);
        assert(list =~= head.push(last));
        progress_with_one_more(head, last, contact_id, transfer_id);
        if !about(last, ended_contact, ended) {
            progress_with_one_more(kept, last, contact_id, transfer_id);
            progress_with_one_more(kept, last, ended_contact, ended);
        }
    }
}

proof fn progress_with_one_more(
    list: Seq<TransferData>,
    t: TransferData,
    contact_id: Seq<char>,
    transfer_id: u32,
)
    ensures
        progress_of(list.push(t), contact_id, transfer_id) == (if progress_of(
            list,
            contact_id,
            transfer_id,
        ) is Some {
            progress_of(list, contact_id, transfer_id)
        } else if t.contact_id == contact_id && t.transfer_id == transfer_id {
            Some((t.done, t.total))
        } else {
            None
        }),
{
    let more = list.push(t);
    let i = first_about(list, contact_id, transfer_id);
    progress_of_is(list, contact_id, transfer_id, i);
    assert forall|k: int| 0 <= k < i implies !((#[trigger] more[k]).contact_id == contact_id
        && more[k].transfer_id == transfer_id) by {
        assert(!(list[k].contact_id == contact_id && list[k].transfer_id == transfer_id));
    }
    if i < list.len() || (t.contact_id == contact_id && t.transfer_id == transfer_id) {
        progress_of_is(more, contact_id, transfer_id, i);
    } else {
        progress_of_is(more, contact_id, transfer_id, more.len() as int);
    }
}

/// The first report of a transfer is the one before which no progress of it is shown.
pub proof fn first_report_is_known(list: Seq<TransferData>, contact_id: Seq<char>, transfer_id: u32)
    ensures
        followed(list, contact_id, transfer_id) <==> progress_of(
            list,
            contact_id,
            transfer_id,
        ) is Some,
{
    let i = first_about(list, contact_id, transfer_id);
    progress_of_is(list, contact_id, transfer_id, i);
    if i < list.len() {
        assert(about(list[i], contact_id, transfer_id));
    }
}

/// The line below a file says how its transfer stands: an offer waits only for the one who
/// made it, a transfer shows its progress instead once there is any, and a failure tells why.
pub proof fn file_lines_tell_how_it_stands(
    from_me: bool,
    progress: Option<(u64, u64)>,
    reason: Seq<char>,
)
    ensures
        file_line(from_me, FileStatus::Offered, progress) is Some <==> from_me,
        from_me ==> file_line(from_me, FileStatus::Offered, progress) == Some(
            "Waiting for response..."@,
        ),
        file_line(from_me, FileStatus::Accepted, progress) is Some <==> progress is None,
        progress is None ==> file_line(from_me, FileStatus::Accepted, progress) == Some(
            "Transferring..."@,
        ),
        file_line(from_me, FileStatus::Completed, progress) == Some("Completed"@),
        file_line(from_me, FileStatus::Rejected, progress) == Some("Rejected"@),
        file_line(from_me, FileStatus::Cancelled, progress) == Some("Cancelled"@),
        file_line(from_me, FileStatus::Failed(reason), progress) == Some("Failed: "@ + reason),
{
}

/// The contact for a fingerprint is the one shared with the last member who has it, and there
/// is none where no member has it.
pub proof fn contact_of_fingerprint_is(
    members: Seq<MemberData>,
    me: Seq<u8>,
    fingerprint: Seq<char>,
    i: int,
)
    requires
        -1 <= i < members.len(),
        i >= 0 ==> members[i].fingerprint == fingerprint,
        forall|k: int| i < k < members.len() ==> (#[trigger] members[k]).fingerprint != fingerprint,
    ensures
        i < 0 ==> contact_of_fingerprint(members, me, fingerprint) is None,
        i >= 0 ==> contact_of_fingerprint(members, me, fingerprint) == Some(
            contact_id(me, members[i].pubkey),
        ),
    decreases members.len(),
{
    if members.len() > 0 && i < members.len() - 1 {
        let head = members.drop_last();
        assert(members[members.len() - 1].fingerprint != fingerprint);
        assert forall|k: int| i < k < head.len() implies (#[trigger] head[k]).fingerprint
            != fingerprint by {
            assert(head[k] == members[k]);
        }
        contact_of_fingerprint_is(head, me, fingerprint, i);
    }
}

/// The contact for a nickname is the one shared with the last member who has it, and there is
/// none where no member has it.
pub proof fn contact_of_nickname_is(
    members: Seq<MemberData>,
    me: Seq<u8>,
    nickname: Seq<char>,
    i: int,
)
    requires
        -1 <= i < members.len(),
        i >= 0 ==> members[i].nickname == nickname,
        forall|k: int| i < k < members.len() ==> (#[trigger] members[k]).nickname != nickname,
    ensures
        i < 0 ==> contact_of_nickname(members, me, nickname) is None,
        i >= 0 ==> contact_of_nickname(members, me, nickname) == Some(
            contact_id(me, members[i].pubkey),
        ),
    decreases members.len(),
{
    if members.len() > 0 && i < members.len() - 1 {
        let head = members.drop_last();
        assert(members[members.len() - 1].nickname != nickname);
        assert forall|k: int| i < k < head.len() implies (#[trigger] head[k]).nickname
            != nickname by {
            assert(head[k] == members[k]);
        }
        contact_of_nickname_is(head, me, nickname, i);
    }
}

/// A message of a channel is one's own exactly if it has no fingerprint or one's own, and only
/// those of others lead to a contact. It is headed exactly if it is the first, or the nickname
/// differs from that of the one before it.
pub proof fn own_messages_are_told_apart(
    senders: Seq<SenderData>,
    i: int,
    own_fingerprint: Seq<char>,
    members: Seq<MemberData>,
    me: Seq<u8>,
)
    requires
        0 <= i < senders.len(),
    ensures
        ({
            let row = chat_row(senders, i, own_fingerprint, members, me);
            let s = senders[i];
            &&& s.fingerprint.len() == 0 ==> row.own
            &&& s.fingerprint == own_fingerprint ==> row.own
            &&& row.own ==> s.fingerprint.len() == 0 || s.fingerprint == own_fingerprint
            &&& row.own ==> row.contact_id is None
            &&& !row.own ==> row.contact_id == contact_of_fingerprint(members, me, s.fingerprint)
            &&& i == 0 ==> row.headed
            &&& i > 0 ==> (row.headed <==> senders[i - 1].nickname != s.nickname)
        }),
{
}

/// A message of a call is one's own exactly if it has one's own nickname, and only those of
/// others lead to a contact. It is headed exactly if it is the first, or the nickname differs
/// from that of the one before it.
pub proof fn own_call_messages_are_told_apart(
    messages: Seq<GroupChatMsgData>,
    i: int,
    own_nickname: Seq<char>,
    members: Seq<MemberData>,
    me: Seq<u8>,
)
    requires
        0 <= i < messages.len(),
    ensures
        ({
            let row = call_row(messages, i, own_nickname, members, me);
            let nickname = messages[i].sender_nickname;
            &&& row.own <==> nickname == own_nickname
            &&& row.own ==> row.contact_id is None
            &&& !row.own ==> row.contact_id == contact_of_nickname(members, me, nickname)
            &&& i == 0 ==> row.headed
            &&& i > 0 ==> (row.headed <==> messages[i - 1].sender_nickname != nickname)
        }),
{
}

} // verus!
