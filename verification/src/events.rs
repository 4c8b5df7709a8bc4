//! What comes in between two frames: reports of the call engines, and events of the
//! messaging service.

use vstd::prelude::*;

use crate::app::{with_address, AppData, HostelApp};
use crate::call::{
    and_then_do, asks, fills_screen, no_actions, sound_allowed, windowed, CallInfo, Calls,
    CallsData, IncomingCall, RingData, Screen, SidebarTab,
};
use crate::chat::{
    ended_transfers_are_forgotten, first_report_is_known, progress_is_of_one_transfer, progress_of,
};
use crate::effects::{Action, ActionData, Effect, FileStatus, PresenceStatus};
use crate::group::{Group, GroupMember};
use crate::groups::{
    chat_received, invite_declined, invite_received, key_can_change, member_synced, only_member,
    update_received,
    GroupCallData, GroupCallInfo, GroupInvite, GroupView, Groups, GroupsData, NavData,
};
use crate::messages::{
    followed, viewing, with_progress, with_request, without_transfer, MessagesData, Request,
    RequestsData, TransferData,
};
use crate::network::peer_display;
use crate::table::value_or;
use crate::text::views;

verus! {

/// What the engine of a call, and the user, did since the last frame.
pub struct CallReport {
    pub result: Option<Result<CallInfo, String>>,
    pub running: bool,
    pub escape: bool,
    pub idle_secs: u64,
}

/// A call after the engine reported how dialling went.
pub open spec fn answered(c: CallsData, result: Option<Result<CallInfo, String>>) -> CallsData {
    if c.screen is Connecting {
        match result {
            Some(Ok(info)) => c.established(info@),
            Some(Err(reason)) => c.failed(reason@),
            None => c,
        }
    } else {
        c
    }
}

/// Whether the peer ended the call.
pub open spec fn ended_by_peer(c: CallsData, running: bool) -> bool {
    !running && (c.screen is KeyWarning || c.screen is InCall)
}

/// A call after the escape key: a window that fills the screen no longer does.
pub open spec fn escaped(c: CallsData, escape: bool) -> CallsData {
    if escape && c.screen is InCall && fills_screen(c.media) {
        CallsData { media: windowed(c.media), ..c }
    } else {
        c
    }
}

/// Whether the user counts as there.
pub open spec fn presence_after(idle_secs: u64) -> PresenceStatus {
    if idle_secs > 900 {
        PresenceStatus::Away
    } else {
        PresenceStatus::Online
    }
}

/// What the escape key asks for.
pub open spec fn escape_asks(c: CallsData, escape: bool) -> Seq<ActionData> {
    if escape && c.screen is InCall && fills_screen(c.media) {
        seq![Effect::LeaveFullscreen]
    } else {
        seq![]
    }
}

/// A call after the peers were told whether the user is there.
pub open spec fn told(c: CallsData, idle_secs: u64) -> CallsData {
    if c.screen is InCall {
        CallsData { last_presence_sent: presence_after(idle_secs), ..c }
    } else {
        c
    }
}

/// What the peers are told of whether the user is there: only what is new.
pub open spec fn tell_asks(c: CallsData, idle_secs: u64) -> Seq<ActionData> {
    if c.screen is InCall && presence_after(idle_secs) != c.last_presence_sent {
        seq![Effect::UpdatePresence(presence_after(idle_secs))]
    } else {
        seq![]
    }
}

/// What is done when the peer ended the call.
pub open spec fn end_asks(c: CallsData) -> Seq<ActionData> {
    if c.screen is InCall {
        seq![Effect::ReloadContacts, Effect::ReclaimSocket, Effect::LeaveFullscreen]
    } else {
        seq![Effect::ReloadContacts, Effect::ReclaimSocket]
    }
}

impl Calls {
    fn take_answer(&mut self, result: Option<Result<CallInfo, String>>)
        ensures
            final(self)@ == answered(old(self)@, result),
    {
        match result {
            Some(result) => {
                self.on_connect_result(result);
            },
            None => {},
        }
    }

    fn take_keys(&mut self, escape: bool) -> (r: Vec<Action>)
        ensures
            final(self)@ == escaped(old(self)@, escape),
            asks(r@, escape_asks(old(self)@, escape)),
    {
        if escape {
            self.on_escape()
        } else {
            no_actions()
        }
    }

    fn take_idle(&mut self, idle_secs: u64, todo: &mut Vec<Action>)
        ensures
            final(self)@ == told(old(self)@, idle_secs),
            asks(final(todo)@, views(old(todo)@) + tell_asks(old(self)@, idle_secs)),
    {
        match self.on_idle(idle_secs) {
            Some(status) => {
                and_then_do(todo, Effect::UpdatePresence(status));
            },
            None => {},
        }
    }

    /// Takes in what happened to the call since the last frame. The answer holds what is to
    /// be done, and whether the peer ended the call, so that nothing is drawn in this frame.
    pub fn poll(&mut self, report: CallReport) -> (r: (Vec<Action>, bool))
        ensures
            ({
                let c = answered(old(self)@, report.result);
                let e = escaped(c, report.escape);
                &&& r.1 == ended_by_peer(c, report.running)
                &&& r.1 ==> final(self)@ == c.hung_up() && asks(r.0@, end_asks(c))
                &&& !r.1 ==> final(self)@ == told(e, report.idle_secs) && asks(
                    r.0@,
                    escape_asks(c, report.escape) + tell_asks(e, report.idle_secs),
                )
            }),
    {
        self.take_answer(report.result);
        let over = match self.screen {
            Screen::KeyWarning => !report.running,
            Screen::InCall => !report.running,
            _ => false,
        };
        if over {
            let todo = self.on_engine_state(report.running);
            return (todo, true);
        }
        let mut todo = self.take_keys(report.escape);
        self.take_idle(report.idle_secs, &mut todo);
        (todo, false)
    }
}

/// What the engine of a group call did since the last frame.
pub struct GroupReport {
    pub result: Option<Result<GroupCallInfo, String>>,
    pub running: bool,
}

/// What is done when a group call ends.
pub open spec fn stopping() -> Seq<ActionData> {
    seq![Effect::StopGroupCall, Effect::CloseGroupHistory, Effect::ReclaimSocket]
}

/// The groups after the engine reported that a call stands.
pub open spec fn joined(g: GroupsData, info: GroupCallInfo, me: Seq<u8>) -> GroupsData {
    GroupsData {
        call: GroupCallData {
            group: Some(info.group@),
            role: Some(info.role),
            connected: true,
            members: only_member(info.group@.members, me),
            ..g.call
        },
        nav: NavData { view: GroupView::InCall, ..g.nav },
        ..g
    }
}

impl Groups {
    /// Takes in what happened to the group call since the last frame. The answer holds what
    /// is to be done, and whether the call ended, so that nothing is drawn in this frame.
    pub fn poll(&mut self, report: GroupReport, me: &[u8; 32]) -> (r: (Vec<Action>, bool))
        ensures
            ({
                let g = old(self)@;
                let waiting = g.call.channel is Some && !g.call.connected;
                match report.result {
                    Some(Ok(info)) if waiting => if report.running {
                        final(self)@ == joined(g, info, me@) && r.0@.len() == 0 && !r.1
                    } else {
                        &&& final(self)@ == joined(g, info, me@).call_ended()
                        &&& asks(r.0@, stopping())
                        &&& r.1
                    },
                    Some(Err(_)) if waiting => {
                        final(self)@ == g.call_ended() && asks(r.0@, stopping()) && !r.1
                    },
                    _ => if g.call.channel is Some && g.call.connected && !report.running {
                        final(self)@ == g.call_ended() && asks(r.0@, stopping()) && r.1
                    } else {
                        final(self)@ == g && r.0@.len() == 0 && !r.1
                    },
                }
            }),
    {
        let mut todo = no_actions();
        match report.result {
            Some(result) => {
                todo = self.on_group_connect_result(result, me);
            },
            None => {},
        }
        if self.call.channel.is_some() && self.call.connected && !report.running {
            let ended = self.on_group_engine_state(report.running);
            return (ended, true);
        }
        (todo, false)
    }
}

/// An event of the messaging service.
pub enum Event {
    Message { contact_id: String, text: String },
    Delivered,
    PeerStatus { contact_id: String, online: bool },
    Presence { contact_id: String, status: PresenceStatus },
    Request(Request),
    RequestAccepted { contact_id: String },
    RequestFailed { peer: String, reason: String },
    PeerAddress { contact_id: String, ip: String, port: String },
    FileOffer { contact_id: String, transfer_id: u32, filename: String, file_size: u64 },
    FileProgress { contact_id: String, transfer_id: u32, done: u64, total: u64 },
    FileComplete { contact_id: String, transfer_id: u32, saved_path: String },
    FileFailed { contact_id: String, transfer_id: u32, reason: String },
    Avatar { contact_id: String },
    Call(IncomingCall),
    Invite(GroupInvite),
    /// The group gets `new_key`, which is drawn for it.
    InviteDeclined { contact_id: String, group_id: String, new_key: [u8; 32] },
    GroupUpdated { group: Group, now: u64 },
    MemberSynced { group_id: String, member: GroupMember },
    GroupAvatar { group_id: String },
    GroupChat {
        group_id: String,
        channel_id: String,
        fingerprint: String,
        nickname: String,
        text: String,
    },
}

/// Whether an event can be counted: the number of unread messages of its sender still grows,
/// or that of the key of its group.
pub open spec fn countable(a: AppData, event: Event) -> bool {
    match event {
        Event::Message { contact_id, .. } => value_or(a.messages.unread, contact_id@, 0)
            < u32::MAX,
        Event::FileOffer { contact_id, .. } => value_or(a.messages.unread, contact_id@, 0)
            < u32::MAX,
        Event::InviteDeclined { group_id, .. } => key_can_change(a.groups, group_id@),
        _ => true,
    }
}

/// What an event about messages, requests and files makes of them, and asks for.
pub open spec fn message_event(
    m: MessagesData,
    tab: SidebarTab,
    audible: bool,
    event: Event,
    after: MessagesData,
    todo: Seq<ActionData>,
) -> bool {
    match event {
        Event::Message { contact_id, text } => {
            &&& after == m.counted(tab, contact_id@)
            &&& todo =~= seq![
                Effect::AppendMessage {
                    contact_id: contact_id@,
                    from_me: false,
                    text: text@,
                    load: true,
                },
            ] + (if audible && !viewing(m, tab, contact_id@) {
                seq![Effect::PlaySound]
            } else {
                seq![]
            })
        },
        Event::PeerStatus { contact_id, online } => after == m.peer_is(contact_id@, online)
            && todo.len() == 0,
        Event::Presence { contact_id, status } => {
            &&& after == (MessagesData {
                presence: m.presence.insert(contact_id@, status),
                ..m
            })
            &&& todo.len() == 0
        },
        Event::Request(request) => {
            &&& after == (MessagesData {
                requests: RequestsData {
                    incoming: with_request(m.requests.incoming, request@),
                    ..m.requests
                },
                ..m
            })
            &&& todo.len() == 0
        },
        Event::RequestAccepted { contact_id } => {
            &&& after == (MessagesData {
                pending_open: Some(contact_id@),
                requests: RequestsData {
                    status: "Request accepted! Contact saved."@,
                    ..m.requests
                },
                ..m
            })
            &&& todo =~= seq![Effect::ReloadContacts]
        },
        Event::RequestFailed { peer, reason } => {
            &&& after == (MessagesData {
                requests: RequestsData {
                    status: "Failed ("@ + peer@ + "): "@ + reason@,
                    ..m.requests
                },
                ..m
            })
            &&& todo.len() == 0
        },
        Event::FileOffer { contact_id, transfer_id, filename, file_size } => {
            &&& after == m.counted(tab, contact_id@)
            &&& todo =~= seq![
                Effect::AppendFile {
                    contact_id: contact_id@,
                    from_me: false,
                    transfer_id,
                    filename: filename@,
                    file_size,
                    load: true,
                },
            ]
        },
        Event::FileProgress { contact_id, transfer_id, done, total } => {
            &&& after == (MessagesData {
                progress: with_progress(
                    m.progress,
                    TransferData { contact_id: contact_id@, transfer_id, done, total },
                ),
                ..m
            })
            &&& todo =~= (if followed(m.progress, contact_id@, transfer_id) {
                seq![]
            } else {
                seq![
                    Effect::SetFileStatus {
                        contact_id: contact_id@,
                        transfer_id,
                        status: FileStatus::Accepted,
                        saved_path: None,
                        load: false,
                    },
                ]
            })
        },
        Event::FileComplete { contact_id, transfer_id, saved_path } => {
            &&& after == (MessagesData {
                progress: without_transfer(m.progress, contact_id@, transfer_id),
                ..m
            })
            &&& todo =~= seq![
                Effect::SetFileStatus {
                    contact_id: contact_id@,
                    transfer_id,
                    status: FileStatus::Completed,
                    saved_path: if saved_path@.len() == 0 {
                        None
                    } else {
                        Some(saved_path@)
                    },
                    load: true,
                },
            ]
        },
        Event::FileFailed { contact_id, transfer_id, reason } => {
            &&& after == (MessagesData {
                progress: without_transfer(m.progress, contact_id@, transfer_id),
                ..m
            })
            &&& todo =~= seq![
                Effect::SetFileStatus {
                    contact_id: contact_id@,
                    transfer_id,
                    status: FileStatus::Failed(reason@),
                    saved_path: None,
                    load: true,
                },
            ]
        },
        Event::Avatar { contact_id } => {
            &&& after == m
            &&& todo =~= seq![Effect::ForgetContactAvatar { contact_id: contact_id@ }]
        },
        _ => after == m && todo.len() == 0,
    }
}

/// Whether an event is about groups.
pub open spec fn about_groups(event: Event) -> bool {
    match event {
        Event::Invite(_) => true,
        Event::InviteDeclined { .. } => true,
        Event::GroupUpdated { .. } => true,
        Event::MemberSynced { .. } => true,
        Event::GroupAvatar { .. } => true,
        Event::GroupChat { .. } => true,
        _ => false,
    }
}

/// What an event about groups makes of them, and asks for.
pub open spec fn group_event(
    a: AppData,
    event: Event,
    after: GroupsData,
    todo: Seq<ActionData>,
) -> bool {
    match event {
        Event::Invite(invite) => invite_received(a.groups, invite@, after, todo),
        Event::InviteDeclined { contact_id, group_id, new_key } => invite_declined(
            a.groups,
            a.contacts,
            contact_id@,
            group_id@,
            new_key@,
            after,
            todo,
        ),
        Event::GroupUpdated { group, now } => update_received(
            a.groups,
            group@,
            a.identity.pubkey,
            now,
            after,
            todo,
        ),
        Event::MemberSynced { group_id, member } => member_synced(
            a.groups,
            group_id@,
            member@,
            after,
            todo,
        ),
        Event::GroupAvatar { group_id } => {
            &&& after == a.groups
            &&& todo =~= seq![Effect::ForgetGroupAvatar { group_id: group_id@ }]
        },
        Event::GroupChat { group_id, channel_id, fingerprint, nickname, text } => chat_received(
            a.groups,
            group_id@,
            channel_id@,
            fingerprint@,
            nickname@,
            text@,
            after,
            todo,
        ),
        _ => after == a.groups && todo.len() == 0,
    }
}

/// What a call that comes in makes of the calls, and asks for: it rings unless a call takes
/// over the window.
pub open spec fn call_event(
    c: CallsData,
    call: IncomingCall,
    after: CallsData,
    todo: Seq<ActionData>,
) -> bool {
    if c.screen is Setup {
        &&& after == (CallsData {
            ring: RingData { incoming: Some(call@), attention: true, ringing: true },
            ..c
        })
        &&& todo =~= seq![
            Effect::Notify {
                title: "hostelD — Incoming Call"@,
                body: peer_display(call@.nickname, call@.fingerprint),
            },
        ] + (if c.ring.ringing {
            seq![]
        } else {
            seq![Effect::StartRingtone]
        })
    } else {
        after == c && todo.len() == 0
    }
}

impl HostelApp {
    /// Takes in an event of the messaging service. `quiet` says that the last sound is long
    /// enough ago. The answer is what is to be done.
    pub fn on_event(&mut self, event: Event, quiet: bool) -> (r: Vec<Action>)
        requires
            countable(old(self)@, event),
        ensures
            match event {
                Event::Call(call) => {
                    &&& final(self)@ == (AppData { calls: final(self)@.calls, ..old(self)@ })
                    &&& call_event(old(self)@.calls, call, final(self)@.calls, views(r@))
                },
                Event::PeerAddress { contact_id, ip, port } => {
                    &&& final(self)@ == (AppData {
                        contacts: with_address(
                            old(self)@.contacts,
                            contact_id@,
                            ip@,
                            port@,
                        ),
                        ..old(self)@
                    })
                    &&& r@.len() == 0
                },
                _ => if about_groups(event) {
                    &&& final(self)@ == (AppData { groups: final(self)@.groups, ..old(self)@ })
                    &&& group_event(old(self)@, event, final(self)@.groups, views(r@))
                } else {
                    &&& final(self)@ == (AppData { messages: final(self)@.messages, ..old(self)@ })
                    &&& message_event(
                        old(self)@.messages,
                        old(self)@.calls.tab,
                        sound_allowed(old(self)@.calls) && quiet,
                        event,
                        final(self)@.messages,
                        views(r@),
                    )
                },
            },
    {
        match event {
            Event::Message { contact_id, text } => self.on_message(contact_id.as_str(), text, quiet),
            Event::Delivered => no_actions(),
            Event::PeerStatus { contact_id, online } => {
                self.messages.on_peer_status(contact_id.as_str(), online);
                no_actions()
            },
            Event::Presence { contact_id, status } => {
                self.messages.on_presence(contact_id.as_str(), status);
                no_actions()
            },
            Event::Request(request) => {
                self.messages.requests.on_request(request);
                no_actions()
            },
            Event::RequestAccepted { contact_id } => self.messages.on_request_accepted(
                contact_id.as_str(),
            ),
            Event::RequestFailed { peer, reason } => {
                self.messages.requests.on_failed(peer.as_str(), reason.as_str());
                no_actions()
            },
            Event::PeerAddress { contact_id, ip, port } => {
                self.on_address_update(contact_id.as_str(), ip.as_str(), port.as_str());
                no_actions()
            },
            Event::FileOffer { contact_id, transfer_id, filename, file_size } => {
                self.messages.on_file_offer(
                    self.calls.tab,
                    contact_id.as_str(),
                    transfer_id,
                    filename,
                    file_size,
                )
            },
            Event::FileProgress { contact_id, transfer_id, done, total } => {
                self.messages.on_file_progress(contact_id.as_str(), transfer_id, done, total)
            },
            Event::FileComplete { contact_id, transfer_id, saved_path } => {
                self.messages.on_file_complete(contact_id.as_str(), transfer_id, saved_path)
            },
            Event::FileFailed { contact_id, transfer_id, reason } => {
                self.messages.on_file_failed(contact_id.as_str(), transfer_id, reason)
            },
            Event::Avatar { contact_id } => {
                let mut todo = no_actions();
                and_then_do(&mut todo, Effect::ForgetContactAvatar { contact_id });
                todo
            },
            Event::Call(call) => self.calls.on_incoming_call(call),
            Event::Invite(invite) => self.groups.on_invite(invite),
            Event::InviteDeclined { contact_id, group_id, new_key } => {
                self.groups.on_invite_declined(
                    contact_id.as_str(),
                    group_id.as_str(),
                    &self.contacts,
                    new_key,
                )
            },
            Event::GroupUpdated { group, now } => self.groups.on_group_updated(
                &group,
                &self.identity.pubkey,
                now,
            ),
            Event::MemberSynced { group_id, member } => self.groups.on_member_synced(
                group_id.as_str(),
                member,
            ),
            Event::GroupAvatar { group_id } => {
                let mut todo = no_actions();
                and_then_do(&mut todo, Effect::ForgetGroupAvatar { group_id });
                todo
            },
            Event::GroupChat { group_id, channel_id, fingerprint, nickname, text } => {
                self.groups.on_group_chat(
                    group_id.as_str(),
                    channel_id.as_str(),
                    fingerprint.as_str(),
                    nickname.as_str(),
                    text.as_str(),
                )
            },
        }
    }
}

/// The report on dialling counts only while the call is being set up: then the call stands
/// with the peer reported, or failed for the reason reported.
pub proof fn reports_count_while_connecting(c: CallsData, info: CallInfo, reason: String)
    ensures
        !(c.screen is Connecting) ==> {
            &&& answered(c, Some(Ok(info))) == c
            &&& answered(c, Some(Err(reason))) == c
        },
        answered(c, None) == c,
        c.screen is Connecting ==> {
            &&& answered(c, Some(Ok(info))) == c.established(info@)
            &&& answered(c, Some(Err(reason))) == c.failed(reason@)
        },
{
}

/// The peer ended a call exactly if it stood, or its key was being asked about, and it no
/// longer runs.
pub proof fn standing_calls_can_be_ended(c: CallsData, running: bool)
    ensures
        running ==> !ended_by_peer(c, running),
        c.screen is Setup || c.screen is Connecting || c.screen is Error ==> !ended_by_peer(
            c,
            running,
        ),
        !running && (c.screen is InCall || c.screen is KeyWarning) ==> ended_by_peer(c, running),
{
}

/// The escape key puts back a window that fills the screen during a call, and asks for that.
/// It does nothing else, and nothing at any other time.
pub proof fn escape_puts_the_window_back(c: CallsData, escape: bool)
    ensures
        ({
            let acts = escape && c.screen is InCall && (c.media.video_fullscreen
                || c.media.is_fullscreen);
            let after = escaped(c, escape);
            &&& !acts ==> after == c && escape_asks(c, escape).len() == 0
            &&& acts ==> {
                &&& !after.media.video_fullscreen
                &&& !after.media.is_fullscreen
                &&& after.media == windowed(c.media)
                &&& escape_asks(c, escape).len() == 1
                &&& escape_asks(c, escape)[0] is LeaveFullscreen
            }
            &&& after.screen == c.screen
            &&& after.tab == c.tab
            &&& after.setup == c.setup
            &&& after.running == c.running
            &&& after.mic_active == c.mic_active
            &&& after.connected == c.connected
            &&& after.peer == c.peer
            &&& after.chat_input == c.chat_input
            &&& after.show_hangup_confirm == c.show_hangup_confirm
            &&& after.viewing_contact == c.viewing_contact
            &&& after.last_presence_sent == c.last_presence_sent
            &&& after.ring == c.ring
        }),
{
}

/// The peers are told whether the user is there when that changed during a call, and only
/// then; a user who did nothing for more than fifteen minutes is away. What they were told is
/// remembered, so that they are not told again.
pub proof fn presence_is_told_once(c: CallsData, idle_secs: u64)
    ensures
        presence_after(idle_secs) is Away <==> idle_secs > 15 * 60,
        presence_after(idle_secs) is Online <==> idle_secs <= 15 * 60,
        !(c.screen is InCall) ==> told(c, idle_secs) == c && tell_asks(c, idle_secs).len() == 0,
        c.screen is InCall ==> {
            let after = told(c, idle_secs);
            &&& after.last_presence_sent == presence_after(idle_secs)
            &&& c.last_presence_sent == presence_after(idle_secs) ==> tell_asks(
                c,
                idle_secs,
            ).len() == 0
            &&& c.last_presence_sent != presence_after(idle_secs) ==> {
                &&& tell_asks(c, idle_secs).len() == 1
                &&& tell_asks(c, idle_secs)[0] == (Effect::<Seq<char>, Seq<u8>>::UpdatePresence(
                    presence_after(idle_secs),
                ))
            }
            &&& tell_asks(after, idle_secs).len() == 0
            &&& after.screen == c.screen
            &&& after.tab == c.tab
            &&& after.setup == c.setup
            &&& after.running == c.running
            &&& after.mic_active == c.mic_active
            &&& after.connected == c.connected
            &&& after.peer == c.peer
            &&& after.chat_input == c.chat_input
            &&& after.media == c.media
            &&& after.show_hangup_confirm == c.show_hangup_confirm
            &&& after.viewing_contact == c.viewing_contact
            &&& after.ring == c.ring
        },
{
}

/// When the peer ended the call the contacts are read again and the socket taken back, and a
/// window that may fill the screen is put back.
pub proof fn ended_calls_are_tidied_up(c: CallsData)
    ensures
        end_asks(c).len() >= 2,
        end_asks(c)[0] is ReloadContacts,
        end_asks(c)[1] is ReclaimSocket,
        end_asks(c).len() == 3 <==> c.screen is InCall,
        end_asks(c).len() <= 3,
        c.screen is InCall ==> end_asks(c)[2] is LeaveFullscreen,
{
}

/// When a group call ends it is stopped, its history closed, and the socket taken back, in
/// this order.
pub proof fn ended_group_calls_are_tidied_up()
    ensures
        stopping().len() == 3,
        stopping()[0] is StopGroupCall,
        stopping()[1] is CloseGroupHistory,
        stopping()[2] is ReclaimSocket,
{
}

/// A group call that stands is with the group and in the role reported, and shows oneself as
/// the only member at first. Nothing else changes.
pub proof fn joining_shows_oneself(g: GroupsData, info: GroupCallInfo, me: Seq<u8>)
    ensures
        ({
            let after = joined(g, info, me);
            &&& after.call.group == Some(info.group@)
            &&& after.call.role == Some(info.role)
            &&& after.call.connected
            &&& after.call.members == only_member(info.group@.members, me)
            &&& after.nav.view is InCall
            &&& after.call.channel == g.call.channel
            &&& after.call.running == g.call.running
            &&& after.call.mic == g.call.mic
            &&& after.call.screen_sharing == g.call.screen_sharing
            &&& after.call.webcam_sharing == g.call.webcam_sharing
            &&& after.call.chat_input == g.call.chat_input
            &&& after.call.messages == g.call.messages
            &&& after.nav.detail == g.nav.detail
            &&& after.nav.settings == g.nav.settings
            &&& after.nav.channel == g.nav.channel
            &&& after.nav.chat_input == g.nav.chat_input
            &&& after.nav.channel_creating == g.nav.channel_creating
            &&& after.nav.channel_name == g.nav.channel_name
            &&& after.nav.voice_creating == g.nav.voice_creating
            &&& after.nav.voice_name == g.nav.voice_name
            &&& after.groups == g.groups
            &&& after.ongoing == g.ongoing
            &&& after.invite == g.invite
        }),
{
}

/// A message that comes in is kept as it was said, under the contact it came from, and heard
/// only if that is allowed and the chat is not looked at.
pub proof fn messages_are_kept_and_heard(
    m: MessagesData,
    tab: SidebarTab,
    audible: bool,
    contact_id: String,
    text: String,
    after: MessagesData,
    todo: Seq<ActionData>,
)
    requires
        message_event(m, tab, audible, Event::Message { contact_id, text }, after, todo),
    ensures
        after == m.counted(tab, contact_id@),
        todo.len() >= 1,
        todo[0] == (Effect::<Seq<char>, Seq<u8>>::AppendMessage {
            contact_id: contact_id@,
            from_me: false,
            text: text@,
            load: true,
        }),
        ({
            let heard = audible && !(tab is Messages && m.active_chat == Some(contact_id@));
            &&& heard ==> todo.len() == 2 && todo[1] is PlaySound
            &&& !heard ==> todo.len() == 1
        }),
{
}

/// Whether a contact is there is remembered, from its connection or as it says, and asks for
/// nothing.
pub proof fn presence_is_remembered(
    m: MessagesData,
    tab: SidebarTab,
    audible: bool,
    contact_id: String,
    online: bool,
    status: PresenceStatus,
    after: MessagesData,
    todo: Seq<ActionData>,
)
    ensures
        message_event(m, tab, audible, Event::PeerStatus { contact_id, online }, after, todo)
            ==> after == m.peer_is(contact_id@, online) && todo.len() == 0,
        message_event(m, tab, audible, Event::Presence { contact_id, status }, after, todo) ==> {
            &&& todo.len() == 0
            &&& after.presence == m.presence.insert(contact_id@, status)
            &&& after.active_chat == m.active_chat
            &&& after.input == m.input
            &&& after.show_add_friend == m.show_add_friend
            &&& after.pending_open == m.pending_open
            &&& after.unread == m.unread
            &&& after.online == m.online
            &&& after.visible == m.visible
            &&& after.progress == m.progress
            &&& after.confirm_delete_chat == m.confirm_delete_chat
            &&& after.confirm_delete_contact == m.confirm_delete_contact
            &&& after.requests == m.requests
        },
{
}

/// A request that comes in is listed; one that was sent and accepted has the contacts read
/// again and its chat opened, and one that failed tells of whom and why.
pub proof fn requests_are_followed_up(
    m: MessagesData,
    tab: SidebarTab,
    audible: bool,
    request: Request,
    contact_id: String,
    peer: String,
    reason: String,
    after: MessagesData,
    todo: Seq<ActionData>,
)
    ensures
        message_event(m, tab, audible, Event::Request(request), after, todo) ==> {
            &&& todo.len() == 0
            &&& after.requests.incoming == with_request(m.requests.incoming, request@)
            &&& after.requests.ip_input == m.requests.ip_input
            &&& after.requests.port_input == m.requests.port_input
            &&& after.requests.status == m.requests.status
            &&& after.active_chat == m.active_chat
            &&& after.input == m.input
            &&& after.show_add_friend == m.show_add_friend
            &&& after.pending_open == m.pending_open
            &&& after.unread == m.unread
            &&& after.online == m.online
            &&& after.presence == m.presence
            &&& after.visible == m.visible
            &&& after.progress == m.progress
            &&& after.confirm_delete_chat == m.confirm_delete_chat
            &&& after.confirm_delete_contact == m.confirm_delete_contact
        },
        message_event(m, tab, audible, Event::RequestAccepted { contact_id }, after, todo) ==> {
            &&& todo.len() == 1
            &&& todo[0] is ReloadContacts
            &&& after.pending_open == Some(contact_id@)
            &&& after.requests.status == "Request accepted! Contact saved."@
            &&& after.requests.incoming == m.requests.incoming
            &&& after.requests.ip_input == m.requests.ip_input
            &&& after.requests.port_input == m.requests.port_input
            &&& after.active_chat == m.active_chat
            &&& after.input == m.input
            &&& after.show_add_friend == m.show_add_friend
            &&& after.unread == m.unread
            &&& after.online == m.online
            &&& after.presence == m.presence
            &&& after.visible == m.visible
            &&& after.progress == m.progress
            &&& after.confirm_delete_chat == m.confirm_delete_chat
            &&& after.confirm_delete_contact == m.confirm_delete_contact
        },
        message_event(m, tab, audible, Event::RequestFailed { peer, reason }, after, todo) ==> {
            &&& todo.len() == 0
            &&& after.requests.status == "Failed ("@ + peer@ + "): "@ + reason@
            &&& after.requests.incoming == m.requests.incoming
            &&& after.requests.ip_input == m.requests.ip_input
            &&& after.requests.port_input == m.requests.port_input
            &&& after.active_chat == m.active_chat
            &&& after.input == m.input
            &&& after.show_add_friend == m.show_add_friend
            &&& after.pending_open == m.pending_open
            &&& after.unread == m.unread
            &&& after.online == m.online
            &&& after.presence == m.presence
            &&& after.visible == m.visible
            &&& after.progress == m.progress
            &&& after.confirm_delete_chat == m.confirm_delete_chat
            &&& after.confirm_delete_contact == m.confirm_delete_contact
        },
{
}

/// A file that is offered is kept like a message. Its progress is followed, and the first of
/// it counts as accepting the file.
pub proof fn files_are_followed(
    m: MessagesData,
    tab: SidebarTab,
    audible: bool,
    contact_id: String,
    transfer_id: u32,
    filename: String,
    file_size: u64,
    done: u64,
    total: u64,
    after: MessagesData,
    todo: Seq<ActionData>,
)
    ensures
        message_event(
            m,
            tab,
            audible,
            Event::FileOffer { contact_id, transfer_id, filename, file_size },
            after,
            todo,
        ) ==> {
            &&& after == m.counted(tab, contact_id@)
            &&& todo.len() == 1
            &&& todo[0] == (Effect::<Seq<char>, Seq<u8>>::AppendFile {
                contact_id: contact_id@,
                from_me: false,
                transfer_id,
                filename: filename@,
                file_size,
                load: true,
            })
        },
        message_event(
            m,
            tab,
            audible,
            Event::FileProgress { contact_id, transfer_id, done, total },
            after,
            todo,
        ) ==> {
            &&& progress_of(after.progress, contact_id@, transfer_id) == Some((done, total))
            &&& progress_of(m.progress, contact_id@, transfer_id) is Some ==> todo.len() == 0
            &&& progress_of(m.progress, contact_id@, transfer_id) is None ==> {
                &&& todo.len() == 1
                &&& todo[0] == (Effect::<Seq<char>, Seq<u8>>::SetFileStatus {
                    contact_id: contact_id@,
                    transfer_id,
                    status: FileStatus::Accepted,
                    saved_path: None,
                    load: false,
                })
            }
            &&& forall|c: Seq<char>, t: u32|
                c != contact_id@ || t != transfer_id ==> #[trigger] progress_of(
                    after.progress,
                    c,
                    t,
                ) == progress_of(m.progress, c, t)
            &&& after.active_chat == m.active_chat
            &&& after.input == m.input
            &&& after.show_add_friend == m.show_add_friend
            &&& after.pending_open == m.pending_open
            &&& after.unread == m.unread
            &&& after.online == m.online
            &&& after.presence == m.presence
            &&& after.visible == m.visible
            &&& after.confirm_delete_chat == m.confirm_delete_chat
            &&& after.confirm_delete_contact == m.confirm_delete_contact
            &&& after.requests == m.requests
        },
{
    let reported = TransferData { contact_id: contact_id@, transfer_id, done, total };
    progress_is_of_one_transfer(m.progress, reported, contact_id@, transfer_id);
    first_report_is_known(m.progress, contact_id@, transfer_id);
    assert forall|c: Seq<char>, t: u32|
        c != contact_id@ || t != transfer_id implies #[trigger] progress_of(
        with_progress(m.progress, reported),
        c,
        t,
    ) == progress_of(m.progress, c, t) by {
        progress_is_of_one_transfer(m.progress, reported, c, t);
    }
}

/// A transfer that ended is no longer followed, and its file is marked as complete with the
/// place where it was saved, if it was, or as failed with the reason. Every other transfer
/// goes on.
pub proof fn ended_files_are_marked(
    m: MessagesData,
    tab: SidebarTab,
    audible: bool,
    contact_id: String,
    transfer_id: u32,
    saved_path: String,
    reason: String,
    after: MessagesData,
    todo: Seq<ActionData>,
)
    requires
        message_event(
            m,
            tab,
            audible,
            Event::FileComplete { contact_id, transfer_id, saved_path },
            after,
            todo,
        ) || message_event(
            m,
            tab,
            audible,
            Event::FileFailed { contact_id, transfer_id, reason },
            after,
            todo,
        ),
    ensures
        todo.len() == 1,
        message_event(
            m,
            tab,
            audible,
            Event::FileComplete { contact_id, transfer_id, saved_path },
            after,
            todo,
        ) ==> todo[0] == (Effect::<Seq<char>, Seq<u8>>::SetFileStatus {
            contact_id: contact_id@,
            transfer_id,
            status: FileStatus::Completed,
            saved_path: if saved_path@.len() == 0 {
                None
            } else {
                Some(saved_path@)
            },
            load: true,
        }),
        message_event(
            m,
            tab,
            audible,
            Event::FileFailed { contact_id, transfer_id, reason },
            after,
            todo,
        ) ==> todo[0] == (Effect::<Seq<char>, Seq<u8>>::SetFileStatus {
            contact_id: contact_id@,
            transfer_id,
            status: FileStatus::Failed(reason@),
            saved_path: None,
            load: true,
        }),
        progress_of(after.progress, contact_id@, transfer_id) is None,
        forall|c: Seq<char>, t: u32|
            c != contact_id@ || t != transfer_id ==> #[trigger] progress_of(after.progress, c, t)
                == progress_of(m.progress, c, t),
        ({
            &&& after.active_chat == m.active_chat
            &&& after.input == m.input
            &&& after.show_add_friend == m.show_add_friend
            &&& after.pending_open == m.pending_open
            &&& after.unread == m.unread
            &&& after.online == m.online
            &&& after.presence == m.presence
            &&& after.visible == m.visible
            &&& after.confirm_delete_chat == m.confirm_delete_chat
            &&& after.confirm_delete_contact == m.confirm_delete_contact
            &&& after.requests == m.requests
        }),
{
    ended_transfers_are_forgotten(
        m.progress,
        contact_id@,
        transfer_id,
        contact_id@,
        transfer_id,
    );
    assert forall|c: Seq<char>, t: u32|
        c != contact_id@ || t != transfer_id implies #[trigger] progress_of(
        without_transfer(m.progress, contact_id@, transfer_id),
        c,
        t,
    ) == progress_of(m.progress, c, t) by {
        ended_transfers_are_forgotten(m.progress, contact_id@, transfer_id, c, t);
    }
}

/// A new picture of a contact has the old one forgotten. What is about calls or groups, or
/// says nothing, changes no conversation.
pub proof fn other_events_change_no_conversation(
    m: MessagesData,
    tab: SidebarTab,
    audible: bool,
    event: Event,
    after: MessagesData,
    todo: Seq<ActionData>,
)
    requires
        message_event(m, tab, audible, event, after, todo),
    ensures
        event matches Event::Avatar { contact_id } ==> after == m && todo.len() == 1 && todo[0] == (
        Effect::<Seq<char>, Seq<u8>>::ForgetContactAvatar { contact_id: contact_id@ }),
        event is Delivered || event is PeerAddress || event is Call || event is Invite
            || event is InviteDeclined || event is GroupUpdated || event is MemberSynced
            || event is GroupAvatar || event is GroupChat ==> after == m && todo.len() == 0,
{
}

/// The events about groups are those that name one.
pub proof fn group_events_name_a_group(event: Event)
    ensures
        about_groups(event) <==> event is Invite || event is InviteDeclined
            || event is GroupUpdated || event is MemberSynced || event is GroupAvatar
            || event is GroupChat,
{
}

/// Each event about groups does what it is for, with what it brings: an invitation is
/// received, one that was declined has the contact leave, a copy is taken over, a member
/// joins, a picture is forgotten, and a message is kept. Other events change no group.
pub proof fn group_events_do_what_they_are_for(
    a: AppData,
    event: Event,
    after: GroupsData,
    todo: Seq<ActionData>,
)
    requires
        group_event(a, event, after, todo),
    ensures
        event matches Event::Invite(invite) ==> invite_received(a.groups, invite@, after, todo),
        event matches Event::InviteDeclined { contact_id, group_id, new_key } ==> invite_declined(
            a.groups,
            a.contacts,
            contact_id@,
            group_id@,
            new_key@,
            after,
            todo,
        ),
        event matches Event::GroupUpdated { group, now } ==> update_received(
            a.groups,
            group@,
            a.identity.pubkey,
            now,
            after,
            todo,
        ),
        event matches Event::MemberSynced { group_id, member } ==> member_synced(
            a.groups,
            group_id@,
            member@,
            after,
            todo,
        ),
        event matches Event::GroupAvatar { group_id } ==> after == a.groups && todo.len() == 1
            && todo[0] == (Effect::<Seq<char>, Seq<u8>>::ForgetGroupAvatar {
            group_id: group_id@,
        }),
        event matches Event::GroupChat {
            group_id,
            channel_id,
            fingerprint,
            nickname,
            text,
        } ==> chat_received(
            a.groups,
            group_id@,
            channel_id@,
            fingerprint@,
            nickname@,
            text@,
            after,
            todo,
        ),
        !about_groups(event) ==> after == a.groups && todo.len() == 0,
{
}

/// A call that comes in rings and is announced by the name of its caller, unless a call takes
/// over the window; the ringtone is started once.
pub proof fn incoming_calls_ring(
    c: CallsData,
    call: IncomingCall,
    after: CallsData,
    todo: Seq<ActionData>,
)
    requires
        call_event(c, call, after, todo),
    ensures
        !(c.screen is Setup) ==> after == c && todo.len() == 0,
        c.screen is Setup ==> {
            &&& after.ring.incoming == Some(call@)
            &&& after.ring.attention
            &&& after.ring.ringing
            &&& todo.len() >= 1
            &&& todo[0] == (Effect::<Seq<char>, Seq<u8>>::Notify {
                title: "hostelD — Incoming Call"@,
                body: peer_display(call@.nickname, call@.fingerprint),
            })
            &&& c.ring.ringing ==> todo.len() == 1
            &&& !c.ring.ringing ==> todo.len() == 2 && todo[1] is StartRingtone
            &&& after.screen == c.screen
            &&& after.tab == c.tab
            &&& after.setup == c.setup
            &&& after.running == c.running
            &&& after.mic_active == c.mic_active
            &&& after.connected == c.connected
            &&& after.peer == c.peer
            &&& after.chat_input == c.chat_input
            &&& after.media == c.media
            &&& after.show_hangup_confirm == c.show_hangup_confirm
            &&& after.viewing_contact == c.viewing_contact
            &&& after.last_presence_sent == c.last_presence_sent
        },
{
}

/// Any event can be handled but one that would count past the largest number: a message or a
/// file of a contact whose unread messages are at it, or a declined invitation to a group
/// whose key is.
pub proof fn events_can_be_counted(a: AppData, event: Event)
    ensures
        event matches Event::Message { contact_id, .. } ==> (countable(a, event) <==> !(
        a.messages.unread.contains_key(contact_id@) && a.messages.unread[contact_id@] == u32::MAX)),
        event matches Event::FileOffer { contact_id, .. } ==> (countable(a, event) <==> !(
        a.messages.unread.contains_key(contact_id@) && a.messages.unread[contact_id@] == u32::MAX)),
        event matches Event::InviteDeclined { group_id, .. } ==> (countable(a, event)
            <==> key_can_change(a.groups, group_id@)),
        !(event is Message) && !(event is FileOffer) && !(event is InviteDeclined) ==> countable(
            a,
            event,
        ),
{
}

} // verus!
