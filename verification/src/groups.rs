//! The groups of the user: which one is shown, what happens to them, and their calls.

use vstd::prelude::*;

use crate::call::{and_then_do, asks, no_actions};
use crate::channels::{
    by_id, channel_is_open, deletable_text, deletable_voice, delete_channel, differs, distinct_ids,
    effective_channel, is_open, listed_id, merge_all, migrations, name_of, new_channel, purged,
    standing_channels_are_listed, text_channel_is_deletable, voice_channel_is_deletable,
    with_deleted, with_standing_text, ChannelData, Migration, MigrationData,
};
use crate::effects::{maybe, Action, ActionData, Effect, PresenceStatus};
use crate::group::{
    apply_update, contact_with_key, departed, fingerprint_of, find_by_key, find_contact, has_admin,
    has_member, is_admin, is_member, leaving_changes_nothing_else, remove_member,
    sender_fingerprint, sync_member, updated,
    CallMode, CallPresence, Group, GroupData, GroupMember, GroupRole, MemberData,
};
use crate::identity::{contact_id, derive_contact_id, same_key, Contact, ContactData};
use crate::messages::{shown_presence, Messages, MessagesData};
use crate::order::{kept_in_order, picks, picks_one_more};
use crate::settings::{toggle_listed, without, without_undoes_with_added, Settings, SettingsData};
use crate::table::Table;
use crate::text::{
    concat, copy, decimal, decimal_text, join, joined, listed, same, trim, trimmed, views,
};

verus! {

/// What the groups tab shows.
#[derive(Clone, Copy, PartialEq, Eq, Structural)]
pub enum GroupView {
    List,
    Create,
    Detail,
    Settings,
    Connecting,
    InCall,
}

/// Where the user is in the groups tab. `detail` and `settings` are positions in the list
/// of groups.
pub struct Nav {
    pub view: GroupView,
    pub detail: Option<usize>,
    pub settings: Option<usize>,
    pub channel: String,
    pub chat_input: String,
    pub channel_creating: bool,
    pub channel_name: String,
    pub voice_creating: bool,
    pub voice_name: String,
}

/// Where the user is, as mathematical data.
#[verifier::ext_equal]
pub struct NavData {
    pub view: GroupView,
    pub detail: Option<usize>,
    pub settings: Option<usize>,
    pub channel: Seq<char>,
    pub chat_input: Seq<char>,
    pub channel_creating: bool,
    pub channel_name: Seq<char>,
    pub voice_creating: bool,
    pub voice_name: Seq<char>,
}

impl View for Nav {
    type V = NavData;

    open spec fn view(&self) -> NavData {
        NavData {
            view: self.view,
            detail: self.detail,
            settings: self.settings,
            channel: self.channel@,
            chat_input: self.chat_input@,
            channel_creating: self.channel_creating,
            channel_name: self.channel_name@,
            voice_creating: self.voice_creating,
            voice_name: self.voice_name@,
        }
    }
}

/// An invitation to a group.
pub struct GroupInvite {
    pub from_nickname: String,
    pub from_contact_id: String,
    pub group_id: String,
    pub group_name: String,
    pub member_count: usize,
}

/// An invitation as mathematical data.
#[verifier::ext_equal]
pub struct GroupInviteData {
    pub from_nickname: Seq<char>,
    pub from_contact_id: Seq<char>,
    pub group_id: Seq<char>,
    pub group_name: Seq<char>,
    pub member_count: usize,
}

impl View for GroupInvite {
    type V = GroupInviteData;

    open spec fn view(&self) -> GroupInviteData {
        GroupInviteData {
            from_nickname: self.from_nickname@,
            from_contact_id: self.from_contact_id@,
            group_id: self.group_id@,
            group_name: self.group_name@,
            member_count: self.member_count,
        }
    }
}

/// An invitation that may be absent, viewed.
pub open spec fn maybe_invite(i: Option<GroupInvite>) -> Option<GroupInviteData> {
    match i {
        Some(x) => Some(x@),
        None => None,
    }
}

/// A message in a group call.
pub struct GroupChatMsg {
    pub sender_index: u16,
    pub sender_nickname: String,
    pub text: String,
}

/// A message in a group call as mathematical data.
#[verifier::ext_equal]
pub struct GroupChatMsgData {
    pub sender_index: u16,
    pub sender_nickname: Seq<char>,
    pub text: Seq<char>,
}

impl View for GroupChatMsg {
    type V = GroupChatMsgData;

    open spec fn view(&self) -> GroupChatMsgData {
        GroupChatMsgData {
            sender_index: self.sender_index,
            sender_nickname: self.sender_nickname@,
            text: self.text@,
        }
    }
}

/// The group of a running call: its identifier and the members it had at the start.
pub struct CallGroup {
    pub group_id: String,
    pub members: Vec<GroupMember>,
}

/// The group of a running call as mathematical data.
#[verifier::ext_equal]
pub struct CallGroupData {
    pub group_id: Seq<char>,
    pub members: Seq<MemberData>,
}

impl View for CallGroup {
    type V = CallGroupData;

    open spec fn view(&self) -> CallGroupData {
        CallGroupData { group_id: self.group_id@, members: views(self.members@) }
    }
}

/// A call group that may be absent, viewed.
pub open spec fn maybe_group(g: Option<CallGroup>) -> Option<CallGroupData> {
    match g {
        Some(x) => Some(x@),
        None => None,
    }
}

/// The call in a voice channel.
pub struct GroupCall {
    pub channel: Option<String>,
    pub running: bool,
    pub connected: bool,
    pub mic: bool,
    pub screen_sharing: bool,
    pub webcam_sharing: bool,
    pub chat_input: String,
    pub messages: Vec<GroupChatMsg>,
    pub members: Vec<GroupMember>,
    pub group: Option<CallGroup>,
    pub role: Option<GroupRole>,
}

/// The call in a voice channel as mathematical data.
#[verifier::ext_equal]
pub struct GroupCallData {
    pub channel: Option<Seq<char>>,
    pub running: bool,
    pub connected: bool,
    pub mic: bool,
    pub screen_sharing: bool,
    pub webcam_sharing: bool,
    pub chat_input: Seq<char>,
    pub messages: Seq<GroupChatMsgData>,
    pub members: Seq<MemberData>,
    pub group: Option<CallGroupData>,
    pub role: Option<GroupRole>,
}

impl View for GroupCall {
    type V = GroupCallData;

    open spec fn view(&self) -> GroupCallData {
        GroupCallData {
            channel: maybe(self.channel),
            running: self.running,
            connected: self.connected,
            mic: self.mic,
            screen_sharing: self.screen_sharing,
            webcam_sharing: self.webcam_sharing,
            chat_input: self.chat_input@,
            messages: views(self.messages@),
            members: views(self.members@),
            group: maybe_group(self.group),
            role: self.role,
        }
    }
}

/// No call; the microphone switch stays as it was.
pub open spec fn no_group_call(mic: bool) -> GroupCallData {
    GroupCallData {
        channel: None,
        running: false,
        connected: false,
        mic,
        screen_sharing: false,
        webcam_sharing: false,
        chat_input: seq![],
        messages: seq![],
        members: seq![],
        group: None,
        role: None,
    }
}

/// The groups of the user.
pub struct Groups {
    pub groups: Vec<Group>,
    pub nav: Nav,
    pub call: GroupCall,
    pub ongoing: Table<CallMode>,
    pub invite: Option<GroupInvite>,
}

/// The groups of the user as mathematical data.
#[verifier::ext_equal]
pub struct GroupsData {
    pub groups: Seq<GroupData>,
    pub nav: NavData,
    pub call: GroupCallData,
    pub ongoing: Map<Seq<char>, CallMode>,
    pub invite: Option<GroupInviteData>,
}

impl View for Groups {
    type V = GroupsData;

    open spec fn view(&self) -> GroupsData {
        GroupsData {
            groups: views(self.groups@),
            nav: self.nav@,
            call: self.call@,
            ongoing: self.ongoing@,
            invite: maybe_invite(self.invite),
        }
    }
}

/// The groups when the program starts.
pub open spec fn groups_at_start(groups: Seq<GroupData>) -> GroupsData {
    GroupsData {
        groups,
        nav: NavData {
            view: GroupView::List,
            detail: None,
            settings: None,
            channel: "general"@,
            chat_input: seq![],
            channel_creating: false,
            channel_name: seq![],
            voice_creating: false,
            voice_name: seq![],
        },
        call: no_group_call(true),
        ongoing: Map::empty(),
        invite: None,
    }
}

/// The first position of a group with an identifier, or the number of groups.
pub open spec fn position_of(groups: Seq<GroupData>, id: Seq<char>) -> int
    decreases groups.len(),
{
    if groups.len() == 0 || groups[0].group_id == id {
        0
    } else {
        1 + position_of(groups.drop_first(), id)
    }
}

/// The position of a group is that of the first with its identifier.
pub proof fn position_of_is(groups: Seq<GroupData>, id: Seq<char>, i: int)
    requires
        0 <= i <= groups.len(),
        forall|k: int| 0 <= k < i ==> (#[trigger] groups[k]).group_id != id,
        i < groups.len() ==> groups[i].group_id == id,
    ensures
        position_of(groups, id) == i,
    decreases groups.len(),
{
    if i > 0 {
        let t = groups.drop_first();
        assert(groups[0].group_id != id);
        assert forall|k: int| 0 <= k < i - 1 implies (#[trigger] t[k]).group_id != id by {
            assert(t[k] == groups[k + 1]);
        }
        position_of_is(t, id, i - 1);
    }
}

/// What the position of a group says of the list.
pub proof fn position_of_bounds(groups: Seq<GroupData>, id: Seq<char>)
    ensures
        0 <= position_of(groups, id) <= groups.len(),
        position_of(groups, id) < groups.len() ==> groups[position_of(groups, id)].group_id == id,
        forall|k: int|
            0 <= k < position_of(groups, id) ==> (#[trigger] groups[k]).group_id != id,
    decreases groups.len(),
{
    if groups.len() > 0 && groups[0].group_id != id {
        let t = groups.drop_first();
        position_of_bounds(t, id);
        assert forall|k: int| 0 <= k < position_of(groups, id) implies (
        #[trigger] groups[k]).group_id != id by {
            if k > 0 {
                assert(t[k - 1] == groups[k]);
            }
        }
    }
}

/// A position after the element at `pos` was removed; that element's own is gone.
pub open spec fn shifted(at: Option<usize>, pos: usize) -> Option<usize> {
    match at {
        Some(i) => if i == pos {
            None
        } else if i > pos {
            Some((i - 1) as usize)
        } else {
            Some(i)
        },
        None => None,
    }
}

impl NavData {
    /// Where the user is after a group they were removed from is gone.
    pub open spec fn group_gone(self, pos: usize) -> Self {
        NavData {
            detail: shifted(self.detail, pos),
            settings: if self.settings == Some(pos) {
                None
            } else {
                self.settings
            },
            view: if self.detail == Some(pos) || self.settings == Some(pos) {
                GroupView::List
            } else {
                self.view
            },
            ..self
        }
    }

    /// Where the user is after leaving a group.
    pub open spec fn group_left(self, pos: usize) -> Self {
        NavData {
            detail: shifted(self.detail, pos),
            settings: if self.detail == Some(pos) {
                None
            } else {
                self.settings
            },
            view: if self.detail == Some(pos) {
                GroupView::List
            } else {
                self.view
            },
            ..self
        }
    }

    /// Where the user is after opening a group.
    pub open spec fn opened(self, at: usize) -> Self {
        NavData {
            detail: Some(at),
            settings: None,
            channel: "general"@,
            channel_creating: false,
            channel_name: seq![],
            view: GroupView::Detail,
            ..self
        }
    }
}

/// Removing another group keeps the shown one in view: its position still holds the same
/// group.
pub proof fn shown_group_stays(groups: Seq<GroupData>, nav: NavData, pos: usize)
    requires
        pos < groups.len(),
        nav.detail matches Some(i) && i < groups.len() && i != pos,
    ensures
        nav.group_gone(pos).detail matches Some(j) && j < groups.len() - 1,
        groups.remove(pos as int)[nav.group_gone(pos).detail.unwrap() as int]
            == groups[nav.detail.unwrap() as int],
        nav.group_left(pos).detail == nav.group_gone(pos).detail,
{
}

/// The actions that move the messages of deleted channels.
pub open spec fn moves(group_id: Seq<char>, list: Seq<MigrationData>) -> Seq<ActionData> {
    Seq::new(
        list.len(),
        |i: int|
            Effect::MigrateChannel {
                group_id,
                channel_id: list[i].channel_id,
                name: list[i].name,
            },
    )
}

fn push_moves(todo: &mut Vec<Action>, group_id: &str, list: &Vec<Migration>)
    ensures
        views(final(todo)@) == views(old(todo)@) + moves(group_id@, views(list@)),
{
    let ghost start = views(todo@);
    let ghost all = moves(group_id@, views(list@));
    let mut i: usize = 0;
    assert(start + all.take(0) =~= start);
    while i < list.len()
        invariant
            i <= list@.len(),
            all == moves(group_id@, views(list@)),
            views(todo@) == start + all.take(i as int),
        decreases list@.len() - i,
    {
        and_then_do(
            todo,
            Effect::MigrateChannel {
                group_id: copy(group_id),
                channel_id: copy(list[i].channel_id.as_str()),
                name: copy(list[i].name.as_str()),
            },
        );
        i = i + 1;
        assert(views(todo@) =~= start + all.take(i as int));
    }
    assert(all.take(i as int) =~= all);
}

/// What has become of a group after a copy of it was received.
pub open spec fn takes_over(
    before: GroupData,
    received: GroupData,
    now: u64,
    after: GroupData,
) -> bool {
    exists|merged: Seq<ChannelData>| #[trigger]
        distinct_ids(merged) && by_id(merged) == purged(
            merge_all(by_id(before.text_channels), received.text_channels),
            now,
        ) && after == updated(
            before,
            received,
            with_standing_text(merged, before.created_by, now),
        )
}

/// After a copy of a group was received, the group has its general and its fallback channel.
pub proof fn updates_keep_standing_channels(
    before: GroupData,
    received: GroupData,
    now: u64,
    after: GroupData,
)
    requires
        takes_over(before, received, now, after),
    ensures
        listed_id(after.text_channels, "general"@),
        listed_id(after.text_channels, "fallback"@),
{
    let merged = choose|merged: Seq<ChannelData>| #[trigger]
        distinct_ids(merged) && by_id(merged) == purged(
            merge_all(by_id(before.text_channels), received.text_channels),
            now,
        ) && after == updated(
            before,
            received,
            with_standing_text(merged, before.created_by, now),
        );
    standing_channels_are_listed(merged, seq![], before.created_by, now);
}

/// What a received copy of a group brings about here.
pub open spec fn update_received(
    before: GroupsData,
    received: GroupData,
    me: Seq<u8>,
    now: u64,
    after: GroupsData,
    todo: Seq<ActionData>,
) -> bool {
    let pos = position_of(before.groups, received.group_id);
    if !(0 <= pos < before.groups.len()) {
        after == before && todo.len() == 0
    } else if !is_member(received.members, me) {
        &&& after == (GroupsData {
            groups: before.groups.remove(pos),
            nav: before.nav.group_gone(pos as usize),
            ..before
        })
        &&& todo == seq![Effect::<Seq<char>, Seq<u8>>::DeleteGroup { group_id: received.group_id }]
    } else {
        let old_group = before.groups[pos];
        let new_group = after.groups[pos];
        &&& after == (GroupsData { groups: before.groups.update(pos, new_group), ..before })
        &&& takes_over(old_group, received, now, new_group)
        &&& todo == moves(
            received.group_id,
            migrations(by_id(old_group.text_channels), received.text_channels),
        ) + seq![Effect::<Seq<char>, Seq<u8>>::SaveGroup { group_id: received.group_id }] + (
        if is_admin(received.members, me) && differs(
            new_group.text_channels,
            received.text_channels,
        ) {
            seq![Effect::<Seq<char>, Seq<u8>>::BroadcastGroup { group_id: received.group_id }]
        } else {
            seq![]
        })
    }
}

/// A message of a group call that stands is kept in the history of its channel.
pub open spec fn kept_in_history(
    c: GroupCallData,
    fingerprint: Seq<char>,
    nickname: Seq<char>,
    text: Seq<char>,
) -> Seq<ActionData> {
    match (c.group, c.channel) {
        (Some(g), Some(channel_id)) => seq![
            Effect::AppendGroupMessage {
                group_id: g.group_id,
                channel_id,
                fingerprint,
                nickname,
                text,
            },
        ],
        _ => seq![],
    }
}

impl GroupCall {
    /// Asks to keep a message of the call in the history of its channel.
    pub(crate) fn keep_message(
        &self,
        todo: &mut Vec<Action>,
        fingerprint: &str,
        nickname: &str,
        text: &str,
    )
        ensures
            views(final(todo)@) == views(old(todo)@) + kept_in_history(
                self@,
                fingerprint@,
                nickname@,
                text@,
            ),
    {
        let ghost before = views(todo@);
        match (&self.group, &self.channel) {
            (Some(g), Some(channel)) => {
                and_then_do(
                    todo,
                    Effect::AppendGroupMessage {
                        group_id: copy(g.group_id.as_str()),
                        channel_id: copy(channel.as_str()),
                        fingerprint: copy(fingerprint),
                        nickname: copy(nickname),
                        text: copy(text),
                    },
                );
            },
            _ => {},
        }
        assert(views(todo@) =~= before + kept_in_history(self@, fingerprint@, nickname@, text@));
    }

    fn none(mic: bool) -> (r: Self)
        ensures
            r@ == no_group_call(mic),
    {
        let r = GroupCall {
            channel: None,
            running: false,
            connected: false,
            mic,
            screen_sharing: false,
            webcam_sharing: false,
            chat_input: String::new(),
            messages: Vec::new(),
            members: Vec::new(),
            group: None,
            role: None,
        };
        assert(views(r.messages@) =~= seq![]);
        assert(views(r.members@) =~= seq![]);
        r
    }
}

impl Nav {
    fn drop_detail(&mut self, pos: usize)
        ensures
            final(self)@ == (NavData { detail: shifted(old(self)@.detail, pos), ..old(self)@ }),
    {
        match self.detail {
            Some(i) => {
                if i == pos {
                    self.detail = None;
                } else if i > pos {
                    self.detail = Some(i - 1);
                }
            },
            None => {},
        }
    }
}

impl GroupsData {
    /// The call ended. Where others are still in it, the mode it runs in is remembered for
    /// its channel.
    pub open spec fn call_ended(self) -> Self {
        GroupsData {
            ongoing: if self.call.members.len() > 1 {
                match (self.call.channel, self.nav.detail) {
                    (Some(ch), Some(i)) => if i < self.groups.len() {
                        self.ongoing.insert(ch, self.groups[i as int].call_mode)
                    } else {
                        self.ongoing
                    },
                    _ => self.ongoing,
                }
            } else {
                match self.call.channel {
                    Some(ch) => self.ongoing.remove(ch),
                    None => self.ongoing,
                }
            },
            call: no_group_call(self.call.mic),
            nav: NavData { view: GroupView::Detail, ..self.nav },
            ..self
        }
    }

    /// The call in a channel is being set up.
    pub open spec fn call_started(self, channel: Seq<char>) -> Self {
        GroupsData {
            call: GroupCallData {
                channel: Some(channel),
                running: true,
                mic: true,
                members: seq![],
                screen_sharing: false,
                webcam_sharing: false,
                ..self.call
            },
            ongoing: self.ongoing.remove(channel),
            nav: NavData { view: GroupView::Connecting, ..self.nav },
            ..self
        }
    }

    /// The group that is shown, by position.
    pub open spec fn shown(self) -> Option<usize> {
        match self.nav.detail {
            Some(i) => if i < self.groups.len() {
                Some(i)
            } else {
                None
            },
            None => None,
        }
    }

    /// Whether a key belongs to an administrator of the group that is shown.
    pub open spec fn administered(self, me: Seq<u8>) -> bool {
        self.shown() matches Some(i) && is_admin(self.groups[i as int].members, me)
    }
}

/// The member with a key, if there is one, alone.
pub open spec fn only_member(members: Seq<MemberData>, key: Seq<u8>) -> Seq<MemberData>
    decreases members.len(),
{
    if members.len() == 0 {
        seq![]
    } else if members[0].pubkey == key {
        seq![members[0]]
    } else {
        only_member(members.drop_first(), key)
    }
}

/// The member with a key is the first who has it.
pub proof fn only_member_is(members: Seq<MemberData>, key: Seq<u8>, i: int)
    requires
        0 <= i <= members.len(),
        forall|k: int| 0 <= k < i ==> (#[trigger] members[k]).pubkey != key,
        i < members.len() ==> members[i].pubkey == key,
    ensures
        only_member(members, key) == (if i < members.len() {
            seq![members[i]]
        } else {
            seq![]
        }),
    decreases members.len(),
{
    if i > 0 {
        let t = members.drop_first();
        assert(members[0].pubkey != key);
        assert forall|k: int| 0 <= k < i - 1 implies (#[trigger] t[k]).pubkey != key by {
            assert(t[k] == members[k + 1]);
        }
        only_member_is(t, key, i - 1);
    }
}

fn me_alone(members: &Vec<GroupMember>, key: &[u8; 32]) -> (r: Vec<GroupMember>)
    ensures
        views(r@) == only_member(views(members@), key@),
{
    let mut out: Vec<GroupMember> = Vec::new();
    let mut i: usize = 0;
    while i < members.len()
        invariant
            i <= members@.len(),
            out@.len() == 0,
            forall|k: int| 0 <= k < i ==> (#[trigger] views(members@)[k]).pubkey != key@,
        decreases members@.len() - i,
    {
        if same_key(&members[i].pubkey, key) {
            out.push(members[i].clone());
            proof {
                only_member_is(views(members@), key@, i as int);
                assert(views(out@) =~= seq![members@[i as int]@]);
            }
            return out;
        }
        i = i + 1;
    }
    proof {
        only_member_is(views(members@), key@, i as int);
        assert(views(out@) =~= seq![]);
    }
    out
}

/// What the panel beside the channels shows.
#[derive(Clone, Copy, PartialEq, Eq, Structural)]
pub enum Panel {
    Settings,
    Connecting,
    Detail,
    Nothing,
}

/// What a shown group shows of the selected channel.
#[derive(Clone, Copy, PartialEq, Eq, Structural)]
pub enum ChannelPanel {
    VoiceActive,
    VoiceIdle,
    Text,
}

/// How a group call was set up.
pub struct GroupCallInfo {
    pub group: CallGroup,
    pub role: GroupRole,
}

/// What a member that was taken in elsewhere changes: a member that the group lacks is added,
/// and the group is to be saved.
pub open spec fn member_synced(
    before: GroupsData,
    group_id: Seq<char>,
    member: MemberData,
    after: GroupsData,
    todo: Seq<ActionData>,
) -> bool {
    let pos = position_of(before.groups, group_id);
    if 0 <= pos < before.groups.len() && !is_member(before.groups[pos].members, member.pubkey) {
        let g = before.groups[pos];
        &&& after == (GroupsData {
            groups: before.groups.update(pos, GroupData { members: g.members.push(member), ..g }),
            ..before
        })
        &&& todo =~= seq![Effect::SaveGroup { group_id }]
    } else {
        after == before && todo.len() == 0
    }
}

/// What it changes where a contact declined an invitation: a known contact leaves a known
/// group, which gets the new key and is saved.
pub open spec fn invite_declined(
    before: GroupsData,
    contacts: Seq<ContactData>,
    contact_id: Seq<char>,
    group_id: Seq<char>,
    new_key: Seq<u8>,
    after: GroupsData,
    todo: Seq<ActionData>,
) -> bool {
    let pos = position_of(before.groups, group_id);
    let known = exists|k: int|
        0 <= k < contacts.len() && (#[trigger] contacts[k]).contact_id == contact_id;
    if 0 <= pos < before.groups.len() && known {
        &&& exists|k: int| #[trigger]
            first_with_id(contacts, contact_id, k) && after == (GroupsData {
                groups: before.groups.update(
                    pos,
                    departed(before.groups[pos], contacts[k].pubkey, new_key),
                ),
                ..before
            })
        &&& todo =~= seq![Effect::SaveGroup { group_id }]
    } else {
        after == before && todo.len() == 0
    }
}

/// Whether the key of a group can change once more: its number still grows. One of a group
/// that is not there is not asked for.
pub open spec fn key_can_change(g: GroupsData, group_id: Seq<char>) -> bool {
    let pos = position_of(g.groups, group_id);
    0 <= pos < g.groups.len() ==> g.groups[pos].key_version < u32::MAX
}

/// What a message to a group changes: it goes to the history of its channel, or of the
/// fallback channel where a known group lacks an open one, and is shown in the call of that
/// group.
pub open spec fn chat_received(
    before: GroupsData,
    group_id: Seq<char>,
    channel_id: Seq<char>,
    fingerprint: Seq<char>,
    nickname: Seq<char>,
    text: Seq<char>,
    after: GroupsData,
    todo: Seq<ActionData>,
) -> bool {
    let pos = position_of(before.groups, group_id);
    let channel = if 0 <= pos < before.groups.len() && !is_open(
        before.groups[pos].text_channels,
        channel_id,
    ) {
        "fallback"@
    } else {
        channel_id
    };
    let live = before.nav.view == GroupView::InCall && (before.call.group matches Some(g)
        && g.group_id == group_id);
    &&& todo =~= seq![
        Effect::AppendGroupMessage { group_id, channel_id: channel, fingerprint, nickname, text },
    ]
    &&& after == (if live {
        GroupsData {
            call: GroupCallData {
                messages: before.call.messages.push(
                    GroupChatMsgData { sender_index: 0, sender_nickname: nickname, text },
                ),
                ..before.call
            },
            ..before
        }
    } else {
        before
    })
}

/// What an invitation changes: one to a group that is not there yet is shown and announced.
pub open spec fn invite_received(
    before: GroupsData,
    invite: GroupInviteData,
    after: GroupsData,
    todo: Seq<ActionData>,
) -> bool {
    if position_of(before.groups, invite.group_id) < before.groups.len() {
        after == before && todo.len() == 0
    } else {
        &&& after == (GroupsData { invite: Some(invite), ..before })
        &&& todo =~= seq![
            Effect::Notify {
                title: "hostelD — Group Invitation"@,
                body: invite.from_nickname + " invited you to '"@ + invite.group_name + "'"@,
            },
        ]
    }
}

impl Groups {
    /// The groups when the program starts.
    pub fn new(groups: Vec<Group>) -> (r: Self)
        ensures
            r@ == groups_at_start(views(groups@)),
    {
        Groups {
            groups,
            nav: Nav {
                view: GroupView::List,
                detail: None,
                settings: None,
                channel: copy("general"),
                chat_input: String::new(),
                channel_creating: false,
                channel_name: String::new(),
                voice_creating: false,
                voice_name: String::new(),
            },
            call: GroupCall::none(true),
            ongoing: Table::new(),
            invite: None,
        }
    }

    /// The position of a group.
    pub fn find(&self, id: &str) -> (r: usize)
        ensures
            r == position_of(self@.groups, id@),
            r <= self@.groups.len(),
            r < self@.groups.len() ==> self@.groups[r as int].group_id == id@,
    {
        let mut i: usize = 0;
        while i < self.groups.len()
            invariant
                i <= self.groups@.len(),
                forall|k: int| 0 <= k < i ==> (#[trigger] views(self.groups@)[k]).group_id != id@,
            decreases self.groups@.len() - i,
        {
            if same(self.groups[i].group_id.as_str(), id) {
                proof {
                    position_of_is(views(self.groups@), id@, i as int);
                }
                return i;
            }
            i = i + 1;
        }
        proof {
            position_of_is(views(self.groups@), id@, i as int);
        }
        i
    }

    /// A copy of a group was received. A group that the user is no longer a member of is
    /// gone; one that is known takes the copy over.
    pub fn on_group_updated(
        &mut self,
        received: &Group,
        me: &[u8; 32],
        now: u64,
    ) -> (r: Vec<Action>)
        ensures
            update_received(old(self)@, received@, me@, now, final(self)@, views(r@)),
    {
        let mut todo = no_actions();
        let pos: usize = self.find(received.group_id.as_str());
        if pos == self.groups.len() {
            return todo;
        }
        let ghost before = views(self.groups@);
        if !has_member(&received.members, me) {
            self.groups.remove(pos);
            assert(views(self.groups@) =~= before.remove(pos as int));
            if self.nav.detail == Some(pos) || self.nav.settings == Some(pos) {
                self.nav.view = GroupView::List;
            }
            self.nav.drop_detail(pos);
            if self.nav.settings == Some(pos) {
                self.nav.settings = None;
            }
            and_then_do(
                &mut todo,
                Effect::DeleteGroup { group_id: copy(received.group_id.as_str()) },
            );
            assert(views(todo@) =~= seq![
                Effect::<Seq<char>, Seq<u8>>::DeleteGroup { group_id: received@.group_id },
            ]);
            return todo;
        }
        let mut group = self.groups.remove(pos);
        let ghost old_group = group@;
        let (moved, broadcast) = apply_update(&mut group, received, me, now);
        let ghost new_group = group@;
        self.groups.insert(pos, group);
        push_moves(&mut todo, received.group_id.as_str(), &moved);
        and_then_do(&mut todo, Effect::SaveGroup { group_id: copy(received.group_id.as_str()) });
        if broadcast {
            and_then_do(
                &mut todo,
                Effect::BroadcastGroup { group_id: copy(received.group_id.as_str()) },
            );
        }
        proof {
            assert(views(self.groups@) =~= before.update(pos as int, new_group));
            assert(takes_over(old_group, received@, now, new_group));
            let head = moves(
                received@.group_id,
                migrations(by_id(old_group.text_channels), received@.text_channels),
            );
            assert(views(todo@) =~= head + seq![
                Effect::<Seq<char>, Seq<u8>>::SaveGroup { group_id: received@.group_id },
            ] + (if broadcast {
                seq![
                    Effect::<Seq<char>, Seq<u8>>::BroadcastGroup { group_id: received@.group_id },
                ]
            } else {
                seq![]
            }));
        }
        todo
    }

    /// Another member announced a member of a group. It is added if it is not known.
    pub fn on_member_synced(&mut self, group_id: &str, member: GroupMember) -> (r: Vec<Action>)
        ensures
            member_synced(old(self)@, group_id@, member@, final(self)@, views(r@)),
    {
        let mut todo = no_actions();
        let pos: usize = self.find(group_id);
        if pos < self.groups.len() {
            let ghost before = views(self.groups@);
            let mut group = self.groups.remove(pos);
            let added = sync_member(&mut group, member);
            let ghost after = group@;
            self.groups.insert(pos, group);
            assert(views(self.groups@) =~= before.update(pos as int, after));
            if added {
                and_then_do(&mut todo, Effect::SaveGroup { group_id: copy(group_id) });
            } else {
                assert(before.update(pos as int, after) =~= before);
            }
        }
        todo
    }

    /// A peer declined an invitation to a group: it is taken out of the group again, and the
    /// group gets the new key.
    pub fn on_invite_declined(
        &mut self,
        contact_id: &str,
        group_id: &str,
        contacts: &Vec<Contact>,
        new_key: [u8; 32],
    ) -> (r: Vec<Action>)
        requires
            key_can_change(old(self)@, group_id@),
        ensures
            invite_declined(
                old(self)@,
                views(contacts@),
                contact_id@,
                group_id@,
                new_key@,
                final(self)@,
                views(r@),
            ),
    {
        let mut todo = no_actions();
        let pos: usize = self.find(group_id);
        if pos < self.groups.len() {
            let at: usize = find_contact(contacts, contact_id);
            if at < contacts.len() {
                let ghost before = views(self.groups@);
                let mut group = self.groups.remove(pos);
                remove_member(&mut group, &contacts[at].pubkey, new_key);
                let ghost after = group@;
                self.groups.insert(pos, group);
                assert(views(self.groups@) =~= before.update(pos as int, after));
                and_then_do(&mut todo, Effect::SaveGroup { group_id: copy(group_id) });
                assert(views(contacts@)[at as int].contact_id == contact_id@);
                assert(first_with_id(views(contacts@), contact_id@, at as int));
            }
        }
        todo
    }

    /// A message for a group channel came in. It is kept under its channel, or under the
    /// fallback channel if that one is closed; in a running call of the group it is shown.
    pub fn on_group_chat(
        &mut self,
        group_id: &str,
        channel_id: &str,
        fingerprint: &str,
        nickname: &str,
        text: &str,
    ) -> (r: Vec<Action>)
        ensures
            chat_received(
                old(self)@,
                group_id@,
                channel_id@,
                fingerprint@,
                nickname@,
                text@,
                final(self)@,
                views(r@),
            ),
    {
        let pos: usize = self.find(group_id);
        let channel = if pos < self.groups.len() {
            effective_channel(Some(&self.groups[pos].text_channels), channel_id)
        } else {
            effective_channel(None, channel_id)
        };
        let mut todo = no_actions();
        and_then_do(
            &mut todo,
            Effect::AppendGroupMessage {
                group_id: copy(group_id),
                channel_id: channel,
                fingerprint: copy(fingerprint),
                nickname: copy(nickname),
                text: copy(text),
            },
        );
        let live = match &self.call.group {
            Some(g) => self.nav.view == GroupView::InCall && same(g.group_id.as_str(), group_id),
            None => false,
        };
        if live {
            let ghost before = self.call.messages@;
            let msg = GroupChatMsg {
                sender_index: 0,
                sender_nickname: copy(nickname),
                text: copy(text),
            };
            let ghost md = msg@;
            self.call.messages.push(msg);
            assert(views(self.call.messages@) =~= views(before).push(md));
        }
        todo
    }

    /// An invitation came in. It is shown, and notified, unless the group is known.
    pub fn on_invite(&mut self, invite: GroupInvite) -> (r: Vec<Action>)
        ensures
            invite_received(old(self)@, invite@, final(self)@, views(r@)),
    {
        let mut todo = no_actions();
        let pos: usize = self.find(invite.group_id.as_str());
        if pos == self.groups.len() {
            let a = concat(invite.from_nickname.as_str(), " invited you to '");
            let b = concat(a.as_str(), invite.group_name.as_str());
            let body = concat(b.as_str(), "'");
            and_then_do(
                &mut todo,
                Effect::Notify { title: copy("hostelD — Group Invitation"), body },
            );
            self.invite = Some(invite);
        }
        todo
    }

    /// The user takes an invitation. The group is added and saved unless it is known, and
    /// its creator told, if that is a contact.
    pub fn accept_invite(&mut self, group: Group, contacts: &Vec<Contact>) -> (r: Vec<Action>)
        ensures
            ({
                let known = position_of(old(self)@.groups, group@.group_id) < old(
                    self,
                )@.groups.len();
                let at = contact_with_key(views(contacts@), group@.created_by);
                if old(self)@.invite is None {
                    final(self)@ == old(self)@ && r@.len() == 0
                } else if known {
                    &&& final(self)@ == (GroupsData { invite: None, ..old(self)@ })
                    &&& r@.len() == 0
                } else {
                    &&& final(self)@ == (GroupsData {
                        invite: None,
                        groups: old(self)@.groups.push(group@),
                        ..old(self)@
                    })
                    &&& asks(
                        r@,
                        seq![Effect::SaveGroup { group_id: group@.group_id }] + (if at
                            < contacts@.len() {
                            seq![
                                Effect::AcceptInvite {
                                    contact_id: views(contacts@)[at].contact_id,
                                    group_id: group@.group_id,
                                },
                            ]
                        } else {
                            seq![]
                        }),
                    )
                }
            }),
    {
        let mut todo = no_actions();
        match self.invite.take() {
            Some(_) => {},
            None => {
                return todo;
            },
        }
        let pos: usize = self.find(group.group_id.as_str());
        if pos < self.groups.len() {
            return todo;
        }
        and_then_do(&mut todo, Effect::SaveGroup { group_id: copy(group.group_id.as_str()) });
        let at: usize = find_by_key(contacts, &group.created_by);
        if at < contacts.len() {
            and_then_do(
                &mut todo,
                Effect::AcceptInvite {
                    contact_id: copy(contacts[at].contact_id.as_str()),
                    group_id: copy(group.group_id.as_str()),
                },
            );
        }
        let ghost before = self.groups@;
        let ghost gd = group@;
        self.groups.push(group);
        assert(views(self.groups@) =~= views(before).push(gd));
        todo
    }

    /// The user declines an invitation. The creator of the group is told, if that is a
    /// contact.
    pub fn reject_invite(&mut self, created_by: &[u8; 32], contacts: &Vec<Contact>) -> (r: Vec<Action>)
        ensures
            final(self)@ == (GroupsData { invite: None, ..old(self)@ }),
            ({
                let at = contact_with_key(views(contacts@), created_by@);
                match old(self)@.invite {
                    Some(i) => asks(
                        r@,
                        if at < contacts@.len() {
                            seq![
                                Effect::RejectInvite {
                                    contact_id: views(contacts@)[at].contact_id,
                                    group_id: i.group_id,
                                },
                            ]
                        } else {
                            seq![]
                        },
                    ),
                    None => r@.len() == 0,
                }
            }),
    {
        let mut todo = no_actions();
        match self.invite.take() {
            Some(invite) => {
                let at: usize = find_by_key(contacts, created_by);
                if at < contacts.len() {
                    and_then_do(
                        &mut todo,
                        Effect::RejectInvite {
                            contact_id: copy(contacts[at].contact_id.as_str()),
                            group_id: copy(invite.group_id.as_str()),
                        },
                    );
                }
            },
            None => {},
        }
        todo
    }

    /// Opens a group at its general channel.
    pub fn open_group(&mut self, at: usize)
        ensures
            final(self)@ == (GroupsData { nav: old(self)@.nav.opened(at), ..old(self)@ }),
    {
        self.nav.detail = Some(at);
        self.nav.settings = None;
        self.nav.channel = copy("general");
        self.nav.channel_creating = false;
        self.nav.channel_name = String::new();
        self.nav.view = GroupView::Detail;
    }

    /// The user leaves a group. A call of it that is on ends first.
    pub fn leave_group(&mut self, at: usize) -> (r: Vec<Action>)
        ensures
            ({
                let in_call = old(self)@.nav.detail == Some(at) && old(self)@.call.channel is Some;
                let b = if in_call {
                    old(self)@.call_ended()
                } else {
                    old(self)@
                };
                if at < old(self)@.groups.len() {
                    let id = old(self)@.groups[at as int].group_id;
                    &&& final(self)@ == (GroupsData {
                        groups: b.groups.remove(at as int),
                        nav: b.nav.group_left(at),
                        ..b
                    })
                    &&& asks(
                        r@,
                        (if in_call {
                            seq![
                                Effect::StopGroupCall,
                                Effect::CloseGroupHistory,
                                Effect::ReclaimSocket,
                            ]
                        } else {
                            seq![]
                        }) + seq![
                            Effect::DeleteGroup { group_id: id },
                            Effect::ForgetGroupAvatar { group_id: id },
                        ],
                    )
                } else {
                    final(self)@ == old(self)@ && r@.len() == 0
                }
            }),
    {
        if at >= self.groups.len() {
            return no_actions();
        }
        let mut todo = if self.nav.detail == Some(at) && self.call.channel.is_some() {
            self.cleanup_group_call()
        } else {
            no_actions()
        };
        let ghost first = views(todo@);
        let id = copy(self.groups[at].group_id.as_str());
        let ghost before = views(self.groups@);
        self.groups.remove(at);
        assert(views(self.groups@) =~= before.remove(at as int));
        if self.nav.detail == Some(at) {
            self.nav.settings = None;
            self.nav.view = GroupView::List;
        }
        self.nav.drop_detail(at);
        and_then_do(&mut todo, Effect::DeleteGroup { group_id: copy(id.as_str()) });
        and_then_do(&mut todo, Effect::ForgetGroupAvatar { group_id: id });
        assert(views(todo@) =~= first + seq![
            Effect::<Seq<char>, Seq<u8>>::DeleteGroup { group_id: before[at as int].group_id },
            Effect::<Seq<char>, Seq<u8>>::ForgetGroupAvatar {
                group_id: before[at as int].group_id,
            },
        ]);
        todo
    }

    /// The group whose settings may be shown: the chosen one, to its administrators. Else
    /// the view goes back to the list, or to the group.
    pub fn settings_target(&mut self, me: &[u8; 32]) -> (r: Option<usize>)
        ensures
            ({
                let at = old(self)@.nav.settings;
                if !(at matches Some(i) && i < old(self)@.groups.len()) {
                    &&& r is None
                    &&& final(self)@ == (GroupsData {
                        nav: NavData { view: GroupView::List, ..old(self)@.nav },
                        ..old(self)@
                    })
                } else if !is_admin(old(self)@.groups[at.unwrap() as int].members, me@) {
                    &&& r is None
                    &&& final(self)@ == (GroupsData {
                        nav: NavData {
                            view: GroupView::Detail,
                            settings: None,
                            ..old(self)@.nav
                        },
                        ..old(self)@
                    })
                } else {
                    r == at && final(self)@ == old(self)@
                }
            }),
    {
        match self.nav.settings {
            Some(i) => {
                if i < self.groups.len() {
                    if has_admin(&self.groups[i].members, me) {
                        return Some(i);
                    }
                    self.nav.view = GroupView::Detail;
                    self.nav.settings = None;
                    return None;
                }
            },
            None => {},
        }
        self.nav.view = GroupView::List;
        None
    }

    /// An administrator deletes a group.
    pub fn delete_group(&mut self, at: usize) -> (r: Vec<Action>)
        requires
            at < old(self)@.groups.len(),
        ensures
            final(self)@ == (GroupsData {
                groups: old(self)@.groups.remove(at as int),
                nav: NavData {
                    settings: None,
                    detail: None,
                    view: GroupView::List,
                    ..old(self)@.nav
                },
                ..old(self)@
            }),
            asks(
                r@,
                seq![Effect::DeleteGroup { group_id: old(self)@.groups[at as int].group_id }],
            ),
    {
        let ghost before = views(self.groups@);
        let group = self.groups.remove(at);
        assert(views(self.groups@) =~= before.remove(at as int));
        self.nav.settings = None;
        self.nav.detail = None;
        self.nav.view = GroupView::List;
        let mut todo = no_actions();
        and_then_do(&mut todo, Effect::DeleteGroup { group_id: copy(group.group_id.as_str()) });
        todo
    }

    /// What the panel shows.
    pub fn panel(&self) -> (r: Panel)
        ensures
            r == (if self@.nav.settings is Some && self@.nav.view == GroupView::Settings {
                Panel::Settings
            } else if self@.nav.detail is Some && self@.nav.view == GroupView::Connecting {
                Panel::Connecting
            } else if self@.nav.detail is Some && (self@.nav.view == GroupView::Detail
                || self@.nav.view == GroupView::Settings || self@.nav.view == GroupView::InCall) {
                Panel::Detail
            } else {
                Panel::Nothing
            }),
    {
        if self.nav.settings.is_some() && self.nav.view == GroupView::Settings {
            Panel::Settings
        } else if self.nav.detail.is_some() && self.nav.view == GroupView::Connecting {
            Panel::Connecting
        } else if self.nav.detail.is_some() && (self.nav.view == GroupView::Detail || self.nav.view
            == GroupView::Settings || self.nav.view == GroupView::InCall) {
            Panel::Detail
        } else {
            Panel::Nothing
        }
    }

    /// What the shown group shows of the selected channel, or nothing if no group is shown;
    /// then the view goes back to the list.
    pub fn channel_panel(&mut self) -> (r: Option<ChannelPanel>)
        ensures
            match old(self)@.shown() {
                Some(i) => {
                    &&& final(self)@ == old(self)@
                    &&& r == Some(
                        if is_open(
                            old(self)@.groups[i as int].voice_channels,
                            old(self)@.nav.channel,
                        ) {
                            if old(self)@.call.channel == Some(old(self)@.nav.channel) {
                                ChannelPanel::VoiceActive
                            } else {
                                ChannelPanel::VoiceIdle
                            }
                        } else {
                            ChannelPanel::Text
                        },
                    )
                },
                None => r is None && final(self)@ == (GroupsData {
                    nav: NavData { view: GroupView::List, ..old(self)@.nav },
                    ..old(self)@
                }),
            },
    {
        match self.nav.detail {
            Some(i) => {
                if i < self.groups.len() {
                    let r = if channel_is_open(
                        &self.groups[i].voice_channels,
                        self.nav.channel.as_str(),
                    ) {
                        match &self.call.channel {
                            Some(c) => if same(c.as_str(), self.nav.channel.as_str()) {
                                ChannelPanel::VoiceActive
                            } else {
                                ChannelPanel::VoiceIdle
                            },
                            None => ChannelPanel::VoiceIdle,
                        }
                    } else {
                        ChannelPanel::Text
                    };
                    return Some(r);
                }
            },
            None => {},
        }
        self.nav.view = GroupView::List;
        None
    }

    /// Opens the settings of the shown group.
    pub fn open_settings(&mut self)
        ensures
            final(self)@ == (match old(self)@.shown() {
                Some(i) => GroupsData {
                    nav: NavData {
                        settings: Some(i),
                        view: GroupView::Settings,
                        ..old(self)@.nav
                    },
                    ..old(self)@
                },
                None => old(self)@,
            }),
    {
        match self.nav.detail {
            Some(i) => {
                if i < self.groups.len() {
                    self.nav.settings = Some(i);
                    self.nav.view = GroupView::Settings;
                }
            },
            None => {},
        }
    }

    /// Whether a key belongs to an administrator of the shown group.
    pub fn administers(&self, me: &[u8; 32]) -> (r: bool)
        ensures
            r == self@.administered(me@),
    {
        match self.nav.detail {
            Some(i) => i < self.groups.len() && has_admin(&self.groups[i].members, me),
            None => false,
        }
    }

    /// An administrator of the shown group adds a text channel to it, named as typed, unless
    /// nothing was typed. The group is saved and sent out. Nobody else changes anything.
    pub fn create_text_channel(&mut self, id: String, me: &[u8; 32], now: u64) -> (r: Vec<Action>)
        ensures
            ({
                let typed = old(self)@.nav.channel_name;
                let nav = NavData {
                    channel_creating: false,
                    channel_name: seq![],
                    ..old(self)@.nav
                };
                if !old(self)@.administered(me@) || trimmed(typed).len() == 0 {
                    final(self)@ == old(self)@ && r@.len() == 0
                } else {
                    let i = old(self)@.shown().unwrap();
                    let g = old(self)@.groups[i as int];
                    let c = ChannelData {
                        channel_id: id@,
                        name: crate::channels::channel_name(typed),
                        created_at: now,
                        created_by: me@,
                        deleted: false,
                        deleted_at: None,
                    };
                    &&& final(self)@ == (GroupsData {
                        groups: old(self)@.groups.update(
                            i as int,
                            GroupData { text_channels: g.text_channels.push(c), ..g },
                        ),
                        nav,
                        ..old(self)@
                    })
                    &&& asks(
                        r@,
                        seq![
                            Effect::SaveGroup { group_id: g.group_id },
                            Effect::BroadcastGroup { group_id: g.group_id },
                        ],
                    )
                }
            }),
    {
        let mut todo = no_actions();
        if !self.administers(me) {
            return todo;
        }
        let made = new_channel(self.nav.channel_name.as_str(), id, *me, now);
        match made {
            None => todo,
            Some(channel) => {
                self.nav.channel_creating = false;
                self.nav.channel_name = String::new();
                match self.nav.detail {
                    Some(i) => {
                        if i < self.groups.len() {
                            let ghost before = views(self.groups@);
                            let ghost cd = channel@;
                            let mut group = self.groups.remove(i);
                            let ghost list = group.text_channels@;
                            group.text_channels.push(channel);
                            let group_id = copy(group.group_id.as_str());
                            let ghost after = group@;
                            self.groups.insert(i, group);
                            proof {
                                assert(after.text_channels =~= views(list).push(cd));
                                assert(views(self.groups@) =~= before.update(i as int, after));
                            }
                            and_then_do(
                                &mut todo,
                                Effect::SaveGroup { group_id: copy(group_id.as_str()) },
                            );
                            and_then_do(&mut todo, Effect::BroadcastGroup { group_id });
                        }
                    },
                    None => {},
                }
                todo
            },
        }
    }

    /// An administrator of the shown group deletes a text channel of it: its messages are
    /// moved to the fallback channel, the general channel is shown, and the group is saved
    /// and sent out. The general and the fallback channel stay, and nobody else changes
    /// anything.
    pub fn delete_text_channel(&mut self, id: &str, me: &[u8; 32], now: u64) -> (r: Vec<Action>)
        ensures
            match old(self)@.shown() {
                Some(i) if old(self)@.administered(me@) && deletable_text(id@) => {
                    let g = old(self)@.groups[i as int];
                    &&& final(self)@ == (GroupsData {
                        groups: old(self)@.groups.update(
                            i as int,
                            GroupData {
                                text_channels: with_deleted(g.text_channels, id@, now),
                                ..g
                            },
                        ),
                        nav: NavData { channel: "general"@, ..old(self)@.nav },
                        ..old(self)@
                    })
                    &&& asks(
                        r@,
                        seq![
                            Effect::MigrateChannel {
                                group_id: g.group_id,
                                channel_id: id@,
                                name: name_of(g.text_channels, id@, seq![]),
                            },
                            Effect::SaveGroup { group_id: g.group_id },
                            Effect::BroadcastGroup { group_id: g.group_id },
                        ],
                    )
                },
                _ => final(self)@ == old(self)@ && r@.len() == 0,
            },
    {
        let mut todo = no_actions();
        if !self.administers(me) || !text_channel_is_deletable(id) {
            return todo;
        }
        match self.nav.detail {
            Some(i) => {
                if i < self.groups.len() {
                    let ghost before = views(self.groups@);
                    let mut group = self.groups.remove(i);
                    let name = delete_channel(&mut group.text_channels, id, now);
                    let group_id = copy(group.group_id.as_str());
                    let ghost after = group@;
                    self.groups.insert(i, group);
                    assert(views(self.groups@) =~= before.update(i as int, after));
                    self.nav.channel = copy("general");
                    and_then_do(
                        &mut todo,
                        Effect::MigrateChannel {
                            group_id: copy(group_id.as_str()),
                            channel_id: copy(id),
                            name,
                        },
                    );
                    and_then_do(&mut todo, Effect::SaveGroup { group_id: copy(group_id.as_str()) });
                    and_then_do(&mut todo, Effect::BroadcastGroup { group_id });
                }
            },
            None => {},
        }
        todo
    }

    /// An administrator of the shown group deletes a voice channel of it. A call that runs in
    /// it ends. The channel that every group has stays, and nobody else changes anything.
    pub fn delete_voice_channel(&mut self, id: &str, me: &[u8; 32], now: u64) -> (r: Vec<Action>)
        ensures
            match old(self)@.shown() {
                Some(i) if old(self)@.administered(me@) && deletable_voice(id@) => {
                    let g = old(self)@.groups[i as int];
                    let b = GroupsData {
                        groups: old(self)@.groups.update(
                            i as int,
                            GroupData {
                                voice_channels: with_deleted(g.voice_channels, id@, now),
                                ..g
                            },
                        ),
                        ..old(self)@
                    };
                    let in_it = old(self)@.call.channel == Some(id@);
                    &&& final(self)@ == (if in_it {
                        b.call_ended()
                    } else {
                        b
                    })
                    &&& asks(
                        r@,
                        seq![Effect::SaveGroup { group_id: g.group_id }] + (if in_it {
                            seq![
                                Effect::StopGroupCall,
                                Effect::CloseGroupHistory,
                                Effect::ReclaimSocket,
                            ]
                        } else {
                            seq![]
                        }) + seq![Effect::BroadcastGroup { group_id: g.group_id }],
                    )
                },
                _ => final(self)@ == old(self)@ && r@.len() == 0,
            },
    {
        let mut todo = no_actions();
        if !self.administers(me) || !voice_channel_is_deletable(id) {
            return todo;
        }
        match self.nav.detail {
            Some(i) => {
                if i < self.groups.len() {
                    let ghost before = views(self.groups@);
                    let mut group = self.groups.remove(i);
                    delete_channel(&mut group.voice_channels, id, now);
                    let group_id = copy(group.group_id.as_str());
                    let ghost after = group@;
                    self.groups.insert(i, group);
                    assert(views(self.groups@) =~= before.update(i as int, after));
                    and_then_do(&mut todo, Effect::SaveGroup { group_id: copy(group_id.as_str()) });
                    let in_it = match &self.call.channel {
                        Some(c) => same(c.as_str(), id),
                        None => false,
                    };
                    if in_it {
                        let mut ending = self.cleanup_group_call();
                        let ghost held = todo@;
                        let ghost ending_data = views(ending@);
                        todo.append(&mut ending);
                        assert(views(todo@) =~= views(held) + ending_data);
                    }
                    and_then_do(&mut todo, Effect::BroadcastGroup { group_id });
                }
            },
            None => {},
        }
        todo
    }

    /// The recipients and text of a message typed in the shown group: nothing is sent from
    /// the fallback channel, nor where only white space was typed.
    pub fn chat_to_send(&self, typed: &str) -> (r: Option<String>)
        ensures
            r is Some <==> self@.nav.channel != "fallback"@ && trimmed(typed@).len() > 0,
            r matches Some(t) ==> t@ == trimmed(typed@),
    {
        let text = trim(typed);
        if same(self.nav.channel.as_str(), "fallback") || text.as_str().is_empty() {
            None
        } else {
            Some(text)
        }
    }

    /// Ends the call in a voice channel.
    pub fn cleanup_group_call(&mut self) -> (r: Vec<Action>)
        ensures
            final(self)@ == old(self)@.call_ended(),
            asks(
                r@,
                seq![Effect::StopGroupCall, Effect::CloseGroupHistory, Effect::ReclaimSocket],
            ),
    {
        if self.call.members.len() > 1 {
            match (&self.call.channel, self.nav.detail) {
                (Some(channel), Some(i)) => {
                    if i < self.groups.len() {
                        self.ongoing.set(channel.as_str(), self.groups[i].call_mode);
                    }
                },
                _ => {},
            }
        } else {
            match &self.call.channel {
                Some(channel) => {
                    self.ongoing.remove(channel.as_str());
                },
                None => {},
            }
        }
        self.call = GroupCall::none(self.call.mic);
        self.nav.view = GroupView::Detail;
        let mut todo = no_actions();
        and_then_do(&mut todo, Effect::StopGroupCall);
        and_then_do(&mut todo, Effect::CloseGroupHistory);
        and_then_do(&mut todo, Effect::ReclaimSocket);
        todo
    }

    /// Joins the call in a voice channel of the shown group. A call in another channel ends
    /// first; the answer says whether there was one, as the socket then takes longer to be
    /// free.
    pub fn start_group_call(&mut self, channel: &str) -> (r: Option<(bool, Vec<Action>)>)
        ensures
            match old(self)@.shown() {
                Some(i) => {
                    let switching = old(self)@.call.channel is Some;
                    &&& r is Some
                    &&& r.unwrap().0 == switching
                    &&& final(self)@ == (if switching {
                        old(self)@.call_ended()
                    } else {
                        old(self)@
                    }).call_started(channel@)
                    &&& asks(
                        r.unwrap().1@,
                        (if switching {
                            seq![
                                Effect::StopGroupCall,
                                Effect::CloseGroupHistory,
                                Effect::ReclaimSocket,
                            ]
                        } else {
                            seq![]
                        }) + seq![Effect::YieldSocket, Effect::SaveSettings],
                    )
                },
                None => r is None && final(self)@ == old(self)@,
            },
    {
        match self.nav.detail {
            Some(i) => {
                if i >= self.groups.len() {
                    return None;
                }
            },
            None => {
                return None;
            },
        }
        let switching = self.call.channel.is_some();
        let mut todo = if switching {
            self.cleanup_group_call()
        } else {
            no_actions()
        };
        let ghost first = views(todo@);
        and_then_do(&mut todo, Effect::YieldSocket);
        and_then_do(&mut todo, Effect::SaveSettings);
        self.call.running = true;
        self.call.mic = true;
        self.call.members = Vec::new();
        assert(views(self.call.members@) =~= seq![]);
        self.call.channel = Some(copy(channel));
        self.call.screen_sharing = false;
        self.call.webcam_sharing = false;
        self.ongoing.remove(channel);
        self.nav.view = GroupView::Connecting;
        assert(views(todo@) =~= first + seq![
            Effect::<Seq<char>, Seq<u8>>::YieldSocket,
            Effect::<Seq<char>, Seq<u8>>::SaveSettings,
        ]);
        Some((switching, todo))
    }

    /// Takes in whether the call in a voice channel was set up. At first only the user is
    /// in it.
    pub fn on_group_connect_result(
        &mut self,
        result: Result<GroupCallInfo, String>,
        me: &[u8; 32],
    ) -> (r: Vec<Action>)
        ensures
            ({
                let waiting = old(self)@.call.channel is Some && !old(self)@.call.connected;
                match result {
                    Ok(info) => if waiting {
                        &&& final(self)@ == (GroupsData {
                            call: GroupCallData {
                                group: Some(info.group@),
                                role: Some(info.role),
                                connected: true,
                                members: only_member(info.group@.members, me@),
                                ..old(self)@.call
                            },
                            nav: NavData { view: GroupView::InCall, ..old(self)@.nav },
                            ..old(self)@
                        })
                        &&& r@.len() == 0
                    } else {
                        final(self)@ == old(self)@ && r@.len() == 0
                    },
                    Err(_) => if waiting {
                        &&& final(self)@ == old(self)@.call_ended()
                        &&& asks(
                            r@,
                            seq![
                                Effect::StopGroupCall,
                                Effect::CloseGroupHistory,
                                Effect::ReclaimSocket,
                            ],
                        )
                    } else {
                        final(self)@ == old(self)@ && r@.len() == 0
                    },
                }
            }),
    {
        if !self.call.channel.is_some() || self.call.connected {
            return no_actions();
        }
        match result {
            Ok(info) => {
                self.call.members = me_alone(&info.group.members, me);
                self.call.group = Some(info.group);
                self.call.role = Some(info.role);
                self.call.connected = true;
                self.nav.view = GroupView::InCall;
                no_actions()
            },
            Err(_) => self.cleanup_group_call(),
        }
    }

    /// A message of the call came in. It is kept in the history of the group, under the
    /// fingerprint of its sender, which is taken from the roster.
    pub fn on_call_message(&mut self, message: GroupChatMsg) -> (r: Vec<Action>)
        ensures
            final(self)@ == (GroupsData {
                call: GroupCallData {
                    messages: old(self)@.call.messages.push(message@),
                    ..old(self)@.call
                },
                ..old(self)@
            }),
            asks(
                r@,
                kept_in_history(
                    old(self)@.call,
                    match old(self)@.call.group {
                        Some(g) => fingerprint_of(g.members, message@.sender_index),
                        None => seq![],
                    },
                    message@.sender_nickname,
                    message@.text,
                ),
            ),
    {
        let fingerprint = match &self.call.group {
            Some(g) => sender_fingerprint(&g.members, message.sender_index),
            None => String::new(),
        };
        let mut todo = no_actions();
        self.call.keep_message(
            &mut todo,
            fingerprint.as_str(),
            message.sender_nickname.as_str(),
            message.text.as_str(),
        );
        let ghost before = self.call.messages@;
        let ghost md = message@;
        self.call.messages.push(message);
        assert(views(self.call.messages@) =~= views(before).push(md));
        todo
    }

    /// The members in the call changed.
    pub fn on_roster(&mut self, roster: Vec<GroupMember>)
        ensures
            final(self)@ == (GroupsData {
                call: GroupCallData { members: views(roster@), ..old(self)@.call },
                ..old(self)@
            }),
    {
        self.call.members = roster;
    }

    /// Takes in whether the engine of the call still runs. If not, the call ended.
    pub fn on_group_engine_state(&mut self, running: bool) -> (r: Vec<Action>)
        ensures
            ({
                let over = old(self)@.call.channel is Some && old(self)@.call.connected && !running;
                &&& final(self)@ == (if over {
                    old(self)@.call_ended()
                } else {
                    old(self)@
                })
                &&& asks(
                    r@,
                    if over {
                        seq![
                            Effect::StopGroupCall,
                            Effect::CloseGroupHistory,
                            Effect::ReclaimSocket,
                        ]
                    } else {
                        seq![]
                    },
                )
            }),
    {
        if self.call.channel.is_some() && self.call.connected && !running {
            self.cleanup_group_call()
        } else {
            no_actions()
        }
    }
}

/// Whether a contact is the first with an identifier.
pub open spec fn first_with_id(contacts: Seq<ContactData>, id: Seq<char>, i: int) -> bool {
    &&& 0 <= i < contacts.len()
    &&& contacts[i].contact_id == id
    &&& forall|k: int| 0 <= k < i ==> (#[trigger] contacts[k]).contact_id != id
}

/// Joining a channel forgets that a call was left there, and leaving a call that goes on
/// remembers the mode it runs in.
pub proof fn ongoing_calls_are_remembered(g: GroupsData, channel: Seq<char>)
    ensures
        !g.call_started(channel).ongoing.contains_key(channel),
        g.call_started(channel).call.channel == Some(channel),
        g.call_ended().call.channel is None,
        g.call.channel == Some(channel) && g.call.members.len() > 1 && g.shown() is Some ==> {
            &&& g.call_ended().ongoing.contains_key(channel)
            &&& g.call_ended().ongoing[channel] == g.groups[g.shown().unwrap() as int].call_mode
        },
        g.call.channel == Some(channel) && g.call.members.len() <= 1
            ==> !g.call_ended().ongoing.contains_key(channel),
{
}

/// Whether a member is shown as online: oneself always, others by what they last said,
/// or by whether they are connected.
pub open spec fn member_online(m: MemberData, me: Seq<u8>, messages: MessagesData) -> bool {
    m.pubkey == me || (shown_presence(messages, contact_id(me, m.pubkey))
        != PresenceStatus::Offline)
}

/// The positions of the members that are online, or of those that are not.
pub open spec fn members_with(
    members: Seq<MemberData>,
    me: Seq<u8>,
    messages: MessagesData,
    online: bool,
) -> Seq<usize>
    decreases members.len(),
{
    if members.len() == 0 {
        seq![]
    } else {
        let done = members_with(members.drop_last(), me, messages, online);
        if member_online(members.last(), me, messages) == online {
            done.push((members.len() - 1) as usize)
        } else {
            done
        }
    }
}

fn push_members_with(
    members: &Vec<GroupMember>,
    me: &[u8; 32],
    messages: &Messages,
    online: bool,
    out: &mut Vec<usize>,
)
    ensures
        final(out)@ == old(out)@ + members_with(views(members@), me@, messages@, online),
{
    let ghost ms = views(members@);
    let ghost start = out@;
    let mut i: usize = 0;
    proof {
        assert(ms.take(0) =~= Seq::<MemberData>::empty());
        assert(start + members_with(ms.take(0), me@, messages@, online) =~= start);
    }
    while i < members.len()
        invariant
            i <= members@.len(),
            ms == views(members@),
            out@ == start + members_with(ms.take(i as int), me@, messages@, online),
        decreases members@.len() - i,
    {
        let ghost held = out@;
        let m = &members[i];
        let is_online = same_key(&m.pubkey, me) || messages.presence_of(
            derive_contact_id(me, &m.pubkey).as_str(),
        ) != PresenceStatus::Offline;
        if is_online == online {
            out.push(i);
        }
        proof {
            let now = ms.take(i + 1);
            assert(now.drop_last() =~= ms.take(i as int));
            assert(now.last() == members@[i as int]@);
            assert(out@ =~= start + members_with(now, me@, messages@, online));
        }
        i = i + 1;
    }
    assert(ms.take(i as int) =~= ms);
}

/// The members by position, those online first, and how many those are.
pub fn member_rows(members: &Vec<GroupMember>, me: &[u8; 32], messages: &Messages) -> (r: (
    Vec<usize>,
    usize,
))
    ensures
        r.0@ == members_with(views(members@), me@, messages@, true) + members_with(
            views(members@),
            me@,
            messages@,
            false,
        ),
        r.1 == members_with(views(members@), me@, messages@, true).len(),
{
    let mut out: Vec<usize> = Vec::new();
    push_members_with(members, me, messages, true, &mut out);
    let online: usize = out.len();
    push_members_with(members, me, messages, false, &mut out);
    assert(out@ =~= members_with(views(members@), me@, messages@, true) + members_with(
        views(members@),
        me@,
        messages@,
        false,
    ));
    (out, online)
}

/// Every member is listed once.
pub proof fn every_member_is_listed(members: Seq<MemberData>, me: Seq<u8>, messages: MessagesData)
    ensures
        members_with(members, me, messages, true).len() + members_with(
            members,
            me,
            messages,
            false,
        ).len() == members.len(),
    decreases members.len(),
{
    if members.len() > 0 {
        every_member_is_listed(members.drop_last(), me, messages);
    }
}

/// The nicknames of those in a call that are contacts.
pub open spec fn nicknames_of(ids: Seq<Seq<char>>, contacts: Seq<ContactData>) -> Seq<Seq<char>>
    decreases ids.len(),
{
    if ids.len() == 0 {
        seq![]
    } else {
        let done = nicknames_of(ids.drop_last(), contacts);
        match nickname_with_id(contacts, ids.last()) {
            Some(n) => done.push(n),
            None => done,
        }
    }
}

/// The nickname of the first contact with an identifier.
pub open spec fn nickname_with_id(contacts: Seq<ContactData>, id: Seq<char>) -> Option<Seq<char>>
    decreases contacts.len(),
{
    if contacts.len() == 0 {
        None
    } else if contacts[0].contact_id == id {
        Some(contacts[0].nickname)
    } else {
        nickname_with_id(contacts.drop_first(), id)
    }
}

/// The nickname for an identifier is that of the first contact who has it.
pub proof fn nickname_with_id_is(contacts: Seq<ContactData>, id: Seq<char>, i: int)
    requires
        0 <= i <= contacts.len(),
        forall|k: int| 0 <= k < i ==> (#[trigger] contacts[k]).contact_id != id,
        i < contacts.len() ==> contacts[i].contact_id == id,
    ensures
        nickname_with_id(contacts, id) == (if i < contacts.len() {
            Some(contacts[i].nickname)
        } else {
            None
        }),
    decreases contacts.len(),
{
    if i > 0 {
        let t = contacts.drop_first();
        assert(contacts[0].contact_id != id);
        assert forall|k: int| 0 <= k < i - 1 implies (#[trigger] t[k]).contact_id != id by {
            assert(t[k] == contacts[k + 1]);
        }
        nickname_with_id_is(t, id, i - 1);
    }
}

/// The identifiers of those present.
pub open spec fn present_ids(present: Seq<CallPresence>) -> Seq<Seq<char>> {
    Seq::new(present.len(), |i: int| present[i].contact_id@)
}

/// The nicknames of those in a call, with commas between them.
pub fn nicknames_in_call(present: &Vec<CallPresence>, contacts: &Vec<Contact>) -> (r: String)
    ensures
        r@ == joined(nicknames_of(present_ids(present@), views(contacts@)), ", "@),
{
    let ghost ids = present_ids(present@);
    let ghost cs = views(contacts@);
    let mut names: Vec<String> = Vec::new();
    let mut i: usize = 0;
    proof {
        assert(ids.take(0) =~= Seq::<Seq<char>>::empty());
        assert(views(names@) =~= Seq::<Seq<char>>::empty());
    }
    while i < present.len()
        invariant
            i <= present@.len(),
            ids == present_ids(present@),
            cs == views(contacts@),
            views(names@) == nicknames_of(ids.take(i as int), cs),
        decreases present@.len() - i,
    {
        let ghost before = names@;
        let at: usize = find_contact(contacts, present[i].contact_id.as_str());
        proof {
            nickname_with_id_is(cs, ids[i as int], at as int);
            let now = ids.take(i + 1);
            assert(now.drop_last() =~= ids.take(i as int));
            assert(now.last() == ids[i as int]);
        }
        if at < contacts.len() {
            names.push(copy(contacts[at].nickname.as_str()));
            assert(views(names@) =~= views(before).push(contacts@[at as int].nickname@));
        }
        i = i + 1;
    }
    assert(ids.take(i as int) =~= ids);
    join(&names, ", ")
}

/// The line that tells of a call in progress.
pub fn call_in_progress(count: usize) -> (r: String)
    ensures
        r@ == "A call is in progress ("@ + decimal(count as nat) + " member"@ + (if count == 1 {
            seq![]
        } else {
            "s"@
        }) + ")"@,
{
    let a = concat("A call is in progress (", decimal_text(count as u64).as_str());
    let b = concat(a.as_str(), " member");
    let c = if count == 1 {
        copy(b.as_str())
    } else {
        concat(b.as_str(), "s")
    };
    let r = concat(c.as_str(), ")");
    proof {
        if count == 1 {
            assert(b@ + Seq::<char>::empty() =~= b@);
        }
    }
    r
}

/// What to do next to set up a group call.
#[derive(Clone, Copy, PartialEq, Eq, Structural)]
pub enum DialStep {
    /// Try once more.
    Dial,
    /// The user no longer wants the call.
    Cancelled,
    /// It was tried often enough.
    GiveUp,
}

/// How long to wait for the socket before the first try, in milliseconds.
pub fn socket_wait(switching: bool) -> (r: u64)
    ensures
        r == (if switching {
            1000u64
        } else {
            500u64
        }),
{
    if switching {
        1000
    } else {
        500
    }
}

/// How long to wait after `attempt` failed tries, in milliseconds: before the second and the
/// third try.
pub fn dial_pause(attempt: u32) -> (r: u64)
    ensures
        r == (if attempt == 0 || attempt >= 3 {
            0u64
        } else {
            500u64
        }),
{
    if attempt == 0 || attempt >= 3 {
        0
    } else {
        500
    }
}

/// What to do after `attempt` failed tries and the pause that follows: three are made, unless
/// the user gives up.
pub fn dial_step(attempt: u32, running: bool) -> (r: DialStep)
    ensures
        r == (if attempt >= 3 {
            DialStep::GiveUp
        } else if !running {
            DialStep::Cancelled
        } else {
            DialStep::Dial
        }),
{
    if attempt >= 3 {
        DialStep::GiveUp
    } else if !running {
        DialStep::Cancelled
    } else {
        DialStep::Dial
    }
}

/// The unread messages of one channel of a group.
pub struct ChannelUnread {
    pub group_id: String,
    pub channel_id: String,
    pub count: u32,
}

/// The unread messages of one channel as mathematical data.
#[verifier::ext_equal]
pub struct ChannelUnreadData {
    pub group_id: Seq<char>,
    pub channel_id: Seq<char>,
    pub count: u32,
}

impl View for ChannelUnread {
    type V = ChannelUnreadData;

    open spec fn view(&self) -> ChannelUnreadData {
        ChannelUnreadData {
            group_id: self.group_id@,
            channel_id: self.channel_id@,
            count: self.count,
        }
    }
}

/// The unread messages of the groups, and of their channels.
pub struct GroupUnread {
    pub groups: Table<u32>,
    pub channels: Vec<ChannelUnread>,
}

/// The unread messages of the groups as mathematical data.
#[verifier::ext_equal]
pub struct GroupUnreadData {
    pub groups: Map<Seq<char>, u32>,
    pub channels: Seq<ChannelUnreadData>,
}

impl View for GroupUnread {
    type V = GroupUnreadData;

    open spec fn view(&self) -> GroupUnreadData {
        GroupUnreadData { groups: self.groups@, channels: views(self.channels@) }
    }
}

/// Being about another group, or another channel where one is given, as a predicate.
pub open spec fn elsewhere(group_id: Seq<char>, channel_id: Option<Seq<char>>) -> spec_fn(
    ChannelUnreadData,
) -> bool {
    |u: ChannelUnreadData|
        !(u.group_id == group_id && (channel_id matches Some(c) ==> u.channel_id == c))
}

impl GroupUnreadData {
    /// Nothing is unread in a channel, nor counted for its group.
    pub open spec fn seen(self, group_id: Seq<char>, channel_id: Seq<char>) -> Self {
        GroupUnreadData {
            groups: self.groups.remove(group_id),
            channels: self.channels.filter(elsewhere(group_id, Some(channel_id))),
        }
    }

    /// Nothing is unread in a group.
    pub open spec fn silenced(self, group_id: Seq<char>) -> Self {
        GroupUnreadData {
            groups: self.groups.remove(group_id),
            channels: self.channels.filter(elsewhere(group_id, None)),
        }
    }
}

fn keep_elsewhere(list: &mut Vec<ChannelUnread>, group_id: &str, channel_id: Option<&str>)
    ensures
        views(final(list)@) == views(old(list)@).filter(
            elsewhere(
                group_id@,
                match channel_id {
                    Some(c) => Some(c@),
                    None => None,
                },
            ),
        ),
{
    let ghost p = elsewhere(
        group_id@,
        match channel_id {
            Some(c) => Some(c@),
            None => None,
        },
    );
    let ghost start = views(list@);
    let mut kept: Vec<ChannelUnread> = Vec::new();
    let mut i: usize = 0;
    proof {
        reveal(Seq::filter);
        assert(start.take(0) =~= Seq::<ChannelUnreadData>::empty());
        assert(views(kept@) =~= Seq::<ChannelUnreadData>::empty());
    }
    while i < list.len()
        invariant
            i <= list@.len(),
            views(list@) == start,
            p == elsewhere(
                group_id@,
                match channel_id {
                    Some(c) => Some(c@),
                    None => None,
                },
            ),
            views(kept@) == start.take(i as int).filter(p),
        decreases list@.len() - i,
    {
        let ghost before = kept@;
        let u = &list[i];
        let here = same(u.group_id.as_str(), group_id) && (match channel_id {
            Some(c) => same(u.channel_id.as_str(), c),
            None => true,
        });
        assert(here == !p(u@));
        if !here {
            kept.push(
                ChannelUnread {
                    group_id: copy(u.group_id.as_str()),
                    channel_id: copy(u.channel_id.as_str()),
                    count: u.count,
                },
            );
        }
        proof {
            reveal(Seq::filter);
            let now = start.take(i + 1);
            assert(now.drop_last() =~= start.take(i as int));
            assert(now.last() == list@[i as int]@);
            if !here {
                assert(views(kept@) =~= views(before).push(list@[i as int]@));
            }
        }
        i = i + 1;
    }
    assert(start.take(i as int) =~= start);
    *list = kept;
}

impl GroupUnread {
    /// Nothing unread.
    pub fn new() -> (r: Self)
        ensures
            r@ == (GroupUnreadData { groups: Map::empty(), channels: seq![] }),
    {
        let channels: Vec<ChannelUnread> = Vec::new();
        assert(views(channels@) =~= seq![]);
        GroupUnread { groups: Table::new(), channels }
    }

    /// The user looks at a channel.
    pub fn see(&mut self, group_id: &str, channel_id: &str)
        ensures
            final(self)@ == old(self)@.seen(group_id@, channel_id@),
    {
        self.groups.remove(group_id);
        keep_elsewhere(&mut self.channels, group_id, Some(channel_id));
    }

    /// The user looks at a group whose channel is shown already: only the channel's count
    /// goes.
    pub fn see_channel(&mut self, group_id: &str, channel_id: &str)
        ensures
            final(self)@ == (GroupUnreadData {
                channels: old(self)@.channels.filter(elsewhere(group_id@, Some(channel_id@))),
                ..old(self)@
            }),
    {
        keep_elsewhere(&mut self.channels, group_id, Some(channel_id));
    }

    /// Mutes a group, which forgets what is unread in it, or unmutes it. The settings are
    /// to be saved.
    pub fn toggle_mute(&mut self, settings: &mut Settings, group_id: &str)
        ensures
            ({
                let muted = old(settings)@.muted_groups.contains(group_id@);
                &&& final(settings)@ == (SettingsData {
                    muted_groups: if muted {
                        without(old(settings)@.muted_groups, group_id@)
                    } else {
                        old(settings)@.muted_groups.push(group_id@)
                    },
                    ..old(settings)@
                })
                &&& final(self)@ == (if muted {
                    old(self)@
                } else {
                    old(self)@.silenced(group_id@)
                })
            }),
    {
        let muted = listed(&settings.muted_groups, group_id);
        toggle_listed(&mut settings.muted_groups, group_id);
        if !muted {
            self.groups.remove(group_id);
            keep_elsewhere(&mut self.channels, group_id, None);
        }
    }
}

/// Muting a group and unmuting it again leaves the settings as they were.
pub proof fn unmuting_undoes_muting(s: SettingsData, group_id: Seq<char>)
    requires
        !s.muted_groups.contains(group_id),
    ensures
        without(s.muted_groups.push(group_id), group_id) == s.muted_groups,
{
    without_undoes_with_added(s.muted_groups, group_id);
}

/// Without a call nothing is shared, shown or said; only the switch of the microphone stays.
pub proof fn without_a_call_nothing_is_on(mic: bool)
    ensures
        ({
            let c = no_group_call(mic);
            &&& c.mic == mic
            &&& c.channel is None
            &&& !c.running
            &&& !c.connected
            &&& !c.screen_sharing
            &&& !c.webcam_sharing
            &&& c.chat_input.len() == 0
            &&& c.messages.len() == 0
            &&& c.members.len() == 0
            &&& c.group is None
            &&& c.role is None
        }),
{
}

/// At the start the list of the groups is shown, no call is on, and nothing is asked.
pub proof fn groups_start_as_a_list(groups: Seq<GroupData>, id: Seq<char>)
    ensures
        ({
            let g = groups_at_start(groups);
            &&& g.groups == groups
            &&& g.nav.view is List
            &&& g.nav.detail is None
            &&& g.nav.settings is None
            &&& g.nav.channel == "general"@
            &&& g.nav.chat_input.len() == 0
            &&& !g.nav.channel_creating
            &&& g.nav.channel_name.len() == 0
            &&& !g.nav.voice_creating
            &&& g.nav.voice_name.len() == 0
            &&& g.call == no_group_call(true)
            &&& !g.ongoing.contains_key(id)
            &&& g.invite is None
        }),
{
}

/// After a group is gone, a position means the group that it meant before, and means none
/// where it meant the one that is gone.
pub proof fn positions_follow_their_group(groups: Seq<GroupData>, at: Option<usize>, pos: usize)
    requires
        pos < groups.len(),
        at matches Some(i) ==> i < groups.len(),
    ensures
        shifted(at, pos) is Some <==> at is Some && at != Some(pos),
        shifted(at, pos) matches Some(j) ==> j < groups.len() - 1 && groups.remove(pos as int)[j as int]
            == groups[at.unwrap() as int],
{
}

/// When a group is gone, one who was looking at it is shown the list; anyone else stays where
/// they were.
pub proof fn only_viewers_of_a_group_are_moved(nav: NavData, pos: usize)
    ensures
        ({
            let gone = nav.group_gone(pos);
            &&& nav.detail == Some(pos) ==> gone.detail is None
            &&& nav.detail == Some(pos) || nav.settings == Some(pos) ==> gone.view is List
            &&& nav.detail != Some(pos) && nav.settings != Some(pos) ==> gone.view == nav.view
            &&& nav.settings == Some(pos) ==> gone.settings is None
            &&& nav.settings != Some(pos) ==> gone.settings == nav.settings
            &&& gone.channel == nav.channel
            &&& gone.chat_input == nav.chat_input
            &&& gone.channel_creating == nav.channel_creating
            &&& gone.channel_name == nav.channel_name
            &&& gone.voice_creating == nav.voice_creating
            &&& gone.voice_name == nav.voice_name
        }),
        ({
            let left = nav.group_left(pos);
            &&& nav.detail == Some(pos) ==> left.view is List && left.detail is None
                && left.settings is None
            &&& nav.detail != Some(pos) ==> left.view == nav.view && left.settings == nav.settings
            &&& left.channel == nav.channel
            &&& left.chat_input == nav.chat_input
            &&& left.channel_creating == nav.channel_creating
            &&& left.channel_name == nav.channel_name
            &&& left.voice_creating == nav.voice_creating
            &&& left.voice_name == nav.voice_name
        }),
{
}

/// Opening a group shows it with its general channel, and drops the name of a channel that
/// was being created.
pub proof fn opening_shows_the_group(nav: NavData, at: usize)
    ensures
        ({
            let after = nav.opened(at);
            &&& after.view is Detail
            &&& after.detail == Some(at)
            &&& after.settings is None
            &&& after.channel == "general"@
            &&& !after.channel_creating
            &&& after.channel_name.len() == 0
            &&& after.chat_input == nav.chat_input
            &&& after.voice_creating == nav.voice_creating
            &&& after.voice_name == nav.voice_name
        }),
{
}

/// The messages of each deleted channel are moved, under its own identifier and name, in the
/// group that it belongs to.
pub proof fn every_deleted_channel_is_moved(group_id: Seq<char>, list: Seq<MigrationData>)
    ensures
        moves(group_id, list).len() == list.len(),
        forall|i: int|
            0 <= i < list.len() ==> #[trigger] moves(group_id, list)[i]
                == (Effect::<Seq<char>, Seq<u8>>::MigrateChannel {
                group_id,
                channel_id: list[i].channel_id,
                name: list[i].name,
            }),
{
}

/// A received copy of a group brings its name, its picture and its members: whoever is a
/// member in the copy is one here, and nobody else is. What each member keeps for themselves
/// stays as it was.
pub proof fn received_members_become_the_members(
    before: GroupData,
    received: GroupData,
    now: u64,
    after: GroupData,
    key: Seq<u8>,
)
    requires
        takes_over(before, received, now, after),
    ensures
        is_member(after.members, key) == is_member(received.members, key),
        is_admin(after.members, key) == is_admin(received.members, key),
        after.members == received.members,
        after.name == received.name,
        after.avatar_sha256 == received.avatar_sha256,
        after.group_id == before.group_id,
        after.created_by == before.created_by,
        after.created_at == before.created_at,
        after.group_key == before.group_key,
        after.next_sender_index == before.next_sender_index,
        after.voice_channels == before.voice_channels,
        after.call_mode == before.call_mode,
        after.key_version == before.key_version,
        after.previous_key == before.previous_key,
{
}

/// A copy of a group that is not here changes nothing. A copy without oneself takes the group
/// away, and is deleted; the other groups stay. Any other copy changes the one group that it
/// is a copy of: its members become those of the copy, and it is saved.
pub proof fn copies_change_their_own_group(
    before: GroupsData,
    received: GroupData,
    me: Seq<u8>,
    now: u64,
    after: GroupsData,
    todo: Seq<ActionData>,
    pos: int,
)
    requires
        update_received(before, received, me, now, after, todo),
        0 <= pos <= before.groups.len(),
        forall|k: int|
            0 <= k < pos ==> (#[trigger] before.groups[k]).group_id != received.group_id,
        pos < before.groups.len() ==> before.groups[pos].group_id == received.group_id,
    ensures
        pos == before.groups.len() ==> after == before && todo.len() == 0,
        after.call == before.call,
        after.ongoing == before.ongoing,
        after.invite == before.invite,
        pos < before.groups.len() && !is_member(received.members, me) ==> {
            &&& after.groups == before.groups.remove(pos)
            &&& after.nav == before.nav.group_gone(pos as usize)
            &&& todo.len() == 1
            &&& todo[0] == (Effect::<Seq<char>, Seq<u8>>::DeleteGroup {
                group_id: received.group_id,
            })
        },
        pos < before.groups.len() && is_member(received.members, me) ==> {
            &&& after.nav == before.nav
            &&& after.groups.len() == before.groups.len()
            &&& forall|k: int|
                0 <= k < before.groups.len() && k != pos ==> after.groups[k]
                    == #[trigger] before.groups[k]
            &&& after.groups[pos].group_id == received.group_id
            &&& after.groups[pos].members == received.members
            &&& after.groups[pos].name == received.name
            &&& todo.contains(
                Effect::<Seq<char>, Seq<u8>>::SaveGroup { group_id: received.group_id },
            )
        },
{
    position_of_is(before.groups, received.group_id, pos);
    if pos < before.groups.len() && is_member(received.members, me) {
        let m = moves(
            received.group_id,
            migrations(by_id(before.groups[pos].text_channels), received.text_channels),
        );
        let saved = seq![Effect::<Seq<char>, Seq<u8>>::SaveGroup { group_id: received.group_id }];
        assert((m + saved)[m.len() as int] == saved[0]);
        assert(todo[m.len() as int] == saved[0]);
    }
}

/// A message said in a call is kept in the history of the channel of the call, and of nothing
/// where no call stands.
pub proof fn call_messages_go_to_their_channel(
    c: GroupCallData,
    fingerprint: Seq<char>,
    nickname: Seq<char>,
    text: Seq<char>,
)
    ensures
        c.group is None || c.channel is None ==> kept_in_history(c, fingerprint, nickname, text).len()
            == 0,
        c.group is Some && c.channel is Some ==> {
            let kept = kept_in_history(c, fingerprint, nickname, text);
            &&& kept.len() == 1
            &&& kept[0] == (Effect::<Seq<char>, Seq<u8>>::AppendGroupMessage {
                group_id: c.group.unwrap().group_id,
                channel_id: c.channel.unwrap(),
                fingerprint,
                nickname,
                text,
            })
        },
{
}

/// A call that ended leaves no call, and shows the group. Only its own channel may be
/// remembered or forgotten as one with a call going on, and nothing else changes.
pub proof fn ending_a_call_changes_nothing_else(g: GroupsData, other: Seq<char>)
    ensures
        ({
            let after = g.call_ended();
            &&& after.groups == g.groups
            &&& after.invite == g.invite
            &&& after.call == no_group_call(g.call.mic)
            &&& after.nav.view is Detail
            &&& after.nav.detail == g.nav.detail
            &&& after.nav.settings == g.nav.settings
            &&& after.nav.channel == g.nav.channel
            &&& after.nav.chat_input == g.nav.chat_input
            &&& after.nav.channel_creating == g.nav.channel_creating
            &&& after.nav.channel_name == g.nav.channel_name
            &&& after.nav.voice_creating == g.nav.voice_creating
            &&& after.nav.voice_name == g.nav.voice_name
            &&& g.call.channel is None ==> after.ongoing == g.ongoing
            &&& g.call.members.len() > 1 && g.shown() is None ==> after.ongoing == g.ongoing
            &&& g.call.channel != Some(other) ==> after.ongoing.contains_key(other)
                == g.ongoing.contains_key(other) && after.ongoing[other] == g.ongoing[other]
        }),
{
}

/// A call that starts is in its channel, with the microphone on and nothing shared, and waits
/// to be connected. No other channel is touched, and nothing else changes.
pub proof fn starting_a_call_changes_nothing_else(g: GroupsData, channel: Seq<char>)
    ensures
        ({
            let after = g.call_started(channel);
            &&& after.groups == g.groups
            &&& after.invite == g.invite
            &&& after.ongoing == g.ongoing.remove(channel)
            &&& after.call.channel == Some(channel)
            &&& after.call.running
            &&& after.call.mic
            &&& after.call.members.len() == 0
            &&& !after.call.screen_sharing
            &&& !after.call.webcam_sharing
            &&& after.call.connected == g.call.connected
            &&& after.call.chat_input == g.call.chat_input
            &&& after.call.messages == g.call.messages
            &&& after.call.group == g.call.group
            &&& after.call.role == g.call.role
            &&& after.nav.view is Connecting
            &&& after.nav.detail == g.nav.detail
            &&& after.nav.settings == g.nav.settings
            &&& after.nav.channel == g.nav.channel
            &&& after.nav.chat_input == g.nav.chat_input
            &&& after.nav.channel_creating == g.nav.channel_creating
            &&& after.nav.channel_name == g.nav.channel_name
            &&& after.nav.voice_creating == g.nav.voice_creating
            &&& after.nav.voice_name == g.nav.voice_name
        }),
{
}

/// The group shown is the one at the position chosen, if there is one, and only its own
/// administrators administer it.
pub proof fn the_chosen_group_is_shown(g: GroupsData, me: Seq<u8>)
    ensures
        g.nav.detail is None ==> g.shown() is None && !g.administered(me),
        g.nav.detail matches Some(i) ==> {
            &&& i < g.groups.len() ==> g.shown() == Some(i)
            &&& i >= g.groups.len() ==> g.shown() is None && !g.administered(me)
            &&& i < g.groups.len() ==> g.administered(me) == is_admin(
                g.groups[i as int].members,
                me,
            )
        },
{
}

/// A member taken in elsewhere joins behind the others, in the one group, unless a member has
/// their key. Whoever was a member stays one.
pub proof fn taken_in_members_join(
    before: GroupsData,
    group_id: Seq<char>,
    member: MemberData,
    after: GroupsData,
    todo: Seq<ActionData>,
    pos: int,
)
    requires
        member_synced(before, group_id, member, after, todo),
        0 <= pos <= before.groups.len(),
        forall|k: int| 0 <= k < pos ==> (#[trigger] before.groups[k]).group_id != group_id,
        pos < before.groups.len() ==> before.groups[pos].group_id == group_id,
    ensures
        after.nav == before.nav,
        after.call == before.call,
        after.ongoing == before.ongoing,
        after.invite == before.invite,
        after.groups.len() == before.groups.len(),
        forall|k: int|
            0 <= k < before.groups.len() && k != pos ==> after.groups[k]
                == #[trigger] before.groups[k],
        pos == before.groups.len() ==> after == before && todo.len() == 0,
        pos < before.groups.len() && is_member(before.groups[pos].members, member.pubkey) ==> after
            == before && todo.len() == 0,
        pos < before.groups.len() && !is_member(before.groups[pos].members, member.pubkey) ==> {
            let g = before.groups[pos];
            let h = after.groups[pos];
            &&& h.members.len() == g.members.len() + 1
            &&& h.members.last() == member
            &&& h.members.drop_last() == g.members
            &&& h.group_id == g.group_id
            &&& h.name == g.name
            &&& h.created_by == g.created_by
            &&& h.created_at == g.created_at
            &&& h.group_key == g.group_key
            &&& h.next_sender_index == g.next_sender_index
            &&& h.avatar_sha256 == g.avatar_sha256
            &&& h.text_channels == g.text_channels
            &&& h.voice_channels == g.voice_channels
            &&& h.call_mode == g.call_mode
            &&& h.key_version == g.key_version
            &&& h.previous_key == g.previous_key
            &&& todo.len() == 1
            &&& todo[0] == (Effect::<Seq<char>, Seq<u8>>::SaveGroup { group_id })
        },
{
    position_of_is(before.groups, group_id, pos);
    if pos < before.groups.len() {
        let g = before.groups[pos];
        assert(g.members.push(member).drop_last() =~= g.members);
    }
}

/// A contact that declined leaves the one group that it was invited to, which gets the new
/// key and is saved. Neither the other members nor the other groups change, and a contact or
/// a group that is not known changes nothing.
pub proof fn who_declines_leaves(
    before: GroupsData,
    contacts: Seq<ContactData>,
    contact_id: Seq<char>,
    group_id: Seq<char>,
    new_key: Seq<u8>,
    after: GroupsData,
    todo: Seq<ActionData>,
    pos: int,
    at: int,
)
    requires
        invite_declined(before, contacts, contact_id, group_id, new_key, after, todo),
        0 <= pos <= before.groups.len(),
        forall|k: int| 0 <= k < pos ==> (#[trigger] before.groups[k]).group_id != group_id,
        pos < before.groups.len() ==> before.groups[pos].group_id == group_id
            && before.groups[pos].key_version < u32::MAX,
        0 <= at <= contacts.len(),
        forall|k: int| 0 <= k < at ==> (#[trigger] contacts[k]).contact_id != contact_id,
        at < contacts.len() ==> contacts[at].contact_id == contact_id,
    ensures
        after.nav == before.nav,
        after.call == before.call,
        after.ongoing == before.ongoing,
        after.invite == before.invite,
        after.groups.len() == before.groups.len(),
        forall|k: int|
            0 <= k < before.groups.len() && k != pos ==> after.groups[k]
                == #[trigger] before.groups[k],
        pos == before.groups.len() || at == contacts.len() ==> after == before && todo.len() == 0,
        pos < before.groups.len() && at < contacts.len() ==> {
            let g = before.groups[pos];
            let h = after.groups[pos];
            let key = contacts[at].pubkey;
            &&& !is_member(h.members, key)
            &&& forall|m: MemberData| #[trigger]
                h.members.contains(m) <==> g.members.contains(m) && m.pubkey != key
            &&& h.group_key == new_key
            &&& h.previous_key == Some(g.group_key)
            &&& h.key_version == g.key_version + 1
            &&& todo.len() == 1
            &&& todo[0] == (Effect::<Seq<char>, Seq<u8>>::SaveGroup { group_id })
        },
{
    position_of_is(before.groups, group_id, pos);
    if pos < before.groups.len() && at < contacts.len() {
        let g = before.groups[pos];
        let key = contacts[at].pubkey;
        assert(contacts[at].contact_id == contact_id);
        let k = choose|k: int| #[trigger]
            first_with_id(contacts, contact_id, k) && after == (GroupsData {
                groups: before.groups.update(pos, departed(g, contacts[k].pubkey, new_key)),
                ..before
            });
        assert(k == at) by {
            if k < at {
                assert(contacts[k].contact_id != contact_id);
            }
            if at < k {
                assert(contacts[at].contact_id != contact_id);
            }
        }
        let h = after.groups[pos];
        assert(h == departed(g, key, new_key));
        let src = leaving_changes_nothing_else(g, key, new_key);
        assert forall|m: MemberData| #[trigger] h.members.contains(m) <==> g.members.contains(m)
            && m.pubkey != key by {
            if h.members.contains(m) {
                let i = h.members.index_of(m);
                assert(h.members[i] == g.members[src[i]]);
            }
            if g.members.contains(m) && m.pubkey != key {
                let j = g.members.index_of(m);
                assert(g.members[j].pubkey != key);
                assert(src.contains(j));
                let i = src.index_of(j);
                assert(h.members[i] == g.members[src[i]]);
            }
        }
        if is_member(h.members, key) {
            let i = choose|i: int| 0 <= i < h.members.len() && (#[trigger] h.members[i]).pubkey == key;
            assert(h.members[i] == g.members[src[i]]);
        }
    }
}

/// A message to a group is kept once, as it was said, in its own channel where that is open
/// or the group is not known, and in the fallback channel otherwise. It is shown in the call
/// exactly if that is in the same group, behind the messages before it.
pub proof fn group_messages_are_kept_and_shown(
    before: GroupsData,
    group_id: Seq<char>,
    channel_id: Seq<char>,
    fingerprint: Seq<char>,
    nickname: Seq<char>,
    text: Seq<char>,
    after: GroupsData,
    todo: Seq<ActionData>,
    pos: int,
)
    requires
        chat_received(before, group_id, channel_id, fingerprint, nickname, text, after, todo),
        0 <= pos <= before.groups.len(),
        forall|k: int| 0 <= k < pos ==> (#[trigger] before.groups[k]).group_id != group_id,
        pos < before.groups.len() ==> before.groups[pos].group_id == group_id,
    ensures
        todo.len() == 1,
        pos == before.groups.len() || is_open(before.groups[pos].text_channels, channel_id)
            ==> todo[0] == (Effect::<Seq<char>, Seq<u8>>::AppendGroupMessage {
            group_id,
            channel_id,
            fingerprint,
            nickname,
            text,
        }),
        pos < before.groups.len() && !is_open(before.groups[pos].text_channels, channel_id)
            ==> todo[0] == (Effect::<Seq<char>, Seq<u8>>::AppendGroupMessage {
            group_id,
            channel_id: "fallback"@,
            fingerprint,
            nickname,
            text,
        }),
        ({
            let live = before.nav.view is InCall && before.call.group is Some
                && before.call.group.unwrap().group_id == group_id;
            &&& !live ==> after == before
            &&& live ==> {
                let shown = after.call.messages;
                &&& shown.len() == before.call.messages.len() + 1
                &&& shown.drop_last() == before.call.messages
                &&& shown.last().sender_nickname == nickname
                &&& shown.last().text == text
                &&& shown.last().sender_index == 0
            }
        }),
        after.groups == before.groups,
        after.nav == before.nav,
        after.ongoing == before.ongoing,
        after.invite == before.invite,
        after.call.channel == before.call.channel,
        after.call.running == before.call.running,
        after.call.connected == before.call.connected,
        after.call.mic == before.call.mic,
        after.call.screen_sharing == before.call.screen_sharing,
        after.call.webcam_sharing == before.call.webcam_sharing,
        after.call.chat_input == before.call.chat_input,
        after.call.members == before.call.members,
        after.call.group == before.call.group,
        after.call.role == before.call.role,
{
    position_of_is(before.groups, group_id, pos);
    let said = GroupChatMsgData { sender_index: 0, sender_nickname: nickname, text };
    assert(before.call.messages.push(said).drop_last() =~= before.call.messages);
}

/// An invitation is shown and announced exactly if the group is not here yet.
pub proof fn new_invitations_are_shown(
    before: GroupsData,
    invite: GroupInviteData,
    after: GroupsData,
    todo: Seq<ActionData>,
)
    requires
        invite_received(before, invite, after, todo),
    ensures
        after.groups == before.groups,
        after.nav == before.nav,
        after.call == before.call,
        after.ongoing == before.ongoing,
        (exists|k: int|
            0 <= k < before.groups.len() && (#[trigger] before.groups[k]).group_id
                == invite.group_id) ==> after == before && todo.len() == 0,
        (forall|k: int|
            0 <= k < before.groups.len() ==> (#[trigger] before.groups[k]).group_id
                != invite.group_id) ==> {
            &&& after.invite == Some(invite)
            &&& todo.len() == 1
            &&& todo[0] == (Effect::<Seq<char>, Seq<u8>>::Notify {
                title: "hostelD — Group Invitation"@,
                body: invite.from_nickname + " invited you to '"@ + invite.group_name + "'"@,
            })
        },
{
    position_of_bounds(before.groups, invite.group_id);
    if forall|k: int|
        0 <= k < before.groups.len() ==> (#[trigger] before.groups[k]).group_id
            != invite.group_id {
        position_of_is(before.groups, invite.group_id, before.groups.len() as int);
    }
}

/// Of the contacts with an identifier, one is the first.
pub proof fn one_contact_is_the_first(contacts: Seq<ContactData>, id: Seq<char>, i: int, j: int)
    requires
        first_with_id(contacts, id, i),
    ensures
        contacts[i].contact_id == id,
        first_with_id(contacts, id, j) ==> i == j,
        0 <= j < contacts.len() && contacts[j].contact_id == id ==> i <= j,
{
    if first_with_id(contacts, id, j) {
        if j < i {
            assert(contacts[j].contact_id != id);
        }
        if i < j {
            assert(contacts[i].contact_id != id);
        }
    }
}

/// Members are listed by position, in rising order: among those that are there, oneself and
/// whoever is not shown as offline, and among those that are not, the rest.
pub proof fn members_are_listed_by_presence(
    members: Seq<MemberData>,
    me: Seq<u8>,
    messages: MessagesData,
    online: bool,
)
    requires
        members.len() <= usize::MAX,
    ensures
        ({
            let out = members_with(members, me, messages, online);
            &&& forall|i: int|
                0 <= i < out.len() ==> {
                    let m = members[(#[trigger] out[i]) as int];
                    &&& out[i] < members.len()
                    &&& online <==> m.pubkey == me || !(shown_presence(
                        messages,
                        contact_id(me, m.pubkey),
                    ) is Offline)
                }
            &&& forall|i: int, j: int|
                0 <= i < j < out.len() ==> #[trigger] out[i] < #[trigger] out[j]
            &&& forall|k: int|
                0 <= k < members.len() && (online <==> (#[trigger] members[k]).pubkey == me || !(
                shown_presence(messages, contact_id(me, members[k].pubkey)) is Offline))
                    ==> out.contains(k as usize)
        }),
    decreases members.len(),
{
    if members.len() > 0 {
        let n = members.len() - 1;
        let head = members.drop_last();
        members_are_listed_by_presence(head, me, messages, online);
        let before = members_with(head, me, messages, online);
        let out = members_with(members, me, messages, online);
        assert forall|i: int| 0 <= i < out.len() implies {
            let m = members[(#[trigger] out[i]) as int];
            &&& out[i] < members.len()
            &&& online <==> m.pubkey == me || !(shown_presence(
                messages,
                contact_id(me, m.pubkey),
            ) is Offline)
        } by {
            if i < before.len() {
                assert(out[i] == before[i]);
                assert(members[before[i] as int] == head[before[i] as int]);
            }
        }
        assert forall|k: int|
            0 <= k < members.len() && (online <==> (#[trigger] members[k]).pubkey == me || !(
            shown_presence(
                messages,
                contact_id(me, members[k].pubkey),
            ) is Offline)) implies out.contains(k as usize) by {
            if k < n {
                assert(head[k] == members[k]);
                assert(before.contains(k as usize));
                let i = before.index_of(k as usize);
                assert(out[i] == k as usize);
            } else {
                assert(out[out.len() - 1] == n as usize);
            }
        }
    }
}

/// Those in a call are named if they are contacts, each by the nickname of the first contact
/// with their identifier, in their order; strangers are left out. The answer holds the
/// position of each that is named.
pub proof fn contacts_in_a_call_are_named(ids: Seq<Seq<char>>, contacts: Seq<ContactData>) -> (src:
    Seq<int>)
    ensures
        picks(src, ids.len() as int),
        src.len() == nicknames_of(ids, contacts).len(),
        forall|i: int|
            0 <= i < src.len() ==> nickname_with_id(contacts, ids[#[trigger] src[i]]) == Some(
                nicknames_of(ids, contacts)[i],
            ),
        forall|k: int|
            0 <= k < ids.len() && nickname_with_id(contacts, #[trigger] ids[k]) is Some
                ==> src.contains(k),
    decreases ids.len(),
{
    if ids.len() == 0 {
        seq![]
    } else {
        let n = ids.len() - 1;
        let head = ids.drop_last();
        let src = contacts_in_a_call_are_named(head, contacts);
        assert forall|k: int| 0 <= k < n implies #[trigger] ids[k] == head[k] by {
        }
        if nickname_with_id(contacts, ids.last()) is Some {
            picks_one_more(src, n);
            src.push(n)
        } else {
            src
        }
    }
}

/// Those present are known by their own identifiers, in their order.
pub proof fn those_present_are_known(present: Seq<CallPresence>)
    ensures
        present_ids(present).len() == present.len(),
        forall|i: int|
            0 <= i < present.len() ==> #[trigger] present_ids(present)[i] == present[i].contact_id@,
{
}

/// What is seen in a channel is no longer unread, there and for its group; what is unread in
/// other channels and for other groups stays as it was and in its order. The answer holds the
/// positions of what stays.
pub proof fn seeing_clears_one_channel(
    u: GroupUnreadData,
    group_id: Seq<char>,
    channel_id: Seq<char>,
) -> (src: Seq<int>)
    ensures
        u.seen(group_id, channel_id).groups == u.groups.remove(group_id),
        picks(src, u.channels.len() as int),
        src.len() == u.seen(group_id, channel_id).channels.len(),
        forall|i: int|
            0 <= i < src.len() ==> {
                let c = u.channels[#[trigger] src[i]];
                &&& u.seen(group_id, channel_id).channels[i] == c
                &&& c.group_id != group_id || c.channel_id != channel_id
            },
        forall|k: int|
            0 <= k < u.channels.len() && ((#[trigger] u.channels[k]).group_id != group_id
                || u.channels[k].channel_id != channel_id) ==> src.contains(k),
{
    kept_in_order(u.channels, elsewhere(group_id, Some(channel_id)))
}

/// Nothing is unread any more in a group that was silenced; what is unread in other groups
/// stays as it was and in its order. The answer holds the positions of what stays.
pub proof fn silencing_clears_one_group(u: GroupUnreadData, group_id: Seq<char>) -> (src: Seq<int>)
    ensures
        u.silenced(group_id).groups == u.groups.remove(group_id),
        picks(src, u.channels.len() as int),
        src.len() == u.silenced(group_id).channels.len(),
        forall|i: int|
            0 <= i < src.len() ==> {
                let c = u.channels[#[trigger] src[i]];
                &&& u.silenced(group_id).channels[i] == c
                &&& c.group_id != group_id
            },
        forall|k: int|
            0 <= k < u.channels.len() && (#[trigger] u.channels[k]).group_id != group_id
                ==> src.contains(k),
{
    kept_in_order(u.channels, elsewhere(group_id, None))
}

/// An invitation or a call group that is there is viewed as what it holds, and one that is
/// absent as absent.
pub proof fn absent_groups_stay_absent(invite: GroupInvite, group: CallGroup)
    ensures
        maybe_invite(Some(invite)) == Some(invite@),
        maybe_invite(None) is None,
        maybe_group(Some(group)) == Some(group@),
        maybe_group(None) is None,
{
}

/// The key of a group can change unless its number is the last there is, and nothing stands
/// in the way of a group that is not here.
pub proof fn keys_change_until_the_last_number(g: GroupsData, group_id: Seq<char>, pos: int)
    requires
        0 <= pos <= g.groups.len(),
        forall|k: int| 0 <= k < pos ==> (#[trigger] g.groups[k]).group_id != group_id,
        pos < g.groups.len() ==> g.groups[pos].group_id == group_id,
    ensures
        pos == g.groups.len() ==> key_can_change(g, group_id),
        pos < g.groups.len() ==> (key_can_change(g, group_id) <==> g.groups[pos].key_version
            < u32::MAX),
{
    position_of_is(g.groups, group_id, pos);
}

} // verus!
