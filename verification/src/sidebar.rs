//! The channels of the shown group: how they are listed, selected and joined.

use vstd::prelude::*;

use crate::app::{AppData, HostelApp};
use crate::call::{and_then_do, asks, no_actions, CallsData, Media, MediaData};
use crate::channels::{
    channel_name, name_of, new_channel, text_channel_is_deletable, voice_channel_is_deletable,
    Channel, ChannelData,
};
use crate::effects::{Action, ActionData, Effect};
use crate::group::{
    find_contact, has_admin, is_admin, locked_mode, CallMode, CallPresence, Group, GroupData,
    GroupMember, MemberData,
};
use crate::groups::{
    call_in_progress, elsewhere, nickname_with_id, nickname_with_id_is, nicknames_in_call,
    nicknames_of, present_ids, ChannelUnread, ChannelUnreadData, GroupCall, GroupCallData,
    GroupUnreadData, GroupsData, NavData,
};
use crate::identity::{Contact, ContactData};
use crate::order::{kept_in_order, picks, picks_one_more};
use crate::text::{concat, copy, decimal, joined, same, trimmed, views};

verus! {

/// How a text channel is listed.
pub struct TextRow {
    pub channel_id: String,
    pub label: String,
    pub selected: bool,
    pub unread: u32,
    pub deletable: bool,
}

/// How a text channel is listed, as mathematical data.
#[verifier::ext_equal]
pub struct TextRowData {
    pub channel_id: Seq<char>,
    pub label: Seq<char>,
    pub selected: bool,
    pub unread: u32,
    pub deletable: bool,
}

impl View for TextRow {
    type V = TextRowData;

    open spec fn view(&self) -> TextRowData {
        TextRowData {
            channel_id: self.channel_id@,
            label: self.label@,
            selected: self.selected,
            unread: self.unread,
            deletable: self.deletable,
        }
    }
}

/// The number of unread messages of a channel.
pub open spec fn unread_in(
    list: Seq<ChannelUnreadData>,
    group_id: Seq<char>,
    channel_id: Seq<char>,
) -> u32
    decreases list.len(),
{
    if list.len() == 0 {
        0
    } else if list[0].group_id == group_id && list[0].channel_id == channel_id {
        list[0].count
    } else {
        unread_in(list.drop_first(), group_id, channel_id)
    }
}

fn count_unread(list: &Vec<ChannelUnread>, group_id: &str, channel_id: &str) -> (r: u32)
    ensures
        r == unread_in(views(list@), group_id@, channel_id@),
{
    let ghost all = views(list@);
    let mut i: usize = 0;
    assert(all.skip(0) =~= all);
    while i < list.len()
        invariant
            i <= list@.len(),
            all == views(list@),
            unread_in(all, group_id@, channel_id@) == unread_in(
                all.skip(i as int),
                group_id@,
                channel_id@,
            ),
        decreases list@.len() - i,
    {
        let u = &list[i];
        assert(all.skip(i as int)[0] == u@);
        assert(all.skip(i as int).drop_first() =~= all.skip(i + 1));
        if same(u.group_id.as_str(), group_id) && same(u.channel_id.as_str(), channel_id) {
            return u.count;
        }
        i = i + 1;
    }
    0
}

/// What is read is no longer unread.
pub proof fn seen_channels_have_no_unread(
    list: Seq<ChannelUnreadData>,
    group_id: Seq<char>,
    channel_id: Seq<char>,
)
    ensures
        unread_in(
            list.filter(elsewhere(group_id, Some(channel_id))),
            group_id,
            channel_id,
        ) == 0,
{
    let p = elsewhere(group_id, Some(channel_id));
    let kept = list.filter(p);
    assert forall|k: int| 0 <= k < kept.len() implies !((#[trigger] kept[k]).group_id == group_id
        && kept[k].channel_id == channel_id) by {
        list.lemma_filter_pred(p, k);
        assert(p(kept[k]));
    }
    none_unread(kept, group_id, channel_id);
}

proof fn none_unread(list: Seq<ChannelUnreadData>, group_id: Seq<char>, channel_id: Seq<char>)
    requires
        forall|k: int|
            0 <= k < list.len() ==> !((#[trigger] list[k]).group_id == group_id
                && list[k].channel_id == channel_id),
    ensures
        unread_in(list, group_id, channel_id) == 0,
    decreases list.len(),
{
    if list.len() > 0 {
        let t = list.drop_first();
        assert forall|k: int| 0 <= k < t.len() implies !((#[trigger] t[k]).group_id == group_id
            && t[k].channel_id == channel_id) by {
            assert(t[k] == list[k + 1]);
        }
        assert(!(list[0].group_id == group_id && list[0].channel_id == channel_id));
        none_unread(t, group_id, channel_id);
    }
}

/// How the text channels of a group are listed: those that are not deleted, in order.
pub open spec fn text_rows(
    g: GroupData,
    selected: Seq<char>,
    admin: bool,
    unread: Seq<ChannelUnreadData>,
    n: int,
) -> Seq<TextRowData>
    decreases n,
{
    if n <= 0 {
        seq![]
    } else {
        let c = g.text_channels[n - 1];
        let done = text_rows(g, selected, admin, unread, n - 1);
        if c.deleted {
            done
        } else {
            done.push(
                TextRowData {
                    channel_id: c.channel_id,
                    label: "# "@ + c.name,
                    selected: selected == c.channel_id,
                    unread: unread_in(unread, g.group_id, c.channel_id),
                    deletable: admin && c.channel_id != "general"@ && c.channel_id
                        != "fallback"@,
                },
            )
        }
    }
}

fn list_text(group: &Group, selected: &str, admin: bool, unread: &Vec<ChannelUnread>) -> (r: Vec<
    TextRow,
>)
    ensures
        views(r@) == text_rows(
            group@,
            selected@,
            admin,
            views(unread@),
            group@.text_channels.len() as int,
        ),
{
    let mut out: Vec<TextRow> = Vec::new();
    let mut i: usize = 0;
    assert(views(out@) =~= seq![]);
    while i < group.text_channels.len()
        invariant
            i <= group.text_channels@.len(),
            views(out@) == text_rows(group@, selected@, admin, views(unread@), i as int),
        decreases group.text_channels@.len() - i,
    {
        let ghost before = out@;
        let c = &group.text_channels[i];
        assert(group@.text_channels[i as int] == c@);
        if !c.deleted {
            let id = c.channel_id.as_str();
            out.push(
                TextRow {
                    channel_id: copy(id),
                    label: concat("# ", c.name.as_str()),
                    selected: same(selected, id),
                    unread: count_unread(unread, group.group_id.as_str(), id),
                    deletable: admin && text_channel_is_deletable(id),
                },
            );
            assert(views(out@) =~= views(before).push(out@.last()@));
        }
        i = i + 1;
    }
    out
}

/// The standing channels of a group cannot be deleted from the list, and nothing can by one
/// who is no administrator.
pub proof fn standing_channels_are_kept(
    g: GroupData,
    selected: Seq<char>,
    admin: bool,
    unread: Seq<ChannelUnreadData>,
    n: int,
    i: int,
)
    requires
        n <= g.text_channels.len(),
        0 <= i < text_rows(g, selected, admin, unread, n).len(),
    ensures
        ({
            let row = text_rows(g, selected, admin, unread, n)[i];
            row.deletable ==> admin && row.channel_id != "general"@ && row.channel_id
                != "fallback"@
        }),
    decreases n,
{
    if n > 0 {
        let done = text_rows(g, selected, admin, unread, n - 1);
        if i < done.len() {
            standing_channels_are_kept(g, selected, admin, unread, n - 1, i);
        }
    }
}

/// Those in the call of one voice channel, as they signal it.
pub struct ChannelPresence {
    pub channel_id: String,
    pub present: Vec<CallPresence>,
}

/// Those in the call of one voice channel, as mathematical data.
#[verifier::ext_equal]
pub struct ChannelPresenceData {
    pub channel_id: Seq<char>,
    pub present: Seq<Seq<char>>,
}

impl View for ChannelPresence {
    type V = ChannelPresenceData;

    open spec fn view(&self) -> ChannelPresenceData {
        ChannelPresenceData {
            channel_id: self.channel_id@,
            present: present_ids(self.present@),
        }
    }
}

/// The identifiers of those who signal that they are in a channel.
pub open spec fn present_in(list: Seq<ChannelPresenceData>, id: Seq<char>) -> Seq<Seq<char>>
    decreases list.len(),
{
    if list.len() == 0 {
        seq![]
    } else if list[0].channel_id == id {
        list[0].present
    } else {
        present_in(list.drop_first(), id)
    }
}

/// How those present are named: a stranger is a question mark.
pub open spec fn present_names(ids: Seq<Seq<char>>, contacts: Seq<ContactData>) -> Seq<Seq<char>> {
    Seq::new(
        ids.len(),
        |i: int|
            match nickname_with_id(contacts, ids[i]) {
                Some(n) => n,
                None => "?"@,
            },
    )
}

fn name_present(present: &Vec<CallPresence>, contacts: &Vec<Contact>) -> (r: Vec<String>)
    ensures
        views(r@) == present_names(present_ids(present@), views(contacts@)),
{
    let ghost ids = present_ids(present@);
    let ghost cs = views(contacts@);
    let ghost names = present_names(ids, cs);
    let mut out: Vec<String> = Vec::new();
    let mut i: usize = 0;
    assert(views(out@) =~= names.take(0));
    while i < present.len()
        invariant
            i <= present@.len(),
            ids == present_ids(present@),
            cs == views(contacts@),
            names == present_names(ids, cs),
            views(out@) == names.take(i as int),
        decreases present@.len() - i,
    {
        let ghost before = out@;
        let at: usize = find_contact(contacts, present[i].contact_id.as_str());
        proof {
            nickname_with_id_is(cs, ids[i as int], at as int);
        }
        let name = if at < contacts.len() {
            copy(contacts[at].nickname.as_str())
        } else {
            copy("?")
        };
        out.push(name);
        proof {
            assert(views(out@) =~= views(before).push(out@.last()@));
            assert(names.take(i + 1) =~= names.take(i as int).push(names[i as int]));
        }
        i = i + 1;
    }
    assert(names.take(i as int) =~= names);
    out
}

fn names_in_channel(list: &Vec<ChannelPresence>, id: &str, contacts: &Vec<Contact>) -> (r: Vec<
    String,
>)
    ensures
        views(r@) == present_names(present_in(views(list@), id@), views(contacts@)),
{
    let ghost all = views(list@);
    let mut i: usize = 0;
    assert(all.skip(0) =~= all);
    while i < list.len()
        invariant
            i <= list@.len(),
            all == views(list@),
            present_in(all, id@) == present_in(all.skip(i as int), id@),
        decreases list@.len() - i,
    {
        assert(all.skip(i as int)[0] == list@[i as int]@);
        assert(all.skip(i as int).drop_first() =~= all.skip(i + 1));
        if same(list[i].channel_id.as_str(), id) {
            return name_present(&list[i].present, contacts);
        }
        i = i + 1;
    }
    let out: Vec<String> = Vec::new();
    assert(views(out@) =~= present_names(seq![], views(contacts@)));
    out
}

/// The nicknames of members.
pub open spec fn member_names(members: Seq<MemberData>) -> Seq<Seq<char>> {
    Seq::new(members.len(), |i: int| members[i].nickname)
}

fn name_members(members: &Vec<GroupMember>) -> (r: Vec<String>)
    ensures
        views(r@) == member_names(views(members@)),
{
    let ghost names = member_names(views(members@));
    let mut out: Vec<String> = Vec::new();
    let mut i: usize = 0;
    assert(views(out@) =~= names.take(0));
    while i < members.len()
        invariant
            i <= members@.len(),
            names == member_names(views(members@)),
            views(out@) == names.take(i as int),
        decreases members@.len() - i,
    {
        let ghost before = out@;
        out.push(copy(members[i].nickname.as_str()));
        proof {
            assert(views(out@) =~= views(before).push(out@.last()@));
            assert(names.take(i + 1) =~= names.take(i as int).push(names[i as int]));
        }
        i = i + 1;
    }
    assert(names.take(i as int) =~= names);
    out
}

/// How a voice channel is listed, with those in its call.
pub struct VoiceRow {
    pub channel_id: String,
    pub label: String,
    pub selected: bool,
    pub active: bool,
    pub names: Vec<String>,
    pub deletable: bool,
}

/// How a voice channel is listed, as mathematical data.
#[verifier::ext_equal]
pub struct VoiceRowData {
    pub channel_id: Seq<char>,
    pub label: Seq<char>,
    pub selected: bool,
    pub active: bool,
    pub names: Seq<Seq<char>>,
    pub deletable: bool,
}

impl View for VoiceRow {
    type V = VoiceRowData;

    open spec fn view(&self) -> VoiceRowData {
        VoiceRowData {
            channel_id: self.channel_id@,
            label: self.label@,
            selected: self.selected,
            active: self.active,
            names: views(self.names@),
            deletable: self.deletable,
        }
    }
}

/// How the voice channels of a group are listed: those that are not deleted, in order. In
/// the channel of one's own call the members of the call are named, in another one those who
/// signal that they are there.
pub open spec fn voice_rows(
    channels: Seq<ChannelData>,
    selected: Seq<char>,
    admin: bool,
    call: GroupCallData,
    presence: Seq<ChannelPresenceData>,
    contacts: Seq<ContactData>,
    n: int,
) -> Seq<VoiceRowData>
    decreases n,
{
    if n <= 0 {
        seq![]
    } else {
        let c = channels[n - 1];
        let done = voice_rows(channels, selected, admin, call, presence, contacts, n - 1);
        let active = call.channel == Some(c.channel_id);
        if c.deleted {
            done
        } else {
            done.push(
                VoiceRowData {
                    channel_id: c.channel_id,
                    label: "\u{00BB} "@ + c.name,
                    selected: selected == c.channel_id,
                    active,
                    names: if active {
                        member_names(call.members)
                    } else {
                        present_names(present_in(presence, c.channel_id), contacts)
                    },
                    deletable: admin && c.channel_id != "voice_general"@,
                },
            )
        }
    }
}

/// The standing voice channel of a group cannot be deleted from the list, and nothing can by
/// one who is no administrator.
pub proof fn standing_voice_channel_is_kept(
    channels: Seq<ChannelData>,
    selected: Seq<char>,
    admin: bool,
    call: GroupCallData,
    presence: Seq<ChannelPresenceData>,
    contacts: Seq<ContactData>,
    n: int,
    i: int,
)
    requires
        n <= channels.len(),
        0 <= i < voice_rows(channels, selected, admin, call, presence, contacts, n).len(),
    ensures
        ({
            let row = voice_rows(channels, selected, admin, call, presence, contacts, n)[i];
            row.deletable ==> admin && row.channel_id != "voice_general"@
        }),
    decreases n,
{
    if n > 0 {
        let done = voice_rows(channels, selected, admin, call, presence, contacts, n - 1);
        if i < done.len() {
            standing_voice_channel_is_kept(
                channels,
                selected,
                admin,
                call,
                presence,
                contacts,
                n - 1,
                i,
            );
        }
    }
}

/// The channels of the shown group as they are listed.
pub struct Sidebar {
    pub is_admin: bool,
    pub text: Vec<TextRow>,
    pub voice: Vec<VoiceRow>,
}

/// The group call after the button to share the screen: a shared screen no longer is; else a
/// shared camera no longer is, as the screen is about to be.
pub open spec fn screen_button(c: GroupCallData) -> GroupCallData {
    if c.screen_sharing {
        GroupCallData { screen_sharing: false, ..c }
    } else {
        GroupCallData { webcam_sharing: false, ..c }
    }
}

/// The group call after the button to share the camera.
pub open spec fn webcam_button(c: GroupCallData) -> GroupCallData {
    if c.webcam_sharing {
        GroupCallData { webcam_sharing: false, ..c }
    } else {
        GroupCallData { screen_sharing: false, ..c }
    }
}

/// Whatever is shared stops being shared.
pub open spec fn stop_asks(c: GroupCallData) -> Seq<ActionData> {
    if c.screen_sharing || c.webcam_sharing {
        seq![Effect::StopSharing]
    } else {
        seq![]
    }
}

/// The question what to share of the screen, with the devices to choose from.
pub open spec fn asking_for_screen(
    m: MediaData,
    loopback_devices: Seq<Seq<char>>,
    display_names: Seq<Seq<char>>,
) -> MediaData {
    MediaData {
        loopback_devices: if m.loopback_devices.len() == 0 {
            loopback_devices
        } else {
            m.loopback_devices
        },
        display_names,
        show_screen_popup: true,
        ..m
    }
}

impl GroupCall {
    fn press_screen(&mut self) -> (r: Vec<Action>)
        ensures
            final(self)@ == screen_button(old(self)@),
            asks(r@, stop_asks(old(self)@)),
    {
        let mut todo = no_actions();
        if self.screen_sharing || self.webcam_sharing {
            and_then_do(&mut todo, Effect::StopSharing);
        }
        if self.screen_sharing {
            self.screen_sharing = false;
        } else {
            self.webcam_sharing = false;
        }
        todo
    }

    fn press_webcam(&mut self) -> (r: Vec<Action>)
        ensures
            final(self)@ == webcam_button(old(self)@),
            asks(r@, stop_asks(old(self)@)),
    {
        let mut todo = no_actions();
        if self.screen_sharing || self.webcam_sharing {
            and_then_do(&mut todo, Effect::StopSharing);
        }
        if self.webcam_sharing {
            self.webcam_sharing = false;
        } else {
            self.screen_sharing = false;
        }
        todo
    }
}

impl Media {
    fn ask_for_screen(&mut self, loopback_devices: Vec<String>, display_names: Vec<String>)
        ensures
            final(self)@ == asking_for_screen(
                old(self)@,
                views(loopback_devices@),
                views(display_names@),
            ),
    {
        if self.loopback_devices.len() == 0 {
            self.loopback_devices = loopback_devices;
        }
        self.display_names = display_names;
        self.show_screen_popup = true;
    }

    fn ask_for_webcam(&mut self, camera_names: Vec<String>)
        ensures
            final(self)@ == (MediaData {
                camera_names: views(camera_names@),
                show_webcam_popup: true,
                ..old(self)@
            }),
    {
        self.camera_names = camera_names;
        self.show_webcam_popup = true;
    }
}

impl HostelApp {
    fn list_voice(
        &self,
        channels: &Vec<Channel>,
        admin: bool,
        presence: &Vec<ChannelPresence>,
    ) -> (r: Vec<VoiceRow>)
        ensures
            views(r@) == voice_rows(
                views(channels@),
                self@.groups.nav.channel,
                admin,
                self@.groups.call,
                views(presence@),
                self@.contacts,
                channels@.len() as int,
            ),
    {
        let ghost cs = views(channels@);
        let mut out: Vec<VoiceRow> = Vec::new();
        let mut i: usize = 0;
        assert(views(out@) =~= seq![]);
        while i < channels.len()
            invariant
                i <= channels@.len(),
                cs == views(channels@),
                views(out@) == voice_rows(
                    cs,
                    self@.groups.nav.channel,
                    admin,
                    self@.groups.call,
                    views(presence@),
                    self@.contacts,
                    i as int,
                ),
            decreases channels@.len() - i,
        {
            let ghost before = out@;
            let c = &channels[i];
            assert(cs[i as int] == c@);
            if !c.deleted {
                let id = c.channel_id.as_str();
                let active = match &self.groups.call.channel {
                    Some(own) => same(own.as_str(), id),
                    None => false,
                };
                let names = if active {
                    name_members(&self.groups.call.members)
                } else {
                    names_in_channel(presence, id, &self.contacts)
                };
                out.push(
                    VoiceRow {
                        channel_id: copy(id),
                        label: concat("\u{00BB} ", c.name.as_str()),
                        selected: same(self.groups.nav.channel.as_str(), id),
                        active,
                        names,
                        deletable: admin && voice_channel_is_deletable(id),
                    },
                );
                assert(views(out@) =~= views(before).push(out@.last()@));
            }
            i = i + 1;
        }
        out
    }

    /// The channels of the shown group. `presence` holds who signals to be in the calls of
    /// that group.
    pub fn channels_sidebar(&self, presence: &Vec<ChannelPresence>) -> (r: Sidebar)
        ensures
            match self@.groups.shown() {
                Some(i) => {
                    let g = self@.groups.groups[i as int];
                    &&& r.is_admin == is_admin(g.members, self@.identity.pubkey)
                    &&& views(r.text@) == text_rows(
                        g,
                        self@.groups.nav.channel,
                        r.is_admin,
                        self@.group_unread.channels,
                        g.text_channels.len() as int,
                    )
                    &&& views(r.voice@) == voice_rows(
                        g.voice_channels,
                        self@.groups.nav.channel,
                        r.is_admin,
                        self@.groups.call,
                        views(presence@),
                        self@.contacts,
                        g.voice_channels.len() as int,
                    )
                },
                None => !r.is_admin && r.text@.len() == 0 && r.voice@.len() == 0,
            },
    {
        match self.groups.nav.detail {
            Some(i) => {
                if i < self.groups.groups.len() {
                    let g = &self.groups.groups[i];
                    let admin = has_admin(&g.members, &self.identity.pubkey);
                    return Sidebar {
                        is_admin: admin,
                        text: list_text(
                            g,
                            self.groups.nav.channel.as_str(),
                            admin,
                            &self.group_unread.channels,
                        ),
                        voice: self.list_voice(&g.voice_channels, admin, presence),
                    };
                }
            },
            None => {},
        }
        Sidebar { is_admin: false, text: Vec::new(), voice: Vec::new() }
    }

    /// Shows a text channel of the shown group, which is then read.
    pub fn select_text_channel(&mut self, id: &str)
        ensures
            final(self)@ == (AppData {
                groups: GroupsData {
                    nav: NavData { channel: id@, ..old(self)@.groups.nav },
                    ..old(self)@.groups
                },
                group_unread: match old(self)@.groups.shown() {
                    Some(i) => GroupUnreadData {
                        channels: old(self)@.group_unread.channels.filter(
                            elsewhere(old(self)@.groups.groups[i as int].group_id, Some(id@)),
                        ),
                        ..old(self)@.group_unread
                    },
                    None => old(self)@.group_unread,
                },
                ..old(self)@
            }),
    {
        self.groups.nav.channel = copy(id);
        match self.groups.nav.detail {
            Some(i) => {
                if i < self.groups.groups.len() {
                    self.group_unread.see_channel(self.groups.groups[i].group_id.as_str(), id);
                }
            },
            None => {},
        }
    }

    /// Shows a voice channel of the shown group.
    pub fn select_voice_channel(&mut self, id: &str)
        ensures
            final(self)@ == (AppData {
                groups: GroupsData {
                    nav: NavData { channel: id@, ..old(self)@.groups.nav },
                    ..old(self)@.groups
                },
                ..old(self)@
            }),
    {
        self.groups.nav.channel = copy(id);
    }

    /// Opens the form to create a text channel, or closes it, for an administrator of the
    /// shown group.
    pub fn toggle_text_form(&mut self)
        ensures
            final(self)@ == (if old(self)@.groups.administered(old(self)@.identity.pubkey) {
                AppData {
                    groups: GroupsData {
                        nav: NavData {
                            channel_creating: !old(self)@.groups.nav.channel_creating,
                            channel_name: seq![],
                            ..old(self)@.groups.nav
                        },
                        ..old(self)@.groups
                    },
                    ..old(self)@
                }
            } else {
                old(self)@
            }),
    {
        if self.groups.administers(&self.identity.pubkey) {
            self.groups.nav.channel_creating = !self.groups.nav.channel_creating;
            self.groups.nav.channel_name = String::new();
        }
    }

    /// Opens the form to create a voice channel, or closes it, for an administrator of the
    /// shown group.
    pub fn toggle_voice_form(&mut self)
        ensures
            final(self)@ == (if old(self)@.groups.administered(old(self)@.identity.pubkey) {
                AppData {
                    groups: GroupsData {
                        nav: NavData {
                            voice_creating: !old(self)@.groups.nav.voice_creating,
                            voice_name: seq![],
                            ..old(self)@.groups.nav
                        },
                        ..old(self)@.groups
                    },
                    ..old(self)@
                }
            } else {
                old(self)@
            }),
    {
        if self.groups.administers(&self.identity.pubkey) {
            self.groups.nav.voice_creating = !self.groups.nav.voice_creating;
            self.groups.nav.voice_name = String::new();
        }
    }

    /// An administrator of the shown group adds a voice channel to it, named as typed, unless
    /// nothing was typed. The group is saved and sent out. Nobody else changes anything.
    pub fn create_voice_channel(&mut self, id: String, now: u64) -> (r: Vec<Action>)
        ensures
            match old(self)@.groups.shown() {
                Some(i) if old(self)@.groups.administered(old(self)@.identity.pubkey) && trimmed(
                    old(self)@.groups.nav.voice_name,
                ).len() > 0 => {
                    let g = old(self)@.groups.groups[i as int];
                    let c = ChannelData {
                        channel_id: id@,
                        name: channel_name(old(self)@.groups.nav.voice_name),
                        created_at: now,
                        created_by: old(self)@.identity.pubkey,
                        deleted: false,
                        deleted_at: None,
                    };
                    &&& final(self)@ == (AppData {
                        groups: GroupsData {
                            groups: old(self)@.groups.groups.update(
                                i as int,
                                GroupData { voice_channels: g.voice_channels.push(c), ..g },
                            ),
                            nav: NavData {
                                voice_creating: false,
                                voice_name: seq![],
                                ..old(self)@.groups.nav
                            },
                            ..old(self)@.groups
                        },
                        ..old(self)@
                    })
                    &&& asks(
                        r@,
                        seq![
                            Effect::SaveGroup { group_id: g.group_id },
                            Effect::BroadcastGroup { group_id: g.group_id },
                        ],
                    )
                },
                _ => final(self)@ == old(self)@ && r@.len() == 0,
            },
    {
        let mut todo = no_actions();
        if !self.groups.administers(&self.identity.pubkey) {
            return todo;
        }
        let typed = self.groups.nav.voice_name.as_str();
        let made = new_channel(typed, id, self.identity.pubkey, now);
        match (made, self.groups.nav.detail) {
            (Some(channel), Some(i)) => {
                if i < self.groups.groups.len() {
                    let ghost before = views(self.groups.groups@);
                    let ghost cd = channel@;
                    let mut group = self.groups.groups.remove(i);
                    let ghost list = group.voice_channels@;
                    group.voice_channels.push(channel);
                    let group_id = copy(group.group_id.as_str());
                    let ghost after = group@;
                    self.groups.groups.insert(i, group);
                    proof {
                        assert(after.voice_channels =~= views(list).push(cd));
                        assert(views(self.groups.groups@) =~= before.update(i as int, after));
                    }
                    self.groups.nav.voice_creating = false;
                    self.groups.nav.voice_name = String::new();
                    and_then_do(&mut todo, Effect::SaveGroup { group_id: copy(group_id.as_str()) });
                    and_then_do(&mut todo, Effect::BroadcastGroup { group_id });
                }
            },
            _ => {},
        }
        todo
    }

    /// Chooses how the calls of the shown group are carried. The group is saved and sent
    /// out. While someone is in the call of the shown channel, the mode is locked, and nothing
    /// changes.
    pub fn choose_call_mode(&mut self, mode: CallMode, present: &Vec<CallPresence>) -> (r: Vec<
        Action,
    >)
        ensures
            match old(self)@.groups.shown() {
                Some(i) if present@.len() == 0 => {
                    let g = old(self)@.groups.groups[i as int];
                    &&& final(self)@ == (AppData {
                        groups: GroupsData {
                            groups: old(self)@.groups.groups.update(
                                i as int,
                                GroupData { call_mode: mode, ..g },
                            ),
                            ..old(self)@.groups
                        },
                        ..old(self)@
                    })
                    &&& asks(
                        r@,
                        seq![
                            Effect::SaveGroup { group_id: g.group_id },
                            Effect::BroadcastGroup { group_id: g.group_id },
                        ],
                    )
                },
                _ => final(self)@ == old(self)@ && r@.len() == 0,
            },
    {
        let mut todo = no_actions();
        match self.groups.nav.detail {
            Some(i) => {
                if i < self.groups.groups.len() && present.len() == 0 {
                    let ghost before = views(self.groups.groups@);
                    let mut group = self.groups.groups.remove(i);
                    group.call_mode = mode;
                    let group_id = copy(group.group_id.as_str());
                    let ghost after = group@;
                    self.groups.groups.insert(i, group);
                    assert(views(self.groups.groups@) =~= before.update(i as int, after));
                    and_then_do(&mut todo, Effect::SaveGroup { group_id: copy(group_id.as_str()) });
                    and_then_do(&mut todo, Effect::BroadcastGroup { group_id });
                }
            },
            None => {},
        }
        todo
    }

    /// Switches the microphone of the group call on or off.
    pub fn toggle_group_mic(&mut self)
        ensures
            final(self)@ == (AppData {
                groups: GroupsData {
                    call: GroupCallData {
                        mic: !old(self)@.groups.call.mic,
                        ..old(self)@.groups.call
                    },
                    ..old(self)@.groups
                },
                ..old(self)@
            }),
    {
        self.groups.call.mic = !self.groups.call.mic;
    }

    /// Presses the button to share the screen in the group call. The audio devices are taken
    /// over unless some are known.
    pub fn press_group_screen(
        &mut self,
        loopback_devices: Vec<String>,
        display_names: Vec<String>,
    ) -> (r: Vec<Action>)
        ensures
            final(self)@ == (AppData {
                groups: GroupsData {
                    call: screen_button(old(self)@.groups.call),
                    ..old(self)@.groups
                },
                calls: if old(self)@.groups.call.screen_sharing {
                    old(self)@.calls
                } else {
                    CallsData {
                        media: asking_for_screen(
                            old(self)@.calls.media,
                            views(loopback_devices@),
                            views(display_names@),
                        ),
                        ..old(self)@.calls
                    }
                },
                ..old(self)@
            }),
            asks(r@, stop_asks(old(self)@.groups.call)),
    {
        let was = self.groups.call.screen_sharing;
        let todo = self.groups.call.press_screen();
        if !was {
            self.calls.media.ask_for_screen(loopback_devices, display_names);
        }
        todo
    }

    /// Presses the button to share the camera in the group call.
    pub fn press_group_webcam(&mut self, camera_names: Vec<String>) -> (r: Vec<Action>)
        ensures
            final(self)@ == (AppData {
                groups: GroupsData {
                    call: webcam_button(old(self)@.groups.call),
                    ..old(self)@.groups
                },
                calls: if old(self)@.groups.call.webcam_sharing {
                    old(self)@.calls
                } else {
                    CallsData {
                        media: MediaData {
                            camera_names: views(camera_names@),
                            show_webcam_popup: true,
                            ..old(self)@.calls.media
                        },
                        ..old(self)@.calls
                    }
                },
                ..old(self)@
            }),
            asks(r@, stop_asks(old(self)@.groups.call)),
    {
        let was = self.groups.call.webcam_sharing;
        let todo = self.groups.call.press_webcam();
        if !was {
            self.calls.media.ask_for_webcam(camera_names);
        }
        todo
    }
}

/// What is shown of a voice channel before joining it.
pub struct VoiceIdle {
    pub title: String,
    pub status: String,
    pub names: String,
    pub locked: Option<CallMode>,
    pub button: String,
}

/// What is shown of a voice channel of a group before joining it. The mode of a call in
/// progress is that of the first in it, and cannot be chosen.
pub fn voice_idle(
    group: &Group,
    channel: &str,
    present: &Vec<CallPresence>,
    contacts: &Vec<Contact>,
) -> (r: VoiceIdle)
    ensures
        r.title@ == "\u{00BB} "@ + name_of(group@.voice_channels, channel@, "Voice"@),
        r.status@ == (if present@.len() == 0 {
            "No active call — you will start a new session"@
        } else {
            "A call is in progress ("@ + decimal(present@.len()) + " member"@ + (if present@.len()
                == 1 {
                seq![]
            } else {
                "s"@
            }) + ")"@
        }),
        r.names@ == joined(nicknames_of(present_ids(present@), views(contacts@)), ", "@),
        r.locked == (if present@.len() == 0 {
            None
        } else {
            Some(locked_mode(Some(present@[0].mode)))
        }),
        r.button@ == (if present@.len() == 0 {
            "Start Voice Channel"@
        } else {
            "Join Call"@
        }),
{
    let name = crate::channels::name_or(&group.voice_channels, channel, "Voice");
    let title = concat("\u{00BB} ", name.as_str());
    let names = nicknames_in_call(present, contacts);
    if present.len() == 0 {
        VoiceIdle {
            title,
            status: copy("No active call — you will start a new session"),
            names,
            locked: None,
            button: copy("Start Voice Channel"),
        }
    } else {
        let mode = if present[0].mode == 1 {
            CallMode::P2P
        } else {
            CallMode::Relay
        };
        VoiceIdle {
            title,
            status: call_in_progress(present.len()),
            names,
            locked: Some(mode),
            button: copy("Join Call"),
        }
    }
}

/// What is unread in a channel is what the first entry about it counts, and nothing where no
/// entry is about it.
pub proof fn unread_in_is(
    list: Seq<ChannelUnreadData>,
    group_id: Seq<char>,
    channel_id: Seq<char>,
    i: int,
)
    requires
        0 <= i <= list.len(),
        forall|k: int|
            0 <= k < i ==> !((#[trigger] list[k]).group_id == group_id && list[k].channel_id
                == channel_id),
        i < list.len() ==> list[i].group_id == group_id && list[i].channel_id == channel_id,
    ensures
        i == list.len() ==> unread_in(list, group_id, channel_id) == 0,
        i < list.len() ==> unread_in(list, group_id, channel_id) == list[i].count,
    decreases list.len(),
{
    if i > 0 {
        let t = list.drop_first();
        assert(!(list[0].group_id == group_id && list[0].channel_id == channel_id));
        assert forall|k: int| 0 <= k < i - 1 implies !((#[trigger] t[k]).group_id == group_id
            && t[k].channel_id == channel_id) by {
            assert(t[k] == list[k + 1]);
        }
        unread_in_is(t, group_id, channel_id, i - 1);
    }
}

/// Those who signal that they are in a channel are those of the first entry about it.
pub proof fn present_in_is(list: Seq<ChannelPresenceData>, id: Seq<char>, i: int)
    requires
        0 <= i <= list.len(),
        forall|k: int| 0 <= k < i ==> (#[trigger] list[k]).channel_id != id,
        i < list.len() ==> list[i].channel_id == id,
    ensures
        i == list.len() ==> present_in(list, id).len() == 0,
        i < list.len() ==> present_in(list, id) == list[i].present,
    decreases list.len(),
{
    if i > 0 {
        let t = list.drop_first();
        assert(list[0].channel_id != id);
        assert forall|k: int| 0 <= k < i - 1 implies (#[trigger] t[k]).channel_id != id by {
            assert(t[k] == list[k + 1]);
        }
        present_in_is(t, id, i - 1);
    }
}

/// Each of those present is named, in their order: a contact by its nickname, a stranger by a
/// question mark; and members each by their own nickname.
pub proof fn everyone_present_is_named(
    ids: Seq<Seq<char>>,
    contacts: Seq<ContactData>,
    members: Seq<MemberData>,
)
    ensures
        present_names(ids, contacts).len() == ids.len(),
        forall|i: int|
            0 <= i < ids.len() ==> match nickname_with_id(contacts, ids[i]) {
                Some(n) => #[trigger] present_names(ids, contacts)[i] == n,
                None => present_names(ids, contacts)[i] == "?"@,
            },
        member_names(members).len() == members.len(),
        forall|i: int|
            0 <= i < members.len() ==> #[trigger] member_names(members)[i] == members[i].nickname,
{
}

/// The text channels listed are those that are not deleted, each once and in their order,
/// under their own identifier and name, with what is unread there; the one selected is marked.
/// Those that are not standing can be deleted by an administrator. The answer holds the
/// position of each channel listed.
pub proof fn text_channels_are_listed(
    g: GroupData,
    selected: Seq<char>,
    admin: bool,
    unread: Seq<ChannelUnreadData>,
    n: int,
) -> (src: Seq<int>)
    requires
        0 <= n <= g.text_channels.len(),
    ensures
        picks(src, n),
        src.len() == text_rows(g, selected, admin, unread, n).len(),
        forall|i: int|
            0 <= i < src.len() ==> {
                let c = g.text_channels[#[trigger] src[i]];
                let row = text_rows(g, selected, admin, unread, n)[i];
                &&& !c.deleted
                &&& row.channel_id == c.channel_id
                &&& row.label == "# "@ + c.name
                &&& row.selected <==> c.channel_id == selected
                &&& row.unread == unread_in(unread, g.group_id, c.channel_id)
                &&& row.deletable <==> admin && c.channel_id != "general"@ && c.channel_id
                    != "fallback"@
            },
        forall|k: int|
            0 <= k < n && !(#[trigger] g.text_channels[k]).deleted ==> src.contains(k),
    decreases n,
{
    if n <= 0 {
        seq![]
    } else {
        let src = text_channels_are_listed(g, selected, admin, unread, n - 1);
        if !g.text_channels[n - 1].deleted {
            picks_one_more(src, n - 1);
            src.push(n - 1)
        } else {
            src
        }
    }
}

/// The voice channels listed are those that are not deleted, each once and in their order,
/// under their own identifier and name; the one selected is marked, and the one of the call.
/// There the members of the call are named, elsewhere those who signal that they are there.
/// The answer holds the position of each channel listed.
pub proof fn voice_channels_are_listed(
    channels: Seq<ChannelData>,
    selected: Seq<char>,
    admin: bool,
    call: GroupCallData,
    presence: Seq<ChannelPresenceData>,
    contacts: Seq<ContactData>,
    n: int,
) -> (src: Seq<int>)
    requires
        0 <= n <= channels.len(),
    ensures
        picks(src, n),
        src.len() == voice_rows(channels, selected, admin, call, presence, contacts, n).len(),
        forall|i: int|
            0 <= i < src.len() ==> {
                let c = channels[#[trigger] src[i]];
                let row = voice_rows(channels, selected, admin, call, presence, contacts, n)[i];
                &&& !c.deleted
                &&& row.channel_id == c.channel_id
                &&& row.label == "\u{00BB} "@ + c.name
                &&& row.selected <==> c.channel_id == selected
                &&& row.active <==> call.channel == Some(c.channel_id)
                &&& row.active ==> row.names == member_names(call.members)
                &&& !row.active ==> row.names == present_names(
                    present_in(presence, c.channel_id),
                    contacts,
                )
                &&& row.deletable <==> admin && c.channel_id != "voice_general"@
            },
        forall|k: int| 0 <= k < n && !(#[trigger] channels[k]).deleted ==> src.contains(k),
    decreases n,
{
    if n <= 0 {
        seq![]
    } else {
        let src = voice_channels_are_listed(
            channels,
            selected,
            admin,
            call,
            presence,
            contacts,
            n - 1,
        );
        if !channels[n - 1].deleted {
            picks_one_more(src, n - 1);
            src.push(n - 1)
        } else {
            src
        }
    }
}

/// What is seen in a channel leaves what is unread in every other channel as it was.
pub proof fn seeing_leaves_other_channels(
    list: Seq<ChannelUnreadData>,
    group_id: Seq<char>,
    channel_id: Seq<char>,
    other_group: Seq<char>,
    other_channel: Seq<char>,
)
    requires
        other_group != group_id || other_channel != channel_id,
    ensures
        unread_in(
            list.filter(elsewhere(group_id, Some(channel_id))),
            other_group,
            other_channel,
        ) == unread_in(list, other_group, other_channel),
{
    let p = elsewhere(group_id, Some(channel_id));
    let kept = list.filter(p);
    let src = kept_in_order(list, p);
    let i = first_unread(list, other_group, other_channel);
    let j = first_unread(kept, other_group, other_channel);
    unread_in_is(list, other_group, other_channel, i);
    unread_in_is(kept, other_group, other_channel, j);
    if j < kept.len() {
        assert(kept[j] == list[src[j]]);
        assert(i <= src[j]);
    }
    if i < list.len() {
        assert(p(list[i]));
        assert(src.contains(i));
        let k = src.index_of(i);
        assert(kept[k] == list[src[k]]);
        assert(j <= k);
        if j < k {
            assert(src[j] < src[k]);
        }
    }
}

proof fn first_unread(
    list: Seq<ChannelUnreadData>,
    group_id: Seq<char>,
    channel_id: Seq<char>,
) -> (i: int)
    ensures
        0 <= i <= list.len(),
        forall|k: int|
            0 <= k < i ==> !((#[trigger] list[k]).group_id == group_id && list[k].channel_id
                == channel_id),
        i < list.len() ==> list[i].group_id == group_id && list[i].channel_id == channel_id,
    decreases list.len(),
{
    if list.len() == 0 || (list[0].group_id == group_id && list[0].channel_id == channel_id) {
        0
    } else {
        let t = list.drop_first();
        let i = first_unread(t, group_id, channel_id) + 1;
        assert forall|k: int| 0 <= k < i implies !((#[trigger] list[k]).group_id == group_id
            && list[k].channel_id == channel_id) by {
            if k > 0 {
                assert(t[k - 1] == list[k]);
            }
        }
        i
    }
}

/// A button to share stops what it shared, or else clears the way by stopping the other. It
/// starts nothing by itself, and changes nothing else of the call.
pub proof fn sharing_buttons_stop_one_thing(c: GroupCallData)
    ensures
        ({
            let after = screen_button(c);
            &&& !after.screen_sharing
            &&& c.screen_sharing ==> after.webcam_sharing == c.webcam_sharing
            &&& !c.screen_sharing ==> !after.webcam_sharing
            &&& after.channel == c.channel
            &&& after.running == c.running
            &&& after.connected == c.connected
            &&& after.mic == c.mic
            &&& after.chat_input == c.chat_input
            &&& after.messages == c.messages
            &&& after.members == c.members
            &&& after.group == c.group
            &&& after.role == c.role
        }),
        ({
            let after = webcam_button(c);
            &&& !after.webcam_sharing
            &&& c.webcam_sharing ==> after.screen_sharing == c.screen_sharing
            &&& !c.webcam_sharing ==> !after.screen_sharing
            &&& after.channel == c.channel
            &&& after.running == c.running
            &&& after.connected == c.connected
            &&& after.mic == c.mic
            &&& after.chat_input == c.chat_input
            &&& after.messages == c.messages
            &&& after.members == c.members
            &&& after.group == c.group
            &&& after.role == c.role
        }),
{
}

/// Sharing is asked to stop exactly if something is shared.
pub proof fn sharing_is_stopped_if_on(c: GroupCallData)
    ensures
        c.screen_sharing || c.webcam_sharing ==> stop_asks(c).len() == 1 && stop_asks(
            c,
        )[0] is StopSharing,
        !c.screen_sharing && !c.webcam_sharing ==> stop_asks(c).len() == 0,
{
}

/// Asking what to share of the screen shows the question with the displays there are now, and
/// keeps the sound devices that were listed before.
pub proof fn asking_for_the_screen_shows_the_question(
    m: MediaData,
    loopback_devices: Seq<Seq<char>>,
    display_names: Seq<Seq<char>>,
)
    ensures
        ({
            let after = asking_for_screen(m, loopback_devices, display_names);
            &&& after.show_screen_popup
            &&& after.display_names == display_names
            &&& m.loopback_devices.len() == 0 ==> after.loopback_devices == loopback_devices
            &&& m.loopback_devices.len() > 0 ==> after.loopback_devices == m.loopback_devices
            &&& after.screen_sharing == m.screen_sharing
            &&& after.webcam_sharing == m.webcam_sharing
            &&& after.show_webcam_popup == m.show_webcam_popup
            &&& after.quality == m.quality
            &&& after.selected_camera == m.selected_camera
            &&& after.camera_names == m.camera_names
            &&& after.selected_audio_device == m.selected_audio_device
            &&& after.selected_display == m.selected_display
            &&& after.has_video == m.has_video
            &&& after.video_fullscreen == m.video_fullscreen
            &&& after.is_fullscreen == m.is_fullscreen
        }),
{
}

} // verus!
