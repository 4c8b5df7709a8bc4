//! What an administrator does to a group, and what is done with a contact that is looked at.

use vstd::prelude::*;

use crate::app::{AppData, HostelApp};
use crate::call::{and_then_do, asks, no_actions, Calls, CallsData, SetupData, SidebarTab};
use crate::effects::{Action, ActionData, Effect};
use crate::group::{
    can_rename, departed, has_admin, is_admin, is_member, remove_member, removing_takes_effect,
    rename_group, set_admin, Group, GroupData, MemberData,
};
use crate::groups::{position_of, GroupView, Groups, GroupsData, NavData};
use crate::identity::{same_key, Contact};
use crate::messages::connection;
use crate::network::{censor_ip, censored, socket_address, socket_text};
use crate::text::{copy, trimmed, views};

verus! {

/// What an administrator asks for in the settings of a group.
pub enum SettingsAction {
    Rename(String),
    Kick(usize),
    Promote(usize),
    Demote(usize),
    Delete,
}

/// What an action makes of a group that stays. One that is kicked leaves, and the group gets
/// the new key.
pub open spec fn governed(g: GroupData, action: SettingsAction, new_key: Seq<u8>) -> GroupData {
    match action {
        SettingsAction::Kick(i) if i < g.members.len() => departed(
            g,
            g.members[i as int].pubkey,
            new_key,
        ),
        SettingsAction::Rename(typed) => GroupData { name: trimmed(typed@), ..g },
        SettingsAction::Promote(i) if i < g.members.len() => GroupData {
            members: g.members.update(
                i as int,
                MemberData { is_admin: true, ..g.members[i as int] },
            ),
            ..g
        },
        SettingsAction::Demote(i) if i < g.members.len() => GroupData {
            members: g.members.update(
                i as int,
                MemberData { is_admin: false, ..g.members[i as int] },
            ),
            ..g
        },
        _ => g,
    }
}

/// What an action on a group asks for.
pub open spec fn governing_asks(g: GroupData, action: SettingsAction) -> Seq<ActionData> {
    let saved = seq![
        Effect::SaveGroup { group_id: g.group_id },
        Effect::BroadcastGroup { group_id: g.group_id },
    ];
    match action {
        SettingsAction::Rename(_) => saved,
        SettingsAction::Kick(i) => if i < g.members.len() {
            saved
        } else {
            seq![]
        },
        SettingsAction::Promote(i) => if i < g.members.len() {
            saved
        } else {
            seq![]
        },
        SettingsAction::Demote(i) => if i < g.members.len() {
            saved
        } else {
            seq![]
        },
        SettingsAction::Delete => seq![Effect::DeleteGroup { group_id: g.group_id }],
    }
}

impl Groups {
    /// Does what an administrator asks for in the settings of the group at a position. A group
    /// that someone is kicked from gets the new key.
    pub fn govern(&mut self, at: usize, action: SettingsAction, new_key: [u8; 32]) -> (r: Vec<
        Action,
    >)
        requires
            at < old(self)@.groups.len(),
            action is Kick ==> old(self)@.groups[at as int].key_version < u32::MAX,
        ensures
            asks(r@, governing_asks(old(self)@.groups[at as int], action)),
            final(self)@ == (if action is Delete {
                GroupsData {
                    groups: old(self)@.groups.remove(at as int),
                    nav: NavData {
                        settings: None,
                        detail: None,
                        view: GroupView::List,
                        ..old(self)@.nav
                    },
                    ..old(self)@
                }
            } else {
                GroupsData {
                    groups: old(self)@.groups.update(
                        at as int,
                        governed(old(self)@.groups[at as int], action, new_key@),
                    ),
                    ..old(self)@
                }
            }),
    {
        let mut todo = no_actions();
        if let SettingsAction::Delete = action {
            return self.delete_group(at);
        }
        let ghost before = views(self.groups@);
        let mut group = self.groups.remove(at);
        let ghost g = group@;
        let id = copy(group.group_id.as_str());
        let mut save = false;
        let mut send = false;
        match action {
            SettingsAction::Rename(typed) => {
                rename_group(&mut group, typed.as_str());
                save = true;
                send = true;
            },
            SettingsAction::Kick(i) => {
                if i < group.members.len() {
                    let pubkey = group.members[i].pubkey;
                    remove_member(&mut group, &pubkey, new_key);
                    save = true;
                    send = true;
                }
            },
            SettingsAction::Promote(i) => {
                save = set_admin(&mut group, i, true);
                send = save;
            },
            SettingsAction::Demote(i) => {
                save = set_admin(&mut group, i, false);
                send = save;
            },
            SettingsAction::Delete => {},
        }
        let ghost after = group@;
        assert(after == governed(g, action, new_key@));
        self.groups.insert(at, group);
        assert(views(self.groups@) =~= before.update(at as int, after));
        if save {
            and_then_do(&mut todo, Effect::SaveGroup { group_id: copy(id.as_str()) });
        }
        if send {
            and_then_do(&mut todo, Effect::BroadcastGroup { group_id: id });
        }
        todo
    }
}

impl Groups {
    /// A group was given a picture with this digest. A group that is there is saved and sent
    /// out, and so is its picture, which is read again.
    pub fn set_avatar(&mut self, group_id: &str, digest: [u8; 32]) -> (r: Vec<Action>)
        ensures
            ({
                let pos = position_of(old(self)@.groups, group_id@);
                if pos < old(self)@.groups.len() {
                    let g = old(self)@.groups[pos];
                    &&& final(self)@ == (GroupsData {
                        groups: old(self)@.groups.update(
                            pos,
                            GroupData { avatar_sha256: Some(digest@), ..g },
                        ),
                        ..old(self)@
                    })
                    &&& asks(
                        r@,
                        seq![
                            Effect::SaveGroup { group_id: group_id@ },
                            Effect::ForgetGroupAvatar { group_id: group_id@ },
                            Effect::BroadcastGroup { group_id: group_id@ },
                            Effect::SendGroupAvatar { group_id: group_id@, sha256: digest@ },
                        ],
                    )
                } else {
                    &&& final(self)@ == old(self)@
                    &&& asks(r@, seq![Effect::ForgetGroupAvatar { group_id: group_id@ }])
                }
            }),
    {
        let mut todo = no_actions();
        let at: usize = self.find(group_id);
        let known = at < self.groups.len();
        if known {
            let ghost before = views(self.groups@);
            let mut group = self.groups.remove(at);
            group.avatar_sha256 = Some(digest);
            let ghost after = group@;
            self.groups.insert(at, group);
            assert(views(self.groups@) =~= before.update(at as int, after));
            and_then_do(&mut todo, Effect::SaveGroup { group_id: copy(group_id) });
        }
        and_then_do(&mut todo, Effect::ForgetGroupAvatar { group_id: copy(group_id) });
        if known {
            and_then_do(&mut todo, Effect::BroadcastGroup { group_id: copy(group_id) });
            and_then_do(
                &mut todo,
                Effect::SendGroupAvatar { group_id: copy(group_id), sha256: digest },
            );
        }
        todo
    }
}

/// Promoting a member and demoting that member again leaves a group as it was, if the member
/// was no administrator.
pub proof fn demoting_undoes_promoting(g: GroupData, i: usize, key: Seq<u8>)
    requires
        i < g.members.len(),
        !g.members[i as int].is_admin,
    ensures
        governed(governed(g, SettingsAction::Promote(i), key), SettingsAction::Demote(i), key) == g,
{
    let back = governed(
        governed(g, SettingsAction::Promote(i), key),
        SettingsAction::Demote(i),
        key,
    );
    assert(back.members =~= g.members);
}

/// No action but a kick changes who the members of a group that stays are, nor its key.
pub proof fn governing_keeps_the_roster(g: GroupData, action: SettingsAction, new_key: Seq<u8>)
    requires
        !(action is Kick),
    ensures
        governed(g, action, new_key).members.len() == g.members.len(),
        forall|k: int|
            0 <= k < g.members.len() ==> (#[trigger] governed(
                g,
                action,
                new_key,
            ).members[k]).pubkey == g.members[k].pubkey,
        governed(g, action, new_key).group_id == g.group_id,
        governed(g, action, new_key).group_key == g.group_key,
{
}

/// One that is kicked is no member any more, everyone else still is, and the group has the
/// new key in place of the one that the kicked member knows.
pub proof fn kicking_takes_effect(g: GroupData, i: usize, new_key: Seq<u8>, other: Seq<u8>)
    requires
        i < g.members.len(),
        other != g.members[i as int].pubkey,
    ensures
        ({
            let after = governed(g, SettingsAction::Kick(i), new_key);
            &&& !is_member(after.members, g.members[i as int].pubkey)
            &&& is_member(after.members, other) == is_member(g.members, other)
            &&& after.group_key == new_key
            &&& after.previous_key == Some(g.group_key)
            &&& after.group_id == g.group_id
        }),
{
    removing_takes_effect(g, g.members[i as int].pubkey, new_key, other);
}

/// Whether the user may do something in the settings of a group: only an administrator may,
/// to another member, where it changes something.
pub open spec fn may_govern(g: GroupData, me: Seq<u8>, action: SettingsAction) -> bool {
    is_admin(g.members, me) && match action {
        SettingsAction::Rename(typed) => trimmed(typed@) != g.name && trimmed(typed@).len() > 0,
        SettingsAction::Kick(i) => i < g.members.len() && g.members[i as int].pubkey != me,
        SettingsAction::Promote(i) => i < g.members.len() && g.members[i as int].pubkey != me
            && !g.members[i as int].is_admin,
        SettingsAction::Demote(i) => i < g.members.len() && g.members[i as int].pubkey != me
            && g.members[i as int].is_admin,
        SettingsAction::Delete => true,
    }
}

fn is_allowed(g: &Group, me: &[u8; 32], action: &SettingsAction) -> (r: bool)
    ensures
        r == may_govern(g@, me@, *action),
{
    if !has_admin(&g.members, me) {
        return false;
    }
    match action {
        SettingsAction::Rename(typed) => can_rename(g, typed.as_str()),
        SettingsAction::Kick(i) => *i < g.members.len() && !same_key(&g.members[*i].pubkey, me),
        SettingsAction::Promote(i) => *i < g.members.len() && !same_key(&g.members[*i].pubkey, me)
            && !g.members[*i].is_admin,
        SettingsAction::Demote(i) => *i < g.members.len() && !same_key(&g.members[*i].pubkey, me)
            && g.members[*i].is_admin,
        SettingsAction::Delete => true,
    }
}

impl HostelApp {
    /// Does what the user asks for in the settings of the group at a position, where the user
    /// may. Else nothing changes, and nothing is to be done.
    pub fn govern_group(&mut self, at: usize, action: SettingsAction, new_key: [u8; 32]) -> (r: Vec<
        Action,
    >)
        requires
            at < old(self)@.groups.groups.len() && action is Kick ==> old(
                self,
            )@.groups.groups[at as int].key_version < u32::MAX,
        ensures
            ({
                let a = old(self)@;
                if at < a.groups.groups.len() && may_govern(
                    a.groups.groups[at as int],
                    a.identity.pubkey,
                    action,
                ) {
                    &&& asks(r@, governing_asks(a.groups.groups[at as int], action))
                    &&& final(self)@ == (AppData {
                        groups: if action is Delete {
                            GroupsData {
                                groups: a.groups.groups.remove(at as int),
                                nav: NavData {
                                    settings: None,
                                    detail: None,
                                    view: GroupView::List,
                                    ..a.groups.nav
                                },
                                ..a.groups
                            }
                        } else {
                            GroupsData {
                                groups: a.groups.groups.update(
                                    at as int,
                                    governed(a.groups.groups[at as int], action, new_key@),
                                ),
                                ..a.groups
                            }
                        },
                        ..a
                    })
                } else {
                    final(self)@ == a && r@.len() == 0
                }
            }),
    {
        if at < self.groups.groups.len() && is_allowed(
            &self.groups.groups[at],
            &self.identity.pubkey,
            &action,
        ) {
            self.groups.govern(at, action, new_key)
        } else {
            no_actions()
        }
    }
}

impl Calls {
    /// Sets up a call to the contact that is looked at: its address and port are taken over
    /// as far as they are known, and the call tab is shown.
    pub fn call_contact(&mut self, contact: &Contact)
        ensures
            final(self)@ == (CallsData {
                setup: SetupData {
                    peer_ip: if contact@.last_address.len() == 0 {
                        old(self)@.setup.peer_ip
                    } else {
                        contact@.last_address
                    },
                    peer_port: if contact@.last_port.len() == 0 {
                        old(self)@.setup.peer_port
                    } else {
                        contact@.last_port
                    },
                    ..old(self)@.setup
                },
                viewing_contact: None,
                tab: SidebarTab::Call,
                ..old(self)@
            }),
    {
        if !contact.last_address.as_str().is_empty() {
            self.setup.peer_ip = copy(contact.last_address.as_str());
        }
        if !contact.last_port.as_str().is_empty() {
            self.setup.peer_port = copy(contact.last_port.as_str());
        }
        self.viewing_contact = None;
        self.tab = SidebarTab::Call;
    }
}

impl HostelApp {
    /// Opens the chat with the contact that is looked at.
    pub fn message_contact(&mut self, contact_id: &str) -> (r: Vec<Action>)
        ensures
            final(self)@ == (AppData {
                calls: CallsData {
                    viewing_contact: None,
                    tab: SidebarTab::Messages,
                    ..old(self)@.calls
                },
                messages: old(self)@.messages.opened(contact_id@),
                ..old(self)@
            }),
            asks(
                r@,
                seq![Effect::LoadHistory { contact_id: contact_id@ }] + connection(
                    old(self)@.contacts,
                    contact_id@,
                ),
            ),
    {
        self.calls.viewing_contact = None;
        self.calls.tab = SidebarTab::Messages;
        self.messages.open_msg_chat(contact_id, &self.contacts)
    }
}

/// An address as it is shown: hidden but for its beginning unless the user asked to see
/// addresses.
pub open spec fn shown_address(ip: Seq<char>, show: bool) -> Seq<char> {
    if show {
        ip
    } else {
        censored(ip)
    }
}

/// How an address is shown.
pub fn show_address(ip: &str, show: bool) -> (r: String)
    ensures
        r@ == shown_address(ip@, show),
{
    if show {
        copy(ip)
    } else {
        censor_ip(ip)
    }
}

/// How the last address of a contact is shown, where one is known.
pub fn last_address_line(contact: &Contact, show: bool) -> (r: Option<String>)
    ensures
        r is Some <==> contact@.last_address.len() > 0,
        r matches Some(line) ==> line@ == socket_text(
            shown_address(contact@.last_address, show),
            contact@.last_port,
        ),
{
    if contact.last_address.as_str().is_empty() {
        None
    } else {
        let ip = show_address(contact.last_address.as_str(), show);
        Some(socket_address(ip.as_str(), contact.last_port.as_str()))
    }
}

/// Renaming a group gives it what was typed, without the space around it, and changes nothing
/// else.
pub proof fn renaming_changes_nothing_else(g: GroupData, typed: String, new_key: Seq<u8>)
    ensures
        ({
            let after = governed(g, SettingsAction::Rename(typed), new_key);
            &&& after.name == trimmed(typed@)
            &&& after.group_id == g.group_id
            &&& after.created_by == g.created_by
            &&& after.created_at == g.created_at
            &&& after.members == g.members
            &&& after.group_key == g.group_key
            &&& after.next_sender_index == g.next_sender_index
            &&& after.avatar_sha256 == g.avatar_sha256
            &&& after.text_channels == g.text_channels
            &&& after.voice_channels == g.voice_channels
            &&& after.call_mode == g.call_mode
            &&& after.key_version == g.key_version
            &&& after.previous_key == g.previous_key
        }),
{
}

/// Promoting and demoting change whether the one member is an administrator. Nothing else of
/// that member changes, nor any other member, nor anything else of the group.
pub proof fn promoting_changes_one_member(g: GroupData, i: usize, k: int, new_key: Seq<u8>)
    requires
        i < g.members.len(),
        0 <= k < g.members.len(),
    ensures
        ({
            let up = governed(g, SettingsAction::Promote(i), new_key);
            let down = governed(g, SettingsAction::Demote(i), new_key);
            &&& up.members.len() == g.members.len()
            &&& down.members.len() == g.members.len()
            &&& up.members[i as int].is_admin
            &&& !down.members[i as int].is_admin
            &&& k != i ==> up.members[k] == g.members[k] && down.members[k] == g.members[k]
            &&& up.members[k].pubkey == g.members[k].pubkey
            &&& up.members[k].nickname == g.members[k].nickname
            &&& up.members[k].fingerprint == g.members[k].fingerprint
            &&& up.members[k].sender_index == g.members[k].sender_index
            &&& up.members[k].address == g.members[k].address
            &&& up.members[k].port == g.members[k].port
            &&& up.members[k].joined_at == g.members[k].joined_at
            &&& down.members[k].pubkey == g.members[k].pubkey
            &&& down.members[k].nickname == g.members[k].nickname
            &&& down.members[k].fingerprint == g.members[k].fingerprint
            &&& down.members[k].sender_index == g.members[k].sender_index
            &&& down.members[k].address == g.members[k].address
            &&& down.members[k].port == g.members[k].port
            &&& down.members[k].joined_at == g.members[k].joined_at
            &&& up.group_id == g.group_id
            &&& up.name == g.name
            &&& up.created_by == g.created_by
            &&& up.created_at == g.created_at
            &&& up.group_key == g.group_key
            &&& up.next_sender_index == g.next_sender_index
            &&& up.avatar_sha256 == g.avatar_sha256
            &&& up.text_channels == g.text_channels
            &&& up.voice_channels == g.voice_channels
            &&& up.call_mode == g.call_mode
            &&& up.key_version == g.key_version
            &&& up.previous_key == g.previous_key
            &&& down.group_id == g.group_id
            &&& down.name == g.name
            &&& down.created_by == g.created_by
            &&& down.created_at == g.created_at
            &&& down.group_key == g.group_key
            &&& down.next_sender_index == g.next_sender_index
            &&& down.avatar_sha256 == g.avatar_sha256
            &&& down.text_channels == g.text_channels
            &&& down.voice_channels == g.voice_channels
            &&& down.call_mode == g.call_mode
            &&& down.key_version == g.key_version
            &&& down.previous_key == g.previous_key
        }),
{
}

/// What is asked of a member that is not there changes nothing, and neither does deleting the
/// group, of which nothing stays.
pub proof fn absent_members_are_not_governed(g: GroupData, i: usize, new_key: Seq<u8>)
    requires
        i >= g.members.len(),
    ensures
        governed(g, SettingsAction::Kick(i), new_key) == g,
        governed(g, SettingsAction::Promote(i), new_key) == g,
        governed(g, SettingsAction::Demote(i), new_key) == g,
        governed(g, SettingsAction::Delete, new_key) == g,
        governing_asks(g, SettingsAction::Kick(i)).len() == 0,
        governing_asks(g, SettingsAction::Promote(i)).len() == 0,
        governing_asks(g, SettingsAction::Demote(i)).len() == 0,
{
}

/// A group that was changed is saved and then sent to the others; one that is deleted is
/// deleted and nothing else.
pub proof fn changed_groups_are_saved_and_sent(g: GroupData, action: SettingsAction)
    requires
        action matches SettingsAction::Kick(i) ==> i < g.members.len(),
        action matches SettingsAction::Promote(i) ==> i < g.members.len(),
        action matches SettingsAction::Demote(i) ==> i < g.members.len(),
    ensures
        action is Delete ==> governing_asks(g, action).len() == 1 && governing_asks(g, action)[0]
            == (Effect::<Seq<char>, Seq<u8>>::DeleteGroup { group_id: g.group_id }),
        !(action is Delete) ==> {
            &&& governing_asks(g, action).len() == 2
            &&& governing_asks(g, action)[0] == (Effect::<Seq<char>, Seq<u8>>::SaveGroup {
                group_id: g.group_id,
            })
            &&& governing_asks(g, action)[1] == (Effect::<Seq<char>, Seq<u8>>::BroadcastGroup {
                group_id: g.group_id,
            })
        },
{
}

/// Only an administrator may change a group. They may not kick, promote or demote themselves,
/// nor promote an administrator or demote one who is none, nor give a blank name or the one
/// the group has; everything else they may.
pub proof fn only_administrators_govern(g: GroupData, me: Seq<u8>, action: SettingsAction)
    ensures
        !is_admin(g.members, me) ==> !may_govern(g, me, action),
        is_admin(g.members, me) ==> {
            &&& action is Delete ==> may_govern(g, me, action)
            &&& action matches SettingsAction::Rename(typed) ==> (may_govern(g, me, action) <==> trimmed(
                typed@,
            ).len() > 0 && trimmed(typed@) != g.name)
            &&& action matches SettingsAction::Kick(i) ==> (may_govern(g, me, action) <==> i
                < g.members.len() && g.members[i as int].pubkey != me)
            &&& action matches SettingsAction::Promote(i) ==> (may_govern(g, me, action) <==> i
                < g.members.len() && g.members[i as int].pubkey != me
                && !g.members[i as int].is_admin)
            &&& action matches SettingsAction::Demote(i) ==> (may_govern(g, me, action) <==> i
                < g.members.len() && g.members[i as int].pubkey != me
                && g.members[i as int].is_admin)
        },
{
}

/// An address is shown as it is only to one who asked to see addresses.
pub proof fn addresses_are_hidden_unless_asked_for(ip: Seq<char>)
    ensures
        shown_address(ip, true) == ip,
        shown_address(ip, false) == censored(ip),
{
}

} // verus!
