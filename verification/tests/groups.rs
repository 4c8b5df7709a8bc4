use hosteld::admin::SettingsAction;
use hosteld::channels::Channel;
use hosteld::effects::Effect;
use hosteld::events::GroupReport;
use hosteld::group::{CallMode, CallPresence, Group, GroupMember, GroupRole};
use hosteld::groups::{
    call_in_progress, dial_pause, dial_step, member_rows, nicknames_in_call, socket_wait, CallGroup,
    ChannelPanel, ChannelUnread, DialStep, GroupCallInfo, GroupChatMsg, GroupInvite, GroupUnread,
    GroupView, Groups, Panel,
};
use hosteld::identity::{derive_contact_id, Contact};
use hosteld::messages::Messages;
use hosteld::settings::Settings;

const ME: [u8; 32] = [1u8; 32];

fn channel(id: &str, deleted: bool) -> Channel {
    Channel {
        channel_id: id.to_string(),
        name: format!("name of {}", id),
        created_at: 0,
        created_by: ME,
        deleted,
        deleted_at: if deleted { Some(5) } else { None },
    }
}

fn member(key: u8, index: u16, is_admin: bool) -> GroupMember {
    GroupMember {
        pubkey: [key; 32],
        nickname: format!("nick{}", key),
        fingerprint: format!("fp{}", key),
        sender_index: index,
        address: "::9".to_string(),
        port: "9000".to_string(),
        is_admin,
        joined_at: 0,
    }
}

fn group(id: &str) -> Group {
    Group {
        group_id: id.to_string(),
        name: format!("group {}", id),
        created_by: ME,
        created_at: "0".to_string(),
        members: vec![member(1, 0, true), member(2, 1, false)],
        group_key: [7u8; 32],
        next_sender_index: 2,
        avatar_sha256: None,
        text_channels: vec![channel("general", false), channel("room", false), channel("old", true)],
        voice_channels: vec![channel("voice_general", false)],
        call_mode: CallMode::Relay,
        key_version: 0,
        previous_key: None,
    }
}

fn contact(key: u8) -> Contact {
    Contact {
        fingerprint: format!("fp{}", key),
        pubkey: [key; 32],
        nickname: format!("nick{}", key),
        contact_id: format!("c{}", key),
        first_seen: "0".to_string(),
        last_seen: "0".to_string(),
        last_address: "::2".to_string(),
        last_port: "9000".to_string(),
        call_count: 0,
    }
}

fn three() -> Groups {
    Groups::new(vec![group("a"), group("b"), group("c")])
}

fn invite(id: &str) -> GroupInvite {
    GroupInvite {
        from_nickname: "bob".to_string(),
        from_contact_id: "c2".to_string(),
        group_id: id.to_string(),
        group_name: "new".to_string(),
        member_count: 2,
    }
}

fn joined() -> Groups {
    let mut g = three();
    g.open_group(0);
    g.start_group_call("voice_general");
    let info = GroupCallInfo {
        group: CallGroup { group_id: "a".to_string(), members: vec![member(1, 0, true), member(2, 1, false)] },
        role: GroupRole::Leader,
    };
    g.on_group_connect_result(Ok(info), &ME);
    g
}

#[test]
fn opening_and_leaving_a_group() {
    let mut g = three();
    assert!(g.panel() == Panel::Nothing);
    g.open_group(1);
    assert!(g.panel() == Panel::Detail);
    assert_eq!(g.nav.channel, "general");
    let todo = g.leave_group(0);
    assert!(matches!(&todo[0], Effect::DeleteGroup { group_id } if group_id == "a"));
    assert_eq!(g.nav.detail, Some(0));
    assert_eq!(g.groups[0].group_id, "b");
    g.leave_group(0);
    assert_eq!(g.nav.detail, None);
    assert!(g.nav.view == GroupView::List);
    assert_eq!(g.leave_group(9).len(), 0);
}

#[test]
fn being_removed_from_a_group() {
    let mut g = three();
    g.open_group(2);
    let mut received = group("b");
    received.members.remove(0);
    let todo = g.on_group_updated(&received, &ME, 10);
    assert!(matches!(&todo[0], Effect::DeleteGroup { group_id } if group_id == "b"));
    assert_eq!(g.groups.len(), 2);
    assert_eq!(g.nav.detail, Some(1));
}

#[test]
fn an_administrator_sends_out_what_was_merged() {
    let mut g = three();
    let mut received = group("a");
    received.name = "renamed".to_string();
    received.text_channels = vec![channel("general", false)];
    let todo = g.on_group_updated(&received, &ME, 10);
    assert_eq!(g.groups[0].name, "renamed");
    assert!(todo.iter().any(|a| matches!(a, Effect::SaveGroup { group_id } if group_id == "a")));
    assert!(todo.iter().any(|a| matches!(a, Effect::BroadcastGroup { .. })));
    let stranger = g.on_group_updated(&group("z"), &ME, 10);
    assert_eq!(stranger.len(), 0);
}

#[test]
fn members_are_synced() {
    let mut g = three();
    assert_eq!(g.on_member_synced("a", member(5, 2, false)).len(), 1);
    assert_eq!(g.groups[0].members.len(), 3);
    assert_eq!(g.on_member_synced("a", member(5, 2, false)).len(), 0);
    assert_eq!(g.on_member_synced("z", member(6, 2, false)).len(), 0);
}

#[test]
fn a_declined_invitation_removes_the_member() {
    let mut g = three();
    let key = [8u8; 32];
    assert_eq!(g.on_invite_declined("c9", "a", &vec![contact(2)], key).len(), 0);
    assert_eq!(g.on_invite_declined("c2", "z", &vec![contact(2)], key).len(), 0);
    assert_eq!(g.groups[0].members.len(), 2);
    let todo = g.on_invite_declined("c2", "a", &vec![contact(2)], key);
    assert_eq!(todo.len(), 1);
    assert!(matches!(&todo[0], Effect::SaveGroup { group_id } if group_id == "a"));
    assert_eq!(g.groups[0].members.len(), 1);
    assert_eq!(g.groups[0].members[0].pubkey, ME);
    assert_eq!((g.groups[0].group_key, g.groups[0].key_version), (key, 1));
}

#[test]
fn messages_find_their_channel() {
    let mut g = joined();
    let todo = g.on_group_chat("a", "old", "fp2", "bob", "hi");
    assert!(matches!(&todo[0], Effect::AppendGroupMessage { channel_id, .. } if channel_id == "fallback"));
    assert_eq!(g.call.messages.len(), 1);
    let todo = g.on_group_chat("b", "room", "fp2", "bob", "hi");
    assert!(matches!(&todo[0], Effect::AppendGroupMessage { channel_id, .. } if channel_id == "room"));
    assert_eq!(g.call.messages.len(), 1);
    let todo = g.on_group_chat("z", "any", "fp2", "bob", "hi");
    assert!(matches!(&todo[0], Effect::AppendGroupMessage { channel_id, .. } if channel_id == "any"));
}

#[test]
fn invitations() {
    let mut g = three();
    assert_eq!(g.on_invite(invite("a")).len(), 0);
    let todo = g.on_invite(invite("d"));
    assert!(matches!(&todo[0], Effect::Notify { body, .. } if body == "bob invited you to 'new'"));
    let mut d = group("d");
    d.created_by = [2u8; 32];
    let todo = g.accept_invite(d, &vec![contact(2)]);
    assert!(matches!(&todo[1], Effect::AcceptInvite { contact_id, group_id } if contact_id == "c2" && group_id == "d"));
    assert_eq!(g.groups.len(), 4);
    assert!(g.invite.is_none());
    g.on_invite(invite("e"));
    let todo = g.reject_invite(&[2u8; 32], &vec![contact(2)]);
    assert!(matches!(&todo[0], Effect::RejectInvite { group_id, .. } if group_id == "e"));
}

#[test]
fn settings_are_for_administrators() {
    let mut g = three();
    g.open_group(0);
    g.open_settings();
    assert!(g.panel() == Panel::Settings);
    assert_eq!(g.settings_target(&ME), Some(0));
    assert_eq!(g.settings_target(&[2u8; 32]), None);
    assert!(g.nav.view == GroupView::Detail);
    assert_eq!(g.settings_target(&ME), None);
    assert!(g.nav.view == GroupView::List);
}

#[test]
fn what_an_administrator_does() {
    let mut g = three();
    let key = [8u8; 32];
    let todo = g.govern(0, SettingsAction::Rename(" crew ".to_string()), key);
    assert_eq!(g.groups[0].name, "crew");
    assert!(matches!(todo[0], Effect::SaveGroup { .. }));
    assert!(matches!(todo[1], Effect::BroadcastGroup { .. }));
    assert_eq!(g.govern(0, SettingsAction::Promote(1), key).len(), 2);
    assert!(g.groups[0].members[1].is_admin);
    g.govern(0, SettingsAction::Demote(1), key);
    assert!(!g.groups[0].members[1].is_admin);
    assert_eq!(g.govern(0, SettingsAction::Demote(7), key).len(), 0);
    let last = g.groups[0].group_key;
    let todo = g.govern(0, SettingsAction::Kick(1), key);
    assert!(matches!(todo[0], Effect::SaveGroup { .. }));
    assert!(matches!(todo[1], Effect::BroadcastGroup { .. }));
    assert_eq!(g.groups[0].members.len(), 1);
    assert_eq!(g.groups[0].members[0].pubkey, ME);
    assert_eq!((g.groups[0].group_key, g.groups[0].previous_key), (key, Some(last)));
    assert_eq!(g.groups[0].key_version, 1);
    assert_eq!(g.govern(0, SettingsAction::Kick(7), key).len(), 0);
    let todo = g.govern(0, SettingsAction::Delete, key);
    assert!(matches!(&todo[0], Effect::DeleteGroup { group_id } if group_id == "a"));
    assert_eq!(g.groups.len(), 2);
}

#[test]
fn text_channels_come_and_go() {
    let mut g = three();
    g.open_group(0);
    g.nav.channel_name = " ".to_string();
    assert_eq!(g.create_text_channel("x".to_string(), &ME, 9).len(), 0);
    g.nav.channel_name = "New Room".to_string();
    assert_eq!(g.create_text_channel("x".to_string(), &ME, 9).len(), 2);
    assert_eq!(g.groups[0].text_channels[3].name, "new-room");
    assert_eq!(g.nav.channel_name, "");
    g.nav.channel = "x".to_string();
    assert_eq!(g.delete_text_channel("x", &[2u8; 32], 10).len(), 0);
    assert!(!g.groups[0].text_channels[3].deleted);
    let todo = g.delete_text_channel("x", &ME, 10);
    assert!(matches!(&todo[0], Effect::MigrateChannel { channel_id, name, .. } if channel_id == "x" && name == "new-room"));
    assert_eq!(g.nav.channel, "general");
    assert!(g.groups[0].text_channels[3].deleted);
    assert_eq!(g.groups[0].text_channels[3].deleted_at, Some(10));
    assert_eq!(g.groups[0].text_channels.len(), 4);
}

#[test]
fn standing_channels_stay() {
    let mut g = joined();
    assert_eq!(g.delete_text_channel("general", &ME, 10).len(), 0);
    assert_eq!(g.delete_text_channel("fallback", &ME, 10).len(), 0);
    assert_eq!(g.delete_voice_channel("voice_general", &ME, 10).len(), 0);
    assert!(g.groups[0].text_channels.iter().all(|c| c.deleted == (c.channel_id == "old")));
    assert!(!g.groups[0].voice_channels[0].deleted);
    assert!(g.call.channel.is_some());
}

#[test]
fn only_administrators_change_channels() {
    let mut g = three();
    let other = [2u8; 32];
    assert!(!g.administers(&ME));
    g.open_group(0);
    assert!(g.administers(&ME) && !g.administers(&other));
    g.nav.channel_name = "room".to_string();
    assert_eq!(g.create_text_channel("x".to_string(), &other, 9).len(), 0);
    assert_eq!(g.groups[0].text_channels.len(), 3);
    assert_eq!(g.nav.channel_name, "room");
    g.groups[0].voice_channels.push(channel("v2", false));
    assert_eq!(g.delete_voice_channel("v2", &other, 10).len(), 0);
    assert_eq!(g.delete_voice_channel("v2", &ME, 10).len(), 2);
}

#[test]
fn deleting_the_channel_of_a_call_ends_it() {
    let mut g = joined();
    g.groups[0].voice_channels.push(channel("v2", false));
    g.call.channel = Some("v2".to_string());
    let todo = g.delete_voice_channel("v2", &ME, 10);
    assert_eq!(todo.len(), 5);
    assert!(matches!(todo[1], Effect::StopGroupCall));
    assert!(g.call.channel.is_none());
}

#[test]
fn which_channel_is_shown() {
    let mut g = joined();
    assert!(g.channel_panel() == Some(ChannelPanel::Text));
    g.nav.channel = "voice_general".to_string();
    assert!(g.channel_panel() == Some(ChannelPanel::VoiceActive));
    g.cleanup_group_call();
    assert!(g.channel_panel() == Some(ChannelPanel::VoiceIdle));
    g.nav.detail = None;
    assert!(g.channel_panel() == None);
    assert_eq!(g.find("b"), 1);
    assert_eq!(g.find("z"), 3);
}

#[test]
fn nothing_is_sent_from_the_fallback_channel() {
    let mut g = three();
    assert_eq!(g.chat_to_send(" hi "), Some("hi".to_string()));
    assert_eq!(g.chat_to_send("  "), None);
    g.nav.channel = "fallback".to_string();
    assert_eq!(g.chat_to_send("hi"), None);
}

#[test]
fn joining_a_call() {
    let mut g = three();
    assert!(g.start_group_call("voice_general").is_none());
    g.open_group(0);
    let (switching, todo) = g.start_group_call("voice_general").unwrap();
    assert!(!switching);
    assert_eq!(todo.len(), 2);
    assert!(g.nav.view == GroupView::Connecting);
    let g = joined();
    assert!(g.nav.view == GroupView::InCall);
    assert_eq!(g.call.members.len(), 1);
    assert_eq!(g.call.members[0].pubkey, ME);
}

#[test]
fn switching_the_channel_ends_the_call() {
    let mut g = joined();
    let (switching, todo) = g.start_group_call("other").unwrap();
    assert!(switching);
    assert_eq!(todo.len(), 5);
    assert_eq!(g.call.channel, Some("other".to_string()));
}

#[test]
fn a_call_that_goes_on_is_remembered() {
    let mut g = joined();
    g.on_roster(vec![member(1, 0, true), member(2, 1, false)]);
    g.cleanup_group_call();
    assert!(g.ongoing.get("voice_general") == Some(&CallMode::Relay));
    let mut alone = joined();
    alone.cleanup_group_call();
    assert!(!alone.ongoing.has("voice_general"));
}

#[test]
fn messages_in_a_call_take_the_fingerprint_of_the_roster() {
    let mut g = joined();
    let todo = g.on_call_message(GroupChatMsg {
        sender_index: 1,
        sender_nickname: "bob".to_string(),
        text: "hi".to_string(),
    });
    assert_eq!(todo.len(), 1);
    assert!(matches!(&todo[0], Effect::AppendGroupMessage { fingerprint, group_id, channel_id, text, .. }
        if fingerprint == "fp2" && group_id == "a" && channel_id == "voice_general" && text == "hi"));
    assert_eq!(g.call.messages.len(), 1);
}

#[test]
fn a_frame_of_a_group_call() {
    let mut g = joined();
    let (todo, over) = g.poll(GroupReport { result: None, running: true }, &ME);
    assert!(!over && todo.is_empty());
    let (todo, over) = g.poll(GroupReport { result: None, running: false }, &ME);
    assert!(over);
    assert_eq!(todo.len(), 3);
    g.start_group_call("voice_general");
    let (todo, over) = g.poll(GroupReport { result: Some(Err("no".to_string())), running: true }, &ME);
    assert!(!over);
    assert_eq!(todo.len(), 3);
    assert!(g.call.channel.is_none());
}

#[test]
fn members_online_come_first() {
    let members = vec![member(2, 0, false), member(3, 1, false), member(1, 2, false)];
    let mut messages = Messages::new();
    messages.on_peer_status(&derive_contact_id(&ME, &[3u8; 32]), true);
    let (rows, online) = member_rows(&members, &ME, &messages);
    assert_eq!(rows, vec![1, 2, 0]);
    assert_eq!(online, 2);
}

#[test]
fn those_in_a_call_are_named() {
    let present = vec![
        CallPresence { contact_id: "c2".to_string(), mode: 0 },
        CallPresence { contact_id: "c9".to_string(), mode: 0 },
        CallPresence { contact_id: "c3".to_string(), mode: 0 },
    ];
    assert_eq!(nicknames_in_call(&present, &vec![contact(2), contact(3)]), "nick2, nick3");
    assert_eq!(call_in_progress(1), "A call is in progress (1 member)");
    assert_eq!(call_in_progress(12), "A call is in progress (12 members)");
}

#[test]
fn dialling_is_tried_three_times() {
    assert_eq!((socket_wait(false), socket_wait(true)), (500, 1000));
    assert!(dial_step(0, true) == DialStep::Dial);
    assert!(dial_step(2, true) == DialStep::Dial);
    assert!(dial_step(3, false) == DialStep::GiveUp);
    assert_eq!((dial_pause(0), dial_pause(1), dial_pause(2), dial_pause(3)), (0, 500, 500, 0));
    assert!(dial_step(1, false) == DialStep::Cancelled);
    assert!(dial_step(3, true) == DialStep::GiveUp);
}

#[test]
fn muting_forgets_what_is_unread() {
    let mut unread = GroupUnread::new();
    let mut settings = Settings::default();
    unread.groups.set("a", 3);
    for (g, c) in [("a", "general"), ("a", "room"), ("b", "general")] {
        unread.channels.push(ChannelUnread { group_id: g.to_string(), channel_id: c.to_string(), count: 1 });
    }
    unread.see_channel("a", "room");
    assert_eq!(unread.channels.len(), 2);
    assert!(unread.groups.has("a"));
    unread.toggle_mute(&mut settings, "a");
    assert_eq!(unread.channels.len(), 1);
    assert!(!unread.groups.has("a"));
    assert_eq!(settings.muted_groups, vec!["a".to_string()]);
    unread.toggle_mute(&mut settings, "a");
    assert!(settings.muted_groups.is_empty());
    unread.see("b", "general");
    assert_eq!(unread.channels.len(), 0);
}

#[test]
fn a_group_gets_a_picture() {
    let mut g = three();
    let todo = g.set_avatar("b", [4u8; 32]);
    assert_eq!(todo.len(), 4);
    assert!(matches!(&todo[2], Effect::BroadcastGroup { group_id } if group_id == "b"));
    assert!(matches!(&todo[3], Effect::SendGroupAvatar { group_id, sha256 }
        if group_id == "b" && *sha256 == [4u8; 32]));
    assert_eq!(g.groups[1].avatar_sha256, Some([4u8; 32]));
    assert_eq!(g.set_avatar("z", [4u8; 32]).len(), 1);
}
