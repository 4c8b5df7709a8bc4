use hosteld::admin::SettingsAction;
use hosteld::app::{ensure_standing_channels, HostelApp};
use hosteld::call::{IncomingCall, Screen, SidebarTab};
use hosteld::channels::Channel;
use hosteld::chat::{
    chat_rows, file_row, initial_of, members_heading, members_warning, Sender,
};
use hosteld::effects::{Effect, FileStatus, PresenceStatus};
use hosteld::events::Event;
use hosteld::group::{CallMode, CallPresence, Group, GroupMember, NewGroup};
use hosteld::groups::{CallGroup, ChannelUnread, GroupChatMsg, GroupInvite, GroupView};
use hosteld::identity::{derive_contact_id, Contact, Identity};
use hosteld::messages::{Request, Transfer};
use hosteld::network::{NetInterface, Scope};
use hosteld::settings::Settings;
use hosteld::sidebar::{voice_idle, ChannelPresence};

const ME: [u8; 32] = [1u8; 32];

fn names(list: &[&str]) -> Vec<String> {
    list.iter().map(|s| s.to_string()).collect()
}

fn contact(key: u8, address: &str) -> Contact {
    Contact {
        fingerprint: format!("fp{}", key),
        pubkey: [key; 32],
        nickname: format!("nick{}", key),
        contact_id: derive_contact_id(&ME, &[key; 32]),
        first_seen: "0".to_string(),
        last_seen: "0".to_string(),
        last_address: address.to_string(),
        last_port: "9000".to_string(),
        call_count: 0,
    }
}

fn channel(id: &str) -> Channel {
    Channel {
        channel_id: id.to_string(),
        name: id.to_string(),
        created_at: 0,
        created_by: ME,
        deleted: false,
        deleted_at: None,
    }
}

fn member(key: u8, index: u16, is_admin: bool) -> GroupMember {
    GroupMember {
        pubkey: [key; 32],
        nickname: format!("nick{}", key),
        fingerprint: format!("fp{}", key),
        sender_index: index,
        address: "::9".to_string(),
        port: "9000".to_string(),
        is_admin,
        joined_at: 0,
    }
}

fn group(id: &str) -> Group {
    let mut g = Group {
        group_id: id.to_string(),
        name: id.to_string(),
        created_by: ME,
        created_at: "0".to_string(),
        members: vec![member(1, 0, true), member(2, 1, false)],
        group_key: [7u8; 32],
        next_sender_index: 2,
        avatar_sha256: None,
        text_channels: Vec::new(),
        voice_channels: Vec::new(),
        call_mode: CallMode::Relay,
        key_version: 0,
        previous_key: None,
    };
    assert!(ensure_standing_channels(&mut g, 4));
    assert!(!ensure_standing_channels(&mut g, 5));
    g
}

fn adapters() -> Vec<NetInterface> {
    vec![
        NetInterface { name: "eth0".to_string(), ip: "2001:db8::1".to_string(), scope: Scope::Global },
        NetInterface { name: "zt0".to_string(), ip: "fd00::1".to_string(), scope: Scope::Global },
    ]
}

fn start() -> HostelApp {
    let mut settings = Settings::default();
    settings.nickname = "own".to_string();
    settings.mic = "mic2".to_string();
    HostelApp::new(
        Identity { secret: [0u8; 32], pubkey: ME, fingerprint: "fp1".to_string() },
        settings,
        vec![contact(2, "::2"), contact(3, "")],
        names(&["mic1", "mic2"]),
        names(&["spk"]),
        vec![group("a"), group("b")],
        &adapters(),
    )
}

#[test]
fn the_program_starts() {
    let app = start();
    assert_eq!(app.best_ipv6, "2001:db8::1");
    assert_eq!((app.calls.setup.selected_input, app.calls.setup.selected_output), (1, 0));
    assert_eq!(app.calls.setup.local_port, "9000");
    assert!(app.firewall.shown);
    assert!(app.calls.tab == SidebarTab::Call);
    assert!(!app.show_ips);
    let to = app.auto_connect(&vec![true, true]).unwrap();
    assert_eq!(to.len(), 1);
    assert_eq!(to[0].address, "[::2]:9000");
    assert!(app.auto_connect(&vec![false, true]).is_none());
}

#[test]
fn addresses_are_shown_on_request() {
    let mut app = start();
    app.toggle_ips();
    assert!(app.show_ips);
    app.toggle_ips();
    assert!(!app.show_ips);
}

#[test]
fn calls_save_the_devices() {
    let mut app = start();
    let (address, todo) = app.start_call();
    assert_eq!(address, "[::1]:9000");
    assert_eq!(todo.len(), 2);
    assert_eq!(app.settings.speakers, "spk");
    app.calls.hang_up();
    assert!(app.start_group_call("voice_general").is_none());
    app.open_group(0);
    app.settings.speakers = String::new();
    let (switching, todo) = app.start_group_call("voice_general").unwrap();
    assert!(!switching);
    assert_eq!(todo.len(), 2);
    assert_eq!(app.settings.speakers, "spk");
    assert!(app.groups.nav.view == GroupView::Connecting);
}

#[test]
fn messages_are_silent_in_a_call() {
    let mut app = start();
    let id = app.contacts[0].contact_id.clone();
    let event = |text: &str| Event::Message { contact_id: id.clone(), text: text.to_string() };
    assert_eq!(app.on_event(event("a"), true).len(), 2);
    assert_eq!(app.on_event(event("b"), false).len(), 1);
    app.start_call();
    assert_eq!(app.on_event(event("c"), true).len(), 1);
    assert_eq!(app.messages.unread.get_or(&id, 0), 3);
}

#[test]
fn events_reach_their_part() {
    let mut app = start();
    let id = app.contacts[0].contact_id.clone();
    app.on_event(Event::PeerStatus { contact_id: id.clone(), online: true }, true);
    app.on_event(Event::Presence { contact_id: id.clone(), status: PresenceStatus::Away }, true);
    assert!(app.messages.presence_of(&id) == PresenceStatus::Away);
    app.on_event(
        Event::PeerAddress { contact_id: id.clone(), ip: "fd00::2".to_string(), port: "1".to_string() },
        true,
    );
    assert_eq!((app.contacts[0].last_address.as_str(), app.contacts[0].last_port.as_str()), ("fd00::2", "1"));
    let request = Request {
        request_id: "r".to_string(),
        nickname: "n".to_string(),
        ip: "::7".to_string(),
        fingerprint: "f".to_string(),
    };
    app.on_event(Event::Request(request), true);
    assert_eq!(app.messages.requests.incoming.len(), 1);
    app.on_event(Event::RequestFailed { peer: "p".to_string(), reason: "r".to_string() }, true);
    assert_eq!(app.messages.requests.status, "Failed (p): r");
    let todo = app.on_event(Event::RequestAccepted { contact_id: id.clone() }, true);
    assert!(matches!(todo[0], Effect::ReloadContacts));
    let todo = app.on_event(Event::Avatar { contact_id: id.clone() }, true);
    assert!(matches!(&todo[0], Effect::ForgetContactAvatar { contact_id } if *contact_id == id));
    let todo = app.on_event(Event::GroupAvatar { group_id: "a".to_string() }, true);
    assert!(matches!(&todo[0], Effect::ForgetGroupAvatar { group_id } if group_id == "a"));
    assert_eq!(app.on_event(Event::Delivered, true).len(), 0);
}

#[test]
fn events_of_files_calls_and_groups() {
    let mut app = start();
    let id = app.contacts[0].contact_id.clone();
    app.on_event(
        Event::FileOffer { contact_id: id.clone(), transfer_id: 1, filename: "f".to_string(), file_size: 2 },
        true,
    );
    app.on_event(Event::FileProgress { contact_id: id.clone(), transfer_id: 1, done: 1, total: 2 }, true);
    assert_eq!(app.messages.progress.len(), 1);
    app.on_event(
        Event::FileComplete { contact_id: id.clone(), transfer_id: 1, saved_path: String::new() },
        true,
    );
    assert_eq!(app.messages.progress.len(), 0);
    let failed = app.on_event(
        Event::FileFailed { contact_id: id.clone(), transfer_id: 1, reason: "x".to_string() },
        true,
    );
    assert_eq!(failed.len(), 1);
    let call = IncomingCall {
        nickname: "bob".to_string(),
        fingerprint: "F".to_string(),
        ip: "::2".to_string(),
        port: "1".to_string(),
    };
    assert_eq!(app.on_event(Event::Call(call), true).len(), 2);
    let invite = GroupInvite {
        from_nickname: "bob".to_string(),
        from_contact_id: id.clone(),
        group_id: "z".to_string(),
        group_name: "zed".to_string(),
        member_count: 3,
    };
    assert_eq!(app.on_event(Event::Invite(invite), true).len(), 1);
    assert_eq!(
        app.on_event(Event::InviteDeclined { contact_id: id.clone(), group_id: "a".to_string(), new_key: [6u8; 32] }, true).len(),
        1
    );
    assert_eq!(
        app.on_event(Event::MemberSynced { group_id: "a".to_string(), member: member(5, 2, false) }, true).len(),
        1
    );
    let mut kicked = group("b");
    kicked.members.remove(0);
    app.on_event(
        Event::GroupUpdated { group: kicked, now: 1 },
        true,
    );
    assert_eq!(app.groups.groups.len(), 1);
    let chat = Event::GroupChat {
        group_id: "a".to_string(),
        channel_id: "general".to_string(),
        fingerprint: "fp2".to_string(),
        nickname: "bob".to_string(),
        text: "hi".to_string(),
    };
    assert_eq!(app.on_event(chat, true).len(), 1);
}

#[test]
fn choosing_devices_and_adapters() {
    let mut app = start();
    assert!(!app.choose_adapter("", &adapters()));
    assert!(app.choose_adapter("zt0", &adapters()));
    assert_eq!(app.best_ipv6, "fd00::1");
    assert!(!app.choose_input(1));
    assert!(app.choose_input(0));
    assert_eq!(app.settings.mic, "mic1");
    assert!(app.choose_output(5));
    assert_eq!(app.settings.speakers, "");
    app.refresh_devices(names(&["x", "mic1"]), names(&["spk"]), &adapters());
    assert_eq!((app.calls.setup.selected_input, app.calls.setup.selected_output), (1, 0));
    assert_eq!(app.adapter_names, names(&["eth0", "zt0"]));
}

#[test]
fn the_firewall_is_asked_about() {
    let mut app = start();
    assert_eq!(app.answer_firewall(false), (None, None));
    assert!(!app.firewall.shown);
    app.settings.firewall_port = "9000".to_string();
    app.calls.setup.local_port = "9001".to_string();
    app.save_port();
    assert!(app.firewall.shown);
    assert_eq!(app.answer_firewall(true), (Some(9000), Some(9001)));
    assert_eq!(app.settings.firewall_port, "9001");
}

#[test]
fn a_group_is_created_and_grows() {
    let mut app = start();
    app.go_create();
    assert_eq!(app.group_form.selected, vec![false, false]);
    app.group_form.name = " team ".to_string();
    app.group_form.selected[0] = true;
    let new = NewGroup {
        group_id: "n".to_string(),
        group_key: [3u8; 32],
        created_at: "9".to_string(),
        joined_at: 9,
        call_mode: CallMode::Relay,
    };
    let invites = app.create_group(new);
    assert_eq!(invites.len(), 1);
    assert_eq!(app.groups.groups[2].name, "team");
    assert_eq!(app.groups.groups[2].text_channels.len(), 2);
    assert_eq!(app.groups.groups[2].text_channels[1].channel_id, "fallback");
    assert_eq!(app.groups.groups[2].voice_channels[0].channel_id, "voice_general");
    assert_eq!(app.groups.groups[2].members[0].address, "2001:db8::1");
    assert_eq!(app.group_form.name, "");
    assert!(app.groups.nav.view == GroupView::List);
    let invites = app.invite_members_to_group(2, &vec![true, true], 10).unwrap();
    assert_eq!(invites.len(), 0);
    assert_eq!(app.groups.groups[2].members.len(), 3);
    assert!(app.invite_members_to_group(9, &vec![true], 10).is_none());
    app.contacts.push(contact(7, ""));
    app.fit_ticks();
    assert_eq!(app.group_form.selected.len(), 3);
}

#[test]
fn opening_a_group_reads_its_general_channel() {
    let mut app = start();
    app.group_unread.groups.set("a", 2);
    for c in ["general", "room"] {
        app.group_unread.channels.push(ChannelUnread {
            group_id: "a".to_string(),
            channel_id: c.to_string(),
            count: 4,
        });
    }
    app.open_group(0);
    assert!(!app.group_unread.groups.has("a"));
    assert_eq!(app.group_unread.channels.len(), 1);
    app.select_text_channel("room");
    assert_eq!(app.group_unread.channels.len(), 0);
    assert_eq!(app.groups.nav.channel, "room");
    app.see_shown_group();
}

#[test]
fn channels_are_listed() {
    let mut app = start();
    assert_eq!(app.channels_sidebar(&Vec::new()).text.len(), 0);
    app.open_group(0);
    app.group_unread.channels.push(ChannelUnread {
        group_id: "a".to_string(),
        channel_id: "fallback".to_string(),
        count: 4,
    });
    app.toggle_voice_form();
    app.groups.nav.voice_name = " ".to_string();
    assert_eq!(app.create_voice_channel("v2".to_string(), 5).len(), 0);
    assert!(app.groups.nav.voice_creating);
    app.groups.nav.voice_name = "Quiet Room".to_string();
    assert_eq!(app.create_voice_channel("v2".to_string(), 5).len(), 2);
    assert!(!app.groups.nav.voice_creating);
    assert_eq!(app.groups.nav.voice_name, "");
    app.groups.groups[0].text_channels.push(channel("room"));
    let presence = vec![ChannelPresence {
        channel_id: "v2".to_string(),
        present: vec![
            CallPresence { contact_id: app.contacts[0].contact_id.clone(), mode: 1 },
            CallPresence { contact_id: "stranger".to_string(), mode: 1 },
        ],
    }];
    let bar = app.channels_sidebar(&presence);
    assert!(bar.is_admin);
    let labels: Vec<&str> = bar.text.iter().map(|r| r.label.as_str()).collect();
    assert_eq!(labels, vec!["# general", "# fallback", "# room"]);
    assert!(bar.text[0].selected && !bar.text[0].deletable);
    assert_eq!(bar.text[1].unread, 4);
    assert!(bar.text[2].deletable);
    assert_eq!(bar.voice[1].label, "\u{bb} quiet-room");
    assert_eq!(bar.voice[1].names, names(&["nick2", "?"]));
    assert!(!bar.voice[0].deletable && bar.voice[1].deletable);
    app.groups.delete_text_channel("room", &ME, 1);
    assert_eq!(app.channels_sidebar(&presence).text.len(), 2);
    app.select_voice_channel("v2");
    assert_eq!(app.groups.nav.channel, "v2");
    app.toggle_text_form();
    assert!(app.groups.nav.channel_creating);
}

#[test]
fn other_members_change_no_channel() {
    let mut app = start();
    app.open_group(0);
    app.groups.groups[0].members[0].is_admin = false;
    app.toggle_voice_form();
    app.toggle_text_form();
    assert!(!app.groups.nav.voice_creating && !app.groups.nav.channel_creating);
    app.groups.nav.voice_name = "room".to_string();
    assert_eq!(app.create_voice_channel("v2".to_string(), 5).len(), 0);
    assert_eq!(app.groups.groups[0].voice_channels.len(), 1);
    let bar = app.channels_sidebar(&Vec::new());
    assert!(!bar.is_admin && !bar.voice[0].deletable && !bar.text[0].deletable);
}

#[test]
fn only_administrators_govern_and_not_themselves() {
    let mut app = start();
    let key = [8u8; 32];
    assert_eq!(app.govern_group(0, SettingsAction::Kick(0), key).len(), 0);
    assert_eq!(app.govern_group(0, SettingsAction::Demote(0), key).len(), 0);
    assert_eq!(app.govern_group(0, SettingsAction::Demote(1), key).len(), 0);
    assert_eq!(app.govern_group(0, SettingsAction::Rename(" a ".to_string()), key).len(), 0);
    assert_eq!(app.govern_group(9, SettingsAction::Delete, key).len(), 0);
    assert_eq!(app.groups.groups[0].members.len(), 2);
    assert_eq!(app.govern_group(0, SettingsAction::Kick(1), key).len(), 2);
    assert_eq!(app.groups.groups[0].members.len(), 1);
    assert_eq!(app.groups.groups[0].group_key, key);
    app.groups.groups[1].members[0].is_admin = false;
    assert_eq!(app.govern_group(1, SettingsAction::Delete, key).len(), 0);
    assert_eq!(app.groups.groups.len(), 2);
}

#[test]
fn a_voice_channel_before_joining() {
    let mut app = start();
    app.open_group(0);
    let busy = vec![CallPresence { contact_id: app.contacts[0].contact_id.clone(), mode: 0 }];
    assert_eq!(app.choose_call_mode(CallMode::P2P, &busy).len(), 0);
    assert!(app.groups.groups[0].call_mode == CallMode::Relay);
    assert_eq!(app.choose_call_mode(CallMode::P2P, &Vec::new()).len(), 2);
    assert!(app.groups.groups[0].call_mode == CallMode::P2P);
    let idle = voice_idle(&app.groups.groups[0], "voice_general", &Vec::new(), &app.contacts);
    assert_eq!(idle.title, "\u{bb} general");
    assert_eq!(idle.status, "No active call \u{2014} you will start a new session");
    assert_eq!(idle.button, "Start Voice Channel");
    assert!(idle.locked.is_none());
    let present = vec![CallPresence { contact_id: app.contacts[0].contact_id.clone(), mode: 1 }];
    let busy = voice_idle(&app.groups.groups[0], "none", &present, &app.contacts);
    assert_eq!(busy.title, "\u{bb} Voice");
    assert_eq!(busy.status, "A call is in progress (1 member)");
    assert_eq!(busy.names, "nick2");
    assert!(busy.locked == Some(CallMode::P2P));
    assert_eq!(busy.button, "Join Call");
}

#[test]
fn sharing_in_a_group_call() {
    let mut app = start();
    app.toggle_group_mic();
    assert!(!app.groups.call.mic);
    app.groups.call.webcam_sharing = true;
    let todo = app.press_group_screen(names(&["loop"]), names(&["d"]));
    assert!(matches!(todo[0], Effect::StopSharing));
    assert!(!app.groups.call.webcam_sharing);
    assert!(app.calls.media.show_screen_popup);
    assert_eq!(app.press_group_webcam(names(&["cam"])).len(), 0);
    assert!(app.calls.media.show_webcam_popup);
    app.groups.call.screen_sharing = true;
    assert_eq!(app.press_group_screen(names(&[]), names(&[])).len(), 1);
    assert!(!app.groups.call.screen_sharing);
    assert_eq!(app.calls.media.loopback_devices, names(&["loop"]));
}

#[test]
fn a_chat_is_opened_from_the_contact() {
    let mut app = start();
    let id = app.contacts[0].contact_id.clone();
    assert_eq!(app.message_contact(&id).len(), 2);
    assert!(app.calls.tab == SidebarTab::Messages);
    assert_eq!(app.messages.active_chat, Some(id));
    assert!(matches!(app.calls.screen, Screen::Setup));
}

#[test]
fn group_messages_are_sent() {
    let mut app = start();
    app.groups.nav.chat_input = "hi".to_string();
    assert!(app.send_group_chat().is_none());
    assert_eq!(app.groups.nav.chat_input, "hi");
    app.open_group(0);
    app.groups.nav.channel = "fallback".to_string();
    assert!(app.send_group_chat().is_none());
    assert_eq!(app.groups.nav.chat_input, "hi");
    app.groups.nav.channel = "general".to_string();
    app.groups.nav.chat_input = "  ".to_string();
    assert!(app.send_group_chat().is_none());
    assert_eq!(app.groups.nav.chat_input, "");
    app.groups.nav.chat_input = " hi ".to_string();
    let sent = app.send_group_chat().unwrap();
    assert_eq!(app.groups.nav.chat_input, "");
    assert_eq!((sent.group_id.as_str(), sent.channel_id.as_str(), sent.text.as_str()), ("a", "general", "hi"));
    assert_eq!(sent.recipients.len(), 1);
    assert_eq!(sent.recipients[0].address, "[::2]:9000");
    app.groups.call.chat_input = " yo ".to_string();
    app.groups.call.channel = Some("voice_general".to_string());
    app.groups.call.connected = true;
    app.groups.call.group = Some(CallGroup { group_id: "a".to_string(), members: Vec::new() });
    let todo = app.send_group_call_chat();
    assert_eq!(todo.len(), 2);
    assert!(matches!(&todo[0], Effect::SendGroupCallMessage { text } if text == "yo"));
    assert!(matches!(&todo[1], Effect::AppendGroupMessage { group_id, fingerprint, nickname, text, .. }
        if group_id == "a" && fingerprint == "fp1" && nickname == "own" && text == "yo"));
    assert_eq!(app.groups.call.messages[0].sender_nickname, "own");
    app.groups.call.chat_input = " ".to_string();
    assert_eq!(app.send_group_call_chat().len(), 0);
    assert_eq!(app.groups.call.chat_input, "");
}

#[test]
fn messages_in_a_group_call_are_shown() {
    let mut app = start();
    app.groups.call.members = vec![member(1, 0, true), member(2, 1, false)];
    for nick in ["own", "nick2", "nick2", "other"] {
        app.groups.call.messages.push(GroupChatMsg {
            sender_index: 0,
            sender_nickname: nick.to_string(),
            text: String::new(),
        });
    }
    let rows = app.call_rows();
    assert!(rows[0].own && rows[0].headed && rows[0].contact_id.is_none());
    assert_eq!(rows[1].contact_id, Some(derive_contact_id(&ME, &[2u8; 32])));
    assert!(!rows[2].headed);
    assert!(rows[3].contact_id.is_none() && rows[3].headed);
}

#[test]
fn messages_in_a_channel_are_shown() {
    let sender = |fp: &str, nick: &str| Sender { fingerprint: fp.to_string(), nickname: nick.to_string() };
    let members = vec![member(1, 0, true), member(2, 1, false)];
    let rows = chat_rows(
        &vec![sender("", "own"), sender("fp1", "own"), sender("fp2", "bob"), sender("fp9", "eve")],
        "fp1",
        &members,
        &ME,
    );
    assert!(rows[0].own && rows[0].headed);
    assert!(rows[1].own && !rows[1].headed);
    assert_eq!(rows[2].contact_id, Some(derive_contact_id(&ME, &[2u8; 32])));
    assert!(rows[3].contact_id.is_none() && !rows[3].own);
}

#[test]
fn files_are_shown_by_their_state() {
    let transfers = vec![Transfer { contact_id: "c".to_string(), transfer_id: 4, done: 1, total: 2 }];
    let row = |from_me: bool, id: u32, status: FileStatus<String>, path: Option<&str>| {
        file_row("c", from_me, id, &status, &path.map(|p| p.to_string()), &transfers)
    };
    let offered = row(false, 4, FileStatus::Offered, None);
    assert!(offered.can_answer && offered.line.is_none());
    assert_eq!(row(true, 4, FileStatus::Offered, None).line, Some("Waiting for response...".to_string()));
    let running = row(false, 4, FileStatus::Accepted, None);
    assert_eq!(running.progress, Some((1, 2)));
    assert!(running.can_cancel && running.line.is_none());
    assert_eq!(row(false, 5, FileStatus::Accepted, None).line, Some("Transferring...".to_string()));
    let done = row(false, 4, FileStatus::Completed, Some("/tmp/f"));
    assert_eq!(done.saved_path, Some("/tmp/f".to_string()));
    assert!(row(false, 4, FileStatus::Completed, Some("")).saved_path.is_none());
    assert_eq!(row(false, 4, FileStatus::Rejected, None).line, Some("Rejected".to_string()));
    assert_eq!(row(false, 4, FileStatus::Cancelled, None).line, Some("Cancelled".to_string()));
    assert_eq!(row(false, 4, FileStatus::Failed("x".to_string()), None).line, Some("Failed: x".to_string()));
}

#[test]
fn initials_and_headings() {
    assert_eq!(initial_of("bob"), "B");
    assert_eq!(initial_of("\u{e4}nn"), "\u{c4}");
    assert_eq!(initial_of("\u{df}x"), "SS");
    assert_eq!(initial_of(""), "?");
    assert_eq!(members_heading(12, 3), "Members (12) \u{2014} 3 online");
    assert_eq!(members_warning(8), None);
    assert_eq!(members_warning(9), Some(">8 \u{2014} quality may degrade".to_string()));
}
