use hosteld::channels::Channel;
use hosteld::group::{
    adopt_call_mode, apply_update, can_create, can_rename, create_group, find_by_key,
    find_contact, founding_member_count, group_chat_recipients, group_member_contacts, has_admin,
    has_member, invite_count, invite_members, invites_to_added, invites_to_new_group,
    my_sender_index, remove_member, rename_group, role_label, sender_fingerprint, set_admin, sync_member,
    CallMode, CallPresence, Group, GroupMember, GroupRole, NewGroup,
};
use hosteld::identity::{derive_contact_id, Contact, Identity};

const ME: [u8; 32] = [1u8; 32];

fn contact(key: u8, address: &str, port: &str) -> Contact {
    Contact {
        fingerprint: format!("fp{}", key),
        pubkey: [key; 32],
        nickname: format!("nick{}", key),
        contact_id: derive_contact_id(&ME, &[key; 32]),
        first_seen: "0".to_string(),
        last_seen: "0".to_string(),
        last_address: address.to_string(),
        last_port: port.to_string(),
        call_count: 0,
    }
}

fn member(key: u8, index: u16, address: &str) -> GroupMember {
    GroupMember {
        pubkey: [key; 32],
        nickname: format!("nick{}", key),
        fingerprint: format!("fp{}", key),
        sender_index: index,
        address: address.to_string(),
        port: "9000".to_string(),
        is_admin: false,
        joined_at: 0,
    }
}

fn channel(id: &str, deleted: bool) -> Channel {
    Channel {
        channel_id: id.to_string(),
        name: id.to_string(),
        created_at: 0,
        created_by: ME,
        deleted,
        deleted_at: None,
    }
}

fn me() -> Identity {
    Identity { secret: [0u8; 32], pubkey: ME, fingerprint: "fp1".to_string() }
}

fn made(selected: &Vec<bool>, contacts: &Vec<Contact>) -> Group {
    create_group(
        &me(),
        "own",
        "fd00::1",
        "9000",
        contacts,
        selected,
        "  team ",
        NewGroup {
            group_id: "g1".to_string(),
            group_key: [9u8; 32],
            created_at: "5".to_string(),
            joined_at: 6,
            call_mode: CallMode::Relay,
        },
    )
}

#[test]
fn a_new_group_numbers_its_members() {
    let contacts = vec![contact(2, "::2", "9"), contact(3, "::3", "9"), contact(4, "", "")];
    let g = made(&vec![true, false, true], &contacts);
    assert_eq!(g.name, "team");
    assert_eq!(g.members.len(), 3);
    assert_eq!(g.next_sender_index, 3);
    let indices: Vec<u16> = g.members.iter().map(|m| m.sender_index).collect();
    assert_eq!(indices, vec![0, 1, 2]);
    assert!(g.members[0].is_admin && !g.members[1].is_admin);
    assert_eq!(g.members[0].address, "fd00::1");
    assert_eq!((g.members[0].joined_at, g.members[2].joined_at), (0, 6));
    assert_eq!(g.members[2].pubkey, [4u8; 32]);
    assert_eq!(g.key_version, 0);
    assert!(g.previous_key.is_none());
}

#[test]
fn ticks_beyond_the_list_are_off() {
    let contacts = vec![contact(2, "", ""), contact(3, "", "")];
    assert_eq!(made(&vec![true], &contacts).members.len(), 2);
}

#[test]
fn a_group_needs_a_name_and_a_member() {
    assert!(can_create("x", &vec![false, true]));
    assert!(!can_create("x", &vec![false]));
    assert!(!can_create("  ", &vec![true]));
    assert_eq!(founding_member_count(&vec![true, false, true]), 3);
}

#[test]
fn inviting_goes_on_numbering() {
    let contacts = vec![contact(2, "::2", "9"), contact(3, "::3", "9"), contact(4, "", "9")];
    let mut g = made(&vec![true, false, false], &contacts);
    let selected = vec![true, true, true];
    assert_eq!(invite_count(&contacts, &selected, &g.members), 2);
    assert_eq!(invite_members(&mut g, &contacts, &selected, 7), 2);
    assert_eq!(g.members.len(), 4);
    assert_eq!(g.members[2].sender_index, 2);
    assert_eq!(g.members[3].sender_index, 3);
    assert_eq!(g.next_sender_index, 4);
    let invites = invites_to_added(&g.members, 2, &ME);
    assert_eq!(invites.len(), 1);
    assert_eq!(invites[0].your_sender_index, 2);
    assert_eq!(invites[0].to.address, "[::3]:9");
    assert_eq!(invite_members(&mut g, &contacts, &selected, 8), 0);
}

#[test]
fn invitations_to_a_new_group() {
    let contacts = vec![contact(2, "::2", "9"), contact(3, "", "9")];
    let g = made(&vec![true, true], &contacts);
    let invites = invites_to_new_group(&g.members, &contacts, &ME);
    assert_eq!(invites.len(), 1);
    assert_eq!(invites[0].to.contact_id, contacts[0].contact_id);
    assert_eq!(invites[0].to.address, "[::2]:9");
    assert_eq!(invites[0].your_sender_index, 1);
}

#[test]
fn updates_go_to_the_others() {
    let members = vec![member(1, 0, "::1"), member(2, 1, "::2"), member(3, 2, "")];
    let to = group_member_contacts(&members, &ME);
    assert_eq!(to.len(), 1);
    assert_eq!(to[0].address, "[::2]:9000");
    assert_eq!(to[0].contact_id, derive_contact_id(&ME, &[2u8; 32]));
    assert_eq!(to[0].pubkey, [2u8; 32]);
}

#[test]
fn messages_go_to_the_contact_before_the_member() {
    let members = vec![member(1, 0, "::1"), member(2, 1, "::2"), member(3, 2, "::3"), member(4, 3, "::4")];
    let contacts = vec![contact(2, "fd00::2", "1"), contact(4, "", "1")];
    let to = group_chat_recipients(&members, &contacts, &ME);
    let addresses: Vec<&str> = to.iter().map(|r| r.address.as_str()).collect();
    assert_eq!(addresses, vec!["[fd00::2]:1", "[::3]:9000"]);
}

#[test]
fn looking_up_members_and_contacts() {
    let mut members = vec![member(2, 5, ""), member(3, 6, "")];
    members[1].is_admin = true;
    assert!(has_member(&members, &[2u8; 32]));
    assert!(!has_member(&members, &ME));
    assert!(has_admin(&members, &[3u8; 32]));
    assert!(!has_admin(&members, &[2u8; 32]));
    assert_eq!(my_sender_index(&members, &[3u8; 32]), 6);
    assert_eq!(my_sender_index(&members, &ME), 0);
    assert_eq!(sender_fingerprint(&members, 5), "fp2");
    assert_eq!(sender_fingerprint(&members, 9), "");
    let contacts = vec![contact(2, "", ""), contact(3, "", "")];
    assert_eq!(find_contact(&contacts, &contacts[1].contact_id), 1);
    assert_eq!(find_contact(&contacts, "none"), 2);
    assert_eq!(find_by_key(&contacts, &[3u8; 32]), 1);
    assert_eq!(find_by_key(&contacts, &ME), 2);
}

#[test]
fn administrators_are_named() {
    let mut g = made(&vec![true], &vec![contact(2, "", "")]);
    assert!(set_admin(&mut g, 1, true));
    assert!(g.members[1].is_admin);
    assert!(!set_admin(&mut g, 2, true));
}

#[test]
fn renaming() {
    let mut g = made(&vec![true], &vec![contact(2, "", "")]);
    assert!(!can_rename(&g, " team "));
    assert!(!can_rename(&g, "  "));
    assert!(can_rename(&g, " crew "));
    rename_group(&mut g, " crew ");
    assert_eq!(g.name, "crew");
}

#[test]
fn members_are_synced_once() {
    let mut g = made(&vec![true], &vec![contact(2, "", "")]);
    assert!(sync_member(&mut g, member(5, 2, "")));
    assert!(!sync_member(&mut g, member(5, 3, "")));
    assert_eq!(g.members.len(), 3);
    assert_eq!(g.members[2].sender_index, 2);
}

#[test]
fn a_received_copy_is_merged() {
    let contacts = vec![contact(2, "", "")];
    let mut g = made(&vec![true], &contacts);
    g.text_channels = vec![channel("general", false), channel("room", false)];
    let mut received = made(&vec![true], &contacts);
    received.name = "renamed".to_string();
    received.text_channels = vec![channel("general", false), channel("room", true)];
    let (moved, resend) = apply_update(&mut g, &received, &ME, 10);
    assert_eq!(g.name, "renamed");
    assert_eq!(moved.len(), 1);
    assert_eq!(moved[0].channel_id, "room");
    assert!(resend);
    assert_eq!(g.text_channels.len(), 3);
    let fallback = g.text_channels.iter().find(|c| c.channel_id == "fallback").unwrap();
    assert_eq!((fallback.created_at, fallback.deleted), (10, false));
    assert!(g.text_channels.iter().any(|c| c.channel_id == "general"));
}

#[test]
fn the_mode_of_a_call_in_progress_is_adopted() {
    let mut g = made(&vec![true], &vec![contact(2, "", "")]);
    let p2p = vec![CallPresence { contact_id: "a".to_string(), mode: 1 }];
    assert!(!adopt_call_mode(&mut g, &Vec::new()));
    assert!(adopt_call_mode(&mut g, &p2p));
    assert!(g.call_mode == CallMode::P2P);
    assert!(!adopt_call_mode(&mut g, &p2p));
    let relay = vec![CallPresence { contact_id: "a".to_string(), mode: 0 }];
    assert!(adopt_call_mode(&mut g, &relay));
    assert!(g.call_mode == CallMode::Relay);
}

#[test]
fn roles_in_a_call() {
    assert_eq!(role_label(CallMode::P2P, Some(GroupRole::Leader)), "P2P");
    assert_eq!(role_label(CallMode::Relay, Some(GroupRole::Leader)), "LEADER");
    assert_eq!(role_label(CallMode::Relay, None), "MEMBER");
}

#[test]
fn a_removed_member_loses_the_key() {
    let mut g = made(&vec![true, true], &vec![contact(2, "", ""), contact(3, "", "")]);
    remove_member(&mut g, &[2u8; 32], [8u8; 32]);
    assert!(!has_member(&g.members, &[2u8; 32]));
    assert!(has_member(&g.members, &[3u8; 32]) && has_member(&g.members, &ME));
    assert_eq!(g.group_key, [8u8; 32]);
    assert_eq!(g.previous_key, Some([9u8; 32]));
    assert_eq!(g.key_version, 1);
    assert_eq!(g.next_sender_index, 3);
}
