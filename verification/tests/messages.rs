use hosteld::call::SidebarTab;
use hosteld::effects::{Effect, FileStatus, PresenceStatus};
use hosteld::identity::{pubkey_hex, Contact};
use hosteld::messages::{
    chat_title, contact_name, friend_rows, is_found_by, list_conversations, resolve_peer_addr, LastMessage,
    Messages, Request, RequestAnswer, RequestForm,
};
use hosteld::settings::Settings;
use hosteld::table::Table;

const ME: [u8; 32] = [1u8; 32];

fn contact(key: u8, nickname: &str, address: &str) -> Contact {
    Contact {
        fingerprint: format!("FP{}", key),
        pubkey: [key; 32],
        nickname: nickname.to_string(),
        contact_id: format!("c{}", key),
        first_seen: "0".to_string(),
        last_seen: "0".to_string(),
        last_address: address.to_string(),
        last_port: if address.is_empty() { String::new() } else { "9000".to_string() },
        call_count: 0,
    }
}

fn request(id: &str, ip: &str) -> Request {
    Request {
        request_id: id.to_string(),
        nickname: "n".to_string(),
        ip: ip.to_string(),
        fingerprint: "f".to_string(),
    }
}

#[test]
fn an_unseen_message_counts_and_sounds() {
    let mut m = Messages::new();
    let todo = m.on_message(SidebarTab::Call, true, true, "c2", "hi".to_string());
    assert_eq!(m.unread.get_or("c2", 0), 1);
    assert_eq!(todo.len(), 2);
    assert!(matches!(&todo[0], Effect::AppendMessage { contact_id, from_me: false, text, load: true }
        if contact_id == "c2" && text == "hi"));
    assert!(matches!(todo[1], Effect::PlaySound));
    m.on_message(SidebarTab::Call, true, false, "c2", "again".to_string());
    assert_eq!(m.unread.get_or("c2", 0), 2);
    assert_eq!(m.total_unread(), 2);
    assert_eq!(m.checked_total_unread(), Some(2));
    m.unread.set("c3", u32::MAX);
    assert_eq!(m.checked_total_unread(), None);
}

#[test]
fn a_message_in_view_neither_counts_nor_sounds() {
    let mut m = Messages::new();
    m.open_msg_chat("c2", &Vec::new());
    let todo = m.on_message(SidebarTab::Messages, true, true, "c2", "hi".to_string());
    assert_eq!(m.total_unread(), 0);
    assert_eq!(todo.len(), 1);
    let todo = m.on_message(SidebarTab::Call, true, true, "c2", "hi".to_string());
    assert_eq!(m.total_unread(), 1);
    assert_eq!(todo.len(), 2);
}

#[test]
fn choosing_a_conversation_closes_the_form() {
    let mut m = Messages::new();
    m.toggle_add_friend();
    assert_eq!(m.choose_conversation("c2", &vec![contact(2, "bob", "::2")]).len(), 2);
    assert!(!m.show_add_friend);
    assert_eq!(m.active_chat, Some("c2".to_string()));
}

#[test]
fn nobody_deletes_oneself() {
    let contacts = vec![contact(1, "own", ""), contact(2, "bob", ""), contact(3, "YO (you)", "")];
    let mut m = Messages::new();
    let rows = list_conversations(&contacts, &Settings::default(), &ME, &m, &Table::new());
    let row = |id: &str| rows.iter().find(|r| r.contact_id == id).unwrap();
    m.ask_delete_contact(row("c1"), &contacts);
    m.ask_delete_contact(row("c3"), &contacts);
    m.ask_delete_contact(row("c2"), &vec![contact(1, "own", "")]);
    assert_eq!(m.confirm_delete_contact, None);
    m.ask_delete_contact(row("c2"), &contacts);
    assert_eq!(m.confirm_delete_contact, Some(1));
    assert_eq!(chat_title(Some(&contacts[1])), "bob");
    assert_eq!(chat_title(None), "Unknown");
}

#[test]
fn no_sound_in_a_call_or_too_soon() {
    let mut m = Messages::new();
    assert_eq!(m.on_message(SidebarTab::Call, false, true, "c2", "a".to_string()).len(), 1);
    assert_eq!(m.on_message(SidebarTab::Call, true, false, "c2", "a".to_string()).len(), 1);
}

#[test]
fn opening_a_chat_reads_it_and_connects() {
    let mut m = Messages::new();
    m.on_message(SidebarTab::Call, false, false, "c2", "hi".to_string());
    let todo = m.open_msg_chat("c2", &vec![contact(2, "bob", "::2")]);
    assert_eq!(m.total_unread(), 0);
    assert_eq!(m.active_chat, Some("c2".to_string()));
    assert_eq!(todo.len(), 2);
    assert!(matches!(&todo[0], Effect::LoadHistory { contact_id } if contact_id == "c2"));
    assert!(matches!(&todo[1], Effect::Connect { address, pubkey, .. }
        if address == "[::2]:9000" && *pubkey == [2u8; 32]));
    assert_eq!(m.open_msg_chat("c3", &vec![contact(3, "eve", "")]).len(), 1);
}

#[test]
fn a_peer_that_goes_is_shown_offline() {
    let mut m = Messages::new();
    assert!(m.presence_of("c2") == PresenceStatus::Offline);
    m.on_peer_status("c2", true);
    assert!(m.presence_of("c2") == PresenceStatus::Online);
    m.on_presence("c2", PresenceStatus::Away);
    assert!(m.presence_of("c2") == PresenceStatus::Away);
    m.on_peer_status("c2", false);
    assert!(m.presence_of("c2") == PresenceStatus::Offline);
}

#[test]
fn requests_are_listed_and_answered_once() {
    let mut m = Messages::new();
    m.requests.on_request(request("r1", "::7"));
    m.requests.on_request(request("r1", "::8"));
    m.requests.on_request(request("r2", "::9"));
    assert_eq!(m.requests.incoming.len(), 2);
    let todo = m.requests.answer("r1", RequestAnswer::Block);
    assert!(matches!(&todo[0], Effect::BlockRequest { request_id, ip } if request_id == "r1" && ip == "::7"));
    assert_eq!(m.requests.incoming.len(), 1);
    let todo = m.requests.answer("r2", RequestAnswer::Accept);
    assert!(matches!(&todo[0], Effect::AcceptRequest { request_id } if request_id == "r2"));
    let todo = m.requests.answer("gone", RequestAnswer::Reject);
    assert!(matches!(&todo[0], Effect::RejectRequest { request_id } if request_id == "gone"));
}

#[test]
fn a_request_needs_address_and_port() {
    let mut m = Messages::new();
    assert!(matches!(m.requests.send_contact_request(), RequestForm::Incomplete));
    assert_eq!(m.requests.status, "Error: IP address is required");
    assert!(m.requests.status_is_failure());
    m.requests.ip_input = " ::2 ".to_string();
    assert!(matches!(m.requests.send_contact_request(), RequestForm::Incomplete));
    assert_eq!(m.requests.status, "Error: Port is required");
    m.requests.port_input = "9000".to_string();
    match m.requests.send_contact_request() {
        RequestForm::Try { bracketed, plain } => {
            assert_eq!(bracketed, "[::2]:9000");
            assert_eq!(plain, "::2:9000");
        }
        RequestForm::Incomplete => panic!("complete"),
    }
    m.requests.request_tried(None);
    assert_eq!(m.requests.status, "Error: Invalid IP or port");
    m.requests.request_tried(Some("[::2]:9000"));
    assert_eq!(m.requests.status, "Request sent to [::2]:9000");
    assert!(!m.requests.status_is_failure());
    assert_eq!(m.requests.ip_input, "");
}

#[test]
fn an_accepted_request_opens_the_chat() {
    let mut m = Messages::new();
    let todo = m.on_request_accepted("c2");
    assert!(matches!(todo[0], Effect::ReloadContacts));
    assert_eq!(m.requests.status, "Request accepted! Contact saved.");
    assert_eq!(m.open_pending(&vec![contact(2, "bob", "::2")]).len(), 2);
    assert_eq!(m.active_chat, Some("c2".to_string()));
    assert_eq!(m.open_pending(&Vec::new()).len(), 0);
    m.requests.on_failed("[::2]:1", "timeout");
    assert_eq!(m.requests.status, "Failed ([::2]:1): timeout");
    assert!(m.requests.status_is_failure());
}

#[test]
fn a_transfer_is_followed() {
    let mut m = Messages::new();
    m.on_file_offer(SidebarTab::Call, "c2", 7, "a.txt".to_string(), 100);
    assert_eq!(m.total_unread(), 1);
    let first = m.on_file_progress("c2", 7, 10, 100);
    assert!(matches!(&first[0], Effect::SetFileStatus { status: FileStatus::Accepted, load: false, .. }));
    assert_eq!(m.on_file_progress("c2", 7, 50, 100).len(), 0);
    assert_eq!(m.progress.len(), 1);
    assert_eq!(m.progress[0].done, 50);
    let done = m.on_file_complete("c2", 7, "/tmp/a.txt".to_string());
    assert!(matches!(&done[0], Effect::SetFileStatus { status: FileStatus::Completed, saved_path: Some(p), .. }
        if p == "/tmp/a.txt"));
    assert_eq!(m.progress.len(), 0);
    let sent = m.on_file_complete("c2", 8, String::new());
    assert!(matches!(&sent[0], Effect::SetFileStatus { saved_path: None, .. }));
    let failed = m.on_file_failed("c2", 9, "disk full".to_string());
    assert!(matches!(&failed[0], Effect::SetFileStatus { status: FileStatus::Failed(why), .. } if why == "disk full"));
}

#[test]
fn offered_files_are_answered() {
    let mut m = Messages::new();
    assert!(m.accept_file("c2", 1).iter().any(|a| matches!(a, Effect::AcceptFile { transfer_id: 1, .. })));
    assert!(m.reject_file("c2", 1).iter().any(|a| matches!(a, Effect::RejectFile { transfer_id: 1, .. })));
    m.on_file_progress("c2", 1, 1, 2);
    let todo = m.cancel_file("c2", 1);
    assert_eq!(m.progress.len(), 0);
    assert!(matches!(&todo[0], Effect::SetFileStatus { status: FileStatus::Cancelled, .. }));
    assert!(matches!(&todo[1], Effect::CancelFile { transfer_id: 1, .. }));
}

#[test]
fn texts_are_sent_trimmed() {
    let mut m = Messages::new();
    let bob = contact(2, "bob", "::2");
    m.input = "  ".to_string();
    assert_eq!(m.send_text("c2", Some(&bob)).len(), 0);
    m.input = " hello ".to_string();
    let todo = m.send_text("c2", Some(&bob));
    assert_eq!(m.input, "");
    assert!(matches!(&todo[0], Effect::AppendMessage { from_me: true, text, .. } if text == "hello"));
    assert!(matches!(&todo[1], Effect::SendText { address, text, .. } if address == "[::2]:9000" && text == "hello"));
    m.input = "kept".to_string();
    assert_eq!(m.send_text("c3", None).len(), 1);
}

#[test]
fn deleting_needs_an_answer() {
    let mut m = Messages::new();
    let all = vec![contact(2, "bob", "::2")];
    m.confirm_delete_contact = Some(0);
    assert_eq!(m.answer_delete_contact(&all, false).len(), 0);
    assert_eq!(m.confirm_delete_contact, None);
    m.open_msg_chat("c2", &all);
    m.confirm_delete_contact = Some(0);
    let todo = m.answer_delete_contact(&all, true);
    assert!(matches!(&todo[0], Effect::DeleteContact { contact_id, .. } if contact_id == "c2"));
    assert_eq!(m.active_chat, None);
    m.confirm_delete_chat = Some("c2".to_string());
    assert!(matches!(&m.answer_delete_chat("c2", true)[0], Effect::DeleteHistory { .. }));
    assert_eq!(m.confirm_delete_chat, None);
}

#[test]
fn older_messages_come_in_pages() {
    let mut m = Messages::new();
    assert_eq!(m.skipped_messages("c2", 250), 150);
    assert_eq!(m.skipped_messages("c2", 99), 0);
    assert!(m.show_older("c2", 250));
    assert_eq!(m.skipped_messages("c2", 250), 50);
    assert!(m.show_older("c2", 250));
    assert!(!m.show_older("c2", 250));
}

#[test]
fn peer_addresses_need_both_parts() {
    assert_eq!(resolve_peer_addr(&contact(2, "bob", "::2")), Some("[::2]:9000".to_string()));
    assert_eq!(resolve_peer_addr(&contact(2, "bob", "")), None);
}

#[test]
fn contacts_are_found_by_any_case() {
    let c = contact(2, "Bob", "");
    assert!(is_found_by(&c, "bo"));
    assert!(is_found_by(&c, "fp2"));
    assert!(!is_found_by(&c, "x"));
    assert_eq!(contact_name(&c), "Bob");
    assert_eq!(contact_name(&contact(2, "", "")), "FP2");
}

#[test]
fn friends_list_starts_with_oneself() {
    let all = vec![contact(2, "bob", ""), contact(1, "me", ""), contact(3, "BOBBY", "")];
    assert_eq!(friend_rows(&all, &ME, ""), vec![1, 0, 2]);
    assert_eq!(friend_rows(&all, &ME, "Bob"), vec![0, 2]);
}

#[test]
fn conversations_are_ordered() {
    let mut m = Messages::new();
    m.on_peer_status("c3", true);
    let all = vec![contact(2, "bob", ""), contact(3, "eve", ""), contact(4, "dan", ""), contact(5, "bad", "")];
    let mut settings = Settings::default();
    settings.block_contact(&pubkey_hex(&[5u8; 32]));
    let mut last: Table<LastMessage> = Table::new();
    last.set("c4", LastMessage { from_me: true, text: "a message that is rather long".to_string(), timestamp: 9 });
    let rows = list_conversations(&all, &settings, &ME, &m, &last);
    let ids: Vec<&str> = rows.iter().map(|r| r.contact_id.as_str()).collect();
    assert_eq!(ids, vec!["c3", "c4", "c2"]);
    assert_eq!(rows[1].preview, "You: a message that is rather ");
    assert_eq!(rows[2].preview, "");
}
