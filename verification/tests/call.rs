use hosteld::call::{audio_choice, audio_label, CallInfo, Calls, IncomingCall, Screen, SidebarTab};
use hosteld::effects::{Effect, PresenceStatus};
use hosteld::events::CallReport;
use hosteld::identity::Contact;
use hosteld::settings::Settings;

fn names(list: &[&str]) -> Vec<String> {
    list.iter().map(|s| s.to_string()).collect()
}

fn idle() -> Calls {
    Calls::new(names(&["mic"]), names(&["spk"]), 0, 0, "9000".to_string())
}

fn info(warning: Option<&str>) -> CallInfo {
    CallInfo {
        verification_code: "1234".to_string(),
        peer_fingerprint: "FP".to_string(),
        peer_nickname: "bob".to_string(),
        contact_id: "c2".to_string(),
        key_change_warning: warning.map(|w| w.to_string()),
        pending_contact: warning.map(|_| contact("::2", "7")),
    }
}

fn contact(address: &str, port: &str) -> Contact {
    Contact {
        fingerprint: "FP".to_string(),
        pubkey: [2u8; 32],
        nickname: "bob".to_string(),
        contact_id: "c2".to_string(),
        first_seen: "0".to_string(),
        last_seen: "0".to_string(),
        last_address: address.to_string(),
        last_port: port.to_string(),
        call_count: 0,
    }
}

fn incoming() -> IncomingCall {
    IncomingCall {
        nickname: "bob".to_string(),
        fingerprint: "FP".to_string(),
        ip: "::2".to_string(),
        port: "9100".to_string(),
    }
}

fn in_call() -> Calls {
    let mut c = idle();
    c.start_call(&mut Settings::default());
    c.on_connect_result(Ok(info(None)));
    c
}

#[test]
fn dialling_saves_the_settings_and_yields_the_socket() {
    let mut c = idle();
    let mut s = Settings::default();
    c.setup.peer_ip = "::2".to_string();
    let (address, todo) = c.start_call(&mut s);
    assert_eq!(address, "[::2]:9000");
    assert_eq!((s.mic.as_str(), s.speakers.as_str(), s.local_port.as_str()), ("mic", "spk", "9000"));
    assert!(matches!(todo[0], Effect::YieldSocket));
    assert!(matches!(todo[1], Effect::SaveSettings));
    assert!(matches!(c.screen, Screen::Connecting));
    assert!(c.running && c.mic_active);
}

#[test]
fn a_connected_call_shows_the_peer() {
    let c = in_call();
    assert!(matches!(c.screen, Screen::InCall));
    assert_eq!(c.peer.verification_code, "1234");
    assert_eq!(c.peer_label(), "bob:");
    assert!(!c.tab_enabled(SidebarTab::Messages));
    assert!(c.tab_enabled(SidebarTab::Call));
    assert!(c.tab_enabled(SidebarTab::Appearance));
}

#[test]
fn a_changed_key_is_asked_about() {
    let mut c = idle();
    c.start_call(&mut Settings::default());
    c.on_connect_result(Ok(info(Some("key changed"))));
    assert!(matches!(c.screen, Screen::KeyWarning));
    let kept = c.accept_new_key();
    assert!(kept.is_some());
    assert!(matches!(c.screen, Screen::InCall));
    assert!(c.peer.key_change_warning.is_none());
}

#[test]
fn a_rejected_key_ends_the_call() {
    let mut c = idle();
    c.start_call(&mut Settings::default());
    c.on_connect_result(Ok(info(Some("key changed"))));
    let todo = c.reject_new_key();
    assert!(matches!(todo[0], Effect::SignalHangup));
    assert!(matches!(c.screen, Screen::Setup));
    assert_eq!(c.peer.contact_id, "");
}

#[test]
fn failing_and_cancelling() {
    let mut c = idle();
    c.start_call(&mut Settings::default());
    c.on_connect_result(Err("no route".to_string()));
    assert!(matches!(&c.screen, Screen::Error(e) if e == "no route"));
    assert!(!c.running);
    c.leave_error();
    assert!(matches!(c.screen, Screen::Setup));
    c.start_call(&mut Settings::default());
    c.on_connect_result(Err("Cancelled".to_string()));
    assert!(matches!(c.screen, Screen::Setup));
    c.on_connect_result(Ok(info(None)));
    assert!(matches!(c.screen, Screen::Setup));
}

#[test]
fn hanging_up_forgets_everything() {
    let mut c = in_call();
    c.chat_input = "typed".to_string();
    c.media.has_video = true;
    let todo = c.hang_up();
    assert_eq!(todo.len(), 3);
    assert!(matches!(todo[0], Effect::SignalHangup));
    assert!(matches!(todo[1], Effect::ReloadContacts));
    assert!(matches!(todo[2], Effect::ReclaimSocket));
    assert!(matches!(c.screen, Screen::Setup));
    assert_eq!((c.peer.peer_nickname.as_str(), c.chat_input.as_str()), ("", ""));
    assert!(!c.running && !c.media.has_video);
    assert_eq!(c.hang_up().len(), 2);
}

#[test]
fn the_peer_hangs_up() {
    let mut c = in_call();
    assert_eq!(c.on_engine_state(true).len(), 0);
    let todo = c.on_engine_state(false);
    assert!(matches!(todo[2], Effect::LeaveFullscreen));
    assert!(matches!(c.screen, Screen::Setup));
    assert_eq!(c.on_engine_state(false).len(), 0);
    let mut d = in_call();
    assert_eq!(d.on_remote_hangup().len(), 2);
}

#[test]
fn a_frame_takes_in_all_reports() {
    let mut c = idle();
    c.start_call(&mut Settings::default());
    let (todo, over) = c.poll(CallReport {
        result: Some(Ok(info(None))),
        running: true,
        escape: false,
        idle_secs: 901,
    });
    assert!(!over);
    assert!(matches!(c.screen, Screen::InCall));
    assert_eq!(todo.len(), 1);
    assert!(matches!(todo[0], Effect::UpdatePresence(PresenceStatus::Away)));
    c.media.enter_fullscreen();
    let (todo, over) = c.poll(CallReport { result: None, running: true, escape: true, idle_secs: 900 });
    assert!(!over && !c.media.is_fullscreen);
    assert!(matches!(todo[0], Effect::LeaveFullscreen));
    assert!(matches!(todo[1], Effect::UpdatePresence(PresenceStatus::Online)));
    let (todo, over) = c.poll(CallReport { result: None, running: false, escape: true, idle_secs: 0 });
    assert!(over);
    assert_eq!(todo.len(), 3);
}

#[test]
fn the_screen_is_repainted_faster_with_video() {
    let mut c = in_call();
    assert_eq!(c.repaint_after(), 200);
    c.media.has_video = true;
    assert_eq!(c.repaint_after(), 33);
}

#[test]
fn fullscreen_video() {
    let mut c = in_call();
    assert!(!c.video_only());
    assert!(matches!(c.media.enter_fullscreen()[0], Effect::EnterFullscreen));
    assert!(c.video_only());
    assert!(matches!(c.media.leave_fullscreen()[0], Effect::LeaveFullscreen));
    assert_eq!(c.on_escape().len(), 0);
    c.media.has_video = true;
    c.media.end_viewing();
    assert!(!c.media.has_video);
}

#[test]
fn screen_and_camera_exclude_each_other() {
    let mut c = in_call();
    c.media.press_webcam_button(names(&["cam"]));
    assert!(c.media.show_webcam_popup);
    assert!(matches!(c.media.share_webcam()[0], Effect::StartWebcam { quality: 0, camera: 0 }));
    assert!(c.media.webcam_sharing);
    let todo = c.media.press_screen_button(names(&["loop"]), names(&["d0"]));
    assert!(matches!(todo[0], Effect::StopSharing));
    assert!(!c.media.webcam_sharing);
    c.media.selected_audio_device = 2;
    let todo = c.media.share_screen();
    assert!(matches!(&todo[0], Effect::StartScreen { audio_device: Some(a), display: 0, .. } if a == "loop"));
    assert!(c.media.screen_sharing && !c.media.webcam_sharing);
    c.media.press_screen_button(Vec::new(), Vec::new());
    assert!(!c.media.screen_sharing);
}

#[test]
fn without_a_camera_nothing_is_shared() {
    let mut c = in_call();
    c.media.press_webcam_button(Vec::new());
    assert_eq!(c.media.share_webcam().len(), 0);
    assert!(!c.media.webcam_sharing);
}

#[test]
fn audio_of_a_shared_screen() {
    let list = names(&["a", "b"]);
    assert_eq!(audio_choice(&list, 0), None);
    assert_eq!(audio_choice(&list, 1), Some(String::new()));
    assert_eq!(audio_choice(&list, 3), Some("b".to_string()));
    assert_eq!(audio_label(&list, 0), "None");
    assert_eq!(audio_label(&list, 1), "Default");
    assert_eq!(audio_label(&list, 2), "a");
    assert_eq!(audio_label(&list, 9), "Unknown");
}

#[test]
fn call_messages_are_trimmed() {
    let mut c = in_call();
    c.chat_input = "  ".to_string();
    assert_eq!(c.send_chat().len(), 0);
    c.chat_input = " hey ".to_string();
    assert!(matches!(&c.send_chat()[0], Effect::SendCallMessage { text } if text == "hey"));
    assert_eq!(c.chat_input, "");
}

#[test]
fn an_incoming_call_rings_once() {
    let mut c = idle();
    let todo = c.on_incoming_call(incoming());
    assert!(matches!(&todo[0], Effect::Notify { title, body }
        if title == "hostelD \u{2014} Incoming Call" && body == "bob #FP"));
    assert!(matches!(todo[1], Effect::StartRingtone));
    assert_eq!(c.on_incoming_call(incoming()).len(), 1);
    assert!(c.take_attention());
    assert!(!c.take_attention());
    let todo = c.reject_incoming();
    assert!(matches!(todo[0], Effect::StopRingtone));
    assert!(matches!(&todo[1], Effect::DismissCall { ip, reject: true } if ip == "::2"));
    assert_eq!(c.reject_incoming().len(), 0);
}

#[test]
fn an_incoming_call_is_taken() {
    let mut c = idle();
    let mut s = Settings::default();
    assert!(c.accept_incoming(&mut s).is_none());
    c.on_incoming_call(incoming());
    let (address, todo) = c.accept_incoming(&mut s).unwrap();
    assert_eq!(address, "[::2]:9100");
    assert_eq!(todo.len(), 4);
    assert!(matches!(c.screen, Screen::Connecting));
    assert_eq!(c.on_incoming_call(incoming()).len(), 0);
}

#[test]
fn contacts_fill_in_the_address() {
    let mut c = idle();
    c.select_contact(&contact("::5", ""));
    assert_eq!((c.setup.peer_ip.as_str(), c.setup.peer_port.as_str()), ("::5", "9000"));
    c.select_contact(&contact("", "7"));
    assert_eq!(c.setup.peer_port, "9000");
    c.tab = SidebarTab::Friends;
    c.call_contact(&contact("", "7"));
    assert_eq!((c.setup.peer_ip.as_str(), c.setup.peer_port.as_str()), ("::5", "7"));
    assert!(c.tab == SidebarTab::Call);
}

#[test]
fn hanging_up_asks_first() {
    let mut c = in_call();
    c.media.enter_fullscreen();
    let todo = c.confirm_hang_up();
    assert!(matches!(todo[0], Effect::LeaveFullscreen));
    assert!(matches!(todo[1], Effect::SignalHangup));
    assert!(!c.show_hangup_confirm);
    c.tab = SidebarTab::Friends;
    c.force_tab();
    assert!(c.tab == SidebarTab::Friends);
    c.start_call(&mut Settings::default());
    c.tab = SidebarTab::Friends;
    c.force_tab();
    assert!(c.tab == SidebarTab::Call);
}
