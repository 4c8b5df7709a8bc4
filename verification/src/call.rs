//! The call between two peers: from dialling to hanging up.

use vstd::prelude::*;

use crate::effects::{maybe, Action, ActionData, Effect, PresenceStatus};
use crate::identity::{Contact, ContactData};
use crate::network::{format_peer_display, peer_display, socket_address, socket_text};
use crate::settings::{device_name, name_at, Settings, SettingsData};
use crate::text::{concat, copy, same, trim, trimmed, views};

verus! {

/// What the call tab shows. The text of an error is of type `S`.
pub enum Screen<S> {
    Setup,
    Connecting,
    KeyWarning,
    InCall,
    Error(S),
}

impl View for Screen<String> {
    type V = Screen<Seq<char>>;

    open spec fn view(&self) -> Screen<Seq<char>> {
        match self {
            Screen::Setup => Screen::Setup,
            Screen::Connecting => Screen::Connecting,
            Screen::KeyWarning => Screen::KeyWarning,
            Screen::InCall => Screen::InCall,
            Screen::Error(text) => Screen::Error(text@),
        }
    }
}

/// The tabs of the window.
#[derive(Clone, Copy, PartialEq, Eq, Structural)]
pub enum SidebarTab {
    Profile,
    Friends,
    Messages,
    Groups,
    Call,
    Settings,
    Appearance,
    Logs,
}

/// A call that comes in.
pub struct IncomingCall {
    pub nickname: String,
    pub fingerprint: String,
    pub ip: String,
    pub port: String,
}

/// An incoming call as mathematical data.
#[verifier::ext_equal]
pub struct IncomingCallData {
    pub nickname: Seq<char>,
    pub fingerprint: Seq<char>,
    pub ip: Seq<char>,
    pub port: Seq<char>,
}

impl View for IncomingCall {
    type V = IncomingCallData;

    open spec fn view(&self) -> IncomingCallData {
        IncomingCallData {
            nickname: self.nickname@,
            fingerprint: self.fingerprint@,
            ip: self.ip@,
            port: self.port@,
        }
    }
}

/// An incoming call that may be absent, viewed.
pub open spec fn maybe_call(c: Option<IncomingCall>) -> Option<IncomingCallData> {
    match c {
        Some(i) => Some(i@),
        None => None,
    }
}

/// A contact that may be absent, viewed.
pub open spec fn maybe_contact(c: Option<Contact>) -> Option<ContactData> {
    match c {
        Some(i) => Some(i@),
        None => None,
    }
}

/// What the engine reports of an established call.
pub struct CallInfo {
    pub verification_code: String,
    pub peer_fingerprint: String,
    pub peer_nickname: String,
    pub contact_id: String,
    pub key_change_warning: Option<String>,
    pub pending_contact: Option<Contact>,
}

/// Where a call is made from and to.
pub struct Setup {
    pub input_names: Vec<String>,
    pub output_names: Vec<String>,
    pub selected_input: usize,
    pub selected_output: usize,
    pub local_port: String,
    pub peer_ip: String,
    pub peer_port: String,
}

/// Where a call is made from and to, as mathematical data.
#[verifier::ext_equal]
pub struct SetupData {
    pub input_names: Seq<Seq<char>>,
    pub output_names: Seq<Seq<char>>,
    pub selected_input: usize,
    pub selected_output: usize,
    pub local_port: Seq<char>,
    pub peer_ip: Seq<char>,
    pub peer_port: Seq<char>,
}

impl View for Setup {
    type V = SetupData;

    open spec fn view(&self) -> SetupData {
        SetupData {
            input_names: views(self.input_names@),
            output_names: views(self.output_names@),
            selected_input: self.selected_input,
            selected_output: self.selected_output,
            local_port: self.local_port@,
            peer_ip: self.peer_ip@,
            peer_port: self.peer_port@,
        }
    }
}

/// The peer of an established call as mathematical data.
#[verifier::ext_equal]
pub struct CallInfoData {
    pub verification_code: Seq<char>,
    pub peer_fingerprint: Seq<char>,
    pub peer_nickname: Seq<char>,
    pub contact_id: Seq<char>,
    pub key_change_warning: Option<Seq<char>>,
    pub pending_contact: Option<ContactData>,
}

impl View for CallInfo {
    type V = CallInfoData;

    open spec fn view(&self) -> CallInfoData {
        CallInfoData {
            verification_code: self.verification_code@,
            peer_fingerprint: self.peer_fingerprint@,
            peer_nickname: self.peer_nickname@,
            contact_id: self.contact_id@,
            key_change_warning: maybe(self.key_change_warning),
            pending_contact: maybe_contact(self.pending_contact),
        }
    }
}

/// No peer.
pub open spec fn nobody() -> CallInfoData {
    CallInfoData {
        verification_code: seq![],
        peer_fingerprint: seq![],
        peer_nickname: seq![],
        contact_id: seq![],
        key_change_warning: None,
        pending_contact: None,
    }
}

/// What is shared and shown in a call.
pub struct Media {
    pub screen_sharing: bool,
    pub show_screen_popup: bool,
    pub webcam_sharing: bool,
    pub show_webcam_popup: bool,
    pub quality: usize,
    pub selected_camera: usize,
    pub camera_names: Vec<String>,
    pub selected_audio_device: usize,
    pub loopback_devices: Vec<String>,
    pub selected_display: usize,
    pub display_names: Vec<String>,
    pub has_video: bool,
    pub video_fullscreen: bool,
    pub is_fullscreen: bool,
}

/// What is shared and shown, as mathematical data.
#[verifier::ext_equal]
pub struct MediaData {
    pub screen_sharing: bool,
    pub show_screen_popup: bool,
    pub webcam_sharing: bool,
    pub show_webcam_popup: bool,
    pub quality: usize,
    pub selected_camera: usize,
    pub camera_names: Seq<Seq<char>>,
    pub selected_audio_device: usize,
    pub loopback_devices: Seq<Seq<char>>,
    pub selected_display: usize,
    pub display_names: Seq<Seq<char>>,
    pub has_video: bool,
    pub video_fullscreen: bool,
    pub is_fullscreen: bool,
}

impl View for Media {
    type V = MediaData;

    open spec fn view(&self) -> MediaData {
        MediaData {
            screen_sharing: self.screen_sharing,
            show_screen_popup: self.show_screen_popup,
            webcam_sharing: self.webcam_sharing,
            show_webcam_popup: self.show_webcam_popup,
            quality: self.quality,
            selected_camera: self.selected_camera,
            camera_names: views(self.camera_names@),
            selected_audio_device: self.selected_audio_device,
            loopback_devices: views(self.loopback_devices@),
            selected_display: self.selected_display,
            display_names: views(self.display_names@),
            has_video: self.has_video,
            video_fullscreen: self.video_fullscreen,
            is_fullscreen: self.is_fullscreen,
        }
    }
}

/// Nothing shared or shown; the quality that was chosen is kept.
pub open spec fn no_media(quality: usize) -> MediaData {
    MediaData {
        screen_sharing: false,
        show_screen_popup: false,
        webcam_sharing: false,
        show_webcam_popup: false,
        quality,
        selected_camera: 0,
        camera_names: seq![],
        selected_audio_device: 0,
        loopback_devices: seq![],
        selected_display: 0,
        display_names: seq![],
        has_video: false,
        video_fullscreen: false,
        is_fullscreen: false,
    }
}

/// A call that rings.
pub struct Ring {
    pub incoming: Option<IncomingCall>,
    pub attention: bool,
    pub ringing: bool,
}

/// A call that rings, as mathematical data.
#[verifier::ext_equal]
pub struct RingData {
    pub incoming: Option<IncomingCallData>,
    pub attention: bool,
    pub ringing: bool,
}

impl View for Ring {
    type V = RingData;

    open spec fn view(&self) -> RingData {
        RingData {
            incoming: maybe_call(self.incoming),
            attention: self.attention,
            ringing: self.ringing,
        }
    }
}

/// The state of the call between two peers.
pub struct Calls {
    pub screen: Screen<String>,
    pub tab: SidebarTab,
    pub setup: Setup,
    pub running: bool,
    pub mic_active: bool,
    pub connected: bool,
    pub peer: CallInfo,
    pub chat_input: String,
    pub media: Media,
    pub show_hangup_confirm: bool,
    pub viewing_contact: Option<Contact>,
    pub last_presence_sent: PresenceStatus,
    pub ring: Ring,
}

/// The state of the call as mathematical data.
#[verifier::ext_equal]
pub struct CallsData {
    pub screen: Screen<Seq<char>>,
    pub tab: SidebarTab,
    pub setup: SetupData,
    pub running: bool,
    pub mic_active: bool,
    pub connected: bool,
    pub peer: CallInfoData,
    pub chat_input: Seq<char>,
    pub media: MediaData,
    pub show_hangup_confirm: bool,
    pub viewing_contact: Option<ContactData>,
    pub last_presence_sent: PresenceStatus,
    pub ring: RingData,
}

impl View for Calls {
    type V = CallsData;

    open spec fn view(&self) -> CallsData {
        CallsData {
            screen: self.screen@,
            tab: self.tab,
            setup: self.setup@,
            running: self.running,
            mic_active: self.mic_active,
            connected: self.connected,
            peer: self.peer@,
            chat_input: self.chat_input@,
            media: self.media@,
            show_hangup_confirm: self.show_hangup_confirm,
            viewing_contact: maybe_contact(self.viewing_contact),
            last_presence_sent: self.last_presence_sent,
            ring: self.ring@,
        }
    }
}

/// The state when the program starts.
pub open spec fn idle_calls(
    input_names: Seq<Seq<char>>,
    output_names: Seq<Seq<char>>,
    selected_input: usize,
    selected_output: usize,
    local_port: Seq<char>,
) -> CallsData {
    CallsData {
        screen: Screen::Setup,
        tab: SidebarTab::Call,
        setup: SetupData {
            input_names,
            output_names,
            selected_input,
            selected_output,
            local_port,
            peer_ip: "::1"@,
            peer_port: "9000"@,
        },
        running: false,
        mic_active: true,
        connected: false,
        peer: nobody(),
        chat_input: seq![],
        media: no_media(0),
        show_hangup_confirm: false,
        viewing_contact: None,
        last_presence_sent: PresenceStatus::Online,
        ring: RingData { incoming: None, attention: false, ringing: false },
    }
}

/// Whether a list of actions asks for these things, in this order.
pub open spec fn asks(list: Seq<Action>, what: Seq<ActionData>) -> bool {
    views(list) =~= what
}

/// Whether a sound may be played: no call is on or being set up.
pub open spec fn sound_allowed(c: CallsData) -> bool {
    !(c.screen is InCall || c.screen is Connecting || c.screen is KeyWarning)
}

/// Whether the call takes over the window.
pub open spec fn in_call(c: CallsData) -> bool {
    !(c.screen is Setup)
}

impl CallsData {
    /// The state after a call ended: everything about the peer is gone.
    pub open spec fn cleaned(self) -> Self {
        CallsData {
            screen: Screen::Setup,
            connected: false,
            peer: nobody(),
            chat_input: seq![],
            media: no_media(self.media.quality),
            show_hangup_confirm: false,
            viewing_contact: None,
            ..self
        }
    }

    /// The state after dialling.
    pub open spec fn dialled(self) -> Self {
        CallsData {
            running: true,
            mic_active: true,
            screen: Screen::Connecting,
            tab: SidebarTab::Call,
            ..self
        }
    }

    /// The state after the user hung up.
    pub open spec fn hung_up(self) -> Self {
        CallsData { running: false, ..self }.cleaned()
    }

    /// The state once the engine has set up a call. A changed key of the peer is shown
    /// before the call goes on.
    pub open spec fn established(self, info: CallInfoData) -> Self {
        CallsData {
            peer: info,
            connected: true,
            screen: if info.key_change_warning is Some {
                Screen::KeyWarning
            } else {
                Screen::InCall
            },
            ..self
        }
    }

    /// The state after the engine could not set up a call.
    pub open spec fn failed(self, reason: Seq<char>) -> Self {
        CallsData {
            running: false,
            screen: if reason == "Cancelled"@ {
                Screen::Setup
            } else {
                Screen::Error(reason)
            },
            ..self
        }
    }
}

/// The settings with the devices and the port of the call.
pub open spec fn settings_for_call(s: SettingsData, c: CallsData) -> SettingsData {
    SettingsData {
        mic: name_at(c.setup.input_names, c.setup.selected_input as int),
        speakers: name_at(c.setup.output_names, c.setup.selected_output as int),
        local_port: c.setup.local_port,
        ..s
    }
}

pub(crate) fn no_actions() -> (r: Vec<Action>)
    ensures
        r@.len() == 0,
        views(r@) == Seq::<ActionData>::empty(),
{
    let r: Vec<Action> = Vec::new();
    assert(views(r@) =~= Seq::<ActionData>::empty());
    r
}

/// Adds an action to a list.
pub(crate) fn and_then_do(list: &mut Vec<Action>, a: Action)
    ensures
        views(final(list)@) == views(old(list)@).push(a@),
{
    let ghost before = list@;
    let ghost ad = a@;
    list.push(a);
    assert(views(list@) =~= views(before).push(ad));
}

fn is_setup(s: &Screen<String>) -> (r: bool)
    ensures
        r == (s@ is Setup),
{
    match s {
        Screen::Setup => true,
        _ => false,
    }
}

impl CallInfo {
    fn none() -> (r: Self)
        ensures
            r@ == nobody(),
    {
        CallInfo {
            verification_code: String::new(),
            peer_fingerprint: String::new(),
            peer_nickname: String::new(),
            contact_id: String::new(),
            key_change_warning: None,
            pending_contact: None,
        }
    }
}

/// Whether the window fills the screen.
pub open spec fn fills_screen(m: MediaData) -> bool {
    m.video_fullscreen || m.is_fullscreen
}

/// The same with the window no longer filling the screen.
pub open spec fn windowed(m: MediaData) -> MediaData {
    MediaData { video_fullscreen: false, is_fullscreen: false, ..m }
}

impl MediaData {
    /// After the button that shares the screen was pressed.
    pub open spec fn screen_pressed(
        self,
        loopback_devices: Seq<Seq<char>>,
        display_names: Seq<Seq<char>>,
    ) -> Self {
        if self.screen_sharing {
            MediaData { screen_sharing: false, ..self }
        } else {
            MediaData {
                webcam_sharing: false,
                loopback_devices: if self.loopback_devices.len() == 0 {
                    loopback_devices
                } else {
                    self.loopback_devices
                },
                display_names,
                show_screen_popup: true,
                ..self
            }
        }
    }

    /// After the button that shares the camera was pressed.
    pub open spec fn webcam_pressed(self, camera_names: Seq<Seq<char>>) -> Self {
        if self.webcam_sharing {
            MediaData { webcam_sharing: false, ..self }
        } else {
            MediaData { screen_sharing: false, camera_names, show_webcam_popup: true, ..self }
        }
    }

    /// After the screen was shared.
    pub open spec fn screen_shared(self) -> Self {
        MediaData { screen_sharing: true, show_screen_popup: false, ..self }
    }

    /// After the camera was shared, if there is one.
    pub open spec fn webcam_shared(self) -> Self {
        if self.camera_names.len() == 0 {
            self
        } else {
            MediaData { webcam_sharing: true, show_webcam_popup: false, ..self }
        }
    }
}

impl Media {
    fn none(quality: usize) -> (r: Self)
        ensures
            r@ == no_media(quality),
    {
        let r = Media {
            screen_sharing: false,
            show_screen_popup: false,
            webcam_sharing: false,
            show_webcam_popup: false,
            quality,
            selected_camera: 0,
            camera_names: Vec::new(),
            selected_audio_device: 0,
            loopback_devices: Vec::new(),
            selected_display: 0,
            display_names: Vec::new(),
            has_video: false,
            video_fullscreen: false,
            is_fullscreen: false,
        };
        assert(views(r.camera_names@) =~= seq![]);
        assert(views(r.loopback_devices@) =~= seq![]);
        assert(views(r.display_names@) =~= seq![]);
        r
    }

    /// The button that shares the screen: stops sharing it, or asks what to share. A
    /// camera that is shared is stopped first.
    pub fn press_screen_button(
        &mut self,
        loopback_devices: Vec<String>,
        display_names: Vec<String>,
    ) -> (r: Vec<Action>)
        ensures
            final(self)@ == old(self)@.screen_pressed(
                views(loopback_devices@),
                views(display_names@),
            ),
            asks(r@, if old(self)@.screen_sharing || old(self)@.webcam_sharing {
                seq![Effect::StopSharing]
            } else {
                seq![]
            }),
    {
        let mut todo = no_actions();
        if self.screen_sharing {
            self.screen_sharing = false;
            and_then_do(&mut todo, Effect::StopSharing);
            return todo;
        }
        if self.webcam_sharing {
            self.webcam_sharing = false;
            and_then_do(&mut todo, Effect::StopSharing);
        }
        if self.loopback_devices.len() == 0 {
            self.loopback_devices = loopback_devices;
        }
        self.display_names = display_names;
        self.show_screen_popup = true;
        todo
    }

    /// The button that shares the camera: stops sharing it, or asks which. A screen that
    /// is shared is stopped first.
    pub fn press_webcam_button(&mut self, camera_names: Vec<String>) -> (r: Vec<Action>)
        ensures
            final(self)@ == old(self)@.webcam_pressed(views(camera_names@)),
            asks(r@, if old(self)@.screen_sharing || old(self)@.webcam_sharing {
                seq![Effect::StopSharing]
            } else {
                seq![]
            }),
    {
        let mut todo = no_actions();
        if self.webcam_sharing {
            self.webcam_sharing = false;
            and_then_do(&mut todo, Effect::StopSharing);
            return todo;
        }
        if self.screen_sharing {
            self.screen_sharing = false;
            and_then_do(&mut todo, Effect::StopSharing);
        }
        self.camera_names = camera_names;
        self.show_webcam_popup = true;
        todo
    }

    /// Starts to share the screen as chosen.
    pub fn share_screen(&mut self) -> (r: Vec<Action>)
        ensures
            final(self)@ == old(self)@.screen_shared(),
            asks(r@, seq![
                Effect::StartScreen {
                    quality: old(self)@.quality,
                    audio_device: chosen_audio(
                        old(self)@.loopback_devices,
                        old(self)@.selected_audio_device as int,
                    ),
                    display: old(self)@.selected_display,
                },
            ]),
    {
        let audio_device = audio_choice(&self.loopback_devices, self.selected_audio_device);
        let mut todo = no_actions();
        and_then_do(
            &mut todo,
            Effect::StartScreen {
                quality: self.quality,
                audio_device,
                display: self.selected_display,
            },
        );
        self.screen_sharing = true;
        self.show_screen_popup = false;
        assert(asks(todo@, seq![todo@[0]@]));
        todo
    }

    /// Starts to share the camera as chosen, if there is a camera.
    pub fn share_webcam(&mut self) -> (r: Vec<Action>)
        ensures
            final(self)@ == old(self)@.webcam_shared(),
            old(self)@.camera_names.len() == 0 ==> r@.len() == 0,
            old(self)@.camera_names.len() > 0 ==> asks(r@, seq![
                Effect::StartWebcam {
                    quality: old(self)@.quality,
                    camera: old(self)@.selected_camera,
                },
            ]),
    {
        let mut todo = no_actions();
        if self.camera_names.len() > 0 {
            and_then_do(
                &mut todo,
                Effect::StartWebcam { quality: self.quality, camera: self.selected_camera },
            );
            self.webcam_sharing = true;
            self.show_webcam_popup = false;
            assert(asks(todo@, seq![todo@[0]@]));
        }
        todo
    }

    /// The user no longer looks at the video of the peer.
    pub fn end_viewing(&mut self)
        ensures
            final(self)@ == (MediaData { has_video: false, ..old(self)@ }),
    {
        self.has_video = false;
    }

    /// The video fills the screen.
    pub fn enter_fullscreen(&mut self) -> (r: Vec<Action>)
        ensures
            final(self)@ == (MediaData {
                video_fullscreen: true,
                is_fullscreen: true,
                ..old(self)@
            }),
            asks(r@, seq![Effect::EnterFullscreen]),
    {
        self.video_fullscreen = true;
        self.is_fullscreen = true;
        let mut todo = no_actions();
        and_then_do(&mut todo, Effect::EnterFullscreen);
        assert(asks(todo@, seq![Effect::EnterFullscreen]));
        todo
    }

    /// The video that filled the screen is gone, or the user leaves it.
    pub fn leave_fullscreen(&mut self) -> (r: Vec<Action>)
        ensures
            final(self)@ == windowed(old(self)@),
            asks(r@, seq![Effect::LeaveFullscreen]),
    {
        self.video_fullscreen = false;
        self.is_fullscreen = false;
        let mut todo = no_actions();
        and_then_do(&mut todo, Effect::LeaveFullscreen);
        assert(asks(todo@, seq![Effect::LeaveFullscreen]));
        todo
    }
}

impl Calls {
    /// The state at the start.
    pub fn new(
        input_names: Vec<String>,
        output_names: Vec<String>,
        selected_input: usize,
        selected_output: usize,
        local_port: String,
    ) -> (r: Self)
        ensures
            r@ == idle_calls(
                views(input_names@),
                views(output_names@),
                selected_input,
                selected_output,
                local_port@,
            ),
    {
        Calls {
            screen: Screen::Setup,
            tab: SidebarTab::Call,
            setup: Setup {
                input_names,
                output_names,
                selected_input,
                selected_output,
                local_port,
                peer_ip: copy("::1"),
                peer_port: copy("9000"),
            },
            running: false,
            mic_active: true,
            connected: false,
            peer: CallInfo::none(),
            chat_input: String::new(),
            media: Media::none(0),
            show_hangup_confirm: false,
            viewing_contact: None,
            last_presence_sent: PresenceStatus::Online,
            ring: Ring { incoming: None, attention: false, ringing: false },
        }
    }

    /// Dials the peer. The answer is the text of its address, and what is to be done: the
    /// socket is freed for the call, and the settings, with the chosen devices, are saved.
    pub fn start_call(&mut self, settings: &mut Settings) -> (r: (String, Vec<Action>))
        ensures
            final(self)@ == old(self)@.dialled(),
            final(settings)@ == settings_for_call(old(settings)@, old(self)@),
            r.0@ == socket_text(old(self)@.setup.peer_ip, old(self)@.setup.peer_port),
            asks(r.1@, seq![Effect::YieldSocket, Effect::SaveSettings]),
    {
        settings.mic = device_name(&self.setup.input_names, self.setup.selected_input);
        settings.speakers = device_name(&self.setup.output_names, self.setup.selected_output);
        settings.local_port = copy(self.setup.local_port.as_str());
        self.running = true;
        self.mic_active = true;
        self.screen = Screen::Connecting;
        self.tab = SidebarTab::Call;
        let address = socket_address(self.setup.peer_ip.as_str(), self.setup.peer_port.as_str());
        let mut todo = no_actions();
        and_then_do(&mut todo, Effect::YieldSocket);
        and_then_do(&mut todo, Effect::SaveSettings);
        assert(asks(todo@, seq![Effect::YieldSocket, Effect::SaveSettings]));
        (address, todo)
    }

    /// Ends a call: forgets the peer, reads the contacts again, and gives the socket back.
    pub fn cleanup_call(&mut self) -> (r: Vec<Action>)
        ensures
            final(self)@ == old(self)@.cleaned(),
            asks(r@, seq![Effect::ReloadContacts, Effect::ReclaimSocket]),
    {
        self.screen = Screen::Setup;
        self.connected = false;
        self.peer = CallInfo::none();
        self.chat_input = String::new();
        self.media = Media::none(self.media.quality);
        self.show_hangup_confirm = false;
        self.viewing_contact = None;
        let mut todo = no_actions();
        and_then_do(&mut todo, Effect::ReloadContacts);
        and_then_do(&mut todo, Effect::ReclaimSocket);
        assert(asks(todo@, seq![Effect::ReloadContacts, Effect::ReclaimSocket]));
        todo
    }

    /// The user hangs up. A peer that is connected is told.
    pub fn hang_up(&mut self) -> (r: Vec<Action>)
        ensures
            final(self)@ == old(self)@.hung_up(),
            asks(r@, if old(self)@.connected {
                seq![Effect::SignalHangup, Effect::ReloadContacts, Effect::ReclaimSocket]
            } else {
                seq![Effect::ReloadContacts, Effect::ReclaimSocket]
            }),
    {
        let was_connected = self.connected;
        self.running = false;
        let mut rest = self.cleanup_call();
        let ghost rest_data = views(rest@);
        let mut todo = no_actions();
        if was_connected {
            and_then_do(&mut todo, Effect::SignalHangup);
        }
        let ghost first = todo@;
        todo.append(&mut rest);
        assert(views(todo@) =~= views(first) + rest_data);
        todo
    }

    /// The peer, or the engine, ended the call.
    pub fn on_remote_hangup(&mut self) -> (r: Vec<Action>)
        ensures
            final(self)@ == old(self)@.hung_up(),
            asks(r@, seq![Effect::ReloadContacts, Effect::ReclaimSocket]),
    {
        self.running = false;
        self.cleanup_call()
    }

    /// Takes in what the engine reports while connecting.
    pub fn on_connect_result(&mut self, result: Result<CallInfo, String>)
        ensures
            final(self)@ == (if old(self)@.screen is Connecting {
                match result {
                    Ok(info) => old(self)@.established(info@),
                    Err(reason) => old(self)@.failed(reason@),
                }
            } else {
                old(self)@
            }),
    {
        match self.screen {
            Screen::Connecting => {},
            _ => {
                return ;
            },
        }
        match result {
            Ok(info) => {
                self.screen = match info.key_change_warning {
                    Some(_) => Screen::KeyWarning,
                    None => Screen::InCall,
                };
                self.peer = info;
                self.connected = true;
            },
            Err(reason) => {
                self.running = false;
                if same(reason.as_str(), "Cancelled") {
                    self.screen = Screen::Setup;
                } else {
                    self.screen = Screen::Error(reason);
                }
            },
        }
    }

    /// Takes in whether the engine still runs. A call whose engine stopped is over; a
    /// window that shows the call no longer fills the screen.
    pub fn on_engine_state(&mut self, running: bool) -> (r: Vec<Action>)
        ensures
            final(self)@ == (if !running && (old(self)@.screen is KeyWarning || old(
                self,
            )@.screen is InCall) {
                old(self)@.hung_up()
            } else {
                old(self)@
            }),
            asks(r@, if running {
                seq![]
            } else if old(self)@.screen is KeyWarning {
                seq![Effect::ReloadContacts, Effect::ReclaimSocket]
            } else if old(self)@.screen is InCall {
                seq![Effect::ReloadContacts, Effect::ReclaimSocket, Effect::LeaveFullscreen]
            } else {
                seq![]
            }),
    {
        if running {
            return no_actions();
        }
        match self.screen {
            Screen::KeyWarning => self.on_remote_hangup(),
            Screen::InCall => {
                let mut todo = self.on_remote_hangup();
                and_then_do(&mut todo, Effect::LeaveFullscreen);
                assert(asks(todo@, seq![
                    Effect::ReloadContacts,
                    Effect::ReclaimSocket,
                    Effect::LeaveFullscreen,
                ]));
                todo
            },
            _ => no_actions(),
        }
    }

    /// The escape key ends a view that fills the screen, in a call.
    pub fn on_escape(&mut self) -> (r: Vec<Action>)
        ensures
            old(self)@.screen is InCall && fills_screen(old(self)@.media) ==> {
                &&& final(self)@ == (CallsData {
                    media: windowed(old(self)@.media),
                    ..old(self)@
                })
                &&& asks(r@, seq![Effect::LeaveFullscreen])
            },
            !(old(self)@.screen is InCall && fills_screen(old(self)@.media)) ==> final(self)@ == old(
                self,
            )@ && r@.len() == 0,
    {
        let mut todo = no_actions();
        match self.screen {
            Screen::InCall => {
                if self.media.video_fullscreen || self.media.is_fullscreen {
                    self.media.video_fullscreen = false;
                    self.media.is_fullscreen = false;
                    and_then_do(&mut todo, Effect::LeaveFullscreen);
                    assert(asks(todo@, seq![Effect::LeaveFullscreen]));
                }
            },
            _ => {},
        }
        todo
    }

    /// Tells the peers when the user went away or came back. Fifteen minutes without
    /// input is away.
    pub fn on_idle(&mut self, idle_secs: u64) -> (r: Option<PresenceStatus>)
        ensures
            ({
                let current = if idle_secs > 900 {
                    PresenceStatus::Away
                } else {
                    PresenceStatus::Online
                };
                let changed = old(self)@.screen is InCall && current != old(
                    self,
                )@.last_presence_sent;
                &&& r == (if changed {
                    Some(current)
                } else {
                    None
                })
                &&& final(self)@ == (if changed {
                    CallsData { last_presence_sent: current, ..old(self)@ }
                } else {
                    old(self)@
                })
            }),
    {
        match self.screen {
            Screen::InCall => {},
            _ => {
                return None;
            },
        }
        let current = if idle_secs > 900 {
            PresenceStatus::Away
        } else {
            PresenceStatus::Online
        };
        if current != self.last_presence_sent {
            self.last_presence_sent = current;
            Some(current)
        } else {
            None
        }
    }

    /// After how many milliseconds a call is drawn again.
    pub fn repaint_after(&self) -> (r: u64)
        ensures
            r == (if self@.media.has_video {
                33u64
            } else {
                200u64
            }),
    {
        if self.media.has_video {
            33
        } else {
            200
        }
    }

    /// The user goes on although the key of the peer has changed. The answer is the
    /// contact to be saved with the new key.
    pub fn accept_new_key(&mut self) -> (r: Option<Contact>)
        ensures
            final(self)@ == (CallsData {
                peer: CallInfoData {
                    pending_contact: None,
                    key_change_warning: None,
                    ..old(self)@.peer
                },
                screen: Screen::InCall,
                ..old(self)@
            }),
            maybe_contact(r) == old(self)@.peer.pending_contact,
    {
        let contact = self.peer.pending_contact.take();
        self.peer.key_change_warning = None;
        self.screen = Screen::InCall;
        contact
    }

    /// The user does not trust the changed key: nothing is saved and the call ends.
    pub fn reject_new_key(&mut self) -> (r: Vec<Action>)
        ensures
            final(self)@ == old(self)@.hung_up(),
            asks(r@, if old(self)@.connected {
                seq![Effect::SignalHangup, Effect::ReloadContacts, Effect::ReclaimSocket]
            } else {
                seq![Effect::ReloadContacts, Effect::ReclaimSocket]
            }),
    {
        self.peer.pending_contact = None;
        self.hang_up()
    }

    /// Leaves the screen of an error.
    pub fn leave_error(&mut self)
        ensures
            final(self)@ == (CallsData { screen: Screen::Setup, ..old(self)@ }),
    {
        self.screen = Screen::Setup;
    }

    /// The user confirms to hang up. A window that fills the screen is brought back first.
    pub fn confirm_hang_up(&mut self) -> (r: Vec<Action>)
        ensures
            final(self)@ == old(self)@.hung_up(),
            asks(r@, (if fills_screen(old(self)@.media) {
                seq![Effect::LeaveFullscreen]
            } else {
                seq![]
            }) + (if old(self)@.connected {
                seq![Effect::SignalHangup, Effect::ReloadContacts, Effect::ReclaimSocket]
            } else {
                seq![Effect::ReloadContacts, Effect::ReclaimSocket]
            })),
    {
        let mut todo = no_actions();
        if self.media.is_fullscreen || self.media.video_fullscreen {
            and_then_do(&mut todo, Effect::LeaveFullscreen);
        }
        let ghost first = todo@;
        let mut rest = self.hang_up();
        let ghost rest_data = views(rest@);
        todo.append(&mut rest);
        assert(views(todo@) =~= views(first) + rest_data);
        todo
    }

    /// Sends what was typed in the call, unless it is blank.
    pub fn send_chat(&mut self) -> (r: Vec<Action>)
        ensures
            trimmed(old(self)@.chat_input).len() == 0 ==> final(self)@ == old(self)@ && r@.len()
                == 0,
            trimmed(old(self)@.chat_input).len() > 0 ==> {
                &&& final(self)@ == (CallsData { chat_input: seq![], ..old(self)@ })
                &&& asks(r@, seq![
                    Effect::SendCallMessage { text: trimmed(old(self)@.chat_input) },
                ])
            },
    {
        let text = trim(self.chat_input.as_str());
        let mut todo = no_actions();
        if !text.as_str().is_empty() {
            self.chat_input = String::new();
            and_then_do(&mut todo, Effect::SendCallMessage { text });
            assert(asks(todo@, seq![todo@[0]@]));
        }
        todo
    }

    /// The label before what the peer writes.
    pub fn peer_label(&self) -> (r: String)
        ensures
            r@ == (if self@.peer.peer_nickname.len() == 0 {
                "Peer:"@
            } else {
                self@.peer.peer_nickname + ":"@
            }),
    {
        if self.peer.peer_nickname.as_str().is_empty() {
            copy("Peer:")
        } else {
            concat(self.peer.peer_nickname.as_str(), ":")
        }
    }

    /// Dials a contact from the list: its last address, and its last port if it is known.
    /// A contact without an address cannot be dialled.
    pub fn select_contact(&mut self, contact: &Contact)
        ensures
            final(self)@ == (if contact@.last_address.len() == 0 {
                old(self)@
            } else {
                CallsData {
                    setup: SetupData {
                        peer_ip: contact@.last_address,
                        peer_port: if contact@.last_port.len() == 0 {
                            old(self)@.setup.peer_port
                        } else {
                            contact@.last_port
                        },
                        ..old(self)@.setup
                    },
                    ..old(self)@
                }
            }),
    {
        if contact.last_address.as_str().is_empty() {
            return ;
        }
        self.setup.peer_ip = copy(contact.last_address.as_str());
        if !contact.last_port.as_str().is_empty() {
            self.setup.peer_port = copy(contact.last_port.as_str());
        }
    }

    /// A call comes in. It is shown, and rung, only where no call is on.
    pub fn on_incoming_call(&mut self, call: IncomingCall) -> (r: Vec<Action>)
        ensures
            old(self)@.screen !is Setup ==> final(self)@ == old(self)@ && r@.len() == 0,
            old(self)@.screen is Setup ==> {
                &&& final(self)@ == (CallsData {
                    ring: RingData { incoming: Some(call@), attention: true, ringing: true },
                    ..old(self)@
                })
                &&& asks(r@, seq![
                    Effect::Notify {
                        title: "hostelD — Incoming Call"@,
                        body: peer_display(call@.nickname, call@.fingerprint),
                    },
                ] + (if old(self)@.ring.ringing {
                    seq![]
                } else {
                    seq![Effect::StartRingtone]
                }))
            },
    {
        let mut todo = no_actions();
        if !is_setup(&self.screen) {
            return todo;
        }
        let body = format_peer_display(call.nickname.as_str(), call.fingerprint.as_str());
        and_then_do(&mut todo, Effect::Notify { title: copy("hostelD — Incoming Call"), body });
        if !self.ring.ringing {
            and_then_do(&mut todo, Effect::StartRingtone);
            self.ring.ringing = true;
        }
        assert(asks(todo@, seq![todo@[0]@] + (if old(self)@.ring.ringing {
            seq![]
        } else {
            seq![Effect::StartRingtone]
        })));
        self.ring.incoming = Some(call);
        self.ring.attention = true;
        todo
    }

    /// Takes up the request for the user's attention, once.
    pub fn take_attention(&mut self) -> (r: bool)
        ensures
            r == old(self)@.ring.attention,
            final(self)@ == (CallsData {
                ring: RingData { attention: false, ..old(self)@.ring },
                ..old(self)@
            }),
    {
        let r = self.ring.attention;
        self.ring.attention = false;
        r
    }

    /// The user rejects the incoming call: the caller is cut off.
    pub fn reject_incoming(&mut self) -> (r: Vec<Action>)
        ensures
            old(self)@.ring.incoming is None ==> final(self)@ == old(self)@ && r@.len() == 0,
            old(self)@.ring.incoming matches Some(call) ==> {
                &&& final(self)@ == (CallsData {
                    ring: RingData { incoming: None, ringing: false, ..old(self)@.ring },
                    ..old(self)@
                })
                &&& asks(r@, (if old(self)@.ring.ringing {
                    seq![Effect::StopRingtone]
                } else {
                    seq![]
                }) + seq![Effect::DismissCall { ip: call.ip, reject: true }])
            },
    {
        self.dismiss(true).0
    }

    fn dismiss(&mut self, reject: bool) -> (r: (Vec<Action>, Option<IncomingCall>))
        ensures
            maybe_call(r.1) == old(self)@.ring.incoming,
            old(self)@.ring.incoming is None ==> final(self)@ == old(self)@ && r.0@.len() == 0,
            old(self)@.ring.incoming matches Some(call) ==> {
                &&& final(self)@ == (CallsData {
                    ring: RingData { incoming: None, ringing: false, ..old(self)@.ring },
                    ..old(self)@
                })
                &&& asks(r.0@, (if old(self)@.ring.ringing {
                    seq![Effect::StopRingtone]
                } else {
                    seq![]
                }) + seq![Effect::DismissCall { ip: call.ip, reject }])
            },
    {
        let mut todo = no_actions();
        match self.ring.incoming.take() {
            Some(call) => {
                let ghost was_ringing = self.ring.ringing;
                if self.ring.ringing {
                    and_then_do(&mut todo, Effect::StopRingtone);
                    self.ring.ringing = false;
                }
                let ghost first = views(todo@);
                and_then_do(&mut todo, Effect::DismissCall { ip: copy(call.ip.as_str()), reject });
                assert(asks(todo@, first + seq![
                    Effect::DismissCall { ip: call.ip@, reject },
                ]));
                (todo, Some(call))
            },
            None => (todo, None),
        }
    }

    /// The user takes the incoming call: the caller is dialled.
    pub fn accept_incoming(&mut self, settings: &mut Settings) -> (r: Option<(
        String,
        Vec<Action>,
    )>)
        ensures
            r is Some <==> old(self)@.ring.incoming is Some,
            r is None ==> final(self)@ == old(self)@ && final(settings)@ == old(settings)@,
            old(self)@.ring.incoming matches Some(call) ==> {
                &&& final(self)@ == CallsData {
                    ring: RingData { incoming: None, ringing: false, ..old(self)@.ring },
                    setup: SetupData { peer_ip: call.ip, peer_port: call.port, ..old(self)@.setup },
                    ..old(self)@
                }.dialled()
                &&& final(settings)@ == settings_for_call(old(settings)@, old(self)@)
                &&& r.unwrap().0@ == socket_text(call.ip, call.port)
                &&& asks(r.unwrap().1@, (if old(self)@.ring.ringing {
                    seq![Effect::StopRingtone]
                } else {
                    seq![]
                }) + seq![
                    Effect::DismissCall { ip: call.ip, reject: false },
                    Effect::YieldSocket,
                    Effect::SaveSettings,
                ])
            },
    {
        let (mut todo, call) = self.dismiss(false);
        match call {
            None => None,
            Some(call) => {
                let ghost first = views(todo@);
                self.setup.peer_ip = call.ip;
                self.setup.peer_port = call.port;
                self.tab = SidebarTab::Call;
                let (address, mut rest) = self.start_call(settings);
                let ghost rest_data = views(rest@);
                let ghost held = todo@;
                todo.append(&mut rest);
                proof {
                    assert(views(todo@) =~= views(held) + rest_data);
                    let ring = if old(self)@.ring.ringing {
                        seq![Effect::StopRingtone]
                    } else {
                        Seq::<ActionData>::empty()
                    };
                    let ip = old(self)@.ring.incoming.unwrap().ip;
                    assert((ring + seq![Effect::DismissCall { ip, reject: false }]) + seq![
                        Effect::YieldSocket,
                        Effect::SaveSettings,
                    ] =~= ring + seq![
                        Effect::DismissCall { ip, reject: false },
                        Effect::YieldSocket,
                        Effect::SaveSettings,
                    ]);
                }
                Some((address, todo))
            },
        }
    }

    /// While a call is on, the call tab is shown.
    pub fn force_tab(&mut self)
        ensures
            final(self)@ == (if in_call(old(self)@) {
                CallsData { tab: SidebarTab::Call, ..old(self)@ }
            } else {
                old(self)@
            }),
    {
        if !is_setup(&self.screen) {
            self.tab = SidebarTab::Call;
        }
    }

    /// Whether a tab can be chosen: during a call only two can.
    pub fn tab_enabled(&self, tab: SidebarTab) -> (r: bool)
        ensures
            r == (!in_call(self@) || tab == SidebarTab::Call || tab == SidebarTab::Appearance),
    {
        is_setup(&self.screen) || tab == SidebarTab::Call || tab == SidebarTab::Appearance
    }

    /// Whether only the video is drawn.
    pub fn video_only(&self) -> (r: bool)
        ensures
            r == (self@.media.video_fullscreen && self@.screen is InCall),
    {
        match self.screen {
            Screen::InCall => self.media.video_fullscreen,
            _ => false,
        }
    }
}

/// The device whose sound is shared with the screen: none for the first choice, the
/// default for the second, then the devices in order.
pub open spec fn chosen_audio(devices: Seq<Seq<char>>, choice: int) -> Option<Seq<char>> {
    if choice == 0 {
        None
    } else if choice == 1 {
        Some(seq![])
    } else if choice - 2 < devices.len() {
        Some(devices[choice - 2])
    } else {
        None
    }
}

/// The device that a choice stands for.
pub fn audio_choice(devices: &Vec<String>, choice: usize) -> (r: Option<String>)
    ensures
        maybe(r) == chosen_audio(views(devices@), choice as int),
{
    if choice == 0 {
        None
    } else if choice == 1 {
        Some(String::new())
    } else if choice - 2 < devices.len() {
        Some(copy(devices[choice - 2].as_str()))
    } else {
        None
    }
}

/// How a choice of audio device is shown.
pub fn audio_label(devices: &Vec<String>, choice: usize) -> (r: String)
    ensures
        r@ == (if choice == 0 {
            "None"@
        } else if choice == 1 {
            "Default"@
        } else if choice - 2 < devices@.len() {
            views(devices@)[choice - 2]
        } else {
            "Unknown"@
        }),
{
    if choice == 0 {
        copy("None")
    } else if choice == 1 {
        copy("Default")
    } else if choice - 2 < devices.len() {
        copy(devices[choice - 2].as_str())
    } else {
        copy("Unknown")
    }
}

/// A changed key is never passed over in silence: a call whose key changed starts with
/// the warning, and a user who hangs up there saves nothing of the contact.
pub proof fn changed_key_is_shown(c: CallsData, info: CallInfoData)
    requires
        info.key_change_warning is Some,
    ensures
        c.established(info).screen is KeyWarning,
        c.established(info).peer.pending_contact == info.pending_contact,
        c.established(info).hung_up().peer.pending_contact is None,
{
}

/// However a call ends, nothing of the peer is left, nothing is shared any more, and the
/// next call can be dialled; what was set up stays. Ending it twice is ending it once.
pub proof fn hanging_up_forgets_the_peer(c: CallsData)
    ensures
        c.hung_up().screen is Setup,
        !c.hung_up().running,
        !c.hung_up().connected,
        c.hung_up().peer == nobody(),
        !c.hung_up().media.screen_sharing && !c.hung_up().media.webcam_sharing,
        c.hung_up().setup == c.setup,
        c.hung_up().hung_up() == c.hung_up(),
{
}

/// Screen and camera are not shared at the same time.
pub open spec fn shares_one(m: MediaData) -> bool {
    !(m.screen_sharing && m.webcam_sharing)
}

/// Screen and camera exclude each other: asking for the one stops the other, and sharing
/// the one while the other is not shared keeps them apart.
pub proof fn sharing_is_exclusive(
    m: MediaData,
    loopback_devices: Seq<Seq<char>>,
    display_names: Seq<Seq<char>>,
    camera_names: Seq<Seq<char>>,
)
    requires
        shares_one(m),
    ensures
        shares_one(m.screen_pressed(loopback_devices, display_names)),
        !m.screen_pressed(loopback_devices, display_names).webcam_sharing,
        shares_one(m.webcam_pressed(camera_names)),
        !m.webcam_pressed(camera_names).screen_sharing,
        !m.webcam_sharing ==> shares_one(m.screen_shared()),
        !m.screen_sharing ==> shares_one(m.webcam_shared()),
{
}

/// A list of actions asks for as many things as it holds, and each action for its own.
pub proof fn each_action_asks_for_one_thing(list: Seq<Action>, what: Seq<ActionData>)
    requires
        asks(list, what),
    ensures
        list.len() == what.len(),
        forall|i: int| 0 <= i < list.len() ==> (#[trigger] list[i])@ == what[i],
{
    assert(views(list).len() == what.len());
    assert forall|i: int| 0 <= i < list.len() implies (#[trigger] list[i])@ == what[i] by {
        assert(views(list)[i] == what[i]);
    }
}

/// Before a peer is known nothing is said of one.
pub proof fn nobody_has_nothing()
    ensures
        nobody().verification_code.len() == 0,
        nobody().peer_fingerprint.len() == 0,
        nobody().peer_nickname.len() == 0,
        nobody().contact_id.len() == 0,
        nobody().key_change_warning is None,
        nobody().pending_contact is None,
{
}

/// Without media nothing is shared, shown or chosen; only the quality stays.
pub proof fn without_media_nothing_is_shared(quality: usize)
    ensures
        ({
            let m = no_media(quality);
            &&& m.quality == quality
            &&& !m.screen_sharing
            &&& !m.show_screen_popup
            &&& !m.webcam_sharing
            &&& !m.show_webcam_popup
            &&& m.selected_camera == 0
            &&& m.camera_names.len() == 0
            &&& m.selected_audio_device == 0
            &&& m.loopback_devices.len() == 0
            &&& m.selected_display == 0
            &&& m.display_names.len() == 0
            &&& !m.has_video
            &&& !m.video_fullscreen
            &&& !m.is_fullscreen
        }),
{
}

/// At the start no call is on, nobody calls, and the devices and the port are those given.
pub proof fn calls_start_idle(
    input_names: Seq<Seq<char>>,
    output_names: Seq<Seq<char>>,
    selected_input: usize,
    selected_output: usize,
    local_port: Seq<char>,
)
    ensures
        ({
            let c = idle_calls(
                input_names,
                output_names,
                selected_input,
                selected_output,
                local_port,
            );
            &&& c.screen is Setup
            &&& c.tab is Call
            &&& c.setup.input_names == input_names
            &&& c.setup.output_names == output_names
            &&& c.setup.selected_input == selected_input
            &&& c.setup.selected_output == selected_output
            &&& c.setup.local_port == local_port
            &&& c.setup.peer_ip == "::1"@
            &&& c.setup.peer_port == "9000"@
            &&& !c.running
            &&& c.mic_active
            &&& !c.connected
            &&& c.peer == nobody()
            &&& c.chat_input.len() == 0
            &&& c.media == no_media(0)
            &&& !c.show_hangup_confirm
            &&& c.viewing_contact is None
            &&& c.last_presence_sent is Online
            &&& c.ring.incoming is None
            &&& !c.ring.attention
            &&& !c.ring.ringing
        }),
{
}

/// Sounds are held back from dialling to the end of a call, and the call takes over the window
/// unless it is being set up.
pub proof fn calls_are_not_disturbed(c: CallsData)
    ensures
        c.screen is Setup ==> sound_allowed(c) && !in_call(c),
        c.screen is Error ==> sound_allowed(c) && in_call(c),
        c.screen is Connecting ==> !sound_allowed(c) && in_call(c),
        c.screen is KeyWarning ==> !sound_allowed(c) && in_call(c),
        c.screen is InCall ==> !sound_allowed(c) && in_call(c),
{
}

/// Cleaning up after a call takes away what was said of the peer, typed, shared and asked, and
/// changes nothing else: what was set up stays, and so does a call that comes in.
pub proof fn cleaning_up_changes_nothing_else(c: CallsData)
    ensures
        ({
            let after = c.cleaned();
            &&& after.screen is Setup
            &&& !after.connected
            &&& after.peer == nobody()
            &&& after.chat_input.len() == 0
            &&& after.media == no_media(c.media.quality)
            &&& !after.show_hangup_confirm
            &&& after.viewing_contact is None
            &&& after.tab == c.tab
            &&& after.setup == c.setup
            &&& after.running == c.running
            &&& after.mic_active == c.mic_active
            &&& after.last_presence_sent == c.last_presence_sent
            &&& after.ring == c.ring
        }),
        ({
            let after = c.hung_up();
            &&& !after.running
            &&& after.screen is Setup
            &&& !after.connected
            &&& after.peer == nobody()
            &&& after.chat_input.len() == 0
            &&& after.media == no_media(c.media.quality)
            &&& !after.show_hangup_confirm
            &&& after.viewing_contact is None
            &&& after.tab == c.tab
            &&& after.setup == c.setup
            &&& after.mic_active == c.mic_active
            &&& after.last_presence_sent == c.last_presence_sent
            &&& after.ring == c.ring
        }),
{
}

/// Dialling turns the microphone on and shows that the call is being set up. It changes
/// nothing else.
pub proof fn dialling_changes_nothing_else(c: CallsData)
    ensures
        ({
            let after = c.dialled();
            &&& after.running
            &&& after.mic_active
            &&& after.screen is Connecting
            &&& after.tab is Call
            &&& after.setup == c.setup
            &&& after.connected == c.connected
            &&& after.peer == c.peer
            &&& after.chat_input == c.chat_input
            &&& after.media == c.media
            &&& after.show_hangup_confirm == c.show_hangup_confirm
            &&& after.viewing_contact == c.viewing_contact
            &&& after.last_presence_sent == c.last_presence_sent
            &&& after.ring == c.ring
        }),
{
}

/// A call that stands is with the peer reported. It goes on at once unless the key of the peer
/// changed, and nothing else changes.
pub proof fn established_calls_are_with_the_peer(c: CallsData, info: CallInfoData)
    ensures
        ({
            let after = c.established(info);
            &&& after.peer == info
            &&& after.connected
            &&& info.key_change_warning is Some ==> after.screen is KeyWarning
            &&& info.key_change_warning is None ==> after.screen is InCall
            &&& after.tab == c.tab
            &&& after.setup == c.setup
            &&& after.running == c.running
            &&& after.mic_active == c.mic_active
            &&& after.chat_input == c.chat_input
            &&& after.media == c.media
            &&& after.show_hangup_confirm == c.show_hangup_confirm
            &&& after.viewing_contact == c.viewing_contact
            &&& after.last_presence_sent == c.last_presence_sent
            &&& after.ring == c.ring
        }),
{
}

/// A call that failed tells why, unless it was cancelled, and nothing else changes.
pub proof fn failed_calls_tell_why(c: CallsData, reason: Seq<char>)
    ensures
        ({
            let after = c.failed(reason);
            &&& !after.running
            &&& reason == "Cancelled"@ ==> after.screen is Setup
            &&& reason != "Cancelled"@ ==> after.screen == Screen::Error(reason)
            &&& after.tab == c.tab
            &&& after.setup == c.setup
            &&& after.mic_active == c.mic_active
            &&& after.connected == c.connected
            &&& after.peer == c.peer
            &&& after.chat_input == c.chat_input
            &&& after.media == c.media
            &&& after.show_hangup_confirm == c.show_hangup_confirm
            &&& after.viewing_contact == c.viewing_contact
            &&& after.last_presence_sent == c.last_presence_sent
            &&& after.ring == c.ring
        }),
{
}

/// The settings remember the devices and the port of a call, and nothing else of it.
pub proof fn settings_remember_the_call(s: SettingsData, c: CallsData)
    ensures
        ({
            let after = settings_for_call(s, c);
            &&& after.mic == name_at(c.setup.input_names, c.setup.selected_input as int)
            &&& after.speakers == name_at(c.setup.output_names, c.setup.selected_output as int)
            &&& after.local_port == c.setup.local_port
            &&& after.nickname == s.nickname
            &&& after.network_adapter == s.network_adapter
            &&& after.blocked == s.blocked
            &&& after.banned_ips == s.banned_ips
            &&& after.theme == s.theme
            &&& after.firewall_port == s.firewall_port
            &&& after.muted_groups == s.muted_groups
        }),
{
}

/// A window fills the screen exactly if the video or the window was made to, and no longer
/// does once it was put back; nothing else changes.
pub proof fn windows_can_be_put_back(m: MediaData)
    ensures
        m.video_fullscreen ==> fills_screen(m),
        m.is_fullscreen ==> fills_screen(m),
        fills_screen(m) ==> m.video_fullscreen || m.is_fullscreen,
        ({
            let after = windowed(m);
            &&& !fills_screen(after)
            &&& !after.video_fullscreen
            &&& !after.is_fullscreen
            &&& after.screen_sharing == m.screen_sharing
            &&& after.show_screen_popup == m.show_screen_popup
            &&& after.webcam_sharing == m.webcam_sharing
            &&& after.show_webcam_popup == m.show_webcam_popup
            &&& after.quality == m.quality
            &&& after.selected_camera == m.selected_camera
            &&& after.camera_names == m.camera_names
            &&& after.selected_audio_device == m.selected_audio_device
            &&& after.loopback_devices == m.loopback_devices
            &&& after.selected_display == m.selected_display
            &&& after.display_names == m.display_names
            &&& after.has_video == m.has_video
        }),
{
}

/// The button that shares the screen stops sharing it, or else stops the camera and asks what
/// to share, with the displays there are now. Nothing else changes.
pub proof fn screen_button_changes_nothing_else(
    m: MediaData,
    loopback_devices: Seq<Seq<char>>,
    display_names: Seq<Seq<char>>,
)
    ensures
        ({
            let after = m.screen_pressed(loopback_devices, display_names);
            &&& !after.screen_sharing
            &&& m.screen_sharing ==> {
                &&& after.webcam_sharing == m.webcam_sharing
                &&& after.show_screen_popup == m.show_screen_popup
                &&& after.display_names == m.display_names
                &&& after.loopback_devices == m.loopback_devices
            }
            &&& !m.screen_sharing ==> {
                &&& !after.webcam_sharing
                &&& after.show_screen_popup
                &&& after.display_names == display_names
                &&& m.loopback_devices.len() == 0 ==> after.loopback_devices == loopback_devices
                &&& m.loopback_devices.len() > 0 ==> after.loopback_devices == m.loopback_devices
            }
            &&& after.show_webcam_popup == m.show_webcam_popup
            &&& after.quality == m.quality
            &&& after.selected_camera == m.selected_camera
            &&& after.camera_names == m.camera_names
            &&& after.selected_audio_device == m.selected_audio_device
            &&& after.selected_display == m.selected_display
            &&& after.has_video == m.has_video
            &&& after.video_fullscreen == m.video_fullscreen
            &&& after.is_fullscreen == m.is_fullscreen
        }),
{
}

/// The button that shares the camera stops sharing it, or else stops the screen and asks which
/// camera to share, of those there are now. Nothing else changes.
pub proof fn webcam_button_changes_nothing_else(m: MediaData, camera_names: Seq<Seq<char>>)
    ensures
        ({
            let after = m.webcam_pressed(camera_names);
            &&& !after.webcam_sharing
            &&& m.webcam_sharing ==> {
                &&& after.screen_sharing == m.screen_sharing
                &&& after.show_webcam_popup == m.show_webcam_popup
                &&& after.camera_names == m.camera_names
            }
            &&& !m.webcam_sharing ==> {
                &&& !after.screen_sharing
                &&& after.show_webcam_popup
                &&& after.camera_names == camera_names
            }
            &&& after.show_screen_popup == m.show_screen_popup
            &&& after.quality == m.quality
            &&& after.selected_camera == m.selected_camera
            &&& after.selected_audio_device == m.selected_audio_device
            &&& after.loopback_devices == m.loopback_devices
            &&& after.selected_display == m.selected_display
            &&& after.display_names == m.display_names
            &&& after.has_video == m.has_video
            &&& after.video_fullscreen == m.video_fullscreen
            &&& after.is_fullscreen == m.is_fullscreen
        }),
{
}

/// What was chosen to be shared is shared, and the question goes; a camera only where there is
/// one. Nothing else changes.
pub proof fn what_was_chosen_is_shared(m: MediaData)
    ensures
        ({
            let after = m.screen_shared();
            &&& after.screen_sharing
            &&& !after.show_screen_popup
            &&& after.webcam_sharing == m.webcam_sharing
            &&& after.show_webcam_popup == m.show_webcam_popup
            &&& after.quality == m.quality
            &&& after.selected_camera == m.selected_camera
            &&& after.camera_names == m.camera_names
            &&& after.selected_audio_device == m.selected_audio_device
            &&& after.loopback_devices == m.loopback_devices
            &&& after.selected_display == m.selected_display
            &&& after.display_names == m.display_names
            &&& after.has_video == m.has_video
            &&& after.video_fullscreen == m.video_fullscreen
            &&& after.is_fullscreen == m.is_fullscreen
        }),
        m.camera_names.len() == 0 ==> m.webcam_shared() == m,
        m.camera_names.len() > 0 ==> {
            let after = m.webcam_shared();
            &&& after.webcam_sharing
            &&& !after.show_webcam_popup
            &&& after.screen_sharing == m.screen_sharing
            &&& after.show_screen_popup == m.show_screen_popup
            &&& after.quality == m.quality
            &&& after.selected_camera == m.selected_camera
            &&& after.camera_names == m.camera_names
            &&& after.selected_audio_device == m.selected_audio_device
            &&& after.loopback_devices == m.loopback_devices
            &&& after.selected_display == m.selected_display
            &&& after.display_names == m.display_names
            &&& after.has_video == m.has_video
            &&& after.video_fullscreen == m.video_fullscreen
            &&& after.is_fullscreen == m.is_fullscreen
        },
{
}

/// The sound shared with the screen is none, the default, or that of the device chosen: each
/// device has a choice of its own.
pub proof fn each_device_has_its_choice(devices: Seq<Seq<char>>, i: int)
    ensures
        chosen_audio(devices, 0) is None,
        chosen_audio(devices, 1) == Some(Seq::<char>::empty()),
        0 <= i < devices.len() ==> chosen_audio(devices, i + 2) == Some(devices[i]),
        i >= devices.len() ==> chosen_audio(devices, i + 2) is None,
{
}

/// A call or a contact that is there is viewed as what it holds, and one that is absent as
/// absent.
pub proof fn absent_peers_stay_absent(call: IncomingCall, contact: Contact)
    ensures
        maybe_call(Some(call)) == Some(call@),
        maybe_call(None) is None,
        maybe_contact(Some(contact)) == Some(contact@),
        maybe_contact(None) is None,
{
}

} // verus!
