//! What the program around the library is asked to do.

use vstd::prelude::*;

verus! {

/// Whether a peer is there.
#[derive(Clone, Copy, PartialEq, Eq, Structural)]
pub enum PresenceStatus {
    Online,
    Away,
    Offline,
}

/// How far a file transfer has come.
pub enum FileStatus<S> {
    Offered,
    Accepted,
    Completed,
    Rejected,
    Cancelled,
    Failed(S),
}

impl View for FileStatus<String> {
    type V = FileStatus<Seq<char>>;

    open spec fn view(&self) -> FileStatus<Seq<char>> {
        match self {
            FileStatus::Offered => FileStatus::Offered,
            FileStatus::Accepted => FileStatus::Accepted,
            FileStatus::Completed => FileStatus::Completed,
            FileStatus::Rejected => FileStatus::Rejected,
            FileStatus::Cancelled => FileStatus::Cancelled,
            FileStatus::Failed(reason) => FileStatus::Failed(reason@),
        }
    }
}

/// A text that may be absent, viewed.
pub open spec fn maybe(s: Option<String>) -> Option<Seq<char>> {
    match s {
        Some(t) => Some(t@),
        None => None,
    }
}

/// Something to be done, with texts of type `S` and keys of type `K`. A chat history that is
/// to be changed is loaded first where `load` says so, and left alone if it is not loaded
/// where it does not.
pub enum Effect<S, K> {
    /// The messaging service gives up the socket, for a call.
    YieldSocket,
    /// The messaging service takes the socket back.
    ReclaimSocket,
    /// The settings are written.
    SaveSettings,
    /// The peer is told that the call ends.
    SignalHangup,
    /// The contacts are read again.
    ReloadContacts,
    /// The window fills the screen.
    EnterFullscreen,
    /// The window no longer fills the screen.
    LeaveFullscreen,
    /// Screen or camera is no longer shared.
    StopSharing,
    /// The screen is shared; no audio device shares no sound, an empty one the default.
    StartScreen { quality: usize, audio_device: Option<S>, display: usize },
    /// The camera is shared.
    StartWebcam { quality: usize, camera: usize },
    /// The peers are told whether the user is there.
    UpdatePresence(PresenceStatus),
    /// A call message is sent and kept.
    SendCallMessage { text: S },
    /// The desktop shows a notification.
    Notify { title: S, body: S },
    /// The ringtone starts.
    StartRingtone,
    /// The ringtone stops.
    StopRingtone,
    /// The messaging service forgets an incoming call, or cuts it off.
    DismissCall { ip: S, reject: bool },
    /// The sound of a new message is played.
    PlaySound,
    /// A text is added to a chat history.
    AppendMessage { contact_id: S, from_me: bool, text: S, load: bool },
    /// A file offer is added to a chat history.
    AppendFile {
        contact_id: S,
        from_me: bool,
        transfer_id: u32,
        filename: S,
        file_size: u64,
        load: bool,
    },
    /// The state of a file in a chat history changes.
    SetFileStatus {
        contact_id: S,
        transfer_id: u32,
        status: FileStatus<S>,
        saved_path: Option<S>,
        load: bool,
    },
    /// An offered file is accepted.
    AcceptFile { contact_id: S, transfer_id: u32 },
    /// An offered file is declined.
    RejectFile { contact_id: S, transfer_id: u32 },
    /// A running transfer is stopped.
    CancelFile { contact_id: S, transfer_id: u32 },
    /// The chat history of a contact is loaded if it is not.
    LoadHistory { contact_id: S },
    /// A peer is connected to, at an address given as text; as with all that goes to an
    /// address, nothing is done where the text is none.
    Connect { contact_id: S, address: S, pubkey: K },
    /// A text is sent to a peer.
    SendText { contact_id: S, address: S, pubkey: K, text: S },
    /// A file is offered to a peer.
    OfferFile { contact_id: S, address: S, pubkey: K, path: S },
    /// A contact and all its messages are deleted, on both sides.
    DeleteContact { contact_id: S, pubkey: K },
    /// The loaded chat history and avatar of a contact are dropped.
    ForgetContact { contact_id: S },
    /// The messages of a chat are deleted.
    DeleteHistory { contact_id: S },
    /// The avatar of a contact is read again when it is next shown.
    ForgetContactAvatar { contact_id: S },
    /// The avatar of a group is read again when it is next shown.
    ForgetGroupAvatar { group_id: S },
    /// A contact request is accepted.
    AcceptRequest { request_id: S },
    /// A contact request is declined.
    RejectRequest { request_id: S },
    /// A contact request is declined, and its sender blocked.
    BlockRequest { request_id: S, ip: S },
    /// A group is written.
    SaveGroup { group_id: S },
    /// The files of a group are deleted.
    DeleteGroup { group_id: S },
    /// A group is sent to its other members.
    BroadcastGroup { group_id: S },
    /// The picture of a group, which has this digest, is sent to the other members.
    SendGroupAvatar { group_id: S, sha256: K },
    /// The messages of a deleted channel are moved to the fallback channel.
    MigrateChannel { group_id: S, channel_id: S, name: S },
    /// A message is added to the history of a group channel.
    AppendGroupMessage { group_id: S, channel_id: S, fingerprint: S, nickname: S, text: S },
    /// A message is sent to those in the group call.
    SendGroupCallMessage { text: S },
    /// The history of the group call is written and closed.
    CloseGroupHistory,
    /// The engine of the group call is told to stop.
    StopGroupCall,
    /// The inviter is told that the invitation was taken.
    AcceptInvite { contact_id: S, group_id: S },
    /// The inviter is told that the invitation was declined.
    RejectInvite { contact_id: S, group_id: S },
}

/// One thing to be done.
pub type Action = Effect<String, [u8; 32]>;

/// One thing to be done as mathematical data.
pub type ActionData = Effect<Seq<char>, Seq<u8>>;

impl View for Effect<String, [u8; 32]> {
    type V = Effect<Seq<char>, Seq<u8>>;

    open spec fn view(&self) -> Effect<Seq<char>, Seq<u8>> {
        match *self {
            Effect::YieldSocket => Effect::YieldSocket,
            Effect::ReclaimSocket => Effect::ReclaimSocket,
            Effect::SaveSettings => Effect::SaveSettings,
            Effect::SignalHangup => Effect::SignalHangup,
            Effect::ReloadContacts => Effect::ReloadContacts,
            Effect::EnterFullscreen => Effect::EnterFullscreen,
            Effect::LeaveFullscreen => Effect::LeaveFullscreen,
            Effect::StopSharing => Effect::StopSharing,
            Effect::StartScreen { quality, audio_device, display } => Effect::StartScreen {
                quality,
                audio_device: maybe(audio_device),
                display,
            },
            Effect::StartWebcam { quality, camera } => Effect::StartWebcam { quality, camera },
            Effect::UpdatePresence(status) => Effect::UpdatePresence(status),
            Effect::SendCallMessage { text } => Effect::SendCallMessage { text: text@ },
            Effect::Notify { title, body } => Effect::Notify { title: title@, body: body@ },
            Effect::StartRingtone => Effect::StartRingtone,
            Effect::StopRingtone => Effect::StopRingtone,
            Effect::DismissCall { ip, reject } => Effect::DismissCall { ip: ip@, reject },
            Effect::PlaySound => Effect::PlaySound,
            Effect::AppendMessage { contact_id, from_me, text, load } => Effect::AppendMessage {
                contact_id: contact_id@,
                from_me,
                text: text@,
                load,
            },
            Effect::AppendFile {
                contact_id,
                from_me,
                transfer_id,
                filename,
                file_size,
                load,
            } => Effect::AppendFile {
                contact_id: contact_id@,
                from_me,
                transfer_id,
                filename: filename@,
                file_size,
                load,
            },
            Effect::SetFileStatus {
                contact_id,
                transfer_id,
                status,
                saved_path,
                load,
            } => Effect::SetFileStatus {
                contact_id: contact_id@,
                transfer_id,
                status: status@,
                saved_path: maybe(saved_path),
                load,
            },
            Effect::AcceptFile { contact_id, transfer_id } => Effect::AcceptFile {
                contact_id: contact_id@,
                transfer_id,
            },
            Effect::RejectFile { contact_id, transfer_id } => Effect::RejectFile {
                contact_id: contact_id@,
                transfer_id,
            },
            Effect::CancelFile { contact_id, transfer_id } => Effect::CancelFile {
                contact_id: contact_id@,
                transfer_id,
            },
            Effect::LoadHistory { contact_id } => Effect::LoadHistory { contact_id: contact_id@ },
            Effect::Connect { contact_id, address, pubkey } => Effect::Connect {
                contact_id: contact_id@,
                address: address@,
                pubkey: pubkey@,
            },
            Effect::SendText { contact_id, address, pubkey, text } => Effect::SendText {
                contact_id: contact_id@,
                address: address@,
                pubkey: pubkey@,
                text: text@,
            },
            Effect::OfferFile { contact_id, address, pubkey, path } => Effect::OfferFile {
                contact_id: contact_id@,
                address: address@,
                pubkey: pubkey@,
                path: path@,
            },
            Effect::DeleteContact { contact_id, pubkey } => Effect::DeleteContact {
                contact_id: contact_id@,
                pubkey: pubkey@,
            },
            Effect::ForgetContact { contact_id } => Effect::ForgetContact {
                contact_id: contact_id@,
            },
            Effect::DeleteHistory { contact_id } => Effect::DeleteHistory {
                contact_id: contact_id@,
            },
            Effect::ForgetContactAvatar { contact_id } => Effect::ForgetContactAvatar {
                contact_id: contact_id@,
            },
            Effect::ForgetGroupAvatar { group_id } => Effect::ForgetGroupAvatar {
                group_id: group_id@,
            },
            Effect::AcceptRequest { request_id } => Effect::AcceptRequest {
                request_id: request_id@,
            },
            Effect::RejectRequest { request_id } => Effect::RejectRequest {
                request_id: request_id@,
            },
            Effect::BlockRequest { request_id, ip } => Effect::BlockRequest {
                request_id: request_id@,
                ip: ip@,
            },
            Effect::SaveGroup { group_id } => Effect::SaveGroup { group_id: group_id@ },
            Effect::DeleteGroup { group_id } => Effect::DeleteGroup { group_id: group_id@ },
            Effect::BroadcastGroup { group_id } => Effect::BroadcastGroup { group_id: group_id@ },
            Effect::SendGroupAvatar { group_id, sha256 } => Effect::SendGroupAvatar {
                group_id: group_id@,
                sha256: sha256@,
            },
            Effect::MigrateChannel { group_id, channel_id, name } => Effect::MigrateChannel {
                group_id: group_id@,
                channel_id: channel_id@,
                name: name@,
            },
            Effect::AppendGroupMessage {
                group_id,
                channel_id,
                fingerprint,
                nickname,
                text,
            } => Effect::AppendGroupMessage {
                group_id: group_id@,
                channel_id: channel_id@,
                fingerprint: fingerprint@,
                nickname: nickname@,
                text: text@,
            },
            Effect::SendGroupCallMessage { text } => Effect::SendGroupCallMessage { text: text@ },
            Effect::CloseGroupHistory => Effect::CloseGroupHistory,
            Effect::StopGroupCall => Effect::StopGroupCall,
            Effect::AcceptInvite { contact_id, group_id } => Effect::AcceptInvite {
                contact_id: contact_id@,
                group_id: group_id@,
            },
            Effect::RejectInvite { contact_id, group_id } => Effect::RejectInvite {
                contact_id: contact_id@,
                group_id: group_id@,
            },
        }
    }
}

/// A text that is there is viewed as what it says, and one that is absent as absent.
pub proof fn absent_texts_stay_absent(s: String)
    ensures
        maybe(Some(s)) == Some(s@),
        maybe(None) is None,
{
}

} // verus!
