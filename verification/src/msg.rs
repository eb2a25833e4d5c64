//! What reaches the client (network events, input, I/O results, ticks)
//! and what it asks of the outside in return.
use crate::config::Config;
use crate::domain::{
    ChatId, ConferenceId, ConferenceType, Connection, FileId, GroupRole, Key32, Message, MessageType, PublicKey,
    UserStatus, WindowId,
};
use crate::input_keys::InputEvent;
use crate::model::{InternalMessageId, ToxLogLevel};
use vstd::prelude::*;

verus! {

/// What a side of a file transfer asks of the other.
#[derive(Debug, Clone, Copy, PartialEq, Eq, Structural)]
pub enum FileControl {
    Resume,
    Pause,
    Cancel,
}

/// What a group moderator did to a member.
#[derive(Debug, Clone, Copy, PartialEq, Eq, Structural)]
pub enum GroupModEvent {
    Kick,
    Observer,
    User,
    Moderator,
}

/// A request of a running script.
#[derive(Debug, Clone)]
pub enum ScriptRequest {
    Command(String),
    WaitOnline,
    WaitFriendOnline(u32),
    WaitReadReceipt(u32),
    WaitFriendMessage(u32, String),
    WaitFileRecv(u32),
    Sleep(u64),
}

/// Everything the client reacts to.
#[derive(Debug, Clone)]
pub enum Msg {
    /// From the network.
    Tox(ToxEvent),
    /// From the keyboard and mouse.
    Input(InputEvent),
    /// From the file and disk worker.
    IO(IOEvent),
    /// Ticks, scripts and logging.
    System(SystemEvent),
}

/// What the network reports.  Contacts, groups and conferences are named
/// by their numbers in this session; group and conference members by
/// their numbers within it.
#[derive(Debug, Clone)]
pub enum ToxEvent {
    Message(u32, MessageType, String),
    GroupMessage(u32, MessageType, String, String, Option<PublicKey>),
    ConferenceMessage(u32, MessageType, String, String, Option<PublicKey>),
    ConnectionStatus(Connection),
    /// The user's address, as shown.
    Address(String),
    DhtId(Key32),
    FriendStatus(u32, Connection, Option<PublicKey>),
    FriendName(u32, String),
    FriendStatusMessage(u32, String),
    FriendTyping(u32, bool),
    ReadReceipt(u32, u32),
    MessageSent(u32, u32, InternalMessageId),
    GroupMessageSent(u32, InternalMessageId),
    ConferenceMessageSent(u32, InternalMessageId),
    MessageSendFailed(WindowId, InternalMessageId),
    FriendRequest(PublicKey, String),
    GroupInvite(u32, String, String),
    ConferenceInvite(u32, ConferenceType, String),
    GroupCreated(u32, ChatId, Option<String>),
    ConferenceCreated(u32, ConferenceId),
    GroupTopic(u32, String),
    GroupName(u32, String),
    ConferenceTitle(u32, String),
    GroupSelfJoin(u32),
    GroupSelfRole(u32, GroupRole),
    GroupPeerJoin(u32, u32, String, GroupRole, PublicKey),
    GroupPeerLeave(u32, u32),
    GroupPeerName(u32, u32, String, GroupRole, PublicKey),
    GroupPeerStatus(u32, u32, UserStatus),
    GroupModeration(u32, u32, u32, GroupModEvent),
    ConferencePeerJoin(u32, u32, String, PublicKey),
    ConferencePeerLeave(u32, u32, PublicKey),
    ConferencePeerName(u32, u32, String, PublicKey),
    FileRecv(u32, FileId, u32, u64, String),
    FileChunkRequest(u32, FileId, u64, usize),
    FileRecvChunk(u32, FileId, u64, Vec<u8>),
    FileRecvControl(u32, FileId, FileControl),
    FileChunkSent(u32, FileId, u64, usize),
    Log(ToxLogLevel, String, u32, String, String),
}

/// What the file and disk worker reports.
#[derive(Debug, Clone)]
pub enum IOEvent {
    FileStarted(PublicKey, FileId, String, u64),
    FileChunkRead(PublicKey, FileId, u64, usize),
    FileChunkWritten(PublicKey, FileId, u64, usize),
    FileFinished(PublicKey, FileId),
    FileError(PublicKey, FileId, String),
    ProfileSaved,
    ConfigSaved,
    Error(String),
}

/// How grave a logged event is.
#[derive(Debug, Clone, Copy, PartialEq, Eq, Structural)]
pub enum LogSeverity {
    Info,
    Warning,
    Error,
}

/// Where a logged event belongs.
#[derive(Debug, Clone, Copy)]
pub enum LogContext {
    Global,
    Friend(PublicKey),
    Group(ChatId),
}

/// Ticks, script requests and log entries.
#[derive(Debug, Clone)]
pub enum SystemEvent {
    Tick,
    ScriptRequest(ScriptRequest),
    Log { severity: LogSeverity, context: LogContext, message: String },
}

/// What the client asks of the outside.
#[derive(Debug, Clone)]
pub enum Cmd {
    /// Of the network worker.
    Tox(ToxAction),
    /// Of the file and disk worker.
    IO(IOAction),
    /// Of the application itself.
    App(AppCmd),
}

/// What the application is asked to do.
#[derive(Debug, Clone)]
pub enum AppCmd {
    Quit,
    ReloadTox,
    SetTimeout(u64),
    Redraw,
    Screenshot(String, Option<u16>, Option<u16>),
}

/// What the file and disk worker is asked to do.
#[derive(Debug, Clone)]
pub enum IOAction {
    SaveProfile,
    SaveConfig(Option<Config>),
    /// Saving the given serialized state.
    SaveState(Option<String>),
    /// Opening the file at the given path.
    OpenFileForSending(PublicKey, FileId, String),
    /// Opening a file of the given name and size.
    OpenFileForReceiving(PublicKey, FileId, String, u64),
    WriteChunk(PublicKey, FileId, u64, Vec<u8>),
    ReadChunk(PublicKey, FileId, u64, usize),
    CloseFile(PublicKey, FileId),
    LogMessage(WindowId, Message),
}

/// What the network worker is asked to do.
#[derive(Debug, Clone)]
pub enum ToxAction {
    SendMessage(PublicKey, MessageType, String, InternalMessageId),
    SendGroupMessage(ChatId, MessageType, String, InternalMessageId),
    SendConferenceMessage(ConferenceId, MessageType, String, InternalMessageId),
    /// An address in hex and a greeting.
    AddFriend(String, String),
    AcceptFriend(PublicKey),
    DeleteFriend(PublicKey),
    /// A group's name.
    CreateGroup(String),
    CreateConference,
    LeaveGroup(ChatId),
    DeleteConference(ConferenceId),
    /// A group's key in hex, a name and a password.
    JoinGroup(String, String, String),
    /// The inviting contact, the invitation in hex, a name and a password.
    AcceptGroupInvite(PublicKey, String, String, String),
    /// The inviting contact and the invitation in hex.
    JoinConference(PublicKey, String),
    InviteFriendToGroup(ChatId, PublicKey),
    InviteFriendToConference(ConferenceId, PublicKey),
    SetGroupPeerIgnore(ChatId, PublicKey, bool),
    SetStatusMessage(String),
    SetStatusType(UserStatus),
    SetTyping(PublicKey, bool),
    SetName(String),
    SetGroupNickname(ChatId, String),
    SetGroupTopic(ChatId, String),
    SetConferenceTopic(ConferenceId, String),
    /// A node's host, port and key.
    Bootstrap(String, u16, Key32),
    /// The contact, the kind, the size, the name, the path and the id of
    /// a transfer to resume.
    FileSend(PublicKey, u32, u64, String, String, Option<FileId>),
    FileControl(PublicKey, FileId, FileControl),
    FileSendChunk(PublicKey, FileId, u64, Vec<u8>),
    FileSeek(PublicKey, FileId, u64),
    Reload(Box<Config>),
    Shutdown,
}

} // verus!
