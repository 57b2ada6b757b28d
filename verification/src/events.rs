//! What the network side and the user's side of the client tell each other.

use vstd::prelude::*;

verus! {

/// What the user's side asks for.
pub enum UiCmd {
    /// A command to the server, as typed.
    Raw(String),
    Register { pass: String },
    Login { pass: String },
    ProfileSet { nick: String, bio: String, hide: bool },
    SetUsername(String),
    SetPassword { old: String, new: String },
    Whois(String),
    RefreshUsers,
    RefreshRooms,
    Join { room: String, pass: String },
    CreateRoom { room: String, pass: String },
    Leave,
    /// The user types in the chat with this peer.
    Typing(String),
    /// A message to the room.
    Room(String),
    /// A message to one peer.
    Priv { target: String, text: String },
    /// A file to the room, by its path.
    File(String),
    /// The key that this peer has now is to be trusted.
    Trust(String),
}

/// The texts of a `UiCmd`.
pub enum UiCmdModel {
    Raw(Seq<char>),
    Register { pass: Seq<char> },
    Login { pass: Seq<char> },
    ProfileSet { nick: Seq<char>, bio: Seq<char>, hide: bool },
    SetUsername(Seq<char>),
    SetPassword { old: Seq<char>, new: Seq<char> },
    Whois(Seq<char>),
    RefreshUsers,
    RefreshRooms,
    Join { room: Seq<char>, pass: Seq<char> },
    CreateRoom { room: Seq<char>, pass: Seq<char> },
    Leave,
    Typing(Seq<char>),
    Room(Seq<char>),
    Priv { target: Seq<char>, text: Seq<char> },
    File(Seq<char>),
    Trust(Seq<char>),
}

impl View for UiCmd {
    type V = UiCmdModel;

    open spec fn view(&self) -> UiCmdModel {
        match *self {
            UiCmd::Raw(s) => UiCmdModel::Raw(s@),
            UiCmd::Register { pass } => UiCmdModel::Register { pass: pass@ },
            UiCmd::Login { pass } => UiCmdModel::Login { pass: pass@ },
            UiCmd::ProfileSet { nick, bio, hide } => UiCmdModel::ProfileSet {
                nick: nick@,
                bio: bio@,
                hide,
            },
            UiCmd::SetUsername(s) => UiCmdModel::SetUsername(s@),
            UiCmd::SetPassword { old: o, new } => UiCmdModel::SetPassword { old: o@, new: new@ },
            UiCmd::Whois(s) => UiCmdModel::Whois(s@),
            UiCmd::RefreshUsers => UiCmdModel::RefreshUsers,
            UiCmd::RefreshRooms => UiCmdModel::RefreshRooms,
            UiCmd::Join { room, pass } => UiCmdModel::Join { room: room@, pass: pass@ },
            UiCmd::CreateRoom { room, pass } => UiCmdModel::CreateRoom { room: room@, pass: pass@ },
            UiCmd::Leave => UiCmdModel::Leave,
            UiCmd::Typing(s) => UiCmdModel::Typing(s@),
            UiCmd::Room(s) => UiCmdModel::Room(s@),
            UiCmd::Priv { target, text } => UiCmdModel::Priv { target: target@, text: text@ },
            UiCmd::File(s) => UiCmdModel::File(s@),
            UiCmd::Trust(s) => UiCmdModel::Trust(s@),
        }
    }
}

/// What the network side reports.
pub enum Ev {
    Line(String),
    Warn(String),
    Error(String),
    Authed,
    /// Nick, @username, online.
    UserList(Vec<(String, String, bool)>),
    Presence { user: String, online: bool, nick: String },
    /// The profile of another user.
    Profile { user: String, nick: String, online: bool, bio: String },
    /// The own profile was saved.
    ProfileSaved { nick: String, bio: String, hide: bool },
    UsernameChanged(String),
    PasswordChanged,
    /// We entered a room.
    RoomChanged(String),
    /// The list of rooms, as the server gives it.
    Rooms(String),
    Typing { from: String },
    /// A message from a peer, decrypted.
    Msg { from: String, text: String },
    /// A file from a peer, saved.
    FileMsg { from: String, name: String },
}

/// The texts of an `Ev`.
pub enum EvModel {
    Line(Seq<char>),
    Warn(Seq<char>),
    Error(Seq<char>),
    Authed,
    UserList(Seq<(Seq<char>, Seq<char>, bool)>),
    Presence { user: Seq<char>, online: bool, nick: Seq<char> },
    Profile { user: Seq<char>, nick: Seq<char>, online: bool, bio: Seq<char> },
    ProfileSaved { nick: Seq<char>, bio: Seq<char>, hide: bool },
    UsernameChanged(Seq<char>),
    PasswordChanged,
    RoomChanged(Seq<char>),
    Rooms(Seq<char>),
    Typing { from: Seq<char> },
    Msg { from: Seq<char>, text: Seq<char> },
    FileMsg { from: Seq<char>, name: Seq<char> },
}

/// The texts of a list of users.
pub open spec fn user_views(v: Seq<(String, String, bool)>) -> Seq<(Seq<char>, Seq<char>, bool)> {
    v.map_values(|u: (String, String, bool)| (u.0@, u.1@, u.2))
}

impl View for Ev {
    type V = EvModel;

    open spec fn view(&self) -> EvModel {
        match *self {
            Ev::Line(s) => EvModel::Line(s@),
            Ev::Warn(s) => EvModel::Warn(s@),
            Ev::Error(s) => EvModel::Error(s@),
            Ev::Authed => EvModel::Authed,
            Ev::UserList(v) => EvModel::UserList(user_views(v@)),
            Ev::Presence { user, online, nick } => EvModel::Presence {
                user: user@,
                online,
                nick: nick@,
            },
            Ev::Profile { user, nick, online, bio } => EvModel::Profile {
                user: user@,
                nick: nick@,
                online,
                bio: bio@,
            },
            Ev::ProfileSaved { nick, bio, hide } => EvModel::ProfileSaved {
                nick: nick@,
                bio: bio@,
                hide,
            },
            Ev::UsernameChanged(s) => EvModel::UsernameChanged(s@),
            Ev::PasswordChanged => EvModel::PasswordChanged,
            Ev::RoomChanged(s) => EvModel::RoomChanged(s@),
            Ev::Rooms(s) => EvModel::Rooms(s@),
            Ev::Typing { from } => EvModel::Typing { from: from@ },
            Ev::Msg { from, text } => EvModel::Msg { from: from@, text: text@ },
            Ev::FileMsg { from, name } => EvModel::FileMsg { from: from@, name: name@ },
        }
    }
}

/// The texts of a list of events.
pub open spec fn ev_views(v: Seq<Ev>) -> Seq<EvModel> {
    v.map_values(|e: Ev| e@)
}

/// Appends an event.
pub fn emit(evs: &mut Vec<Ev>, ev: Ev)
    ensures
        ev_views(final(evs)@) == ev_views(old(evs)@).push(ev@),
{
    evs.push(ev);
    assert(ev_views(evs@) =~= ev_views(old(evs)@).push(ev@));
}

} // verus!
