//! What the server says, and what it is told: texts that go encrypted under
//! the key shared with it.

use crate::crypto;
use crate::events;
use crate::events::{Ev, EvModel, UiCmd, UiCmdModel};
use crate::primitives;
use crate::proto;
use crate::text;
use vstd::prelude::*;
use vstd::utf8::encode_utf8;

verus! {

/// What a text from the server asks for.
pub enum ServerText {
    /// The answer to what was asked last.
    Answer(String),
    /// A list of keys of peers.
    Keys,
    /// The user is logged in.
    Authed,
    /// An event for the user's side.
    Report(Ev),
    /// A text of a known sort with too few fields.
    Nothing,
}

/// The texts of a `ServerText`.
pub enum ServerModel {
    Answer(Seq<char>),
    Keys,
    Authed,
    Report(EvModel),
    Nothing,
}

impl View for ServerText {
    type V = ServerModel;

    open spec fn view(&self) -> ServerModel {
        match *self {
            ServerText::Answer(s) => ServerModel::Answer(s@),
            ServerText::Keys => ServerModel::Keys,
            ServerText::Authed => ServerModel::Authed,
            ServerText::Report(e) => ServerModel::Report(e@),
            ServerText::Nothing => ServerModel::Nothing,
        }
    }
}

/// Whether a text begins with a tag.
pub open spec fn tagged(s: Seq<char>, tag: Seq<char>) -> bool {
    tag.is_prefix_of(s)
}

/// What follows a tag.
pub open spec fn untagged(s: Seq<char>, tag: Seq<char>) -> Seq<char> {
    s.skip(tag.len() as int)
}

/// The users in a list of items `@user|nick|online`: those with three fields.
pub open spec fn users_in(items: Seq<Seq<char>>) -> Seq<(Seq<char>, Seq<char>, bool)>
    decreases items.len(),
{
    if items.len() == 0 {
        Seq::empty()
    } else {
        let p = text::split_on(items.last(), '|');
        let before = users_in(items.drop_last());
        if p.len() >= 3 {
            before.push((p[1], p[0], p[2] == "1"@))
        } else {
            before
        }
    }
}

/// What `user|state|nick` says of a user's presence.
pub open spec fn presence_in(rest: Seq<char>) -> ServerModel {
    let p = text::split_on(rest, '|');
    if p.len() >= 2 {
        ServerModel::Report(
            EvModel::Presence {
                user: p[0],
                online: p[1] == "online"@,
                nick: if p.len() > 2 {
                    p[2]
                } else {
                    Seq::empty()
                },
            },
        )
    } else {
        ServerModel::Nothing
    }
}

/// What `user|nick|bio|hide` says of the own profile.
pub open spec fn saved_profile_in(rest: Seq<char>) -> ServerModel {
    let p = text::split_at_most(rest, '|', 4);
    if p.len() >= 4 {
        ServerModel::Report(
            EvModel::ProfileSaved { nick: p[1], bio: p[2], hide: p[3] == "1"@ },
        )
    } else {
        ServerModel::Nothing
    }
}

/// What `user|nick|state|bio` says of another's profile.
pub open spec fn profile_in(rest: Seq<char>) -> ServerModel {
    let p = text::split_at_most(rest, '|', 4);
    if p.len() >= 4 {
        ServerModel::Report(
            EvModel::Profile { user: p[0], nick: p[1], online: p[2] == "online"@, bio: p[3] },
        )
    } else {
        ServerModel::Nothing
    }
}

/// What a text from the server asks for: the tag in front of it decides.
pub open spec fn server_text(t: Seq<char>) -> ServerModel {
    if tagged(t, "[RESP]"@) {
        ServerModel::Answer(text::trimmed(untagged(t, "[RESP]"@)))
    } else if tagged(t, "[ПУБКЛЮЧИ]"@) || tagged(t, "[НОВЫЙ]"@) {
        ServerModel::Keys
    } else if tagged(t, "[AUTH]OK"@) {
        ServerModel::Authed
    } else if tagged(t, "[ПОЛЬЗОВАТЕЛИ2]"@) {
        ServerModel::Report(
            EvModel::UserList(
                users_in(text::split_on(untagged(t, "[ПОЛЬЗОВАТЕЛИ2]"@), ';')),
            ),
        )
    } else if tagged(t, "[ПРИСУТСТВИЕ]"@) {
        presence_in(untagged(t, "[ПРИСУТСТВИЕ]"@))
    } else if tagged(t, "[ПРОФИЛЬOK]"@) {
        saved_profile_in(untagged(t, "[ПРОФИЛЬOK]"@))
    } else if tagged(t, "[ПРОФИЛЬ]"@) {
        profile_in(untagged(t, "[ПРОФИЛЬ]"@))
    } else if tagged(t, "[ЮЗЕРOK]"@) {
        ServerModel::Report(
            EvModel::UsernameChanged(text::trimmed(untagged(t, "[ЮЗЕРOK]"@))),
        )
    } else if tagged(t, "[ПАРОЛЬOK]"@) {
        ServerModel::Report(EvModel::PasswordChanged)
    } else if tagged(t, "[ПЕЧАТАЕТ]"@) {
        ServerModel::Report(
            EvModel::Typing { from: text::trimmed(untagged(t, "[ПЕЧАТАЕТ]"@)) },
        )
    } else if tagged(t, "[КОМНАТА] Вы в комнате:"@) {
        ServerModel::Report(
            EvModel::RoomChanged(text::trimmed(untagged(t, "[КОМНАТА] Вы в комнате:"@))),
        )
    } else if tagged(t, "[КОМНАТЫ]"@) {
        ServerModel::Report(EvModel::Rooms(text::trimmed(untagged(t, "[КОМНАТЫ]"@))))
    } else if tagged(t, "[ОШИБКА]"@) {
        ServerModel::Report(EvModel::Error(t))
    } else {
        ServerModel::Report(EvModel::Line(t))
    }
}

/// The users in a list.
fn parse_users(rest: &str) -> (r: Vec<(String, String, bool)>)
    ensures
        events::user_views(r@) == users_in(text::split_on(rest@, ';')),
{
    let items = text::split(rest, ';');
    let ghost vs = text::split_on(rest@, ';');
    let mut r: Vec<(String, String, bool)> = Vec::new();
    let mut i: usize = 0;
    assert(vs.take(0) =~= Seq::empty());
    assert(events::user_views(r@) =~= Seq::empty());
    while i < items.len()
        invariant
            i <= items@.len(),
            vs == text::views(items@),
            events::user_views(r@) == users_in(vs.take(i as int)),
        decreases items@.len() - i,
    {
        assert(vs.take(i + 1).drop_last() =~= vs.take(i as int));
        let p = text::split(items[i].as_str(), '|');
        let ghost ps = text::split_on(vs[i as int], '|');
        assert(ps == text::views(p@));
        if p.len() >= 3 {
            assert(ps[0] == p@[0]@ && ps[1] == p@[1]@ && ps[2] == p@[2]@);
            let online = text::same(p[2].as_str(), "1");
            let ghost before = r@;
            r.push((p[1].clone(), p[0].clone(), online));
            assert(events::user_views(r@) =~= events::user_views(before).push(
                (ps[1], ps[0], ps[2] == "1"@),
            ));
        }
        i += 1;
    }
    assert(vs.take(i as int) =~= vs);
    r
}

/// What is said of a user's presence.
fn parse_presence(rest: &str) -> (r: ServerText)
    ensures
        r@ == presence_in(rest@),
{
    let p = text::split(rest, '|');
    let ghost ps = text::split_on(rest@, '|');
    if p.len() >= 2 {
        assert(ps[0] == p@[0]@ && ps[1] == p@[1]@);
        let online = text::same(p[1].as_str(), "online");
        let nick = if p.len() > 2 {
            assert(ps[2] == p@[2]@);
            p[2].clone()
        } else {
            String::new()
        };
        ServerText::Report(Ev::Presence { user: p[0].clone(), online, nick })
    } else {
        ServerText::Nothing
    }
}

/// What is said of the own profile.
fn parse_saved_profile(rest: &str) -> (r: ServerText)
    ensures
        r@ == saved_profile_in(rest@),
{
    let p = text::splitn(rest, '|', 4);
    let ghost ps = text::split_at_most(rest@, '|', 4);
    if p.len() >= 4 {
        assert(ps[1] == p@[1]@ && ps[2] == p@[2]@ && ps[3] == p@[3]@);
        let hide = text::same(p[3].as_str(), "1");
        ServerText::Report(Ev::ProfileSaved { nick: p[1].clone(), bio: p[2].clone(), hide })
    } else {
        ServerText::Nothing
    }
}

/// What is said of another's profile.
fn parse_profile(rest: &str) -> (r: ServerText)
    ensures
        r@ == profile_in(rest@),
{
    let p = text::splitn(rest, '|', 4);
    let ghost ps = text::split_at_most(rest@, '|', 4);
    if p.len() >= 4 {
        assert(ps[0] == p@[0]@ && ps[1] == p@[1]@ && ps[2] == p@[2]@ && ps[3] == p@[3]@);
        let online = text::same(p[2].as_str(), "online");
        ServerText::Report(
            Ev::Profile { user: p[0].clone(), nick: p[1].clone(), online, bio: p[3].clone() },
        )
    } else {
        ServerText::Nothing
    }
}

/// What a text from the server asks for.
pub fn parse_server_text(t: &str) -> (r: ServerText)
    ensures
        r@ == server_text(t@),
{
    if let Some(rest) = text::strip_prefix(t, "[RESP]") {
        return ServerText::Answer(text::trim(rest.as_str()));
    }
    if text::starts_with(t, "[ПУБКЛЮЧИ]") || text::starts_with(t, "[НОВЫЙ]") {
        return ServerText::Keys;
    }
    if text::starts_with(t, "[AUTH]OK") {
        return ServerText::Authed;
    }
    if let Some(rest) = text::strip_prefix(t, "[ПОЛЬЗОВАТЕЛИ2]") {
        return ServerText::Report(Ev::UserList(parse_users(rest.as_str())));
    }
    if let Some(rest) = text::strip_prefix(t, "[ПРИСУТСТВИЕ]") {
        return parse_presence(rest.as_str());
    }
    if let Some(rest) = text::strip_prefix(t, "[ПРОФИЛЬOK]") {
        return parse_saved_profile(rest.as_str());
    }
    if let Some(rest) = text::strip_prefix(t, "[ПРОФИЛЬ]") {
        return parse_profile(rest.as_str());
    }
    if let Some(rest) = text::strip_prefix(t, "[ЮЗЕРOK]") {
        return ServerText::Report(Ev::UsernameChanged(text::trim(rest.as_str())));
    }
    if text::starts_with(t, "[ПАРОЛЬOK]") {
        return ServerText::Report(Ev::PasswordChanged);
    }
    if let Some(rest) = text::strip_prefix(t, "[ПЕЧАТАЕТ]") {
        return ServerText::Report(Ev::Typing { from: text::trim(rest.as_str()) });
    }
    if let Some(rest) = text::strip_prefix(t, "[КОМНАТА] Вы в комнате:") {
        return ServerText::Report(Ev::RoomChanged(text::trim(rest.as_str())));
    }
    if let Some(rest) = text::strip_prefix(t, "[КОМНАТЫ]") {
        return ServerText::Report(Ev::Rooms(text::trim(rest.as_str())));
    }
    if text::starts_with(t, "[ОШИБКА]") {
        return ServerText::Report(Ev::Error(text::own(t)));
    }
    ServerText::Report(Ev::Line(text::own(t)))
}

/// The text in the payload of a command frame, without white space around it,
/// where it decrypts under the key shared with the server.
pub open spec fn command_in(key: Seq<u8>, payload: Seq<u8>) -> Option<Seq<char>> {
    match crypto::opened_text(key, text::lossy(payload), Seq::empty()) {
        Some(t) => Some(text::trimmed(t)),
        None => None,
    }
}

/// The text in the payload of a command frame.
pub fn open_command(key: &[u8; 32], payload: &[u8]) -> (r: Option<String>)
    ensures
        crypto::text_in(r) == command_in(key@, payload@),
{
    let enc = text::from_utf8_lossy(payload);
    let aad: [u8; 0] = [];
    assert(aad@ =~= Seq::<u8>::empty());
    match crypto::gcm_decrypt(key, enc.as_str(), aad.as_slice()) {
        Some(t) => Some(text::trim(t.as_str())),
        None => None,
    }
}

/// The frame of a command. Fails only on a text of more than `GCM_MAX` bytes.
/// Who has the key reads the text in it, without white space around it.
pub fn command_frame(key: &[u8; 32], cmd: &str) -> (r: Option<Vec<u8>>)
    requires
        crypto::sealable(encode_utf8(cmd@).len()),
    ensures
        r is Some <==> encode_utf8(cmd@).len() <= primitives::GCM_MAX,
        r matches Some(f) ==> exists|nonce: Seq<u8>|
            nonce.len() == 12 && f@ == proto::frame(
                proto::TYPE_COMMAND,
                encode_utf8(
                    #[trigger] crypto::sealed_text(
                        key@,
                        nonce,
                        encode_utf8(cmd@),
                        Seq::empty(),
                    ),
                ),
            ),
        r matches Some(f) ==> exists|payload: Seq<u8>|
            f@ == #[trigger] proto::frame(proto::TYPE_COMMAND, payload) && command_in(key@, payload)
                == Some(text::trimmed(cmd@)),
{
    broadcast use {vstd::utf8::encode_utf8_valid_utf8, vstd::utf8::encode_utf8_decode_utf8};

    let aad: [u8; 0] = [];
    assert(aad@ =~= Seq::<u8>::empty());
    match crypto::gcm_encrypt(key, cmd.as_bytes(), aad.as_slice()) {
        Some(enc) => {
            let f = proto::encode_frame(proto::TYPE_COMMAND, enc.as_str().as_bytes());
            assert(f@ == proto::frame(proto::TYPE_COMMAND, encode_utf8(enc@)));
            assert(command_in(key@, encode_utf8(enc@)) == Some(text::trimmed(cmd@)));
            Some(f)
        },
        None => None,
    }
}

/// The payload by which a client makes its public key known.
pub open spec fn register_payload_of(username: Seq<char>, pub_b64: Seq<char>) -> Seq<char> {
    username + seq!['\0'] + pub_b64
}

/// The payload by which a client makes its public key known.
pub fn register_payload(username: &str, pub_b64: &str) -> (r: String)
    ensures
        r@ == register_payload_of(username@, pub_b64@),
{
    let mut r = text::own(username);
    r.push('\0');
    r.append(pub_b64);
    assert(r@ =~= register_payload_of(username@, pub_b64@));
    r
}

/// The frames that a client sends when it has connected: its name, the version
/// of the protocol, its public key.
pub fn hello_frames(username: &str, version: &str, pub_b64: &str) -> (r: Vec<Vec<u8>>)
    ensures
        r@.len() == 3,
        r@[0]@ == proto::frame(proto::TYPE_MESSAGE, encode_utf8(username@)),
        r@[1]@ == proto::frame(proto::TYPE_VERSION, encode_utf8(version@)),
        r@[2]@ == proto::frame(
            proto::TYPE_REGISTER,
            encode_utf8(register_payload_of(username@, pub_b64@)),
        ),
{
    let mut r: Vec<Vec<u8>> = Vec::new();
    r.push(proto::encode_frame(proto::TYPE_MESSAGE, username.as_bytes()));
    r.push(proto::encode_frame(proto::TYPE_VERSION, version.as_bytes()));
    let reg = register_payload(username, pub_b64);
    r.push(proto::encode_frame(proto::TYPE_REGISTER, reg.as_str().as_bytes()));
    r
}

/// Two words after a command, the second only where there is one.
pub open spec fn with_password(cmd: Seq<char>, room: Seq<char>, pass: Seq<char>) -> Seq<char> {
    if pass.len() == 0 {
        cmd + room
    } else {
        cmd + room + " "@ + pass
    }
}

/// The text that tells the server what the user asks for, where that is done
/// by telling the server alone.
pub open spec fn command_text(cmd: UiCmdModel, username: Seq<char>) -> Option<Seq<char>> {
    match cmd {
        UiCmdModel::Raw(s) => if s == "/exit"@ {
            None
        } else {
            Some(s)
        },
        UiCmdModel::Register { pass } => Some("/register "@ + pass + " "@ + pass),
        UiCmdModel::Login { pass } => Some("/login "@ + username + " "@ + pass),
        UiCmdModel::ProfileSet { nick, bio, hide } => Some(
            "/profile set nick="@ + nick + " bio="@ + bio + " hide="@ + (if hide {
                "1"@
            } else {
                "0"@
            }),
        ),
        UiCmdModel::SetUsername(s) => Some("/setusername "@ + s),
        UiCmdModel::SetPassword { old: o, new } => Some("/setpassword "@ + o + " "@ + new),
        UiCmdModel::Whois(s) => Some("/whois "@ + s),
        UiCmdModel::RefreshUsers => Some("/users"@),
        UiCmdModel::RefreshRooms => Some("/rooms"@),
        UiCmdModel::Join { room, pass } => Some(with_password("/join "@, room, pass)),
        UiCmdModel::CreateRoom { room, pass } => Some(with_password("/createroom "@, room, pass)),
        UiCmdModel::Leave => Some("/leave"@),
        UiCmdModel::Typing(s) => Some("/typing "@ + s),
        UiCmdModel::Room(_) => None,
        UiCmdModel::Priv { .. } => None,
        UiCmdModel::File(_) => None,
        UiCmdModel::Trust(_) => None,
    }
}

/// Two words after a command, the second only where there is one.
fn room_command(cmd: &str, room: &str, pass: &str) -> (r: String)
    ensures
        r@ == with_password(cmd@, room@, pass@),
{
    let mut r = text::cat(cmd, room);
    if !pass.is_empty() {
        r.append(" ");
        r.append(pass);
    }
    r
}

/// Two words after a command.
fn two_words(cmd: &str, a: &str, b: &str) -> (r: String)
    ensures
        r@ == cmd@ + a@ + " "@ + b@,
{
    let mut r = text::cat3(cmd, a, " ");
    r.append(b);
    r
}

/// The text that tells the server what the user asks for.
pub fn command_of(cmd: &UiCmd, username: &str) -> (r: Option<String>)
    ensures
        crypto::text_in(r) == command_text(cmd@, username@),
{
    match cmd {
        UiCmd::Raw(s) => if text::same(s.as_str(), "/exit") {
            None
        } else {
            Some(s.clone())
        },
        UiCmd::Register { pass } => Some(two_words("/register ", pass.as_str(), pass.as_str())),
        UiCmd::Login { pass } => Some(two_words("/login ", username, pass.as_str())),
        UiCmd::ProfileSet { nick, bio, hide } => {
            let mut r = text::cat3("/profile set nick=", nick.as_str(), " bio=");
            r.append(bio.as_str());
            r.append(" hide=");
            if *hide {
                r.append("1");
            } else {
                r.append("0");
            }
            Some(r)
        },
        UiCmd::SetUsername(s) => Some(text::cat("/setusername ", s.as_str())),
        UiCmd::SetPassword { old: o, new } => Some(
            two_words("/setpassword ", o.as_str(), new.as_str()),
        ),
        UiCmd::Whois(s) => Some(text::cat("/whois ", s.as_str())),
        UiCmd::RefreshUsers => Some(text::own("/users")),
        UiCmd::RefreshRooms => Some(text::own("/rooms")),
        UiCmd::Join { room, pass } => Some(room_command("/join ", room.as_str(), pass.as_str())),
        UiCmd::CreateRoom { room, pass } => Some(
            room_command("/createroom ", room.as_str(), pass.as_str()),
        ),
        UiCmd::Leave => Some(text::own("/leave")),
        UiCmd::Typing(s) => Some(text::cat("/typing ", s.as_str())),
        UiCmd::Room(_) => None,
        UiCmd::Priv { .. } => None,
        UiCmd::File(_) => None,
        UiCmd::Trust(_) => None,
    }
}

proof fn lemma_tagged(tag: Seq<char>, rest: Seq<char>)
    ensures
        tagged(tag + rest, tag),
        untagged(tag + rest, tag) == rest,
{
    assert((tag + rest).subrange(0, tag.len() as int) =~= tag);
    assert((tag + rest).skip(tag.len() as int) =~= rest);
}

proof fn lemma_not_tagged(t: Seq<char>, tag: Seq<char>, i: int)
    requires
        0 <= i < tag.len(),
        i >= t.len() || t[i] != tag[i],
    ensures
        !tagged(t, tag),
{
    if tagged(t, tag) {
        assert(t.subrange(0, tag.len() as int)[i] == t[i]);
    }
}

/// Which character tells a tag from the others.
proof fn lemma_tags(t: Seq<char>)
    ensures
        !(t.len() > 1 && t[1] == 'R') ==> !tagged(t, "[RESP]"@),
        !(t.len() > 2 && t[2] == 'У') ==> !tagged(t, "[ПУБКЛЮЧИ]"@),
        !(t.len() > 1 && t[1] == 'Н') ==> !tagged(t, "[НОВЫЙ]"@),
        !(t.len() > 1 && t[1] == 'A') ==> !tagged(t, "[AUTH]OK"@),
        !(t.len() > 2 && t[1] == 'П' && t[2] == 'О') ==> !tagged(t, "[ПОЛЬЗОВАТЕЛИ2]"@),
        !(t.len() > 3 && t[2] == 'Р' && t[3] == 'И') ==> !tagged(t, "[ПРИСУТСТВИЕ]"@),
        !(t.len() > 8 && t[3] == 'О' && t[8] == 'O') ==> !tagged(t, "[ПРОФИЛЬOK]"@),
        !(t.len() > 8 && t[3] == 'О' && t[8] == ']') ==> !tagged(t, "[ПРОФИЛЬ]"@),
        !(t.len() > 1 && t[1] == 'Ю') ==> !tagged(t, "[ЮЗЕРOK]"@),
        !(t.len() > 2 && t[2] == 'А') ==> !tagged(t, "[ПАРОЛЬOK]"@),
        !(t.len() > 2 && t[2] == 'Е') ==> !tagged(t, "[ПЕЧАТАЕТ]"@),
        !(t.len() > 7 && t[1] == 'К' && t[7] == 'А') ==> !tagged(t, "[КОМНАТА] Вы в комнате:"@),
        !(t.len() > 7 && t[1] == 'К' && t[7] == 'Ы') ==> !tagged(t, "[КОМНАТЫ]"@),
        !(t.len() > 2 && t[1] == 'О') ==> !tagged(t, "[ОШИБКА]"@),
        !(t.len() > 0 && t[0] == '[') ==> server_text(t) == ServerModel::Report(EvModel::Line(t)),
{
    lemma_tag_texts();
    if !(t.len() > 1 && t[1] == 'R') {
        lemma_not_tagged(t, "[RESP]"@, 1);
    }
    if !(t.len() > 2 && t[2] == 'У') {
        lemma_not_tagged(t, "[ПУБКЛЮЧИ]"@, 2);
    }
    if !(t.len() > 1 && t[1] == 'Н') {
        lemma_not_tagged(t, "[НОВЫЙ]"@, 1);
    }
    if !(t.len() > 1 && t[1] == 'A') {
        lemma_not_tagged(t, "[AUTH]OK"@, 1);
    }
    if !(t.len() > 1 && t[1] == 'П') {
        lemma_not_tagged(t, "[ПОЛЬЗОВАТЕЛИ2]"@, 1);
    } else if !(t.len() > 2 && t[2] == 'О') {
        lemma_not_tagged(t, "[ПОЛЬЗОВАТЕЛИ2]"@, 2);
    }
    if !(t.len() > 2 && t[2] == 'Р') {
        lemma_not_tagged(t, "[ПРИСУТСТВИЕ]"@, 2);
    } else if !(t.len() > 3 && t[3] == 'И') {
        lemma_not_tagged(t, "[ПРИСУТСТВИЕ]"@, 3);
    }
    if !(t.len() > 3 && t[3] == 'О') {
        lemma_not_tagged(t, "[ПРОФИЛЬOK]"@, 3);
        lemma_not_tagged(t, "[ПРОФИЛЬ]"@, 3);
    }
    if !(t.len() > 8 && t[8] == 'O') {
        lemma_not_tagged(t, "[ПРОФИЛЬOK]"@, 8);
    }
    if !(t.len() > 8 && t[8] == ']') {
        lemma_not_tagged(t, "[ПРОФИЛЬ]"@, 8);
    }
    if !(t.len() > 1 && t[1] == 'Ю') {
        lemma_not_tagged(t, "[ЮЗЕРOK]"@, 1);
    }
    if !(t.len() > 2 && t[2] == 'А') {
        lemma_not_tagged(t, "[ПАРОЛЬOK]"@, 2);
    }
    if !(t.len() > 2 && t[2] == 'Е') {
        lemma_not_tagged(t, "[ПЕЧАТАЕТ]"@, 2);
    }
    if !(t.len() > 1 && t[1] == 'К') {
        lemma_not_tagged(t, "[КОМНАТА] Вы в комнате:"@, 1);
        lemma_not_tagged(t, "[КОМНАТЫ]"@, 1);
    }
    if !(t.len() > 7 && t[7] == 'А') {
        lemma_not_tagged(t, "[КОМНАТА] Вы в комнате:"@, 7);
    }
    if !(t.len() > 7 && t[7] == 'Ы') {
        lemma_not_tagged(t, "[КОМНАТЫ]"@, 7);
    }
    if !(t.len() > 2 && t[1] == 'О') {
        if !(t.len() > 2) {
            lemma_not_tagged(t, "[ОШИБКА]"@, 2);
        } else {
            lemma_not_tagged(t, "[ОШИБКА]"@, 1);
        }
    }
    if !(t.len() > 0 && t[0] == '[') {
        lemma_not_tagged(t, "[RESP]"@, 0);
        lemma_not_tagged(t, "[ПУБКЛЮЧИ]"@, 0);
        lemma_not_tagged(t, "[НОВЫЙ]"@, 0);
        lemma_not_tagged(t, "[AUTH]OK"@, 0);
        lemma_not_tagged(t, "[ПОЛЬЗОВАТЕЛИ2]"@, 0);
        lemma_not_tagged(t, "[ПРИСУТСТВИЕ]"@, 0);
        lemma_not_tagged(t, "[ПРОФИЛЬOK]"@, 0);
        lemma_not_tagged(t, "[ПРОФИЛЬ]"@, 0);
        lemma_not_tagged(t, "[ЮЗЕРOK]"@, 0);
        lemma_not_tagged(t, "[ПАРОЛЬOK]"@, 0);
        lemma_not_tagged(t, "[ПЕЧАТАЕТ]"@, 0);
        lemma_not_tagged(t, "[КОМНАТА] Вы в комнате:"@, 0);
        lemma_not_tagged(t, "[КОМНАТЫ]"@, 0);
        lemma_not_tagged(t, "[ОШИБКА]"@, 0);
    }
}

proof fn lemma_tag_texts()
    ensures
        "[RESP]"@ == seq!['[', 'R', 'E', 'S', 'P', ']'],
        "[ПУБКЛЮЧИ]"@ == seq!['[', 'П', 'У', 'Б', 'К', 'Л', 'Ю', 'Ч', 'И', ']'],
        "[НОВЫЙ]"@ == seq!['[', 'Н', 'О', 'В', 'Ы', 'Й', ']'],
        "[AUTH]OK"@ == seq!['[', 'A', 'U', 'T', 'H', ']', 'O', 'K'],
        "[ПОЛЬЗОВАТЕЛИ2]"@ == seq![
            '[', 'П', 'О', 'Л', 'Ь', 'З', 'О', 'В', 'А', 'Т', 'Е', 'Л', 'И', '2', ']'
        ],
        "[ПРИСУТСТВИЕ]"@ == seq![
            '[', 'П', 'Р', 'И', 'С', 'У', 'Т', 'С', 'Т', 'В', 'И', 'Е', ']'
        ],
        "[ПРОФИЛЬOK]"@ == seq!['[', 'П', 'Р', 'О', 'Ф', 'И', 'Л', 'Ь', 'O', 'K', ']'],
        "[ПРОФИЛЬ]"@ == seq!['[', 'П', 'Р', 'О', 'Ф', 'И', 'Л', 'Ь', ']'],
        "[ЮЗЕРOK]"@ == seq!['[', 'Ю', 'З', 'Е', 'Р', 'O', 'K', ']'],
        "[ПАРОЛЬOK]"@ == seq!['[', 'П', 'А', 'Р', 'О', 'Л', 'Ь', 'O', 'K', ']'],
        "[ПЕЧАТАЕТ]"@ == seq!['[', 'П', 'Е', 'Ч', 'А', 'Т', 'А', 'Е', 'Т', ']'],
        "[КОМНАТА] Вы в комнате:"@ == seq![
            '[', 'К', 'О', 'М', 'Н', 'А', 'Т', 'А', ']', ' ', 'В', 'ы', ' ', 'в', ' ', 'к', 'о',
            'м', 'н', 'а', 'т', 'е', ':'
        ],
        "[КОМНАТЫ]"@ == seq!['[', 'К', 'О', 'М', 'Н', 'А', 'Т', 'Ы', ']'],
        "[ОШИБКА]"@ == seq!['[', 'О', 'Ш', 'И', 'Б', 'К', 'А', ']'],
{
    reveal_strlit("[RESP]");
    reveal_strlit("[ПУБКЛЮЧИ]");
    reveal_strlit("[НОВЫЙ]");
    reveal_strlit("[AUTH]OK");
    reveal_strlit("[ПОЛЬЗОВАТЕЛИ2]");
    reveal_strlit("[ПРИСУТСТВИЕ]");
    reveal_strlit("[ПРОФИЛЬOK]");
    reveal_strlit("[ПРОФИЛЬ]");
    reveal_strlit("[ЮЗЕРOK]");
    reveal_strlit("[ПАРОЛЬOK]");
    reveal_strlit("[ПЕЧАТАЕТ]");
    reveal_strlit("[КОМНАТА] Вы в комнате:");
    reveal_strlit("[КОМНАТЫ]");
    reveal_strlit("[ОШИБКА]");
}

proof fn lemma_answer_tag(rest: Seq<char>)
    ensures
        server_text("[RESP]"@ + rest) == ServerModel::Answer(text::trimmed(rest)),
{
    reveal_strlit("[RESP]");
    lemma_tags("[RESP]"@ + rest);
    lemma_tagged("[RESP]"@, rest);
}

proof fn lemma_keys_tag(rest: Seq<char>)
    ensures
        server_text("[ПУБКЛЮЧИ]"@ + rest) == ServerModel::Keys,
{
    reveal_strlit("[ПУБКЛЮЧИ]");
    lemma_tags("[ПУБКЛЮЧИ]"@ + rest);
    lemma_tagged("[ПУБКЛЮЧИ]"@, rest);
}

proof fn lemma_new_key_tag(rest: Seq<char>)
    ensures
        server_text("[НОВЫЙ]"@ + rest) == ServerModel::Keys,
{
    reveal_strlit("[НОВЫЙ]");
    lemma_tags("[НОВЫЙ]"@ + rest);
    lemma_tagged("[НОВЫЙ]"@, rest);
}

proof fn lemma_authed_tag(rest: Seq<char>)
    ensures
        server_text("[AUTH]OK"@ + rest) == ServerModel::Authed,
{
    reveal_strlit("[AUTH]OK");
    lemma_tags("[AUTH]OK"@ + rest);
    lemma_tagged("[AUTH]OK"@, rest);
}

proof fn lemma_users_tag(rest: Seq<char>)
    ensures
        server_text("[ПОЛЬЗОВАТЕЛИ2]"@ + rest) == ServerModel::Report(
            EvModel::UserList(users_in(text::split_on(rest, ';'))),
        ),
{
    reveal_strlit("[ПОЛЬЗОВАТЕЛИ2]");
    lemma_tags("[ПОЛЬЗОВАТЕЛИ2]"@ + rest);
    lemma_tagged("[ПОЛЬЗОВАТЕЛИ2]"@, rest);
}

proof fn lemma_presence_tag(rest: Seq<char>)
    ensures
        server_text("[ПРИСУТСТВИЕ]"@ + rest) == presence_in(rest),
{
    reveal_strlit("[ПРИСУТСТВИЕ]");
    lemma_tags("[ПРИСУТСТВИЕ]"@ + rest);
    lemma_tagged("[ПРИСУТСТВИЕ]"@, rest);
}

proof fn lemma_saved_tag(rest: Seq<char>)
    ensures
        server_text("[ПРОФИЛЬOK]"@ + rest) == saved_profile_in(rest),
{
    reveal_strlit("[ПРОФИЛЬOK]");
    lemma_tags("[ПРОФИЛЬOK]"@ + rest);
    lemma_tagged("[ПРОФИЛЬOK]"@, rest);
}

proof fn lemma_profile_tag(rest: Seq<char>)
    ensures
        server_text("[ПРОФИЛЬ]"@ + rest) == profile_in(rest),
{
    reveal_strlit("[ПРОФИЛЬ]");
    lemma_tags("[ПРОФИЛЬ]"@ + rest);
    lemma_tagged("[ПРОФИЛЬ]"@, rest);
}

proof fn lemma_username_tag(rest: Seq<char>)
    ensures
        server_text("[ЮЗЕРOK]"@ + rest) == ServerModel::Report(
            EvModel::UsernameChanged(text::trimmed(rest)),
        ),
{
    reveal_strlit("[ЮЗЕРOK]");
    lemma_tags("[ЮЗЕРOK]"@ + rest);
    lemma_tagged("[ЮЗЕРOK]"@, rest);
}

proof fn lemma_password_tag(rest: Seq<char>)
    ensures
        server_text("[ПАРОЛЬOK]"@ + rest) == ServerModel::Report(EvModel::PasswordChanged),
{
    reveal_strlit("[ПАРОЛЬOK]");
    lemma_tags("[ПАРОЛЬOK]"@ + rest);
    lemma_tagged("[ПАРОЛЬOK]"@, rest);
}

proof fn lemma_typing_tag(rest: Seq<char>)
    ensures
        server_text("[ПЕЧАТАЕТ]"@ + rest) == ServerModel::Report(
            EvModel::Typing { from: text::trimmed(rest) },
        ),
{
    reveal_strlit("[ПЕЧАТАЕТ]");
    lemma_tags("[ПЕЧАТАЕТ]"@ + rest);
    lemma_tagged("[ПЕЧАТАЕТ]"@, rest);
}

proof fn lemma_room_tag(rest: Seq<char>)
    ensures
        server_text("[КОМНАТА] Вы в комнате:"@ + rest) == ServerModel::Report(
            EvModel::RoomChanged(text::trimmed(rest)),
        ),
{
    reveal_strlit("[КОМНАТА] Вы в комнате:");
    lemma_tags("[КОМНАТА] Вы в комнате:"@ + rest);
    lemma_tagged("[КОМНАТА] Вы в комнате:"@, rest);
}

proof fn lemma_rooms_tag(rest: Seq<char>)
    ensures
        server_text("[КОМНАТЫ]"@ + rest) == ServerModel::Report(EvModel::Rooms(text::trimmed(rest))),
{
    reveal_strlit("[КОМНАТЫ]");
    lemma_tags("[КОМНАТЫ]"@ + rest);
    lemma_tagged("[КОМНАТЫ]"@, rest);
}

proof fn lemma_error_tag(rest: Seq<char>)
    ensures
        server_text("[ОШИБКА]"@ + rest) == ServerModel::Report(EvModel::Error("[ОШИБКА]"@ + rest)),
{
    reveal_strlit("[ОШИБКА]");
    lemma_tags("[ОШИБКА]"@ + rest);
    lemma_tagged("[ОШИБКА]"@, rest);
}

/// A profile that the server gives is read field by field: the nick and the
/// bio are those of the user, who is online exactly where the server says
/// "online". The bio may hold bars.
pub proof fn law_profile_read(u: Seq<char>, n: Seq<char>, s: Seq<char>, b: Seq<char>)
    requires
        !u.contains('|'),
        !n.contains('|'),
        !s.contains('|'),
    ensures
        server_text("[ПРОФИЛЬ]"@ + (u + seq!['|'] + (n + seq!['|'] + (s + seq!['|'] + b))))
            == ServerModel::Report(
            EvModel::Profile { user: u, nick: n, online: s == "online"@, bio: b },
        ),
        s == "offline"@ ==> s != "online"@,
{
    let rest = u + seq!['|'] + (n + seq!['|'] + (s + seq!['|'] + b));
    lemma_profile_tag(rest);
    lemma_four_fields(u, n, s, b);
    reveal_strlit("online");
    reveal_strlit("offline");
}

proof fn lemma_four_fields(a: Seq<char>, b: Seq<char>, c: Seq<char>, d: Seq<char>)
    requires
        !a.contains('|'),
        !b.contains('|'),
        !c.contains('|'),
    ensures
        text::split_at_most(a + seq!['|'] + (b + seq!['|'] + (c + seq!['|'] + d)), '|', 4) == seq![
            a,
            b,
            c,
            d,
        ],
{
    text::lemma_split_at_most_first(a, '|', b + seq!['|'] + (c + seq!['|'] + d), 4);
    text::lemma_split_at_most_first(b, '|', c + seq!['|'] + d, 3);
    text::lemma_split_at_most_first(c, '|', d, 2);
    assert(text::split_at_most(d, '|', 1) =~= seq![d]);
    assert(seq![a] + (seq![b] + (seq![c] + seq![d])) =~= seq![a, b, c, d]);
}

/// The own profile, once it is saved, is read field by field: the nick, the
/// bio, and that it is hidden exactly where the server says "1".
pub proof fn law_saved_profile_read(u: Seq<char>, n: Seq<char>, b: Seq<char>, h: Seq<char>)
    requires
        !u.contains('|'),
        !n.contains('|'),
        !b.contains('|'),
    ensures
        server_text("[ПРОФИЛЬOK]"@ + (u + seq!['|'] + (n + seq!['|'] + (b + seq!['|'] + h))))
            == ServerModel::Report(EvModel::ProfileSaved { nick: n, bio: b, hide: h == seq!['1'] }),
{
    let rest = u + seq!['|'] + (n + seq!['|'] + (b + seq!['|'] + h));
    lemma_saved_tag(rest);
    lemma_four_fields(u, n, b, h);
    reveal_strlit("1");
    assert("1"@ =~= seq!['1']);
}

/// A profile with too few fields is passed over.
pub proof fn law_short_profile_ignored(a: Seq<char>, b: Seq<char>, c: Seq<char>)
    requires
        !a.contains('|'),
        !b.contains('|'),
        !c.contains('|'),
    ensures
        server_text("[ПРОФИЛЬ]"@ + (a + seq!['|'] + (b + seq!['|'] + c))) == ServerModel::Nothing,
        server_text("[ПРОФИЛЬOK]"@ + (a + seq!['|'] + (b + seq!['|'] + c)))
            == ServerModel::Nothing,
        server_text("[ПРИСУТСТВИЕ]"@ + a) == ServerModel::Nothing,
{
    let rest = a + seq!['|'] + (b + seq!['|'] + c);
    text::lemma_split_at_most_first(a, '|', b + seq!['|'] + c, 4);
    text::lemma_split_at_most_first(b, '|', c, 3);
    text::lemma_index_of_is(c, '|', c.len() as int);
    text::lemma_split_none(a, '|');
    lemma_profile_tag(rest);
    lemma_saved_tag(rest);
    lemma_presence_tag(a);
}

/// What the server says of a user who comes or goes is read field by field:
/// the user is online exactly where it says "online"; a nick may follow, and
/// what follows that does not count.
pub proof fn law_presence_read(u: Seq<char>, s: Seq<char>, n: Seq<char>, more: Seq<char>)
    requires
        !u.contains('|'),
        !s.contains('|'),
        !n.contains('|'),
    ensures
        server_text("[ПРИСУТСТВИЕ]"@ + (u + seq!['|'] + s)) == ServerModel::Report(
            EvModel::Presence { user: u, online: s == "online"@, nick: Seq::empty() },
        ),
        server_text("[ПРИСУТСТВИЕ]"@ + (u + seq!['|'] + (s + seq!['|'] + n)))
            == ServerModel::Report(EvModel::Presence { user: u, online: s == "online"@, nick: n }),
        server_text("[ПРИСУТСТВИЕ]"@ + (u + seq!['|'] + (s + seq!['|'] + (n + seq!['|'] + more))))
            == ServerModel::Report(EvModel::Presence { user: u, online: s == "online"@, nick: n }),
        s == "offline"@ ==> s != "online"@,
{
    let r0 = u + seq!['|'] + s;
    let r1 = u + seq!['|'] + (s + seq!['|'] + n);
    let r2 = u + seq!['|'] + (s + seq!['|'] + (n + seq!['|'] + more));
    reveal_strlit("online");
    reveal_strlit("offline");
    lemma_presence_tag(r0);
    lemma_presence_tag(r1);
    lemma_presence_tag(r2);
    text::lemma_split_first(u, '|', s);
    text::lemma_split_none(s, '|');
    text::lemma_split_first(u, '|', s + seq!['|'] + n);
    text::lemma_split_first(s, '|', n);
    text::lemma_split_none(n, '|');
    text::lemma_split_first(u, '|', s + seq!['|'] + (n + seq!['|'] + more));
    text::lemma_split_first(s, '|', n + seq!['|'] + more);
    text::lemma_split_first(n, '|', more);
    assert(presence_in(r0) == ServerModel::Report(
        EvModel::Presence { user: u, online: s == "online"@, nick: Seq::empty() },
    ));
    assert(presence_in(r1) == ServerModel::Report(
        EvModel::Presence { user: u, online: s == "online"@, nick: n },
    ));
    assert(presence_in(r2) == ServerModel::Report(
        EvModel::Presence { user: u, online: s == "online"@, nick: n },
    ));
}

/// A user as the server lists it: @username, nick, and what it says of whether
/// the user is online.
pub struct ListedUser {
    pub at: Seq<char>,
    pub nick: Seq<char>,
    pub state: Seq<char>,
}

/// Whether a text can stand in a list of users.
pub open spec fn list_text(s: Seq<char>) -> bool {
    !s.contains('|') && !s.contains(';')
}

/// The item of a user in a list.
pub open spec fn listed_item(u: ListedUser) -> Seq<char> {
    u.at + seq!['|'] + (u.nick + seq!['|'] + u.state)
}

proof fn lemma_item(u: ListedUser)
    requires
        list_text(u.at) && list_text(u.nick) && list_text(u.state),
    ensures
        text::split_on(listed_item(u), '|') == seq![u.at, u.nick, u.state],
        !listed_item(u).contains(';'),
{
    text::lemma_split_first(u.at, '|', u.nick + seq!['|'] + u.state);
    text::lemma_split_first(u.nick, '|', u.state);
    text::lemma_split_none(u.state, '|');
    assert(seq![u.at] + (seq![u.nick] + seq![u.state]) =~= seq![u.at, u.nick, u.state]);
    let s = listed_item(u);
    if s.contains(';') {
        let i = choose|i: int| 0 <= i < s.len() && s[i] == ';';
        let a = u.at.len() as int;
        let b = u.nick.len() as int;
        if i < a {
            assert(u.at[i] == ';');
        } else if i > a && i < a + 1 + b {
            assert(u.nick[i - a - 1] == ';');
        } else if i > a + 1 + b {
            assert(u.state[i - a - b - 2] == ';');
        }
    }
}

proof fn lemma_users_in(us: Seq<ListedUser>)
    requires
        forall|i: int|
            0 <= i < us.len() ==> list_text((#[trigger] us[i]).at) && list_text(us[i].nick)
                && list_text(us[i].state),
    ensures
        users_in(us.map_values(|u: ListedUser| listed_item(u))) == us.map_values(
            |u: ListedUser| (u.nick, u.at, u.state == seq!['1']),
        ),
    decreases us.len(),
{
    let items = us.map_values(|u: ListedUser| listed_item(u));
    let want = us.map_values(|u: ListedUser| (u.nick, u.at, u.state == seq!['1']));
    if us.len() == 0 {
        assert(users_in(items) =~= want);
    } else {
        let d = us.drop_last();
        lemma_users_in(d);
        lemma_item(us.last());
        reveal_strlit("1");
        assert("1"@ =~= seq!['1']);
        assert(items.drop_last() =~= d.map_values(|u: ListedUser| listed_item(u)));
        assert(want =~= d.map_values(
            |u: ListedUser| (u.nick, u.at, u.state == seq!['1']),
        ).push(want.last()));
        assert(items.last() == listed_item(us.last()));
        assert(users_in(items) =~= want);
    }
}

/// A list of users is read as it was written: every user, in order, with the
/// nick and the @username that it gives, online exactly where it says "1".
pub proof fn law_user_list_read(us: Seq<ListedUser>)
    requires
        us.len() > 0,
        forall|i: int|
            0 <= i < us.len() ==> list_text((#[trigger] us[i]).at) && list_text(us[i].nick)
                && list_text(us[i].state),
    ensures
        server_text(
            "[ПОЛЬЗОВАТЕЛИ2]"@ + text::joined(
                us.map_values(|u: ListedUser| listed_item(u)),
                seq![';'],
            ),
        ) == ServerModel::Report(
            EvModel::UserList(
                us.map_values(|u: ListedUser| (u.nick, u.at, u.state == seq!['1'])),
            ),
        ),
{
    let items = us.map_values(|u: ListedUser| listed_item(u));
    let rest = text::joined(items, seq![';']);
    assert forall|i: int| 0 <= i < items.len() implies !(#[trigger] items[i]).contains(';') by {
        lemma_item(us[i]);
    }
    text::law_split_joined(items, ';');
    lemma_users_in(us);
    lemma_users_tag(rest);
}

/// The tag in front of a text of the server decides what is done about it: an
/// answer goes to who asked, without white space around it; keys and the login
/// are told apart from what is reported; what is reported is what follows the
/// tag, without white space around it; an error is reported whole.
pub proof fn law_tags_decide(s: Seq<char>)
    ensures
        server_text("[RESP]"@ + s) == ServerModel::Answer(text::trimmed(s)),
        server_text("[ПУБКЛЮЧИ]"@ + s) == ServerModel::Keys,
        server_text("[НОВЫЙ]"@ + s) == ServerModel::Keys,
        server_text("[AUTH]OK"@ + s) == ServerModel::Authed,
        server_text("[ЮЗЕРOK]"@ + s) == ServerModel::Report(
            EvModel::UsernameChanged(text::trimmed(s)),
        ),
        server_text("[ПАРОЛЬOK]"@ + s) == ServerModel::Report(EvModel::PasswordChanged),
        server_text("[ПЕЧАТАЕТ]"@ + s) == ServerModel::Report(
            EvModel::Typing { from: text::trimmed(s) },
        ),
        server_text("[КОМНАТА] Вы в комнате:"@ + s) == ServerModel::Report(
            EvModel::RoomChanged(text::trimmed(s)),
        ),
        server_text("[КОМНАТЫ]"@ + s) == ServerModel::Report(EvModel::Rooms(text::trimmed(s))),
        server_text("[ОШИБКА]"@ + s) == ServerModel::Report(EvModel::Error("[ОШИБКА]"@ + s)),
{
    lemma_answer_tag(s);
    lemma_keys_tag(s);
    lemma_new_key_tag(s);
    lemma_authed_tag(s);
    lemma_username_tag(s);
    lemma_password_tag(s);
    lemma_typing_tag(s);
    lemma_room_tag(s);
    lemma_rooms_tag(s);
    lemma_error_tag(s);
}

/// What the server says without a tag is shown to the user as it stands.
pub proof fn law_plain_line_shown(t: Seq<char>)
    requires
        t.len() == 0 || t[0] != '[',
    ensures
        server_text(t) == ServerModel::Report(EvModel::Line(t)),
{
    lemma_tags(t);
}

/// The server finds the name and the key in the payload that makes a key known.
pub proof fn law_registered_name_and_key(username: Seq<char>, pub_b64: Seq<char>)
    requires
        !username.contains('\0'),
        !pub_b64.contains('\0'),
    ensures
        text::split_on(register_payload_of(username, pub_b64), '\0') == seq![username, pub_b64],
{
    text::lemma_split_first(username, '\0', pub_b64);
    text::lemma_split_none(pub_b64, '\0');
    assert(seq![username] + seq![pub_b64] =~= seq![username, pub_b64]);
}

proof fn lemma_word_and_space(cmd: Seq<char>, w: Seq<char>)
    requires
        w.len() > 0,
        cmd == w + seq![' '],
        forall|i: int| 0 <= i < w.len() ==> 'a' <= #[trigger] w[i] <= 'z' || w[i] == '/',
    ensures
        text::one_word(w),
        forall|a: Seq<char>, b: Seq<char>|
            text::one_word(a) && text::one_word(b) ==> #[trigger] text::words(
                cmd + a + seq![' '] + b,
            ) == seq![w, a, b],
        forall|a: Seq<char>|
            text::one_word(a) ==> #[trigger] text::words(cmd + a) == seq![w, a],
{
    assert forall|a: Seq<char>, b: Seq<char>|
        text::one_word(a) && text::one_word(b) implies #[trigger] text::words(
        cmd + a + seq![' '] + b,
    ) == seq![w, a, b] by {
        text::lemma_few_words(w, a, b);
    }
    assert forall|a: Seq<char>| text::one_word(a) implies #[trigger] text::words(cmd + a) == seq![
        w,
        a,
    ] by {
        text::lemma_few_words(w, a, a);
    }
}

proof fn lemma_command_words()
    ensures
        " "@ == seq![' '],
        forall|a: Seq<char>, b: Seq<char>|
            text::one_word(a) && text::one_word(b) ==> #[trigger] text::words(
                "/register "@ + a + seq![' '] + b,
            ) == seq!["/register"@, a, b],
        forall|a: Seq<char>|
            text::one_word(a) ==> #[trigger] text::words("/register "@ + a) == seq!["/register"@, a],
        forall|a: Seq<char>, b: Seq<char>|
            text::one_word(a) && text::one_word(b) ==> #[trigger] text::words(
                "/login "@ + a + seq![' '] + b,
            ) == seq!["/login"@, a, b],
        forall|a: Seq<char>|
            text::one_word(a) ==> #[trigger] text::words("/login "@ + a) == seq!["/login"@, a],
        forall|a: Seq<char>, b: Seq<char>|
            text::one_word(a) && text::one_word(b) ==> #[trigger] text::words(
                "/setusername "@ + a + seq![' '] + b,
            ) == seq!["/setusername"@, a, b],
        forall|a: Seq<char>|
            text::one_word(a) ==> #[trigger] text::words("/setusername "@ + a) == seq!["/setusername"@, a],
        forall|a: Seq<char>, b: Seq<char>|
            text::one_word(a) && text::one_word(b) ==> #[trigger] text::words(
                "/setpassword "@ + a + seq![' '] + b,
            ) == seq!["/setpassword"@, a, b],
        forall|a: Seq<char>|
            text::one_word(a) ==> #[trigger] text::words("/setpassword "@ + a) == seq!["/setpassword"@, a],
        forall|a: Seq<char>, b: Seq<char>|
            text::one_word(a) && text::one_word(b) ==> #[trigger] text::words(
                "/whois "@ + a + seq![' '] + b,
            ) == seq!["/whois"@, a, b],
        forall|a: Seq<char>|
            text::one_word(a) ==> #[trigger] text::words("/whois "@ + a) == seq!["/whois"@, a],
        forall|a: Seq<char>, b: Seq<char>|
            text::one_word(a) && text::one_word(b) ==> #[trigger] text::words(
                "/typing "@ + a + seq![' '] + b,
            ) == seq!["/typing"@, a, b],
        forall|a: Seq<char>|
            text::one_word(a) ==> #[trigger] text::words("/typing "@ + a) == seq!["/typing"@, a],
        forall|a: Seq<char>, b: Seq<char>|
            text::one_word(a) && text::one_word(b) ==> #[trigger] text::words(
                "/join "@ + a + seq![' '] + b,
            ) == seq!["/join"@, a, b],
        forall|a: Seq<char>|
            text::one_word(a) ==> #[trigger] text::words("/join "@ + a) == seq!["/join"@, a],
        forall|a: Seq<char>, b: Seq<char>|
            text::one_word(a) && text::one_word(b) ==> #[trigger] text::words(
                "/createroom "@ + a + seq![' '] + b,
            ) == seq!["/createroom"@, a, b],
        forall|a: Seq<char>|
            text::one_word(a) ==> #[trigger] text::words("/createroom "@ + a) == seq!["/createroom"@, a],
{
    reveal_strlit(" ");
    assert(" "@ =~= seq![' ']);
    reveal_strlit("/register ");
    reveal_strlit("/register");
    assert("/register "@ =~= "/register"@ + seq![' ']);
    lemma_word_and_space("/register "@, "/register"@);
    reveal_strlit("/login ");
    reveal_strlit("/login");
    assert("/login "@ =~= "/login"@ + seq![' ']);
    lemma_word_and_space("/login "@, "/login"@);
    reveal_strlit("/setusername ");
    reveal_strlit("/setusername");
    assert("/setusername "@ =~= "/setusername"@ + seq![' ']);
    lemma_word_and_space("/setusername "@, "/setusername"@);
    reveal_strlit("/setpassword ");
    reveal_strlit("/setpassword");
    assert("/setpassword "@ =~= "/setpassword"@ + seq![' ']);
    lemma_word_and_space("/setpassword "@, "/setpassword"@);
    reveal_strlit("/whois ");
    reveal_strlit("/whois");
    assert("/whois "@ =~= "/whois"@ + seq![' ']);
    lemma_word_and_space("/whois "@, "/whois"@);
    reveal_strlit("/typing ");
    reveal_strlit("/typing");
    assert("/typing "@ =~= "/typing"@ + seq![' ']);
    lemma_word_and_space("/typing "@, "/typing"@);
    reveal_strlit("/join ");
    reveal_strlit("/join");
    assert("/join "@ =~= "/join"@ + seq![' ']);
    lemma_word_and_space("/join "@, "/join"@);
    reveal_strlit("/createroom ");
    reveal_strlit("/createroom");
    assert("/createroom "@ =~= "/createroom"@ + seq![' ']);
    lemma_word_and_space("/createroom "@, "/createroom"@);
}

/// The server finds in a command, word by word, what the user asked for: the
/// password twice to make an account, the own name and the password to log in,
/// the old password before the new one, a room with its password or without.
pub proof fn law_commands_understood(username: Seq<char>, a: Seq<char>, b: Seq<char>)
    requires
        text::one_word(username),
        text::one_word(a),
        text::one_word(b),
    ensures
        words_of(UiCmdModel::Register { pass: a }, username) == Some(seq!["/register"@, a, a]),
        words_of(UiCmdModel::Login { pass: a }, username) == Some(seq!["/login"@, username, a]),
        words_of(UiCmdModel::SetUsername(a), username) == Some(seq!["/setusername"@, a]),
        words_of(UiCmdModel::SetPassword { old: a, new: b }, username) == Some(
            seq!["/setpassword"@, a, b],
        ),
        words_of(UiCmdModel::Whois(a), username) == Some(seq!["/whois"@, a]),
        words_of(UiCmdModel::Typing(a), username) == Some(seq!["/typing"@, a]),
        words_of(UiCmdModel::Join { room: a, pass: b }, username) == Some(seq!["/join"@, a, b]),
        words_of(UiCmdModel::Join { room: a, pass: Seq::empty() }, username) == Some(
            seq!["/join"@, a],
        ),
        words_of(UiCmdModel::CreateRoom { room: a, pass: b }, username) == Some(
            seq!["/createroom"@, a, b],
        ),
        words_of(UiCmdModel::CreateRoom { room: a, pass: Seq::empty() }, username) == Some(
            seq!["/createroom"@, a],
        ),
{
    lemma_command_words();
}

/// The words that tell the server what the user asks for.
pub open spec fn words_of(cmd: UiCmdModel, username: Seq<char>) -> Option<Seq<Seq<char>>> {
    match command_text(cmd, username) {
        Some(t) => Some(text::words(t)),
        None => None,
    }
}

/// What the user typed as a command goes to the server as it stands; only to
/// leave is not told to it. Users and rooms are asked for by one word.
pub proof fn law_typed_commands_pass(s: Seq<char>, username: Seq<char>)
    ensures
        s != "/exit"@ ==> command_text(UiCmdModel::Raw(s), username) == Some(s),
        s == "/exit"@ ==> command_text(UiCmdModel::Raw(s), username) is None,
        words_of(UiCmdModel::RefreshUsers, username) == Some(seq!["/users"@]),
        words_of(UiCmdModel::RefreshRooms, username) == Some(seq!["/rooms"@]),
        words_of(UiCmdModel::Leave, username) == Some(seq!["/leave"@]),
{
    reveal_strlit("/users");
    reveal_strlit("/rooms");
    reveal_strlit("/leave");
    text::lemma_few_words("/users"@, "/users"@, "/users"@);
    text::lemma_few_words("/rooms"@, "/rooms"@, "/rooms"@);
    text::lemma_few_words("/leave"@, "/leave"@, "/leave"@);
}

/// The server finds the nick, the bio and whether to hide in the command that
/// saves the own profile.
pub proof fn law_profile_command_understood(
    nick: Seq<char>,
    bio: Seq<char>,
    hide: bool,
    username: Seq<char>,
)
    requires
        text::one_word(nick),
        text::one_word(bio),
    ensures
        words_of(UiCmdModel::ProfileSet { nick, bio, hide }, username) == Some(
            seq![
                "/profile"@,
                "set"@,
                "nick="@ + nick,
                "bio="@ + bio,
                "hide="@ + (if hide {
                    seq!['1']
                } else {
                    seq!['0']
                }),
            ],
        ),
{
    reveal_strlit("/profile");
    reveal_strlit("set");
    reveal_strlit("nick=");
    reveal_strlit("bio=");
    reveal_strlit("hide=");
    reveal_strlit("/profile set nick=");
    reveal_strlit(" bio=");
    reveal_strlit(" hide=");
    reveal_strlit("1");
    reveal_strlit("0");
    let flag = if hide {
        seq!['1']
    } else {
        seq!['0']
    };
    let sp = seq![' '];
    let n = "nick="@ + nick;
    let b = "bio="@ + bio;
    let h = "hide="@ + flag;
    lemma_prefixed_word("nick="@, nick);
    lemma_prefixed_word("bio="@, bio);
    lemma_prefixed_word("hide="@, flag);
    let ws = seq!["/profile"@, "set"@, n, b, h];
    assert forall|i: int| 0 <= i < ws.len() implies text::one_word(#[trigger] ws[i]) by {}
    text::law_words_joined(ws);
    text::lemma_joined_few("/profile"@, "set"@, n, sp);
    assert(ws.drop_last() =~= seq!["/profile"@, "set"@, n, b]);
    assert(ws.drop_last().drop_last() =~= seq!["/profile"@, "set"@, n]);
    let t = command_text(UiCmdModel::ProfileSet { nick, bio, hide }, username)->0;
    assert(text::joined(ws.drop_last(), sp) == text::joined(ws.drop_last().drop_last(), sp) + sp
        + b);
    assert(text::joined(ws, sp) == text::joined(ws.drop_last(), sp) + sp + h);
    assert(t =~= text::joined(ws, sp));
}

proof fn lemma_prefixed_word(p: Seq<char>, w: Seq<char>)
    requires
        text::one_word(p),
        text::one_word(w),
    ensures
        text::one_word(p + w),
{
    assert forall|i: int| 0 <= i < (p + w).len() implies !text::is_white(#[trigger] (p + w)[i]) by {
        if i < p.len() {
            assert((p + w)[i] == p[i]);
        } else {
            assert((p + w)[i] == w[i - p.len()]);
        }
    }
}

/// What the server sends is opened under the key shared with it, without
/// associated data, and read without white space around it.
pub proof fn law_command_opened(
    key: Seq<u8>,
    payload: Seq<u8>,
    data: Seq<u8>,
    message: Seq<char>,
)
    requires
        primitives::unbase64(text::lossy(payload)) == Some(data),
        data.len() >= 28,
    ensures
        ({
            let plain = primitives::gcm_opened(
                key,
                data.take(12),
                data.skip(12),
                Seq::<u8>::empty(),
            );
            &&& plain == Some(encode_utf8(message)) ==> command_in(key, payload) == Some(
                text::trimmed(message),
            )
            &&& plain is None ==> command_in(key, payload) is None
        }),
{
    broadcast use {vstd::utf8::encode_utf8_valid_utf8, vstd::utf8::encode_utf8_decode_utf8};

}

/// In a list of users, fields after the third do not count, and an item with
/// fewer is passed over; each other item gives one user, in order.
pub proof fn law_user_items(items: Seq<Seq<char>>, u: ListedUser, more: Seq<char>, short: Seq<char>)
    requires
        list_text(u.at) && list_text(u.nick) && list_text(u.state),
        !short.contains('|'),
    ensures
        users_in(items.push(listed_item(u))) == users_in(items).push(
            (u.nick, u.at, u.state == seq!['1']),
        ),
        users_in(items.push(listed_item(u) + seq!['|'] + more)) == users_in(items).push(
            (u.nick, u.at, u.state == seq!['1']),
        ),
        users_in(items.push(short)) == users_in(items),
        users_in(items.push(u.at + seq!['|'] + u.nick)) == users_in(items),
{
    reveal_strlit("1");
    assert("1"@ =~= seq!['1']);
    lemma_item(u);
    let a = items.push(listed_item(u));
    assert(a.drop_last() =~= items && a.last() == listed_item(u));
    let long = listed_item(u) + seq!['|'] + more;
    let s3 = u.state + seq!['|'] + more;
    let s2 = u.nick + seq!['|'] + s3;
    assert(long =~= u.at + seq!['|'] + s2);
    text::lemma_split_first(u.at, '|', s2);
    text::lemma_split_first(u.nick, '|', s3);
    text::lemma_split_first(u.state, '|', more);
    let b = items.push(long);
    assert(b.drop_last() =~= items && b.last() == long);
    let p = text::split_on(long, '|');
    assert(p[0] == u.at && p[1] == u.nick && p[2] == u.state && p.len() >= 3);
    text::lemma_split_none(short, '|');
    let c = items.push(short);
    assert(c.drop_last() =~= items && c.last() == short);
    let two = u.at + seq!['|'] + u.nick;
    text::lemma_split_first(u.at, '|', u.nick);
    text::lemma_split_none(u.nick, '|');
    let d = items.push(two);
    assert(d.drop_last() =~= items && d.last() == two);
}

} // verus!
