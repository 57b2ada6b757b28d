//! One connection to the server: what is done on each frame that comes and on
//! each command of the user, and what is asked for in between.

use crate::crypto;
use crate::events;
use crate::events::{emit, Ev, EvModel, UiCmd, UiCmdModel};
use crate::inbox;
use crate::inbox::{FileIn, FileModel, MessageIn, MessageModel, Outgoing};
use crate::peers;
use crate::peers::PeersModel;
use crate::primitives;
use crate::proto;
use crate::server;
use crate::server::{ServerModel, ServerText};
use crate::store;
use crate::table;
use crate::table::Table;
use crate::text;
use vstd::prelude::*;
use vstd::utf8::encode_utf8;

verus! {

/// The version of the protocol.
pub const PROTOCOL_VERSION: &'static str = "2";

/// A connection: who we are, the keys of peers that are known, and the events
/// that the user's side has not been told yet.
pub struct Session {
    pub username: String,
    pub pub_b64: String,
    pub secret: [u8; 32],
    pub shared_key: [u8; 32],
    pub known: Table,
    pub evs: Vec<Ev>,
}

/// What is left to do after a frame.
pub enum FrameAction {
    Nothing,
    /// The answer to what was asked last.
    Answer(String),
    /// The login is done; the public key is to be made known again, by this
    /// payload. Then see `Session::on_registered`.
    Register(String),
    /// A file is to be saved; then see `file_saved`.
    SaveFile { sender: String, fname: String, base: String, raw: Vec<u8> },
}

/// The contents of a `FrameAction`.
pub enum FrameActionModel {
    Nothing,
    Answer(Seq<char>),
    Register(Seq<char>),
    SaveFile { sender: Seq<char>, fname: Seq<char>, base: Seq<char>, raw: Seq<u8> },
}

impl View for FrameAction {
    type V = FrameActionModel;

    open spec fn view(&self) -> FrameActionModel {
        match *self {
            FrameAction::Nothing => FrameActionModel::Nothing,
            FrameAction::Answer(s) => FrameActionModel::Answer(s@),
            FrameAction::Register(s) => FrameActionModel::Register(s@),
            FrameAction::SaveFile { sender, fname, base, raw } => FrameActionModel::SaveFile {
                sender: sender@,
                fname: fname@,
                base: base@,
                raw: raw@,
            },
        }
    }
}

/// What is left to do after a command, or after a step of one.
pub enum NetAction {
    /// Nothing; the command is done.
    Done,
    /// The connection is to be closed.
    Exit,
    /// This text is to be sent as a command.
    Command(String),
    /// The fingerprints are to be saved.
    SaveTofu,
    /// The key of the target is to be asked for; then see `on_key`.
    AskKey { target: String, text: String },
    /// This payload is to be sent as a message; then see `on_sent`.
    SendPrivate { target: String, text: String, payload: String },
    /// The members of the room are to be asked for; then see `on_room`.
    AskRoom { text: String },
    /// The file is to be read; then see `on_file`.
    ReadFile { path: String },
    /// The members of the room are to be asked for; then see `on_file_room`.
    AskRoomForFile { fname: String, b64: String },
}

/// The texts of a `NetAction`.
pub enum NetActionModel {
    Done,
    Exit,
    Command(Seq<char>),
    SaveTofu,
    AskKey { target: Seq<char>, text: Seq<char> },
    SendPrivate { target: Seq<char>, text: Seq<char>, payload: Seq<char> },
    AskRoom { text: Seq<char> },
    ReadFile { path: Seq<char> },
    AskRoomForFile { fname: Seq<char>, b64: Seq<char> },
}

impl View for NetAction {
    type V = NetActionModel;

    open spec fn view(&self) -> NetActionModel {
        match *self {
            NetAction::Done => NetActionModel::Done,
            NetAction::Exit => NetActionModel::Exit,
            NetAction::Command(s) => NetActionModel::Command(s@),
            NetAction::SaveTofu => NetActionModel::SaveTofu,
            NetAction::AskKey { target, text } => NetActionModel::AskKey {
                target: target@,
                text: text@,
            },
            NetAction::SendPrivate { target, text, payload } => NetActionModel::SendPrivate {
                target: target@,
                text: text@,
                payload: payload@,
            },
            NetAction::AskRoom { text } => NetActionModel::AskRoom { text: text@ },
            NetAction::ReadFile { path } => NetActionModel::ReadFile { path: path@ },
            NetAction::AskRoomForFile { fname, b64 } => NetActionModel::AskRoomForFile {
                fname: fname@,
                b64: b64@,
            },
        }
    }
}

/// What a step leaves: the keys known, the fingerprints trusted, the events
/// reported, and what is to be done next.
pub struct Step<A> {
    pub peers: PeersModel,
    pub action: A,
}

/// One more event.
pub open spec fn reported(p: PeersModel, e: EvModel) -> PeersModel {
    PeersModel { evs: p.evs.push(e), ..p }
}

/// One more event, where there is one.
pub open spec fn told(evs: Seq<EvModel>, e: Option<EvModel>) -> Seq<EvModel> {
    match e {
        Some(e) => evs.push(e),
        None => evs,
    }
}

/// What the user is told of a message frame.
pub open spec fn message_event(m: MessageModel) -> Option<EvModel> {
    match m {
        MessageModel::Malformed => None,
        MessageModel::UnknownKey { sender } => Some(
            EvModel::Line("["@ + sender + "]: (неизвестный публичный ключ)"@),
        ),
        MessageModel::Unreadable { sender } => Some(
            EvModel::Error("["@ + sender + "]: не удалось расшифровать (подмена/ключ)"@),
        ),
        MessageModel::Plain { sender, text } => Some(EvModel::Msg { from: sender, text }),
    }
}

/// What the user is told of a file that could not be received.
pub open spec fn file_failure(sender: Seq<char>, fname: Seq<char>) -> EvModel {
    EvModel::Error("["@ + sender + "] файл "@ + fname + " получить не удалось"@)
}

/// What the user is told of a file frame.
pub open spec fn file_event(f: FileModel) -> Option<EvModel> {
    match f {
        FileModel::Malformed => None,
        FileModel::UnknownKey { sender, fname } => Some(
            EvModel::Line("["@ + sender + "] отправил файл "@ + fname + ", но ключ неизвестен"@),
        ),
        FileModel::Unreadable { sender, fname } => Some(file_failure(sender, fname)),
        FileModel::BadName { sender, fname } => Some(file_failure(sender, fname)),
        FileModel::Save { .. } => None,
    }
}

/// What is left to do after a file frame.
pub open spec fn file_action(f: FileModel) -> FrameActionModel {
    match f {
        FileModel::Save { sender, fname, base, raw } => FrameActionModel::SaveFile {
            sender,
            fname,
            base,
            raw,
        },
        _ => FrameActionModel::Nothing,
    }
}

/// What is done about a text of the server.
pub open spec fn text_step(
    p: PeersModel,
    t: Seq<char>,
    username: Seq<char>,
    pub_b64: Seq<char>,
) -> Step<FrameActionModel> {
    match server::server_text(t) {
        ServerModel::Answer(a) => Step { peers: p, action: FrameActionModel::Answer(a) },
        ServerModel::Keys => Step {
            peers: peers::learn_all(p, peers::key_items(t)),
            action: FrameActionModel::Nothing,
        },
        ServerModel::Authed => Step {
            peers: p,
            action: FrameActionModel::Register(server::register_payload_of(username, pub_b64)),
        },
        ServerModel::Report(e) => Step {
            peers: reported(p, e),
            action: FrameActionModel::Nothing,
        },
        ServerModel::Nothing => Step { peers: p, action: FrameActionModel::Nothing },
    }
}

/// What is done about a frame, where the name that a file came with is saved
/// under `base`.
pub open spec fn frame_step(
    p: PeersModel,
    s: Session,
    ftype: u8,
    payload: Seq<u8>,
    base: Seq<char>,
) -> Step<FrameActionModel> {
    if ftype == proto::TYPE_COMMAND {
        match server::command_in(s.shared_key@, payload) {
            Some(t) => text_step(p, t, s.username@, s.pub_b64@),
            None => Step { peers: p, action: FrameActionModel::Nothing },
        }
    } else if ftype == proto::TYPE_MESSAGE {
        let m = inbox::message_in(p.known, s.secret@, payload);
        Step {
            peers: PeersModel { evs: told(p.evs, message_event(m)), ..p },
            action: FrameActionModel::Nothing,
        }
    } else if ftype == proto::TYPE_FILE {
        let f = inbox::file_in(p.known, s.secret@, payload, base);
        Step {
            peers: PeersModel { evs: told(p.evs, file_event(f)), ..p },
            action: file_action(f),
        }
    } else {
        Step { peers: p, action: FrameActionModel::Nothing }
    }
}

/// Whether two sessions are of the same client.
pub open spec fn same_client(a: Session, b: Session) -> bool {
    a.username == b.username && a.pub_b64 == b.pub_b64 && a.secret == b.secret && a.shared_key
        == b.shared_key
}

/// What a session and the trusted fingerprints hold, but for who the client is,
/// which no step changes: see `same_client`.
pub open spec fn peers_of(s: Session, tofu: Table) -> PeersModel {
    peers::peers(s.known, tofu, s.evs@)
}

/// What a session and the trusted fingerprints hold, and what is to be done.
pub open spec fn left<A>(s: Session, tofu: Table, action: A) -> Step<A> {
    Step { peers: peers_of(s, tofu), action }
}

/// Whether a file that came in a frame may be saved under a name.
pub open spec fn name_fits(ftype: u8, payload: Seq<u8>, base: Seq<char>) -> bool {
    ftype == proto::TYPE_FILE && inbox::fields(payload).len() >= 4 ==> inbox::saved_as(
        text::lossy(inbox::fields(payload)[2]),
        base,
    )
}

/// What the user is told when the outcome of a private message is known.
pub open spec fn sent_event(target: Seq<char>, text: Seq<char>, sent: bool) -> EvModel {
    if sent {
        EvModel::Line("[Я → "@ + target + "]: "@ + text)
    } else {
        EvModel::Error("Не удалось отправить сообщение для "@ + target + " (нет ключа?)"@)
    }
}

/// Who sends over a connection.
pub open spec fn author(s: Session) -> inbox::Author {
    inbox::Author { name: s.username@, key: s.pub_b64@, secret: s.secret@ }
}

/// What is done about a private message once the key of its target is known,
/// or cannot be had. `payload` stands for the message sealed to the target.
pub open spec fn private_step(
    p: PeersModel,
    m: PrivateModel,
    pub_b64: Seq<char>,
    payload: Seq<char>,
) -> Step<NetActionModel> {
    if m.key is Some && inbox::can_seal(m.text, m.key->0, pub_b64) {
        Step {
            peers: p,
            action: NetActionModel::SendPrivate { target: m.target, text: m.text, payload },
        }
    } else {
        Step {
            peers: reported(p, sent_event(m.target, m.text, false)),
            action: NetActionModel::Done,
        }
    }
}

/// A private message, with the key of its target where there is one.
pub struct PrivateModel {
    pub target: Seq<char>,
    pub text: Seq<char>,
    pub key: Option<Seq<char>>,
}

/// Whether a payload is that of a private message, where it can be sealed.
pub open spec fn payload_fits(s: Session, m: PrivateModel, payload: Seq<char>) -> bool {
    m.key is Some && inbox::can_seal(m.text, m.key->0, s.pub_b64@) ==> inbox::sealed_message(
        author(s),
        (m.target, m.key->0),
        m.text,
        payload,
    )
}

/// The private message that a command asks for, with the key that is known.
pub open spec fn private_in(p: PeersModel, cmd: UiCmdModel) -> PrivateModel {
    match cmd {
        UiCmdModel::Priv { target, text } => PrivateModel {
            target,
            text,
            key: table::lookup(p.known, target),
        },
        _ => PrivateModel { target: Seq::empty(), text: Seq::empty(), key: None },
    }
}

/// Whether the encrypted form of what a command asks for fits into memory.
pub open spec fn can_hold(cmd: UiCmdModel) -> bool {
    match cmd {
        UiCmdModel::Priv { target, text } => crypto::sealable(encode_utf8(text).len()),
        _ => true,
    }
}

/// What is done first about a command of the user. `payload` stands for a
/// private message that is sealed.
pub open spec fn command_step(
    p: PeersModel,
    s: Session,
    cmd: UiCmdModel,
    payload: Seq<char>,
) -> Step<NetActionModel> {
    match cmd {
        UiCmdModel::Trust(name) => match table::lookup(p.known, name) {
            Some(key) => Step {
                peers: reported(
                    PeersModel {
                        tofu: p.tofu.insert(name, crypto::fingerprint_of(key)),
                        ..p
                    },
                    EvModel::Line(
                        "✅ Новый ключ "@ + name + " подтверждён: "@ + crypto::fingerprint_of(key),
                    ),
                ),
                action: NetActionModel::SaveTofu,
            },
            None => Step {
                peers: reported(p, EvModel::Error("Ключ для "@ + name + " неизвестен"@)),
                action: NetActionModel::Done,
            },
        },
        UiCmdModel::Priv { target, text } => if p.known.contains_key(target) {
            private_step(p, private_in(p, cmd), s.pub_b64@, payload)
        } else {
            Step { peers: p, action: NetActionModel::AskKey { target, text } }
        },
        UiCmdModel::Room(text) => Step { peers: p, action: NetActionModel::AskRoom { text } },
        UiCmdModel::File(path) => Step { peers: p, action: NetActionModel::ReadFile { path } },
        _ => match server::command_text(cmd, s.username@) {
            Some(t) => Step { peers: p, action: NetActionModel::Command(t) },
            None => Step { peers: p, action: NetActionModel::Exit },
        },
    }
}

/// What is known after the server was asked for a peer's key.
pub open spec fn after_key(p: PeersModel, name: Seq<char>, answer: Option<Seq<char>>) -> PeersModel {
    if peers::refused(answer) {
        p
    } else {
        peers::learn(p, name, answer->0)
    }
}

/// The key that the server gave.
pub open spec fn key_given(answer: Option<Seq<char>>) -> Option<Seq<char>> {
    if peers::refused(answer) {
        None
    } else {
        answer
    }
}

/// What is known after the server was asked for the members of the room.
pub open spec fn after_room(p: PeersModel, answer: Option<Seq<char>>) -> PeersModel {
    if peers::refused(answer) {
        p
    } else {
        peers::learn_all(p, text::split_on(answer->0, ';'))
    }
}

/// The members of the room that the server gave, but for ourselves.
pub open spec fn members_given(answer: Option<Seq<char>>, me: Seq<char>) -> Seq<
    (Seq<char>, Seq<char>),
> {
    if peers::refused(answer) {
        Seq::empty()
    } else {
        peers::others(text::split_on(answer->0, ';'), me)
    }
}

/// What is done about a file of the user, with its bytes where it was read.
pub open spec fn file_read_step(p: PeersModel, path: Seq<char>, raw: Option<Seq<u8>>) -> Step<
    NetActionModel,
> {
    match raw {
        None => Step {
            peers: reported(p, EvModel::Error("Файл не найден: "@ + path)),
            action: NetActionModel::Done,
        },
        Some(raw) => if raw.len() > proto::MAX_FILE {
            Step {
                peers: reported(p, EvModel::Error("Файл слишком большой (до 400 КБ)"@)),
                action: NetActionModel::Done,
            }
        } else {
            Step {
                peers: p,
                action: NetActionModel::AskRoomForFile {
                    fname: store::base_name(path),
                    b64: primitives::base64(raw),
                },
            }
        },
    }
}

/// The event that a message frame gives rise to.
fn event_of_message(m: MessageIn) -> (r: Option<Ev>)
    ensures
        r is Some <==> message_event(m@) is Some,
        r matches Some(e) ==> message_event(m@) == Some(e@),
{
    match m {
        MessageIn::Malformed => None,
        MessageIn::UnknownKey { sender } => Some(
            Ev::Line(text::cat3("[", sender.as_str(), "]: (неизвестный публичный ключ)")),
        ),
        MessageIn::Unreadable { sender } => Some(
            Ev::Error(
                text::cat3("[", sender.as_str(), "]: не удалось расшифровать (подмена/ключ)"),
            ),
        ),
        MessageIn::Plain { sender, text } => Some(Ev::Msg { from: sender, text }),
    }
}

/// The event that tells of a file that could not be received.
fn failed_file(sender: &str, fname: &str) -> (r: Ev)
    ensures
        r@ == file_failure(sender@, fname@),
{
    let mut t = text::cat3("[", sender, "] файл ");
    t.append(fname);
    t.append(" получить не удалось");
    Ev::Error(t)
}

/// The event that tells of a file once it was saved, or could not be.
pub fn file_saved(sender: String, fname: String, base: String, saved: bool) -> (r: Ev)
    ensures
        r@ == saved_event(sender@, fname@, base@, saved),
        r@ == (if saved {
            EvModel::FileMsg { from: sender@, name: base@ }
        } else {
            file_failure(sender@, fname@)
        }),
{
    if saved {
        Ev::FileMsg { from: sender, name: base }
    } else {
        failed_file(sender.as_str(), fname.as_str())
    }
}

impl Session {
    /// A connection that is new: no key is known yet. The user is greeted.
    pub fn new(username: String, pub_b64: String, secret: [u8; 32], shared_key: [u8; 32]) -> (r: Session)
        ensures
            r.username@ == username@,
            r.pub_b64@ == pub_b64@,
            r.secret == secret,
            r.shared_key == shared_key,
            r.known@ == Map::<Seq<char>, Seq<char>>::empty(),
            events::ev_views(r.evs@) == seq![
                EvModel::Line("Добро пожаловать, "@ + username@ + "!"@),
            ],
    {
        let mut evs: Vec<Ev> = Vec::new();
        let hello = text::cat3("Добро пожаловать, ", username.as_str(), "!");
        emit(&mut evs, Ev::Line(hello));
        assert(events::ev_views(evs@) =~= seq![
            EvModel::Line("Добро пожаловать, "@ + username@ + "!"@),
        ]);
        Session { username, pub_b64, secret, shared_key, known: Table::new(), evs }
    }

    /// The events that the user's side has not been told yet.
    pub fn take_events(&mut self) -> (r: Vec<Ev>)
        ensures
            r@ == old(self).evs@,
            final(self).evs@.len() == 0,
            final(self).known == old(self).known,
            same_client(*old(self), *final(self)),
    {
        let mut r: Vec<Ev> = Vec::new();
        std::mem::swap(&mut r, &mut self.evs);
        r
    }

    /// Deals with a frame.
    pub fn on_frame(&mut self, tofu: &mut Table, ftype: u8, payload: &[u8]) -> (r: FrameAction)
        ensures
            same_client(*old(self), *final(self)),
            exists|base: Seq<char>|
                left(*final(self), *final(tofu), r@) == #[trigger] frame_step(
                    peers_of(*old(self), *old(tofu)),
                    *old(self),
                    ftype,
                    payload@,
                    base,
                ) && name_fits(ftype, payload@, base),
    {
        let ghost p = peers_of(*self, *tofu);
        let ghost before = *self;
        let ghost none: Seq<char> = Seq::empty();
        if ftype == proto::TYPE_COMMAND {
            let r = match server::open_command(&self.shared_key, payload) {
                Some(t) => self.on_text(tofu, t.as_str()),
                None => FrameAction::Nothing,
            };
            assert(left(*self, *tofu, r@) == frame_step(p, before, ftype, payload@, none));
            r
        } else if ftype == proto::TYPE_MESSAGE {
            let m = inbox::open_message(&self.known, &self.secret, payload);
            if let Some(e) = event_of_message(m) {
                emit(&mut self.evs, e);
            }
            let r = FrameAction::Nothing;
            assert(left(*self, *tofu, r@) == frame_step(p, before, ftype, payload@, none));
            r
        } else if ftype == proto::TYPE_FILE {
            let f = inbox::open_file(&self.known, &self.secret, payload);
            let ghost base = choose|base: Seq<char>|
                f@ == #[trigger] inbox::file_in(p.known, before.secret@, payload@, base)
                    && name_fits(ftype, payload@, base);
            let r = self.on_file_in(f);
            assert(left(*self, *tofu, r@) == frame_step(p, before, ftype, payload@, base));
            r
        } else {
            let r = FrameAction::Nothing;
            assert(left(*self, *tofu, r@) == frame_step(p, before, ftype, payload@, none));
            r
        }
    }

    /// Deals with a text of the server.
    pub fn on_text(&mut self, tofu: &mut Table, t: &str) -> (r: FrameAction)
        ensures
            same_client(*old(self), *final(self)),
            left(*final(self), *final(tofu), r@) == text_step(
                peers_of(*old(self), *old(tofu)),
                t@,
                old(self).username@,
                old(self).pub_b64@,
            ),
    {
        match server::parse_server_text(t) {
            ServerText::Answer(a) => FrameAction::Answer(a),
            ServerText::Keys => {
                peers::insert_keys(&mut self.known, tofu, &mut self.evs, t);
                FrameAction::Nothing
            },
            ServerText::Authed => FrameAction::Register(
                server::register_payload(self.username.as_str(), self.pub_b64.as_str()),
            ),
            ServerText::Report(e) => {
                emit(&mut self.evs, e);
                FrameAction::Nothing
            },
            ServerText::Nothing => FrameAction::Nothing,
        }
    }

    /// Reports that the login is done, when the public key was made known.
    pub fn on_registered(&mut self)
        ensures
            same_client(*old(self), *final(self)),
            final(self).known == old(self).known,
            events::ev_views(final(self).evs@) == events::ev_views(old(self).evs@).push(
                EvModel::Authed,
            ),
    {
        emit(&mut self.evs, Ev::Authed);
    }

    /// Deals with a file that was read of a frame.
    pub fn on_file_in(&mut self, f: FileIn) -> (r: FrameAction)
        ensures
            same_client(*old(self), *final(self)),
            final(self).known == old(self).known,
            events::ev_views(final(self).evs@) == told(
                events::ev_views(old(self).evs@),
                file_event(f@),
            ),
            r@ == file_action(f@),
    {
        match f {
            FileIn::Malformed => FrameAction::Nothing,
            FileIn::UnknownKey { sender, fname } => {
                let mut t = text::cat3("[", sender.as_str(), "] отправил файл ");
                t.append(fname.as_str());
                t.append(", но ключ неизвестен");
                emit(&mut self.evs, Ev::Line(t));
                FrameAction::Nothing
            },
            FileIn::Unreadable { sender, fname } => {
                emit(&mut self.evs, failed_file(sender.as_str(), fname.as_str()));
                FrameAction::Nothing
            },
            FileIn::BadName { sender, fname } => {
                emit(&mut self.evs, failed_file(sender.as_str(), fname.as_str()));
                FrameAction::Nothing
            },
            FileIn::Save { sender, fname, base, raw } => FrameAction::SaveFile {
                sender,
                fname,
                base,
                raw,
            },
        }
    }

    /// Tells the user that the connection is lost.
    pub fn on_lost(&mut self)
        ensures
            same_client(*old(self), *final(self)),
            final(self).known == old(self).known,
            events::ev_views(final(self).evs@) == events::ev_views(old(self).evs@).push(
                EvModel::Error("Соединение с сервером потеряно."@),
            ).push(EvModel::Line("__DISCONNECTED__"@)),
    {
        emit(&mut self.evs, Ev::Error(text::own("Соединение с сервером потеряно.")));
        emit(&mut self.evs, Ev::Line(text::own("__DISCONNECTED__")));
    }

    /// Begins what the user asks for.
    pub fn on_command(&mut self, tofu: &mut Table, cmd: UiCmd) -> (r: NetAction)
        requires
            can_hold(cmd@),
        ensures
            same_client(*old(self), *final(self)),
            exists|payload: Seq<char>|
                left(*final(self), *final(tofu), r@) == #[trigger] command_step(
                    peers_of(*old(self), *old(tofu)),
                    *old(self),
                    cmd@,
                    payload,
                ) && payload_fits(
                    *old(self),
                    private_in(peers_of(*old(self), *old(tofu)), cmd@),
                    payload,
                ),
    {
        let ghost p = peers_of(*self, *tofu);
        let ghost before = *self;
        let ghost c = cmd@;
        let ghost none: Seq<char> = Seq::empty();
        match cmd {
            UiCmd::Trust(name) => {
                let r = match peers::trust(&self.known, tofu, name.as_str()) {
                    Some(fp) => {
                        let mut t = text::cat3(
                            "✅ Новый ключ ",
                            name.as_str(),
                            " подтверждён: ",
                        );
                        t.append(fp.as_str());
                        emit(&mut self.evs, Ev::Line(t));
                        NetAction::SaveTofu
                    },
                    None => {
                        let t = text::cat3("Ключ для ", name.as_str(), " неизвестен");
                        emit(&mut self.evs, Ev::Error(t));
                        NetAction::Done
                    },
                };
                assert(left(*self, *tofu, r@) == command_step(p, before, c, none));
                r
            },
            UiCmd::Priv { target, text } => match self.known.get(target.as_str()) {
                Some(key) => {
                    let r = self.send_private(tofu, target, text, Some(key));
                    proof {
                        let m = private_in(p, c);
                        let q = choose|q: Seq<char>|
                            left(*self, *tofu, r@) == #[trigger] private_step(
                                p,
                                m,
                                before.pub_b64@,
                                q,
                            ) && payload_fits(before, m, q);
                        assert(left(*self, *tofu, r@) == command_step(p, before, c, q));
                    }
                    r
                },
                None => {
                    let r = NetAction::AskKey { target, text };
                    assert(left(*self, *tofu, r@) == command_step(p, before, c, none));
                    r
                },
            },
            UiCmd::Room(text) => {
                let r = NetAction::AskRoom { text };
                assert(left(*self, *tofu, r@) == command_step(p, before, c, none));
                r
            },
            UiCmd::File(path) => {
                let r = NetAction::ReadFile { path };
                assert(left(*self, *tofu, r@) == command_step(p, before, c, none));
                r
            },
            cmd => {
                let r = match server::command_of(&cmd, self.username.as_str()) {
                    Some(t) => NetAction::Command(t),
                    None => NetAction::Exit,
                };
                assert(left(*self, *tofu, r@) == command_step(p, before, c, none));
                r
            },
        }
    }

    /// Seals a private message, where there is a key for it.
    pub fn send_private(
        &mut self,
        tofu: &Table,
        target: String,
        text: String,
        key: Option<String>,
    ) -> (r: NetAction)
        requires
            crypto::sealable(encode_utf8(text@).len()),
        ensures
            same_client(*old(self), *final(self)),
            exists|payload: Seq<char>|
                left(*final(self), *tofu, r@) == #[trigger] private_step(
                    peers_of(*old(self), *tofu),
                    private_model(target, text, key),
                    old(self).pub_b64@,
                    payload,
                ) && payload_fits(*old(self), private_model(target, text, key), payload),
    {
        let ghost p = peers_of(*self, *tofu);
        let ghost before = *self;
        let ghost none: Seq<char> = Seq::empty();
        let ghost m = private_model(target, text, key);
        if let Some(key) = key {
            let sealed = inbox::message_payload(
                self.username.as_str(),
                target.as_str(),
                text.as_str(),
                key.as_str(),
                self.pub_b64.as_str(),
                &self.secret,
            );
            if let Some(payload) = sealed {
                let ghost q = payload@;
                let r = NetAction::SendPrivate { target, text, payload };
                assert(left(*self, *tofu, r@) == private_step(p, m, before.pub_b64@, q));
                assert(inbox::sealed_message(author(before), (m.target, m.key->0), m.text, q));
                return r;
            }
        }
        emit(&mut self.evs, private_outcome(target.as_str(), text.as_str(), false));
        let r = NetAction::Done;
        assert(left(*self, *tofu, r@) == private_step(p, m, before.pub_b64@, none));
        r
    }

    /// Goes on with a private message, with the key that the server gave.
    pub fn on_key(
        &mut self,
        tofu: &mut Table,
        target: String,
        text: String,
        answer: Option<String>,
    ) -> (r: NetAction)
        requires
            crypto::sealable(encode_utf8(text@).len()),
        ensures
            same_client(*old(self), *final(self)),
            exists|payload: Seq<char>|
                left(*final(self), *final(tofu), r@) == #[trigger] private_step(
                    after_key(
                        peers_of(*old(self), *old(tofu)),
                        target@,
                        crypto::text_in(answer),
                    ),
                    key_model(target, text, answer),
                    old(self).pub_b64@,
                    payload,
                ) && payload_fits(*old(self), key_model(target, text, answer), payload),
    {
        let ghost before = *self;
        let ghost p = after_key(peers_of(*self, *tofu), target@, crypto::text_in(answer));
        let ghost m = key_model(target, text, answer);
        let key = peers::accept_pubkey(
            &mut self.known,
            tofu,
            &mut self.evs,
            target.as_str(),
            answer,
        );
        assert(peers_of(*self, *tofu) == p);
        assert(private_model(target, text, key) == m);
        let ghost middle = *self;
        let r = self.send_private(tofu, target, text, key);
        proof {
            let q = choose|q: Seq<char>|
                left(*self, *tofu, r@) == #[trigger] private_step(p, m, before.pub_b64@, q)
                    && payload_fits(middle, m, q);
            assert(payload_fits(before, m, q));
        }
        r
    }

    /// Tells the user what became of a private message.
    pub fn on_sent(&mut self, target: &str, text: &str, sent: bool)
        ensures
            same_client(*old(self), *final(self)),
            final(self).known == old(self).known,
            events::ev_views(final(self).evs@) == events::ev_views(old(self).evs@).push(
                sent_event(target@, text@, sent),
            ),
    {
        emit(&mut self.evs, private_outcome(target, text, sent));
    }

    /// Seals a message to the members of the room that the server gave: the
    /// payloads are to be sent as messages.
    pub fn on_room(&mut self, tofu: &mut Table, text: &str, answer: Option<String>) -> (r: Vec<
        Option<String>,
    >)
        requires
            crypto::sealable(encode_utf8(text@).len()),
        ensures
            same_client(*old(self), *final(self)),
            peers_of(*final(self), *final(tofu)) == reported(
                after_room(peers_of(*old(self), *old(tofu)), crypto::text_in(answer)),
                EvModel::Line("[Я]: "@ + text@),
            ),
            inbox::messages_for(
                author(*old(self)),
                members_given(crypto::text_in(answer), old(self).username@),
                text@,
                r@,
            ),
    {
        let ghost before = *self;
        let targets = peers::room_targets(
            &mut self.known,
            tofu,
            &mut self.evs,
            answer,
            self.username.as_str(),
        );
        let r = inbox::message_payloads(
            self.username.as_str(),
            &targets,
            text,
            self.pub_b64.as_str(),
            &self.secret,
        );
        emit(&mut self.evs, Ev::Line(text::cat("[Я]: ", text)));
        assert(table::pairs(targets@) =~= members_given(crypto::text_in(answer), before.username@));
        r
    }

    /// Prepares a file of the user, with its bytes where it could be read.
    pub fn on_file(&mut self, tofu: &Table, path: &str, raw: Option<Vec<u8>>) -> (r: NetAction)
        ensures
            same_client(*old(self), *final(self)),
            left(*final(self), *tofu, r@) == file_read_step(
                peers_of(*old(self), *tofu),
                path@,
                primitives::bytes_in(raw),
            ),
            r matches NetAction::AskRoomForFile { fname, b64 } ==> crypto::sealable(
                encode_utf8(b64@).len(),
            ) && primitives::unbase64(b64@) == primitives::bytes_in(raw) && inbox::base64_text(b64@)
                && b64@.len() == primitives::base64_len(raw->0@.len()),
    {
        match raw {
            None => {
                emit(&mut self.evs, Ev::Error(text::cat("Файл не найден: ", path)));
                NetAction::Done
            },
            Some(raw) => match inbox::prepare_file(path, &raw) {
                None => {
                    emit(
                        &mut self.evs,
                        Ev::Error(text::own("Файл слишком большой (до 400 КБ)")),
                    );
                    NetAction::Done
                },
                Some(o) => {
                    let Outgoing { fname, b64 } = o;
                    NetAction::AskRoomForFile { fname, b64 }
                },
            },
        }
    }

    /// Seals a file to the members of the room that the server gave: the
    /// payloads are to be sent as files.
    pub fn on_file_room(
        &mut self,
        tofu: &mut Table,
        fname: &str,
        b64: &str,
        answer: Option<String>,
    ) -> (r: Vec<Option<String>>)
        requires
            crypto::sealable(encode_utf8(b64@).len()),
        ensures
            same_client(*old(self), *final(self)),
            peers_of(*final(self), *final(tofu)) == reported(
                after_room(peers_of(*old(self), *old(tofu)), crypto::text_in(answer)),
                EvModel::Line("[Я] файл "@ + fname@ + " отправлен в комнату"@),
            ),
            inbox::files_for(
                author(*old(self)),
                members_given(crypto::text_in(answer), old(self).username@),
                fname@,
                b64@,
                r@,
            ),
    {
        let ghost before = *self;
        let targets = peers::room_targets(
            &mut self.known,
            tofu,
            &mut self.evs,
            answer,
            self.username.as_str(),
        );
        let r = inbox::file_payloads(
            self.username.as_str(),
            &targets,
            fname,
            b64,
            self.pub_b64.as_str(),
            &self.secret,
        );
        let t = text::cat3("[Я] файл ", fname, " отправлен в комнату");
        emit(&mut self.evs, Ev::Line(t));
        assert(table::pairs(targets@) =~= members_given(crypto::text_in(answer), before.username@));
        r
    }
}

/// A private message with the key that there is for it.
pub open spec fn private_model(target: String, text: String, key: Option<String>) -> PrivateModel {
    PrivateModel { target: target@, text: text@, key: crypto::text_in(key) }
}

/// A private message with the key that the server gave.
pub open spec fn key_model(target: String, text: String, answer: Option<String>) -> PrivateModel {
    PrivateModel { target: target@, text: text@, key: key_given(crypto::text_in(answer)) }
}

/// The event that tells of the outcome of a private message.
pub fn private_outcome(target: &str, text: &str, sent: bool) -> (r: Ev)
    ensures
        r@ == sent_event(target@, text@, sent),
{
    if sent {
        let mut t = text::cat3("[Я → ", target, "]: ");
        t.append(text);
        Ev::Line(t)
    } else {
        Ev::Error(
            text::cat3(
                "Не удалось отправить сообщение для ",
                target,
                " (нет ключа?)",
            ),
        )
    }
}

/// The events that tell that no connection could be made.
pub fn connect_failed(host: &str, port: &str, reason: &str) -> (r: Vec<Ev>)
    ensures
        events::ev_views(r@) == seq![
            EvModel::Error(
                "Не удалось подключиться к "@ + host@ + ":"@ + port@ + ". "@ + reason@,
            ),
            EvModel::Line("__DISCONNECTED__"@),
        ],
{
    let mut t = text::cat3("Не удалось подключиться к ", host, ":");
    t.append(port);
    t.append(". ");
    t.append(reason);
    let ghost v = t@;
    let mut r: Vec<Ev> = Vec::new();
    emit(&mut r, Ev::Error(t));
    emit(&mut r, Ev::Line(text::own("__DISCONNECTED__")));
    assert(events::ev_views(r@) =~= seq![EvModel::Error(v), EvModel::Line("__DISCONNECTED__"@)]);
    r
}

/// A client whose public key is that of its secret.
pub open spec fn honest(s: Session) -> bool {
    crypto::key_bytes(s.pub_b64@) == Some(primitives::x25519_public(s.secret@))
}

/// A message reaches its target: where the key that it was sealed to is that
/// of the receiver, and the receiver knows the sender's key, the frame that
/// carries it is reported to the receiver as the message, without the white
/// space at its end, and nothing else happens.
pub proof fn law_message_delivered(
    sender: Session,
    receiver: Session,
    p: PeersModel,
    target: Seq<char>,
    key: Seq<char>,
    text: Seq<char>,
    payload: Seq<char>,
    base: Seq<char>,
)
    requires
        inbox::sealed_message(author(sender), (target, key), text, payload),
        honest(sender),
        crypto::key_bytes(key) == Some(primitives::x25519_public(receiver.secret@)),
        table::lookup(p.known, sender.username@) == Some(sender.pub_b64@),
        inbox::field_text(sender.username@),
        inbox::field_text(target),
    ensures
        frame_step(p, receiver, proto::TYPE_MESSAGE, encode_utf8(payload), base) == (Step {
            peers: reported(
                p,
                EvModel::Msg {
                    from: sender.username@,
                    text: text::trim_back(text, text::Class::White),
                },
            ),
            action: FrameActionModel::Nothing,
        }),
{
    inbox::law_message_read(
        author(sender),
        (target, key),
        text,
        payload,
        receiver.secret@,
        p.known,
    );
}

/// A file reaches the members of the room: under the same conditions, the
/// frame that carries it has the receiver save the same bytes, under the name
/// that the file was sent under where that is a plain name.
#[verifier::spinoff_prover]
pub proof fn law_file_delivered(
    sender: Session,
    receiver: Session,
    p: PeersModel,
    target: Seq<char>,
    key: Seq<char>,
    fname: Seq<char>,
    raw: Seq<u8>,
    b64: Seq<char>,
    payload: Seq<char>,
    base: Seq<char>,
)
    requires
        inbox::sealed_file(author(sender), (target, key), fname, b64, payload),
        primitives::unbase64(b64) == Some(raw),
        inbox::base64_text(b64),
        honest(sender),
        crypto::key_bytes(key) == Some(primitives::x25519_public(receiver.secret@)),
        table::lookup(p.known, sender.username@) == Some(sender.pub_b64@),
        inbox::field_text(sender.username@),
        inbox::field_text(target),
        inbox::field_text(fname),
        store::plain_name(fname),
        store::portable(fname),
        name_fits(proto::TYPE_FILE, encode_utf8(payload), base),
    ensures
        frame_step(p, receiver, proto::TYPE_FILE, encode_utf8(payload), base) == (Step {
            peers: p,
            action: FrameActionModel::SaveFile {
                sender: sender.username@,
                fname,
                base: fname,
                raw,
            },
        }),
{
    inbox::law_file_read(
        author(sender),
        (target, key),
        fname,
        b64,
        raw,
        payload,
        receiver.secret@,
        p.known,
        base,
    );
    lemma_saved_under_itself(encode_utf8(payload), fname, base);
    lemma_file_step(p, receiver, encode_utf8(payload), sender.username@, fname, raw);
}

proof fn lemma_file_step(
    p: PeersModel,
    s: Session,
    payload: Seq<u8>,
    sender: Seq<char>,
    fname: Seq<char>,
    raw: Seq<u8>,
)
    requires
        inbox::file_in(p.known, s.secret@, payload, fname) == inbox::file_decided(
            sender,
            fname,
            Some(raw),
            fname,
        ),
        fname.len() > 0,
    ensures
        frame_step(p, s, proto::TYPE_FILE, payload, fname) == (Step {
            peers: p,
            action: FrameActionModel::SaveFile { sender, fname, base: fname, raw },
        }),
{
    let f = inbox::file_in(p.known, s.secret@, payload, fname);
    assert(f == FileModel::Save { sender, fname, base: fname, raw });
}

proof fn lemma_saved_under_itself(payload: Seq<u8>, fname: Seq<char>, base: Seq<char>)
    requires
        store::plain_name(fname),
        store::portable(fname),
        name_fits(proto::TYPE_FILE, payload, base),
        inbox::fields(payload).len() == 4,
        text::lossy(inbox::fields(payload)[2]) == fname,
    ensures
        base == fname,
{
    store::law_plain_name_kept(fname);
    text::lemma_trimmed_same(fname);
}

/// Whether every fingerprint that was trusted is trusted still.
pub open spec fn trust_kept(a: PeersModel, b: PeersModel) -> bool {
    forall|n: Seq<char>| #[trigger]
        a.tofu.contains_key(n) ==> b.tofu.contains_key(n) && b.tofu[n] == a.tofu[n]
}

/// Only the user changes a trusted fingerprint: no frame does, no answer of the
/// server does, and of the commands only the one to trust a peer does, for
/// that peer alone.
pub proof fn law_trust_is_the_users(
    p: PeersModel,
    s: Session,
    ftype: u8,
    bytes: Seq<u8>,
    base: Seq<char>,
    name: Seq<char>,
    answer: Option<Seq<char>>,
    cmd: UiCmdModel,
    payload: Seq<char>,
)
    ensures
        trust_kept(p, frame_step(p, s, ftype, bytes, base).peers),
        trust_kept(p, after_key(p, name, answer)),
        trust_kept(p, after_room(p, answer)),
        cmd !is Trust ==> command_step(p, s, cmd, payload).peers.tofu == p.tofu,
        cmd matches UiCmdModel::Trust(n) ==> forall|m: Seq<char>|
            m != n ==> #[trigger] table::lookup(command_step(p, s, cmd, payload).peers.tofu, m)
                == table::lookup(p.tofu, m),
{
    if server::command_in(s.shared_key@, bytes) is Some {
        peers::law_first_use_stays(
            p,
            peers::key_items(server::command_in(s.shared_key@, bytes)->0),
        );
    }
    if answer is Some {
        peers::law_first_use_stays(p, text::split_on(answer->0, ';'));
    }
}

/// When the server announces keys, each name is known with the key that stands
/// last under it; the other names keep their keys, and no fingerprint that was
/// trusted changes.
pub proof fn law_announced_keys_known(
    p: PeersModel,
    nks: Seq<(Seq<char>, Seq<char>)>,
    i: int,
    other: Seq<char>,
    username: Seq<char>,
    pub_b64: Seq<char>,
)
    requires
        peers::all_listable(nks),
        0 <= i < nks.len(),
        forall|j: int| i < j < nks.len() ==> (#[trigger] nks[j]).0 != nks[i].0,
        forall|j: int| 0 <= j < nks.len() ==> (#[trigger] nks[j]).0 != other,
    ensures
        ({
            let list = text::joined(peers::items_of(nks), seq![';']);
            let a = text_step(p, "[НОВЫЙ]"@ + list, username, pub_b64);
            let b = text_step(p, "[ПУБКЛЮЧИ]"@ + list, username, pub_b64);
            &&& a.peers.known.contains_key(nks[i].0) && a.peers.known[nks[i].0] == nks[i].1
            &&& table::lookup(a.peers.known, other) == table::lookup(p.known, other)
            &&& table::lookup(a.peers.tofu, other) == table::lookup(p.tofu, other)
            &&& trust_kept(p, a.peers)
            &&& a.action == FrameActionModel::Nothing
            &&& b == a
        }),
{
    let list = text::joined(peers::items_of(nks), seq![';']);
    server::law_tags_decide(list);
    peers::law_announcement_read(nks);
    peers::law_last_key_counts(p, nks, i);
    peers::law_other_names_keep(p, nks, other);
    peers::law_first_use_stays(p, peers::items_of(nks));
}

/// An answer of the server goes to who asked, and the login has the own name and
/// key made known again; neither changes anything else. What the server reports
/// is reported to the user, once, after what was reported before.
pub proof fn law_server_heard(
    p: PeersModel,
    s: Seq<char>,
    username: Seq<char>,
    pub_b64: Seq<char>,
    e: EvModel,
)
    ensures
        text_step(p, "[RESP]"@ + s, username, pub_b64) == (Step {
            peers: p,
            action: FrameActionModel::Answer(text::trimmed(s)),
        }),
        text_step(p, "[AUTH]OK"@ + s, username, pub_b64) == (Step {
            peers: p,
            action: FrameActionModel::Register(username + seq!['\0'] + pub_b64),
        }),
        server::server_text(s) == ServerModel::Report(e) ==> text_step(
            p,
            s,
            username,
            pub_b64,
        ) == (Step {
            peers: PeersModel { known: p.known, tofu: p.tofu, evs: p.evs.push(e) },
            action: FrameActionModel::Nothing,
        }),
        server::server_text(s) == ServerModel::Nothing ==> text_step(
            p,
            s,
            username,
            pub_b64,
        ) == (Step { peers: p, action: FrameActionModel::Nothing }),
{
    server::law_tags_decide(s);
}

/// A frame of a sort that is not known, and a command that does not decrypt
/// under the key shared with the server, do nothing.
pub proof fn law_strange_frames_ignored(
    p: PeersModel,
    s: Session,
    ftype: u8,
    payload: Seq<u8>,
    base: Seq<char>,
)
    ensures
        ftype != 77 && ftype != 67 && ftype != 70 ==> frame_step(p, s, ftype, payload, base) == (
        Step { peers: p, action: FrameActionModel::Nothing }),
        crypto::opened_text(s.shared_key@, text::lossy(payload), Seq::empty()) is None
            ==> frame_step(p, s, 67, payload, base) == (Step {
            peers: p,
            action: FrameActionModel::Nothing,
        }),
{
}

proof fn lemma_piece(a: Seq<char>, b: Seq<char>, c: Seq<char>)
    ensures
        text::has_piece(a + b + c, b),
{
    let k = a.len() as int;
    assert((a + b + c).subrange(k, k + b.len()) =~= b);
}

/// A message that cannot be read is not shown as one: the user is told who it is
/// from, by a line where the key is not known, by an error where it does not
/// decrypt.
pub proof fn law_unread_messages_told(sender: Seq<char>)
    ensures
        message_event(MessageModel::Malformed) is None,
        message_event(MessageModel::UnknownKey { sender }) matches Some(EvModel::Line(t))
            && text::has_piece(t, sender),
        message_event(MessageModel::Unreadable { sender }) matches Some(EvModel::Error(t))
            && text::has_piece(t, sender),
{
    lemma_piece("["@, sender, "]: (неизвестный публичный ключ)"@);
    lemma_piece("["@, sender, "]: не удалось расшифровать (подмена/ключ)"@);
}

/// A message that is read is reported with its sender and its text.
pub proof fn law_read_message_told(sender: Seq<char>, text: Seq<char>)
    ensures
        message_event(MessageModel::Plain { sender, text }) == Some(
            EvModel::Msg { from: sender, text },
        ),
{
}

/// A file that cannot be received is not saved: the user is told who it is from
/// and its name. One that can be is to be saved under the safe name, with its
/// bytes, and nothing is told yet.
pub proof fn law_files_told(
    sender: Seq<char>,
    fname: Seq<char>,
    base: Seq<char>,
    raw: Seq<u8>,
)
    ensures
        file_event(FileModel::Malformed) is None,
        file_event(FileModel::UnknownKey { sender, fname }) matches Some(EvModel::Line(t))
            && text::has_piece(t, sender) && text::has_piece(t, fname),
        file_event(FileModel::Unreadable { sender, fname }) matches Some(EvModel::Error(t))
            && text::has_piece(t, sender) && text::has_piece(t, fname),
        file_event(FileModel::BadName { sender, fname }) matches Some(EvModel::Error(t))
            && text::has_piece(t, sender) && text::has_piece(t, fname),
        file_event(FileModel::Save { sender, fname, base, raw }) is None,
        file_action(FileModel::Malformed) == FrameActionModel::Nothing,
        file_action(FileModel::UnknownKey { sender, fname }) == FrameActionModel::Nothing,
        file_action(FileModel::Unreadable { sender, fname }) == FrameActionModel::Nothing,
        file_action(FileModel::BadName { sender, fname }) == FrameActionModel::Nothing,
        file_action(FileModel::Save { sender, fname, base, raw }) == (FrameActionModel::SaveFile {
            sender,
            fname,
            base,
            raw,
        }),
{
    let a = "["@;
    let b = "] отправил файл "@;
    let c = ", но ключ неизвестен"@;
    lemma_piece(a, sender, b + fname + c);
    assert(a + sender + (b + fname + c) =~= a + sender + b + fname + c);
    lemma_piece(a + sender + b, fname, c);
    let d = "] файл "@;
    let e = " получить не удалось"@;
    lemma_piece(a, sender, d + fname + e);
    assert(a + sender + (d + fname + e) =~= a + sender + d + fname + e);
    lemma_piece(a + sender + d, fname, e);
}

/// The user is told of a private message that went out, with its target and its
/// text; of one that did not, by an error that names the target.
pub proof fn law_outcome_told(target: Seq<char>, text: Seq<char>)
    ensures
        sent_event(target, text, true) matches EvModel::Line(t) && text::has_piece(t, target)
            && text.is_suffix_of(t),
        sent_event(target, text, false) matches EvModel::Error(t) && text::has_piece(t, target),
{
    let a = "[Я → "@;
    let b = "]: "@;
    lemma_piece(a, target, b + text);
    let t = a + target + b + text;
    assert(a + target + (b + text) =~= t);
    assert(t.subrange(t.len() - text.len(), t.len() as int) =~= text);
    lemma_piece("Не удалось отправить сообщение для "@, target, " (нет ключа?)"@);
}

/// A private message is sealed to the key that is known of its target, by us;
/// where none is known, it is asked for, for that target and that text.
pub proof fn law_private_acted_on(
    p: PeersModel,
    s: Session,
    target: Seq<char>,
    text: Seq<char>,
    payload: Seq<char>,
)
    ensures
        ({
            let cmd = UiCmdModel::Priv { target, text };
            &&& !p.known.contains_key(target) ==> command_step(p, s, cmd, payload) == (Step {
                peers: p,
                action: NetActionModel::AskKey { target, text },
            })
            &&& p.known.contains_key(target) && inbox::can_seal(
                text,
                p.known[target],
                s.pub_b64@,
            ) && payload_fits(s, private_in(p, cmd), payload) ==> command_step(
                p,
                s,
                cmd,
                payload,
            ) == (Step {
                peers: p,
                action: NetActionModel::SendPrivate { target, text, payload },
            }) && inbox::sealed_message(
                (inbox::Author { name: s.username@, key: s.pub_b64@, secret: s.secret@ }),
                (target, p.known[target]),
                text,
                payload,
            )
            &&& p.known.contains_key(target) && !inbox::can_seal(
                text,
                p.known[target],
                s.pub_b64@,
            ) ==> command_step(p, s, cmd, payload).action == NetActionModel::Done
                && command_step(p, s, cmd, payload).peers.evs.len() == p.evs.len() + 1
        }),
{
}

/// The user trusts the key that is known of a peer: its fingerprint is the
/// trusted one from then on, and is saved. Of an unknown peer nothing is
/// trusted.
pub proof fn law_user_trusts(p: PeersModel, s: Session, name: Seq<char>, payload: Seq<char>)
    ensures
        ({
            let r = command_step(p, s, UiCmdModel::Trust(name), payload);
            &&& r.peers.known == p.known
            &&& p.known.contains_key(name) ==> r.action == NetActionModel::SaveTofu
                && r.peers.tofu.contains_key(name) && r.peers.tofu[name]
                == crypto::fingerprint_of(p.known[name]) && peers::tofu_status(
                r.peers.tofu,
                name,
                crypto::fingerprint_of(p.known[name]),
            ) == peers::TofuStatus::Same && (exists|t: Seq<char>|
                r.peers.evs == p.evs.push(EvModel::Line(t)) && #[trigger] text::has_piece(t, name)
                    && text::has_piece(t, crypto::fingerprint_of(p.known[name])))
            &&& !p.known.contains_key(name) ==> r.action == NetActionModel::Done && r.peers.tofu
                == p.tofu && exists|t: Seq<char>|
                r.peers.evs == p.evs.push(EvModel::Error(t)) && #[trigger] text::has_piece(t, name)
        }),
{
    if p.known.contains_key(name) {
        let fp = crypto::fingerprint_of(p.known[name]);
        let a = "✅ Новый ключ "@;
        let b = " подтверждён: "@;
        let t = a + name + b + fp;
        lemma_piece(a, name, b + fp);
        assert(a + name + (b + fp) =~= t);
        let none: Seq<char> = Seq::empty();
        lemma_piece(a + name + b, fp, none);
        assert(a + name + b + fp + none =~= t);
        assert(text::has_piece(t, name));
    } else {
        lemma_piece("Ключ для "@, name, " неизвестен"@);
        assert(text::has_piece("Ключ для "@ + name + " неизвестен"@, name));
    }
}

/// What the user asks of the room or of a file begins with the members of the
/// room or with the file; what the server alone can do is told to it, and
/// nothing else changes.
pub proof fn law_other_commands(p: PeersModel, s: Session, text: Seq<char>, payload: Seq<char>)
    ensures
        command_step(p, s, UiCmdModel::Room(text), payload) == (Step {
            peers: p,
            action: NetActionModel::AskRoom { text },
        }),
        command_step(p, s, UiCmdModel::File(text), payload) == (Step {
            peers: p,
            action: NetActionModel::ReadFile { path: text },
        }),
        text != "/exit"@ ==> command_step(p, s, UiCmdModel::Raw(text), payload) == (Step {
            peers: p,
            action: NetActionModel::Command(text),
        }),
        command_step(p, s, UiCmdModel::Raw("/exit"@), payload) == (Step {
            peers: p,
            action: NetActionModel::Exit,
        }),
        forall|cmd: UiCmdModel|
            cmd !is Priv && cmd !is Room && cmd !is File && cmd !is Trust ==> (
            #[trigger] command_step(p, s, cmd, payload)).peers == p,
{
}

/// The key that the server gives for a peer is the one that is used, and is
/// known from then on; where the server refuses there is none.
pub proof fn law_given_key_used(p: PeersModel, name: Seq<char>, key: Seq<char>)
    requires
        key != "ERR"@,
    ensures
        key_given(Some(key)) == Some(key),
        key_given(Some("ERR"@)) is None,
        key_given(None) is None,
        after_key(p, name, Some(key)).known.contains_key(name),
        after_key(p, name, Some(key)).known[name] == key,
        after_key(p, name, Some("ERR"@)) == p,
        after_key(p, name, None) == p,
{
}

/// What is for the room goes to the members that the server gives, in order,
/// with their keys, but for ourselves; where it refuses there are none, and
/// nothing is learned.
pub proof fn law_members_but_us(
    p: PeersModel,
    nks: Seq<(Seq<char>, Seq<char>)>,
    me: Seq<char>,
    i: int,
)
    requires
        peers::all_listable(nks),
        0 <= i < nks.len(),
        forall|j: int| i < j < nks.len() ==> (#[trigger] nks[j]).0 != nks[i].0,
    ensures
        ({
            let list = text::joined(peers::items_of(nks), seq![';']);
            &&& members_given(Some(list), me) == nks.filter(
                |nk: (Seq<char>, Seq<char>)| nk.0 != me,
            )
            &&& after_room(p, Some(list)).known.contains_key(nks[i].0)
            &&& after_room(p, Some(list)).known[nks[i].0] == nks[i].1
            &&& members_given(None, me).len() == 0 && members_given(Some("ERR"@), me).len() == 0
            &&& after_room(p, None) == p && after_room(p, Some("ERR"@)) == p
        }),
{
    peers::law_refusals(nks);
    peers::lemma_list_items(nks);
    peers::law_members_but_us(nks, me);
    peers::law_last_key_counts(p, nks, i);
}

/// A file of at most 400000 bytes is sent whole, under the last part of its
/// path; of a longer one, and of one that cannot be read, the user is told.
pub proof fn law_file_sent(p: PeersModel, dir: Seq<char>, name: Seq<char>, raw: Seq<u8>)
    requires
        dir.len() == 0 || dir[dir.len() - 1] == '/' || dir[dir.len() - 1] == '\\',
        !name.contains('/'),
        !name.contains('\\'),
    ensures
        raw.len() <= 400_000 ==> file_read_step(p, dir + name, Some(raw)) == (Step {
            peers: p,
            action: NetActionModel::AskRoomForFile { fname: name, b64: primitives::base64(raw) },
        }),
        raw.len() > 400_000 ==> file_read_step(p, dir + name, Some(raw)).action
            == NetActionModel::Done && file_read_step(p, dir + name, Some(raw)).peers.evs.len()
            == p.evs.len() + 1,
        file_read_step(p, dir + name, None).action == NetActionModel::Done,
        (exists|t: Seq<char>|
            file_read_step(p, dir + name, None).peers.evs == p.evs.push(EvModel::Error(t))
                && #[trigger] text::has_piece(t, dir + name)),
{
    store::law_base_name(dir, name);
    let none: Seq<char> = Seq::empty();
    let a = "Файл не найден: "@;
    lemma_piece(a, dir + name, none);
    assert(a + (dir + name) + none =~= a + (dir + name));
    assert(text::has_piece(a + (dir + name), dir + name));
}

/// What the user is told of a file once it was saved, or could not be.
pub open spec fn saved_event(
    sender: Seq<char>,
    fname: Seq<char>,
    base: Seq<char>,
    saved: bool,
) -> EvModel {
    if saved {
        EvModel::FileMsg { from: sender, name: base }
    } else {
        file_failure(sender, fname)
    }
}

/// A file is reported as received from its sender, under the name that it was
/// saved under, only once it is saved; else an error names both.
pub proof fn law_saved_event(sender: Seq<char>, fname: Seq<char>, base: Seq<char>)
    ensures
        saved_event(sender, fname, base, true) matches EvModel::FileMsg { from, name } && from
            == sender && name == base,
        saved_event(sender, fname, base, false) matches EvModel::Error(t) && text::has_piece(
            t,
            sender,
        ) && text::has_piece(t, fname),
{
    let raw: Seq<u8> = Seq::empty();
    law_files_told(sender, fname, base, raw);
}

/// What is said in a room reaches each member to whose key it could be sealed:
/// where that is the key of the member, and the member knows ours, the frame is
/// reported to the member as the message. To a member with a key that is none,
/// nothing goes.
pub proof fn law_room_message_delivered(
    sender: Session,
    receiver: Session,
    p: PeersModel,
    to: Seq<(Seq<char>, Seq<char>)>,
    text: Seq<char>,
    payloads: Seq<Option<String>>,
    i: int,
    base: Seq<char>,
)
    requires
        inbox::messages_for(author(sender), to, text, payloads),
        0 <= i < to.len(),
        honest(sender),
        table::lookup(p.known, sender.username@) == Some(sender.pub_b64@),
        inbox::field_text(sender.username@),
        inbox::field_text(to[i].0),
    ensures
        payloads.len() == to.len(),
        payloads[i] is Some <==> inbox::can_seal(text, to[i].1, sender.pub_b64@),
        payloads[i] is Some && crypto::key_bytes(to[i].1) == Some(
            primitives::x25519_public(receiver.secret@),
        ) ==> frame_step(
            p,
            receiver,
            proto::TYPE_MESSAGE,
            encode_utf8(payloads[i]->0@),
            base,
        ) == (Step {
            peers: PeersModel {
                evs: p.evs.push(
                    EvModel::Msg {
                        from: sender.username@,
                        text: text::trim_back(text, text::Class::White),
                    },
                ),
                ..p
            },
            action: FrameActionModel::Nothing,
        }),
{
    let t = crypto::text_in(payloads[i]);
    assert(inbox::message_for(author(sender), to[i], text, t));
    if payloads[i] is Some && crypto::key_bytes(to[i].1) == Some(
        primitives::x25519_public(receiver.secret@),
    ) {
        law_message_delivered(
            sender,
            receiver,
            p,
            to[i].0,
            to[i].1,
            text,
            payloads[i]->0@,
            base,
        );
    }
}

/// A file for a room reaches each member to whose key it could be sealed, with
/// its bytes and under its name, under the same conditions.
pub proof fn law_room_file_delivered(
    sender: Session,
    receiver: Session,
    p: PeersModel,
    to: Seq<(Seq<char>, Seq<char>)>,
    fname: Seq<char>,
    raw: Seq<u8>,
    b64: Seq<char>,
    payloads: Seq<Option<String>>,
    i: int,
    base: Seq<char>,
)
    requires
        inbox::files_for(author(sender), to, fname, b64, payloads),
        0 <= i < to.len(),
        primitives::unbase64(b64) == Some(raw),
        inbox::base64_text(b64),
        honest(sender),
        table::lookup(p.known, sender.username@) == Some(sender.pub_b64@),
        inbox::field_text(sender.username@),
        inbox::field_text(to[i].0),
        inbox::field_text(fname),
        store::plain_name(fname),
        store::portable(fname),
        payloads[i] is Some,
        crypto::key_bytes(to[i].1) == Some(primitives::x25519_public(receiver.secret@)),
        name_fits(proto::TYPE_FILE, encode_utf8(payloads[i]->0@), base),
    ensures
        payloads.len() == to.len(),
        inbox::can_seal(b64, to[i].1, sender.pub_b64@),
        frame_step(p, receiver, proto::TYPE_FILE, encode_utf8(payloads[i]->0@), base) == (Step {
            peers: p,
            action: FrameActionModel::SaveFile {
                sender: sender.username@,
                fname,
                base: fname,
                raw,
            },
        }),
{
    let t = crypto::text_in(payloads[i]);
    assert(inbox::file_for(author(sender), to[i], fname, b64, t));
    law_file_delivered(
        sender,
        receiver,
        p,
        to[i].0,
        to[i].1,
        fname,
        raw,
        b64,
        payloads[i]->0@,
        base,
    );
}

/// What is reported comes after what was reported before, and nothing goes.
pub proof fn law_reports_in_order(evs: Seq<EvModel>, e: EvModel)
    ensures
        told(evs, Some(e)) == evs.push(e),
        told(evs, None) == evs,
{
}

} // verus!
