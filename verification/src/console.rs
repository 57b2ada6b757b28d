//! The client for the console: one connection, whose user types lines and is
//! shown lines. It trusts every key that the server gives.

use crate::crypto;
use crate::inbox;
use crate::inbox::{FileIn, FileModel, MessageIn, MessageModel, Outgoing};
use crate::net;
use crate::net::{FrameAction, FrameActionModel, NetAction, NetActionModel, PrivateModel};
use crate::peers;
use crate::primitives;
use crate::proto;
use crate::server;
use crate::store;
use crate::table;
use crate::table::Table;
use crate::text;
use vstd::prelude::*;
use vstd::utf8::encode_utf8;

verus! {

/// The version of the protocol that the console client speaks.
pub const CONSOLE_VERSION: &'static str = "1";

/// How many directories above this one are searched for files of keys.
pub const CONSOLE_LEVELS: usize = 1;

/// A connection of the console client: who we are, the keys of peers that are
/// known, and the lines that were not shown yet.
pub struct Console {
    pub username: String,
    pub pub_b64: String,
    pub secret: [u8; 32],
    pub shared_key: [u8; 32],
    pub known: Table,
    pub lines: Vec<String>,
}

/// The contents of a `Console`.
pub struct ConsoleModel {
    pub username: Seq<char>,
    pub pub_b64: Seq<char>,
    pub secret: Seq<u8>,
    pub shared_key: Seq<u8>,
    pub known: Map<Seq<char>, Seq<char>>,
    pub lines: Seq<Seq<char>>,
}

impl View for Console {
    type V = ConsoleModel;

    open spec fn view(&self) -> ConsoleModel {
        ConsoleModel {
            username: self.username@,
            pub_b64: self.pub_b64@,
            secret: self.secret@,
            shared_key: self.shared_key@,
            known: self.known@,
            lines: text::views(self.lines@),
        }
    }
}

/// What a step leaves: the connection, and what is to be done next.
pub struct Turn<A> {
    pub state: ConsoleModel,
    pub action: A,
}

/// One more line.
pub open spec fn shown(c: ConsoleModel, line: Seq<char>) -> ConsoleModel {
    ConsoleModel { lines: c.lines.push(line), ..c }
}

/// Whether two connections are of the same client.
pub open spec fn same_client(a: Console, b: Console) -> bool {
    a.username == b.username && a.pub_b64 == b.pub_b64 && a.secret == b.secret && a.shared_key
        == b.shared_key
}

/// Who sends over a connection.
pub open spec fn author(c: Console) -> inbox::Author {
    inbox::Author { name: c.username@, key: c.pub_b64@, secret: c.secret@ }
}

/// The name and the key in an item `name:key`, as they stand.
pub open spec fn raw_pair(item: Seq<char>) -> Option<(Seq<char>, Seq<char>)> {
    let i = text::index_of(item, ':');
    if 0 <= i < item.len() {
        Some((item.take(i), item.skip(i + 1)))
    } else {
        None
    }
}

/// The keys known after the items of a list, in order.
pub open spec fn known_after(
    known: Map<Seq<char>, Seq<char>>,
    items: Seq<Seq<char>>,
) -> Map<Seq<char>, Seq<char>>
    decreases items.len(),
{
    if items.len() == 0 {
        known
    } else {
        let before = known_after(known, items.drop_last());
        match raw_pair(items.last()) {
            Some(nk) => before.insert(nk.0, nk.1),
            None => before,
        }
    }
}

/// The names and keys of a list of items, but for those of one name.
pub open spec fn raw_others(items: Seq<Seq<char>>, me: Seq<char>) -> Seq<(Seq<char>, Seq<char>)>
    decreases items.len(),
{
    if items.len() == 0 {
        Seq::empty()
    } else {
        let before = raw_others(items.drop_last(), me);
        match raw_pair(items.last()) {
            Some(nk) => if nk.0 != me {
                before.push(nk)
            } else {
                before
            },
            None => before,
        }
    }
}

/// The members of the room that the server gave, but for ourselves.
pub open spec fn members_given(answer: Option<Seq<char>>, me: Seq<char>) -> Seq<
    (Seq<char>, Seq<char>),
> {
    if peers::refused(answer) {
        Seq::empty()
    } else {
        raw_others(text::split_on(answer->0, ';'), me)
    }
}

/// What is known after the server was asked for the members of the room.
pub open spec fn after_room(c: ConsoleModel, answer: Option<Seq<char>>) -> ConsoleModel {
    if peers::refused(answer) {
        c
    } else {
        ConsoleModel { known: known_after(c.known, text::split_on(answer->0, ';')), ..c }
    }
}

/// What is known after the server was asked for a peer's key.
pub open spec fn after_key(c: ConsoleModel, name: Seq<char>, answer: Option<Seq<char>>) -> ConsoleModel {
    if peers::refused(answer) {
        c
    } else {
        ConsoleModel { known: c.known.insert(name, answer->0), ..c }
    }
}

/// The line that is shown of a message frame.
pub open spec fn message_line(m: MessageModel) -> Seq<char> {
    match m {
        MessageModel::Malformed => "[ОШИБКА] Повреждённый кадр сообщения"@,
        MessageModel::UnknownKey { sender } => "["@ + sender
            + "]: (неизвестный публичный ключ)"@,
        MessageModel::Unreadable { sender } => "["@ + sender
            + "]: (не удалось расшифровать — подмена/ключ)"@,
        MessageModel::Plain { sender, text } => "["@ + sender + "]: "@ + text,
    }
}

/// The line that is shown of a file from a peer.
pub open spec fn file_line(sender: Seq<char>, fname: Seq<char>, rest: Seq<char>) -> Seq<char> {
    "["@ + sender + "] отправил файл: "@ + fname + rest
}

/// The line that is shown of a file frame, where the file is not to be saved.
pub open spec fn file_refusal(f: FileModel) -> Option<Seq<char>> {
    match f {
        FileModel::Malformed => Some("[ОШИБКА] Повреждённый кадр файла"@),
        FileModel::UnknownKey { sender, fname } => Some(
            file_line(sender, fname, ", но ключ неизвестен"@),
        ),
        FileModel::Unreadable { sender, fname } => Some(
            file_line(sender, fname, ", но расшифровать не удалось"@),
        ),
        FileModel::BadName { sender, fname } => Some(
            file_line(sender, fname, ", но имя недопустимо"@),
        ),
        FileModel::Save { .. } => None,
    }
}

/// What is done about a text of the server.
pub open spec fn text_turn(
    c: ConsoleModel,
    t: Seq<char>,
    username: Seq<char>,
    pub_b64: Seq<char>,
) -> Turn<FrameActionModel> {
    if server::tagged(t, "[RESP]"@) {
        Turn {
            state: c,
            action: FrameActionModel::Answer(text::trimmed(server::untagged(t, "[RESP]"@))),
        }
    } else if server::tagged(t, "[ПУБКЛЮЧИ]"@) || server::tagged(t, "[НОВЫЙ]"@) {
        Turn {
            state: ConsoleModel { known: known_after(c.known, peers::key_items(t)), ..c },
            action: FrameActionModel::Nothing,
        }
    } else if server::tagged(t, "[AUTH]OK"@) {
        Turn {
            state: c,
            action: FrameActionModel::Register(server::register_payload_of(username, pub_b64)),
        }
    } else {
        Turn { state: shown(c, t), action: FrameActionModel::Nothing }
    }
}

/// What is done about a frame, where the name that a file came with is saved
/// under `base`.
pub open spec fn frame_turn(
    c: Console,
    ftype: u8,
    payload: Seq<u8>,
    base: Seq<char>,
) -> Turn<FrameActionModel> {
    if ftype == proto::TYPE_COMMAND {
        match server::command_in(c.shared_key@, payload) {
            Some(t) => text_turn(c@, t, c.username@, c.pub_b64@),
            None => Turn { state: c@, action: FrameActionModel::Nothing },
        }
    } else if ftype == proto::TYPE_MESSAGE {
        Turn {
            state: shown(
                c@,
                message_line(inbox::message_in(c.known@, c.secret@, payload)),
            ),
            action: FrameActionModel::Nothing,
        }
    } else if ftype == proto::TYPE_FILE {
        let f = inbox::file_in(c.known@, c.secret@, payload, base);
        Turn {
            state: match file_refusal(f) {
                Some(l) => shown(c@, l),
                None => c@,
            },
            action: net::file_action(f),
        }
    } else {
        Turn { state: c@, action: FrameActionModel::Nothing }
    }
}

/// What a line that was typed asks for.
pub enum Input {
    Empty,
    /// A message to a peer without the peer's name or without a text.
    BadFormat,
    Private { target: String, text: String },
    File(String),
    Command(String),
    Room(String),
}

/// The texts of an `Input`.
pub enum InputModel {
    Empty,
    BadFormat,
    Private { target: Seq<char>, text: Seq<char> },
    File(Seq<char>),
    Command(Seq<char>),
    Room(Seq<char>),
}

impl View for Input {
    type V = InputModel;

    open spec fn view(&self) -> InputModel {
        match *self {
            Input::Empty => InputModel::Empty,
            Input::BadFormat => InputModel::BadFormat,
            Input::Private { target, text } => InputModel::Private { target: target@, text: text@ },
            Input::File(s) => InputModel::File(s@),
            Input::Command(s) => InputModel::Command(s@),
            Input::Room(s) => InputModel::Room(s@),
        }
    }
}

/// The message to a peer that `name text` asks for.
pub open spec fn private_input(rest: Seq<char>) -> InputModel {
    let p = text::split_at_most(rest, ' ', 2);
    if p.len() < 2 || p[0].len() == 0 || p[1].len() == 0 {
        InputModel::BadFormat
    } else {
        InputModel::Private { target: p[0], text: p[1] }
    }
}

/// What a line that was typed asks for.
pub open spec fn input_of(line: Seq<char>) -> InputModel {
    let msg = text::trimmed(line);
    if msg.len() == 0 {
        InputModel::Empty
    } else if server::tagged(msg, "/msg "@) {
        private_input(server::untagged(msg, "/msg "@))
    } else if server::tagged(msg, "/file "@) {
        InputModel::File(text::trimmed(server::untagged(msg, "/file "@)))
    } else if server::tagged(msg, "/"@) {
        InputModel::Command(msg)
    } else {
        InputModel::Room(msg)
    }
}

/// What a line that was typed asks for.
pub fn parse_input(line: &str) -> (r: Input)
    ensures
        r@ == input_of(line@),
{
    let msg = text::trim(line);
    if msg.as_str().is_empty() {
        return Input::Empty;
    }
    if let Some(rest) = text::strip_prefix(msg.as_str(), "/msg ") {
        let p = text::splitn(rest.as_str(), ' ', 2);
        let ghost ps = text::split_at_most(rest@, ' ', 2);
        if p.len() < 2 {
            return Input::BadFormat;
        }
        assert(ps[0] == p@[0]@ && ps[1] == p@[1]@);
        if p[0].as_str().is_empty() || p[1].as_str().is_empty() {
            return Input::BadFormat;
        }
        return Input::Private { target: p[0].clone(), text: p[1].clone() };
    }
    if let Some(rest) = text::strip_prefix(msg.as_str(), "/file ") {
        return Input::File(text::trim(rest.as_str()));
    }
    if text::starts_with(msg.as_str(), "/") {
        return Input::Command(msg);
    }
    Input::Room(msg)
}

/// The line that tells that no connection could be made.
pub fn connect_failed(reason: &str) -> (r: String)
    ensures
        r@ == "[ОШИБКА] Не удалось подключиться: "@ + reason@,
{
    text::cat("[ОШИБКА] Не удалось подключиться: ", reason)
}

/// The name of the user, for what was typed.
pub fn user_name(typed: &str) -> (r: String)
    ensures
        r@ == name_for(typed@),
        r@ == (if text::trimmed(typed@).len() == 0 {
            "Аноним"@
        } else {
            text::trimmed(typed@)
        }),
{
    let t = text::trim(typed);
    if t.as_str().is_empty() {
        text::own("Аноним")
    } else {
        t
    }
}

/// The name and the key in an item, as they stand.
fn parse_raw_pair(item: &str) -> (r: Option<(String, String)>)
    ensures
        r is Some <==> raw_pair(item@) is Some,
        r matches Some(p) ==> raw_pair(item@) == Some((p.0@, p.1@)),
{
    let cs = text::chars_of(item);
    assert(cs@.skip(0) =~= cs@);
    let at = text::find_from(&cs, ':', 0);
    let n = cs.len();
    if at < n {
        let a = text::text_of(&cs, 0, at);
        let b = text::text_of(&cs, at + 1, n);
        assert(a@ =~= item@.take(at as int));
        assert(b@ =~= item@.skip(at + 1));
        Some((a, b))
    } else {
        None
    }
}

/// Takes note of the keys in a list `[..]name:key;name:key`, in order.
pub fn note_keys(known: &mut Table, list: &str)
    ensures
        final(known)@ == known_after(old(known)@, peers::key_items(list@)),
{
    let cs = text::chars_of(list);
    assert(cs@.skip(0) =~= cs@);
    let n = cs.len();
    let at = text::find_from(&cs, ']', 0);
    let body = if at < n {
        text::text_of(&cs, at + 1, n)
    } else {
        text::own(list)
    };
    assert(body@ =~= peers::after_bracket(list@));
    let raw = text::split(body.as_str(), ';');
    let ghost items = peers::key_items(list@);
    let ghost start = known@;
    let mut i: usize = 0;
    assert(items.take(0) =~= Seq::empty());
    while i < raw.len()
        invariant
            i <= raw@.len(),
            items == text::views(raw@).map_values(|t: Seq<char>| text::trimmed(t)),
            known@ == known_after(start, items.take(i as int)),
        decreases raw@.len() - i,
    {
        let item = text::trim(raw[i].as_str());
        assert(item@ == items[i as int]);
        assert(items.take(i + 1).drop_last() =~= items.take(i as int));
        if let Some((name, key)) = parse_raw_pair(item.as_str()) {
            known.insert(name.as_str(), key.as_str());
        }
        i += 1;
    }
    assert(items.take(i as int) =~= items);
}

/// The members of the room that the server gave, but for ourselves; takes note
/// of the keys of all of them.
pub fn room_members(known: &mut Table, answer: Option<String>, username: &str) -> (r: Vec<
    (String, String),
>)
    ensures
        table::pairs(r@) == members_given(crypto::text_in(answer), username@),
        final(known)@ == (if peers::refused(crypto::text_in(answer)) {
            old(known)@
        } else {
            known_after(old(known)@, text::split_on(answer->0@, ';'))
        }),
{
    let mut r: Vec<(String, String)> = Vec::new();
    assert(table::pairs(r@) =~= Seq::empty());
    let list = match answer {
        Some(list) => list,
        None => return r,
    };
    if text::same(list.as_str(), "ERR") {
        return r;
    }
    let raw = text::split(list.as_str(), ';');
    let ghost items = text::split_on(list@, ';');
    let ghost start = known@;
    let mut i: usize = 0;
    assert(items.take(0) =~= Seq::empty());
    while i < raw.len()
        invariant
            i <= raw@.len(),
            items == text::views(raw@),
            known@ == known_after(start, items.take(i as int)),
            table::pairs(r@) == raw_others(items.take(i as int), username@),
        decreases raw@.len() - i,
    {
        assert(raw@[i as int]@ == items[i as int]);
        assert(items.take(i + 1).drop_last() =~= items.take(i as int));
        if let Some((name, key)) = parse_raw_pair(raw[i].as_str()) {
            known.insert(name.as_str(), key.as_str());
            if !text::same(name.as_str(), username) {
                let ghost before = r@;
                let ghost nk = (name@, key@);
                r.push((name, key));
                assert(table::pairs(r@) =~= table::pairs(before).push(nk));
            }
        }
        i += 1;
    }
    assert(items.take(i as int) =~= items);
    r
}

/// The line that is shown of a message frame.
fn line_of_message(m: MessageIn) -> (r: String)
    ensures
        r@ == message_line(m@),
{
    match m {
        MessageIn::Malformed => text::own("[ОШИБКА] Повреждённый кадр сообщения"),
        MessageIn::UnknownKey { sender } => text::cat3(
            "[",
            sender.as_str(),
            "]: (неизвестный публичный ключ)",
        ),
        MessageIn::Unreadable { sender } => text::cat3(
            "[",
            sender.as_str(),
            "]: (не удалось расшифровать — подмена/ключ)",
        ),
        MessageIn::Plain { sender, text } => {
            let mut r = text::cat3("[", sender.as_str(), "]: ");
            r.append(text.as_str());
            r
        },
    }
}

/// The line that is shown of a file from a peer.
fn line_of_file(sender: &str, fname: &str, rest: &str) -> (r: String)
    ensures
        r@ == file_line(sender@, fname@, rest@),
{
    let mut r = text::cat3("[", sender, "] отправил файл: ");
    r.append(fname);
    r.append(rest);
    r
}

/// The line that is shown of a file once it was saved, or could not be.
pub fn file_saved(sender: &str, fname: &str, base: &str, size: usize, saved: bool) -> (r: String)
    ensures
        r@ == saved_line(sender@, fname@, base@, size as nat, saved),
        r@ == (if saved {
            file_line(
                sender@,
                base@,
                " ("@ + text::decimal(size as nat) + " байт) — сохранён"@,
            )
        } else {
            file_line(sender@, fname@, ", но сохранить не удалось"@)
        }),
{
    if saved {
        let n = text::number(size as u64);
        let rest = text::cat3(" (", n.as_str(), " байт) — сохранён");
        line_of_file(sender, base, rest.as_str())
    } else {
        line_of_file(sender, fname, ", но сохранить не удалось")
    }
}

/// Appends a line.
fn show(lines: &mut Vec<String>, line: String)
    ensures
        text::views(final(lines)@) == text::views(old(lines)@).push(line@),
{
    lines.push(line);
    assert(text::views(lines@) =~= text::views(old(lines)@).push(line@));
}

/// The lines that tell of the members that a thing could not be encrypted to.
pub open spec fn failures(
    to: Seq<(Seq<char>, Seq<char>)>,
    what: Seq<char>,
    message: Seq<char>,
    pub_b64: Seq<char>,
) -> Seq<Seq<char>>
    decreases to.len(),
{
    if to.len() == 0 {
        Seq::empty()
    } else {
        let before = failures(to.drop_last(), what, message, pub_b64);
        if inbox::can_seal(message, to.last().1, pub_b64) {
            before
        } else {
            before.push(what + to.last().0)
        }
    }
}

/// Shows which members a thing could not be encrypted to.
fn show_failures(
    lines: &mut Vec<String>,
    targets: &Vec<(String, String)>,
    payloads: &Vec<Option<String>>,
    what: &str,
    Ghost(message): Ghost<Seq<char>>,
    Ghost(pub_b64): Ghost<Seq<char>>,
)
    requires
        payloads@.len() == targets@.len(),
        forall|i: int|
            0 <= i < targets@.len() ==> (#[trigger] payloads@[i] is Some <==> inbox::can_seal(
                message,
                table::pairs(targets@)[i].1,
                pub_b64,
            )),
    ensures
        text::views(final(lines)@) == text::views(old(lines)@) + failures(
            table::pairs(targets@),
            what@,
            message,
            pub_b64,
        ),
{
    let ghost to = table::pairs(targets@);
    let ghost start = text::views(lines@);
    let mut i: usize = 0;
    assert(to.take(0) =~= Seq::empty());
    assert(start + Seq::<Seq<char>>::empty() =~= start);
    while i < targets.len()
        invariant
            i <= targets@.len() == payloads@.len(),
            to == table::pairs(targets@),
            forall|k: int|
                0 <= k < targets@.len() ==> (#[trigger] payloads@[k] is Some <==> inbox::can_seal(
                    message,
                    to[k].1,
                    pub_b64,
                )),
            text::views(lines@) == start + failures(
                to.take(i as int),
                what@,
                message,
                pub_b64,
            ),
        decreases targets@.len() - i,
    {
        assert(to.take(i + 1).drop_last() =~= to.take(i as int));
        assert(to[i as int] == (targets@[i as int].0@, targets@[i as int].1@));
        let ghost before = failures(to.take(i as int), what@, message, pub_b64);
        if payloads[i].is_none() {
            let l = text::cat(what, targets[i].0.as_str());
            let ghost v = l@;
            show(lines, l);
            assert((start + before).push(v) =~= start + before.push(v));
        }
        i += 1;
    }
    assert(to.take(i as int) =~= to);
}

impl Console {
    /// A connection that is new: no key is known yet. The user is greeted.
    pub fn new(username: String, pub_b64: String, secret: [u8; 32], shared_key: [u8; 32]) -> (r: Console)
        ensures
            r.username@ == username@,
            r.pub_b64@ == pub_b64@,
            r.secret == secret,
            r.shared_key == shared_key,
            r.known@ == Map::<Seq<char>, Seq<char>>::empty(),
            r@.lines == seq![
                "Добро пожаловать, "@ + username@ + "!"@,
                "🔐 Авторизуйтесь: /login ник пароль или /register ник пароль пароль"@,
                "Команды: /join <комната>, /msg Имя текст, /file <путь>, /users, /rooms, /roommembers, /help, /exit"@,
            ],
    {
        let mut lines: Vec<String> = Vec::new();
        lines.push(text::cat3("Добро пожаловать, ", username.as_str(), "!"));
        lines.push(
            text::own("🔐 Авторизуйтесь: /login ник пароль или /register ник пароль пароль"),
        );
        lines.push(
            text::own(
                "Команды: /join <комната>, /msg Имя текст, /file <путь>, /users, /rooms, /roommembers, /help, /exit",
            ),
        );
        assert(text::views(lines@) =~= seq![
            "Добро пожаловать, "@ + username@ + "!"@,
            "🔐 Авторизуйтесь: /login ник пароль или /register ник пароль пароль"@,
            "Команды: /join <комната>, /msg Имя текст, /file <путь>, /users, /rooms, /roommembers, /help, /exit"@,
        ]);
        Console { username, pub_b64, secret, shared_key, known: Table::new(), lines }
    }

    /// The lines that were not shown yet.
    pub fn take_lines(&mut self) -> (r: Vec<String>)
        ensures
            r@ == old(self).lines@,
            final(self).lines@.len() == 0,
            final(self).known == old(self).known,
            same_client(*old(self), *final(self)),
    {
        let mut r: Vec<String> = Vec::new();
        std::mem::swap(&mut r, &mut self.lines);
        r
    }

    /// Deals with a frame.
    pub fn on_frame(&mut self, ftype: u8, payload: &[u8]) -> (r: FrameAction)
        ensures
            same_client(*old(self), *final(self)),
            exists|base: Seq<char>|
                (Turn { state: final(self)@, action: r@ }) == #[trigger] frame_turn(
                    *old(self),
                    ftype,
                    payload@,
                    base,
                ) && net::name_fits(ftype, payload@, base),
    {
        let ghost before = *self;
        let ghost none: Seq<char> = Seq::empty();
        if ftype == proto::TYPE_COMMAND {
            let r = match server::open_command(&self.shared_key, payload) {
                Some(t) => self.on_text(t.as_str()),
                None => FrameAction::Nothing,
            };
            assert(Turn { state: self@, action: r@ } == frame_turn(before, ftype, payload@, none));
            r
        } else if ftype == proto::TYPE_MESSAGE {
            let m = inbox::open_message(&self.known, &self.secret, payload);
            show(&mut self.lines, line_of_message(m));
            let r = FrameAction::Nothing;
            assert(Turn { state: self@, action: r@ } == frame_turn(before, ftype, payload@, none));
            r
        } else if ftype == proto::TYPE_FILE {
            let f = inbox::open_file(&self.known, &self.secret, payload);
            let ghost base = choose|base: Seq<char>|
                f@ == #[trigger] inbox::file_in(before.known@, before.secret@, payload@, base)
                    && net::name_fits(ftype, payload@, base);
            let r = self.on_file_in(f);
            assert(Turn { state: self@, action: r@ } == frame_turn(before, ftype, payload@, base));
            r
        } else {
            let r = FrameAction::Nothing;
            assert(Turn { state: self@, action: r@ } == frame_turn(before, ftype, payload@, none));
            r
        }
    }

    /// Deals with a text of the server.
    pub fn on_text(&mut self, t: &str) -> (r: FrameAction)
        ensures
            same_client(*old(self), *final(self)),
            (Turn { state: final(self)@, action: r@ }) == text_turn(
                old(self)@,
                t@,
                old(self).username@,
                old(self).pub_b64@,
            ),
    {
        if let Some(rest) = text::strip_prefix(t, "[RESP]") {
            return FrameAction::Answer(text::trim(rest.as_str()));
        }
        if text::starts_with(t, "[ПУБКЛЮЧИ]") || text::starts_with(t, "[НОВЫЙ]") {
            note_keys(&mut self.known, t);
            return FrameAction::Nothing;
        }
        if text::starts_with(t, "[AUTH]OK") {
            return FrameAction::Register(
                server::register_payload(self.username.as_str(), self.pub_b64.as_str()),
            );
        }
        show(&mut self.lines, text::own(t));
        FrameAction::Nothing
    }

    /// Deals with a file that was read of a frame.
    pub fn on_file_in(&mut self, f: FileIn) -> (r: FrameAction)
        ensures
            same_client(*old(self), *final(self)),
            final(self).known == old(self).known,
            final(self)@ == (match file_refusal(f@) {
                Some(l) => shown(old(self)@, l),
                None => old(self)@,
            }),
            r@ == net::file_action(f@),
    {
        match f {
            FileIn::Malformed => {
                show(&mut self.lines, text::own("[ОШИБКА] Повреждённый кадр файла"));
                FrameAction::Nothing
            },
            FileIn::UnknownKey { sender, fname } => {
                let l = line_of_file(sender.as_str(), fname.as_str(), ", но ключ неизвестен");
                show(&mut self.lines, l);
                FrameAction::Nothing
            },
            FileIn::Unreadable { sender, fname } => {
                let l = line_of_file(
                    sender.as_str(),
                    fname.as_str(),
                    ", но расшифровать не удалось",
                );
                show(&mut self.lines, l);
                FrameAction::Nothing
            },
            FileIn::BadName { sender, fname } => {
                let l = line_of_file(sender.as_str(), fname.as_str(), ", но имя недопустимо");
                show(&mut self.lines, l);
                FrameAction::Nothing
            },
            FileIn::Save { sender, fname, base, raw } => FrameAction::SaveFile {
                sender,
                fname,
                base,
                raw,
            },
        }
    }

    /// Begins what a line that was typed asks for.
    pub fn on_input(&mut self, input: Input) -> (r: NetAction)
        requires
            can_hold(input@),
        ensures
            same_client(*old(self), *final(self)),
            exists|payload: Seq<char>|
                (Turn { state: final(self)@, action: r@ }) == #[trigger] input_turn(
                    *old(self),
                    input@,
                    payload,
                ) && payload_fits(*old(self), private_of(*old(self), input@), payload),
    {
        let ghost before = *self;
        let ghost c = input@;
        let ghost none: Seq<char> = Seq::empty();
        match input {
            Input::Private { target, text } => match self.known.get(target.as_str()) {
                Some(key) => {
                    let r = self.send_private(target, text, Some(key));
                    proof {
                        let m = private_of(before, c);
                        let q = choose|q: Seq<char>|
                            (Turn { state: self@, action: r@ }) == #[trigger] private_turn(
                                before@,
                                m,
                                before.pub_b64@,
                                q,
                            ) && payload_fits(before, m, q);
                        assert(Turn { state: self@, action: r@ } == input_turn(before, c, q));
                    }
                    r
                },
                None => {
                    let r = NetAction::AskKey { target, text };
                    assert(Turn { state: self@, action: r@ } == input_turn(before, c, none));
                    r
                },
            },
            input => {
                let r = match input {
                    Input::BadFormat => {
                        show(
                            &mut self.lines,
                            text::own("[ОШИБКА] Формат: /msg Имя текст"),
                        );
                        NetAction::Done
                    },
                    Input::File(path) => NetAction::ReadFile { path },
                    Input::Command(t) => NetAction::Command(t),
                    Input::Room(text) => NetAction::AskRoom { text },
                    _ => NetAction::Done,
                };
                assert(Turn { state: self@, action: r@ } == input_turn(before, c, none));
                r
            },
        }
    }

    /// Seals a private message, where there is a key for it.
    fn send_private(&mut self, target: String, text: String, key: Option<String>) -> (r: NetAction)
        requires
            crypto::sealable(encode_utf8(text@).len()),
        ensures
            same_client(*old(self), *final(self)),
            exists|payload: Seq<char>|
                (Turn { state: final(self)@, action: r@ }) == #[trigger] private_turn(
                    old(self)@,
                    net::private_model(target, text, key),
                    old(self).pub_b64@,
                    payload,
                ) && payload_fits(*old(self), net::private_model(target, text, key), payload),
    {
        let ghost before = *self;
        let ghost none: Seq<char> = Seq::empty();
        let ghost m = net::private_model(target, text, key);
        match key {
            None => {
                let l = text::cat("[ОШИБКА] Не знаю публичный ключ для ", target.as_str());
                show(&mut self.lines, l);
                let r = NetAction::Done;
                assert(Turn { state: self@, action: r@ } == private_turn(
                    before@,
                    m,
                    before.pub_b64@,
                    none,
                ));
                r
            },
            Some(key) => {
                let sealed = inbox::message_payload(
                    self.username.as_str(),
                    target.as_str(),
                    text.as_str(),
                    key.as_str(),
                    self.pub_b64.as_str(),
                    &self.secret,
                );
                match sealed {
                    Some(payload) => {
                        let ghost q = payload@;
                        let r = NetAction::SendPrivate { target, text, payload };
                        assert(Turn { state: self@, action: r@ } == private_turn(
                            before@,
                            m,
                            before.pub_b64@,
                            q,
                        ));
                        assert(inbox::sealed_message(
                            author(before),
                            (m.target, m.key->0),
                            m.text,
                            q,
                        ));
                        r
                    },
                    None => {
                        let l = text::cat(
                            "[ОШИБКА] Не удалось зашифровать сообщение для ",
                            target.as_str(),
                        );
                        show(&mut self.lines, l);
                        let r = NetAction::Done;
                        assert(Turn { state: self@, action: r@ } == private_turn(
                            before@,
                            m,
                            before.pub_b64@,
                            none,
                        ));
                        r
                    },
                }
            },
        }
    }

    /// Goes on with a private message, with the key that the server gave.
    pub fn on_key(&mut self, target: String, text: String, answer: Option<String>) -> (r: NetAction)
        requires
            crypto::sealable(encode_utf8(text@).len()),
        ensures
            same_client(*old(self), *final(self)),
            exists|payload: Seq<char>|
                (Turn { state: final(self)@, action: r@ }) == #[trigger] private_turn(
                    after_key(old(self)@, target@, crypto::text_in(answer)),
                    net::key_model(target, text, answer),
                    old(self).pub_b64@,
                    payload,
                ) && payload_fits(*old(self), net::key_model(target, text, answer), payload),
    {
        let ghost before = *self;
        let ghost m = net::key_model(target, text, answer);
        let ghost c = after_key(self@, target@, crypto::text_in(answer));
        let key = match answer {
            Some(key) => if text::same(key.as_str(), "ERR") {
                None
            } else {
                self.known.insert(target.as_str(), key.as_str());
                Some(key)
            },
            None => None,
        };
        assert(self@ == c);
        assert(net::private_model(target, text, key) == m);
        let ghost middle = *self;
        let r = self.send_private(target, text, key);
        proof {
            let q = choose|q: Seq<char>|
                (Turn { state: self@, action: r@ }) == #[trigger] private_turn(
                    c,
                    m,
                    before.pub_b64@,
                    q,
                ) && payload_fits(middle, m, q);
            assert(payload_fits(before, m, q));
        }
        r
    }

    /// Tells the user what became of a private message.
    pub fn on_sent(&mut self, target: &str, text: &str, sent: bool)
        ensures
            same_client(*old(self), *final(self)),
            final(self)@ == (if sent {
                shown(old(self)@, "[Я] -> "@ + target@ + ": "@ + text@)
            } else {
                old(self)@
            }),
    {
        if sent {
            let mut l = text::cat3("[Я] -> ", target, ": ");
            l.append(text);
            show(&mut self.lines, l);
        }
    }

    /// Seals a message to the members of the room that the server gave: the
    /// payloads are to be sent as messages.
    pub fn on_room(&mut self, text: &str, answer: Option<String>) -> (r: Vec<Option<String>>)
        requires
            crypto::sealable(encode_utf8(text@).len()),
        ensures
            same_client(*old(self), *final(self)),
            ({
                let c = after_room(old(self)@, crypto::text_in(answer));
                let to = members_given(crypto::text_in(answer), old(self).username@);
                &&& inbox::messages_for(author(*old(self)), to, text@, r@)
                &&& final(self)@.known == c.known
                &&& final(self)@.lines == (c.lines + failures(
                    to,
                    "[ОШИБКА] Не удалось зашифровать сообщение для "@,
                    text@,
                    old(self).pub_b64@,
                )).push("[Я]: "@ + text@)
            }),
    {
        let targets = room_members(&mut self.known, answer, self.username.as_str());
        let r = inbox::message_payloads(
            self.username.as_str(),
            &targets,
            text,
            self.pub_b64.as_str(),
            &self.secret,
        );
        show_failures(
            &mut self.lines,
            &targets,
            &r,
            "[ОШИБКА] Не удалось зашифровать сообщение для ",
            Ghost(text@),
            Ghost(self.pub_b64@),
        );
        show(&mut self.lines, text::cat("[Я]: ", text));
        r
    }

    /// Prepares a file of the user, with its bytes where it could be read.
    pub fn on_file(&mut self, path: &str, raw: Option<Vec<u8>>) -> (r: NetAction)
        ensures
            same_client(*old(self), *final(self)),
            (Turn { state: final(self)@, action: r@ }) == file_read_turn(
                old(self)@,
                path@,
                primitives::bytes_in(raw),
            ),
            r matches NetAction::AskRoomForFile { fname, b64 } ==> crypto::sealable(
                encode_utf8(b64@).len(),
            ) && primitives::unbase64(b64@) == primitives::bytes_in(raw) && inbox::base64_text(b64@)
                && b64@.len() == primitives::base64_len(raw->0@.len()),
    {
        match raw {
            None => {
                show(&mut self.lines, text::cat("[ОШИБКА] Файл не найден: ", path));
                NetAction::Done
            },
            Some(raw) => match inbox::prepare_file(path, &raw) {
                None => {
                    show(
                        &mut self.lines,
                        text::own("[ОШИБКА] Файл слишком большой (до 400 КБ)"),
                    );
                    NetAction::Done
                },
                Some(o) => {
                    let Outgoing { fname, b64 } = o;
                    NetAction::AskRoomForFile { fname, b64 }
                },
            },
        }
    }

    /// Seals a file to the members of the room that the server gave: the
    /// payloads are to be sent as files.
    pub fn on_file_room(&mut self, fname: &str, b64: &str, answer: Option<String>) -> (r: Vec<
        Option<String>,
    >)
        requires
            crypto::sealable(encode_utf8(b64@).len()),
        ensures
            same_client(*old(self), *final(self)),
            ({
                let c = after_room(old(self)@, crypto::text_in(answer));
                let to = members_given(crypto::text_in(answer), old(self).username@);
                &&& inbox::files_for(author(*old(self)), to, fname@, b64@, r@)
                &&& final(self)@.known == c.known
                &&& final(self)@.lines == (c.lines + failures(
                    to,
                    "[ОШИБКА] Не удалось зашифровать файл для "@,
                    b64@,
                    old(self).pub_b64@,
                )).push("[Я] файл: "@ + fname@ + " отправлен в комнату"@)
            }),
    {
        let targets = room_members(&mut self.known, answer, self.username.as_str());
        let r = inbox::file_payloads(
            self.username.as_str(),
            &targets,
            fname,
            b64,
            self.pub_b64.as_str(),
            &self.secret,
        );
        show_failures(
            &mut self.lines,
            &targets,
            &r,
            "[ОШИБКА] Не удалось зашифровать файл для ",
            Ghost(b64@),
            Ghost(self.pub_b64@),
        );
        show(&mut self.lines, text::cat3("[Я] файл: ", fname, " отправлен в комнату"));
        r
    }
}

/// Whether a payload is that of a private message, where it can be sealed.
pub open spec fn payload_fits(c: Console, m: PrivateModel, payload: Seq<char>) -> bool {
    m.key is Some && inbox::can_seal(m.text, m.key->0, c.pub_b64@) ==> inbox::sealed_message(
        author(c),
        (m.target, m.key->0),
        m.text,
        payload,
    )
}

/// The private message that a line asks for, with the key that is known.
pub open spec fn private_of(c: Console, input: InputModel) -> PrivateModel {
    match input {
        InputModel::Private { target, text } => PrivateModel {
            target,
            text,
            key: table::lookup(c.known@, target),
        },
        _ => PrivateModel { target: Seq::empty(), text: Seq::empty(), key: None },
    }
}

/// What is done about a private message once the key of its target is known,
/// or cannot be had. `payload` stands for the message sealed to the target.
pub open spec fn private_turn(
    c: ConsoleModel,
    m: PrivateModel,
    pub_b64: Seq<char>,
    payload: Seq<char>,
) -> Turn<NetActionModel> {
    if m.key is None {
        Turn {
            state: shown(c, "[ОШИБКА] Не знаю публичный ключ для "@ + m.target),
            action: NetActionModel::Done,
        }
    } else if !inbox::can_seal(m.text, m.key->0, pub_b64) {
        Turn {
            state: shown(
                c,
                "[ОШИБКА] Не удалось зашифровать сообщение для "@ + m.target,
            ),
            action: NetActionModel::Done,
        }
    } else {
        Turn {
            state: c,
            action: NetActionModel::SendPrivate { target: m.target, text: m.text, payload },
        }
    }
}

/// Whether the encrypted form of what a line asks for fits into memory.
pub open spec fn can_hold(input: InputModel) -> bool {
    match input {
        InputModel::Private { target, text } => crypto::sealable(encode_utf8(text).len()),
        _ => true,
    }
}

/// What is done first about a line that was typed. `payload` stands for a
/// private message that is sealed.
pub open spec fn input_turn(c: Console, input: InputModel, payload: Seq<char>) -> Turn<
    NetActionModel,
> {
    match input {
        InputModel::Empty => Turn { state: c@, action: NetActionModel::Done },
        InputModel::BadFormat => Turn {
            state: shown(c@, "[ОШИБКА] Формат: /msg Имя текст"@),
            action: NetActionModel::Done,
        },
        InputModel::Private { target, text } => if c.known@.contains_key(target) {
            private_turn(c@, private_of(c, input), c.pub_b64@, payload)
        } else {
            Turn { state: c@, action: NetActionModel::AskKey { target, text } }
        },
        InputModel::File(path) => Turn {
            state: c@,
            action: NetActionModel::ReadFile { path },
        },
        InputModel::Command(t) => Turn { state: c@, action: NetActionModel::Command(t) },
        InputModel::Room(text) => Turn { state: c@, action: NetActionModel::AskRoom { text } },
    }
}

/// What is done about a file of the user, with its bytes where it was read.
pub open spec fn file_read_turn(c: ConsoleModel, path: Seq<char>, raw: Option<Seq<u8>>) -> Turn<
    NetActionModel,
> {
    match raw {
        None => Turn {
            state: shown(c, "[ОШИБКА] Файл не найден: "@ + path),
            action: NetActionModel::Done,
        },
        Some(raw) => if raw.len() > proto::MAX_FILE {
            Turn {
                state: shown(c, "[ОШИБКА] Файл слишком большой (до 400 КБ)"@),
                action: NetActionModel::Done,
            }
        } else {
            Turn {
                state: c,
                action: NetActionModel::AskRoomForFile {
                    fname: store::base_name(path),
                    b64: primitives::base64(raw),
                },
            }
        },
    }
}

/// A message of one console client reaches another: where the key that it was
/// sealed to is that of the receiver, and the receiver knows the sender's key,
/// the frame that carries it is shown to the receiver as the message, without
/// the white space at its end, and nothing else happens.
pub proof fn law_message_shown(
    sender: Console,
    receiver: Console,
    target: Seq<char>,
    key: Seq<char>,
    text: Seq<char>,
    payload: Seq<char>,
    base: Seq<char>,
)
    requires
        inbox::sealed_message(author(sender), (target, key), text, payload),
        crypto::key_bytes(sender.pub_b64@) == Some(primitives::x25519_public(sender.secret@)),
        crypto::key_bytes(key) == Some(primitives::x25519_public(receiver.secret@)),
        table::lookup(receiver.known@, sender.username@) == Some(sender.pub_b64@),
        inbox::field_text(sender.username@),
        inbox::field_text(target),
    ensures
        frame_turn(receiver, proto::TYPE_MESSAGE, encode_utf8(payload), base) == (Turn {
            state: shown(
                receiver@,
                "["@ + sender.username@ + "]: "@ + text::trim_back(text, text::Class::White),
            ),
            action: FrameActionModel::Nothing,
        }),
{
    inbox::law_message_read(
        author(sender),
        (target, key),
        text,
        payload,
        receiver.secret@,
        receiver.known@,
    );
}

/// A list of keys from the server is read item by item, and what was known of a
/// name is replaced by the key that stands last under it; the names that are
/// not in it keep their keys.
pub proof fn law_last_key_counts(
    known: Map<Seq<char>, Seq<char>>,
    nks: Seq<(Seq<char>, Seq<char>)>,
    name: Seq<char>,
)
    requires
        peers::all_listable(nks),
    ensures
        ({
            let after = known_after(known, peers::items_of(nks));
            &&& forall|i: int|
                0 <= i < nks.len() && (#[trigger] nks[i]).0 == name && (forall|j: int|
                    i < j < nks.len() ==> (#[trigger] nks[j]).0 != name) ==> after.contains_key(
                    name,
                ) && after[name] == nks[i].1
            &&& (forall|i: int| 0 <= i < nks.len() ==> (#[trigger] nks[i]).0 != name) ==> (
            after.contains_key(name) <==> known.contains_key(name)) && (known.contains_key(name)
                ==> after[name] == known[name])
        }),
    decreases nks.len(),
{
    if nks.len() > 0 {
        let d = nks.drop_last();
        assert(peers::listable(nks.last()));
        peers::lemma_item(nks.last());
        assert(raw_pair(peers::key_item(nks.last())) == Some(nks.last()));
        assert(peers::items_of(nks).drop_last() =~= peers::items_of(d));
        assert(peers::items_of(nks).last() == peers::key_item(nks.last()));
        assert forall|j: int| 0 <= j < d.len() implies peers::listable(#[trigger] d[j]) by {
            assert(d[j] == nks[j]);
        }
        law_last_key_counts(known, d, name);
        let before = known_after(known, peers::items_of(d));
        let after = known_after(known, peers::items_of(nks));
        assert(after == before.insert(nks.last().0, nks.last().1));
        assert forall|i: int|
            0 <= i < nks.len() && (#[trigger] nks[i]).0 == name && (forall|j: int|
                i < j < nks.len() ==> (#[trigger] nks[j]).0 != name) implies after.contains_key(
            name,
        ) && after[name] == nks[i].1 by {
            if i < d.len() {
                assert(d[i] == nks[i]);
                assert(nks[nks.len() - 1].0 != name);
                assert forall|j: int| i < j < d.len() implies (#[trigger] d[j]).0 != name by {
                    assert(d[j] == nks[j]);
                }
            }
        }
        if forall|i: int| 0 <= i < nks.len() ==> (#[trigger] nks[i]).0 != name {
            assert(nks[nks.len() - 1].0 != name);
            assert forall|j: int| 0 <= j < d.len() implies (#[trigger] d[j]).0 != name by {
                assert(d[j] == nks[j]);
            }
        }
    } else {
        assert(peers::items_of(nks) =~= Seq::empty());
    }
}

/// When the server announces keys, each name is known with the key that stands
/// last under it, whatever was known of it before; the other names keep their
/// keys; nothing is shown and nothing else changes.
pub proof fn law_announced_keys_known(
    c: ConsoleModel,
    nks: Seq<(Seq<char>, Seq<char>)>,
    i: int,
    other: Seq<char>,
    username: Seq<char>,
    pub_b64: Seq<char>,
)
    requires
        peers::all_listable(nks),
        0 <= i < nks.len(),
        forall|j: int| i < j < nks.len() ==> (#[trigger] nks[j]).0 != nks[i].0,
        forall|j: int| 0 <= j < nks.len() ==> (#[trigger] nks[j]).0 != other,
    ensures
        ({
            let list = text::joined(peers::items_of(nks), seq![';']);
            let a = text_turn(c, "[НОВЫЙ]"@ + list, username, pub_b64);
            let b = text_turn(c, "[ПУБКЛЮЧИ]"@ + list, username, pub_b64);
            &&& a.state.known.contains_key(nks[i].0) && a.state.known[nks[i].0] == nks[i].1
            &&& table::lookup(a.state.known, other) == table::lookup(c.known, other)
            &&& a.state == (ConsoleModel { known: a.state.known, ..c })
            &&& a.action == FrameActionModel::Nothing
            &&& b == a
        }),
{
    let list = text::joined(peers::items_of(nks), seq![';']);
    peers::law_announcement_read(nks);
    law_last_key_counts(c.known, nks, nks[i].0);
    law_last_key_counts(c.known, nks, other);
    lemma_tag("[НОВЫЙ]"@, list);
    lemma_tag("[ПУБКЛЮЧИ]"@, list);
    reveal_strlit("[НОВЫЙ]");
    reveal_strlit("[ПУБКЛЮЧИ]");
    reveal_strlit("[RESP]");
    lemma_no_tag("[НОВЫЙ]"@ + list, "[RESP]"@, 1);
    lemma_no_tag("[ПУБКЛЮЧИ]"@ + list, "[RESP]"@, 1);
}

proof fn lemma_tag(tag: Seq<char>, rest: Seq<char>)
    ensures
        server::tagged(tag + rest, tag),
        server::untagged(tag + rest, tag) == rest,
{
    assert((tag + rest).subrange(0, tag.len() as int) =~= tag);
    assert((tag + rest).skip(tag.len() as int) =~= rest);
}

proof fn lemma_no_tag(t: Seq<char>, tag: Seq<char>, i: int)
    requires
        0 <= i < tag.len(),
        i >= t.len() || t[i] != tag[i],
    ensures
        !server::tagged(t, tag),
{
    if server::tagged(t, tag) {
        assert(t.subrange(0, tag.len() as int)[i] == t[i]);
    }
}

/// The members of a room are those in the list that the server gives, in order,
/// with their keys, but for ourselves; where it refuses there are none, and
/// nothing is learned.
pub proof fn law_members_but_us(
    c: ConsoleModel,
    nks: Seq<(Seq<char>, Seq<char>)>,
    me: Seq<char>,
    i: int,
)
    requires
        peers::all_listable(nks),
        0 <= i < nks.len(),
        forall|j: int| i < j < nks.len() ==> (#[trigger] nks[j]).0 != nks[i].0,
    ensures
        ({
            let list = text::joined(peers::items_of(nks), seq![';']);
            &&& members_given(Some(list), me) == nks.filter(
                |nk: (Seq<char>, Seq<char>)| nk.0 != me,
            )
            &&& after_room(c, Some(list)).known.contains_key(nks[i].0)
            &&& after_room(c, Some(list)).known[nks[i].0] == nks[i].1
            &&& members_given(None, me).len() == 0 && members_given(Some("ERR"@), me).len() == 0
            &&& after_room(c, None) == c && after_room(c, Some("ERR"@)) == c
        }),
{
    peers::law_refusals(nks);
    peers::lemma_list_items(nks);
    lemma_raw_others(nks, me);
    law_last_key_counts(c.known, nks, nks[i].0);
}

proof fn lemma_raw_others(nks: Seq<(Seq<char>, Seq<char>)>, me: Seq<char>)
    requires
        peers::all_listable(nks),
    ensures
        raw_others(peers::items_of(nks), me) == nks.filter(
            |nk: (Seq<char>, Seq<char>)| nk.0 != me,
        ),
    decreases nks.len(),
{
    reveal(Seq::filter);
    if nks.len() > 0 {
        let d = nks.drop_last();
        assert(peers::listable(nks.last()));
        peers::lemma_item(nks.last());
        assert(peers::items_of(nks).drop_last() =~= peers::items_of(d));
        assert forall|j: int| 0 <= j < d.len() implies peers::listable(#[trigger] d[j]) by {
            assert(d[j] == nks[j]);
        }
        lemma_raw_others(d, me);
    }
}

/// A text of the server that is no answer, no list of keys and no login is
/// shown as it stands; an answer goes to who asked; after the login the own name
/// and key are made known again. None of them changes what is known.
pub proof fn law_server_heard(c: ConsoleModel, t: Seq<char>, name: Seq<char>, key: Seq<char>)
    ensures
        t.len() == 0 || t[0] != '[' ==> text_turn(c, t, name, key) == (Turn {
            state: ConsoleModel { lines: c.lines.push(t), ..c },
            action: FrameActionModel::Nothing,
        }),
        text_turn(c, "[RESP]"@ + t, name, key) == (Turn {
            state: c,
            action: FrameActionModel::Answer(text::trimmed(t)),
        }),
        text_turn(c, "[AUTH]OK"@ + t, name, key) == (Turn {
            state: c,
            action: FrameActionModel::Register(name + seq!['\0'] + key),
        }),
        text_turn(c, "[ОШИБКА]"@ + t, name, key) == (Turn {
            state: ConsoleModel { lines: c.lines.push("[ОШИБКА]"@ + t), ..c },
            action: FrameActionModel::Nothing,
        }),
{
    reveal_strlit("[НОВЫЙ]");
    reveal_strlit("[ПУБКЛЮЧИ]");
    reveal_strlit("[RESP]");
    reveal_strlit("[AUTH]OK");
    reveal_strlit("[ОШИБКА]");
    lemma_tag("[RESP]"@, t);
    lemma_tag("[AUTH]OK"@, t);
    let a = "[AUTH]OK"@ + t;
    let e = "[ОШИБКА]"@ + t;
    lemma_no_tag(a, "[RESP]"@, 1);
    lemma_no_tag(a, "[ПУБКЛЮЧИ]"@, 1);
    lemma_no_tag(a, "[НОВЫЙ]"@, 1);
    lemma_no_tag(e, "[RESP]"@, 1);
    lemma_no_tag(e, "[ПУБКЛЮЧИ]"@, 1);
    lemma_no_tag(e, "[НОВЫЙ]"@, 1);
    lemma_no_tag(e, "[AUTH]OK"@, 1);
    if t.len() == 0 || t[0] != '[' {
        lemma_no_tag(t, "[RESP]"@, 0);
        lemma_no_tag(t, "[ПУБКЛЮЧИ]"@, 0);
        lemma_no_tag(t, "[НОВЫЙ]"@, 0);
        lemma_no_tag(t, "[AUTH]OK"@, 0);
    }
}

/// What the user types is told apart: `/msg` with a name and a text is for that
/// peer, `/file` with a path is that file, another line with a slash in front
/// is a command, and any other line is for the room. White space around a line
/// does not count.
pub proof fn law_input_told_apart(line: Seq<char>, name: Seq<char>, text: Seq<char>)
    requires
        name.len() > 0,
        !name.contains(' '),
        text.len() > 0,
        !text::is_white(text[text.len() - 1]),
        line.len() > 0,
        !text::is_white(line[0]),
        !text::is_white(line[line.len() - 1]),
    ensures
        input_of("/msg "@ + (name + seq![' '] + text)) == (InputModel::Private {
            target: name,
            text,
        }),
        input_of("/file "@ + text) == InputModel::File(text::trimmed(text)),
        line[0] != '/' ==> input_of(line) == InputModel::Room(line),
        line[0] == '/' && !"/msg "@.is_prefix_of(line) && !"/file "@.is_prefix_of(line)
            ==> input_of(line) == InputModel::Command(line),
        input_of(seq![' '] + line + seq!['\n']) == input_of(line),
        input_of(Seq::empty()) == InputModel::Empty,
{
    reveal_strlit("/msg ");
    reveal_strlit("/file ");
    reveal_strlit("/");
    let rest = name + seq![' '] + text;
    let m = "/msg "@ + rest;
    assert(m.last() == text[text.len() - 1]);
    text::lemma_trimmed_same(m);
    lemma_tag("/msg "@, rest);
    text::lemma_split_at_most_first(name, ' ', text, 2);
    assert(text::split_at_most(text, ' ', 1) =~= seq![text]);
    let f = "/file "@ + text;
    assert(f.last() == text[text.len() - 1]);
    text::lemma_trimmed_same(f);
    lemma_tag("/file "@, text);
    lemma_no_tag(f, "/msg "@, 1);
    text::lemma_trimmed_same(line);
    if line[0] != '/' {
        lemma_no_tag(line, "/msg "@, 0);
        lemma_no_tag(line, "/file "@, 0);
        lemma_no_tag(line, "/"@, 0);
    } else {
        assert(line.subrange(0, 1) =~= "/"@);
    }
    let padded = seq![' '] + line + seq!['\n'];
    let half = line + seq!['\n'];
    assert(padded.drop_first() =~= half);
    assert(text::trim_front(half, text::Class::White) == half);
    assert(text::trim_front(padded, text::Class::White) == half);
    assert(half.drop_last() =~= line);
    assert(text::trim_back(line, text::Class::White) == line);
    assert(text::trim_back(half, text::Class::White) == line);
    let none: Seq<char> = Seq::empty();
    assert(text::trimmed(none) =~= none);
}

/// A message to a peer without a name or without a text is refused.
pub proof fn law_bad_message_refused(name: Seq<char>)
    requires
        !name.contains(' '),
        name.len() > 0,
        !text::is_white(name[name.len() - 1]),
    ensures
        input_of("/msg "@ + name) == InputModel::BadFormat,
        input_of("/msg "@ + (seq![' '] + name)) == InputModel::BadFormat,
{
    reveal_strlit("/msg ");
    let none: Seq<char> = Seq::empty();
    let a = "/msg "@ + name;
    let b = "/msg "@ + (seq![' '] + name);
    assert(a.last() == name[name.len() - 1]);
    assert(b.last() == name[name.len() - 1]);
    text::lemma_trimmed_same(a);
    text::lemma_trimmed_same(b);
    lemma_tag("/msg "@, name);
    lemma_tag("/msg "@, seq![' '] + name);
    text::lemma_index_of_is(name, ' ', name.len() as int);
    text::lemma_split_at_most_first(none, ' ', name, 2);
    assert(none + seq![' '] + name =~= seq![' '] + name);
}

/// A line for a peer whose key is known is sealed to that key; where none is
/// known, it is asked for, for that peer and that text. A line for the room
/// asks for its members; a command goes to the server as it stands.
pub proof fn law_input_acted_on(
    c: Console,
    target: Seq<char>,
    text: Seq<char>,
    payload: Seq<char>,
)
    ensures
        ({
            let m = InputModel::Private { target, text };
            &&& !c.known@.contains_key(target) ==> input_turn(c, m, payload) == (Turn {
                state: c@,
                action: NetActionModel::AskKey { target, text },
            })
            &&& c.known@.contains_key(target) && inbox::can_seal(
                text,
                c.known@[target],
                c.pub_b64@,
            ) && payload_fits(c, private_of(c, m), payload) ==> input_turn(c, m, payload) == (
            Turn {
                state: c@,
                action: NetActionModel::SendPrivate { target, text, payload },
            }) && inbox::sealed_message(
                (inbox::Author { name: c.username@, key: c.pub_b64@, secret: c.secret@ }),
                (target, c.known@[target]),
                text,
                payload,
            )
            &&& input_turn(c, InputModel::Room(text), payload) == (Turn {
                state: c@,
                action: NetActionModel::AskRoom { text },
            })
            &&& input_turn(c, InputModel::Command(text), payload) == (Turn {
                state: c@,
                action: NetActionModel::Command(text),
            })
            &&& input_turn(c, InputModel::File(text), payload) == (Turn {
                state: c@,
                action: NetActionModel::ReadFile { path: text },
            })
            &&& input_turn(c, InputModel::Empty, payload) == (Turn {
                state: c@,
                action: NetActionModel::Done,
            })
        }),
{
}

/// The key that the server gives for a peer is known from then on, and no
/// other key changes; a refusal changes nothing.
pub proof fn law_given_key_known(
    c: ConsoleModel,
    name: Seq<char>,
    key: Seq<char>,
    other: Seq<char>,
)
    requires
        key != "ERR"@,
        other != name,
    ensures
        after_key(c, name, Some(key)).known.contains_key(name),
        after_key(c, name, Some(key)).known[name] == key,
        table::lookup(after_key(c, name, Some(key)).known, other) == table::lookup(c.known, other),
        after_key(c, name, Some(key)).lines == c.lines,
        after_key(c, name, Some("ERR"@)) == c,
        after_key(c, name, None) == c,
{
}

proof fn lemma_piece(a: Seq<char>, b: Seq<char>, c: Seq<char>)
    ensures
        text::has_piece(a + b + c, b),
{
    let k = a.len() as int;
    assert((a + b + c).subrange(k, k + b.len()) =~= b);
}

/// Every message that names a sender is shown with it; one that is read ends in
/// its text, and one that cannot be read shows nothing of it and is no line that
/// a text without brackets could give.
pub proof fn law_message_lines(sender: Seq<char>, text: Seq<char>)
    ensures
        text::has_piece(message_line(MessageModel::Plain { sender, text }), sender),
        text.is_suffix_of(message_line(MessageModel::Plain { sender, text })),
        message_line(MessageModel::Plain { sender, text }).len() == sender.len() + text.len() + 4,
        text::has_piece(message_line(MessageModel::UnknownKey { sender }), sender),
        text::has_piece(message_line(MessageModel::Unreadable { sender }), sender),
        message_line(MessageModel::UnknownKey { sender }) != message_line(
            MessageModel::Unreadable { sender },
        ),
{
    reveal_strlit("[");
    reveal_strlit("]: ");
    reveal_strlit("]: (неизвестный публичный ключ)");
    reveal_strlit("]: (не удалось расшифровать — подмена/ключ)");
    let t = "["@ + sender + "]: "@ + text;
    lemma_piece("["@, sender, "]: "@ + text);
    assert("["@ + sender + ("]: "@ + text) =~= t);
    assert(t.subrange(t.len() - text.len(), t.len() as int) =~= text);
    lemma_piece("["@, sender, "]: (неизвестный публичный ключ)"@);
    lemma_piece("["@, sender, "]: (не удалось расшифровать — подмена/ключ)"@);
    assert(message_line(MessageModel::UnknownKey { sender }).len() != message_line(
        MessageModel::Unreadable { sender },
    ).len());
}

/// A file that is not saved is told of, with who sent it and its name; one that
/// is to be saved is not told of yet.
pub proof fn law_file_lines(
    sender: Seq<char>,
    fname: Seq<char>,
    rest: Seq<char>,
    base: Seq<char>,
    raw: Seq<u8>,
)
    ensures
        text::has_piece(file_line(sender, fname, rest), sender),
        text::has_piece(file_line(sender, fname, rest), fname),
        rest.is_suffix_of(file_line(sender, fname, rest)),
        file_refusal(FileModel::Malformed) is Some,
        file_refusal(FileModel::UnknownKey { sender, fname }) == Some(
            file_line(sender, fname, ", но ключ неизвестен"@),
        ),
        file_refusal(FileModel::Unreadable { sender, fname }) == Some(
            file_line(sender, fname, ", но расшифровать не удалось"@),
        ),
        file_refusal(FileModel::BadName { sender, fname }) == Some(
            file_line(sender, fname, ", но имя недопустимо"@),
        ),
        file_refusal(FileModel::Save { sender, fname, base, raw }) is None,
{
    let a = "["@;
    let b = "] отправил файл: "@;
    let t = a + sender + b + fname + rest;
    lemma_piece(a, sender, b + fname + rest);
    assert(a + sender + (b + fname + rest) =~= t);
    lemma_piece(a + sender + b, fname, rest);
    assert(t.subrange(t.len() - rest.len(), t.len() as int) =~= rest);
}

/// The user is told of each member that a thing could not be encrypted to, in
/// order and by name, and of no other.
pub proof fn law_failures_told(
    to: Seq<(Seq<char>, Seq<char>)>,
    what: Seq<char>,
    message: Seq<char>,
    pub_b64: Seq<char>,
)
    ensures
        failures(to, what, message, pub_b64) == to.filter(
            |nk: (Seq<char>, Seq<char>)| !inbox::can_seal(message, nk.1, pub_b64),
        ).map_values(|nk: (Seq<char>, Seq<char>)| what + nk.0),
    decreases to.len(),
{
    reveal(Seq::filter);
    let f = |nk: (Seq<char>, Seq<char>)| !inbox::can_seal(message, nk.1, pub_b64);
    let g = |nk: (Seq<char>, Seq<char>)| what + nk.0;
    if to.len() == 0 {
        assert(to.filter(f).map_values(g) =~= Seq::empty());
    } else {
        let d = to.drop_last();
        law_failures_told(d, what, message, pub_b64);
        if f(to.last()) {
            assert(to.filter(f) == d.filter(f).push(to.last()));
            assert(to.filter(f).map_values(g) =~= d.filter(f).map_values(g).push(g(to.last())));
        }
    }
}

/// A frame of a sort that is not known, and a command that does not decrypt
/// under the key shared with the server, do nothing.
pub proof fn law_strange_frames_ignored(c: Console, ftype: u8, payload: Seq<u8>, base: Seq<char>)
    ensures
        ftype != 77 && ftype != 67 && ftype != 70 ==> frame_turn(c, ftype, payload, base) == (
        Turn { state: c@, action: FrameActionModel::Nothing }),
        crypto::opened_text(c.shared_key@, text::lossy(payload), Seq::empty()) is None
            ==> frame_turn(c, 67, payload, base) == (Turn {
            state: c@,
            action: FrameActionModel::Nothing,
        }),
{
}

/// A file of at most 400000 bytes is sent whole, under the last part of its
/// path; of a longer one, and of one that cannot be read, the user is told.
pub proof fn law_file_sent(c: ConsoleModel, dir: Seq<char>, name: Seq<char>, raw: Seq<u8>)
    requires
        dir.len() == 0 || dir[dir.len() - 1] == '/' || dir[dir.len() - 1] == '\\',
        !name.contains('/'),
        !name.contains('\\'),
    ensures
        raw.len() <= 400_000 ==> file_read_turn(c, dir + name, Some(raw)) == (Turn {
            state: c,
            action: NetActionModel::AskRoomForFile { fname: name, b64: primitives::base64(raw) },
        }),
        raw.len() > 400_000 ==> file_read_turn(c, dir + name, Some(raw)).action
            == NetActionModel::Done && file_read_turn(c, dir + name, Some(raw)).state.lines.len()
            == c.lines.len() + 1,
        file_read_turn(c, dir + name, None).action == NetActionModel::Done,
        (exists|t: Seq<char>|
            file_read_turn(c, dir + name, None).state == (ConsoleModel {
                lines: c.lines.push(t),
                ..c
            }) && #[trigger] text::has_piece(t, dir + name)),
{
    store::law_base_name(dir, name);
    let none: Seq<char> = Seq::empty();
    let a = "[ОШИБКА] Файл не найден: "@;
    lemma_piece(a, dir + name, none);
    assert(a + (dir + name) + none =~= a + (dir + name));
    assert(text::has_piece(a + (dir + name), dir + name));
}

/// A private message without a key, or that cannot be encrypted, is not sent,
/// and the user is told for whom it was.
pub proof fn law_unsent_told(
    c: ConsoleModel,
    target: Seq<char>,
    text: Seq<char>,
    key: Seq<char>,
    pub_b64: Seq<char>,
    payload: Seq<char>,
)
    ensures
        ({
            let r = private_turn(c, PrivateModel { target, text, key: None }, pub_b64, payload);
            &&& r.action == NetActionModel::Done
            &&& exists|t: Seq<char>|
                r.state == (ConsoleModel { lines: c.lines.push(t), ..c })
                    && #[trigger] text::has_piece(t, target)
        }),
        ({
            let r = private_turn(
                c,
                PrivateModel { target, text, key: Some(key) },
                pub_b64,
                payload,
            );
            &&& !inbox::can_seal(text, key, pub_b64) ==> r.action == NetActionModel::Done && exists|
                t: Seq<char>,
            |
                r.state == (ConsoleModel { lines: c.lines.push(t), ..c })
                    && #[trigger] text::has_piece(t, target)
            &&& inbox::can_seal(text, key, pub_b64) ==> r == (Turn {
                state: c,
                action: NetActionModel::SendPrivate { target, text, payload },
            })
        }),
{
    let none: Seq<char> = Seq::empty();
    let a = "[ОШИБКА] Не знаю публичный ключ для "@;
    let b = "[ОШИБКА] Не удалось зашифровать сообщение для "@;
    lemma_piece(a, target, none);
    lemma_piece(b, target, none);
    assert(a + target + none =~= a + target);
    assert(b + target + none =~= b + target);
    assert(text::has_piece(a + target, target));
    assert(text::has_piece(b + target, target));
}

/// The name of the user, for what was typed.
pub open spec fn name_for(typed: Seq<char>) -> Seq<char> {
    if text::trimmed(typed).len() == 0 {
        "Аноним"@
    } else {
        text::trimmed(typed)
    }
}

/// The user goes by the name that was typed, without white space around it, and
/// never by an empty one.
pub proof fn law_name_for(typed: Seq<char>)
    ensures
        name_for(typed).len() > 0,
        text::trimmed(typed).len() > 0 ==> name_for(typed) == text::trimmed(typed),
        text::trimmed(typed).len() == 0 ==> name_for(typed) == "Аноним"@,
{
    reveal_strlit("Аноним");
}

/// The line that is shown of a file once it was saved, or could not be.
pub open spec fn saved_line(
    sender: Seq<char>,
    fname: Seq<char>,
    base: Seq<char>,
    size: nat,
    saved: bool,
) -> Seq<char> {
    if saved {
        file_line(sender, base, " ("@ + text::decimal(size) + " байт) — сохранён"@)
    } else {
        file_line(sender, fname, ", но сохранить не удалось"@)
    }
}

/// Of a file that was saved the user is told who sent it, the name that it was
/// saved under and its size; of one that could not be, the name that came.
pub proof fn law_saved_line(sender: Seq<char>, fname: Seq<char>, base: Seq<char>, size: nat)
    ensures
        text::has_piece(saved_line(sender, fname, base, size, true), sender),
        text::has_piece(saved_line(sender, fname, base, size, true), base),
        text::has_piece(saved_line(sender, fname, base, size, true), text::decimal(size)),
        " байт) — сохранён"@.is_suffix_of(saved_line(sender, fname, base, size, true)),
        text::has_piece(saved_line(sender, fname, base, size, false), sender),
        text::has_piece(saved_line(sender, fname, base, size, false), fname),
        ", но сохранить не удалось"@.is_suffix_of(saved_line(sender, fname, base, size, false)),
{
    let raw: Seq<u8> = Seq::empty();
    let n = text::decimal(size);
    let tail = " байт) — сохранён"@;
    let rest = " ("@ + n + tail;
    law_file_lines(sender, base, rest, base, raw);
    law_file_lines(sender, fname, ", но сохранить не удалось"@, base, raw);
    let t = file_line(sender, base, rest);
    let front = "["@ + sender + "] отправил файл: "@ + base + " ("@;
    assert(t =~= front + n + tail);
    lemma_piece(front, n, tail);
    assert(t.subrange(t.len() - tail.len(), t.len() as int) =~= tail);
}

/// An item without a colon names no key: it is passed over, and so it adds no
/// member.
pub proof fn law_item_without_key(
    known: Map<Seq<char>, Seq<char>>,
    items: Seq<Seq<char>>,
    x: Seq<char>,
    me: Seq<char>,
)
    requires
        !x.contains(':'),
    ensures
        known_after(known, items.push(x)) == known_after(known, items),
        raw_others(items.push(x), me) == raw_others(items, me),
{
    text::lemma_index_of(x, ':');
    let all = items.push(x);
    assert(all.drop_last() =~= items);
    assert(all.last() == x);
}

} // verus!
