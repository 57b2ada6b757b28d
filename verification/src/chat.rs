//! Chats and their messages, and the users that the server lists.

use crate::text;
use vstd::prelude::*;

verus! {

/// The chat that holds what the server and the client itself say.
pub const SYS_CHAT: &'static str = "\u{1f4e1} Сервер";

/// The chat of the common room.
pub const ROOM_CHAT: &'static str = "# Общая комната";

/// The most messages that a chat keeps.
pub const MSGS_MAX: usize = 3000;

/// How many of the oldest messages go when there are more.
pub const MSGS_DROPPED: usize = 1000;

/// An ordinary message.
pub const KIND_TEXT: u8 = 0;

/// An error.
pub const KIND_ERROR: u8 = 2;

/// A warning.
pub const KIND_WARNING: u8 = 3;

/// A file.
pub const KIND_FILE: u8 = 4;

/// A message in a chat.
pub struct Msg {
    pub mine: bool,
    pub sender: String,
    pub text: String,
    pub kind: u8,
    /// Hours and minutes.
    pub time: String,
    /// Year, month and day.
    pub date: String,
    /// Each reaction with the number of those who gave it.
    pub reactions: Vec<(String, usize)>,
    pub read: bool,
}

/// The texts of a `Msg`.
pub struct MsgModel {
    pub mine: bool,
    pub sender: Seq<char>,
    pub text: Seq<char>,
    pub kind: u8,
    pub time: Seq<char>,
    pub date: Seq<char>,
    pub reactions: Seq<(Seq<char>, usize)>,
    pub read: bool,
}

impl View for Msg {
    type V = MsgModel;

    open spec fn view(&self) -> MsgModel {
        MsgModel {
            mine: self.mine,
            sender: self.sender@,
            text: self.text@,
            kind: self.kind,
            time: self.time@,
            date: self.date@,
            reactions: self.reactions@.map_values(|p: (String, usize)| (p.0@, p.1)),
            read: self.read,
        }
    }
}

/// The texts of a list of messages.
pub open spec fn msg_views(v: Seq<Msg>) -> Seq<MsgModel> {
    v.map_values(|m: Msg| m@)
}

/// The time of day, the date, and a count of nanoseconds that never goes back.
pub struct Clock {
    pub now: u64,
    pub time: String,
    pub date: String,
}

/// The texts of a `Clock`.
pub struct ClockModel {
    pub now: u64,
    pub time: Seq<char>,
    pub date: Seq<char>,
}

impl View for Clock {
    type V = ClockModel;

    open spec fn view(&self) -> ClockModel {
        ClockModel { now: self.now, time: self.time@, date: self.date@ }
    }
}

/// A chat with a peer or of a room.
pub struct Chat {
    /// For a peer, its @username.
    pub id: String,
    pub msgs: Vec<Msg>,
    pub unread: usize,
    pub is_room: bool,
    /// When the last message came.
    pub last_activity: u64,
}

/// The contents of a `Chat`.
pub struct ChatModel {
    pub id: Seq<char>,
    pub msgs: Seq<MsgModel>,
    pub unread: nat,
    pub is_room: bool,
    pub last_activity: u64,
}

impl View for Chat {
    type V = ChatModel;

    open spec fn view(&self) -> ChatModel {
        ChatModel {
            id: self.id@,
            msgs: msg_views(self.msgs@),
            unread: self.unread as nat,
            is_room: self.is_room,
            last_activity: self.last_activity,
        }
    }
}

/// The contents of a list of chats.
pub open spec fn chat_views(v: Seq<Chat>) -> Seq<ChatModel> {
    v.map_values(|c: Chat| c@)
}

/// A chat without messages.
pub open spec fn empty_chat(id: Seq<char>, is_room: bool, now: u64) -> ChatModel {
    ChatModel { id, msgs: Seq::empty(), unread: 0, is_room, last_activity: now }
}

/// The messages that are kept: where there are too many, the oldest go.
pub open spec fn capped(s: Seq<MsgModel>) -> Seq<MsgModel> {
    if s.len() > MSGS_MAX {
        s.skip(MSGS_DROPPED as int)
    } else {
        s
    }
}

/// A chat with one message more. It counts as unread where `seen` is false.
pub open spec fn with_msg(c: ChatModel, m: MsgModel, seen: bool, now: u64) -> ChatModel {
    ChatModel {
        msgs: capped(c.msgs.push(m)),
        unread: if seen {
            c.unread
        } else {
            c.unread + 1
        },
        last_activity: now,
        ..c
    }
}

/// What the list of chats shows of a chat: its last message.
pub open spec fn preview(c: ChatModel) -> Seq<char> {
    if c.msgs.len() == 0 {
        "Нет сообщений"@
    } else {
        let m = c.msgs.last();
        let who = if m.mine {
            "Вы: "@
        } else {
            m.sender
        };
        if m.kind == KIND_FILE {
            (if m.mine {
                who
            } else {
                Seq::empty()
            }) + "📎 "@ + m.text
        } else if m.kind != KIND_TEXT {
            m.text
        } else {
            text::trim_back(who, text::Class::Only(':')) + ": "@ + m.text
        }
    }
}

/// One line of an exported chat.
pub open spec fn export_line(m: MsgModel) -> Seq<char> {
    "["@ + m.date + " "@ + m.time + "] "@ + (if m.mine {
        "Вы"@
    } else {
        m.sender
    }) + ": "@ + m.text
}

/// The text of an exported chat: a heading, then a line for each message.
pub open spec fn exported(c: ChatModel) -> Seq<char> {
    "MeshMessenger — Экспорт чата «"@ + c.id + "»\n"@ + "========================================"@
        + "\n\n"@ + text::joined(c.msgs.map_values(|m: MsgModel| export_line(m)), "\n"@)
}

/// The name of the file that a chat is exported to.
pub open spec fn export_name_of(id: Seq<char>, stamp: Seq<char>) -> Seq<char> {
    "mesh_export_"@ + text::replaced(
        text::replaced(id, ' ', "_"@),
        '#',
        Seq::empty(),
    ) + "_"@ + stamp + ".txt"@
}

impl Chat {
    /// A chat without messages.
    pub fn new(id: String, is_room: bool, now: u64) -> (r: Chat)
        ensures
            r@ == empty_chat(id@, is_room, now),
    {
        let msgs: Vec<Msg> = Vec::new();
        assert(msg_views(msgs@) =~= Seq::empty());
        Chat { id, msgs, unread: 0, is_room, last_activity: now }
    }

    /// Adds a message. It counts as unread where `seen` is false.
    pub fn add_msg(&mut self, m: Msg, seen: bool, now: u64)
        requires
            !seen ==> old(self).unread < usize::MAX,
        ensures
            final(self)@ == with_msg(old(self)@, m@, seen, now),
    {
        let ghost before = self.msgs@;
        self.msgs.push(m);
        assert(msg_views(self.msgs@) =~= msg_views(before).push(m@));
        self.last_activity = now;
        if !seen {
            self.unread = self.unread + 1;
        }
        if self.msgs.len() > MSGS_MAX {
            let ghost all = self.msgs@;
            let rest = self.msgs.split_off(MSGS_DROPPED);
            self.msgs = rest;
            assert(msg_views(self.msgs@) =~= msg_views(all).skip(MSGS_DROPPED as int));
        }
    }

    /// What the list of chats shows of the chat: its last message.
    pub fn last_preview(&self) -> (r: String)
        ensures
            r@ == preview(self@),
    {
        let n = self.msgs.len();
        if n == 0 {
            return text::own("Нет сообщений");
        }
        let m = &self.msgs[n - 1];
        assert(self@.msgs.last() == m@);
        if m.kind == KIND_FILE {
            let mut r = if m.mine {
                text::own("Вы: ")
            } else {
                String::new()
            };
            r.append("📎 ");
            r.append(m.text.as_str());
            r
        } else if m.kind != KIND_TEXT {
            m.text.clone()
        } else {
            let who = if m.mine {
                text::own("Вы: ")
            } else {
                m.sender.clone()
            };
            let mut r = text::trim_end_of(who.as_str(), text::Class::Only(':'));
            r.append(": ");
            r.append(m.text.as_str());
            r
        }
    }

    /// The text of the chat, exported.
    pub fn export_text(&self) -> (r: String)
        ensures
            r@ == exported(self@),
    {
        let mut lines: Vec<String> = Vec::new();
        let ghost want = self@.msgs.map_values(|m: MsgModel| export_line(m));
        let mut i: usize = 0;
        while i < self.msgs.len()
            invariant
                i <= self.msgs@.len(),
                want == self@.msgs.map_values(|m: MsgModel| export_line(m)),
                text::views(lines@) == want.take(i as int),
            decreases self.msgs@.len() - i,
        {
            let m = &self.msgs[i];
            assert(self@.msgs[i as int] == m@);
            let mut l = text::cat3("[", m.date.as_str(), " ");
            l.append(m.time.as_str());
            l.append("] ");
            if m.mine {
                l.append("Вы");
            } else {
                l.append(m.sender.as_str());
            }
            l.append(": ");
            l.append(m.text.as_str());
            let ghost before = lines@;
            let ghost lv = l@;
            lines.push(l);
            assert(text::views(lines@) =~= text::views(before).push(lv));
            assert(want.take(i + 1) =~= want.take(i as int).push(want[i as int]));
            i += 1;
        }
        assert(want.take(i as int) =~= want);
        let mut r = text::cat3(
            "MeshMessenger — Экспорт чата «",
            self.id.as_str(),
            "»\n",
        );
        r.append("========================================");
        r.append("\n\n");
        r.append(text::join(&lines, "\n").as_str());
        r
    }
}

/// The name of the file that a chat is exported to.
pub fn export_name(id: &str, stamp: &str) -> (r: String)
    ensures
        r@ == export_name_of(id@, stamp@),
{
    let a = text::replace(id, ' ', "_");
    let none = String::new();
    let b = text::replace(a.as_str(), '#', none.as_str());
    let mut r = text::cat3("mesh_export_", b.as_str(), "_");
    r.append(stamp);
    r.append(".txt");
    r
}

/// A user that the server lists.
pub struct User {
    pub nick: String,
    /// The @username.
    pub at: String,
    pub online: bool,
}

/// The texts of a `User`.
pub struct UserModel {
    pub nick: Seq<char>,
    pub at: Seq<char>,
    pub online: bool,
}

impl View for User {
    type V = UserModel;

    open spec fn view(&self) -> UserModel {
        UserModel { nick: self.nick@, at: self.at@, online: self.online }
    }
}

/// The texts of a list of users.
pub open spec fn user_models(v: Seq<User>) -> Seq<UserModel> {
    v.map_values(|u: User| u@)
}

/// The name under which a user is shown.
pub open spec fn shown_name(u: UserModel) -> Seq<char> {
    if u.nick.len() == 0 {
        u.at
    } else {
        u.nick
    }
}

impl User {
    /// The name under which the user is shown: the nick, where there is one.
    pub fn display(&self) -> (r: &str)
        ensures
            r@ == shown_name(self@),
    {
        if self.nick.as_str().is_empty() {
            self.at.as_str()
        } else {
            self.nick.as_str()
        }
    }
}

/// A message that comes stands last in its chat, after those that were there;
/// only where there are three thousand already, the oldest thousand go. It
/// counts as unread where it was not seen; the chat is as recent as it is.
pub proof fn law_message_added(c: ChatModel, m: MsgModel, seen: bool, now: u64)
    ensures
        ({
            let r = with_msg(c, m, seen, now);
            &&& r.msgs.len() > 0 && r.msgs[r.msgs.len() - 1] == m
            &&& c.msgs.len() < 3000 ==> r.msgs.drop_last() == c.msgs
            &&& c.msgs.len() >= 3000 ==> r.msgs.drop_last() == c.msgs.skip(1000)
            &&& r.id == c.id && r.is_room == c.is_room && r.last_activity == now
            &&& seen ==> r.unread == c.unread
            &&& !seen ==> r.unread == c.unread + 1
        }),
{
    let r = with_msg(c, m, seen, now);
    if c.msgs.len() < 3000 {
        assert(r.msgs.drop_last() =~= c.msgs);
    } else {
        assert(r.msgs.drop_last() =~= c.msgs.skip(1000));
    }
}

/// The list of chats shows the last message of a chat: an ordinary one after
/// who wrote it, a file after its mark, anything else by itself.
pub proof fn law_preview_shows_last(c: ChatModel, m: MsgModel)
    requires
        c.msgs.len() > 0,
        m == c.msgs[c.msgs.len() - 1],
        m.sender.len() == 0 || m.sender[m.sender.len() - 1] != ':',
    ensures
        m.kind == 0 && !m.mine ==> preview(c) == m.sender + ": "@ + m.text,
        m.kind == 0 && m.mine ==> "Вы:"@.is_prefix_of(preview(c)) && m.text.is_suffix_of(
            preview(c),
        ),
        m.kind == 4 && !m.mine ==> preview(c) == "📎 "@ + m.text,
        m.kind == 4 && m.mine ==> preview(c) == "Вы: "@ + "📎 "@ + m.text,
        m.kind != 0 && m.kind != 4 ==> preview(c) == m.text,
{
    reveal_strlit("Вы: ");
    reveal_strlit("Вы:");
    if m.kind == 0 && m.mine {
        let p = preview(c);
        assert(p.subrange(0, 3) =~= "Вы:"@);
        assert(p.subrange(p.len() - m.text.len(), p.len() as int) =~= m.text);
    }
    let none: Seq<char> = Seq::empty();
    assert(none + "📎 "@ + m.text =~= "📎 "@ + m.text);
}

/// A chat without messages says so in the list of chats.
pub proof fn law_empty_preview(id: Seq<char>, is_room: bool, now: u64)
    ensures
        preview(empty_chat(id, is_room, now)) == "Нет сообщений"@,
        empty_chat(id, is_room, now).id == id,
        empty_chat(id, is_room, now).is_room == is_room,
        empty_chat(id, is_room, now).unread == 0,
        empty_chat(id, is_room, now).last_activity == now,
{
}

/// One message more makes one line more at the end of an exported chat: the
/// date, the time, who wrote it, and the text; the rest stays as it is.
pub proof fn law_exported_line_by_line(c: ChatModel, m: MsgModel)
    requires
        c.msgs.len() > 0,
    ensures
        ({
            let line = seq!['['] + m.date + seq![' '] + m.time + "] "@ + (if m.mine {
                "Вы"@
            } else {
                m.sender
            }) + ": "@ + m.text;
            &&& exported(ChatModel { msgs: c.msgs.push(m), ..c }) == exported(c) + seq!['\n']
                + line
            &&& c.msgs.len() == 1 && c.msgs[0] == m ==> text::has_piece(exported(c), line)
            &&& text::has_piece(exported(c), c.id)
        }),
{
    reveal_strlit("\n");
    reveal_strlit("[");
    reveal_strlit(" ");
    let f = |m: MsgModel| export_line(m);
    let d = ChatModel { msgs: c.msgs.push(m), ..c };
    let a = c.msgs.map_values(f);
    let b = d.msgs.map_values(f);
    let line = seq!['['] + m.date + seq![' '] + m.time + "] "@ + (if m.mine {
        "Вы"@
    } else {
        m.sender
    }) + ": "@ + m.text;
    assert(line =~= export_line(m));
    assert(b.drop_last() =~= a);
    assert(b.last() == line);
    assert("\n"@ =~= seq!['\n']);
    assert(exported(d) =~= exported(c) + seq!['\n'] + line);
    let h = "MeshMessenger — Экспорт чата «"@;
    let n = h.len() as int;
    assert(exported(c).subrange(n, n + c.id.len()) =~= c.id);
    if c.msgs.len() == 1 && c.msgs[0] == m {
        let e = exported(c);
        let k = e.len() - line.len();
        assert(a[0] == line);
        assert(text::joined(a, "\n"@) == line);
        assert(e.subrange(k, k + line.len()) =~= line);
    }
}

/// The file that a chat is exported to is named after the chat and the time,
/// without spaces and without the mark of a room.
pub proof fn law_export_name(id: Seq<char>, stamp: Seq<char>)
    requires
        !stamp.contains(' '),
        !stamp.contains('#'),
    ensures
        !export_name_of(id, stamp).contains(' '),
        !export_name_of(id, stamp).contains('#'),
        text::has_piece(export_name_of(id, stamp), stamp),
        !id.contains(' ') && !id.contains('#') ==> export_name_of(id, stamp) == "mesh_export_"@ + id
            + "_"@ + stamp + ".txt"@,
{
    reveal_strlit("mesh_export_");
    reveal_strlit("_");
    reveal_strlit(".txt");
    let none: Seq<char> = Seq::empty();
    let a = text::replaced(id, ' ', "_"@);
    let b = text::replaced(a, '#', none);
    text::law_replaced(id, none, ' ', "_"@);
    text::law_replaced(a, none, '#', none);
    lemma_replaced_lacks(a, '#', none, ' ');
    let r = export_name_of(id, stamp);
    let k = 12 + b.len() as int + 1;
    assert forall|i: int| 0 <= i < r.len() implies r[i] != ' ' && r[i] != '#' by {
        if 12 <= i < 12 + b.len() {
            assert(b.contains(b[i - 12]));
        } else if k <= i < k + stamp.len() {
            assert(stamp.contains(stamp[i - k]));
        }
    }
    assert(r.subrange(k, k + stamp.len()) =~= stamp);
}

proof fn lemma_replaced_lacks(s: Seq<char>, c: char, with: Seq<char>, x: char)
    requires
        !s.contains(x),
        !with.contains(x),
    ensures
        !text::replaced(s, c, with).contains(x),
    decreases s.len(),
{
    if s.len() > 0 {
        let d = s.drop_last();
        assert(s.contains(s.last()));
        if d.contains(x) {
            let i = choose|i: int| 0 <= i < d.len() && d[i] == x;
            assert(s[i] == x);
        }
        lemma_replaced_lacks(d, c, with, x);
        let r = text::replaced(d, c, with);
        let t = text::replaced(s, c, with);
        if t.contains(x) {
            let i = choose|i: int| 0 <= i < t.len() && t[i] == x;
            if i < r.len() {
                assert(r[i] == x);
            } else if s.last() == c {
                assert(with[i - r.len()] == x);
            }
        }
    }
}

/// A user is shown by the nick, and by the @username where there is no nick.
pub proof fn law_user_shown(u: UserModel)
    ensures
        u.nick.len() > 0 ==> shown_name(u) == u.nick,
        u.nick.len() == 0 ==> shown_name(u) == u.at,
{
}

} // verus!
