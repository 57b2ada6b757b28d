//! What is shown of the state: which chats and users, in which order, and how
//! the messages of a chat are grouped.

use crate::chat;
use crate::chat::{ChatModel, Msg, MsgModel, User, UserModel};
use crate::client;
use crate::client::{AppModel, MeshApp};
use crate::text;
use vstd::prelude::*;

verus! {

/// Whether a text is found by a query in lower case.
pub open spec fn found(s: Seq<char>, query: Seq<char>) -> bool {
    query.len() == 0 || text::has_piece(text::lowercase(s), query)
}

/// Whether a chat is listed for a query, among the rooms or among the chats
/// with peers. A chat with a peer is found by the name of the peer too.
pub open spec fn listed(a: AppModel, i: int, query: Seq<char>, rooms: bool) -> bool {
    let c = a.chats.list[i];
    c.is_room == rooms && (found(c.id, query) || (!rooms && found(
        client::name_of(a, c.id),
        query,
    )))
}

/// Whether a chat stands before another in the list: the one with the later
/// message; of two of one time, the first of them.
pub open spec fn stands_before(list: Seq<ChatModel>, i: int, j: int) -> bool {
    list[i].last_activity > list[j].last_activity || (list[i].last_activity
        == list[j].last_activity && i < j)
}

/// Whether rows are the chats that are listed, each once, in order.
pub open spec fn rows_of(rows: Seq<usize>, a: AppModel, query: Seq<char>, rooms: bool) -> bool {
    &&& forall|k: int|
        0 <= k < rows.len() ==> (#[trigger] rows[k]) < a.chats.list.len() && listed(
            a,
            rows[k] as int,
            query,
            rooms,
        )
    &&& forall|i: int|
        0 <= i < a.chats.list.len() && #[trigger] listed(a, i, query, rooms) ==> rows.contains(
            i as usize,
        )
    &&& forall|k: int, l: int|
        0 <= k < l < rows.len() ==> stands_before(
            a.chats.list,
            #[trigger] rows[k] as int,
            #[trigger] rows[l] as int,
        )
}

/// The users that are found by a query and are in one state, in order.
pub open spec fn users_found(users: Seq<UserModel>, query: Seq<char>, online: bool) -> Seq<UserModel>
    decreases users.len(),
{
    if users.len() == 0 {
        Seq::empty()
    } else {
        let before = users_found(users.drop_last(), query, online);
        let u = users.last();
        if u.online == online && (found(u.nick, query) || found(u.at, query)) {
            before.push(u)
        } else {
            before
        }
    }
}

/// Whether a message is shown for a query in lower case.
pub open spec fn msg_found(m: MsgModel, query: Seq<char>) -> bool {
    found(m.text, query) || found(m.sender, query)
}

/// Which of the messages are shown for a query, in order.
pub open spec fn msgs_found(msgs: Seq<MsgModel>, query: Seq<char>) -> Seq<int>
    decreases msgs.len(),
{
    if msgs.len() == 0 {
        Seq::empty()
    } else {
        let before = msgs_found(msgs.drop_last(), query);
        if msg_found(msgs.last(), query) {
            before.push(msgs.len() - 1)
        } else {
            before
        }
    }
}

/// How a message is shown.
#[derive(Clone, Copy, PartialEq, Eq, Structural, Debug)]
pub struct Row {
    /// Which of the messages of the chat.
    pub index: usize,
    /// Whether its date stands above it.
    pub dated: bool,
    /// Whether it is the first of several messages of one sender.
    pub first: bool,
    /// Whether it is the last of several messages of one sender.
    pub last: bool,
}

/// Whether two messages belong together: of one sender, on one day.
pub open spec fn together(a: MsgModel, b: MsgModel) -> bool {
    a.sender == b.sender && a.mine == b.mine && a.date == b.date
}

/// How a message is shown after the one that is shown before it.
pub open spec fn row_of(msgs: Seq<MsgModel>, before: Option<int>, i: int) -> Row {
    let m = msgs[i];
    Row {
        index: i as usize,
        dated: match before {
            Some(b) => m.date != msgs[b].date,
            None => m.date.len() > 0,
        },
        first: match before {
            Some(b) => !together(msgs[b], m),
            None => true,
        },
        last: i + 1 >= msgs.len() || !together(msgs[i + 1], m),
    }
}

/// The message that is shown before the `k`th, if any.
pub open spec fn shown_before(shown: Seq<int>, k: int) -> Option<int> {
    if k > 0 {
        Some(shown[k - 1])
    } else {
        None
    }
}

/// What sort of bubble a message has.
#[derive(Clone, Copy, PartialEq, Eq, Structural, Debug)]
pub enum Tone {
    Error,
    Warning,
    Mine,
    Other,
}

/// The marks below an own message.
#[derive(Clone, Copy, PartialEq, Eq, Structural, Debug)]
pub enum Ticks {
    Absent,
    Sent,
    Read,
}

/// How the bubble of a message looks.
#[derive(Clone, Copy, PartialEq, Eq, Structural, Debug)]
pub struct Bubble {
    pub tone: Tone,
    /// Whether the sender is named in it.
    pub named: bool,
    pub ticks: Ticks,
}

/// How the bubble of a message looks: the sender is named in the first of
/// several messages, unless they are our own or no ordinary ones.
pub open spec fn bubble(m: MsgModel, first: bool) -> Bubble {
    Bubble {
        tone: if m.kind == chat::KIND_ERROR {
            Tone::Error
        } else if m.kind == chat::KIND_WARNING {
            Tone::Warning
        } else if m.mine {
            Tone::Mine
        } else {
            Tone::Other
        },
        named: first && !m.mine && m.kind == chat::KIND_TEXT && m.sender.len() > 0,
        ticks: if !m.mine || m.kind != chat::KIND_TEXT {
            Ticks::Absent
        } else if m.read {
            Ticks::Read
        } else {
            Ticks::Sent
        },
    }
}

/// What is shown below the name of the open chat.
pub open spec fn status_of(a: AppModel) -> Seq<char> {
    let c = a.chats.list[a.chats.active];
    let i = client::find_user(a.users, c.id);
    if c.is_room {
        "комната · E2E 🔒"@
    } else if types(a) {
        "печатает…"@
    } else if i < a.users.len() && a.users[i].online {
        "в сети"@
    } else {
        "не в сети"@
    }
}

/// Whether the peer of the open chat types.
pub open spec fn types(a: AppModel) -> bool {
    a.typing_from is Some && (a.typing_from->0).0 == a.chats.list[a.chats.active].id
}

/// The name under which a chat is shown.
pub open spec fn chat_title_of(a: AppModel, i: int) -> Seq<char> {
    let c = a.chats.list[i];
    if c.is_room {
        c.id
    } else {
        client::name_of(a, c.id)
    }
}

/// Whether a text is found by a query in lower case.
fn finds(s: &str, query: &str) -> (r: bool)
    ensures
        r == found(s@, query@),
{
    query.is_empty() || text::contains(text::to_lowercase(s).as_str(), query)
}

/// Puts a chat into the rows at its place among those that stand before it in
/// the list of chats.
fn insert_row(app: &MeshApp, rows: &mut Vec<usize>, i: usize)
    requires
        i < app.chats.list@.len(),
        forall|k: int| 0 <= k < old(rows)@.len() ==> #[trigger] old(rows)@[k] < i,
        forall|k: int, l: int|
            0 <= k < l < old(rows)@.len() ==> stands_before(
                app@.chats.list,
                #[trigger] old(rows)@[k] as int,
                #[trigger] old(rows)@[l] as int,
            ),
    ensures
        final(rows)@.len() == old(rows)@.len() + 1,
        forall|k: int, l: int|
            0 <= k < l < final(rows)@.len() ==> stands_before(
                app@.chats.list,
                #[trigger] final(rows)@[k] as int,
                #[trigger] final(rows)@[l] as int,
            ),
        forall|k: int|
            0 <= k < final(rows)@.len() ==> #[trigger] final(rows)@[k] == i || old(rows)@.contains(
                final(rows)@[k],
            ),
        final(rows)@.contains(i),
        forall|x: usize| #[trigger] old(rows)@.contains(x) ==> final(rows)@.contains(x),
{
    let ghost list = app@.chats.list;
    let ghost before = rows@;
    let mut at: usize = 0;
    let t = app.chats.list[i].last_activity;
    assert(list[i as int].last_activity == t);
    while at < rows.len() && app.chats.list[rows[at]].last_activity >= t
        invariant
            at <= rows@.len(),
            rows@ == before,
            list == app@.chats.list,
            i < app.chats.list@.len(),
            forall|k: int| 0 <= k < before.len() ==> #[trigger] before[k] < i,
            forall|k: int|
                0 <= k < at ==> list[#[trigger] before[k] as int].last_activity >= t,
        decreases rows@.len() - at,
    {
        assert(list[before[at as int] as int] == app.chats.list@[before[at as int] as int]@);
        at += 1;
    }
    rows.insert(at, i);
    proof {
        let after = rows@;
        if at < before.len() {
            assert(list[before[at as int] as int] == app.chats.list@[before[at as int] as int]@);
            assert(list[before[at as int] as int].last_activity < t);
        }
        assert forall|k: int, l: int| 0 <= k < l < after.len() implies stands_before(
            list,
            #[trigger] after[k] as int,
            #[trigger] after[l] as int,
        ) by {
            if l < at {
                assert(after[k] == before[k] && after[l] == before[l]);
            } else if l == at {
                assert(after[k] == before[k]);
            } else if k < at {
                assert(after[k] == before[k] && after[l] == before[l - 1]);
            } else if k == at {
                assert(after[l] == before[l - 1]);
                if l - 1 > at {
                    assert(stands_before(list, before[at as int] as int, before[l - 1] as int));
                }
            } else {
                assert(after[k] == before[k - 1] && after[l] == before[l - 1]);
            }
        }
        assert forall|k: int| 0 <= k < after.len() implies #[trigger] after[k] == i
            || before.contains(after[k]) by {
            if k < at {
                assert(after[k] == before[k]);
            } else if k > at {
                assert(after[k] == before[k - 1]);
            }
        }
        assert(after[at as int] == i);
        assert forall|x: usize| #[trigger] before.contains(x) implies after.contains(x) by {
            let k = choose|k: int| 0 <= k < before.len() && before[k] == x;
            if k < at {
                assert(after[k] == x);
            } else {
                assert(after[k + 1] == x);
            }
        }
    }
}

impl MeshApp {
    /// The rooms that are listed for what is searched, those with the latest
    /// messages first.
    pub fn room_rows(&self) -> (r: Vec<usize>)
        ensures
            rows_of(r@, self@, text::lowercase(self@.search), true),
    {
        self.chat_rows(true)
    }

    /// The chats with peers that are listed for what is searched, those with
    /// the latest messages first.
    pub fn private_rows(&self) -> (r: Vec<usize>)
        ensures
            rows_of(r@, self@, text::lowercase(self@.search), false),
    {
        self.chat_rows(false)
    }

    /// The chats that are listed for what is searched, those with the latest
    /// messages first.
    fn chat_rows(&self, rooms: bool) -> (r: Vec<usize>)
        ensures
            rows_of(r@, self@, text::lowercase(self@.search), rooms),
    {
        let query = text::to_lowercase(self.search.as_str());
        let ghost list = self@.chats.list;
        let mut r: Vec<usize> = Vec::new();
        let mut i: usize = 0;
        while i < self.chats.list.len()
            invariant
                i <= self.chats.list@.len(),
                query@ == text::lowercase(self@.search),
                list == self@.chats.list,
                forall|k: int|
                    0 <= k < r@.len() ==> #[trigger] r@[k] < i && listed(
                        self@,
                        r@[k] as int,
                        query@,
                        rooms,
                    ),
                forall|j: int|
                    0 <= j < i && #[trigger] listed(self@, j, query@, rooms) ==> r@.contains(
                        j as usize,
                    ),
                forall|k: int, l: int|
                    0 <= k < l < r@.len() ==> stands_before(
                        list,
                        #[trigger] r@[k] as int,
                        #[trigger] r@[l] as int,
                    ),
            decreases self.chats.list@.len() - i,
        {
            let c = &self.chats.list[i];
            assert(list[i as int] == c@);
            let ghost before = r@;
            if c.is_room == rooms && (finds(c.id.as_str(), query.as_str()) || (!rooms && finds(
                self.display_name(c.id.as_str()).as_str(),
                query.as_str(),
            ))) {
                insert_row(self, &mut r, i);
                assert forall|k: int| 0 <= k < r@.len() implies #[trigger] r@[k] < i + 1 && listed(
                    self@,
                    r@[k] as int,
                    query@,
                    rooms,
                ) by {
                    if r@[k] != i {
                        let o = choose|o: int| 0 <= o < before.len() && before[o] == r@[k];
                        assert(before[o] < i);
                    }
                }
                assert forall|j: int|
                    0 <= j < i + 1 && #[trigger] listed(
                        self@,
                        j,
                        query@,
                        rooms,
                    ) implies r@.contains(j as usize) by {
                    if j < i {
                        assert(before.contains(j as usize));
                    }
                }
            }
            i += 1;
        }
        r
    }

    /// The users that are found by what is searched, those that are online
    /// first.
    pub fn user_rows(&self) -> (r: Vec<User>)
        ensures
            chat::user_models(r@) == users_found(
                self@.users,
                text::lowercase(self@.search),
                true,
            ) + users_found(self@.users, text::lowercase(self@.search), false),
    {
        let mut r = self.users_in_state(true);
        let mut more = self.users_in_state(false);
        let ghost a = r@;
        let ghost b = more@;
        r.append(&mut more);
        assert(chat::user_models(r@) =~= chat::user_models(a) + chat::user_models(b));
        r
    }

    /// The users that are found by what is searched and are in one state.
    fn users_in_state(&self, online: bool) -> (r: Vec<User>)
        ensures
            chat::user_models(r@) == users_found(
                self@.users,
                text::lowercase(self@.search),
                online,
            ),
    {
        let query = text::to_lowercase(self.search.as_str());
        let ghost us = self@.users;
        let mut r: Vec<User> = Vec::new();
        let mut i: usize = 0;
        assert(us.take(0) =~= Seq::empty());
        assert(chat::user_models(r@) =~= Seq::empty());
        while i < self.users.len()
            invariant
                i <= self.users@.len(),
                us == chat::user_models(self.users@),
                query@ == text::lowercase(self@.search),
                chat::user_models(r@) == users_found(us.take(i as int), query@, online),
            decreases self.users@.len() - i,
        {
            assert(us.take(i + 1).drop_last() =~= us.take(i as int));
            let u = &self.users[i];
            assert(us[i as int] == u@);
            if u.online == online && (finds(u.nick.as_str(), query.as_str()) || finds(
                u.at.as_str(),
                query.as_str(),
            )) {
                let ghost before = r@;
                r.push(User { nick: u.nick.clone(), at: u.at.clone(), online: u.online });
                assert(chat::user_models(r@) =~= chat::user_models(before).push(us[i as int]));
            }
            i += 1;
        }
        assert(us.take(i as int) =~= us);
        r
    }

    /// How the messages of the open chat are shown, those that are found by
    /// what is searched in it.
    pub fn message_rows(&self) -> (r: Vec<Row>)
        requires
            client::wf(self@),
        ensures
            ({
                let msgs = self@.chats.list[self@.chats.active].msgs;
                let shown = msgs_found(msgs, text::lowercase(self@.search_in_chat));
                &&& r@.len() == shown.len()
                &&& forall|k: int|
                    0 <= k < r@.len() ==> #[trigger] r@[k] == row_of(
                        msgs,
                        shown_before(shown, k),
                        shown[k],
                    )
            }),
    {
        let query = text::to_lowercase(self.search_in_chat.as_str());
        let msgs = &self.chats.list[self.chats.active].msgs;
        let r = rows_for(msgs, query.as_str());
        assert(self@.chats.list[self@.chats.active].msgs == chat::msg_views(msgs@));
        r
    }

    /// What is shown below the name of the open chat.
    pub fn chat_status(&self) -> (r: String)
        requires
            client::wf(self@),
        ensures
            r@ == status_of(self@),
    {
        let c = &self.chats.list[self.chats.active];
        assert(self@.chats.list[self@.chats.active] == c@);
        if c.is_room {
            return text::own("комната · E2E 🔒");
        }
        if self.peer_types() {
            return text::own("печатает…");
        }
        let i = self.user_index(c.id.as_str());
        if i < self.users.len() {
            assert(self@.users[i as int] == self.users@[i as int]@);
            if self.users[i].online {
                return text::own("в сети");
            }
        }
        text::own("не в сети")
    }

    /// Whether the peer of the open chat types.
    pub fn peer_types(&self) -> (r: bool)
        requires
            client::wf(self@),
        ensures
            r == types(self@),
    {
        let c = &self.chats.list[self.chats.active];
        assert(self@.chats.list[self@.chats.active] == c@);
        match &self.typing_from {
            Some(t) => text::same(t.0.as_str(), c.id.as_str()),
            None => false,
        }
    }

    /// The name under which a chat is shown.
    pub fn chat_title(&self, i: usize) -> (r: String)
        requires
            i < self.chats.list@.len(),
        ensures
            r@ == chat_title_of(self@, i as int),
    {
        let c = &self.chats.list[i];
        assert(self@.chats.list[i as int] == c@);
        if c.is_room {
            c.id.clone()
        } else {
            self.display_name(c.id.as_str())
        }
    }

    /// The name under which the owner of a fingerprint is shown.
    pub fn key_owner(&self, name: &str) -> (r: String)
        ensures
            r@ == owner_of_key(self@, name@),
            r@ == (if name@ == self@.me {
                self@.my_nick + " (вы)"@
            } else {
                client::name_of(self@, name@)
            }),
    {
        if text::same(name, self.me.as_str()) {
            text::cat(self.my_nick.as_str(), " (вы)")
        } else {
            self.display_name(name)
        }
    }
}

/// How the bubble of a message looks.
pub fn bubble_of(m: &Msg, first: bool) -> (r: Bubble)
    ensures
        r == bubble(m@, first),
{
    let tone = if m.kind == chat::KIND_ERROR {
        Tone::Error
    } else if m.kind == chat::KIND_WARNING {
        Tone::Warning
    } else if m.mine {
        Tone::Mine
    } else {
        Tone::Other
    };
    let ticks = if !m.mine || m.kind != chat::KIND_TEXT {
        Ticks::Absent
    } else if m.read {
        Ticks::Read
    } else {
        Ticks::Sent
    };
    let named = first && !m.mine && m.kind == chat::KIND_TEXT && !m.sender.as_str().is_empty();
    Bubble { tone, named, ticks }
}

/// Whether two messages belong together.
fn are_together(a: &Msg, b: &Msg) -> (r: bool)
    ensures
        r == together(a@, b@),
{
    a.mine == b.mine && text::same(a.sender.as_str(), b.sender.as_str()) && text::same(
        a.date.as_str(),
        b.date.as_str(),
    )
}

/// How messages are shown, those that are found by a query in lower case.
fn rows_for(msgs: &Vec<Msg>, query: &str) -> (r: Vec<Row>)
    ensures
        ({
            let ms = chat::msg_views(msgs@);
            let shown = msgs_found(ms, query@);
            &&& r@.len() == shown.len()
            &&& forall|k: int|
                0 <= k < r@.len() ==> #[trigger] r@[k] == row_of(
                    ms,
                    shown_before(shown, k),
                    shown[k],
                )
        }),
{
    let ghost ms = chat::msg_views(msgs@);
    let n = msgs.len();
    let mut r: Vec<Row> = Vec::new();
    let mut prev: Option<usize> = None;
    let mut i: usize = 0;
    assert(ms.take(0) =~= Seq::empty());
    while i < n
        invariant
            i <= n == msgs@.len(),
            ms == chat::msg_views(msgs@),
            r@.len() == msgs_found(ms.take(i as int), query@).len(),
            forall|k: int|
                0 <= k < r@.len() ==> #[trigger] r@[k] == row_of(
                    ms,
                    shown_before(msgs_found(ms.take(i as int), query@), k),
                    msgs_found(ms.take(i as int), query@)[k],
                ),
            prev is Some <==> r@.len() > 0,
            prev matches Some(p) ==> p < i && p == msgs_found(ms.take(i as int), query@).last(),
        decreases n - i,
    {
        let ghost before = msgs_found(ms.take(i as int), query@);
        let ghost after = msgs_found(ms.take(i + 1), query@);
        assert(ms.take(i + 1).drop_last() =~= ms.take(i as int));
        let m = &msgs[i];
        assert(ms[i as int] == m@);
        if finds(m.text.as_str(), query) || finds(m.sender.as_str(), query) {
            let (dated, first) = match prev {
                Some(p) => {
                    assert(ms[p as int] == msgs@[p as int]@);
                    (
                        !text::same(m.date.as_str(), msgs[p].date.as_str()),
                        !are_together(&msgs[p], m),
                    )
                },
                None => (!m.date.as_str().is_empty(), true),
            };
            let last = if i + 1 < n {
                assert(ms[i + 1] == msgs@[i + 1]@);
                !are_together(&msgs[i + 1], m)
            } else {
                true
            };
            r.push(Row { index: i, dated, first, last });
            prev = Some(i);
            assert(after == before.push(i as int));
        }
        i += 1;
    }
    assert(ms.take(i as int) =~= ms);
    r
}

/// The peer of the open chat types exactly where the last notice of typing came
/// from the peer whose @username is the id of that chat.
pub proof fn law_only_the_open_peer_types(a: AppModel, from: Seq<char>, clock: chat::ClockModel)
    ensures
        ({
            let b = client::after_event(a, crate::events::EvModel::Typing { from }, clock);
            &&& types(b) <==> from == a.chats.list[a.chats.active].id
            &&& from != a.chats.list[a.chats.active].id ==> status_of(b) == status_of(
                AppModel { typing_from: None, ..a },
            )
            &&& from == a.chats.list[a.chats.active].id && !a.chats.list[a.chats.active].is_room
                ==> status_of(b) == "печатает…"@
        }),
        a.typing_from is None ==> !types(a),
        types(a) ==> a.typing_from is Some && (a.typing_from->0).0
            == a.chats.list[a.chats.active].id,
{
}

/// Below the name of a peer who does not type stands whether the list of users
/// has the peer as online; a peer who is not listed is not. A room is shown as
/// such.
pub proof fn law_status_of_peer(a: AppModel, k: int)
    requires
        a.typing_from is None,
    ensures
        ({
            let c = a.chats.list[a.chats.active];
            &&& c.is_room ==> status_of(a) == "комната · E2E 🔒"@
            &&& !c.is_room && 0 <= k < a.users.len() && a.users[k].at == c.id && (forall|l: int|
                0 <= l < k ==> (#[trigger] a.users[l]).at != c.id) ==> status_of(a) == (
            if a.users[k].online {
                "в сети"@
            } else {
                "не в сети"@
            })
            &&& !c.is_room && (forall|l: int|
                0 <= l < a.users.len() ==> (#[trigger] a.users[l]).at != c.id) ==> status_of(a)
                == "не в сети"@
        }),
{
    let id = a.chats.list[a.chats.active].id;
    let ats = a.users.map_values(|u: UserModel| u.at);
    text::lemma_index_of(ats, id);
    let i = client::find_user(a.users, id);
    if i < a.users.len() {
        assert(ats[i] == a.users[i].at);
    }
    if 0 <= k < a.users.len() {
        assert(ats[k] == a.users[k].at);
        if i < k {
            assert(a.users[i].at == id);
        }
    }
}

/// A chat is shown under the name of its peer, and a room under its own.
pub proof fn law_chat_titled(a: AppModel, i: int)
    requires
        0 <= i < a.chats.list.len(),
    ensures
        a.chats.list[i].is_room ==> chat_title_of(a, i) == a.chats.list[i].id,
        !a.chats.list[i].is_room ==> client::shown_as(
            a,
            a.chats.list[i].id,
            chat_title_of(a, i),
        ),
{
    client::law_name_shown(a, a.chats.list[i].id);
}

/// A chat is listed for a query where its id holds the query, in any case, and a
/// chat with a peer also where the name of the peer does; for no query all are.
/// Rooms are listed among rooms only.
pub proof fn law_chats_found(a: AppModel, i: int, query: Seq<char>, rooms: bool)
    requires
        0 <= i < a.chats.list.len(),
    ensures
        ({
            let c = a.chats.list[i];
            &&& c.is_room != rooms ==> !listed(a, i, query, rooms)
            &&& query.len() == 0 && c.is_room == rooms ==> listed(a, i, query, rooms)
            &&& text::has_piece(text::lowercase(c.id), query) && c.is_room == rooms ==> listed(
                a,
                i,
                query,
                rooms,
            )
            &&& listed(a, i, query, rooms) && query.len() > 0 && rooms ==> text::has_piece(
                text::lowercase(c.id),
                query,
            )
            &&& query.len() > 0 && !rooms && !c.is_room ==> exists|name: Seq<char>| #[trigger]
                client::shown_as(a, c.id, name) && (listed(a, i, query, rooms) <==> (
                text::has_piece(text::lowercase(c.id), query) || text::has_piece(
                    text::lowercase(name),
                    query,
                )))
        }),
{
    client::law_name_shown(a, a.chats.list[i].id);
    let name = client::name_of(a, a.chats.list[i].id);
    assert(client::shown_as(a, a.chats.list[i].id, name));
}

/// The chats that are listed come with the latest first; no chat comes twice,
/// and for no query every chat of the sort comes.
pub proof fn law_latest_first(rows: Seq<usize>, a: AppModel, query: Seq<char>, rooms: bool)
    requires
        rows_of(rows, a, query, rooms),
    ensures
        forall|k: int, l: int|
            0 <= k < l < rows.len() ==> a.chats.list[#[trigger] rows[k] as int].last_activity
                >= a.chats.list[#[trigger] rows[l] as int].last_activity && rows[k] != rows[l],
        forall|k: int|
            0 <= k < rows.len() ==> (#[trigger] rows[k]) < a.chats.list.len()
                && a.chats.list[rows[k] as int].is_room == rooms,
        query.len() == 0 ==> forall|i: int|
            0 <= i < a.chats.list.len() && (#[trigger] a.chats.list[i]).is_room == rooms
                ==> rows.contains(i as usize),
{
    if query.len() == 0 {
        assert forall|i: int|
            0 <= i < a.chats.list.len() && (#[trigger] a.chats.list[i]).is_room
                == rooms implies rows.contains(i as usize) by {
            assert(listed(a, i, query, rooms));
        }
    }
}

/// The users that are found are those of the list, in order, that are in the
/// state and whose nick or @username holds the query, in any case.
pub proof fn law_users_found(users: Seq<UserModel>, query: Seq<char>, online: bool)
    ensures
        users_found(users, query, online) == users.filter(
            |u: UserModel|
                u.online == online && (query.len() == 0 || text::has_piece(
                    text::lowercase(u.nick),
                    query,
                ) || text::has_piece(text::lowercase(u.at), query)),
        ),
    decreases users.len(),
{
    reveal(Seq::filter);
    if users.len() > 0 {
        law_users_found(users.drop_last(), query, online);
    }
}

/// The messages that are shown are those whose text or sender holds the query,
/// in any case, each once and in order; for no query all are.
pub proof fn law_messages_found(msgs: Seq<MsgModel>, query: Seq<char>)
    ensures
        forall|k: int|
            0 <= k < msgs_found(msgs, query).len() ==> 0 <= #[trigger] msgs_found(msgs, query)[k]
                < msgs.len(),
        forall|k: int, l: int|
            0 <= k < l < msgs_found(msgs, query).len() ==> #[trigger] msgs_found(msgs, query)[k]
                < #[trigger] msgs_found(msgs, query)[l],
        forall|i: int|
            0 <= i < msgs.len() ==> (#[trigger] msgs_found(msgs, query).contains(i) <==> (
            query.len() == 0 || text::has_piece(text::lowercase(msgs[i].text), query)
                || text::has_piece(text::lowercase(msgs[i].sender), query))),
    decreases msgs.len(),
{
    if msgs.len() > 0 {
        let d = msgs.drop_last();
        law_messages_found(d, query);
        let before = msgs_found(d, query);
        let after = msgs_found(msgs, query);
        let n = msgs.len() - 1;
        assert forall|i: int| 0 <= i < msgs.len() implies (#[trigger] after.contains(i) <==> (
        query.len() == 0 || text::has_piece(text::lowercase(msgs[i].text), query)
            || text::has_piece(text::lowercase(msgs[i].sender), query))) by {
            if i < n {
                assert(d[i] == msgs[i]);
                if before.contains(i) {
                    let k = choose|k: int| 0 <= k < before.len() && before[k] == i;
                    assert(after[k] == i);
                }
                if after.contains(i) {
                    let k = choose|k: int| 0 <= k < after.len() && after[k] == i;
                    assert(before[k] == i);
                }
            } else if msg_found(msgs[n], query) {
                assert(after[after.len() - 1] == n);
            } else if after.contains(n) {
                let k = choose|k: int| 0 <= k < after.len() && after[k] == n;
                assert(before[k] == n);
            }
        }
    }
}

/// The date stands above the first message of a day; messages of one sender on
/// one day are grouped, and never those of two, nor ours with those of another.
pub proof fn law_rows_grouped(msgs: Seq<MsgModel>, b: int, i: int)
    requires
        0 <= b < i < msgs.len() <= usize::MAX,
    ensures
        ({
            let r = row_of(msgs, Some(b), i);
            &&& r.index == i
            &&& r.dated <==> msgs[i].date != msgs[b].date
            &&& r.first <==> msgs[i].sender != msgs[b].sender || msgs[i].mine != msgs[b].mine
                || msgs[i].date != msgs[b].date
            &&& i == msgs.len() - 1 ==> r.last
            &&& i < msgs.len() - 1 ==> (r.last <==> msgs[i].sender != msgs[i + 1].sender
                || msgs[i].mine != msgs[i + 1].mine || msgs[i].date != msgs[i + 1].date)
        }),
        row_of(msgs, None, i).index == i,
        row_of(msgs, None, i).first,
        row_of(msgs, None, i).dated <==> msgs[i].date.len() > 0,
        row_of(msgs, None, i).last == row_of(msgs, Some(b), i).last,
{
}

/// Errors and warnings have bubbles of their own, whoever they are from; else
/// ours and those of others are told apart. The sender is named above the first
/// of another's ordinary messages; ours have marks, which tell whether they
/// were read.
pub proof fn law_bubbles_told_apart(m: MsgModel, first: bool)
    ensures
        m.kind == 2 ==> bubble(m, first).tone == Tone::Error,
        m.kind == 3 ==> bubble(m, first).tone == Tone::Warning,
        m.kind != 2 && m.kind != 3 && m.mine ==> bubble(m, first).tone == Tone::Mine,
        m.kind != 2 && m.kind != 3 && !m.mine ==> bubble(m, first).tone == Tone::Other,
        bubble(m, first).named <==> first && !m.mine && m.kind == 0 && m.sender.len() > 0,
        m.mine && m.kind == 0 && m.read ==> bubble(m, first).ticks == Ticks::Read,
        m.mine && m.kind == 0 && !m.read ==> bubble(m, first).ticks == Ticks::Sent,
        !m.mine || m.kind != 0 ==> bubble(m, first).ticks == Ticks::Absent,
{
}

/// The name under which the owner of a fingerprint is shown.
pub open spec fn owner_of_key(a: AppModel, name: Seq<char>) -> Seq<char> {
    if name == a.me {
        a.my_nick + " (вы)"@
    } else {
        client::name_of(a, name)
    }
}

/// A fingerprint is shown under the name of its owner; ours is marked as ours.
pub proof fn law_key_owner(a: AppModel, name: Seq<char>)
    ensures
        name != a.me ==> client::shown_as(a, name, owner_of_key(a, name)),
        owner_of_key(a, a.me) == a.my_nick + " (вы)"@,
{
    client::law_name_shown(a, name);
}

/// The users that are shown are those who are online, then those who are not,
/// each in the order of the list.
pub proof fn law_users_online_first(users: Seq<UserModel>, query: Seq<char>, i: int, j: int)
    ensures
        0 <= i < users_found(users, query, true).len() ==> users_found(users, query, true)[i].online,
        0 <= j < users_found(users, query, false).len() ==> !users_found(
            users,
            query,
            false,
        )[j].online,
    decreases users.len(),
{
    if users.len() > 0 {
        law_users_online_first(users.drop_last(), query, i, j);
    }
}

/// The message that is shown before another is the one that stands before it
/// among those that are shown.
pub proof fn law_shown_before(shown: Seq<int>, k: int)
    requires
        0 < k < shown.len(),
    ensures
        shown_before(shown, k) == Some(shown[k - 1]),
        shown_before(shown, 0) is None,
{
}

} // verus!
