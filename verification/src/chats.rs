//! The list of chats, one of which is open.

use crate::chat;
use crate::chat::{Chat, ChatModel, Clock, ClockModel, Msg, MsgModel};
use crate::text;
use vstd::prelude::*;

verus! {

/// The chats, in the order in which they stand, and which of them is open.
pub struct Chats {
    pub list: Vec<Chat>,
    pub active: usize,
}

/// The contents of a `Chats`.
pub struct ChatsModel {
    pub list: Seq<ChatModel>,
    pub active: int,
}

impl View for Chats {
    type V = ChatsModel;

    open spec fn view(&self) -> ChatsModel {
        ChatsModel { list: chat::chat_views(self.list@), active: self.active as int }
    }
}

/// The chats are in order: the open one is one of them.
pub open spec fn wf(a: ChatsModel) -> bool {
    0 <= a.active < a.list.len()
}

/// Whether `n` more messages can be counted as unread in every chat.
pub open spec fn room_for(a: ChatsModel, n: nat) -> bool {
    forall|i: int| 0 <= i < a.list.len() ==> (#[trigger] a.list[i]).unread + n <= usize::MAX
}

/// Whether one more message can be counted in the chat with an id: what comes
/// into the open chat, or into a new one, is no matter.
pub open spec fn counts(a: ChatsModel, id: Seq<char>) -> bool {
    let i = find_chat(a.list, id);
    i < a.list.len() && i != a.active ==> a.list[i].unread < usize::MAX
}

/// Whether no chat keeps more than `MSGS_MAX` messages.
pub open spec fn within_cap(a: ChatsModel) -> bool {
    forall|i: int| 0 <= i < a.list.len() ==> (#[trigger] a.list[i]).msgs.len() <= chat::MSGS_MAX
}

/// Whether no two chats have the same id.
pub open spec fn distinct_ids(list: Seq<ChatModel>) -> bool {
    forall|i: int, j: int|
        0 <= i < j < list.len() ==> (#[trigger] list[i]).id != (#[trigger] list[j]).id
}

/// The ids of the chats.
pub open spec fn ids(list: Seq<ChatModel>) -> Seq<Seq<char>> {
    list.map_values(|c: ChatModel| c.id)
}

/// Where the first chat with an id stands, or the number of chats.
pub open spec fn find_chat(list: Seq<ChatModel>, id: Seq<char>) -> int {
    text::index_of(ids(list), id)
}

/// The chats with one of an id, which is new where there was none.
pub open spec fn with_chat(a: ChatsModel, id: Seq<char>, is_room: bool, now: u64) -> ChatsModel {
    if find_chat(a.list, id) < a.list.len() {
        a
    } else {
        ChatsModel { list: a.list.push(chat::empty_chat(id, is_room, now)), ..a }
    }
}

/// A message that is to go into a chat.
pub struct NoteModel {
    pub mine: bool,
    pub sender: Seq<char>,
    pub text: Seq<char>,
    pub kind: u8,
}

/// The message that is kept of a note.
pub open spec fn msg_of(n: NoteModel, clock: ClockModel, read: bool) -> MsgModel {
    MsgModel {
        mine: n.mine,
        sender: n.sender,
        text: n.text,
        kind: n.kind,
        time: clock.time,
        date: clock.date,
        reactions: Seq::empty(),
        read,
    }
}

/// A conversation that shows what a chat looks like.
pub open spec fn sample(clock: ClockModel) -> Seq<MsgModel> {
    seq![
        msg_of(
            NoteModel {
                mine: false,
                sender: "Алиса"@,
                text: "Привет! 👋 Это тестовое сообщение — проверяем вёрстку пузырей."@,
                kind: chat::KIND_TEXT,
            },
            clock,
            true,
        ),
        msg_of(
            NoteModel {
                mine: true,
                sender: "Я"@,
                text: "Привет, Алиса! Выглядит отлично, как в Telegram 🙂"@,
                kind: chat::KIND_TEXT,
            },
            clock,
            true,
        ),
        msg_of(
            NoteModel {
                mine: false,
                sender: "Боб"@,
                text: "И у меня всё читается. Шифрование E2E работает 🔒"@,
                kind: chat::KIND_TEXT,
            },
            clock,
            true,
        ),
    ]
}

/// The chats of a client that starts.
pub open spec fn starting(clock: ClockModel) -> ChatsModel {
    ChatsModel {
        list: seq![
            ChatModel {
                msgs: sample(clock),
                ..chat::empty_chat(chat::ROOM_CHAT@, true, clock.now)
            },
            chat::empty_chat(chat::SYS_CHAT@, false, clock.now),
        ],
        active: 0,
    }
}

/// The chats with one of them moved to the front.
pub open spec fn moved_up(list: Seq<ChatModel>, i: int) -> Seq<ChatModel> {
    list.remove(i).insert(0, list[i])
}

/// The chats with one message more in the one with an id. A chat that is not
/// the open one goes to the front, and the open one stays open.
pub open spec fn pushed(
    a: ChatsModel,
    id: Seq<char>,
    is_room: bool,
    n: NoteModel,
    clock: ClockModel,
) -> ChatsModel {
    let b = with_chat(a, id, is_room, clock.now);
    let i = find_chat(b.list, id);
    let seen = b.active == i;
    let c = chat::with_msg(b.list[i], msg_of(n, clock, seen), seen, clock.now);
    let list = b.list.update(i, c);
    if !seen && i != 0 {
        let up = moved_up(list, i);
        ChatsModel { list: up, active: find_chat(up, list[b.active].id) }
    } else {
        ChatsModel { list, ..b }
    }
}

/// The chats with one of them opened and read.
pub open spec fn selected(a: ChatsModel, i: int) -> ChatsModel {
    ChatsModel { list: a.list.update(i, ChatModel { unread: 0, ..a.list[i] }), active: i }
}

/// The chats with the one of a peer opened, which is new where there was none.
pub open spec fn private_opened(a: ChatsModel, at: Seq<char>, now: u64) -> ChatsModel {
    let b = with_chat(a, at, false, now);
    let i = find_chat(b.list, at);
    ChatsModel {
        list: b.list.update(i, ChatModel { unread: 0, last_activity: now, ..b.list[i] }),
        active: i,
    }
}

/// The chats with every one of an id renamed.
pub open spec fn renamed(a: ChatsModel, from: Seq<char>, to: Seq<char>) -> ChatsModel {
    ChatsModel {
        list: a.list.map_values(
            |c: ChatModel|
                if c.id == from {
                    ChatModel { id: to, ..c }
                } else {
                    c
                },
        ),
        ..a
    }
}

pub proof fn lemma_find_chat(list: Seq<ChatModel>, id: Seq<char>)
    ensures
        0 <= find_chat(list, id) <= list.len(),
        find_chat(list, id) < list.len() ==> list[find_chat(list, id)].id == id,
        forall|i: int| 0 <= i < find_chat(list, id) ==> (#[trigger] list[i]).id != id,
{
    text::lemma_index_of(ids(list), id);
    assert forall|i: int| 0 <= i < find_chat(list, id) implies (#[trigger] list[i]).id != id by {
        assert(ids(list)[i] != id);
    }
}

proof fn lemma_find_is(list: Seq<ChatModel>, id: Seq<char>, at: int)
    requires
        0 <= at <= list.len(),
        forall|i: int| 0 <= i < at ==> (#[trigger] list[i]).id != id,
        at < list.len() ==> list[at].id == id,
    ensures
        find_chat(list, id) == at,
{
    assert forall|i: int| 0 <= i < at implies ids(list)[i] != id by {
        assert(list[i].id != id);
    }
    text::lemma_index_of_is(ids(list), id, at);
}

/// A chat that is looked for is there afterwards, and the open one stays.
pub proof fn lemma_with_chat(a: ChatsModel, id: Seq<char>, is_room: bool, now: u64)
    ensures
        ({
            let b = with_chat(a, id, is_room, now);
            &&& find_chat(b.list, id) == find_chat(a.list, id)
            &&& 0 <= find_chat(b.list, id) < b.list.len()
            &&& b.list[find_chat(b.list, id)].id == id
            &&& wf(a) ==> wf(b)
            &&& wf(a) ==> b.list[b.active] == a.list[a.active]
            &&& forall|n: nat| wf(a) && #[trigger] room_for(a, n) ==> room_for(b, n)
        }),
{
    lemma_find_chat(a.list, id);
    let b = with_chat(a, id, is_room, now);
    let i = find_chat(a.list, id);
    if i == a.list.len() {
        assert forall|k: int| 0 <= k < i implies (#[trigger] b.list[k]).id != id by {
            assert(a.list[k].id != id);
        }
        lemma_find_is(b.list, id, i);
    }
    assert forall|n: nat| wf(a) && #[trigger] room_for(a, n) implies room_for(b, n) by {
        assert(a.list[a.active].unread + n <= usize::MAX);
        assert forall|k: int| 0 <= k < b.list.len() implies (#[trigger] b.list[k]).unread + n
            <= usize::MAX by {
            if k < a.list.len() {
                assert(a.list[k].unread + n <= usize::MAX);
            }
        }
    }
}

/// A message that comes leaves the chats in order. The chat that was open is
/// still open: the open chat has the same id as before.
pub proof fn law_push_keeps_selection(
    a: ChatsModel,
    id: Seq<char>,
    is_room: bool,
    n: NoteModel,
    clock: ClockModel,
)
    requires
        wf(a),
    ensures
        wf(pushed(a, id, is_room, n, clock)),
        pushed(a, id, is_room, n, clock).list[pushed(a, id, is_room, n, clock).active].id
            == a.list[a.active].id,
        (forall|k: int|
            0 <= k < a.list.len() && k != a.active ==> (#[trigger] a.list[k]).id
                != a.list[a.active].id) ==> pushed(a, id, is_room, n, clock).list[pushed(
            a,
            id,
            is_room,
            n,
            clock,
        ).active].is_room == a.list[a.active].is_room,
{
    let b = with_chat(a, id, is_room, clock.now);
    lemma_with_chat(a, id, is_room, clock.now);
    let i = find_chat(b.list, id);
    let seen = b.active == i;
    let c = chat::with_msg(b.list[i], msg_of(n, clock, seen), seen, clock.now);
    let list = b.list.update(i, c);
    if !seen && i != 0 {
        let up = moved_up(list, i);
        let want = list[b.active].id;
        lemma_find_chat(up, want);
        let at: int = if b.active < i {
            b.active + 1
        } else {
            b.active
        };
        assert(up[at].id == want);
        let f = find_chat(up, want);
        if (forall|k: int|
            0 <= k < a.list.len() && k != a.active ==> (#[trigger] a.list[k]).id
                != a.list[a.active].id) && f != at {
            let g: int = if f == 0 {
                i
            } else if f <= i {
                f - 1
            } else {
                f
            };
            assert(up[f] == list[g] && g != b.active);
            assert(list[g].id == b.list[g].id);
            lemma_find_chat(a.list, id);
            if g < a.list.len() {
                assert(a.list[g].id != a.list[a.active].id);
            }
            assert(false);
        }
    }
}

/// A message that comes stands last in its chat; that chat is at the front,
/// unless it is the open one. The other chats stay as they are, in the same
/// order.
pub proof fn law_push_arrives(
    a: ChatsModel,
    id: Seq<char>,
    is_room: bool,
    n: NoteModel,
    clock: ClockModel,
)
    requires
        wf(a),
    ensures
        ({
            let b = with_chat(a, id, is_room, clock.now);
            let i = find_chat(b.list, id);
            let r = pushed(a, id, is_room, n, clock);
            let j: int = if a.active == i {
                i
            } else {
                0
            };
            &&& r.list.len() == b.list.len()
            &&& r.list[j].id == id
            &&& r.list[j].msgs.last() == msg_of(n, clock, a.active == i)
            &&& r.list[j].unread == b.list[i].unread + (if a.active == i {
                0int
            } else {
                1
            })
            &&& r.list.remove(j) == b.list.remove(i)
        }),
{
    let b = with_chat(a, id, is_room, clock.now);
    lemma_with_chat(a, id, is_room, clock.now);
    let i = find_chat(b.list, id);
    let seen = b.active == i;
    let c = chat::with_msg(b.list[i], msg_of(n, clock, seen), seen, clock.now);
    let list = b.list.update(i, c);
    if !seen && i != 0 {
        let up = moved_up(list, i);
        assert(up.remove(0) =~= b.list.remove(i));
    } else {
        assert(list.remove(i) =~= b.list.remove(i));
    }
}

/// No chat keeps more than `MSGS_MAX` messages, if none did before.
pub proof fn law_push_caps(
    a: ChatsModel,
    id: Seq<char>,
    is_room: bool,
    n: NoteModel,
    clock: ClockModel,
)
    requires
        wf(a),
        within_cap(a),
    ensures
        within_cap(pushed(a, id, is_room, n, clock)),
{
    let b = with_chat(a, id, is_room, clock.now);
    lemma_with_chat(a, id, is_room, clock.now);
    let i = find_chat(b.list, id);
    let r = pushed(a, id, is_room, n, clock);
    assert forall|k: int| 0 <= k < b.list.len() implies (#[trigger] b.list[k]).msgs.len()
        <= chat::MSGS_MAX by {
        if k < a.list.len() {
            assert(a.list[k].msgs.len() <= chat::MSGS_MAX);
        }
    }
    assert forall|k: int| 0 <= k < r.list.len() implies (#[trigger] r.list[k]).msgs.len()
        <= chat::MSGS_MAX by {
        if b.active != i && i != 0 {
            if k > 0 {
                let o: int = if k <= i {
                    k - 1
                } else {
                    k
                };
                assert(r.list[k] == b.list[o]);
            }
        } else if k != i {
            assert(r.list[k] == b.list[k]);
        }
    }
}

proof fn lemma_with_chat_distinct(a: ChatsModel, id: Seq<char>, is_room: bool, now: u64)
    requires
        distinct_ids(a.list),
    ensures
        distinct_ids(with_chat(a, id, is_room, now).list),
{
    let b = with_chat(a, id, is_room, now);
    lemma_find_chat(a.list, id);
    assert forall|i: int, j: int| 0 <= i < j < b.list.len() implies (#[trigger] b.list[i]).id != (
    #[trigger] b.list[j]).id by {
        assert(b.list[i] == a.list[i]);
        if j < a.list.len() {
            assert(b.list[j] == a.list[j]);
        }
    }
}

/// Where no two chats have the same id, it stays so: when a message comes, when
/// a chat is opened, and when chats are renamed to what no chat is called.
pub proof fn law_ids_stay_distinct(
    a: ChatsModel,
    id: Seq<char>,
    is_room: bool,
    n: NoteModel,
    clock: ClockModel,
    i: int,
    to: Seq<char>,
)
    requires
        wf(a),
        distinct_ids(a.list),
        0 <= i < a.list.len(),
    ensures
        distinct_ids(pushed(a, id, is_room, n, clock).list),
        distinct_ids(selected(a, i).list),
        distinct_ids(private_opened(a, id, clock.now).list),
        find_chat(a.list, to) == a.list.len() ==> distinct_ids(renamed(a, id, to).list),
{
    lemma_with_chat_distinct(a, id, is_room, clock.now);
    lemma_with_chat(a, id, is_room, clock.now);
    lemma_with_chat_distinct(a, id, false, clock.now);
    lemma_with_chat(a, id, false, clock.now);
    let b = with_chat(a, id, is_room, clock.now);
    let at = find_chat(b.list, id);
    let p = pushed(a, id, is_room, n, clock);
    assert forall|k: int, l: int| 0 <= k < l < p.list.len() implies (#[trigger] p.list[k]).id != (
    #[trigger] p.list[l]).id by {
        if b.active != at && at != 0 {
            let o: int = if k == 0 {
                at
            } else if k <= at {
                k - 1
            } else {
                k
            };
            let q: int = if l <= at {
                l - 1
            } else {
                l
            };
            assert(p.list[k].id == b.list[o].id && p.list[l].id == b.list[q].id);
            if o < q {
                assert(b.list[o].id != b.list[q].id);
            } else {
                assert(b.list[q].id != b.list[o].id);
            }
        } else {
            assert(p.list[k].id == b.list[k].id && p.list[l].id == b.list[l].id);
        }
    }
    let s = selected(a, i);
    assert forall|k: int, l: int| 0 <= k < l < s.list.len() implies (#[trigger] s.list[k]).id != (
    #[trigger] s.list[l]).id by {
        assert(s.list[k].id == a.list[k].id && s.list[l].id == a.list[l].id);
    }
    let c = with_chat(a, id, false, clock.now);
    let o = private_opened(a, id, clock.now);
    assert forall|k: int, l: int| 0 <= k < l < o.list.len() implies (#[trigger] o.list[k]).id != (
    #[trigger] o.list[l]).id by {
        assert(o.list[k].id == c.list[k].id && o.list[l].id == c.list[l].id);
    }
    let r = renamed(a, id, to);
    lemma_find_chat(a.list, to);
    if find_chat(a.list, to) == a.list.len() {
        assert forall|k: int, l: int| 0 <= k < l < r.list.len() implies (#[trigger] r.list[k]).id
            != (#[trigger] r.list[l]).id by {
            assert(a.list[k].id != a.list[l].id);
            assert(a.list[k].id != to && a.list[l].id != to);
        }
    }
}

/// A message that comes counts as one more unread in one chat at most.
pub proof fn lemma_push_room(
    a: ChatsModel,
    id: Seq<char>,
    is_room: bool,
    n: NoteModel,
    clock: ClockModel,
    left: nat,
)
    requires
        wf(a),
        room_for(a, left + 1),
    ensures
        room_for(pushed(a, id, is_room, n, clock), left),
{
    let b = with_chat(a, id, is_room, clock.now);
    lemma_with_chat(a, id, is_room, clock.now);
    assert(room_for(b, left + 1));
    let i = find_chat(b.list, id);
    let r = pushed(a, id, is_room, n, clock);
    assert forall|k: int| 0 <= k < r.list.len() implies (#[trigger] r.list[k]).unread + left
        <= usize::MAX by {
        assert(b.list[i].unread + (left + 1) <= usize::MAX);
        if b.active != i && i != 0 {
            if k > 0 {
                let o: int = if k <= i {
                    k - 1
                } else {
                    k
                };
                assert(r.list[k] == b.list[o]);
                assert(b.list[o].unread + (left + 1) <= usize::MAX);
            }
        } else if k != i {
            assert(r.list[k] == b.list[k]);
            assert(b.list[k].unread + (left + 1) <= usize::MAX);
        }
    }
}

/// Where there is room in every chat, there is in the one of any id.
pub proof fn lemma_room_counts(a: ChatsModel, n: nat, id: Seq<char>)
    requires
        room_for(a, n),
        n > 0,
    ensures
        counts(a, id),
{
    let i = find_chat(a.list, id);
    lemma_find_chat(a.list, id);
    if i < a.list.len() {
        assert(a.list[i].unread + n <= usize::MAX);
    }
}

/// A message as it is kept.
fn message(mine: bool, sender: &str, text: &str, kind: u8, clock: &Clock, read: bool) -> (r: Msg)
    ensures
        r@ == msg_of((NoteModel { mine, sender: sender@, text: text@, kind }), clock@, read),
{
    let reactions: Vec<(String, usize)> = Vec::new();
    let r = Msg {
        mine,
        sender: text::own(sender),
        text: text::own(text),
        kind,
        time: clock.time.clone(),
        date: clock.date.clone(),
        reactions,
        read,
    };
    assert(r@.reactions =~= Seq::empty());
    r
}

/// Adds a message to one of the chats.
fn update_chat(list: &mut Vec<Chat>, i: usize, m: Msg, seen: bool, now: u64)
    requires
        i < old(list)@.len(),
        !seen ==> old(list)@[i as int].unread < usize::MAX,
    ensures
        chat::chat_views(final(list)@) == chat::chat_views(old(list)@).update(
            i as int,
            chat::with_msg(chat::chat_views(old(list)@)[i as int], m@, seen, now),
        ),
{
    let ghost before = list@;
    let mut c = list.remove(i);
    c.add_msg(m, seen, now);
    list.insert(i, c);
    assert(chat::chat_views(list@) =~= chat::chat_views(before).update(i as int, c@));
}

/// Moves one of the chats to the front.
fn move_up(list: &mut Vec<Chat>, i: usize)
    requires
        i < old(list)@.len(),
    ensures
        chat::chat_views(final(list)@) == moved_up(chat::chat_views(old(list)@), i as int),
{
    let ghost before = list@;
    let c = list.remove(i);
    list.insert(0, c);
    assert(chat::chat_views(list@) =~= moved_up(chat::chat_views(before), i as int));
}

impl Chats {
    /// The chats of a client that starts: the common room, which is open and
    /// shows a conversation, and what the server says.
    pub fn new(clock: &Clock) -> (r: Chats)
        ensures
            r@ == starting(clock@),
            wf(r@),
    {
        let mut list: Vec<Chat> = Vec::new();
        let mut room = Chat::new(text::own(chat::ROOM_CHAT), true, clock.now);
        assert(chat::msg_views(room.msgs@).len() == 0);
        room.msgs.push(
            message(
                false,
                "Алиса",
                "Привет! 👋 Это тестовое сообщение — проверяем вёрстку пузырей.",
                chat::KIND_TEXT,
                clock,
                true,
            ),
        );
        room.msgs.push(
            message(
                true,
                "Я",
                "Привет, Алиса! Выглядит отлично, как в Telegram 🙂",
                chat::KIND_TEXT,
                clock,
                true,
            ),
        );
        room.msgs.push(
            message(
                false,
                "Боб",
                "И у меня всё читается. Шифрование E2E работает 🔒",
                chat::KIND_TEXT,
                clock,
                true,
            ),
        );
        assert(chat::msg_views(room.msgs@) =~= sample(clock@));
        list.push(room);
        list.push(Chat::new(text::own(chat::SYS_CHAT), false, clock.now));
        assert(chat::chat_views(list@) =~= starting(clock@).list);
        Chats { list, active: 0 }
    }

    /// Where the first chat with an id stands, or the number of chats.
    pub fn position(&self, id: &str) -> (r: usize)
        ensures
            r == find_chat(self@.list, id@),
            r <= self.list@.len(),
            r < self.list@.len() ==> self@.list[r as int].id == id@,
    {
        let ghost cs = self@.list;
        let mut i: usize = 0;
        while i < self.list.len() && !text::same(self.list[i].id.as_str(), id)
            invariant
                i <= self.list@.len(),
                cs == chat::chat_views(self.list@),
                forall|k: int| 0 <= k < i ==> (#[trigger] cs[k]).id != id@,
            decreases self.list@.len() - i,
        {
            assert(cs[i as int].id == self.list@[i as int].id@);
            i += 1;
        }
        proof {
            if i < self.list@.len() {
                assert(cs[i as int].id == self.list@[i as int].id@);
            }
            lemma_find_is(cs, id@, i as int);
        }
        i
    }

    /// Where the chat with an id stands, which is new where there was none.
    pub fn chat_index(&mut self, id: &str, is_room: bool, now: u64) -> (r: usize)
        ensures
            final(self)@ == with_chat(old(self)@, id@, is_room, now),
            r == find_chat(old(self)@.list, id@),
            r == find_chat(final(self)@.list, id@),
            r < final(self).list@.len(),
    {
        proof {
            lemma_with_chat(self@, id@, is_room, now);
        }
        let i = self.position(id);
        if i == self.list.len() {
            let ghost before = self.list@;
            self.list.push(Chat::new(text::own(id), is_room, now));
            assert(chat::chat_views(self.list@) =~= chat::chat_views(before).push(
                chat::empty_chat(id@, is_room, now),
            ));
        }
        i
    }

    /// Puts a message into a chat. A chat that is not the open one goes to the
    /// front, and the open one stays open.
    pub fn push_msg(
        &mut self,
        chat_id: &str,
        is_room: bool,
        mine: bool,
        sender: &str,
        text: &str,
        kind: u8,
        clock: &Clock,
    )
        requires
            wf(old(self)@),
            counts(old(self)@, chat_id@),
        ensures
            final(self)@ == pushed(
                old(self)@,
                chat_id@,
                is_room,
                (NoteModel { mine, sender: sender@, text: text@, kind }),
                clock@,
            ),
            wf(final(self)@),
    {
        let ghost a = self@;
        let ghost n = NoteModel { mine, sender: sender@, text: text@, kind };
        proof {
            lemma_with_chat(a, chat_id@, is_room, clock.now);
            law_push_keeps_selection(a, chat_id@, is_room, n, clock@);
        }
        let i = self.chat_index(chat_id, is_room, clock.now);
        let ghost b = self@;
        let seen = self.active == i;
        let m = message(mine, sender, text, kind, clock, seen);
        assert(b.list[i as int].unread == self.list@[i as int].unread);
        update_chat(&mut self.list, i, m, seen, clock.now);
        if !seen && i != 0 {
            let id = self.list[self.active].id.clone();
            move_up(&mut self.list, i);
            self.active = self.position(id.as_str());
        }
    }

    /// Opens one of the chats; what it holds counts as read.
    pub fn select(&mut self, i: usize)
        requires
            i < old(self).list@.len(),
        ensures
            final(self)@ == selected(old(self)@, i as int),
            wf(final(self)@),
    {
        let ghost before = self.list@;
        let mut c = self.list.remove(i);
        c.unread = 0;
        self.list.insert(i, c);
        self.active = i;
        assert(chat::chat_views(self.list@) =~= chat::chat_views(before).update(i as int, c@));
    }

    /// Opens the chat with a peer.
    pub fn open_private(&mut self, at: &str, now: u64)
        ensures
            final(self)@ == private_opened(old(self)@, at@, now),
            wf(final(self)@),
            final(self)@.list[final(self)@.active].id == at@,
    {
        proof {
            lemma_with_chat(self@, at@, false, now);
        }
        let i = self.chat_index(at, false, now);
        let ghost before = self.list@;
        let mut c = self.list.remove(i);
        c.unread = 0;
        c.last_activity = now;
        self.list.insert(i, c);
        self.active = i;
        assert(chat::chat_views(self.list@) =~= chat::chat_views(before).update(i as int, c@));
    }

    /// Renames every chat of an id.
    pub fn rename(&mut self, from: &str, to: &str)
        ensures
            final(self)@ == renamed(old(self)@, from@, to@),
    {
        let ghost a = self@;
        let ghost before = self.list@;
        let mut i: usize = 0;
        while i < self.list.len()
            invariant
                i <= self.list@.len(),
                a.list == chat::chat_views(before),
                a.active == self.active,
                self.list@.len() == before.len(),
                forall|k: int|
                    0 <= k < i ==> (#[trigger] self.list@[k])@ == renamed(a, from@, to@).list[k],
                forall|k: int| i <= k < before.len() ==> #[trigger] self.list@[k] == before[k],
            decreases self.list@.len() - i,
        {
            assert(a.list[i as int] == before[i as int]@);
            if text::same(self.list[i].id.as_str(), from) {
                let mut c = self.list.remove(i);
                c.id = text::own(to);
                self.list.insert(i, c);
            }
            i += 1;
        }
        assert(chat::chat_views(self.list@) =~= renamed(a, from@, to@).list);
    }
}

/// The message that is kept of a note has its texts, and the time and the date
/// of the clock.
pub open spec fn kept(n: NoteModel, clock: ClockModel, read: bool) -> MsgModel {
    MsgModel {
        mine: n.mine,
        sender: n.sender,
        text: n.text,
        kind: n.kind,
        time: clock.time,
        date: clock.date,
        reactions: Seq::empty(),
        read,
    }
}

/// Whether the newest message of the first chat with an id is this one.
pub open spec fn newest_in(a: ChatsModel, id: Seq<char>, m: MsgModel) -> bool {
    exists|j: int|
        0 <= j < a.list.len() && (#[trigger] a.list[j]).id == id && (forall|k: int|
            0 <= k < j ==> (#[trigger] a.list[k]).id != id) && a.list[j].msgs.len() > 0
            && a.list[j].msgs[a.list[j].msgs.len() - 1] == m
}

/// A message that is put into a chat that there is stands last in it, after the
/// messages that were there. The chat goes to the front, unless it is the open
/// one; it counts one more unread message, unless it is the open one. The other
/// chats stay as they are, in the same order.
pub proof fn law_message_put(
    a: ChatsModel,
    id: Seq<char>,
    is_room: bool,
    n: NoteModel,
    clock: ClockModel,
    i: int,
)
    requires
        wf(a),
        0 <= i < a.list.len(),
        a.list[i].id == id,
        forall|k: int| 0 <= k < i ==> (#[trigger] a.list[k]).id != id,
    ensures
        ({
            let r = pushed(a, id, is_room, n, clock);
            let seen = a.active == i;
            let j: int = if seen {
                i
            } else {
                0
            };
            let c = r.list[j];
            &&& newest_in(r, id, kept(n, clock, seen))
            &&& r.list.len() == a.list.len()
            &&& r.list.remove(j) == a.list.remove(i)
            &&& c.id == id && c.is_room == a.list[i].is_room && c.last_activity == clock.now
            &&& c.unread == a.list[i].unread + (if seen {
                0int
            } else {
                1
            })
            &&& c.msgs.len() > 0 && c.msgs[c.msgs.len() - 1] == kept(n, clock, seen)
            &&& a.list[i].msgs.len() < 3000 ==> c.msgs.drop_last() == a.list[i].msgs
            &&& a.list[i].msgs.len() >= 3000 ==> c.msgs.drop_last() == a.list[i].msgs.skip(1000)
            &&& 0 <= r.active < r.list.len() && r.list[r.active].id == a.list[a.active].id
        }),
{
    lemma_find_is(a.list, id, i);
    law_push_arrives(a, id, is_room, n, clock);
    law_push_keeps_selection(a, id, is_room, n, clock);
    let seen = a.active == i;
    let m = msg_of(n, clock, seen);
    assert(m == kept(n, clock, seen));
    chat::law_message_added(a.list[i], m, seen, clock.now);
    let r = pushed(a, id, is_room, n, clock);
    let j: int = if seen {
        i
    } else {
        0
    };
    let list = a.list.update(i, chat::with_msg(a.list[i], m, seen, clock.now));
    if !seen && i != 0 {
        assert(r.list == moved_up(list, i));
        assert(r.list[0] == list[i]);
    } else {
        assert(r.list[j] == list[i]);
        assert forall|k: int| 0 <= k < j implies (#[trigger] r.list[k]).id != id by {
            assert(a.list[k].id != id);
        }
    }
    assert(r.list[j].id == id);
}

/// A message that is put into a chat that there is not makes the chat: it stands
/// in front, with this message alone, and counts it as unread. The other chats
/// stay as they are, in the same order, and the open one stays open.
pub proof fn law_message_makes_chat(
    a: ChatsModel,
    id: Seq<char>,
    is_room: bool,
    n: NoteModel,
    clock: ClockModel,
)
    requires
        wf(a),
        forall|k: int| 0 <= k < a.list.len() ==> (#[trigger] a.list[k]).id != id,
    ensures
        ({
            let r = pushed(a, id, is_room, n, clock);
            &&& newest_in(r, id, kept(n, clock, false))
            &&& r.list == seq![
                ChatModel {
                    id,
                    msgs: seq![kept(n, clock, false)],
                    unread: 1,
                    is_room,
                    last_activity: clock.now,
                },
            ] + a.list
            &&& 0 <= r.active < r.list.len() && r.list[r.active].id == a.list[a.active].id
        }),
{
    lemma_find_is(a.list, id, a.list.len() as int);
    lemma_with_chat(a, id, is_room, clock.now);
    law_push_keeps_selection(a, id, is_room, n, clock);
    let r = pushed(a, id, is_room, n, clock);
    let b = with_chat(a, id, is_room, clock.now);
    let i = a.list.len() as int;
    let m = msg_of(n, clock, false);
    let c = chat::with_msg(b.list[i], m, false, clock.now);
    let none: Seq<MsgModel> = Seq::empty();
    assert(none.push(m) =~= seq![kept(n, clock, false)]);
    let want = ChatModel {
        id,
        msgs: seq![kept(n, clock, false)],
        unread: 1,
        is_room,
        last_activity: clock.now,
    };
    assert(c == want);
    let list = b.list.update(i, c);
    assert(r.list == moved_up(list, i));
    assert(r.list =~= seq![want] + a.list);
    assert(r.list[0] == want);
}

/// Whatever the chats are, a message that is put into one is the newest of it.
pub proof fn law_message_is_newest(
    a: ChatsModel,
    id: Seq<char>,
    is_room: bool,
    n: NoteModel,
    clock: ClockModel,
)
    requires
        wf(a),
    ensures
        exists|read: bool| newest_in(
            pushed(a, id, is_room, n, clock),
            id,
            #[trigger] kept(n, clock, read),
        ) && (read <==> a.list[a.active].id == id && forall|k: int|
            0 <= k < a.active ==> (#[trigger] a.list[k]).id != id),
{
    lemma_find_chat(a.list, id);
    let i = find_chat(a.list, id);
    if i < a.list.len() {
        law_message_put(a, id, is_room, n, clock, i);
        let read = a.active == i;
        assert(newest_in(pushed(a, id, is_room, n, clock), id, kept(n, clock, read)));
        if a.list[a.active].id == id && forall|k: int|
            0 <= k < a.active ==> (#[trigger] a.list[k]).id != id {
            if i < a.active {
                assert(a.list[i].id != id);
            }
        }
    } else {
        assert forall|k: int| 0 <= k < a.list.len() implies (#[trigger] a.list[k]).id != id by {}
        law_message_makes_chat(a, id, is_room, n, clock);
        assert(newest_in(pushed(a, id, is_room, n, clock), id, kept(n, clock, false)));
    }
}

/// Opening a chat opens that one, and its messages count as read; they stay, and
/// the other chats stay as they are.
pub proof fn law_selected(a: ChatsModel, i: int)
    requires
        0 <= i < a.list.len(),
    ensures
        ({
            let r = selected(a, i);
            &&& r.active == i
            &&& r.list.len() == a.list.len()
            &&& r.list[i].unread == 0
            &&& r.list[i].id == a.list[i].id && r.list[i].msgs == a.list[i].msgs
            &&& r.list[i].is_room == a.list[i].is_room && r.list[i].last_activity
                == a.list[i].last_activity
            &&& forall|k: int| 0 <= k < a.list.len() && k != i ==> #[trigger] r.list[k] == a.list[k]
        }),
{
}

/// Writing to a peer opens the chat with that peer: the one that there is, with
/// its messages, or else a new one after the others. No other chat changes.
pub proof fn law_private_opened(a: ChatsModel, at: Seq<char>, now: u64)
    ensures
        ({
            let r = private_opened(a, at, now);
            &&& 0 <= r.active < r.list.len()
            &&& r.list[r.active].id == at && r.list[r.active].unread == 0
                && r.list[r.active].last_activity == now
            &&& r.active < a.list.len() ==> r.list.len() == a.list.len() && r.list[r.active].msgs
                == a.list[r.active].msgs && a.list[r.active].id == at && r.list[r.active].is_room
                == a.list[r.active].is_room
            &&& r.active >= a.list.len() ==> r.list.len() == a.list.len() + 1
                && r.list[r.active].msgs.len() == 0 && !r.list[r.active].is_room && forall|k: int|
                0 <= k < a.list.len() ==> (#[trigger] a.list[k]).id != at
            &&& forall|k: int|
                0 <= k < a.list.len() && k != r.active ==> #[trigger] r.list[k] == a.list[k]
        }),
{
    lemma_with_chat(a, at, false, now);
    lemma_find_chat(a.list, at);
}

/// Renaming changes the id of the chats that have it, and nothing else.
pub proof fn law_renamed(a: ChatsModel, from: Seq<char>, to: Seq<char>)
    ensures
        ({
            let r = renamed(a, from, to);
            &&& r.active == a.active
            &&& r.list.len() == a.list.len()
            &&& forall|k: int|
                0 <= k < a.list.len() ==> #[trigger] r.list[k] == (ChatModel {
                    id: if a.list[k].id == from {
                        to
                    } else {
                        a.list[k].id
                    },
                    ..a.list[k]
                })
        }),
{
}

/// A client that starts has the common room, which is open, and the chat of the
/// server, which is empty; nothing is unread.
pub proof fn law_starting(clock: ClockModel)
    ensures
        ({
            let r = starting(clock);
            &&& r.list.len() == 2 && r.active == 0
            &&& r.list[0].id == chat::ROOM_CHAT@ && r.list[0].is_room && r.list[0].unread == 0
            &&& r.list[1].id == chat::SYS_CHAT@ && !r.list[1].is_room && r.list[1].unread == 0
            &&& r.list[1].msgs.len() == 0
            &&& forall|k: int|
                0 <= k < r.list[0].msgs.len() ==> (#[trigger] r.list[0].msgs[k]).date == clock.date
                    && r.list[0].msgs[k].time == clock.time && r.list[0].msgs[k].kind == 0
                    && r.list[0].msgs[k].read
        }),
{
}

/// Whether chats are others with one message more in the first chat of an id:
/// that chat has its earlier messages before it, goes to the front unless it is
/// the open one, and counts one more unread message unless it is the open one;
/// where there was none it is new. The other chats stay as they are, in the same
/// order, and the open one stays open.
pub open spec fn put_into(a: ChatsModel, r: ChatsModel, id: Seq<char>, is_room: bool) -> bool {
    &&& forall|i: int|
        0 <= i < a.list.len() && (#[trigger] a.list[i]).id == id && (forall|k: int|
            0 <= k < i ==> (#[trigger] a.list[k]).id != id) ==> ({
            let j: int = if a.active == i {
                i
            } else {
                0
            };
            let c = r.list[j];
            &&& r.list.len() == a.list.len()
            &&& r.list.remove(j) == a.list.remove(i)
            &&& c.id == id && c.is_room == a.list[i].is_room
            &&& c.unread == a.list[i].unread + (if a.active == i {
                0int
            } else {
                1
            })
            &&& a.list[i].msgs.len() < 3000 ==> c.msgs.drop_last() == a.list[i].msgs
        })
    &&& (forall|k: int| 0 <= k < a.list.len() ==> (#[trigger] a.list[k]).id != id) ==> ({
        let c = r.list[0];
        &&& r.list.len() == a.list.len() + 1
        &&& r.list.skip(1) == a.list
        &&& c.id == id && c.is_room == is_room && c.unread == 1 && c.msgs.len() == 1
    })
    &&& 0 <= r.active < r.list.len() && r.list[r.active].id == a.list[a.active].id
}

/// A message that is put into a chat changes no other chat, and loses none of
/// its own.
pub proof fn law_put_into(
    a: ChatsModel,
    id: Seq<char>,
    is_room: bool,
    n: NoteModel,
    clock: ClockModel,
)
    requires
        wf(a),
    ensures
        put_into(a, pushed(a, id, is_room, n, clock), id, is_room),
{
    let r = pushed(a, id, is_room, n, clock);
    law_push_keeps_selection(a, id, is_room, n, clock);
    assert forall|i: int|
        0 <= i < a.list.len() && (#[trigger] a.list[i]).id == id && (forall|k: int|
            0 <= k < i ==> (#[trigger] a.list[k]).id != id) implies ({
        let j: int = if a.active == i {
            i
        } else {
            0
        };
        let c = r.list[j];
        &&& r.list.len() == a.list.len()
        &&& r.list.remove(j) == a.list.remove(i)
        &&& c.id == id && c.is_room == a.list[i].is_room
        &&& c.unread == a.list[i].unread + (if a.active == i {
            0int
        } else {
            1
        })
        &&& a.list[i].msgs.len() < 3000 ==> c.msgs.drop_last() == a.list[i].msgs
    }) by {
        law_message_put(a, id, is_room, n, clock, i);
    }
    if forall|k: int| 0 <= k < a.list.len() ==> (#[trigger] a.list[k]).id != id {
        law_message_makes_chat(a, id, is_room, n, clock);
        assert(r.list.skip(1) =~= a.list);
    }
}

} // verus!
