//! The state of the client: the login, the chats, the users, the open windows,
//! and how events and the user change it.

use crate::chat;
use crate::chat::{Clock, ClockModel, User, UserModel};
use crate::chats;
use crate::chats::{Chats, ChatsModel, NoteModel};
use crate::config;
use crate::config::{AccountModel, SavedAccount};
use crate::crypto;
use crate::events;
use crate::events::{Ev, EvModel, UiCmd, UiCmdModel};
use crate::text;
use vstd::prelude::*;

verus! {

/// How long a peer is shown as typing, in nanoseconds.
pub const TYPING_SHOWN: u64 = 4_000_000_000;

/// How long at least passes between two notices that we type, in nanoseconds.
pub const TYPING_PAUSE: u64 = 3_000_000_000;

/// What fills the window.
#[derive(Clone, Copy, PartialEq, Eq, Structural, Debug)]
pub enum Screen {
    Connect,
    Chat,
}

/// What is to be done outside when the state has changed.
pub enum Effect {
    /// The network side is to be told this.
    Send(UiCmd),
    /// The user is to be notified.
    Toast { title: String, body: String },
    /// The account is to be kept for a quick login.
    SaveAccount(SavedAccount),
}

/// The texts of an `Effect`.
pub enum EffectModel {
    Send(UiCmdModel),
    Toast { title: Seq<char>, body: Seq<char> },
    SaveAccount(AccountModel),
}

impl View for Effect {
    type V = EffectModel;

    open spec fn view(&self) -> EffectModel {
        match *self {
            Effect::Send(c) => EffectModel::Send(c@),
            Effect::Toast { title, body } => EffectModel::Toast { title: title@, body: body@ },
            Effect::SaveAccount(a) => EffectModel::SaveAccount(a@),
        }
    }
}

/// The texts of a list of effects.
pub open spec fn effect_views(v: Seq<Effect>) -> Seq<EffectModel> {
    v.map_values(|e: Effect| e@)
}

/// What is filled in to log in.
pub struct Login {
    pub host: String,
    pub port: String,
    /// What is typed as the @username.
    pub at_user: String,
    pub password: String,
    pub reg_nick: String,
    pub reg_bio: String,
    /// Whether an account is to be made.
    pub register: bool,
}

/// The texts of a `Login`.
pub struct LoginModel {
    pub host: Seq<char>,
    pub port: Seq<char>,
    pub at_user: Seq<char>,
    pub password: Seq<char>,
    pub reg_nick: Seq<char>,
    pub reg_bio: Seq<char>,
    pub register: bool,
}

impl View for Login {
    type V = LoginModel;

    open spec fn view(&self) -> LoginModel {
        LoginModel {
            host: self.host@,
            port: self.port@,
            at_user: self.at_user@,
            password: self.password@,
            reg_nick: self.reg_nick@,
            reg_bio: self.reg_bio@,
            register: self.register,
        }
    }
}

/// What is filled in to change the own profile, name or password.
pub struct ProfileForm {
    pub nick: String,
    pub bio: String,
    pub hide: bool,
    pub new_user: String,
    pub old_pass: String,
    pub new_pass: String,
}

/// The texts of a `ProfileForm`.
pub struct ProfileFormModel {
    pub nick: Seq<char>,
    pub bio: Seq<char>,
    pub hide: bool,
    pub new_user: Seq<char>,
    pub old_pass: Seq<char>,
    pub new_pass: Seq<char>,
}

impl View for ProfileForm {
    type V = ProfileFormModel;

    open spec fn view(&self) -> ProfileFormModel {
        ProfileFormModel {
            nick: self.nick@,
            bio: self.bio@,
            hide: self.hide,
            new_user: self.new_user@,
            old_pass: self.old_pass@,
            new_pass: self.new_pass@,
        }
    }
}

/// What is filled in to make a room or to join one.
pub struct RoomForm {
    pub name: String,
    pub pass: String,
}

/// The texts of a `RoomForm`.
pub struct RoomFormModel {
    pub name: Seq<char>,
    pub pass: Seq<char>,
}

impl View for RoomForm {
    type V = RoomFormModel;

    open spec fn view(&self) -> RoomFormModel {
        RoomFormModel { name: self.name@, pass: self.pass@ }
    }
}

/// Which windows are shown.
#[derive(Clone, Copy, PartialEq, Eq, Structural, Debug)]
pub struct Windows {
    pub fingerprints: bool,
    pub profile: bool,
    pub create_room: bool,
    pub join_room: bool,
}

/// The profile of another user, as it is shown.
pub struct Profile {
    pub at: String,
    pub nick: String,
    pub online: bool,
    pub bio: String,
}

/// The texts of a `Profile`.
pub struct ProfileModel {
    pub at: Seq<char>,
    pub nick: Seq<char>,
    pub online: bool,
    pub bio: Seq<char>,
}

impl View for Profile {
    type V = ProfileModel;

    open spec fn view(&self) -> ProfileModel {
        ProfileModel { at: self.at@, nick: self.nick@, online: self.online, bio: self.bio@ }
    }
}

/// The state of the client.
pub struct MeshApp {
    pub screen: Screen,
    pub login: Login,
    /// Whether there is a network side that takes commands.
    pub wired: bool,
    pub authed: bool,
    pub connected: bool,
    /// The own @username.
    pub me: String,
    pub my_nick: String,
    pub my_bio: String,
    pub chats: Chats,
    pub search: String,
    pub search_in_chat: String,
    pub input: String,
    pub users: Vec<User>,
    /// Who typed last, and when.
    pub typing_from: Option<(String, u64)>,
    /// When the last notice that we type was sent.
    pub last_typing_sent: Option<u64>,
    pub windows: Windows,
    pub form: ProfileForm,
    pub create: RoomForm,
    pub join: RoomForm,
    pub whois: Option<Profile>,
    /// What is shown where the login failed.
    pub connect_error: Option<String>,
    pub saved_accounts: Vec<SavedAccount>,
}

/// The contents of a `MeshApp`.
pub struct AppModel {
    pub screen: Screen,
    pub login: LoginModel,
    pub wired: bool,
    pub authed: bool,
    pub connected: bool,
    pub me: Seq<char>,
    pub my_nick: Seq<char>,
    pub my_bio: Seq<char>,
    pub chats: ChatsModel,
    pub search: Seq<char>,
    pub search_in_chat: Seq<char>,
    pub input: Seq<char>,
    pub users: Seq<UserModel>,
    pub typing_from: Option<(Seq<char>, u64)>,
    pub last_typing_sent: Option<u64>,
    pub windows: Windows,
    pub form: ProfileFormModel,
    pub create: RoomFormModel,
    pub join: RoomFormModel,
    pub whois: Option<ProfileModel>,
    pub connect_error: Option<Seq<char>>,
    pub saved_accounts: Seq<AccountModel>,
}

/// Who typed, and when.
pub open spec fn typist(t: Option<(String, u64)>) -> Option<(Seq<char>, u64)> {
    match t {
        Some(p) => Some((p.0@, p.1)),
        None => None,
    }
}

/// The profile that is shown.
pub open spec fn card(p: Option<Profile>) -> Option<ProfileModel> {
    match p {
        Some(p) => Some(p@),
        None => None,
    }
}

impl View for MeshApp {
    type V = AppModel;

    open spec fn view(&self) -> AppModel {
        AppModel {
            screen: self.screen,
            login: self.login@,
            wired: self.wired,
            authed: self.authed,
            connected: self.connected,
            me: self.me@,
            my_nick: self.my_nick@,
            my_bio: self.my_bio@,
            chats: self.chats@,
            search: self.search@,
            search_in_chat: self.search_in_chat@,
            input: self.input@,
            users: chat::user_models(self.users@),
            typing_from: typist(self.typing_from),
            last_typing_sent: self.last_typing_sent,
            windows: self.windows,
            form: self.form@,
            create: self.create@,
            join: self.join@,
            whois: card(self.whois),
            connect_error: crypto::text_in(self.connect_error),
            saved_accounts: config::account_views(self.saved_accounts@),
        }
    }
}

/// The state is in order: the open chat is one of the chats.
pub open spec fn wf(a: AppModel) -> bool {
    chats::wf(a.chats)
}

/// The state with one message more in a chat.
pub open spec fn pushed(
    a: AppModel,
    id: Seq<char>,
    is_room: bool,
    n: NoteModel,
    clock: ClockModel,
) -> AppModel {
    AppModel { chats: chats::pushed(a.chats, id, is_room, n, clock), ..a }
}

/// The state with one message more from the client itself.
pub open spec fn noted(
    a: AppModel,
    sender: Seq<char>,
    text: Seq<char>,
    kind: u8,
    clock: ClockModel,
) -> AppModel {
    pushed(a, chat::SYS_CHAT@, false, NoteModel { mine: false, sender, text, kind }, clock)
}

/// Where the first user of an @username stands, or the number of users.
pub open spec fn find_user(users: Seq<UserModel>, at: Seq<char>) -> int {
    text::index_of(users.map_values(|u: UserModel| u.at), at)
}

/// The name under which the owner of an @username is shown.
pub open spec fn name_of(a: AppModel, at: Seq<char>) -> Seq<char> {
    if at == a.me {
        a.my_nick
    } else if find_user(a.users, at) < a.users.len() {
        chat::shown_name(a.users[find_user(a.users, at)])
    } else {
        text::trim_front(at, text::Class::Only('@'))
    }
}

/// The users in a list that the server gave, but for ourselves.
pub open spec fn users_of(list: Seq<(Seq<char>, Seq<char>, bool)>, me: Seq<char>) -> Seq<UserModel>
    decreases list.len(),
{
    if list.len() == 0 {
        Seq::empty()
    } else {
        let before = users_of(list.drop_last(), me);
        let u = list.last();
        if u.1 != me {
            before.push(UserModel { nick: u.0, at: u.1, online: u.2 })
        } else {
            before
        }
    }
}

/// The users after one came or went. One that was not listed is listed when it
/// comes; an empty nick does not replace the one that is known.
pub open spec fn users_after(
    users: Seq<UserModel>,
    user: Seq<char>,
    online: bool,
    nick: Seq<char>,
) -> Seq<UserModel> {
    let i = find_user(users, user);
    if i < users.len() {
        users.update(
            i,
            UserModel {
                online,
                nick: if nick.len() > 0 {
                    nick
                } else {
                    users[i].nick
                },
                ..users[i]
            },
        )
    } else if online {
        users.push(UserModel { nick, at: user, online: true })
    } else {
        users
    }
}

/// Whether the chat of a peer is the open one.
pub open spec fn is_open(a: AppModel, id: Seq<char>) -> bool {
    a.chats.active == chats::find_chat(a.chats.list, id)
}

/// The state after an event.
pub open spec fn after_event(a: AppModel, ev: EvModel, clock: ClockModel) -> AppModel {
    match ev {
        EvModel::Line(t) => if t == "__DISCONNECTED__"@ {
            noted(
                AppModel { connected: false, authed: false, ..a },
                "система"@,
                "⛔ Соединение потеряно."@,
                chat::KIND_ERROR,
                clock,
            )
        } else {
            noted(a, "сервер"@, t, chat::KIND_TEXT, clock)
        },
        EvModel::Warn(t) => noted(a, "⚠ TOFU"@, t, chat::KIND_WARNING, clock),
        EvModel::Error(t) => if a.screen == Screen::Connect {
            AppModel { connect_error: Some(t), ..a }
        } else {
            noted(a, "ошибка"@, t, chat::KIND_ERROR, clock)
        },
        EvModel::Authed => noted(
            AppModel {
                authed: true,
                connect_error: None,
                screen: Screen::Chat,
                login: LoginModel { password: Seq::empty(), ..a.login },
                ..a
            },
            "система"@,
            "✅ Вход выполнен. Можно общаться!"@,
            chat::KIND_TEXT,
            clock,
        ),
        EvModel::UserList(list) => AppModel { users: users_of(list, a.me), ..a },
        EvModel::Presence { user, online, nick } => if user == a.me {
            a
        } else {
            AppModel { users: users_after(a.users, user, online, nick), ..a }
        },
        EvModel::Profile { user, nick, online, bio } => AppModel {
            whois: Some(ProfileModel { at: user, nick, online, bio }),
            ..a
        },
        EvModel::ProfileSaved { nick, bio, hide } => noted(
            AppModel {
                my_nick: nick,
                my_bio: bio,
                form: ProfileFormModel { nick, bio, hide, ..a.form },
                ..a
            },
            "система"@,
            "✅ Профиль сохранён"@,
            chat::KIND_TEXT,
            clock,
        ),
        EvModel::UsernameChanged(nu) => noted(
            AppModel {
                me: nu,
                login: LoginModel { at_user: nu, ..a.login },
                chats: chats::renamed(a.chats, a.me, nu),
                ..a
            },
            "система"@,
            "✅ @username сменён на "@ + nu,
            chat::KIND_TEXT,
            clock,
        ),
        EvModel::PasswordChanged => noted(
            AppModel {
                form: ProfileFormModel {
                    old_pass: Seq::empty(),
                    new_pass: Seq::empty(),
                    ..a.form
                },
                ..a
            },
            "система"@,
            "✅ Пароль изменён"@,
            chat::KIND_TEXT,
            clock,
        ),
        EvModel::RoomChanged(room) => noted(
            AppModel { chats: room_entered(a.chats, "# "@ + room, clock.now), ..a },
            "система"@,
            "Вы вошли в комнату "@ + room,
            chat::KIND_TEXT,
            clock,
        ),
        EvModel::Rooms(_) => a,
        EvModel::Typing { from } => AppModel { typing_from: Some((from, clock.now)), ..a },
        EvModel::Msg { from, text } => if from == a.me {
            a
        } else {
            pushed(
                a,
                from,
                false,
                NoteModel { mine: false, sender: name_of(a, from), text, kind: chat::KIND_TEXT },
                clock,
            )
        },
        EvModel::FileMsg { from, name } => pushed(
            a,
            from,
            false,
            NoteModel {
                mine: false,
                sender: name_of(a, from),
                text: "📎 файл «"@ + name + "» сохранён в downloads/"@,
                kind: chat::KIND_FILE,
            },
            clock,
        ),
    }
}

/// The chats as an event leaves them before a message is put into one.
pub open spec fn before_push(a: AppModel, ev: EvModel, clock: ClockModel) -> ChatsModel {
    match ev {
        EvModel::UsernameChanged(nu) => chats::renamed(a.chats, a.me, nu),
        EvModel::RoomChanged(room) => room_entered(a.chats, "# "@ + room, clock.now),
        _ => a.chats,
    }
}

/// The chat that an event puts a message into, where it does.
pub open spec fn chat_of(a: AppModel, ev: EvModel) -> Option<Seq<char>> {
    match ev {
        EvModel::Error(_) => if a.screen == Screen::Connect {
            None
        } else {
            Some(chat::SYS_CHAT@)
        },
        EvModel::Msg { from, text } => if from == a.me {
            None
        } else {
            Some(from)
        },
        EvModel::FileMsg { from, name } => Some(from),
        EvModel::UserList(_) => None,
        EvModel::Presence { .. } => None,
        EvModel::Profile { .. } => None,
        EvModel::Rooms(_) => None,
        EvModel::Typing { .. } => None,
        _ => Some(chat::SYS_CHAT@),
    }
}

/// Whether the message that comes of an event can be counted in its chat.
pub open spec fn counts(a: AppModel, ev: EvModel, clock: ClockModel) -> bool {
    chat_of(a, ev) matches Some(id) ==> chats::counts(before_push(a, ev, clock), id)
}

/// Whether the messages that come of several events, in order, can be counted
/// in their chats.
pub open spec fn all_counted(a: AppModel, evs: Seq<EvModel>, clock: ClockModel) -> bool {
    forall|k: int|
        0 <= k < evs.len() ==> counts(
            after_events(a, evs.take(k), clock),
            #[trigger] evs[k],
            clock,
        )
}

/// The chats with the one of a room opened, which is new where there was none.
pub open spec fn room_entered(a: ChatsModel, id: Seq<char>, now: u64) -> ChatsModel {
    let b = chats::with_chat(a, id, true, now);
    chats::selected(b, chats::find_chat(b.list, id))
}

/// A command to the network side, where there is one.
pub open spec fn sent(a: AppModel, cmd: UiCmdModel) -> Seq<EffectModel> {
    if a.wired {
        seq![EffectModel::Send(cmd)]
    } else {
        Seq::empty()
    }
}

/// What is to be done outside after an event.
pub open spec fn effects_of(a: AppModel, ev: EvModel) -> Seq<EffectModel> {
    match ev {
        EvModel::Authed => seq![
            EffectModel::SaveAccount(
                AccountModel {
                    username: a.me,
                    password: a.login.password,
                    host: a.login.host,
                    port: a.login.port,
                },
            ),
        ] + sent(a, UiCmdModel::RefreshUsers) + sent(a, UiCmdModel::RefreshRooms),
        EvModel::Msg { from, text } => if from == a.me || is_open(a, from) {
            Seq::empty()
        } else {
            seq![EffectModel::Toast { title: name_of(a, from), body: text }]
        },
        _ => Seq::empty(),
    }
}

/// The state after several events, in order.
pub open spec fn after_events(a: AppModel, evs: Seq<EvModel>, clock: ClockModel) -> AppModel
    decreases evs.len(),
{
    if evs.len() == 0 {
        a
    } else {
        after_event(after_events(a, evs.drop_last(), clock), evs.last(), clock)
    }
}

/// What is to be done outside after several events, in order.
pub open spec fn effects_of_all(a: AppModel, evs: Seq<EvModel>, clock: ClockModel) -> Seq<
    EffectModel,
>
    decreases evs.len(),
{
    if evs.len() == 0 {
        Seq::empty()
    } else {
        effects_of_all(a, evs.drop_last(), clock) + effects_of(
            after_events(a, evs.drop_last(), clock),
            evs.last(),
        )
    }
}

/// The state without a typist who typed too long ago.
pub open spec fn typing_expired(a: AppModel, now: u64) -> AppModel {
    match a.typing_from {
        Some(t) => if now - t.1 > TYPING_SHOWN {
            AppModel { typing_from: None, ..a }
        } else {
            a
        },
        None => a,
    }
}

/// Appends an effect.
pub fn add_effect(fx: &mut Vec<Effect>, e: Effect)
    ensures
        effect_views(final(fx)@) == effect_views(old(fx)@).push(e@),
{
    fx.push(e);
    assert(effect_views(fx@) =~= effect_views(old(fx)@).push(e@));
}

impl MeshApp {
    /// Has the network side told something, where there is one.
    pub fn send_ui(&self, fx: &mut Vec<Effect>, cmd: UiCmd)
        ensures
            effect_views(final(fx)@) == effect_views(old(fx)@) + sent(self@, cmd@),
    {
        let ghost before = effect_views(fx@);
        if self.wired {
            add_effect(fx, Effect::Send(cmd));
            assert(before.push(EffectModel::Send(cmd@)) =~= before + sent(self@, cmd@));
        } else {
            assert(before =~= before + sent(self@, cmd@));
        }
    }

    /// Puts a message into a chat.
    pub fn push_msg(
        &mut self,
        chat_id: &str,
        is_room: bool,
        mine: bool,
        sender: &str,
        text: &str,
        kind: u8,
        clock: &Clock,
    )
        requires
            wf(old(self)@),
            chats::counts(old(self)@.chats, chat_id@),
        ensures
            final(self)@ == pushed(
                old(self)@,
                chat_id@,
                is_room,
                (NoteModel { mine, sender: sender@, text: text@, kind }),
                clock@,
            ),
            wf(final(self)@),
    {
        self.chats.push_msg(chat_id, is_room, mine, sender, text, kind, clock);
    }

    /// Puts a message from the client itself into the chat for these.
    fn note(&mut self, sender: &str, text: &str, kind: u8, clock: &Clock)
        requires
            wf(old(self)@),
            chats::counts(old(self)@.chats, chat::SYS_CHAT@),
        ensures
            final(self)@ == noted(old(self)@, sender@, text@, kind, clock@),
            wf(final(self)@),
    {
        self.push_msg(chat::SYS_CHAT, false, false, sender, text, kind, clock);
    }

    /// Where the first user of an @username stands, or the number of users.
    pub fn user_index(&self, at: &str) -> (r: usize)
        ensures
            r == find_user(self@.users, at@),
            r <= self.users@.len(),
    {
        let ghost us = self@.users.map_values(|u: UserModel| u.at);
        let mut i: usize = 0;
        while i < self.users.len() && !text::same(self.users[i].at.as_str(), at)
            invariant
                i <= self.users@.len(),
                us == self@.users.map_values(|u: UserModel| u.at),
                forall|k: int| 0 <= k < i ==> us[k] != at@,
            decreases self.users@.len() - i,
        {
            assert(us[i as int] == self.users@[i as int].at@);
            i += 1;
        }
        proof {
            if i < self.users@.len() {
                assert(us[i as int] == self.users@[i as int].at@);
            }
            text::lemma_index_of_is(us, at@, i as int);
        }
        i
    }

    /// The name under which the owner of an @username is shown.
    pub fn display_name(&self, at: &str) -> (r: String)
        ensures
            r@ == name_of(self@, at@),
    {
        if text::same(at, self.me.as_str()) {
            return self.my_nick.clone();
        }
        let i = self.user_index(at);
        if i < self.users.len() {
            assert(self@.users[i as int] == self.users@[i as int]@);
            text::own(self.users[i].display())
        } else {
            text::trim_start_of(at, text::Class::Only('@'))
        }
    }

    /// Takes over the list of users, but for ourselves.
    fn set_users(&mut self, list: Vec<(String, String, bool)>)
        ensures
            final(self)@ == (AppModel {
                users: users_of(events::user_views(list@), old(self)@.me),
                ..old(self)@
            }),
    {
        let ghost vs = events::user_views(list@);
        let ghost me = self.me@;
        let mut users: Vec<User> = Vec::new();
        let mut i: usize = 0;
        assert(vs.take(0) =~= Seq::empty());
        assert(chat::user_models(users@) =~= Seq::empty());
        while i < list.len()
            invariant
                i <= list@.len(),
                vs == events::user_views(list@),
                me == self.me@,
                chat::user_models(users@) == users_of(vs.take(i as int), me),
            decreases list@.len() - i,
        {
            assert(vs.take(i + 1).drop_last() =~= vs.take(i as int));
            let u = &list[i];
            assert(vs[i as int] == (u.0@, u.1@, u.2));
            if !text::same(u.1.as_str(), self.me.as_str()) {
                let ghost before = users@;
                let ghost m = UserModel { nick: u.0@, at: u.1@, online: u.2 };
                users.push(User { nick: u.0.clone(), at: u.1.clone(), online: u.2 });
                assert(chat::user_models(users@) =~= chat::user_models(before).push(m));
            }
            i += 1;
        }
        assert(vs.take(i as int) =~= vs);
        self.users = users;
    }

    /// Takes note that a user came or went.
    fn set_presence(&mut self, user: String, online: bool, nick: String)
        ensures
            final(self)@ == (AppModel {
                users: users_after(old(self)@.users, user@, online, nick@),
                ..old(self)@
            }),
    {
        let ghost a = self@;
        let ghost want = users_after(a.users, user@, online, nick@);
        let i = self.user_index(user.as_str());
        let ghost before = self.users@;
        if i < self.users.len() {
            assert(a.users[i as int] == before[i as int]@);
            let mut u = self.users.remove(i);
            u.online = online;
            if !nick.as_str().is_empty() {
                u.nick = nick;
            }
            self.users.insert(i, u);
            assert(chat::user_models(self.users@) =~= want);
        } else if online {
            self.users.push(User { nick, at: user, online: true });
            assert(chat::user_models(self.users@) =~= want);
        }
    }

    /// Opens the chat of a room.
    fn enter_room(&mut self, id: &str, now: u64)
        requires
            wf(old(self)@),
        ensures
            final(self)@ == (AppModel {
                chats: room_entered(old(self)@.chats, id@, now),
                ..old(self)@
            }),
            wf(final(self)@),
    {
        let i = self.chats.chat_index(id, true, now);
        self.chats.select(i);
    }

    /// Takes note of a line of the server, or that the connection is lost.
    fn on_line(&mut self, t: &str, clock: &Clock)
        requires
            wf(old(self)@),
            ready(old(self)@, EvModel::Line(t@), clock@),
        ensures
            final(self)@ == stepped(old(self)@, EvModel::Line(t@), clock@),
    {
        proof {
            reveal(stepped);
            reveal(ready);
        }
        if text::same(t, "__DISCONNECTED__") {
            self.connected = false;
            self.authed = false;
            self.note("система", "⛔ Соединение потеряно.", chat::KIND_ERROR, clock);
        } else {
            self.note("сервер", t, chat::KIND_TEXT, clock);
        }
    }

    /// Takes note of a warning.
    fn on_warning(&mut self, t: &str, clock: &Clock)
        requires
            wf(old(self)@),
            ready(old(self)@, EvModel::Warn(t@), clock@),
        ensures
            final(self)@ == stepped(old(self)@, EvModel::Warn(t@), clock@),
    {
        proof {
            reveal(stepped);
            reveal(ready);
        }
        self.note("⚠ TOFU", t, chat::KIND_WARNING, clock);
    }

    /// Takes note of an error; one at the login is shown there.
    fn on_error(&mut self, t: String, clock: &Clock)
        requires
            wf(old(self)@),
            ready(old(self)@, EvModel::Error(t@), clock@),
        ensures
            final(self)@ == stepped(old(self)@, EvModel::Error(t@), clock@),
    {
        proof {
            reveal(stepped);
            reveal(ready);
        }
        if self.screen == Screen::Connect {
            self.connect_error = Some(t);
        } else {
            self.note("ошибка", t.as_str(), chat::KIND_ERROR, clock);
        }
    }

    /// Takes over the list of users.
    fn on_users(&mut self, list: Vec<(String, String, bool)>, clock: &Clock)
        ensures
            final(self)@ == stepped(old(self)@, EvModel::UserList(events::user_views(list@)), clock@),
    {
        proof {
            reveal(stepped);
        }
        self.set_users(list);
    }

    /// Takes note that a user came or went.
    fn on_presence(&mut self, user: String, online: bool, nick: String, clock: &Clock)
        ensures
            final(self)@ == stepped(old(self)@, (EvModel::Presence { user: user@, online, nick: nick@ }), clock@),
    {
        proof {
            reveal(stepped);
        }
        if !text::same(user.as_str(), self.me.as_str()) {
            self.set_presence(user, online, nick);
        }
    }

    /// Shows the profile of a user.
    fn on_profile(&mut self, user: String, nick: String, online: bool, bio: String, clock: &Clock)
        ensures
            final(self)@ == stepped(old(self)@, (EvModel::Profile { user: user@, nick: nick@, online, bio: bio@ }), clock@),
    {
        proof {
            reveal(stepped);
        }
        self.whois = Some(Profile { at: user, nick, online, bio });
    }

    /// Takes over the own profile.
    fn on_profile_saved(&mut self, nick: String, bio: String, hide: bool, clock: &Clock)
        requires
            wf(old(self)@),
            ready(old(self)@, (EvModel::ProfileSaved { nick: nick@, bio: bio@, hide }), clock@),
        ensures
            final(self)@ == stepped(old(self)@, (EvModel::ProfileSaved { nick: nick@, bio: bio@, hide }), clock@),
    {
        proof {
            reveal(stepped);
            reveal(ready);
        }
        self.my_nick = nick.clone();
        self.my_bio = bio.clone();
        self.form.nick = nick;
        self.form.bio = bio;
        self.form.hide = hide;
        self.note("система", "✅ Профиль сохранён", chat::KIND_TEXT, clock);
    }

    /// Forgets the passwords that were typed to change the own one.
    fn on_password_changed(&mut self, clock: &Clock)
        requires
            wf(old(self)@),
            ready(old(self)@, EvModel::PasswordChanged, clock@),
        ensures
            final(self)@ == stepped(old(self)@, EvModel::PasswordChanged, clock@),
    {
        proof {
            reveal(stepped);
            reveal(ready);
        }
        self.form.old_pass = String::new();
        self.form.new_pass = String::new();
        self.note("система", "✅ Пароль изменён", chat::KIND_TEXT, clock);
    }

    /// Takes note that a peer types.
    fn on_typing(&mut self, from: String, clock: &Clock)
        ensures
            final(self)@ == stepped(old(self)@, (EvModel::Typing { from: from@ }), clock@),
    {
        proof {
            reveal(stepped);
        }
        self.typing_from = Some((from, clock.now));
    }

    /// Takes note of a file in the chat of the peer who sent it.
    fn on_file_msg(&mut self, from: &str, name: &str, clock: &Clock)
        requires
            wf(old(self)@),
            ready(old(self)@, (EvModel::FileMsg { from: from@, name: name@ }), clock@),
        ensures
            final(self)@ == stepped(old(self)@, (EvModel::FileMsg { from: from@, name: name@ }), clock@),
    {
        proof {
            reveal(stepped);
            reveal(ready);
        }
        let who = self.display_name(from);
        let t = text::cat3("📎 файл «", name, "» сохранён в downloads/");
        self.push_msg(from, false, false, who.as_str(), t.as_str(), chat::KIND_FILE, clock);
    }

    /// Deals with an event whose message can be counted.
    fn take_event(&mut self, fx: &mut Vec<Effect>, ev: Ev, clock: &Clock)
        requires
            wf(old(self)@),
            ready(old(self)@, ev@, clock@),
        ensures
            final(self)@ == stepped(old(self)@, ev@, clock@),
            effect_views(final(fx)@) == effect_views(old(fx)@) + called_for(old(self)@, ev@),
            wf(final(self)@),
    {
        let ghost f = effect_views(fx@);
        proof {
            assert(f + Seq::<EffectModel>::empty() =~= f);
            lemma_quiet(self@, ev@, clock@);
            lemma_stepped_keeps(self@, ev@, clock@);
        }
        match ev {
            Ev::Line(t) => {
                self.on_line(t.as_str(), clock);
            },
            Ev::Warn(t) => {
                self.on_warning(t.as_str(), clock);
            },
            Ev::Error(t) => {
                self.on_error(t, clock);
            },
            Ev::Authed => {
                self.on_authed(fx, clock);
            },
            Ev::UserList(list) => {
                self.on_users(list, clock);
            },
            Ev::Presence { user, online, nick } => {
                self.on_presence(user, online, nick, clock);
            },
            Ev::Profile { user, nick, online, bio } => {
                self.on_profile(user, nick, online, bio, clock);
            },
            Ev::ProfileSaved { nick, bio, hide } => {
                self.on_profile_saved(nick, bio, hide, clock);
            },
            Ev::UsernameChanged(nu) => {
                self.on_renamed(nu, clock);
            },
            Ev::PasswordChanged => {
                self.on_password_changed(clock);
            },
            Ev::RoomChanged(room) => {
                self.on_room_changed(room.as_str(), clock);
            },
            Ev::Rooms(_) => {},
            Ev::Typing { from } => {
                self.on_typing(from, clock);
            },
            Ev::Msg { from, text } => {
                self.on_message(fx, from.as_str(), text.as_str(), clock);
            },
            Ev::FileMsg { from, name } => {
                self.on_file_msg(from.as_str(), name.as_str(), clock);
            },
        }
    }

    /// Deals with an event.
    pub fn handle_event(&mut self, fx: &mut Vec<Effect>, ev: Ev, clock: &Clock)
        requires
            wf(old(self)@),
            counts(old(self)@, ev@, clock@),
        ensures
            final(self)@ == after_event(old(self)@, ev@, clock@),
            effect_views(final(fx)@) == effect_views(old(fx)@) + effects_of(old(self)@, ev@),
            wf(final(self)@),
    {
        proof {
            reveal(ready);
            reveal(stepped);
            reveal(called_for);
        }
        self.take_event(fx, ev, clock);
    }

    /// Opens the chats when the login is done.
    fn on_authed(&mut self, fx: &mut Vec<Effect>, clock: &Clock)
        requires
            wf(old(self)@),
            ready(old(self)@, EvModel::Authed, clock@),
        ensures
            final(self)@ == stepped(old(self)@, EvModel::Authed, clock@),
            effect_views(final(fx)@) == effect_views(old(fx)@) + called_for(
                old(self)@,
                EvModel::Authed,
            ),
    {
        proof {
            reveal(stepped);
            reveal(ready);
            reveal(called_for);
        }
        let ghost a = self@;
        let ghost f = effect_views(fx@);
        self.authed = true;
        self.connect_error = None;
        self.screen = Screen::Chat;
        let mut password = String::new();
        std::mem::swap(&mut password, &mut self.login.password);
        add_effect(
            fx,
            Effect::SaveAccount(
                SavedAccount {
                    username: self.me.clone(),
                    password,
                    host: self.login.host.clone(),
                    port: self.login.port.clone(),
                },
            ),
        );
        self.note("система", "✅ Вход выполнен. Можно общаться!", chat::KIND_TEXT, clock);
        self.send_ui(fx, UiCmd::RefreshUsers);
        self.send_ui(fx, UiCmd::RefreshRooms);
        assert(effect_views(fx@) =~= f + effects_of(a, EvModel::Authed));
    }

    /// Takes over a new @username.
    fn on_renamed(&mut self, nu: String, clock: &Clock)
        requires
            wf(old(self)@),
            ready(old(self)@, EvModel::UsernameChanged(nu@), clock@),
        ensures
            final(self)@ == stepped(old(self)@, EvModel::UsernameChanged(nu@), clock@),
    {
        proof {
            reveal(stepped);
            reveal(ready);
        }
        let was = self.me.clone();
        self.me = nu.clone();
        self.login.at_user = nu.clone();
        self.chats.rename(was.as_str(), nu.as_str());
        let t = text::cat("✅ @username сменён на ", nu.as_str());
        self.note("система", t.as_str(), chat::KIND_TEXT, clock);
    }

    /// Opens the chat of a room that was entered.
    fn on_room_changed(&mut self, room: &str, clock: &Clock)
        requires
            wf(old(self)@),
            ready(old(self)@, EvModel::RoomChanged(room@), clock@),
        ensures
            final(self)@ == stepped(old(self)@, EvModel::RoomChanged(room@), clock@),
    {
        proof {
            reveal(stepped);
            reveal(ready);
        }
        let id = text::cat("# ", room);
        self.enter_room(id.as_str(), clock.now);
        let t = text::cat("Вы вошли в комнату ", room);
        self.note("система", t.as_str(), chat::KIND_TEXT, clock);
    }

    /// Puts a message of a peer into its chat; the user is notified where that
    /// is not the open one.
    fn on_message(&mut self, fx: &mut Vec<Effect>, from: &str, text: &str, clock: &Clock)
        requires
            wf(old(self)@),
            ready(old(self)@, (EvModel::Msg { from: from@, text: text@ }), clock@),
        ensures
            final(self)@ == stepped(
                old(self)@,
                (EvModel::Msg { from: from@, text: text@ }),
                clock@,
            ),
            effect_views(final(fx)@) == effect_views(old(fx)@) + called_for(
                old(self)@,
                (EvModel::Msg { from: from@, text: text@ }),
            ),
    {
        proof {
            reveal(stepped);
            reveal(ready);
            reveal(called_for);
        }
        let ghost f = effect_views(fx@);
        assert(f + Seq::<EffectModel>::empty() =~= f);
        if text::same(from, self.me.as_str()) {
            return;
        }
        let name = self.display_name(from);
        if self.chats.active != self.chats.position(from) {
            let ghost e = EffectModel::Toast { title: name@, body: text@ };
            add_effect(fx, Effect::Toast { title: name.clone(), body: text::own(text) });
            assert(f.push(e) =~= f + seq![e]);
        }
        self.push_msg(from, false, false, name.as_str(), text, chat::KIND_TEXT, clock);
    }

    /// Deals with events, in order.
    fn take_events(&mut self, fx: &mut Vec<Effect>, evs: Vec<Ev>, clock: &Clock)
        requires
            wf(old(self)@),
            all_ready(old(self)@, events::ev_views(evs@), clock@),
        ensures
            final(self)@ == after_events(old(self)@, events::ev_views(evs@), clock@),
            effect_views(final(fx)@) == effect_views(old(fx)@) + effects_of_all(
                old(self)@,
                events::ev_views(evs@),
                clock@,
            ),
            wf(final(self)@),
    {
        let ghost a = self@;
        let ghost vs = events::ev_views(evs@);
        let ghost f = effect_views(fx@);
        let mut evs = evs;
        let ghost mut done: int = 0;
        let ghost all = evs@;
        proof {
            assert(f + Seq::<EffectModel>::empty() =~= f);
            lemma_run_ends(a, vs, clock@);
        }
        while evs.len() > 0
            invariant
                0 <= done,
                done + evs@.len() == all.len(),
                vs == events::ev_views(all),
                evs@ == all.skip(done),
                wf(self@),
                all_ready(a, vs, clock@),
                self@ == ran(a, vs, done, clock@),
                effect_views(fx@) == f + acted(a, vs, done, clock@),
            decreases evs@.len(),
        {
            let ev = evs.remove(0);
            proof {
                assert(ev@ == vs[done]);
                lemma_run(a, vs, done, clock@);
            }
            self.take_event(fx, ev, clock);
            proof {
                assert(evs@ =~= all.skip(done + 1));
                assert(effect_views(fx@) =~= f + acted(a, vs, done + 1, clock@));
                done = done + 1;
            }
        }
    }

    /// Deals with the events that came, in order; then the notice that a peer
    /// types goes, where it is too old.
    pub fn poll_events(&mut self, fx: &mut Vec<Effect>, evs: Vec<Ev>, clock: &Clock)
        requires
            wf(old(self)@),
            old(self).wired ==> all_counted(old(self)@, events::ev_views(evs@), clock@),
        ensures
            old(self).wired ==> final(self)@ == typing_expired(
                after_events(old(self)@, events::ev_views(evs@), clock@),
                clock.now,
            ),
            old(self).wired ==> effect_views(final(fx)@) == effect_views(old(fx)@)
                + effects_of_all(old(self)@, events::ev_views(evs@), clock@),
            !old(self).wired ==> *final(self) == *old(self) && *final(fx) == *old(fx),
            wf(final(self)@),
    {
        if !self.wired {
            return;
        }
        proof {
            lemma_all_ready(self@, events::ev_views(evs@), clock@);
        }
        self.take_events(fx, evs, clock);
        self.expire_typing(clock.now);
    }

    /// The notice that a peer types goes, where it is too old.
    fn expire_typing(&mut self, now: u64)
        ensures
            final(self)@ == typing_expired(old(self)@, now),
    {
        let gone = match &self.typing_from {
            Some(t) => now > t.1 && now - t.1 > TYPING_SHOWN,
            None => false,
        };
        if gone {
            self.typing_from = None;
        }
    }
}

/// The same as `counts`, kept folded where it need not be seen into.
#[verifier::opaque]
spec fn ready(a: AppModel, ev: EvModel, clock: ClockModel) -> bool {
    counts(a, ev, clock)
}

/// The same as `all_counted`, kept folded where it need not be seen into.
#[verifier::opaque]
spec fn all_ready(a: AppModel, evs: Seq<EvModel>, clock: ClockModel) -> bool {
    all_counted(a, evs, clock)
}

proof fn lemma_all_ready(a: AppModel, evs: Seq<EvModel>, clock: ClockModel)
    requires
        all_counted(a, evs, clock),
    ensures
        all_ready(a, evs, clock),
{
    reveal(all_ready);
}

/// The same as `after_event`, kept folded where it need not be seen into.
#[verifier::opaque]
spec fn stepped(a: AppModel, ev: EvModel, clock: ClockModel) -> AppModel {
    after_event(a, ev, clock)
}

/// The same as `effects_of`, kept folded where it need not be seen into.
#[verifier::opaque]
spec fn called_for(a: AppModel, ev: EvModel) -> Seq<EffectModel> {
    effects_of(a, ev)
}

/// The state after the first `k` of several events.
#[verifier::opaque]
spec fn ran(a: AppModel, evs: Seq<EvModel>, k: int, clock: ClockModel) -> AppModel {
    after_events(a, evs.take(k), clock)
}

/// What is to be done outside after the first `k` of several events.
#[verifier::opaque]
spec fn acted(a: AppModel, evs: Seq<EvModel>, k: int, clock: ClockModel) -> Seq<EffectModel> {
    effects_of_all(a, evs.take(k), clock)
}

proof fn lemma_quiet(a: AppModel, ev: EvModel, clock: ClockModel)
    ensures
        ev !is Authed && ev !is Msg ==> called_for(a, ev) == Seq::<EffectModel>::empty(),
        ev is Rooms ==> stepped(a, ev, clock) == a,
{
    reveal(stepped);
    reveal(called_for);
}

proof fn lemma_stepped_keeps(a: AppModel, ev: EvModel, clock: ClockModel)
    requires
        wf(a),
    ensures
        wf(stepped(a, ev, clock)),
{
    reveal(stepped);
    lemma_event_keeps(a, ev, clock);
}

proof fn lemma_run(a: AppModel, evs: Seq<EvModel>, k: int, clock: ClockModel)
    requires
        0 <= k < evs.len(),
    ensures
        ran(a, evs, k + 1, clock) == stepped(ran(a, evs, k, clock), evs[k], clock),
        acted(a, evs, k + 1, clock) == acted(a, evs, k, clock) + called_for(
            ran(a, evs, k, clock),
            evs[k],
        ),
        all_ready(a, evs, clock) ==> ready(ran(a, evs, k, clock), evs[k], clock),
{
    reveal(ready);
    reveal(all_ready);
    reveal(stepped);
    reveal(called_for);
    reveal(ran);
    reveal(acted);
    assert(evs.take(k + 1).drop_last() =~= evs.take(k));
    assert(evs.take(k + 1).last() == evs[k]);
}

proof fn lemma_run_ends(a: AppModel, evs: Seq<EvModel>, clock: ClockModel)
    ensures
        ran(a, evs, 0, clock) == a,
        acted(a, evs, 0, clock) == Seq::<EffectModel>::empty(),
        ran(a, evs, evs.len() as int, clock) == after_events(a, evs, clock),
        acted(a, evs, evs.len() as int, clock) == effects_of_all(a, evs, clock),
{
    reveal(ran);
    reveal(acted);
    assert(evs.take(0) =~= Seq::empty());
    assert(evs.take(evs.len() as int) =~= evs);
}

proof fn lemma_room_less(a: ChatsModel, n: nat, m: nat)
    requires
        n <= m,
        chats::room_for(a, m),
    ensures
        chats::room_for(a, n),
{
    assert forall|i: int| 0 <= i < a.list.len() implies (#[trigger] a.list[i]).unread + n
        <= usize::MAX by {
        assert(a.list[i].unread + m <= usize::MAX);
    }
}

proof fn lemma_renamed_room(a: ChatsModel, me: Seq<char>, ev: EvModel, n: nat)
    requires
        chats::room_for(a, n),
    ensures
        ev matches EvModel::UsernameChanged(nu) ==> chats::room_for(
            chats::renamed(a, me, nu),
            n,
        ),
{
    if let EvModel::UsernameChanged(nu) = ev {
        let r = chats::renamed(a, me, nu);
        assert forall|i: int| 0 <= i < r.list.len() implies (#[trigger] r.list[i]).unread + n
            <= usize::MAX by {
            assert(a.list[i].unread + n <= usize::MAX);
        }
    }
}

proof fn lemma_entered_room(a: ChatsModel, ev: EvModel, clock: ClockModel, n: nat)
    requires
        chats::wf(a),
        chats::room_for(a, n),
    ensures
        ev matches EvModel::RoomChanged(room) ==> chats::room_for(
            room_entered(a, "# "@ + room, clock.now),
            n,
        ),
{
    if let EvModel::RoomChanged(room) = ev {
        let id = "# "@ + room;
        chats::lemma_with_chat(a, id, true, clock.now);
        let b = chats::with_chat(a, id, true, clock.now);
        let r = room_entered(a, id, clock.now);
        assert(chats::room_for(b, n));
        assert forall|i: int| 0 <= i < r.list.len() implies (#[trigger] r.list[i]).unread + n
            <= usize::MAX by {
            assert(b.list[i].unread + n <= usize::MAX);
        }
    }
}

/// An event leaves the state in order.
pub proof fn lemma_event_keeps(a: AppModel, ev: EvModel, clock: ClockModel)
    requires
        wf(a),
    ensures
        wf(after_event(a, ev, clock)),
{
    lemma_before_push(a, ev, clock);
    let mid = before_push(a, ev, clock);
    assert forall|id: Seq<char>, n: NoteModel|
        chats::wf(#[trigger] chats::pushed(mid, id, false, n, clock)) by {
        chats::law_push_keeps_selection(mid, id, false, n, clock);
    }
}

/// An event counts as one more unread message in one chat at most.
proof fn lemma_event_room(a: AppModel, ev: EvModel, clock: ClockModel, left: nat)
    requires
        wf(a),
        chats::room_for(a.chats, left + 1),
    ensures
        counts(a, ev, clock),
        chats::room_for(after_event(a, ev, clock).chats, left),
{
    lemma_room_less(a.chats, left, left + 1);
    lemma_renamed_room(a.chats, a.me, ev, left + 1);
    lemma_entered_room(a.chats, ev, clock, left + 1);
    lemma_before_push(a, ev, clock);
    let mid = before_push(a, ev, clock);
    assert(chats::room_for(mid, left + 1));
    if let Some(id) = chat_of(a, ev) {
        chats::lemma_room_counts(mid, left + 1, id);
    }
    assert forall|id: Seq<char>, n: NoteModel|
        chats::room_for(#[trigger] chats::pushed(mid, id, false, n, clock), left) by {
        chats::lemma_push_room(mid, id, false, n, clock, left);
    }
}

/// The messages of several events can be counted where every chat has room for
/// as many.
pub proof fn law_room_suffices(a: AppModel, evs: Seq<EvModel>, clock: ClockModel)
    requires
        wf(a),
        chats::room_for(a.chats, evs.len()),
    ensures
        all_counted(a, evs, clock),
{
    assert forall|k: int| 0 <= k < evs.len() implies counts(
        after_events(a, evs.take(k), clock),
        #[trigger] evs[k],
        clock,
    ) by {
        lemma_room_left(a, evs, clock, k as nat);
        lemma_event_room(
            after_events(a, evs.take(k), clock),
            evs[k],
            clock,
            (evs.len() - k - 1) as nat,
        );
    }
}

proof fn lemma_room_left(a: AppModel, evs: Seq<EvModel>, clock: ClockModel, k: nat)
    requires
        wf(a),
        chats::room_for(a.chats, evs.len()),
        k <= evs.len(),
    ensures
        wf(after_events(a, evs.take(k as int), clock)),
        chats::room_for(
            after_events(a, evs.take(k as int), clock).chats,
            (evs.len() - k) as nat,
        ),
    decreases k,
{
    if k > 0 {
        lemma_room_left(a, evs, clock, (k - 1) as nat);
        assert(evs.take(k as int).drop_last() =~= evs.take(k - 1));
        let b = after_events(a, evs.take(k - 1), clock);
        lemma_event_keeps(b, evs[k - 1], clock);
        lemma_event_room(b, evs[k - 1], clock, (evs.len() - k) as nat);
    }
}

/// Whatever events come, the state stays in order, and no chat keeps more than
/// `MSGS_MAX` messages, if none did before.
pub proof fn law_events_keep(a: AppModel, evs: Seq<EvModel>, clock: ClockModel)
    requires
        wf(a),
    ensures
        wf(after_events(a, evs, clock)),
        chats::within_cap(a.chats) ==> chats::within_cap(after_events(a, evs, clock).chats),
    decreases evs.len(),
{
    if evs.len() > 0 {
        law_events_keep(a, evs.drop_last(), clock);
        let b = after_events(a, evs.drop_last(), clock);
        lemma_before_push(b, evs.last(), clock);
        let mid = before_push(b, evs.last(), clock);
        assert forall|id: Seq<char>, n: NoteModel|
            chats::wf(#[trigger] chats::pushed(mid, id, false, n, clock)) && (chats::within_cap(mid)
                ==> chats::within_cap(chats::pushed(mid, id, false, n, clock))) by {
            chats::law_push_keeps_selection(mid, id, false, n, clock);
            if chats::within_cap(mid) {
                chats::law_push_caps(mid, id, false, n, clock);
            }
        }
    }
}

proof fn lemma_before_push(a: AppModel, ev: EvModel, clock: ClockModel)
    requires
        wf(a),
    ensures
        chats::wf(before_push(a, ev, clock)),
        chats::within_cap(a.chats) ==> chats::within_cap(before_push(a, ev, clock)),
        before_push(a, ev, clock).list[before_push(a, ev, clock).active].id == open_id_after(a, ev),
{
    let mid = before_push(a, ev, clock);
    match ev {
        EvModel::UsernameChanged(nu) => {
            if chats::within_cap(a.chats) {
                assert forall|i: int| 0 <= i < mid.list.len() implies (
                #[trigger] mid.list[i]).msgs.len() <= chat::MSGS_MAX by {
                    assert(a.chats.list[i].msgs.len() <= chat::MSGS_MAX);
                }
            }
        },
        EvModel::RoomChanged(room) => {
            let id = "# "@ + room;
            chats::lemma_with_chat(a.chats, id, true, clock.now);
            let b = chats::with_chat(a.chats, id, true, clock.now);
            if chats::within_cap(a.chats) {
                assert forall|i: int| 0 <= i < mid.list.len() implies (
                #[trigger] mid.list[i]).msgs.len() <= chat::MSGS_MAX by {
                    if i < a.chats.list.len() {
                        assert(b.list[i] == a.chats.list[i]);
                        assert(a.chats.list[i].msgs.len() <= chat::MSGS_MAX);
                    }
                }
            }
        },
        _ => {},
    }
}

/// The id of the chat that is open after an event: the same as before, unless
/// the event is that we entered a room or took another @username.
pub open spec fn open_id_after(a: AppModel, ev: EvModel) -> Seq<char> {
    let id = a.chats.list[a.chats.active].id;
    match ev {
        EvModel::RoomChanged(room) => "# "@ + room,
        EvModel::UsernameChanged(nu) => if id == a.me {
            nu
        } else {
            id
        },
        _ => id,
    }
}

/// No message and no other event takes the user out of the open chat: it is
/// left only for a room that was entered.
pub proof fn law_open_chat_stays(a: AppModel, ev: EvModel, clock: ClockModel)
    requires
        wf(a),
    ensures
        after_event(a, ev, clock).chats.list[after_event(a, ev, clock).chats.active].id
            == open_id_after(a, ev),
{
    lemma_before_push(a, ev, clock);
    let mid = before_push(a, ev, clock);
    assert forall|id: Seq<char>, n: NoteModel|
        (#[trigger] chats::pushed(mid, id, false, n, clock)).list[chats::pushed(
            mid,
            id,
            false,
            n,
            clock,
        ).active].id == mid.list[mid.active].id by {
        chats::law_push_keeps_selection(mid, id, false, n, clock);
    }
}

/// Whether we are not among the users that are listed.
pub open spec fn without_me(a: AppModel) -> bool {
    forall|i: int| 0 <= i < a.users.len() ==> (#[trigger] a.users[i]).at != a.me
}

proof fn lemma_users_of(list: Seq<(Seq<char>, Seq<char>, bool)>, me: Seq<char>)
    ensures
        forall|i: int| 0 <= i < users_of(list, me).len() ==> (#[trigger] users_of(list, me)[i]).at
            != me,
    decreases list.len(),
{
    if list.len() > 0 {
        lemma_users_of(list.drop_last(), me);
        let before = users_of(list.drop_last(), me);
        let us = users_of(list, me);
        assert forall|i: int| 0 <= i < us.len() implies (#[trigger] us[i]).at != me by {
            if i < before.len() {
                assert(us[i] == before[i]);
            }
        }
    }
}

/// We are never listed among the users, whatever the server says, unless we
/// take a @username that is listed.
pub proof fn law_users_without_me(a: AppModel, ev: EvModel, clock: ClockModel)
    requires
        without_me(a),
        ev matches EvModel::UsernameChanged(nu) ==> find_user(a.users, nu) == a.users.len(),
    ensures
        without_me(after_event(a, ev, clock)),
{
    match ev {
        EvModel::UserList(list) => {
            lemma_users_of(list, a.me);
        },
        EvModel::Presence { user, online, nick } => {
            text::lemma_index_of(a.users.map_values(|u: UserModel| u.at), user);
        },
        EvModel::UsernameChanged(nu) => {
            let ats = a.users.map_values(|u: UserModel| u.at);
            text::lemma_index_of(ats, nu);
            assert forall|i: int| 0 <= i < a.users.len() implies (#[trigger] a.users[i]).at != nu by {
                assert(ats[i] != nu);
            }
        },
        _ => {},
    }
}

/// Whether a name is the one under which the owner of an @username is to be
/// shown: the own nick for ourselves; the nick of the first user that is listed
/// under it, or the @username where the nick is empty; else the @username
/// without its marks.
pub open spec fn shown_as(a: AppModel, at: Seq<char>, name: Seq<char>) -> bool {
    &&& at == a.me ==> name == a.my_nick
    &&& forall|k: int|
        at != a.me && 0 <= k < a.users.len() && (#[trigger] a.users[k]).at == at && (forall|l: int|
            0 <= l < k ==> (#[trigger] a.users[l]).at != at) ==> name == (if a.users[k].nick.len()
            > 0 {
            a.users[k].nick
        } else {
            at
        })
    &&& at != a.me && (forall|k: int| 0 <= k < a.users.len() ==> (#[trigger] a.users[k]).at != at)
        ==> name.is_suffix_of(at) && (forall|i: int|
        0 <= i < at.len() - name.len() ==> #[trigger] at[i] == '@') && (name.len() > 0 ==> name[0]
        != '@')
}

/// The owner of an @username is shown under the nick that the list of users has
/// for it, never under that of another.
pub proof fn law_name_shown(a: AppModel, at: Seq<char>)
    ensures
        shown_as(a, at, name_of(a, at)),
{
    let ats = a.users.map_values(|u: UserModel| u.at);
    text::lemma_index_of(ats, at);
    let i = find_user(a.users, at);
    assert forall|k: int|
        at != a.me && 0 <= k < a.users.len() && (#[trigger] a.users[k]).at == at && (forall|l: int|
            0 <= l < k ==> (#[trigger] a.users[l]).at != at) implies name_of(a, at) == (
    if a.users[k].nick.len() > 0 {
        a.users[k].nick
    } else {
        at
    }) by {
        assert(ats[k] == at);
        if i < k {
            assert(ats[i] == at);
            assert(a.users[i].at == at);
        }
        assert(i == k);
    }
    if at != a.me && (forall|k: int| 0 <= k < a.users.len() ==> (#[trigger] a.users[k]).at != at) {
        if i < a.users.len() {
            assert(ats[i] == at);
            assert(a.users[i].at == at);
        }
        let n = name_of(a, at);
        text::law_trim_front(at, text::Class::Only('@'));
        assert(at.subrange(at.len() - n.len(), at.len() as int) =~= n);
        assert forall|j: int| 0 <= j < at.len() - n.len() implies #[trigger] at[j] == '@' by {
            assert(text::in_class(text::Class::Only('@'), at[j]));
        }
    }
}

/// Whether the newest message of a chat says this, at the time of the clock.
pub open spec fn says(
    a: AppModel,
    id: Seq<char>,
    mine: bool,
    sender: Seq<char>,
    text: Seq<char>,
    kind: u8,
    clock: ClockModel,
) -> bool {
    exists|m: chat::MsgModel| #[trigger]
        chats::newest_in(a.chats, id, m) && m.mine == mine && m.sender == sender && m.text == text
            && m.kind == kind && m.time == clock.time && m.date == clock.date && m.reactions.len()
            == 0
}

pub proof fn lemma_says(a: AppModel, id: Seq<char>, is_room: bool, n: NoteModel, clock: ClockModel)
    requires
        wf(a),
    ensures
        says(pushed(a, id, is_room, n, clock), id, n.mine, n.sender, n.text, n.kind, clock),
        wf(pushed(a, id, is_room, n, clock)),
        chats::put_into(a.chats, pushed(a, id, is_room, n, clock).chats, id, is_room),
{
    chats::law_put_into(a.chats, id, is_room, n, clock);
    chats::law_message_is_newest(a.chats, id, is_room, n, clock);
    chats::law_push_keeps_selection(a.chats, id, is_room, n, clock);
    let c = chats::pushed(a.chats, id, is_room, n, clock);
    let read = choose|read: bool| chats::newest_in(c, id, #[trigger] chats::kept(n, clock, read));
    let m = chats::kept(n, clock, read);
    let b = pushed(a, id, is_room, n, clock);
    assert(b.chats == c);
    assert(chats::newest_in(b.chats, id, m));
    assert(m.mine == n.mine && m.sender == n.sender && m.text == n.text && m.kind == n.kind);
    assert(says(b, id, n.mine, n.sender, n.text, n.kind, clock));
}

/// A message from a peer is shown in the chat of that peer, with its text, under
/// the name of the peer; nothing else changes. The user is notified of it, by
/// that name and that text, unless that chat is open.
pub proof fn law_message_shown_from_sender(
    a: AppModel,
    from: Seq<char>,
    text: Seq<char>,
    clock: ClockModel,
)
    requires
        wf(a),
        from != a.me,
    ensures
        ({
            let b = after_event(a, EvModel::Msg { from, text }, clock);
            let fx = effects_of(a, EvModel::Msg { from, text });
            let open = a.chats.list[a.chats.active].id == from && forall|k: int|
                0 <= k < a.chats.active ==> (#[trigger] a.chats.list[k]).id != from;
            &&& b == (AppModel { chats: b.chats, ..a })
            &&& chats::put_into(a.chats, b.chats, from, false)
            &&& exists|name: Seq<char>| #[trigger]
                shown_as(a, from, name) && says(b, from, false, name, text, chat::KIND_TEXT, clock)
                    && (!open ==> fx == seq![EffectModel::Toast { title: name, body: text }])
            &&& open ==> fx.len() == 0
        }),
{
    let name = name_of(a, from);
    law_name_shown(a, from);
    let n = NoteModel { mine: false, sender: name, text, kind: chat::KIND_TEXT };
    lemma_says(a, from, false, n, clock);
    chats::lemma_find_chat(a.chats.list, from);
    let i = chats::find_chat(a.chats.list, from);
    let open = a.chats.list[a.chats.active].id == from && forall|k: int|
        0 <= k < a.chats.active ==> (#[trigger] a.chats.list[k]).id != from;
    assert(open == is_open(a, from)) by {
        if open && i < a.chats.active {
            assert(a.chats.list[i].id != from);
        }
    }
    let b = after_event(a, EvModel::Msg { from, text }, clock);
    assert(shown_as(a, from, name) && says(b, from, false, name, text, chat::KIND_TEXT, clock));
}

/// What comes back of an own message is not shown again.
pub proof fn law_own_echo_ignored(a: AppModel, text: Seq<char>, clock: ClockModel)
    ensures
        after_event(a, EvModel::Msg { from: a.me, text }, clock) == a,
        effects_of(a, EvModel::Msg { from: a.me, text }).len() == 0,
{
}

/// A file from a peer is noted in the chat of that peer, under the name of the
/// peer, by the name that it was saved under.
pub proof fn law_file_shown_from_sender(
    a: AppModel,
    from: Seq<char>,
    name: Seq<char>,
    clock: ClockModel,
)
    requires
        wf(a),
    ensures
        ({
            let b = after_event(a, EvModel::FileMsg { from, name }, clock);
            &&& b == (AppModel { chats: b.chats, ..a })
            &&& chats::put_into(a.chats, b.chats, from, false)
            &&& exists|who: Seq<char>, t: Seq<char>|
                shown_as(a, from, who) && text::has_piece(t, name) && #[trigger] says(
                    b,
                    from,
                    false,
                    who,
                    t,
                    chat::KIND_FILE,
                    clock,
                )
            &&& effects_of(a, EvModel::FileMsg { from, name }).len() == 0
        }),
{
    let who = name_of(a, from);
    law_name_shown(a, from);
    let front = "📎 файл «"@;
    let t = front + name + "» сохранён в downloads/"@;
    let k = front.len() as int;
    assert(t.subrange(k, k + name.len()) =~= name);
    let n = NoteModel { mine: false, sender: who, text: t, kind: chat::KIND_FILE };
    lemma_says(a, from, false, n, clock);
    let b = after_event(a, EvModel::FileMsg { from, name }, clock);
    assert(says(b, from, false, who, t, chat::KIND_FILE, clock));
}

/// What the server says goes into its chat as it says it; where the connection
/// is lost, the client knows that it is neither connected nor logged in.
pub proof fn law_lines_noted(a: AppModel, t: Seq<char>, clock: ClockModel)
    requires
        wf(a),
    ensures
        ({
            let b = after_event(a, EvModel::Line(t), clock);
            &&& t != "__DISCONNECTED__"@ ==> b == (AppModel { chats: b.chats, ..a }) && says(
                b,
                chat::SYS_CHAT@,
                false,
                "сервер"@,
                t,
                chat::KIND_TEXT,
                clock,
            )
            &&& t == "__DISCONNECTED__"@ ==> b == (AppModel {
                chats: b.chats,
                connected: false,
                authed: false,
                ..a
            })
        }),
        ({
            let b = after_event(a, EvModel::Warn(t), clock);
            &&& b == (AppModel { chats: b.chats, ..a })
            &&& exists|who: Seq<char>| #[trigger]
                says(b, chat::SYS_CHAT@, false, who, t, chat::KIND_WARNING, clock)
        }),
        ({
            let b = after_event(a, EvModel::Error(t), clock);
            &&& a.screen == Screen::Connect ==> b == (AppModel { connect_error: Some(t), ..a })
            &&& a.screen == Screen::Chat ==> b == (AppModel { chats: b.chats, ..a }) && exists|
                who: Seq<char>,
            | #[trigger]
                says(b, chat::SYS_CHAT@, false, who, t, chat::KIND_ERROR, clock)
        }),
{
    let sys = chat::SYS_CHAT@;
    lemma_says(
        a,
        sys,
        false,
        NoteModel { mine: false, sender: "сервер"@, text: t, kind: chat::KIND_TEXT },
        clock,
    );
    lemma_says(
        a,
        sys,
        false,
        NoteModel { mine: false, sender: "⚠ TOFU"@, text: t, kind: chat::KIND_WARNING },
        clock,
    );
    lemma_says(
        a,
        sys,
        false,
        NoteModel { mine: false, sender: "ошибка"@, text: t, kind: chat::KIND_ERROR },
        clock,
    );
    let w = after_event(a, EvModel::Warn(t), clock);
    assert(says(w, sys, false, "⚠ TOFU"@, t, chat::KIND_WARNING, clock));
    if a.screen == Screen::Chat {
        let e = after_event(a, EvModel::Error(t), clock);
        assert(says(e, sys, false, "ошибка"@, t, chat::KIND_ERROR, clock));
    }
}

/// When the login is done, the chats are shown and the error goes; the account
/// is kept with the own @username and what was filled in, the users and the
/// rooms are asked for, and the password is forgotten.
pub proof fn law_login_done(a: AppModel, clock: ClockModel)
    ensures
        ({
            let b = after_event(a, EvModel::Authed, clock);
            let fx = effects_of(a, EvModel::Authed);
            &&& b.authed && b.screen == Screen::Chat && b.connect_error is None
            &&& b.login.password.len() == 0
            &&& b.login.at_user == a.login.at_user && b.login.host == a.login.host && b.login.port
                == a.login.port && b.login.register == a.login.register
            &&& b.me == a.me && b.my_nick == a.my_nick && b.my_bio == a.my_bio && b.users == a.users
                && b.connected == a.connected && b.wired == a.wired && b.input == a.input
            &&& fx.len() > 0 && (fx[0] matches EffectModel::SaveAccount(acc) && acc.username == a.me
                && acc.password == a.login.password && acc.host == a.login.host && acc.port
                == a.login.port)
            &&& a.wired ==> fx.len() == 3 && fx[1] == EffectModel::Send(UiCmdModel::RefreshUsers)
                && fx[2] == EffectModel::Send(UiCmdModel::RefreshRooms)
            &&& !a.wired ==> fx.len() == 1
        }),
{
}

/// The list of users that the server gives is taken over as it is, in order, but
/// for ourselves; nothing else changes.
pub proof fn law_users_listed(
    a: AppModel,
    list: Seq<(Seq<char>, Seq<char>, bool)>,
    clock: ClockModel,
)
    ensures
        after_event(a, EvModel::UserList(list), clock) == (AppModel {
            users: list.filter(|u: (Seq<char>, Seq<char>, bool)| u.1 != a.me).map_values(
                |u: (Seq<char>, Seq<char>, bool)|
                    UserModel { nick: u.0, at: u.1, online: u.2 },
            ),
            ..a
        }),
{
    lemma_users_filter(list, a.me);
}

proof fn lemma_users_filter(list: Seq<(Seq<char>, Seq<char>, bool)>, me: Seq<char>)
    ensures
        users_of(list, me) == list.filter(
            |u: (Seq<char>, Seq<char>, bool)| u.1 != me,
        ).map_values(
            |u: (Seq<char>, Seq<char>, bool)| UserModel { nick: u.0, at: u.1, online: u.2 },
        ),
    decreases list.len(),
{
    reveal(Seq::filter);
    let f = |u: (Seq<char>, Seq<char>, bool)| u.1 != me;
    let g = |u: (Seq<char>, Seq<char>, bool)| UserModel { nick: u.0, at: u.1, online: u.2 };
    if list.len() == 0 {
        assert(list.filter(f).map_values(g) =~= Seq::empty());
    } else {
        let d = list.drop_last();
        lemma_users_filter(d, me);
        if f(list.last()) {
            assert(list.filter(f) == d.filter(f).push(list.last()));
            assert(list.filter(f).map_values(g) =~= d.filter(f).map_values(g).push(
                g(list.last()),
            ));
        }
    }
}

/// A user who is listed and comes or goes is shown as the server says; a nick
/// that comes with it replaces the one that is known. Every other user stays as
/// listed. Of ourselves nothing is changed.
pub proof fn law_presence_of_listed(
    a: AppModel,
    k: int,
    online: bool,
    nick: Seq<char>,
    clock: ClockModel,
)
    requires
        0 <= k < a.users.len(),
        a.users[k].at != a.me,
        forall|l: int| 0 <= l < k ==> (#[trigger] a.users[l]).at != a.users[k].at,
    ensures
        ({
            let b = after_event(
                a,
                EvModel::Presence { user: a.users[k].at, online, nick },
                clock,
            );
            &&& b == (AppModel { users: b.users, ..a })
            &&& b.users.len() == a.users.len()
            &&& b.users[k].online == online && b.users[k].at == a.users[k].at
            &&& nick.len() > 0 ==> b.users[k].nick == nick
            &&& nick.len() == 0 ==> b.users[k].nick == a.users[k].nick
            &&& forall|l: int|
                0 <= l < a.users.len() && l != k ==> #[trigger] b.users[l] == a.users[l]
        }),
        after_event(a, EvModel::Presence { user: a.me, online, nick }, clock) == a,
{
    let ats = a.users.map_values(|u: UserModel| u.at);
    assert forall|l: int| 0 <= l < k implies ats[l] != a.users[k].at by {
        assert(a.users[l].at != a.users[k].at);
    }
    text::lemma_index_of_is(ats, a.users[k].at, k);
}

/// A user who is not listed is listed last when it comes, and is not when it
/// goes.
pub proof fn law_presence_of_unlisted(
    a: AppModel,
    user: Seq<char>,
    nick: Seq<char>,
    clock: ClockModel,
)
    requires
        user != a.me,
        forall|l: int| 0 <= l < a.users.len() ==> (#[trigger] a.users[l]).at != user,
    ensures
        after_event(a, EvModel::Presence { user, online: true, nick }, clock) == (AppModel {
            users: a.users.push(UserModel { nick, at: user, online: true }),
            ..a
        }),
        after_event(a, EvModel::Presence { user, online: false, nick }, clock) == a,
{
    let ats = a.users.map_values(|u: UserModel| u.at);
    assert forall|l: int| 0 <= l < ats.len() implies ats[l] != user by {
        assert(a.users[l].at != user);
    }
    text::lemma_index_of_is(ats, user, ats.len() as int);
}

/// What is asked of a profile is shown as the server gives it.
pub proof fn law_profile_shown(
    a: AppModel,
    user: Seq<char>,
    nick: Seq<char>,
    bio: Seq<char>,
    online: bool,
    clock: ClockModel,
)
    ensures
        ({
            let b = after_event(a, EvModel::Profile { user, nick, online, bio }, clock);
            &&& b == (AppModel { whois: b.whois, ..a })
            &&& b.whois matches Some(p) && p.at == user && p.nick == nick && p.online == online
                && p.bio == bio
        }),
{
}

/// The own profile is taken over once it is saved, and is what the form holds
/// then.
pub proof fn law_saved_profile_taken(
    a: AppModel,
    nick: Seq<char>,
    bio: Seq<char>,
    hide: bool,
    clock: ClockModel,
)
    ensures
        ({
            let b = after_event(a, EvModel::ProfileSaved { nick, bio, hide }, clock);
            &&& b.my_nick == nick && b.my_bio == bio
            &&& b.form.nick == nick && b.form.bio == bio && b.form.hide == hide
            &&& b.form.new_user == a.form.new_user && b.form.old_pass == a.form.old_pass
                && b.form.new_pass == a.form.new_pass
            &&& b.me == a.me && b.login == a.login && b.users == a.users && b.windows == a.windows
        }),
{
}

/// Another @username is ours once the server says so, and the chats that went by
/// the old one go by it. Nothing else of the login changes.
pub proof fn law_new_username_taken(a: AppModel, user: Seq<char>, clock: ClockModel)
    requires
        wf(a),
    ensures
        ({
            let b = after_event(a, EvModel::UsernameChanged(user), clock);
            &&& b.me == user && b.login.at_user == user
            &&& b.login.password == a.login.password && b.login.host == a.login.host && b.login.port
                == a.login.port
            &&& b.my_nick == a.my_nick && b.users == a.users
            &&& 0 <= b.chats.active < b.chats.list.len()
            &&& b.chats.list[b.chats.active].id == (if a.chats.list[a.chats.active].id == a.me {
                user
            } else {
                a.chats.list[a.chats.active].id
            })
        }),
{
    law_open_chat_stays(a, EvModel::UsernameChanged(user), clock);
    lemma_event_keeps(a, EvModel::UsernameChanged(user), clock);
}

/// The passwords that were typed go once the password is changed; the rest of
/// the form stays.
pub proof fn law_passwords_forgotten(a: AppModel, clock: ClockModel)
    ensures
        ({
            let b = after_event(a, EvModel::PasswordChanged, clock);
            &&& b.form.old_pass.len() == 0 && b.form.new_pass.len() == 0
            &&& b.form.nick == a.form.nick && b.form.bio == a.form.bio && b.form.hide == a.form.hide
                && b.form.new_user == a.form.new_user
            &&& b.me == a.me && b.login == a.login && b.my_nick == a.my_nick && b.my_bio == a.my_bio
        }),
{
}

/// A room that is entered is opened: its chat is the open one, a room under the
/// name that the server gave, with nothing unread.
pub proof fn law_entered_room_open(a: AppModel, room: Seq<char>, clock: ClockModel)
    requires
        wf(a),
    ensures
        ({
            let b = after_event(a, EvModel::RoomChanged(room), clock);
            &&& b == (AppModel { chats: b.chats, ..a })
            &&& 0 <= b.chats.active < b.chats.list.len()
            &&& b.chats.list[b.chats.active].id == seq!['#', ' '] + room
            &&& (forall|k: int|
                0 <= k < a.chats.list.len() ==> (#[trigger] a.chats.list[k]).id != seq!['#', ' ']
                    + room) ==> b.chats.list[b.chats.active].is_room
            &&& exists|who: Seq<char>, t: Seq<char>|
                text::has_piece(t, room) && #[trigger] says(
                    b,
                    chat::SYS_CHAT@,
                    false,
                    who,
                    t,
                    chat::KIND_TEXT,
                    clock,
                )
        }),
{
    law_open_chat_stays(a, EvModel::RoomChanged(room), clock);
    reveal_strlit("# ");
    assert("# "@ =~= seq!['#', ' ']);
    lemma_before_push(a, EvModel::RoomChanged(room), clock);
    let mid = AppModel { chats: room_entered(a.chats, "# "@ + room, clock.now), ..a };
    let front = "Вы вошли в комнату "@;
    let t = front + room;
    let k = front.len() as int;
    assert(t.subrange(k, k + room.len()) =~= room);
    lemma_says(
        mid,
        chat::SYS_CHAT@,
        false,
        NoteModel { mine: false, sender: "система"@, text: t, kind: chat::KIND_TEXT },
        clock,
    );
    let b = after_event(a, EvModel::RoomChanged(room), clock);
    let n = NoteModel { mine: false, sender: "система"@, text: t, kind: chat::KIND_TEXT };
    assert(b.chats == chats::pushed(mid.chats, chat::SYS_CHAT@, false, n, clock));
    chats::law_push_keeps_selection(mid.chats, chat::SYS_CHAT@, false, n, clock);
    chats::lemma_find_chat(a.chats.list, "# "@ + room);
    chats::lemma_with_chat(a.chats, "# "@ + room, true, clock.now);
    if forall|k: int|
        0 <= k < a.chats.list.len() ==> (#[trigger] a.chats.list[k]).id != seq!['#', ' '] + room {
        let m = mid.chats;
        assert forall|k: int| 0 <= k < m.list.len() && k != m.active implies (
        #[trigger] m.list[k]).id != m.list[m.active].id by {
            assert(m.list[k] == a.chats.list[k]);
        }
        assert(m.list[m.active].is_room);
    }
    assert(says(b, chat::SYS_CHAT@, false, "система"@, t, chat::KIND_TEXT, clock));
}

/// A notice that a peer types holds that peer and the time, and goes once more
/// than four seconds have passed, not before. Nothing else changes.
pub proof fn law_typing_shown(a: AppModel, from: Seq<char>, clock: ClockModel, later: u64)
    ensures
        ({
            let b = after_event(a, EvModel::Typing { from }, clock);
            &&& b == (AppModel { typing_from: Some((from, clock.now)), ..a })
            &&& later - clock.now <= 4_000_000_000 ==> typing_expired(b, later) == b
            &&& later - clock.now > 4_000_000_000 ==> typing_expired(b, later) == (AppModel {
                typing_from: None,
                ..b
            })
        }),
        a.typing_from is None ==> typing_expired(a, later) == a,
        ({
            let b = after_event(a, EvModel::Rooms(from), clock);
            b == a
        }),
{
}

/// The network side is told what it is to be told, once, where there is one.
pub proof fn law_sent_once(a: AppModel, cmd: UiCmdModel)
    ensures
        a.wired ==> sent(a, cmd) == seq![EffectModel::Send(cmd)],
        !a.wired ==> sent(a, cmd).len() == 0,
{
}

/// The state after several events, in order, each of them kept folded.
spec fn run(a: AppModel, evs: Seq<EvModel>, clock: ClockModel) -> AppModel
    decreases evs.len(),
{
    if evs.len() == 0 {
        a
    } else {
        stepped(run(a, evs.drop_last(), clock), evs.last(), clock)
    }
}

/// What is to be done outside after several events, each of them kept folded.
spec fn done(a: AppModel, evs: Seq<EvModel>, clock: ClockModel) -> Seq<EffectModel>
    decreases evs.len(),
{
    if evs.len() == 0 {
        Seq::empty()
    } else {
        done(a, evs.drop_last(), clock) + called_for(run(a, evs.drop_last(), clock), evs.last())
    }
}

proof fn lemma_folded(a: AppModel, evs: Seq<EvModel>, clock: ClockModel)
    ensures
        run(a, evs, clock) == after_events(a, evs, clock),
        done(a, evs, clock) == effects_of_all(a, evs, clock),
    decreases evs.len(),
{
    reveal(stepped);
    reveal(called_for);
    if evs.len() > 0 {
        lemma_folded(a, evs.drop_last(), clock);
    }
}

proof fn lemma_run_concat(a: AppModel, first: Seq<EvModel>, rest: Seq<EvModel>, clock: ClockModel)
    ensures
        run(a, first + rest, clock) == run(run(a, first, clock), rest, clock),
        done(a, first + rest, clock) == done(a, first, clock) + done(
            run(a, first, clock),
            rest,
            clock,
        ),
    decreases rest.len(),
{
    let b = run(a, first, clock);
    let x = done(a, first, clock);
    if rest.len() == 0 {
        assert(first + rest =~= first);
        assert(x + done(b, rest, clock) =~= x);
    } else {
        let d = rest.drop_last();
        lemma_run_concat(a, first, d, clock);
        assert((first + rest).drop_last() =~= first + d);
        assert((first + rest).last() == rest.last());
        let z = called_for(run(b, d, clock), rest.last());
        let w = done(b, d, clock);
        assert((x + w) + z =~= x + (w + z));
    }
}

/// Events are dealt with one after the other, in the order in which they came,
/// and what is to be done outside comes in that order too.
pub proof fn law_events_in_order(
    a: AppModel,
    first: Seq<EvModel>,
    rest: Seq<EvModel>,
    clock: ClockModel,
)
    ensures
        after_events(a, first + rest, clock) == after_events(
            after_events(a, first, clock),
            rest,
            clock,
        ),
        effects_of_all(a, first + rest, clock) == effects_of_all(a, first, clock) + effects_of_all(
            after_events(a, first, clock),
            rest,
            clock,
        ),
{
    lemma_run_concat(a, first, rest, clock);
    lemma_folded(a, first + rest, clock);
    lemma_folded(a, first, clock);
    lemma_folded(run(a, first, clock), rest, clock);
}

/// Of one event comes what comes of that event.
pub proof fn law_single_event(a: AppModel, ev: EvModel, clock: ClockModel)
    ensures
        after_events(a, seq![ev], clock) == after_event(a, ev, clock),
        effects_of_all(a, seq![ev], clock) == effects_of(a, ev),
{
    let none: Seq<EvModel> = Seq::empty();
    let nothing: Seq<EffectModel> = Seq::empty();
    let one = seq![ev];
    assert(one.drop_last() =~= none);
    lemma_folded(a, one, clock);
    assert(run(a, none, clock) == a);
    assert(done(a, none, clock) == nothing);
    assert(nothing + called_for(a, ev) =~= called_for(a, ev));
    reveal(stepped);
    reveal(called_for);
}

/// Only the login and a message from a peer have anything done outside.
pub proof fn law_quiet_events(a: AppModel, ev: EvModel)
    requires
        ev !is Authed,
        ev !is Msg,
    ensures
        effects_of(a, ev).len() == 0,
{
}

/// Notes of the client itself go into the chat of the server, which is no room;
/// no other chat is touched by them.
pub proof fn law_notes_in_their_chat(
    a: AppModel,
    sender: Seq<char>,
    text: Seq<char>,
    kind: u8,
    clock: ClockModel,
)
    requires
        wf(a),
    ensures
        says(noted(a, sender, text, kind, clock), chat::SYS_CHAT@, false, sender, text, kind, clock),
        chats::put_into(
            a.chats,
            noted(a, sender, text, kind, clock).chats,
            chat::SYS_CHAT@,
            false,
        ),
{
    lemma_says(
        a,
        chat::SYS_CHAT@,
        false,
        NoteModel { mine: false, sender, text, kind },
        clock,
    );
}

} // verus!
