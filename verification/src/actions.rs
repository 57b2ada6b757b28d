//! What the user does, and how it changes the state of the client.

use crate::chat;
use crate::chat::{Clock, ClockModel, User};
use crate::chats;
use crate::chats::{Chats, NoteModel};
use crate::client;
use crate::client::{
    AppModel, Effect, EffectModel, Login, LoginModel, MeshApp, ProfileForm, ProfileFormModel, RoomForm,
    RoomFormModel, Screen, Windows, TYPING_PAUSE,
};
use crate::config;
use crate::config::{AccountModel, SavedAccount};
use crate::events::{UiCmd, UiCmdModel};
use crate::text;
use vstd::prelude::*;

verus! {

/// The state of a client that starts.
pub open spec fn fresh(
    host: Seq<char>,
    port: Seq<char>,
    accounts: Seq<AccountModel>,
    clock: ClockModel,
) -> AppModel {
    let none: Seq<char> = Seq::empty();
    AppModel {
        screen: Screen::Connect,
        login: LoginModel {
            host,
            port,
            at_user: none,
            password: none,
            reg_nick: none,
            reg_bio: none,
            register: true,
        },
        wired: false,
        authed: false,
        connected: false,
        me: none,
        my_nick: none,
        my_bio: none,
        chats: chats::starting(clock),
        search: none,
        search_in_chat: none,
        input: none,
        users: Seq::empty(),
        typing_from: None,
        last_typing_sent: None,
        windows: Windows {
            fingerprints: false,
            profile: false,
            create_room: false,
            join_room: false,
        },
        form: ProfileFormModel {
            nick: none,
            bio: none,
            hide: false,
            new_user: none,
            old_pass: none,
            new_pass: none,
        },
        create: RoomFormModel { name: none, pass: none },
        join: RoomFormModel { name: none, pass: none },
        whois: None,
        connect_error: None,
        saved_accounts: accounts,
    }
}

/// Whether a text begins with the mark of a @username.
pub open spec fn has_at(s: Seq<char>) -> bool {
    "@"@.is_prefix_of(s)
}

/// The own @username, for what was typed: the one that the network side logs
/// in under.
pub open spec fn own_name(typed: Seq<char>) -> Seq<char> {
    let user = text::lowercase(text::trimmed(typed));
    if text::trimmed(typed).len() == 0 {
        "@anon"@
    } else if has_at(user) {
        user
    } else {
        "@"@ + user
    }
}

/// The state when the client begins to connect.
pub open spec fn connecting(a: AppModel) -> AppModel {
    let at = own_name(a.login.at_user);
    let nick = text::trimmed(a.login.reg_nick);
    AppModel {
        login: LoginModel { at_user: at, ..a.login },
        me: at,
        my_nick: if nick.len() == 0 {
            text::trim_front(at, text::Class::Only('@'))
        } else {
            nick
        },
        my_bio: text::trimmed(a.login.reg_bio),
        wired: true,
        connected: true,
        ..a
    }
}

/// The command that logs in, or makes an account.
pub open spec fn auth_command(login: LoginModel) -> UiCmdModel {
    if login.register {
        UiCmdModel::Register { pass: login.password }
    } else {
        UiCmdModel::Login { pass: login.password }
    }
}

/// The state after what was typed is sent off.
pub open spec fn submitted(a: AppModel, clock: ClockModel) -> AppModel {
    let msg = text::trimmed(a.input);
    let b = AppModel { input: Seq::empty(), ..a };
    if msg.len() == 0 {
        a
    } else if !a.connected {
        client::noted(b, "ошибка"@, "Нет соединения."@, chat::KIND_ERROR, clock)
    } else if "/"@.is_prefix_of(msg) {
        if msg == "/fingerprints"@ {
            AppModel { windows: Windows { fingerprints: true, ..a.windows }, ..b }
        } else {
            b
        }
    } else {
        let open = a.chats.list[a.chats.active];
        client::pushed(
            b,
            if open.is_room {
                chat::ROOM_CHAT@
            } else {
                open.id
            },
            open.is_room,
            NoteModel { mine: true, sender: a.my_nick, text: msg, kind: chat::KIND_TEXT },
            clock,
        )
    }
}

/// Whether the message that comes of what was typed can be counted in its chat.
pub open spec fn submission_counts(a: AppModel) -> bool {
    let msg = text::trimmed(a.input);
    let open = a.chats.list[a.chats.active];
    if msg.len() == 0 {
        true
    } else if !a.connected {
        chats::counts(a.chats, chat::SYS_CHAT@)
    } else if "/"@.is_prefix_of(msg) {
        true
    } else if open.is_room {
        chats::counts(a.chats, chat::ROOM_CHAT@)
    } else {
        chats::counts(a.chats, open.id)
    }
}

/// What the network side is told of what was typed.
pub open spec fn submission(a: AppModel) -> Seq<EffectModel> {
    let msg = text::trimmed(a.input);
    if msg.len() == 0 || !a.connected {
        Seq::empty()
    } else if "/"@.is_prefix_of(msg) {
        if msg == "/fingerprints"@ {
            Seq::empty()
        } else {
            client::sent(a, UiCmdModel::Raw(msg))
        }
    } else {
        let open = a.chats.list[a.chats.active];
        if open.is_room {
            client::sent(a, UiCmdModel::Room(msg))
        } else {
            client::sent(a, UiCmdModel::Priv { target: open.id, text: msg })
        }
    }
}

/// Whether a notice that we type is due.
pub open spec fn typing_due(a: AppModel, changed: bool, now: u64) -> bool {
    &&& changed
    &&& !a.chats.list[a.chats.active].is_room
    &&& a.authed
    &&& match a.last_typing_sent {
        None => true,
        Some(t) => now - t > TYPING_PAUSE,
    }
}

/// The state after the user typed.
pub open spec fn typing_noted(a: AppModel, changed: bool, now: u64) -> AppModel {
    if typing_due(a, changed, now) {
        AppModel { last_typing_sent: Some(now), ..a }
    } else {
        a
    }
}

/// The characters of a @username.
pub open spec fn name_char(c: char) -> bool {
    'a' <= c <= 'z' || '0' <= c <= '9' || c == '_'
}

/// Whether what was typed is a @username: 3 to 19 letters, digits and
/// underscores, with marks in front or without.
pub open spec fn valid_name(typed: Seq<char>) -> bool {
    let u = text::trim_front(text::trimmed(typed), text::Class::Only('@'));
    3 <= u.len() <= 19 && forall|i: int| 0 <= i < u.len() ==> name_char(#[trigger] u[i])
}

/// The @username that is asked for, for what was typed.
pub open spec fn wanted_name(typed: Seq<char>) -> Option<Seq<char>> {
    let u = text::lowercase(text::trimmed(typed));
    if u.len() == 0 {
        None
    } else if has_at(u) {
        Some(u)
    } else {
        Some("@"@ + u)
    }
}

/// The state with the login filled in from an account that is kept.
pub open spec fn with_account(a: AppModel, i: int) -> AppModel {
    let acc = a.saved_accounts[i];
    AppModel {
        login: LoginModel {
            at_user: acc.username,
            password: acc.password,
            host: acc.host,
            port: acc.port,
            register: false,
            ..a.login
        },
        ..a
    }
}

impl RoomForm {
    /// Whether the room that is filled in has a name.
    pub fn named(&self) -> (r: bool)
        ensures
            r == (text::trimmed(self@.name).len() > 0),
    {
        !text::trim(self.name.as_str()).as_str().is_empty()
    }
}

impl MeshApp {
    /// Whether what was typed is a @username.
    pub fn user_valid(at: &str) -> (r: bool)
        ensures
            r == valid_name(at@),
    {
        let u = text::trim_start_of(text::trim(at).as_str(), text::Class::Only('@'));
        let cs = text::chars_of(u.as_str());
        if cs.len() < 3 || cs.len() > 19 {
            return false;
        }
        let mut i: usize = 0;
        while i < cs.len()
            invariant
                i <= cs@.len(),
                cs@ == u@,
                u@ == text::trim_front(text::trimmed(at@), text::Class::Only('@')),
                forall|j: int| 0 <= j < i ==> name_char(#[trigger] cs@[j]),
            decreases cs@.len() - i,
        {
            let c = cs[i];
            if !(('a' <= c && c <= 'z') || ('0' <= c && c <= '9') || c == '_') {
                assert(!name_char(cs@[i as int]));
                return false;
            }
            i += 1;
        }
        true
    }

    /// The state of a client that starts.
    pub fn new(host: String, port: String, accounts: Vec<SavedAccount>, clock: &Clock) -> (r: MeshApp)
        ensures
            r@ == fresh(host@, port@, config::account_views(accounts@), clock@),
            client::wf(r@),
    {
        let users: Vec<User> = Vec::new();
        assert(chat::user_models(users@) =~= Seq::empty());
        MeshApp {
            screen: Screen::Connect,
            login: Login {
                host,
                port,
                at_user: String::new(),
                password: String::new(),
                reg_nick: String::new(),
                reg_bio: String::new(),
                register: true,
            },
            wired: false,
            authed: false,
            connected: false,
            me: String::new(),
            my_nick: String::new(),
            my_bio: String::new(),
            chats: Chats::new(clock),
            search: String::new(),
            search_in_chat: String::new(),
            input: String::new(),
            users,
            typing_from: None,
            last_typing_sent: None,
            windows: Windows {
                fingerprints: false,
                profile: false,
                create_room: false,
                join_room: false,
            },
            form: ProfileForm {
                nick: String::new(),
                bio: String::new(),
                hide: false,
                new_user: String::new(),
                old_pass: String::new(),
                new_pass: String::new(),
            },
            create: RoomForm { name: String::new(), pass: String::new() },
            join: RoomForm { name: String::new(), pass: String::new() },
            whois: None,
            connect_error: None,
            saved_accounts: accounts,
        }
    }

    /// Begins to connect. Gives the own @username, which the network side logs
    /// in under.
    pub fn start_connect(&mut self, fx: &mut Vec<Effect>, clock: &Clock) -> (r: String)
        requires
            client::wf(old(self)@),
            chats::counts(old(self)@.chats, chat::SYS_CHAT@),
        ensures
            r@ == own_name(old(self)@.login.at_user),
            has_at(r@),
            final(self)@.me == r@,
            final(self)@.login.at_user == r@,
            final(self)@ == client::noted(
                connecting(old(self)@),
                "система"@,
                "Подключаемся…"@,
                chat::KIND_TEXT,
                clock@,
            ),
            client::effect_views(final(fx)@) == client::effect_views(old(fx)@).push(
                EffectModel::Send(auth_command(old(self)@.login)),
            ),
            client::wf(final(self)@),
    {
        let ghost a = self@;
        let typed = text::trim(self.login.at_user.as_str());
        let user = if typed.as_str().is_empty() {
            text::own("@anon")
        } else {
            let u = text::to_lowercase(typed.as_str());
            if text::starts_with(u.as_str(), "@") {
                u
            } else {
                text::cat("@", u.as_str())
            }
        };
        proof {
            reveal_strlit("@");
            reveal_strlit("@anon");
            assert(user@.take(1) =~= "@"@);
        }
        self.login.at_user = user.clone();
        self.me = user.clone();
        let nick = text::trim(self.login.reg_nick.as_str());
        self.my_nick =
        if nick.as_str().is_empty() {
            text::trim_start_of(user.as_str(), text::Class::Only('@'))
        } else {
            nick
        };
        self.my_bio = text::trim(self.login.reg_bio.as_str());
        self.wired = true;
        self.connected = true;
        assert(self@ == connecting(a));
        self.push_msg(
            chat::SYS_CHAT,
            false,
            false,
            "система",
            "Подключаемся…",
            chat::KIND_TEXT,
            clock,
        );
        let pass = self.login.password.clone();
        let cmd = if self.login.register {
            UiCmd::Register { pass }
        } else {
            UiCmd::Login { pass }
        };
        let ghost f = client::effect_views(fx@);
        self.send_ui(fx, cmd);
        assert(f + seq![EffectModel::Send(auth_command(a.login))] =~= f.push(
            EffectModel::Send(auth_command(a.login)),
        ));
        user
    }

    /// Sends off what was typed.
    pub fn submit_input(&mut self, fx: &mut Vec<Effect>, clock: &Clock)
        requires
            client::wf(old(self)@),
            submission_counts(old(self)@),
        ensures
            final(self)@ == submitted(old(self)@, clock@),
            client::effect_views(final(fx)@) == client::effect_views(old(fx)@) + submission(
                old(self)@,
            ),
            client::wf(final(self)@),
    {
        let ghost f = client::effect_views(fx@);
        assert(f + Seq::<EffectModel>::empty() =~= f);
        let msg = text::trim(self.input.as_str());
        if msg.as_str().is_empty() {
            return;
        }
        self.input = String::new();
        if !self.connected {
            self.push_msg(
                chat::SYS_CHAT,
                false,
                false,
                "ошибка",
                "Нет соединения.",
                chat::KIND_ERROR,
                clock,
            );
            return;
        }
        if text::starts_with(msg.as_str(), "/") {
            if text::same(msg.as_str(), "/fingerprints") {
                self.windows.fingerprints = true;
            } else {
                self.send_ui(fx, UiCmd::Raw(msg));
            }
            return;
        }
        let nick = self.my_nick.clone();
        let open = &self.chats.list[self.chats.active];
        assert(self@.chats.list[self@.chats.active] == open@);
        if open.is_room {
            self.push_msg(
                chat::ROOM_CHAT,
                true,
                true,
                nick.as_str(),
                msg.as_str(),
                chat::KIND_TEXT,
                clock,
            );
            self.send_ui(fx, UiCmd::Room(msg));
        } else {
            let target = open.id.clone();
            self.push_msg(
                target.as_str(),
                false,
                true,
                nick.as_str(),
                msg.as_str(),
                chat::KIND_TEXT,
                clock,
            );
            self.send_ui(fx, UiCmd::Priv { target, text: msg });
        }
    }

    /// Tells the peer of the open chat that we type, where it is due: not more
    /// than once in `TYPING_PAUSE`, and not in rooms.
    pub fn maybe_send_typing(&mut self, fx: &mut Vec<Effect>, changed: bool, now: u64)
        requires
            client::wf(old(self)@),
        ensures
            final(self)@ == typing_noted(old(self)@, changed, now),
            client::effect_views(final(fx)@) == client::effect_views(old(fx)@) + typing_notice(
                old(self)@,
                changed,
                now,
            ),
            client::effect_views(final(fx)@) == client::effect_views(old(fx)@) + (if typing_due(
                old(self)@,
                changed,
                now,
            ) {
                client::sent(
                    old(self)@,
                    UiCmdModel::Typing(old(self)@.chats.list[old(self)@.chats.active].id),
                )
            } else {
                Seq::empty()
            }),
    {
        let ghost a = self@;
        let ghost f = client::effect_views(fx@);
        assert(f + Seq::<EffectModel>::empty() =~= f);
        let open = &self.chats.list[self.chats.active];
        assert(a.chats.list[a.chats.active] == open@);
        if !changed || open.is_room || !self.authed {
            return;
        }
        let due = match self.last_typing_sent {
            None => true,
            Some(t) => now > t && now - t > TYPING_PAUSE,
        };
        if due {
            let target = open.id.clone();
            self.last_typing_sent = Some(now);
            self.send_ui(fx, UiCmd::Typing(target));
        }
    }

    /// Opens the chat with a peer.
    pub fn open_private(&mut self, at: &str, now: u64)
        ensures
            final(self)@ == (AppModel {
                chats: chats::private_opened(old(self)@.chats, at@, now),
                ..old(self)@
            }),
            client::wf(final(self)@),
    {
        self.chats.open_private(at, now);
    }

    /// Opens one of the chats.
    pub fn select_chat(&mut self, i: usize)
        requires
            i < old(self).chats.list@.len(),
        ensures
            final(self)@ == (AppModel {
                chats: chats::selected(old(self)@.chats, i as int),
                ..old(self)@
            }),
            client::wf(final(self)@),
    {
        self.chats.select(i);
    }

    /// Opens the chat with a user of the list. Where it is new, the profile of
    /// the user is asked for.
    pub fn pick_user(&mut self, fx: &mut Vec<Effect>, at: &str, now: u64)
        requires
            client::wf(old(self)@),
        ensures
            final(self)@ == picked(old(self)@, at@, now),
            client::effect_views(final(fx)@) == client::effect_views(old(fx)@) + asked_of_picked(
                old(self)@,
                at@,
            ),
            ({
                let a = old(self)@;
                let i = chats::find_chat(a.chats.list, at@);
                if i < a.chats.list.len() {
                    &&& final(self)@ == (AppModel { chats: chats::selected(a.chats, i), ..a })
                    &&& *final(fx) == *old(fx)
                } else {
                    &&& final(self)@ == (AppModel {
                        chats: chats::private_opened(a.chats, at@, now),
                        ..a
                    })
                    &&& client::effect_views(final(fx)@) == client::effect_views(old(fx)@)
                        + client::sent(a, UiCmdModel::Whois(at@))
                }
            }),
            client::wf(final(self)@),
    {
        let i = self.chats.position(at);
        let ghost f = client::effect_views(fx@);
        assert(f + Seq::<EffectModel>::empty() =~= f);
        if i < self.chats.list.len() {
            self.chats.select(i);
        } else {
            self.open_private(at, now);
            self.send_ui(fx, UiCmd::Whois(text::own(at)));
        }
    }

    /// Opens the chat with the user whose profile is shown, and closes that.
    pub fn write_to_shown(&mut self, now: u64)
        requires
            client::wf(old(self)@),
        ensures
            final(self)@ == writing_to_shown(old(self)@, now),
            final(self)@ == (match old(self)@.whois {
                Some(p) => AppModel {
                    chats: chats::private_opened(old(self)@.chats, p.at, now),
                    whois: None,
                    ..old(self)@
                },
                None => old(self)@,
            }),
            client::wf(final(self)@),
    {
        let shown = self.whois.take();
        if let Some(p) = shown {
            self.open_private(p.at.as_str(), now);
        }
    }

    /// Opens the window of the own profile, filled in as it is.
    pub fn edit_profile(&mut self)
        ensures
            final(self)@ == profile_opened(old(self)@),
            final(self)@ == (AppModel {
                form: ProfileFormModel {
                    nick: old(self)@.my_nick,
                    bio: old(self)@.my_bio,
                    ..old(self)@.form
                },
                windows: Windows { profile: true, ..old(self)@.windows },
                ..old(self)@
            }),
    {
        self.form.nick = self.my_nick.clone();
        self.form.bio = self.my_bio.clone();
        self.windows.profile = true;
    }

    /// Asks for the profile to be saved as it is filled in.
    pub fn save_profile(&self, fx: &mut Vec<Effect>)
        ensures
            client::effect_views(final(fx)@) == client::effect_views(old(fx)@) + client::sent(
                self@,
                profile_command(self@.form),
            ),
            client::effect_views(final(fx)@) == client::effect_views(old(fx)@) + client::sent(
                self@,
                (UiCmdModel::ProfileSet {
                    nick: self@.form.nick,
                    bio: self@.form.bio,
                    hide: self@.form.hide,
                }),
            ),
    {
        self.send_ui(
            fx,
            UiCmd::ProfileSet {
                nick: self.form.nick.clone(),
                bio: self.form.bio.clone(),
                hide: self.form.hide,
            },
        );
    }

    /// Asks for another @username, where one was typed.
    pub fn change_username(&mut self, fx: &mut Vec<Effect>)
        ensures
            final(self)@ == name_asked_for(old(self)@),
            client::effect_views(final(fx)@) == client::effect_views(old(fx)@) + name_request(
                old(self)@,
            ),
            match wanted_name(old(self)@.form.new_user) {
                Some(u) => {
                    &&& final(self)@ == (AppModel {
                        form: ProfileFormModel { new_user: Seq::empty(), ..old(self)@.form },
                        ..old(self)@
                    })
                    &&& client::effect_views(final(fx)@) == client::effect_views(old(fx)@)
                        + client::sent(old(self)@, UiCmdModel::SetUsername(u))
                },
                None => *final(self) == *old(self) && *final(fx) == *old(fx),
            },
    {
        let ghost f = client::effect_views(fx@);
        assert(f + Seq::<EffectModel>::empty() =~= f);
        let u = text::to_lowercase(text::trim(self.form.new_user.as_str()).as_str());
        if u.as_str().is_empty() {
            return;
        }
        let name = if text::starts_with(u.as_str(), "@") {
            u
        } else {
            text::cat("@", u.as_str())
        };
        self.send_ui(fx, UiCmd::SetUsername(name));
        self.form.new_user = String::new();
    }

    /// Asks for another password.
    pub fn change_password(&self, fx: &mut Vec<Effect>)
        ensures
            client::effect_views(final(fx)@) == client::effect_views(old(fx)@) + client::sent(
                self@,
                password_command(self@.form),
            ),
            client::effect_views(final(fx)@) == client::effect_views(old(fx)@) + client::sent(
                self@,
                (UiCmdModel::SetPassword { old: self@.form.old_pass, new: self@.form.new_pass }),
            ),
    {
        self.send_ui(
            fx,
            UiCmd::SetPassword {
                old: self.form.old_pass.clone(),
                new: self.form.new_pass.clone(),
            },
        );
    }

    /// Opens the window to make a room, with nothing filled in.
    pub fn begin_create_room(&mut self)
        ensures
            final(self)@ == room_making_begun(old(self)@),
            final(self)@ == (AppModel {
                create: RoomFormModel { name: Seq::empty(), pass: Seq::empty() },
                windows: Windows { create_room: true, ..old(self)@.windows },
                ..old(self)@
            }),
    {
        self.create.name = String::new();
        self.create.pass = String::new();
        self.windows.create_room = true;
    }

    /// Asks for the room to be made that is filled in, where it has a name.
    pub fn create_room(&self, fx: &mut Vec<Effect>)
        ensures
            client::effect_views(final(fx)@) == client::effect_views(old(fx)@) + room_request(
                self@,
                true,
            ),
            client::effect_views(final(fx)@) == client::effect_views(old(fx)@) + (if text::trimmed(
                self@.create.name,
            ).len() == 0 {
                Seq::empty()
            } else {
                client::sent(
                    self@,
                    (UiCmdModel::CreateRoom {
                        room: text::trimmed(self@.create.name),
                        pass: self@.create.pass,
                    }),
                )
            }),
    {
        let ghost f = client::effect_views(fx@);
        assert(f + Seq::<EffectModel>::empty() =~= f);
        let room = text::trim(self.create.name.as_str());
        if !room.as_str().is_empty() {
            self.send_ui(fx, UiCmd::CreateRoom { room, pass: self.create.pass.clone() });
        }
    }

    /// Opens the window to join a room, with nothing filled in, and asks for
    /// the list of rooms.
    pub fn begin_join_room(&mut self, fx: &mut Vec<Effect>)
        ensures
            final(self)@ == room_joining_begun(old(self)@),
            final(self)@ == (AppModel {
                join: RoomFormModel { name: Seq::empty(), pass: Seq::empty() },
                windows: Windows { join_room: true, ..old(self)@.windows },
                ..old(self)@
            }),
            client::effect_views(final(fx)@) == client::effect_views(old(fx)@) + client::sent(
                old(self)@,
                UiCmdModel::RefreshRooms,
            ),
    {
        self.join.name = String::new();
        self.join.pass = String::new();
        self.send_ui(fx, UiCmd::RefreshRooms);
        self.windows.join_room = true;
    }

    /// Asks to join the room that is filled in, where it has a name.
    pub fn join_room(&self, fx: &mut Vec<Effect>)
        ensures
            client::effect_views(final(fx)@) == client::effect_views(old(fx)@) + room_request(
                self@,
                false,
            ),
            client::effect_views(final(fx)@) == client::effect_views(old(fx)@) + (if text::trimmed(
                self@.join.name,
            ).len() == 0 {
                Seq::empty()
            } else {
                client::sent(
                    self@,
                    (UiCmdModel::Join {
                        room: text::trimmed(self@.join.name),
                        pass: self@.join.pass,
                    }),
                )
            }),
    {
        let ghost f = client::effect_views(fx@);
        assert(f + Seq::<EffectModel>::empty() =~= f);
        let room = text::trim(self.join.name.as_str());
        if !room.as_str().is_empty() {
            self.send_ui(fx, UiCmd::Join { room, pass: self.join.pass.clone() });
        }
    }

    /// Whether the login can be tried: a @username and a password are filled in.
    pub fn can_log_in(&self) -> (r: bool)
        ensures
            r == login_ready(self@.login),
            r == (valid_name(self@.login.at_user) && self@.login.password.len() > 0),
    {
        Self::user_valid(self.login.at_user.as_str()) && !self.login.password.as_str().is_empty()
    }

    /// Whether what is filled in as the @username is to be objected to.
    pub fn name_refused(&self) -> (r: bool)
        ensures
            r == name_objected_to(self@.login),
            r == (self@.login.at_user.len() > 0 && !valid_name(self@.login.at_user)),
    {
        !self.login.at_user.as_str().is_empty() && !Self::user_valid(self.login.at_user.as_str())
    }

    /// Fills in the login from an account that is kept.
    pub fn use_account(&mut self, i: usize)
        requires
            i < old(self).saved_accounts@.len(),
        ensures
            final(self)@ == with_account(old(self)@, i as int),
    {
        let acc = self.saved_accounts[i].clone();
        assert(self@.saved_accounts[i as int] == acc@);
        let SavedAccount { username, password, host, port } = acc;
        self.login.at_user = username;
        self.login.password = password;
        self.login.host = host;
        self.login.port = port;
        self.login.register = false;
    }

    /// Forgets an account that is kept.
    pub fn forget_account(&mut self, i: usize)
        requires
            i < old(self).saved_accounts@.len(),
        ensures
            final(self)@ == account_forgotten(old(self)@, i as int),
            final(self)@ == (AppModel {
                saved_accounts: old(self)@.saved_accounts.remove(i as int),
                ..old(self)@
            }),
    {
        let ghost before = self.saved_accounts@;
        self.saved_accounts.remove(i);
        assert(config::account_views(self.saved_accounts@) =~= config::account_views(before).remove(
            i as int,
        ));
    }
}

/// After a notice that we type, none is due until more than `TYPING_PAUSE` has
/// passed, whatever happens to the rest of the state in between.
pub proof fn law_typing_seldom(a: AppModel, first: u64, later: AppModel, changed: bool, next: u64)
    requires
        typing_due(a, true, first),
        later.last_typing_sent == typing_noted(a, true, first).last_typing_sent,
        next - first <= TYPING_PAUSE,
    ensures
        !typing_due(later, changed, next),
        typing_noted(later, changed, next) == later,
{
}

/// The own @username is the name that was typed, without white space around it,
/// in lower case, with its mark, which is put in front where it is missing. A
/// blank name is "@anon".
pub proof fn law_own_name(typed: Seq<char>)
    ensures
        ({
            let u = text::lowercase(text::trimmed(typed));
            &&& own_name(typed).len() > 0 && own_name(typed)[0] == '@'
            &&& text::trimmed(typed).len() == 0 ==> own_name(typed) == "@anon"@
            &&& text::trimmed(typed).len() > 0 && u.len() > 0 && u[0] == '@' ==> own_name(typed)
                == u
            &&& text::trimmed(typed).len() > 0 && (u.len() == 0 || u[0] != '@') ==> own_name(typed)
                == seq!['@'] + u
        }),
{
    lemma_at(text::lowercase(text::trimmed(typed)));
    reveal_strlit("@anon");
    reveal_strlit("@");
    assert("@"@ =~= seq!['@']);
}

proof fn lemma_at(s: Seq<char>)
    ensures
        has_at(s) <==> s.len() > 0 && s[0] == '@',
{
    reveal_strlit("@");
    if s.len() > 0 && s[0] == '@' {
        assert(s.subrange(0, 1) =~= "@"@);
    }
    if has_at(s) {
        assert(s.subrange(0, 1)[0] == s[0]);
    }
}

/// When the client begins to connect, the own name is the one that is logged in
/// under; the nick is the one that was typed, or else the name without its mark;
/// the command makes an account or logs in, as was chosen, with the password.
pub proof fn law_connecting(a: AppModel)
    ensures
        ({
            let b = connecting(a);
            let nick = text::trimmed(a.login.reg_nick);
            &&& b.me == own_name(a.login.at_user) && b.login.at_user == b.me
            &&& b.login == (LoginModel { at_user: b.me, ..a.login })
            &&& nick.len() > 0 ==> b.my_nick == nick
            &&& nick.len() == 0 ==> b.my_nick.is_suffix_of(b.me) && (forall|i: int|
                0 <= i < b.me.len() - b.my_nick.len() ==> #[trigger] b.me[i] == '@') && (
            b.my_nick.len() > 0 ==> b.my_nick[0] != '@')
            &&& b.my_bio == text::trimmed(a.login.reg_bio)
            &&& b.wired && b.connected && b.authed == a.authed
            &&& b.chats == a.chats && b.users == a.users && b.screen == a.screen
            &&& a.login.register ==> auth_command(a.login) == (UiCmdModel::Register {
                pass: a.login.password,
            })
            &&& !a.login.register ==> auth_command(a.login) == (UiCmdModel::Login {
                pass: a.login.password,
            })
        }),
{
    let me = own_name(a.login.at_user);
    let n = text::trim_front(me, text::Class::Only('@'));
    text::law_trim_front(me, text::Class::Only('@'));
    assert(me.subrange(me.len() - n.len(), me.len() as int) =~= n);
    assert forall|j: int| 0 <= j < me.len() - n.len() implies #[trigger] me[j] == '@' by {
        assert(text::in_class(text::Class::Only('@'), me[j]));
    }
}

/// What is typed in the chat with a peer goes to that peer, without white space
/// around it, and is shown in that chat as ours, under the own nick; what is
/// typed in a room goes to the room. The field is emptied.
pub proof fn law_typed_message_sent(a: AppModel, clock: ClockModel)
    requires
        client::wf(a),
        a.connected,
        a.wired,
        text::trimmed(a.input).len() > 0,
        text::trimmed(a.input)[0] != '/',
    ensures
        ({
            let b = submitted(a, clock);
            let msg = text::trimmed(a.input);
            let open = a.chats.list[a.chats.active];
            &&& b == (AppModel { chats: b.chats, input: b.input, ..a })
            &&& b.input.len() == 0
            &&& chats::put_into(
                a.chats,
                b.chats,
                if open.is_room {
                    chat::ROOM_CHAT@
                } else {
                    open.id
                },
                open.is_room,
            )
            &&& !open.is_room ==> client::says(
                b,
                open.id,
                true,
                a.my_nick,
                msg,
                chat::KIND_TEXT,
                clock,
            ) && submission(a) == seq![
                EffectModel::Send(UiCmdModel::Priv { target: open.id, text: msg }),
            ]
            &&& open.is_room ==> client::says(
                b,
                chat::ROOM_CHAT@,
                true,
                a.my_nick,
                msg,
                chat::KIND_TEXT,
                clock,
            ) && submission(a) == seq![EffectModel::Send(UiCmdModel::Room(msg))]
        }),
{
    let msg = text::trimmed(a.input);
    reveal_strlit("/");
    if "/"@.is_prefix_of(msg) {
        assert(msg.subrange(0, 1)[0] == msg[0]);
    }
    let open = a.chats.list[a.chats.active];
    let b = AppModel { input: Seq::empty(), ..a };
    let n = NoteModel { mine: true, sender: a.my_nick, text: msg, kind: chat::KIND_TEXT };
    client::lemma_says(b, open.id, false, n, clock);
    client::lemma_says(b, chat::ROOM_CHAT@, true, n, clock);
}

/// A command that is typed goes to the server as it stands, without white space
/// around it, and is not shown; the one for fingerprints opens their window and
/// goes nowhere.
pub proof fn law_typed_command_sent(a: AppModel, clock: ClockModel)
    requires
        a.connected,
        a.wired,
        text::trimmed(a.input).len() > 0,
        text::trimmed(a.input)[0] == '/',
    ensures
        ({
            let b = submitted(a, clock);
            let msg = text::trimmed(a.input);
            &&& b.input.len() == 0 && b.chats == a.chats && b.me == a.me && b.users == a.users
            &&& msg != "/fingerprints"@ ==> submission(a) == seq![
                EffectModel::Send(UiCmdModel::Raw(msg)),
            ] && b.windows == a.windows
            &&& msg == "/fingerprints"@ ==> submission(a).len() == 0 && b.windows.fingerprints
                && b.windows.profile == a.windows.profile && b.windows.create_room
                == a.windows.create_room && b.windows.join_room == a.windows.join_room
        }),
{
    let msg = text::trimmed(a.input);
    reveal_strlit("/");
    assert(msg.subrange(0, 1) =~= "/"@);
}

/// Without a connection nothing goes out; the user is told so. A blank line does
/// nothing.
pub proof fn law_nothing_sent(a: AppModel, clock: ClockModel)
    requires
        client::wf(a),
    ensures
        text::trimmed(a.input).len() == 0 ==> submitted(a, clock) == a && submission(a).len() == 0,
        !a.connected ==> submission(a).len() == 0,
        !a.connected && text::trimmed(a.input).len() > 0 ==> client::says(
            submitted(a, clock),
            chat::SYS_CHAT@,
            false,
            "ошибка"@,
            "Нет соединения."@,
            chat::KIND_ERROR,
            clock,
        ) && submitted(a, clock).input.len() == 0,
{
    let b = AppModel { input: Seq::empty(), ..a };
    let n = NoteModel {
        mine: false,
        sender: "ошибка"@,
        text: "Нет соединения."@,
        kind: chat::KIND_ERROR,
    };
    client::lemma_says(b, chat::SYS_CHAT@, false, n, clock);
}

/// The peer is told that we type when we do, in a chat with a peer, once logged
/// in: at once the first time, and again only after more than three seconds.
pub proof fn law_typing_told(a: AppModel, changed: bool, now: u64)
    ensures
        ({
            let room = a.chats.list[a.chats.active].is_room;
            &&& !changed || room || !a.authed ==> !typing_due(a, changed, now)
            &&& changed && !room && a.authed && a.last_typing_sent is None ==> typing_due(
                a,
                changed,
                now,
            )
            &&& changed && !room && a.authed && a.last_typing_sent is Some ==> (typing_due(
                a,
                changed,
                now,
            ) <==> now - a.last_typing_sent->0 > 3_000_000_000)
            &&& typing_due(a, changed, now) ==> typing_noted(a, changed, now) == (AppModel {
                last_typing_sent: Some(now),
                ..a
            })
            &&& !typing_due(a, changed, now) ==> typing_noted(a, changed, now) == a
        }),
{
}

/// A @username is made of three to nineteen small letters, digits and
/// underscores; marks in front do not count, nor does white space around it.
pub proof fn law_valid_names(u: Seq<char>)
    requires
        u.len() > 0,
        u[0] != '@',
        !text::is_white(u[0]),
        !text::is_white(u[u.len() - 1]),
    ensures
        ({
            let good = 3 <= u.len() <= 19 && forall|i: int|
                0 <= i < u.len() ==> ('a' <= #[trigger] u[i] <= 'z') || ('0' <= u[i] <= '9')
                    || u[i] == '_';
            &&& valid_name(u) <==> good
            &&& valid_name(seq!['@'] + u) <==> good
            &&& valid_name(seq![' '] + u) <==> good
        }),
        !valid_name(Seq::empty()),
{
    let none: Seq<char> = Seq::empty();
    assert(text::trimmed(none) =~= none);
    assert(text::trim_front(none, text::Class::Only('@')) =~= none);
    text::lemma_trimmed_same(u);
    let v = seq!['@'] + u;
    assert(v.last() == u[u.len() - 1]);
    text::lemma_trimmed_same(v);
    assert(v.drop_first() =~= u);
    assert(text::trim_front(u, text::Class::Only('@')) == u);
    assert(text::trim_front(v, text::Class::Only('@')) == u);
    let w = seq![' '] + u;
    assert(w.drop_first() =~= u);
    assert(text::trim_front(u, text::Class::White) == u);
    assert(text::trim_front(w, text::Class::White) == u);
    assert(text::trim_back(u, text::Class::White) == u);
    if valid_name(u) {
        assert forall|i: int| 0 <= i < u.len() implies ('a' <= #[trigger] u[i] <= 'z') || ('0'
            <= u[i] <= '9') || u[i] == '_' by {
            assert(name_char(u[i]));
        }
    }
}

/// The @username that is asked for is what was typed, in lower case, with its
/// mark; where nothing was typed, none is asked for.
pub proof fn law_wanted_name(typed: Seq<char>)
    ensures
        ({
            let u = text::lowercase(text::trimmed(typed));
            &&& u.len() == 0 ==> wanted_name(typed) is None
            &&& u.len() > 0 && u[0] == '@' ==> wanted_name(typed) == Some(u)
            &&& u.len() > 0 && u[0] != '@' ==> wanted_name(typed) == Some(seq!['@'] + u)
        }),
{
    lemma_at(text::lowercase(text::trimmed(typed)));
    reveal_strlit("@");
    assert("@"@ =~= seq!['@']);
}

/// A kept account fills in all of the login, to log in with; nothing else
/// changes.
pub proof fn law_account_filled_in(a: AppModel, i: int)
    requires
        0 <= i < a.saved_accounts.len(),
    ensures
        ({
            let b = with_account(a, i);
            let acc = a.saved_accounts[i];
            &&& b.login.at_user == acc.username && b.login.password == acc.password && b.login.host
                == acc.host && b.login.port == acc.port && !b.login.register
            &&& b.login.reg_nick == a.login.reg_nick && b.login.reg_bio == a.login.reg_bio
            &&& b == (AppModel { login: b.login, ..a })
        }),
{
}

/// A client that starts is at the login, with the server filled in and the
/// accounts that are kept, and is neither connected nor logged in.
pub proof fn law_fresh(
    host: Seq<char>,
    port: Seq<char>,
    accounts: Seq<AccountModel>,
    clock: ClockModel,
)
    ensures
        ({
            let a = fresh(host, port, accounts, clock);
            &&& a.screen == Screen::Connect && !a.wired && !a.authed && !a.connected
            &&& a.login.host == host && a.login.port == port && a.login.register
            &&& a.login.at_user.len() == 0 && a.login.password.len() == 0
            &&& a.me.len() == 0 && a.users.len() == 0 && a.input.len() == 0 && a.search.len() == 0
            &&& a.saved_accounts == accounts
            &&& a.typing_from is None && a.last_typing_sent is None && a.whois is None
                && a.connect_error is None
            &&& a.chats.active == 0 && a.chats.list.len() == 2
        }),
{
}

/// The notice that we type, where it is due.
pub open spec fn typing_notice(a: AppModel, changed: bool, now: u64) -> Seq<EffectModel> {
    if typing_due(a, changed, now) {
        client::sent(a, UiCmdModel::Typing(a.chats.list[a.chats.active].id))
    } else {
        Seq::empty()
    }
}

/// The notice that we type is for the peer of the open chat, and for no other.
pub proof fn law_typing_for_open_peer(a: AppModel, changed: bool, now: u64, k: int)
    requires
        0 <= k < typing_notice(a, changed, now).len(),
    ensures
        typing_notice(a, changed, now).len() == 1,
        typing_notice(a, changed, now)[k] matches EffectModel::Send(UiCmdModel::Typing(to)) && to
            == a.chats.list[a.chats.active].id,
        a.wired && changed && a.authed && !a.chats.list[a.chats.active].is_room,
{
}

/// The state after a user of the list was picked.
pub open spec fn picked(a: AppModel, at: Seq<char>, now: u64) -> AppModel {
    let i = chats::find_chat(a.chats.list, at);
    AppModel {
        chats: if i < a.chats.list.len() {
            chats::selected(a.chats, i)
        } else {
            chats::private_opened(a.chats, at, now)
        },
        ..a
    }
}

/// What is asked of the server when a user was picked.
pub open spec fn asked_of_picked(a: AppModel, at: Seq<char>) -> Seq<EffectModel> {
    if chats::find_chat(a.chats.list, at) < a.chats.list.len() {
        Seq::empty()
    } else {
        client::sent(a, UiCmdModel::Whois(at))
    }
}

/// Picking a user opens the chat with that user, with its messages where there
/// was one; where there was none, the profile of that user is asked for. No
/// other chat changes, nor anything else.
pub proof fn law_picked_user_open(a: AppModel, at: Seq<char>, now: u64)
    ensures
        ({
            let b = picked(a, at, now);
            let had = exists|k: int|
                0 <= k < a.chats.list.len() && (#[trigger] a.chats.list[k]).id == at;
            &&& b == (AppModel { chats: b.chats, ..a })
            &&& 0 <= b.chats.active < b.chats.list.len()
            &&& b.chats.list[b.chats.active].id == at && b.chats.list[b.chats.active].unread == 0
            &&& had ==> b.chats.list.len() == a.chats.list.len() && b.chats.list[b.chats.active].msgs
                == a.chats.list[b.chats.active].msgs && asked_of_picked(a, at).len() == 0
            &&& !had ==> b.chats.list.len() == a.chats.list.len() + 1
                && b.chats.list[b.chats.active].msgs.len() == 0
            &&& !had && a.wired ==> asked_of_picked(a, at) == seq![
                EffectModel::Send(UiCmdModel::Whois(at)),
            ]
            &&& forall|k: int|
                0 <= k < a.chats.list.len() && k != b.chats.active ==> #[trigger] b.chats.list[k]
                    == a.chats.list[k]
        }),
{
    chats::lemma_find_chat(a.chats.list, at);
    chats::law_private_opened(a.chats, at, now);
    let i = chats::find_chat(a.chats.list, at);
    if i < a.chats.list.len() {
        chats::law_selected(a.chats, i);
        assert(a.chats.list[i].id == at);
    }
}

/// The state after the user writes to the one whose profile is shown.
pub open spec fn writing_to_shown(a: AppModel, now: u64) -> AppModel {
    match a.whois {
        Some(p) => AppModel {
            chats: chats::private_opened(a.chats, p.at, now),
            whois: None,
            ..a
        },
        None => a,
    }
}

/// Writing to the one whose profile is shown opens the chat with that one and
/// closes the profile.
pub proof fn law_write_to_shown(a: AppModel, now: u64)
    ensures
        ({
            let b = writing_to_shown(a, now);
            &&& a.whois is None ==> b == a
            &&& a.whois matches Some(p) ==> b.whois is None && 0 <= b.chats.active
                < b.chats.list.len() && b.chats.list[b.chats.active].id == p.at && b == (AppModel {
                chats: b.chats,
                whois: None,
                ..a
            })
        }),
{
    if let Some(p) = a.whois {
        chats::law_private_opened(a.chats, p.at, now);
    }
}

/// The state with the window of the own profile open.
pub open spec fn profile_opened(a: AppModel) -> AppModel {
    AppModel {
        form: ProfileFormModel { nick: a.my_nick, bio: a.my_bio, ..a.form },
        windows: Windows { profile: true, ..a.windows },
        ..a
    }
}

/// The command that saves the profile as it is filled in.
pub open spec fn profile_command(form: ProfileFormModel) -> UiCmdModel {
    UiCmdModel::ProfileSet { nick: form.nick, bio: form.bio, hide: form.hide }
}

/// The command that changes the password as it is filled in.
pub open spec fn password_command(form: ProfileFormModel) -> UiCmdModel {
    UiCmdModel::SetPassword { old: form.old_pass, new: form.new_pass }
}

/// The window of the own profile shows the nick and the bio that are in force;
/// what is filled in is what is saved, so that opening it and saving it unchanged
/// asks for the profile that is in force.
pub proof fn law_profile_form(a: AppModel)
    ensures
        ({
            let b = profile_opened(a);
            &&& b.windows.profile && b.form.nick == a.my_nick && b.form.bio == a.my_bio
            &&& b.form.hide == a.form.hide && b.form.new_user == a.form.new_user && b.form.old_pass
                == a.form.old_pass && b.form.new_pass == a.form.new_pass
            &&& b.windows.fingerprints == a.windows.fingerprints && b.windows.create_room
                == a.windows.create_room && b.windows.join_room == a.windows.join_room
            &&& b == (AppModel { form: b.form, windows: b.windows, ..a })
            &&& profile_command(b.form) matches UiCmdModel::ProfileSet { nick, bio, hide } && nick
                == a.my_nick && bio == a.my_bio && hide == a.form.hide
        }),
        profile_command(a.form) matches UiCmdModel::ProfileSet { nick, bio, hide } && nick
            == a.form.nick && bio == a.form.bio && hide == a.form.hide,
        password_command(a.form) matches UiCmdModel::SetPassword { old: was, new } && was
            == a.form.old_pass && new == a.form.new_pass,
{
}

/// The state after another @username was asked for.
pub open spec fn name_asked_for(a: AppModel) -> AppModel {
    match wanted_name(a.form.new_user) {
        Some(_) => AppModel { form: ProfileFormModel { new_user: Seq::empty(), ..a.form }, ..a },
        None => a,
    }
}

/// What the server is told when another @username is asked for.
pub open spec fn name_request(a: AppModel) -> Seq<EffectModel> {
    match wanted_name(a.form.new_user) {
        Some(u) => client::sent(a, UiCmdModel::SetUsername(u)),
        None => Seq::empty(),
    }
}

/// Asking for another @username empties the field and leaves the own name until
/// the server confirms; where nothing was typed nothing happens.
pub proof fn law_name_asked_for(a: AppModel)
    ensures
        ({
            let b = name_asked_for(a);
            let u = text::lowercase(text::trimmed(a.form.new_user));
            &&& b.me == a.me && b.login == a.login && b.my_nick == a.my_nick
            &&& u.len() == 0 ==> b == a && name_request(a).len() == 0
            &&& u.len() > 0 ==> b.form.new_user.len() == 0 && b.form.nick == a.form.nick
                && b.form.bio == a.form.bio && b.form.old_pass == a.form.old_pass && b.form.new_pass
                == a.form.new_pass && b.form.hide == a.form.hide
            &&& u.len() > 0 && a.wired ==> name_request(a).len() == 1 && (name_request(
                a,
            )[0] matches EffectModel::Send(UiCmdModel::SetUsername(n)) && n.len() > 0 && n[0] == '@'
                && u.is_suffix_of(n) && n.len() <= u.len() + 1)
        }),
{
    let u = text::lowercase(text::trimmed(a.form.new_user));
    law_wanted_name(a.form.new_user);
    assert(u.subrange(0, u.len() as int) =~= u);
    let v = seq!['@'] + u;
    assert(v.subrange(1, v.len() as int) =~= u);
}

/// The state with the window to make a room open.
pub open spec fn room_making_begun(a: AppModel) -> AppModel {
    AppModel {
        create: RoomFormModel { name: Seq::empty(), pass: Seq::empty() },
        windows: Windows { create_room: true, ..a.windows },
        ..a
    }
}

/// The state with the window to join a room open.
pub open spec fn room_joining_begun(a: AppModel) -> AppModel {
    AppModel {
        join: RoomFormModel { name: Seq::empty(), pass: Seq::empty() },
        windows: Windows { join_room: true, ..a.windows },
        ..a
    }
}

/// What the server is told of the room that is filled in, to make or to join.
pub open spec fn room_request(a: AppModel, make: bool) -> Seq<EffectModel> {
    let form = if make {
        a.create
    } else {
        a.join
    };
    let room = text::trimmed(form.name);
    if room.len() == 0 {
        Seq::empty()
    } else if make {
        client::sent(a, UiCmdModel::CreateRoom { room, pass: form.pass })
    } else {
        client::sent(a, UiCmdModel::Join { room, pass: form.pass })
    }
}

/// The windows for rooms open empty, each for itself. A room is made or joined
/// by the name that is filled in, without white space around it, with the
/// password that is filled in; without a name nothing is asked for.
pub proof fn law_rooms_asked_for(a: AppModel)
    ensures
        ({
            let b = room_making_begun(a);
            &&& b.windows.create_room && b.create.name.len() == 0 && b.create.pass.len() == 0
            &&& b.join == a.join && b.windows.join_room == a.windows.join_room && b.chats == a.chats
            &&& room_request(b, true).len() == 0
        }),
        ({
            let b = room_joining_begun(a);
            &&& b.windows.join_room && b.join.name.len() == 0 && b.join.pass.len() == 0
            &&& b.create == a.create && b.windows.create_room == a.windows.create_room && b.chats
                == a.chats
            &&& room_request(b, false).len() == 0
        }),
        a.wired && text::trimmed(a.create.name).len() > 0 ==> room_request(a, true) == seq![
            EffectModel::Send(
                UiCmdModel::CreateRoom {
                    room: text::trimmed(a.create.name),
                    pass: a.create.pass,
                },
            ),
        ],
        a.wired && text::trimmed(a.join.name).len() > 0 ==> room_request(a, false) == seq![
            EffectModel::Send(
                UiCmdModel::Join { room: text::trimmed(a.join.name), pass: a.join.pass },
            ),
        ],
        text::trimmed(a.create.name).len() == 0 ==> room_request(a, true).len() == 0,
        text::trimmed(a.join.name).len() == 0 ==> room_request(a, false).len() == 0,
{
    let none: Seq<char> = Seq::empty();
    assert(text::trimmed(none) =~= none);
}

/// Whether the login can be tried.
pub open spec fn login_ready(login: LoginModel) -> bool {
    valid_name(login.at_user) && login.password.len() > 0
}

/// Whether what is filled in as the @username is to be objected to.
pub open spec fn name_objected_to(login: LoginModel) -> bool {
    login.at_user.len() > 0 && !valid_name(login.at_user)
}

/// The login can be tried with a @username that is not objected to and any
/// password; an empty name is neither objected to nor enough.
pub proof fn law_login_ready(login: LoginModel)
    ensures
        login_ready(login) ==> !name_objected_to(login) && login.at_user.len() > 0
            && login.password.len() > 0,
        !name_objected_to(login) && login.at_user.len() > 0 && login.password.len() > 0
            ==> login_ready(login),
        login.at_user.len() == 0 ==> !login_ready(login) && !name_objected_to(login),
        login.password.len() == 0 ==> !login_ready(login),
{
    if login.at_user.len() == 0 {
        let none: Seq<char> = Seq::empty();
        assert(login.at_user =~= none);
        assert(text::trimmed(none) =~= none);
        assert(text::trim_front(none, text::Class::Only('@')) =~= none);
    }
}

/// The state without one of the kept accounts.
pub open spec fn account_forgotten(a: AppModel, i: int) -> AppModel {
    AppModel { saved_accounts: a.saved_accounts.remove(i), ..a }
}

/// Forgetting an account takes away that one; the others stay, in order.
pub proof fn law_account_forgotten(a: AppModel, i: int)
    requires
        0 <= i < a.saved_accounts.len(),
    ensures
        ({
            let b = account_forgotten(a, i);
            &&& b == (AppModel { saved_accounts: b.saved_accounts, ..a })
            &&& b.saved_accounts.len() == a.saved_accounts.len() - 1
            &&& b.saved_accounts.take(i) == a.saved_accounts.take(i)
            &&& b.saved_accounts.skip(i) == a.saved_accounts.skip(i + 1)
        }),
{
    let b = account_forgotten(a, i);
    assert(b.saved_accounts.take(i) =~= a.saved_accounts.take(i));
    assert(b.saved_accounts.skip(i) =~= a.saved_accounts.skip(i + 1));
}

} // verus!
