use mesh_messenger::chat;
use mesh_messenger::chat::{Chat, Clock, Msg, User};
use mesh_messenger::client::{Effect, MeshApp, Screen, TYPING_PAUSE, TYPING_SHOWN};
use mesh_messenger::config::SavedAccount;
use mesh_messenger::events::{Ev, UiCmd};
use mesh_messenger::look;
use mesh_messenger::view;
use mesh_messenger::view::{Ticks, Tone};

fn clock(now: u64) -> Clock {
    Clock { now, time: "12:34".to_string(), date: "2026-08-25".to_string() }
}

fn app() -> MeshApp {
    let mut a = MeshApp::new("h".to_string(), "1".to_string(), Vec::new(), &clock(0));
    a.wired = true;
    a.connected = true;
    a.authed = true;
    a.screen = Screen::Chat;
    a.me = "@me".to_string();
    a.my_nick = "Я".to_string();
    a
}

fn fx_of(fx: &Vec<Effect>) -> Vec<String> {
    fx.iter()
        .map(|e| match e {
            Effect::Send(UiCmd::Raw(t)) => format!("raw {}", t),
            Effect::Send(UiCmd::Room(t)) => format!("room {}", t),
            Effect::Send(UiCmd::Priv { target, text }) => format!("priv {} {}", target, text),
            Effect::Send(UiCmd::Typing(t)) => format!("typing {}", t),
            Effect::Send(UiCmd::Whois(t)) => format!("whois {}", t),
            Effect::Send(UiCmd::SetUsername(t)) => format!("rename {}", t),
            Effect::Send(UiCmd::Register { pass }) => format!("register {}", pass),
            Effect::Send(UiCmd::Login { pass }) => format!("login {}", pass),
            Effect::Send(UiCmd::RefreshUsers) => "users".to_string(),
            Effect::Send(UiCmd::RefreshRooms) => "rooms".to_string(),
            Effect::Send(UiCmd::CreateRoom { room, pass }) => format!("create {} {}", room, pass),
            Effect::Send(UiCmd::Join { room, pass }) => format!("join {} {}", room, pass),
            Effect::Send(UiCmd::ProfileSet { nick, bio, hide }) => format!("profile {} {} {}", nick, bio, hide),
            Effect::Send(UiCmd::SetPassword { old, new }) => format!("password {} {}", old, new),
            Effect::Send(_) => "other".to_string(),
            Effect::Toast { title, body } => format!("toast {} {}", title, body),
            Effect::SaveAccount(a) => format!("save {} {} {} {}", a.username, a.password, a.host, a.port),
        })
        .collect()
}

fn handle(a: &mut MeshApp, ev: Ev, now: u64) -> Vec<String> {
    let mut fx: Vec<Effect> = Vec::new();
    a.handle_event(&mut fx, ev, &clock(now));
    fx_of(&fx)
}

fn ids(a: &MeshApp) -> Vec<String> {
    a.chats.list.iter().map(|c| c.id.clone()).collect()
}

fn msg(from: &str, text: &str) -> Ev {
    Ev::Msg { from: from.to_string(), text: text.to_string() }
}

fn sys(a: &MeshApp) -> (String, String, u8) {
    let i = a.chats.position(chat::SYS_CHAT);
    let m = a.chats.list[i].msgs.last().unwrap();
    (m.sender.clone(), m.text.clone(), m.kind)
}

fn noted(sender: &str, text: &str, kind: u8) -> (String, String, u8) {
    (sender.to_string(), text.to_string(), kind)
}

#[test]
fn a_client_starts_at_the_login() {
    let a = MeshApp::new("h".to_string(), "1".to_string(), Vec::new(), &clock(3));
    assert_eq!(a.screen, Screen::Connect);
    assert!(a.login.register && !a.wired && !a.connected && !a.authed);
    assert_eq!(ids(&a), vec!["# Общая комната", "📡 Сервер"]);
    assert_eq!(a.chats.list[0].msgs.len(), 3);
    assert_eq!(a.chats.list[0].msgs[1].sender, "Я");
    assert!(a.chats.list[0].msgs[1].mine && a.chats.list[0].msgs[1].read);
    assert_eq!(a.chats.list[0].unread, 0);
    assert_eq!(a.chats.list[1].last_activity, 3);
}

#[test]
fn a_message_moves_its_chat_up_and_keeps_the_open_one() {
    let mut a = app();
    assert_eq!(handle(&mut a, msg("@bob", "раз"), 1), vec!["toast bob раз"]);
    assert_eq!(ids(&a), vec!["@bob", "# Общая комната", "📡 Сервер"]);
    assert_eq!(a.chats.active, 1);
    assert_eq!(a.chats.list[0].unread, 1);
    assert!(!a.chats.list[0].msgs[0].read);
    handle(&mut a, msg("@eve", "два"), 2);
    handle(&mut a, msg("@bob", "три"), 3);
    assert_eq!(ids(&a), vec!["@bob", "@eve", "# Общая комната", "📡 Сервер"]);
    assert_eq!(a.chats.list[a.chats.active].id, "# Общая комната");
    assert_eq!(a.chats.list[0].unread, 2);
    a.select_chat(0);
    assert_eq!(a.chats.list[0].unread, 0);
    assert!(handle(&mut a, msg("@bob", "четыре"), 4).is_empty());
    assert_eq!(a.chats.list[0].unread, 0);
    assert!(a.chats.list[0].msgs[2].read);
    assert!(handle(&mut a, msg("@me", "эхо"), 5).is_empty());
    assert_eq!(a.chats.position("@me"), a.chats.list.len());
}

#[test]
fn only_the_chat_of_a_message_counts_it() {
    let mut a = app();
    handle(&mut a, msg("@bob", "раз"), 1);
    a.chats.list[0].unread = usize::MAX;
    handle(&mut a, msg("@eve", "два"), 2);
    assert_eq!(ids(&a), vec!["@eve", "@bob", "# Общая комната", "📡 Сервер"]);
    assert_eq!((a.chats.list[0].unread, a.chats.list[1].unread), (1, usize::MAX));
    a.chats.active = 1;
    handle(&mut a, msg("@bob", "три"), 3);
    assert_eq!(a.chats.list[1].msgs.len(), 2);
    assert_eq!(a.chats.list[1].unread, usize::MAX);
}

#[test]
fn a_chat_keeps_three_thousand_messages() {
    let mut a = app();
    for i in 0..3000 {
        handle(&mut a, msg("@bob", &format!("{}", i)), i);
    }
    assert_eq!(a.chats.list[0].msgs.len(), 3000);
    handle(&mut a, msg("@bob", "последнее"), 3000);
    assert_eq!(a.chats.list[0].msgs.len(), 2001);
    assert_eq!(a.chats.list[0].msgs[0].text, "1000");
    assert_eq!(a.chats.list[0].unread, 3001);
}

#[test]
fn events_are_noted() {
    let mut a = app();
    handle(&mut a, Ev::Line("привет".to_string()), 1);
    assert_eq!(sys(&a), noted("сервер", "привет", 0));
    handle(&mut a, Ev::Warn("ключ".to_string()), 1);
    assert_eq!(sys(&a), noted("⚠ TOFU", "ключ", 3));
    handle(&mut a, Ev::Error("нет".to_string()), 1);
    assert_eq!(sys(&a), noted("ошибка", "нет", 2));
    handle(&mut a, Ev::PasswordChanged, 1);
    assert_eq!(sys(&a), noted("система", "✅ Пароль изменён", 0));
    handle(&mut a, Ev::Rooms("a".to_string()), 1);
    assert_eq!(sys(&a), noted("система", "✅ Пароль изменён", 0));
    handle(&mut a, Ev::Line("__DISCONNECTED__".to_string()), 1);
    assert_eq!(sys(&a), noted("система", "⛔ Соединение потеряно.", 2));
    assert!(!a.connected && !a.authed);
    let m = &a.chats.list[0].msgs[0];
    assert_eq!((m.time.as_str(), m.date.as_str()), ("12:34", "2026-08-25"));
}

#[test]
fn an_error_at_the_login_is_shown_there() {
    let mut a = MeshApp::new("h".to_string(), "1".to_string(), Vec::new(), &clock(0));
    handle(&mut a, Ev::Error("нет".to_string()), 1);
    assert_eq!(a.connect_error, Some("нет".to_string()));
    assert!(a.chats.list[1].msgs.is_empty());
}

#[test]
fn login_keeps_the_account_and_forgets_the_password() {
    let mut a = app();
    a.screen = Screen::Connect;
    a.authed = false;
    a.login.password = "p".to_string();
    a.connect_error = Some("x".to_string());
    assert_eq!(handle(&mut a, Ev::Authed, 1), vec!["save @me p h 1", "users", "rooms"]);
    assert!(a.authed);
    assert_eq!(a.screen, Screen::Chat);
    assert_eq!(a.login.password, "");
    assert_eq!(a.connect_error, None);
    assert_eq!(sys(&a), noted("система", "✅ Вход выполнен. Можно общаться!", 0));
}

#[test]
fn users_come_and_go() {
    let mut a = app();
    let list = vec![
        ("Боб".to_string(), "@bob".to_string(), true),
        ("Я".to_string(), "@me".to_string(), true),
        (String::new(), "@eve".to_string(), false),
    ];
    handle(&mut a, Ev::UserList(list), 1);
    assert_eq!(a.users.len(), 2);
    assert_eq!(a.display_name("@bob"), "Боб");
    assert_eq!(a.display_name("@eve"), "@eve");
    assert_eq!(a.display_name("@me"), "Я");
    assert_eq!(a.display_name("@@zed"), "zed");
    let come = |user: &str, online: bool, nick: &str| Ev::Presence {
        user: user.to_string(),
        online,
        nick: nick.to_string(),
    };
    handle(&mut a, come("@eve", true, "Ева"), 1);
    assert_eq!(a.users[1].display(), "Ева");
    assert!(a.users[1].online);
    handle(&mut a, come("@eve", false, ""), 1);
    assert_eq!(a.users[1].nick, "Ева");
    assert!(!a.users[1].online);
    handle(&mut a, come("@new", false, "Н"), 1);
    assert_eq!(a.users.len(), 2);
    handle(&mut a, come("@new", true, "Н"), 1);
    assert_eq!(a.users[2].at, "@new");
    handle(&mut a, come("@me", false, "x"), 1);
    assert_eq!(a.users.len(), 3);
}

#[test]
fn profiles_and_names_change() {
    let mut a = app();
    handle(
        &mut a,
        Ev::Profile {
            user: "@bob".to_string(),
            nick: "Боб".to_string(),
            online: true,
            bio: "о себе".to_string(),
        },
        1,
    );
    assert_eq!(a.whois.as_ref().unwrap().at, "@bob");
    a.write_to_shown(7);
    assert!(a.whois.is_none());
    assert_eq!(a.chats.list[a.chats.active].id, "@bob");
    handle(
        &mut a,
        Ev::ProfileSaved { nick: "Новый".to_string(), bio: "б".to_string(), hide: true },
        1,
    );
    assert_eq!((a.my_nick.as_str(), a.my_bio.as_str()), ("Новый", "б"));
    assert_eq!((a.form.nick.as_str(), a.form.bio.as_str(), a.form.hide), ("Новый", "б", true));
    a.open_private("@me", 8);
    handle(&mut a, Ev::UsernameChanged("@you".to_string()), 1);
    assert_eq!((a.me.as_str(), a.login.at_user.as_str()), ("@you", "@you"));
    assert_eq!(a.chats.list[a.chats.active].id, "@you");
    assert_eq!(sys(&a), noted("система", "✅ @username сменён на @you", 0));
}

#[test]
fn a_room_that_is_entered_is_opened() {
    let mut a = app();
    handle(&mut a, Ev::RoomChanged("work".to_string()), 5);
    assert_eq!(a.chats.list[a.chats.active].id, "# work");
    assert!(a.chats.list[a.chats.active].is_room);
    assert_eq!(sys(&a), noted("система", "Вы вошли в комнату work", 0));
    assert_eq!(a.chat_status(), "комната · E2E 🔒");
}

#[test]
fn a_file_is_noted_in_its_chat() {
    let mut a = app();
    let ev = Ev::FileMsg { from: "@bob".to_string(), name: "f.txt".to_string() };
    assert!(handle(&mut a, ev, 1).is_empty());
    let m = &a.chats.list[0].msgs[0];
    assert_eq!((m.text.as_str(), m.kind), ("📎 файл «f.txt» сохранён в downloads/", 4));
    assert_eq!(a.chats.list[0].last_preview(), "📎 📎 файл «f.txt» сохранён в downloads/");
}

#[test]
fn typing_is_shown_for_four_seconds() {
    let mut a = app();
    a.open_private("@bob", 0);
    let mut fx: Vec<Effect> = Vec::new();
    a.poll_events(&mut fx, vec![Ev::Typing { from: "@bob".to_string() }], &clock(10));
    assert!(a.peer_types());
    assert_eq!(a.chat_status(), "печатает…");
    a.poll_events(&mut fx, Vec::new(), &clock(10 + TYPING_SHOWN));
    assert!(a.peer_types());
    a.poll_events(&mut fx, Vec::new(), &clock(11 + TYPING_SHOWN));
    assert!(!a.peer_types());
    assert_eq!(a.chat_status(), "не в сети");
    assert!(fx.is_empty());
}

#[test]
fn events_wait_for_the_network_side() {
    let mut a = app();
    a.wired = false;
    let mut fx: Vec<Effect> = Vec::new();
    a.poll_events(&mut fx, vec![Ev::Line("x".to_string())], &clock(1));
    assert!(a.chats.list[1].msgs.is_empty());
    a.wired = true;
    a.poll_events(&mut fx, vec![Ev::Line("x".to_string()), msg("@bob", "y")], &clock(1));
    assert_eq!(ids(&a), vec!["@bob", "📡 Сервер", "# Общая комната"]);
    assert_eq!(fx_of(&fx), vec!["toast bob y"]);
}

fn submit(a: &mut MeshApp, text: &str) -> Vec<String> {
    let mut fx: Vec<Effect> = Vec::new();
    a.input = text.to_string();
    a.submit_input(&mut fx, &clock(9));
    fx_of(&fx)
}

#[test]
fn what_is_typed_is_sent_off() {
    let mut a = app();
    assert!(submit(&mut a, "  ").is_empty());
    assert_eq!(a.input, "  ");
    assert_eq!(submit(&mut a, " всем "), vec!["room всем"]);
    assert_eq!(a.input, "");
    let m = a.chats.list[0].msgs.last().unwrap();
    assert_eq!((m.sender.as_str(), m.text.as_str(), m.mine), ("Я", "всем", true));
    assert_eq!(submit(&mut a, "/help"), vec!["raw /help"]);
    assert!(submit(&mut a, "/fingerprints").is_empty());
    assert!(a.windows.fingerprints);
    a.open_private("@bob", 1);
    assert_eq!(submit(&mut a, "тебе"), vec!["priv @bob тебе"]);
    assert_eq!(a.chats.list[a.chats.active].last_preview(), "Вы: : тебе");
    a.connected = false;
    assert!(submit(&mut a, "тебе").is_empty());
    assert_eq!(sys(&a), noted("ошибка", "Нет соединения.", 2));
}

#[test]
fn typing_is_told_seldom() {
    let mut a = app();
    let mut fx: Vec<Effect> = Vec::new();
    a.maybe_send_typing(&mut fx, true, 5);
    assert!(fx.is_empty());
    a.open_private("@bob", 1);
    a.maybe_send_typing(&mut fx, false, 5);
    assert!(fx.is_empty());
    a.maybe_send_typing(&mut fx, true, 5);
    a.maybe_send_typing(&mut fx, true, 5 + TYPING_PAUSE);
    assert_eq!(fx_of(&fx), vec!["typing @bob"]);
    a.maybe_send_typing(&mut fx, true, 6 + TYPING_PAUSE);
    assert_eq!(fx.len(), 2);
    a.authed = false;
    a.maybe_send_typing(&mut fx, true, u64::MAX);
    assert_eq!(fx.len(), 2);
}

fn connect(typed: &str, nick: &str, register: bool) -> (MeshApp, String, Vec<String>) {
    let mut a = MeshApp::new("h".to_string(), "1".to_string(), Vec::new(), &clock(0));
    a.login.at_user = typed.to_string();
    a.login.password = "p".to_string();
    a.login.reg_nick = nick.to_string();
    a.login.reg_bio = " о себе ".to_string();
    a.login.register = register;
    let mut fx: Vec<Effect> = Vec::new();
    let user = a.start_connect(&mut fx, &clock(1));
    let f = fx_of(&fx);
    (a, user, f)
}

#[test]
fn connecting_takes_the_name_that_was_typed() {
    let (a, user, fx) = connect(" @BOB ", " Боб ", true);
    assert_eq!(user, "@bob");
    assert_eq!((a.me.as_str(), a.my_nick.as_str(), a.my_bio.as_str()), ("@bob", "Боб", "о себе"));
    assert_eq!(fx, vec!["register p"]);
    assert!(a.wired && a.connected);
    assert_eq!(sys(&a), noted("система", "Подключаемся…", 0));
    let (a, user, fx) = connect("Боб", "", false);
    assert_eq!(user, "@боб");
    assert_eq!((a.me.as_str(), a.my_nick.as_str()), ("@боб", "боб"));
    assert_eq!(a.login.at_user, user);
    assert_eq!(fx, vec!["login p"]);
    let (a, user, _) = connect(" ", "", true);
    assert_eq!(user, "@anon");
    assert_eq!((a.me.as_str(), a.my_nick.as_str()), ("@anon", "anon"));
    assert_eq!(a.login.at_user, user);
}

#[test]
fn names_are_three_to_nineteen_characters() {
    assert!(MeshApp::user_valid("@bob_1"));
    assert!(MeshApp::user_valid(" bob "));
    assert!(!MeshApp::user_valid("bo"));
    assert!(MeshApp::user_valid("abcdefghijklmnopqrs"));
    assert!(!MeshApp::user_valid("abcdefghijklmnopqrst"));
    assert!(!MeshApp::user_valid("Bob"));
    assert!(!MeshApp::user_valid("боб"));
    assert!(!MeshApp::user_valid("bo b"));
    let mut a = app();
    a.login.at_user = "bob".to_string();
    assert!(!a.can_log_in());
    a.login.password = "p".to_string();
    assert!(a.can_log_in());
    assert!(!a.name_refused());
    a.login.at_user = "b".to_string();
    assert!(a.name_refused() && !a.can_log_in());
    a.login.at_user = String::new();
    assert!(!a.name_refused());
}

#[test]
fn the_user_asks_for_changes() {
    let mut a = app();
    let mut fx: Vec<Effect> = Vec::new();
    a.form.new_user = " Новое ".to_string();
    a.change_username(&mut fx);
    a.form.new_user = "@X".to_string();
    a.change_username(&mut fx);
    a.change_username(&mut fx);
    a.my_bio = "био".to_string();
    a.edit_profile();
    assert!(a.windows.profile);
    a.save_profile(&mut fx);
    a.form.old_pass = "1".to_string();
    a.form.new_pass = "2".to_string();
    a.change_password(&mut fx);
    a.begin_create_room();
    assert!(!a.create.named());
    a.create_room(&mut fx);
    a.create.name = " work ".to_string();
    a.create.pass = "s".to_string();
    a.create_room(&mut fx);
    a.begin_join_room(&mut fx);
    a.join_room(&mut fx);
    a.join.name = "work".to_string();
    assert!(a.join.named());
    a.join_room(&mut fx);
    assert!(a.windows.create_room && a.windows.join_room);
    assert_eq!(
        fx_of(&fx),
        vec![
            "rename @новое",
            "rename @x",
            "profile Я био false",
            "password 1 2",
            "create work s",
            "rooms",
            "join work "
        ]
    );
}

#[test]
fn a_user_is_picked() {
    let mut a = app();
    let mut fx: Vec<Effect> = Vec::new();
    a.pick_user(&mut fx, "@bob", 1);
    assert_eq!(fx_of(&fx), vec!["whois @bob"]);
    assert_eq!(a.chats.list[a.chats.active].id, "@bob");
    a.select_chat(0);
    a.pick_user(&mut fx, "@bob", 2);
    assert_eq!(fx.len(), 1);
    assert_eq!(a.chats.list[a.chats.active].id, "@bob");
    assert_eq!(a.chats.list[a.chats.active].last_activity, 1);
    a.wired = false;
    a.pick_user(&mut fx, "@eve", 3);
    assert_eq!(fx.len(), 1);
}

#[test]
fn accounts_are_used_and_forgotten() {
    let acc = |n: &str| SavedAccount {
        username: n.to_string(),
        password: "p".to_string(),
        host: "хост".to_string(),
        port: "2".to_string(),
    };
    let mut a = MeshApp::new("h".to_string(), "1".to_string(), vec![acc("@a"), acc("@b")], &clock(0));
    a.use_account(1);
    assert_eq!((a.login.at_user.as_str(), a.login.password.as_str()), ("@b", "p"));
    assert_eq!((a.login.host.as_str(), a.login.port.as_str()), ("хост", "2"));
    assert!(!a.login.register);
    a.forget_account(0);
    assert_eq!(a.saved_accounts.len(), 1);
    assert_eq!(a.saved_accounts[0].username, "@b");
}

#[test]
fn chats_are_listed_by_activity() {
    let mut a = app();
    handle(&mut a, msg("@bob", "1"), 10);
    handle(&mut a, msg("@eve", "2"), 20);
    handle(&mut a, msg("@zed", "3"), 10);
    a.users.push(User { nick: "Борис".to_string(), at: "@bob".to_string(), online: true });
    let name = |a: &MeshApp, rows: Vec<usize>| -> Vec<String> {
        rows.iter().map(|&i| a.chats.list[i].id.clone()).collect()
    };
    assert_eq!(ids(&a), vec!["@zed", "@eve", "@bob", "# Общая комната", "📡 Сервер"]);
    assert_eq!(name(&a, a.private_rows()), vec!["@eve", "@zed", "@bob", "📡 Сервер"]);
    assert_eq!(name(&a, a.room_rows()), vec!["# Общая комната"]);
    a.search = "БОР".to_string();
    assert_eq!(name(&a, a.private_rows()), vec!["@bob"]);
    assert!(a.room_rows().is_empty());
    a.search = "ОБЩ".to_string();
    assert_eq!(name(&a, a.room_rows()), vec!["# Общая комната"]);
    assert_eq!(a.chat_title(2), "Борис");
    assert_eq!(a.chat_title(3), "# Общая комната");
    assert_eq!(a.key_owner("@me"), "Я (вы)");
    assert_eq!(a.key_owner("@bob"), "Борис");
    a.select_chat(2);
    assert_eq!(a.chat_status(), "в сети");
}

#[test]
fn users_online_are_listed_first() {
    let mut a = app();
    let user = |nick: &str, at: &str, online: bool| User { nick: nick.to_string(), at: at.to_string(), online };
    a.users = vec![user("А", "@a", false), user("Б", "@b", true), user("В", "@c", false), user("Г", "@d", true)];
    let at = |a: &MeshApp| -> Vec<String> { a.user_rows().iter().map(|u| u.at.clone()).collect() };
    assert_eq!(at(&a), vec!["@b", "@d", "@a", "@c"]);
    a.search = "в".to_string();
    assert_eq!(at(&a), vec!["@c"]);
    a.search = "@D".to_string();
    assert_eq!(at(&a), vec!["@d"]);
}

fn message(sender: &str, text: &str, mine: bool, date: &str) -> Msg {
    Msg {
        mine,
        sender: sender.to_string(),
        text: text.to_string(),
        kind: 0,
        time: "1:00".to_string(),
        date: date.to_string(),
        reactions: Vec::new(),
        read: true,
    }
}

#[test]
fn messages_are_grouped() {
    let mut a = app();
    a.chats.list[0].msgs = vec![
        message("А", "раз", false, "d1"),
        message("А", "два", false, "d1"),
        message("А", "три", false, "d2"),
        message("Б", "раз", false, "d2"),
        message("Б", "раз", true, "d2"),
    ];
    let rows = |a: &MeshApp| -> Vec<(usize, bool, bool, bool)> {
        a.message_rows().iter().map(|r| (r.index, r.dated, r.first, r.last)).collect()
    };
    assert_eq!(
        rows(&a),
        vec![
            (0, true, true, false),
            (1, false, false, true),
            (2, true, true, true),
            (3, false, true, true),
            (4, false, true, true)
        ]
    );
    a.search_in_chat = "РАЗ".to_string();
    assert_eq!(rows(&a), vec![(0, true, true, false), (3, true, true, true), (4, false, true, true)]);
    a.search_in_chat = "нет такого".to_string();
    assert!(rows(&a).is_empty());
}

#[test]
fn bubbles_tell_messages_apart() {
    let look = |m: &Msg, first: bool| {
        let b = view::bubble_of(m, first);
        (b.tone, b.named, b.ticks)
    };
    let mut m = message("Б", "т", false, "d");
    assert_eq!(look(&m, true), (Tone::Other, true, Ticks::Absent));
    assert_eq!(look(&m, false), (Tone::Other, false, Ticks::Absent));
    m.kind = chat::KIND_ERROR;
    assert_eq!(look(&m, true), (Tone::Error, false, Ticks::Absent));
    m.kind = chat::KIND_WARNING;
    assert_eq!(look(&m, true), (Tone::Warning, false, Ticks::Absent));
    let mut m = message("Я", "т", true, "d");
    assert_eq!(look(&m, true), (Tone::Mine, false, Ticks::Read));
    m.read = false;
    assert_eq!(look(&m, true), (Tone::Mine, false, Ticks::Sent));
    m.kind = chat::KIND_FILE;
    assert_eq!(look(&m, true), (Tone::Mine, false, Ticks::Absent));
    let m = message("", "т", false, "d");
    assert_eq!(look(&m, true), (Tone::Other, false, Ticks::Absent));
}

#[test]
fn previews_show_the_last_message() {
    let mut c = Chat::new("@bob".to_string(), false, 1);
    assert_eq!(c.last_preview(), "Нет сообщений");
    c.add_msg(message("Боб:", "привет", false, "d"), false, 2);
    assert_eq!(c.last_preview(), "Боб: привет");
    assert_eq!((c.unread, c.last_activity), (1, 2));
    let mut m = message("ошибка", "нет", false, "d");
    m.kind = chat::KIND_ERROR;
    c.add_msg(m, true, 3);
    assert_eq!(c.last_preview(), "нет");
    assert_eq!(c.unread, 1);
    let mut f = message("Я", "f.txt", true, "d");
    f.kind = chat::KIND_FILE;
    c.add_msg(f, true, 4);
    assert_eq!(c.last_preview(), "Вы: 📎 f.txt");
}

#[test]
fn a_chat_is_exported() {
    let mut c = Chat::new("# Общая комната".to_string(), true, 1);
    c.add_msg(message("Боб", "привет", false, "2026-08-25"), true, 2);
    c.add_msg(message("Я", "да", true, "2026-08-26"), true, 2);
    assert_eq!(
        c.export_text(),
        format!(
            "MeshMessenger — Экспорт чата «# Общая комната»\n{}\n\n[2026-08-25 1:00] Боб: привет\n[2026-08-26 1:00] Вы: да",
            "=".repeat(40)
        )
    );
    assert_eq!(
        chat::export_name("# Общая комната", "20260825_120000"),
        "mesh_export__Общая_комната_20260825_120000.txt"
    );
}

#[test]
fn initials_and_colours() {
    assert_eq!(look::initials_of("# Общая комната"), "ОК");
    assert_eq!(look::initials_of("@bob"), "BO");
    assert_eq!(look::initials_of("📡 сервер"), "се");
    assert_eq!(look::initials_of("x"), "X");
    assert_eq!(look::initials_of("ßa b"), "SSB");
    assert_eq!(look::initials_of("@ "), "?");
    assert_eq!(look::avatar_color("alice"), (70, 178, 90));
    assert_eq!(look::avatar_color("# Общая комната"), (46, 170, 220));
    assert_eq!(look::avatar_color("@bob"), (226, 98, 176));
    assert_eq!(look::avatar_color(""), (226, 98, 176));
}

#[test]
fn texts_are_shortened() {
    assert_eq!(look::truncate("привет", 6), "привет");
    assert_eq!(look::truncate("привет", 5), "прив…");
    assert_eq!(look::truncate("привет", 0), "…");
    assert_eq!(look::truncate("", 0), "");
    assert_eq!(look::badge(5), 5);
    assert_eq!(look::badge(100), 99);
    assert_eq!(look::user_line("@bob", true), "@bob · в сети");
    assert_eq!(look::user_line("@bob", false), "@bob · не в сети");
    assert_eq!(look::date_label("d", "d", "y"), "Сегодня");
    assert_eq!(look::date_label("y", "d", "y"), "Вчера");
    assert_eq!(look::date_label("x", "d", "y"), "x");
}

fn styles(text: &str) -> Vec<Vec<(String, bool, bool, bool)>> {
    look::rich_lines(text)
        .iter()
        .map(|l| l.segments.iter().map(|s| (s.text.clone(), s.bold, s.code, s.link)).collect())
        .collect()
}

fn plain(t: &str) -> (String, bool, bool, bool) {
    (t.to_string(), false, false, false)
}

fn code(t: &str) -> (String, bool, bool, bool) {
    (t.to_string(), false, true, false)
}

fn link(t: &str) -> (String, bool, bool, bool) {
    (t.to_string(), false, false, true)
}

#[test]
fn marks_make_bold_and_code() {
    let s = |t: &str, bold: bool, code: bool| (t.to_string(), bold, code, false);
    assert_eq!(
        styles("a **b** `c**d`e"),
        vec![vec![
            s("a ", false, false),
            s("b", true, false),
            s(" ", false, false),
            s("c", false, true),
            s("d", true, true),
            s("e", true, false)
        ]]
    );
    assert_eq!(styles("**a\nb"), vec![vec![s("a", true, false)], vec![s("b", false, false)]]);
    assert_eq!(styles("****``"), vec![vec![]]);
    assert_eq!(styles(""), vec![vec![]]);
    let lines: Vec<String> = look::rich_lines("****\n\n**x**").iter().map(|l| l.line.clone()).collect();
    assert_eq!(lines, vec!["****", "", "**x**"]);
}

#[test]
fn blocks_of_code_are_shown() {
    assert_eq!(styles("```let x = 1;```"), vec![vec![code("let x = 1;")]]);
    assert_eq!(
        styles("```rust\nx **y**\n```\n\n"),
        vec![vec![code("rust")], vec![code("x **y**")], vec![code("")], vec![], vec![]]
    );
    assert_eq!(styles("a ```b``` c"), vec![vec![plain("a "), code("b"), plain(" c")]]);
    assert_eq!(
        styles("**a ```b``` c**d"),
        vec![vec![
            ("a ".to_string(), true, false, false),
            code("b"),
            (" c".to_string(), true, false, false),
            plain("d")
        ]]
    );
    assert_eq!(styles("``````"), vec![vec![code("")]]);
    assert_eq!(styles("```abc"), vec![vec![code("abc")]]);
    assert_eq!(styles("```https://a.b```"), vec![vec![code("https://a.b")]]);
    let lines: Vec<String> = look::rich_lines("```a\nb```").iter().map(|l| l.line.clone()).collect();
    assert_eq!(lines, vec!["```a", "b```"]);
}

#[test]
fn addresses_are_links() {
    assert_eq!(styles("https://a.b"), vec![vec![link("https://a.b")]]);
    assert_eq!(
        styles("см. http://a.b/c?d=1 и https://e\nhttps://f"),
        vec![
            vec![plain("см. "), link("http://a.b/c?d=1"), plain(" и "), link("https://e")],
            vec![link("https://f")]
        ]
    );
    assert_eq!(styles("**https://a.b**"), vec![vec![("https://a.b".to_string(), true, false, true)]]);
    assert_eq!(styles("`https://a.b`"), vec![vec![code("https://a.b")]]);
    assert_eq!(styles("https:// x"), vec![vec![plain("https:// x")]]);
    assert_eq!(styles("ftp://a"), vec![vec![plain("ftp://a")]]);
}

#[test]
fn nothing_written_is_lost() {
    let joined = |text: &str| {
        let lines: Vec<String> =
            styles(text).iter().map(|l| l.iter().map(|s| s.0.clone()).collect::<String>()).collect();
        lines.join("\n")
    };
    assert_eq!(joined("a **b** `c**d`e"), "a b cde");
    assert_eq!(joined("x\n```\ny **z**\n``` https://a.b"), "x\n\ny **z**\n https://a.b");
}

#[test]
fn notifications_are_escaped() {
    let s = look::toast_script("<b>", "a>b");
    assert!(s.contains("<text>&lt;b&gt;</text><text>a&gt;b</text>"));
    assert!(s.starts_with("[Windows.UI.Notifications.ToastNotificationManager, "));
    assert!(s.ends_with("CreateToastNotifier(\"MeshMessenger\").Show($toast)"));
    assert!(s.contains("Out-Null; \\\n         [Windows.Data"));
}
