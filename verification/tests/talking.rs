use mesh_messenger::console;
use mesh_messenger::console::{Console, Input};
use mesh_messenger::events::{Ev, UiCmd};
use mesh_messenger::inbox;
use mesh_messenger::inbox::{FileIn, MessageIn};
use mesh_messenger::net;
use mesh_messenger::net::{FrameAction, NetAction, Session};
use mesh_messenger::peers;
use mesh_messenger::peers::TofuStatus;
use mesh_messenger::proto;
use mesh_messenger::server;
use mesh_messenger::server::ServerText;
use mesh_messenger::table::Table;

const A_PUB: &str = "pOCSkrZRwni5dyxWn1+puxPZBrRqtoyd+dwrRAn4ogk=";
const B_PUB: &str = "zo060cy2M+x7cMF4FKXHbs0CloUFDTRHRboFhw5YfVk=";
const A_FP: &str = "1A:92:F2:38:52:DC:90:8D:97:31:6A:3B:13:57:82:81:19:6C:1D:D7:3D:9A:E5:E3:13:F3:FB:6B:89:54:BF:55";
const B_FP: &str = "CF:A5:70:C6:53:BD:21:2B:10:A9:CB:55:1F:D7:A1:B4:78:98:55:EE:17:E9:9E:F2:B3:A2:03:7F:EB:33:7A:08";
const SHARED: [u8; 32] = [5; 32];

fn session(name: &str, key: &str, secret: [u8; 32]) -> Session {
    let mut s = Session::new(name.to_string(), key.to_string(), secret, SHARED);
    s.take_events();
    s
}

fn command(text: &str) -> Vec<u8> {
    server::command_frame(&SHARED, text).unwrap()[5..].to_vec()
}

fn show(ev: &Ev) -> String {
    match ev {
        Ev::Line(t) => format!("line {}", t),
        Ev::Warn(t) => format!("warn {}", t),
        Ev::Error(t) => format!("error {}", t),
        Ev::Authed => "authed".to_string(),
        Ev::UserList(us) => format!("users {:?}", us),
        Ev::Presence { user, online, nick } => format!("presence {} {} {}", user, online, nick),
        Ev::Profile { user, nick, online, bio } => format!("profile {} {} {} {}", user, nick, online, bio),
        Ev::ProfileSaved { nick, bio, hide } => format!("saved {} {} {}", nick, bio, hide),
        Ev::UsernameChanged(u) => format!("renamed {}", u),
        Ev::PasswordChanged => "password".to_string(),
        Ev::RoomChanged(r) => format!("room {}", r),
        Ev::Rooms(r) => format!("rooms {}", r),
        Ev::Typing { from } => format!("typing {}", from),
        Ev::Msg { from, text } => format!("msg {} {}", from, text),
        Ev::FileMsg { from, name } => format!("file {} {}", from, name),
    }
}

fn shown(evs: &Vec<Ev>) -> Vec<String> {
    evs.iter().map(|e| show(e)).collect()
}

fn events(s: &mut Session) -> Vec<String> {
    shown(&s.take_events())
}

fn said(text: &str) -> String {
    match server::parse_server_text(text) {
        ServerText::Answer(a) => format!("answer {}", a),
        ServerText::Keys => "keys".to_string(),
        ServerText::Authed => "authed".to_string(),
        ServerText::Report(e) => show(&e),
        ServerText::Nothing => "nothing".to_string(),
    }
}

#[test]
fn texts_of_the_server_are_told_apart() {
    assert_eq!(said("[RESP] ERR "), "answer ERR");
    assert_eq!(said("[ПУБКЛЮЧИ]a:b"), "keys");
    assert_eq!(said("[НОВЫЙ]a:b"), "keys");
    assert_eq!(said("[AUTH]OK @bob"), "authed");
    assert_eq!(said("[AUTH]FAIL"), "line [AUTH]FAIL");
    assert_eq!(said("[ЮЗЕРOK] @bob "), "renamed @bob");
    assert_eq!(said("[ПАРОЛЬOK]"), "password");
    assert_eq!(said("[ПЕЧАТАЕТ] @bob"), "typing @bob");
    assert_eq!(said("[КОМНАТА] Вы в комнате: work"), "room work");
    assert_eq!(said("[КОМНАТА] что-то"), "line [КОМНАТА] что-то");
    assert_eq!(said("[КОМНАТЫ] a, b"), "rooms a, b");
    assert_eq!(said("[ОШИБКА] нет"), "error [ОШИБКА] нет");
    assert_eq!(said("привет"), "line привет");
}

#[test]
fn lists_of_the_server_are_read() {
    assert_eq!(
        said("[ПОЛЬЗОВАТЕЛИ2]@bob|Боб|1;@eve|Ева|0|x;короткий|x"),
        "users [(\"Боб\", \"@bob\", true), (\"Ева\", \"@eve\", false)]"
    );
    assert_eq!(said("[ПРИСУТСТВИЕ]@bob|online|Боб"), "presence @bob true Боб");
    assert_eq!(said("[ПРИСУТСТВИЕ]@bob|offline"), "presence @bob false ");
    assert_eq!(said("[ПРИСУТСТВИЕ]@bob"), "nothing");
    assert_eq!(said("[ПРОФИЛЬOK]@bob|Боб|о себе|1"), "saved Боб о себе true");
    assert_eq!(said("[ПРОФИЛЬOK]@bob|Боб"), "nothing");
    assert_eq!(said("[ПРОФИЛЬ]@bob|Боб|online|a|b"), "profile @bob Боб true a|b");
    assert_eq!(said("[ПРОФИЛЬ]@bob|Боб|online"), "nothing");
}

fn told(cmd: UiCmd) -> Option<String> {
    server::command_of(&cmd, "@bob")
}

#[test]
fn commands_are_told_to_the_server() {
    let s = |t: &str| Some(t.to_string());
    assert_eq!(told(UiCmd::Raw("/help".to_string())), s("/help"));
    assert_eq!(told(UiCmd::Raw("/exit".to_string())), None);
    assert_eq!(told(UiCmd::Register { pass: "p".to_string() }), s("/register p p"));
    assert_eq!(told(UiCmd::Login { pass: "p".to_string() }), s("/login @bob p"));
    assert_eq!(
        told(UiCmd::ProfileSet { nick: "n".to_string(), bio: "b".to_string(), hide: true }),
        s("/profile set nick=n bio=b hide=1")
    );
    assert_eq!(
        told(UiCmd::ProfileSet { nick: "n".to_string(), bio: "b".to_string(), hide: false }),
        s("/profile set nick=n bio=b hide=0")
    );
    assert_eq!(told(UiCmd::SetUsername("@x".to_string())), s("/setusername @x"));
    assert_eq!(
        told(UiCmd::SetPassword { old: "a".to_string(), new: "b".to_string() }),
        s("/setpassword a b")
    );
    assert_eq!(told(UiCmd::Whois("@x".to_string())), s("/whois @x"));
    assert_eq!(told(UiCmd::RefreshUsers), s("/users"));
    assert_eq!(told(UiCmd::RefreshRooms), s("/rooms"));
    assert_eq!(told(UiCmd::Join { room: "r".to_string(), pass: String::new() }), s("/join r"));
    assert_eq!(told(UiCmd::Join { room: "r".to_string(), pass: "p".to_string() }), s("/join r p"));
    assert_eq!(told(UiCmd::CreateRoom { room: "r".to_string(), pass: String::new() }), s("/createroom r"));
    assert_eq!(told(UiCmd::CreateRoom { room: "r".to_string(), pass: "p".to_string() }), s("/createroom r p"));
    assert_eq!(told(UiCmd::Leave), s("/leave"));
    assert_eq!(told(UiCmd::Typing("@x".to_string())), s("/typing @x"));
    assert_eq!(told(UiCmd::Room("t".to_string())), None);
}

#[test]
fn first_key_is_trusted_and_another_warned_of() {
    let mut tofu = Table::new();
    let mut evs: Vec<Ev> = Vec::new();
    assert_eq!(peers::check_tofu(&mut tofu, &mut evs, "@a", A_PUB), TofuStatus::New);
    assert_eq!(peers::check_tofu(&mut tofu, &mut evs, "@a", A_PUB), TofuStatus::Same);
    assert!(evs.is_empty());
    assert_eq!(peers::check_tofu(&mut tofu, &mut evs, "@a", B_PUB), TofuStatus::Changed);
    assert_eq!(tofu.get("@a"), Some(A_FP.to_string()));
    assert_eq!(
        shown(&evs),
        vec![format!(
            "warn ⚠ ВНИМАНИЕ! Публичный ключ '@a' ИЗМЕНИЛСЯ! Был: {} Стал: {}. Возможен MITM. Если это ожидаемо — /trust @a",
            A_FP, B_FP
        )]
    );
}

#[test]
fn a_list_of_keys_is_noted() {
    let mut known = Table::new();
    let mut tofu = Table::new();
    let mut evs: Vec<Ev> = Vec::new();
    peers::insert_keys(&mut known, &mut tofu, &mut evs, &format!("[ПУБКЛЮЧИ] @a : {} ; без ключа;@b:x:y", A_PUB));
    assert_eq!(known.get("@a"), Some(A_PUB.to_string()));
    assert_eq!(known.get("@b"), Some("x:y".to_string()));
    assert_eq!(known.entries().len(), 2);
    assert_eq!(tofu.get("@b"), Some("?".to_string()));
    assert_eq!(peers::pubkey_command("@a"), "/pubkey @a");
    assert_eq!(peers::parse_pair("нет"), None);
}

#[test]
fn members_are_all_but_ourselves() {
    let mut known = Table::new();
    let mut tofu = Table::new();
    let mut evs: Vec<Ev> = Vec::new();
    let r = peers::room_targets(&mut known, &mut tofu, &mut evs, Some("@a:1; @me : 2;@b:3".to_string()), "@me");
    assert_eq!(r, vec![("@a".to_string(), "1".to_string()), ("@b".to_string(), "3".to_string())]);
    assert_eq!(known.get("@me"), Some("2".to_string()));
    assert!(peers::room_targets(&mut known, &mut tofu, &mut evs, Some("ERR".to_string()), "@me").is_empty());
    assert!(peers::room_targets(&mut known, &mut tofu, &mut evs, None, "@me").is_empty());
    assert_eq!(peers::accept_pubkey(&mut known, &mut tofu, &mut evs, "@c", Some("ERR".to_string())), None);
    assert_eq!(known.get("@c"), None);
    assert_eq!(
        peers::accept_pubkey(&mut known, &mut tofu, &mut evs, "@c", Some("4".to_string())),
        Some("4".to_string())
    );
    assert_eq!(known.get("@c"), Some("4".to_string()));
}

#[test]
fn a_session_greets() {
    let mut s = Session::new("@a".to_string(), A_PUB.to_string(), [1; 32], SHARED);
    assert_eq!(events(&mut s), vec!["line Добро пожаловать, @a!"]);
    assert!(events(&mut s).is_empty());
    s.on_lost();
    assert_eq!(events(&mut s), vec!["error Соединение с сервером потеряно.", "line __DISCONNECTED__"]);
    assert_eq!(
        shown(&net::connect_failed("h", "1", "нет")),
        vec!["error Не удалось подключиться к h:1. нет", "line __DISCONNECTED__"]
    );
}

#[test]
fn a_private_message_is_delivered() {
    let mut tofu = Table::new();
    let mut a = session("@a", A_PUB, [1; 32]);
    let mut b = session("@b", B_PUB, [2; 32]);
    let cmd = UiCmd::Priv { target: "@b".to_string(), text: "привет \n".to_string() };
    let (target, text) = match a.on_command(&mut tofu, cmd) {
        NetAction::AskKey { target, text } => (target, text),
        _ => panic!("the key is not known yet"),
    };
    let payload = match a.on_key(&mut tofu, target, text, Some(B_PUB.to_string())) {
        NetAction::SendPrivate { payload, .. } => payload,
        _ => panic!("the key was given"),
    };
    a.on_sent("@b", "привет \n", true);
    assert_eq!(events(&mut a), vec!["line [Я → @b]: привет \n"]);
    let mut b_tofu = Table::new();
    b.on_frame(&mut b_tofu, proto::TYPE_MESSAGE, payload.as_bytes());
    assert_eq!(events(&mut b), vec!["line [@a]: (неизвестный публичный ключ)"]);
    b.on_frame(&mut b_tofu, proto::TYPE_COMMAND, &command(&format!("[НОВЫЙ]@a:{}", A_PUB)));
    b.on_frame(&mut b_tofu, proto::TYPE_MESSAGE, payload.as_bytes());
    assert_eq!(events(&mut b), vec!["msg @a привет"]);
    assert_eq!(b_tofu.get("@a"), Some(A_FP.to_string()));
    let again = UiCmd::Priv { target: "@b".to_string(), text: "ещё".to_string() };
    assert!(matches!(a.on_command(&mut tofu, again), NetAction::SendPrivate { .. }));
}

#[test]
fn messages_that_cannot_be_read_are_reported() {
    let mut tofu = Table::new();
    let mut b = session("@b", B_PUB, [2; 32]);
    b.on_frame(&mut tofu, proto::TYPE_COMMAND, &command(&format!("[НОВЫЙ]@a:{}", A_PUB)));
    b.on_frame(&mut tofu, proto::TYPE_MESSAGE, b"@a\x00@b");
    assert!(events(&mut b).is_empty());
    b.on_frame(&mut tofu, proto::TYPE_MESSAGE, b"@a\x00@b\x00AAAA");
    assert_eq!(events(&mut b), vec!["error [@a]: не удалось расшифровать (подмена/ключ)"]);
    b.on_frame(&mut tofu, proto::TYPE_MESSAGE, b"\xff\x00@b\x00AAAA");
    assert_eq!(events(&mut b), vec!["line [\u{fffd}]: (неизвестный публичный ключ)"]);
    b.on_frame(&mut tofu, b'?', b"x");
    b.on_frame(&mut tofu, proto::TYPE_COMMAND, b"x");
    assert!(events(&mut b).is_empty());
}

#[test]
fn a_message_without_a_key_is_not_sent() {
    let mut tofu = Table::new();
    let mut a = session("@a", A_PUB, [1; 32]);
    let r = a.on_key(&mut tofu, "@b".to_string(), "t".to_string(), None);
    assert!(matches!(r, NetAction::Done));
    assert_eq!(events(&mut a), vec!["error Не удалось отправить сообщение для @b (нет ключа?)"]);
    let r = a.on_key(&mut tofu, "@b".to_string(), "t".to_string(), Some("плохой".to_string()));
    assert!(matches!(r, NetAction::Done));
    assert_eq!(events(&mut a), vec!["error Не удалось отправить сообщение для @b (нет ключа?)"]);
    a.on_sent("@b", "t", false);
    assert_eq!(events(&mut a), vec!["error Не удалось отправить сообщение для @b (нет ключа?)"]);
}

#[test]
fn a_room_message_goes_to_every_member() {
    let mut tofu = Table::new();
    let mut a = session("@a", A_PUB, [1; 32]);
    let mut b = session("@b", B_PUB, [2; 32]);
    assert!(matches!(a.on_command(&mut tofu, UiCmd::Room("всем".to_string())), NetAction::AskRoom { .. }));
    let answer = format!("@a:{};@b:{};@c:x", A_PUB, B_PUB);
    let r = a.on_room(&mut tofu, "всем", Some(answer));
    assert_eq!(r.len(), 2);
    assert!(r[1].is_none());
    assert_eq!(events(&mut a), vec!["line [Я]: всем"]);
    let mut b_tofu = Table::new();
    b.on_frame(&mut b_tofu, proto::TYPE_COMMAND, &command(&format!("[НОВЫЙ]@a:{}", A_PUB)));
    b.on_frame(&mut b_tofu, proto::TYPE_MESSAGE, r[0].as_ref().unwrap().as_bytes());
    assert_eq!(events(&mut b), vec!["msg @a всем"]);
    assert!(a.on_room(&mut tofu, "никому", None).is_empty());
    assert_eq!(events(&mut a), vec!["line [Я]: никому"]);
}

#[test]
fn a_file_goes_to_every_member() {
    let mut tofu = Table::new();
    let mut a = session("@a", A_PUB, [1; 32]);
    let mut b = session("@b", B_PUB, [2; 32]);
    assert!(matches!(a.on_command(&mut tofu, UiCmd::File("/x/f.txt".to_string())), NetAction::ReadFile { .. }));
    let raw = vec![0u8, 1, 2, 255];
    let (fname, b64) = match a.on_file(&tofu, "/x/f.txt", Some(raw.clone())) {
        NetAction::AskRoomForFile { fname, b64 } => (fname, b64),
        _ => panic!("the file can be sent"),
    };
    assert_eq!(fname, "f.txt");
    assert_eq!(b64, "AAEC/w==");
    let r = a.on_file_room(&mut tofu, &fname, &b64, Some(format!("@b:{}", B_PUB)));
    assert_eq!(events(&mut a), vec!["line [Я] файл f.txt отправлен в комнату"]);
    let payload = r[0].as_ref().unwrap().as_bytes();
    let mut b_tofu = Table::new();
    b.on_frame(&mut b_tofu, proto::TYPE_FILE, payload);
    assert_eq!(events(&mut b), vec!["line [@a] отправил файл f.txt, но ключ неизвестен"]);
    b.on_frame(&mut b_tofu, proto::TYPE_COMMAND, &command(&format!("[НОВЫЙ]@a:{}", A_PUB)));
    match b.on_frame(&mut b_tofu, proto::TYPE_FILE, payload) {
        FrameAction::SaveFile { sender, fname, base, raw: got } => {
            assert_eq!((sender.as_str(), fname.as_str(), base.as_str()), ("@a", "f.txt", "f.txt"));
            assert_eq!(got, raw);
        }
        _ => panic!("the file can be read"),
    }
    assert!(events(&mut b).is_empty());
}

#[test]
fn files_that_are_not_sent() {
    let tofu = Table::new();
    let mut a = session("@a", A_PUB, [1; 32]);
    assert!(matches!(a.on_file(&tofu, "нет", None), NetAction::Done));
    assert!(matches!(a.on_file(&tofu, "big", Some(vec![0; 400_001])), NetAction::Done));
    assert_eq!(
        events(&mut a),
        vec!["error Файл не найден: нет", "error Файл слишком большой (до 400 КБ)"]
    );
    let o = inbox::prepare_file("d/big", &vec![0; 400_000]).unwrap();
    assert_eq!(o.fname, "big");
    let p = inbox::file_payload("@a", "@b", &o.fname, &o.b64, B_PUB, A_PUB, &[1; 32]).unwrap();
    assert!(p.len() <= proto::MAX_FRAME);
    assert!(inbox::prepare_file("big", &vec![0; 400_001]).is_none());
}

#[test]
fn files_that_are_not_received() {
    let mut tofu = Table::new();
    let mut b = session("@b", B_PUB, [2; 32]);
    b.on_frame(&mut tofu, proto::TYPE_COMMAND, &command(&format!("[НОВЫЙ]@a:{}", A_PUB)));
    b.on_frame(&mut tofu, proto::TYPE_FILE, b"@a\x00@b\x00f");
    assert!(events(&mut b).is_empty());
    b.on_frame(&mut tofu, proto::TYPE_FILE, b"@a\x00@b\x00f\x00AAAA");
    assert_eq!(events(&mut b), vec!["error [@a] файл f получить не удалось"]);
    let p = inbox::file_payload("@a", "@b", "..", "AAEC/w==", B_PUB, A_PUB, &[1; 32]).unwrap();
    b.on_frame(&mut tofu, proto::TYPE_FILE, p.as_bytes());
    assert_eq!(events(&mut b), vec!["error [@a] файл .. получить не удалось"]);
    let p = inbox::file_payload("@a", "@b", "f", "не base64", B_PUB, A_PUB, &[1; 32]).unwrap();
    b.on_frame(&mut tofu, proto::TYPE_FILE, p.as_bytes());
    assert_eq!(events(&mut b), vec!["error [@a] файл f получить не удалось"]);
    assert_eq!(
        show(&net::file_saved("@a".to_string(), "x/f".to_string(), "f".to_string(), true)),
        "file @a f"
    );
    assert_eq!(
        show(&net::file_saved("@a".to_string(), "x/f".to_string(), "f".to_string(), false)),
        "error [@a] файл x/f получить не удалось"
    );
}

#[test]
fn login_makes_the_key_known_again() {
    let mut tofu = Table::new();
    let mut a = session("@a", A_PUB, [1; 32]);
    match a.on_frame(&mut tofu, proto::TYPE_COMMAND, &command("[AUTH]OK")) {
        FrameAction::Register(p) => assert_eq!(p, format!("@a\0{}", A_PUB)),
        _ => panic!("the key is to be made known"),
    }
    assert!(events(&mut a).is_empty());
    a.on_registered();
    assert_eq!(events(&mut a), vec!["authed"]);
    assert!(events(&mut a).is_empty());
    match a.on_frame(&mut tofu, proto::TYPE_COMMAND, &command("[RESP] ответ")) {
        FrameAction::Answer(t) => assert_eq!(t, "ответ"),
        _ => panic!("an answer"),
    }
    assert!(matches!(a.on_command(&mut tofu, UiCmd::Raw("/exit".to_string())), NetAction::Exit));
    match a.on_command(&mut tofu, UiCmd::Leave) {
        NetAction::Command(t) => assert_eq!(t, "/leave"),
        _ => panic!("a command"),
    }
}

#[test]
fn only_the_user_trusts_another_key() {
    let mut tofu = Table::new();
    let mut a = session("@a", A_PUB, [1; 32]);
    a.on_frame(&mut tofu, proto::TYPE_COMMAND, &command(&format!("[НОВЫЙ]@b:{}", B_PUB)));
    a.on_frame(&mut tofu, proto::TYPE_COMMAND, &command(&format!("[НОВЫЙ]@b:{}", A_PUB)));
    assert_eq!(tofu.get("@b"), Some(B_FP.to_string()));
    assert!(events(&mut a)[0].starts_with("warn ⚠ ВНИМАНИЕ! Публичный ключ '@b' ИЗМЕНИЛСЯ!"));
    assert!(matches!(a.on_command(&mut tofu, UiCmd::Trust("@b".to_string())), NetAction::SaveTofu));
    assert_eq!(tofu.get("@b"), Some(A_FP.to_string()));
    assert_eq!(events(&mut a), vec![format!("line ✅ Новый ключ @b подтверждён: {}", A_FP)]);
    assert!(matches!(a.on_command(&mut tofu, UiCmd::Trust("@c".to_string())), NetAction::Done));
    assert_eq!(events(&mut a), vec!["error Ключ для @c неизвестен"]);
    a.on_frame(&mut tofu, proto::TYPE_COMMAND, &command(&format!("[НОВЫЙ]@b:{}", A_PUB)));
    assert!(events(&mut a).is_empty());
}

#[test]
fn payloads_are_read_field_by_field() {
    let mut known = Table::new();
    known.insert("@a", A_PUB);
    let p = inbox::message_payload("@a", "@b", "да", B_PUB, A_PUB, &[1; 32]).unwrap();
    assert!(p.starts_with("@a\0@b\0"));
    match inbox::open_message(&known, &[2; 32], p.as_bytes()) {
        MessageIn::Plain { sender, text } => assert_eq!((sender.as_str(), text.as_str()), ("@a", "да")),
        _ => panic!("a message"),
    }
    assert!(matches!(inbox::open_message(&known, &[3; 32], p.as_bytes()), MessageIn::Unreadable { .. }));
    assert!(matches!(inbox::open_message(&known, &[2; 32], b""), MessageIn::Malformed));
    assert!(matches!(inbox::open_file(&known, &[2; 32], p.as_bytes()), FileIn::Malformed));
    assert!(inbox::message_payload("@a", "@b", "да", "x", A_PUB, &[1; 32]).is_none());
    assert!(inbox::file_payload("@a", "@b", "f", "", "x", A_PUB, &[1; 32]).is_none());
}

fn console(name: &str, key: &str, secret: [u8; 32]) -> Console {
    let mut c = Console::new(name.to_string(), key.to_string(), secret, SHARED);
    c.take_lines();
    c
}

#[test]
fn console_lines_are_parsed() {
    assert!(matches!(console::parse_input("  \n"), Input::Empty));
    match console::parse_input("/msg Боб привет, как дела\n") {
        Input::Private { target, text } => {
            assert_eq!((target.as_str(), text.as_str()), ("Боб", "привет, как дела"))
        }
        _ => panic!("a message"),
    }
    assert!(matches!(console::parse_input("/msg Боб"), Input::BadFormat));
    assert!(matches!(console::parse_input("/msg  Боб"), Input::BadFormat));
    match console::parse_input("/file  a b.txt ") {
        Input::File(p) => assert_eq!(p, "a b.txt"),
        _ => panic!("a file"),
    }
    match console::parse_input("/msg") {
        Input::Command(t) => assert_eq!(t, "/msg"),
        _ => panic!("a command"),
    }
    match console::parse_input(" всем ") {
        Input::Room(t) => assert_eq!(t, "всем"),
        _ => panic!("a message to the room"),
    }
    assert_eq!(console::connect_failed("нет"), "[ОШИБКА] Не удалось подключиться: нет");
    assert_eq!(console::user_name(" \n"), "Аноним");
    assert_eq!(console::user_name(" Боб\n"), "Боб");
}

#[test]
fn console_greets() {
    let mut c = Console::new("Боб".to_string(), B_PUB.to_string(), [2; 32], SHARED);
    assert_eq!(
        c.take_lines(),
        vec![
            "Добро пожаловать, Боб!",
            "🔐 Авторизуйтесь: /login ник пароль или /register ник пароль пароль",
            "Команды: /join <комната>, /msg Имя текст, /file <путь>, /users, /rooms, /roommembers, /help, /exit"
        ]
    );
    assert!(c.take_lines().is_empty());
}

#[test]
fn console_clients_read_each_other() {
    let mut a = console("a", A_PUB, [1; 32]);
    let mut b = console("b", B_PUB, [2; 32]);
    let (target, text) = match a.on_input(console::parse_input("/msg b привет")) {
        NetAction::AskKey { target, text } => (target, text),
        _ => panic!("the key is not known yet"),
    };
    let payload = match a.on_key(target, text, Some(B_PUB.to_string())) {
        NetAction::SendPrivate { payload, .. } => payload,
        _ => panic!("the key was given"),
    };
    a.on_sent("b", "привет", true);
    assert_eq!(a.take_lines(), vec!["[Я] -> b: привет"]);
    a.on_sent("b", "привет", false);
    assert!(a.take_lines().is_empty());
    b.on_frame(proto::TYPE_MESSAGE, payload.as_bytes());
    b.on_frame(proto::TYPE_COMMAND, &command(&format!("[ПУБКЛЮЧИ]a:{}", A_PUB)));
    b.on_frame(proto::TYPE_MESSAGE, payload.as_bytes());
    b.on_frame(proto::TYPE_MESSAGE, b"a\x00b\x00AAAA");
    b.on_frame(proto::TYPE_MESSAGE, b"a");
    assert_eq!(
        b.take_lines(),
        vec![
            "[a]: (неизвестный публичный ключ)",
            "[a]: привет",
            "[a]: (не удалось расшифровать — подмена/ключ)",
            "[ОШИБКА] Повреждённый кадр сообщения"
        ]
    );
    assert!(matches!(a.on_input(console::parse_input("/msg b ещё")), NetAction::SendPrivate { .. }));
}

#[test]
fn console_says_why_nothing_was_sent() {
    let mut a = console("a", A_PUB, [1; 32]);
    assert!(matches!(a.on_input(console::parse_input("/msg b")), NetAction::Done));
    assert!(matches!(a.on_input(console::parse_input("")), NetAction::Done));
    assert!(matches!(a.on_key("b".to_string(), "t".to_string(), Some("ERR".to_string())), NetAction::Done));
    assert!(matches!(a.on_key("b".to_string(), "t".to_string(), Some("x".to_string())), NetAction::Done));
    assert!(matches!(a.on_file("нет", None), NetAction::Done));
    assert!(matches!(a.on_file("big", Some(vec![0; 400_001])), NetAction::Done));
    assert_eq!(
        a.take_lines(),
        vec![
            "[ОШИБКА] Формат: /msg Имя текст",
            "[ОШИБКА] Не знаю публичный ключ для b",
            "[ОШИБКА] Не удалось зашифровать сообщение для b",
            "[ОШИБКА] Файл не найден: нет",
            "[ОШИБКА] Файл слишком большой (до 400 КБ)"
        ]
    );
    match a.on_input(console::parse_input("/help")) {
        NetAction::Command(t) => assert_eq!(t, "/help"),
        _ => panic!("a command"),
    }
    assert!(matches!(a.on_input(console::parse_input("/file x")), NetAction::ReadFile { .. }));
    assert!(matches!(a.on_input(console::parse_input("всем")), NetAction::AskRoom { .. }));
}

#[test]
fn console_sends_to_the_room() {
    let mut a = console("a", A_PUB, [1; 32]);
    let answer = format!("a:{};b:{}; c:x", A_PUB, B_PUB);
    let r = a.on_room("всем", Some(answer.clone()));
    assert_eq!(r.len(), 2);
    assert!(r[0].is_some() && r[1].is_none());
    let (fname, b64) = match a.on_file("d/f.bin", Some(vec![1, 2, 3])) {
        NetAction::AskRoomForFile { fname, b64 } => (fname, b64),
        _ => panic!("the file can be sent"),
    };
    let f = a.on_file_room(&fname, &b64, Some(answer));
    assert_eq!(
        a.take_lines(),
        vec![
            "[ОШИБКА] Не удалось зашифровать сообщение для  c",
            "[Я]: всем",
            "[ОШИБКА] Не удалось зашифровать файл для  c",
            "[Я] файл: f.bin отправлен в комнату"
        ]
    );
    let mut b = console("b", B_PUB, [2; 32]);
    b.on_frame(proto::TYPE_FILE, f[0].as_ref().unwrap().as_bytes());
    b.on_frame(proto::TYPE_COMMAND, &command(&format!("[ПУБКЛЮЧИ]a:{}", A_PUB)));
    match b.on_frame(proto::TYPE_FILE, f[0].as_ref().unwrap().as_bytes()) {
        FrameAction::SaveFile { base, raw, .. } => {
            assert_eq!((base.as_str(), raw), ("f.bin", vec![1, 2, 3]));
        }
        _ => panic!("the file can be read"),
    }
    b.on_frame(proto::TYPE_FILE, b"a\x00b\x00f\x00AAAA");
    b.on_frame(proto::TYPE_FILE, b"a");
    let p = inbox::file_payload("a", "b", "/", "AAEC", B_PUB, A_PUB, &[1; 32]).unwrap();
    b.on_frame(proto::TYPE_FILE, p.as_bytes());
    assert_eq!(
        b.take_lines(),
        vec![
            "[a] отправил файл: f.bin, но ключ неизвестен",
            "[a] отправил файл: f, но расшифровать не удалось",
            "[ОШИБКА] Повреждённый кадр файла",
            "[a] отправил файл: /, но имя недопустимо"
        ]
    );
    assert_eq!(
        console::file_saved("a", "d/f", "f", 12, true),
        "[a] отправил файл: f (12 байт) — сохранён"
    );
    assert_eq!(
        console::file_saved("a", "d/f", "f", 12, false),
        "[a] отправил файл: d/f, но сохранить не удалось"
    );
}

#[test]
fn console_hears_the_server() {
    let mut a = console("a", A_PUB, [1; 32]);
    match a.on_frame(proto::TYPE_COMMAND, &command("[RESP] да ")) {
        FrameAction::Answer(t) => assert_eq!(t, "да"),
        _ => panic!("an answer"),
    }
    match a.on_frame(proto::TYPE_COMMAND, &command("[AUTH]OK")) {
        FrameAction::Register(p) => assert_eq!(p, format!("a\0{}", A_PUB)),
        _ => panic!("the key is to be made known"),
    }
    a.on_frame(proto::TYPE_COMMAND, &command("[ОШИБКА] нет"));
    a.on_frame(proto::TYPE_COMMAND, b"x");
    a.on_frame(b'?', b"x");
    assert_eq!(a.take_lines(), vec!["[ОШИБКА] нет"]);
    a.on_frame(proto::TYPE_COMMAND, &command("[НОВЫЙ] b : k ;c:x"));
    assert_eq!(a.known.get("b "), Some(" k".to_string()));
    assert_eq!(a.known.get("c"), Some("x".to_string()));
}
