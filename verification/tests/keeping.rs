use mesh_messenger::config;
use mesh_messenger::config::{SavedAccount, ServerConfig};
use mesh_messenger::store;
use mesh_messenger::table::Table;

const A: &str = "AQEBAQEBAQEBAQEBAQEBAQEBAQEBAQEBAQEBAQEBAQE=";
const A_PUB: &str = "pOCSkrZRwni5dyxWn1+puxPZBrRqtoyd+dwrRAn4ogk=";

#[test]
fn files_are_looked_for_upward() {
    assert_eq!(
        store::candidate_paths("secret.key"),
        vec![
            "secret.key",
            "../secret.key",
            "../../secret.key",
            "../../../secret.key",
            "../../../../secret.key"
        ]
    );
    assert_eq!(store::paths_upward("x", 0), vec!["x"]);
    assert_eq!(
        store::key_paths(Some("/tmp/k".to_string()), "identity.key", 1),
        vec!["/tmp/k", "identity.key", "../identity.key"]
    );
    assert_eq!(store::key_paths(None, "identity.key", 1), vec!["identity.key", "../identity.key"]);
}

#[test]
fn new_files_are_written_where_they_are_looked_for() {
    let named = Some("/tmp/k".to_string());
    assert_eq!(store::new_key_path(named.clone(), "identity.key", 1), "../identity.key");
    assert_eq!(store::new_key_path(None, "secret.key", 4), "../../../../secret.key");
    assert_eq!(store::new_key_path(None, "secret.key", 0), "secret.key");
    assert_eq!(
        store::key_paths(named.clone(), "secret.key", 4).last(),
        Some(&store::new_key_path(named, "secret.key", 4))
    );
    assert_eq!(store::tofu_path(), "tofu.json");
    assert_eq!(
        store::tofu_paths(),
        vec!["tofu.json", "../tofu.json", "../../tofu.json", "../../../tofu.json", "../../../../tofu.json"]
    );
}

#[test]
fn shared_key_comes_from_the_first_file_that_holds_one() {
    let files = vec![None, Some("мусор".to_string()), Some(format!(" {}\n", A)), Some("x".to_string())];
    let k = store::load_shared_key(&files);
    assert_eq!(k.key, [1; 32]);
    assert_eq!(k.to_write, None);
}

#[test]
fn a_new_shared_key_is_written_and_read_back() {
    let k = store::load_shared_key(&vec![None, Some("AQEB".to_string())]);
    let t = k.to_write.clone().unwrap();
    let again = store::load_shared_key(&vec![Some(t)]);
    assert_eq!(again.key, k.key);
    assert_eq!(again.to_write, None);
    let other = store::load_shared_key(&vec![]);
    assert_ne!(other.key, k.key);
    let fixed = store::shared_key_or(&vec![], [1; 32]);
    assert_eq!(fixed.key, [1; 32]);
    assert_eq!(fixed.to_write, Some(A.to_string()));
}

#[test]
fn identity_comes_from_two_words() {
    let files = vec![Some("один".to_string()), Some(format!("{} {}\n", A, A_PUB))];
    let c = store::load_or_create_identity(&files);
    assert_eq!(c.secret, [1; 32]);
    assert_eq!(c.public_b64, A_PUB);
    assert_eq!(c.to_write, None);
}

#[test]
fn public_key_is_that_of_the_secret() {
    let files = vec![Some(format!("{} AAAA", A))];
    let c = store::load_or_create_identity(&files);
    assert_eq!(c.public_b64, A_PUB);
    let stored = store::load_stored_identity(&files);
    assert_eq!(stored.secret, [1; 32]);
    assert_eq!(stored.public, vec![0, 0, 0]);
    assert_eq!(store::public_text(&stored), "AAAA");
    assert_eq!(stored.to_write, None);
}

#[test]
fn a_new_identity_is_written_and_read_back() {
    let id = store::identity_or(&vec![None], [1; 32]);
    assert_eq!(id.to_write, Some(format!("{} {}\n", A, A_PUB)));
    let c = store::load_or_create_identity(&vec![Some(format!("{} x", A)), Some("a b c".to_string())]);
    let again = store::load_or_create_identity(&vec![c.to_write]);
    assert_eq!(again.secret, c.secret);
    assert_eq!(again.public_b64, c.public_b64);
}

#[test]
fn trusted_fingerprints_are_read_back() {
    let mut t = Table::new();
    t.insert("@bob", "1A:92:F2:38");
    t.insert("имя \"в кавычках\"", "?");
    let json = store::save_tofu(&t).unwrap();
    let back = store::load_tofu(&vec![None, Some("{".to_string()), Some(json)]);
    assert_eq!(back.get("@bob"), Some("1A:92:F2:38".to_string()));
    assert_eq!(back.get("имя \"в кавычках\""), Some("?".to_string()));
    assert_eq!(back.entries().len(), 2);
    let first = store::load_tofu(&vec![
        Some("{\"a\": \"b\"}".to_string()),
        Some("{\"c\": \"d\"}".to_string()),
    ]);
    assert_eq!(first.get("a"), Some("b".to_string()));
    assert_eq!(first.get("c"), None);
    assert!(store::load_tofu(&vec![Some("[1]".to_string())]).entries().is_empty());
}

#[test]
fn a_table_keeps_one_text_for_a_name() {
    let mut t = Table::new();
    assert_eq!(t.get("a"), None);
    t.insert("a", "1");
    t.insert("b", "2");
    t.insert("a", "3");
    assert_eq!(t.get("a"), Some("3".to_string()));
    assert_eq!(t.get("b"), Some("2".to_string()));
    let mut entries = t.entries().clone();
    entries.sort();
    assert_eq!(entries, vec![("a".to_string(), "3".to_string()), ("b".to_string(), "2".to_string())]);
}

#[test]
fn received_names_stay_in_the_directory() {
    assert_eq!(store::safe_file_name("отчёт.txt"), "отчёт.txt");
    assert_eq!(store::safe_file_name(" /etc/passwd "), "passwd");
    assert_eq!(store::safe_file_name("../../x"), "x");
    assert_eq!(store::safe_file_name("a/b/"), "b");
    assert_eq!(store::safe_file_name("a/."), "a");
    assert_eq!(store::safe_file_name(".."), "");
    assert_eq!(store::safe_file_name("a/.."), "");
    assert_eq!(store::safe_file_name("."), "");
    assert_eq!(store::safe_file_name(""), "");
    assert_eq!(store::safe_file_name("/"), "");
    assert_eq!(store::safe_file_name("10:30.txt"), "10:30.txt");
    assert_eq!(store::safe_file_name("дни/10:30.txt"), "10:30.txt");
    assert_eq!(store::safe_name_of(Some("a\\b".to_string())), "");
    assert_eq!(store::safe_name_of(Some(" a ".to_string())), "a");
    assert_eq!(store::safe_name_of(None), "");
}

#[test]
fn a_safe_name_is_safe() {
    for raw in ["отчёт.txt", " /etc/ a b ", "../../x", "a/..", "", "./ ..", "x/y.tar.gz/", "10:30", "ab:c d", "\\\\s\\t"] {
        let n = store::safe_file_name(raw);
        assert!(raw.trim().contains(n.as_str()));
        assert_eq!(store::safe_file_name(&n), n);
    }
}

#[test]
fn sent_names_are_the_last_part_of_the_path() {
    assert_eq!(store::sent_name("/tmp/a.txt"), "a.txt");
    assert_eq!(store::sent_name("C:\\x\\b.txt"), "b.txt");
    assert_eq!(store::sent_name("c.txt"), "c.txt");
    assert_eq!(store::sent_name("dir/"), "");
}

fn cfg(host: Option<&str>, port: Option<u16>) -> Option<ServerConfig> {
    Some(ServerConfig { host: host.map(|h| h.to_string()), port })
}

#[test]
fn server_is_here_unless_configured() {
    let here = ("127.0.0.1".to_string(), "1301".to_string());
    assert_eq!(config::load_config(&vec![None, None], None, None), here);
    assert_eq!(config::load_config(&vec![cfg(Some(""), Some(0))], None, None), here);
    assert_eq!(
        config::load_config(&vec![None, cfg(Some("h"), Some(65535))], None, None),
        ("h".to_string(), "65535".to_string())
    );
    assert_eq!(config::load_config(&vec![cfg(None, None), cfg(Some("h"), Some(5))], None, None), here);
    assert_eq!(
        config::load_config(&vec![cfg(Some("h"), Some(5))], Some("e".to_string()), Some("порт".to_string())),
        ("e".to_string(), "порт".to_string())
    );
    assert_eq!(
        config::load_config(&vec![cfg(Some("h"), Some(5))], Some(String::new()), Some(String::new())),
        ("h".to_string(), "5".to_string())
    );
}

fn account(name: &str, pass: &str, port: &str) -> SavedAccount {
    SavedAccount {
        username: name.to_string(),
        password: pass.to_string(),
        host: "h".to_string(),
        port: port.to_string(),
    }
}

#[test]
fn used_account_stands_first_and_once() {
    let list = vec![account("a", "1", "1"), account("b", "2", "1"), account("a", "3", "2")];
    let r = config::save_account(list, &account("b", "новый", "1"));
    let names: Vec<(String, String)> = r.iter().map(|a| (a.username.clone(), a.password.clone())).collect();
    assert_eq!(
        names,
        vec![
            ("b".to_string(), "новый".to_string()),
            ("a".to_string(), "1".to_string()),
            ("a".to_string(), "3".to_string())
        ]
    );
}

#[test]
fn ten_accounts_are_kept() {
    let mut list: Vec<SavedAccount> = Vec::new();
    for i in 0..12 {
        list = config::save_account(list, &account(&format!("u{}", i), "p", "1"));
    }
    assert_eq!(list.len(), 10);
    assert_eq!(list[0].username, "u11");
    assert_eq!(list[9].username, "u2");
    assert_eq!(list[3].clone().username, "u8");
}
