use mesh_messenger::crypto;
use mesh_messenger::proto;
use mesh_messenger::proto::FrameError;
use mesh_messenger::server;
use mesh_messenger::text;

const KEY: [u8; 32] = [7; 32];

#[test]
fn frame_has_type_length_and_payload() {
    assert_eq!(proto::encode_frame(proto::TYPE_MESSAGE, b"abc"), b"M\x00\x00\x00\x03abc".to_vec());
    assert_eq!(proto::encode_frame(proto::TYPE_COMMAND, b""), b"C\x00\x00\x00\x00".to_vec());
    assert_eq!(proto::TYPE_FILE, b'F');
    assert_eq!(proto::TYPE_REGISTER, b'R');
    assert_eq!(proto::TYPE_VERSION, b'V');
    let long = vec![9u8; 70_000];
    let f = proto::encode_frame(proto::TYPE_FILE, &long);
    assert_eq!(&f[..5], &[b'F', 0, 1, 0x11, 0x70]);
    assert_eq!(&f[5..], &long[..]);
}

#[test]
fn header_is_read_back() {
    let f = proto::encode_frame(proto::TYPE_REGISTER, &[1u8; 300]);
    let h: [u8; 5] = [f[0], f[1], f[2], f[3], f[4]];
    assert_eq!(proto::decode_header(&h), Ok((b'R', 300)));
}

#[test]
fn header_of_a_long_frame_is_refused() {
    assert_eq!(proto::decode_header(&[b'M', 0, 0x10, 0, 0]), Ok((b'M', 1 << 20)));
    assert_eq!(proto::decode_header(&[b'M', 0, 0x10, 0, 1]), Err(FrameError::TooLarge));
    assert_eq!(proto::decode_header(&[b'M', 255, 255, 255, 255]), Err(FrameError::TooLarge));
}

#[test]
fn derived_key_is_the_same_on_both_sides() {
    let a_pub = crypto::decode_key("pOCSkrZRwni5dyxWn1+puxPZBrRqtoyd+dwrRAn4ogk=").unwrap();
    let b_pub = crypto::decode_key("zo060cy2M+x7cMF4FKXHbs0CloUFDTRHRboFhw5YfVk=").unwrap();
    let want = [
        109, 239, 202, 231, 8, 169, 89, 90, 229, 141, 113, 106, 198, 80, 223, 90, 14, 227, 216, 179, 41, 230,
        213, 77, 3, 87, 28, 135, 169, 111, 218, 95,
    ];
    assert_eq!(crypto::derive_key(&[1; 32], &b_pub), want);
    assert_eq!(crypto::derive_key(&[2; 32], &a_pub), want);
}

#[test]
fn sealing_under_a_nonce_gives_the_known_text() {
    let e = crypto::gcm_encrypt_with(&[0; 32], &[0; 12], &[0; 16], b"").unwrap();
    assert_eq!(e, "AAAAAAAAAAAAAAAAzqdAPU1ga24HTsXTuvOdGNDRyKeZmWvwJluYtdSKuRk=");
    assert_eq!(crypto::gcm_decrypt(&[0; 32], &e, b""), Some("\0".repeat(16)));
}

#[test]
fn sealed_text_opens_only_with_key_and_data() {
    let e = crypto::gcm_encrypt(&KEY, "привет".as_bytes(), b"me").unwrap();
    assert_ne!(e, crypto::gcm_encrypt(&KEY, "привет".as_bytes(), b"me").unwrap());
    assert_eq!(crypto::gcm_decrypt(&KEY, &e, b"me"), Some("привет".to_string()));
    assert_eq!(crypto::gcm_decrypt(&KEY, &e, b"you"), None);
    assert_eq!(crypto::gcm_decrypt(&[8; 32], &e, b"me"), None);
}

#[test]
fn what_is_not_sealed_does_not_open() {
    assert_eq!(crypto::gcm_decrypt(&KEY, "не base64", b""), None);
    assert_eq!(crypto::gcm_decrypt(&KEY, "", b""), None);
    assert_eq!(crypto::gcm_decrypt(&KEY, "AAAAAAAAAAAAAAAAAAAAAAAAAAAAAAAAAAAA", b""), None);
    assert_eq!(crypto::gcm_encrypt(&KEY, b"", b"").unwrap().len(), 40);
    assert_eq!(crypto::gcm_encrypt(&KEY, b"ab", b"").unwrap().len(), 40);
    assert_eq!(crypto::gcm_encrypt(&KEY, b"abc", b"").unwrap().len(), 44);
    let raw = crypto::gcm_encrypt(&KEY, &[0xff, 0xfe], b"").unwrap();
    assert_eq!(crypto::gcm_decrypt(&KEY, &raw, b""), None);
}

#[test]
fn parts_of_sealed_data() {
    assert!(crypto::sealed_parts(&vec![0; 27]).is_none());
    let data: Vec<u8> = (0..40).collect();
    let (nonce, ct) = crypto::sealed_parts(&data).unwrap();
    assert_eq!(nonce.to_vec(), (0..12).collect::<Vec<u8>>());
    assert_eq!(ct, (12..40).collect::<Vec<u8>>());
}

#[test]
fn keys_are_thirty_two_bytes_in_base64() {
    assert_eq!(crypto::decode_key("AQEBAQEBAQEBAQEBAQEBAQEBAQEBAQEBAQEBAQEBAQE="), Some([1; 32]));
    assert_eq!(crypto::decode_key("AQEB"), None);
    assert_eq!(crypto::decode_key("AQEBAQEBAQEBAQEBAQEBAQEBAQEBAQEBAQEBAQEBAQE"), None);
    assert_eq!(crypto::decode_key("*"), None);
    assert_eq!(crypto::array32(&vec![3; 32]), Some([3; 32]));
    assert_eq!(crypto::array32(&vec![3; 31]), None);
}

#[test]
fn peers_read_each_other() {
    let a_pub = "pOCSkrZRwni5dyxWn1+puxPZBrRqtoyd+dwrRAn4ogk=";
    let b_pub = "zo060cy2M+x7cMF4FKXHbs0CloUFDTRHRboFhw5YfVk=";
    let e = crypto::encrypt_to_peer("секрет", b_pub, a_pub, &[1; 32]).unwrap();
    assert_eq!(crypto::decrypt_from_peer(&e, a_pub, &[2; 32]), Some("секрет".to_string()));
    assert_eq!(crypto::decrypt_from_peer(&e, a_pub, &[3; 32]), None);
    assert_eq!(crypto::decrypt_from_peer(&e, "плохой ключ", &[2; 32]), None);
    assert_eq!(crypto::encrypt_to_peer("секрет", "плохой ключ", a_pub, &[1; 32]), None);
}

#[test]
fn fingerprint_of_known_keys() {
    assert_eq!(
        crypto::fingerprint("pOCSkrZRwni5dyxWn1+puxPZBrRqtoyd+dwrRAn4ogk="),
        "1A:92:F2:38:52:DC:90:8D:97:31:6A:3B:13:57:82:81:19:6C:1D:D7:3D:9A:E5:E3:13:F3:FB:6B:89:54:BF:55"
    );
    assert_eq!(
        crypto::fingerprint(""),
        "E3:B0:C4:42:98:FC:1C:14:9A:FB:F4:C8:99:6F:B9:24:27:AE:41:E4:64:9B:93:4C:A4:95:99:1B:78:52:B8:55"
    );
    assert_eq!(crypto::fingerprint("не ключ"), "?");
    assert_eq!(crypto::fingerprint_of_digest(&[0x0a, 0xff, 0x90]), "0A:FF:90");
    assert_eq!(crypto::fingerprint_of_digest(&[]), "");
    assert_ne!(crypto::fingerprint_of_digest(&[1, 2, 3, 4]), crypto::fingerprint_of_digest(&[1, 2, 3, 5]));
}

#[test]
fn what_fits_into_memory() {
    assert!(crypto::fits(""));
    assert!(crypto::fits(&"ж".repeat(1 << 20)));
}

#[test]
fn commands_are_read_with_the_shared_key() {
    let f = server::command_frame(&KEY, " /users \n").unwrap();
    assert_eq!(f[0], b'C');
    let n = u32::from_be_bytes([f[1], f[2], f[3], f[4]]) as usize;
    assert_eq!(n, f.len() - 5);
    assert_eq!(server::open_command(&KEY, &f[5..]), Some("/users".to_string()));
    assert_eq!(server::open_command(&[8; 32], &f[5..]), None);
    assert_eq!(server::open_command(&KEY, &[0xff, 0xfe]), None);
}

#[test]
fn hello_makes_the_client_known() {
    let fs = server::hello_frames("@bob", "2", "KEY");
    assert_eq!(fs.len(), 3);
    assert_eq!(fs[0], b"M\x00\x00\x00\x04@bob".to_vec());
    assert_eq!(fs[1], b"V\x00\x00\x00\x012".to_vec());
    assert_eq!(fs[2], b"R\x00\x00\x00\x08@bob\x00KEY".to_vec());
    assert_eq!(server::register_payload("@bob", "KEY"), "@bob\0KEY");
}

#[test]
fn white_space_is_that_of_unicode() {
    for u in 0..=0x10ffffu32 {
        if let Some(c) = char::from_u32(u) {
            assert_eq!(text::white(c), c.is_whitespace(), "{:x}", u);
        }
    }
}

#[test]
fn texts_are_trimmed_and_split() {
    assert_eq!(text::trim(" \u{a0}а б\n"), "а б");
    assert_eq!(text::trim(" \t"), "");
    assert_eq!(text::trim_start_of("@@bob@", text::Class::Only('@')), "bob@");
    assert_eq!(text::trim_end_of("bob::", text::Class::Only(':')), "bob");
    assert_eq!(text::trim_start_of("#@\u{1f464}\u{1f4e1}x#", text::Class::Sigil), "x#");
    assert_eq!(text::split("a;b;;c", ';'), vec!["a", "b", "", "c"]);
    assert_eq!(text::split("", ';'), vec![""]);
    assert_eq!(text::splitn("a|b|c|d|e", '|', 4), vec!["a", "b", "c", "d|e"]);
    assert_eq!(text::splitn("a|b", '|', 1), vec!["a|b"]);
    assert_eq!(text::split_bytes(&[1, 0, 0, 2], 0), vec![vec![1], vec![], vec![2]]);
    assert_eq!(text::split_words("  один \n два\t"), vec!["один", "два"]);
    assert!(text::split_words(" ").is_empty());
}

#[test]
fn texts_are_searched_and_joined() {
    assert!(text::contains("привет", "иве"));
    assert!(text::contains("привет", ""));
    assert!(!text::contains("привет", "вета"));
    assert!(!text::contains("", "а"));
    assert!(text::contains_char("a/b", '/'));
    assert!(!text::contains_char("ab", '/'));
    assert!(text::starts_with("abc", "ab"));
    assert!(!text::starts_with("ab", "abc"));
    assert_eq!(text::strip_prefix("[X]y", "[X]"), Some("y".to_string()));
    assert_eq!(text::strip_prefix("[Y]y", "[X]"), None);
    assert_eq!(text::replace("a<b<", '<', "&lt;"), "a&lt;b&lt;");
    assert_eq!(text::join(&vec!["a".to_string(), "b".to_string()], ", "), "a, b");
    assert_eq!(text::join(&vec![], ", "), "");
    assert_eq!(text::number(0), "0");
    assert_eq!(text::number(1301), "1301");
    assert_eq!(text::number(u64::MAX), "18446744073709551615");
    assert!(text::same("ab", "ab"));
    assert!(!text::same("ab", "abc"));
}
