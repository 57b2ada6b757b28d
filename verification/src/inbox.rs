//! Messages and files between peers: what goes into a frame, and what is read
//! of one. The fields of a payload stand between zero bytes.

use crate::crypto;
use crate::primitives;
use crate::proto;
use crate::store;
use crate::table;
use crate::table::Table;
use crate::text;
use vstd::prelude::*;
use vstd::utf8::encode_utf8;

verus! {

/// What is read of a message frame.
pub enum MessageIn {
    /// The payload has fewer than three fields.
    Malformed,
    /// No key of the sender is known.
    UnknownKey { sender: String },
    /// The message does not decrypt.
    Unreadable { sender: String },
    Plain { sender: String, text: String },
}

/// The texts of a `MessageIn`.
pub enum MessageModel {
    Malformed,
    UnknownKey { sender: Seq<char> },
    Unreadable { sender: Seq<char> },
    Plain { sender: Seq<char>, text: Seq<char> },
}

impl View for MessageIn {
    type V = MessageModel;

    open spec fn view(&self) -> MessageModel {
        match *self {
            MessageIn::Malformed => MessageModel::Malformed,
            MessageIn::UnknownKey { sender } => MessageModel::UnknownKey { sender: sender@ },
            MessageIn::Unreadable { sender } => MessageModel::Unreadable { sender: sender@ },
            MessageIn::Plain { sender, text } => MessageModel::Plain {
                sender: sender@,
                text: text@,
            },
        }
    }
}

/// What is read of a file frame.
pub enum FileIn {
    /// The payload has fewer than four fields.
    Malformed,
    /// No key of the sender is known.
    UnknownKey { sender: String, fname: String },
    /// The file does not decrypt, or what it decrypts to is not base64.
    Unreadable { sender: String, fname: String },
    /// The name of the file is refused.
    BadName { sender: String, fname: String },
    /// The file is to be saved under `base`.
    Save { sender: String, fname: String, base: String, raw: Vec<u8> },
}

/// The contents of a `FileIn`.
pub enum FileModel {
    Malformed,
    UnknownKey { sender: Seq<char>, fname: Seq<char> },
    Unreadable { sender: Seq<char>, fname: Seq<char> },
    BadName { sender: Seq<char>, fname: Seq<char> },
    Save { sender: Seq<char>, fname: Seq<char>, base: Seq<char>, raw: Seq<u8> },
}

impl View for FileIn {
    type V = FileModel;

    open spec fn view(&self) -> FileModel {
        match *self {
            FileIn::Malformed => FileModel::Malformed,
            FileIn::UnknownKey { sender, fname } => FileModel::UnknownKey {
                sender: sender@,
                fname: fname@,
            },
            FileIn::Unreadable { sender, fname } => FileModel::Unreadable {
                sender: sender@,
                fname: fname@,
            },
            FileIn::BadName { sender, fname } => FileModel::BadName {
                sender: sender@,
                fname: fname@,
            },
            FileIn::Save { sender, fname, base, raw } => FileModel::Save {
                sender: sender@,
                fname: fname@,
                base: base@,
                raw: raw@,
            },
        }
    }
}

/// The fields of a payload.
pub open spec fn fields(payload: Seq<u8>) -> Seq<Seq<u8>> {
    text::split_on(payload, 0u8)
}

/// What is read of the payload of a message frame.
pub open spec fn message_in(
    known: Map<Seq<char>, Seq<char>>,
    secret: Seq<u8>,
    payload: Seq<u8>,
) -> MessageModel {
    let parts = fields(payload);
    if parts.len() < 3 {
        MessageModel::Malformed
    } else {
        let sender = text::lossy(parts[0]);
        match table::lookup(known, sender) {
            None => MessageModel::UnknownKey { sender },
            Some(key) => match crypto::text_from_peer(text::lossy(parts[2]), key, secret) {
                None => MessageModel::Unreadable { sender },
                Some(plain) => MessageModel::Plain {
                    sender,
                    text: text::trim_back(plain, text::Class::White),
                },
            },
        }
    }
}

/// The bytes of the file in a payload, where it can be read.
pub open spec fn file_bytes(data: Seq<char>, key: Seq<char>, secret: Seq<u8>) -> Option<Seq<u8>> {
    match crypto::text_from_peer(data, key, secret) {
        None => None,
        Some(b64) => primitives::unbase64(text::trimmed(b64)),
    }
}

/// What becomes of a file that was read, with the name it would be saved under.
pub open spec fn file_decided(
    sender: Seq<char>,
    fname: Seq<char>,
    raw: Option<Seq<u8>>,
    base: Seq<char>,
) -> FileModel {
    match raw {
        None => FileModel::Unreadable { sender, fname },
        Some(raw) => if base.len() == 0 {
            FileModel::BadName { sender, fname }
        } else {
            FileModel::Save { sender, fname, base, raw }
        },
    }
}

/// What is read of the payload of a file frame, where the name that came with
/// it is saved under `base`.
pub open spec fn file_in(
    known: Map<Seq<char>, Seq<char>>,
    secret: Seq<u8>,
    payload: Seq<u8>,
    base: Seq<char>,
) -> FileModel {
    let parts = fields(payload);
    if parts.len() < 4 {
        FileModel::Malformed
    } else {
        let sender = text::lossy(parts[0]);
        let fname = text::lossy(parts[2]);
        match table::lookup(known, sender) {
            None => FileModel::UnknownKey { sender, fname },
            Some(key) => file_decided(
                sender,
                fname,
                file_bytes(text::lossy(parts[3]), key, secret),
                base,
            ),
        }
    }
}

/// Whether `base` is a name that `fname` may be saved under, or empty where it
/// is refused.
pub open spec fn saved_as(fname: Seq<char>, base: Seq<char>) -> bool {
    &&& store::portable(text::trimmed(fname)) ==> base == store::safe_name(fname)
    &&& base.len() > 0 ==> store::plain_name(base) && text::has_piece(text::trimmed(fname), base)
}

/// Reads the payload of a message frame.
pub fn open_message(known: &Table, our: &[u8; 32], payload: &[u8]) -> (r: MessageIn)
    ensures
        r@ == message_in(known@, our@, payload@),
{
    let parts = text::split_bytes(payload, 0);
    let ghost ps = fields(payload@);
    if parts.len() < 3 {
        return MessageIn::Malformed;
    }
    assert(ps[0] == parts@[0]@ && ps[2] == parts@[2]@);
    let sender = text::from_utf8_lossy(parts[0].as_slice());
    let ct = text::from_utf8_lossy(parts[2].as_slice());
    match known.get(sender.as_str()) {
        None => MessageIn::UnknownKey { sender },
        Some(key) => match crypto::decrypt_from_peer(ct.as_str(), key.as_str(), our) {
            None => MessageIn::Unreadable { sender },
            Some(plain) => MessageIn::Plain {
                sender,
                text: text::trim_end_of(plain.as_str(), text::Class::White),
            },
        },
    }
}

/// What becomes of a file that was read, with the name it would be saved under.
pub fn decide_file(sender: String, fname: String, raw: Option<Vec<u8>>, base: String) -> (r: FileIn)
    ensures
        r@ == file_decided(sender@, fname@, primitives::bytes_in(raw), base@),
{
    match raw {
        None => FileIn::Unreadable { sender, fname },
        Some(raw) => if base.as_str().is_empty() {
            FileIn::BadName { sender, fname }
        } else {
            FileIn::Save { sender, fname, base, raw }
        },
    }
}

/// Reads the payload of a file frame.
pub fn open_file(known: &Table, our: &[u8; 32], payload: &[u8]) -> (r: FileIn)
    ensures
        exists|base: Seq<char>|
            r@ == #[trigger] file_in(known@, our@, payload@, base) && (fields(payload@).len() >= 4
                ==> saved_as(text::lossy(fields(payload@)[2]), base)),
{
    let parts = text::split_bytes(payload, 0);
    let ghost ps = fields(payload@);
    if parts.len() < 4 {
        let ghost none: Seq<char> = Seq::empty();
        assert(FileModel::Malformed == file_in(known@, our@, payload@, none));
        return FileIn::Malformed;
    }
    assert(ps[0] == parts@[0]@ && ps[2] == parts@[2]@ && ps[3] == parts@[3]@);
    let sender = text::from_utf8_lossy(parts[0].as_slice());
    let fname = text::from_utf8_lossy(parts[2].as_slice());
    let data = text::from_utf8_lossy(parts[3].as_slice());
    let base = store::safe_file_name(fname.as_str());
    let ghost b = base@;
    assert(saved_as(fname@, b));
    let r = match known.get(sender.as_str()) {
        None => FileIn::UnknownKey { sender, fname },
        Some(key) => {
            let raw = match crypto::decrypt_from_peer(data.as_str(), key.as_str(), our) {
                None => None,
                Some(b64) => primitives::base64_decode(text::trim(b64.as_str()).as_str()),
            };
            decide_file(sender, fname, raw, base)
        },
    };
    assert(r@ == file_in(known@, our@, payload@, b));
    r
}

/// Whether a text holds no zero character, so that it can be a field.
pub open spec fn field_text(s: Seq<char>) -> bool {
    !s.contains('\0')
}

/// The payload of a message frame.
pub open spec fn message_payload_of(from: Seq<char>, to: Seq<char>, ct: Seq<char>) -> Seq<char> {
    from + seq!['\0'] + to + seq!['\0'] + ct
}

/// The payload of a file frame.
pub open spec fn file_payload_of(
    from: Seq<char>,
    to: Seq<char>,
    fname: Seq<char>,
    ct: Seq<char>,
) -> Seq<char> {
    from + seq!['\0'] + to + seq!['\0'] + fname + seq!['\0'] + ct
}

/// Whether a text is made of the characters of base64.
pub open spec fn base64_text(s: Seq<char>) -> bool {
    forall|i: int| 0 <= i < s.len() ==> primitives::base64_char(#[trigger] s[i])
}

/// Whether `ct` is a text sealed to the peer with a key, by the holder of ours.
pub open spec fn sealed_to(
    ct: Seq<char>,
    message: Seq<char>,
    peer_b64: Seq<char>,
    self_b64: Seq<char>,
    our: Seq<u8>,
) -> bool {
    &&& exists|nonce: Seq<u8>|
        nonce.len() == 12 && ct == #[trigger] crypto::sealed_text(
            crypto::agreed_key(our, crypto::key_bytes(peer_b64)->0),
            nonce,
            encode_utf8(message),
            encode_utf8(self_b64),
        )
    &&& base64_text(ct)
    &&& ct.len() == primitives::base64_len(encode_utf8(message).len() + 28)
    &&& forall|peer: Seq<u8>|
        peer.len() == 32 && crypto::key_bytes(peer_b64) == Some(
            #[trigger] primitives::x25519_public(peer),
        ) && crypto::key_bytes(self_b64) == Some(primitives::x25519_public(our))
            ==> crypto::text_from_peer(ct, self_b64, peer) == Some(message)
}

/// Whether a text can be encrypted to the peer with a key, by the holder of ours.
pub open spec fn can_seal(message: Seq<char>, peer_b64: Seq<char>, self_b64: Seq<char>) -> bool {
    &&& crypto::key_bytes(peer_b64) is Some
    &&& encode_utf8(message).len() <= primitives::GCM_MAX
    &&& encode_utf8(self_b64).len() <= primitives::GCM_MAX
}

/// Who sends: the name, the public key in base64, the secret key.
pub struct Author {
    pub name: Seq<char>,
    pub key: Seq<char>,
    pub secret: Seq<u8>,
}

/// Whether a payload holds a message that is sealed to a peer, who is given by
/// name and public key.
pub open spec fn sealed_message(
    by: Author,
    to: (Seq<char>, Seq<char>),
    message: Seq<char>,
    payload: Seq<char>,
) -> bool {
    exists|ct: Seq<char>|
        payload == message_payload_of(by.name, to.0, ct) && #[trigger] sealed_to(
            ct,
            message,
            to.1,
            by.key,
            by.secret,
        )
}

/// Whether what is sent to a peer is the message sealed to it: nothing, where
/// it cannot be sealed.
pub open spec fn message_for(
    by: Author,
    to: (Seq<char>, Seq<char>),
    message: Seq<char>,
    payload: Option<Seq<char>>,
) -> bool {
    &&& payload is Some <==> can_seal(message, to.1, by.key)
    &&& payload is Some ==> sealed_message(by, to, message, payload->0)
}

/// Whether what is sent to several peers is the message sealed to each.
pub open spec fn messages_for(
    by: Author,
    to: Seq<(Seq<char>, Seq<char>)>,
    message: Seq<char>,
    payloads: Seq<Option<String>>,
) -> bool {
    &&& payloads.len() == to.len()
    &&& forall|i: int|
        0 <= i < to.len() ==> message_for(
            by,
            to[i],
            message,
            crypto::text_in(#[trigger] payloads[i]),
        )
}

/// Whether a payload holds a file that is sealed to a peer. The file comes as
/// its base64 text.
pub open spec fn sealed_file(
    by: Author,
    to: (Seq<char>, Seq<char>),
    fname: Seq<char>,
    b64: Seq<char>,
    payload: Seq<char>,
) -> bool {
    exists|ct: Seq<char>|
        payload == file_payload_of(by.name, to.0, fname, ct) && #[trigger] sealed_to(
            ct,
            b64,
            to.1,
            by.key,
            by.secret,
        )
}

/// Whether what is sent to a peer is the file sealed to it: nothing, where it
/// cannot be sealed.
pub open spec fn file_for(
    by: Author,
    to: (Seq<char>, Seq<char>),
    fname: Seq<char>,
    b64: Seq<char>,
    payload: Option<Seq<char>>,
) -> bool {
    &&& payload is Some <==> can_seal(b64, to.1, by.key)
    &&& payload is Some ==> sealed_file(by, to, fname, b64, payload->0)
}

/// Whether what is sent to several peers is the file sealed to each.
pub open spec fn files_for(
    by: Author,
    to: Seq<(Seq<char>, Seq<char>)>,
    fname: Seq<char>,
    b64: Seq<char>,
    payloads: Seq<Option<String>>,
) -> bool {
    &&& payloads.len() == to.len()
    &&& forall|i: int|
        0 <= i < to.len() ==> file_for(
            by,
            to[i],
            fname,
            b64,
            crypto::text_in(#[trigger] payloads[i]),
        )
}

proof fn lemma_encode_concat(a: Seq<char>, b: Seq<char>)
    ensures
        encode_utf8(a + b) == encode_utf8(a) + encode_utf8(b),
    decreases a.len(),
{
    if a.len() == 0 {
        assert(a + b =~= b);
        assert(encode_utf8(a) =~= Seq::<u8>::empty());
        assert(encode_utf8(a) + encode_utf8(b) =~= encode_utf8(b));
    } else {
        assert((a + b).drop_first() =~= a.drop_first() + b);
        assert((a + b)[0] == a[0]);
        lemma_encode_concat(a.drop_first(), b);
        assert(encode_utf8(a + b) =~= encode_utf8(a) + encode_utf8(b));
    }
}

proof fn lemma_scalar_not_zero(c: char)
    requires
        c != '\0',
    ensures
        !vstd::utf8::encode_scalar(c as u32).contains(0u8),
{
    let v = c as u32;
    let s = vstd::utf8::encode_scalar(v);
    assert(v <= 0x7f ==> (v & 0x7f) as u8 != 0) by (bit_vector)
        requires
            v != 0,
    ;
    assert((0xC0u8 | ((v >> 6) & 0x1F) as u8) != 0) by (bit_vector);
    assert((0xE0u8 | ((v >> 12) & 0x0F) as u8) != 0) by (bit_vector);
    assert((0xF0u8 | ((v >> 18) & 0x7) as u8) != 0) by (bit_vector);
    assert((0x80u8 | (v & 0x3F) as u8) != 0) by (bit_vector);
    assert((0x80u8 | ((v >> 6) & 0x3F) as u8) != 0) by (bit_vector);
    assert((0x80u8 | ((v >> 12) & 0x3F) as u8) != 0) by (bit_vector);
    assert forall|i: int| 0 <= i < s.len() implies s[i] != 0u8 by {}
}

proof fn lemma_encode_no_zero(s: Seq<char>)
    requires
        field_text(s),
    ensures
        !encode_utf8(s).contains(0u8),
    decreases s.len(),
{
    if s.len() > 0 {
        let d = s.drop_first();
        assert(s[0] != '\0') by {
            assert(s.contains(s[0]));
        }
        assert(field_text(d)) by {
            if d.contains('\0') {
                let i = choose|i: int| 0 <= i < d.len() && d[i] == '\0';
                assert(s[i + 1] == '\0');
            }
        }
        lemma_encode_no_zero(d);
        lemma_scalar_not_zero(s[0]);
        let a = vstd::utf8::encode_scalar(s[0] as u32);
        let b = encode_utf8(d);
        if encode_utf8(s).contains(0u8) {
            let i = choose|i: int| 0 <= i < encode_utf8(s).len() && encode_utf8(s)[i] == 0u8;
            if i < a.len() {
                assert(a[i] == 0u8);
            } else {
                assert(b[i - a.len()] == 0u8);
            }
        }
    }
}

proof fn lemma_encode_zero()
    ensures
        encode_utf8(seq!['\0']) == seq![0u8],
{
    let s = seq!['\0'];
    vstd::utf8::is_ascii_chars_encode_utf8(s);
    assert(encode_utf8(s) =~= seq![0u8]);
}

proof fn lemma_first_field(a: Seq<char>, rest: Seq<char>)
    requires
        field_text(a),
    ensures
        fields(encode_utf8(a + seq!['\0'] + rest)) == seq![encode_utf8(a)] + fields(
            encode_utf8(rest),
        ),
{
    lemma_encode_concat(a + seq!['\0'], rest);
    lemma_encode_concat(a, seq!['\0']);
    lemma_encode_zero();
    lemma_encode_no_zero(a);
    text::lemma_split_first(encode_utf8(a), 0u8, encode_utf8(rest));
}

proof fn lemma_base64_bytes(s: Seq<char>)
    requires
        base64_text(s),
    ensures
        encode_utf8(s).len() == s.len(),
{
    assert(vstd::utf8::is_ascii_chars(s)) by {
        assert forall|i| 0 <= i < s.len() implies '\0' <= #[trigger] s[i] <= '\u{7f}' by {
            assert(primitives::base64_char(s[i]));
        }
    }
    vstd::utf8::is_ascii_chars_encode_utf8(s);
}

proof fn lemma_base64_field(ct: Seq<char>)
    requires
        base64_text(ct),
    ensures
        field_text(ct),
        fields(encode_utf8(ct)) == seq![encode_utf8(ct)],
{
    if ct.contains('\0') {
        let i = choose|i: int| 0 <= i < ct.len() && ct[i] == '\0';
        assert(primitives::base64_char(ct[i]));
    }
    lemma_encode_no_zero(ct);
    text::lemma_split_none(encode_utf8(ct), 0u8);
}

/// The fields of a message frame are read as they were written.
pub proof fn law_message_fields(from: Seq<char>, to: Seq<char>, ct: Seq<char>)
    requires
        field_text(from),
        field_text(to),
        field_text(ct),
    ensures
        fields(encode_utf8(message_payload_of(from, to, ct))) == seq![
            encode_utf8(from),
            encode_utf8(to),
            encode_utf8(ct),
        ],
        text::lossy(encode_utf8(from)) == from,
        text::lossy(encode_utf8(ct)) == ct,
{
    broadcast use {vstd::utf8::encode_utf8_valid_utf8, vstd::utf8::encode_utf8_decode_utf8};

    let rest = to + seq!['\0'] + ct;
    assert(message_payload_of(from, to, ct) =~= from + seq!['\0'] + rest);
    lemma_first_field(from, rest);
    lemma_first_field(to, ct);
    lemma_encode_no_zero(ct);
    text::lemma_split_none(encode_utf8(ct), 0u8);
    assert(fields(encode_utf8(message_payload_of(from, to, ct))) =~= seq![
        encode_utf8(from),
        encode_utf8(to),
        encode_utf8(ct),
    ]);
}

/// The fields of a file frame are read as they were written.
pub proof fn law_file_fields(from: Seq<char>, to: Seq<char>, fname: Seq<char>, ct: Seq<char>)
    requires
        field_text(from),
        field_text(to),
        field_text(fname),
        field_text(ct),
    ensures
        fields(encode_utf8(file_payload_of(from, to, fname, ct))) == seq![
            encode_utf8(from),
            encode_utf8(to),
            encode_utf8(fname),
            encode_utf8(ct),
        ],
        text::lossy(encode_utf8(from)) == from,
        text::lossy(encode_utf8(fname)) == fname,
        text::lossy(encode_utf8(ct)) == ct,
{
    broadcast use {vstd::utf8::encode_utf8_valid_utf8, vstd::utf8::encode_utf8_decode_utf8};

    let r1 = fname + seq!['\0'] + ct;
    let r0 = to + seq!['\0'] + r1;
    assert(file_payload_of(from, to, fname, ct) =~= from + seq!['\0'] + r0);
    lemma_first_field(from, r0);
    lemma_first_field(to, r1);
    lemma_first_field(fname, ct);
    lemma_encode_no_zero(ct);
    text::lemma_split_none(encode_utf8(ct), 0u8);
    assert(fields(encode_utf8(file_payload_of(from, to, fname, ct))) =~= seq![
        encode_utf8(from),
        encode_utf8(to),
        encode_utf8(fname),
        encode_utf8(ct),
    ]);
}

/// A message that is sealed to a peer is read by that peer, without the white
/// space at its end, as coming from the name it was sent under: where the peer
/// knows the sender's key under that name, and its key and the sender's are
/// the public keys of their secrets.
pub proof fn law_message_read(
    by: Author,
    to: (Seq<char>, Seq<char>),
    message: Seq<char>,
    payload: Seq<char>,
    peer: Seq<u8>,
    known: Map<Seq<char>, Seq<char>>,
)
    requires
        sealed_message(by, to, message, payload),
        field_text(by.name),
        field_text(to.0),
        peer.len() == 32,
        crypto::key_bytes(to.1) == Some(primitives::x25519_public(peer)),
        crypto::key_bytes(by.key) == Some(primitives::x25519_public(by.secret)),
        table::lookup(known, by.name) == Some(by.key),
    ensures
        message_in(known, peer, encode_utf8(payload)) == (MessageModel::Plain {
            sender: by.name,
            text: text::trim_back(message, text::Class::White),
        }),
{
    let ct = choose|ct: Seq<char>|
        payload == message_payload_of(by.name, to.0, ct) && #[trigger] sealed_to(
            ct,
            message,
            to.1,
            by.key,
            by.secret,
        );
    lemma_base64_field(ct);
    law_message_fields(by.name, to.0, ct);
}

/// A file that is sealed to a peer is read by that peer as it was sent, under
/// the same conditions: the name that came with it is the one it was sent
/// under, and the bytes are the same.
pub proof fn law_file_read(
    by: Author,
    to: (Seq<char>, Seq<char>),
    fname: Seq<char>,
    b64: Seq<char>,
    raw: Seq<u8>,
    payload: Seq<char>,
    peer: Seq<u8>,
    known: Map<Seq<char>, Seq<char>>,
    base: Seq<char>,
)
    requires
        sealed_file(by, to, fname, b64, payload),
        primitives::unbase64(b64) == Some(raw),
        base64_text(b64),
        field_text(by.name),
        field_text(to.0),
        field_text(fname),
        peer.len() == 32,
        crypto::key_bytes(to.1) == Some(primitives::x25519_public(peer)),
        crypto::key_bytes(by.key) == Some(primitives::x25519_public(by.secret)),
        table::lookup(known, by.name) == Some(by.key),
    ensures
        fields(encode_utf8(payload)).len() == 4,
        text::lossy(fields(encode_utf8(payload))[2]) == fname,
        file_in(known, peer, encode_utf8(payload), base) == file_decided(
            by.name,
            fname,
            Some(raw),
            base,
        ),
{
    let ct = choose|ct: Seq<char>|
        payload == file_payload_of(by.name, to.0, fname, ct) && #[trigger] sealed_to(
            ct,
            b64,
            to.1,
            by.key,
            by.secret,
        );
    lemma_base64_field(ct);
    law_file_fields(by.name, to.0, fname, ct);
    assert(text::trimmed(b64) == b64) by {
        assert(b64.len() > 0 ==> primitives::base64_char(b64[0]) && primitives::base64_char(
            b64.last(),
        ));
        text::lemma_trimmed_same(b64);
    }
}

/// A file that may be sent is one that is received: where it has no more than
/// `MAX_FILE` bytes, and the names in its payload are shorter than 300000 bytes
/// together, the payload is no longer than `MAX_FRAME`.
pub proof fn law_file_fits_a_frame(
    by: Author,
    to: (Seq<char>, Seq<char>),
    fname: Seq<char>,
    b64: Seq<char>,
    size: nat,
    payload: Seq<char>,
)
    requires
        sealed_file(by, to, fname, b64, payload),
        base64_text(b64),
        b64.len() == primitives::base64_len(size),
        size <= proto::MAX_FILE,
        encode_utf8(by.name).len() + encode_utf8(to.0).len() + encode_utf8(fname).len() < 300000,
    ensures
        encode_utf8(payload).len() <= proto::MAX_FRAME,
{
    let ct = choose|ct: Seq<char>|
        payload == file_payload_of(by.name, to.0, fname, ct) && #[trigger] sealed_to(
            ct,
            b64,
            to.1,
            by.key,
            by.secret,
        );
    lemma_base64_bytes(b64);
    lemma_base64_bytes(ct);
    lemma_encode_zero();
    let zero = seq!['\0'];
    lemma_encode_concat(by.name, zero);
    lemma_encode_concat(by.name + zero, to.0);
    lemma_encode_concat(by.name + zero + to.0, zero);
    lemma_encode_concat(by.name + zero + to.0 + zero, fname);
    lemma_encode_concat(by.name + zero + to.0 + zero + fname, zero);
    lemma_encode_concat(by.name + zero + to.0 + zero + fname + zero, ct);
}

/// The payload of a message to a peer, where it can be encrypted.
pub fn message_payload(
    username: &str,
    target: &str,
    message: &str,
    pubk: &str,
    pub_b64: &str,
    our: &[u8; 32],
) -> (r: Option<String>)
    requires
        crypto::sealable(encode_utf8(message@).len()),
    ensures
        message_for(
            (Author { name: username@, key: pub_b64@, secret: our@ }),
            (target@, pubk@),
            message@,
            crypto::text_in(r),
        ),
{
    match crypto::encrypt_to_peer(message, pubk, pub_b64, our) {
        None => None,
        Some(ct) => {
            let mut p = text::own(username);
            p.push('\0');
            p.append(target);
            p.push('\0');
            p.append(ct.as_str());
            proof {
                let by = Author { name: username@, key: pub_b64@, secret: our@ };
                let to = (target@, pubk@);
                assert(p@ =~= message_payload_of(by.name, to.0, ct@));
                assert(sealed_to(ct@, message@, to.1, by.key, by.secret));
                assert(sealed_message(by, to, message@, p@));
            }
            Some(p)
        },
    }
}

/// The payload of a file to a peer, where it can be encrypted. The file comes
/// as its base64 text.
pub fn file_payload(
    username: &str,
    target: &str,
    fname: &str,
    b64: &str,
    pubk: &str,
    pub_b64: &str,
    our: &[u8; 32],
) -> (r: Option<String>)
    requires
        crypto::sealable(encode_utf8(b64@).len()),
    ensures
        file_for(
            (Author { name: username@, key: pub_b64@, secret: our@ }),
            (target@, pubk@),
            fname@,
            b64@,
            crypto::text_in(r),
        ),
{
    match crypto::encrypt_to_peer(b64, pubk, pub_b64, our) {
        None => None,
        Some(ct) => {
            let mut p = text::own(username);
            p.push('\0');
            p.append(target);
            p.push('\0');
            p.append(fname);
            p.push('\0');
            p.append(ct.as_str());
            proof {
                let by = Author { name: username@, key: pub_b64@, secret: our@ };
                let to = (target@, pubk@);
                assert(p@ =~= file_payload_of(by.name, to.0, fname@, ct@));
                assert(sealed_to(ct@, b64@, to.1, by.key, by.secret));
                assert(sealed_file(by, to, fname@, b64@, p@));
            }
            Some(p)
        },
    }
}

/// The payloads of one message to several peers, in order: none where it
/// cannot be encrypted to one of them.
pub fn message_payloads(
    username: &str,
    targets: &Vec<(String, String)>,
    message: &str,
    pub_b64: &str,
    our: &[u8; 32],
) -> (r: Vec<Option<String>>)
    requires
        crypto::sealable(encode_utf8(message@).len()),
    ensures
        messages_for(
            (Author { name: username@, key: pub_b64@, secret: our@ }),
            table::pairs(targets@),
            message@,
            r@,
        ),
{
    let ghost by = Author { name: username@, key: pub_b64@, secret: our@ };
    let ghost to = table::pairs(targets@);
    let mut r: Vec<Option<String>> = Vec::new();
    let mut k: usize = 0;
    while k < targets.len()
        invariant
            k <= targets@.len(),
            to == table::pairs(targets@),
            by == (Author { name: username@, key: pub_b64@, secret: our@ }),
            crypto::sealable(encode_utf8(message@).len()),
            messages_for(by, to.take(k as int), message@, r@),
        decreases targets@.len() - k,
    {
        let p = message_payload(
            username,
            targets[k].0.as_str(),
            message,
            targets[k].1.as_str(),
            pub_b64,
            our,
        );
        assert(to[k as int] == (targets@[k as int].0@, targets@[k as int].1@));
        let ghost before = r@;
        r.push(p);
        assert forall|i: int| 0 <= i < k + 1 implies message_for(
            by,
            to.take(k + 1)[i],
            message@,
            crypto::text_in(#[trigger] r@[i]),
        ) by {
            if i < k {
                assert(r@[i] == before[i]);
                assert(to.take(k as int)[i] == to[i]);
            }
        }
        k += 1;
    }
    assert(to.take(k as int) =~= to);
    r
}

/// The payloads of one file to several peers, in order: none where it cannot
/// be encrypted to one of them.
pub fn file_payloads(
    username: &str,
    targets: &Vec<(String, String)>,
    fname: &str,
    b64: &str,
    pub_b64: &str,
    our: &[u8; 32],
) -> (r: Vec<Option<String>>)
    requires
        crypto::sealable(encode_utf8(b64@).len()),
    ensures
        files_for(
            (Author { name: username@, key: pub_b64@, secret: our@ }),
            table::pairs(targets@),
            fname@,
            b64@,
            r@,
        ),
{
    let ghost by = Author { name: username@, key: pub_b64@, secret: our@ };
    let ghost to = table::pairs(targets@);
    let mut r: Vec<Option<String>> = Vec::new();
    let mut k: usize = 0;
    while k < targets.len()
        invariant
            k <= targets@.len(),
            to == table::pairs(targets@),
            by == (Author { name: username@, key: pub_b64@, secret: our@ }),
            crypto::sealable(encode_utf8(b64@).len()),
            files_for(by, to.take(k as int), fname@, b64@, r@),
        decreases targets@.len() - k,
    {
        let p = file_payload(
            username,
            targets[k].0.as_str(),
            fname,
            b64,
            targets[k].1.as_str(),
            pub_b64,
            our,
        );
        assert(to[k as int] == (targets@[k as int].0@, targets@[k as int].1@));
        let ghost before = r@;
        r.push(p);
        assert forall|i: int| 0 <= i < k + 1 implies file_for(
            by,
            to.take(k + 1)[i],
            fname@,
            b64@,
            crypto::text_in(#[trigger] r@[i]),
        ) by {
            if i < k {
                assert(r@[i] == before[i]);
                assert(to.take(k as int)[i] == to[i]);
            }
        }
        k += 1;
    }
    assert(to.take(k as int) =~= to);
    r
}

/// A file as it is sent: the last part of its path, and its base64 text.
pub struct Outgoing {
    pub fname: String,
    pub b64: String,
}

/// Prepares a file to be sent. Files of more than `MAX_FILE` bytes are refused.
pub fn prepare_file(path: &str, raw: &Vec<u8>) -> (r: Option<Outgoing>)
    ensures
        r is Some <==> raw@.len() <= proto::MAX_FILE,
        r matches Some(o) ==> o.fname@ == store::base_name(path@),
        r matches Some(o) ==> o.b64@ == primitives::base64(raw@) && primitives::unbase64(o.b64@)
            == Some(raw@),
        r matches Some(o) ==> base64_text(o.b64@) && o.b64@.len() == primitives::base64_len(
            raw@.len(),
        ),
        r matches Some(o) ==> crypto::sealable(encode_utf8(o.b64@).len()) && encode_utf8(
            o.b64@,
        ).len() <= primitives::GCM_MAX,
{
    if raw.len() > proto::MAX_FILE {
        return None;
    }
    let b64 = primitives::base64_encode(raw.as_slice());
    proof {
        lemma_base64_bytes(b64@);
    }
    Some(Outgoing { fname: store::sent_name(path), b64 })
}

/// A message from a sender whose key is not known is told apart from one that
/// does not decrypt under the key that is known; in both the sender is named.
pub proof fn law_unread_message_told_apart(
    known: Map<Seq<char>, Seq<char>>,
    secret: Seq<u8>,
    from: Seq<char>,
    to: Seq<char>,
    ct: Seq<char>,
)
    requires
        field_text(from),
        field_text(to),
        field_text(ct),
    ensures
        ({
            let m = message_in(known, secret, encode_utf8(message_payload_of(from, to, ct)));
            &&& !known.contains_key(from) ==> m == (MessageModel::UnknownKey { sender: from })
            &&& known.contains_key(from) && crypto::text_from_peer(ct, known[from], secret) is None
                ==> m == (MessageModel::Unreadable { sender: from })
            &&& known.contains_key(from) && crypto::text_from_peer(ct, known[from], secret) is Some
                ==> m == (MessageModel::Plain {
                sender: from,
                text: text::trim_back(
                    crypto::text_from_peer(ct, known[from], secret)->0,
                    text::Class::White,
                ),
            })
        }),
{
    law_message_fields(from, to, ct);
}

/// A file from a sender whose key is not known, one that does not decrypt, and
/// one whose name is refused are told apart; only what is read and may be named
/// is to be saved, under the safe name and with its bytes.
pub proof fn law_unread_file_told_apart(
    known: Map<Seq<char>, Seq<char>>,
    secret: Seq<u8>,
    from: Seq<char>,
    to: Seq<char>,
    fname: Seq<char>,
    ct: Seq<char>,
    base: Seq<char>,
)
    requires
        field_text(from),
        field_text(to),
        field_text(fname),
        field_text(ct),
    ensures
        ({
            let f = file_in(known, secret, encode_utf8(file_payload_of(from, to, fname, ct)), base);
            let plain = crypto::text_from_peer(ct, known[from], secret);
            let raw = primitives::unbase64(text::trimmed(plain->0));
            &&& !known.contains_key(from) ==> f == (FileModel::UnknownKey { sender: from, fname })
            &&& known.contains_key(from) && (plain is None || raw is None) ==> f == (
            FileModel::Unreadable { sender: from, fname })
            &&& known.contains_key(from) && plain is Some && raw is Some && base.len() == 0 ==> f
                == (FileModel::BadName { sender: from, fname })
            &&& known.contains_key(from) && plain is Some && raw is Some && base.len() > 0 ==> f
                == (FileModel::Save { sender: from, fname, base, raw: raw->0 })
        }),
{
    law_file_fields(from, to, fname, ct);
}

/// A payload with too few fields is no message, and none of a file.
pub proof fn law_short_payload_malformed(
    known: Map<Seq<char>, Seq<char>>,
    secret: Seq<u8>,
    a: Seq<char>,
    b: Seq<char>,
    c: Seq<char>,
    base: Seq<char>,
)
    requires
        field_text(a),
        field_text(b),
        field_text(c),
    ensures
        message_in(known, secret, encode_utf8(a + seq!['\0'] + b)) == MessageModel::Malformed,
        message_in(known, secret, encode_utf8(a)) == MessageModel::Malformed,
        file_in(known, secret, encode_utf8(message_payload_of(a, b, c)), base)
            == FileModel::Malformed,
{
    lemma_first_field(a, b);
    lemma_encode_no_zero(b);
    text::lemma_split_none(encode_utf8(b), 0u8);
    lemma_encode_no_zero(a);
    text::lemma_split_none(encode_utf8(a), 0u8);
    law_message_fields(a, b, c);
}

/// What is sealed to a peer is the base64 text of a nonce of twelve bytes and
/// the AES-GCM text of the message, under the SHA-256 digest of what X25519
/// gives for our secret and the key of the peer, with our own public key as it
/// is written as the associated data.
pub proof fn law_sealed_as_agreed(
    ct: Seq<char>,
    message: Seq<char>,
    peer_b64: Seq<char>,
    public: Seq<u8>,
    self_b64: Seq<char>,
    our: Seq<u8>,
)
    requires
        sealed_to(ct, message, peer_b64, self_b64, our),
        primitives::unbase64(peer_b64) == Some(public),
        public.len() == 32,
    ensures
        exists|nonce: Seq<u8>|
            nonce.len() == 12 && ct == primitives::base64(
                nonce + #[trigger] primitives::gcm_sealed(
                    primitives::sha256_of(primitives::x25519(our, public)),
                    nonce,
                    encode_utf8(message),
                    encode_utf8(self_b64),
                ),
            ),
{
    let nonce = choose|nonce: Seq<u8>|
        nonce.len() == 12 && ct == #[trigger] crypto::sealed_text(
            crypto::agreed_key(our, crypto::key_bytes(peer_b64)->0),
            nonce,
            encode_utf8(message),
            encode_utf8(self_b64),
        );
    let sealed = primitives::gcm_sealed(
        primitives::sha256_of(primitives::x25519(our, public)),
        nonce,
        encode_utf8(message),
        encode_utf8(self_b64),
    );
    assert(ct == primitives::base64(nonce + sealed));
}

/// What is not too long can be encrypted to every peer whose key is 32 bytes in
/// base64, and to no other.
pub proof fn law_can_seal(message: Seq<char>, peer_b64: Seq<char>, self_b64: Seq<char>)
    requires
        encode_utf8(message).len() <= primitives::GCM_MAX,
        encode_utf8(self_b64).len() <= primitives::GCM_MAX,
    ensures
        can_seal(message, peer_b64, self_b64) <==> primitives::unbase64(peer_b64) is Some
            && primitives::unbase64(peer_b64)->0.len() == 32,
{
}

} // verus!
