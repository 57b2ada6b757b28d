//! End-to-end encryption: X25519 agreement, SHA-256 of the shared secret as
//! the key, AES-256-GCM under it, base64 on the wire.

use crate::primitives;
use crate::text;
use vstd::prelude::*;

verus! {

/// The length of a nonce.
pub const NONCE_LEN: usize = 12;

/// The length of a tag.
pub const TAG_LEN: usize = 16;

/// Whether the base64 text of a sealed message of `n` bytes fits into memory.
pub open spec fn sealable(n: nat) -> bool {
    primitives::base64_len(n + 28) <= isize::MAX
}

/// Whether the base64 text of a sealed message fits into memory.
pub fn fits(message: &str) -> (r: bool)
    ensures
        r == sealable(vstd::utf8::encode_utf8(message@).len()),
{
    let n: usize = message.as_bytes().len();
    let k: u128 = (n as u128 + 30) / 3;
    4 * k <= isize::MAX as u128
}

/// The text in an optional string.
pub open spec fn text_in(s: Option<String>) -> Option<Seq<char>> {
    match s {
        Some(t) => Some(t@),
        None => None,
    }
}

/// The text that bytes stand for, where they are UTF-8.
pub open spec fn utf8_text(bytes: Seq<u8>) -> Option<Seq<char>> {
    if vstd::utf8::valid_utf8(bytes) {
        Some(vstd::utf8::decode_utf8(bytes))
    } else {
        None
    }
}

/// The key that two peers agree on, from the secret of one and the public key
/// of the other.
pub open spec fn agreed_key(secret: Seq<u8>, public: Seq<u8>) -> Seq<u8> {
    primitives::sha256_of(primitives::x25519(secret, public))
}

/// The wire form of a message sealed under a nonce.
pub open spec fn sealed_text(key: Seq<u8>, nonce: Seq<u8>, plain: Seq<u8>, aad: Seq<u8>) -> Seq<
    char,
> {
    primitives::base64(nonce + primitives::gcm_sealed(key, nonce, plain, aad))
}

/// Whether a text is the base64 text of a nonce, `n` bytes of ciphertext and a
/// tag.
pub open spec fn sealed_data(encoded: Seq<char>, n: nat) -> bool {
    primitives::unbase64(encoded) is Some && primitives::unbase64(encoded)->0.len() == n + 28
}

/// What the wire form of a message decrypts to.
pub open spec fn opened_text(key: Seq<u8>, encoded: Seq<char>, aad: Seq<u8>) -> Option<Seq<char>> {
    match primitives::unbase64(encoded) {
        Some(data) => opened_data(key, data, aad),
        None => None,
    }
}

/// What a nonce with the ciphertext after it decrypts to.
pub open spec fn opened_data(key: Seq<u8>, data: Seq<u8>, aad: Seq<u8>) -> Option<Seq<char>> {
    if data.len() < 28 {
        None
    } else {
        match primitives::gcm_opened(key, data.take(12), data.skip(12), aad) {
            Some(plain) => utf8_text(plain),
            None => None,
        }
    }
}

/// The 32 bytes of a public key written in base64.
pub open spec fn key_bytes(b64: Seq<char>) -> Option<Seq<u8>> {
    match primitives::unbase64(b64) {
        Some(b) => if b.len() == 32 {
            Some(b)
        } else {
            None
        },
        None => None,
    }
}

/// What a message from a peer decrypts to, under our secret.
pub open spec fn text_from_peer(encoded: Seq<char>, sender_b64: Seq<char>, secret: Seq<u8>) -> Option<
    Seq<char>,
> {
    match key_bytes(sender_b64) {
        Some(public) => opened_text(
            agreed_key(secret, public),
            encoded,
            vstd::utf8::encode_utf8(sender_b64),
        ),
        None => None,
    }
}

/// The character of a hexadecimal digit.
pub open spec fn hex_digit(n: int) -> char {
    if n < 10 {
        (('0' as u32) + n) as char
    } else {
        (('A' as u32) + (n - 10)) as char
    }
}

/// Bytes in hexadecimal, with a colon between each two of them.
pub open spec fn grouped_hex(d: Seq<u8>) -> Seq<char>
    decreases d.len(),
{
    if d.len() == 0 {
        Seq::empty()
    } else {
        let head = grouped_hex(d.drop_last());
        let head = if d.len() > 1 {
            head.push(':')
        } else {
            head
        };
        head.push(hex_digit(d.last() as int / 16)).push(hex_digit(d.last() as int % 16))
    }
}

/// The fingerprint of a public key written in base64.
pub open spec fn fingerprint_of(b64: Seq<char>) -> Seq<char> {
    match primitives::unbase64(b64) {
        Some(raw) => grouped_hex(primitives::sha256_of(raw)),
        None => seq!['?'],
    }
}

/// The first 32 bytes of a vector of that length.
pub fn array32(v: &Vec<u8>) -> (r: Option<[u8; 32]>)
    ensures
        r is Some <==> v@.len() == 32,
        r matches Some(a) ==> a@ == v@,
{
    if v.len() != 32 {
        return None;
    }
    let mut a: [u8; 32] = [0u8;32];
    let mut i: usize = 0;
    while i < 32
        invariant
            i <= 32,
            v@.len() == 32,
            forall|j: int| 0 <= j < i ==> a@[j] == v@[j],
        decreases 32 - i,
    {
        a[i] = v[i];
        i += 1;
    }
    assert(a@ =~= v@);
    Some(a)
}

/// The key that two peers agree on: the same on both sides.
pub fn derive_key(our: &[u8; 32], peer_pub: &[u8; 32]) -> (r: [u8; 32])
    ensures
        r@ == agreed_key(our@, peer_pub@),
        forall|peer: Seq<u8>|
            peer.len() == 32 && peer_pub@ == #[trigger] primitives::x25519_public(peer) ==> r@
                == agreed_key(peer, primitives::x25519_public(our@)),
{
    let shared = primitives::diffie_hellman(our, peer_pub);
    primitives::sha256(shared.as_slice())
}

/// Seals a message under a nonce: the base64 text of the nonce and the
/// ciphertext after it. Fails only on a message or associated data of more
/// than `GCM_MAX` bytes. What comes out decrypts to the message.
pub fn gcm_encrypt_with(key: &[u8; 32], nonce: &[u8; 12], plaintext: &[u8], aad: &[u8]) -> (r: Option<String>)
    requires
        sealable(plaintext@.len()),
    ensures
        r is Some <==> plaintext@.len() <= primitives::GCM_MAX && aad@.len()
            <= primitives::GCM_MAX,
        r matches Some(e) ==> e@ == sealed_text(key@, nonce@, plaintext@, aad@),
        r matches Some(e) ==> opened_text(key@, e@, aad@) == utf8_text(plaintext@),
        r matches Some(e) ==> forall|i: int|
            0 <= i < e@.len() ==> primitives::base64_char(#[trigger] e@[i]),
        r matches Some(e) ==> e@.len() == primitives::base64_len(plaintext@.len() + 28),
        r matches Some(e) ==> sealed_data(e@, plaintext@.len()),
{
    match primitives::aes_gcm_seal(key, nonce, plaintext, aad) {
        None => None,
        Some(ct) => {
            let mut out: Vec<u8> = Vec::new();
            out.extend_from_slice(nonce.as_slice());
            out.extend_from_slice(ct.as_slice());
            assert(out@ =~= nonce@ + ct@);
            assert(out@.take(12) =~= nonce@);
            assert(out@.skip(12) =~= ct@);
            Some(primitives::base64_encode(out.as_slice()))
        },
    }
}

/// Seals a message under a random nonce.
pub fn gcm_encrypt(key: &[u8; 32], plaintext: &[u8], aad: &[u8]) -> (r: Option<String>)
    requires
        sealable(plaintext@.len()),
    ensures
        r is Some <==> plaintext@.len() <= primitives::GCM_MAX && aad@.len()
            <= primitives::GCM_MAX,
        r matches Some(e) ==> exists|nonce: Seq<u8>|
            nonce.len() == 12 && e@ == #[trigger] sealed_text(key@, nonce, plaintext@, aad@),
        r matches Some(e) ==> opened_text(key@, e@, aad@) == utf8_text(plaintext@),
        r matches Some(e) ==> forall|i: int|
            0 <= i < e@.len() ==> primitives::base64_char(#[trigger] e@[i]),
        r matches Some(e) ==> e@.len() == primitives::base64_len(plaintext@.len() + 28),
        r matches Some(e) ==> sealed_data(e@, plaintext@.len()),
{
    let nonce: [u8; 12] = primitives::random_bytes::<12>();
    gcm_encrypt_with(key, &nonce, plaintext, aad)
}

/// The nonce and the ciphertext of sealed data, where it is long enough to
/// hold a nonce and a tag.
pub fn sealed_parts(data: &Vec<u8>) -> (r: Option<([u8; 12], Vec<u8>)>)
    ensures
        r is Some <==> data@.len() >= 28,
        r matches Some(p) ==> p.0@ == data@.take(12) && p.1@ == data@.skip(12),
{
    if data.len() < NONCE_LEN + TAG_LEN {
        return None;
    }
    let mut nonce: [u8; 12] = [0u8;12];
    let mut i: usize = 0;
    while i < 12
        invariant
            i <= 12,
            data@.len() >= 28,
            forall|j: int| 0 <= j < i ==> nonce@[j] == data@[j],
        decreases 12 - i,
    {
        nonce[i] = data[i];
        i += 1;
    }
    assert(nonce@ =~= data@.take(12));
    let mut ct: Vec<u8> = Vec::new();
    while i < data.len()
        invariant
            12 <= i <= data@.len(),
            ct@ == data@.subrange(12, i as int),
        decreases data@.len() - i,
    {
        ct.push(data[i]);
        i += 1;
        assert(data@.subrange(12, i as int) =~= data@.subrange(12, i - 1).push(data@[i - 1]));
    }
    assert(ct@ =~= data@.skip(12));
    Some((nonce, ct))
}

/// Decrypts the wire form of a message. Fails on a text that is not base64 of
/// at least a nonce and a tag, on a tag that does not fit, and on a message
/// that is not UTF-8. That the tag does not fit other associated data, or
/// another key, is not stated: tags of 16 bytes can be the same.
pub fn gcm_decrypt(key: &[u8; 32], encoded: &str, aad: &[u8]) -> (r: Option<String>)
    ensures
        text_in(r) == opened_text(key@, encoded@, aad@),
        primitives::unbase64(encoded@) is None ==> r is None,
        primitives::unbase64(encoded@) matches Some(data) ==> data.len() < 28 ==> r is None,
{
    let data = match primitives::base64_decode(encoded) {
        Some(d) => d,
        None => return None,
    };
    let (nonce, ct) = match sealed_parts(&data) {
        Some(p) => p,
        None => return None,
    };
    match primitives::aes_gcm_open(key, &nonce, ct.as_slice(), aad) {
        Some(plain) => text::from_utf8(plain),
        None => None,
    }
}

/// What is no base64 text of a nonce and a tag at least does not decrypt,
/// whatever the key and the associated data.
pub proof fn law_short_text_refused(key: Seq<u8>, encoded: Seq<char>, aad: Seq<u8>)
    requires
        primitives::unbase64(encoded) matches Some(data) ==> data.len() < 28,
    ensures
        opened_text(key, encoded, aad) is None,
{
}

/// The 32 bytes of a public key written in base64.
pub fn decode_key(b64: &str) -> (r: Option<[u8; 32]>)
    ensures
        r is Some <==> key_bytes(b64@) is Some,
        r matches Some(k) ==> key_bytes(b64@) == Some(k@),
{
    match primitives::base64_decode(b64) {
        Some(v) => array32(&v),
        None => None,
    }
}

/// Encrypts a text to a peer. Fails where the peer's key is not the base64
/// text of 32 bytes, or where the text or our own key is too long.
///
/// The peer reads it: under the secret that its key is the public key of,
/// what comes out decrypts to the text, where our key is that of our secret.
pub fn encrypt_to_peer(
    message: &str,
    peer_pub_b64: &str,
    self_pub_b64: &str,
    our: &[u8; 32],
) -> (r: Option<String>)
    requires
        sealable(vstd::utf8::encode_utf8(message@).len()),
    ensures
        r is Some <==> key_bytes(peer_pub_b64@) is Some && vstd::utf8::encode_utf8(message@).len()
            <= primitives::GCM_MAX && vstd::utf8::encode_utf8(self_pub_b64@).len()
            <= primitives::GCM_MAX,
        r matches Some(e) ==> exists|nonce: Seq<u8>|
            nonce.len() == 12 && e@ == #[trigger] sealed_text(
                agreed_key(our@, key_bytes(peer_pub_b64@)->0),
                nonce,
                vstd::utf8::encode_utf8(message@),
                vstd::utf8::encode_utf8(self_pub_b64@),
            ),
        r matches Some(e) ==> forall|peer: Seq<u8>|
            peer.len() == 32 && key_bytes(peer_pub_b64@) == Some(
                #[trigger] primitives::x25519_public(peer),
            ) && key_bytes(self_pub_b64@) == Some(primitives::x25519_public(our@))
                ==> text_from_peer(e@, self_pub_b64@, peer) == Some(message@),
        r matches Some(e) ==> forall|i: int|
            0 <= i < e@.len() ==> primitives::base64_char(#[trigger] e@[i]),
        r matches Some(e) ==> e@.len() == primitives::base64_len(
            vstd::utf8::encode_utf8(message@).len() + 28,
        ),
{
    broadcast use {vstd::utf8::encode_utf8_valid_utf8, vstd::utf8::encode_utf8_decode_utf8};

    match decode_key(peer_pub_b64) {
        None => None,
        Some(peer_pub) => {
            let key = derive_key(our, &peer_pub);
            gcm_encrypt(&key, message.as_bytes(), self_pub_b64.as_bytes())
        },
    }
}

/// Decrypts a text from a peer. Fails where the peer's key is not the base64
/// text of 32 bytes, and where the text does not decrypt.
pub fn decrypt_from_peer(encoded: &str, sender_pub_b64: &str, our: &[u8; 32]) -> (r: Option<String>)
    ensures
        text_in(r) == text_from_peer(encoded@, sender_pub_b64@, our@),
{
    match decode_key(sender_pub_b64) {
        None => None,
        Some(sender_pub) => {
            let key = derive_key(our, &sender_pub);
            gcm_decrypt(&key, encoded, sender_pub_b64.as_bytes())
        },
    }
}

/// The character of a hexadecimal digit.
fn hex_char(n: u8) -> (r: char)
    requires
        n < 16,
    ensures
        r == hex_digit(n as int),
{
    if n < 10 {
        (48 + n) as char
    } else {
        (65 + (n - 10)) as char
    }
}

/// Bytes in hexadecimal, with colons between them.
pub fn fingerprint_of_digest(d: &[u8]) -> (r: String)
    ensures
        r@ == grouped_hex(d@),
{
    let mut r = String::new();
    let mut i: usize = 0;
    while i < d.len()
        invariant
            i <= d@.len(),
            r@ == grouped_hex(d@.take(i as int)),
        decreases d@.len() - i,
    {
        assert(d@.take(i + 1).drop_last() =~= d@.take(i as int));
        if i > 0 {
            r.push(':');
        }
        r.push(hex_char(d[i] / 16));
        r.push(hex_char(d[i] % 16));
        i += 1;
    }
    assert(d@.take(i as int) =~= d@);
    r
}

/// The fingerprint of a public key: the SHA-256 digest of its bytes as
/// `XX:XX:…`, or `?` where it is not base64.
pub fn fingerprint(pub_b64: &str) -> (r: String)
    ensures
        r@ == fingerprint_of(pub_b64@),
{
    match primitives::base64_decode(pub_b64) {
        Some(raw) => {
            let d = primitives::sha256(raw.as_slice());
            fingerprint_of_digest(d.as_slice())
        },
        None => {
            let mut r = String::new();
            r.push('?');
            assert(r@ =~= seq!['?']);
            r
        },
    }
}

/// Fingerprints tell digests apart: two of one length have the same
/// fingerprint only if they are the same.
pub proof fn law_fingerprint_faithful(a: Seq<u8>, b: Seq<u8>)
    requires
        a.len() == b.len(),
        grouped_hex(a) == grouped_hex(b),
    ensures
        a == b,
    decreases a.len(),
{
    if a.len() > 0 {
        let x = grouped_hex(a);
        let y = grouped_hex(b);
        let n = x.len() as int;
        assert(x[n - 1] == y[n - 1] && x[n - 2] == y[n - 2]);
        let p = grouped_hex(a.drop_last());
        let q = grouped_hex(b.drop_last());
        if a.len() > 1 {
            assert(x.take(n - 3) =~= p);
            assert(y.take(n - 3) =~= q);
        } else {
            assert(x.take(n - 2) =~= p);
            assert(y.take(n - 2) =~= q);
        }
        law_fingerprint_faithful(a.drop_last(), b.drop_last());
        lemma_hex_byte(a.last(), b.last());
        assert(a =~= a.drop_last().push(a.last()));
        assert(b =~= b.drop_last().push(b.last()));
    } else {
        assert(a =~= b);
    }
}

proof fn lemma_hex_byte(a: u8, b: u8)
    requires
        hex_digit(a as int / 16) == hex_digit(b as int / 16),
        hex_digit(a as int % 16) == hex_digit(b as int % 16),
    ensures
        a == b,
{
    lemma_hex_digit(a as int / 16, b as int / 16);
    lemma_hex_digit(a as int % 16, b as int % 16);
}

proof fn lemma_hex_digit(m: int, n: int)
    requires
        0 <= m < 16,
        0 <= n < 16,
        hex_digit(m) == hex_digit(n),
    ensures
        m == n,
{
}

/// A message is opened by taking the nonce from its first twelve bytes, under
/// the SHA-256 digest of what X25519 gives for our secret and the key of the
/// sender, with the public key of the sender as it is written as the associated
/// data: it is the text of what AES-GCM gives for these, and of nothing else.
pub proof fn law_opened_as_agreed(
    encoded: Seq<char>,
    data: Seq<u8>,
    sender_b64: Seq<char>,
    public: Seq<u8>,
    secret: Seq<u8>,
    message: Seq<char>,
)
    requires
        primitives::unbase64(encoded) == Some(data),
        data.len() >= 28,
        primitives::unbase64(sender_b64) == Some(public),
        public.len() == 32,
    ensures
        ({
            let plain = primitives::gcm_opened(
                primitives::sha256_of(primitives::x25519(secret, public)),
                data.take(12),
                data.skip(12),
                vstd::utf8::encode_utf8(sender_b64),
            );
            &&& plain == Some(vstd::utf8::encode_utf8(message)) ==> text_from_peer(
                encoded,
                sender_b64,
                secret,
            ) == Some(message)
            &&& plain is None ==> text_from_peer(encoded, sender_b64, secret) is None
            &&& plain is Some && !vstd::utf8::valid_utf8(plain->0) ==> text_from_peer(
                encoded,
                sender_b64,
                secret,
            ) is None
        }),
{
    broadcast use {vstd::utf8::encode_utf8_valid_utf8, vstd::utf8::encode_utf8_decode_utf8};

}

/// A key is 32 bytes in base64; nothing else is one, and nothing from the holder
/// of such a text is read.
pub proof fn law_keys_are_32_bytes(b64: Seq<char>, encoded: Seq<char>, secret: Seq<u8>)
    ensures
        primitives::unbase64(b64) is None ==> key_bytes(b64) is None,
        primitives::unbase64(b64) matches Some(b) ==> (b.len() == 32 ==> key_bytes(b64) == Some(b))
            && (b.len() != 32 ==> key_bytes(b64) is None),
        key_bytes(b64) is None ==> text_from_peer(encoded, b64, secret) is None,
{
}

/// A fingerprint shows each byte of the SHA-256 digest of a key, in order, as
/// two hexadecimal digits, the higher first, with a colon between each two
/// bytes.
pub proof fn law_fingerprint_digits(d: Seq<u8>, i: int)
    requires
        0 <= i < d.len(),
    ensures
        grouped_hex(d).len() == 3 * d.len() - 1,
        hex_value(grouped_hex(d)[3 * i]) == d[i] as int / 16,
        hex_value(grouped_hex(d)[3 * i + 1]) == d[i] as int % 16,
        i + 1 < d.len() ==> grouped_hex(d)[3 * i + 2] == ':',
    decreases d.len(),
{
    let h = d.drop_last();
    if h.len() > 0 {
        law_fingerprint_digits(h, if i < h.len() {
            i
        } else {
            0
        });
    } else {
        assert(grouped_hex(h).len() == 0);
    }
    lemma_hex_value(d.last() as int / 16);
    lemma_hex_value(d.last() as int % 16);
}

/// The number that a hexadecimal digit stands for.
pub open spec fn hex_value(c: char) -> int {
    if '0' <= c <= '9' {
        c as int - '0' as int
    } else {
        c as int - 'A' as int + 10
    }
}

proof fn lemma_hex_value(n: int)
    requires
        0 <= n < 16,
    ensures
        hex_value(hex_digit(n)) == n,
{
}

/// The fingerprint of a key is that of the SHA-256 digest of its bytes; what is
/// not base64 has none.
pub proof fn law_fingerprint_of_bytes(b64: Seq<char>)
    ensures
        primitives::unbase64(b64) matches Some(raw) ==> fingerprint_of(b64) == grouped_hex(
            primitives::sha256_of(raw),
        ),
        primitives::unbase64(b64) is None ==> fingerprint_of(b64) == seq!['?'],
{
}

} // verus!
