//! What is kept in files: the key shared with the server, the identity, the
//! fingerprints trusted on first use, and the files received from peers. The
//! functions take what was read and give what is to be written.

use crate::crypto;
use crate::primitives;
use crate::table;
use crate::table::Table;
use crate::text;
use std::collections::HashMap;
use vstd::prelude::*;

verus! {

/// The step to the directory above, `k` times.
pub open spec fn upward(k: nat) -> Seq<char>
    decreases k,
{
    if k == 0 {
        Seq::empty()
    } else {
        upward((k - 1) as nat) + "../"@
    }
}

/// Where a file is looked for: here, then in each of the directories above.
pub open spec fn paths_for(name: Seq<char>, levels: nat) -> Seq<Seq<char>> {
    Seq::new(levels + 1, |k: int| upward(k as nat) + name)
}

/// Where a file is looked for, up to a number of directories above this one.
pub fn paths_upward(name: &str, levels: usize) -> (r: Vec<String>)
    requires
        levels < usize::MAX,
    ensures
        text::views(r@) == paths_for(name@, levels as nat),
{
    let mut r: Vec<String> = Vec::new();
    let mut up = String::new();
    let mut k: usize = 0;
    while k <= levels
        invariant
            k <= levels + 1,
            levels < usize::MAX,
            up@ == upward(k as nat),
            r@.len() == k,
            forall|j: int| 0 <= j < k ==> (#[trigger] r@[j])@ == upward(j as nat) + name@,
        decreases levels + 1 - k,
    {
        r.push(text::cat(up.as_str(), name));
        up.append("../");
        k += 1;
    }
    assert(text::views(r@) =~= paths_for(name@, levels as nat));
    r
}

/// Where a file is looked for: here and in the four directories above.
pub fn candidate_paths(name: &str) -> (r: Vec<String>)
    ensures
        text::views(r@) == paths_for(name@, 4),
{
    paths_upward(name, 4)
}

/// What there is, as a list.
pub open spec fn listed(s: Option<Seq<char>>) -> Seq<Seq<char>> {
    match s {
        Some(t) => seq![t],
        None => Seq::empty(),
    }
}

/// Where a file of keys is looked for: at the place that the user named, where
/// there is one, then here and in the directories above.
pub open spec fn key_places(named: Option<Seq<char>>, name: Seq<char>, levels: nat) -> Seq<
    Seq<char>,
> {
    listed(named) + paths_for(name, levels)
}

/// Where a file of keys is looked for.
pub fn key_paths(named: Option<String>, name: &str, levels: usize) -> (r: Vec<String>)
    requires
        levels < usize::MAX,
    ensures
        text::views(r@) == key_places(crypto::text_in(named), name@, levels as nat),
{
    let mut r: Vec<String> = Vec::new();
    let ghost first = listed(crypto::text_in(named));
    if let Some(p) = named {
        r.push(p);
    }
    assert(text::views(r@) =~= first);
    let mut more = paths_upward(name, levels);
    let ghost a = r@;
    let ghost b = more@;
    r.append(&mut more);
    assert(text::views(r@) =~= text::views(a) + text::views(b));
    r
}

/// Where a new file of keys is written: the last of the places where it is
/// looked for, which is in the topmost of the directories.
pub fn new_key_path(named: Option<String>, name: &str, levels: usize) -> (r: String)
    requires
        levels < usize::MAX,
    ensures
        r@ == key_places(crypto::text_in(named), name@, levels as nat).last(),
        r@ == upward(levels as nat) + name@,
{
    let ps = key_paths(named, name, levels);
    let ghost vs = text::views(ps@);
    let n = ps.len();
    assert(vs.len() == n && vs[n - 1] == ps@[n - 1]@);
    ps[n - 1].clone()
}

/// Where the fingerprints trusted on first use are looked for.
pub fn tofu_paths() -> (r: Vec<String>)
    ensures
        text::views(r@) == paths_for("tofu.json"@, 4),
{
    candidate_paths("tofu.json")
}

/// Where the fingerprints trusted on first use are written: the first of the
/// places where they are looked for, which is here.
pub fn tofu_path() -> (r: String)
    ensures
        r@ == paths_for("tofu.json"@, 4)[0],
        r@ == "tofu.json"@,
{
    let ps = tofu_paths();
    let ghost vs = text::views(ps@);
    assert(vs.len() == ps@.len());
    assert(vs[0] == ps@[0]@);
    assert(upward(0) + "tofu.json"@ =~= "tofu.json"@);
    ps[0].clone()
}

/// What was read of each of several files, where it could be read.
pub open spec fn readings(v: Seq<Option<String>>) -> Seq<Option<Seq<char>>> {
    v.map_values(|s: Option<String>| crypto::text_in(s))
}

/// The key that the text of a file holds: the base64 text of 32 bytes.
pub open spec fn shared_key_in(data: Seq<char>) -> Option<Seq<u8>> {
    crypto::key_bytes(text::trimmed(data))
}

/// The key in the first of several files that holds one.
pub open spec fn first_shared_key(v: Seq<Option<Seq<char>>>) -> Option<Seq<u8>>
    decreases v.len(),
{
    if v.len() == 0 {
        None
    } else if v[0] is Some && shared_key_in(v[0]->0) is Some {
        shared_key_in(v[0]->0)
    } else {
        first_shared_key(v.drop_first())
    }
}

/// The key that the text of a file holds.
pub fn parse_shared_key(data: &str) -> (r: Option<[u8; 32]>)
    ensures
        r is Some <==> shared_key_in(data@) is Some,
        r matches Some(k) ==> shared_key_in(data@) == Some(k@),
{
    crypto::decode_key(text::trim(data).as_str())
}

/// A key, and the text of the file that is to be written for it, where it is new.
pub struct LoadedKey {
    pub key: [u8; 32],
    pub to_write: Option<String>,
}

proof fn lemma_base64_not_white(s: Seq<char>)
    requires
        forall|i: int| 0 <= i < s.len() ==> primitives::base64_char(#[trigger] s[i]),
    ensures
        forall|i: int| 0 <= i < s.len() ==> !text::is_white(#[trigger] s[i]),
        text::trimmed(s) == s,
{
    text::lemma_trimmed_same(s);
}

/// The key in the first of the files that holds one, or else `fresh`, which is
/// then to be written. What is written holds the key.
pub fn shared_key_or(contents: &Vec<Option<String>>, fresh: [u8; 32]) -> (r: LoadedKey)
    ensures
        match first_shared_key(readings(contents@)) {
            Some(k) => r.key@ == k && r.to_write is None,
            None => r.key@ == fresh@ && crypto::text_in(r.to_write) == Some(
                primitives::base64(fresh@),
            ),
        },
        r.to_write matches Some(t) ==> shared_key_in(t@) == Some(r.key@),
{
    let mut i: usize = 0;
    let ghost v = readings(contents@);
    assert(v.skip(0) =~= v);
    while i < contents.len()
        invariant
            i <= contents@.len(),
            v == readings(contents@),
            first_shared_key(v.skip(i as int)) == first_shared_key(v),
        decreases contents@.len() - i,
    {
        assert(v.skip(i as int).drop_first() =~= v.skip(i + 1));
        assert(v.skip(i as int)[0] == v[i as int]);
        if let Some(data) = &contents[i] {
            if let Some(key) = parse_shared_key(data.as_str()) {
                return LoadedKey { key, to_write: None };
            }
        }
        i += 1;
    }
    let t = primitives::base64_encode(fresh.as_slice());
    proof {
        lemma_base64_not_white(t@);
    }
    LoadedKey { key: fresh, to_write: Some(t) }
}

/// The key shared with the server: from the first of the files that holds one,
/// or else a random one, which is then to be written.
pub fn load_shared_key(contents: &Vec<Option<String>>) -> (r: LoadedKey)
    ensures
        match first_shared_key(readings(contents@)) {
            Some(k) => r.key@ == k && r.to_write is None,
            None => crypto::text_in(r.to_write) == Some(primitives::base64(r.key@)),
        },
        r.to_write matches Some(t) ==> shared_key_in(t@) == Some(r.key@),
{
    let fresh: [u8; 32] = primitives::random_bytes::<32>();
    shared_key_or(contents, fresh)
}

/// The secret key and the public key that the text of a file holds: two words,
/// each in base64, the first of 32 bytes.
pub open spec fn identity_in(data: Seq<char>) -> Option<(Seq<u8>, Seq<u8>)> {
    let w = text::words(data);
    if w.len() == 2 {
        match (crypto::key_bytes(w[0]), primitives::unbase64(w[1])) {
            (Some(secret), Some(public)) => Some((secret, public)),
            _ => None,
        }
    } else {
        None
    }
}

/// The identity in the first of several files that holds one.
pub open spec fn first_identity(v: Seq<Option<Seq<char>>>) -> Option<(Seq<u8>, Seq<u8>)>
    decreases v.len(),
{
    if v.len() == 0 {
        None
    } else if v[0] is Some && identity_in(v[0]->0) is Some {
        identity_in(v[0]->0)
    } else {
        first_identity(v.drop_first())
    }
}

/// The text of the file that holds an identity.
pub open spec fn identity_text(secret: Seq<u8>, public: Seq<u8>) -> Seq<char> {
    primitives::base64(secret) + seq![' '] + primitives::base64(public) + seq!['\n']
}

/// A secret key, its public key, and the text of the file that is to be
/// written for them, where they are new.
pub struct Identity {
    pub secret: [u8; 32],
    pub public: Vec<u8>,
    pub to_write: Option<String>,
}

/// The identity that the text of a file holds.
pub fn parse_identity(data: &str) -> (r: Option<([u8; 32], Vec<u8>)>)
    ensures
        r is Some <==> identity_in(data@) is Some,
        r matches Some(p) ==> identity_in(data@) == Some((p.0@, p.1@)) && primitives::base64_len(
            p.1@.len(),
        ) <= isize::MAX,
{
    let w = text::split_words(data);
    let ghost ws = text::views(w@);
    if w.len() != 2 {
        return None;
    }
    assert(ws[0] == w@[0]@ && ws[1] == w@[1]@);
    match (crypto::decode_key(w[0].as_str()), primitives::base64_decode(w[1].as_str())) {
        (Some(secret), Some(public)) => Some((secret, public)),
        _ => None,
    }
}

proof fn lemma_no_white(s: Seq<char>)
    requires
        forall|i: int| 0 <= i < s.len() ==> !text::is_white(#[trigger] s[i]),
    ensures
        text::word_len(s) == s.len(),
    decreases s.len(),
{
    if s.len() > 0 {
        assert(!text::is_white(s[0]));
        assert forall|i: int| 0 <= i < s.drop_first().len() implies !text::is_white(
            #[trigger] s.drop_first()[i],
        ) by {
            assert(s.drop_first()[i] == s[i + 1]);
        }
        lemma_no_white(s.drop_first());
    }
}

proof fn lemma_word_then_white(a: Seq<char>, w: char, rest: Seq<char>)
    requires
        forall|i: int| 0 <= i < a.len() ==> !text::is_white(#[trigger] a[i]),
        text::is_white(w),
    ensures
        text::word_len(a + seq![w] + rest) == a.len(),
    decreases a.len(),
{
    let s = a + seq![w] + rest;
    if a.len() > 0 {
        assert(s[0] == a[0]);
        assert(s.drop_first() =~= a.drop_first() + seq![w] + rest);
        assert forall|i: int| 0 <= i < a.drop_first().len() implies !text::is_white(
            #[trigger] a.drop_first()[i],
        ) by {
            assert(a.drop_first()[i] == a[i + 1]);
        }
        lemma_word_then_white(a.drop_first(), w, rest);
    } else {
        assert(s[0] == w);
    }
}

/// Two words with a space between them and a line end after them are read as
/// these two words.
pub proof fn lemma_two_words(a: Seq<char>, b: Seq<char>)
    requires
        a.len() > 0,
        b.len() > 0,
        forall|i: int| 0 <= i < a.len() ==> !text::is_white(#[trigger] a[i]),
        forall|i: int| 0 <= i < b.len() ==> !text::is_white(#[trigger] b[i]),
    ensures
        text::words(a + seq![' '] + b + seq!['\n']) == seq![a, b],
{
    let s = a + seq![' '] + b + seq!['\n'];
    let r = b + seq!['\n'];
    assert(s =~= a + seq![' '] + r);
    assert(s[0] == a[0]);
    lemma_word_then_white(a, ' ', r);
    assert(s.take(a.len() as int) =~= a);
    let t = s.skip(a.len() as int);
    assert(t =~= seq![' '] + r);
    assert(t[0] == ' ');
    assert(t.drop_first() =~= r);
    assert(r[0] == b[0]);
    assert(text::trim_front(r, text::Class::White) == r);
    assert(text::trim_front(t, text::Class::White) == r);
    assert(r =~= b + seq!['\n'] + Seq::empty());
    lemma_word_then_white(b, '\n', Seq::empty());
    assert(r.take(b.len() as int) =~= b);
    let e = r.skip(b.len() as int);
    assert(e =~= seq!['\n']);
    assert(e.drop_first() =~= Seq::<char>::empty());
    assert(text::trim_front(e.drop_first(), text::Class::White) =~= Seq::<char>::empty());
    assert(text::trim_front(e, text::Class::White) =~= Seq::<char>::empty());
    assert(text::words(e) =~= Seq::<Seq<char>>::empty());
    assert(text::words(t) =~= seq![b]);
    assert(text::words(s) =~= seq![a] + text::words(t));
}

/// The identity in the first of the files that holds one, or else that of
/// `fresh`, which is then to be written. What is written holds the identity.
pub fn identity_or(contents: &Vec<Option<String>>, fresh: [u8; 32]) -> (r: Identity)
    ensures
        match first_identity(readings(contents@)) {
            Some(p) => r.secret@ == p.0 && r.public@ == p.1 && r.to_write is None,
            None => r.secret@ == fresh@ && r.public@ == primitives::x25519_public(fresh@)
                && crypto::text_in(r.to_write) == Some(identity_text(r.secret@, r.public@)),
        },
        r.to_write matches Some(t) ==> identity_in(t@) == Some((r.secret@, r.public@)),
        primitives::base64_len(r.public@.len()) <= isize::MAX,
{
    let mut i: usize = 0;
    let ghost v = readings(contents@);
    assert(v.skip(0) =~= v);
    while i < contents.len()
        invariant
            i <= contents@.len(),
            v == readings(contents@),
            first_identity(v.skip(i as int)) == first_identity(v),
        decreases contents@.len() - i,
    {
        assert(v.skip(i as int).drop_first() =~= v.skip(i + 1));
        assert(v.skip(i as int)[0] == v[i as int]);
        if let Some(data) = &contents[i] {
            if let Some((secret, public)) = parse_identity(data.as_str()) {
                return Identity { secret, public, to_write: None };
            }
        }
        i += 1;
    }
    let key = primitives::public_key(&fresh);
    let a = primitives::base64_encode(fresh.as_slice());
    let b = primitives::base64_encode(key.as_slice());
    let mut t = String::new();
    t.append(a.as_str());
    t.push(' ');
    t.append(b.as_str());
    t.push('\n');
    let mut public: Vec<u8> = Vec::new();
    public.extend_from_slice(key.as_slice());
    proof {
        assert(public@ =~= key@);
        assert(t@ =~= identity_text(fresh@, key@));
        lemma_base64_not_white(a@);
        lemma_base64_not_white(b@);
        lemma_two_words(a@, b@);
    }
    Identity { secret: fresh, public, to_write: Some(t) }
}

/// The identity in the first of the files that holds one, with the public key
/// as it stands there, or else a random one, which is then to be written.
pub fn load_stored_identity(contents: &Vec<Option<String>>) -> (r: Identity)
    ensures
        match first_identity(readings(contents@)) {
            Some(p) => r.secret@ == p.0 && r.public@ == p.1 && r.to_write is None,
            None => r.public@ == primitives::x25519_public(r.secret@) && crypto::text_in(r.to_write)
                == Some(identity_text(r.secret@, r.public@)),
        },
        r.to_write matches Some(t) ==> identity_in(t@) == Some((r.secret@, r.public@)),
        primitives::base64_len(r.public@.len()) <= isize::MAX,
{
    let fresh: [u8; 32] = primitives::random_bytes::<32>();
    identity_or(contents, fresh)
}

/// The public key of an identity in base64.
pub fn public_text(id: &Identity) -> (r: String)
    requires
        primitives::base64_len(id.public@.len()) <= isize::MAX,
    ensures
        r@ == primitives::base64(id.public@),
        primitives::unbase64(r@) == Some(id.public@),
{
    primitives::base64_encode(id.public.as_slice())
}

/// A secret key, its public key in base64, and the text of the file that is to
/// be written for them, where they are new.
pub struct Credentials {
    pub secret: [u8; 32],
    pub public_b64: String,
    pub to_write: Option<String>,
}

/// The secret key in the first of the files that holds an identity, or else a
/// random one, which is then to be written; with it the public key of that
/// secret, in base64.
pub fn load_or_create_identity(contents: &Vec<Option<String>>) -> (r: Credentials)
    ensures
        match first_identity(readings(contents@)) {
            Some(p) => r.secret@ == p.0 && r.to_write is None,
            None => crypto::text_in(r.to_write) == Some(
                identity_text(r.secret@, primitives::x25519_public(r.secret@)),
            ),
        },
        r.public_b64@ == primitives::base64(primitives::x25519_public(r.secret@)),
        crypto::key_bytes(r.public_b64@) == Some(primitives::x25519_public(r.secret@)),
        r.to_write matches Some(t) ==> identity_in(t@) == Some(
            (r.secret@, primitives::x25519_public(r.secret@)),
        ),
{
    let id = load_stored_identity(contents);
    let key = primitives::public_key(&id.secret);
    let public_b64 = primitives::base64_encode(key.as_slice());
    Credentials { secret: id.secret, public_b64, to_write: id.to_write }
}

/// What `serde_json` reads of a text as a map from strings to strings.
pub uninterp spec fn json_map(data: Seq<char>) -> Option<Map<Seq<char>, Seq<char>>>;

/// Wraps `serde_json::from_str` to a map from strings to strings. The pairs
/// come in any order.
#[verifier::external_body]
fn json_pairs(data: &str) -> (r: Option<Vec<(String, String)>>)
    ensures
        (r is Some) == (json_map(data@) is Some),
        r matches Some(v) ==> table::map_of(table::pairs(v@)) == json_map(data@)->0,
{
    let map = serde_json::from_str::<HashMap<String, String>>(data).ok()?;
    Some(map.into_iter().collect())
}

/// Wraps `serde_json::to_string_pretty` of a map from strings to strings. It
/// succeeds, and reading the text gives the map back; in which order the names
/// stand in the text is left open.
#[verifier::external_body]
fn pairs_json(entries: &Vec<(String, String)>) -> (r: Option<String>)
    ensures
        r is Some,
        r matches Some(t) ==> json_map(t@) == Some(table::map_of(table::pairs(entries@))),
{
    let map: HashMap<&String, &String> = entries.iter().map(|p| (&p.0, &p.1)).collect();
    serde_json::to_string_pretty(&map).ok()
}

/// The fingerprints in the first of several files that holds a map of them.
pub open spec fn first_tofu(v: Seq<Option<Seq<char>>>) -> Map<Seq<char>, Seq<char>>
    decreases v.len(),
{
    if v.len() == 0 {
        Map::empty()
    } else if v[0] is Some && json_map(v[0]->0) is Some {
        json_map(v[0]->0)->0
    } else {
        first_tofu(v.drop_first())
    }
}

/// The table of a list of pairs.
pub fn table_of(pairs: &Vec<(String, String)>) -> (r: Table)
    ensures
        r@ == table::map_of(table::pairs(pairs@)),
{
    let mut r = Table::new();
    let mut i: usize = 0;
    let ghost ps = table::pairs(pairs@);
    assert(ps.take(0) =~= Seq::empty());
    while i < pairs.len()
        invariant
            i <= pairs@.len(),
            ps == table::pairs(pairs@),
            r@ == table::map_of(ps.take(i as int)),
        decreases pairs@.len() - i,
    {
        assert(ps.take(i + 1).drop_last() =~= ps.take(i as int));
        r.insert(pairs[i].0.as_str(), pairs[i].1.as_str());
        i += 1;
    }
    assert(ps.take(i as int) =~= ps);
    r
}

/// The fingerprints trusted on first use: from the first of the files that
/// holds a map of them, or else none.
pub fn load_tofu(contents: &Vec<Option<String>>) -> (r: Table)
    ensures
        r@ == first_tofu(readings(contents@)),
{
    let mut i: usize = 0;
    let ghost v = readings(contents@);
    assert(v.skip(0) =~= v);
    while i < contents.len()
        invariant
            i <= contents@.len(),
            v == readings(contents@),
            first_tofu(v.skip(i as int)) == first_tofu(v),
        decreases contents@.len() - i,
    {
        assert(v.skip(i as int).drop_first() =~= v.skip(i + 1));
        assert(v.skip(i as int)[0] == v[i as int]);
        if let Some(data) = &contents[i] {
            if let Some(pairs) = json_pairs(data.as_str()) {
                return table_of(&pairs);
            }
        }
        i += 1;
    }
    Table::new()
}

/// The text of the file that holds the fingerprints: reading it gives the same
/// fingerprints back.
pub fn save_tofu(map: &Table) -> (r: Option<String>)
    ensures
        r is Some,
        r matches Some(t) ==> json_map(t@) == Some(map@),
        r matches Some(t) ==> first_tofu(seq![Some(t@)]) == map@,
{
    pairs_json(map.entries())
}

/// The last component of a path, from its pieces between slashes: empty pieces
/// and single dots at the end do not count, and a step upward is none.
pub open spec fn last_component(pieces: Seq<Seq<char>>) -> Option<Seq<char>>
    decreases pieces.len(),
{
    if pieces.len() == 0 {
        None
    } else if pieces.last().len() == 0 || pieces.last() == seq!['.'] {
        last_component(pieces.drop_last())
    } else if pieces.last() == seq!['.', '.'] {
        None
    } else {
        Some(pieces.last())
    }
}

/// Whether a path means the same on every system: no backslash, no drive in
/// front, no two slashes in front.
pub open spec fn portable(p: Seq<char>) -> bool {
    &&& !p.contains('\\')
    &&& !(p.len() >= 2 && p[1] == ':')
    &&& !(p.len() >= 2 && p[0] == '/' && p[1] == '/')
}

/// Wraps `std::path::Path::file_name`: the last component of a path, which is
/// a piece of it. Which piece is stated for paths that mean the same on every
/// system; for the others it depends on the system.
#[verifier::external_body]
fn path_file_name(path: &str) -> (r: Option<String>)
    ensures
        portable(path@) ==> crypto::text_in(r) == last_component(text::split_on(path@, '/')),
        r matches Some(n) ==> text::has_piece(path@, n@),
{
    std::path::Path::new(path).file_name().map(|n| n.to_string_lossy().to_string())
}

/// The name under which a file of a portable name is saved, or the empty text
/// where it is refused.
pub open spec fn safe_name(raw: Seq<char>) -> Seq<char> {
    safe_component(last_component(text::split_on(text::trimmed(raw), '/')))
}

/// The name under which a component of a path is saved, or the empty text
/// where it is refused.
pub open spec fn safe_component(component: Option<Seq<char>>) -> Seq<char> {
    match component {
        Some(c) => {
            let n = text::trimmed(c);
            if n == seq!['.'] || n == seq!['.', '.'] || n.contains('/') || n.contains('\\') {
                Seq::empty()
            } else {
                n
            }
        },
        None => Seq::empty(),
    }
}

/// Whether a text names a file in the directory that it is saved to.
pub open spec fn plain_name(n: Seq<char>) -> bool {
    &&& n.len() > 0
    &&& !text::is_white(n[0])
    &&& !text::is_white(n.last())
    &&& n != seq!['.']
    &&& n != seq!['.', '.']
    &&& !n.contains('/')
    &&& !n.contains('\\')
}

/// The name under which a component of a path is saved.
pub fn safe_name_of(component: Option<String>) -> (r: String)
    ensures
        r@ == safe_component(crypto::text_in(component)),
        r@.len() > 0 ==> plain_name(r@),
{
    match component {
        Some(c) => {
            let n = text::trim(c.as_str());
            proof {
                reveal_strlit(".");
                reveal_strlit("..");
                assert("."@ =~= seq!['.']);
                assert(".."@ =~= seq!['.', '.']);
                text::lemma_trimmed_ends(c@);
            }
            if text::same(n.as_str(), ".") || text::same(n.as_str(), "..") || text::contains_char(
                n.as_str(),
                '/',
            ) || text::contains_char(n.as_str(), '\\') {
                String::new()
            } else {
                n
            }
        },
        None => String::new(),
    }
}

/// The name under which a received file is saved: the last component of the
/// name that came with it. The empty text stands for a name that is refused.
/// Whatever came, the result names a file in the directory it is saved to.
pub fn safe_file_name(raw: &str) -> (r: String)
    ensures
        portable(text::trimmed(raw@)) ==> r@ == safe_name(raw@),
        r@.len() > 0 ==> plain_name(r@),
        r@.len() > 0 ==> text::has_piece(text::trimmed(raw@), r@),
        portable(r@) ==> safe_name(r@) == r@,
{
    let t = text::trim(raw);
    let component = path_file_name(t.as_str());
    proof {
        if let Some(c) = crypto::text_in(component) {
            text::lemma_trimmed_piece(c);
            text::lemma_piece_of_piece(t@, c, text::trimmed(c));
        }
    }
    let r = safe_name_of(component);
    proof {
        if portable(r@) {
            law_safe_name_kept(crypto::text_in(component));
        }
    }
    r
}

/// The last part of a path, after every slash and backslash.
pub open spec fn base_name(path: Seq<char>) -> Seq<char>
    decreases path.len(),
{
    if path.len() > 0 && path.last() != '/' && path.last() != '\\' {
        base_name(path.drop_last()).push(path.last())
    } else {
        Seq::empty()
    }
}

/// The name that a file is sent under: the last part of its path.
pub fn sent_name(path: &str) -> (r: String)
    ensures
        r@ == base_name(path@),
{
    let cs = text::chars_of(path);
    let n = cs.len();
    let mut from: usize = n;
    assert(cs@.take(n as int) =~= cs@);
    assert(cs@.subrange(n as int, n as int) =~= Seq::<char>::empty());
    assert(base_name(cs@) =~= base_name(cs@) + cs@.subrange(n as int, n as int));
    while from > 0 && cs[from - 1] != '/' && cs[from - 1] != '\\'
        invariant
            from <= n == cs@.len(),
            base_name(cs@) == base_name(cs@.take(from as int)) + cs@.subrange(
                from as int,
                n as int,
            ),
        decreases from,
    {
        proof {
            let t = cs@.take(from as int);
            assert(t.drop_last() =~= cs@.take(from - 1));
            assert(base_name(t) + cs@.subrange(from as int, n as int) =~= base_name(
                cs@.take(from - 1),
            ) + cs@.subrange(from - 1, n as int));
        }
        from -= 1;
    }
    proof {
        assert(base_name(cs@.take(from as int)) =~= Seq::<char>::empty());
        assert(base_name(cs@) =~= cs@.subrange(from as int, n as int));
    }
    text::text_of(&cs, from, n)
}

/// The name that a file is saved under is saved under itself: whatever it was
/// made of, making it safe again changes nothing.
pub proof fn law_safe_name_kept(component: Option<Seq<char>>)
    requires
        portable(safe_component(component)),
    ensures
        safe_name(safe_component(component)) == safe_component(component),
{
    let n = safe_component(component);
    if n.len() > 0 {
        text::lemma_trimmed_ends(component->0);
        law_plain_name_kept(n);
    } else {
        assert(n =~= Seq::empty());
        text::lemma_trimmed_same(n);
        text::lemma_split_none(n, '/');
        let none: Seq<Seq<char>> = Seq::empty();
        assert(text::split_on(n, '/').drop_last() =~= none);
        assert(last_component(none) is None);
    }
}

/// A plain name is saved under itself.
pub proof fn law_plain_name_kept(n: Seq<char>)
    requires
        plain_name(n),
        portable(n),
    ensures
        safe_name(n) == n,
{
    text::lemma_trimmed_same(n);
    text::lemma_split_none(n, '/');
    let ps = seq![n];
    assert(ps.last() == n);
}

/// The name that a file is sent under is what stands after the last slash or
/// backslash of its path.
pub proof fn law_base_name(dir: Seq<char>, name: Seq<char>)
    requires
        dir.len() == 0 || dir[dir.len() - 1] == '/' || dir[dir.len() - 1] == '\\',
        !name.contains('/'),
        !name.contains('\\'),
    ensures
        base_name(dir + name) == name,
    decreases name.len(),
{
    let p = dir + name;
    if name.len() == 0 {
        assert(p =~= dir);
        assert(base_name(p) =~= name);
    } else {
        let d = name.drop_last();
        assert(name.contains(name.last()));
        assert forall|c: char| d.contains(c) implies name.contains(c) by {
            let i = choose|i: int| 0 <= i < d.len() && d[i] == c;
            assert(name[i] == c);
        }
        law_base_name(dir, d);
        assert(p.drop_last() =~= dir + d);
        assert(p.last() == name.last());
        assert(d.push(name.last()) =~= name);
    }
}

/// A file is looked for here first, and then in each of the directories above,
/// the nearest first.
pub proof fn law_paths_go_up(name: Seq<char>, levels: nat, k: int)
    requires
        0 <= k < levels,
    ensures
        paths_for(name, levels).len() == levels + 1,
        paths_for(name, levels)[0] == name,
        paths_for(name, levels)[k + 1] == seq!['.', '.', '/'] + paths_for(name, levels)[k],
{
    reveal_strlit("../");
    assert("../"@ =~= seq!['.', '.', '/']);
    lemma_upward(k as nat);
    assert(upward(0) + name =~= name);
    assert(upward((k + 1) as nat) + name =~= "../"@ + (upward(k as nat) + name));
}

proof fn lemma_upward(k: nat)
    ensures
        upward(k + 1) == "../"@ + upward(k),
    decreases k,
{
    if k == 0 {
        let none: Seq<char> = Seq::empty();
        assert(upward(0) == none);
        assert(upward(1) == none + "../"@);
        assert(none + "../"@ =~= "../"@ + none);
    } else {
        lemma_upward((k - 1) as nat);
        assert(upward(k + 1) =~= "../"@ + upward(k));
    }
}

/// What the user named comes before the places where a file is looked for
/// anyway.
pub proof fn law_named_place_first(named: Seq<char>, name: Seq<char>, levels: nat)
    ensures
        key_places(Some(named), name, levels) == seq![named] + paths_for(name, levels),
        key_places(None, name, levels) == paths_for(name, levels),
{
    assert(key_places(None, name, levels) =~= paths_for(name, levels));
}

/// The first of several files that holds a key counts; those before it that hold
/// none, or cannot be read, do not, nor do those after it.
pub proof fn law_first_key_counts(v: Seq<Option<Seq<char>>>, i: int)
    requires
        0 <= i < v.len(),
        v[i] is Some,
        crypto::key_bytes(text::trimmed(v[i]->0)) is Some,
        forall|j: int|
            0 <= j < i ==> (#[trigger] v[j] is None || crypto::key_bytes(
                text::trimmed(v[j]->0),
            ) is None),
    ensures
        first_shared_key(v) == crypto::key_bytes(text::trimmed(v[i]->0)),
    decreases v.len(),
{
    if i > 0 {
        let d = v.drop_first();
        assert(v[0] is None || crypto::key_bytes(text::trimmed(v[0]->0)) is None);
        assert forall|j: int| 0 <= j < i - 1 implies (#[trigger] d[j] is None || crypto::key_bytes(
            text::trimmed(d[j]->0),
        ) is None) by {
            assert(d[j] == v[j + 1]);
        }
        law_first_key_counts(d, i - 1);
    }
}

/// An identity is two words: the secret in base64, 32 bytes of it, then the
/// public key in base64. Any other number of words is none.
pub proof fn law_identity_read(data: Seq<char>, a: Seq<char>, b: Seq<char>)
    ensures
        text::words(data) == seq![a, b] && crypto::key_bytes(a) is Some && primitives::unbase64(
            b,
        ) is Some ==> identity_in(data) == Some((crypto::key_bytes(a)->0, primitives::unbase64(b)->0)),
        text::words(data) == seq![a, b] && (crypto::key_bytes(a) is None || primitives::unbase64(
            b,
        ) is None) ==> identity_in(data) is None,
        text::words(data).len() != 2 ==> identity_in(data) is None,
{
}

/// The first of several files that holds an identity counts.
pub proof fn law_first_identity_counts(v: Seq<Option<Seq<char>>>, i: int)
    requires
        0 <= i < v.len(),
        v[i] is Some,
        identity_in(v[i]->0) is Some,
        forall|j: int| 0 <= j < i ==> (#[trigger] v[j] is None || identity_in(v[j]->0) is None),
    ensures
        first_identity(v) == identity_in(v[i]->0),
    decreases v.len(),
{
    if i > 0 {
        let d = v.drop_first();
        assert(v[0] is None || identity_in(v[0]->0) is None);
        assert forall|j: int| 0 <= j < i - 1 implies (#[trigger] d[j] is None || identity_in(
            d[j]->0,
        ) is None) by {
            assert(d[j] == v[j + 1]);
        }
        law_first_identity_counts(d, i - 1);
    }
}

/// The first of several files that holds fingerprints counts; where none does,
/// none is trusted.
pub proof fn law_first_tofu_counts(v: Seq<Option<Seq<char>>>, i: int)
    requires
        0 <= i <= v.len(),
        i < v.len() ==> v[i] is Some && json_map(v[i]->0) is Some,
        forall|j: int| 0 <= j < i ==> (#[trigger] v[j] is None || json_map(v[j]->0) is None),
    ensures
        i < v.len() ==> first_tofu(v) == json_map(v[i]->0)->0,
        i == v.len() ==> first_tofu(v) == Map::<Seq<char>, Seq<char>>::empty(),
    decreases v.len(),
{
    if i > 0 {
        let d = v.drop_first();
        assert(v[0] is None || json_map(v[0]->0) is None);
        assert forall|j: int| 0 <= j < i - 1 implies (#[trigger] d[j] is None || json_map(
            d[j]->0,
        ) is None) by {
            assert(d[j] == v[j + 1]);
        }
        law_first_tofu_counts(d, i - 1);
    }
}

/// Whatever directories stand before the name of a received file, it is saved
/// under that name; a name that is a step upward is refused.
pub proof fn law_directories_dropped(dir: Seq<char>, name: Seq<char>)
    requires
        dir.len() > 0,
        !text::is_white(dir[0]),
        name.len() > 0,
        !text::is_white(name[0]),
        !text::is_white(name[name.len() - 1]),
        !name.contains('/'),
        !name.contains('\\'),
        name != seq!['.'],
        name != seq!['.', '.'],
    ensures
        safe_name(dir + seq!['/'] + name) == name,
        safe_name(dir + seq!['/'] + seq!['.', '.']).len() == 0,
        safe_name(seq!['.', '.']).len() == 0,
{
    let p = dir + seq!['/'] + name;
    assert(p[0] == dir[0] && p.last() == name[name.len() - 1]);
    text::lemma_trimmed_same(p);
    text::lemma_trimmed_same(name);
    lemma_split_back(dir, '/', name);
    let up = seq!['.', '.'];
    let q = dir + seq!['/'] + up;
    assert(q[0] == dir[0] && q.last() == '.');
    text::lemma_trimmed_same(q);
    lemma_split_back(dir, '/', up);
    text::lemma_trimmed_same(up);
    text::lemma_split_none(up, '/');
}

proof fn lemma_split_back(a: Seq<char>, sep: char, last: Seq<char>)
    requires
        !last.contains(sep),
    ensures
        text::split_on(a + seq![sep] + last, sep).len() > 0,
        text::split_on(a + seq![sep] + last, sep).last() == last,
    decreases a.len(),
{
    let s = a + seq![sep] + last;
    let i = text::index_of(a, sep);
    text::lemma_index_of(a, sep);
    if i < a.len() {
        text::lemma_index_of_is(s, sep, i);
        let rest = a.skip(i + 1);
        lemma_split_back(rest, sep, last);
        assert(s.skip(i + 1) =~= rest + seq![sep] + last);
    } else {
        text::lemma_index_of_is(s, sep, a.len() as int);
        assert(s.skip(a.len() as int + 1) =~= last);
        text::lemma_split_none(last, sep);
    }
}

} // verus!
