//! The keys of peers: what the server says of them, and the fingerprints that
//! are trusted from the first time a key was seen.

use crate::crypto;
use crate::events;
use crate::events::{emit, Ev, EvModel};
use crate::table;
use crate::table::Table;
use crate::text;
use vstd::prelude::*;

verus! {

/// The keys known, the fingerprints trusted, and the events reported so far.
pub struct PeersModel {
    pub known: Map<Seq<char>, Seq<char>>,
    pub tofu: Map<Seq<char>, Seq<char>>,
    pub evs: Seq<EvModel>,
}

/// How a key compares with the fingerprint trusted for its owner.
#[derive(Clone, Copy, PartialEq, Eq, Structural, Debug)]
pub enum TofuStatus {
    /// The first key of this owner; it is trusted from now on.
    New,
    /// The key that is trusted.
    Same,
    /// Another key than the one that is trusted.
    Changed,
}

/// How a fingerprint compares with the one trusted for its owner.
pub open spec fn tofu_status(
    tofu: Map<Seq<char>, Seq<char>>,
    name: Seq<char>,
    fp: Seq<char>,
) -> TofuStatus {
    if !tofu.contains_key(name) {
        TofuStatus::New
    } else if tofu[name] == fp {
        TofuStatus::Same
    } else {
        TofuStatus::Changed
    }
}

/// The fingerprints trusted after one was seen: the first of an owner stays.
pub open spec fn tofu_after(
    tofu: Map<Seq<char>, Seq<char>>,
    name: Seq<char>,
    fp: Seq<char>,
) -> Map<Seq<char>, Seq<char>> {
    if tofu.contains_key(name) {
        tofu
    } else {
        tofu.insert(name, fp)
    }
}

/// The warning that the key of a peer changed.
pub open spec fn warning_text(name: Seq<char>, was: Seq<char>, fp: Seq<char>) -> Seq<char> {
    "⚠ ВНИМАНИЕ! Публичный ключ '"@ + name + "' ИЗМЕНИЛСЯ! Был: "@ + was + " Стал: "@ + fp
        + ". Возможен MITM. Если это ожидаемо — /trust "@ + name
}

/// The warnings that a fingerprint gives rise to.
pub open spec fn tofu_warnings(
    tofu: Map<Seq<char>, Seq<char>>,
    name: Seq<char>,
    fp: Seq<char>,
) -> Seq<EvModel> {
    if tofu_status(tofu, name, fp) == TofuStatus::Changed {
        seq![EvModel::Warn(warning_text(name, tofu[name], fp))]
    } else {
        Seq::empty()
    }
}

/// What is known after a key of a peer was seen.
pub open spec fn learn(p: PeersModel, name: Seq<char>, key: Seq<char>) -> PeersModel {
    let fp = crypto::fingerprint_of(key);
    PeersModel {
        known: p.known.insert(name, key),
        tofu: tofu_after(p.tofu, name, fp),
        evs: p.evs + tofu_warnings(p.tofu, name, fp),
    }
}

/// The name and the key in an item `name:key`, without white space around them.
pub open spec fn pair_in(item: Seq<char>) -> Option<(Seq<char>, Seq<char>)> {
    let i = text::index_of(item, ':');
    if 0 <= i < item.len() {
        Some((text::trimmed(item.take(i)), text::trimmed(item.skip(i + 1))))
    } else {
        None
    }
}

/// What is known after the items of a list were seen, in order.
pub open spec fn learn_all(p: PeersModel, items: Seq<Seq<char>>) -> PeersModel
    decreases items.len(),
{
    if items.len() == 0 {
        p
    } else {
        let q = learn_all(p, items.drop_last());
        match pair_in(items.last()) {
            Some(nk) => learn(q, nk.0, nk.1),
            None => q,
        }
    }
}

/// The names and keys of a list of items, but for those of one name.
pub open spec fn others(items: Seq<Seq<char>>, me: Seq<char>) -> Seq<(Seq<char>, Seq<char>)>
    decreases items.len(),
{
    if items.len() == 0 {
        Seq::empty()
    } else {
        let q = others(items.drop_last(), me);
        match pair_in(items.last()) {
            Some(nk) => if nk.0 != me {
                q.push(nk)
            } else {
                q
            },
            None => q,
        }
    }
}

/// The text after the first closing bracket, or all of it where there is none.
pub open spec fn after_bracket(s: Seq<char>) -> Seq<char> {
    let i = text::index_of(s, ']');
    if 0 <= i < s.len() {
        s.skip(i + 1)
    } else {
        s
    }
}

/// The items of a list of keys, each without white space around it.
pub open spec fn key_items(s: Seq<char>) -> Seq<Seq<char>> {
    text::split_on(after_bracket(s), ';').map_values(|t: Seq<char>| text::trimmed(t))
}

/// What the tables hold.
pub open spec fn peers(known: Table, tofu: Table, evs: Seq<Ev>) -> PeersModel {
    PeersModel { known: known@, tofu: tofu@, evs: events::ev_views(evs) }
}

/// The name and the key in an item.
pub fn parse_pair(item: &str) -> (r: Option<(String, String)>)
    ensures
        r is Some <==> pair_in(item@) is Some,
        r matches Some(p) ==> pair_in(item@) == Some((p.0@, p.1@)),
{
    let cs = text::chars_of(item);
    assert(cs@.skip(0) =~= cs@);
    let at = text::find_from(&cs, ':', 0);
    let n = cs.len();
    if at < n {
        let a = text::text_of(&cs, 0, at);
        let b = text::text_of(&cs, at + 1, n);
        assert(a@ =~= item@.take(at as int));
        assert(b@ =~= item@.skip(at + 1));
        Some((text::trim(a.as_str()), text::trim(b.as_str())))
    } else {
        None
    }
}

/// Compares the fingerprint of a peer's key with the one trusted for it. The
/// first is trusted; a warning is reported of another.
pub fn check_tofu(tofu: &mut Table, evs: &mut Vec<Ev>, name: &str, pubk: &str) -> (r: TofuStatus)
    ensures
        r == tofu_status(old(tofu)@, name@, crypto::fingerprint_of(pubk@)),
        final(tofu)@ == tofu_after(old(tofu)@, name@, crypto::fingerprint_of(pubk@)),
        events::ev_views(final(evs)@) == events::ev_views(old(evs)@) + tofu_warnings(
            old(tofu)@,
            name@,
            crypto::fingerprint_of(pubk@),
        ),
{
    let fp = crypto::fingerprint(pubk);
    let ghost before = events::ev_views(evs@);
    match tofu.get(name) {
        None => {
            tofu.insert(name, fp.as_str());
            assert(before + Seq::empty() =~= before);
            TofuStatus::New
        },
        Some(was) => {
            if text::same(was.as_str(), fp.as_str()) {
                assert(before + Seq::empty() =~= before);
                TofuStatus::Same
            } else {
                let mut t = text::own("⚠ ВНИМАНИЕ! Публичный ключ '");
                t.append(name);
                t.append("' ИЗМЕНИЛСЯ! Был: ");
                t.append(was.as_str());
                t.append(" Стал: ");
                t.append(fp.as_str());
                t.append(". Возможен MITM. Если это ожидаемо — /trust ");
                t.append(name);
                let ghost w = t@;
                emit(evs, Ev::Warn(t));
                assert(events::ev_views(evs@) =~= before + seq![EvModel::Warn(w)]);
                TofuStatus::Changed
            }
        },
    }
}

/// Takes note of a peer's key.
fn note_key(known: &mut Table, tofu: &mut Table, evs: &mut Vec<Ev>, name: &str, key: &str)
    ensures
        peers(*final(known), *final(tofu), final(evs)@) == learn(
            peers(*old(known), *old(tofu), old(evs)@),
            name@,
            key@,
        ),
{
    check_tofu(tofu, evs, name, key);
    known.insert(name, key);
}

/// Takes note of the keys in a list `[..]name:key;name:key`, in order.
pub fn insert_keys(known: &mut Table, tofu: &mut Table, evs: &mut Vec<Ev>, list: &str)
    ensures
        peers(*final(known), *final(tofu), final(evs)@) == learn_all(
            peers(*old(known), *old(tofu), old(evs)@),
            key_items(list@),
        ),
{
    let cs = text::chars_of(list);
    assert(cs@.skip(0) =~= cs@);
    let n = cs.len();
    let at = text::find_from(&cs, ']', 0);
    let body = if at < n {
        text::text_of(&cs, at + 1, n)
    } else {
        text::own(list)
    };
    assert(body@ =~= after_bracket(list@));
    let raw = text::split(body.as_str(), ';');
    let ghost items = key_items(list@);
    let ghost start = peers(*known, *tofu, evs@);
    let mut i: usize = 0;
    assert(items.take(0) =~= Seq::empty());
    while i < raw.len()
        invariant
            i <= raw@.len(),
            items == text::views(raw@).map_values(|t: Seq<char>| text::trimmed(t)),
            peers(*known, *tofu, evs@) == learn_all(start, items.take(i as int)),
        decreases raw@.len() - i,
    {
        let item = text::trim(raw[i].as_str());
        assert(item@ == items[i as int]);
        assert(items.take(i + 1).drop_last() =~= items.take(i as int));
        if let Some((name, key)) = parse_pair(item.as_str()) {
            note_key(known, tofu, evs, name.as_str(), key.as_str());
        }
        i += 1;
    }
    assert(items.take(i as int) =~= items);
}

/// The command that asks the server for a peer's key.
pub fn pubkey_command(name: &str) -> (r: String)
    ensures
        r@ == "/pubkey "@ + name@,
{
    text::cat("/pubkey ", name)
}

/// What a server says where it cannot answer.
pub open spec fn refused(answer: Option<Seq<char>>) -> bool {
    answer is None || answer->0 == "ERR"@
}

/// Takes note of the key that the server gave for a peer, where it gave one.
pub fn accept_pubkey(
    known: &mut Table,
    tofu: &mut Table,
    evs: &mut Vec<Ev>,
    name: &str,
    answer: Option<String>,
) -> (r: Option<String>)
    ensures
        r is None <==> refused(crypto::text_in(answer)),
        r is Some ==> crypto::text_in(r) == crypto::text_in(answer),
        peers(*final(known), *final(tofu), final(evs)@) == (if r is Some {
            learn(peers(*old(known), *old(tofu), old(evs)@), name@, r->0@)
        } else {
            peers(*old(known), *old(tofu), old(evs)@)
        }),
{
    match answer {
        Some(key) => {
            if text::same(key.as_str(), "ERR") {
                None
            } else {
                note_key(known, tofu, evs, name, key.as_str());
                Some(key)
            }
        },
        None => None,
    }
}

/// The members of the room that the server gave, but for ourselves; takes note
/// of the keys of all of them.
pub fn room_targets(
    known: &mut Table,
    tofu: &mut Table,
    evs: &mut Vec<Ev>,
    answer: Option<String>,
    username: &str,
) -> (r: Vec<(String, String)>)
    ensures
        refused(crypto::text_in(answer)) ==> r@.len() == 0 && peers(
            *final(known),
            *final(tofu),
            final(evs)@,
        ) == peers(*old(known), *old(tofu), old(evs)@),
        !refused(crypto::text_in(answer)) ==> table::pairs(r@) == others(
            text::split_on(answer->0@, ';'),
            username@,
        ),
        !refused(crypto::text_in(answer)) ==> peers(*final(known), *final(tofu), final(evs)@)
            == learn_all(
            peers(*old(known), *old(tofu), old(evs)@),
            text::split_on(answer->0@, ';'),
        ),
{
    let mut r: Vec<(String, String)> = Vec::new();
    let list = match answer {
        Some(list) => list,
        None => return r,
    };
    if text::same(list.as_str(), "ERR") {
        return r;
    }
    let raw = text::split(list.as_str(), ';');
    let ghost items = text::split_on(list@, ';');
    let ghost start = peers(*known, *tofu, evs@);
    let mut i: usize = 0;
    assert(items.take(0) =~= Seq::empty());
    assert(table::pairs(r@) =~= Seq::empty());
    while i < raw.len()
        invariant
            i <= raw@.len(),
            items == text::views(raw@),
            peers(*known, *tofu, evs@) == learn_all(start, items.take(i as int)),
            table::pairs(r@) == others(items.take(i as int), username@),
        decreases raw@.len() - i,
    {
        assert(raw@[i as int]@ == items[i as int]);
        assert(items.take(i + 1).drop_last() =~= items.take(i as int));
        if let Some((name, key)) = parse_pair(raw[i].as_str()) {
            note_key(known, tofu, evs, name.as_str(), key.as_str());
            if !text::same(name.as_str(), username) {
                let ghost before = r@;
                let ghost nk = (name@, key@);
                r.push((name, key));
                assert(table::pairs(r@) =~= table::pairs(before).push(nk));
            }
        }
        i += 1;
    }
    assert(items.take(i as int) =~= items);
    r
}

/// Trusts the key that a peer has now. Gives its fingerprint, where a key of
/// the peer is known.
pub fn trust(known: &Table, tofu: &mut Table, name: &str) -> (r: Option<String>)
    ensures
        final(tofu)@ == trusted(known@, old(tofu)@, name@),
        r is Some <==> known@.contains_key(name@),
        r matches Some(fp) ==> fp@ == crypto::fingerprint_of(known@[name@]),
        final(tofu)@ == (if known@.contains_key(name@) {
            old(tofu)@.insert(name@, crypto::fingerprint_of(known@[name@]))
        } else {
            old(tofu)@
        }),
{
    match known.get(name) {
        Some(key) => {
            let fp = crypto::fingerprint(key.as_str());
            tofu.insert(name, fp.as_str());
            Some(fp)
        },
        None => None,
    }
}

/// Whatever keys the server sends, a fingerprint that is trusted stays as it
/// is, and the owner of every key that came is known and has a trusted one.
pub proof fn law_first_use_stays(p: PeersModel, items: Seq<Seq<char>>)
    ensures
        forall|n: Seq<char>| #[trigger]
            p.tofu.contains_key(n) ==> learn_all(p, items).tofu.contains_key(n) && learn_all(
                p,
                items,
            ).tofu[n] == p.tofu[n],
        forall|n: Seq<char>| #[trigger]
            p.known.contains_key(n) ==> learn_all(p, items).known.contains_key(n),
        forall|i: int|
            0 <= i < items.len() && pair_in(#[trigger] items[i]) is Some ==> learn_all(
                p,
                items,
            ).known.contains_key((pair_in(items[i])->0).0) && learn_all(p, items).tofu.contains_key(
                (pair_in(items[i])->0).0,
            ),
    decreases items.len(),
{
    if items.len() > 0 {
        law_first_use_stays(p, items.drop_last());
        assert forall|i: int|
            0 <= i < items.len() && pair_in(#[trigger] items[i]) is Some implies learn_all(
            p,
            items,
        ).known.contains_key((pair_in(items[i])->0).0) && learn_all(p, items).tofu.contains_key(
            (pair_in(items[i])->0).0,
        ) by {
            if i < items.len() - 1 {
                assert(items.drop_last()[i] == items[i]);
            }
        }
    }
}

/// A warning is reported of a key exactly where another fingerprint was
/// trusted for its owner before.
pub proof fn law_warned_iff_changed(p: PeersModel, name: Seq<char>, key: Seq<char>)
    ensures
        learn(p, name, key).evs.len() > p.evs.len() <==> p.tofu.contains_key(name) && p.tofu[name]
            != crypto::fingerprint_of(key),
        learn(p, name, key).evs.len() <= p.evs.len() + 1,
{
}

/// A key that was trusted by the user is not warned of again, and neither is
/// the first key of a peer when it comes again.
pub proof fn law_trusted_key_is_same(
    tofu: Map<Seq<char>, Seq<char>>,
    name: Seq<char>,
    key: Seq<char>,
)
    ensures
        tofu_status(tofu.insert(name, crypto::fingerprint_of(key)), name, crypto::fingerprint_of(key))
            == TofuStatus::Same,
        tofu_status(tofu, name, crypto::fingerprint_of(key)) == TofuStatus::New ==> tofu_status(
            tofu_after(tofu, name, crypto::fingerprint_of(key)),
            name,
            crypto::fingerprint_of(key),
        ) == TofuStatus::Same,
{
}

/// The item of a name and a key in a list.
pub open spec fn key_item(nk: (Seq<char>, Seq<char>)) -> Seq<char> {
    nk.0 + seq![':'] + nk.1
}

/// The items of names and keys.
pub open spec fn items_of(nks: Seq<(Seq<char>, Seq<char>)>) -> Seq<Seq<char>> {
    nks.map_values(|nk: (Seq<char>, Seq<char>)| key_item(nk))
}

/// Whether a name and a key can stand in a list.
pub open spec fn listable(nk: (Seq<char>, Seq<char>)) -> bool {
    &&& !nk.0.contains(':')
    &&& !nk.0.contains(';')
    &&& !nk.1.contains(';')
    &&& nk.0.len() > 0 ==> !text::is_white(nk.0[0]) && !text::is_white(nk.0[nk.0.len() - 1])
    &&& nk.1.len() > 0 ==> !text::is_white(nk.1[0]) && !text::is_white(nk.1[nk.1.len() - 1])
}

/// Whether names and keys can stand in a list.
pub open spec fn all_listable(nks: Seq<(Seq<char>, Seq<char>)>) -> bool {
    forall|i: int| 0 <= i < nks.len() ==> listable(#[trigger] nks[i])
}

/// An item is read as the text before its first colon and the text after it,
/// each without white space around it; without a colon it is none.
pub proof fn law_item_read(a: Seq<char>, b: Seq<char>)
    ensures
        !a.contains(':') ==> pair_in(a + seq![':'] + b) == Some(
            (text::trimmed(a), text::trimmed(b)),
        ),
        !a.contains(':') ==> pair_in(a) is None,
{
    if !a.contains(':') {
        let s = a + seq![':'] + b;
        text::lemma_index_of_is(s, ':', a.len() as int);
        assert(s.take(a.len() as int) =~= a);
        assert(s.skip(a.len() as int + 1) =~= b);
        text::lemma_index_of_is(a, ':', a.len() as int);
    }
}

pub proof fn lemma_item(nk: (Seq<char>, Seq<char>))
    requires
        listable(nk),
    ensures
        pair_in(key_item(nk)) == Some(nk),
        !key_item(nk).contains(';'),
        text::trimmed(key_item(nk)) == key_item(nk),
        text::index_of(key_item(nk), ':') == nk.0.len(),
        key_item(nk).len() == nk.0.len() + 1 + nk.1.len(),
        key_item(nk).take(nk.0.len() as int) == nk.0,
        key_item(nk).skip(nk.0.len() as int + 1) == nk.1,
{
    law_item_read(nk.0, nk.1);
    text::lemma_trimmed_same(nk.0);
    text::lemma_trimmed_same(nk.1);
    let s = key_item(nk);
    text::lemma_index_of_is(s, ':', nk.0.len() as int);
    assert(s.take(nk.0.len() as int) =~= nk.0);
    assert(s.skip(nk.0.len() as int + 1) =~= nk.1);
    if s.contains(';') {
        let i = choose|i: int| 0 <= i < s.len() && s[i] == ';';
        if i < nk.0.len() {
            assert(nk.0[i] == ';');
        } else if i > nk.0.len() {
            assert(nk.1[i - nk.0.len() - 1] == ';');
        }
    }
    assert(s[0] == (if nk.0.len() > 0 {
        nk.0[0]
    } else {
        ':'
    }));
    assert(s.last() == (if nk.1.len() > 0 {
        nk.1[nk.1.len() - 1]
    } else {
        ':'
    }));
    text::lemma_trimmed_same(s);
}

/// A list of names and keys that was written is read item by item.
pub proof fn lemma_list_items(nks: Seq<(Seq<char>, Seq<char>)>)
    requires
        nks.len() > 0,
        all_listable(nks),
    ensures
        text::split_on(text::joined(items_of(nks), seq![';']), ';') == items_of(nks),
        text::joined(items_of(nks), seq![';']).contains(':'),
        items_of(nks).map_values(|t: Seq<char>| text::trimmed(t)) == items_of(nks),
{
    let items = items_of(nks);
    assert forall|i: int| 0 <= i < items.len() implies !(#[trigger] items[i]).contains(';')
        && text::trimmed(items[i]) == items[i] by {
        assert(listable(nks[i]));
        lemma_item(nks[i]);
    }
    text::law_split_joined(items, ';');
    let s = text::joined(items, seq![';']);
    assert(items[0] == key_item(nks[0]));
    assert(items[0][nks[0].0.len() as int] == ':');
    if items.len() == 1 {
        assert(s == items[0]);
    } else {
        text::lemma_joined_first(items, seq![';']);
    }
    assert(s[nks[0].0.len() as int] == ':');
    assert(items.map_values(|t: Seq<char>| text::trimmed(t)) =~= items);
}

/// The names and keys that the server announces are all read.
pub proof fn law_announcement_read(nks: Seq<(Seq<char>, Seq<char>)>)
    requires
        nks.len() > 0,
        all_listable(nks),
    ensures
        key_items("[ПУБКЛЮЧИ]"@ + text::joined(items_of(nks), seq![';'])) == items_of(nks),
        key_items("[НОВЫЙ]"@ + text::joined(items_of(nks), seq![';'])) == items_of(nks),
{
    let list = text::joined(items_of(nks), seq![';']);
    lemma_list_items(nks);
    reveal_strlit("[ПУБКЛЮЧИ]");
    reveal_strlit("[НОВЫЙ]");
    let a = "[ПУБКЛЮЧИ]"@ + list;
    let b = "[НОВЫЙ]"@ + list;
    text::lemma_index_of_is(a, ']', 9);
    text::lemma_index_of_is(b, ']', 6);
    assert(a.skip(10) =~= list);
    assert(b.skip(7) =~= list);
}

/// After a list of keys, each name in it is known with the key that stands last
/// under that name, whatever was known of it before.
pub proof fn law_last_key_counts(p: PeersModel, nks: Seq<(Seq<char>, Seq<char>)>, i: int)
    requires
        all_listable(nks),
        0 <= i < nks.len(),
        forall|j: int| i < j < nks.len() ==> (#[trigger] nks[j]).0 != nks[i].0,
    ensures
        learn_all(p, items_of(nks)).known.contains_key(nks[i].0),
        learn_all(p, items_of(nks)).known[nks[i].0] == nks[i].1,
    decreases nks.len(),
{
    let d = nks.drop_last();
    assert(listable(nks.last()));
    lemma_item(nks.last());
    assert(items_of(nks).drop_last() =~= items_of(d));
    assert(items_of(nks).last() == key_item(nks.last()));
    if i < nks.len() - 1 {
        assert forall|j: int| 0 <= j < d.len() implies listable(#[trigger] d[j]) by {
            assert(d[j] == nks[j]);
        }
        assert forall|j: int| i < j < d.len() implies (#[trigger] d[j]).0 != d[i].0 by {
            assert(d[j] == nks[j]);
        }
        law_last_key_counts(p, d, i);
        assert(nks.last() == nks[nks.len() - 1]);
    }
}

/// A list of keys leaves what is known and trusted of the names that are not
/// in it.
pub proof fn law_other_names_keep(p: PeersModel, nks: Seq<(Seq<char>, Seq<char>)>, name: Seq<char>)
    requires
        all_listable(nks),
        forall|i: int| 0 <= i < nks.len() ==> (#[trigger] nks[i]).0 != name,
    ensures
        learn_all(p, items_of(nks)).known.contains_key(name) <==> p.known.contains_key(name),
        p.known.contains_key(name) ==> learn_all(p, items_of(nks)).known[name] == p.known[name],
        learn_all(p, items_of(nks)).tofu.contains_key(name) <==> p.tofu.contains_key(name),
        p.tofu.contains_key(name) ==> learn_all(p, items_of(nks)).tofu[name] == p.tofu[name],
    decreases nks.len(),
{
    if nks.len() > 0 {
        let d = nks.drop_last();
        assert(listable(nks.last()));
        assert(nks.last().0 != name);
        lemma_item(nks.last());
        assert(items_of(nks).drop_last() =~= items_of(d));
        assert forall|j: int| 0 <= j < d.len() implies listable(#[trigger] d[j]) && d[j].0
            != name by {
            assert(d[j] == nks[j]);
        }
        law_other_names_keep(p, d, name);
    } else {
        assert(items_of(nks) =~= Seq::empty());
    }
}

/// The first key that is seen of a name is the one that is trusted.
pub proof fn law_first_key_trusted(p: PeersModel, nks: Seq<(Seq<char>, Seq<char>)>, i: int)
    requires
        all_listable(nks),
        0 <= i < nks.len(),
        !p.tofu.contains_key(nks[i].0),
        forall|j: int| 0 <= j < i ==> (#[trigger] nks[j]).0 != nks[i].0,
    ensures
        learn_all(p, items_of(nks)).tofu.contains_key(nks[i].0),
        learn_all(p, items_of(nks)).tofu[nks[i].0] == crypto::fingerprint_of(nks[i].1),
    decreases nks.len(),
{
    let d = nks.drop_last();
    assert(listable(nks.last()));
    lemma_item(nks.last());
    assert(items_of(nks).drop_last() =~= items_of(d));
    assert forall|j: int| 0 <= j < d.len() implies listable(#[trigger] d[j]) by {
        assert(d[j] == nks[j]);
    }
    if i < nks.len() - 1 {
        assert forall|j: int| 0 <= j < i implies (#[trigger] d[j]).0 != d[i].0 by {
            assert(d[j] == nks[j]);
        }
        law_first_key_trusted(p, d, i);
    } else {
        assert forall|j: int| 0 <= j < d.len() implies (#[trigger] d[j]).0 != nks[i].0 by {
            assert(d[j] == nks[j]);
        }
        law_other_names_keep(p, d, nks[i].0);
    }
}

/// The user is warned of another key than the one that is trusted, in a text
/// that names the peer and both fingerprints; the key is known, the trusted
/// fingerprint stays. Of the trusted key, and of the first, nothing is said.
pub proof fn law_changed_key_warned(p: PeersModel, name: Seq<char>, key: Seq<char>)
    ensures
        ({
            let q = learn(p, name, key);
            let fp = crypto::fingerprint_of(key);
            &&& q.known.contains_key(name) && q.known[name] == key
            &&& p.tofu.contains_key(name) && p.tofu[name] != fp ==> q.tofu == p.tofu && exists|
                w: Seq<char>,
            |
                q.evs == p.evs.push(EvModel::Warn(w)) && #[trigger] text::has_piece(w, name)
                    && text::has_piece(w, p.tofu[name]) && text::has_piece(w, fp)
            &&& p.tofu.contains_key(name) && p.tofu[name] == fp ==> q.tofu == p.tofu && q.evs
                == p.evs
            &&& !p.tofu.contains_key(name) ==> q.tofu == p.tofu.insert(name, fp) && q.evs == p.evs
        }),
{
    let q = learn(p, name, key);
    let fp = crypto::fingerprint_of(key);
    assert(p.evs + Seq::empty() =~= p.evs);
    if p.tofu.contains_key(name) && p.tofu[name] != fp {
        let was = p.tofu[name];
        let w = warning_text(name, was, fp);
        assert(q.evs =~= p.evs.push(EvModel::Warn(w)));
        let a = "⚠ ВНИМАНИЕ! Публичный ключ '"@;
        let b = a + name + "' ИЗМЕНИЛСЯ! Был: "@;
        let c = b + was + " Стал: "@;
        let n = a.len() as int;
        let m = b.len() as int;
        let k = c.len() as int;
        assert(w.subrange(n, n + name.len()) =~= name);
        assert(w.subrange(m, m + was.len()) =~= was);
        assert(w.subrange(k, k + fp.len()) =~= fp);
        assert(text::has_piece(w, name));
    }
}

/// The members of a room are those in the list that the server gives, in order,
/// with their keys, but for ourselves.
pub proof fn law_members_but_us(nks: Seq<(Seq<char>, Seq<char>)>, me: Seq<char>)
    requires
        all_listable(nks),
    ensures
        others(items_of(nks), me) == nks.filter(|nk: (Seq<char>, Seq<char>)| nk.0 != me),
    decreases nks.len(),
{
    reveal(Seq::filter);
    if nks.len() > 0 {
        let d = nks.drop_last();
        assert(listable(nks.last()));
        lemma_item(nks.last());
        assert(items_of(nks).drop_last() =~= items_of(d));
        assert forall|j: int| 0 <= j < d.len() implies listable(#[trigger] d[j]) by {
            assert(d[j] == nks[j]);
        }
        law_members_but_us(d, me);
    }
}

/// The server refuses by saying "ERR", or nothing; a list of names and keys is
/// never taken for a refusal.
pub proof fn law_refusals(nks: Seq<(Seq<char>, Seq<char>)>)
    requires
        nks.len() > 0,
        all_listable(nks),
    ensures
        refused(None),
        refused(Some("ERR"@)),
        !refused(Some(text::joined(items_of(nks), seq![';']))),
        forall|answer: Seq<char>| answer != "ERR"@ ==> !#[trigger] refused(Some(answer)),
{
    lemma_list_items(nks);
    reveal_strlit("ERR");
}

/// The fingerprints trusted after the user trusts the key that a peer has now.
pub open spec fn trusted(
    known: Map<Seq<char>, Seq<char>>,
    tofu: Map<Seq<char>, Seq<char>>,
    name: Seq<char>,
) -> Map<Seq<char>, Seq<char>> {
    if known.contains_key(name) {
        tofu.insert(name, crypto::fingerprint_of(known[name]))
    } else {
        tofu
    }
}

/// Trusting a peer makes the key that is known of it the trusted one: of that
/// key no warning comes then. No other peer is concerned, and where no key is
/// known nothing changes.
pub proof fn law_trusted(
    known: Map<Seq<char>, Seq<char>>,
    tofu: Map<Seq<char>, Seq<char>>,
    name: Seq<char>,
    other: Seq<char>,
)
    requires
        other != name,
    ensures
        known.contains_key(name) ==> tofu_warnings(
            trusted(known, tofu, name),
            name,
            crypto::fingerprint_of(known[name]),
        ).len() == 0 && tofu_status(
            trusted(known, tofu, name),
            name,
            crypto::fingerprint_of(known[name]),
        ) == TofuStatus::Same,
        !known.contains_key(name) ==> trusted(known, tofu, name) == tofu,
        table::lookup(trusted(known, tofu, name), other) == table::lookup(tofu, other),
{
}

/// A key is new where none of its owner is trusted, the same where its
/// fingerprint is the trusted one, and changed where another is.
pub proof fn law_tofu_status(
    tofu: Map<Seq<char>, Seq<char>>,
    name: Seq<char>,
    fp: Seq<char>,
    other: Seq<char>,
)
    requires
        fp != other,
    ensures
        !tofu.contains_key(name) ==> tofu_status(tofu, name, fp) == TofuStatus::New,
        tofu_status(tofu.insert(name, fp), name, fp) == TofuStatus::Same,
        tofu_status(tofu.insert(name, other), name, fp) == TofuStatus::Changed,
        tofu_after(tofu.insert(name, other), name, fp) == tofu.insert(name, other),
        !tofu.contains_key(name) ==> tofu_after(tofu, name, fp) == tofu.insert(name, fp),
{
}

/// White space around the items of a list does not count, and neither does what
/// stands before the list in brackets.
pub proof fn law_padded_items(nks: Seq<(Seq<char>, Seq<char>)>)
    requires
        nks.len() > 0,
        all_listable(nks),
    ensures
        key_items(
            "[НОВЫЙ]"@ + text::joined(
                items_of(nks).map_values(|t: Seq<char>| seq![' '] + t + seq!['\n']),
                seq![';'],
            ),
        ) == items_of(nks),
{
    let items = items_of(nks);
    let pads = items.map_values(|t: Seq<char>| seq![' '] + t + seq!['\n']);
    assert forall|i: int| 0 <= i < pads.len() implies !(#[trigger] pads[i]).contains(';')
        && text::trimmed(pads[i]) == items[i] by {
        assert(listable(nks[i]));
        lemma_item(nks[i]);
        lemma_padded(nks[i]);
        let s = pads[i];
        if s.contains(';') {
            let k = choose|k: int| 0 <= k < s.len() && s[k] == ';';
            assert(items[i][k - 1] == ';');
        }
    }
    text::law_split_joined(pads, ';');
    let list = text::joined(pads, seq![';']);
    reveal_strlit("[НОВЫЙ]");
    let b = "[НОВЫЙ]"@ + list;
    text::lemma_index_of_is(b, ']', 6);
    assert(b.skip(7) =~= list);
    assert(key_items(b) =~= items);
}

proof fn lemma_padded(nk: (Seq<char>, Seq<char>))
    requires
        listable(nk),
    ensures
        text::trimmed(seq![' '] + key_item(nk) + seq!['\n']) == key_item(nk),
{
    let t = key_item(nk);
    let p = seq![' '] + t + seq!['\n'];
    let half = t + seq!['\n'];
    assert(t[0] == (if nk.0.len() > 0 {
        nk.0[0]
    } else {
        ':'
    }));
    assert(t.last() == (if nk.1.len() > 0 {
        nk.1[nk.1.len() - 1]
    } else {
        ':'
    }));
    assert(!text::is_white(t[0]) && !text::is_white(t.last()));
    assert(p.drop_first() =~= half);
    assert(half[0] == t[0]);
    assert(text::trim_front(half, text::Class::White) == half);
    assert(text::trim_front(p, text::Class::White) == half);
    assert(half.drop_last() =~= t);
    assert(text::trim_back(t, text::Class::White) == t);
    assert(text::trim_back(half, text::Class::White) == t);
}

/// A list that stands without a tag in brackets before it is read from its
/// beginning.
pub proof fn law_list_without_tag(nks: Seq<(Seq<char>, Seq<char>)>)
    requires
        nks.len() > 0,
        all_listable(nks),
        !text::joined(items_of(nks), seq![';']).contains(']'),
    ensures
        key_items(text::joined(items_of(nks), seq![';'])) == items_of(nks),
{
    let items = items_of(nks);
    let list = text::joined(items, seq![';']);
    assert forall|i: int| 0 <= i < items.len() implies !(#[trigger] items[i]).contains(';')
        && text::trimmed(items[i]) == items[i] by {
        assert(listable(nks[i]));
        lemma_item(nks[i]);
    }
    text::law_split_joined(items, ';');
    text::lemma_index_of(list, ']');
    assert(after_bracket(list) == list);
    assert(key_items(list) =~= items);
}

/// An item without a colon names no key: it is passed over, and so it adds no
/// member.
pub proof fn law_item_without_key(
    p: PeersModel,
    items: Seq<Seq<char>>,
    x: Seq<char>,
    me: Seq<char>,
)
    requires
        !x.contains(':'),
    ensures
        learn_all(p, items.push(x)) == learn_all(p, items),
        others(items.push(x), me) == others(items, me),
{
    text::lemma_index_of(x, ':');
    let all = items.push(x);
    assert(all.drop_last() =~= items);
    assert(all.last() == x);
}

} // verus!
