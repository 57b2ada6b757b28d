//! Where the server is, and the accounts that are kept for a quick login.

use crate::crypto;
use crate::text;
use vstd::prelude::*;

verus! {

/// What a configuration file says of the server.
pub struct ServerConfig {
    pub host: Option<String>,
    pub port: Option<u16>,
}

/// The first of several files that could be read, if any.
pub open spec fn first_read(files: Seq<Option<ServerConfig>>) -> Option<ServerConfig>
    decreases files.len(),
{
    if files.len() == 0 {
        None
    } else if files[0] is Some {
        files[0]
    } else {
        first_read(files.drop_first())
    }
}

/// A text that was given, unless it is empty; else another.
pub open spec fn given_or(given: Option<Seq<char>>, other: Seq<char>) -> Seq<char> {
    if given is Some && given->0.len() > 0 {
        given->0
    } else {
        other
    }
}

/// The host in what a file says.
pub open spec fn host_in(cfg: Option<ServerConfig>) -> Option<Seq<char>> {
    match cfg {
        Some(c) => crypto::text_in(c.host),
        None => None,
    }
}

/// The port in what a file says, where it is not zero.
pub open spec fn port_in(cfg: Option<ServerConfig>) -> Option<Seq<char>> {
    match cfg {
        Some(c) => match c.port {
            Some(p) => if p > 0 {
                Some(text::decimal(p as nat))
            } else {
                None
            },
            None => None,
        },
        None => None,
    }
}

/// The text that was given, unless it is empty; else the other.
fn prefer(given: Option<String>, other: String) -> (r: String)
    ensures
        r@ == given_or(crypto::text_in(given), other@),
{
    if let Some(g) = given {
        if !g.as_str().is_empty() {
            return g;
        }
    }
    other
}

/// The host and the port of the server: what the environment says, else what
/// the first configuration file that could be read says, else those of a
/// server on this machine.
pub fn load_config(
    files: &Vec<Option<ServerConfig>>,
    env_host: Option<String>,
    env_port: Option<String>,
) -> (r: (String, String))
    ensures
        r.0@ == host_for(files@, crypto::text_in(env_host)),
        r.1@ == port_for(files@, crypto::text_in(env_port)),
        r.0@ == given_or(
            crypto::text_in(env_host),
            given_or(host_in(first_read(files@)), "127.0.0.1"@),
        ),
        r.1@ == given_or(
            crypto::text_in(env_port),
            given_or(port_in(first_read(files@)), "1301"@),
        ),
{
    let mut host = text::own("127.0.0.1");
    let mut port = text::own("1301");
    let mut i: usize = 0;
    assert(files@.skip(0) =~= files@);
    while i < files.len() && files[i].is_none()
        invariant
            i <= files@.len(),
            first_read(files@.skip(i as int)) == first_read(files@),
        decreases files@.len() - i,
    {
        assert(files@.skip(i as int).drop_first() =~= files@.skip(i + 1));
        i += 1;
    }
    if i < files.len() {
        if let Some(c) = &files[i] {
            if let Some(h) = &c.host {
                host = prefer(Some(h.clone()), host);
            }
            if let Some(p) = c.port {
                if p > 0 {
                    port = text::number(p as u64);
                    proof {
                        lemma_decimal_len(p as nat);
                    }
                }
            }
        }
    }
    (prefer(env_host, host), prefer(env_port, port))
}

proof fn lemma_decimal_len(n: nat)
    ensures
        text::decimal(n).len() > 0,
{
}

/// An account that is kept for a quick login.
pub struct SavedAccount {
    pub username: String,
    pub password: String,
    pub host: String,
    pub port: String,
}

/// The texts of a `SavedAccount`.
pub struct AccountModel {
    pub username: Seq<char>,
    pub password: Seq<char>,
    pub host: Seq<char>,
    pub port: Seq<char>,
}

impl View for SavedAccount {
    type V = AccountModel;

    open spec fn view(&self) -> AccountModel {
        AccountModel {
            username: self.username@,
            password: self.password@,
            host: self.host@,
            port: self.port@,
        }
    }
}

/// The texts of a list of accounts.
pub open spec fn account_views(v: Seq<SavedAccount>) -> Seq<AccountModel> {
    v.map_values(|a: SavedAccount| a@)
}

/// The most accounts that are kept.
pub const ACCOUNTS_MAX: usize = 10;

/// Whether two accounts are of the same user on the same server.
pub open spec fn same_account(a: AccountModel, b: AccountModel) -> bool {
    a.username == b.username && a.host == b.host && a.port == b.port
}

/// The accounts but for those of one user on one server.
pub open spec fn without(s: Seq<AccountModel>, acc: AccountModel) -> Seq<AccountModel>
    decreases s.len(),
{
    if s.len() == 0 {
        s
    } else {
        let before = without(s.drop_last(), acc);
        if same_account(s.last(), acc) {
            before
        } else {
            before.push(s.last())
        }
    }
}

/// The accounts after one was used: it stands first, and once; the last go
/// where there are too many.
pub open spec fn accounts_with(s: Seq<AccountModel>, acc: AccountModel) -> Seq<AccountModel> {
    let all = seq![acc] + without(s, acc);
    if all.len() > ACCOUNTS_MAX {
        all.take(ACCOUNTS_MAX as int)
    } else {
        all
    }
}

/// Whether no user on a server occurs twice.
pub open spec fn no_twice(s: Seq<AccountModel>) -> bool {
    forall|i: int, j: int| 0 <= i < j < s.len() ==> !same_account(#[trigger] s[i], #[trigger] s[j])
}

impl SavedAccount {
    /// Whether two accounts are of the same user on the same server.
    pub fn same_as(&self, other: &SavedAccount) -> (r: bool)
        ensures
            r == same_account(self@, other@),
    {
        text::same(self.username.as_str(), other.username.as_str()) && text::same(
            self.host.as_str(),
            other.host.as_str(),
        ) && text::same(self.port.as_str(), other.port.as_str())
    }
}

impl Clone for SavedAccount {
    fn clone(&self) -> (r: SavedAccount)
        ensures
            r@ == self@,
    {
        SavedAccount {
            username: self.username.clone(),
            password: self.password.clone(),
            host: self.host.clone(),
            port: self.port.clone(),
        }
    }
}

/// Puts an account first in the list of those that are kept.
pub fn save_account(accounts: Vec<SavedAccount>, acc: &SavedAccount) -> (r: Vec<SavedAccount>)
    ensures
        account_views(r@) == accounts_with(account_views(accounts@), acc@),
{
    let mut r: Vec<SavedAccount> = Vec::new();
    let ghost all = account_views(accounts@);
    r.push(acc.clone());
    let mut i: usize = 0;
    assert(all.take(0) =~= Seq::empty());
    assert(account_views(r@) =~= seq![acc@] + without(all.take(0), acc@));
    while i < accounts.len()
        invariant
            i <= accounts@.len(),
            all == account_views(accounts@),
            account_views(r@) == seq![acc@] + without(all.take(i as int), acc@),
        decreases accounts@.len() - i,
    {
        assert(all.take(i + 1).drop_last() =~= all.take(i as int));
        if !accounts[i].same_as(acc) {
            let ghost before = r@;
            r.push(accounts[i].clone());
            assert(account_views(r@) =~= account_views(before).push(all[i as int]));
        }
        i += 1;
    }
    assert(all.take(i as int) =~= all);
    if r.len() > ACCOUNTS_MAX {
        let ghost before = r@;
        r.truncate(ACCOUNTS_MAX);
        assert(account_views(r@) =~= account_views(before).take(ACCOUNTS_MAX as int));
    }
    r
}

proof fn lemma_without(s: Seq<AccountModel>, acc: AccountModel)
    ensures
        forall|i: int|
            0 <= i < without(s, acc).len() ==> !same_account(#[trigger] without(s, acc)[i], acc)
                && s.contains(without(s, acc)[i]),
        no_twice(s) ==> no_twice(without(s, acc)),
    decreases s.len(),
{
    if s.len() > 0 {
        let d = s.drop_last();
        lemma_without(d, acc);
        let w = without(s, acc);
        let v = without(d, acc);
        assert forall|i: int| 0 <= i < w.len() implies !same_account(#[trigger] w[i], acc)
            && s.contains(w[i]) by {
            if i < v.len() {
                assert(v[i] == w[i]);
                let k = choose|k: int| 0 <= k < d.len() && d[k] == v[i];
                assert(s[k] == w[i]);
            } else {
                assert(s[s.len() - 1] == w[i]);
            }
        }
        if no_twice(s) {
            assert(no_twice(d)) by {
                assert forall|i: int, j: int| 0 <= i < j < d.len() implies !same_account(
                    #[trigger] d[i],
                    #[trigger] d[j],
                ) by {
                    assert(!same_account(s[i], s[j]));
                }
            }
            assert forall|i: int, j: int| 0 <= i < j < w.len() implies !same_account(
                #[trigger] w[i],
                #[trigger] w[j],
            ) by {
                assert(v[i] == w[i]);
                if j < v.len() {
                    assert(v[j] == w[j]);
                } else {
                    let k = choose|k: int| 0 <= k < d.len() && d[k] == v[i];
                    assert(s[k] == w[i] && s[s.len() - 1] == w[j]);
                }
            }
        }
    }
}

/// After an account was used, it stands first; no more than `ACCOUNTS_MAX` are
/// kept, and where none occurred twice, none does.
pub proof fn law_accounts_kept(s: Seq<AccountModel>, acc: AccountModel)
    ensures
        accounts_with(s, acc).len() <= ACCOUNTS_MAX,
        accounts_with(s, acc)[0] == acc,
        no_twice(s) ==> no_twice(accounts_with(s, acc)),
{
    lemma_without(s, acc);
    let w = without(s, acc);
    let r = accounts_with(s, acc);
    if no_twice(s) {
        assert forall|i: int, j: int| 0 <= i < j < r.len() implies !same_account(
            #[trigger] r[i],
            #[trigger] r[j],
        ) by {
            assert(r[j] == w[j - 1]);
            if i > 0 {
                assert(r[i] == w[i - 1]);
            }
        }
    }
}

/// After an account was used, it stands first, and every other one that was
/// kept stands after it in the order in which they stood: only entries that
/// have its username, its host and its port go. Ten are kept.
pub proof fn law_other_accounts_stay(s: Seq<AccountModel>, acc: AccountModel)
    ensures
        ({
            let r = accounts_with(s, acc);
            let others = s.filter(
                |b: AccountModel|
                    b.username != acc.username || b.host != acc.host || b.port != acc.port,
            );
            &&& r.len() > 0 && r[0] == acc
            &&& others.len() < 10 ==> r == seq![acc] + others
            &&& others.len() >= 10 ==> r == seq![acc] + others.take(9)
        }),
        forall|i: int|
            0 <= i < s.len() < 10 && ((#[trigger] s[i]).username != acc.username || s[i].host
                != acc.host || s[i].port != acc.port) ==> accounts_with(s, acc).contains(s[i]),
{
    let f = |b: AccountModel|
        b.username != acc.username || b.host != acc.host || b.port != acc.port;
    lemma_without_filter(s, acc);
    let r = accounts_with(s, acc);
    let others = s.filter(f);
    assert(without(s, acc) == others);
    let all = seq![acc] + others;
    if others.len() >= 10 {
        assert(r =~= seq![acc] + others.take(9));
    }
    s.lemma_filter_len(f);
    assert forall|i: int|
        0 <= i < s.len() < 10 && ((#[trigger] s[i]).username != acc.username || s[i].host
            != acc.host || s[i].port != acc.port) implies r.contains(s[i]) by {
        lemma_filtered_stays(s, f, i);
        let k = choose|k: int| 0 <= k < others.len() && others[k] == s[i];
        assert(r[k + 1] == s[i]);
    }
}

proof fn lemma_filtered_stays(s: Seq<AccountModel>, f: spec_fn(AccountModel) -> bool, i: int)
    requires
        0 <= i < s.len(),
        f(s[i]),
    ensures
        s.filter(f).contains(s[i]),
    decreases s.len(),
{
    reveal(Seq::filter);
    let d = s.drop_last();
    let r = s.filter(f);
    if i == s.len() - 1 {
        assert(r == d.filter(f).push(s[i]));
        assert(r[r.len() - 1] == s[i]);
    } else {
        assert(d[i] == s[i]);
        lemma_filtered_stays(d, f, i);
        let k = choose|k: int| 0 <= k < d.filter(f).len() && d.filter(f)[k] == s[i];
        assert(r[k] == s[i]);
    }
}

proof fn lemma_without_filter(s: Seq<AccountModel>, acc: AccountModel)
    ensures
        without(s, acc) == s.filter(
            |b: AccountModel|
                b.username != acc.username || b.host != acc.host || b.port != acc.port,
        ),
    decreases s.len(),
{
    reveal(Seq::filter);
    if s.len() > 0 {
        lemma_without_filter(s.drop_last(), acc);
    }
}

/// What the environment says of the server counts, where it says something;
/// else what the first file that could be read says; else the server is on
/// this machine. A port of zero in a file is none.
pub proof fn law_server_chosen(
    env: Seq<char>,
    files: Seq<Option<ServerConfig>>,
    host: String,
    port: u16,
    other: Seq<char>,
)
    requires
        env.len() > 0,
        host@.len() > 0,
    ensures
        given_or(Some(env), other) == env,
        given_or(Some(Seq::empty()), other) == other,
        given_or(None, other) == other,
        first_read(files) is None <==> forall|i: int|
            0 <= i < files.len() ==> #[trigger] files[i] is None,
        forall|i: int|
            0 <= i < files.len() && (#[trigger] files[i]) is Some && (forall|j: int|
                0 <= j < i ==> #[trigger] files[j] is None) ==> first_read(files) == files[i],
        host_in(Some(ServerConfig { host: Some(host), port: None })) == Some(host@),
        host_in(Some(ServerConfig { host: Some(host), port: Some(port) })) == Some(host@),
        host_in(Some(ServerConfig { host: None, port: Some(port) })) is None,
        port_in(Some(ServerConfig { host: None, port: Some(0) })) is None,
        port_in(Some(ServerConfig { host: Some(host), port: None })) is None,
        port > 0 ==> text::value_of(
            port_in(Some(ServerConfig { host: Some(host), port: Some(port) }))->0,
        ) == port && port_in(Some(ServerConfig { host: Some(host), port: Some(port) })) is Some,
{
    lemma_first_read(files);
    text::law_decimal(port as nat);
}

proof fn lemma_first_read(files: Seq<Option<ServerConfig>>)
    ensures
        first_read(files) is None <==> forall|i: int|
            0 <= i < files.len() ==> #[trigger] files[i] is None,
        forall|i: int|
            0 <= i < files.len() && (#[trigger] files[i]) is Some && (forall|j: int|
                0 <= j < i ==> #[trigger] files[j] is None) ==> first_read(files) == files[i],
    decreases files.len(),
{
    if files.len() > 0 {
        let d = files.drop_first();
        lemma_first_read(d);
        assert forall|i: int|
            0 <= i < files.len() && (#[trigger] files[i]) is Some && (forall|j: int|
                0 <= j < i ==> #[trigger] files[j] is None) implies first_read(files)
            == files[i] by {
            if i > 0 {
                assert(files[0] is None);
                assert(d[i - 1] == files[i]);
                assert forall|j: int| 0 <= j < i - 1 implies #[trigger] d[j] is None by {
                    assert(files[j + 1] is None);
                }
            }
        }
        if first_read(files) is None {
            assert forall|i: int| 0 <= i < files.len() implies #[trigger] files[i] is None by {
                if i > 0 {
                    assert(d[i - 1] == files[i]);
                }
            }
        }
        if forall|i: int| 0 <= i < files.len() ==> #[trigger] files[i] is None {
            assert(files[0] is None);
            assert forall|i: int| 0 <= i < d.len() implies #[trigger] d[i] is None by {
                assert(files[i + 1] is None);
            }
        }
    }
}

/// The host of the server.
pub open spec fn host_for(files: Seq<Option<ServerConfig>>, env: Option<Seq<char>>) -> Seq<char> {
    given_or(env, given_or(host_in(first_read(files)), "127.0.0.1"@))
}

/// The port of the server.
pub open spec fn port_for(files: Seq<Option<ServerConfig>>, env: Option<Seq<char>>) -> Seq<char> {
    given_or(env, given_or(port_in(first_read(files)), "1301"@))
}

/// The environment counts before the files, and these before the server on this
/// machine; of the files the first that could be read counts, and no other, even
/// where it does not name the server.
pub proof fn law_server_found(
    files: Seq<Option<ServerConfig>>,
    i: int,
    env: Seq<char>,
)
    requires
        env.len() > 0,
        0 <= i <= files.len(),
        forall|j: int| 0 <= j < i ==> #[trigger] files[j] is None,
        i < files.len() ==> files[i] is Some,
    ensures
        host_for(files, Some(env)) == env,
        port_for(files, Some(env)) == env,
        i == files.len() ==> host_for(files, None) == "127.0.0.1"@ && port_for(files, None)
            == "1301"@,
        i < files.len() ==> ({
            let c = files[i]->0;
            &&& c.host matches Some(h) ==> h@.len() > 0 ==> host_for(files, None) == h@
            &&& c.host matches Some(h) ==> h@.len() == 0 ==> host_for(files, None) == "127.0.0.1"@
            &&& c.host is None ==> host_for(files, None) == "127.0.0.1"@
            &&& c.port matches Some(p) ==> p > 0 ==> text::value_of(port_for(files, None)) == p
            &&& c.port matches Some(p) ==> p == 0 ==> port_for(files, None) == "1301"@
            &&& c.port is None ==> port_for(files, None) == "1301"@
        }),
        host_for(files, Some(Seq::empty())) == host_for(files, None),
        port_for(files, Some(Seq::empty())) == port_for(files, None),
{
    lemma_first_read(files);
    if i < files.len() {
        assert(first_read(files) == files[i]);
        if let Some(p) = files[i]->0.port {
            text::law_decimal(p as nat);
        }
    } else {
        assert(first_read(files) is None);
    }
}

} // verus!
