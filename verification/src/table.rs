//! A table from names to texts, which holds no name twice.

use crate::crypto;
use crate::text;
use vstd::prelude::*;

verus! {

/// The texts of a list of pairs.
pub open spec fn pairs(v: Seq<(String, String)>) -> Seq<(Seq<char>, Seq<char>)> {
    v.map_values(|p: (String, String)| (p.0@, p.1@))
}

/// The map that a list of pairs stands for: of two pairs with one name the
/// later counts.
pub open spec fn map_of(s: Seq<(Seq<char>, Seq<char>)>) -> Map<Seq<char>, Seq<char>>
    decreases s.len(),
{
    if s.len() == 0 {
        Map::empty()
    } else {
        map_of(s.drop_last()).insert(s.last().0, s.last().1)
    }
}

/// No name occurs twice.
pub open spec fn distinct(s: Seq<(Seq<char>, Seq<char>)>) -> bool {
    forall|i: int, j: int| 0 <= i < j < s.len() ==> s[i].0 != s[j].0
}

/// What a map holds under a name.
pub open spec fn lookup(m: Map<Seq<char>, Seq<char>>, name: Seq<char>) -> Option<Seq<char>> {
    if m.contains_key(name) {
        Some(m[name])
    } else {
        None
    }
}

proof fn lemma_map_of(s: Seq<(Seq<char>, Seq<char>)>)
    ensures
        forall|k: Seq<char>|
            #[trigger] map_of(s).contains_key(k) <==> exists|i: int|
                0 <= i < s.len() && #[trigger] s[i].0 == k,
        distinct(s) ==> forall|i: int|
            0 <= i < s.len() ==> #[trigger] map_of(s)[s[i].0] == s[i].1,
    decreases s.len(),
{
    if s.len() > 0 {
        let d = s.drop_last();
        lemma_map_of(d);
        assert forall|k: Seq<char>| #[trigger] map_of(s).contains_key(k) implies exists|i: int|
            0 <= i < s.len() && #[trigger] s[i].0 == k by {
            if k == s.last().0 {
                assert(s[s.len() - 1].0 == k);
            } else {
                assert(map_of(d).contains_key(k));
                let i = choose|i: int| 0 <= i < d.len() && #[trigger] d[i].0 == k;
                assert(s[i].0 == k);
            }
        }
        assert forall|k: Seq<char>|
            (exists|i: int| 0 <= i < s.len() && #[trigger] s[i].0 == k) implies #[trigger] map_of(
            s,
        ).contains_key(k) by {
            let i = choose|i: int| 0 <= i < s.len() && #[trigger] s[i].0 == k;
            if i < d.len() {
                assert(d[i].0 == k);
                assert(map_of(d).contains_key(k));
            }
        }
        if distinct(s) {
            assert(distinct(d)) by {
                assert forall|i: int, j: int| 0 <= i < j < d.len() implies d[i].0 != d[j].0 by {
                    assert(s[i].0 != s[j].0);
                }
            }
            assert forall|i: int| 0 <= i < s.len() implies #[trigger] map_of(s)[s[i].0]
                == s[i].1 by {
                if i < d.len() {
                    assert(d[i] == s[i]);
                    assert(s[i].0 != s[s.len() - 1].0);
                    assert(map_of(d)[d[i].0] == d[i].1);
                }
            }
        }
    }
}

proof fn lemma_map_of_update(s: Seq<(Seq<char>, Seq<char>)>, i: int, v: Seq<char>)
    requires
        0 <= i < s.len(),
        distinct(s),
    ensures
        distinct(s.update(i, (s[i].0, v))),
        map_of(s.update(i, (s[i].0, v))) == map_of(s).insert(s[i].0, v),
{
    let t = s.update(i, (s[i].0, v));
    assert forall|a: int, b: int| 0 <= a < b < t.len() implies t[a].0 != t[b].0 by {
        assert(s[a].0 != s[b].0);
    }
    lemma_map_of(s);
    lemma_map_of(t);
    let m = map_of(t);
    let n = map_of(s).insert(s[i].0, v);
    assert forall|k: Seq<char>| m.contains_key(k) == n.contains_key(k) by {
        if m.contains_key(k) {
            let j = choose|j: int| 0 <= j < t.len() && #[trigger] t[j].0 == k;
            assert(s[j].0 == k);
        }
        if n.contains_key(k) {
            if k == s[i].0 {
                assert(t[i].0 == k);
            } else {
                let j = choose|j: int| 0 <= j < s.len() && #[trigger] s[j].0 == k;
                assert(t[j].0 == k);
            }
        }
    }
    assert forall|k: Seq<char>| m.contains_key(k) implies m[k] == n[k] by {
        let j = choose|j: int| 0 <= j < t.len() && #[trigger] t[j].0 == k;
        assert(m[t[j].0] == t[j].1);
        if j != i {
            assert(s[j] == t[j]);
            assert(map_of(s)[s[j].0] == s[j].1);
            assert(s[j].0 != s[i].0) by {
                if j < i {
                    assert(s[j].0 != s[i].0);
                } else {
                    assert(s[i].0 != s[j].0);
                }
            }
        }
    }
    assert(m =~= n);
}

/// A table from names to texts.
pub struct Table {
    entries: Vec<(String, String)>,
}

impl View for Table {
    type V = Map<Seq<char>, Seq<char>>;

    closed spec fn view(&self) -> Map<Seq<char>, Seq<char>> {
        map_of(pairs(self.entries@))
    }
}

impl Table {
    #[verifier::type_invariant]
    closed spec fn names_distinct(self) -> bool {
        distinct(pairs(self.entries@))
    }

    /// A table without names.
    pub fn new() -> (r: Table)
        ensures
            r@ == Map::<Seq<char>, Seq<char>>::empty(),
    {
        let r = Table { entries: Vec::new() };
        r
    }

    /// Where a name stands in the table, or the number of entries.
    fn position(&self, name: &str) -> (r: usize)
        ensures
            r <= self.entries@.len(),
            r < self.entries@.len() ==> self.entries@[r as int].0@ == name@,
            forall|i: int| 0 <= i < r ==> self.entries@[i].0@ != name@,
            r == self.entries@.len() <==> !self@.contains_key(name@),
            r < self.entries@.len() ==> self@[name@] == self.entries@[r as int].1@,
    {
        proof {
            use_type_invariant(self);
            lemma_map_of(pairs(self.entries@));
        }
        let ghost ps = pairs(self.entries@);
        let mut i: usize = 0;
        while i < self.entries.len()
            invariant
                i <= self.entries@.len(),
                ps == pairs(self.entries@),
                distinct(ps),
                self@ == map_of(ps),
                forall|j: int| 0 <= j < i ==> self.entries@[j].0@ != name@,
                forall|k: Seq<char>|
                    #[trigger] map_of(ps).contains_key(k) <==> exists|i: int|
                        0 <= i < ps.len() && #[trigger] ps[i].0 == k,
                forall|i: int| 0 <= i < ps.len() ==> #[trigger] map_of(ps)[ps[i].0] == ps[i].1,
            decreases self.entries@.len() - i,
        {
            if text::same(self.entries[i].0.as_str(), name) {
                assert(ps[i as int].0 == name@);
                return i;
            }
            i += 1;
        }
        assert(!self@.contains_key(name@)) by {
            if self@.contains_key(name@) {
                let j = choose|j: int| 0 <= j < ps.len() && #[trigger] ps[j].0 == name@;
                assert(self.entries@[j].0@ == name@);
            }
        }
        i
    }

    /// What the table holds under a name.
    pub fn get(&self, name: &str) -> (r: Option<String>)
        ensures
            crypto::text_in(r) == lookup(self@, name@),
    {
        let i = self.position(name);
        if i < self.entries.len() {
            Some(self.entries[i].1.clone())
        } else {
            None
        }
    }

    /// Puts a text under a name, in place of what was there.
    pub fn insert(&mut self, name: &str, value: &str)
        ensures
            final(self)@ == old(self)@.insert(name@, value@),
    {
        let i = self.position(name);
        let mut entries: Vec<(String, String)> = Vec::new();
        proof {
            use_type_invariant(&*self);
            lemma_map_of(pairs(self.entries@));
        }
        std::mem::swap(&mut entries, &mut self.entries);
        let ghost before = pairs(entries@);
        let ghost es = entries@;
        let entry = (text::own(name), text::own(value));
        if i < entries.len() {
            entries.set(i, entry);
            proof {
                lemma_map_of_update(before, i as int, value@);
                assert(pairs(entries@) =~= before.update(i as int, (before[i as int].0, value@)));
            }
        } else {
            entries.push(entry);
            proof {
                let after = pairs(entries@);
                assert(after =~= before.push((name@, value@)));
                assert(after.drop_last() =~= before);
                assert forall|a: int, b: int| 0 <= a < b < after.len() implies after[a].0
                    != after[b].0 by {
                    if b < before.len() {
                        assert(before[a].0 != before[b].0);
                    } else {
                        assert(es[a].0@ != name@);
                    }
                }
            }
        }
        self.entries = entries;
    }

    /// The names with what the table holds under them, no name twice.
    pub fn entries(&self) -> (r: &Vec<(String, String)>)
        ensures
            distinct(pairs(r@)),
            map_of(pairs(r@)) == self@,
    {
        proof {
            use_type_invariant(self);
        }
        &self.entries
    }
}

/// What was put under a name is found under it, and under no other; the later of
/// two texts under one name counts.
pub proof fn law_lookup(
    m: Map<Seq<char>, Seq<char>>,
    name: Seq<char>,
    value: Seq<char>,
    other: Seq<char>,
)
    requires
        other != name,
    ensures
        lookup(m.insert(name, value), name) == Some(value),
        lookup(m.insert(name, value), other) == lookup(m, other),
        lookup(Map::empty(), name) is None,
        m.contains_key(name) ==> lookup(m, name) == Some(m[name]),
{
}

/// Pairs stand for what they say: each name for the text that stands last under
/// it, and for nothing else.
pub proof fn law_pairs_read(s: Seq<(Seq<char>, Seq<char>)>, i: int, name: Seq<char>)
    ensures
        0 <= i < s.len() && (forall|j: int| i < j < s.len() ==> (#[trigger] s[j]).0 != s[i].0)
            ==> lookup(map_of(s), s[i].0) == Some(s[i].1),
        (forall|j: int| 0 <= j < s.len() ==> (#[trigger] s[j]).0 != name) ==> lookup(
            map_of(s),
            name,
        ) is None,
    decreases s.len(),
{
    if s.len() > 0 {
        let d = s.drop_last();
        law_pairs_read(d, i, name);
        if 0 <= i < s.len() - 1 && (forall|j: int| i < j < s.len() ==> (#[trigger] s[j]).0
            != s[i].0) {
            assert(s[s.len() - 1].0 != s[i].0);
            assert forall|j: int| i < j < d.len() implies (#[trigger] d[j]).0 != d[i].0 by {
                assert(s[j].0 != s[i].0);
            }
        }
        if forall|j: int| 0 <= j < s.len() ==> (#[trigger] s[j]).0 != name {
            assert(s[s.len() - 1].0 != name);
            assert forall|j: int| 0 <= j < d.len() implies (#[trigger] d[j]).0 != name by {
                assert(s[j].0 != name);
            }
        }
    }
}

} // verus!
