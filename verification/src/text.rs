//! Plain text: the model of a string is its sequence of characters.
//!
//! Everything the messenger parses or prints goes through the functions of
//! this module, which say what they return over `Seq<char>`.

use vstd::prelude::*;

verus! {

/// `String::push` of std: the character goes to the end of the string.
pub assume_specification[ String::push ](s: &mut String, c: char)
    ensures
        final(s)@ == old(s)@.push(c),
;

/// `str::to_lowercase` of std applied to a text.
pub uninterp spec fn lowercase(s: Seq<char>) -> Seq<char>;

/// `char::to_uppercase` of std: the characters that stand for one in upper case.
pub uninterp spec fn uppercase(c: char) -> Seq<char>;

/// `String::from_utf8_lossy` of std applied to bytes that are not UTF-8.
pub uninterp spec fn utf8_lossy(bytes: Seq<u8>) -> Seq<char>;

/// Wraps `str::to_lowercase`. Nothing is claimed of the result but that it
/// depends on the text alone.
#[verifier::external_body]
pub(crate) fn to_lowercase(s: &str) -> (r: String)
    ensures
        r@ == lowercase(s@),
{
    s.to_lowercase()
}

/// Wraps `char::to_uppercase`, the characters it yields collected into a
/// string. Nothing is claimed of them but that they depend on `c` alone.
#[verifier::external_body]
pub(crate) fn to_uppercase(c: char) -> (r: String)
    ensures
        r@ == uppercase(c),
{
    c.to_uppercase().to_string()
}

/// Wraps `String::from_utf8_lossy`: bytes that are UTF-8 are decoded as such;
/// of other bytes nothing is claimed but that the result depends on them alone.
#[verifier::external_body]
pub(crate) fn from_utf8_lossy(bytes: &[u8]) -> (r: String)
    ensures
        vstd::utf8::valid_utf8(bytes@) ==> r@ == vstd::utf8::decode_utf8(bytes@),
        !vstd::utf8::valid_utf8(bytes@) ==> r@ == utf8_lossy(bytes@),
{
    String::from_utf8_lossy(bytes).to_string()
}

/// Wraps `String::from_utf8`: succeeds exactly on UTF-8, and then decodes it.
#[verifier::external_body]
pub(crate) fn from_utf8(bytes: Vec<u8>) -> (r: Option<String>)
    ensures
        r is Some <==> vstd::utf8::valid_utf8(bytes@),
        r matches Some(s) ==> s@ == vstd::utf8::decode_utf8(bytes@),
{
    String::from_utf8(bytes).ok()
}

/// The text that bytes stand for, whatever they are.
pub open spec fn lossy(bytes: Seq<u8>) -> Seq<char> {
    if vstd::utf8::valid_utf8(bytes) {
        vstd::utf8::decode_utf8(bytes)
    } else {
        utf8_lossy(bytes)
    }
}

/// The characters with the Unicode property White_Space.
pub open spec fn is_white(c: char) -> bool {
    let u = c as u32;
    ||| 0x9 <= u <= 0xd
    ||| u == 0x20
    ||| u == 0x85
    ||| u == 0xa0
    ||| u == 0x1680
    ||| 0x2000 <= u <= 0x200a
    ||| u == 0x2028
    ||| u == 0x2029
    ||| u == 0x202f
    ||| u == 0x205f
    ||| u == 0x3000
}

/// Whether a character is white space.
pub fn white(c: char) -> (r: bool)
    ensures
        r == is_white(c),
{
    let u: u32 = c as u32;
    (0x9 <= u && u <= 0xd) || u == 0x20 || u == 0x85 || u == 0xa0 || u == 0x1680 || (0x2000 <= u && u
        <= 0x200a) || u == 0x2028 || u == 0x2029 || u == 0x202f || u == 0x205f || u == 0x3000
}

/// A set of characters that is trimmed off a text.
#[derive(Clone, Copy)]
pub enum Class {
    /// White space.
    White,
    /// One character.
    Only(char),
    /// The marks that stand before the name of a chat.
    Sigil,
}

/// Whether `c` belongs to the class.
pub open spec fn in_class(k: Class, c: char) -> bool {
    match k {
        Class::White => is_white(c),
        Class::Only(x) => c == x,
        Class::Sigil => c == '#' || c == '@' || c == '\u{1f464}' || c == '\u{1f4e1}',
    }
}

impl Class {
    /// Whether the class holds a character.
    pub fn has(&self, c: char) -> (r: bool)
        ensures
            r == in_class(*self, c),
    {
        match *self {
            Class::White => white(c),
            Class::Only(x) => c == x,
            Class::Sigil => c == '#' || c == '@' || c == '\u{1f464}' || c == '\u{1f4e1}',
        }
    }
}

/// `s` without the leading characters of a class.
pub open spec fn trim_front(s: Seq<char>, k: Class) -> Seq<char>
    decreases s.len(),
{
    if s.len() > 0 && in_class(k, s[0]) {
        trim_front(s.drop_first(), k)
    } else {
        s
    }
}

/// `s` without the trailing characters of a class.
pub open spec fn trim_back(s: Seq<char>, k: Class) -> Seq<char>
    decreases s.len(),
{
    if s.len() > 0 && in_class(k, s.last()) {
        trim_back(s.drop_last(), k)
    } else {
        s
    }
}

/// `s` without white space at either end.
pub open spec fn trimmed(s: Seq<char>) -> Seq<char> {
    trim_back(trim_front(s, Class::White), Class::White)
}

/// The first position of `x` in `s`, or the length of `s` where it is absent.
pub open spec fn index_of<T>(s: Seq<T>, x: T) -> int
    decreases s.len(),
{
    if s.len() == 0 || s[0] == x {
        0
    } else {
        1 + index_of(s.drop_first(), x)
    }
}

/// The pieces of `s` between the separators: one more than there are of them.
pub open spec fn split_on<T>(s: Seq<T>, sep: T) -> Seq<Seq<T>>
    decreases s.len(),
{
    let i = index_of(s, sep);
    if 0 <= i < s.len() {
        seq![s.take(i)] + split_on(s.skip(i + 1), sep)
    } else {
        seq![s]
    }
}

/// The pieces of `s` up to `n` of them, the last holding all that is left.
pub open spec fn split_at_most<T>(s: Seq<T>, sep: T, n: nat) -> Seq<Seq<T>>
    decreases n,
{
    let i = index_of(s, sep);
    if n > 1 && 0 <= i < s.len() {
        seq![s.take(i)] + split_at_most(s.skip(i + 1), sep, (n - 1) as nat)
    } else {
        seq![s]
    }
}

/// The length of the part of `s` before its first white space.
pub open spec fn word_len(s: Seq<char>) -> int
    decreases s.len(),
{
    if s.len() == 0 || is_white(s[0]) {
        0
    } else {
        1 + word_len(s.drop_first())
    }
}

/// The words of `s`: the longest pieces without white space.
pub open spec fn words(s: Seq<char>) -> Seq<Seq<char>>
    decreases s.len(),
    via words_decreases
{
    let t = trim_front(s, Class::White);
    if t.len() == 0 {
        Seq::empty()
    } else {
        seq![t.take(word_len(t))] + words(t.skip(word_len(t)))
    }
}

#[via_fn]
proof fn words_decreases(s: Seq<char>) {
    lemma_trim_front_suffix(s, Class::White);
    let t = trim_front(s, Class::White);
    lemma_word_len_bounds(t);
    if t.len() > 0 {
        lemma_trim_front_head(s, Class::White);
    }
}

/// Whether `p` occurs in `s` as a contiguous piece.
pub open spec fn has_piece(s: Seq<char>, p: Seq<char>) -> bool {
    exists|i: int| 0 <= i <= s.len() - p.len() && #[trigger] s.subrange(i, i + p.len()) == p
}

/// `s` with every `c` replaced by `with`.
pub open spec fn replaced(s: Seq<char>, c: char, with: Seq<char>) -> Seq<char>
    decreases s.len(),
{
    if s.len() == 0 {
        s
    } else {
        replaced(s.drop_last(), c, with) + (if s.last() == c {
            with
        } else {
            seq![s.last()]
        })
    }
}

/// The texts of a list of strings.
pub open spec fn views(v: Seq<String>) -> Seq<Seq<char>> {
    v.map_values(|s: String| s@)
}

/// The pieces joined, with `sep` between each two of them.
pub open spec fn joined(parts: Seq<Seq<char>>, sep: Seq<char>) -> Seq<char>
    decreases parts.len(),
{
    if parts.len() == 0 {
        Seq::empty()
    } else if parts.len() == 1 {
        parts[0]
    } else {
        joined(parts.drop_last(), sep) + sep + parts.last()
    }
}

/// The decimal digits of a number, without leading zeros.
pub open spec fn decimal(n: nat) -> Seq<char>
    decreases n,
{
    if n < 10 {
        seq![digit(n)]
    } else {
        decimal(n / 10).push(digit(n % 10))
    }
}

/// The character of one decimal digit.
pub open spec fn digit(n: nat) -> char {
    (('0' as u32) + n) as char
}

pub proof fn lemma_trim_front_suffix(s: Seq<char>, k: Class)
    ensures
        trim_front(s, k).len() <= s.len(),
        trim_front(s, k) == s.skip(s.len() - trim_front(s, k).len()),
    decreases s.len(),
{
    if s.len() > 0 && in_class(k, s[0]) {
        lemma_trim_front_suffix(s.drop_first(), k);
        let n = trim_front(s, k).len();
        assert(s.drop_first().skip(s.len() - 1 - n) =~= s.skip(s.len() - n));
    } else {
        assert(s.skip(0) =~= s);
    }
}

pub proof fn lemma_trim_front_head(s: Seq<char>, k: Class)
    ensures
        trim_front(s, k).len() > 0 ==> !in_class(k, trim_front(s, k)[0]),
    decreases s.len(),
{
    if s.len() > 0 && in_class(k, s[0]) {
        lemma_trim_front_head(s.drop_first(), k);
    }
}

pub proof fn lemma_word_len_bounds(s: Seq<char>)
    ensures
        0 <= word_len(s) <= s.len(),
        s.len() > 0 && !is_white(s[0]) ==> word_len(s) >= 1,
    decreases s.len(),
{
    if s.len() > 0 && !is_white(s[0]) {
        lemma_word_len_bounds(s.drop_first());
    }
}

pub proof fn lemma_index_of<T>(s: Seq<T>, x: T)
    ensures
        0 <= index_of(s, x) <= s.len(),
        index_of(s, x) < s.len() ==> s[index_of(s, x)] == x,
        forall|i: int| 0 <= i < index_of(s, x) ==> s[i] != x,
    decreases s.len(),
{
    if s.len() > 0 && s[0] != x {
        lemma_index_of(s.drop_first(), x);
        let d = s.drop_first();
        assert forall|i: int| 0 <= i < index_of(s, x) implies s[i] != x by {
            if i > 0 {
                assert(d[i - 1] == s[i]);
            }
        }
    }
}

/// The position found by a search is the one with no earlier occurrence.
pub proof fn lemma_index_of_is<T>(s: Seq<T>, x: T, at: int)
    requires
        0 <= at <= s.len(),
        forall|i: int| 0 <= i < at ==> s[i] != x,
        at < s.len() ==> s[at] == x,
    ensures
        index_of(s, x) == at,
{
    lemma_index_of(s, x);
    let k = index_of(s, x);
    if k < at {
        assert(s[k] == x);
    }
}

/// A first piece without the separator splits off whole.
pub proof fn lemma_split_first<T>(head: Seq<T>, sep: T, rest: Seq<T>)
    requires
        !head.contains(sep),
    ensures
        split_on(head + seq![sep] + rest, sep) == seq![head] + split_on(rest, sep),
{
    let s = head + seq![sep] + rest;
    lemma_index_of_is(s, sep, head.len() as int);
    assert(s.take(head.len() as int) =~= head);
    assert(s.skip(head.len() as int + 1) =~= rest);
}

/// A text without the separator is its own only piece.
pub proof fn lemma_split_none<T>(s: Seq<T>, sep: T)
    requires
        !s.contains(sep),
    ensures
        split_on(s, sep) == seq![s],
{
    lemma_index_of_is(s, sep, s.len() as int);
}

/// A text is a piece of itself.
pub proof fn lemma_piece_self(s: Seq<char>)
    ensures
        has_piece(s, s),
{
    assert(s.subrange(0, 0int + s.len()) =~= s);
}

/// A piece of a piece is a piece.
pub proof fn lemma_piece_of_piece(a: Seq<char>, b: Seq<char>, c: Seq<char>)
    requires
        has_piece(a, b),
        has_piece(b, c),
    ensures
        has_piece(a, c),
{
    let i = choose|i: int| 0 <= i <= a.len() - b.len() && #[trigger] a.subrange(i, i + b.len()) == b;
    let j = choose|j: int| 0 <= j <= b.len() - c.len() && #[trigger] b.subrange(j, j + c.len()) == c;
    assert(a.subrange(i + j, (i + j) + c.len()) =~= b.subrange(j, j + c.len()));
}

proof fn lemma_trim_front_piece(s: Seq<char>, k: Class)
    ensures
        has_piece(s, trim_front(s, k)),
    decreases s.len(),
{
    if s.len() > 0 && in_class(k, s[0]) {
        lemma_trim_front_piece(s.drop_first(), k);
        assert(s.subrange(1, 1int + s.drop_first().len()) =~= s.drop_first());
        lemma_piece_of_piece(s, s.drop_first(), trim_front(s, k));
    } else {
        lemma_piece_self(s);
    }
}

/// A trimmed text is a piece of the text.
pub proof fn lemma_trimmed_piece(s: Seq<char>)
    ensures
        has_piece(s, trimmed(s)),
{
    let f = trim_front(s, Class::White);
    lemma_trim_front_piece(s, Class::White);
    lemma_trim_back_prefix(f, Class::White);
    assert(f.subrange(0, 0int + trimmed(s).len()) =~= trimmed(s));
    lemma_piece_of_piece(s, f, trimmed(s));
}

pub proof fn lemma_split_len<T>(s: Seq<T>, sep: T)
    ensures
        split_on(s, sep).len() >= 1,
{
}

/// Two texts one after the other have the pieces of both, but that the last of
/// the one and the first of the other are one piece.
pub proof fn lemma_split_concat<T>(a: Seq<T>, b: Seq<T>, sep: T)
    ensures
        split_on(a + b, sep).len() == split_on(a, sep).len() + split_on(b, sep).len() - 1,
    decreases a.len(),
{
    let i = index_of(a, sep);
    lemma_index_of(a, sep);
    if i < a.len() {
        lemma_index_of_is(a + b, sep, i);
        assert((a + b).skip(i + 1) =~= a.skip(i + 1) + b);
        lemma_split_concat(a.skip(i + 1), b, sep);
    } else {
        lemma_index_of(b, sep);
        let k = index_of(b, sep);
        lemma_index_of_is(a + b, sep, a.len() + k);
        if k < b.len() {
            assert((a + b).skip(a.len() + k + 1) =~= b.skip(k + 1));
        }
    }
}

/// Text without white space at its ends is left as it is.
pub proof fn lemma_trimmed_same(s: Seq<char>)
    requires
        s.len() == 0 || (!is_white(s[0]) && !is_white(s.last())),
    ensures
        trimmed(s) == s,
{
}

/// A trimmed text is left as it is by trimming again.
pub proof fn lemma_trimmed_ends(s: Seq<char>)
    ensures
        trimmed(s).len() > 0 ==> !is_white(trimmed(s)[0]) && !is_white(trimmed(s).last()),
{
    lemma_trim_front_head(s, Class::White);
    lemma_trim_back_tail(trim_front(s, Class::White), Class::White);
    lemma_trim_back_prefix(trim_front(s, Class::White), Class::White);
}

pub proof fn lemma_trim_back_prefix(s: Seq<char>, k: Class)
    ensures
        trim_back(s, k).len() <= s.len(),
        trim_back(s, k) == s.take(trim_back(s, k).len() as int),
    decreases s.len(),
{
    if s.len() > 0 && in_class(k, s.last()) {
        lemma_trim_back_prefix(s.drop_last(), k);
        let n = trim_back(s, k).len() as int;
        assert(s.drop_last().take(n) =~= s.take(n));
    } else {
        assert(s.take(s.len() as int) =~= s);
    }
}

pub proof fn lemma_trim_back_tail(s: Seq<char>, k: Class)
    ensures
        trim_back(s, k).len() > 0 ==> !in_class(k, trim_back(s, k).last()),
    decreases s.len(),
{
    if s.len() > 0 && in_class(k, s.last()) {
        lemma_trim_back_tail(s.drop_last(), k);
    }
}

/// No word is empty.
pub proof fn lemma_words_not_empty(s: Seq<char>)
    ensures
        forall|i: int| 0 <= i < words(s).len() ==> (#[trigger] words(s)[i]).len() > 0,
    decreases s.len(),
{
    let t = trim_front(s, Class::White);
    lemma_trim_front_suffix(s, Class::White);
    lemma_trim_front_head(s, Class::White);
    lemma_word_len_bounds(t);
    if t.len() > 0 {
        let rest = t.skip(word_len(t));
        lemma_words_not_empty(rest);
        assert forall|i: int| 0 <= i < words(s).len() implies (#[trigger] words(s)[i]).len() > 0 by {
            if i > 0 {
                assert(words(s)[i] == words(rest)[i - 1]);
            }
        }
    }
}

/// The characters of a string, in order.
pub fn chars_of(s: &str) -> (r: Vec<char>)
    ensures
        r@ == s@,
{
    let mut r: Vec<char> = Vec::new();
    for c in it: s.chars()
        invariant
            r@ == it.seq().take(it.index() as int),
            it.seq() == s@,
    {
        r.push(c);
    }
    r
}

/// The string made of a range of characters.
pub fn text_of(cs: &Vec<char>, from: usize, to: usize) -> (r: String)
    requires
        from <= to <= cs@.len(),
    ensures
        r@ == cs@.subrange(from as int, to as int),
{
    let mut r = String::new();
    let mut i: usize = from;
    while i < to
        invariant
            from <= i <= to <= cs@.len(),
            r@ == cs@.subrange(from as int, i as int),
        decreases to - i,
    {
        r.push(cs[i]);
        i += 1;
        assert(cs@.subrange(from as int, i as int) =~= cs@.subrange(from as int, i - 1).push(
            cs@[i - 1],
        ));
    }
    r
}

/// An owned copy of a text.
pub fn own(s: &str) -> (r: String)
    ensures
        r@ == s@,
{
    s.to_owned()
}

/// Whether two texts are the same.
pub fn same(a: &str, b: &str) -> (r: bool)
    ensures
        r == (a@ == b@),
{
    let x = chars_of(a);
    let y = chars_of(b);
    if x.len() != y.len() {
        return false;
    }
    let mut i: usize = 0;
    while i < x.len()
        invariant
            x@ == a@,
            y@ == b@,
            x@.len() == y@.len(),
            i <= x@.len(),
            forall|j: int| 0 <= j < i ==> x@[j] == y@[j],
        decreases x@.len() - i,
    {
        if x[i] != y[i] {
            return false;
        }
        i += 1;
    }
    assert(x@ =~= y@);
    true
}

/// Two texts, one after the other.
pub fn cat(a: &str, b: &str) -> (r: String)
    ensures
        r@ == a@ + b@,
{
    let mut r = own(a);
    r.append(b);
    r
}

/// Three texts, one after the other.
pub fn cat3(a: &str, b: &str, c: &str) -> (r: String)
    ensures
        r@ == a@ + b@ + c@,
{
    let mut r = cat(a, b);
    r.append(c);
    r
}

/// Where the leading characters of a class, from `from` on, end.
fn front_end(cs: &Vec<char>, k: Class, from: usize) -> (r: usize)
    requires
        from <= cs@.len(),
    ensures
        from <= r <= cs@.len(),
        cs@.skip(r as int) == trim_front(cs@.skip(from as int), k),
{
    let mut i: usize = from;
    while i < cs.len() && k.has(cs[i])
        invariant
            from <= i <= cs@.len(),
            trim_front(cs@.skip(i as int), k) == trim_front(cs@.skip(from as int), k),
        decreases cs@.len() - i,
    {
        assert(cs@.skip(i as int).drop_first() =~= cs@.skip(i + 1));
        i += 1;
    }
    i
}

/// Where the text from `from` on ends without its trailing characters of a class.
fn back_end(cs: &Vec<char>, k: Class, from: usize) -> (r: usize)
    requires
        from <= cs@.len(),
    ensures
        from <= r <= cs@.len(),
        cs@.subrange(from as int, r as int) == trim_back(cs@.skip(from as int), k),
{
    let mut i: usize = cs.len();
    assert(cs@.subrange(from as int, i as int) =~= cs@.skip(from as int));
    while i > from && k.has(cs[i - 1])
        invariant
            from <= i <= cs@.len(),
            trim_back(cs@.subrange(from as int, i as int), k) == trim_back(
                cs@.skip(from as int),
                k,
            ),
        decreases i - from,
    {
        assert(cs@.subrange(from as int, i as int).drop_last() =~= cs@.subrange(
            from as int,
            i - 1,
        ));
        i -= 1;
    }
    i
}

/// The text without white space at either end.
pub fn trim(s: &str) -> (r: String)
    ensures
        r@ == trimmed(s@),
{
    let cs = chars_of(s);
    assert(cs@.skip(0) =~= cs@);
    let a = front_end(&cs, Class::White, 0);
    let b = back_end(&cs, Class::White, a);
    text_of(&cs, a, b)
}

/// The text without its leading characters of a class.
pub fn trim_start_of(s: &str, k: Class) -> (r: String)
    ensures
        r@ == trim_front(s@, k),
{
    let cs = chars_of(s);
    assert(cs@.skip(0) =~= cs@);
    let a = front_end(&cs, k, 0);
    assert(cs@.subrange(a as int, cs@.len() as int) =~= cs@.skip(a as int));
    let n = cs.len();
    text_of(&cs, a, n)
}

/// The text without its trailing characters of a class.
pub fn trim_end_of(s: &str, k: Class) -> (r: String)
    ensures
        r@ == trim_back(s@, k),
{
    let cs = chars_of(s);
    assert(cs@.skip(0) =~= cs@);
    let b = back_end(&cs, k, 0);
    text_of(&cs, 0, b)
}

/// The first position of `x` from `from` on, or the end of the text.
pub fn find_from(cs: &Vec<char>, x: char, from: usize) -> (r: usize)
    requires
        from <= cs@.len(),
    ensures
        from <= r <= cs@.len(),
        r - from == index_of(cs@.skip(from as int), x),
{
    let mut i: usize = from;
    while i < cs.len() && cs[i] != x
        invariant
            from <= i <= cs@.len(),
            forall|j: int| from <= j < i ==> cs@[j] != x,
        decreases cs@.len() - i,
    {
        i += 1;
    }
    proof {
        lemma_index_of_is(cs@.skip(from as int), x, i - from);
    }
    i
}

/// The pieces of a text between the separators.
pub fn split(s: &str, sep: char) -> (r: Vec<String>)
    ensures
        views(r@) == split_on(s@, sep),
{
    let cs = chars_of(s);
    let mut r: Vec<String> = Vec::new();
    let mut from: usize = 0;
    assert(cs@.skip(0) =~= cs@);
    assert(views(r@) + split_on(cs@, sep) =~= split_on(cs@, sep));
    loop
        invariant_except_break
            from <= cs@.len(),
            cs@ == s@,
            views(r@) + split_on(cs@.skip(from as int), sep) == split_on(cs@, sep),
        ensures
            views(r@) == split_on(cs@, sep),
        decreases cs@.len() - from,
    {
        let ghost tail = cs@.skip(from as int);
        let ghost before = r@;
        let at = find_from(&cs, sep, from);
        let piece = text_of(&cs, from, at);
        let ghost p = piece@;
        r.push(piece);
        assert(views(r@) =~= views(before).push(p));
        assert(p =~= tail.take(at - from));
        if at == cs.len() {
            assert(tail.take(at - from) =~= tail);
            assert(views(r@) =~= views(before) + seq![tail]);
            break;
        }
        assert(tail.skip(at - from + 1) =~= cs@.skip(at + 1));
        assert(views(before) + (seq![p] + split_on(cs@.skip(at + 1), sep)) =~= views(r@)
            + split_on(cs@.skip(at + 1), sep));
        from = at + 1;
    }
    r
}

/// The pieces of a text, up to `n` of them.
pub fn splitn(s: &str, sep: char, n: usize) -> (r: Vec<String>)
    requires
        n >= 1,
    ensures
        views(r@) == split_at_most(s@, sep, n as nat),
{
    let cs = chars_of(s);
    let mut r: Vec<String> = Vec::new();
    let mut from: usize = 0;
    let mut left: usize = n;
    assert(cs@.skip(0) =~= cs@);
    assert(views(r@) + split_at_most(cs@, sep, n as nat) =~= split_at_most(cs@, sep, n as nat));
    loop
        invariant_except_break
            from <= cs@.len(),
            1 <= left <= n,
            cs@ == s@,
            views(r@) + split_at_most(cs@.skip(from as int), sep, left as nat) == split_at_most(
                cs@,
                sep,
                n as nat,
            ),
        ensures
            views(r@) == split_at_most(cs@, sep, n as nat),
        decreases left,
    {
        let ghost tail = cs@.skip(from as int);
        let ghost before = r@;
        let len = cs.len();
        let at = if left == 1 {
            len
        } else {
            find_from(&cs, sep, from)
        };
        let piece = text_of(&cs, from, at);
        let ghost p = piece@;
        r.push(piece);
        assert(views(r@) =~= views(before).push(p));
        assert(p =~= tail.take(at - from));
        if at == len {
            assert(tail.take(at - from) =~= tail);
            assert(views(r@) =~= views(before) + seq![tail]);
            break;
        }
        assert(tail.skip(at - from + 1) =~= cs@.skip(at + 1));
        assert(views(before) + (seq![p] + split_at_most(
            cs@.skip(at + 1),
            sep,
            (left - 1) as nat,
        )) =~= views(r@) + split_at_most(cs@.skip(at + 1), sep, (left - 1) as nat));
        from = at + 1;
        left -= 1;
    }
    r
}

/// The pieces of a byte string between the separators.
pub fn split_bytes(s: &[u8], sep: u8) -> (r: Vec<Vec<u8>>)
    ensures
        r@.map_values(|v: Vec<u8>| v@) == split_on(s@, sep),
{
    let mut r: Vec<Vec<u8>> = Vec::new();
    let mut cur: Vec<u8> = Vec::new();
    let mut from: usize = 0;
    let mut i: usize = 0;
    let ghost vw = |v: Vec<u8>| v@;
    assert(s@.skip(0) =~= s@);
    assert(r@.map_values(vw) + split_on(s@, sep) =~= split_on(s@, sep));
    while i < s.len()
        invariant
            from <= i <= s@.len(),
            vw == (|v: Vec<u8>| v@),
            cur@ == s@.subrange(from as int, i as int),
            forall|j: int| from <= j < i ==> s@[j] != sep,
            r@.map_values(vw) + split_on(s@.skip(from as int), sep) == split_on(s@, sep),
        decreases s@.len() - i,
    {
        let ghost tail = s@.skip(from as int);
        let b = s[i];
        if b == sep {
            let ghost before = r@;
            let ghost p = cur@;
            r.push(cur);
            cur = Vec::new();
            proof {
                lemma_index_of_is(tail, sep, i - from);
                assert(p =~= tail.take(i - from));
                assert(tail.skip(i - from + 1) =~= s@.skip(i + 1));
                assert(r@.map_values(vw) =~= before.map_values(vw).push(p));
                assert(before.map_values(vw) + (seq![p] + split_on(s@.skip(i + 1), sep))
                    =~= r@.map_values(vw) + split_on(s@.skip(i + 1), sep));
            }
            from = i + 1;
        } else {
            cur.push(b);
        }
        i += 1;
        assert(cur@ =~= s@.subrange(from as int, i as int));
    }
    proof {
        let tail = s@.skip(from as int);
        lemma_index_of_is(tail, sep, i - from);
        assert(cur@ =~= tail);
    }
    let ghost before = r@;
    let ghost p = cur@;
    r.push(cur);
    assert(r@.map_values(vw) =~= before.map_values(vw) + seq![p]);
    r
}

/// The words of a text.
pub fn split_words(s: &str) -> (r: Vec<String>)
    ensures
        views(r@) == words(s@),
{
    let cs = chars_of(s);
    let mut r: Vec<String> = Vec::new();
    let mut from: usize = 0;
    assert(cs@.skip(0) =~= cs@);
    assert(views(r@) + words(cs@) =~= words(cs@));
    loop
        invariant_except_break
            from <= cs@.len(),
            cs@ == s@,
            views(r@) + words(cs@.skip(from as int)) == words(cs@),
        ensures
            views(r@) == words(cs@),
        decreases cs@.len() - from,
    {
        let ghost before = r@;
        let a = front_end(&cs, Class::White, from);
        let ghost t = cs@.skip(a as int);
        if a == cs.len() {
            assert(words(cs@.skip(from as int)) =~= Seq::<Seq<char>>::empty());
            assert(views(r@) + Seq::<Seq<char>>::empty() =~= views(r@));
            break;
        }
        proof {
            lemma_trim_front_head(cs@.skip(from as int), Class::White);
        }
        let mut b: usize = a;
        while b < cs.len() && !white(cs[b])
            invariant
                a <= b <= cs@.len(),
                t == cs@.skip(a as int),
                word_len(t) == (b - a) + word_len(cs@.skip(b as int)),
            decreases cs@.len() - b,
        {
            assert(cs@.skip(b as int).drop_first() =~= cs@.skip(b + 1));
            b += 1;
        }
        proof {
            lemma_word_len_bounds(t);
        }
        let piece = text_of(&cs, a, b);
        let ghost p = piece@;
        r.push(piece);
        proof {
            assert(p =~= t.take(b - a));
            assert(t.skip(b - a) =~= cs@.skip(b as int));
            assert(views(r@) =~= views(before).push(p));
            assert(views(before) + (seq![p] + words(cs@.skip(b as int))) =~= views(r@) + words(
                cs@.skip(b as int),
            ));
        }
        from = b;
    }
    r
}

/// Whether a text begins with another.
pub fn starts_with(s: &str, p: &str) -> (r: bool)
    ensures
        r == p@.is_prefix_of(s@),
{
    let cs = chars_of(s);
    let ps = chars_of(p);
    piece_at(&cs, &ps, 0)
}

/// Whether `ps` stands in `cs` at a position.
pub fn piece_at(cs: &Vec<char>, ps: &Vec<char>, at: usize) -> (r: bool)
    requires
        at <= cs@.len(),
    ensures
        r == (ps@.len() <= cs@.len() - at && cs@.subrange(at as int, at + ps@.len()) == ps@),
        at == 0 ==> r == ps@.is_prefix_of(cs@),
{
    let n = cs.len();
    if ps.len() > n - at {
        return false;
    }
    let mut i: usize = 0;
    while i < ps.len()
        invariant
            n == cs@.len(),
            i <= ps@.len(),
            ps@.len() <= cs@.len() - at,
            forall|j: int| 0 <= j < i ==> cs@[at + j] == ps@[j],
        decreases ps@.len() - i,
    {
        if cs[at + i] != ps[i] {
            assert(cs@.subrange(at as int, at + ps@.len())[i as int] != ps@[i as int]);
            return false;
        }
        i += 1;
    }
    assert(cs@.subrange(at as int, at + ps@.len()) =~= ps@);
    true
}

/// What follows a prefix, where the text begins with it.
pub fn strip_prefix(s: &str, p: &str) -> (r: Option<String>)
    ensures
        r is Some <==> p@.is_prefix_of(s@),
        r matches Some(t) ==> t@ == s@.skip(p@.len() as int),
{
    let cs = chars_of(s);
    let ps = chars_of(p);
    if piece_at(&cs, &ps, 0) {
        let n = cs.len();
        assert(cs@.subrange(ps@.len() as int, n as int) =~= cs@.skip(ps@.len() as int));
        Some(text_of(&cs, ps.len(), n))
    } else {
        None
    }
}

/// Whether a text contains another.
pub fn contains(s: &str, p: &str) -> (r: bool)
    ensures
        r == has_piece(s@, p@),
{
    let cs = chars_of(s);
    let ps = chars_of(p);
    let mut i: usize = 0;
    while i <= cs.len() && cs.len() - i >= ps.len()
        invariant
            i <= cs@.len() + 1,
            cs@ == s@,
            ps@ == p@,
            forall|j: int|
                0 <= j < i && j <= cs@.len() - ps@.len() ==> #[trigger] cs@.subrange(j, j + ps@.len()) != ps@,
        decreases cs@.len() + 1 - i,
    {
        if piece_at(&cs, &ps, i) {
            return true;
        }
        if i == cs.len() {
            assert(!has_piece(s@, p@));
            return false;
        }
        i += 1;
    }
    false
}

/// Whether a text contains a character.
pub fn contains_char(s: &str, c: char) -> (r: bool)
    ensures
        r == s@.contains(c),
{
    let cs = chars_of(s);
    assert(cs@.skip(0) =~= cs@);
    let at = find_from(&cs, c, 0);
    proof {
        lemma_index_of(cs@, c);
    }
    at < cs.len()
}

/// The text with every `c` replaced by another text.
pub fn replace(s: &str, c: char, with: &str) -> (r: String)
    ensures
        r@ == replaced(s@, c, with@),
{
    let cs = chars_of(s);
    let mut r = String::new();
    let mut i: usize = 0;
    while i < cs.len()
        invariant
            i <= cs@.len(),
            cs@ == s@,
            r@ == replaced(cs@.take(i as int), c, with@),
        decreases cs@.len() - i,
    {
        assert(cs@.take(i + 1).drop_last() =~= cs@.take(i as int));
        if cs[i] == c {
            r.append(with);
        } else {
            r.push(cs[i]);
            assert(r@ =~= replaced(cs@.take(i as int), c, with@) + seq![cs@[i as int]]);
        }
        i += 1;
    }
    assert(cs@.take(i as int) =~= cs@);
    r
}

/// The pieces joined, with a text between each two of them.
pub fn join(parts: &Vec<String>, sep: &str) -> (r: String)
    ensures
        r@ == joined(views(parts@), sep@),
{
    let mut r = String::new();
    let mut i: usize = 0;
    let ghost vs = views(parts@);
    assert(vs.take(0) =~= Seq::<Seq<char>>::empty());
    while i < parts.len()
        invariant
            i <= parts@.len(),
            vs == views(parts@),
            r@ == joined(vs.take(i as int), sep@),
        decreases parts@.len() - i,
    {
        assert(vs.take(i + 1).drop_last() =~= vs.take(i as int));
        if i > 0 {
            r.append(sep);
        } else {
            assert(vs.take(1)[0] == vs[0]);
        }
        r.append(parts[i].as_str());
        i += 1;
    }
    assert(vs.take(i as int) =~= vs);
    r
}

/// The decimal digits of a number.
pub fn number(n: u64) -> (r: String)
    ensures
        r@ == decimal(n as nat),
    decreases n,
{
    let d: u8 = (n % 10) as u8 + 48;
    let c: char = d as char;
    if n < 10 {
        let mut r = String::new();
        r.push(c);
        assert(r@ =~= seq![digit(n as nat)]);
        r
    } else {
        let mut r = number(n / 10);
        r.push(c);
        r
    }
}

/// Of the characters below 128, white space is the space and the five control
/// characters from the tabulator on; no letter, digit or mark is.
pub proof fn law_plain_white_space(c: char)
    requires
        (c as u32) < 0x80,
    ensures
        is_white(c) <==> c == ' ' || c == '\t' || c == '\n' || c == '\r' || c == '\u{b}' || c
            == '\u{c}',
{
}

/// Trimming takes away white space at both ends, all of it, and nothing else.
pub proof fn law_trimmed(s: Seq<char>)
    ensures
        exists|i: int, j: int|
            0 <= i <= j <= s.len() && trimmed(s) == #[trigger] s.subrange(i, j) && (forall|k: int|
                0 <= k < i ==> is_white(#[trigger] s[k])) && (forall|k: int|
                j <= k < s.len() ==> is_white(#[trigger] s[k])),
        trimmed(s).len() > 0 ==> !is_white(trimmed(s)[0]) && !is_white(
            trimmed(s)[trimmed(s).len() - 1],
        ),
{
    let f = trim_front(s, Class::White);
    law_trim_front(s, Class::White);
    law_trim_back(f, Class::White);
    lemma_trimmed_ends(s);
    let i = s.len() - f.len();
    let j = i + trimmed(s).len();
    assert(trimmed(s) =~= s.subrange(i, j));
    assert forall|k: int| j <= k < s.len() implies is_white(#[trigger] s[k]) by {
        assert(f[k - i] == s[k]);
    }
}

/// Trimming the front takes away the leading characters of a class, all of
/// them, and nothing else.
pub proof fn law_trim_front(s: Seq<char>, k: Class)
    ensures
        trim_front(s, k).len() <= s.len(),
        trim_front(s, k) == s.skip(s.len() - trim_front(s, k).len()),
        forall|i: int|
            0 <= i < s.len() - trim_front(s, k).len() ==> in_class(k, #[trigger] s[i]),
        trim_front(s, k).len() > 0 ==> !in_class(k, trim_front(s, k)[0]),
    decreases s.len(),
{
    lemma_trim_front_suffix(s, k);
    lemma_trim_front_head(s, k);
    if s.len() > 0 && in_class(k, s[0]) {
        let d = s.drop_first();
        law_trim_front(d, k);
        assert forall|i: int| 0 <= i < s.len() - trim_front(s, k).len() implies in_class(
            k,
            #[trigger] s[i],
        ) by {
            if i > 0 {
                assert(d[i - 1] == s[i]);
            }
        }
    }
}

/// Trimming the back takes away the trailing characters of a class, all of
/// them, and nothing else.
pub proof fn law_trim_back(s: Seq<char>, k: Class)
    ensures
        trim_back(s, k).len() <= s.len(),
        trim_back(s, k) == s.take(trim_back(s, k).len() as int),
        forall|i: int| trim_back(s, k).len() <= i < s.len() ==> in_class(k, #[trigger] s[i]),
        trim_back(s, k).len() > 0 ==> !in_class(k, trim_back(s, k)[trim_back(s, k).len() - 1]),
    decreases s.len(),
{
    lemma_trim_back_prefix(s, k);
    lemma_trim_back_tail(s, k);
    if s.len() > 0 && in_class(k, s.last()) {
        let d = s.drop_last();
        law_trim_back(d, k);
        assert forall|i: int| trim_back(s, k).len() <= i < s.len() implies in_class(
            k,
            #[trigger] s[i],
        ) by {
            if i < d.len() {
                assert(d[i] == s[i]);
            }
        }
    }
}

/// The pieces of a text that were joined by a separator are found again.
pub proof fn law_split_joined(parts: Seq<Seq<char>>, sep: char)
    requires
        parts.len() > 0,
        forall|i: int| 0 <= i < parts.len() ==> !(#[trigger] parts[i]).contains(sep),
    ensures
        split_on(joined(parts, seq![sep]), sep) == parts,
    decreases parts.len(),
{
    let s = seq![sep];
    assert(!parts[0].contains(sep));
    if parts.len() == 1 {
        lemma_split_none(parts[0], sep);
        assert(seq![parts[0]] =~= parts);
    } else {
        let rest = parts.drop_first();
        assert forall|i: int| 0 <= i < rest.len() implies !(#[trigger] rest[i]).contains(sep) by {
            assert(parts[i + 1] == rest[i]);
        }
        law_split_joined(rest, sep);
        lemma_joined_first(parts, s);
        lemma_split_first(parts[0], sep, joined(rest, s));
        assert(seq![parts[0]] + rest =~= parts);
    }
}

pub proof fn lemma_joined_first(parts: Seq<Seq<char>>, sep: Seq<char>)
    requires
        parts.len() > 1,
    ensures
        joined(parts, sep) == parts[0] + sep + joined(parts.drop_first(), sep),
    decreases parts.len(),
{
    let rest = parts.drop_first();
    if parts.len() == 2 {
        assert(parts.drop_last()[0] == parts[0]);
        assert(rest[0] == parts[1]);
        assert(joined(parts.drop_last(), sep) == parts[0]);
        assert(joined(rest, sep) == parts[1]);
    } else {
        lemma_joined_first(parts.drop_last(), sep);
        assert(parts.drop_last().drop_first() =~= rest.drop_last());
        assert(joined(parts, sep) =~= parts[0] + sep + joined(rest, sep));
    }
}

/// Splitting loses nothing: the pieces joined again are the text, and none of
/// them holds the separator.
pub proof fn law_split_keeps_text(s: Seq<char>, sep: char)
    ensures
        split_on(s, sep).len() > 0,
        joined(split_on(s, sep), seq![sep]) == s,
        forall|i: int|
            0 <= i < split_on(s, sep).len() ==> !(#[trigger] split_on(s, sep)[i]).contains(sep),
    decreases s.len(),
{
    let i = index_of(s, sep);
    lemma_index_of(s, sep);
    let ps = split_on(s, sep);
    if i < s.len() {
        let rest = s.skip(i + 1);
        law_split_keeps_text(rest, sep);
        lemma_joined_first(ps, seq![sep]);
        assert(ps.drop_first() =~= split_on(rest, sep));
        assert(s =~= s.take(i) + seq![sep] + rest);
        assert forall|k: int| 0 <= k < ps.len() implies !(#[trigger] ps[k]).contains(sep) by {
            if k > 0 {
                assert(ps[k] == split_on(rest, sep)[k - 1]);
            }
        }
    }
}

/// A first piece without the separator splits off whole, where more than one
/// piece is asked for.
pub proof fn lemma_split_at_most_first<T>(head: Seq<T>, sep: T, rest: Seq<T>, n: nat)
    requires
        !head.contains(sep),
        n > 1,
    ensures
        split_at_most(head + seq![sep] + rest, sep, n) == seq![head] + split_at_most(
            rest,
            sep,
            (n - 1) as nat,
        ),
{
    let s = head + seq![sep] + rest;
    lemma_index_of_is(s, sep, head.len() as int);
    assert(s.take(head.len() as int) =~= head);
    assert(s.skip(head.len() as int + 1) =~= rest);
}

/// Splitting into at most `n` pieces loses nothing: the pieces joined again are
/// the text; none but the `n`th holds the separator.
pub proof fn law_split_at_most_keeps_text(s: Seq<char>, sep: char, n: nat)
    requires
        n > 0,
    ensures
        0 < split_at_most(s, sep, n).len() <= n,
        joined(split_at_most(s, sep, n), seq![sep]) == s,
        forall|i: int|
            0 <= i < split_at_most(s, sep, n).len() && i < n - 1 ==> !(
            #[trigger] split_at_most(s, sep, n)[i]).contains(sep),
    decreases n,
{
    let i = index_of(s, sep);
    lemma_index_of(s, sep);
    let ps = split_at_most(s, sep, n);
    if n > 1 && i < s.len() {
        let rest = s.skip(i + 1);
        let m = (n - 1) as nat;
        law_split_at_most_keeps_text(rest, sep, m);
        lemma_joined_first(ps, seq![sep]);
        assert(ps.drop_first() =~= split_at_most(rest, sep, m));
        assert(s =~= s.take(i) + seq![sep] + rest);
        assert forall|k: int| 0 <= k < ps.len() && k < n - 1 implies !(#[trigger] ps[k]).contains(
            sep,
        ) by {
            if k > 0 {
                assert(ps[k] == split_at_most(rest, sep, m)[k - 1]);
            }
        }
    }
}

/// Where a text holds no white space.
pub open spec fn one_word(w: Seq<char>) -> bool {
    w.len() > 0 && forall|i: int| 0 <= i < w.len() ==> !is_white(#[trigger] w[i])
}

proof fn lemma_word_end(w: Seq<char>, rest: Seq<char>)
    requires
        one_word(w),
        rest.len() == 0 || is_white(rest[0]),
    ensures
        word_len(w + rest) == w.len(),
    decreases w.len(),
{
    let s = w + rest;
    assert(s[0] == w[0] && !is_white(w[0]));
    if w.len() == 1 {
        assert(s.drop_first() =~= rest);
        assert(word_len(rest) == 0);
    } else {
        let d = w.drop_first();
        assert forall|i: int| 0 <= i < d.len() implies !is_white(#[trigger] d[i]) by {
            assert(d[i] == w[i + 1]);
        }
        assert(s.drop_first() =~= d + rest);
        lemma_word_end(d, rest);
    }
}

/// A word, and what follows it after white space, are told apart.
pub proof fn law_first_word(w: Seq<char>, rest: Seq<char>)
    requires
        one_word(w),
        rest.len() == 0 || is_white(rest[0]),
    ensures
        words(w + rest) == seq![w] + words(rest),
{
    let s = w + rest;
    assert(s[0] == w[0] && !is_white(w[0]));
    lemma_word_end(w, rest);
    assert(s.take(w.len() as int) =~= w);
    assert(s.skip(w.len() as int) =~= rest);
}

/// White space in front of a text makes no word.
pub proof fn law_white_is_no_word(c: char, rest: Seq<char>)
    requires
        is_white(c),
    ensures
        words(seq![c] + rest) == words(rest),
{
    let s = seq![c] + rest;
    assert(s.drop_first() =~= rest);
}

/// Words with a space between each two of them are found again.
pub proof fn law_words_joined(ws: Seq<Seq<char>>)
    requires
        forall|i: int| 0 <= i < ws.len() ==> one_word(#[trigger] ws[i]),
    ensures
        words(joined(ws, seq![' '])) == ws,
    decreases ws.len(),
{
    let sp = seq![' '];
    let none: Seq<char> = Seq::empty();
    if ws.len() == 0 {
        assert(words(none) =~= ws);
    } else {
        assert(one_word(ws[0]));
        assert(words(none) =~= Seq::<Seq<char>>::empty());
        if ws.len() == 1 {
            law_first_word(ws[0], none);
            assert(ws[0] + none =~= ws[0]);
            assert(seq![ws[0]] + words(none) =~= ws);
        } else {
            let rest = ws.drop_first();
            assert forall|i: int| 0 <= i < rest.len() implies one_word(#[trigger] rest[i]) by {
                assert(ws[i + 1] == rest[i]);
            }
            law_words_joined(rest);
            lemma_joined_first(ws, sp);
            let r = joined(rest, sp);
            assert(ws[0] + sp + r =~= ws[0] + (sp + r));
            law_first_word(ws[0], sp + r);
            law_white_is_no_word(' ', r);
            assert(seq![ws[0]] + rest =~= ws);
        }
    }
}

/// Replacing goes character by character: that of two texts one after the
/// other is that of each, what is to be replaced gives the new text, and a text
/// without it stays as it is.
pub proof fn law_replaced(a: Seq<char>, b: Seq<char>, c: char, with: Seq<char>)
    ensures
        replaced(a + b, c, with) == replaced(a, c, with) + replaced(b, c, with),
        replaced(seq![c], c, with) == with,
        !a.contains(c) ==> replaced(a, c, with) == a,
        !with.contains(c) ==> !replaced(a, c, with).contains(c),
    decreases b.len(), a.len(),
{
    let none: Seq<char> = Seq::empty();
    assert(seq![c].drop_last() =~= none);
    assert(replaced(none, c, with) + with =~= with);
    if b.len() == 0 {
        assert(a + b =~= a);
        assert(replaced(a, c, with) + replaced(b, c, with) =~= replaced(a, c, with));
        if a.len() > 0 {
            let d = a.drop_last();
            law_replaced(d, b, c, with);
            let r = replaced(d, c, with);
            if !a.contains(c) {
                assert(a.contains(a.last()));
                if d.contains(c) {
                    let i = choose|i: int| 0 <= i < d.len() && d[i] == c;
                    assert(a[i] == c);
                }
                assert(replaced(a, c, with) =~= a);
            }
            if !with.contains(c) && replaced(a, c, with).contains(c) {
                let t = replaced(a, c, with);
                let i = choose|i: int| 0 <= i < t.len() && t[i] == c;
                if i < r.len() {
                    assert(r[i] == c);
                } else if a.last() == c {
                    assert(with[i - r.len()] == c);
                }
            }
        }
    } else {
        law_replaced(a, b.drop_last(), c, with);
        assert((a + b).drop_last() =~= a + b.drop_last());
        assert(replaced(a + b, c, with) =~= replaced(a, c, with) + replaced(b, c, with));
    }
}

/// The number that decimal digits stand for.
pub open spec fn value_of(digits: Seq<char>) -> int
    decreases digits.len(),
{
    if digits.len() == 0 {
        0
    } else {
        10 * value_of(digits.drop_last()) + (digits.last() as int - '0' as int)
    }
}

/// The digits of a number stand for it, and none of them is a leading zero.
pub proof fn law_decimal(n: nat)
    ensures
        value_of(decimal(n)) == n,
        decimal(n).len() > 0,
        forall|i: int| 0 <= i < decimal(n).len() ==> '0' <= #[trigger] decimal(n)[i] <= '9',
        n > 0 ==> decimal(n)[0] != '0',
    decreases n,
{
    let none: Seq<char> = Seq::empty();
    assert(value_of(none) == 0);
    if n < 10 {
        assert(seq![digit(n)].drop_last() =~= none);
    } else {
        law_decimal(n / 10);
        assert(decimal(n).drop_last() =~= decimal(n / 10));
        assert(decimal(n)[0] == decimal(n / 10)[0]);
        assert forall|i: int| 0 <= i < decimal(n).len() implies '0' <= #[trigger] decimal(n)[i]
            <= '9' by {
            if i < decimal(n / 10).len() {
                assert(decimal(n)[i] == decimal(n / 10)[i]);
            }
        }
    }
}

/// Two words with a space between them, then three.
pub proof fn lemma_joined_few(a: Seq<char>, b: Seq<char>, c: Seq<char>, sep: Seq<char>)
    ensures
        joined(seq![a], sep) == a,
        joined(seq![a, b], sep) == a + sep + b,
        joined(seq![a, b, c], sep) == a + sep + b + sep + c,
{
    assert(seq![a, b].drop_last() =~= seq![a]);
    assert(seq![a, b, c].drop_last() =~= seq![a, b]);
    assert(joined(seq![a], sep) == a);
    assert(joined(seq![a, b], sep) == a + sep + b);
}

/// One, two or three words with a space between each two are found again.
pub proof fn lemma_few_words(a: Seq<char>, b: Seq<char>, c: Seq<char>)
    requires
        one_word(a),
        one_word(b),
        one_word(c),
    ensures
        words(a) == seq![a],
        words(a + seq![' '] + b) == seq![a, b],
        words(a + seq![' '] + b + seq![' '] + c) == seq![a, b, c],
{
    lemma_joined_few(a, b, c, seq![' ']);
    law_words_joined(seq![a]);
    law_words_joined(seq![a, b]);
    law_words_joined(seq![a, b, c]);
}

/// White space is what Unicode counts as such, and nothing else.
pub proof fn law_white_space(c: char)
    ensures
        is_white(c) <==> seq![
            0x9int,
            0xa,
            0xb,
            0xc,
            0xd,
            0x20,
            0x85,
            0xa0,
            0x1680,
            0x2000,
            0x2001,
            0x2002,
            0x2003,
            0x2004,
            0x2005,
            0x2006,
            0x2007,
            0x2008,
            0x2009,
            0x200a,
            0x2028,
            0x2029,
            0x202f,
            0x205f,
            0x3000,
        ].contains(c as int),
{
    let all = seq![
        0x9int,
        0xa,
        0xb,
        0xc,
        0xd,
        0x20,
        0x85,
        0xa0,
        0x1680,
        0x2000,
        0x2001,
        0x2002,
        0x2003,
        0x2004,
        0x2005,
        0x2006,
        0x2007,
        0x2008,
        0x2009,
        0x200a,
        0x2028,
        0x2029,
        0x202f,
        0x205f,
        0x3000,
    ];
    let u = c as int;
    if is_white(c) {
        let i: int = if u <= 0xd {
            u - 9
        } else if u == 0x20 {
            5
        } else if u == 0x85 {
            6
        } else if u == 0xa0 {
            7
        } else if u == 0x1680 {
            8
        } else if u <= 0x200a {
            9 + (u - 0x2000)
        } else if u == 0x2028 {
            20
        } else if u == 0x2029 {
            21
        } else if u == 0x202f {
            22
        } else if u == 0x205f {
            23
        } else {
            24
        };
        assert(all[i] == u);
    }
}

} // verus!
