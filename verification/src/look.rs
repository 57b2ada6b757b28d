//! How things look: initials, colours, shortened texts, and what is bold, code
//! or a link in messages.

use crate::text;
use vstd::prelude::*;

verus! {

/// A letter a to z in upper case; any other character as it is.
pub open spec fn ascii_upper(c: char) -> char {
    if 'a' <= c <= 'z' {
        ((c as u32) - 32) as char
    } else {
        c
    }
}

/// The initials of the name of a chat: those of its first two words; of a
/// single word, its first two characters.
pub open spec fn initials(title: Seq<char>) -> Seq<char> {
    let w = text::words(text::trimmed(text::trim_front(title, text::Class::Sigil)));
    if w.len() == 0 {
        seq!['?']
    } else if w.len() == 1 {
        w[0].take(if w[0].len() < 2 {
            w[0].len() as int
        } else {
            2
        }).map_values(|c: char| ascii_upper(c))
    } else {
        text::uppercase(w[0][0]) + text::uppercase(w[1][0])
    }
}

/// A text of at most `n` characters: one that is longer is cut, and ends in an
/// ellipsis.
pub open spec fn shortened(s: Seq<char>, n: nat) -> Seq<char> {
    if s.len() <= n {
        s
    } else {
        s.take(if n == 0 {
            0
        } else {
            n - 1
        }).push('…')
    }
}

/// The sum of bytes.
pub open spec fn byte_sum(s: Seq<u8>) -> nat
    decreases s.len(),
{
    if s.len() == 0 {
        0
    } else {
        byte_sum(s.drop_last()) + s.last() as nat
    }
}

/// The number of colours for avatars.
pub const COLOURS: u32 = 7;

/// Which of the colours the avatar of a name has.
pub open spec fn colour_index(title: Seq<char>) -> nat {
    ((5381 + 31 * byte_sum(vstd::utf8::encode_utf8(title))) % 0x1_0000_0000) % COLOURS as nat
}

/// The colours for avatars: red, green and blue of each.
pub open spec fn colour(i: nat) -> (u8, u8, u8) {
    if i == 0 {
        (226, 68, 92)
    } else if i == 1 {
        (244, 144, 50)
    } else if i == 2 {
        (70, 178, 90)
    } else if i == 3 {
        (46, 170, 220)
    } else if i == 4 {
        (130, 106, 224)
    } else if i == 5 {
        (226, 98, 176)
    } else {
        (80, 162, 233)
    }
}

/// A piece of a line that looks the same throughout.
pub struct Segment {
    pub text: String,
    pub bold: bool,
    pub code: bool,
    /// Whether the text is an address to be followed.
    pub link: bool,
}

/// The text of a `Segment`.
pub struct SegmentModel {
    pub text: Seq<char>,
    pub bold: bool,
    pub code: bool,
    pub link: bool,
}

impl View for Segment {
    type V = SegmentModel;

    open spec fn view(&self) -> SegmentModel {
        SegmentModel { text: self.text@, bold: self.bold, code: self.code, link: self.link }
    }
}

/// The texts of a list of segments.
pub open spec fn segment_views(v: Seq<Segment>) -> Seq<SegmentModel> {
    v.map_values(|s: Segment| s@)
}

/// The texts of the segments of several lines.
pub open spec fn line_views(v: Seq<Vec<Segment>>) -> Seq<Seq<SegmentModel>> {
    v.map_values(|l: Vec<Segment>| segment_views(l@))
}

/// A segment, where it has a text.
pub open spec fn flushed(text: Seq<char>, bold: bool, code: bool) -> Seq<SegmentModel> {
    if text.len() == 0 {
        Seq::empty()
    } else {
        seq![SegmentModel { text, bold, code, link: false }]
    }
}

/// Where the first three backticks in a row stand; where there are none, no
/// three characters follow.
pub open spec fn fence_at(s: Seq<char>) -> int
    decreases s.len(),
{
    if s.len() < 3 {
        s.len() as int
    } else if s[0] == '`' && s[1] == '`' && s[2] == '`' {
        0
    } else {
        1 + fence_at(s.skip(1))
    }
}

/// Whether a text begins with a block of code: three backticks, and three more
/// further on.
pub open spec fn opens_block(s: Seq<char>) -> bool {
    &&& s.len() >= 3 && s[0] == '`' && s[1] == '`' && s[2] == '`'
    &&& fence_at(s.skip(3)) + 6 <= s.len()
}

/// What stands in the block of code that a text begins with.
pub open spec fn block_text(s: Seq<char>) -> Seq<char> {
    s.subrange(3, 3 + fence_at(s.skip(3)))
}

/// What follows the block of code that a text begins with.
pub open spec fn after_block(s: Seq<char>) -> Seq<char> {
    s.skip(6 + fence_at(s.skip(3)))
}

/// The lines of a block of code: each is one segment.
pub open spec fn block_lines(c: Seq<char>) -> Seq<Seq<SegmentModel>> {
    text::split_on(c, '\n').map_values(
        |l: Seq<char>| seq![SegmentModel { text: l, bold: false, code: true, link: false }],
    )
}

/// How far an address reaches: to white space, a backtick or two stars.
pub open spec fn address_len(s: Seq<char>) -> nat
    decreases s.len(),
{
    if s.len() == 0 || text::is_white(s[0]) || s[0] == '`' || (s.len() >= 2 && s[0] == '*' && s[1]
        == '*') {
        0
    } else {
        1 + address_len(s.skip(1))
    }
}

/// Whether a text begins with the address of a page: a scheme, and something
/// after it.
pub open spec fn begins_link(s: Seq<char>) -> bool {
    ||| "https://"@.is_prefix_of(s) && address_len(s) > "https://"@.len()
    ||| "http://"@.is_prefix_of(s) && address_len(s) > "http://"@.len()
}

/// The lines of a text, each as its segments. Three backticks begin and end a
/// block of code, in which there are no other marks; two stars begin or end
/// what is bold, a backtick begins or ends what is code, to the end of the line
/// at most; an address outside code is a link. `line` and `cur` are what came
/// before in the first line and in its last segment.
pub open spec fn styled(
    s: Seq<char>,
    line: Seq<SegmentModel>,
    cur: Seq<char>,
    bold: bool,
    code: bool,
) -> Seq<Seq<SegmentModel>>
    decreases s.len(),
    via styled_decreases
{
    let none: Seq<char> = Seq::empty();
    let full = line + flushed(cur, bold, code);
    if s.len() == 0 {
        seq![full]
    } else if s[0] == '\n' {
        seq![full] + styled(s.skip(1), Seq::empty(), none, false, false)
    } else if opens_block(s) {
        let block = block_lines(block_text(s));
        if block.len() == 1 {
            styled(after_block(s), full + block[0], none, bold, code)
        } else {
            seq![full + block[0]] + block.subrange(1, block.len() - 1) + styled(
                after_block(s),
                block.last(),
                none,
                false,
                false,
            )
        }
    } else if s.len() >= 2 && s[0] == '*' && s[1] == '*' {
        styled(s.skip(2), full, none, !bold, code)
    } else if s[0] == '`' {
        styled(s.skip(1), full, none, bold, !code)
    } else if !code && begins_link(s) {
        let n = address_len(s);
        styled(
            s.skip(n as int),
            full.push(SegmentModel { text: s.take(n as int), bold, code: false, link: true }),
            none,
            bold,
            code,
        )
    } else {
        styled(s.skip(1), line, cur.push(s[0]), bold, code)
    }
}

#[via_fn]
proof fn styled_decreases(
    s: Seq<char>,
    line: Seq<SegmentModel>,
    cur: Seq<char>,
    bold: bool,
    code: bool,
) {
    if s.len() >= 3 {
        lemma_fence_at(s.skip(3));
    }
    lemma_address_len(s);
}

/// A text without its marks.
pub open spec fn unmarked(s: Seq<char>) -> Seq<char>
    decreases s.len(),
    via unmarked_decreases
{
    if s.len() == 0 {
        s
    } else if opens_block(s) {
        block_text(s) + unmarked(after_block(s))
    } else if s.len() >= 2 && s[0] == '*' && s[1] == '*' {
        unmarked(s.skip(2))
    } else if s[0] == '`' {
        unmarked(s.skip(1))
    } else {
        seq![s[0]] + unmarked(s.skip(1))
    }
}

#[via_fn]
proof fn unmarked_decreases(s: Seq<char>) {
    if s.len() >= 3 {
        lemma_fence_at(s.skip(3));
    }
}

/// The texts of the segments of a line, one after the other.
pub open spec fn line_text(s: Seq<SegmentModel>) -> Seq<char>
    decreases s.len(),
{
    if s.len() == 0 {
        Seq::empty()
    } else {
        line_text(s.drop_last()) + s.last().text
    }
}

/// The texts of lines, with line ends between them.
pub open spec fn lines_text(l: Seq<Seq<SegmentModel>>) -> Seq<char>
    decreases l.len(),
{
    if l.len() == 0 {
        Seq::empty()
    } else if l.len() == 1 {
        line_text(l[0])
    } else {
        lines_text(l.drop_last()) + seq!['\n'] + line_text(l.last())
    }
}

/// A line of a message with its segments.
pub struct RichLine {
    pub line: String,
    pub segments: Vec<Segment>,
}

/// The lines of a message, each as it stands and as its segments.
pub open spec fn shown_lines(message: Seq<char>) -> Seq<(Seq<char>, Seq<SegmentModel>)> {
    let segs = styled(message, Seq::empty(), Seq::empty(), false, false);
    Seq::new(segs.len(), |k: int| (text::split_on(message, '\n')[k], segs[k]))
}

/// The contents of a list of lines.
pub open spec fn rich_views(v: Seq<RichLine>) -> Seq<(Seq<char>, Seq<SegmentModel>)> {
    v.map_values(|l: RichLine| (l.line@, segment_views(l.segments@)))
}

/// The initials of the name of a chat.
pub fn initials_of(title: &str) -> (r: String)
    ensures
        r@ == initials(title@),
{
    let clean = text::trim(text::trim_start_of(title, text::Class::Sigil).as_str());
    let w = text::split_words(clean.as_str());
    let ghost ws = text::words(clean@);
    proof {
        text::lemma_words_not_empty(clean@);
    }
    let mut r = String::new();
    if w.len() == 0 {
        r.push('?');
        assert(r@ =~= seq!['?']);
        return r;
    }
    let a = text::chars_of(w[0].as_str());
    assert(ws[0] == w@[0]@);
    if w.len() == 1 {
        let n = a.len();
        let m: usize = if n < 2 {
            n
        } else {
            2
        };
        let mut i: usize = 0;
        while i < m
            invariant
                i <= m <= a@.len(),
                r@ == a@.take(i as int).map_values(|c: char| ascii_upper(c)),
            decreases m - i,
        {
            let c = upper(a[i]);
            let ghost before = r@;
            r.push(c);
            i += 1;
            assert(r@ =~= a@.take(i as int).map_values(|c: char| ascii_upper(c)));
        }
        return r;
    }
    let b = text::chars_of(w[1].as_str());
    assert(ws[1] == w@[1]@);
    r.append(text::to_uppercase(a[0]).as_str());
    r.append(text::to_uppercase(b[0]).as_str());
    assert(r@ =~= text::uppercase(a@[0]) + text::uppercase(b@[0]));
    r
}

/// A letter a to z in upper case; any other character as it is.
fn upper(c: char) -> (r: char)
    ensures
        r == ascii_upper(c),
{
    if 'a' <= c && c <= 'z' {
        let n: u8 = c as u8;
        (n - 32) as char
    } else {
        c
    }
}

/// A text of at most `n` characters.
pub fn truncate(s: &str, n: usize) -> (r: String)
    ensures
        r@ == shortened(s@, n as nat),
{
    let cs = text::chars_of(s);
    if cs.len() <= n {
        return text::own(s);
    }
    let m: usize = if n == 0 {
        0
    } else {
        n - 1
    };
    let mut r = text::text_of(&cs, 0, m);
    assert(r@ =~= s@.take(m as int));
    r.push('…');
    r
}

/// The colour of the avatar of a name: red, green and blue.
pub fn avatar_color(title: &str) -> (r: (u8, u8, u8))
    ensures
        r == colour(colour_index(title@)),
{
    let bytes = title.as_bytes();
    let ghost bs = vstd::utf8::encode_utf8(title@);
    let mut hash: u32 = 5381;
    let mut i: usize = 0;
    while i < bytes.len()
        invariant
            i <= bytes@.len(),
            bytes@ == bs,
            hash == (5381 + 31 * byte_sum(bs.take(i as int))) % 0x1_0000_0000,
        decreases bytes@.len() - i,
    {
        assert(bs.take(i + 1).drop_last() =~= bs.take(i as int));
        let b: u32 = bytes[i] as u32 * 31;
        hash = hash.wrapping_add(b);
        i += 1;
    }
    assert(bs.take(i as int) =~= bs);
    let k: u32 = hash % COLOURS;
    if k == 0 {
        (226, 68, 92)
    } else if k == 1 {
        (244, 144, 50)
    } else if k == 2 {
        (70, 178, 90)
    } else if k == 3 {
        (46, 170, 220)
    } else if k == 4 {
        (130, 106, 224)
    } else if k == 5 {
        (226, 98, 176)
    } else {
        (80, 162, 233)
    }
}

proof fn lemma_fence_at(s: Seq<char>)
    ensures
        fence_at(s) + 3 <= s.len() ==> s[fence_at(s)] == '`' && s[fence_at(s) + 1] == '`'
            && s[fence_at(s) + 2] == '`',
        0 <= fence_at(s) <= s.len(),
    decreases s.len(),
{
    if s.len() >= 3 && !(s[0] == '`' && s[1] == '`' && s[2] == '`') {
        lemma_fence_at(s.skip(1));
    }
}

proof fn lemma_address_len(s: Seq<char>)
    ensures
        address_len(s) <= s.len(),
    decreases s.len(),
{
    if s.len() > 0 {
        lemma_address_len(s.skip(1));
    }
}

/// Appends a segment, where it has a text.
fn flush(r: &mut Vec<Segment>, cur: String, bold: bool, code: bool)
    ensures
        segment_views(final(r)@) == segment_views(old(r)@) + flushed(cur@, bold, code),
{
    let ghost before = segment_views(r@);
    let ghost f = flushed(cur@, bold, code);
    if !cur.as_str().is_empty() {
        r.push(Segment { text: cur, bold, code, link: false });
    }
    assert(segment_views(r@) =~= before + f);
}

/// Where the first three backticks in a row stand from `from` on.
fn find_fence(cs: &Vec<char>, from: usize) -> (r: usize)
    requires
        from <= cs@.len(),
    ensures
        from <= r <= cs@.len(),
        r - from == fence_at(cs@.skip(from as int)),
{
    let n = cs.len();
    let mut i: usize = from;
    while n - i >= 3 && !(cs[i] == '`' && cs[i + 1] == '`' && cs[i + 2] == '`')
        invariant
            from <= i <= n == cs@.len(),
            fence_at(cs@.skip(from as int)) == (i - from) + fence_at(cs@.skip(i as int)),
        decreases n - i,
    {
        assert(cs@.skip(i as int).skip(1) =~= cs@.skip(i + 1));
        i += 1;
    }
    if n - i >= 3 {
        i
    } else {
        n
    }
}

/// Where an address from `from` on ends.
fn find_address_end(cs: &Vec<char>, from: usize) -> (r: usize)
    requires
        from <= cs@.len(),
    ensures
        from <= r <= cs@.len(),
        r - from == address_len(cs@.skip(from as int)),
{
    let n = cs.len();
    let mut i: usize = from;
    while i < n && !text::white(cs[i]) && cs[i] != '`' && !(n - i >= 2 && cs[i] == '*' && cs[i + 1]
        == '*')
        invariant
            from <= i <= n == cs@.len(),
            address_len(cs@.skip(from as int)) == (i - from) + address_len(cs@.skip(i as int)),
        decreases n - i,
    {
        assert(cs@.skip(i as int).skip(1) =~= cs@.skip(i + 1));
        i += 1;
    }
    i
}

/// Where the address that stands at `from` ends, where there is one.
fn link_end(cs: &Vec<char>, from: usize) -> (r: Option<usize>)
    requires
        from <= cs@.len(),
    ensures
        r is Some <==> begins_link(cs@.skip(from as int)),
        r matches Some(e) ==> from < e <= cs@.len() && e - from == address_len(
            cs@.skip(from as int),
        ),
{
    let ghost s = cs@.skip(from as int);
    let a = text::chars_of("https://");
    let b = text::chars_of("http://");
    let secure = text::piece_at(cs, &a, from);
    let plain = text::piece_at(cs, &b, from);
    proof {
        assert(secure == "https://"@.is_prefix_of(s)) by {
            lemma_prefix_at(cs@, "https://"@, from as int);
        }
        assert(plain == "http://"@.is_prefix_of(s)) by {
            lemma_prefix_at(cs@, "http://"@, from as int);
        }
    }
    let e = find_address_end(cs, from);
    if (secure && e - from > a.len()) || (plain && e - from > b.len()) {
        Some(e)
    } else {
        None
    }
}

proof fn lemma_prefix_at(s: Seq<char>, p: Seq<char>, at: int)
    requires
        0 <= at <= s.len(),
    ensures
        p.is_prefix_of(s.skip(at)) <==> p.len() <= s.len() - at && s.subrange(at, at + p.len()) == p,
{
    if p.len() <= s.len() - at {
        assert(s.skip(at).take(p.len() as int) =~= s.subrange(at, at + p.len()));
    }
}

/// The lines of a block of code.
fn split_block(c: &str) -> (r: Vec<Vec<Segment>>)
    ensures
        line_views(r@) == block_lines(c@),
        r@.len() >= 1,
{
    let ls = text::split(c, '\n');
    let ghost want = block_lines(c@);
    proof {
        text::lemma_split_len(c@, '\n');
    }
    let mut r: Vec<Vec<Segment>> = Vec::new();
    let mut i: usize = 0;
    while i < ls.len()
        invariant
            i <= ls@.len(),
            text::views(ls@) == text::split_on(c@, '\n'),
            want == block_lines(c@),
            line_views(r@) == want.take(i as int),
        decreases ls@.len() - i,
    {
        let mut l: Vec<Segment> = Vec::new();
        l.push(Segment { text: ls[i].clone(), bold: false, code: true, link: false });
        assert(text::views(ls@)[i as int] == ls@[i as int]@);
        assert(segment_views(l@) =~= want[i as int]);
        let ghost before = r@;
        let ghost lv = segment_views(l@);
        r.push(l);
        assert(line_views(r@) =~= line_views(before).push(lv));
        assert(want.take(i + 1) =~= want.take(i as int).push(want[i as int]));
        i += 1;
    }
    assert(want.take(i as int) =~= want);
    r
}

/// Puts the lines of a block of code after what there is: the first of them
/// goes on with the line that was begun, the last is the line that is begun.
fn add_block(done: &mut Vec<Vec<Segment>>, line: &mut Vec<Segment>, block: Vec<Vec<Segment>>)
    requires
        block@.len() >= 1,
    ensures
        ({
            let b = line_views(block@);
            if b.len() == 1 {
                &&& line_views(final(done)@) == line_views(old(done)@)
                &&& segment_views(final(line)@) == segment_views(old(line)@) + b[0]
            } else {
                &&& line_views(final(done)@) == line_views(old(done)@) + (seq![
                    segment_views(old(line)@) + b[0],
                ] + b.subrange(1, b.len() - 1))
                &&& segment_views(final(line)@) == b.last()
            }
        }),
{
    let ghost b = line_views(block@);
    let ghost d = line_views(done@);
    let ghost l = segment_views(line@);
    let ghost all = block@;
    let mut block = block;
    let n = block.len();
    let mut first = block.remove(0);
    let ghost f = first@;
    let ghost mine = line@;
    line.append(&mut first);
    assert(segment_views(line@) =~= l + b[0]) by {
        assert(line@ =~= mine + f);
        assert(b[0] == segment_views(f));
    }
    if n > 1 {
        let mut last: Vec<Segment> = Vec::new();
        std::mem::swap(&mut last, line);
        done.push(last);
        let end = block.remove(n - 2);
        *line = end;
        assert(segment_views(line@) == b.last());
        let ghost mid = block@;
        let ghost now = done@;
        done.append(&mut block);
        proof {
            assert(mid =~= all.subrange(1, n - 1));
            assert(line_views(done@) =~= line_views(now) + line_views(mid));
            assert(line_views(mid) =~= b.subrange(1, b.len() - 1));
            assert(line_views(now) =~= d.push(l + b[0]));
            assert(line_views(done@) =~= d + (seq![l + b[0]] + b.subrange(1, b.len() - 1)));
        }
    }
}

/// The lines of a text, each as its segments.
#[verifier::rlimit(50)]
fn style(message: &str) -> (r: Vec<Vec<Segment>>)
    ensures
        line_views(r@) == styled(message@, Seq::empty(), Seq::empty(), false, false),
{
    let cs = text::chars_of(message);
    let n = cs.len();
    let ghost want = styled(message@, Seq::empty(), Seq::empty(), false, false);
    let mut done: Vec<Vec<Segment>> = Vec::new();
    let mut line: Vec<Segment> = Vec::new();
    let mut cur = String::new();
    let mut bold = false;
    let mut code = false;
    let mut i: usize = 0;
    proof {
        assert(cs@.skip(0) =~= cs@);
        assert(segment_views(line@) =~= Seq::empty());
        assert(line_views(done@) + want =~= want);
    }
    while i < n
        invariant
            i <= n == cs@.len(),
            line_views(done@) + styled(
                cs@.skip(i as int),
                segment_views(line@),
                cur@,
                bold,
                code,
            ) == want,
        decreases n - i,
    {
        let ghost s = cs@.skip(i as int);
        let ghost d = line_views(done@);
        let ghost full = segment_views(line@) + flushed(cur@, bold, code);
        let ghost none: Seq<char> = Seq::empty();
        let c = cs[i];
        assert(s[0] == c);
        assert(s.skip(1) =~= cs@.skip(i + 1));
        let fence = n - i >= 3 && c == '`' && cs[i + 1] == '`' && cs[i + 2] == '`';
        let close = if fence {
            find_fence(&cs, i + 3)
        } else {
            n
        };
        assert(fence ==> s.skip(3) =~= cs@.skip(i + 3));
        if c == '\n' {
            flush(&mut line, cur, bold, code);
            cur = String::new();
            let mut last: Vec<Segment> = Vec::new();
            std::mem::swap(&mut last, &mut line);
            done.push(last);
            bold = false;
            code = false;
            i += 1;
            proof {
                let rest = styled(s.skip(1), Seq::empty(), none, false, false);
                assert(segment_views(line@) =~= Seq::empty());
                assert(line_views(done@) =~= d.push(full));
                assert(d + (seq![full] + rest) =~= line_views(done@) + rest);
            }
        } else if fence && n - close >= 3 {
            assert(opens_block(s));
            let inner = text::text_of(&cs, i + 3, close);
            assert(inner@ =~= block_text(s));
            assert(after_block(s) =~= cs@.skip(close + 3));
            flush(&mut line, cur, bold, code);
            cur = String::new();
            let block = split_block(inner.as_str());
            let many = block.len() > 1;
            let ghost b = line_views(block@);
            add_block(&mut done, &mut line, block);
            if many {
                bold = false;
                code = false;
            }
            i = close + 3;
            proof {
                if many {
                    let rest = styled(after_block(s), b.last(), none, false, false);
                    assert(d + ((seq![full + b[0]] + b.subrange(1, b.len() - 1)) + rest)
                        =~= line_views(done@) + rest);
                }
            }
        } else if n - i >= 2 && c == '*' && cs[i + 1] == '*' {
            assert(s.skip(2) =~= cs@.skip(i + 2));
            flush(&mut line, cur, bold, code);
            cur = String::new();
            bold = !bold;
            i += 2;
        } else if c == '`' {
            flush(&mut line, cur, bold, code);
            cur = String::new();
            code = !code;
            i += 1;
        } else {
            let end = if code {
                None
            } else {
                link_end(&cs, i)
            };
            match end {
                Some(e) => {
                    flush(&mut line, cur, bold, code);
                    cur = String::new();
                    let address = text::text_of(&cs, i, e);
                    assert(address@ =~= s.take(e - i));
                    assert(s.skip(e - i) =~= cs@.skip(e as int));
                    let ghost seg = SegmentModel {
                        text: address@,
                        bold,
                        code: false,
                        link: true,
                    };
                    line.push(Segment { text: address, bold, code: false, link: true });
                    assert(segment_views(line@) =~= full.push(seg));
                    i = e;
                },
                None => {
                    cur.push(c);
                    i += 1;
                },
            }
        }
    }
    let ghost d = line_views(done@);
    let ghost full = segment_views(line@) + flushed(cur@, bold, code);
    assert(cs@.skip(i as int) =~= Seq::<char>::empty());
    flush(&mut line, cur, bold, code);
    done.push(line);
    assert(line_views(done@) =~= d + seq![full]);
    done
}

/// The lines of a message, with their segments.
pub fn rich_lines(message: &str) -> (r: Vec<RichLine>)
    ensures
        rich_views(r@) == shown_lines(message@),
        r@.len() == text::split_on(message@, '\n').len(),
{
    let lines = text::split(message, '\n');
    let mut segs = style(message);
    let ghost ls = text::split_on(message@, '\n');
    let ghost want = shown_lines(message@);
    let ghost all = segs@;
    proof {
        lemma_styled_len(message@, Seq::empty(), Seq::empty(), false, false);
    }
    let mut r: Vec<RichLine> = Vec::new();
    let mut i: usize = 0;
    assert(rich_views(r@) =~= want.take(0));
    while i < lines.len()
        invariant
            i <= lines@.len(),
            ls == text::views(lines@),
            ls == text::split_on(message@, '\n'),
            want == shown_lines(message@),
            want.len() == ls.len() == all.len(),
            line_views(all) == styled(message@, Seq::empty(), Seq::empty(), false, false),
            segs@ == all.skip(i as int),
            rich_views(r@) == want.take(i as int),
        decreases lines@.len() - i,
    {
        assert(ls[i as int] == lines@[i as int]@);
        let s = segs.remove(0);
        assert(s == all[i as int]);
        assert(line_views(all)[i as int] == segment_views(s@));
        let ghost before = r@;
        let ghost l = (ls[i as int], segment_views(s@));
        r.push(RichLine { line: lines[i].clone(), segments: s });
        assert(rich_views(r@) =~= rich_views(before).push(l));
        assert(want.take(i + 1) =~= want.take(i as int).push(want[i as int]));
        assert(segs@ =~= all.skip(i + 1));
        i += 1;
    }
    assert(want.take(i as int) =~= want);
    r
}

proof fn lemma_no_break(s: Seq<char>, n: nat)
    requires
        n <= address_len(s),
    ensures
        !s.take(n as int).contains('\n'),
    decreases n,
{
    lemma_address_len(s);
    if n > 0 {
        lemma_no_break(s.skip(1), (n - 1) as nat);
        let t = s.take(n as int);
        if t.contains('\n') {
            let i = choose|i: int| 0 <= i < t.len() && t[i] == '\n';
            assert(i > 0);
            assert(s.skip(1).take(n - 1)[i - 1] == '\n');
        }
    }
}

/// There are as many lines with segments as there are lines.
proof fn lemma_styled_len(
    s: Seq<char>,
    line: Seq<SegmentModel>,
    cur: Seq<char>,
    bold: bool,
    code: bool,
)
    ensures
        styled(s, line, cur, bold, code).len() == text::split_on(s, '\n').len(),
    decreases s.len(),
{
    let none: Seq<char> = Seq::empty();
    let full = line + flushed(cur, bold, code);
    if s.len() == 0 {
        text::lemma_split_none(s, '\n');
    } else if s[0] == '\n' {
        lemma_styled_len(s.skip(1), Seq::empty(), none, false, false);
        assert(s =~= none + seq!['\n'] + s.skip(1));
        text::lemma_split_first(none, '\n', s.skip(1));
    } else if opens_block(s) {
        lemma_fence_at(s.skip(3));
        let c = block_text(s);
        let rest = after_block(s);
        let block = block_lines(c);
        let mark = seq!['`', '`', '`'];
        assert(s =~= mark + (c + (mark + rest)));
        text::lemma_split_none(mark, '\n');
        text::lemma_split_concat(mark, c + (mark + rest), '\n');
        text::lemma_split_concat(c, mark + rest, '\n');
        text::lemma_split_concat(mark, rest, '\n');
        text::lemma_split_len(c, '\n');
        if block.len() == 1 {
            lemma_styled_len(rest, full + block[0], none, bold, code);
        } else {
            lemma_styled_len(rest, block.last(), none, false, false);
        }
    } else if s.len() >= 2 && s[0] == '*' && s[1] == '*' {
        lemma_styled_len(s.skip(2), full, none, !bold, code);
        assert(s =~= seq!['*', '*'] + s.skip(2));
        text::lemma_split_none(seq!['*', '*'], '\n');
        text::lemma_split_concat(seq!['*', '*'], s.skip(2), '\n');
    } else {
        let n: int = if s[0] != '`' && !code && begins_link(s) {
            address_len(s) as int
        } else {
            1
        };
        lemma_address_len(s);
        let head = s.take(n);
        if s[0] == '`' {
            lemma_styled_len(s.skip(1), full, none, bold, !code);
        } else if !code && begins_link(s) {
            lemma_no_break(s, n as nat);
            lemma_styled_len(
                s.skip(n),
                full.push(SegmentModel { text: head, bold, code: false, link: true }),
                none,
                bold,
                code,
            );
        } else {
            lemma_styled_len(s.skip(1), line, cur.push(s[0]), bold, code);
        }
        assert(s =~= head + s.skip(n));
        text::lemma_split_none(head, '\n');
        text::lemma_split_concat(head, s.skip(n), '\n');
    }
}

/// What can stand in a block of code: backticks too, but no three in a row, and
/// none at the end.
pub open spec fn block_content(c: Seq<char>) -> bool {
    &&& c.len() > 0 ==> c.last() != '`'
    &&& forall|i: int|
        0 <= i < c.len() - 2 && (#[trigger] c[i]) == '`' && c[i + 1] == '`' ==> c[i + 2] != '`'
}

proof fn lemma_no_fence(c: Seq<char>, rest: Seq<char>)
    requires
        block_content(c),
    ensures
        fence_at(c + seq!['`', '`', '`'] + rest) == c.len(),
    decreases c.len(),
{
    let s = c + seq!['`', '`', '`'] + rest;
    if c.len() > 0 {
        let d = c.skip(1);
        assert(d.len() > 0 ==> d.last() == c.last());
        assert forall|i: int|
            0 <= i < d.len() - 2 && (#[trigger] d[i]) == '`' && d[i + 1] == '`' implies d[i + 2]
            != '`' by {
            assert(d[i] == c[i + 1]);
            assert(d[i + 1] == c[i + 2]);
            assert(d[i + 2] == c[i + 3]);
        }
        lemma_no_fence(d, rest);
        assert(s[0] == c[0]);
        assert(c.len() > 1 ==> s[1] == c[1]);
        assert(c.len() > 2 ==> s[2] == c[2]);
        assert(s.skip(1) =~= d + seq!['`', '`', '`'] + rest);
    }
}

/// What stands between two marks of three backticks is shown as code, line by
/// line, and none of it is lost.
pub proof fn law_code_block_shown(c: Seq<char>)
    requires
        block_content(c),
    ensures
        ({
            let mark = seq!['`', '`', '`'];
            let lines = styled(mark + c + mark, Seq::empty(), Seq::empty(), false, false);
            let ls = text::split_on(c, '\n');
            &&& lines.len() == ls.len()
            &&& forall|k: int|
                0 <= k < ls.len() ==> #[trigger] lines[k] == seq![
                    SegmentModel { text: ls[k], bold: false, code: true, link: false },
                ]
        }),
{
    let mark = seq!['`', '`', '`'];
    let none: Seq<char> = Seq::empty();
    let s = mark + c + mark;
    assert(s.skip(3) =~= c + mark + none);
    lemma_no_fence(c, none);
    assert(opens_block(s));
    assert(block_text(s) =~= c);
    assert(after_block(s) =~= none);
    let block = block_lines(c);
    let start: Seq<SegmentModel> = Seq::empty();
    text::lemma_split_len(c, '\n');
    assert(start + flushed(none, false, false) =~= start);
    if block.len() == 1 {
        assert(start + block[0] =~= block[0]);
        assert(block[0] + flushed(none, false, false) =~= block[0]);
        assert(styled(none, block[0], none, false, false) =~= seq![block[0]]);
        assert(styled(s, start, none, false, false) =~= block);
    } else {
        assert(start + block[0] =~= block[0]);
        assert(block.last() + flushed(none, false, false) =~= block.last());
        assert(styled(none, block.last(), none, false, false) =~= seq![block.last()]);
        assert(styled(s, start, none, false, false) =~= block);
    }
}

/// An address by itself is shown as a link to it.
pub proof fn law_link_shown(s: Seq<char>)
    requires
        begins_link(s),
        address_len(s) == s.len(),
    ensures
        styled(s, Seq::empty(), Seq::empty(), false, false) == seq![
            seq![SegmentModel { text: s, bold: false, code: false, link: true }],
        ],
{
    let none: Seq<char> = Seq::empty();
    let start: Seq<SegmentModel> = Seq::empty();
    let seg = SegmentModel { text: s, bold: false, code: false, link: true };
    assert(s.len() > 0);
    assert(s.take(s.len() as int) =~= s);
    assert(s.skip(s.len() as int) =~= none);
    assert(start + flushed(none, false, false) =~= start);
    assert(start.push(seg) =~= seq![seg]);
    assert(seq![seg] + flushed(none, false, false) =~= seq![seg]);
    assert(styled(none, seq![seg], none, false, false) =~= seq![seq![seg]]);
}

proof fn lemma_line_text(a: Seq<SegmentModel>, b: Seq<SegmentModel>)
    ensures
        line_text(a + b) == line_text(a) + line_text(b),
    decreases b.len(),
{
    if b.len() == 0 {
        assert(a + b =~= a);
        assert(line_text(a) + line_text(b) =~= line_text(a));
    } else {
        assert((a + b).drop_last() =~= a + b.drop_last());
        lemma_line_text(a, b.drop_last());
        assert(line_text(a + b) =~= line_text(a) + line_text(b));
    }
}

proof fn lemma_one_segment(seg: SegmentModel)
    ensures
        line_text(seq![seg]) == seg.text,
{
    let none: Seq<SegmentModel> = Seq::empty();
    assert(seq![seg].drop_last() =~= none);
    assert(line_text(none) =~= Seq::empty());
    assert(line_text(seq![seg]) =~= seg.text);
}

proof fn lemma_full_text(line: Seq<SegmentModel>, cur: Seq<char>, bold: bool, code: bool)
    ensures
        line_text(line + flushed(cur, bold, code)) == line_text(line) + cur,
{
    lemma_line_text(line, flushed(cur, bold, code));
    if cur.len() > 0 {
        lemma_one_segment(SegmentModel { text: cur, bold, code, link: false });
    } else {
        assert(line_text(line) + cur =~= line_text(line));
        assert(line_text(line) + line_text(flushed(cur, bold, code)) =~= line_text(line));
    }
}

proof fn lemma_lines_text(a: Seq<Seq<SegmentModel>>, b: Seq<Seq<SegmentModel>>)
    requires
        a.len() > 0,
        b.len() > 0,
    ensures
        lines_text(a + b) == lines_text(a) + seq!['\n'] + lines_text(b),
    decreases b.len(),
{
    assert((a + b).drop_last() =~= a + b.drop_last());
    if b.len() == 1 {
        assert(a + b.drop_last() =~= a);
    } else {
        lemma_lines_text(a, b.drop_last());
        assert(lines_text(a + b) =~= lines_text(a) + seq!['\n'] + lines_text(b));
    }
}

proof fn lemma_one_line(l: Seq<SegmentModel>)
    ensures
        lines_text(seq![l]) == line_text(l),
{
}

#[verifier::spinoff_prover]
proof fn lemma_block_text(c: Seq<char>)
    ensures
        lines_text(block_lines(c)) == c,
    decreases c.len(),
{
    let i = text::index_of(c, '\n');
    text::lemma_index_of(c, '\n');
    let f = |l: Seq<char>| seq![SegmentModel { text: l, bold: false, code: true, link: false }];
    if i < c.len() {
        let head = c.take(i);
        let rest = c.skip(i + 1);
        lemma_block_text(rest);
        text::lemma_split_len(rest, '\n');
        assert(text::split_on(c, '\n') == seq![head] + text::split_on(rest, '\n'));
        assert(block_lines(c) =~= seq![f(head)] + block_lines(rest));
        lemma_lines_text(seq![f(head)], block_lines(rest));
        lemma_one_line(f(head));
        lemma_one_segment(SegmentModel { text: head, bold: false, code: true, link: false });
        assert(c =~= head + seq!['\n'] + rest);
    } else {
        assert(block_lines(c) =~= seq![f(c)]);
        lemma_one_line(f(c));
        lemma_one_segment(SegmentModel { text: c, bold: false, code: true, link: false });
    }
}

proof fn lemma_first_line(first: Seq<SegmentModel>, block: Seq<Seq<SegmentModel>>)
    requires
        block.len() > 0,
    ensures
        lines_text(block.update(0, first + block[0])) == line_text(first) + lines_text(block),
    decreases block.len(),
{
    let b = block.update(0, first + block[0]);
    if block.len() == 1 {
        lemma_line_text(first, block[0]);
    } else {
        assert(b.drop_last() =~= block.drop_last().update(0, first + block[0]));
        lemma_first_line(first, block.drop_last());
        assert(lines_text(b) =~= line_text(first) + lines_text(block));
    }
}

proof fn lemma_address_unmarked(s: Seq<char>, n: nat)
    requires
        n <= address_len(s),
    ensures
        unmarked(s) == s.take(n as int) + unmarked(s.skip(n as int)),
    decreases n,
{
    lemma_address_len(s);
    if n == 0 {
        assert(s.skip(0) =~= s);
        assert(s.take(0) + unmarked(s) =~= unmarked(s));
    } else {
        lemma_address_unmarked(s.skip(1), (n - 1) as nat);
        assert(s.skip(1).skip(n - 1) =~= s.skip(n as int));
        assert(seq![s[0]] + (s.skip(1).take(n - 1) + unmarked(s.skip(n as int))) =~= s.take(
            n as int,
        ) + unmarked(s.skip(n as int)));
    }
}

/// Nothing that is written is lost: the segments of a text hold it without its
/// marks.
pub proof fn law_segments_keep_text(
    s: Seq<char>,
    line: Seq<SegmentModel>,
    cur: Seq<char>,
    bold: bool,
    code: bool,
)
    ensures
        lines_text(styled(s, line, cur, bold, code)) == line_text(line) + cur + unmarked(s),
        styled(s, line, cur, bold, code).len() >= 1,
    decreases s.len(),
{
    let none: Seq<char> = Seq::empty();
    let start: Seq<SegmentModel> = Seq::empty();
    let full = line + flushed(cur, bold, code);
    lemma_full_text(line, cur, bold, code);
    lemma_one_line(full);
    let before = line_text(line) + cur;
    if s.len() == 0 {
        assert(before + unmarked(s) =~= before);
    } else if s[0] == '\n' {
        law_segments_keep_text(s.skip(1), start, none, false, false);
        lemma_lines_text(seq![full], styled(s.skip(1), start, none, false, false));
        assert(line_text(start) + none + unmarked(s.skip(1)) =~= unmarked(s.skip(1)));
        assert(before + seq!['\n'] + unmarked(s.skip(1)) =~= before + unmarked(s));
    } else if opens_block(s) {
        lemma_fence_at(s.skip(3));
        let c = block_text(s);
        let rest = after_block(s);
        let block = block_lines(c);
        text::lemma_split_len(c, '\n');
        lemma_block_text(c);
        if block.len() == 1 {
            law_segments_keep_text(rest, full + block[0], none, bold, code);
            lemma_line_text(full, block[0]);
            assert(before + c + none + unmarked(rest) =~= before + unmarked(s));
        } else {
            let m = block.len() as int;
            law_segments_keep_text(rest, block.last(), none, false, false);
            let a = seq![full + block[0]] + block.subrange(1, m - 1);
            let b = styled(rest, block.last(), none, false, false);
            lemma_lines_text(a, b);
            assert(a =~= block.drop_last().update(0, full + block[0]));
            lemma_first_line(full, block.drop_last());
            assert(lines_text(block) == lines_text(block.drop_last()) + seq!['\n'] + line_text(
                block.last(),
            ));
            assert(before + lines_text(block.drop_last()) + seq!['\n'] + (line_text(block.last())
                + none + unmarked(rest)) =~= before + (c + unmarked(rest)));
        }
    } else if s.len() >= 2 && s[0] == '*' && s[1] == '*' {
        law_segments_keep_text(s.skip(2), full, none, !bold, code);
        assert(before + none + unmarked(s.skip(2)) =~= before + unmarked(s));
    } else if s[0] == '`' {
        law_segments_keep_text(s.skip(1), full, none, bold, !code);
        assert(before + none + unmarked(s.skip(1)) =~= before + unmarked(s));
    } else if !code && begins_link(s) {
        let n = address_len(s);
        lemma_address_len(s);
        lemma_address_unmarked(s, n);
        let seg = SegmentModel { text: s.take(n as int), bold, code: false, link: true };
        law_segments_keep_text(s.skip(n as int), full.push(seg), none, bold, code);
        assert(full.push(seg).drop_last() =~= full);
        assert(before + s.take(n as int) + none + unmarked(s.skip(n as int)) =~= before + unmarked(
            s,
        ));
    } else {
        law_segments_keep_text(s.skip(1), line, cur.push(s[0]), bold, code);
        assert(line_text(line) + cur.push(s[0]) + unmarked(s.skip(1)) =~= before + unmarked(s));
    }
}

/// A shortened text has no more characters than it may have, and one that has
/// room is left as it is.
pub proof fn law_shortened_fits(s: Seq<char>, n: nat)
    requires
        n > 0,
    ensures
        shortened(s, n).len() <= n,
        s.len() <= n ==> shortened(s, n) == s,
{
}

/// What stands above the messages of a day.
pub fn date_label(d: &str, today: &str, yesterday: &str) -> (r: String)
    ensures
        r@ == label_of_day(d@, today@, yesterday@),
        r@ == (if d@ == today@ {
            "Сегодня"@
        } else if d@ == yesterday@ {
            "Вчера"@
        } else {
            d@
        }),
{
    if text::same(d, today) {
        text::own("Сегодня")
    } else if text::same(d, yesterday) {
        text::own("Вчера")
    } else {
        text::own(d)
    }
}

/// The number that is shown of unread messages: 99 stands for more.
pub fn badge(unread: usize) -> (r: usize)
    ensures
        r == badge_of(unread as nat),
        r == (if unread < 99 {
            unread
        } else {
            99
        }),
{
    if unread < 99 {
        unread
    } else {
        99
    }
}

/// What is shown below the name of a user.
pub fn user_line(at: &str, online: bool) -> (r: String)
    ensures
        r@ == line_of_user(at@, online),
        r@ == at@ + " · "@ + (if online {
            "в сети"@
        } else {
            "не в сети"@
        }),
{
    if online {
        text::cat3(at, " · ", "в сети")
    } else {
        text::cat3(at, " · ", "не в сети")
    }
}

/// A text with the angle brackets written so that they are not markup.
pub open spec fn escaped(s: Seq<char>) -> Seq<char> {
    text::replaced(text::replaced(s, '<', "&lt;"@), '>', "&gt;"@)
}

/// A text with the angle brackets written so that they are not markup.
fn escape(s: &str) -> (r: String)
    ensures
        r@ == escaped(s@),
{
    let a = text::replace(s, '<', "&lt;");
    text::replace(a.as_str(), '>', "&gt;")
}

/// The script that shows a notification on Windows.
pub fn toast_script(title: &str, body: &str) -> (r: String)
    ensures
        r@ == "[Windows.UI.Notifications.ToastNotificationManager, Windows.UI.Notifications, ContentType = WindowsRuntime] | Out-Null; \\\n         [Windows.Data.Xml.Dom.XmlDocument, Windows.Data.Xml.Dom, ContentType = WindowsRuntime] | Out-Null; \\\n         $template = '<toast><visual><binding template=\"ToastGeneric\"><text>"@
            + escaped(title@) + "</text><text>"@ + escaped(body@)
            + "</text></binding></visual></toast>'; \\\n         $xml = New-Object Windows.Data.Xml.Dom.XmlDocument; \\\n         $xml.LoadXml($template); \\\n         $toast = [Windows.UI.Notifications.ToastNotification]::new($xml); \\\n         [Windows.UI.Notifications.ToastNotificationManager]::CreateToastNotifier(\"MeshMessenger\").Show($toast)"@,
{
    let mut r = text::own(
        "[Windows.UI.Notifications.ToastNotificationManager, Windows.UI.Notifications, ContentType = WindowsRuntime] | Out-Null; \\\n         [Windows.Data.Xml.Dom.XmlDocument, Windows.Data.Xml.Dom, ContentType = WindowsRuntime] | Out-Null; \\\n         $template = '<toast><visual><binding template=\"ToastGeneric\"><text>",
    );
    r.append(escape(title).as_str());
    r.append("</text><text>");
    r.append(escape(body).as_str());
    r.append(
        "</text></binding></visual></toast>'; \\\n         $xml = New-Object Windows.Data.Xml.Dom.XmlDocument; \\\n         $xml.LoadXml($template); \\\n         $toast = [Windows.UI.Notifications.ToastNotification]::new($xml); \\\n         [Windows.UI.Notifications.ToastNotificationManager]::CreateToastNotifier(\"MeshMessenger\").Show($toast)",
    );
    r
}

/// A shortened text is the beginning of the text, with an ellipsis in place of
/// what is missing.
pub proof fn law_shortened_begins(s: Seq<char>, n: nat)
    requires
        0 < n < s.len(),
    ensures
        shortened(s, n).len() == n,
        shortened(s, n).drop_last() == s.take(n - 1),
        shortened(s, n)[n - 1] == '…',
{
    assert(shortened(s, n).drop_last() =~= s.take(n - 1));
}

/// The initials of two words are those of the first two, in upper case; those of
/// one word are its first two letters; a name without any is shown by a question
/// mark. The marks before a name do not count.
pub proof fn law_initials(a: Seq<char>, b: Seq<char>, c: Seq<char>)
    requires
        text::one_word(a),
        text::one_word(b),
        text::one_word(c),
        !text::in_class(text::Class::Sigil, a[0]),
    ensures
        initials(a + seq![' '] + b) == text::uppercase(a[0]) + text::uppercase(b[0]),
        initials(a + seq![' '] + b + seq![' '] + c) == text::uppercase(a[0]) + text::uppercase(
            b[0],
        ),
        initials(seq!['@'] + a) == initials(a),
        initials(seq!['#', ' '] + a) == initials(a),
        a.len() >= 2 ==> initials(a).len() == 2 && (forall|i: int|
            0 <= i < 2 ==> (!('a' <= a[i] <= 'z') ==> #[trigger] initials(a)[i] == a[i]) && ('a'
                <= a[i] <= 'z' ==> initials(a)[i] as int == a[i] as int - 32)),
        initials(Seq::empty()) == seq!['?'],
{
    let sig = text::Class::Sigil;
    let none: Seq<char> = Seq::empty();
    text::lemma_few_words(a, b, c);
    let two = a + seq![' '] + b;
    let three = a + seq![' '] + b + seq![' '] + c;
    assert(two[0] == a[0] && two.last() == b[b.len() - 1]);
    assert(three[0] == a[0] && three.last() == c[c.len() - 1]);
    text::lemma_trimmed_same(two);
    text::lemma_trimmed_same(three);
    text::lemma_trimmed_same(a);
    assert(!text::is_white(a[0]) && !text::is_white(a[a.len() - 1]));
    assert(!text::is_white(b[b.len() - 1]) && !text::is_white(c[c.len() - 1]));
    assert(text::trim_front(two, sig) == two);
    assert(text::trim_front(three, sig) == three);
    assert(text::trim_front(a, sig) == a);
    let at = seq!['@'] + a;
    assert(at.drop_first() =~= a);
    assert(text::trim_front(at, sig) == a);
    let room = seq!['#', ' '] + a;
    let rest = seq![' '] + a;
    assert(room.drop_first() =~= rest);
    assert(text::trim_front(rest, sig) == rest);
    assert(text::trim_front(room, sig) == rest);
    assert(rest.drop_first() =~= a);
    assert(text::trim_front(a, text::Class::White) == a);
    assert(text::trim_front(rest, text::Class::White) == a);
    assert(text::trim_back(a, text::Class::White) == a);
    assert(text::trim_front(none, sig) == none);
    assert(text::trimmed(none) =~= none);
    assert(text::words(none).len() == 0);
}

/// Every avatar has one of the seven colours, and no two of these are the same:
/// they are the ones listed here, in this order.
pub proof fn law_colours(title: Seq<char>, i: nat, j: nat)
    requires
        i < 7,
        j < 7,
        i != j,
    ensures
        colour_index(title) < 7,
        colour(i) != colour(j),
        colour(i) == seq![
            (226u8, 68u8, 92u8),
            (244u8, 144u8, 50u8),
            (70u8, 178u8, 90u8),
            (46u8, 170u8, 220u8),
            (130u8, 106u8, 224u8),
            (226u8, 98u8, 176u8),
            (80u8, 162u8, 233u8),
        ][i as int],
{
}

/// A text that is shown in a notification holds no bracket of markup, and is
/// left as it is where there was none.
pub proof fn law_escaped(s: Seq<char>)
    ensures
        !escaped(s).contains('<'),
        !escaped(s).contains('>'),
        !s.contains('<') && !s.contains('>') ==> escaped(s) == s,
{
    reveal_strlit("&lt;");
    reveal_strlit("&gt;");
    let none: Seq<char> = Seq::empty();
    let a = text::replaced(s, '<', "&lt;"@);
    text::law_replaced(s, none, '<', "&lt;"@);
    text::law_replaced(a, none, '>', "&gt;"@);
    lemma_replaced_lacks(a, '>', "&gt;"@, '<');
}

proof fn lemma_replaced_lacks(s: Seq<char>, c: char, with: Seq<char>, x: char)
    requires
        !s.contains(x),
        !with.contains(x),
    ensures
        !text::replaced(s, c, with).contains(x),
    decreases s.len(),
{
    if s.len() > 0 {
        let d = s.drop_last();
        assert(s.contains(s.last()));
        if d.contains(x) {
            let i = choose|i: int| 0 <= i < d.len() && d[i] == x;
            assert(s[i] == x);
        }
        lemma_replaced_lacks(d, c, with, x);
        let r = text::replaced(d, c, with);
        let t = text::replaced(s, c, with);
        if t.contains(x) {
            let i = choose|i: int| 0 <= i < t.len() && t[i] == x;
            if i < r.len() {
                assert(r[i] == x);
            } else if s.last() == c {
                assert(with[i - r.len()] == x);
            }
        }
    }
}

/// A text without marks, line ends and addresses.
pub open spec fn unadorned(t: Seq<char>) -> bool {
    forall|i: int|
        0 <= i < t.len() ==> (#[trigger] t[i]) != '*' && t[i] != '`' && t[i] != '\n' && t[i]
            != ':'
}

proof fn lemma_no_link(s: Seq<char>, i: int)
    requires
        0 <= i < s.len(),
        forall|k: int| 0 <= k < i ==> (#[trigger] s[k]) != ':',
        i < 4 ==> s[i] == '*' || s[i] == '`' || s[i] == '\n',
        i >= 4 ==> s[4] != ':' && (i >= 5 ==> s[5] != ':') && (i == 4 ==> s[4] == '*' || s[4] == '`'
            || s[4] == '\n') && (i == 5 ==> s[5] == '*' || s[5] == '`' || s[5] == '\n'),
    ensures
        !begins_link(s),
{
    reveal_strlit("https://");
    reveal_strlit("http://");
    if "https://"@.is_prefix_of(s) {
        let p = s.subrange(0, 8);
        assert(p[0] == s[0] && p[1] == s[1] && p[2] == s[2] && p[3] == s[3] && p[4] == s[4] && p[5]
            == s[5]);
        if i < 4 {
            assert(p[i] == s[i]);
        }
    }
    if "http://"@.is_prefix_of(s) {
        let p = s.subrange(0, 7);
        assert(p[0] == s[0] && p[1] == s[1] && p[2] == s[2] && p[3] == s[3] && p[4] == s[4]);
        if i < 4 {
            assert(p[i] == s[i]);
        }
    }
}

proof fn lemma_short_no_link(s: Seq<char>)
    requires
        forall|k: int| 0 <= k < s.len() ==> (#[trigger] s[k]) != ':',
    ensures
        !begins_link(s),
{
    reveal_strlit("https://");
    reveal_strlit("http://");
    if "https://"@.is_prefix_of(s) {
        assert(s.subrange(0, 8)[5] == s[5]);
    }
    if "http://"@.is_prefix_of(s) {
        assert(s.subrange(0, 7)[4] == s[4]);
    }
}

/// A text without marks goes as a whole into the segment that is being read.
proof fn lemma_unadorned(
    t: Seq<char>,
    rest: Seq<char>,
    line: Seq<SegmentModel>,
    cur: Seq<char>,
    bold: bool,
    code: bool,
)
    requires
        unadorned(t),
        rest.len() == 0 || rest[0] == '*' || rest[0] == '`' || rest[0] == '\n',
    ensures
        styled(t + rest, line, cur, bold, code) == styled(rest, line, cur + t, bold, code),
    decreases t.len(),
{
    if t.len() == 0 {
        assert(t + rest =~= rest);
        assert(cur + t =~= cur);
    } else {
        let s = t + rest;
        let d = t.drop_first();
        assert(s[0] == t[0]);
        assert forall|i: int| 0 <= i < d.len() implies (#[trigger] d[i]) != '*' && d[i] != '`'
            && d[i] != '\n' && d[i] != ':' by {
            assert(d[i] == t[i + 1]);
        }
        assert forall|k: int| 0 <= k < t.len() implies (#[trigger] s[k]) != ':' by {
            assert(s[k] == t[k]);
        }
        if rest.len() == 0 {
            lemma_short_no_link(s);
        } else {
            assert(s[t.len() as int] == rest[0]);
            lemma_no_link(s, t.len() as int);
        }
        assert(!opens_block(s));
        assert(s.skip(1) =~= d + rest);
        lemma_unadorned(d, rest, line, cur.push(t[0]), bold, code);
        assert(cur.push(t[0]) + d =~= cur + t);
    }
}

/// Text between two stars and two stars is shown bold, text between two
/// backticks as code, and text without marks as it is; nothing of it is a link.
pub proof fn law_marks_shown(t: Seq<char>)
    requires
        t.len() > 0,
        unadorned(t),
    ensures
        styled(t, Seq::empty(), Seq::empty(), false, false) == seq![
            seq![SegmentModel { text: t, bold: false, code: false, link: false }],
        ],
        styled(
            seq!['*', '*'] + t + seq!['*', '*'],
            Seq::empty(),
            Seq::empty(),
            false,
            false,
        ) == seq![seq![SegmentModel { text: t, bold: true, code: false, link: false }]],
        styled(seq!['`'] + t + seq!['`'], Seq::empty(), Seq::empty(), false, false) == seq![
            seq![SegmentModel { text: t, bold: false, code: true, link: false }],
        ],
{
    let none: Seq<char> = Seq::empty();
    let start: Seq<SegmentModel> = Seq::empty();
    let nothing = flushed(none, false, false);
    assert(nothing =~= start);
    assert(start + nothing =~= start);
    assert(none + t =~= t);
    // plain
    let plain = SegmentModel { text: t, bold: false, code: false, link: false };
    lemma_unadorned(t, none, start, none, false, false);
    assert(t + none =~= t);
    assert(start + flushed(t, false, false) =~= seq![plain]);
    assert(styled(none, start, t, false, false) =~= seq![seq![plain]]);
    // bold
    let stars = seq!['*', '*'];
    let strong = SegmentModel { text: t, bold: true, code: false, link: false };
    let b = stars + t + stars;
    assert(b.skip(2) =~= t + stars);
    assert(!opens_block(b));
    assert(styled(b, start, none, false, false) == styled(t + stars, start, none, true, false));
    lemma_unadorned(t, stars, start, none, true, false);
    assert(start + flushed(t, true, false) =~= seq![strong]);
    assert(stars.skip(2) =~= none);
    assert(!opens_block(stars));
    assert(styled(stars, start, t, true, false) == styled(none, seq![strong], none, false, false));
    assert(seq![strong] + nothing =~= seq![strong]);
    assert(styled(none, seq![strong], none, false, false) =~= seq![seq![strong]]);
    // code
    let tick = seq!['`'];
    let mono = SegmentModel { text: t, bold: false, code: true, link: false };
    let c = tick + t + tick;
    assert(c.skip(1) =~= t + tick);
    assert(c[1] == t[0]);
    assert(!opens_block(c));
    assert(styled(c, start, none, false, false) == styled(t + tick, start, none, false, true));
    lemma_unadorned(t, tick, start, none, false, true);
    assert(start + flushed(t, false, true) =~= seq![mono]);
    assert(tick.skip(1) =~= none);
    assert(!opens_block(tick));
    assert(styled(tick, start, t, false, true) == styled(none, seq![mono], none, false, false));
    assert(seq![mono] + nothing =~= seq![mono]);
    assert(styled(none, seq![mono], none, false, false) =~= seq![seq![mono]]);
}

/// Each line of a message is shown as a line of its own, and no mark reaches
/// into the next line.
pub proof fn law_lines_apart(t: Seq<char>, rest: Seq<char>)
    requires
        t.len() > 0,
        unadorned(t),
    ensures
        styled(t + (seq!['\n'] + rest), Seq::empty(), Seq::empty(), false, false) == seq![
            seq![SegmentModel { text: t, bold: false, code: false, link: false }],
        ] + styled(rest, Seq::empty(), Seq::empty(), false, false),
        styled(
            seq!['*', '*'] + (t + (seq!['\n'] + rest)),
            Seq::empty(),
            Seq::empty(),
            false,
            false,
        ) == seq![seq![SegmentModel { text: t, bold: true, code: false, link: false }]] + styled(
            rest,
            Seq::empty(),
            Seq::empty(),
            false,
            false,
        ),
{
    let none: Seq<char> = Seq::empty();
    let start: Seq<SegmentModel> = Seq::empty();
    let nothing = flushed(none, false, false);
    assert(nothing =~= start);
    assert(start + nothing =~= start);
    assert(none + t =~= t);
    let end = seq!['\n'] + rest;
    assert(end.skip(1) =~= rest);
    let plain = SegmentModel { text: t, bold: false, code: false, link: false };
    lemma_unadorned(t, end, start, none, false, false);
    assert(start + flushed(t, false, false) =~= seq![plain]);
    let strong = SegmentModel { text: t, bold: true, code: false, link: false };
    let b = seq!['*', '*'] + (t + end);
    assert(b.skip(2) =~= t + end);
    assert(!opens_block(b));
    assert(styled(b, start, none, false, false) == styled(t + end, start, none, true, false));
    lemma_unadorned(t, end, start, none, true, false);
    assert(start + flushed(t, true, false) =~= seq![strong]);
}

/// What is shown of a message has one entry for each of its lines, with the line
/// as it stands.
pub proof fn law_shown_lines(message: Seq<char>, k: int)
    requires
        0 <= k < text::split_on(message, '\n').len(),
    ensures
        shown_lines(message).len() == text::split_on(message, '\n').len(),
        shown_lines(message)[k].0 == text::split_on(message, '\n')[k],
        shown_lines(message)[k].1 == styled(
            message,
            Seq::empty(),
            Seq::empty(),
            false,
            false,
        )[k],
{
    lemma_styled_len(message, Seq::empty(), Seq::empty(), false, false);
}

/// What stands above the messages of a day.
pub open spec fn label_of_day(d: Seq<char>, today: Seq<char>, yesterday: Seq<char>) -> Seq<char> {
    if d == today {
        "Сегодня"@
    } else if d == yesterday {
        "Вчера"@
    } else {
        d
    }
}

/// The messages of today stand below "Сегодня", those of yesterday below
/// "Вчера", and those of another day below its date.
pub proof fn law_day_labelled(d: Seq<char>, today: Seq<char>, yesterday: Seq<char>)
    requires
        today != yesterday,
    ensures
        label_of_day(today, today, yesterday) == "Сегодня"@,
        label_of_day(yesterday, today, yesterday) == "Вчера"@,
        d != today && d != yesterday ==> label_of_day(d, today, yesterday) == d,
        "Сегодня"@ != "Вчера"@,
{
    reveal_strlit("Сегодня");
    reveal_strlit("Вчера");
    assert("Сегодня"@.len() != "Вчера"@.len());
}

/// The number that is shown of unread messages.
pub open spec fn badge_of(unread: nat) -> nat {
    if unread < 99 {
        unread
    } else {
        99
    }
}

/// The number of unread messages is shown as it is up to 99, and never more.
pub proof fn law_badge(unread: nat, more: nat)
    requires
        unread <= more,
    ensures
        badge_of(unread) <= 99,
        unread <= 99 ==> badge_of(unread) == unread,
        badge_of(unread) <= badge_of(more),
{
}

/// What is shown below the name of a user.
pub open spec fn line_of_user(at: Seq<char>, online: bool) -> Seq<char> {
    at + " · "@ + (if online {
        "в сети"@
    } else {
        "не в сети"@
    })
}

/// Below the name of a user stand the @username and whether the user is online.
pub proof fn law_user_line(at: Seq<char>)
    ensures
        at.is_prefix_of(line_of_user(at, true)),
        at.is_prefix_of(line_of_user(at, false)),
        line_of_user(at, true).skip(at.len() as int) == " · в сети"@,
        line_of_user(at, false).skip(at.len() as int) == " · не в сети"@,
{
    reveal_strlit(" · ");
    reveal_strlit("в сети");
    reveal_strlit("не в сети");
    reveal_strlit(" · в сети");
    reveal_strlit(" · не в сети");
    let a = line_of_user(at, true);
    let b = line_of_user(at, false);
    assert(a.subrange(0, at.len() as int) =~= at);
    assert(b.subrange(0, at.len() as int) =~= at);
    assert(a.skip(at.len() as int) =~= " · в сети"@);
    assert(b.skip(at.len() as int) =~= " · не в сети"@);
}

/// The colour of an avatar comes from every byte of the name: it goes by the sum
/// of them.
pub proof fn law_colour_from_bytes(a: Seq<u8>, b: Seq<u8>, x: u8, title: Seq<char>)
    ensures
        byte_sum(a + b) == byte_sum(a) + byte_sum(b),
        byte_sum(seq![x]) == x,
        colour_index(title) == (5381 + 31 * byte_sum(vstd::utf8::encode_utf8(title))) % 4294967296
            % 7,
    decreases b.len(),
{
    let none: Seq<u8> = Seq::empty();
    assert(seq![x].drop_last() =~= none);
    assert(byte_sum(none) == 0);
    if b.len() == 0 {
        assert(a + b =~= a);
    } else {
        law_colour_from_bytes(a, b.drop_last(), x, title);
        assert((a + b).drop_last() =~= a + b.drop_last());
    }
}

/// Each angle bracket is written as its entity, and all else as it stands.
pub proof fn law_brackets_escaped(a: Seq<char>, b: Seq<char>)
    ensures
        escaped(a + seq!['<'] + b) == escaped(a) + seq!['&', 'l', 't', ';'] + escaped(b),
        escaped(a + seq!['>'] + b) == escaped(a) + seq!['&', 'g', 't', ';'] + escaped(b),
{
    reveal_strlit("&lt;");
    reveal_strlit("&gt;");
    let lt = "&lt;"@;
    let gt = "&gt;"@;
    assert(lt =~= seq!['&', 'l', 't', ';']);
    assert(gt =~= seq!['&', 'g', 't', ';']);
    let none: Seq<char> = Seq::empty();
    let x = text::replaced(a, '<', lt);
    let y = text::replaced(b, '<', lt);
    text::law_replaced(a + seq!['<'], b, '<', lt);
    text::law_replaced(a, seq!['<'], '<', lt);
    text::law_replaced(x + lt, y, '>', gt);
    text::law_replaced(x, lt, '>', gt);
    assert(!lt.contains('>'));
    text::law_replaced(lt, none, '>', gt);
    text::law_replaced(a + seq!['>'], b, '<', lt);
    text::law_replaced(a, seq!['>'], '<', lt);
    assert(!seq!['>'].contains('<'));
    text::law_replaced(seq!['>'], none, '<', lt);
    text::law_replaced(x + seq!['>'], y, '>', gt);
    text::law_replaced(x, seq!['>'], '>', gt);
}

/// What can stand in an address: no white space and no mark; a single star is
/// none.
pub open spec fn address_text(a: Seq<char>) -> bool {
    &&& forall|i: int| 0 <= i < a.len() ==> !text::is_white(#[trigger] a[i]) && a[i] != '`'
    &&& forall|i: int| 0 <= i < a.len() - 1 && (#[trigger] a[i]) == '*' ==> a[i + 1] != '*'
}

/// What ends an address: white space, a backtick, or two stars.
pub open spec fn ends_address(a: Seq<char>, rest: Seq<char>) -> bool {
    ||| rest.len() == 0
    ||| text::is_white(rest[0])
    ||| rest[0] == '`'
    ||| rest.len() >= 2 && rest[0] == '*' && rest[1] == '*' && (a.len() == 0 || a.last() != '*')
}

proof fn lemma_address(a: Seq<char>, rest: Seq<char>)
    requires
        address_text(a),
        ends_address(a, rest),
    ensures
        address_len(a + rest) == a.len(),
    decreases a.len(),
{
    let s = a + rest;
    if a.len() == 0 {
        assert(s =~= rest);
    } else {
        let d = a.drop_first();
        assert(s[0] == a[0]);
        assert forall|i: int| 0 <= i < d.len() implies !text::is_white(#[trigger] d[i]) && d[i]
            != '`' by {
            assert(d[i] == a[i + 1]);
        }
        assert forall|i: int| 0 <= i < d.len() - 1 && (#[trigger] d[i]) == '*' implies d[i + 1]
            != '*' by {
            assert(d[i] == a[i + 1]);
            assert(d[i + 1] == a[i + 2]);
        }
        assert(d.len() > 0 ==> d.last() == a.last() && s[1] == a[1]);
        assert(d.len() == 0 && rest.len() > 0 ==> s[1] == rest[0]);
        assert(!text::is_white('*'));
        lemma_address(d, rest);
        assert(s.skip(1) =~= d + rest);
    }
}

/// A text without marks stands in code as it is, addresses too.
proof fn lemma_in_code(
    t: Seq<char>,
    rest: Seq<char>,
    line: Seq<SegmentModel>,
    cur: Seq<char>,
    bold: bool,
)
    requires
        address_text(t),
        rest.len() == 0 || rest[0] != '*',
    ensures
        styled(t + rest, line, cur, bold, true) == styled(rest, line, cur + t, bold, true),
    decreases t.len(),
{
    if t.len() == 0 {
        assert(t + rest =~= rest);
        assert(cur + t =~= cur);
    } else {
        let s = t + rest;
        let d = t.drop_first();
        assert(s[0] == t[0]);
        assert forall|i: int| 0 <= i < d.len() implies !text::is_white(#[trigger] d[i]) && d[i]
            != '`' by {
            assert(d[i] == t[i + 1]);
        }
        assert forall|i: int| 0 <= i < d.len() - 1 && (#[trigger] d[i]) == '*' implies d[i + 1]
            != '*' by {
            assert(d[i] == t[i + 1]);
            assert(d[i + 1] == t[i + 2]);
        }
        assert(text::is_white('\n'));
        assert(d.len() > 0 ==> s[1] == t[1]);
        assert(d.len() == 0 && rest.len() > 0 ==> s[1] == rest[0]);
        assert(!opens_block(s));
        assert(s.skip(1) =~= d + rest);
        lemma_in_code(d, rest, line, cur.push(t[0]), bold);
        assert(cur.push(t[0]) + d =~= cur + t);
    }
}

proof fn lemma_link_in_text(p: Seq<char>, t: Seq<char>)
    requires
        p.len() > 0,
        address_text(p),
        forall|rest: Seq<char>| address_len(p + rest) == p.len() ==> #[trigger] begins_link(p + rest),
        unadorned(t),
    ensures
        styled(p + (seq![' '] + t), Seq::empty(), Seq::empty(), false, false) == seq![
            seq![
                SegmentModel { text: p, bold: false, code: false, link: true },
                SegmentModel { text: seq![' '] + t, bold: false, code: false, link: false },
            ],
        ],
        styled(seq!['`'] + (p + seq!['`']), Seq::empty(), Seq::empty(), false, false) == seq![
            seq![SegmentModel { text: p, bold: false, code: true, link: false }],
        ],
        p.last() != '*' && t.len() > 0 ==> styled(
            p + (seq!['*', '*'] + t),
            Seq::empty(),
            Seq::empty(),
            false,
            false,
        ) == seq![
            seq![
                SegmentModel { text: p, bold: false, code: false, link: true },
                SegmentModel { text: t, bold: true, code: false, link: false },
            ],
        ],
{
    let none: Seq<char> = Seq::empty();
    let start: Seq<SegmentModel> = Seq::empty();
    let nothing = flushed(none, false, false);
    assert(nothing =~= start);
    assert(start + nothing =~= start);
    assert(!text::is_white('*'));
    assert(text::is_white(' ') && text::is_white('\n'));
    // followed by text
    let rest = seq![' '] + t;
    let s = p + rest;
    lemma_address(p, rest);
    assert(begins_link(p + rest));
    assert(s[0] == p[0]);
    assert(s[1] == (if p.len() > 1 {
        p[1]
    } else {
        ' '
    }));
    assert(!opens_block(s));
    let link = SegmentModel { text: p, bold: false, code: false, link: true };
    assert(s.take(p.len() as int) =~= p);
    assert(s.skip(p.len() as int) =~= rest);
    assert(start.push(link) =~= seq![link]);
    assert(styled(s, start, none, false, false) == styled(rest, seq![link], none, false, false));
    assert(unadorned(rest)) by {
        assert forall|i: int| 0 <= i < rest.len() implies (#[trigger] rest[i]) != '*' && rest[i]
            != '`' && rest[i] != '\n' && rest[i] != ':' by {
            if i > 0 {
                assert(rest[i] == t[i - 1]);
            }
        }
    }
    lemma_unadorned(rest, none, seq![link], none, false, false);
    assert(rest + none =~= rest);
    assert(none + rest =~= rest);
    let plain = SegmentModel { text: rest, bold: false, code: false, link: false };
    assert(seq![link] + flushed(rest, false, false) =~= seq![link, plain]);
    assert(styled(none, seq![link], rest, false, false) =~= seq![seq![link, plain]]);
    // followed by bold text
    if p.last() != '*' && t.len() > 0 {
        let stars = seq!['*', '*'];
        let more = stars + t;
        let b = p + more;
        lemma_address(p, more);
        assert(begins_link(p + more));
        assert(b[0] == p[0]);
        assert(p.len() > 1 ==> b[1] == p[1]);
        assert(!opens_block(b));
        assert(b.take(p.len() as int) =~= p);
        assert(b.skip(p.len() as int) =~= more);
        assert(styled(b, start, none, false, false) == styled(
            more,
            seq![link],
            none,
            false,
            false,
        ));
        assert(!opens_block(more));
        assert(more.skip(2) =~= t);
        assert(seq![link] + nothing =~= seq![link]);
        assert(styled(more, seq![link], none, false, false) == styled(
            t,
            seq![link],
            none,
            true,
            false,
        ));
        lemma_unadorned(t, none, seq![link], none, true, false);
        assert(t + none =~= t);
        assert(none + t =~= t);
        let strong = SegmentModel { text: t, bold: true, code: false, link: false };
        assert(seq![link] + flushed(t, true, false) =~= seq![link, strong]);
        assert(styled(none, seq![link], t, true, false) =~= seq![seq![link, strong]]);
    }
    // in code
    let tick = seq!['`'];
    let c = tick + (p + tick);
    let mono = SegmentModel { text: p, bold: false, code: true, link: false };
    assert(c.skip(1) =~= p + tick);
    assert(c[1] == p[0]);
    assert(!opens_block(c));
    assert(styled(c, start, none, false, false) == styled(p + tick, start, none, false, true));
    lemma_in_code(p, tick, start, none, false);
    assert(none + p =~= p);
    assert(start + flushed(p, false, true) =~= seq![mono]);
    assert(tick.skip(1) =~= none);
    assert(!opens_block(tick));
    assert(styled(tick, start, p, false, true) == styled(none, seq![mono], none, false, false));
    assert(seq![mono] + nothing =~= seq![mono]);
    assert(styled(none, seq![mono], none, false, false) =~= seq![seq![mono]]);
}

/// An address of either scheme is a link, up to the white space or the two stars
/// after it; what follows is text. In code it is none.
pub proof fn law_addresses_are_links(a: Seq<char>, t: Seq<char>, secure: bool)
    requires
        a.len() > 0,
        address_text(a),
        unadorned(t),
    ensures
        ({
            let p = (if secure {
                "https://"@
            } else {
                "http://"@
            }) + a;
            &&& styled(p + (seq![' '] + t), Seq::empty(), Seq::empty(), false, false) == seq![
                seq![
                    SegmentModel { text: p, bold: false, code: false, link: true },
                    SegmentModel { text: seq![' '] + t, bold: false, code: false, link: false },
                ],
            ]
            &&& styled(seq!['`'] + (p + seq!['`']), Seq::empty(), Seq::empty(), false, false)
                == seq![seq![SegmentModel { text: p, bold: false, code: true, link: false }]]
            &&& a.last() != '*' && t.len() > 0 ==> styled(
                p + (seq!['*', '*'] + t),
                Seq::empty(),
                Seq::empty(),
                false,
                false,
            ) == seq![
                seq![
                    SegmentModel { text: p, bold: false, code: false, link: true },
                    SegmentModel { text: t, bold: true, code: false, link: false },
                ],
            ]
        }),
{
    reveal_strlit("https://");
    reveal_strlit("http://");
    let scheme = if secure {
        "https://"@
    } else {
        "http://"@
    };
    let p = scheme + a;
    let n = scheme.len();
    assert forall|i: int| 0 <= i < p.len() implies !text::is_white(#[trigger] p[i]) && p[i] != '`'
        by {
        if i < n {
            assert(p[i] == scheme[i]);
        } else {
            assert(p[i] == a[i - n]);
        }
    }
    assert forall|i: int| 0 <= i < p.len() - 1 && (#[trigger] p[i]) == '*' implies p[i + 1]
        != '*' by {
        if i < n {
            assert(p[i] == scheme[i]);
        } else {
            assert(p[i] == a[i - n]);
            assert(p[i + 1] == a[i - n + 1]);
        }
    }
    assert(p.last() == a.last());
    assert forall|rest: Seq<char>| address_len(p + rest) == p.len() implies #[trigger] begins_link(
        p + rest,
    ) by {
        assert((p + rest).subrange(0, scheme.len() as int) =~= scheme);
    }
    lemma_link_in_text(p, t);
}

/// A block of code within a line stands between what is before it and what is
/// after it.
pub proof fn law_block_in_text(t: Seq<char>, c: Seq<char>, u: Seq<char>)
    requires
        t.len() > 0 && u.len() > 0,
        unadorned(t),
        unadorned(u),
        block_content(c),
        !c.contains('\n'),
    ensures
        styled(
            t + (seq!['`', '`', '`'] + c + seq!['`', '`', '`'] + u),
            Seq::empty(),
            Seq::empty(),
            false,
            false,
        ) == seq![
            seq![
                SegmentModel { text: t, bold: false, code: false, link: false },
                SegmentModel { text: c, bold: false, code: true, link: false },
                SegmentModel { text: u, bold: false, code: false, link: false },
            ],
        ],
{
    let none: Seq<char> = Seq::empty();
    let start: Seq<SegmentModel> = Seq::empty();
    let mark = seq!['`', '`', '`'];
    let s = mark + c + mark + u;
    lemma_unadorned(t, s, start, none, false, false);
    assert(none + t =~= t);
    let before = SegmentModel { text: t, bold: false, code: false, link: false };
    let mono = SegmentModel { text: c, bold: false, code: true, link: false };
    let after = SegmentModel { text: u, bold: false, code: false, link: false };
    assert(s.skip(3) =~= c + mark + u);
    lemma_no_fence(c, u);
    assert(opens_block(s));
    assert(block_text(s) =~= c);
    assert(after_block(s) =~= u);
    text::lemma_split_none(c, '\n');
    let block = block_lines(c);
    assert(block.len() == 1);
    assert(block[0] =~= seq![mono]);
    assert(start + flushed(t, false, false) =~= seq![before]);
    assert(seq![before] + block[0] =~= seq![before, mono]);
    assert(styled(s, start, t, false, false) == styled(
        u,
        seq![before, mono],
        none,
        false,
        false,
    ));
    lemma_unadorned(u, none, seq![before, mono], none, false, false);
    assert(u + none =~= u);
    assert(none + u =~= u);
    assert(seq![before, mono] + flushed(u, false, false) =~= seq![before, mono, after]);
    assert(styled(none, seq![before, mono], u, false, false) =~= seq![seq![before, mono, after]]);
}

} // verus!
