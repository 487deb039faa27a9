//! Texts as sequences of characters: searching, trimming, splitting, joining and
//! decimal numbers.

use vstd::prelude::*;
use vstd::utf8::{decode_utf8, valid_utf8};

verus! {

/// `String::push`: the given character is added at the end.
pub assume_specification[ String::push ](s: &mut String, c: char)
    ensures
        final(s)@ == old(s)@.push(c),
;

/// What `String::from_utf8_lossy` makes of `bytes`.
pub uninterp spec fn lossy_text(bytes: Seq<u8>) -> Seq<char>;

/// `String::from_utf8_lossy`: the text that the bytes encode, where they are valid UTF-8.
/// Bytes that are not stand for replacement characters; where those go is left to the name.
#[verifier::external_body]
pub(crate) fn lossy(bytes: &Vec<u8>) -> (r: String)
    ensures
        r@ == lossy_text(bytes@),
        valid_utf8(bytes@) ==> r@ == decode_utf8(bytes@),
{
    String::from_utf8_lossy(bytes).into_owned()
}

/// The message of the error that `std::str::from_utf8` gives for `bytes`.
pub uninterp spec fn utf8_error_text(bytes: Seq<u8>) -> Seq<char>;

/// `std::str::from_utf8`: the text that the bytes encode, or, exactly where they are not
/// valid UTF-8, the message of its error.
#[verifier::external_body]
pub(crate) fn strict(bytes: &Vec<u8>) -> (r: Result<String, String>)
    ensures
        match r {
            Ok(t) => valid_utf8(bytes@) && t@ == decode_utf8(bytes@),
            Err(m) => !valid_utf8(bytes@) && m@ == utf8_error_text(bytes@),
        },
{
    match std::str::from_utf8(bytes) {
        Ok(t) => Ok(t.to_owned()),
        Err(e) => Err(e.to_string()),
    }
}

/// What `{:?}` makes of a text: the text in double quotes, with escapes.
pub uninterp spec fn quoted_text(s: Seq<char>) -> Seq<char>;

/// `<str as Debug>::fmt`: the text in double quotes, with escapes.
#[verifier::external_body]
pub(crate) fn quoted(s: &str) -> (r: String)
    ensures
        r@ == quoted_text(s@),
{
    format!("{:?}", s)
}

/// Characters with the Unicode property White_Space.
pub open spec fn is_space(c: char) -> bool {
    ||| 0x09 <= c as u32 <= 0x0d
    ||| c as u32 == 0x20
    ||| c as u32 == 0x85
    ||| c as u32 == 0xa0
    ||| c as u32 == 0x1680
    ||| 0x2000 <= c as u32 <= 0x200a
    ||| c as u32 == 0x2028
    ||| c as u32 == 0x2029
    ||| c as u32 == 0x202f
    ||| c as u32 == 0x205f
    ||| c as u32 == 0x3000
}

/// Whether `c` is white space.
pub fn white(c: char) -> (r: bool)
    ensures
        r == is_space(c),
{
    let n: u32 = c as u32;
    (0x09 <= n && n <= 0x0d) || n == 0x20 || n == 0x85 || n == 0xa0 || n == 0x1680 || (0x2000 <= n
        && n <= 0x200a) || n == 0x2028 || n == 0x2029 || n == 0x202f || n == 0x205f || n == 0x3000
}

/// The characters of `s`, in order.
pub fn to_chars(s: &str) -> (r: Vec<char>)
    ensures
        r@ == s@,
{
    let mut out: Vec<char> = Vec::new();
    for c in it: s.chars()
        invariant
            out@ == s@.take(it.index()),
            it.seq() == s@,
    {
        out.push(c);
    }
    out
}

/// The text made of the characters of `v` from `from` up to `to`.
pub fn slice(v: &Vec<char>, from: usize, to: usize) -> (r: String)
    requires
        from <= to <= v@.len(),
    ensures
        r@ == v@.subrange(from as int, to as int),
{
    let mut out = String::new();
    let mut i: usize = from;
    while i < to
        invariant
            from <= i <= to <= v@.len(),
            out@ == v@.subrange(from as int, i as int),
        decreases to - i,
    {
        out.push(v[i]);
        i += 1;
        assert(v@.subrange(from as int, i as int) =~= v@.subrange(from as int, i - 1).push(
            v@[i - 1],
        ));
    }
    out
}

/// Whether the two texts hold the same characters.
pub fn same(a: &str, b: &str) -> (r: bool)
    ensures
        r == (a@ == b@),
{
    a.to_owned() == b.to_owned()
}

/// Whether `s` begins with `prefix`.
pub fn starts_with(s: &str, prefix: &str) -> (r: bool)
    ensures
        r == prefix@.is_prefix_of(s@),
{
    let v = to_chars(s);
    let p = to_chars(prefix);
    if p.len() > v.len() {
        return false;
    }
    agrees_at(&v, &p, 0)
}

/// `p` stands in `s` at position `i`.
pub open spec fn occurs_at(s: Seq<char>, p: Seq<char>, i: int) -> bool {
    0 <= i && i + p.len() <= s.len() && s.subrange(i, i + p.len()) == p
}

/// `p` stands somewhere in `s`.
pub open spec fn has(s: Seq<char>, p: Seq<char>) -> bool {
    exists|i: int| occurs_at(s, p, i)
}

/// Whether `p` stands in `v` at position `at`.
fn agrees_at(v: &Vec<char>, p: &Vec<char>, at: usize) -> (r: bool)
    requires
        at + p@.len() <= v@.len(),
    ensures
        r == occurs_at(v@, p@, at as int),
        at == 0 ==> r == p@.is_prefix_of(v@),
{
    let n: usize = v.len();
    let mut j: usize = 0;
    while j < p.len()
        invariant
            j <= p@.len(),
            n == v@.len(),
            at + p@.len() <= n,
            forall|k: int| 0 <= k < j ==> v@[at + k] == p@[k],
        decreases p@.len() - j,
    {
        if v[at + j] != p[j] {
            assert(v@.subrange(at as int, at + p@.len())[j as int] != p@[j as int]);
            return false;
        }
        j += 1;
    }
    assert(v@.subrange(at as int, at + p@.len()) =~= p@);
    true
}

/// Whether `p` stands somewhere in `s`.
pub fn contains(s: &str, p: &str) -> (r: bool)
    ensures
        r == has(s@, p@),
{
    let v = to_chars(s);
    let w = to_chars(p);
    if w.len() > v.len() {
        return false;
    }
    let last: usize = v.len() - w.len();
    let mut i: usize = 0;
    while i <= last
        invariant
            i <= last + 1,
            last + w@.len() == v@.len(),
            v@ == s@,
            w@ == p@,
            forall|k: int| 0 <= k < i ==> !occurs_at(s@, p@, k),
        decreases last + 1 - i,
    {
        if agrees_at(&v, &w, i) {
            assert(occurs_at(s@, p@, i as int));
            return true;
        }
        if i == last {
            assert forall|k: int| !occurs_at(s@, p@, k) by {}
            return false;
        }
        i += 1;
    }
    false
}

/// `s` without its leading white space.
pub open spec fn trim_start(s: Seq<char>) -> Seq<char>
    decreases s.len(),
{
    if s.len() > 0 && is_space(s[0]) {
        trim_start(s.drop_first())
    } else {
        s
    }
}

/// `s` without its trailing white space.
pub open spec fn trim_end(s: Seq<char>) -> Seq<char>
    decreases s.len(),
{
    if s.len() > 0 && is_space(s.last()) {
        trim_end(s.drop_last())
    } else {
        s
    }
}

/// `s` without white space at either end.
pub open spec fn trimmed(s: Seq<char>) -> Seq<char> {
    trim_end(trim_start(s))
}

/// `s` without white space at either end.
pub fn trim(s: &str) -> (r: String)
    ensures
        r@ == trimmed(s@),
{
    let v = to_chars(s);
    let mut i: usize = 0;
    assert(v@.subrange(0, v@.len() as int) =~= s@);
    while i < v.len() && white(v[i])
        invariant
            i <= v@.len(),
            trim_start(v@.subrange(i as int, v@.len() as int)) == trim_start(s@),
        decreases v@.len() - i,
    {
        assert(v@.subrange(i as int, v@.len() as int).drop_first() =~= v@.subrange(
            i + 1,
            v@.len() as int,
        ));
        i += 1;
    }
    let mut j: usize = v.len();
    while i < j && white(v[j - 1])
        invariant
            i <= j <= v@.len(),
            trim_end(v@.subrange(i as int, j as int)) == trimmed(s@),
        decreases j,
    {
        assert(v@.subrange(i as int, j as int).drop_last() =~= v@.subrange(i as int, j - 1));
        j -= 1;
    }
    slice(&v, i, j)
}

/// The position of the first `c` in `s`, or the length of `s`.
pub open spec fn find(s: Seq<char>, c: char) -> int
    decreases s.len(),
{
    if s.len() == 0 || s[0] == c {
        0
    } else {
        1 + find(s.drop_first(), c)
    }
}

/// `find` stays within the text and stops at the first `c`.
pub proof fn lemma_find(s: Seq<char>, c: char)
    ensures
        0 <= find(s, c) <= s.len(),
        find(s, c) < s.len() ==> s[find(s, c)] == c,
        forall|k: int| 0 <= k < find(s, c) ==> s[k] != c,
    decreases s.len(),
{
    if s.len() > 0 && s[0] != c {
        lemma_find(s.drop_first(), c);
        assert forall|k: int| 0 <= k < find(s, c) implies s[k] != c by {
            if k > 0 {
                assert(s.drop_first()[k - 1] == s[k]);
            }
        }
    }
}

/// The first position at or after `from` where `v` holds `c`, or the length of `v`.
fn seek(v: &Vec<char>, from: usize, c: char) -> (r: usize)
    requires
        from <= v@.len(),
    ensures
        from <= r <= v@.len(),
        r == from + find(v@.subrange(from as int, v@.len() as int), c),
{
    let mut i: usize = from;
    while i < v.len() && v[i] != c
        invariant
            from <= i <= v@.len(),
            i + find(v@.subrange(i as int, v@.len() as int), c) == from + find(
                v@.subrange(from as int, v@.len() as int),
                c,
            ),
        decreases v@.len() - i,
    {
        assert(v@.subrange(i as int, v@.len() as int).drop_first() =~= v@.subrange(
            i + 1,
            v@.len() as int,
        ));
        i += 1;
    }
    i
}

/// A line without the carriage return that stood before its line feed.
pub open spec fn without_cr(s: Seq<char>) -> Seq<char> {
    if s.len() > 0 && s.last() == '\r' {
        s.drop_last()
    } else {
        s
    }
}

/// The lines of `s`: each ends at a line feed or at the end of the text, and a text that
/// ends in a line feed has no further, empty line.
pub open spec fn lines_of(s: Seq<char>) -> Seq<Seq<char>>
    decreases s.len(),
{
    let n = find(s, '\n');
    if s.len() == 0 {
        Seq::empty()
    } else if 0 <= n < s.len() {
        seq![without_cr(s.take(n))] + lines_of(s.skip(n + 1))
    } else {
        seq![s]
    }
}

/// The lines of `s`.
pub fn lines(s: &str) -> (r: Vec<String>)
    ensures
        r.deep_view() == lines_of(s@),
{
    let v = to_chars(s);
    let mut out: Vec<String> = Vec::new();
    let mut i: usize = 0;
    assert(v@.subrange(0, v@.len() as int) =~= s@);
    assert(out.deep_view() =~= Seq::<Seq<char>>::empty());
    assert(out.deep_view() + lines_of(s@) =~= lines_of(s@));
    while i < v.len()
        invariant
            i <= v@.len(),
            out.deep_view() + lines_of(v@.subrange(i as int, v@.len() as int)) == lines_of(s@),
        decreases v@.len() - i,
    {
        let ghost rest = v@.subrange(i as int, v@.len() as int);
        let ghost before = out.deep_view();
        proof {
            lemma_find(rest, '\n');
        }
        let n: usize = seek(&v, i, '\n');
        if n < v.len() {
            let end: usize = if i < n && v[n - 1] == '\r' {
                n - 1
            } else {
                n
            };
            let line = slice(&v, i, end);
            assert(line@ =~= without_cr(rest.take(n - i)));
            out.push(line);
            assert(out.deep_view() =~= before.push(line@));
            assert(rest.skip(n - i + 1) =~= v@.subrange(n + 1, v@.len() as int));
            assert(before + lines_of(rest) =~= out.deep_view() + lines_of(
                v@.subrange(n + 1, v@.len() as int),
            ));
            i = n + 1;
        } else {
            let line = slice(&v, i, n);
            out.push(line);
            assert(out.deep_view() =~= before.push(line@));
            assert(lines_of(v@.subrange(n as int, v@.len() as int)) =~= Seq::empty());
            assert(before + lines_of(rest) =~= out.deep_view() + lines_of(
                v@.subrange(n as int, v@.len() as int),
            ));
            i = n;
        }
    }
    assert(lines_of(v@.subrange(i as int, v@.len() as int)) =~= Seq::empty());
    assert(out.deep_view() + Seq::empty() =~= out.deep_view());
    out
}

/// The pieces of `s` between the separators `c`; there is one more piece than separators.
pub open spec fn split_at_char(s: Seq<char>, c: char) -> Seq<Seq<char>>
    decreases s.len(),
{
    let n = find(s, c);
    if 0 <= n < s.len() {
        seq![s.take(n)] + split_at_char(s.skip(n + 1), c)
    } else {
        seq![s]
    }
}

/// The pieces of `s` between the separators `c`.
pub fn split(s: &str, c: char) -> (r: Vec<String>)
    ensures
        r.deep_view() == split_at_char(s@, c),
{
    let v = to_chars(s);
    let mut out: Vec<String> = Vec::new();
    let mut i: usize = 0;
    assert(v@.subrange(0, v@.len() as int) =~= s@);
    assert(out.deep_view() + split_at_char(s@, c) =~= split_at_char(s@, c));
    loop
        invariant
            i <= v@.len(),
            out.deep_view() + split_at_char(v@.subrange(i as int, v@.len() as int), c)
                == split_at_char(s@, c),
        decreases v@.len() - i,
    {
        let ghost rest = v@.subrange(i as int, v@.len() as int);
        let ghost before = out.deep_view();
        proof {
            lemma_find(rest, c);
        }
        let n: usize = seek(&v, i, c);
        let piece = slice(&v, i, n);
        out.push(piece);
        assert(out.deep_view() =~= before.push(piece@));
        assert(piece@ =~= rest.take(n - i));
        if n < v.len() {
            assert(rest.skip(n - i + 1) =~= v@.subrange(n + 1, v@.len() as int));
            assert(before + split_at_char(rest, c) =~= out.deep_view() + split_at_char(
                v@.subrange(n + 1, v@.len() as int),
                c,
            ));
            i = n + 1;
        } else {
            assert(rest =~= rest.take(n - i));
            assert(before + split_at_char(rest, c) =~= out.deep_view());
            return out;
        }
    }
}

/// The position of the first white space in `s`, or the length of `s`.
pub open spec fn word_end(s: Seq<char>) -> int
    decreases s.len(),
{
    if s.len() == 0 || is_space(s[0]) {
        0
    } else {
        1 + word_end(s.drop_first())
    }
}

/// The words of `s`: its longest runs of characters that are not white space.
pub open spec fn words_of(s: Seq<char>) -> Seq<Seq<char>>
    decreases s.len(),
{
    if s.len() == 0 {
        Seq::empty()
    } else if is_space(s[0]) {
        words_of(s.drop_first())
    } else {
        let n = word_end(s);
        if 0 < n <= s.len() {
            seq![s.take(n)] + words_of(s.skip(n))
        } else {
            Seq::empty()
        }
    }
}

proof fn lemma_word_end(s: Seq<char>)
    ensures
        0 <= word_end(s) <= s.len(),
    decreases s.len(),
{
    if s.len() > 0 && !is_space(s[0]) {
        lemma_word_end(s.drop_first());
    }
}

/// White space at the end of a text changes nothing about its words.
pub(crate) proof fn lemma_words_before_space(s: Seq<char>, c: char)
    requires
        is_space(c),
    ensures
        words_of(s.push(c)) == words_of(s),
    decreases s.len(),
{
    let t = s.push(c);
    if s.len() == 0 {
        assert(t.drop_first() =~= s);
    } else if is_space(s[0]) {
        assert(t.drop_first() =~= s.drop_first().push(c));
        lemma_words_before_space(s.drop_first(), c);
    } else {
        lemma_word_end(s);
        lemma_word_end(s.drop_first());
        lemma_word_end_before_space(s, c);
        let n = word_end(s);
        assert(t.take(n) =~= s.take(n));
        assert(t.skip(n) =~= s.skip(n).push(c));
        lemma_words_before_space(s.skip(n), c);
    }
}

proof fn lemma_word_end_before_space(s: Seq<char>, c: char)
    requires
        is_space(c),
    ensures
        word_end(s.push(c)) == word_end(s),
    decreases s.len(),
{
    if s.len() > 0 && !is_space(s[0]) {
        assert(s.push(c).drop_first() =~= s.drop_first().push(c));
        lemma_word_end_before_space(s.drop_first(), c);
    }
}

proof fn lemma_words_trim_start(s: Seq<char>)
    ensures
        words_of(trim_start(s)) == words_of(s),
    decreases s.len(),
{
    if s.len() > 0 && is_space(s[0]) {
        lemma_words_trim_start(s.drop_first());
    }
}

proof fn lemma_words_trim_end(s: Seq<char>)
    ensures
        words_of(trim_end(s)) == words_of(s),
    decreases s.len(),
{
    if s.len() > 0 && is_space(s.last()) {
        lemma_words_trim_end(s.drop_last());
        lemma_words_before_space(s.drop_last(), s.last());
        assert(s.drop_last().push(s.last()) =~= s);
    }
}

/// A text without its outer white space has the same words.
pub proof fn lemma_words_trimmed(s: Seq<char>)
    ensures
        words_of(trimmed(s)) == words_of(s),
{
    lemma_words_trim_start(s);
    lemma_words_trim_end(trim_start(s));
}

/// The first line of a text in which a line feed follows `a`, which has none, is `a` without
/// the carriage return at its end; the other lines are those of the rest.
proof fn lemma_first_line(a: Seq<char>, b: Seq<char>)
    requires
        find(a, '\n') == a.len(),
    ensures
        lines_of(a + seq!['\n'] + b) == seq![without_cr(a)] + lines_of(b),
{
    let s = a + seq!['\n'] + b;
    lemma_find(a, '\n');
    lemma_find(s, '\n');
    let n = find(s, '\n');
    assert(s[a.len() as int] == '\n');
    if n < a.len() {
        assert(s[n] == a[n]);
    }
    assert(n == a.len());
    assert(s.take(n) =~= a);
    assert(s.skip(n + 1) =~= b);
}

/// The lines of two texts with a line feed between them: those of the first, with at most a
/// carriage return less at the end of the last or an empty line more, and those of the second.
pub(crate) proof fn lemma_lines_joined(a: Seq<char>, b: Seq<char>)
    ensures
        ({
            let all = lines_of(a + seq!['\n'] + b);
            let first = lines_of(a);
            ||| all == first + lines_of(b)
            ||| all == first + seq![Seq::<char>::empty()] + lines_of(b)
            ||| first.len() > 0 && all == first.drop_last() + seq![without_cr(first.last())]
                + lines_of(b)
        }),
    decreases a.len(),
{
    let n = find(a, '\n');
    lemma_find(a, '\n');
    let s = a + seq!['\n'] + b;
    let first = lines_of(a);
    if n < a.len() {
        let head = a.take(n);
        let rest = a.skip(n + 1);
        lemma_find(head, '\n');
        if find(head, '\n') < head.len() {
            assert(head[find(head, '\n')] == a[find(head, '\n')]);
        }
        let tail = rest + seq!['\n'] + b;
        assert(s =~= head + seq!['\n'] + tail);
        lemma_first_line(head, tail);
        lemma_lines_joined(rest, b);
        let one = seq![without_cr(head)];
        let more = lines_of(rest);
        assert(first == one + more);
        assert(lines_of(s) == one + lines_of(tail));
        assert(one + (more + lines_of(b)) =~= first + lines_of(b));
        assert(one + (more + seq![Seq::<char>::empty()] + lines_of(b)) =~= first
            + seq![Seq::<char>::empty()] + lines_of(b));
        if more.len() > 0 {
            assert(first.last() == more.last());
            assert(one + (more.drop_last() + seq![without_cr(more.last())] + lines_of(b))
                =~= first.drop_last() + seq![without_cr(first.last())] + lines_of(b));
        }
    } else {
        lemma_first_line(a, b);
        if a.len() == 0 {
            assert(without_cr(a) =~= Seq::<char>::empty());
            assert(first + seq![Seq::<char>::empty()] =~= seq![without_cr(a)]);
        } else {
            assert(first.drop_last() + seq![without_cr(a)] =~= seq![without_cr(a)]);
        }
    }
}

/// The words of `s`.
pub fn words(s: &str) -> (r: Vec<String>)
    ensures
        r.deep_view() == words_of(s@),
{
    let v = to_chars(s);
    let mut out: Vec<String> = Vec::new();
    let mut i: usize = 0;
    assert(v@.subrange(0, v@.len() as int) =~= s@);
    assert(out.deep_view() + words_of(s@) =~= words_of(s@));
    while i < v.len()
        invariant
            i <= v@.len(),
            out.deep_view() + words_of(v@.subrange(i as int, v@.len() as int)) == words_of(s@),
        decreases v@.len() - i,
    {
        let ghost rest = v@.subrange(i as int, v@.len() as int);
        if white(v[i]) {
            assert(rest.drop_first() =~= v@.subrange(i + 1, v@.len() as int));
            i += 1;
        } else {
            let ghost before = out.deep_view();
            let mut j: usize = i;
            while j < v.len() && !white(v[j])
                invariant
                    i <= j <= v@.len(),
                    rest == v@.subrange(i as int, v@.len() as int),
                    j - i + word_end(v@.subrange(j as int, v@.len() as int)) == word_end(rest),
                decreases v@.len() - j,
            {
                assert(v@.subrange(j as int, v@.len() as int).drop_first() =~= v@.subrange(
                    j + 1,
                    v@.len() as int,
                ));
                j += 1;
            }
            proof {
                lemma_word_end(rest);
            }
            let word = slice(&v, i, j);
            out.push(word);
            assert(out.deep_view() =~= before.push(word@));
            assert(word@ =~= rest.take(j - i));
            assert(rest.skip(j - i) =~= v@.subrange(j as int, v@.len() as int));
            assert(before + words_of(rest) =~= out.deep_view() + words_of(
                v@.subrange(j as int, v@.len() as int),
            ));
            i = j;
        }
    }
    assert(v@.subrange(i as int, v@.len() as int) =~= Seq::empty());
    assert(out.deep_view() + Seq::empty() =~= out.deep_view());
    out
}

/// The texts of `list` one after the other, with `sep` between neighbours.
pub open spec fn joined(list: Seq<Seq<char>>, sep: Seq<char>) -> Seq<char>
    decreases list.len(),
{
    if list.len() == 0 {
        Seq::empty()
    } else if list.len() == 1 {
        list[0]
    } else {
        joined(list.drop_last(), sep) + sep + list.last()
    }
}

/// The texts of `list` with `sep` between neighbours.
pub fn join(list: &Vec<String>, sep: &str) -> (r: String)
    ensures
        r@ == joined(list.deep_view(), sep@),
{
    let ghost all = list.deep_view();
    if list.len() == 0 {
        return String::new();
    }
    let mut out = list[0].clone();
    let mut i: usize = 1;
    assert(all.take(1) =~= seq![all[0]]);
    while i < list.len()
        invariant
            1 <= i <= list@.len(),
            all == list.deep_view(),
            out@ == joined(all.take(i as int), sep@),
        decreases list@.len() - i,
    {
        out.append(sep);
        out.append(list[i].as_str());
        assert(all.take(i + 1).drop_last() =~= all.take(i as int));
        i += 1;
    }
    assert(all.take(i as int) =~= all);
    out
}

/// `s` with every `from` replaced by `to`.
pub open spec fn with_char(s: Seq<char>, from: char, to: char) -> Seq<char> {
    s.map_values(|c: char| if c == from { to } else { c })
}

/// `s` with every `from` replaced by `to`.
pub fn replace(s: &str, from: char, to: char) -> (r: String)
    ensures
        r@ == with_char(s@, from, to),
{
    let v = to_chars(s);
    let mut out = String::new();
    let mut i: usize = 0;
    while i < v.len()
        invariant
            i <= v@.len(),
            v@ == s@,
            out@ == with_char(s@, from, to).take(i as int),
        decreases v@.len() - i,
    {
        if v[i] == from {
            out.push(to);
        } else {
            out.push(v[i]);
        }
        i += 1;
        assert(with_char(s@, from, to).take(i as int) =~= with_char(s@, from, to).take(
            i - 1,
        ).push(with_char(s@, from, to)[i - 1]));
    }
    assert(out@ =~= with_char(s@, from, to));
    out
}

/// The decimal digit for `d`.
pub open spec fn digit(d: int) -> char {
    (0x30 + d) as char
}

/// `n` in decimal, without leading zeros.
pub open spec fn decimal(n: nat) -> Seq<char>
    decreases n,
{
    if n < 10 {
        seq![digit(n as int)]
    } else {
        decimal(n / 10).push(digit((n % 10) as int))
    }
}

/// `n` in decimal.
pub fn number(n: u64) -> (r: String)
    ensures
        r@ == decimal(n as nat),
    decreases n,
{
    let last: u8 = (n % 10) as u8;
    let c: char = (0x30u8 + last) as char;
    let mut out = if n < 10 {
        String::new()
    } else {
        number(n / 10)
    };
    assert(out@.push(c) =~= decimal(n as nat));
    out.push(c);
    out
}

/// Why a text is no `u64`.
#[derive(Clone, Copy, PartialEq, Eq, Structural, Debug)]
pub enum NotANumber {
    /// The text is empty.
    Empty,
    /// A character other than a digit stands in it.
    InvalidDigit,
    /// The number does not fit.
    TooLarge,
}

/// The reason in words.
pub open spec fn not_a_number_text(e: NotANumber) -> Seq<char> {
    match e {
        NotANumber::Empty => "cannot parse integer from empty string"@,
        NotANumber::InvalidDigit => "invalid digit found in string"@,
        NotANumber::TooLarge => "number too large to fit in target type"@,
    }
}

impl NotANumber {
    /// The reason in words.
    pub fn message(self) -> (r: String)
        ensures
            r@ == not_a_number_text(self),
    {
        match self {
            NotANumber::Empty => "cannot parse integer from empty string".to_owned(),
            NotANumber::InvalidDigit => "invalid digit found in string".to_owned(),
            NotANumber::TooLarge => "number too large to fit in target type".to_owned(),
        }
    }
}

/// `c` is one of `0` to `9`.
pub open spec fn is_digit(c: char) -> bool {
    0x30 <= c as u32 <= 0x39
}

/// What the digits `s` add to the number `so_far` read before them; the first character
/// that cannot be taken in decides the error.
pub open spec fn digits_value(so_far: int, s: Seq<char>) -> Result<u64, NotANumber>
    decreases s.len(),
{
    if s.len() == 0 {
        Ok(so_far as u64)
    } else if !is_digit(s[0]) {
        Err(NotANumber::InvalidDigit)
    } else {
        let value = so_far * 10 + (s[0] as u32 - 0x30);
        if value > u64::MAX {
            Err(NotANumber::TooLarge)
        } else {
            digits_value(value, s.drop_first())
        }
    }
}

/// The number that `s` stands for: decimal digits, after at most one plus sign.
pub open spec fn parsed(s: Seq<char>) -> Result<u64, NotANumber> {
    if s.len() == 0 {
        Err(NotANumber::Empty)
    } else if s[0] == '+' && s.len() > 1 {
        digits_value(0, s.drop_first())
    } else {
        digits_value(0, s)
    }
}

/// The number that `s` stands for.
pub fn parse(s: &str) -> (r: Result<u64, NotANumber>)
    ensures
        r == parsed(s@),
{
    let v = to_chars(s);
    if v.len() == 0 {
        return Err(NotANumber::Empty);
    }
    let mut i: usize = if v[0] == '+' && v.len() > 1 {
        1
    } else {
        0
    };
    let mut value: u64 = 0;
    proof {
        assert(v@.subrange(0, v@.len() as int) =~= s@);
        assert(v@.subrange(1, v@.len() as int) =~= s@.drop_first());
    }
    while i < v.len()
        invariant
            i <= v@.len(),
            digits_value(value as int, v@.subrange(i as int, v@.len() as int)) == parsed(s@),
        decreases v@.len() - i,
    {
        let ghost rest = v@.subrange(i as int, v@.len() as int);
        let n: u32 = v[i] as u32;
        if n < 0x30 || n > 0x39 {
            return Err(NotANumber::InvalidDigit);
        }
        let d: u64 = (n - 0x30) as u64;
        if value > (u64::MAX - d) / 10 {
            return Err(NotANumber::TooLarge);
        }
        assert(rest.drop_first() =~= v@.subrange(i + 1, v@.len() as int));
        value = value * 10 + d;
        i += 1;
    }
    Ok(value)
}

/// Reading a number back from its decimal form gives that number.
pub proof fn lemma_number_round_trip(n: u64)
    ensures
        parsed(decimal(n as nat)) == Ok::<u64, NotANumber>(n),
{
    lemma_decimal(n as nat, 0, Seq::empty());
    lemma_decimal_first(n as nat);
    assert(decimal(n as nat) + Seq::<char>::empty() =~= decimal(n as nat));
}

proof fn lemma_decimal_first(n: nat)
    ensures
        decimal(n).len() > 0,
        is_digit(decimal(n)[0]),
    decreases n,
{
    if n >= 10 {
        lemma_decimal_first(n / 10);
    }
}

/// Reading the digits of `n` and then `rest` is reading `rest` with `n` read before.
proof fn lemma_decimal(n: nat, so_far: int, rest: Seq<char>)
    requires
        n <= u64::MAX,
        so_far == 0,
    ensures
        digits_value(so_far, decimal(n) + rest) == digits_value(n as int, rest),
    decreases n,
{
    reveal_with_fuel(digits_value, 2);
    let last = digit((n % 10) as int);
    if n < 10 {
        assert((decimal(n) + rest).drop_first() =~= rest);
    } else {
        assert(decimal(n) + rest =~= decimal(n / 10) + (seq![last] + rest));
        lemma_decimal(n / 10, so_far, seq![last] + rest);
        assert((seq![last] + rest).drop_first() =~= rest);
    }
}

/// The two texts one after the other.
pub fn cat2(a: &str, b: &str) -> (r: String)
    ensures
        r@ == a@ + b@,
{
    a.to_owned().concat(b)
}

/// The three texts one after the other.
pub fn cat3(a: &str, b: &str, c: &str) -> (r: String)
    ensures
        r@ == a@ + b@ + c@,
{
    cat2(a, b).concat(c)
}

/// The four texts one after the other.
pub fn cat4(a: &str, b: &str, c: &str, d: &str) -> (r: String)
    ensures
        r@ == a@ + b@ + c@ + d@,
{
    cat3(a, b, c).concat(d)
}

/// The five texts one after the other.
pub fn cat5(a: &str, b: &str, c: &str, d: &str, e: &str) -> (r: String)
    ensures
        r@ == a@ + b@ + c@ + d@ + e@,
{
    cat4(a, b, c, d).concat(e)
}

/// The six texts one after the other.
pub fn cat6(a: &str, b: &str, c: &str, d: &str, e: &str, f: &str) -> (r: String)
    ensures
        r@ == a@ + b@ + c@ + d@ + e@ + f@,
{
    cat5(a, b, c, d, e).concat(f)
}

}
