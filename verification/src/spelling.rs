//! Names that are no text.
//!
//! A name in a directory can be any bytes but zero and the separator. In the library, paths are
//! texts. A name that is valid UTF-8 is the text that it encodes. In any other name, every byte
//! from `0x80` on is written as a zero character and two hexadecimal digits, which no other name
//! can hold.

use crate::path::{join, joined_path};
use crate::text::{lossy, lossy_text, strict, to_chars};
use vstd::prelude::*;
use vstd::utf8::{decode_utf8, encode_scalar, encode_utf8, valid_utf8};

verus! {

/// The hexadecimal digit of a number below 16.
pub open spec fn digit(n: int) -> char {
    if n < 10 {
        (n + 0x30) as u8 as char
    } else {
        (n - 10 + 0x61) as u8 as char
    }
}

/// The number of a hexadecimal digit, or 16 where it is none.
pub open spec fn digit_value(c: char) -> int {
    if '0' <= c <= '9' {
        c as int - 0x30
    } else if 'a' <= c <= 'f' {
        c as int - 0x61 + 10
    } else {
        16
    }
}

/// A byte in a name that is no text.
pub open spec fn spelled(b: u8) -> Seq<char> {
    if b < 0x80 {
        seq![b as char]
    } else {
        seq!['\0', digit(b as int / 16), digit(b as int % 16)]
    }
}

/// The bytes of a name that is no text.
pub open spec fn spelled_out(name: Seq<u8>) -> Seq<char>
    decreases name.len(),
{
    if name.len() == 0 {
        Seq::empty()
    } else {
        spelled(name[0]) + spelled_out(name.drop_first())
    }
}

/// A name as text.
pub open spec fn name_text(name: Seq<u8>) -> Seq<char> {
    if valid_utf8(name) {
        decode_utf8(name)
    } else {
        spelled_out(name)
    }
}

/// The text begins with a byte that is spelled out.
pub open spec fn begins_spelled(text: Seq<char>) -> bool {
    &&& text.len() >= 3
    &&& text[0] == '\0'
    &&& 8 <= digit_value(text[1]) < 16
    &&& digit_value(text[2]) < 16
}

/// The bytes that a text stands for.
pub open spec fn path_bytes(text: Seq<char>) -> Seq<u8>
    decreases text.len(),
{
    if text.len() == 0 {
        Seq::empty()
    } else if begins_spelled(text) {
        seq![(16 * digit_value(text[1]) + digit_value(text[2])) as u8] + path_bytes(text.skip(3))
    } else {
        encode_scalar(text[0] as u32) + path_bytes(text.drop_first())
    }
}

/// A text as it is shown: bytes that are no text stand for replacement characters.
pub open spec fn displayed(text: Seq<char>) -> Seq<char> {
    if text.contains('\0') {
        lossy_text(path_bytes(text))
    } else {
        text
    }
}

/// The hexadecimal digit of a number below 16.
fn to_digit(n: u8) -> (r: char)
    requires
        n < 16,
    ensures
        r == digit(n as int),
{
    if n < 10 {
        (n + 0x30) as char
    } else {
        (n - 10 + 0x61) as char
    }
}

/// The number of a hexadecimal digit, or 16 where it is none.
fn from_digit(c: char) -> (r: u8)
    ensures
        r == digit_value(c),
        r <= 16,
{
    if '0' <= c && c <= '9' {
        (c as u32 - 0x30) as u8
    } else if 'a' <= c && c <= 'f' {
        (c as u32 - 0x61 + 10) as u8
    } else {
        16
    }
}

/// A name as text.
pub fn name_to_text(name: &Vec<u8>) -> (r: String)
    ensures
        r@ == name_text(name@),
{
    if let Ok(t) = strict(name) {
        return t;
    }
    let mut out = String::new();
    let mut i: usize = 0;
    assert(name@.skip(0) =~= name@);
    assert(out@ + spelled_out(name@) =~= spelled_out(name@));
    while i < name.len()
        invariant
            i <= name@.len(),
            out@ + spelled_out(name@.skip(i as int)) == spelled_out(name@),
        decreases name@.len() - i,
    {
        let b: u8 = name[i];
        let ghost before = out@;
        let ghost rest = name@.skip(i as int);
        assert(rest.drop_first() =~= name@.skip(i + 1));
        if b < 0x80 {
            out.push(b as char);
        } else {
            out.push('\0');
            out.push(to_digit(b / 16));
            out.push(to_digit(b % 16));
        }
        assert(out@ =~= before + spelled(b));
        assert(before + (spelled(b) + spelled_out(name@.skip(i + 1))) =~= out@ + spelled_out(
            name@.skip(i + 1),
        ));
        i += 1;
    }
    assert(name@.skip(i as int) =~= Seq::empty());
    assert(out@ + Seq::empty() =~= out@);
    out
}

/// The bytes that a text stands for.
pub fn path_to_bytes(text: &str) -> (r: Vec<u8>)
    ensures
        r@ == path_bytes(text@),
{
    let v = to_chars(text);
    let mut out: Vec<u8> = Vec::new();
    let mut i: usize = 0;
    assert(v@.skip(0) =~= text@);
    assert(out@ + path_bytes(text@) =~= path_bytes(text@));
    while i < v.len()
        invariant
            i <= v@.len(),
            v@ == text@,
            out@ + path_bytes(v@.skip(i as int)) == path_bytes(text@),
        decreases v@.len() - i,
    {
        let ghost before = out@;
        let ghost rest = v@.skip(i as int);
        let c: char = v[i];
        assert(rest[0] == c);
        let mut code: u8 = 0;
        if c == '\0' && v.len() - i >= 3 {
            assert(rest[1] == v@[i + 1] && rest[2] == v@[i + 2]);
            let high: u8 = from_digit(v[i + 1]);
            let low: u8 = from_digit(v[i + 2]);
            if 8 <= high && high < 16 && low < 16 {
                code = 16 * high + low;
            }
        }
        if code > 0 {
            assert(begins_spelled(rest));
            out.push(code);
            assert(rest.skip(3) =~= v@.skip(i + 3));
            assert(before + path_bytes(rest) =~= out@ + path_bytes(v@.skip(i + 3)));
            i += 3;
        } else {
            assert(!begins_spelled(rest));
            append_char(&mut out, c);
            assert(rest.drop_first() =~= v@.skip(i + 1));
            assert(before + path_bytes(rest) =~= out@ + path_bytes(v@.skip(i + 1)));
            i += 1;
        }
    }
    assert(v@.skip(i as int) =~= Seq::empty());
    assert(out@ + Seq::empty() =~= out@);
    out
}

/// Adds the UTF-8 encoding of a character.
fn append_char(out: &mut Vec<u8>, c: char)
    ensures
        final(out)@ == old(out)@ + encode_scalar(c as u32),
{
    let mut one = String::new();
    one.push(c);
    let bytes = one.as_str().as_bytes();
    let ghost start = out@;
    assert(one@.drop_first() =~= Seq::empty());
    assert(encode_utf8(one@) =~= encode_scalar(c as u32) + encode_utf8(one@.drop_first()));
    assert(bytes@ =~= encode_scalar(c as u32));
    let mut i: usize = 0;
    while i < bytes.len()
        invariant
            i <= bytes@.len(),
            out@ =~= start + bytes@.take(i as int),
        decreases bytes@.len() - i,
    {
        out.push(bytes[i]);
        i += 1;
    }
    assert(bytes@.take(i as int) =~= bytes@);
}

/// The paths of the entries of a directory.
pub open spec fn entry_paths(dir: Seq<char>, names: Seq<Seq<u8>>) -> Seq<Seq<char>> {
    names.map_values(|name: Seq<u8>| joined_path(dir, name_text(name)))
}

/// The paths of the entries of a directory.
pub fn paths_of_entries(dir: &str, names: &Vec<Vec<u8>>) -> (r: Vec<String>)
    ensures
        r.deep_view() == entry_paths(dir@, names.deep_view()),
{
    let ghost want = entry_paths(dir@, names.deep_view());
    let mut out: Vec<String> = Vec::new();
    let mut i: usize = 0;
    while i < names.len()
        invariant
            i <= names@.len(),
            want == entry_paths(dir@, names.deep_view()),
            out.deep_view() =~= want.take(i as int),
        decreases names@.len() - i,
    {
        let ghost before = out.deep_view();
        let path = join(dir, name_to_text(&names[i]).as_str());
        assert(names.deep_view()[i as int] =~= names@[i as int]@);
        assert(path@ == want[i as int]);
        out.push(path);
        assert(out.deep_view() =~= before.push(path@));
        i += 1;
    }
    assert(want.take(i as int) =~= want);
    out
}

/// Whether a text holds a zero character.
fn has_zero(text: &str) -> (r: bool)
    ensures
        r == text@.contains('\0'),
{
    let v = to_chars(text);
    let mut i: usize = 0;
    while i < v.len()
        invariant
            i <= v@.len(),
            v@ == text@,
            forall|k: int| 0 <= k < i ==> v@[k] != '\0',
        decreases v@.len() - i,
    {
        if v[i] == '\0' {
            assert(text@[i as int] == '\0');
            return true;
        }
        i += 1;
    }
    false
}

/// A text as it is shown.
pub fn display(text: &str) -> (r: String)
    ensures
        r@ == displayed(text@),
{
    if has_zero(text) {
        lossy(&path_to_bytes(text))
    } else {
        text.to_owned()
    }
}

/// A text without zero characters stands for its encoding.
pub proof fn lemma_plain_text(text: Seq<char>)
    requires
        !text.contains('\0'),
    ensures
        path_bytes(text) == encode_utf8(text),
    decreases text.len(),
{
    if text.len() > 0 {
        assert(text.contains(text[0]));
        let rest = text.drop_first();
        assert forall|i: int| 0 <= i < rest.len() implies rest[i] != '\0' by {
            assert(text.contains(text[i + 1]));
        }
        lemma_plain_text(rest);
    }
}

proof fn lemma_spelled(b: u8, rest: Seq<char>)
    requires
        b != 0,
    ensures
        path_bytes(spelled(b) + rest) == seq![b] + path_bytes(rest),
{
    let text = spelled(b) + rest;
    if b < 0x80 {
        assert(text[0] == b as char);
        assert(text.drop_first() =~= rest);
        assert(!begins_spelled(text));
        assert(encode_scalar(b as u32) =~= seq![b]) by {
            assert((b as u32 & 0x7F) as u8 == b) by (bit_vector)
                requires
                    b < 0x80,
            ;
        }
    } else {
        let (h, l) = (b as int / 16, b as int % 16);
        assert(text[1] == digit(h) && text[2] == digit(l));
        assert(digit_value(digit(h)) == h);
        assert(digit_value(digit(l)) == l);
        assert(begins_spelled(text));
        assert(text.skip(3) =~= rest);
    }
}

proof fn lemma_spelled_out(name: Seq<u8>)
    requires
        !name.contains(0),
    ensures
        path_bytes(spelled_out(name)) == name,
    decreases name.len(),
{
    if name.len() > 0 {
        let rest = name.drop_first();
        assert(name.contains(name[0]));
        assert forall|i: int| 0 <= i < rest.len() implies rest[i] != 0 by {
            assert(name.contains(name[i + 1]));
        }
        lemma_spelled_out(rest);
        lemma_spelled(name[0], spelled_out(rest));
        assert(seq![name[0]] + rest =~= name);
    }
}

/// A zero character is encoded as a zero byte.
proof fn lemma_zero(text: Seq<char>)
    requires
        text.contains('\0'),
    ensures
        encode_utf8(text).contains(0),
    decreases text.len(),
{
    let rest = text.drop_first();
    let (one, more) = (encode_scalar(text[0] as u32), encode_utf8(rest));
    if text[0] == '\0' {
        assert((0u32 & 0x7F) as u8 == 0u8) by (bit_vector);
        assert(one[0] == 0);
        assert((one + more)[0] == 0);
    } else {
        let i = choose|i: int| 0 <= i < text.len() && text[i] == '\0';
        assert(rest[i - 1] == '\0');
        lemma_zero(rest);
        let j = choose|j: int| 0 <= j < more.len() && more[j] == 0;
        assert((one + more)[one.len() + j] == 0);
    }
}

/// Every name can be told from its text: the text stands for the bytes of the name.
pub proof fn lemma_name_round_trip(name: Seq<u8>)
    requires
        !name.contains(0),
    ensures
        path_bytes(name_text(name)) == name,
{
    if valid_utf8(name) {
        vstd::utf8::decode_utf8_encode_utf8(name);
        let text = decode_utf8(name);
        if text.contains('\0') {
            lemma_zero(text);
        }
        lemma_plain_text(text);
    } else {
        lemma_spelled_out(name);
    }
}

/// A separator between two texts stands for itself.
pub proof fn lemma_separated(a: Seq<char>, b: Seq<char>)
    ensures
        path_bytes(a + seq!['/'] + b) == path_bytes(a) + seq![0x2fu8] + path_bytes(b),
    decreases a.len(),
{
    let sep = seq!['/'];
    let text = a + sep + b;
    let tail = seq![0x2fu8] + path_bytes(b);
    if a.len() == 0 {
        assert(text[0] == '/');
        assert(text.drop_first() =~= b);
        assert((0x2fu32 & 0x7F) as u8 == 0x2fu8) by (bit_vector);
        assert(encode_scalar('/' as u32) =~= seq![0x2fu8]);
        assert(path_bytes(a) + seq![0x2fu8] + path_bytes(b) =~= tail);
    } else {
        assert(text[0] == a[0]);
        assert(begins_spelled(text) == begins_spelled(a)) by {
            if a.len() == 1 {
                assert(text[1] == '/');
            } else if a.len() == 2 {
                assert(text[2] == '/');
            } else {
                assert(text[1] == a[1] && text[2] == a[2]);
            }
        }
        if begins_spelled(a) {
            assert(text[1] == a[1] && text[2] == a[2]);
            assert(text.skip(3) =~= a.skip(3) + sep + b);
            lemma_separated(a.skip(3), b);
            let one = seq![(16 * digit_value(a[1]) + digit_value(a[2])) as u8];
            assert(one + (path_bytes(a.skip(3)) + seq![0x2fu8] + path_bytes(b)) =~= path_bytes(a)
                + seq![0x2fu8] + path_bytes(b));
        } else {
            assert(text.drop_first() =~= a.drop_first() + sep + b);
            lemma_separated(a.drop_first(), b);
            let one = encode_scalar(a[0] as u32);
            assert(one + (path_bytes(a.drop_first()) + seq![0x2fu8] + path_bytes(b))
                =~= path_bytes(a) + seq![0x2fu8] + path_bytes(b));
        }
    }
}

}
