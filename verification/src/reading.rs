//! What is read from what programs print.

use crate::btrfs::{first_id, id_in_line};
use crate::hooks::is_entry;
use crate::snapshot::listed_id;
use crate::text::{
    decimal, find, is_digit, is_space, joined, lemma_find, lemma_number_round_trip, split_at_char,
    trim_end, trim_start, trimmed, word_end, words_of,
};
use vstd::prelude::*;

verus! {

/// White space only.
pub open spec fn is_blank(s: Seq<char>) -> bool {
    forall|i: int| 0 <= i < s.len() ==> is_space(#[trigger] s[i])
}

/// A text without white space that is not empty.
pub open spec fn is_word(s: Seq<char>) -> bool {
    s.len() > 0 && forall|i: int| 0 <= i < s.len() ==> !is_space(#[trigger] s[i])
}

proof fn lemma_trim_start(lead: Seq<char>, rest: Seq<char>)
    requires
        is_blank(lead),
        rest.len() > 0 ==> !is_space(rest[0]),
    ensures
        trim_start(lead + rest) == rest,
    decreases lead.len(),
{
    if lead.len() > 0 {
        assert((lead + rest)[0] == lead[0]);
        assert((lead + rest).drop_first() =~= lead.drop_first() + rest);
        lemma_trim_start(lead.drop_first(), rest);
    } else {
        assert(lead + rest =~= rest);
    }
}

proof fn lemma_trim_end(rest: Seq<char>, tail: Seq<char>)
    requires
        is_blank(tail),
        rest.len() > 0 ==> !is_space(rest.last()),
    ensures
        trim_end(rest + tail) == rest,
    decreases tail.len(),
{
    if tail.len() > 0 {
        assert((rest + tail).last() == tail.last());
        assert((rest + tail).drop_last() =~= rest + tail.drop_last());
        lemma_trim_end(rest, tail.drop_last());
    } else {
        assert(rest + tail =~= rest);
    }
}

/// Trimming takes the white space from both ends, and nothing else.
pub proof fn lemma_trimmed(lead: Seq<char>, core: Seq<char>, tail: Seq<char>)
    requires
        is_blank(lead),
        is_blank(tail),
        core.len() > 0,
        !is_space(core[0]),
        !is_space(core.last()),
    ensures
        trimmed(lead + core + tail) == core,
{
    assert(lead + core + tail =~= lead + (core + tail));
    lemma_trim_start(lead, core + tail);
    lemma_trim_end(core, tail);
}

/// White space alone is trimmed to nothing.
pub proof fn lemma_trimmed_blank(s: Seq<char>)
    requires
        is_blank(s),
    ensures
        trimmed(s).len() == 0,
{
    lemma_trim_start(s, Seq::empty());
    assert(s + Seq::<char>::empty() =~= s);
}

proof fn lemma_word_end(word: Seq<char>, rest: Seq<char>)
    requires
        forall|i: int| 0 <= i < word.len() ==> !is_space(#[trigger] word[i]),
        rest.len() > 0 ==> is_space(rest[0]),
    ensures
        word_end(word + rest) == word.len(),
    decreases word.len(),
{
    if word.len() > 0 {
        assert((word + rest)[0] == word[0]);
        assert((word + rest).drop_first() =~= word.drop_first() + rest);
        lemma_word_end(word.drop_first(), rest);
    } else {
        assert(word + rest =~= rest);
    }
}

proof fn lemma_words_after_blank(gap: Seq<char>, rest: Seq<char>)
    requires
        is_blank(gap),
    ensures
        words_of(gap + rest) == words_of(rest),
    decreases gap.len(),
{
    if gap.len() > 0 {
        assert((gap + rest)[0] == gap[0]);
        assert((gap + rest).drop_first() =~= gap.drop_first() + rest);
        lemma_words_after_blank(gap.drop_first(), rest);
    } else {
        assert(gap + rest =~= rest);
    }
}

/// The words of a text: one that is followed by white space comes first, and the others are
/// those of what comes after.
pub proof fn lemma_words(word: Seq<char>, gap: Seq<char>, rest: Seq<char>)
    requires
        is_word(word),
        is_blank(gap),
        gap.len() > 0 || rest.len() == 0,
    ensures
        words_of(word + gap + rest) == seq![word] + words_of(rest),
{
    let tail = gap + rest;
    let s = word + gap + rest;
    assert(s =~= word + tail);
    lemma_word_end(word, tail);
    assert(s[0] == word[0]);
    assert(s.take(word.len() as int) =~= word);
    assert(s.skip(word.len() as int) =~= tail);
    lemma_words_after_blank(gap, rest);
}

proof fn lemma_digits(n: nat)
    ensures
        decimal(n).len() > 0,
        forall|i: int| 0 <= i < decimal(n).len() ==> is_digit(#[trigger] decimal(n)[i]),
    decreases n,
{
    if n >= 10 {
        lemma_digits(n / 10);
    }
}

/// A line of snapper's list: a number, a description and a type, with white space between them.
/// It counts, with its number, exactly where the type is `single` and the description is the
/// one that is asked for; what comes after does not matter.
pub proof fn lemma_listed_line(
    number: u64,
    description: Seq<char>,
    kind: Seq<char>,
    rest: Seq<char>,
    gaps: (Seq<char>, Seq<char>, Seq<char>),
    wanted: Seq<char>,
)
    requires
        is_word(description),
        is_word(kind),
        is_blank(gaps.0) && gaps.0.len() > 0,
        is_blank(gaps.1) && gaps.1.len() > 0,
        is_blank(gaps.2) && (gaps.2.len() > 0 || rest.len() == 0),
    ensures
        listed_id(
            decimal(number as nat) + gaps.0 + (description + gaps.1 + (kind + gaps.2 + rest)),
            wanted,
        ) == if kind == "single"@ && description == wanted {
            Some(number)
        } else {
            None
        },
{
    let n = decimal(number as nat);
    let third = kind + gaps.2 + rest;
    let second = description + gaps.1 + third;
    let line = n + gaps.0 + second;
    lemma_digits(number as nat);
    lemma_number_round_trip(number);
    assert(is_word(n));
    lemma_words(kind, gaps.2, rest);
    lemma_words(description, gaps.1, third);
    lemma_words(n, gaps.0, second);
    let parts = words_of(line);
    assert(parts[0] == n);
    assert(parts[1] == description);
    assert(parts[2] == kind);
    assert(line[0] == n[0]);
    assert(is_digit(line[0]));
    assert(!"#"@.is_prefix_of(line)) by {
        reveal_strlit("#");
        if "#"@.is_prefix_of(line) {
            assert(line.subrange(0, 1)[0] == '#');
        }
    }
    assert(trimmed(line).len() > 0) by {
        crate::text::lemma_words_trimmed(line);
        if trimmed(line).len() == 0 {
            assert(words_of(trimmed(line)).len() == 0);
        }
    }
}

/// The line with the ID in what `btrfs subvolume show` prints: after `Subvolume ID:`, with white
/// space before and between, stands the number.
pub proof fn lemma_id_line(lead: Seq<char>, gap: Seq<char>, id: u64, tail: Seq<char>)
    requires
        is_blank(lead),
        is_blank(gap),
        is_blank(tail),
    ensures
        id_in_line(lead + "Subvolume ID:"@ + gap + decimal(id as nat) + tail) == Some(id),
{
    let n = decimal(id as nat);
    let line = lead + "Subvolume ID:"@ + gap + n + tail;
    lemma_digits(id as nat);
    lemma_number_round_trip(id);
    reveal_strlit("Subvolume ID:");
    reveal_strlit("Subvolume ID");
    let core = "Subvolume ID:"@ + gap + n;
    assert(line =~= lead + core + tail);
    assert(core.last() == n.last());
    assert(is_digit(n[n.len() - 1]));
    lemma_trimmed(lead, core, tail);
    assert("Subvolume ID:"@.is_prefix_of(core)) by {
        assert(core.subrange(0, 13) =~= "Subvolume ID:"@);
    }
    let before = lead + "Subvolume ID"@;
    let after = gap + n + tail;
    assert(line =~= before + seq![':'] + after);
    assert(!before.contains(':'));
    assert(!after.contains(':')) by {
        assert forall|i: int| 0 <= i < after.len() implies after[i] != ':' by {
            if i < gap.len() {
                assert(is_space(gap[i]));
            } else if i < gap.len() + n.len() {
                assert(is_digit(n[i - gap.len()]));
            } else {
                assert(is_space(tail[i - gap.len() - n.len()]));
            }
        }
    }
    lemma_split_once(before, after, ':');
    lemma_trimmed(gap, n, tail);
    assert(is_digit(n[0]));
}

/// A text with one separator has two pieces.
proof fn lemma_split_once(before: Seq<char>, after: Seq<char>, c: char)
    requires
        !before.contains(c),
        !after.contains(c),
    ensures
        split_at_char(before + seq![c] + after, c) == seq![before, after],
{
    let s = before + seq![c] + after;
    lemma_find(s, c);
    lemma_find(after, c);
    let n = find(s, c);
    assert(s[before.len() as int] == c);
    assert(n == before.len()) by {
        if n < before.len() {
            assert(before[n] == s[n]);
            assert(before.contains(before[n]));
        }
    }
    assert(s.take(n) =~= before);
    assert(s.skip(n + 1) =~= after);
    let k = find(after, c);
    assert(!(0 <= k < after.len())) by {
        if 0 <= k < after.len() {
            assert(after.contains(after[k]));
        }
    }
    reveal_with_fuel(split_at_char, 2);
    assert(split_at_char(s, c) =~= seq![before, after]);
}

/// The ID is that in the first line that gives one.
pub proof fn lemma_first_id(all: Seq<Seq<char>>, k: int, id: u64)
    requires
        0 <= k < all.len(),
        id_in_line(all[k]) == Some(id),
        forall|j: int| 0 <= j < k ==> id_in_line(#[trigger] all[j]) is None,
    ensures
        first_id(all, 0) == Some(id),
{
    lemma_first_id_from(all, 0, k, id);
}

proof fn lemma_first_id_from(all: Seq<Seq<char>>, i: int, k: int, id: u64)
    requires
        0 <= i <= k < all.len(),
        id_in_line(all[k]) == Some(id),
        forall|j: int| i <= j < k ==> id_in_line(#[trigger] all[j]) is None,
    ensures
        first_id(all, i) == Some(id),
    decreases k - i,
{
    if i < k {
        assert(id_in_line(all[i]) is None);
        lemma_first_id_from(all, i + 1, k, id);
    }
}

/// What counts as an entry of an fstab: a line with something on it that does not begin with
/// `#`, whatever white space stands around it.
pub proof fn lemma_fstab_entry(lead: Seq<char>, core: Seq<char>, tail: Seq<char>)
    requires
        is_blank(lead),
        is_blank(tail),
        core.len() > 0,
        !is_space(core[0]),
        !is_space(core.last()),
    ensures
        is_entry(lead + core + tail) == (core[0] != '#'),
        !is_entry(lead),
{
    lemma_trimmed(lead, core, tail);
    lemma_trimmed_blank(lead);
    reveal_strlit("#");
    if "#"@.is_prefix_of(core) {
        assert(core.subrange(0, 1)[0] == '#');
    } else if core[0] == '#' {
        assert(core.subrange(0, 1) =~= "#"@);
    }
}

/// The pieces of a text put together again, with the separator between them, are the text.
pub proof fn lemma_split_and_joined(s: Seq<char>, c: char)
    ensures
        joined(split_at_char(s, c), seq![c]) == s,
    decreases s.len(),
{
    lemma_find(s, c);
    let n = find(s, c);
    if 0 <= n < s.len() {
        let head = s.take(n);
        let rest = s.skip(n + 1);
        lemma_split_and_joined(rest, c);
        lemma_joined_front(head, split_at_char(rest, c), seq![c]);
        assert(s =~= head + seq![c] + rest);
    } else {
        assert(split_at_char(s, c) == seq![s]);
    }
}

pub(crate) proof fn lemma_joined_front(first: Seq<char>, rest: Seq<Seq<char>>, sep: Seq<char>)
    requires
        rest.len() > 0,
    ensures
        joined(seq![first] + rest, sep) == first + sep + joined(rest, sep),
    decreases rest.len(),
{
    let all = seq![first] + rest;
    assert(all.drop_last() =~= seq![first] + rest.drop_last());
    assert(all.last() == rest.last());
    if rest.len() == 1 {
        assert(seq![first] + rest.drop_last() =~= seq![first]);
        reveal_with_fuel(joined, 2);
        assert(joined(all.drop_last(), sep) == first);
    } else {
        lemma_joined_front(first, rest.drop_last(), sep);
        assert(joined(all, sep) =~= first + sep + joined(rest, sep));
    }
}

} // verus!
