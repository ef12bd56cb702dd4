//! Positions within a line of text: word boundaries, byte offsets, and the prefix
//! that several strings share.
//!
//! Positions count characters, never bytes, so that they are safe on any input.

use vstd::prelude::*;

use crate::text::{byte_len, bytes_in, chars_of, is_whitespace, string_of, texts, white_space};

verus! {

/// The position in front of the white space that ends at `i`.
pub open spec fn before_space(s: Seq<char>, i: int) -> int
    decreases i,
{
    if 0 < i && white_space(s[i - 1]) {
        before_space(s, i - 1)
    } else {
        i
    }
}

/// The position in front of the word that ends at `i`.
pub open spec fn before_word(s: Seq<char>, i: int) -> int
    decreases i,
{
    if 0 < i && !white_space(s[i - 1]) {
        before_word(s, i - 1)
    } else {
        i
    }
}

/// The position behind the white space that begins at `i`.
pub open spec fn after_space(s: Seq<char>, i: int) -> int
    decreases s.len() - i,
{
    if 0 <= i < s.len() && white_space(s[i]) {
        after_space(s, i + 1)
    } else {
        i
    }
}

/// The position behind the word that begins at `i`.
pub open spec fn after_word(s: Seq<char>, i: int) -> int
    decreases s.len() - i,
{
    if 0 <= i < s.len() && !white_space(s[i]) {
        after_word(s, i + 1)
    } else {
        i
    }
}

/// `i`, but no more than the length of `s`.
pub open spec fn within(s: Seq<char>, i: int) -> int {
    if i <= s.len() {
        i
    } else {
        s.len() as int
    }
}

/// Where the word at or in front of `cursor` begins: back over white space, then
/// back over the word.
pub open spec fn word_left(s: Seq<char>, cursor: int) -> int {
    before_word(s, before_space(s, within(s, cursor)))
}

/// Where the word behind the one at `cursor` begins: on over the rest of the
/// word, then on over the white space.
pub open spec fn word_right(s: Seq<char>, cursor: int) -> int {
    after_space(s, after_word(s, within(s, cursor)))
}

/// The previous word boundary in `chars` from `cursor`.
pub fn word_start_before(chars: &[char], cursor: usize) -> (r: usize)
    ensures
        r == word_left(chars@, cursor as int),
        r <= cursor,
        r <= chars@.len(),
{
    let mut i: usize = if cursor <= chars.len() {
        cursor
    } else {
        chars.len()
    };
    while i > 0 && is_whitespace(chars[i - 1])
        invariant
            i <= cursor,
            i <= chars@.len(),
            before_space(chars@, within(chars@, cursor as int)) == before_space(chars@, i as int),
        decreases i,
    {
        i = i - 1;
    }
    while i > 0 && !is_whitespace(chars[i - 1])
        invariant
            i <= cursor,
            i <= chars@.len(),
            word_left(chars@, cursor as int) == before_word(chars@, i as int),
        decreases i,
    {
        i = i - 1;
    }
    i
}

/// The next word boundary in `chars` from `cursor`.
pub fn word_start_after(chars: &[char], cursor: usize) -> (r: usize)
    ensures
        r == word_right(chars@, cursor as int),
        r <= chars@.len(),
        cursor <= chars@.len() ==> cursor <= r,
{
    let mut i: usize = if cursor <= chars.len() {
        cursor
    } else {
        chars.len()
    };
    while i < chars.len() && !is_whitespace(chars[i])
        invariant
            i <= chars@.len(),
            cursor <= chars@.len() ==> cursor <= i,
            after_word(chars@, within(chars@, cursor as int)) == after_word(chars@, i as int),
        decreases chars@.len() - i,
    {
        i = i + 1;
    }
    while i < chars.len() && is_whitespace(chars[i])
        invariant
            i <= chars@.len(),
            cursor <= chars@.len() ==> cursor <= i,
            word_right(chars@, cursor as int) == after_space(chars@, i as int),
        decreases chars@.len() - i,
    {
        i = i + 1;
    }
    i
}

/// The previous word boundary in `line` from `cursor`, as Ctrl-W and Alt-B take it.
pub fn prev_word_boundary(line: &str, cursor: usize) -> (r: usize)
    ensures
        r == word_left(line@, cursor as int),
{
    word_start_before(chars_of(line).as_slice(), cursor)
}

/// The next word boundary in `line` from `cursor`, as Alt-F takes it.
pub fn next_word_boundary(line: &str, cursor: usize) -> (r: usize)
    ensures
        r == word_right(line@, cursor as int),
{
    word_start_after(chars_of(line).as_slice(), cursor)
}

/// The byte offset of the character at `char_idx`, or the length in bytes if
/// there is no such character.
pub fn char_byte_index(s: &str, char_idx: usize) -> (r: usize)
    ensures
        r == byte_len(s@.take(within(s@, char_idx as int))),
{
    let n = s.unicode_len();
    let k: usize = if char_idx <= n {
        char_idx
    } else {
        n
    };
    bytes_in(s.substring_char(0, k))
}

/// The longest string that both `a` and `b` begin with.
pub open spec fn shared(a: Seq<char>, b: Seq<char>) -> Seq<char>
    decreases a.len(),
{
    if a.len() > 0 && b.len() > 0 && a[0] == b[0] {
        seq![a[0]] + shared(a.drop_first(), b.drop_first())
    } else {
        seq![]
    }
}

/// The longest string that all of `parts` begin with; empty if there are none.
pub open spec fn common_prefix(parts: Seq<Seq<char>>) -> Seq<char>
    decreases parts.len(),
{
    if parts.len() == 0 {
        seq![]
    } else if parts.len() == 1 {
        parts[0]
    } else {
        shared(common_prefix(parts.drop_last()), parts.last())
    }
}

proof fn lemma_shared_is(a: Seq<char>, b: Seq<char>, n: int)
    requires
        0 <= n <= a.len(),
        n <= b.len(),
        forall|j: int| 0 <= j < n ==> a[j] == b[j],
        n < a.len() && n < b.len() ==> a[n] != b[n],
    ensures
        shared(a, b) == a.take(n),
    decreases n,
{
    if n > 0 {
        let a1 = a.drop_first();
        let b1 = b.drop_first();
        lemma_shared_is(a1, b1, n - 1);
        assert(a.take(n) == seq![a[0]] + a1.take(n - 1));
    } else {
        assert(a.take(0) == Seq::<char>::empty());
    }
}

proof fn lemma_shared(a: Seq<char>, b: Seq<char>)
    ensures
        shared(a, b).is_prefix_of(a),
        shared(a, b).is_prefix_of(b),
        forall|p: Seq<char>|
            p.is_prefix_of(a) && p.is_prefix_of(b) ==> #[trigger] p.is_prefix_of(shared(a, b)),
    decreases a.len(),
{
    if a.len() > 0 && b.len() > 0 && a[0] == b[0] {
        let a1 = a.drop_first();
        let b1 = b.drop_first();
        let r1 = shared(a1, b1);
        let r = shared(a, b);
        lemma_shared(a1, b1);
        assert(r == seq![a[0]] + r1);
        assert(r.drop_first() == r1);
        assert forall|p: Seq<char>|
            p.is_prefix_of(a) && p.is_prefix_of(b) implies #[trigger] p.is_prefix_of(r) by {
            if p.len() > 0 {
                let p1 = p.drop_first();
                assert(p1 == a1.subrange(0, p1.len() as int));
                assert(p1 == b1.subrange(0, p1.len() as int));
                assert(p1.is_prefix_of(r1));
                assert(p == seq![a[0]] + p1);
                assert(p == r.subrange(0, p.len() as int));
            }
        }
        assert(r == a.subrange(0, r.len() as int)) by {
            assert(r1 == a1.subrange(0, r1.len() as int));
            assert forall|k: int| 0 <= k < r.len() implies r[k] == a[k] by {
                if k > 0 {
                    assert(r1[k - 1] == a1[k - 1]);
                }
            }
        }
        assert(r == b.subrange(0, r.len() as int)) by {
            assert(r1 == b1.subrange(0, r1.len() as int));
            assert forall|k: int| 0 <= k < r.len() implies r[k] == b[k] by {
                if k > 0 {
                    assert(r1[k - 1] == b1[k - 1]);
                }
            }
        }
    } else {
        assert forall|p: Seq<char>|
            p.is_prefix_of(a) && p.is_prefix_of(b) implies #[trigger] p.is_prefix_of(
            shared(a, b),
        ) by {
            if p.len() > 0 {
                assert(p[0] == a[0]);
                assert(p[0] == b[0]);
            }
        }
    }
}

/// The common prefix is a prefix of every string, and every string that is a
/// prefix of them all is a prefix of it.
pub proof fn law_common_prefix_is_the_longest(parts: Seq<Seq<char>>)
    requires
        parts.len() > 0,
    ensures
        forall|i: int| 0 <= i < parts.len() ==> common_prefix(parts).is_prefix_of(#[trigger] parts[i]),
        forall|p: Seq<char>|
            (forall|i: int| 0 <= i < parts.len() ==> p.is_prefix_of(#[trigger] parts[i]))
                ==> #[trigger] p.is_prefix_of(common_prefix(parts)),
    decreases parts.len(),
{
    let r = common_prefix(parts);
    if parts.len() == 1 {
        assert(r == r.subrange(0, r.len() as int));
    } else {
        let init = parts.drop_last();
        let r0 = common_prefix(init);
        law_common_prefix_is_the_longest(init);
        lemma_shared(r0, parts.last());
        assert forall|i: int| 0 <= i < parts.len() implies r.is_prefix_of(#[trigger] parts[i]) by {
            if i < init.len() {
                assert(r0.is_prefix_of(init[i]));
                assert(r == r0.subrange(0, r.len() as int));
                assert(r == parts[i].subrange(0, r.len() as int));
            }
        }
        assert forall|p: Seq<char>|
            (forall|i: int| 0 <= i < parts.len() ==> p.is_prefix_of(
                #[trigger] parts[i],
            )) implies #[trigger] p.is_prefix_of(r) by {
            assert forall|i: int| 0 <= i < init.len() implies p.is_prefix_of(
                #[trigger] init[i],
            ) by {
                assert(init[i] == parts[i]);
            }
            assert(p.is_prefix_of(r0));
            assert(p.is_prefix_of(parts[parts.len() - 1]));
        }
    }
}

/// The longest string that every one of `strings` begins with, for completing a
/// word as far as the candidates agree.
pub fn longest_common_prefix(strings: &[String]) -> (r: String)
    ensures
        r@ == common_prefix(texts(strings@)),
{
    if strings.len() == 0 {
        return String::new();
    }
    let mut result: Vec<char> = chars_of(strings[0].as_str());
    for k in 1..strings.len()
        invariant
            1 <= k <= strings@.len(),
            result@ == common_prefix(texts(strings@).take(k as int)),
    {
        let other = chars_of(strings[k].as_str());
        let mut i: usize = 0;
        while i < result.len() && i < other.len() && result[i] == other[i]
            invariant
                i <= result.len(),
                i <= other.len(),
                forall|j: int| 0 <= j < i ==> result@[j] == other@[j],
            decreases result.len() - i,
        {
            i = i + 1;
        }
        proof {
            lemma_shared_is(result@, other@, i as int);
            assert(texts(strings@).take(k + 1).drop_last() == texts(strings@).take(k as int));
        }
        result.truncate(i);
    }
    assert(texts(strings@).take(strings@.len() as int) == texts(strings@));
    string_of(result.as_slice())
}

/// Moving left by a word never goes right, and stops at the start of a word or of
/// the line.
pub proof fn law_word_left_stops_at_a_word(s: Seq<char>, cursor: int)
    requires
        0 <= cursor,
    ensures
        0 <= word_left(s, cursor) <= within(s, cursor),
        word_left(s, cursor) > 0 ==> white_space(s[word_left(s, cursor) - 1]),
        word_left(s, cursor) < within(s, cursor) && !white_space(s[word_left(s, cursor)])
            || word_left(s, cursor) == 0,
{
    lemma_before_space(s, within(s, cursor));
    lemma_before_word(s, before_space(s, within(s, cursor)));
}

/// Moving right by a word never goes left, and stops at the start of a word or at
/// the end of the line.
pub proof fn law_word_right_stops_at_a_word(s: Seq<char>, cursor: int)
    requires
        0 <= cursor,
    ensures
        within(s, cursor) <= word_right(s, cursor) <= s.len(),
        word_right(s, cursor) < s.len() ==> !white_space(s[word_right(s, cursor)]) && word_right(
            s,
            cursor,
        ) > within(s, cursor) && white_space(s[word_right(s, cursor) - 1]),
{
    lemma_after_word(s, within(s, cursor));
    lemma_after_space(s, after_word(s, within(s, cursor)));
}

proof fn lemma_before_space(s: Seq<char>, i: int)
    requires
        0 <= i,
    ensures
        0 <= before_space(s, i) <= i,
        before_space(s, i) > 0 ==> !white_space(s[before_space(s, i) - 1]),
    decreases i,
{
    if 0 < i && white_space(s[i - 1]) {
        lemma_before_space(s, i - 1);
    }
}

proof fn lemma_before_word(s: Seq<char>, i: int)
    requires
        0 <= i,
    ensures
        0 <= before_word(s, i) <= i,
        before_word(s, i) > 0 ==> white_space(s[before_word(s, i) - 1]),
        before_word(s, i) < i ==> !white_space(s[before_word(s, i)]),
    decreases i,
{
    if 0 < i && !white_space(s[i - 1]) {
        lemma_before_word(s, i - 1);
    }
}

proof fn lemma_after_space(s: Seq<char>, i: int)
    requires
        0 <= i <= s.len(),
    ensures
        i <= after_space(s, i) <= s.len(),
        after_space(s, i) < s.len() ==> !white_space(s[after_space(s, i)]),
        after_space(s, i) > i ==> white_space(s[after_space(s, i) - 1]),
    decreases s.len() - i,
{
    if i < s.len() && white_space(s[i]) {
        lemma_after_space(s, i + 1);
    }
}

proof fn lemma_after_word(s: Seq<char>, i: int)
    requires
        0 <= i <= s.len(),
    ensures
        i <= after_word(s, i) <= s.len(),
        after_word(s, i) < s.len() ==> white_space(s[after_word(s, i)]),
    decreases s.len() - i,
{
    if i < s.len() && !white_space(s[i]) {
        lemma_after_word(s, i + 1);
    }
}

/// Moving left goes over white space and then over one word: of what it goes over, the
/// part up to `m` is a word and the rest white space. It stops where the word begins.
pub proof fn law_word_left_goes_over_one_word(s: Seq<char>, cursor: int) -> (m: int)
    requires
        0 <= cursor <= s.len(),
    ensures
        0 <= word_left(s, cursor) <= m <= cursor,
        forall|k: int| m <= k < cursor ==> white_space(#[trigger] s[k]),
        forall|k: int| word_left(s, cursor) <= k < m ==> !white_space(#[trigger] s[k]),
        word_left(s, cursor) > 0 ==> white_space(s[word_left(s, cursor) - 1]) && word_left(
            s,
            cursor,
        ) < m,
{
    let m = before_space(s, cursor);
    lemma_before_space(s, cursor);
    lemma_before_word(s, m);
    lemma_over_space_left(s, cursor);
    lemma_over_word_left(s, m);
    m
}

/// Moving right goes over the rest of a word and then over white space: of what it goes
/// over, the part up to `m` is of a word and the rest white space. It stops where the
/// next word begins, or at the end.
pub proof fn law_word_right_goes_over_one_word(s: Seq<char>, cursor: int) -> (m: int)
    requires
        0 <= cursor <= s.len(),
    ensures
        cursor <= m <= word_right(s, cursor) <= s.len(),
        forall|k: int| cursor <= k < m ==> !white_space(#[trigger] s[k]),
        forall|k: int| m <= k < word_right(s, cursor) ==> white_space(#[trigger] s[k]),
        word_right(s, cursor) < s.len() ==> !white_space(s[word_right(s, cursor)]) && m
            < word_right(s, cursor),
{
    let m = after_word(s, cursor);
    lemma_after_word(s, cursor);
    lemma_after_space(s, m);
    lemma_over_word_right(s, cursor);
    lemma_over_space_right(s, m);
    m
}

/// A position behind the line counts as its end.
pub proof fn law_positions_behind_the_line_count_as_its_end(s: Seq<char>, cursor: int)
    requires
        s.len() <= cursor,
    ensures
        word_left(s, cursor) == word_left(s, s.len() as int),
        word_right(s, cursor) == s.len(),
        within(s, cursor) == s.len(),
        forall|i: int| 0 <= i <= s.len() ==> #[trigger] within(s, i) == i,
{
}

/// No texts share nothing, and one text all of itself.
pub proof fn law_common_prefix_of_none_or_one(s: Seq<char>)
    ensures
        common_prefix(seq![]) == Seq::<char>::empty(),
        common_prefix(seq![s]) == s,
{
}

proof fn lemma_over_space_left(s: Seq<char>, i: int)
    requires
        0 <= i,
    ensures
        forall|k: int| before_space(s, i) <= k < i ==> white_space(#[trigger] s[k]),
    decreases i,
{
    if 0 < i && white_space(s[i - 1]) {
        lemma_over_space_left(s, i - 1);
    }
}

proof fn lemma_over_word_left(s: Seq<char>, i: int)
    requires
        0 <= i,
    ensures
        forall|k: int| before_word(s, i) <= k < i ==> !white_space(#[trigger] s[k]),
    decreases i,
{
    if 0 < i && !white_space(s[i - 1]) {
        lemma_over_word_left(s, i - 1);
    }
}

proof fn lemma_over_space_right(s: Seq<char>, i: int)
    ensures
        forall|k: int| i <= k < after_space(s, i) ==> white_space(#[trigger] s[k]),
    decreases s.len() - i,
{
    if 0 <= i < s.len() && white_space(s[i]) {
        lemma_over_space_right(s, i + 1);
    }
}

proof fn lemma_over_word_right(s: Seq<char>, i: int)
    ensures
        forall|k: int| i <= k < after_word(s, i) ==> !white_space(#[trigger] s[k]),
    decreases s.len() - i,
{
    if 0 <= i < s.len() && !white_space(s[i]) {
        lemma_over_word_right(s, i + 1);
    }
}

} // verus!
