//! Characters, and the strings that are built from them.
//!
//! Contracts speak of a string by its view, a `Seq<char>`. The functions below
//! are the few operations on characters and strings that the other modules need.

use std::str::Chars;

use vstd::prelude::*;
use vstd::std_specs::iter::IteratorSpec;
use vstd::utf8::encode_utf8;

verus! {

broadcast use vstd::seq_lib::group_seq_properties;

/// The characters that have the Unicode property `White_Space`.
pub open spec fn white_space(c: char) -> bool {
    ||| '\u{9}' <= c <= '\u{d}'
    ||| c == ' '
    ||| c == '\u{85}'
    ||| c == '\u{a0}'
    ||| c == '\u{1680}'
    ||| '\u{2000}' <= c <= '\u{200a}'
    ||| c == '\u{2028}'
    ||| c == '\u{2029}'
    ||| c == '\u{202f}'
    ||| c == '\u{205f}'
    ||| c == '\u{3000}'
}

/// Whether `c` is white space, in any script.
pub fn is_whitespace(c: char) -> (b: bool)
    ensures
        b == white_space(c),
{
    ('\u{9}' <= c && c <= '\u{d}') || c == ' ' || c == '\u{85}' || c == '\u{a0}' || c == '\u{1680}'
        || ('\u{2000}' <= c && c <= '\u{200a}') || c == '\u{2028}' || c == '\u{2029}' || c
        == '\u{202f}' || c == '\u{205f}' || c == '\u{3000}'
}

/// The characters of the Unicode category `Cc`.
pub open spec fn control(c: char) -> bool {
    c < ' ' || '\u{7f}' <= c <= '\u{9f}'
}

/// Whether `c` is a control character.
pub fn is_control(c: char) -> (b: bool)
    ensures
        b == control(c),
{
    c < ' ' || ('\u{7f}' <= c && c <= '\u{9f}')
}

/// `c` with an ASCII capital replaced by its small letter.
pub open spec fn ascii_lower(c: char) -> char {
    if 'A' <= c <= 'Z' {
        (c as u32 + 32) as char
    } else {
        c
    }
}

/// `c` with an ASCII small letter replaced by its capital.
pub open spec fn ascii_upper(c: char) -> char {
    if 'a' <= c <= 'z' {
        (c as u32 - 32) as char
    } else {
        c
    }
}

/// `s` with every ASCII capital replaced by its small letter.
pub open spec fn lowered(s: Seq<char>) -> Seq<char> {
    s.map_values(|c: char| ascii_lower(c))
}

/// `s` with every ASCII small letter replaced by its capital.
pub open spec fn raised(s: Seq<char>) -> Seq<char> {
    s.map_values(|c: char| ascii_upper(c))
}

fn lower(c: char) -> (r: char)
    ensures
        r == ascii_lower(c),
{
    if 'A' <= c && c <= 'Z' {
        (c as u8 + 32) as char
    } else {
        c
    }
}

fn upper(c: char) -> (r: char)
    ensures
        r == ascii_upper(c),
{
    if 'a' <= c && c <= 'z' {
        (c as u8 - 32) as char
    } else {
        c
    }
}

/// The views of a sequence of strings.
pub open spec fn texts(v: Seq<String>) -> Seq<Seq<char>> {
    v.map_values(|s: String| s@)
}

/// Appends one character.
///
/// Trusted: `String::push` appends the given `char` to the end of the string.
pub assume_specification[ String::push ](s: &mut String, c: char)
    ensures
        final(s)@ == old(s)@.push(c),
;

/// Trusted: `Iterator::count` walks the characters that are left and says how many
/// there were. Each takes at least one byte, and no string takes more than
/// `isize::MAX` bytes, so there are no more characters either.
#[verifier::external_body]
fn count(chars: Chars<'_>) -> (n: usize)
    ensures
        n == chars.remaining().len(),
        n <= isize::MAX,
{
    chars.count()
}

/// The number of characters of a string.
pub fn char_count(s: &str) -> (n: usize)
    ensures
        n == s@.len(),
        n <= isize::MAX,
{
    count(s.chars())
}

/// The characters of a string, in order.
pub fn chars_of(s: &str) -> (v: Vec<char>)
    ensures
        v@ == s@,
{
    let mut v: Vec<char> = Vec::new();
    for c in it: s.chars()
        invariant
            it.seq() == s@,
            v@ == s@.take(it.index()),
    {
        v.push(c);
    }
    v
}

/// The string that holds the given characters.
pub fn string_of(chars: &[char]) -> (s: String)
    ensures
        s@ == chars@,
{
    let mut s = String::new();
    for i in 0..chars.len()
        invariant
            s@ == chars@.take(i as int),
    {
        s.push(chars[i]);
    }
    s
}

/// The characters `from..to` as a string.
pub fn substring(chars: &[char], from: usize, to: usize) -> (s: String)
    requires
        from <= to <= chars@.len(),
    ensures
        s@ == chars@.subrange(from as int, to as int),
{
    let mut s = String::new();
    for i in from..to
        invariant
            from <= to <= chars@.len(),
            s@ == chars@.subrange(from as int, i as int),
    {
        s.push(chars[i]);
    }
    s
}

/// Whether two strings hold the same characters.
pub fn same_text(a: &str, b: &str) -> (r: bool)
    ensures
        r == (a@ == b@),
{
    let x = chars_of(a);
    let y = chars_of(b);
    if x.len() != y.len() {
        return false;
    }
    for i in 0..x.len()
        invariant
            x@ == a@,
            y@ == b@,
            x.len() == y.len(),
            forall|j: int| 0 <= j < i ==> x@[j] == y@[j],
    {
        if x[i] != y[i] {
            return false;
        }
    }
    assert(x@ =~= y@);
    true
}

/// Whether `s` begins with `prefix`.
pub fn starts_with(s: &str, prefix: &str) -> (r: bool)
    ensures
        r == prefix@.is_prefix_of(s@),
{
    let x = chars_of(prefix);
    let y = chars_of(s);
    if x.len() > y.len() {
        return false;
    }
    for i in 0..x.len()
        invariant
            x@ == prefix@,
            y@ == s@,
            x.len() <= y.len(),
            forall|j: int| 0 <= j < i ==> x@[j] == y@[j],
    {
        if x[i] != y[i] {
            return false;
        }
    }
    true
}

/// The small-letter form of `s`, in ASCII.
pub fn to_ascii_lowercase(s: &str) -> (r: String)
    ensures
        r@ == lowered(s@),
{
    let mut r = String::new();
    for c in it: s.chars()
        invariant
            it.seq() == s@,
            r@ == lowered(s@.take(it.index())),
    {
        r.push(lower(c));
    }
    r
}

/// The capital-letter form of `s`, in ASCII.
pub fn to_ascii_uppercase(s: &str) -> (r: String)
    ensures
        r@ == raised(s@),
{
    let mut r = String::new();
    for c in it: s.chars()
        invariant
            it.seq() == s@,
            r@ == raised(s@.take(it.index())),
    {
        r.push(upper(c));
    }
    r
}

/// `s` without the white space in front.
pub open spec fn trim_start(s: Seq<char>) -> Seq<char>
    decreases s.len(),
{
    if s.len() > 0 && white_space(s.first()) {
        trim_start(s.drop_first())
    } else {
        s
    }
}

/// `s` without the white space at its end.
pub open spec fn trim_end(s: Seq<char>) -> Seq<char>
    decreases s.len(),
{
    if s.len() > 0 && white_space(s.last()) {
        trim_end(s.drop_last())
    } else {
        s
    }
}

/// `s` without the white space at either end.
pub open spec fn trim(s: Seq<char>) -> Seq<char> {
    trim_end(trim_start(s))
}

/// `s` without the copies of `c` at its end.
pub open spec fn trim_end_matches(s: Seq<char>, c: char) -> Seq<char>
    decreases s.len(),
{
    if s.len() > 0 && s.last() == c {
        trim_end_matches(s.drop_last(), c)
    } else {
        s
    }
}

/// Trimming in front leaves a suffix that begins with no white space.
pub proof fn lemma_trim_start(s: Seq<char>) -> (i: int)
    ensures
        0 <= i <= s.len(),
        trim_start(s) == s.skip(i),
        i < s.len() ==> !white_space(s[i]),
        forall|j: int| 0 <= j < i ==> white_space(s[j]),
    decreases s.len(),
{
    if s.len() > 0 && white_space(s.first()) {
        let i = lemma_trim_start(s.drop_first());
        assert(s.drop_first().skip(i) == s.skip(i + 1));
        assert forall|j: int| 0 <= j < i + 1 implies white_space(s[j]) by {
            if j > 0 {
                assert(s.drop_first()[j - 1] == s[j]);
            }
        }
        i + 1
    } else {
        assert(s.skip(0) == s);
        0
    }
}

/// Trimming at the end leaves a prefix that ends with no white space.
pub proof fn lemma_trim_end(s: Seq<char>) -> (i: int)
    ensures
        0 <= i <= s.len(),
        trim_end(s) == s.take(i),
        i > 0 ==> !white_space(s[i - 1]),
        forall|j: int| i <= j < s.len() ==> white_space(s[j]),
    decreases s.len(),
{
    if s.len() > 0 && white_space(s.last()) {
        let i = lemma_trim_end(s.drop_last());
        assert(s.drop_last().take(i) == s.take(i));
        assert forall|j: int| i <= j < s.len() implies white_space(s[j]) by {
            if j < s.len() - 1 {
                assert(s.drop_last()[j] == s[j]);
            }
        }
        i
    } else {
        assert(s.take(s.len() as int) == s);
        s.len() as int
    }
}

/// A trimmed string neither begins nor ends with white space, and trimming it
/// again changes nothing.
pub proof fn lemma_trim(s: Seq<char>)
    ensures
        trim(s).len() > 0 ==> !white_space(trim(s).first()) && !white_space(trim(s).last()),
        trim(trim(s)) == trim(s),
{
    let i = lemma_trim_start(s);
    let j = lemma_trim_end(trim_start(s));
    if j > 0 {
        assert(trim(s).first() == s[i]);
        assert(trim(s).last() == trim_start(s)[j - 1]);
    }
}

/// The index of the first character that is no white space, or the length.
pub fn trim_start_at(chars: &[char]) -> (i: usize)
    ensures
        i <= chars@.len(),
        trim_start(chars@) == chars@.skip(i as int),
{
    let mut i: usize = 0;
    while i < chars.len() && is_whitespace(chars[i])
        invariant
            i <= chars@.len(),
            trim_start(chars@) == trim_start(chars@.skip(i as int)),
        decreases chars@.len() - i,
    {
        assert(chars@.skip(i as int).drop_first() == chars@.skip(i + 1));
        i = i + 1;
    }
    i
}

/// `s` without the white space at either end.
pub fn trimmed(s: &str) -> (r: &str)
    ensures
        r@ == trim(s@),
{
    let chars = chars_of(s);
    let from = trim_start_at(chars.as_slice());
    let mut to: usize = chars.len();
    while from < to && is_whitespace(chars[to - 1])
        invariant
            chars@ == s@,
            from <= to <= chars@.len(),
            trim(s@) == trim_end(s@.subrange(from as int, to as int)),
        decreases to,
    {
        assert(s@.subrange(from as int, to as int).drop_last() == s@.subrange(
            from as int,
            to - 1,
        ));
        to = to - 1;
    }
    s.substring_char(from, to)
}

/// `s` without the copies of `c` at its end.
pub fn trimmed_end_matches(s: &str, c: char) -> (r: &str)
    ensures
        r@ == trim_end_matches(s@, c),
{
    let chars = chars_of(s);
    let mut to: usize = chars.len();
    while 0 < to && chars[to - 1] == c
        invariant
            chars@ == s@,
            to <= chars@.len(),
            trim_end_matches(s@, c) == trim_end_matches(s@.take(to as int), c),
        decreases to,
    {
        assert(s@.take(to as int).drop_last() == s@.take(to - 1));
        to = to - 1;
    }
    s.substring_char(0, to)
}

/// The number of bytes that `s` takes in UTF-8.
pub open spec fn byte_len(s: Seq<char>) -> nat {
    encode_utf8(s).len()
}

/// The number of bytes of a string.
pub fn bytes_in(s: &str) -> (n: usize)
    ensures
        n == byte_len(s@),
{
    s.as_bytes().len()
}

/// A string takes at least one byte for each character.
pub proof fn lemma_byte_len_bounds(s: Seq<char>)
    ensures
        s.len() <= byte_len(s),
    decreases s.len(),
{
    if s.len() > 0 {
        lemma_byte_len_bounds(s.drop_first());
    }
}

/// `n` copies of `c`.
pub open spec fn repeated(c: char, n: int) -> Seq<char> {
    Seq::new(
        if n > 0 {
            n as nat
        } else {
            0
        },
        |i: int| c,
    )
}

/// Appends `n` copies of `c`.
pub fn push_repeated(out: &mut String, c: char, n: usize)
    ensures
        final(out)@ == old(out)@ + repeated(c, n as int),
{
    let ghost start = out@;
    for i in 0..n
        invariant
            out@ == start + repeated(c, i as int),
    {
        out.push(c);
    }
}

/// `s` with spaces behind it, so that it has at least `width` characters.
pub open spec fn padded(s: Seq<char>, width: int) -> Seq<char> {
    s + repeated(' ', width - s.len())
}

/// Appends `s` with spaces behind it, up to `width` characters.
pub fn push_padded(out: &mut String, s: &str, width: usize)
    ensures
        final(out)@ == old(out)@ + padded(s@, width as int),
{
    out.append(s);
    let n = s.unicode_len();
    if n < width {
        push_repeated(out, ' ', width - n);
    }
}

/// The strings of `parts` one after the other.
pub open spec fn concat(parts: Seq<Seq<char>>) -> Seq<char>
    decreases parts.len(),
{
    if parts.len() == 0 {
        seq![]
    } else {
        concat(parts.drop_last()) + parts.last()
    }
}

/// The strings of `parts` one after the other, with `sep` between any two.
pub open spec fn join(parts: Seq<Seq<char>>, sep: Seq<char>) -> Seq<char>
    decreases parts.len(),
{
    if parts.len() == 0 {
        seq![]
    } else if parts.len() == 1 {
        parts[0]
    } else {
        join(parts.drop_last(), sep) + sep + parts.last()
    }
}

/// Joins strings with a separator between any two.
pub fn joined(parts: &[String], sep: &str) -> (s: String)
    ensures
        s@ == join(texts(parts@), sep@),
{
    let mut s = String::new();
    for i in 0..parts.len()
        invariant
            s@ == join(texts(parts@).take(i as int), sep@),
    {
        proof {
            assert(texts(parts@).take(i + 1).drop_last() == texts(parts@).take(i as int));
            assert(i > 0 ==> texts(parts@).take(i + 1).len() > 1);
        }
        if i > 0 {
            s.append(sep);
        }
        s.append(parts[i].as_str());
    }
    assert(texts(parts@).take(parts@.len() as int) == texts(parts@));
    s
}

/// The decimal digit for `d`, which is less than ten.
pub open spec fn digit(d: int) -> char {
    ('0' as int + d) as char
}

/// `n` in decimal notation, without leading zeros.
pub open spec fn decimal(n: nat) -> Seq<char>
    decreases n,
{
    if n < 10 {
        seq![digit(n as int)]
    } else {
        decimal(n / 10).push(digit((n % 10) as int))
    }
}

/// Appends `n` in decimal notation.
pub fn push_decimal(out: &mut String, n: usize)
    ensures
        final(out)@ == old(out)@ + decimal(n as nat),
    decreases n,
{
    if n >= 10 {
        push_decimal(out, n / 10);
    }
    out.push((48u8 + (n % 10) as u8) as char);
}

/// Trimming takes white space off both ends and nothing else: what is left begins
/// and ends with something, and is all there was in between.
pub proof fn law_trimming_takes_off_only_white_space(s: Seq<char>) -> (ends: (int, int))
    ensures
        0 <= ends.0 <= ends.1 <= s.len(),
        trim(s) == s.subrange(ends.0, ends.1),
        forall|k: int| 0 <= k < ends.0 ==> white_space(#[trigger] s[k]),
        forall|k: int| ends.1 <= k < s.len() ==> white_space(#[trigger] s[k]),
        ends.0 < ends.1 ==> !white_space(s[ends.0]) && !white_space(s[ends.1 - 1]),
{
    let i = lemma_trim_start(s);
    let t = s.skip(i);
    let j = lemma_trim_end(t);
    assert(t.take(j) == s.subrange(i, i + j));
    if j == 0 && i < s.len() {
        assert(t[0] == s[i]);
        assert(white_space(t[0]));
    }
    assert forall|k: int| i + j <= k < s.len() implies white_space(#[trigger] s[k]) by {
        assert(t[k - i] == s[k]);
    }
    if j > 0 {
        assert(t[j - 1] == s[i + j - 1]);
    }
    (i, i + j)
}

/// Whether a text holds nothing but white space.
pub open spec fn blank(s: Seq<char>) -> bool {
    forall|k: int| 0 <= k < s.len() ==> white_space(#[trigger] s[k])
}

/// What trimming leaves of a text is found again, whatever white space it stands in.
pub proof fn law_white_space_around_a_text_does_not_count(
    lead: Seq<char>,
    s: Seq<char>,
    tail: Seq<char>,
)
    requires
        blank(lead),
        blank(tail),
        s.len() > 0,
        !white_space(s[0]),
        !white_space(s[s.len() - 1]),
    ensures
        trim(lead + s + tail) == s,
{
    let all = lead + s + tail;
    let (i, j) = law_trimming_takes_off_only_white_space(all);
    let a = lead.len() as int;
    let b = a + s.len();
    assert(all[a] == s[0]);
    assert(all[b - 1] == s[s.len() - 1]);
    if i < j {
        if i < a {
            assert(all[i] == lead[i]);
        }
        if j > b {
            assert(all[j - 1] == tail[j - 1 - b]);
        }
    }
    assert(all.subrange(a, b) == s);
}

/// Nothing is left of a text by trimming it exactly where it is blank.
pub proof fn law_blank_texts_are_trimmed_away(s: Seq<char>)
    ensures
        trim(s).len() == 0 <==> blank(s),
{
    let (i, j) = law_trimming_takes_off_only_white_space(s);
    if trim(s).len() == 0 {
        assert forall|k: int| 0 <= k < s.len() implies white_space(#[trigger] s[k]) by {}
    }
}

/// Taking a character off the end takes off every copy of it there, and nothing else.
pub proof fn law_copies_at_the_end_are_taken_off(s: Seq<char>, c: char) -> (end: int)
    ensures
        0 <= end <= s.len(),
        trim_end_matches(s, c) == s.take(end),
        forall|k: int| end <= k < s.len() ==> #[trigger] s[k] == c,
        end > 0 ==> s[end - 1] != c,
    decreases s.len(),
{
    if s.len() > 0 && s.last() == c {
        let t = s.drop_last();
        let end = law_copies_at_the_end_are_taken_off(t, c);
        assert(t.take(end) == s.take(end));
        assert forall|k: int| end <= k < s.len() implies #[trigger] s[k] == c by {
            if k < t.len() {
                assert(t[k] == s[k]);
            }
        }
        end
    } else {
        assert(s.take(s.len() as int) == s);
        s.len() as int
    }
}

/// Joining some texts and then some more is joining them all; the separator stands
/// between any two of them and nowhere else.
pub proof fn law_joining_in_parts(a: Seq<Seq<char>>, b: Seq<Seq<char>>, sep: Seq<char>)
    ensures
        a.len() > 0 && b.len() > 0 ==> join(a + b, sep) == join(a, sep) + sep + join(b, sep),
        a.len() == 1 ==> join(a, sep) == a[0],
        a.len() == 0 ==> join(a, sep) == Seq::<char>::empty(),
    decreases b.len(),
{
    if a.len() > 0 && b.len() > 0 {
        assert((a + b).drop_last() == a + b.drop_last());
        assert((a + b).last() == b.last());
        if b.len() == 1 {
            assert(a + b.drop_last() == a);
        } else {
            law_joining_in_parts(a, b.drop_last(), sep);
            assert(join(a + b, sep) == join(a, sep) + sep + join(b, sep));
        }
    }
}

/// Putting some texts one behind the other, and then some more, is doing so with all.
pub proof fn law_concatenating_in_parts(a: Seq<Seq<char>>, b: Seq<Seq<char>>)
    ensures
        concat(a + b) == concat(a) + concat(b),
        a.len() == 1 ==> concat(a) == a[0],
        a.len() == 0 ==> concat(a) == Seq::<char>::empty(),
    decreases b.len(),
{
    if a.len() == 1 {
        assert(a.drop_last() == Seq::<Seq<char>>::empty());
        assert(concat(a.drop_last()) == Seq::<char>::empty());
        assert(concat(a) == a[0]);
    }
    if b.len() == 0 {
        assert(a + b == a);
    } else {
        law_concatenating_in_parts(a, b.drop_last());
        assert((a + b).drop_last() == a + b.drop_last());
        assert((a + b).last() == b.last());
        assert(concat(a + b) == concat(a) + concat(b));
    }
}

/// Padding leaves a text as it is and puts spaces behind it, just as many as it lacks.
pub proof fn law_padding_adds_only_spaces(s: Seq<char>, width: int)
    ensures
        padded(s, width).len() == if s.len() < width {
            width
        } else {
            s.len() as int
        },
        padded(s, width).take(s.len() as int) == s,
        forall|i: int| s.len() <= i < padded(s, width).len() ==> #[trigger] padded(s, width)[i] == ' ',
{
}

/// In small letters and in capitals a text has as many characters, and only its ASCII
/// letters differ, by their distance in the alphabet's two rows.
pub proof fn law_case_changes_only_letters(s: Seq<char>, i: int)
    requires
        0 <= i < s.len(),
    ensures
        lowered(s).len() == s.len(),
        raised(s).len() == s.len(),
        'A' <= s[i] <= 'Z' ==> lowered(s)[i] as int - 'a' as int == s[i] as int - 'A' as int,
        'a' <= s[i] <= 'z' ==> raised(s)[i] as int - 'A' as int == s[i] as int - 'a' as int,
        !('A' <= s[i] <= 'Z') ==> lowered(s)[i] == s[i],
        !('a' <= s[i] <= 'z') ==> raised(s)[i] == s[i],
{
}

/// The number that decimal digits stand for.
pub open spec fn number(digits: Seq<char>) -> int
    decreases digits.len(),
{
    if digits.len() == 0 {
        0
    } else {
        10 * number(digits.drop_last()) + (digits.last() as int - '0' as int)
    }
}

/// A number in decimal notation is digits that stand for it, and no zero leads them
/// but where the number is zero.
pub proof fn law_decimal_is_read_back(n: nat)
    ensures
        number(decimal(n)) == n,
        decimal(n).len() > 0,
        forall|i: int| 0 <= i < decimal(n).len() ==> '0' <= #[trigger] decimal(n)[i] <= '9',
        decimal(n)[0] == '0' ==> n == 0,
    decreases n,
{
    let d = decimal(n);
    if n < 10 {
        assert(d.drop_last() == Seq::<char>::empty());
        assert(number(d.drop_last()) == 0);
    } else {
        law_decimal_is_read_back(n / 10);
        assert(d.drop_last() == decimal(n / 10));
        assert(d[0] == decimal(n / 10)[0]);
    }
}

/// The views of some strings are those of each of them, in their order.
pub proof fn law_texts_are_the_views(v: Seq<String>, i: int)
    requires
        0 <= i < v.len(),
    ensures
        texts(v).len() == v.len(),
        texts(v)[i] == v[i]@,
{
}

} // verus!
