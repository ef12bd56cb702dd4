//! The lines that were entered before, oldest first.

use vstd::prelude::*;

use crate::text::{
    blank, chars_of, join, joined, law_blank_texts_are_trimmed_away, lemma_trim, lemma_trim_start,
    same_text, substring, texts, trim, trimmed, white_space,
};

verus! {

/// The number of entries that a history keeps.
pub const MAX_HISTORY: usize = 1000;

/// The entered lines, and the rules by which they are kept.
pub struct History {
    entries: Vec<String>,
}

impl View for History {
    type V = Seq<Seq<char>>;

    closed spec fn view(&self) -> Seq<Seq<char>> {
        texts(self.entries@)
    }
}

/// The last `MAX_HISTORY` entries.
pub open spec fn newest(entries: Seq<Seq<char>>) -> Seq<Seq<char>> {
    if entries.len() > MAX_HISTORY {
        entries.skip(entries.len() - MAX_HISTORY)
    } else {
        entries
    }
}

/// The entries after `line` was entered: a blank line and one that repeats the
/// newest entry are left out, any other is added without the white space around
/// it, and the oldest entry makes room if there are too many.
pub open spec fn added(entries: Seq<Seq<char>>, line: Seq<char>) -> Seq<Seq<char>> {
    let t = trim(line);
    if t.len() == 0 || (entries.len() > 0 && entries.last() == t) {
        entries
    } else if entries.len() + 1 > MAX_HISTORY {
        entries.push(t).drop_first()
    } else {
        entries.push(t)
    }
}

/// The index of the first line feed, or the length.
pub open spec fn line_end(s: Seq<char>) -> nat
    decreases s.len(),
{
    if s.len() == 0 || s[0] == '\n' {
        0
    } else {
        1 + line_end(s.drop_first())
    }
}

/// `s` without one carriage return at its end.
pub open spec fn without_cr(s: Seq<char>) -> Seq<char> {
    if s.len() > 0 && s.last() == '\r' {
        s.drop_last()
    } else {
        s
    }
}

/// The lines of a file: each ends at a line feed, or a carriage return and a
/// line feed, and the last one may also end with the file.
pub open spec fn lines(s: Seq<char>) -> Seq<Seq<char>>
    decreases s.len(),
{
    let e = line_end(s);
    if s.len() == 0 {
        seq![]
    } else if e < s.len() {
        seq![without_cr(s.take(e as int))] + lines(s.skip(e as int + 1))
    } else {
        seq![s]
    }
}

/// The lines of a file that hold any text.
pub open spec fn entry_lines(contents: Seq<char>) -> Seq<Seq<char>> {
    lines(contents).filter(|l: Seq<char>| l.len() > 0)
}

/// The position from which `prev` reads.
pub open spec fn older(len: nat, idx: Option<usize>) -> int {
    match idx {
        None => len - 1,
        Some(i) => if i > 0 {
            i - 1
        } else {
            0
        },
    }
}

/// The position from which `next` reads, while there is a newer entry.
pub open spec fn newer(len: nat, idx: Option<usize>) -> Option<int> {
    match idx {
        Some(i) if i + 1 < len => Some(i + 1),
        _ => None,
    }
}

proof fn lemma_line_end(s: Seq<char>)
    ensures
        0 <= line_end(s) <= s.len(),
        line_end(s) < s.len() ==> s[line_end(s) as int] == '\n',
        forall|j: int| 0 <= j < line_end(s) ==> s[j] != '\n',
    decreases s.len(),
{
    if s.len() > 0 && s[0] != '\n' {
        lemma_line_end(s.drop_first());
        assert forall|j: int| 0 <= j < line_end(s) implies s[j] != '\n' by {
            if j > 0 {
                assert(s.drop_first()[j - 1] == s[j]);
            }
        }
    }
}

proof fn lemma_line_end_is(s: Seq<char>, e: int)
    requires
        0 <= e <= s.len(),
        e < s.len() ==> s[e] == '\n',
        forall|j: int| 0 <= j < e ==> s[j] != '\n',
    ensures
        line_end(s) == e,
{
    lemma_line_end(s);
}

proof fn lemma_no_entry_lines(s: Seq<char>)
    requires
        s.len() == 0,
    ensures
        entry_lines(s) == Seq::<Seq<char>>::empty(),
{
    reveal_with_fuel(Seq::filter, 1);
    assert(lines(s).len() == 0);
}

proof fn lemma_entry_lines_step(s: Seq<char>, line: Seq<char>, tail: Seq<char>)
    requires
        lines(s) == seq![line] + lines(tail),
    ensures
        line.len() > 0 ==> entry_lines(s) == seq![line] + entry_lines(tail),
        line.len() == 0 ==> entry_lines(s) == entry_lines(tail),
{
    let keep = |l: Seq<char>| l.len() > 0;
    Seq::filter_distributes_over_add(seq![line], lines(tail), keep);
    assert(seq![line].drop_last() == Seq::<Seq<char>>::empty());
    reveal_with_fuel(Seq::filter, 2);
    if line.len() > 0 {
        assert(seq![line].filter(keep) == seq![line]);
    } else {
        assert(seq![line].filter(keep) == Seq::<Seq<char>>::empty());
        assert(Seq::<Seq<char>>::empty() + entry_lines(tail) == entry_lines(tail));
    }
}

/// The first line of `chars[start..]`: where it stops, and where the next begins.
fn first_line(chars: &Vec<char>, start: usize) -> (r: (usize, usize))
    requires
        start < chars.len(),
    ensures
        start <= r.0 <= chars.len(),
        start < r.1 <= chars.len(),
        lines(chars@.skip(start as int)) == seq![chars@.subrange(start as int, r.0 as int)] + lines(
            chars@.skip(r.1 as int),
        ),
{
    let mut end: usize = start;
    while end < chars.len() && chars[end] != '\n'
        invariant
            start <= end <= chars.len(),
            forall|j: int| start <= j < end ==> chars@[j] != '\n',
        decreases chars.len() - end,
    {
        end = end + 1;
    }
    let ghost rest = chars@.skip(start as int);
    proof {
        lemma_line_end_is(rest, end - start);
    }
    if end < chars.len() {
        let stop: usize = if end > start && chars[end - 1] == '\r' {
            end - 1
        } else {
            end
        };
        proof {
            assert(without_cr(rest.take(end - start)) == chars@.subrange(
                start as int,
                stop as int,
            ));
            assert(rest.skip(end - start + 1) == chars@.skip(end + 1));
        }
        (stop, end + 1)
    } else {
        proof {
            assert(rest == chars@.subrange(start as int, end as int));
            assert(chars@.skip(end as int).len() == 0);
            assert(lines(chars@.skip(end as int)) == Seq::<Seq<char>>::empty());
            assert(lines(rest) == seq![rest]);
        }
        (end, end)
    }
}

impl History {
    /// No more entries than a history keeps.
    pub open spec fn wf(&self) -> bool {
        self@.len() <= MAX_HISTORY
    }

    /// A history without entries.
    pub fn new() -> (h: Self)
        ensures
            h@ == Seq::<Seq<char>>::empty(),
            h.wf(),
    {
        History { entries: Vec::new() }
    }

    /// Enters a line.
    pub fn add(&mut self, line: &str)
        ensures
            final(self)@ == added(old(self)@, line@),
            old(self).wf() ==> final(self).wf(),
    {
        let line = trimmed(line);
        if line.is_empty() {
            return;
        }
        let n = self.entries.len();
        if n > 0 && same_text(self.entries[n - 1].as_str(), line) {
            return;
        }
        self.entries.push(line.to_string());
        assert(self@ == old(self)@.push(line@));
        if self.entries.len() > MAX_HISTORY {
            self.entries.remove(0);
            assert(self@ == old(self)@.push(line@).drop_first());
        }
    }

    /// Takes in the entries of a history file, given the file's contents: one for
    /// each line that is not empty. Of too many entries the newest stay.
    pub fn load(&mut self, contents: &str)
        ensures
            final(self)@ == newest(old(self)@ + entry_lines(contents@)),
            final(self).wf(),
    {
        let chars = chars_of(contents);
        let mut start: usize = 0;
        proof {
            assert(contents@.skip(0) == contents@);
        }
        while start < chars.len()
            invariant
                start <= chars.len(),
                chars@ == contents@,
                old(self)@ + entry_lines(contents@) == self@ + entry_lines(
                    contents@.skip(start as int),
                ),
            decreases chars.len() - start,
        {
            let (stop, next) = first_line(&chars, start);
            let ghost before = self@;
            let ghost line = contents@.subrange(start as int, stop as int);
            let ghost tail = contents@.skip(next as int);
            if stop > start {
                self.entries.push(substring(chars.as_slice(), start, stop));
                assert(self@ == before.push(line));
            }
            proof {
                lemma_entry_lines_step(contents@.skip(start as int), line, tail);
                assert(before + entry_lines(contents@.skip(start as int)) == self@ + entry_lines(
                    tail,
                ));
            }
            start = next;
        }
        proof {
            assert(contents@.skip(start as int).len() == 0);
            lemma_no_entry_lines(contents@.skip(start as int));
            assert(self@ == old(self)@ + entry_lines(contents@));
        }
        let n = self.entries.len();
        if n > MAX_HISTORY {
            let ghost before = self@;
            self.entries = self.entries.split_off(n - MAX_HISTORY);
            assert(self@ == before.skip(n - MAX_HISTORY));
        }
    }

    /// The contents of a history file with these entries, one on each line.
    pub fn save(&self) -> (contents: String)
        ensures
            contents@ == join(self@, "\n"@),
    {
        joined(self.entries.as_slice(), "\n")
    }

    /// Goes to the previous, older entry. `None` stands for the line that is
    /// being entered, below the newest entry; at the oldest entry it stays.
    pub fn prev(&self, idx: &mut Option<usize>) -> (entry: Option<&str>)
        ensures
            self@.len() == 0 ==> entry is None && *final(idx) == *old(idx),
            self@.len() > 0 ==> ({
                let i = older(self@.len(), *old(idx));
                &&& *final(idx) == Some(i as usize)
                &&& entry is Some <==> i < self@.len()
                &&& entry matches Some(t) ==> t@ == self@[i]
            }),
    {
        let n = self.entries.len();
        if n == 0 {
            return None;
        }
        let i: usize = match *idx {
            None => n - 1,
            Some(i) => if i > 0 {
                i - 1
            } else {
                0
            },
        };
        *idx = Some(i);
        if i < n {
            Some(self.entries[i].as_str())
        } else {
            None
        }
    }

    /// Goes to the next, newer entry. Past the newest one there is none, and the
    /// position is that of the line being entered again.
    pub fn next(&self, idx: &mut Option<usize>) -> (entry: Option<&str>)
        requires
            *old(idx) != Some(usize::MAX),
        ensures
            match newer(self@.len(), *old(idx)) {
                Some(i) => *final(idx) == Some(i as usize) && (entry matches Some(t) && t@
                    == self@[i]),
                None => *final(idx) is None && entry is None,
            },
    {
        let i: usize = match *idx {
            None => {
                return None;
            },
            Some(i) => i + 1,
        };
        if i >= self.entries.len() {
            *idx = None;
            return None;
        }
        *idx = Some(i);
        Some(self.entries[i].as_str())
    }

    /// The number of entries.
    pub fn len(&self) -> (n: usize)
        ensures
            n == self@.len(),
    {
        self.entries.len()
    }

    /// Whether there is no entry.
    pub fn is_empty(&self) -> (b: bool)
        ensures
            b == (self@.len() == 0),
    {
        self.entries.is_empty()
    }
}

impl Default for History {
    fn default() -> (h: Self)
        ensures
            h@ == Seq::<Seq<char>>::empty(),
            h.wf(),
    {
        History::new()
    }
}

/// Entering a line twice in a row is the same as entering it once.
pub proof fn law_repeated_line_is_kept_once(entries: Seq<Seq<char>>, line: Seq<char>)
    ensures
        added(added(entries, line), line) == added(entries, line),
{
}

/// A blank line leaves the history as it is.
pub proof fn law_blank_line_is_not_kept(entries: Seq<Seq<char>>, line: Seq<char>)
    requires
        forall|i: int| 0 <= i < line.len() ==> white_space(line[i]),
    ensures
        added(entries, line) == entries,
{
    let i = lemma_trim_start(line);
    if i < line.len() {
        assert(!white_space(line[i]));
    }
    assert(trim(line).len() == 0);
}

/// A history that was filled by entering lines holds no blank entry, none with
/// white space around it, and no two equal entries in a row.
pub open spec fn tidy(entries: Seq<Seq<char>>) -> bool {
    &&& forall|i: int| 0 <= i < entries.len() ==> (#[trigger] entries[i]).len() > 0 && trim(
        entries[i],
    ) == entries[i]
    &&& forall|i: int, j: int|
        0 <= i && j == i + 1 && j < entries.len() ==> #[trigger] entries[i] != #[trigger] entries[j]
}

/// Entering lines keeps a history tidy.
pub proof fn law_added_lines_are_tidy(entries: Seq<Seq<char>>, line: Seq<char>)
    requires
        tidy(entries),
    ensures
        tidy(added(entries, line)),
{
    lemma_trim(line);
    let r = added(entries, line);
    if entries.len() + 1 > MAX_HISTORY {
        assert(r == entries || r == entries.push(trim(line)).drop_first());
        assert forall|i: int| 0 <= i < r.len() implies (#[trigger] r[i]).len() > 0 && trim(r[i])
            == r[i] by {
            if r != entries && i + 1 < entries.len() {
                assert(r[i] == entries[i + 1]);
            }
        }
        assert forall|i: int, j: int| 0 <= i && j == i + 1 && j < r.len() implies #[trigger] r[i]
            != #[trigger] r[j] by {
            if r != entries {
                if j + 1 < entries.len() {
                    assert(entries[i + 1] != entries[j + 1]);
                } else {
                    assert(r[i] == entries[i + 1]);
                }
            }
        }
    }
}

/// Going back and then forward again returns to the entry that was left.
pub proof fn law_next_undoes_prev(len: nat, i: usize)
    requires
        0 < i < len,
    ensures
        newer(len, Some(older(len, Some(i)) as usize)) == Some(i as int),
{
}

/// From the line being entered, going back and then forward returns to it.
pub proof fn law_next_after_first_prev_leaves_history(len: nat)
    requires
        0 < len <= usize::MAX,
    ensures
        newer(len, Some(older(len, None) as usize)) is None,
{
}

proof fn lemma_join_front(parts: Seq<Seq<char>>, sep: Seq<char>)
    requires
        parts.len() >= 2,
    ensures
        join(parts, sep) == parts[0] + sep + join(parts.drop_first(), sep),
    decreases parts.len(),
{
    let rest = parts.drop_first();
    if parts.len() == 2 {
        assert(parts.drop_last().len() == 1);
        assert(rest.len() == 1);
        assert(join(rest, sep) == parts[1]);
        assert(join(parts.drop_last(), sep) == parts[0]);
    } else {
        lemma_join_front(parts.drop_last(), sep);
        assert(parts.drop_last().drop_first() == rest.drop_last());
        assert(rest.last() == parts.last());
        assert(join(rest, sep) == join(rest.drop_last(), sep) + sep + rest.last());
        assert(join(parts, sep) == parts[0] + sep + join(rest, sep));
    }
}

/// Entries that a file can hold: none is empty, none holds a line feed, and none
/// but the last ends with a carriage return.
pub open spec fn storable(entries: Seq<Seq<char>>) -> bool {
    &&& forall|i: int| 0 <= i < entries.len() ==> (#[trigger] entries[i]).len() > 0
    &&& forall|i: int| 0 <= i < entries.len() ==> !(#[trigger] entries[i]).contains('\n')
    &&& forall|i: int| 0 <= i < entries.len() - 1 ==> (#[trigger] entries[i]).last() != '\r'
}

proof fn lemma_lines_of_join(entries: Seq<Seq<char>>)
    requires
        storable(entries),
    ensures
        lines(join(entries, "\n"@)) == entries,
    decreases entries.len(),
{
    reveal_strlit("\n");
    let s = join(entries, "\n"@);
    if entries.len() == 0 {
        assert(s.len() == 0);
        assert(lines(s) == entries);
    } else {
        let first = entries[0];
        assert forall|j: int| 0 <= j < first.len() implies first[j] != '\n' by {
            if first[j] == '\n' {
                assert(first.contains('\n'));
            }
        }
        if entries.len() == 1 {
            lemma_line_end_is(s, s.len() as int);
            assert(lines(s) == seq![s]);
            assert(lines(s) == entries);
        } else {
            lemma_join_front(entries, "\n"@);
            let e = first.len() as int;
            assert(s == first + "\n"@ + join(entries.drop_first(), "\n"@));
            lemma_line_end_is(s, e);
            assert(s.take(e) == first);
            assert(s.skip(e + 1) == join(entries.drop_first(), "\n"@));
            let rest = entries.drop_first();
            assert forall|i: int| 0 <= i < rest.len() - 1 implies (#[trigger] rest[i]).last()
                != '\r' by {
                assert(rest[i] == entries[i + 1]);
            }
            lemma_lines_of_join(rest);
            assert(entries == seq![first] + rest);
            assert(lines(s) == entries);
        }
    }
}

/// What is loaded from a saved file is what was saved: the entries of a history
/// come back into an empty one, in their order.
pub proof fn law_load_gives_back_what_was_saved(entries: Seq<Seq<char>>)
    requires
        storable(entries),
        entries.len() <= MAX_HISTORY,
    ensures
        newest(Seq::<Seq<char>>::empty() + entry_lines(join(entries, "\n"@))) == entries,
{
    lemma_lines_of_join(entries);
    lemma_filter_all(entries);
}

proof fn lemma_filter_all(entries: Seq<Seq<char>>)
    requires
        forall|i: int| 0 <= i < entries.len() ==> (#[trigger] entries[i]).len() > 0,
    ensures
        entries.filter(|l: Seq<char>| l.len() > 0) == entries,
    decreases entries.len(),
{
    reveal_with_fuel(Seq::filter, 1);
    if entries.len() > 0 {
        lemma_filter_all(entries.drop_last());
        assert(entries == entries.drop_last().push(entries.last()));
    }
}

/// The line that was entered last is the newest entry, without the white space around
/// it, unless it is blank.
pub proof fn law_line_becomes_the_newest_entry(entries: Seq<Seq<char>>, line: Seq<char>)
    requires
        !blank(line),
    ensures
        added(entries, line).len() > 0,
        added(entries, line).last() == trim(line),
{
    law_blank_texts_are_trimmed_away(line);
}

/// A line that differs from the newest entry is one entry more: every entry before it
/// stays, in its order, but for the oldest where there are as many as a history keeps.
/// A line that repeats the newest entry changes nothing.
pub proof fn law_older_entries_stay(entries: Seq<Seq<char>>, line: Seq<char>)
    requires
        !blank(line),
        entries.len() <= MAX_HISTORY,
    ensures
        entries.len() > 0 && entries.last() == trim(line) ==> added(entries, line) == entries,
        (entries.len() == 0 || entries.last() != trim(line)) && entries.len() < MAX_HISTORY
            ==> added(entries, line).drop_last() == entries,
        entries.last() != trim(line) && entries.len() == MAX_HISTORY ==> added(
            entries,
            line,
        ).drop_last() == entries.drop_first(),
{
    law_blank_texts_are_trimmed_away(line);
}

/// Of too many entries the newest stay, as many as a history keeps.
pub proof fn law_newest_entries_stay(older_ones: Seq<Seq<char>>, newer_ones: Seq<Seq<char>>)
    ensures
        newer_ones.len() == MAX_HISTORY ==> newest(older_ones + newer_ones) == newer_ones,
        newer_ones.len() <= MAX_HISTORY ==> newest(newer_ones) == newer_ones,
{
    assert((older_ones + newer_ones).skip(older_ones.len() as int) == newer_ones);
}

/// A line feed ends a line, and so does a carriage return in front of one; a line ends
/// nowhere else. Lines without text are no entries, all others are, as they stand.
pub proof fn law_lines_end_at_line_feeds(line: Seq<char>, rest: Seq<char>)
    requires
        !line.contains('\n'),
    ensures
        line.len() > 0 && line.last() != '\r' ==> entry_lines(line.push('\n') + rest) == seq![line]
            + entry_lines(rest),
        line.len() > 0 ==> entry_lines(line + seq!['\r', '\n'] + rest) == seq![line] + entry_lines(
            rest,
        ),
        line.len() > 0 ==> entry_lines(line) == seq![line],
        entry_lines(seq!['\n'] + rest) == entry_lines(rest),
        entry_lines(seq!['\r', '\n'] + rest) == entry_lines(rest),
        entry_lines(seq![]) == Seq::<Seq<char>>::empty(),
{
    lemma_first_entry(line, rest);
    lemma_first_entry(line.push('\r'), rest);
    assert(line.push('\r').push('\n') + rest == line + seq!['\r', '\n'] + rest);
    let none = Seq::<char>::empty();
    lemma_first_entry(none, rest);
    assert(none.push('\n') + rest == seq!['\n'] + rest);
    lemma_first_entry(seq!['\r'], rest);
    assert(seq!['\r'].push('\n') + rest == seq!['\r', '\n'] + rest);
    assert(line.push('\r').drop_last() == line);
    lemma_no_entry_lines(none);
    if line.len() > 0 {
        assert forall|j: int| 0 <= j < line.len() implies line[j] != '\n' by {
            if line[j] == '\n' {
                assert(line.contains('\n'));
            }
        }
        lemma_line_end_is(line, line.len() as int);
        assert(lines(none) == Seq::<Seq<char>>::empty());
        assert(lines(line) == seq![line] + lines(none));
        lemma_entry_lines_step(line, line, none);
        assert(seq![line] + entry_lines(none) == seq![line]);
    }
}

proof fn lemma_first_entry(line: Seq<char>, rest: Seq<char>)
    requires
        forall|j: int| 0 <= j < line.len() ==> line[j] != '\n',
    ensures
        without_cr(line).len() > 0 ==> entry_lines(line.push('\n') + rest) == seq![
            without_cr(line),
        ] + entry_lines(rest),
        without_cr(line).len() == 0 ==> entry_lines(line.push('\n') + rest) == entry_lines(rest),
{
    let s = line.push('\n') + rest;
    let e = line.len() as int;
    lemma_line_end_is(s, e);
    assert(s.take(e) == line);
    assert(s.skip(e + 1) == rest);
    lemma_entry_lines_step(s, without_cr(line), rest);
}

/// The position after some steps back through a history.
pub open spec fn steps_back(len: nat, from: Option<usize>, n: nat) -> Option<usize>
    decreases n,
{
    if n == 0 {
        from
    } else {
        Some(older(len, steps_back(len, from, (n - 1) as nat)) as usize)
    }
}

/// Going back goes through the entries one by one, from the newest to the oldest, and
/// stays there.
pub proof fn law_history_is_walked_one_by_one(len: nat, n: nat)
    requires
        0 < len <= usize::MAX,
        n > 0,
    ensures
        steps_back(len, None, n) == Some(
            (if n <= len {
                len - n
            } else {
                0
            }) as usize,
        ),
    decreases n,
{
    if n > 1 {
        law_history_is_walked_one_by_one(len, (n - 1) as nat);
    } else {
        assert(steps_back(len, None, 0) == None::<usize>);
    }
}

/// Going back from an entry goes to the one before it, and from the oldest nowhere.
pub proof fn law_prev_goes_to_the_entry_before(len: nat, i: usize)
    ensures
        i > 0 ==> older(len, Some(i)) == i - 1,
        i == 0 ==> older(len, Some(i)) == 0,
        older(len, None) == len - 1,
{
}

/// Going forward goes to the next entry, and from the newest back to the line that is
/// being entered; from there it goes nowhere.
pub proof fn law_history_is_walked_forward_one_by_one(len: nat, i: usize)
    ensures
        i + 1 < len ==> newer(len, Some(i)) == Some(i + 1),
        i + 1 >= len ==> newer(len, Some(i)) is None,
        newer(len, None) is None,
{
}

} // verus!
