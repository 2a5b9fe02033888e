//! The layout of tabular tool output: rows divided by line feeds, fields
//! divided by whitespace, and rows with the whitespace at both ends removed.
//!
//! A piece of a text is handed out as a [`Span`], the positions at which it
//! starts and ends, so that no character is copied.

use crate::text::{char_is_whitespace, is_whitespace};
use vstd::prelude::*;

verus! {

/// A piece of a text: the characters from `start` up to, not including, `end`.
#[derive(Clone, Copy, Debug, PartialEq, Eq)]
pub struct Span {
    pub start: usize,
    pub end: usize,
}

impl Span {
    /// The span lies inside a text of `len` characters.
    pub open spec fn within(self, len: nat) -> bool {
        self.start <= self.end <= len
    }

    /// The piece of `text` that the span stands for.
    pub open spec fn of(self, text: Seq<char>) -> Seq<char> {
        text.subrange(self.start as int, self.end as int)
    }
}

/// Every span of `spans` lies inside a text of `len` characters.
pub open spec fn all_within(spans: Seq<Span>, len: nat) -> bool {
    forall|k: int| 0 <= k < spans.len() ==> (#[trigger] spans[k]).within(len)
}

/// The pieces of `text` that `spans` stand for, in order.
pub open spec fn cut(text: Seq<char>, spans: Seq<Span>) -> Seq<Seq<char>> {
    Seq::new(spans.len(), |k: int| spans[k].of(text))
}

/// The number of characters of `text` before its first line feed; all of
/// them where it has none.
pub open spec fn row_len(text: Seq<char>) -> nat
    decreases text.len(),
{
    if text.len() == 0 || text[0] == '\n' {
        0
    } else {
        1 + row_len(text.skip(1))
    }
}

/// The rows of `text`: the pieces between its line feeds, empty ones
/// included. A text without a line feed is one row; a text that ends in a
/// line feed has an empty last row.
pub open spec fn rows(text: Seq<char>) -> Seq<Seq<char>>
    decreases text.len(),
{
    let n = row_len(text);
    if n >= text.len() {
        seq![text]
    } else {
        seq![text.take(n as int)] + rows(text.skip(n as int + 1))
    }
}

/// The number of characters of `s` before its first whitespace; all of them
/// where it has none.
pub open spec fn word_len(s: Seq<char>) -> nat
    decreases s.len(),
{
    if s.len() == 0 || is_whitespace(s[0]) {
        0
    } else {
        1 + word_len(s.skip(1))
    }
}

/// The fields of `row`: its longest pieces free of whitespace, in order.
/// None of them is empty.
pub open spec fn fields(row: Seq<char>) -> Seq<Seq<char>>
    decreases row.len(),
{
    if row.len() == 0 {
        Seq::empty()
    } else if is_whitespace(row[0]) {
        fields(row.skip(1))
    } else {
        proof {
            lemma_word_len_fits(row);
        }
        let n = word_len(row);
        seq![row.take(n as int)] + fields(row.skip(n as int))
    }
}

/// A word is no longer than the text it starts.
pub proof fn lemma_word_len_fits(s: Seq<char>)
    ensures
        word_len(s) <= s.len(),
    decreases s.len(),
{
    if s.len() > 0 && !is_whitespace(s[0]) {
        lemma_word_len_fits(s.skip(1));
    }
}

/// `s` without the whitespace at its start.
pub open spec fn trim_start(s: Seq<char>) -> Seq<char>
    decreases s.len(),
{
    if s.len() > 0 && is_whitespace(s[0]) {
        trim_start(s.skip(1))
    } else {
        s
    }
}

/// `s` without the whitespace at its end.
pub open spec fn trim_end(s: Seq<char>) -> Seq<char>
    decreases s.len(),
{
    if s.len() > 0 && is_whitespace(s.last()) {
        trim_end(s.drop_last())
    } else {
        s
    }
}

/// `s` without the whitespace at its start and at its end.
pub open spec fn trimmed(s: Seq<char>) -> Seq<char> {
    trim_end(trim_start(s))
}

/// `row_len` is the one position that no line feed precedes and that is
/// the end of the text or holds a line feed.
pub proof fn lemma_row_len(text: Seq<char>, n: int)
    requires
        0 <= n <= text.len(),
        forall|i: int| 0 <= i < n ==> text[i] != '\n',
        n == text.len() || text[n] == '\n',
    ensures
        row_len(text) == n,
    decreases n,
{
    if n > 0 {
        let rest = text.skip(1);
        assert forall|i: int| 0 <= i < n - 1 implies rest[i] != '\n' by {
            assert(rest[i] == text[i + 1]);
        }
        lemma_row_len(rest, n - 1);
    }
}

/// `word_len` is the one position that no whitespace precedes and that is
/// the end of the text or holds whitespace.
pub proof fn lemma_word_len(s: Seq<char>, n: int)
    requires
        0 <= n <= s.len(),
        forall|i: int| 0 <= i < n ==> !is_whitespace(s[i]),
        n == s.len() || is_whitespace(s[n]),
    ensures
        word_len(s) == n,
    decreases n,
{
    if n > 0 {
        let rest = s.skip(1);
        assert forall|i: int| 0 <= i < n - 1 implies !is_whitespace(rest[i]) by {
            assert(rest[i] == s[i + 1]);
        }
        lemma_word_len(rest, n - 1);
    }
}

/// No row holds a line feed.
pub proof fn lemma_rows_hold_no_line_feed(text: Seq<char>)
    ensures
        rows(text).len() >= 1,
        forall|k: int, i: int|
            0 <= k < rows(text).len() && 0 <= i < rows(text)[k].len() ==> (#[trigger] rows(
                text,
            )[k][i]) != '\n',
    decreases text.len(),
{
    lemma_run_before_line_feed(text);
    let n = row_len(text);
    if n < text.len() {
        lemma_rows_hold_no_line_feed(text.skip(n as int + 1));
    }
}

/// Before the end of its first row a text holds no line feed.
pub proof fn lemma_run_before_line_feed(text: Seq<char>)
    ensures
        row_len(text) <= text.len(),
        forall|i: int| 0 <= i < row_len(text) ==> text[i] != '\n',
    decreases text.len(),
{
    if text.len() > 0 && text[0] != '\n' {
        let rest = text.skip(1);
        lemma_run_before_line_feed(rest);
        assert forall|i: int| 0 <= i < row_len(text) implies text[i] != '\n' by {
            if i > 0 {
                assert(text[i] == rest[i - 1]);
            }
        }
    }
}

/// Before the end of its first word a text holds no whitespace.
pub proof fn lemma_run_before_whitespace(s: Seq<char>)
    ensures
        word_len(s) <= s.len(),
        forall|i: int| 0 <= i < word_len(s) ==> !is_whitespace(s[i]),
    decreases s.len(),
{
    if s.len() > 0 && !is_whitespace(s[0]) {
        let rest = s.skip(1);
        lemma_run_before_whitespace(rest);
        assert forall|i: int| 0 <= i < word_len(s) implies !is_whitespace(s[i]) by {
            if i > 0 {
                assert(s[i] == rest[i - 1]);
            }
        }
    }
}

/// No field is empty, and none holds whitespace.
pub proof fn lemma_fields_are_words(row: Seq<char>)
    ensures
        forall|k: int| 0 <= k < fields(row).len() ==> (#[trigger] fields(row)[k]).len() > 0,
        forall|k: int, i: int|
            0 <= k < fields(row).len() && 0 <= i < fields(row)[k].len() ==> !is_whitespace(
                #[trigger] fields(row)[k][i],
            ),
    decreases row.len(),
{
    if row.len() == 0 {
        assert(fields(row).len() == 0);
    } else if is_whitespace(row[0]) {
        lemma_fields_are_words(row.skip(1));
        assert(fields(row) == fields(row.skip(1)));
    } else {
        lemma_run_before_whitespace(row);
        let n = word_len(row) as int;
        let word = row.take(n);
        let rest = fields(row.skip(n));
        lemma_fields_are_words(row.skip(n));
        assert(fields(row) == seq![word] + rest);
        assert forall|k: int| 0 <= k < fields(row).len() implies (#[trigger] fields(row)[k]).len()
            > 0 by {
            if k > 0 {
                assert(fields(row)[k] == rest[k - 1]);
            }
        }
        assert forall|k: int, i: int|
            0 <= k < fields(row).len() && 0 <= i < fields(row)[k].len() implies !is_whitespace(
            #[trigger] fields(row)[k][i],
        ) by {
            if k > 0 {
                assert(fields(row)[k] == rest[k - 1]);
                assert(!is_whitespace(rest[k - 1][i]));
            } else {
                assert(fields(row)[0] == word);
                assert(word[i] == row[i]);
            }
        }
    }
}

/// What is left of a text after trimming neither starts nor ends with
/// whitespace.
pub proof fn lemma_trimmed_has_bare_ends(s: Seq<char>)
    ensures
        trimmed(s).len() > 0 ==> !is_whitespace(trimmed(s).first()) && !is_whitespace(
            trimmed(s).last(),
        ),
{
    lemma_trim_start_bare(s);
    lemma_trim_end_bare(trim_start(s));
}

/// What `trim_start` leaves does not start with whitespace.
proof fn lemma_trim_start_bare(s: Seq<char>)
    ensures
        trim_start(s).len() > 0 ==> !is_whitespace(trim_start(s).first()),
    decreases s.len(),
{
    if s.len() > 0 && is_whitespace(s[0]) {
        lemma_trim_start_bare(s.skip(1));
    }
}

/// What `trim_end` leaves does not end with whitespace, and starts as the
/// text started.
proof fn lemma_trim_end_bare(s: Seq<char>)
    ensures
        trim_end(s).len() > 0 ==> !is_whitespace(trim_end(s).last()) && trim_end(s).first()
            == s.first(),
    decreases s.len(),
{
    if s.len() > 0 && is_whitespace(s.last()) {
        lemma_trim_end_bare(s.drop_last());
    }
}

/// Whitespace at the start of a row belongs to no field.
pub proof fn lemma_fields_skip_whitespace(row: Seq<char>, n: int)
    requires
        0 <= n <= row.len(),
        forall|i: int| 0 <= i < n ==> is_whitespace(row[i]),
    ensures
        fields(row) == fields(row.skip(n)),
    decreases n,
{
    if n == 0 {
        assert(row.skip(0) =~= row);
    } else {
        let rest = row.skip(1);
        assert forall|i: int| 0 <= i < n - 1 implies is_whitespace(rest[i]) by {
            assert(rest[i] == row[i + 1]);
        }
        lemma_fields_skip_whitespace(rest, n - 1);
        assert(rest.skip(n - 1) =~= row.skip(n));
    }
}

/// What `trim_start` leaves after `n` characters of whitespace, where the
/// next character is none.
pub proof fn lemma_trim_start(s: Seq<char>, n: int)
    requires
        0 <= n <= s.len(),
        forall|i: int| 0 <= i < n ==> is_whitespace(s[i]),
        n == s.len() || !is_whitespace(s[n]),
    ensures
        trim_start(s) == s.skip(n),
    decreases n,
{
    if n == 0 {
        assert(s.skip(0) =~= s);
    } else {
        let rest = s.skip(1);
        assert forall|i: int| 0 <= i < n - 1 implies is_whitespace(rest[i]) by {
            assert(rest[i] == s[i + 1]);
        }
        lemma_trim_start(rest, n - 1);
        assert(rest.skip(n - 1) =~= s.skip(n));
    }
}

/// What `trim_end` leaves where the characters from `n` on are whitespace
/// and the one before them is none.
pub proof fn lemma_trim_end(s: Seq<char>, n: int)
    requires
        0 <= n <= s.len(),
        forall|i: int| n <= i < s.len() ==> is_whitespace(s[i]),
        n == 0 || !is_whitespace(s[n - 1]),
    ensures
        trim_end(s) == s.take(n),
    decreases s.len() - n,
{
    if n == s.len() {
        assert(s.take(n) =~= s);
    } else {
        let rest = s.drop_last();
        lemma_trim_end(rest, n);
        assert(rest.take(n) =~= s.take(n));
    }
}

/// The position at which the row that starts at `start` ends: that of the
/// next line feed, or the end of the text.
fn row_end(text: &[char], start: usize) -> (end: usize)
    requires
        start <= text.len(),
    ensures
        start <= end <= text.len(),
        end - start == row_len(text@.skip(start as int)),
{
    let mut at: usize = start;
    while at < text.len() && text[at] != '\n'
        invariant
            start <= at <= text.len(),
            forall|i: int| start <= i < at ==> text@[i] != '\n',
        decreases text.len() - at,
    {
        at += 1;
    }
    proof {
        lemma_row_len(text@.skip(start as int), at - start);
    }
    at
}

/// Divides `text` into its rows.
pub fn split_rows(text: &[char]) -> (spans: Vec<Span>)
    ensures
        all_within(spans@, text@.len()),
        cut(text@, spans@) == rows(text@),
{
    let mut spans: Vec<Span> = Vec::new();
    let mut start: usize = 0;
    assert(text@.skip(0) =~= text@);
    assert(cut(text@, spans@) + rows(text@) =~= rows(text@));
    loop
        invariant_except_break
            start <= text.len(),
            rows(text@) == cut(text@, spans@) + rows(text@.skip(start as int)),
        invariant
            all_within(spans@, text@.len()),
        ensures
            cut(text@, spans@) == rows(text@),
        decreases text.len() - start,
    {
        let end = row_end(text, start);
        let ghost rest = text@.skip(start as int);
        let ghost before = spans@;
        spans.push(Span { start, end });
        assert(cut(text@, spans@) =~= cut(text@, before).push(
            text@.subrange(start as int, end as int),
        ));
        if end == text.len() {
            assert(rest =~= text@.subrange(start as int, end as int));
            assert(cut(text@, before) + seq![rest] =~= cut(text@, before).push(rest));
            break;
        }
        assert(rest.take(end - start) =~= text@.subrange(start as int, end as int));
        assert(rest.skip(end - start + 1) =~= text@.skip(end + 1));
        assert(cut(text@, before) + (seq![rest.take(end - start)] + rows(text@.skip(end + 1)))
            =~= cut(text@, before).push(rest.take(end - start)) + rows(text@.skip(end + 1)));
        start = end + 1;
    }
    spans
}

/// The position at which the field that starts at `start` ends: that of
/// the next whitespace, or the end of the row.
fn word_end(row: &[char], start: usize) -> (end: usize)
    requires
        start <= row.len(),
    ensures
        start <= end <= row.len(),
        end - start == word_len(row@.skip(start as int)),
{
    let mut at: usize = start;
    while at < row.len() && !char_is_whitespace(row[at])
        invariant
            start <= at <= row.len(),
            forall|i: int| start <= i < at ==> !is_whitespace(row@[i]),
        decreases row.len() - at,
    {
        at += 1;
    }
    proof {
        lemma_word_len(row@.skip(start as int), at - start);
    }
    at
}

/// The first position from `start` on that holds no whitespace, or the end
/// of the row.
fn skip_whitespace(row: &[char], start: usize) -> (at: usize)
    requires
        start <= row.len(),
    ensures
        start <= at <= row.len(),
        forall|i: int| start <= i < at ==> is_whitespace(row@[i]),
        at == row.len() || !is_whitespace(row@[at as int]),
{
    let mut at: usize = start;
    while at < row.len() && char_is_whitespace(row[at])
        invariant
            start <= at <= row.len(),
            forall|i: int| start <= i < at ==> is_whitespace(row@[i]),
        decreases row.len() - at,
    {
        at += 1;
    }
    at
}

/// Divides `row` into its fields.
pub fn split_fields(row: &[char]) -> (spans: Vec<Span>)
    ensures
        all_within(spans@, row@.len()),
        cut(row@, spans@) == fields(row@),
{
    let mut spans: Vec<Span> = Vec::new();
    let mut pos: usize = 0;
    assert(row@.skip(0) =~= row@);
    assert(cut(row@, spans@) + fields(row@) =~= fields(row@));
    loop
        invariant_except_break
            pos <= row.len(),
            fields(row@) == cut(row@, spans@) + fields(row@.skip(pos as int)),
        invariant
            all_within(spans@, row@.len()),
        ensures
            cut(row@, spans@) == fields(row@),
        decreases row.len() - pos,
    {
        let start = skip_whitespace(row, pos);
        proof {
            let rest = row@.skip(pos as int);
            lemma_fields_skip_whitespace(rest, start - pos);
            assert(rest.skip(start - pos) =~= row@.skip(start as int));
        }
        if start == row.len() {
            assert(cut(row@, spans@) + Seq::<Seq<char>>::empty() =~= cut(row@, spans@));
            break;
        }
        let end = word_end(row, start);
        let ghost rest = row@.skip(start as int);
        let ghost before = spans@;
        spans.push(Span { start, end });
        assert(cut(row@, spans@) =~= cut(row@, before).push(
            row@.subrange(start as int, end as int),
        ));
        assert(rest.take(end - start) =~= row@.subrange(start as int, end as int));
        assert(rest.skip(end - start) =~= row@.skip(end as int));
        assert(cut(row@, before) + (seq![rest.take(end - start)] + fields(row@.skip(end as int)))
            =~= cut(row@, before).push(rest.take(end - start)) + fields(row@.skip(end as int)));
        pos = end;
    }
    spans
}

/// The part of `row` between the whitespace at its start and at its end.
pub fn trim(row: &[char]) -> (span: Span)
    ensures
        span.within(row@.len()),
        span.of(row@) == trimmed(row@),
{
    let start = skip_whitespace(row, 0);
    let mut end: usize = row.len();
    while end > start && char_is_whitespace(row[end - 1])
        invariant
            start <= end <= row.len(),
            forall|i: int| end <= i < row.len() ==> is_whitespace(row@[i]),
        decreases end,
    {
        end -= 1;
    }
    proof {
        let rest = row@.skip(start as int);
        lemma_trim_start(row@, start as int);
        lemma_trim_end(rest, end - start);
        assert(rest.take(end - start) =~= row@.subrange(start as int, end as int));
    }
    Span { start, end }
}

} // verus!
