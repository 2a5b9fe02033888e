//! Reading the answer of a network-status tool: which process identifiers
//! own a listening socket on a port.
//!
//! Two layouts are read. The table of `netstat -ano -p tcp` has one socket
//! per row, in the fields protocol, local address, foreign address, state
//! and process identifier. The list of `lsof -ti tcp:PORT` has one process
//! identifier per row. From either, each identifier is taken once, in the
//! order in which it first appears.

use crate::table::{
    all_within, cut, fields, lemma_fields_are_words, lemma_trimmed_has_bare_ends, rows,
    split_fields, split_rows, trim, trimmed,
};
use crate::text::{
    chars_of, ends_with, eq_ignoring_ascii_case, has_suffix, is_digit, is_whitespace,
    lemma_numeral_is_digits, lemma_numeral_is_unique, numeral, push_numeral,
    same_ignoring_ascii_case,
};
use vstd::prelude::*;
use vstd::slice::slice_subrange;

verus! {

/// What the local address of a socket on `port` ends with: a colon and
/// the port's decimal numeral.
pub open spec fn port_mark(port: u16) -> Seq<char> {
    seq![':'] + numeral(port as nat)
}

/// The process identifier that a row of the socket table names as the
/// owner of a listening socket on `port`, if the row is one of a socket
/// that listens there: it has at least five fields, its fourth is
/// `LISTENING` in any ASCII case, and its second ends with the port's
/// mark. A socket on another port whose number only starts or ends with
/// the same digits is none.
pub open spec fn netstat_owner(row: Seq<char>, port: u16) -> Option<Seq<char>> {
    let f = fields(row);
    if f.len() >= 5 && same_ignoring_ascii_case(f[3], "LISTENING"@) && ends_with(
        f[1],
        port_mark(port),
    ) {
        Some(f[4])
    } else {
        None
    }
}

/// The process identifier that a row of the identifier list holds: the row
/// without the whitespace around it, unless nothing is left.
pub open spec fn lsof_owner(row: Seq<char>) -> Option<Seq<char>> {
    let id = trimmed(row);
    if id.len() > 0 {
        Some(id)
    } else {
        None
    }
}

/// What each row of the socket table names, row by row.
pub open spec fn netstat_owners(rows: Seq<Seq<char>>, port: u16) -> Seq<Option<Seq<char>>> {
    Seq::new(rows.len(), |k: int| netstat_owner(rows[k], port))
}

/// What each row of the identifier list holds, row by row.
pub open spec fn lsof_owners(rows: Seq<Seq<char>>) -> Seq<Option<Seq<char>>> {
    Seq::new(rows.len(), |k: int| lsof_owner(rows[k]))
}

/// The identifiers among `found`, each once, in the order in which they
/// first appear.
pub open spec fn gather(found: Seq<Option<Seq<char>>>) -> Seq<Seq<char>>
    decreases found.len(),
{
    if found.len() == 0 {
        Seq::empty()
    } else {
        let before = gather(found.drop_last());
        match found.last() {
            Some(id) => if before.contains(id) {
                before
            } else {
                before.push(id)
            },
            None => before,
        }
    }
}

/// The identifiers of the processes that, by the socket table `output`,
/// listen on `port`.
pub open spec fn netstat_listeners(output: Seq<char>, port: u16) -> Seq<Seq<char>> {
    gather(netstat_owners(rows(output), port))
}

/// The identifiers of the processes that the identifier list `output` holds.
pub open spec fn lsof_listeners(output: Seq<char>) -> Seq<Seq<char>> {
    gather(lsof_owners(rows(output)))
}

/// The mark of a port tells the port: an address that is written with
/// the port `actual` ends with the mark of `asked` only where the two
/// are the same port.
pub proof fn lemma_port_mark_names_one_port(host: Seq<char>, asked: u16, actual: u16)
    ensures
        ends_with(host + port_mark(actual), port_mark(asked)) <==> asked == actual,
{
    let address = host + port_mark(actual);
    let wanted = port_mark(asked);
    let written = port_mark(actual);
    lemma_numeral_is_digits(asked as nat);
    lemma_numeral_is_digits(actual as nat);
    assert(address.subrange(address.len() - written.len(), address.len() as int) =~= written);
    if ends_with(address, wanted) {
        let tail = address.subrange(address.len() - wanted.len(), address.len() as int);
        assert(tail == wanted);
        if wanted.len() == written.len() {
            assert(numeral(asked as nat) =~= wanted.skip(1));
            assert(numeral(actual as nat) =~= written.skip(1));
            lemma_numeral_is_unique(asked as nat, actual as nat);
        } else if wanted.len() < written.len() {
            let at = written.len() - wanted.len();
            assert(tail[0] == address[address.len() - wanted.len()]);
            assert(address[address.len() - wanted.len()] == written[at]);
            assert(written[at] == numeral(actual as nat)[at - 1]);
            assert(is_digit(numeral(actual as nat)[at - 1]));
            assert(wanted[0] == ':');
        } else {
            let at = wanted.len() - written.len();
            assert(tail[at] == address[address.len() - written.len()]);
            assert(address[address.len() - written.len()] == written[0]);
            assert(wanted[at] == numeral(asked as nat)[at - 1]);
            assert(is_digit(numeral(asked as nat)[at - 1]));
            assert(written[0] == ':');
        }
    }
}

/// An identifier that a row names is a word: it is not empty, and it
/// holds no whitespace where it comes from a socket table, none at its
/// ends where it comes from an identifier list.
pub proof fn lemma_owner_is_a_word(row: Seq<char>, port: u16)
    ensures
        netstat_owner(row, port) matches Some(id) ==> id.len() > 0 && forall|i: int|
            0 <= i < id.len() ==> !is_whitespace(#[trigger] id[i]),
        lsof_owner(row) matches Some(id) ==> id.len() > 0 && !is_whitespace(id.first())
            && !is_whitespace(id.last()),
{
    lemma_fields_are_words(row);
    lemma_trimmed_has_bare_ends(row);
    if netstat_owner(row, port) is Some {
        let f = fields(row);
        assert(f[4].len() > 0);
        assert forall|i: int| 0 <= i < f[4].len() implies !is_whitespace(#[trigger] f[4][i]) by {}
    }
}

/// No identifier is gathered twice.
pub proof fn lemma_gather_distinct(found: Seq<Option<Seq<char>>>)
    ensures
        gather(found).no_duplicates(),
    decreases found.len(),
{
    if found.len() > 0 {
        lemma_gather_distinct(found.drop_last());
    }
}

/// An identifier is gathered if and only if some row named it.
pub proof fn lemma_gather_members(found: Seq<Option<Seq<char>>>, id: Seq<char>)
    ensures
        gather(found).contains(id) <==> found.contains(Some(id)),
    decreases found.len(),
{
    if found.len() > 0 {
        let front = found.drop_last();
        lemma_gather_members(front, id);
        let before = gather(front);
        if found.contains(Some(id)) {
            let k = choose|k: int| 0 <= k < found.len() && found[k] == Some(id);
            if k < found.len() - 1 {
                assert(front[k] == Some(id));
            } else {
                assert(found.last() == Some(id));
                if !before.contains(id) {
                    assert(before.push(id)[before.len() as int] == id);
                }
            }
            if before.contains(id) {
                let j = choose|j: int| 0 <= j < before.len() && before[j] == id;
                assert(gather(found)[j] == id);
            }
        }
        if gather(found).contains(id) {
            if before.contains(id) {
                let k = choose|k: int| 0 <= k < front.len() && front[k] == Some(id);
                assert(found[k] == Some(id));
            } else {
                assert(found.last() == Some(id));
                assert(found[found.len() - 1] == Some(id));
            }
        }
    }
}

/// Of a socket table, the identifiers taken are pairwise different, an
/// identifier is taken if and only if some row names it as the owner of a
/// socket that listens on the port, and none is empty.
pub proof fn lemma_netstat_listeners(output: Seq<char>, port: u16)
    ensures
        netstat_listeners(output, port).no_duplicates(),
        forall|id: Seq<char>| #[trigger]
            netstat_listeners(output, port).contains(id) <==> exists|k: int|
                0 <= k < rows(output).len() && #[trigger] netstat_owner(rows(output)[k], port)
                    == Some(id),
        forall|j: int|
            0 <= j < netstat_listeners(output, port).len() ==> (#[trigger] netstat_listeners(
                output,
                port,
            )[j]).len() > 0,
{
    let found = netstat_owners(rows(output), port);
    lemma_gather_distinct(found);
    assert forall|j: int| 0 <= j < gather(found).len() implies (#[trigger] gather(found)[j]).len()
        > 0 by {
        let id = gather(found)[j];
        lemma_gather_members(found, id);
        let k = choose|k: int| 0 <= k < found.len() && found[k] == Some(id);
        lemma_owner_is_a_word(rows(output)[k], port);
    }
    assert forall|id: Seq<char>| #[trigger]
        netstat_listeners(output, port).contains(id) <==> exists|k: int|
            0 <= k < rows(output).len() && #[trigger] netstat_owner(rows(output)[k], port) == Some(
                id,
            ) by {
        lemma_gather_members(found, id);
        if found.contains(Some(id)) {
            let k = choose|k: int| 0 <= k < found.len() && found[k] == Some(id);
            assert(netstat_owner(rows(output)[k], port) == Some(id));
        }
        if exists|k: int|
            0 <= k < rows(output).len() && #[trigger] netstat_owner(rows(output)[k], port) == Some(
                id,
            ) {
            let k = choose|k: int|
                0 <= k < rows(output).len() && #[trigger] netstat_owner(rows(output)[k], port)
                    == Some(id);
            assert(found[k] == Some(id));
        }
    }
}

/// Of an identifier list, the identifiers taken are pairwise different, an
/// identifier is taken if and only if some row holds it, and none is empty.
pub proof fn lemma_lsof_listeners(output: Seq<char>)
    ensures
        lsof_listeners(output).no_duplicates(),
        forall|id: Seq<char>| #[trigger]
            lsof_listeners(output).contains(id) <==> exists|k: int|
                0 <= k < rows(output).len() && #[trigger] lsof_owner(rows(output)[k]) == Some(id),
        forall|j: int|
            0 <= j < lsof_listeners(output).len() ==> (#[trigger] lsof_listeners(output)[j]).len()
                > 0,
{
    let found = lsof_owners(rows(output));
    lemma_gather_distinct(found);
    assert forall|j: int| 0 <= j < gather(found).len() implies (#[trigger] gather(found)[j]).len()
        > 0 by {
        let id = gather(found)[j];
        lemma_gather_members(found, id);
        let k = choose|k: int| 0 <= k < found.len() && found[k] == Some(id);
        lemma_owner_is_a_word(rows(output)[k], 0);
    }
    assert forall|id: Seq<char>| #[trigger]
        lsof_listeners(output).contains(id) <==> exists|k: int|
            0 <= k < rows(output).len() && #[trigger] lsof_owner(rows(output)[k]) == Some(id) by {
        lemma_gather_members(found, id);
        if found.contains(Some(id)) {
            let k = choose|k: int| 0 <= k < found.len() && found[k] == Some(id);
            assert(lsof_owner(rows(output)[k]) == Some(id));
        }
        if exists|k: int|
            0 <= k < rows(output).len() && #[trigger] lsof_owner(rows(output)[k]) == Some(id) {
            let k = choose|k: int|
                0 <= k < rows(output).len() && #[trigger] lsof_owner(rows(output)[k]) == Some(id);
            assert(found[k] == Some(id));
        }
    }
}

/// Whether `id` is one of `ids`.
fn holds(ids: &Vec<String>, id: &String) -> (found: bool)
    ensures
        found == ids.deep_view().contains(id@),
{
    let mut k: usize = 0;
    while k < ids.len()
        invariant
            k <= ids.len(),
            forall|j: int| 0 <= j < k ==> ids.deep_view()[j] != id@,
        decreases ids.len() - k,
    {
        if ids[k] == *id {
            assert(ids.deep_view()[k as int] == id@);
            return true;
        }
        assert(ids.deep_view()[k as int] != id@);
        k += 1;
    }
    false
}

/// Adds `id` to `ids` unless it is there already.
fn keep(ids: &mut Vec<String>, id: String)
    ensures
        final(ids).deep_view() == if old(ids).deep_view().contains(id@) {
            old(ids).deep_view()
        } else {
            old(ids).deep_view().push(id@)
        },
{
    if !holds(ids, &id) {
        ids.push(id);
        assert(ids.deep_view() =~= old(ids).deep_view().push(id@));
    }
}

/// The characters of [`port_mark`].
fn port_mark_chars(port: u16) -> (mark: Vec<char>)
    ensures
        mark@ == port_mark(port),
{
    let mut s = String::from_str(":");
    proof {
        reveal_strlit(":");
    }
    push_numeral(&mut s, port as u64);
    assert(s@ =~= port_mark(port));
    chars_of(s.as_str())
}

/// Reads the socket table `output` of `netstat -ano -p tcp`: the
/// identifiers of the processes that listen on `port`, each once, in the
/// order of their first rows.
pub fn parse_netstat(output: &str, port: u16) -> (ids: Vec<String>)
    ensures
        ids.deep_view() == netstat_listeners(output@, port),
        ids.deep_view().no_duplicates(),
        forall|id: Seq<char>| #[trigger]
            ids.deep_view().contains(id) <==> exists|k: int|
                0 <= k < rows(output@).len() && #[trigger] netstat_owner(rows(output@)[k], port)
                    == Some(id),
        forall|j: int| 0 <= j < ids.len() ==> (#[trigger] ids[j])@.len() > 0,
{
    let chars = chars_of(output);
    let text = chars.as_slice();
    let mark = port_mark_chars(port);
    let listening = chars_of("LISTENING");
    let spans = split_rows(text);
    let mut ids: Vec<String> = Vec::new();
    let mut k: usize = 0;
    assert(netstat_owners(rows(output@).take(0), port) =~= Seq::empty());
    assert(ids.deep_view() =~= Seq::empty());
    while k < spans.len()
        invariant
            k <= spans.len(),
            text@ == output@,
            mark@ == port_mark(port),
            listening@ == "LISTENING"@,
            all_within(spans@, text@.len()),
            cut(text@, spans@) == rows(text@),
            ids.deep_view() == gather(netstat_owners(rows(output@).take(k as int), port)),
        decreases spans.len() - k,
    {
        let span = spans[k];
        assert(span.within(text@.len()));
        assert(cut(text@, spans@)[k as int] == span.of(text@));
        let row = slice_subrange(text, span.start, span.end);
        let f = split_fields(row);
        let ghost before = netstat_owners(rows(output@).take(k as int), port);
        let ghost owner = netstat_owner(row@, port);
        assert(netstat_owners(rows(output@).take(k + 1), port) =~= before.push(owner));
        assert(before.push(owner).drop_last() =~= before);
        if f.len() >= 5 {
            assert(f@[1].within(row@.len()) && f@[3].within(row@.len()) && f@[4].within(
                row@.len(),
            ));
            assert(cut(row@, f@)[1] == f@[1].of(row@));
            assert(cut(row@, f@)[3] == f@[3].of(row@));
            assert(cut(row@, f@)[4] == f@[4].of(row@));
            let local = slice_subrange(row, f[1].start, f[1].end);
            let state = slice_subrange(row, f[3].start, f[3].end);
            if eq_ignoring_ascii_case(state, listening.as_slice()) && has_suffix(
                local,
                mark.as_slice(),
            ) {
                let id = output.substring_char(span.start + f[4].start, span.start + f[4].end);
                assert(id@ =~= f@[4].of(row@));
                keep(&mut ids, String::from_str(id));
            }
        }
        k += 1;
    }
    assert(rows(output@).take(k as int) =~= rows(output@));
    proof {
        lemma_netstat_listeners(output@, port);
        assert forall|j: int| 0 <= j < ids.len() implies (#[trigger] ids[j])@.len() > 0 by {
            assert(ids.deep_view()[j] == ids[j]@);
        }
    }
    ids
}

/// Reads the identifier list `output` of `lsof -ti tcp:PORT`: the
/// identifiers it holds, each once, in the order of their first rows.
pub fn parse_lsof(output: &str) -> (ids: Vec<String>)
    ensures
        ids.deep_view() == lsof_listeners(output@),
        ids.deep_view().no_duplicates(),
        forall|id: Seq<char>| #[trigger]
            ids.deep_view().contains(id) <==> exists|k: int|
                0 <= k < rows(output@).len() && #[trigger] lsof_owner(rows(output@)[k]) == Some(id),
        forall|j: int| 0 <= j < ids.len() ==> (#[trigger] ids[j])@.len() > 0,
{
    let chars = chars_of(output);
    let text = chars.as_slice();
    let spans = split_rows(text);
    let mut ids: Vec<String> = Vec::new();
    let mut k: usize = 0;
    assert(lsof_owners(rows(output@).take(0)) =~= Seq::empty());
    assert(ids.deep_view() =~= Seq::empty());
    while k < spans.len()
        invariant
            k <= spans.len(),
            text@ == output@,
            all_within(spans@, text@.len()),
            cut(text@, spans@) == rows(text@),
            ids.deep_view() == gather(lsof_owners(rows(output@).take(k as int))),
        decreases spans.len() - k,
    {
        let span = spans[k];
        assert(span.within(text@.len()));
        assert(cut(text@, spans@)[k as int] == span.of(text@));
        let row = slice_subrange(text, span.start, span.end);
        let inner = trim(row);
        let ghost before = lsof_owners(rows(output@).take(k as int));
        let ghost owner = lsof_owner(row@);
        assert(lsof_owners(rows(output@).take(k + 1)) =~= before.push(owner));
        assert(before.push(owner).drop_last() =~= before);
        if inner.start < inner.end {
            let id = output.substring_char(span.start + inner.start, span.start + inner.end);
            assert(id@ =~= inner.of(row@));
            keep(&mut ids, String::from_str(id));
        }
        k += 1;
    }
    assert(rows(output@).take(k as int) =~= rows(output@));
    proof {
        lemma_lsof_listeners(output@);
        assert forall|j: int| 0 <= j < ids.len() implies (#[trigger] ids[j])@.len() > 0 by {
            assert(ids.deep_view()[j] == ids[j]@);
        }
    }
    ids
}

} // verus!
