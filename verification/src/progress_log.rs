//! The completion log: a text of one identifier per line.
//!
//! A line ends with a line feed. A carriage return directly before the line
//! feed belongs to the line ending, any other carriage return to the line.
//! The last line may lack its line feed; an empty text has no lines. The log
//! is append-only: an entry is an identifier and a line feed, and appending
//! it leaves every earlier line as it was.

use crate::identifiers::{lemma_views_push, views};
use vstd::prelude::*;

verus! {

/// The state of a left-to-right scan over a text: the lines closed so far and
/// the characters read since the last line feed.
pub struct Scan {
    pub closed: Seq<Seq<char>>,
    pub open: Seq<char>,
}

/// A line as it stood before its line feed, without the carriage return that
/// may precede the line feed.
pub open spec fn without_cr(line: Seq<char>) -> Seq<char> {
    if line.len() > 0 && line.last() == '\r' {
        line.drop_last()
    } else {
        line
    }
}

/// Scans a text: a line feed closes the open line, any other character
/// lengthens it.
pub open spec fn scan(text: Seq<char>) -> Scan
    decreases text.len(),
{
    if text.len() == 0 {
        Scan { closed: Seq::empty(), open: Seq::empty() }
    } else {
        let before = scan(text.drop_last());
        if text.last() == '\n' {
            Scan { closed: before.closed.push(without_cr(before.open)), open: Seq::empty() }
        } else {
            Scan { closed: before.closed, open: before.open.push(text.last()) }
        }
    }
}

/// The lines of a text: the closed lines, and the open line where the text
/// does not end with a line feed.
pub open spec fn lines_of(text: Seq<char>) -> Seq<Seq<char>> {
    let end = scan(text);
    if end.open.len() > 0 {
        end.closed.push(end.open)
    } else {
        end.closed
    }
}

/// Splits a text into its lines.
pub fn split_lines(text: &str) -> (lines: Vec<String>)
    ensures
        views(lines@) == lines_of(text@),
{
    let mut lines: Vec<String> = Vec::new();
    let mut open = String::new();
    // A carriage return is held back until the next character shows whether
    // it belongs to a line ending.
    let mut held_cr = false;
    for c in it: text.chars()
        invariant
            it.seq() == text@,
            views(lines@) == scan(text@.take(it.index())).closed,
            scan(text@.take(it.index())).open == if held_cr {
                open@.push('\r')
            } else {
                open@
            },
            !held_cr ==> open@.len() == 0 || open@.last() != '\r',
    {
        proof {
            let i = it.index();
            assert(text@.take(i + 1).drop_last() == text@.take(i));
            assert(text@.take(i + 1).last() == c);
        }
        if c == '\n' {
            proof {
                lemma_views_push(lines@, open);
                assert(open@.push('\r').drop_last() == open@);
            }
            lines.push(open);
            open = String::new();
            held_cr = false;
        } else if c == '\r' {
            if held_cr {
                open.push('\r');
            }
            held_cr = true;
        } else {
            if held_cr {
                open.push('\r');
                held_cr = false;
            }
            open.push(c);
        }
    }
    assert(text@.take(text@.len() as int) == text@);
    if held_cr {
        open.push('\r');
    }
    if !open.as_str().is_empty() {
        proof {
            lemma_views_push(lines@, open);
        }
        lines.push(open);
    }
    lines
}

/// The log entry for one identifier: its characters and a line feed.
pub open spec fn entry_of(id: Seq<char>) -> Seq<char> {
    id.push('\n')
}

/// Builds the log entry for `id`.
pub fn log_entry(id: &str) -> (entry: String)
    ensures
        entry@ == entry_of(id@),
{
    let mut entry = id.to_owned();
    entry.push('\n');
    entry
}

/// Whether a text is empty or ends with a line feed, as a log does whose
/// every entry was written whole.
pub open spec fn newline_terminated(text: Seq<char>) -> bool {
    text.len() == 0 || text.last() == '\n'
}

/// Whether an identifier reads back as itself from a line of its own: it
/// holds no line feed and does not end with a carriage return.
pub open spec fn fits_one_line(id: Seq<char>) -> bool {
    !id.contains('\n') && without_cr(id) == id
}

/// The entries for a sequence of identifiers, one after the other.
pub open spec fn entries_of(ids: Seq<Seq<char>>) -> Seq<char>
    decreases ids.len(),
{
    if ids.len() == 0 {
        Seq::empty()
    } else {
        entries_of(ids.drop_last()) + entry_of(ids.last())
    }
}

/// Characters other than a line feed lengthen the open line and close none.
pub proof fn lemma_scan_unbroken(text: Seq<char>, tail: Seq<char>)
    requires
        !tail.contains('\n'),
    ensures
        scan(text + tail) == (Scan {
            closed: scan(text).closed,
            open: scan(text).open + tail,
        }),
    decreases tail.len(),
{
    if tail.len() == 0 {
        assert(text + tail == text);
        assert(scan(text).open + tail == scan(text).open);
    } else {
        let shorter = tail.drop_last();
        assert forall|i: int| 0 <= i < shorter.len() implies shorter[i] != '\n' by {
            assert(tail[i] == shorter[i]);
            assert(tail.contains(tail[i]));
        }
        lemma_scan_unbroken(text, shorter);
        assert((text + tail).drop_last() == text + shorter);
        assert(tail.contains(tail.last()));
        assert(scan(text).open + tail == (scan(text).open + shorter).push(tail.last()));
    }
}

/// Without carriage returns, a text is the entries of its closed lines
/// followed by its open line.
pub proof fn lemma_scan_rebuilds(text: Seq<char>)
    requires
        !text.contains('\r'),
    ensures
        entries_of(scan(text).closed) + scan(text).open == text,
        !scan(text).open.contains('\r'),
    decreases text.len(),
{
    if text.len() == 0 {
        assert(entries_of(scan(text).closed) + scan(text).open == text);
    } else {
        let shorter = text.drop_last();
        assert forall|i: int| 0 <= i < shorter.len() implies shorter[i] != '\r' by {
            assert(text[i] == shorter[i]);
            assert(text.contains(text[i]));
        }
        lemma_scan_rebuilds(shorter);
        let before = scan(shorter);
        assert(text.contains(text.last()));
        if text.last() == '\n' {
            if before.open.len() > 0 {
                assert(before.open.contains(before.open.last()));
            }
            assert(without_cr(before.open) == before.open);
            assert(scan(text).closed.drop_last() == before.closed);
            assert(entries_of(scan(text).closed) + scan(text).open == (entries_of(before.closed)
                + before.open).push('\n'));
        } else {
            assert(entries_of(scan(text).closed) + scan(text).open == (entries_of(before.closed)
                + before.open).push(text.last()));
            assert forall|i: int| 0 <= i < scan(text).open.len() implies scan(text).open[i]
                != '\r' by {
                if i < before.open.len() {
                    assert(before.open.contains(before.open[i]));
                }
            }
        }
    }
}

/// A log whose every entry was written whole, and that holds no carriage
/// return, is exactly the entries of its lines: reading loses nothing.
pub proof fn law_log_is_its_entries(log: Seq<char>)
    requires
        newline_terminated(log),
        !log.contains('\r'),
    ensures
        entries_of(lines_of(log)) == log,
{
    lemma_scan_rebuilds(log);
    assert(scan(log).open.len() == 0);
    assert(entries_of(scan(log).closed) + scan(log).open == entries_of(scan(log).closed));
}

/// No line holds a line feed.
pub proof fn law_lines_hold_no_line_feed(text: Seq<char>, i: int)
    requires
        0 <= i < lines_of(text).len(),
    ensures
        !lines_of(text)[i].contains('\n'),
{
    lemma_scan_holds_no_line_feed(text);
}

/// Neither the closed lines nor the open line of a scan hold a line feed.
pub proof fn lemma_scan_holds_no_line_feed(text: Seq<char>)
    ensures
        !scan(text).open.contains('\n'),
        forall|i: int|
            0 <= i < scan(text).closed.len() ==> !(#[trigger] scan(text).closed[i]).contains(
                '\n',
            ),
    decreases text.len(),
{
    if text.len() > 0 {
        let before = scan(text.drop_last());
        lemma_scan_holds_no_line_feed(text.drop_last());
        if text.last() == '\n' {
            let line = without_cr(before.open);
            assert forall|k: int| 0 <= k < line.len() implies line[k] != '\n' by {
                assert(before.open.contains(before.open[k]));
            }
        } else {
            let open = scan(text).open;
            assert forall|k: int| 0 <= k < open.len() implies open[k] != '\n' by {
                if k < before.open.len() {
                    assert(before.open.contains(before.open[k]));
                }
            }
        }
    }
}

/// Appending the entry of an identifier to a log adds exactly one line: the
/// identifier. The lines that were there stay as they were.
pub proof fn law_entry_adds_one_line(log: Seq<char>, id: Seq<char>)
    requires
        newline_terminated(log),
        fits_one_line(id),
    ensures
        lines_of(log + entry_of(id)) == lines_of(log).push(id),
        newline_terminated(log + entry_of(id)),
{
    lemma_scan_unbroken(log, id);
    assert((log + entry_of(id)).drop_last() == log + id);
    assert(scan(log).open + id == id) by {
        if log.len() > 0 {
        }
        assert(scan(log).open.len() == 0);
    }
}

/// Appending the entries of several identifiers adds their lines, in order.
pub proof fn law_entries_add_their_lines(log: Seq<char>, ids: Seq<Seq<char>>)
    requires
        newline_terminated(log),
        forall|i: int| 0 <= i < ids.len() ==> fits_one_line(#[trigger] ids[i]),
    ensures
        lines_of(log + entries_of(ids)) == lines_of(log) + ids,
        lines_of(log + entries_of(ids)).to_set() == lines_of(log).to_set().union(ids.to_set()),
        newline_terminated(log + entries_of(ids)),
    decreases ids.len(),
{
    if ids.len() == 0 {
        assert(log + entries_of(ids) == log);
        assert(lines_of(log) + ids == lines_of(log));
    } else {
        let shorter = ids.drop_last();
        law_entries_add_their_lines(log, shorter);
        let before = log + entries_of(shorter);
        law_entry_adds_one_line(before, ids.last());
        assert(log + entries_of(ids) == before + entry_of(ids.last()));
        assert(lines_of(log) + ids == (lines_of(log) + shorter).push(ids.last()));
    }
    vstd::seq_lib::seq_to_set_distributes_over_add(lines_of(log), ids);
}

} // verus!
