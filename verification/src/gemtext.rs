//! The transcoder: from a document with inline links to lines without
//! markup, each followed by the reference lines of its footnotes.

use vstd::prelude::*;

use crate::code::{prepare, prepare_line};
use crate::footnote::{
    earns_footnote, footnotes, is_anchor, push_marker, reference_line, replacement, Footnote,
    FootnoteEntry,
};
use crate::link::{find_link, first_link, lemma_first_link, link_target, link_text, Link};
use crate::text::{
    chars_of, join, lemma_total_len_take, line_views, lines_of, push_range, string_of, total_len,
};

verus! {

/// A line after its links were rewritten, and the footnotes that its links
/// left behind.
pub struct Rewritten {
    pub text: Seq<char>,
    pub notes: Seq<Footnote>,
}

/// The counter after a link with this text and target took its turn.
pub open spec fn counter_after(text: Seq<char>, target: Seq<char>, counter: nat) -> nat {
    if earns_footnote(text, target) {
        counter + 1
    } else {
        counter
    }
}

/// The footnote that a link with this text and target leaves behind, if it
/// earns one.
pub open spec fn note_of(text: Seq<char>, target: Seq<char>, counter: nat) -> Seq<Footnote> {
    if earns_footnote(text, target) {
        seq![Footnote { number: counter, target, text }]
    } else {
        Seq::empty()
    }
}

/// Rewrites the links of `line` from `from` on, in one pass from left to
/// right. What stands before a link stays; the link gives way to its
/// replacement; a link that earns a footnote takes the next number, which
/// starts at `counter`, and leaves its footnote behind. What a link left in
/// the line is not read again.
pub open spec fn rewrite_links(line: Seq<char>, from: int, counter: nat) -> Rewritten
    recommends
        0 <= from <= line.len(),
    decreases line.len() - from,
    via rewrite_links_decreases
{
    match first_link(line, from) {
        None => Rewritten { text: line.subrange(from, line.len() as int), notes: Seq::empty() },
        Some(link) => {
            let text = link_text(line, link);
            let target = link_target(line, link);
            let rest = rewrite_links(line, link.end + 1, counter_after(text, target, counter));
            Rewritten {
                text: line.subrange(from, link.start) + replacement(text, target, counter)
                    + rest.text,
                notes: note_of(text, target, counter) + rest.notes,
            }
        },
    }
}

#[via_fn]
proof fn rewrite_links_decreases(line: Seq<char>, from: int, counter: nat) {
    if 0 <= from {
        lemma_first_link(line, from);
    } else {
        reveal(first_link);
    }
}

/// One step of the pass: where `link` is the first link from `from` on, the
/// result is what stands before the link, the link's replacement and the
/// result of the pass behind the link; the link's footnote, if it earns
/// one, comes first.
pub proof fn lemma_rewrite_links_step(line: Seq<char>, from: int, counter: nat, link: Link)
    requires
        first_link(line, from) == Some(link),
    ensures
        ({
            let text = link_text(line, link);
            let target = link_target(line, link);
            let rest = rewrite_links(line, link.end + 1, counter_after(text, target, counter));
            &&& rewrite_links(line, from, counter).text == line.subrange(from, link.start)
                + replacement(text, target, counter) + rest.text
            &&& rewrite_links(line, from, counter).notes == note_of(text, target, counter)
                + rest.notes
        }),
{
}

/// The number of links of `line` from `from` on that earn a footnote:
/// those with a text whose target leaves the document.
pub open spec fn earning_links(line: Seq<char>, from: int) -> nat
    recommends
        0 <= from <= line.len(),
    decreases line.len() - from,
    via earning_links_decreases
{
    match first_link(line, from) {
        None => 0,
        Some(link) => {
            let rest = earning_links(line, link.end + 1);
            if earns_footnote(link_text(line, link), link_target(line, link)) {
                1 + rest
            } else {
                rest
            }
        },
    }
}

#[via_fn]
proof fn earning_links_decreases(line: Seq<char>, from: int) {
    if 0 <= from {
        lemma_first_link(line, from);
    } else {
        reveal(first_link);
    }
}

/// Rewrites the links of `line`, numbering its footnotes from `counter` on.
/// Gives the rewritten line, the footnotes in the order of their links, and
/// the counter after them.
pub fn rewrite_line(line: &Vec<char>, counter: u64) -> (out: (Vec<char>, Vec<FootnoteEntry>, u64))
    requires
        counter + line@.len() / 2 <= u64::MAX,
    ensures
        out.0@ == rewrite_links(line@, 0, counter as nat).text,
        footnotes(out.1@) == rewrite_links(line@, 0, counter as nat).notes,
        out.2 == counter + out.1@.len(),
        2 * out.1@.len() <= line@.len(),
{
    let n = line.len();
    let mut text: Vec<char> = Vec::new();
    let mut notes: Vec<FootnoteEntry> = Vec::new();
    let mut next: u64 = counter;
    let mut pos: usize = 0;
    loop
        invariant_except_break
            text@ + rewrite_links(line@, pos as int, next as nat).text == rewrite_links(
                line@,
                0,
                counter as nat,
            ).text,
            footnotes(notes@) + rewrite_links(line@, pos as int, next as nat).notes
                == rewrite_links(line@, 0, counter as nat).notes,
        invariant
            pos <= n == line@.len(),
            next == counter + notes@.len(),
            2 * notes@.len() <= pos,
            counter + n / 2 <= u64::MAX,
        ensures
            text@ == rewrite_links(line@, 0, counter as nat).text,
            footnotes(notes@) == rewrite_links(line@, 0, counter as nat).notes,
        decreases n - pos,
    {
        let ghost done_text = text@;
        let ghost done_notes = footnotes(notes@);
        match find_link(line, pos) {
            None => {
                push_range(&mut text, line, pos, n);
                break ;
            },
            Some(link) => {
                proof {
                    lemma_rewrite_links_step(line@, pos as int, next as nat, link@);
                }
                let ghost number = next as nat;
                let ghost raw_text = link_text(line@, link@);
                let ghost raw_target = link_target(line@, link@);
                let ghost rest = rewrite_links(
                    line@,
                    link.end + 1,
                    counter_after(raw_text, raw_target, number),
                );
                let ghost literal = line@.subrange(pos as int, link.start as int);
                push_range(&mut text, line, pos, link.start);
                push_range(&mut text, line, link.open + 1, link.close);
                let has_text = link.open + 1 < link.close;
                let anchor = link.paren + 1 < link.end && line[link.paren + 1] == '#';
                assert(has_text == (raw_text.len() > 0));
                assert(anchor == is_anchor(raw_target));
                if has_text && !anchor {
                    push_marker(&mut text, next);
                    let entry = FootnoteEntry {
                        number: next,
                        target: link.raw_target(line),
                        text: link.raw_text(line),
                    };
                    notes.push(entry);
                    proof {
                        assert(footnotes(notes@) == done_notes.push(entry@));
                        assert(note_of(raw_text, raw_target, number) == seq![entry@]);
                        assert(footnotes(notes@) + rest.notes == done_notes + (seq![entry@]
                            + rest.notes));
                    }
                    next += 1;
                } else {
                    assert(footnotes(notes@) + rest.notes == done_notes + (Seq::<
                        Footnote,
                    >::empty() + rest.notes));
                }
                assert(text@ == done_text + literal + replacement(raw_text, raw_target, number));
                assert(text@ + rest.text == done_text + (literal + replacement(
                    raw_text,
                    raw_target,
                    number,
                ) + rest.text));
                pos = link.end + 1;
            },
        }
    }
    (text, notes, next)
}

/// What becomes of one line of the document: the fence rule and the code
/// span rule prepare it, then its links are rewritten, with footnotes
/// numbered from `counter` on.
pub open spec fn transcoded(line: Seq<char>, counter: nat) -> Rewritten {
    rewrite_links(prepare(line), 0, counter)
}

/// The reference lines of `notes`, one for each, in their order.
pub open spec fn reference_lines(notes: Seq<Footnote>) -> Seq<Seq<char>> {
    notes.map_values(|note: Footnote| reference_line(note))
}

/// The output lines that one line of the document gives: the rewritten
/// line, then the reference lines of its footnotes.
pub open spec fn block(line: Seq<char>, counter: nat) -> Seq<Seq<char>> {
    seq![transcoded(line, counter).text] + reference_lines(transcoded(line, counter).notes)
}

/// The footnotes of a whole document, line after line. The first takes the
/// number 1, and each line goes on where the one before it stopped.
pub open spec fn document_notes(lines: Seq<Seq<char>>) -> Seq<Footnote>
    decreases lines.len(),
{
    if lines.len() == 0 {
        Seq::empty()
    } else {
        let before = document_notes(lines.drop_last());
        before + transcoded(lines.last(), 1 + before.len()).notes
    }
}

/// The output lines of a whole document: the block of each line, in the
/// order of the lines.
pub open spec fn document_lines(lines: Seq<Seq<char>>) -> Seq<Seq<char>>
    decreases lines.len(),
{
    if lines.len() == 0 {
        Seq::empty()
    } else {
        document_lines(lines.drop_last()) + block(
            lines.last(),
            1 + document_notes(lines.drop_last()).len(),
        )
    }
}

/// The number of links in a whole document that earn a footnote.
pub open spec fn document_earning_links(lines: Seq<Seq<char>>) -> nat
    decreases lines.len(),
{
    if lines.len() == 0 {
        0
    } else {
        document_earning_links(lines.drop_last()) + earning_links(prepare(lines.last()), 0)
    }
}

/// What ends a line of the output: a carriage return and a line feed.
pub open spec fn line_break() -> Seq<char> {
    seq!['\r', '\n']
}

/// The document `text` as line-oriented hypertext: its lines are split at
/// the line feeds, each gives its block, and the output lines are joined by
/// line breaks.
pub open spec fn gemtext(text: Seq<char>) -> Seq<char> {
    join(document_lines(lines_of(text)), line_break())
}

/// One line after the transcoder: the rewritten line, its footnotes and the
/// counter for the line that follows.
#[derive(Debug)]
pub struct LineOutput {
    pub text: String,
    pub notes: Vec<FootnoteEntry>,
    pub counter: u64,
}

/// Prepares `line` and rewrites its links, numbering its footnotes from
/// `counter` on.
pub fn transcode_chars(line: &Vec<char>, counter: u64) -> (out: (
    Vec<char>,
    Vec<FootnoteEntry>,
    u64,
))
    requires
        counter + line@.len() / 2 <= u64::MAX,
    ensures
        out.0@ == transcoded(line@, counter as nat).text,
        footnotes(out.1@) == transcoded(line@, counter as nat).notes,
        out.2 == counter + out.1@.len(),
        2 * out.1@.len() <= line@.len(),
{
    let prepared = prepare_line(line);
    rewrite_line(&prepared, counter)
}

/// Transcodes one line of a document. `counter` is the number that the
/// line's first footnote takes; the result holds the counter for the next
/// line. The counter needs room for the footnotes that the line can hold,
/// of which there is at most one for every two characters.
pub fn transcode_line(line: &str, counter: u64) -> (out: LineOutput)
    requires
        counter + line@.len() / 2 <= u64::MAX,
    ensures
        out.text@ == transcoded(line@, counter as nat).text,
        footnotes(out.notes@) == transcoded(line@, counter as nat).notes,
        out.counter == counter + out.notes@.len(),
{
    let chars = chars_of(line);
    let (text, notes, next) = transcode_chars(&chars, counter);
    LineOutput { text: string_of(&text), notes, counter: next }
}

/// Appends the reference lines of `notes` to `lines`.
fn push_reference_lines(lines: &mut Vec<Vec<char>>, notes: &Vec<FootnoteEntry>)
    ensures
        line_views(final(lines)@) == line_views(old(lines)@) + reference_lines(footnotes(notes@)),
{
    let mut i: usize = 0;
    while i < notes.len()
        invariant
            i <= notes.len(),
            line_views(lines@) == line_views(old(lines)@) + reference_lines(
                footnotes(notes@).take(i as int),
            ),
        decreases notes.len() - i,
    {
        let ghost done = line_views(lines@);
        let line = notes[i].reference_line();
        lines.push(line);
        proof {
            let all = footnotes(notes@);
            assert(line_views(lines@) == done.push(line@));
            assert(all.take(i + 1) == all.take(i as int).push(all[i as int]));
            assert(reference_lines(all.take(i + 1)) == reference_lines(all.take(i as int)).push(
                reference_line(all[i as int]),
            ));
        }
        i += 1;
    }
    assert(footnotes(notes@).take(notes.len() as int) == footnotes(notes@));
}

/// Transcodes a document given by its lines: the output lines, in order.
pub fn transcode_lines(lines: &Vec<Vec<char>>) -> (out: Vec<Vec<char>>)
    requires
        total_len(line_views(lines@)) <= usize::MAX,
    ensures
        line_views(out@) == document_lines(line_views(lines@)),
{
    let ghost source = line_views(lines@);
    let mut out: Vec<Vec<char>> = Vec::new();
    let mut counter: u64 = 1;
    let mut i: usize = 0;
    assert(source.take(0) == Seq::<Seq<char>>::empty());
    while i < lines.len()
        invariant
            i <= lines.len(),
            source == line_views(lines@),
            total_len(source) <= usize::MAX,
            counter == 1 + document_notes(source.take(i as int)).len(),
            2 * (counter - 1) <= total_len(source.take(i as int)),
            line_views(out@) == document_lines(source.take(i as int)),
        decreases lines.len() - i,
    {
        proof {
            lemma_total_len_take(source, i as int);
            assert(source.take(i + 1).drop_last() == source.take(i as int));
            assert(source.take(i + 1).last() == lines@[i as int]@);
        }
        let ghost done = line_views(out@);
        let (text, notes, next) = transcode_chars(&lines[i], counter);
        out.push(text);
        assert(line_views(out@) == done + seq![text@]);
        push_reference_lines(&mut out, &notes);
        counter = next;
        i += 1;
    }
    assert(source.take(lines.len() as int) == source);
    out
}

} // verus!
