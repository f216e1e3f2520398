//! What holds of every document that the transcoder is given.

use vstd::prelude::*;

use crate::code::{
    fence, has_code_span, is_fence_line, lemma_fence_line_prepared, lemma_plain_line_prepared,
    normalize_fence, prepare, without_backticks,
};
use crate::footnote::{earns_footnote, is_anchor, reference_line, replacement, Footnote};
use crate::gemtext::{
    block, document_earning_links, document_lines, document_notes, earning_links, gemtext,
    lemma_rewrite_links_step, line_break, reference_lines, rewrite_links, transcoded, Rewritten,
};
use crate::link::{first_link, lemma_first_link, link_target, link_text, Link};
use crate::text::{
    decimal, free_of, join, lemma_join_occurrences, lemma_split_free, lemma_split_join,
    lemma_split_pieces, lines_of, occurrences,
};

verus! {

/// A line leaves behind one footnote for each of its links that earns one,
/// whatever the counter.
pub proof fn lemma_notes_count(line: Seq<char>, from: int, counter: nat)
    requires
        0 <= from,
    ensures
        rewrite_links(line, from, counter).notes.len() == earning_links(line, from),
    decreases line.len() - from,
{
    lemma_first_link(line, from);
    match first_link(line, from) {
        None => {},
        Some(link) => {
            lemma_rewrite_links_step(line, from, counter, link);
            let text = link_text(line, link);
            let target = link_target(line, link);
            if earns_footnote(text, target) {
                lemma_notes_count(line, link.end + 1, counter + 1);
            } else {
                lemma_notes_count(line, link.end + 1, counter);
            }
        },
    }
}

/// The footnotes of a line take the numbers from the counter on, one after
/// the other, and each belongs to a link with a text whose target leaves
/// the document.
pub proof fn lemma_notes_numbered(line: Seq<char>, from: int, counter: nat)
    requires
        0 <= from,
    ensures
        forall|i: int|
            0 <= i < rewrite_links(line, from, counter).notes.len() ==> {
                let note = #[trigger] rewrite_links(line, from, counter).notes[i];
                &&& note.number == counter + i
                &&& earns_footnote(note.text, note.target)
            },
    decreases line.len() - from,
{
    lemma_first_link(line, from);
    match first_link(line, from) {
        None => {},
        Some(link) => {
            lemma_rewrite_links_step(line, from, counter, link);
            let text = link_text(line, link);
            let target = link_target(line, link);
            if earns_footnote(text, target) {
                lemma_notes_numbered(line, link.end + 1, counter + 1);
            } else {
                lemma_notes_numbered(line, link.end + 1, counter);
            }
        },
    }
}

/// A document has as many footnotes as it has links that earn one.
pub proof fn theorem_footnote_count(lines: Seq<Seq<char>>)
    ensures
        document_notes(lines).len() == document_earning_links(lines),
    decreases lines.len(),
{
    if lines.len() > 0 {
        theorem_footnote_count(lines.drop_last());
        lemma_notes_count(prepare(lines.last()), 0, 1 + document_notes(lines.drop_last()).len());
    }
}

/// A document gives a line of output for each of its lines, and one more
/// for each of its links that earns a footnote.
pub proof fn theorem_line_count(lines: Seq<Seq<char>>)
    ensures
        document_lines(lines).len() == lines.len() + document_earning_links(lines),
    decreases lines.len(),
{
    if lines.len() > 0 {
        theorem_line_count(lines.drop_last());
        lemma_notes_count(prepare(lines.last()), 0, 1 + document_notes(lines.drop_last()).len());
    }
}

/// The footnotes of a document are numbered 1, 2, 3 and so on, in the order
/// of their links: from left to right in a line, and line after line.
pub proof fn theorem_footnote_numbers(lines: Seq<Seq<char>>)
    ensures
        forall|i: int|
            0 <= i < document_notes(lines).len() ==> (#[trigger] document_notes(lines)[i]).number
                == i + 1,
    decreases lines.len(),
{
    if lines.len() > 0 {
        theorem_footnote_numbers(lines.drop_last());
        let before = document_notes(lines.drop_last());
        lemma_notes_numbered(prepare(lines.last()), 0, 1 + before.len());
    }
}

/// No footnote of a document belongs to a link into the document itself,
/// and none to a link without a text.
pub proof fn theorem_footnotes_leave_document(lines: Seq<Seq<char>>)
    ensures
        forall|i: int|
            0 <= i < document_notes(lines).len() ==> {
                let note = #[trigger] document_notes(lines)[i];
                !is_anchor(note.target) && note.text.len() > 0
            },
    decreases lines.len(),
{
    if lines.len() > 0 {
        theorem_footnotes_leave_document(lines.drop_last());
        let before = document_notes(lines.drop_last());
        lemma_notes_numbered(prepare(lines.last()), 0, 1 + before.len());
    }
}

/// A link into the document itself gives way to its text alone. It takes no
/// number and leaves no footnote: the pass goes on behind it with the
/// counter it came with.
pub proof fn theorem_anchor_link(line: Seq<char>, from: int, counter: nat, link: Link)
    requires
        first_link(line, from) == Some(link),
        is_anchor(link_target(line, link)),
    ensures
        rewrite_links(line, from, counter).text == line.subrange(from, link.start) + link_text(
            line,
            link,
        ) + rewrite_links(line, link.end + 1, counter).text,
        rewrite_links(line, from, counter).notes == rewrite_links(
            line,
            link.end + 1,
            counter,
        ).notes,
{
    lemma_rewrite_links_step(line, from, counter, link);
    let rest = rewrite_links(line, link.end + 1, counter);
    assert(Seq::<Footnote>::empty() + rest.notes == rest.notes);
}

/// A fence line gives the bare fence and nothing else, whatever follows the
/// fence in it: one line of output, no footnote, the counter untouched.
pub proof fn theorem_fence_line(line: Seq<char>, counter: nat)
    requires
        is_fence_line(line),
    ensures
        transcoded(line, counter) == (Rewritten { text: fence(), notes: Seq::empty() }),
        block(line, counter) == seq![fence()],
{
    lemma_fence_line_prepared(line);
    lemma_no_bracket_no_link(fence(), 0);
    assert(fence().subrange(0, fence().len() as int) == fence());
    assert(reference_lines(Seq::<Footnote>::empty()) == Seq::<Seq<char>>::empty());
    assert(seq![fence()] + Seq::<Seq<char>>::empty() == seq![fence()]);
}

/// A line without an opening bracket holds no link.
pub proof fn lemma_no_bracket_no_link(line: Seq<char>, from: int)
    requires
        0 <= from,
        forall|i: int| from <= i < line.len() ==> line[i] != '[',
    ensures
        first_link(line, from) is None,
{
    lemma_first_link(line, from);
}

/// The line is plain: it is no fence line, no code span opens in it, and it
/// holds no link.
pub open spec fn is_plain_line(line: Seq<char>) -> bool {
    &&& !is_fence_line(line)
    &&& !has_code_span(line)
    &&& first_link(line, 0) is None
}

/// A plain line comes out as it went in, with no footnote.
pub proof fn lemma_plain_line(line: Seq<char>, counter: nat)
    requires
        is_plain_line(line),
    ensures
        transcoded(line, counter) == (Rewritten { text: line, notes: Seq::empty() }),
        block(line, counter) == seq![line],
{
    lemma_plain_line_prepared(line);
    assert(line.subrange(0, line.len() as int) == line);
    assert(reference_lines(Seq::<Footnote>::empty()) == Seq::<Seq<char>>::empty());
    assert(seq![line] + Seq::<Seq<char>>::empty() == seq![line]);
}

/// A document of plain lines keeps its lines.
pub proof fn lemma_plain_lines(lines: Seq<Seq<char>>)
    requires
        forall|i: int| 0 <= i < lines.len() ==> is_plain_line(#[trigger] lines[i]),
    ensures
        document_lines(lines) == lines,
        document_notes(lines) == Seq::<Footnote>::empty(),
    decreases lines.len(),
{
    if lines.len() > 0 {
        lemma_plain_lines(lines.drop_last());
        lemma_plain_line(lines.last(), 1);
        assert(lines.drop_last() + seq![lines.last()] == lines);
    }
}

/// A document without fence lines, code spans and links is unchanged but
/// for its line ends: where the document has its lines joined by line
/// feeds, the output has the same lines joined by line breaks.
pub proof fn theorem_plain_document(text: Seq<char>)
    requires
        forall|i: int| 0 <= i < lines_of(text).len() ==> is_plain_line(#[trigger] lines_of(text)[i]),
    ensures
        text == join(lines_of(text), seq!['\n']),
        gemtext(text) == join(lines_of(text), line_break()),
{
    lemma_split_join(text, '\n');
    lemma_plain_lines(lines_of(text));
}

/// A document without a backtick and without an opening bracket is
/// unchanged but for its line ends.
pub proof fn theorem_document_without_marks(text: Seq<char>)
    requires
        free_of(text, '`'),
        free_of(text, '['),
    ensures
        gemtext(text) == join(lines_of(text), line_break()),
{
    lemma_split_free(text, '\n', '`');
    lemma_split_free(text, '\n', '[');
    assert forall|i: int| 0 <= i < lines_of(text).len() implies is_plain_line(
        #[trigger] lines_of(text)[i],
    ) by {
        let line = lines_of(text)[i];
        lemma_no_bracket_no_link(line, 0);
    }
    theorem_plain_document(text);
}

/// In the output every line feed ends a line break: a carriage return
/// stands right before it.
pub proof fn theorem_line_feeds_end_line_breaks(text: Seq<char>)
    ensures
        forall|i: int|
            0 <= i < gemtext(text).len() && #[trigger] gemtext(text)[i] == '\n' ==> i > 0
                && gemtext(text)[i - 1] == '\r',
{
    let lines = lines_of(text);
    lemma_split_pieces(text, '\n');
    lemma_document_lines_one_line(lines);
    lemma_join_line_breaks(document_lines(lines));
}

/// Where no part holds a line feed, each line feed of the parts joined by
/// line breaks ends a line break.
proof fn lemma_join_line_breaks(parts: Seq<Seq<char>>)
    requires
        forall|i: int| 0 <= i < parts.len() ==> free_of(#[trigger] parts[i], '\n'),
    ensures
        forall|i: int|
            0 <= i < join(parts, line_break()).len() && #[trigger] join(parts, line_break())[i]
                == '\n' ==> i > 0 && join(parts, line_break())[i - 1] == '\r',
    decreases parts.len(),
{
    if parts.len() > 1 {
        assert forall|i: int| 0 <= i < parts.drop_last().len() implies free_of(
            #[trigger] parts.drop_last()[i],
            '\n',
        ) by {
            assert(parts.drop_last()[i] == parts[i]);
        }
        lemma_join_line_breaks(parts.drop_last());
        let before = join(parts.drop_last(), line_break());
        let joined = join(parts, line_break());
        assert(joined == before + line_break() + parts.last());
        assert forall|i: int| 0 <= i < joined.len() && #[trigger] joined[i] == '\n' implies i > 0
            && joined[i - 1] == '\r' by {
            if i < before.len() {
                assert(joined[i] == before[i]);
                assert(joined[i - 1] == before[i - 1]);
            } else if i == before.len() {
                assert(joined[i] == '\r');
            } else if i == before.len() + 1 {
                assert(joined[i - 1] == '\r');
            } else {
                assert(joined[i] == parts.last()[i - before.len() - 2]);
            }
        }
    }
}

/// A number in decimal holds no line feed.
proof fn lemma_decimal_one_line(n: nat)
    ensures
        free_of(decimal(n), '\n'),
    decreases n,
{
    if n >= 10 {
        lemma_decimal_one_line(n / 10);
    }
}

/// A line without line feeds has none after the fence rule and the code
/// span rule.
proof fn lemma_prepare_one_line(line: Seq<char>)
    requires
        free_of(line, '\n'),
    ensures
        free_of(prepare(line), '\n'),
{
    lemma_without_backticks_one_line(normalize_fence(line));
}

/// Taking the backticks out of a line brings no line feed in.
proof fn lemma_without_backticks_one_line(line: Seq<char>)
    requires
        free_of(line, '\n'),
    ensures
        free_of(without_backticks(line), '\n'),
    decreases line.len(),
{
    reveal(Seq::filter);
    if line.len() > 0 {
        lemma_without_backticks_one_line(line.drop_last());
    }
}

/// Rewriting the links of a line without line feeds brings none in: not
/// into the line, and not into the reference lines of its footnotes.
proof fn lemma_rewrite_one_line(line: Seq<char>, from: int, counter: nat)
    requires
        free_of(line, '\n'),
        0 <= from <= line.len(),
    ensures
        free_of(rewrite_links(line, from, counter).text, '\n'),
        forall|i: int|
            0 <= i < rewrite_links(line, from, counter).notes.len() ==> free_of(
                reference_line(#[trigger] rewrite_links(line, from, counter).notes[i]),
                '\n',
            ),
    decreases line.len() - from,
{
    lemma_first_link(line, from);
    match first_link(line, from) {
        None => {},
        Some(link) => {
            lemma_rewrite_links_step(line, from, counter, link);
            lemma_decimal_one_line(counter);
            let text = link_text(line, link);
            let target = link_target(line, link);
            assert(free_of(replacement(text, target, counter), '\n'));
            if earns_footnote(text, target) {
                lemma_rewrite_one_line(line, link.end + 1, counter + 1);
                let note = Footnote { number: counter, target, text };
                assert(free_of(reference_line(note), '\n'));
            } else {
                lemma_rewrite_one_line(line, link.end + 1, counter);
            }
        },
    }
}

/// No output line of a document holds a line feed, where no line of the
/// document does.
proof fn lemma_document_lines_one_line(lines: Seq<Seq<char>>)
    requires
        forall|i: int| 0 <= i < lines.len() ==> free_of(#[trigger] lines[i], '\n'),
    ensures
        forall|i: int|
            0 <= i < document_lines(lines).len() ==> free_of(
                #[trigger] document_lines(lines)[i],
                '\n',
            ),
    decreases lines.len(),
{
    if lines.len() > 0 {
        assert forall|i: int| 0 <= i < lines.drop_last().len() implies free_of(
            #[trigger] lines.drop_last()[i],
            '\n',
        ) by {
            assert(lines.drop_last()[i] == lines[i]);
        }
        lemma_document_lines_one_line(lines.drop_last());
        let counter = 1 + document_notes(lines.drop_last()).len();
        lemma_prepare_one_line(lines.last());
        lemma_rewrite_one_line(prepare(lines.last()), 0, counter);
        let before = document_lines(lines.drop_last());
        let rewritten = transcoded(lines.last(), counter);
        let added = block(lines.last(), counter);
        assert forall|i: int| 0 <= i < document_lines(lines).len() implies free_of(
            #[trigger] document_lines(lines)[i],
            '\n',
        ) by {
            if i < before.len() {
                assert(document_lines(lines)[i] == before[i]);
            } else {
                let j = i - before.len();
                assert(document_lines(lines)[i] == added[j]);
                if j == 0 {
                    assert(added[0] == rewritten.text);
                } else {
                    assert(added[j] == reference_line(rewritten.notes[j - 1]));
                }
            }
        }
    }
}

/// The output for a text has as many lines as the text has lines and links
/// that earn a footnote, taken together. Counted in line feeds, each of
/// which ends one line but the last: the output holds one for each line
/// feed of the text and one for each such link.
pub proof fn theorem_output_line_count(text: Seq<char>)
    ensures
        occurrences(gemtext(text), '\n') + 1 == (occurrences(text, '\n') + 1)
            + document_earning_links(lines_of(text)),
{
    let lines = lines_of(text);
    lemma_split_pieces(text, '\n');
    theorem_line_count(lines);
    lemma_document_lines_one_line(lines);
    lemma_join_occurrences(document_lines(lines), line_break(), '\n');
    assert(occurrences(line_break(), '\n') == 1) by {
        reveal_with_fuel(occurrences, 3);
        assert(line_break().drop_last() == seq!['\r']);
        assert(seq!['\r'].drop_last() == Seq::<char>::empty());
    }
}

} // verus!
