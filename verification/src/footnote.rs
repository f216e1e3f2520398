//! Footnotes: the numbered records that stand for the links of a line, and
//! the reference lines that show them.

use vstd::prelude::*;

use crate::text::{decimal, push_decimal, push_str};

verus! {

/// One footnote as a value: its number, the link's target and the link's
/// text.
pub struct Footnote {
    pub number: nat,
    pub target: Seq<char>,
    pub text: Seq<char>,
}

/// One footnote: its number, the link's target and the link's text.
#[derive(Debug)]
pub struct FootnoteEntry {
    pub number: u64,
    pub target: String,
    pub text: String,
}

impl View for FootnoteEntry {
    type V = Footnote;

    open spec fn view(&self) -> Footnote {
        Footnote { number: self.number as nat, target: self.target@, text: self.text@ }
    }
}

/// The footnotes of a list of entries.
pub open spec fn footnotes(entries: Seq<FootnoteEntry>) -> Seq<Footnote> {
    entries.map_values(|entry: FootnoteEntry| entry@)
}

/// The target points into the same document: it starts with `#`.
pub open spec fn is_anchor(target: Seq<char>) -> bool {
    target.len() > 0 && target[0] == '#'
}

/// A link gets a footnote when it has a text and its target leaves the
/// document.
pub open spec fn earns_footnote(text: Seq<char>, target: Seq<char>) -> bool {
    text.len() > 0 && !is_anchor(target)
}

/// The number between brackets, as it follows a link's text and stands in
/// its reference line.
pub open spec fn marker(number: nat) -> Seq<char> {
    seq!['['] + decimal(number) + seq![']']
}

/// What takes a link's place in its line: its text, and behind it the
/// marker if the link gets the footnote `number`.
pub open spec fn replacement(text: Seq<char>, target: Seq<char>, number: nat) -> Seq<char> {
    if earns_footnote(text, target) {
        text + marker(number)
    } else {
        text
    }
}

/// The reference line of a footnote: the link sign, the target, the marker
/// and the text, with one space between each two.
pub open spec fn reference_line(note: Footnote) -> Seq<char> {
    seq!['=', '>', ' '] + note.target + seq![' '] + marker(note.number) + seq![' '] + note.text
}

/// Appends the marker of `number` to `out`.
pub fn push_marker(out: &mut Vec<char>, number: u64)
    ensures
        final(out)@ == old(out)@ + marker(number as nat),
{
    out.push('[');
    push_decimal(out, number);
    out.push(']');
}

impl FootnoteEntry {
    /// The reference line of this footnote.
    pub fn reference_line(&self) -> (line: Vec<char>)
        ensures
            line@ == reference_line(self@),
    {
        let mut line: Vec<char> = Vec::new();
        line.push('=');
        line.push('>');
        line.push(' ');
        push_str(&mut line, self.target.as_str());
        line.push(' ');
        push_marker(&mut line, self.number);
        line.push(' ');
        push_str(&mut line, self.text.as_str());
        line
    }
}

} // verus!
