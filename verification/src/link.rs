//! Inline links: where a link stands in a line and what it holds.
//!
//! A link is a bracketed text followed by a parenthesised target, with
//! nothing but white space between the two: `[text](target)`. One `!` right
//! before the opening bracket marks an image and belongs to the link.

use vstd::prelude::*;

use crate::text::string_of_range;

verus! {

/// Unicode white space.
pub open spec fn is_space(c: char) -> bool {
    let v = c as u32;
    ||| 0x09 <= v <= 0x0D
    ||| v == 0x20
    ||| v == 0x85
    ||| v == 0xA0
    ||| v == 0x1680
    ||| 0x2000 <= v <= 0x200A
    ||| v == 0x2028
    ||| v == 0x2029
    ||| v == 0x202F
    ||| v == 0x205F
    ||| v == 0x3000
}

/// Whether `c` is white space.
pub fn is_space_char(c: char) -> (space: bool)
    ensures
        space == is_space(c),
{
    let v = c as u32;
    (0x09 <= v && v <= 0x0D) || v == 0x20 || v == 0x85 || v == 0xA0 || v == 0x1680 || (0x2000 <= v
        && v <= 0x200A) || v == 0x2028 || v == 0x2029 || v == 0x202F || v == 0x205F || v == 0x3000
}

/// The positions of one link in a line: of the first character that belongs
/// to it, of its two brackets and of its two parentheses.
pub struct Link {
    pub start: int,
    pub open: int,
    pub close: int,
    pub paren: int,
    pub end: int,
}

/// The brackets at `open` and `close` enclose a text: no other opening
/// bracket stands between them.
pub open spec fn is_bracket(line: Seq<char>, open: int, close: int) -> bool {
    &&& 0 <= open < close < line.len()
    &&& line[open] == '['
    &&& line[close] == ']'
    &&& forall|k: int| open < k < close ==> line[k] != '['
}

/// After the closing bracket at `close` comes, behind white space at most,
/// a target between the parentheses at `paren` and `end`: no other opening
/// parenthesis stands between them.
pub open spec fn is_tail(line: Seq<char>, close: int, paren: int, end: int) -> bool {
    &&& 0 <= close < paren < end < line.len()
    &&& forall|k: int| close < k < paren ==> is_space(#[trigger] line[k])
    &&& line[paren] == '('
    &&& line[end] == ')'
    &&& forall|k: int| paren < k < end ==> line[k] != '('
}

/// The four positions are those of a link's brackets and parentheses.
pub open spec fn is_link(line: Seq<char>, open: int, close: int, paren: int, end: int) -> bool {
    is_bracket(line, open, close) && is_tail(line, close, paren, end)
}

/// A link opens at `open`.
pub open spec fn link_opens_at(line: Seq<char>, open: int) -> bool {
    exists|close: int, paren: int, end: int| is_link(line, open, close, paren, end)
}

/// Of the links that open at `open`, this is the one that reaches furthest:
/// its text is the longest there is, and so is its target for that text.
pub open spec fn is_longest_link(
    line: Seq<char>,
    open: int,
    close: int,
    paren: int,
    end: int,
) -> bool {
    &&& is_link(line, open, close, paren, end)
    &&& forall|c: int, p: int, e: int| #[trigger]
        is_link(line, open, c, p, e) ==> c < close || (c == close && e <= end)
}

/// Where a link that opens at `open` starts when the scan has come to
/// `from`: at a `!` right before it, if there is one that is still unread.
pub open spec fn link_start(line: Seq<char>, from: int, open: int) -> int {
    if from < open && line[open - 1] == '!' {
        open - 1
    } else {
        open
    }
}

/// `link` is the first link at or after `from`: no link opens earlier, and
/// of those that open where it does it reaches furthest.
pub open spec fn is_first_link(line: Seq<char>, from: int, link: Link) -> bool {
    &&& 0 <= from <= link.open
    &&& is_longest_link(line, link.open, link.close, link.paren, link.end)
    &&& forall|o: int| from <= o < link.open ==> !link_opens_at(line, o)
    &&& link.start == link_start(line, from, link.open)
}

/// The first link of `line` at or after `from`, if there is one.
#[verifier::opaque]
pub open spec fn first_link(line: Seq<char>, from: int) -> Option<Link> {
    if exists|link: Link| is_first_link(line, from, link) {
        Some(choose|link: Link| is_first_link(line, from, link))
    } else {
        None
    }
}

/// What stands between a link's brackets.
pub open spec fn link_text(line: Seq<char>, link: Link) -> Seq<char> {
    line.subrange(link.open + 1, link.close)
}

/// What stands between a link's parentheses.
pub open spec fn link_target(line: Seq<char>, link: Link) -> Seq<char> {
    line.subrange(link.paren + 1, link.end)
}

/// At most one link is the first at or after a position.
pub proof fn lemma_first_link_unique(line: Seq<char>, from: int, a: Link, b: Link)
    requires
        is_first_link(line, from, a),
        is_first_link(line, from, b),
    ensures
        a == b,
{
    if a.open < b.open {
        assert(is_link(line, a.open, a.close, a.paren, a.end));
        assert(link_opens_at(line, a.open));
    } else if b.open < a.open {
        assert(is_link(line, b.open, b.close, b.paren, b.end));
        assert(link_opens_at(line, b.open));
    } else {
        assert(is_link(line, a.open, a.close, a.paren, a.end));
        assert(is_link(line, b.open, b.close, b.paren, b.end));
        assert(a.close == b.close);
        assert(a.end == b.end);
        if a.paren < b.paren {
            assert(is_space(line[a.paren]));
        } else if b.paren < a.paren {
            assert(is_space(line[b.paren]));
        }
    }
}

/// The link that is the first at or after a position is the one that
/// `first_link` gives.
pub proof fn lemma_first_link_is(line: Seq<char>, from: int, link: Link)
    requires
        is_first_link(line, from, link),
    ensures
        first_link(line, from) == Some(link),
{
    reveal(first_link);
    lemma_first_link_unique(line, from, link, first_link(line, from).unwrap());
}

/// What `first_link` says of a link it gives, and of a line where it gives
/// none.
pub proof fn lemma_first_link(line: Seq<char>, from: int)
    requires
        0 <= from,
    ensures
        match first_link(line, from) {
            Some(link) => {
                &&& is_first_link(line, from, link)
                &&& from <= link.start <= link.open < link.close < link.paren < link.end
                    < line.len()
            },
            None => forall|o: int| from <= o ==> !link_opens_at(line, o),
        },
{
    reveal(first_link);
    if first_link(line, from) is None {
        assert forall|o: int| from <= o implies !link_opens_at(line, o) by {
            if link_opens_at(line, o) {
                lemma_some_link_is_first(line, from, o);
            }
        }
    }
}

/// Where a link opens at or after `from`, there is a first one.
proof fn lemma_some_link_is_first(line: Seq<char>, from: int, open: int)
    requires
        0 <= from <= open,
        link_opens_at(line, open),
    ensures
        exists|link: Link| is_first_link(line, from, link),
    decreases open - from,
{
    if exists|o: int| from <= o < open && link_opens_at(line, o) {
        let o = choose|o: int| from <= o < open && link_opens_at(line, o);
        lemma_some_link_is_first(line, from, o);
    } else {
        let (close, paren, end) = choose|close: int, paren: int, end: int|
            is_link(line, open, close, paren, end);
        lemma_longest_link_exists(line, open, close, paren, end);
        let (c, p, e) = choose|c: int, p: int, e: int| is_longest_link(line, open, c, p, e);
        let link = Link { start: link_start(line, from, open), open, close: c, paren: p, end: e };
        assert(is_first_link(line, from, link));
    }
}

/// Where a link opens, one of the links that open there reaches furthest.
proof fn lemma_longest_link_exists(line: Seq<char>, open: int, close: int, paren: int, end: int)
    requires
        is_link(line, open, close, paren, end),
    ensures
        exists|c: int, p: int, e: int| is_longest_link(line, open, c, p, e),
    decreases line.len() - close, line.len() - end,
{
    if exists|c: int, p: int, e: int|
        is_link(line, open, c, p, e) && !(c < close || (c == close && e <= end)) {
        let (c, p, e) = choose|c: int, p: int, e: int|
            is_link(line, open, c, p, e) && !(c < close || (c == close && e <= end));
        lemma_longest_link_exists(line, open, c, p, e);
    } else {
        assert(is_longest_link(line, open, close, paren, end));
    }
}

/// One link found in a line, by its positions as `Link` has them. Its text
/// and its target are read from the line it was found in.
#[derive(Clone, Copy, Debug, PartialEq, Eq)]
pub struct LinkOccurrence {
    pub start: usize,
    pub open: usize,
    pub close: usize,
    pub paren: usize,
    pub end: usize,
}

impl View for LinkOccurrence {
    type V = Link;

    open spec fn view(&self) -> Link {
        Link {
            start: self.start as int,
            open: self.open as int,
            close: self.close as int,
            paren: self.paren as int,
            end: self.end as int,
        }
    }
}

impl LinkOccurrence {
    /// The positions lie in `line` in the order in which a link has them.
    pub open spec fn fits(&self, line: Seq<char>) -> bool {
        self.start <= self.open < self.close < self.paren < self.end < line.len()
    }

    /// What stands between the link's brackets in `line`.
    pub fn raw_text(&self, line: &Vec<char>) -> (text: String)
        requires
            self.fits(line@),
        ensures
            text@ == link_text(line@, self@),
    {
        string_of_range(line, self.open + 1, self.close)
    }

    /// What stands between the link's parentheses in `line`.
    pub fn raw_target(&self, line: &Vec<char>) -> (target: String)
        requires
            self.fits(line@),
        ensures
            target@ == link_target(line@, self@),
    {
        string_of_range(line, self.paren + 1, self.end)
    }
}

/// The target that follows the closing bracket at `close`, taken as long as
/// it can be, if one follows.
fn link_tail(line: &Vec<char>, close: usize) -> (tail: Option<(usize, usize)>)
    requires
        close < line@.len(),
    ensures
        match tail {
            Some((paren, end)) => {
                &&& is_tail(line@, close as int, paren as int, end as int)
                &&& forall|p: int, e: int| #[trigger]
                    is_tail(line@, close as int, p, e) ==> p == paren && e <= end
            },
            None => forall|p: int, e: int| !is_tail(line@, close as int, p, e),
        },
{
    let n = line.len();
    let mut paren: usize = close + 1;
    while paren < n && is_space_char(line[paren])
        invariant
            close < paren <= n == line@.len(),
            forall|k: int| close < k < paren ==> is_space(#[trigger] line@[k]),
        decreases n - paren,
    {
        paren += 1;
    }
    if paren >= n || line[paren] != '(' {
        assert forall|p: int, e: int| !is_tail(line@, close as int, p, e) by {
            if is_tail(line@, close as int, p, e) {
                if p < paren {
                    assert(is_space(line@[p]));
                } else if p > paren {
                    assert(is_space(line@[paren as int]));
                }
            }
        }
        return None;
    }
    let mut end: Option<usize> = None;
    let mut k: usize = paren + 1;
    while k < n && line[k] != '('
        invariant
            paren < k <= n == line@.len(),
            forall|j: int| paren < j < k ==> line@[j] != '(',
            match end {
                Some(e) => paren < e < k && line@[e as int] == ')' && forall|j: int|
                    e < j < k ==> line@[j] != ')',
                None => forall|j: int| paren < j < k ==> line@[j] != ')',
            },
        decreases n - k,
    {
        if line[k] == ')' {
            end = Some(k);
        }
        k += 1;
    }
    assert forall|p: int, e: int| #[trigger] is_tail(line@, close as int, p, e) implies p
        == paren && e < k by {
        if p < paren {
            assert(is_space(line@[p]));
        } else if p > paren {
            assert(is_space(line@[paren as int]));
        }
    }
    match end {
        Some(e) => Some((paren, e)),
        None => None,
    }
}

/// Finds the first link of `line` at or after `from`.
pub fn find_link(line: &Vec<char>, from: usize) -> (found: Option<LinkOccurrence>)
    ensures
        match found {
            Some(span) => first_link(line@, from as int) == Some(span@) && span.fits(line@)
                && from <= span.start,
            None => first_link(line@, from as int) is None,
        },
{
    let n = line.len();
    let mut open: usize = from;
    while open < n
        invariant
            from <= open,
            n == line@.len(),
            forall|o: int| from <= o < open ==> !link_opens_at(line@, o),
        decreases n - open,
    {
        if line[open] != '[' {
            open += 1;
            continue;
        }
        let mut limit: usize = open + 1;
        while limit < n && line[limit] != '['
            invariant
                open < limit <= n == line@.len(),
                forall|k: int| open < k < limit ==> line@[k] != '[',
            decreases n - limit,
        {
            limit += 1;
        }
        let mut close: usize = limit;
        while close > open + 1
            invariant
                open < close <= limit <= n == line@.len(),
                line@[open as int] == '[',
                forall|k: int| open < k < limit ==> line@[k] != '[',
                forall|c: int, p: int, e: int| #[trigger]
                    is_link(line@, open as int, c, p, e) ==> c < close,
                from <= open,
                forall|o: int| from <= o < open ==> !link_opens_at(line@, o),
            decreases close,
        {
            close -= 1;
            if line[close] == ']' {
                match link_tail(line, close) {
                    Some((paren, end)) => {
                        let start = if from < open && line[open - 1] == '!' {
                            open - 1
                        } else {
                            open
                        };
                        let span = LinkOccurrence { start, open, close, paren, end };
                        proof {
                            assert(is_link(
                                line@,
                                open as int,
                                close as int,
                                paren as int,
                                end as int,
                            ));
                            assert(is_first_link(line@, from as int, span@));
                            lemma_first_link_is(line@, from as int, span@);
                        }
                        return Some(span);
                    },
                    None => {},
                }
            }
        }
        assert(!link_opens_at(line@, open as int));
        assert forall|o: int| open < o < limit implies !link_opens_at(line@, o) by {}
        open = limit;
    }
    proof {
        reveal(first_link);
        assert forall|link: Link| !is_first_link(line@, from as int, link) by {
            if is_first_link(line@, from as int, link) {
                assert(is_link(line@, link.open, link.close, link.paren, link.end));
                assert(link_opens_at(line@, link.open));
            }
        }
    }
    None
}

} // verus!
