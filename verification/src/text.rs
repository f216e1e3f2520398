//! Text as sequences of characters: reading a string's characters, building
//! a string from them, and writing numbers in decimal.

use vstd::prelude::*;

verus! {

/// `String::push` of the standard library appends the character to the end
/// of the string and leaves the rest as it was.
pub assume_specification[ String::push ](s: &mut String, ch: char)
    ensures
        final(s)@ == old(s)@.push(ch),
;

/// The characters of `s`, in order.
pub fn chars_of(s: &str) -> (chars: Vec<char>)
    ensures
        chars@ == s@,
{
    let mut chars: Vec<char> = Vec::new();
    for c in it: s.chars()
        invariant
            it.seq() == s@,
            chars@ == it.seq().take(it.index()),
    {
        chars.push(c);
    }
    chars
}

/// The string made of `chars`, in order.
pub fn string_of(chars: &Vec<char>) -> (s: String)
    ensures
        s@ == chars@,
{
    let mut s = String::new();
    let mut i: usize = 0;
    while i < chars.len()
        invariant
            i <= chars.len(),
            s@ == chars@.take(i as int),
        decreases chars.len() - i,
    {
        s.push(chars[i]);
        i += 1;
        assert(chars@.take(i as int) == chars@.take(i - 1).push(chars@[i - 1]));
    }
    assert(chars@.take(chars.len() as int) == chars@);
    s
}

/// The string made of the characters of `src` from position `from` up to,
/// not including, position `to`.
pub fn string_of_range(src: &Vec<char>, from: usize, to: usize) -> (s: String)
    requires
        from <= to <= src@.len(),
    ensures
        s@ == src@.subrange(from as int, to as int),
{
    let mut s = String::new();
    let mut i: usize = from;
    while i < to
        invariant
            from <= i <= to <= src@.len(),
            s@ == src@.subrange(from as int, i as int),
        decreases to - i,
    {
        s.push(src[i]);
        i += 1;
    }
    s
}

/// The texts of a list of strings.
pub open spec fn string_views(strings: Seq<String>) -> Seq<Seq<char>> {
    strings.map_values(|s: String| s@)
}

/// Whether `a` and `b` are the same text.
pub fn same_text(a: &str, b: &str) -> (same: bool)
    ensures
        same == (a@ == b@),
{
    String::from_str(a) == String::from_str(b)
}

/// The decimal digit that stands for `d`, for `d` below ten.
pub open spec fn digit(d: nat) -> char {
    if d == 0 {
        '0'
    } else if d == 1 {
        '1'
    } else if d == 2 {
        '2'
    } else if d == 3 {
        '3'
    } else if d == 4 {
        '4'
    } else if d == 5 {
        '5'
    } else if d == 6 {
        '6'
    } else if d == 7 {
        '7'
    } else if d == 8 {
        '8'
    } else {
        '9'
    }
}

/// `n` written in decimal, without leading zeros.
pub open spec fn decimal(n: nat) -> Seq<char>
    decreases n,
{
    if n < 10 {
        seq![digit(n)]
    } else {
        decimal(n / 10).push(digit(n % 10))
    }
}

fn digit_char(d: u64) -> (c: char)
    requires
        d < 10,
    ensures
        c == digit(d as nat),
{
    if d == 0 {
        '0'
    } else if d == 1 {
        '1'
    } else if d == 2 {
        '2'
    } else if d == 3 {
        '3'
    } else if d == 4 {
        '4'
    } else if d == 5 {
        '5'
    } else if d == 6 {
        '6'
    } else if d == 7 {
        '7'
    } else if d == 8 {
        '8'
    } else {
        '9'
    }
}

/// Appends `n`, written in decimal, to `out`.
pub fn push_decimal(out: &mut Vec<char>, n: u64)
    ensures
        final(out)@ == old(out)@ + decimal(n as nat),
    decreases n,
{
    if n >= 10 {
        push_decimal(out, n / 10);
    }
    out.push(digit_char(n % 10));
}

/// Appends the characters of `src` from position `from` up to, not
/// including, position `to` to `out`.
pub fn push_range(out: &mut Vec<char>, src: &Vec<char>, from: usize, to: usize)
    requires
        from <= to <= src@.len(),
    ensures
        final(out)@ == old(out)@ + src@.subrange(from as int, to as int),
{
    let mut i: usize = from;
    while i < to
        invariant
            from <= i <= to <= src@.len(),
            out@ == old(out)@ + src@.subrange(from as int, i as int),
        decreases to - i,
    {
        out.push(src[i]);
        i += 1;
    }
}

/// Appends the characters of `s` to `out`.
pub fn push_str(out: &mut Vec<char>, s: &str)
    ensures
        final(out)@ == old(out)@ + s@,
{
    for c in it: s.chars()
        invariant
            it.seq() == s@,
            out@ == old(out)@ + it.seq().take(it.index()),
    {
        out.push(c);
    }
}

/// The pieces of `text` between the occurrences of `at`, of which there is
/// one more than there are occurrences.
pub open spec fn split(text: Seq<char>, at: char) -> Seq<Seq<char>>
    decreases text.len(),
{
    if text.len() == 0 {
        seq![Seq::empty()]
    } else {
        let before = split(text.drop_last(), at);
        if text.last() == at {
            before.push(Seq::empty())
        } else {
            before.drop_last().push(before.last().push(text.last()))
        }
    }
}

/// The lines of `text`: the pieces between its line feeds.
pub open spec fn lines_of(text: Seq<char>) -> Seq<Seq<char>> {
    split(text, '\n')
}

/// How often `c` occurs in `text`.
pub open spec fn occurrences(text: Seq<char>, c: char) -> nat
    decreases text.len(),
{
    if text.len() == 0 {
        0
    } else if text.last() == c {
        occurrences(text.drop_last(), c) + 1
    } else {
        occurrences(text.drop_last(), c)
    }
}

/// `c` does not occur in `text`.
pub open spec fn free_of(text: Seq<char>, c: char) -> bool {
    forall|i: int| 0 <= i < text.len() ==> text[i] != c
}

/// What occurs in a text made of two occurs in one of them.
pub proof fn lemma_occurrences_add(a: Seq<char>, b: Seq<char>, c: char)
    ensures
        occurrences(a + b, c) == occurrences(a, c) + occurrences(b, c),
    decreases b.len(),
{
    if b.len() == 0 {
        assert(a + b == a);
    } else {
        assert((a + b).drop_last() == a + b.drop_last());
        lemma_occurrences_add(a, b.drop_last(), c);
    }
}

/// A character that a text is free of occurs in it no times.
pub proof fn lemma_occurrences_free(text: Seq<char>, c: char)
    requires
        free_of(text, c),
    ensures
        occurrences(text, c) == 0,
    decreases text.len(),
{
    if text.len() > 0 {
        lemma_occurrences_free(text.drop_last(), c);
    }
}

/// A text has one piece more than it has separators, and no piece holds a
/// separator.
pub proof fn lemma_split_pieces(text: Seq<char>, at: char)
    ensures
        split(text, at).len() == occurrences(text, at) + 1,
        forall|i: int| 0 <= i < split(text, at).len() ==> free_of(#[trigger] split(text, at)[i], at),
    decreases text.len(),
{
    if text.len() > 0 {
        lemma_split_pieces(text.drop_last(), at);
    }
}

/// A character that a text is free of is in none of its pieces.
pub proof fn lemma_split_free(text: Seq<char>, at: char, c: char)
    requires
        free_of(text, c),
    ensures
        forall|i: int| 0 <= i < split(text, at).len() ==> free_of(#[trigger] split(text, at)[i], c),
    decreases text.len(),
{
    if text.len() > 0 {
        assert(free_of(text.drop_last(), c)) by {
            assert forall|i: int| 0 <= i < text.drop_last().len() implies text.drop_last()[i]
                != c by {
                assert(text.drop_last()[i] == text[i]);
            }
        }
        lemma_split_free(text.drop_last(), at, c);
        lemma_split_pieces(text.drop_last(), at);
        let before = split(text.drop_last(), at);
        let pieces = split(text, at);
        assert forall|i: int| 0 <= i < pieces.len() implies free_of(#[trigger] pieces[i], c) by {
            if i < before.len() - 1 {
                assert(pieces[i] == before[i]);
            } else if text.last() == at {
                if i < before.len() {
                    assert(pieces[i] == before[i]);
                }
            } else {
                assert(pieces[i] == before.last().push(text.last()));
            }
        }
    }
}

/// The pieces of a text, joined by the separator, are the text again.
pub proof fn lemma_split_join(text: Seq<char>, at: char)
    ensures
        join(split(text, at), seq![at]) == text,
    decreases text.len(),
{
    if text.len() > 0 {
        lemma_split_join(text.drop_last(), at);
        lemma_split_pieces(text.drop_last(), at);
        let before = split(text.drop_last(), at);
        let pieces = split(text, at);
        if text.last() == at {
            assert(pieces.drop_last() == before);
            assert(join(pieces, seq![at]) == text.drop_last() + seq![at] + Seq::<char>::empty());
        } else if before.len() == 1 {
            assert(join(pieces, seq![at]) == before[0].push(text.last()));
        } else {
            assert(pieces.drop_last() == before.drop_last());
            assert(join(pieces, seq![at]) == (join(before.drop_last(), seq![at]) + seq![at]
                + before.last()).push(text.last()));
        }
        assert(text == text.drop_last().push(text.last()));
    }
}

/// Where no part holds `c`, the joined text holds it as often as the
/// separators between the parts do.
pub proof fn lemma_join_occurrences(parts: Seq<Seq<char>>, sep: Seq<char>, c: char)
    requires
        parts.len() >= 1,
        forall|i: int| 0 <= i < parts.len() ==> free_of(#[trigger] parts[i], c),
    ensures
        occurrences(join(parts, sep), c) == (parts.len() - 1) * occurrences(sep, c),
    decreases parts.len(),
{
    if parts.len() == 1 {
        lemma_occurrences_free(parts[0], c);
    } else {
        lemma_join_occurrences(parts.drop_last(), sep, c);
        lemma_occurrences_add(join(parts.drop_last(), sep), sep, c);
        lemma_occurrences_add(join(parts.drop_last(), sep) + sep, parts.last(), c);
        lemma_occurrences_free(parts.last(), c);
        assert((parts.len() - 1) * occurrences(sep, c) == (parts.len() - 2) * occurrences(sep, c)
            + occurrences(sep, c)) by (nonlinear_arith);
    }
}

/// The number of characters in all of `lines` together.
pub open spec fn total_len(lines: Seq<Seq<char>>) -> nat
    decreases lines.len(),
{
    if lines.len() == 0 {
        0
    } else {
        total_len(lines.drop_last()) + lines.last().len()
    }
}

/// The lines of a text hold all its characters but the line feeds, of
/// which there is one between each two lines.
pub proof fn lemma_lines_total_len(text: Seq<char>)
    ensures
        lines_of(text).len() >= 1,
        total_len(lines_of(text)) + lines_of(text).len() == text.len() + 1,
{
    lemma_split_total_len(text, '\n');
}

/// The pieces of a text hold all its characters but the separators, of
/// which there is one between each two pieces.
pub proof fn lemma_split_total_len(text: Seq<char>, at: char)
    ensures
        split(text, at).len() >= 1,
        total_len(split(text, at)) + split(text, at).len() == text.len() + 1,
    decreases text.len(),
{
    let lines = split(text, at);
    if text.len() == 0 {
        assert(lines.drop_last() == Seq::<Seq<char>>::empty());
        assert(total_len(lines.drop_last()) == 0);
    } else {
        lemma_split_total_len(text.drop_last(), at);
        let before = split(text.drop_last(), at);
        if text.last() == at {
            assert(lines.drop_last() == before);
            assert(total_len(lines) == total_len(before) + lines.last().len());
        } else {
            assert(lines.drop_last() == before.drop_last());
            assert(total_len(lines) == total_len(before.drop_last()) + lines.last().len());
            assert(total_len(before) == total_len(before.drop_last()) + before.last().len());
        }
    }
}

/// The first `i` lines hold no more characters than all of them, and the
/// line after them adds its length.
pub proof fn lemma_total_len_take(lines: Seq<Seq<char>>, i: int)
    requires
        0 <= i < lines.len(),
    ensures
        total_len(lines.take(i + 1)) == total_len(lines.take(i)) + lines[i].len(),
        total_len(lines.take(i + 1)) <= total_len(lines),
    decreases lines.len() - i,
{
    assert(lines.take(i + 1).drop_last() == lines.take(i));
    if i + 1 < lines.len() {
        lemma_total_len_take(lines, i + 1);
    } else {
        assert(lines.take(i + 1) == lines);
    }
}

/// `parts` written one after the other with `sep` between each two.
pub open spec fn join(parts: Seq<Seq<char>>, sep: Seq<char>) -> Seq<char>
    decreases parts.len(),
{
    if parts.len() == 0 {
        Seq::empty()
    } else if parts.len() == 1 {
        parts[0]
    } else {
        join(parts.drop_last(), sep) + sep + parts.last()
    }
}

/// The views of a vector of lines.
pub open spec fn line_views(lines: Seq<Vec<char>>) -> Seq<Seq<char>> {
    lines.map_values(|line: Vec<char>| line@)
}

/// Splits `text` at the occurrences of `at`.
pub fn split_chars(text: &Vec<char>, at: char) -> (pieces: Vec<Vec<char>>)
    ensures
        line_views(pieces@) == split(text@, at),
{
    let mut pieces: Vec<Vec<char>> = Vec::new();
    let mut current: Vec<char> = Vec::new();
    let mut i: usize = 0;
    assert(text@.take(0) == Seq::<char>::empty());
    while i < text.len()
        invariant
            i <= text.len(),
            line_views(pieces@).push(current@) == split(text@.take(i as int), at),
        decreases text.len() - i,
    {
        let c = text[i];
        proof {
            let prefix = text@.take(i + 1);
            assert(prefix.drop_last() == text@.take(i as int));
            assert(prefix.last() == c);
            let before = line_views(pieces@).push(current@);
            assert(before.drop_last() == line_views(pieces@));
            assert(before.last() == current@);
        }
        if c == at {
            let ghost done = line_views(pieces@);
            pieces.push(current);
            current = Vec::new();
            assert(line_views(pieces@) == done.push(pieces@.last()@));
        } else {
            current.push(c);
        }
        i += 1;
    }
    assert(text@.take(text.len() as int) == text@);
    let ghost done = line_views(pieces@);
    pieces.push(current);
    assert(line_views(pieces@) == done.push(pieces@.last()@));
    pieces
}

/// Splits `text` at its line feeds.
pub fn split_lines(text: &Vec<char>) -> (lines: Vec<Vec<char>>)
    ensures
        line_views(lines@) == lines_of(text@),
{
    split_chars(text, '\n')
}

/// Joins `parts` with `sep` between each two.
pub fn join_lines(parts: &Vec<Vec<char>>, sep: &str) -> (text: Vec<char>)
    ensures
        text@ == join(line_views(parts@), sep@),
{
    let mut text: Vec<char> = Vec::new();
    let mut i: usize = 0;
    assert(line_views(parts@).take(0) == Seq::<Seq<char>>::empty());
    while i < parts.len()
        invariant
            i <= parts.len(),
            text@ == join(line_views(parts@).take(i as int), sep@),
        decreases parts.len() - i,
    {
        proof {
            let prefix = line_views(parts@).take(i + 1);
            assert(prefix.drop_last() == line_views(parts@).take(i as int));
            assert(prefix.last() == parts@[i as int]@);
            if i == 0 {
                assert(prefix[0] == parts@[0]@);
            }
        }
        if i > 0 {
            push_str(&mut text, sep);
        }
        push_range(&mut text, &parts[i], 0, parts[i].len());
        assert(parts@[i as int]@.subrange(0, parts@[i as int]@.len() as int) == parts@[i as int]@);
        i += 1;
    }
    assert(line_views(parts@).take(parts.len() as int) == line_views(parts@));
    text
}

} // verus!
