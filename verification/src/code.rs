//! Code marks: fence lines lose what follows the fence, and a line that
//! opens an inline code span loses every backtick.

use vstd::prelude::*;

use crate::text::push_range;

verus! {

/// The line starts with three backticks.
pub open spec fn is_fence_line(line: Seq<char>) -> bool {
    line.len() >= 3 && line[0] == '`' && line[1] == '`' && line[2] == '`'
}

/// The fence itself: three backticks.
pub open spec fn fence() -> Seq<char> {
    seq!['`', '`', '`']
}

/// A fence line becomes the bare fence; any other line stays as it is.
pub open spec fn normalize_fence(line: Seq<char>) -> Seq<char> {
    if is_fence_line(line) {
        fence()
    } else {
        line
    }
}

/// At `i` stands a backtick, and right after it a character that is neither
/// a backtick nor a line feed.
pub open spec fn opens_code_span(line: Seq<char>, i: int) -> bool {
    &&& 0 <= i
    &&& i + 1 < line.len()
    &&& line[i] == '`'
    &&& line[i + 1] != '`'
    &&& line[i + 1] != '\n'
}

/// Somewhere in the line a code span opens.
pub open spec fn has_code_span(line: Seq<char>) -> bool {
    exists|i: int| opens_code_span(line, i)
}

/// The line without its backticks.
pub open spec fn without_backticks(line: Seq<char>) -> Seq<char> {
    line.filter(|c: char| c != '`')
}

/// A line in which a code span opens loses all its backticks; any other line
/// stays as it is.
pub open spec fn strip_code_marks(line: Seq<char>) -> Seq<char> {
    if has_code_span(line) {
        without_backticks(line)
    } else {
        line
    }
}

/// The line as the link rules find it: after the fence rule, then the code
/// span rule.
pub open spec fn prepare(line: Seq<char>) -> Seq<char> {
    strip_code_marks(normalize_fence(line))
}

/// Whether the line starts with three backticks.
pub fn starts_with_fence(line: &Vec<char>) -> (fence: bool)
    ensures
        fence == is_fence_line(line@),
{
    line.len() >= 3 && line[0] == '`' && line[1] == '`' && line[2] == '`'
}

/// Applies the fence rule.
pub fn normalize_fence_line(line: &Vec<char>) -> (out: Vec<char>)
    ensures
        out@ == normalize_fence(line@),
{
    let mut out: Vec<char> = Vec::new();
    if starts_with_fence(line) {
        out.push('`');
        out.push('`');
        out.push('`');
    } else {
        push_range(&mut out, line, 0, line.len());
        assert(line@.subrange(0, line@.len() as int) == line@);
    }
    out
}

/// Whether a code span opens somewhere in the line.
pub fn opens_code(line: &Vec<char>) -> (opens: bool)
    ensures
        opens == has_code_span(line@),
{
    let n = line.len();
    let mut i: usize = 0;
    while i < n && i + 1 < n
        invariant
            n == line@.len(),
            forall|j: int| 0 <= j < i ==> !opens_code_span(line@, j),
        decreases n - i,
    {
        if line[i] == '`' && line[i + 1] != '`' && line[i + 1] != '\n' {
            assert(opens_code_span(line@, i as int));
            return true;
        }
        i += 1;
    }
    false
}

/// Applies the code span rule.
pub fn strip_code_marks_line(line: &Vec<char>) -> (out: Vec<char>)
    ensures
        out@ == strip_code_marks(line@),
{
    let mut out: Vec<char> = Vec::new();
    if !opens_code(line) {
        push_range(&mut out, line, 0, line.len());
        assert(line@.subrange(0, line@.len() as int) == line@);
        return out;
    }
    let mut i: usize = 0;
    proof {
        reveal(Seq::filter);
        assert(line@.take(0) == Seq::<char>::empty());
    }
    while i < line.len()
        invariant
            i <= line.len(),
            out@ == without_backticks(line@.take(i as int)),
        decreases line.len() - i,
    {
        proof {
            let keep = |c: char| c != '`';
            assert(line@.take(i + 1) == line@.take(i as int).push(line@[i as int]));
            line@.take(i as int).lemma_filter_push(line@[i as int], keep);
        }
        if line[i] != '`' {
            out.push(line[i]);
        }
        i += 1;
    }
    assert(line@.take(line.len() as int) == line@);
    out
}

/// Applies the fence rule, then the code span rule.
pub fn prepare_line(line: &Vec<char>) -> (out: Vec<char>)
    ensures
        out@ == prepare(line@),
        out@.len() <= line@.len(),
{
    proof {
        lemma_prepare_len(line@);
    }
    let normal = normalize_fence_line(line);
    strip_code_marks_line(&normal)
}

/// Neither rule makes a line longer.
pub proof fn lemma_prepare_len(line: Seq<char>)
    ensures
        prepare(line).len() <= line.len(),
{
    normalize_fence(line).lemma_filter_len(|c: char| c != '`');
}

/// A fence line comes out of both rules as the bare fence, whatever follows
/// the fence in it.
pub proof fn lemma_fence_line_prepared(line: Seq<char>)
    requires
        is_fence_line(line),
    ensures
        prepare(line) == fence(),
{
    assert(!has_code_span(fence()));
}

/// A line without any backtick comes out of both rules as it went in.
pub proof fn lemma_plain_line_prepared(line: Seq<char>)
    requires
        !is_fence_line(line),
        !has_code_span(line),
    ensures
        prepare(line) == line,
{
}

} // verus!
