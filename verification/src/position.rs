//! Byte offsets to zero-based line and column positions.

use vstd::prelude::*;

verus! {

/// A zero-based line/column position; columns count bytes.
#[derive(PartialEq, Eq, Structural, Clone, Copy, Debug)]
pub struct Position {
    pub line: usize,
    pub character: usize,
}

/// A half-open range between two positions.
#[derive(PartialEq, Eq, Structural, Clone, Copy, Debug)]
pub struct Range {
    pub start: Position,
    pub end: Position,
}

/// Number of line feeds in `t[0..end]`.
pub open spec fn count_newlines(t: Seq<u8>, end: int) -> int
    decreases end,
{
    if end <= 0 {
        0
    } else {
        count_newlines(t, end - 1) + if t[end - 1] == 10 {
            1int
        } else {
            0int
        }
    }
}

/// Offset at which the line containing offset `end` begins.
pub open spec fn line_start(t: Seq<u8>, end: int) -> int
    decreases end,
{
    if end <= 0 {
        0
    } else if t[end - 1] == 10 {
        end
    } else {
        line_start(t, end - 1)
    }
}

/// The position of a byte offset in a text.
pub open spec fn spec_position(t: Seq<u8>, off: int) -> Position {
    Position {
        line: count_newlines(t, off) as usize,
        character: (off - line_start(t, off)) as usize,
    }
}

/// The text holds no line feed.
pub open spec fn newline_free(s: Seq<u8>) -> bool {
    forall|j: int| 0 <= j < s.len() ==> s[j] != 10
}

/// Counting newlines reads only the prefix before the cut.
pub proof fn lemma_count_newlines_congruent(a: Seq<u8>, b: Seq<u8>, k: int)
    requires
        0 <= k <= a.len(),
        k <= b.len(),
        forall|j: int| 0 <= j < k ==> a[j] == b[j],
    ensures
        count_newlines(a, k) == count_newlines(b, k),
    decreases k,
{
    if k > 0 {
        lemma_count_newlines_congruent(a, b, k - 1);
    }
}

/// Counting across a concatenation splits at the seam.
pub proof fn lemma_count_newlines_concat(x: Seq<u8>, y: Seq<u8>, k: int)
    requires
        0 <= k <= y.len(),
    ensures
        count_newlines(x + y, x.len() + k) == count_newlines(x, x.len() as int) + count_newlines(
            y,
            k,
        ),
    decreases k,
{
    if k == 0 {
        lemma_count_newlines_congruent(x + y, x, x.len() as int);
    } else {
        lemma_count_newlines_concat(x, y, k - 1);
        assert((x + y)[x.len() + k - 1] == y[k - 1]);
    }
}

/// A newline-free prefix counts no newlines.
pub proof fn lemma_count_newlines_zero(s: Seq<u8>, k: int)
    requires
        0 <= k <= s.len(),
        newline_free(s),
    ensures
        count_newlines(s, k) == 0,
    decreases k,
{
    if k > 0 {
        lemma_count_newlines_zero(s, k - 1);
    }
}

/// Counting up to an offset splits at any earlier cut.
pub proof fn lemma_count_newlines_split(s: Seq<u8>, a: int, b: int)
    requires
        0 <= a <= b <= s.len(),
    ensures
        count_newlines(s, b) == count_newlines(s, a) + count_newlines(s.skip(a), b - a),
{
    let x = s.subrange(0, a);
    let y = s.skip(a);
    assert(s =~= x + y);
    lemma_count_newlines_concat(x, y, b - a);
    lemma_count_newlines_congruent(x, s, a);
    assert(count_newlines(x + y, a + (b - a)) == count_newlines(s, b));
}

/// Newlines never outnumber the bytes before the offset, and the line start
/// never lies past the offset.
proof fn lemma_position_bounds(t: Seq<u8>, off: int)
    requires
        0 <= off,
    ensures
        0 <= count_newlines(t, off) <= off,
        0 <= line_start(t, off) <= off,
    decreases off,
{
    if off > 0 {
        lemma_position_bounds(t, off - 1);
    }
}

/// Computes the zero-based line and byte column of an offset.
pub fn offset_to_position(text: &Vec<u8>, off: usize) -> (p: Position)
    requires
        off <= text@.len(),
    ensures
        p == spec_position(text@, off as int),
{
    let ghost t = text@;
    let mut line: usize = 0;
    let mut start: usize = 0;
    let mut i: usize = 0;
    proof {
        lemma_position_bounds(t, off as int);
    }
    while i < off
        invariant
            i <= off <= t.len(),
            text@ == t,
            line as int == count_newlines(t, i as int),
            start as int == line_start(t, i as int),
            line <= i,
            start <= i,
        decreases off - i,
    {
        proof {
            lemma_position_bounds(t, i + 1);
        }
        if text[i] == 10 {
            line = line + 1;
            start = i + 1;
        }
        i = i + 1;
    }
    Position { line, character: off - start }
}

} // verus!
