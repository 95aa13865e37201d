//! Conversion of byte offsets to line/column positions, and bounding boxes of
//! locations.

use crate::ast::{spec_default_location, Position, Range};
use crate::text::utf8;
use std::ops::Range as ByteRange;
use vstd::prelude::*;

verus! {

/// The number of newline bytes among the first `n` bytes (all of them when
/// `n` goes past the end).
pub open spec fn newline_count(b: Seq<u8>, n: int) -> int
    decreases (if n > b.len() { n + 1 } else { n }),
{
    if n <= 0 {
        0
    } else if n > b.len() {
        newline_count(b, b.len() as int)
    } else {
        newline_count(b, n - 1) + if b[n - 1] == 10u8 {
            1int
        } else {
            0int
        }
    }
}

/// The offset where the line holding offset `n` starts: just after the last
/// newline among the first `n` bytes, or 0.
pub open spec fn line_start(b: Seq<u8>, n: int) -> int
    decreases (if n > b.len() { n + 1 } else { n }),
{
    if n <= 0 {
        0
    } else if n > b.len() {
        line_start(b, b.len() as int)
    } else if b[n - 1] == 10u8 {
        n
    } else {
        line_start(b, n - 1)
    }
}

/// The line and column of a byte offset in the source bytes.
pub open spec fn position_of(b: Seq<u8>, off: int) -> Position {
    Position { line: newline_count(b, off) as usize, column: (off - line_start(b, off)) as usize }
}

proof fn lemma_counts_bounded(b: Seq<u8>, n: int)
    requires
        0 <= n <= b.len(),
    ensures
        0 <= newline_count(b, n) <= n,
        0 <= line_start(b, n) <= n,
    decreases n,
{
    if n > 0 {
        lemma_counts_bounded(b, n - 1);
    }
}

/// The line and column of a byte offset.
fn offset_to_position(source: &str, off: usize) -> (r: Position)
    ensures
        r == position_of(utf8(source@), off as int),
{
    let b = source.as_bytes();
    let n = if off < b.len() {
        off
    } else {
        b.len()
    };
    let mut i: usize = 0;
    let mut line: usize = 0;
    let mut start: usize = 0;
    while i < n
        invariant
            n <= b@.len(),
            b@ == utf8(source@),
            i <= n,
            line as int == newline_count(b@, i as int),
            start as int == line_start(b@, i as int),
            start <= i,
            line <= i,
        decreases n - i,
    {
        if b[i] == 10u8 {
            line = line + 1;
            start = i + 1;
        }
        i = i + 1;
    }
    proof {
        if off as int > b@.len() {
            assert(newline_count(b@, off as int) == newline_count(b@, b@.len() as int));
            assert(line_start(b@, off as int) == line_start(b@, b@.len() as int));
        }
    }
    Position { line, column: off - start }
}

/// The location of a byte span: the span itself and the line/column
/// positions of its two ends.
pub open spec fn spec_range_of(b: Seq<u8>, span: ByteRange<usize>) -> Range {
    Range {
        span: span,
        start: position_of(b, span.start as int),
        end: position_of(b, span.end as int),
    }
}

/// The location of a byte span in the source.
pub fn byte_range_to_ast_range(range: ByteRange<usize>, source: &str) -> (r: Range)
    ensures
        r == spec_range_of(utf8(source@), range),
{
    let start = offset_to_position(source, range.start);
    let end = offset_to_position(source, range.end);
    Range { span: range, start, end }
}

/// The location of a byte span in the source (arguments in the other order).
pub fn byte_range_to_location(source: &str, range: &ByteRange<usize>) -> (r: Range)
    ensures
        r == spec_range_of(utf8(source@), *range),
{
    byte_range_to_ast_range(ByteRange { start: range.start, end: range.end }, source)
}

/// The smallest of the values, or 0 for none.
pub open spec fn min_or_zero(s: Seq<usize>) -> usize
    decreases s.len(),
{
    if s.len() == 0 {
        0
    } else if s.len() == 1 {
        s[0]
    } else if s.last() < min_or_zero(s.drop_last()) {
        s.last()
    } else {
        min_or_zero(s.drop_last())
    }
}

/// The largest of the values, or 0 for none.
pub open spec fn max_or_zero(s: Seq<usize>) -> usize
    decreases s.len(),
{
    if s.len() == 0 {
        0
    } else if s.len() == 1 {
        s[0]
    } else if s.last() > max_or_zero(s.drop_last()) {
        s.last()
    } else {
        max_or_zero(s.drop_last())
    }
}

/// The smallest of a nonempty sequence of values is one of them and is no
/// larger than any of them.
pub proof fn lemma_min_or_zero(s: Seq<usize>)
    requires
        s.len() > 0,
    ensures
        forall|i: int| 0 <= i < s.len() ==> min_or_zero(s) <= #[trigger] s[i],
        exists|i: int| 0 <= i < s.len() && min_or_zero(s) == #[trigger] s[i],
    decreases s.len(),
{
    if s.len() == 1 {
        assert(min_or_zero(s) == s[0]);
    } else {
        let d = s.drop_last();
        lemma_min_or_zero(d);
        assert forall|i: int| 0 <= i < s.len() implies min_or_zero(s) <= #[trigger] s[i] by {
            if i < d.len() {
                assert(d[i] == s[i]);
            }
        }
        if s.last() < min_or_zero(d) {
            assert(min_or_zero(s) == s[s.len() - 1]);
        } else {
            let w = choose|i: int| 0 <= i < d.len() && min_or_zero(d) == #[trigger] d[i];
            assert(min_or_zero(s) == s[w]);
        }
    }
}

/// The largest of a nonempty sequence of values is one of them and is no
/// smaller than any of them.
pub proof fn lemma_max_or_zero(s: Seq<usize>)
    requires
        s.len() > 0,
    ensures
        forall|i: int| 0 <= i < s.len() ==> #[trigger] s[i] <= max_or_zero(s),
        exists|i: int| 0 <= i < s.len() && max_or_zero(s) == #[trigger] s[i],
    decreases s.len(),
{
    if s.len() == 1 {
        assert(max_or_zero(s) == s[0]);
    } else {
        let d = s.drop_last();
        lemma_max_or_zero(d);
        assert forall|i: int| 0 <= i < s.len() implies #[trigger] s[i] <= max_or_zero(s) by {
            if i < d.len() {
                assert(d[i] == s[i]);
            }
        }
        if s.last() > max_or_zero(d) {
            assert(max_or_zero(s) == s[s.len() - 1]);
        } else {
            let w = choose|i: int| 0 <= i < d.len() && max_or_zero(d) == #[trigger] d[i];
            assert(max_or_zero(s) == s[w]);
        }
    }
}

/// The bounding box of locations: the smallest start line and start column
/// and the largest end line and end column (each taken on its own, 0 when
/// there are no locations), with an empty span.
pub open spec fn spec_bounding_location(ls: Seq<Range>) -> Range {
    Range {
        span: ByteRange { start: 0usize, end: 0usize },
        start: Position {
            line: min_or_zero(ls.map_values(|r: Range| r.start.line)),
            column: min_or_zero(ls.map_values(|r: Range| r.start.column)),
        },
        end: Position {
            line: max_or_zero(ls.map_values(|r: Range| r.end.line)),
            column: max_or_zero(ls.map_values(|r: Range| r.end.column)),
        },
    }
}

/// The bounding box of one or more locations reaches every one of them: its
/// start line and start column are no larger, and its end line and end
/// column no smaller, than those of each location, and each of the four is
/// taken from one of the locations.
pub proof fn lemma_bounding_location_covers(ls: Seq<Range>)
    requires
        ls.len() > 0,
    ensures
        forall|i: int| 0 <= i < ls.len() ==> {
            let b = spec_bounding_location(ls);
            &&& b.start.line <= (#[trigger] ls[i]).start.line
            &&& b.start.column <= ls[i].start.column
            &&& ls[i].end.line <= b.end.line
            &&& ls[i].end.column <= b.end.column
        },
        exists|i: int| 0 <= i < ls.len() && spec_bounding_location(ls).start.line == (#[trigger] ls[i]).start.line,
        exists|i: int| 0 <= i < ls.len() && spec_bounding_location(ls).start.column == (#[trigger] ls[i]).start.column,
        exists|i: int| 0 <= i < ls.len() && spec_bounding_location(ls).end.line == (#[trigger] ls[i]).end.line,
        exists|i: int| 0 <= i < ls.len() && spec_bounding_location(ls).end.column == (#[trigger] ls[i]).end.column,
{
    let a = ls.map_values(|r: Range| r.start.line);
    let b = ls.map_values(|r: Range| r.start.column);
    let c = ls.map_values(|r: Range| r.end.line);
    let d = ls.map_values(|r: Range| r.end.column);
    lemma_min_or_zero(a);
    lemma_min_or_zero(b);
    lemma_max_or_zero(c);
    lemma_max_or_zero(d);
    assert forall|i: int| 0 <= i < ls.len() implies {
        let bb = spec_bounding_location(ls);
        &&& bb.start.line <= (#[trigger] ls[i]).start.line
        &&& bb.start.column <= ls[i].start.column
        &&& ls[i].end.line <= bb.end.line
        &&& ls[i].end.column <= bb.end.column
    } by {
        assert(a[i] == ls[i].start.line);
        assert(b[i] == ls[i].start.column);
        assert(c[i] == ls[i].end.line);
        assert(d[i] == ls[i].end.column);
    }
    let wa = choose|i: int| 0 <= i < a.len() && min_or_zero(a) == #[trigger] a[i];
    assert(spec_bounding_location(ls).start.line == ls[wa].start.line);
    let wb = choose|i: int| 0 <= i < b.len() && min_or_zero(b) == #[trigger] b[i];
    assert(spec_bounding_location(ls).start.column == ls[wb].start.column);
    let wc = choose|i: int| 0 <= i < c.len() && max_or_zero(c) == #[trigger] c[i];
    assert(spec_bounding_location(ls).end.line == ls[wc].end.line);
    let wd = choose|i: int| 0 <= i < d.len() && max_or_zero(d) == #[trigger] d[i];
    assert(spec_bounding_location(ls).end.column == ls[wd].end.column);
}

/// The bounding box of the given locations.
pub fn compute_location_from_locations(locations: &[Range]) -> (r: Range)
    ensures
        r == spec_bounding_location(locations@),
        forall|i: int| 0 <= i < locations@.len() ==> {
            &&& r.start.line <= (#[trigger] locations@[i]).start.line
            &&& r.start.column <= locations@[i].start.column
            &&& locations@[i].end.line <= r.end.line
            &&& locations@[i].end.column <= r.end.column
        },
        locations@.len() > 0 ==> exists|i: int| 0 <= i < locations@.len() && r.end.column == (#[trigger] locations@[i]).end.column,
        locations@.len() > 0 ==> exists|i: int| 0 <= i < locations@.len() && r.end.line == (#[trigger] locations@[i]).end.line,
        locations@.len() > 0 ==> exists|i: int| 0 <= i < locations@.len() && r.start.column == (#[trigger] locations@[i]).start.column,
        locations@.len() > 0 ==> exists|i: int| 0 <= i < locations@.len() && r.start.line == (#[trigger] locations@[i]).start.line,
        locations@.len() == 0 ==> r.start.line == 0 && r.start.column == 0 && r.end.line == 0 && r.end.column == 0,
{
    let ghost ls = locations@;
    let mut sl: usize = 0;
    let mut sc: usize = 0;
    let mut el: usize = 0;
    let mut ec: usize = 0;
    let mut i: usize = 0;
    while i < locations.len()
        invariant
            i <= ls.len(),
            ls == locations@,
            sl == min_or_zero(ls.take(i as int).map_values(|r: Range| r.start.line)),
            sc == min_or_zero(ls.take(i as int).map_values(|r: Range| r.start.column)),
            el == max_or_zero(ls.take(i as int).map_values(|r: Range| r.end.line)),
            ec == max_or_zero(ls.take(i as int).map_values(|r: Range| r.end.column)),
        decreases ls.len() - i,
    {
        let l = &locations[i];
        proof {
            let t = ls.take(i + 1);
            assert(t.drop_last() =~= ls.take(i as int));
            assert(t.map_values(|r: Range| r.start.line).drop_last() =~= ls.take(i as int).map_values(|r: Range| r.start.line));
            assert(t.map_values(|r: Range| r.start.column).drop_last() =~= ls.take(i as int).map_values(|r: Range| r.start.column));
            assert(t.map_values(|r: Range| r.end.line).drop_last() =~= ls.take(i as int).map_values(|r: Range| r.end.line));
            assert(t.map_values(|r: Range| r.end.column).drop_last() =~= ls.take(i as int).map_values(|r: Range| r.end.column));
        }
        if i == 0 {
            sl = l.start.line;
            sc = l.start.column;
            el = l.end.line;
            ec = l.end.column;
        } else {
            if l.start.line < sl {
                sl = l.start.line;
            }
            if l.start.column < sc {
                sc = l.start.column;
            }
            if l.end.line > el {
                el = l.end.line;
            }
            if l.end.column > ec {
                ec = l.end.column;
            }
        }
        i = i + 1;
    }
    proof {
        assert(ls.take(ls.len() as int) =~= ls);
        if ls.len() > 0 {
            lemma_bounding_location_covers(ls);
        }
    }
    Range {
        span: ByteRange { start: 0, end: 0 },
        start: Position { line: sl, column: sc },
        end: Position { line: el, column: ec },
    }
}

/// The byte range from the smallest start to the largest end of the
/// ranges; `0..0` for none.
pub fn compute_byte_range_bounds(ranges: &[ByteRange<usize>]) -> (r: ByteRange<usize>)
    ensures
        r.start == min_or_zero(ranges@.map_values(|b: ByteRange<usize>| b.start)),
        r.end == max_or_zero(ranges@.map_values(|b: ByteRange<usize>| b.end)),
{
    let ghost rs = ranges@;
    let mut lo: usize = 0;
    let mut hi: usize = 0;
    let mut i: usize = 0;
    while i < ranges.len()
        invariant
            i <= rs.len(),
            rs == ranges@,
            lo == min_or_zero(rs.take(i as int).map_values(|b: ByteRange<usize>| b.start)),
            hi == max_or_zero(rs.take(i as int).map_values(|b: ByteRange<usize>| b.end)),
        decreases rs.len() - i,
    {
        proof {
            let t = rs.take(i + 1);
            assert(t.map_values(|b: ByteRange<usize>| b.start).drop_last() =~= rs.take(
                i as int,
            ).map_values(|b: ByteRange<usize>| b.start));
            assert(t.map_values(|b: ByteRange<usize>| b.end).drop_last() =~= rs.take(
                i as int,
            ).map_values(|b: ByteRange<usize>| b.end));
        }
        let b = &ranges[i];
        if i == 0 || b.start < lo {
            lo = b.start;
        }
        if i == 0 || b.end > hi {
            hi = b.end;
        }
        i = i + 1;
    }
    proof {
        assert(rs.take(rs.len() as int) =~= rs);
    }
    ByteRange { start: lo, end: hi }
}

/// The location `(0,0)..(0,0)` with an empty span, for when no source span is
/// known.
pub fn default_location() -> (r: Range)
    ensures
        r == spec_default_location(),
{
    crate::ast::default_range()
}

} // verus!
