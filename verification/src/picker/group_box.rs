//! The picker's groups: how they are arranged in rows of at most three that
//! fit the width available, the size the rows take, and which keys show as
//! chosen.

use vstd::prelude::*;

use crate::keycode::{mods_of_name, Keycode, KeycodeView, Mods};
use crate::text::str_eq;
use crate::strmap::StrMap;

verus! {

/// The most groups in one row.
pub const DEFAULT_COLS: usize = 3;

/// Space between two groups of a row.
pub const HSPACING: i32 = 64;

/// Space between two rows.
pub const VSPACING: i32 = 32;

/// Where the row-filling has got to: the rows closed so far, where the open
/// row starts and how wide it is.
pub struct RowFill {
    pub rows: Seq<(int, int)>,
    pub row_start: int,
    pub row_width: int,
}

/// Adds group `i` to the open row; where that would make four groups, or make
/// the row wider than the container, the open row is closed first and the
/// group starts the next one.
pub open spec fn fill_step(s: RowFill, i: int, width: int, container_width: int) -> RowFill {
    let row_width = s.row_width + width + if i != 0 { HSPACING as int } else { 0 };
    if i - s.row_start >= DEFAULT_COLS || row_width > container_width {
        RowFill { rows: s.rows.push((s.row_start, i)), row_start: i, row_width: width }
    } else {
        RowFill { row_width, ..s }
    }
}

/// The row-filling after the first `n` groups.
pub open spec fn fill(widths: Seq<i32>, container_width: int, n: int) -> RowFill
    decreases n,
{
    if n <= 0 {
        RowFill { rows: seq![], row_start: 0, row_width: 0 }
    } else {
        fill_step(fill(widths, container_width, n - 1), n - 1, widths[n - 1] as int, container_width)
    }
}

/// The rows of groups, each a range of group indices: the closed rows, then
/// the open row unless it is empty.
pub open spec fn rows_of(widths: Seq<i32>, container_width: int) -> Seq<(int, int)> {
    let s = fill(widths, container_width, widths.len() as int);
    if s.row_start < widths.len() {
        s.rows.push((s.row_start, widths.len() as int))
    } else {
        s.rows
    }
}

/// The sum of the widths of groups `lo` to `hi - 1`.
pub open spec fn width_sum(widths: Seq<i32>, lo: int, hi: int) -> int
    decreases hi - lo,
{
    if hi <= lo {
        0
    } else {
        width_sum(widths, lo, hi - 1) + widths[hi - 1] as int
    }
}

/// The width of a row: its groups and the spaces between them.
pub open spec fn row_width(widths: Seq<i32>, lo: int, hi: int) -> int {
    width_sum(widths, lo, hi) + (hi - lo - 1) * HSPACING
}

/// Splits groups of the given widths into rows for a container this wide.
pub fn rows_for_width(widths: &Vec<i32>, container_width: i32) -> (rows: Vec<(usize, usize)>)
    ensures
        rows@.map_values(|r: (usize, usize)| (r.0 as int, r.1 as int)) == rows_of(widths@, container_width as int),
{
    let mut rows: Vec<(usize, usize)> = Vec::new();
    let mut row_start: usize = 0;
    let mut row_width: i64 = 0;
    let mut i: usize = 0;
    while i < widths.len()
        invariant
            i <= widths@.len(),
            row_start <= i,
            rows@.map_values(|r: (usize, usize)| (r.0 as int, r.1 as int)) == fill(widths@, container_width as int, i as int).rows,
            row_start as int == fill(widths@, container_width as int, i as int).row_start,
            row_width as int == fill(widths@, container_width as int, i as int).row_width,
            i > row_start ==> row_width == width_sum(widths@, row_start as int, i as int) + (i - row_start - 1) * HSPACING,
            i == row_start ==> row_width == 0 && i == 0,
            i - row_start <= DEFAULT_COLS,
            -(i - row_start) * 0x8000_0040 <= row_width <= (i - row_start) * 0x8000_0040,
            forall|k: int| 0 <= k < rows@.len() ==> #[trigger] rows@[k].1 <= row_start,
        decreases widths@.len() - i,
    {
        let width = widths[i];
        let mut next: i64 = row_width + width as i64;
        if i != 0 {
            next = next + HSPACING as i64;
        }
        let ghost old_rows = rows@;
        if i - row_start >= DEFAULT_COLS || next > container_width as i64 {
            rows.push((row_start, i));
            assert(rows@.map_values(|r: (usize, usize)| (r.0 as int, r.1 as int)) =~= old_rows.map_values(
                |r: (usize, usize)| (r.0 as int, r.1 as int),
            ).push((row_start as int, i as int)));
            row_start = i;
            row_width = width as i64;
        } else {
            row_width = next;
        }
        i = i + 1;
        assert(width_sum(widths@, row_start as int, row_start as int) == 0);
        assert(width_sum(widths@, row_start as int, i as int) == width_sum(widths@, row_start as int, i - 1) + widths@[i - 1]);
    }
    if row_start < widths.len() {
        let ghost old_rows = rows@;
        rows.push((row_start, widths.len()));
        assert(rows@.map_values(|r: (usize, usize)| (r.0 as int, r.1 as int)) =~= old_rows.map_values(
            |r: (usize, usize)| (r.0 as int, r.1 as int),
        ).push((row_start as int, widths@.len() as int)));
    }
    rows
}

/// What holds of the rows closed after the first `n` groups and of the open row.
spec fn fill_inv(widths: Seq<i32>, c: int, n: int, s: RowFill) -> bool {
    &&& 0 <= s.row_start <= n <= widths.len()
    &&& n - s.row_start <= DEFAULT_COLS
    &&& n == s.row_start ==> n == 0 && s.row_width == 0
    &&& n > s.row_start ==> s.row_width == row_width(widths, s.row_start, n)
    &&& n - s.row_start >= 2 ==> row_width(widths, s.row_start, n) <= c
    &&& s.rows.len() == 0 ==> s.row_start == 0
    &&& s.rows.len() > 0 ==> s.rows[0].0 == 0 && s.rows.last().1 == s.row_start
    &&& forall|k: int| 0 <= k < s.rows.len() - 1 ==> #[trigger] s.rows[k].1 == s.rows[k + 1].0
    &&& forall|k: int| 0 <= k < s.rows.len() ==> 0 <= #[trigger] s.rows[k].0 <= s.rows[k].1
    &&& forall|k: int| 0 <= k < s.rows.len() ==> #[trigger] s.rows[k].1 - s.rows[k].0 <= DEFAULT_COLS
    &&& forall|k: int| 0 <= k < s.rows.len() && #[trigger] s.rows[k].1 - s.rows[k].0 >= 2 ==> row_width(widths, s.rows[k].0, s.rows[k].1) <= c
    &&& forall|k: int| 0 < k < s.rows.len() ==> #[trigger] s.rows[k].0 < s.rows[k].1
}

proof fn lemma_fill_inv(widths: Seq<i32>, c: int, n: int)
    requires
        0 <= n <= widths.len(),
    ensures
        fill_inv(widths, c, n, fill(widths, c, n)),
    decreases n,
{
    if n > 0 {
        lemma_fill_inv(widths, c, n - 1);
        let p = fill(widths, c, n - 1);
        let i = n - 1;
        assert(width_sum(widths, p.row_start, p.row_start) == 0);
        assert(width_sum(widths, i, n) == width_sum(widths, i, i) + widths[i]);
        assert(width_sum(widths, p.row_start, n) == width_sum(widths, p.row_start, i) + widths[i]);
    }
}

/// The rows split the groups in order: they start at the first group, each
/// row starts where the one before it ends, and the last ends after the last
/// group. No row holds more than three groups, every row of two or more
/// groups fits the container, and only the first row can be empty (when the
/// first group alone is wider than the container).
pub proof fn lemma_rows_split_in_order(widths: Seq<i32>, container_width: int)
    ensures
        ({
            let rows = rows_of(widths, container_width);
            &&& widths.len() > 0 ==> rows.len() > 0 && rows[0].0 == 0 && rows.last().1 == widths.len()
            &&& forall|k: int| 0 <= k < rows.len() - 1 ==> #[trigger] rows[k].1 == rows[k + 1].0
            &&& forall|k: int| 0 <= k < rows.len() ==> 0 <= #[trigger] rows[k].0 <= rows[k].1 <= widths.len()
            &&& forall|k: int| 0 <= k < rows.len() ==> #[trigger] rows[k].1 - rows[k].0 <= DEFAULT_COLS
            &&& forall|k: int|
                0 <= k < rows.len() && #[trigger] rows[k].1 - rows[k].0 >= 2 ==> row_width(widths, rows[k].0, rows[k].1)
                    <= container_width
            &&& forall|k: int| 0 < k < rows.len() ==> #[trigger] rows[k].0 < rows[k].1
        }),
{
    let n = widths.len() as int;
    lemma_fill_inv(widths, container_width, n);
    let s = fill(widths, container_width, n);
    let rows = rows_of(widths, container_width);
    if s.row_start < n {
        assert(rows == s.rows.push((s.row_start, n)));
        assert forall|k: int| 0 <= k < rows.len() - 1 implies #[trigger] rows[k].1 == rows[k + 1].0 by {
            if k < s.rows.len() - 1 {
                assert(s.rows[k].1 == s.rows[k + 1].0);
            }
        }
        assert forall|k: int| 0 <= k < rows.len() implies 0 <= #[trigger] rows[k].0 <= rows[k].1 <= widths.len() by {
            if k < s.rows.len() {
                assert(0 <= s.rows[k].0 <= s.rows[k].1);
                if k < s.rows.len() - 1 {
                    assert forall|j: int| k <= j < s.rows.len() implies s.rows[j].1 <= s.row_start by {
                        lemma_rows_end_below(s.rows, s.row_start, j);
                    }
                }
            }
        }
        assert forall|k: int| 0 < k < rows.len() implies #[trigger] rows[k].0 < rows[k].1 by {
            if k < s.rows.len() {
                assert(s.rows[k].0 < s.rows[k].1);
            }
        }
    } else {
        assert(rows == s.rows);
        assert forall|k: int| 0 <= k < rows.len() implies 0 <= #[trigger] rows[k].0 <= rows[k].1 <= widths.len() by {
            lemma_rows_end_below(s.rows, s.row_start, k);
        }
    }
}

/// In contiguous rows ending at `end`, every row ends at or before `end`.
proof fn lemma_rows_end_below(rows: Seq<(int, int)>, end: int, k: int)
    requires
        0 <= k < rows.len(),
        rows.last().1 == end,
        forall|j: int| 0 <= j < rows.len() - 1 ==> #[trigger] rows[j].1 == rows[j + 1].0,
        forall|j: int| 0 <= j < rows.len() ==> 0 <= #[trigger] rows[j].0 <= rows[j].1,
    ensures
        rows[k].1 <= end,
    decreases rows.len() - k,
{
    if k < rows.len() - 1 {
        assert(rows[k].1 == rows[k + 1].0);
        assert(rows[k + 1].0 <= rows[k + 1].1);
        lemma_rows_end_below(rows, end, k + 1);
    }
}

/// The value fits an `i32`.
pub open spec fn in_i32(v: int) -> bool {
    i32::MIN <= v <= i32::MAX
}

/// The largest value of a row, 0 for an empty row.
pub open spec fn seq_max(v: Seq<i32>) -> int
    decreases v.len(),
{
    if v.len() == 0 {
        0
    } else if v.len() == 1 {
        v[0] as int
    } else {
        let m = seq_max(v.drop_last());
        if v.last() as int > m { v.last() as int } else { m }
    }
}

/// The sum of a row's values.
pub open spec fn seq_sum(v: Seq<i32>) -> int
    decreases v.len(),
{
    if v.len() == 0 {
        0
    } else {
        seq_sum(v.drop_last()) + v.last() as int
    }
}

/// The sum, over the first `n` rows, of the tallest group of each row.
pub open spec fn tallest_sum(rows: Seq<Vec<i32>>, n: int) -> int
    decreases n,
{
    if n <= 0 {
        0
    } else {
        tallest_sum(rows, n - 1) + seq_max(rows[n - 1]@)
    }
}

/// The height of the rows: each as tall as its tallest group, with space
/// between them.
pub open spec fn rows_height(rows: Seq<Vec<i32>>) -> int {
    tallest_sum(rows, rows.len() as int) + (rows.len() - 1) * VSPACING
}

fn row_max(v: &Vec<i32>) -> (m: i32)
    ensures
        m as int == seq_max(v@),
{
    let mut m: i32 = 0;
    let mut i: usize = 0;
    while i < v.len()
        invariant
            i <= v@.len(),
            m as int == seq_max(v@.take(i as int)),
        decreases v@.len() - i,
    {
        assert(v@.take(i + 1).drop_last() =~= v@.take(i as int));
        if i == 0 || v[i] > m {
            m = v[i];
        }
        i = i + 1;
    }
    assert(v@.take(i as int) =~= v@);
    m
}


/// The width a group box asks for: that of its widest group, 0 without
/// groups.
pub fn preferred_group_width(widths: &Vec<i32>) -> (w: i32)
    ensures
        w as int == seq_max(widths@),
{
    row_max(widths)
}

/// The height of rows of groups of the given heights.
pub fn total_height_for_rows(rows: &Vec<Vec<i32>>) -> (h: i32)
    requires
        rows@.len() <= i32::MAX,
        forall|k: int| 0 <= k <= rows@.len() ==> in_i32(#[trigger] tallest_sum(rows@, k)),
        in_i32((rows@.len() - 1) * VSPACING),
        in_i32(rows_height(rows@)),
    ensures
        h as int == rows_height(rows@),
{
    let mut total: i32 = 0;
    let mut i: usize = 0;
    while i < rows.len()
        invariant
            i <= rows@.len(),
            forall|k: int| 0 <= k <= rows@.len() ==> in_i32(#[trigger] tallest_sum(rows@, k)),
            total as int == tallest_sum(rows@, i as int),
        decreases rows@.len() - i,
    {
        assert(in_i32(tallest_sum(rows@, i + 1)));
        total = total + row_max(&rows[i]);
        i = i + 1;
    }
    let n = rows.len() as i32;
    total + (n - 1) * VSPACING
}

/// The width of the widest of the rows, 0 for no rows.
pub open spec fn widest_row(rows: Seq<Vec<i32>>, n: int) -> int
    decreases n,
{
    if n <= 0 {
        0
    } else if n == 1 {
        seq_sum(rows[0]@) + (rows[0]@.len() - 1) * HSPACING
    } else {
        let w = seq_sum(rows[n - 1]@) + (rows[n - 1]@.len() - 1) * HSPACING;
        let m = widest_row(rows, n - 1);
        if w > m { w } else { m }
    }
}

fn row_sum(v: &Vec<i32>) -> (s: i32)
    requires
        forall|k: int| 0 <= k <= v@.len() ==> in_i32(#[trigger] seq_sum(v@.take(k))),
    ensures
        s as int == seq_sum(v@),
{
    let mut s: i32 = 0;
    let mut i: usize = 0;
    while i < v.len()
        invariant
            i <= v@.len(),
            forall|k: int| 0 <= k <= v@.len() ==> in_i32(#[trigger] seq_sum(v@.take(k))),
            s as int == seq_sum(v@.take(i as int)),
        decreases v@.len() - i,
    {
        assert(v@.take(i + 1).drop_last() =~= v@.take(i as int));
        assert(in_i32(seq_sum(v@.take(i + 1))));
        s = s + v[i];
        i = i + 1;
    }
    assert(v@.take(i as int) =~= v@);
    s
}

/// The width of the widest row of groups of the given widths, with space
/// between the groups of a row; 0 for no rows.
pub fn max_width_for_rows(rows: &Vec<Vec<i32>>) -> (w: i32)
    requires
        forall|r: int, k: int|
            0 <= r < rows@.len() && 0 <= k <= rows@[r]@.len() ==> in_i32(#[trigger] seq_sum(rows@[r]@.take(k))),
        forall|r: int|
            0 <= r < rows@.len() ==> rows@[r]@.len() <= i32::MAX && in_i32((rows@[r]@.len() - 1) * HSPACING)
                && in_i32(seq_sum(#[trigger] rows@[r]@) + (rows@[r]@.len() - 1) * HSPACING),
    ensures
        w as int == widest_row(rows@, rows@.len() as int),
{
    let mut best: i32 = 0;
    let mut i: usize = 0;
    while i < rows.len()
        invariant
            i <= rows@.len(),
            forall|r: int, k: int|
                0 <= r < rows@.len() && 0 <= k <= rows@[r]@.len() ==> in_i32(#[trigger] seq_sum(rows@[r]@.take(k))),
            forall|r: int|
                0 <= r < rows@.len() ==> rows@[r]@.len() <= i32::MAX && in_i32((rows@[r]@.len() - 1) * HSPACING)
                    && in_i32(seq_sum(#[trigger] rows@[r]@) + (rows@[r]@.len() - 1) * HSPACING),
            best as int == widest_row(rows@, i as int),
        decreases rows@.len() - i,
    {
        let row = &rows[i];
        assert(forall|k: int| 0 <= k <= row@.len() ==> in_i32(#[trigger] seq_sum(row@.take(k))));
        assert(in_i32(seq_sum(rows@[i as int]@) + (rows@[i as int]@.len() - 1) * HSPACING));
        let n = row.len() as i32;
        let w = row_sum(row) + (n - 1) * HSPACING;
        if i == 0 || w > best {
            best = w;
        }
        i = i + 1;
    }
    best
}


/// The heights of a row of groups given as (width, height).
pub open spec fn heights_of(row: Seq<(i32, i32)>) -> Seq<i32> {
    row.map_values(|g: (i32, i32)| g.1)
}

/// The left edge of group `j` of a row: the widths of the groups before it,
/// each followed by a space.
pub open spec fn group_left(row: Seq<(i32, i32)>, j: int) -> int
    decreases j,
{
    if j <= 0 {
        0
    } else {
        group_left(row, j - 1) + row[j - 1].0 + HSPACING
    }
}

/// The top edge of row `r`: the heights of the rows above it (each as tall as
/// its tallest group), each followed by a space.
pub open spec fn row_top(rows: Seq<Vec<(i32, i32)>>, r: int) -> int
    decreases r,
{
    if r <= 0 {
        0
    } else {
        row_top(rows, r - 1) + seq_max(heights_of(rows[r - 1]@)) + VSPACING
    }
}

/// Where each group of the first `r` rows goes, as (x, y, width, height),
/// row after row.
pub open spec fn allocations(rows: Seq<Vec<(i32, i32)>>, r: int) -> Seq<(int, int, int, int)>
    decreases r,
{
    if r <= 0 {
        Seq::empty()
    } else {
        let row = rows[r - 1]@;
        allocations(rows, r - 1) + Seq::new(
            row.len(),
            |j: int| (group_left(row, j), row_top(rows, r - 1), row[j].0 as int, row[j].1 as int),
        )
    }
}

/// The number of groups in the rows before row `r`: where the allocation of
/// row `r`'s first group stands.
pub open spec fn row_start(rows: Seq<Vec<(i32, i32)>>, r: int) -> int
    decreases r,
{
    if r <= 0 {
        0
    } else {
        row_start(rows, r - 1) + rows[r - 1]@.len()
    }
}

proof fn lemma_seq_max_bounds(v: Seq<i32>)
    requires
        v.len() > 0,
    ensures
        forall|j: int| 0 <= j < v.len() ==> v[j] as int <= seq_max(v),
        exists|j: int| 0 <= j < v.len() && v[j] as int == seq_max(v),
    decreases v.len(),
{
    if v.len() == 1 {
        assert(v[0] as int == seq_max(v));
    } else {
        let p = v.drop_last();
        lemma_seq_max_bounds(p);
        assert forall|j: int| 0 <= j < v.len() implies v[j] as int <= seq_max(v) by {
            if j < v.len() - 1 {
                assert(p[j] == v[j]);
            }
        }
        if v.last() as int > seq_max(p) {
            assert(v[v.len() - 1] as int == seq_max(v));
        } else {
            let j = choose|j: int| 0 <= j < p.len() && p[j] as int == seq_max(p);
            assert(v[j] as int == seq_max(v));
        }
    }
}

proof fn lemma_allocations_at(rows: Seq<Vec<(i32, i32)>>, n: int)
    requires
        0 <= n <= rows.len(),
    ensures
        allocations(rows, n).len() == row_start(rows, n),
        forall|r: int, j: int|
            0 <= r < n && 0 <= j < rows[r]@.len() ==> #[trigger] allocations(rows, n)[row_start(rows, r) + j] == (
                group_left(rows[r]@, j),
                row_top(rows, r),
                rows[r]@[j].0 as int,
                rows[r]@[j].1 as int,
            ),
    decreases n,
{
    if n > 0 {
        lemma_allocations_at(rows, n - 1);
        let a = allocations(rows, n);
        let p = allocations(rows, n - 1);
        let row = rows[n - 1]@;
        let q = Seq::new(
            row.len(),
            |j: int| (group_left(row, j), row_top(rows, n - 1), row[j].0 as int, row[j].1 as int),
        );
        assert(a == p + q);
        assert forall|r: int, j: int| 0 <= r < n && 0 <= j < rows[r]@.len() implies #[trigger] a[row_start(rows, r) + j]
            == (group_left(rows[r]@, j), row_top(rows, r), rows[r]@[j].0 as int, rows[r]@[j].1 as int) by {
            if r < n - 1 {
                lemma_row_start_grows(rows, r + 1, n - 1);
                lemma_row_start_grows(rows, 0, r);
                assert(row_start(rows, r + 1) == row_start(rows, r) + rows[r]@.len());
                assert(row_start(rows, r) + j < p.len());
                assert(a[row_start(rows, r) + j] == p[row_start(rows, r) + j]);
            }
        }
    }
}

proof fn lemma_row_start_grows(rows: Seq<Vec<(i32, i32)>>, a: int, b: int)
    requires
        0 <= a <= b,
    ensures
        row_start(rows, a) <= row_start(rows, b),
    decreases b - a,
{
    if a < b {
        lemma_row_start_grows(rows, a, b - 1);
    }
}

/// Each row of groups starts below every group of the row above, a space
/// lower; and below the tallest of them by exactly that space. `a` is the
/// allocation, as (x, y, width, height), of group `j` of row `r`, and `b`
/// that of group `k` of row `r + 1`; each keeps its group's size.
pub proof fn lemma_rows_below_row_above(rows: Seq<Vec<(i32, i32)>>, r: int, j: int, k: int)
    requires
        0 <= r && r + 1 < rows.len(),
        0 <= j < rows[r]@.len(),
        0 <= k < rows[r + 1]@.len(),
    ensures
        ({
            let all = allocations(rows, rows.len() as int);
            let a = all[row_start(rows, r) + j];
            let b = all[row_start(rows, r + 1) + k];
            &&& a.2 == rows[r]@[j].0 && a.3 == rows[r]@[j].1
            &&& b.2 == rows[r + 1]@[k].0 && b.3 == rows[r + 1]@[k].1
            &&& b.1 >= a.1 + a.3 + VSPACING
            &&& exists|t: int|
                0 <= t < rows[r]@.len() && b.1 == #[trigger] all[row_start(rows, r) + t].1
                    + all[row_start(rows, r) + t].3 + VSPACING
        }),
{
    let n = rows.len() as int;
    lemma_allocations_at(rows, n);
    let all = allocations(rows, n);
    let hs = heights_of(rows[r]@);
    lemma_seq_max_bounds(hs);
    assert(hs[j] == rows[r]@[j].1);
    let t = choose|t: int| 0 <= t < hs.len() && hs[t] as int == seq_max(hs);
    lemma_row_start_grows(rows, r + 2, n);
    assert(row_start(rows, r + 1) == row_start(rows, r) + rows[r]@.len());
    assert(row_start(rows, r + 2) == row_start(rows, r + 1) + rows[r + 1]@.len());
    assert(row_top(rows, r + 1) == row_top(rows, r) + seq_max(hs) + VSPACING);
    assert(all[row_start(rows, r) + t] == (
        group_left(rows[r]@, t),
        row_top(rows, r),
        rows[r]@[t].0 as int,
        rows[r]@[t].1 as int,
    ));
    assert(all[row_start(rows, r) + j] == (
        group_left(rows[r]@, j),
        row_top(rows, r),
        rows[r]@[j].0 as int,
        rows[r]@[j].1 as int,
    ));
    assert(all[row_start(rows, r + 1) + k] == (
        group_left(rows[r + 1]@, k),
        row_top(rows, r + 1),
        rows[r + 1]@[k].0 as int,
        rows[r + 1]@[k].1 as int,
    ));
    assert(hs[t] == rows[r]@[t].1);
    assert(all[row_start(rows, r + 1) + k].1 == all[row_start(rows, r) + t].1 + all[row_start(rows, r) + t].3
        + VSPACING);
}

/// Within a row, groups stand side by side at one height: each after the
/// one before and a space, the first at the left edge; the first row is at
/// the top. `a` and `b` are the allocations of groups `j` and `j + 1` of
/// row `r`.
pub proof fn lemma_groups_side_by_side(rows: Seq<Vec<(i32, i32)>>, r: int, j: int)
    requires
        0 <= r < rows.len(),
        0 <= j && j + 1 < rows[r]@.len(),
    ensures
        ({
            let all = allocations(rows, rows.len() as int);
            let a = all[row_start(rows, r) + j];
            let b = all[row_start(rows, r) + j + 1];
            &&& b.0 == a.0 + a.2 + HSPACING
            &&& b.1 == a.1
            &&& all[row_start(rows, r)].0 == 0
            &&& r == 0 ==> a.1 == 0
        }),
{
    lemma_allocations_at(rows, rows.len() as int);
    let all = allocations(rows, rows.len() as int);
    let rs = row_start(rows, r);
    assert(all[rs + j] == (group_left(rows[r]@, j), row_top(rows, r), rows[r]@[j].0 as int, rows[r]@[j].1 as int));
    assert(all[rs + (j + 1)] == (
        group_left(rows[r]@, j + 1),
        row_top(rows, r),
        rows[r]@[j + 1].0 as int,
        rows[r]@[j + 1].1 as int,
    ));
    assert(rs + (j + 1) == rs + j + 1);
    assert(all[rs + 0] == (group_left(rows[r]@, 0), row_top(rows, r), rows[r]@[0].0 as int, rows[r]@[0].1 as int));
    assert(rs + 0 == rs);
}

/// Places groups of the given (width, height), row by row: each row from the
/// left edge, each group after the one before and a space, each row below
/// the tallest group of the row above and a space.
pub fn allocate_rows(rows: &Vec<Vec<(i32, i32)>>) -> (r: Vec<(i32, i32, i32, i32)>)
    requires
        forall|k: int| 0 <= k < rows@.len() ==> (#[trigger] rows@[k])@.len() > 0,
        forall|k: int, j: int|
            0 <= k < rows@.len() && 0 <= j <= rows@[k]@.len() ==> in_i32(#[trigger] group_left(rows@[k]@, j)),
        forall|k: int| 0 <= k <= rows@.len() ==> in_i32(#[trigger] row_top(rows@, k)),
        forall|k: int, j: int|
            0 <= k < rows@.len() && 0 <= j < rows@[k]@.len() ==> in_i32(#[trigger] rows@[k]@[j].0 + HSPACING),
        forall|k: int| 0 <= k < rows@.len() ==> in_i32(seq_max(heights_of(#[trigger] rows@[k]@)) + VSPACING),
    ensures
        r@.map_values(|a: (i32, i32, i32, i32)| (a.0 as int, a.1 as int, a.2 as int, a.3 as int)) == allocations(
            rows@,
            rows@.len() as int,
        ),
{
    let mut out: Vec<(i32, i32, i32, i32)> = Vec::new();
    let mut y: i32 = 0;
    let mut i: usize = 0;
    while i < rows.len()
        invariant
            i <= rows@.len(),
            forall|k: int, j: int|
                0 <= k < rows@.len() && 0 <= j <= rows@[k]@.len() ==> in_i32(#[trigger] group_left(rows@[k]@, j)),
            forall|k: int| 0 <= k <= rows@.len() ==> in_i32(#[trigger] row_top(rows@, k)),
            forall|k: int, j: int|
                0 <= k < rows@.len() && 0 <= j < rows@[k]@.len() ==> in_i32(#[trigger] rows@[k]@[j].0 + HSPACING),
            forall|k: int| 0 <= k < rows@.len() ==> in_i32(seq_max(heights_of(#[trigger] rows@[k]@)) + VSPACING),
            y as int == row_top(rows@, i as int),
            out@.map_values(|a: (i32, i32, i32, i32)| (a.0 as int, a.1 as int, a.2 as int, a.3 as int)) == allocations(
                rows@,
                i as int,
            ),
        decreases rows@.len() - i,
    {
        let row = &rows[i];
        let ghost rv = row@;
        let ghost before = allocations(rows@, i as int);
        let mut x: i32 = 0;
        let mut tallest: i32 = 0;
        let mut j: usize = 0;
        while j < row.len()
            invariant
                rv == row@,
                i < rows@.len(),
                rv == rows@[i as int]@,
                j <= rv.len(),
                forall|jj: int| 0 <= jj <= rv.len() ==> in_i32(#[trigger] group_left(rv, jj)),
                forall|jj: int| 0 <= jj < rv.len() ==> in_i32(#[trigger] rv[jj].0 + HSPACING),
                x as int == group_left(rv, j as int),
                tallest as int == seq_max(heights_of(rv).take(j as int)),
                out@.map_values(|a: (i32, i32, i32, i32)| (a.0 as int, a.1 as int, a.2 as int, a.3 as int))
                    == before + Seq::new(
                    j as nat,
                    |jj: int| (group_left(rv, jj), y as int, rv[jj].0 as int, rv[jj].1 as int),
                ),
            decreases rv.len() - j,
        {
            let (width, height) = row[j];
            assert(rv[j as int] == (width, height));
            let ghost prev = out@;
            out.push((x, y, width, height));
            assert(out@.map_values(|a: (i32, i32, i32, i32)| (a.0 as int, a.1 as int, a.2 as int, a.3 as int)) =~= prev.map_values(
                |a: (i32, i32, i32, i32)| (a.0 as int, a.1 as int, a.2 as int, a.3 as int),
            ).push((x as int, y as int, width as int, height as int)));
            assert(Seq::new(
                (j + 1) as nat,
                |jj: int| (group_left(rv, jj), y as int, rv[jj].0 as int, rv[jj].1 as int),
            ) =~= Seq::new(
                j as nat,
                |jj: int| (group_left(rv, jj), y as int, rv[jj].0 as int, rv[jj].1 as int),
            ).push((x as int, y as int, width as int, height as int)));
            assert(out@.map_values(|a: (i32, i32, i32, i32)| (a.0 as int, a.1 as int, a.2 as int, a.3 as int)) =~= before
                + Seq::new(
                (j + 1) as nat,
                |jj: int| (group_left(rv, jj), y as int, rv[jj].0 as int, rv[jj].1 as int),
            ));
            assert(heights_of(rv).take(j + 1).drop_last() =~= heights_of(rv).take(j as int));
            if j == 0 || height > tallest {
                tallest = height;
            }
            assert(in_i32(group_left(rv, j + 1)));
            x = x + (width + HSPACING);
            j = j + 1;
        }
        assert(heights_of(rv).take(j as int) =~= heights_of(rv));
        assert(in_i32(row_top(rows@, i + 1)));
        assert(in_i32(seq_max(heights_of(rows@[i as int]@)) + VSPACING));
        y = y + (tallest + VSPACING);
        i = i + 1;
    }
    out
}


/// Whether a group is shown: where at least one of its keys is.
pub open spec fn any_shown(keys: Seq<bool>) -> bool {
    exists|k: int| 0 <= k < keys.len() && keys[k]
}

/// Which groups are shown, given which of each group's keys are.
pub fn group_visibility(keys_shown: &Vec<Vec<bool>>) -> (v: Vec<bool>)
    ensures
        v@.len() == keys_shown@.len(),
        forall|g: int| 0 <= g < v@.len() ==> #[trigger] v@[g] == any_shown(keys_shown@[g]@),
{
    let mut v: Vec<bool> = Vec::new();
    let mut g: usize = 0;
    while g < keys_shown.len()
        invariant
            g <= keys_shown@.len(),
            v@.len() == g,
            forall|h: int| 0 <= h < g ==> #[trigger] v@[h] == any_shown(keys_shown@[h]@),
        decreases keys_shown@.len() - g,
    {
        let keys = &keys_shown[g];
        let mut shown = false;
        let mut k: usize = 0;
        while k < keys.len()
            invariant
                k <= keys@.len(),
                shown == exists|j: int| 0 <= j < k && keys@[j],
            decreases keys@.len() - k,
        {
            shown = shown || keys[k];
            k = k + 1;
        }
        v.push(shown);
        g = g + 1;
    }
    v
}


/// Whether `name` is a modifier key's name that stands for modifiers of `m`
/// on the side `m` is on.
pub open spec fn names_modifier_of(m: Mods, name: Seq<char>) -> bool {
    match mods_of_name(name) {
        Some(mm) => m.spec_contains(mm) && m.right == mm.right,
        None => false,
    }
}

/// Whether a keycode marks the picker key `name` as chosen: a plain key marks
/// its own key (not `NONE` where it has modifiers) and the keys of its
/// modifiers; mod-tap and layer-tap keycodes mark nothing.
pub open spec fn keycode_marks(k: KeycodeView, name: Seq<char>) -> bool {
    match k {
        KeycodeView::Basic(m, key) => (name == key && !(key == "NONE"@ && !m.spec_is_empty())) || names_modifier_of(m, name),
        _ => false,
    }
}

/// Whether any of `keycodes` marks the key `name`.
pub open spec fn marked_by(keycodes: Seq<KeycodeView>, name: Seq<char>) -> bool {
    exists|i: int| 0 <= i < keycodes.len() && keycode_marks(#[trigger] keycodes[i], name)
}

fn marks(k: &Keycode, name: &str) -> (b: bool)
    ensures
        b == keycode_marks(k@, name@),
{
    match k {
        Keycode::Basic(m, key) => {
            let own = str_eq(name, key.as_str()) && !(str_eq(key.as_str(), "NONE") && !m.is_empty());
            let modifier = match Mods::from_mod_str(name) {
                Some(mm) => m.contains(mm) && m.right == mm.right,
                None => false,
            };
            own || modifier
        },
        _ => false,
    }
}

/// Which of the picker's keys, named `names`, to show as chosen for the
/// selected keys' keycodes.
pub fn chosen_keys(names: &Vec<String>, keycodes: &Vec<Keycode>) -> (v: Vec<bool>)
    ensures
        v@.len() == names@.len(),
        forall|j: int|
            0 <= j < v@.len() ==> #[trigger] v@[j] == marked_by(keycodes@.map_values(|k: Keycode| k@), names@[j]@),
{
    let ghost kv = keycodes@.map_values(|k: Keycode| k@);
    let mut v: Vec<bool> = Vec::new();
    let mut j: usize = 0;
    while j < names.len()
        invariant
            kv == keycodes@.map_values(|k: Keycode| k@),
            j <= names@.len(),
            v@.len() == j,
            forall|h: int| 0 <= h < j ==> #[trigger] v@[h] == marked_by(kv, names@[h]@),
        decreases names@.len() - j,
    {
        let name = names[j].as_str();
        let mut chosen = false;
        let mut i: usize = 0;
        while i < keycodes.len()
            invariant
                kv == keycodes@.map_values(|k: Keycode| k@),
                i <= keycodes@.len(),
                name@ == names@[j as int]@,
                chosen == exists|ii: int| 0 <= ii < i && keycode_marks(#[trigger] kv[ii], name@),
            decreases keycodes@.len() - i,
        {
            let m = marks(&keycodes[i], name);
            proof {
                assert(kv[i as int] == keycodes@[i as int]@);
                if m {
                    assert(keycode_marks(kv[i as int], name@));
                }
            }
            chosen = chosen || m;
            i = i + 1;
        }
        v.push(chosen);
        j = j + 1;
    }
    v
}

/// Width of a standard key in the picker, in pixels.
pub const KEY_SIZE: i32 = 48;

/// Space between two keys in the picker, in pixels.
pub const KEY_SPACE: i32 = 4;

/// A group of the picker.
pub enum PickerGroup {
    /// A named group of keys that flow into rows of `cols` keys, each key
    /// `width` thousandths of a standard key wide.
    Basic { name: String, cols: u32, width: u32, keys: Vec<String> },
    /// Rows of keys at fixed places; a key's width and height in pixels come
    /// from the first entry of `widths` and `heights` that lists it, and are
    /// otherwise those of a standard key. `label` heads the group and the
    /// message `description_id` follows it.
    VariableWidth {
        rows: Vec<Vec<String>>,
        widths: Vec<(i32, Vec<String>)>,
        heights: Vec<(i32, Vec<String>)>,
        label: Option<String>,
        description_id: Option<String>,
    },
    /// The international keys and the language keys, each with a description.
    International { int_keys: Vec<(String, String)>, lang_keys: Vec<(String, String)> },
}

/// The groups shown by one picker, and where each key name is found among
/// them: the group's position and the key's position within the group.
pub struct PickerGroupBox {
    pub groups: Vec<PickerGroup>,
    pub keys: StrMap<(usize, usize)>,
}

/// A picker group as character sequences.
pub enum PickerGroupView {
    Basic { name: Seq<char>, cols: u32, width: u32, keys: Seq<Seq<char>> },
    VariableWidth {
        rows: Seq<Seq<Seq<char>>>,
        widths: Seq<(i32, Seq<Seq<char>>)>,
        heights: Seq<(i32, Seq<Seq<char>>)>,
        label: Option<Seq<char>>,
        description_id: Option<Seq<char>>,
    },
    International { int_keys: Seq<(Seq<char>, Seq<char>)>, lang_keys: Seq<(Seq<char>, Seq<char>)> },
}

/// Strings as character sequences.
pub open spec fn strs_view(v: Seq<String>) -> Seq<Seq<char>> {
    v.map_values(|s: String| s@)
}

/// An optional string as characters.
pub open spec fn opt_view(o: Option<String>) -> Option<Seq<char>> {
    match o {
        Some(s) => Some(s@),
        None => None,
    }
}

/// A size table as character sequences.
pub open spec fn table_view(t: Seq<(i32, Vec<String>)>) -> Seq<(i32, Seq<Seq<char>>)> {
    t.map_values(|e: (i32, Vec<String>)| (e.0, strs_view(e.1@)))
}

/// Pairs of strings as character sequences.
pub open spec fn pairs_view(t: Seq<(String, String)>) -> Seq<(Seq<char>, Seq<char>)> {
    t.map_values(|e: (String, String)| (e.0@, e.1@))
}

impl View for PickerGroup {
    type V = PickerGroupView;

    open spec fn view(&self) -> PickerGroupView {
        match self {
            PickerGroup::Basic { name, cols, width, keys } => PickerGroupView::Basic {
                name: name@,
                cols: *cols,
                width: *width,
                keys: strs_view(keys@),
            },
            PickerGroup::VariableWidth { rows, widths, heights, label, description_id } => PickerGroupView::VariableWidth {
                rows: rows@.map_values(|r: Vec<String>| strs_view(r@)),
                widths: table_view(widths@),
                heights: table_view(heights@),
                label: opt_view(*label),
                description_id: opt_view(*description_id),
            },
            PickerGroup::International { int_keys, lang_keys } => PickerGroupView::International {
                int_keys: pairs_view(int_keys@),
                lang_keys: pairs_view(lang_keys@),
            },
        }
    }
}

impl PickerGroupBox {
    /// The groups as character sequences.
    pub open spec fn groups_view(self) -> Seq<PickerGroupView> {
        self.groups@.map_values(|g: PickerGroup| g@)
    }
}

fn strings(v: Vec<&str>) -> (r: Vec<String>)
    ensures
        strs_view(r@) == v@.map_values(|s: &str| s@),
{
    let mut r: Vec<String> = Vec::new();
    let mut i: usize = 0;
    while i < v.len()
        invariant
            i <= v@.len(),
            strs_view(r@) == v@.take(i as int).map_values(|s: &str| s@),
        decreases v@.len() - i,
    {
        let ghost old_r = r@;
        let x: String = v[i].to_owned();
        assert(x@ == v@[i as int]@);
        r.push(x);
        assert(strs_view(r@) =~= strs_view(old_r).push(v@[i as int]@));
        assert(v@.take(i + 1).map_values(|s: &str| s@) =~= v@.take(i as int).map_values(|s: &str| s@).push(v@[i as int]@));
        i = i + 1;
    }
    assert(v@.take(i as int) =~= v@);
    r
}

fn string_pairs(v: Vec<(&str, &str)>) -> (r: Vec<(String, String)>)
    ensures
        pairs_view(r@) == v@.map_values(|p: (&str, &str)| (p.0@, p.1@)),
{
    let mut r: Vec<(String, String)> = Vec::new();
    let mut i: usize = 0;
    while i < v.len()
        invariant
            i <= v@.len(),
            pairs_view(r@) == v@.take(i as int).map_values(|p: (&str, &str)| (p.0@, p.1@)),
        decreases v@.len() - i,
    {
        let ghost old_r = r@;
        let a: String = v[i].0.to_owned();
        let b: String = v[i].1.to_owned();
        r.push((a, b));
        assert(pairs_view(r@) =~= pairs_view(old_r).push((v@[i as int].0@, v@[i as int].1@)));
        assert(v@.take(i + 1).map_values(|p: (&str, &str)| (p.0@, p.1@)) =~= v@.take(i as int).map_values(
            |p: (&str, &str)| (p.0@, p.1@),
        ).push((v@[i as int].0@, v@[i as int].1@)));
        i = i + 1;
    }
    assert(v@.take(i as int) =~= v@);
    r
}

fn basic_group(name: &str, cols: u32, width: u32, keys: Vec<&str>) -> (g: PickerGroup)
    ensures
        g@ == (PickerGroupView::Basic { name: name@, cols, width, keys: keys@.map_values(|s: &str| s@) }),
{
    PickerGroup::Basic { name: name.to_owned(), cols, width, keys: strings(keys) }
}

/// The main keys of an ANSI keyboard, in its rows.
pub open spec fn ansi_group_view() -> PickerGroupView {
    PickerGroupView::VariableWidth {
        rows: seq![seq!["ESC"@, "F1"@, "F2"@, "F3"@, "F4"@, "F5"@, "F6"@, "F7"@, "F8"@, "F9"@, "F10"@, "F11"@, "F12"@, "DEL"@], seq!["TICK"@, "1"@, "2"@, "3"@, "4"@, "5"@, "6"@, "7"@, "8"@, "9"@, "0"@, "MINUS"@, "EQUALS"@, "BKSP"@], seq!["TAB"@, "Q"@, "W"@, "E"@, "R"@, "T"@, "Y"@, "U"@, "I"@, "O"@, "P"@, "BRACE_OPEN"@, "BRACE_CLOSE"@, "BACKSLASH"@], seq!["CAPS"@, "A"@, "S"@, "D"@, "F"@, "G"@, "H"@, "J"@, "K"@, "L"@, "SEMICOLON"@, "QUOTE"@, "ENTER"@], seq!["LEFT_SHIFT"@, "Z"@, "X"@, "C"@, "V"@, "B"@, "N"@, "M"@, "COMMA"@, "PERIOD"@, "SLASH"@, "RIGHT_SHIFT"@], seq!["LEFT_CTRL"@, "LEFT_ALT"@, "LEFT_SUPER"@, "SPACE"@, "RIGHT_SUPER"@, "RIGHT_ALT"@, "APP"@, "RIGHT_CTRL"@]],
        widths: seq![(74, seq!["DEL"@, "BKSP"@, "TAB"@, "CAPS"@, "LEFT_CTRL"@, "LEFT_ALT"@, "LEFT_SUPER"@, "RIGHT_SUPER"@, "RIGHT_CTRL"@]), (100, seq!["LEFT_SHIFT"@, "RIGHT_SHIFT"@, "ENTER"@]), (230, seq!["SPACE"@])],
        heights: seq![],
        label: None,
        description_id: Some("picker-shift-click"@),
    }
}

/// The keys of a numeric keypad, in its rows.
pub open spec fn numpad_group_view() -> PickerGroupView {
    PickerGroupView::VariableWidth {
        rows: seq![seq!["NUM_LOCK"@, "NUM_SLASH"@, "NUM_ASTERISK"@, "NUM_MINUS"@], seq!["NUM_7"@, "NUM_8"@, "NUM_9"@, "NUM_PLUS"@], seq!["NUM_4"@, "NUM_5"@, "NUM_6"@], seq!["NUM_1"@, "NUM_2"@, "NUM_3"@, "NUM_ENTER"@], seq!["NUM_0"@, "NUM_PERIOD"@]],
        widths: seq![(100, seq!["NUM_0"@])],
        heights: seq![(100, seq!["NUM_PLUS"@, "NUM_ENTER"@])],
        label: Some("Numpad"@),
        description_id: None,
    }
}

/// The group of the keys of an ANSI keyboard, row by row.
pub fn picker_ansi_group() -> (g: PickerGroup)
    ensures
        g@ == ansi_group_view(),
{
    let rows_0: Vec<String> = strings(vec!["ESC", "F1", "F2", "F3", "F4", "F5", "F6", "F7", "F8", "F9", "F10", "F11", "F12", "DEL"]);
    assert(strs_view(rows_0@) =~= seq!["ESC"@, "F1"@, "F2"@, "F3"@, "F4"@, "F5"@, "F6"@, "F7"@, "F8"@, "F9"@, "F10"@, "F11"@, "F12"@, "DEL"@]);
    let rows_1: Vec<String> = strings(vec!["TICK", "1", "2", "3", "4", "5", "6", "7", "8", "9", "0", "MINUS", "EQUALS", "BKSP"]);
    assert(strs_view(rows_1@) =~= seq!["TICK"@, "1"@, "2"@, "3"@, "4"@, "5"@, "6"@, "7"@, "8"@, "9"@, "0"@, "MINUS"@, "EQUALS"@, "BKSP"@]);
    let rows_2: Vec<String> = strings(vec!["TAB", "Q", "W", "E", "R", "T", "Y", "U", "I", "O", "P", "BRACE_OPEN", "BRACE_CLOSE", "BACKSLASH"]);
    assert(strs_view(rows_2@) =~= seq!["TAB"@, "Q"@, "W"@, "E"@, "R"@, "T"@, "Y"@, "U"@, "I"@, "O"@, "P"@, "BRACE_OPEN"@, "BRACE_CLOSE"@, "BACKSLASH"@]);
    let rows_3: Vec<String> = strings(vec!["CAPS", "A", "S", "D", "F", "G", "H", "J", "K", "L", "SEMICOLON", "QUOTE", "ENTER"]);
    assert(strs_view(rows_3@) =~= seq!["CAPS"@, "A"@, "S"@, "D"@, "F"@, "G"@, "H"@, "J"@, "K"@, "L"@, "SEMICOLON"@, "QUOTE"@, "ENTER"@]);
    let rows_4: Vec<String> = strings(vec!["LEFT_SHIFT", "Z", "X", "C", "V", "B", "N", "M", "COMMA", "PERIOD", "SLASH", "RIGHT_SHIFT"]);
    assert(strs_view(rows_4@) =~= seq!["LEFT_SHIFT"@, "Z"@, "X"@, "C"@, "V"@, "B"@, "N"@, "M"@, "COMMA"@, "PERIOD"@, "SLASH"@, "RIGHT_SHIFT"@]);
    let rows_5: Vec<String> = strings(vec!["LEFT_CTRL", "LEFT_ALT", "LEFT_SUPER", "SPACE", "RIGHT_SUPER", "RIGHT_ALT", "APP", "RIGHT_CTRL"]);
    assert(strs_view(rows_5@) =~= seq!["LEFT_CTRL"@, "LEFT_ALT"@, "LEFT_SUPER"@, "SPACE"@, "RIGHT_SUPER"@, "RIGHT_ALT"@, "APP"@, "RIGHT_CTRL"@]);
    let rows: Vec<Vec<String>> = vec![rows_0, rows_1, rows_2, rows_3, rows_4, rows_5];
    assert(rows@.map_values(|r: Vec<String>| strs_view(r@)) =~= seq![seq!["ESC"@, "F1"@, "F2"@, "F3"@, "F4"@, "F5"@, "F6"@, "F7"@, "F8"@, "F9"@, "F10"@, "F11"@, "F12"@, "DEL"@], seq!["TICK"@, "1"@, "2"@, "3"@, "4"@, "5"@, "6"@, "7"@, "8"@, "9"@, "0"@, "MINUS"@, "EQUALS"@, "BKSP"@], seq!["TAB"@, "Q"@, "W"@, "E"@, "R"@, "T"@, "Y"@, "U"@, "I"@, "O"@, "P"@, "BRACE_OPEN"@, "BRACE_CLOSE"@, "BACKSLASH"@], seq!["CAPS"@, "A"@, "S"@, "D"@, "F"@, "G"@, "H"@, "J"@, "K"@, "L"@, "SEMICOLON"@, "QUOTE"@, "ENTER"@], seq!["LEFT_SHIFT"@, "Z"@, "X"@, "C"@, "V"@, "B"@, "N"@, "M"@, "COMMA"@, "PERIOD"@, "SLASH"@, "RIGHT_SHIFT"@], seq!["LEFT_CTRL"@, "LEFT_ALT"@, "LEFT_SUPER"@, "SPACE"@, "RIGHT_SUPER"@, "RIGHT_ALT"@, "APP"@, "RIGHT_CTRL"@]]);
    let widths_0: Vec<String> = strings(vec!["DEL", "BKSP", "TAB", "CAPS", "LEFT_CTRL", "LEFT_ALT", "LEFT_SUPER", "RIGHT_SUPER", "RIGHT_CTRL"]);
    assert(strs_view(widths_0@) =~= seq!["DEL"@, "BKSP"@, "TAB"@, "CAPS"@, "LEFT_CTRL"@, "LEFT_ALT"@, "LEFT_SUPER"@, "RIGHT_SUPER"@, "RIGHT_CTRL"@]);
    let widths_1: Vec<String> = strings(vec!["LEFT_SHIFT", "RIGHT_SHIFT", "ENTER"]);
    assert(strs_view(widths_1@) =~= seq!["LEFT_SHIFT"@, "RIGHT_SHIFT"@, "ENTER"@]);
    let widths_2: Vec<String> = strings(vec!["SPACE"]);
    assert(strs_view(widths_2@) =~= seq!["SPACE"@]);
    let widths: Vec<(i32, Vec<String>)> = vec![(74, widths_0), (100, widths_1), (230, widths_2)];
    assert(table_view(widths@) =~= seq![(74, seq!["DEL"@, "BKSP"@, "TAB"@, "CAPS"@, "LEFT_CTRL"@, "LEFT_ALT"@, "LEFT_SUPER"@, "RIGHT_SUPER"@, "RIGHT_CTRL"@]), (100, seq!["LEFT_SHIFT"@, "RIGHT_SHIFT"@, "ENTER"@]), (230, seq!["SPACE"@])]);
    let heights: Vec<(i32, Vec<String>)> = Vec::new();
    assert(table_view(heights@) =~= seq![]);
    let desc = "picker-shift-click".to_owned();
    PickerGroup::VariableWidth { rows, widths, heights, label: None, description_id: Some(desc) }
}

/// The group of the numeric keypad, row by row.
pub fn picker_numpad_group() -> (g: PickerGroup)
    ensures
        g@ == numpad_group_view(),
{
    let rows_0: Vec<String> = strings(vec!["NUM_LOCK", "NUM_SLASH", "NUM_ASTERISK", "NUM_MINUS"]);
    assert(strs_view(rows_0@) =~= seq!["NUM_LOCK"@, "NUM_SLASH"@, "NUM_ASTERISK"@, "NUM_MINUS"@]);
    let rows_1: Vec<String> = strings(vec!["NUM_7", "NUM_8", "NUM_9", "NUM_PLUS"]);
    assert(strs_view(rows_1@) =~= seq!["NUM_7"@, "NUM_8"@, "NUM_9"@, "NUM_PLUS"@]);
    let rows_2: Vec<String> = strings(vec!["NUM_4", "NUM_5", "NUM_6"]);
    assert(strs_view(rows_2@) =~= seq!["NUM_4"@, "NUM_5"@, "NUM_6"@]);
    let rows_3: Vec<String> = strings(vec!["NUM_1", "NUM_2", "NUM_3", "NUM_ENTER"]);
    assert(strs_view(rows_3@) =~= seq!["NUM_1"@, "NUM_2"@, "NUM_3"@, "NUM_ENTER"@]);
    let rows_4: Vec<String> = strings(vec!["NUM_0", "NUM_PERIOD"]);
    assert(strs_view(rows_4@) =~= seq!["NUM_0"@, "NUM_PERIOD"@]);
    let rows: Vec<Vec<String>> = vec![rows_0, rows_1, rows_2, rows_3, rows_4];
    assert(rows@.map_values(|r: Vec<String>| strs_view(r@)) =~= seq![seq!["NUM_LOCK"@, "NUM_SLASH"@, "NUM_ASTERISK"@, "NUM_MINUS"@], seq!["NUM_7"@, "NUM_8"@, "NUM_9"@, "NUM_PLUS"@], seq!["NUM_4"@, "NUM_5"@, "NUM_6"@], seq!["NUM_1"@, "NUM_2"@, "NUM_3"@, "NUM_ENTER"@], seq!["NUM_0"@, "NUM_PERIOD"@]]);
    let widths_0: Vec<String> = strings(vec!["NUM_0"]);
    assert(strs_view(widths_0@) =~= seq!["NUM_0"@]);
    let widths: Vec<(i32, Vec<String>)> = vec![(100, widths_0)];
    assert(table_view(widths@) =~= seq![(100, seq!["NUM_0"@])]);
    let heights_0: Vec<String> = strings(vec!["NUM_PLUS", "NUM_ENTER"]);
    assert(strs_view(heights_0@) =~= seq!["NUM_PLUS"@, "NUM_ENTER"@]);
    let heights: Vec<(i32, Vec<String>)> = vec![(100, heights_0)];
    assert(table_view(heights@) =~= seq![(100, seq!["NUM_PLUS"@, "NUM_ENTER"@])]);
    let label = "Numpad".to_owned();
    PickerGroup::VariableWidth { rows, widths, heights, label: Some(label), description_id: None }
}

/// The international keys and the language keys.
pub open spec fn international_group_view() -> PickerGroupView {
    PickerGroupView::International { int_keys: seq![("INT1"@, "JIS \\ and _"@), ("INT2"@, "JIS Katakana/Hiragana"@), ("INT3"@, "JIS JIS ¥ and |"@), ("INT4"@, "JIS Henkan"@), ("INT5"@, "JIS Muhenkan"@), ("INT6"@, "JIS Numpad ,"@), ("INT7"@, "International 7"@), ("INT8"@, "International 8"@), ("INT9"@, "International 9"@)], lang_keys: seq![("LANG1"@, "Hangul/English"@), ("LANG2"@, "Hanja"@), ("LANG3"@, "JIS Katakana"@), ("LANG4"@, "JIS Hiragana"@), ("LANG5"@, "JIS Zenkaku/Hankaku"@), ("LANG6"@, "Language 6"@), ("LANG7"@, "Language 7"@), ("LANG8"@, "Language 8"@), ("LANG9"@, "Language 9"@)] }
}

/// The group of international and language keys.
pub fn picker_international_group() -> (g: PickerGroup)
    ensures
        g@ == international_group_view(),
{
    let int_keys_src: Vec<(&str, &str)> = vec![("INT1", "JIS \\ and _"), ("INT2", "JIS Katakana/Hiragana"), ("INT3", "JIS JIS ¥ and |"), ("INT4", "JIS Henkan"), ("INT5", "JIS Muhenkan"), ("INT6", "JIS Numpad ,"), ("INT7", "International 7"), ("INT8", "International 8"), ("INT9", "International 9")];
    assert(int_keys_src@.map_values(|p: (&str, &str)| (p.0@, p.1@)) =~= seq![("INT1"@, "JIS \\ and _"@), ("INT2"@, "JIS Katakana/Hiragana"@), ("INT3"@, "JIS JIS ¥ and |"@), ("INT4"@, "JIS Henkan"@), ("INT5"@, "JIS Muhenkan"@), ("INT6"@, "JIS Numpad ,"@), ("INT7"@, "International 7"@), ("INT8"@, "International 8"@), ("INT9"@, "International 9"@)]);
    let int_keys = string_pairs(int_keys_src);
    let lang_keys_src: Vec<(&str, &str)> = vec![("LANG1", "Hangul/English"), ("LANG2", "Hanja"), ("LANG3", "JIS Katakana"), ("LANG4", "JIS Hiragana"), ("LANG5", "JIS Zenkaku/Hankaku"), ("LANG6", "Language 6"), ("LANG7", "Language 7"), ("LANG8", "Language 8"), ("LANG9", "Language 9")];
    assert(lang_keys_src@.map_values(|p: (&str, &str)| (p.0@, p.1@)) =~= seq![("LANG1"@, "Hangul/English"@), ("LANG2"@, "Hanja"@), ("LANG3"@, "JIS Katakana"@), ("LANG4"@, "JIS Hiragana"@), ("LANG5"@, "JIS Zenkaku/Hankaku"@), ("LANG6"@, "Language 6"@), ("LANG7"@, "Language 7"@), ("LANG8"@, "Language 8"@), ("LANG9"@, "Language 9"@)]);
    let lang_keys = string_pairs(lang_keys_src);
    PickerGroup::International { int_keys, lang_keys }
}

/// The groups of the basic picker.
pub open spec fn basics_view() -> Seq<PickerGroupView> {
    seq![
        ansi_group_view(),
        PickerGroupView::Basic { name: "Other actions"@, cols: 4, width: 1500, keys: seq!["INSERT"@, "PRINT_SCREEN"@, "SCROLL_LOCK"@, "PAUSE"@, "RESET"@, "ROLL_OVER"@, "NONE"@] },
        numpad_group_view(),
        PickerGroupView::Basic { name: "Symbols"@, cols: 6, width: 1000, keys: seq!["NONUS_HASH"@, "NONUS_BSLASH"@] },
        PickerGroupView::Basic { name: "Navigation"@, cols: 4, width: 1000, keys: seq!["LEFT"@, "UP"@, "DOWN"@, "RIGHT"@, "HOME"@, "PGUP"@, "PGDN"@, "END"@] },
        PickerGroupView::Basic { name: "Media"@, cols: 3, width: 1000, keys: seq!["MUTE"@, "VOLUME_UP"@, "VOLUME_DOWN"@, "PLAY_PAUSE"@, "MEDIA_NEXT"@, "MEDIA_PREV"@] },
        PickerGroupView::Basic { name: "Controls"@, cols: 4, width: 2000, keys: seq!["FAN_TOGGLE"@, "DISPLAY_TOGGLE"@, "BRIGHTNESS_UP"@, "BRIGHTNESS_DOWN"@, "DISPLAY_MODE"@, "SUSPEND"@, "CAMERA_TOGGLE"@, "AIRPLANE_MODE"@, "TOUCHPAD"@, "SYSTEM_POWER"@] },
        PickerGroupView::Basic { name: "LED controls"@, cols: 4, width: 1000, keys: seq!["KBD_TOGGLE"@, "KBD_UP"@, "KBD_DOWN"@, "KBD_BKL"@, "KBD_COLOR"@] },
        PickerGroupView::Basic { name: "Layer keys"@, cols: 4, width: 2000, keys: seq!["LAYER_ACCESS_1"@, "FN"@, "LAYER_ACCESS_3"@, "LAYER_ACCESS_4"@, "LAYER_SWITCH_1"@, "LAYER_SWITCH_2"@, "LAYER_SWITCH_3"@, "LAYER_SWITCH_4"@] },
    ]
}

/// The groups of the extra keys picker.
pub open spec fn extras_view() -> Seq<PickerGroupView> {
    seq![
        PickerGroupView::Basic { name: "Additional Function Keys"@, cols: 6, width: 1000, keys: seq!["F13"@, "F14"@, "F15"@, "F16"@, "F17"@, "F18"@, "F19"@, "F20"@, "F21"@, "F22"@, "F23"@, "F24"@] },
        PickerGroupView::Basic { name: "Mouse Actions"@, cols: 5, width: 2000, keys: seq!["MS_UP"@, "MS_DOWN"@, "MS_LEFT"@, "MS_RIGHT"@, "MS_BTN1"@, "MS_BTN2"@, "MS_BTN3"@, "MS_BTN4"@, "MS_BTN5"@, "MS_BTN6"@, "MS_BTN7"@, "MS_BTN8"@, "MS_WH_UP"@, "MS_WH_DOWN"@, "MS_WH_LEFT"@, "MS_WH_RIGHT"@, "MS_ACCEL0"@, "MS_ACCEL1"@, "MS_ACCEL2"@] },
        international_group_view(),
    ]
}

/// The names of a group's keys, in the order the group lays them out: a
/// basic group's keys, a variable-width group's rows one after the other,
/// and the international keys followed by the language keys.
pub open spec fn group_key_names(g: PickerGroupView) -> Seq<Seq<char>> {
    match g {
        PickerGroupView::Basic { keys, .. } => keys,
        PickerGroupView::VariableWidth { rows, .. } => concat_rows(rows),
        PickerGroupView::International { int_keys, lang_keys } => firsts(int_keys) + firsts(lang_keys),
    }
}

/// Rows of key names, one after the other.
pub open spec fn concat_rows(rows: Seq<Seq<Seq<char>>>) -> Seq<Seq<char>>
    decreases rows.len(),
{
    if rows.len() == 0 {
        seq![]
    } else {
        concat_rows(rows.drop_last()) + rows.last()
    }
}

/// The first items of a list of pairs.
pub open spec fn firsts(p: Seq<(Seq<char>, Seq<char>)>) -> Seq<Seq<char>> {
    p.map_values(|e: (Seq<char>, Seq<char>)| e.0)
}

/// `m` with each of the first `n` names of group `g` stored under its
/// position `(g, i)`; a later name wins.
pub open spec fn place_names(m: Map<Seq<char>, (usize, usize)>, names: Seq<Seq<char>>, g: int, n: int) -> Map<
    Seq<char>,
    (usize, usize),
>
    decreases n,
{
    if n <= 0 {
        m
    } else {
        place_names(m, names, g, n - 1).insert(names[n - 1], (g as usize, (n - 1) as usize))
    }
}

/// Where each key name is found among the groups, as (group, key within
/// the group); where a name occurs more than once, its last key in group
/// order wins.
pub open spec fn key_positions(groups: Seq<PickerGroupView>) -> Map<Seq<char>, (usize, usize)>
    decreases groups.len(),
{
    if groups.len() == 0 {
        Map::empty()
    } else {
        let names = group_key_names(groups.last());
        place_names(key_positions(groups.drop_last()), names, groups.len() - 1, names.len() as int)
    }
}

/// The name of key `i` of group `g`.
pub open spec fn key_at(groups: Seq<PickerGroupView>, g: int, i: int) -> Seq<char> {
    group_key_names(groups[g])[i]
}

/// Group `g` has a key `i`.
pub open spec fn is_key_at(groups: Seq<PickerGroupView>, g: int, i: int) -> bool {
    0 <= g < groups.len() && 0 <= i < group_key_names(groups[g]).len()
}

/// Key `i` of group `g` is named `name`, and no key after it in group
/// order is.
pub open spec fn is_last_key(groups: Seq<PickerGroupView>, name: Seq<char>, g: int, i: int) -> bool {
    &&& is_key_at(groups, g, i)
    &&& key_at(groups, g, i) == name
    &&& forall|g2: int, i2: int|
        is_key_at(groups, g2, i2) && (g < g2 || (g == g2 && i < i2)) ==> #[trigger] key_at(groups, g2, i2) != name
}

/// The positions fit in `usize`: there are no more groups, and no group has
/// more keys, than `usize` counts.
pub open spec fn positions_fit(groups: Seq<PickerGroupView>) -> bool {
    &&& groups.len() <= usize::MAX
    &&& forall|g: int| 0 <= g < groups.len() ==> #[trigger] group_key_names(groups[g]).len() <= usize::MAX
}

proof fn lemma_place_names(m: Map<Seq<char>, (usize, usize)>, names: Seq<Seq<char>>, g: int, k: int)
    requires
        0 <= k <= names.len(),
        names.len() <= usize::MAX,
        0 <= g <= usize::MAX,
    ensures
        forall|n: Seq<char>|
            #[trigger] place_names(m, names, g, k).contains_key(n) <==> (m.contains_key(n) || exists|j: int|
                0 <= j < k && names[j] == n),
        forall|n: Seq<char>|
            (exists|j: int| 0 <= j < k && names[j] == n) ==> ({
                let p = #[trigger] place_names(m, names, g, k)[n];
                &&& p.0 as int == g
                &&& 0 <= p.1 < k
                &&& names[p.1 as int] == n
                &&& forall|j2: int| p.1 < j2 < k ==> names[j2] != n
            }),
        forall|n: Seq<char>|
            !(exists|j: int| 0 <= j < k && names[j] == n) && m.contains_key(n) ==> #[trigger] place_names(
                m,
                names,
                g,
                k,
            )[n] == m[n],
    decreases k,
{
    if k > 0 {
        lemma_place_names(m, names, g, k - 1);
        let r = place_names(m, names, g, k - 1);
        assert(place_names(m, names, g, k) == r.insert(names[k - 1], (g as usize, (k - 1) as usize)));
        assert forall|n: Seq<char>|
            #[trigger] place_names(m, names, g, k).contains_key(n) <==> (m.contains_key(n) || exists|j: int|
                0 <= j < k && names[j] == n) by {
            if n == names[k - 1] {
                assert(names[k - 1] == n);
            } else if exists|j: int| 0 <= j < k && names[j] == n {
                let j = choose|j: int| 0 <= j < k && names[j] == n;
                assert(j < k - 1);
            }
        }
        assert forall|n: Seq<char>| (exists|j: int| 0 <= j < k && names[j] == n) implies ({
            let p = #[trigger] place_names(m, names, g, k)[n];
            &&& p.0 as int == g
            &&& 0 <= p.1 < k
            &&& names[p.1 as int] == n
            &&& forall|j2: int| p.1 < j2 < k ==> names[j2] != n
        }) by {
            if n != names[k - 1] {
                let j = choose|j: int| 0 <= j < k && names[j] == n;
                assert(j < k - 1);
                assert(exists|j: int| 0 <= j < k - 1 && names[j] == n);
            }
        }
        assert forall|n: Seq<char>|
            !(exists|j: int| 0 <= j < k && names[j] == n) && m.contains_key(n) implies #[trigger] place_names(
                m,
                names,
                g,
                k,
            )[n] == m[n] by {
            assert(names[k - 1] != n);
            if exists|j: int| 0 <= j < k - 1 && names[j] == n {
                let j = choose|j: int| 0 <= j < k - 1 && names[j] == n;
                assert(0 <= j < k && names[j] == n);
            }
        }
    }
}

/// The key index of a group box knows exactly the names of the groups'
/// keys, and finds each at the last key of that name in group order.
pub proof fn lemma_key_positions(groups: Seq<PickerGroupView>)
    requires
        positions_fit(groups),
    ensures
        forall|n: Seq<char>|
            #[trigger] key_positions(groups).contains_key(n) <==> exists|g: int, i: int|
                is_key_at(groups, g, i) && key_at(groups, g, i) == n,
        forall|n: Seq<char>|
            #[trigger] key_positions(groups).contains_key(n) ==> is_last_key(
                groups,
                n,
                key_positions(groups)[n].0 as int,
                key_positions(groups)[n].1 as int,
            ),
    decreases groups.len(),
{
    if groups.len() > 0 {
        let prev = groups.drop_last();
        let last = groups.len() - 1;
        let names = group_key_names(groups.last());
        assert(group_key_names(groups[last]).len() <= usize::MAX);
        assert forall|g: int| 0 <= g < prev.len() implies #[trigger] group_key_names(prev[g]).len() <= usize::MAX by {
            assert(prev[g] == groups[g]);
            assert(group_key_names(groups[g]).len() <= usize::MAX);
        }
        lemma_key_positions(prev);
        let pm = key_positions(prev);
        lemma_place_names(pm, names, last, names.len() as int);
        let m = key_positions(groups);
        assert(m == place_names(pm, names, last, names.len() as int));
        assert forall|g: int, i: int| 0 <= g < last implies #[trigger] is_key_at(prev, g, i) == is_key_at(groups, g, i)
            && key_at(prev, g, i) == key_at(groups, g, i) by {
            assert(prev[g] == groups[g]);
        }
        assert forall|n: Seq<char>|
            #[trigger] m.contains_key(n) <==> exists|g: int, i: int|
                is_key_at(groups, g, i) && key_at(groups, g, i) == n by {
            if m.contains_key(n) {
                if pm.contains_key(n) {
                    let (g, i) = choose|g: int, i: int| is_key_at(prev, g, i) && key_at(prev, g, i) == n;
                    assert(is_key_at(prev, g, i) == is_key_at(groups, g, i));
                    assert(is_key_at(groups, g, i) && key_at(groups, g, i) == n);
                } else {
                    let j = choose|j: int| 0 <= j < names.len() && names[j] == n;
                    assert(is_key_at(groups, last, j) && key_at(groups, last, j) == n);
                }
            }
            if exists|g: int, i: int| is_key_at(groups, g, i) && key_at(groups, g, i) == n {
                let (g, i) = choose|g: int, i: int| is_key_at(groups, g, i) && key_at(groups, g, i) == n;
                if g < last {
                    assert(is_key_at(prev, g, i) == is_key_at(groups, g, i));
                    assert(is_key_at(prev, g, i) && key_at(prev, g, i) == n);
                    assert(pm.contains_key(n));
                } else {
                    assert(names[i] == n);
                }
            }
        }
        assert forall|n: Seq<char>| #[trigger] m.contains_key(n) implies is_last_key(
            groups,
            n,
            m[n].0 as int,
            m[n].1 as int,
        ) by {
            if exists|j: int| 0 <= j < names.len() && names[j] == n {
                let p = m[n];
                assert(key_at(groups, last, p.1 as int) == n);
                assert forall|g2: int, i2: int|
                    is_key_at(groups, g2, i2) && (p.0 < g2 || (p.0 == g2 && p.1 < i2)) implies #[trigger] key_at(
                    groups,
                    g2,
                    i2,
                ) != n by {
                    assert(g2 == last);
                    assert(names[i2] != n);
                }
            } else {
                assert(pm.contains_key(n));
                let p = pm[n];
                assert(m[n] == p);
                assert(is_last_key(prev, n, p.0 as int, p.1 as int));
                assert(is_key_at(prev, p.0 as int, p.1 as int) == is_key_at(groups, p.0 as int, p.1 as int));
                assert forall|g2: int, i2: int|
                    is_key_at(groups, g2, i2) && (p.0 < g2 || (p.0 == g2 && p.1 < i2)) implies #[trigger] key_at(
                    groups,
                    g2,
                    i2,
                ) != n by {
                    if g2 < last {
                        assert(is_key_at(prev, g2, i2) == is_key_at(groups, g2, i2));
                        assert(key_at(prev, g2, i2) != n);
                    } else {
                        assert(key_at(groups, g2, i2) == names[i2]);
                        assert(!(0 <= i2 < names.len() && names[i2] == n));
                    }
                }
            }
        }
    }
}

/// Appends copies of `src` to `out`.
fn append_strings(out: &mut Vec<String>, src: &Vec<String>)
    ensures
        strs_view(final(out)@) == strs_view(old(out)@) + strs_view(src@),
{
    let ghost start = strs_view(out@);
    let mut i: usize = 0;
    while i < src.len()
        invariant
            i <= src@.len(),
            strs_view(out@) == start + strs_view(src@.take(i as int)),
        decreases src@.len() - i,
    {
        let ghost before = out@;
        out.push(src[i].clone());
        assert(strs_view(out@) =~= strs_view(before).push(src@[i as int]@));
        assert(strs_view(src@.take(i + 1)) =~= strs_view(src@.take(i as int)).push(src@[i as int]@));
        i = i + 1;
    }
    assert(src@.take(i as int) =~= src@);
}

/// Appends copies of the first items of `src` to `out`.
fn append_firsts(out: &mut Vec<String>, src: &Vec<(String, String)>)
    ensures
        strs_view(final(out)@) == strs_view(old(out)@) + firsts(pairs_view(src@)),
{
    let ghost start = strs_view(out@);
    let mut i: usize = 0;
    while i < src.len()
        invariant
            i <= src@.len(),
            strs_view(out@) == start + firsts(pairs_view(src@.take(i as int))),
        decreases src@.len() - i,
    {
        let ghost before = out@;
        out.push(src[i].0.clone());
        assert(strs_view(out@) =~= strs_view(before).push(src@[i as int].0@));
        assert(firsts(pairs_view(src@.take(i + 1))) =~= firsts(pairs_view(src@.take(i as int))).push(src@[i as int].0@));
        i = i + 1;
    }
    assert(src@.take(i as int) =~= src@);
}

impl PickerGroup {
    /// The names of the group's keys; see `group_key_names`.
    pub fn key_names(&self) -> (v: Vec<String>)
        ensures
            strs_view(v@) == group_key_names(self@),
    {
        let mut v: Vec<String> = Vec::new();
        match self {
            PickerGroup::Basic { keys, .. } => {
                append_strings(&mut v, keys);
                assert(strs_view(v@) =~= strs_view(keys@));
            },
            PickerGroup::VariableWidth { rows, .. } => {
                let ghost rv = rows@.map_values(|r: Vec<String>| strs_view(r@));
                let mut i: usize = 0;
                while i < rows.len()
                    invariant
                        i <= rows@.len(),
                        rv == rows@.map_values(|r: Vec<String>| strs_view(r@)),
                        strs_view(v@) == concat_rows(rv.take(i as int)),
                    decreases rows@.len() - i,
                {
                    append_strings(&mut v, &rows[i]);
                    assert(rv.take(i + 1).drop_last() =~= rv.take(i as int));
                    i = i + 1;
                }
                assert(rv.take(i as int) =~= rv);
            },
            PickerGroup::International { int_keys, lang_keys } => {
                append_firsts(&mut v, int_keys);
                append_firsts(&mut v, lang_keys);
                assert(strs_view(v@) =~= firsts(pairs_view(int_keys@)) + firsts(pairs_view(lang_keys@)));
            },
        }
        v
    }
}

/// Stores each name of `names` under `(g, i)`, its position; a later name
/// wins.
fn place_group_keys(keys: &mut StrMap<(usize, usize)>, names: &Vec<String>, g: usize)
    ensures
        final(keys)@ == place_names(old(keys)@, strs_view(names@), g as int, names@.len() as int),
{
    let ghost start = keys@;
    let ghost nv = strs_view(names@);
    let mut i: usize = 0;
    while i < names.len()
        invariant
            i <= names@.len(),
            nv == strs_view(names@),
            keys@ == place_names(start, nv, g as int, i as int),
        decreases names@.len() - i,
    {
        keys.insert(names[i].clone(), (g, i));
        i = i + 1;
    }
}

impl PickerGroupBox {
    /// A group box of these groups, with the position of each key name
    /// among them; see `key_positions`.
    pub fn new(groups: Vec<PickerGroup>) -> (b: Self)
        ensures
            b.groups@ == groups@,
            b.keys@ == key_positions(groups@.map_values(|g: PickerGroup| g@)),
    {
        let ghost gv = groups@.map_values(|g: PickerGroup| g@);
        let mut keys: StrMap<(usize, usize)> = StrMap::new();
        let mut i: usize = 0;
        while i < groups.len()
            invariant
                i <= groups@.len(),
                gv == groups@.map_values(|g: PickerGroup| g@),
                keys@ == key_positions(gv.take(i as int)),
            decreases groups@.len() - i,
        {
            let names = groups[i].key_names();
            assert(gv.take(i + 1).drop_last() =~= gv.take(i as int));
            assert(gv.take(i + 1).last() == groups@[i as int]@);
            place_group_keys(&mut keys, &names, i);
            i = i + 1;
        }
        assert(gv.take(i as int) =~= gv);
        PickerGroupBox { groups, keys }
    }

    /// The basic picker: the ANSI keys, other actions, the numpad, symbols,
    /// navigation, media, controls, LED controls and layer keys.
    pub fn basics() -> (b: Self)
        ensures
            b.groups_view() == basics_view(),
            b.keys@ == key_positions(basics_view()),
    {
        let ansi = picker_ansi_group();
        let other_keys: Vec<&str> = vec!["INSERT", "PRINT_SCREEN", "SCROLL_LOCK", "PAUSE", "RESET", "ROLL_OVER", "NONE"];
        assert(other_keys@.map_values(|s: &str| s@) =~= seq!["INSERT"@, "PRINT_SCREEN"@, "SCROLL_LOCK"@, "PAUSE"@, "RESET"@, "ROLL_OVER"@, "NONE"@]);
        let other = basic_group("Other actions", 4, 1500, other_keys);
        let numpad = picker_numpad_group();
        let symbols_keys: Vec<&str> = vec!["NONUS_HASH", "NONUS_BSLASH"];
        assert(symbols_keys@.map_values(|s: &str| s@) =~= seq!["NONUS_HASH"@, "NONUS_BSLASH"@]);
        let symbols = basic_group("Symbols", 6, 1000, symbols_keys);
        let navigation_keys: Vec<&str> = vec!["LEFT", "UP", "DOWN", "RIGHT", "HOME", "PGUP", "PGDN", "END"];
        assert(navigation_keys@.map_values(|s: &str| s@) =~= seq!["LEFT"@, "UP"@, "DOWN"@, "RIGHT"@, "HOME"@, "PGUP"@, "PGDN"@, "END"@]);
        let navigation = basic_group("Navigation", 4, 1000, navigation_keys);
        let media_keys: Vec<&str> = vec!["MUTE", "VOLUME_UP", "VOLUME_DOWN", "PLAY_PAUSE", "MEDIA_NEXT", "MEDIA_PREV"];
        assert(media_keys@.map_values(|s: &str| s@) =~= seq!["MUTE"@, "VOLUME_UP"@, "VOLUME_DOWN"@, "PLAY_PAUSE"@, "MEDIA_NEXT"@, "MEDIA_PREV"@]);
        let media = basic_group("Media", 3, 1000, media_keys);
        let controls_keys: Vec<&str> = vec!["FAN_TOGGLE", "DISPLAY_TOGGLE", "BRIGHTNESS_UP", "BRIGHTNESS_DOWN", "DISPLAY_MODE", "SUSPEND", "CAMERA_TOGGLE", "AIRPLANE_MODE", "TOUCHPAD", "SYSTEM_POWER"];
        assert(controls_keys@.map_values(|s: &str| s@) =~= seq!["FAN_TOGGLE"@, "DISPLAY_TOGGLE"@, "BRIGHTNESS_UP"@, "BRIGHTNESS_DOWN"@, "DISPLAY_MODE"@, "SUSPEND"@, "CAMERA_TOGGLE"@, "AIRPLANE_MODE"@, "TOUCHPAD"@, "SYSTEM_POWER"@]);
        let controls = basic_group("Controls", 4, 2000, controls_keys);
        let leds_keys: Vec<&str> = vec!["KBD_TOGGLE", "KBD_UP", "KBD_DOWN", "KBD_BKL", "KBD_COLOR"];
        assert(leds_keys@.map_values(|s: &str| s@) =~= seq!["KBD_TOGGLE"@, "KBD_UP"@, "KBD_DOWN"@, "KBD_BKL"@, "KBD_COLOR"@]);
        let leds = basic_group("LED controls", 4, 1000, leds_keys);
        let layers_keys: Vec<&str> = vec!["LAYER_ACCESS_1", "FN", "LAYER_ACCESS_3", "LAYER_ACCESS_4", "LAYER_SWITCH_1", "LAYER_SWITCH_2", "LAYER_SWITCH_3", "LAYER_SWITCH_4"];
        assert(layers_keys@.map_values(|s: &str| s@) =~= seq!["LAYER_ACCESS_1"@, "FN"@, "LAYER_ACCESS_3"@, "LAYER_ACCESS_4"@, "LAYER_SWITCH_1"@, "LAYER_SWITCH_2"@, "LAYER_SWITCH_3"@, "LAYER_SWITCH_4"@]);
        let layers = basic_group("Layer keys", 4, 2000, layers_keys);
        let b = Self::new(vec![ansi, other, numpad, symbols, navigation, media, controls, leds, layers]);
        assert(b.groups_view() =~= basics_view());
        b
    }

    /// The extra keys picker: more function keys, mouse actions, and the
    /// international keys.
    pub fn extras() -> (b: Self)
        ensures
            b.groups_view() == extras_view(),
            b.keys@ == key_positions(extras_view()),
    {
        let fkeys_keys: Vec<&str> = vec!["F13", "F14", "F15", "F16", "F17", "F18", "F19", "F20", "F21", "F22", "F23", "F24"];
        assert(fkeys_keys@.map_values(|s: &str| s@) =~= seq!["F13"@, "F14"@, "F15"@, "F16"@, "F17"@, "F18"@, "F19"@, "F20"@, "F21"@, "F22"@, "F23"@, "F24"@]);
        let fkeys = basic_group("Additional Function Keys", 6, 1000, fkeys_keys);
        let mouse_keys: Vec<&str> = vec!["MS_UP", "MS_DOWN", "MS_LEFT", "MS_RIGHT", "MS_BTN1", "MS_BTN2", "MS_BTN3", "MS_BTN4", "MS_BTN5", "MS_BTN6", "MS_BTN7", "MS_BTN8", "MS_WH_UP", "MS_WH_DOWN", "MS_WH_LEFT", "MS_WH_RIGHT", "MS_ACCEL0", "MS_ACCEL1", "MS_ACCEL2"];
        assert(mouse_keys@.map_values(|s: &str| s@) =~= seq!["MS_UP"@, "MS_DOWN"@, "MS_LEFT"@, "MS_RIGHT"@, "MS_BTN1"@, "MS_BTN2"@, "MS_BTN3"@, "MS_BTN4"@, "MS_BTN5"@, "MS_BTN6"@, "MS_BTN7"@, "MS_BTN8"@, "MS_WH_UP"@, "MS_WH_DOWN"@, "MS_WH_LEFT"@, "MS_WH_RIGHT"@, "MS_ACCEL0"@, "MS_ACCEL1"@, "MS_ACCEL2"@]);
        let mouse = basic_group("Mouse Actions", 5, 2000, mouse_keys);
        let international = picker_international_group();
        let b = Self::new(vec![fkeys, mouse, international]);
        assert(b.groups_view() =~= extras_view());
        b
    }
}

/// A key of a variable-width group at its place: left and top edge, width
/// and height, in pixels.
pub struct PlacedKey {
    pub name: String,
    pub x: i32,
    pub y: i32,
    pub width: i32,
    pub height: i32,
}

/// A placed key as character sequences and integers.
pub struct PlacedKeyView {
    pub name: Seq<char>,
    pub x: int,
    pub y: int,
    pub width: int,
    pub height: int,
}

impl View for PlacedKey {
    type V = PlacedKeyView;

    open spec fn view(&self) -> PlacedKeyView {
        PlacedKeyView { name: self.name@, x: self.x as int, y: self.y as int, width: self.width as int, height: self.height as int }
    }
}

/// The size that the first entry of `table` from position `k` on gives
/// `name`; a standard key's where none lists it.
pub open spec fn size_from(table: Seq<(i32, Seq<Seq<char>>)>, name: Seq<char>, k: int) -> int
    decreases table.len() - k,
{
    if k < 0 || k >= table.len() {
        KEY_SIZE as int
    } else if table[k].1.contains(name) {
        table[k].0 as int
    } else {
        size_from(table, name, k + 1)
    }
}

/// The size that `table` gives `name`; a standard key's where none lists it.
pub open spec fn size_in(table: Seq<(i32, Seq<Seq<char>>)>, name: Seq<char>) -> int {
    size_from(table, name, 0)
}

/// The left edge of key `j` of a row: the widths of the keys before it, each
/// followed by a key space.
pub open spec fn row_x(row: Seq<Seq<char>>, widths: Seq<(i32, Seq<Seq<char>>)>, j: int) -> int
    decreases j,
{
    if j <= 0 {
        0
    } else {
        row_x(row, widths, j - 1) + size_in(widths, row[j - 1]) + KEY_SPACE
    }
}

/// The first `j` keys of a row whose top edge is at `y`, at their places.
pub open spec fn row_places(
    row: Seq<Seq<char>>,
    widths: Seq<(i32, Seq<Seq<char>>)>,
    heights: Seq<(i32, Seq<Seq<char>>)>,
    y: int,
    j: int,
) -> Seq<PlacedKeyView>
    decreases j,
{
    if j <= 0 {
        seq![]
    } else {
        row_places(row, widths, heights, y, j - 1).push(
            PlacedKeyView {
                name: row[j - 1],
                x: row_x(row, widths, j - 1),
                y,
                width: size_in(widths, row[j - 1]),
                height: size_in(heights, row[j - 1]),
            },
        )
    }
}

/// The keys of the first `r` rows at their places, row after row; each row
/// starts at the left edge, one standard key and a key space below the last.
pub open spec fn places(
    rows: Seq<Seq<Seq<char>>>,
    widths: Seq<(i32, Seq<Seq<char>>)>,
    heights: Seq<(i32, Seq<Seq<char>>)>,
    r: int,
) -> Seq<PlacedKeyView>
    decreases r,
{
    if r <= 0 {
        seq![]
    } else {
        places(rows, widths, heights, r - 1) + row_places(
            rows[r - 1],
            widths,
            heights,
            (r - 1) * (KEY_SIZE + KEY_SPACE),
            rows[r - 1].len() as int,
        )
    }
}

fn contains_name(names: &Vec<String>, name: &String) -> (b: bool)
    ensures
        b == strs_view(names@).contains(name@),
{
    let mut k: usize = 0;
    while k < names.len()
        invariant
            k <= names@.len(),
            forall|j: int| 0 <= j < k ==> names@[j]@ != name@,
        decreases names@.len() - k,
    {
        if names[k] == *name {
            assert(strs_view(names@)[k as int] == name@);
            return true;
        }
        k = k + 1;
    }
    assert forall|j: int| 0 <= j < strs_view(names@).len() implies strs_view(names@)[j] != name@ by {
        assert(names@[j]@ != name@);
    }
    false
}

fn size_for(table: &Vec<(i32, Vec<String>)>, name: &String) -> (s: i32)
    ensures
        s as int == size_in(table_view(table@), name@),
{
    let ghost t = table_view(table@);
    let mut k: usize = 0;
    while k < table.len()
        invariant
            t == table_view(table@),
            k <= table@.len(),
            size_from(t, name@, 0) == size_from(t, name@, k as int),
        decreases table@.len() - k,
    {
        if contains_name(&table[k].1, name) {
            return table[k].0;
        }
        k = k + 1;
    }
    KEY_SIZE
}

/// Places the keys of a variable-width group, row by row.
pub fn place_keys(rows: &Vec<Vec<String>>, widths: &Vec<(i32, Vec<String>)>, heights: &Vec<(i32, Vec<String>)>) -> (keys: Vec<PlacedKey>)
    requires
        rows@.len() * (KEY_SIZE + KEY_SPACE) <= i32::MAX,
        forall|r: int, j: int|
            0 <= r < rows@.len() && 0 <= j <= rows@[r]@.len() ==> in_i32(
                #[trigger] row_x(strs_view(rows@[r]@), table_view(widths@), j),
            ),
    ensures
        keys@.map_values(|k: PlacedKey| k@) == places(
            rows@.map_values(|r: Vec<String>| strs_view(r@)),
            table_view(widths@),
            table_view(heights@),
            rows@.len() as int,
        ),
{
    let ghost rv = rows@.map_values(|r: Vec<String>| strs_view(r@));
    let ghost wv = table_view(widths@);
    let ghost hv = table_view(heights@);
    let mut keys: Vec<PlacedKey> = Vec::new();
    let mut y: i32 = 0;
    let mut r: usize = 0;
    while r < rows.len()
        invariant
            rv == rows@.map_values(|r: Vec<String>| strs_view(r@)),
            wv == table_view(widths@),
            hv == table_view(heights@),
            r <= rows@.len(),
            rows@.len() * (KEY_SIZE + KEY_SPACE) <= i32::MAX,
            forall|r: int, j: int|
                0 <= r < rows@.len() && 0 <= j <= rows@[r]@.len() ==> in_i32(
                    #[trigger] row_x(strs_view(rows@[r]@), table_view(widths@), j),
                ),
            y as int == r * (KEY_SIZE + KEY_SPACE),
            keys@.map_values(|k: PlacedKey| k@) == places(rv, wv, hv, r as int),
        decreases rows@.len() - r,
    {
        let row = &rows[r];
        let ghost before = keys@.map_values(|k: PlacedKey| k@);
        let ghost row_v = strs_view(row@);
        assert(rv[r as int] == row_v);
        let mut x: i32 = 0;
        let mut j: usize = 0;
        while j < row.len()
            invariant
                row_v == strs_view(row@),
                wv == table_view(widths@),
                hv == table_view(heights@),
                j <= row@.len(),
                forall|jj: int| 0 <= jj <= row@.len() ==> in_i32(#[trigger] row_x(row_v, wv, jj)),
                x as int == row_x(row_v, wv, j as int),
                keys@.map_values(|k: PlacedKey| k@) == before + row_places(row_v, wv, hv, y as int, j as int),
            decreases row@.len() - j,
        {
            let name = &row[j];
            let width = size_for(widths, name);
            let height = size_for(heights, name);
            let ghost pv = PlacedKeyView { name: row_v[j as int], x: x as int, y: y as int, width: width as int, height: height as int };
            let ghost old_keys = keys@;
            keys.push(PlacedKey { name: name.clone(), x, y, width, height });
            assert(keys@.map_values(|k: PlacedKey| k@) =~= old_keys.map_values(|k: PlacedKey| k@).push(pv));
            assert(in_i32(row_x(row_v, wv, j + 1)));
            let next: i64 = x as i64 + width as i64 + KEY_SPACE as i64;
            x = next as i32;
            j = j + 1;
            assert(before + row_places(row_v, wv, hv, y as int, j as int) =~= (before + row_places(row_v, wv, hv, y as int, j - 1)).push(pv));
        }
        assert(KEY_SIZE + KEY_SPACE == 52);
        assert((r + 1) * 52 <= rows@.len() * 52 && (r + 1) * 52 == r * 52 + 52) by (nonlinear_arith)
            requires
                r < rows@.len(),
        ;
        y = y + (KEY_SIZE + KEY_SPACE);
        r = r + 1;
        assert(places(rv, wv, hv, r as int) =~= before + row_places(row_v, wv, hv, (r - 1) * (KEY_SIZE + KEY_SPACE), row_v.len() as int));
    }
    keys
}

} // verus!
