//! How a grid lays out its blocks: in rows of a fixed number of blocks, side
//! by side, under a title. Everything here is stated over the views of the
//! blocks; the blocks of a grid are counted from 0, and the rows are the runs
//! of `cols` blocks.

use crate::calendar::BlockView;
use crate::calendar::marked_from;
use crate::calendar::unmarked_from;
use crate::date::Day;
use crate::text::centered;
use crate::text::spaces;
use vstd::prelude::*;

verus! {

/// The larger of two numbers.
pub open spec fn max_nat(a: nat, b: nat) -> nat {
    if a >= b {
        a
    } else {
        b
    }
}

/// Whether `len` blocks fill rows of `cols` blocks with none left over.
pub open spec fn fills_rows(len: int, cols: int) -> bool
    decreases len,
{
    if len <= 0 || cols <= 0 {
        len == 0 && cols > 0
    } else {
        len >= cols && fills_rows(len - cols, cols)
    }
}

/// The sum of the widths of the `count` blocks from block `from` on.
pub open spec fn widths_sum(views: Seq<BlockView>, from: int, count: nat) -> nat
    decreases count,
{
    if count == 0 {
        0
    } else {
        widths_sum(views, from, (count - 1) as nat) + views[from + count - 1].width
    }
}

/// The largest height among the `count` blocks from block `from` on.
pub open spec fn tallest(views: Seq<BlockView>, from: int, count: nat) -> nat
    decreases count,
{
    if count == 0 {
        0
    } else {
        max_nat(tallest(views, from, (count - 1) as nat), views[from + count - 1].height)
    }
}

/// The largest day width among the `count` blocks from block `from` on.
pub open spec fn widest_day(views: Seq<BlockView>, from: int, count: nat) -> nat
    decreases count,
{
    if count == 0 {
        0
    } else {
        max_nat(widest_day(views, from, (count - 1) as nat), views[from + count - 1].day_width)
    }
}

/// The largest sum of widths among the rows that lie before block `upto`.
pub open spec fn widest_row(views: Seq<BlockView>, cols: nat, upto: int) -> nat
    decreases upto,
{
    if cols == 0 || upto < cols {
        0
    } else {
        max_nat(widest_row(views, cols, upto - cols), widths_sum(views, upto - cols, cols))
    }
}

/// The number of spaces between two blocks of a row: a seventh of the mean
/// width of the blocks of the widest row.
pub open spec fn grid_padding(views: Seq<BlockView>, cols: nat) -> nat {
    widest_row(views, cols, views.len() as int) / cols / 7
}

/// The width of a grid: that of its widest row and of the spaces between the
/// blocks of a row.
pub open spec fn grid_width(views: Seq<BlockView>, cols: nat) -> nat {
    (widest_row(views, cols, views.len() as int) + grid_padding(views, cols) * (cols - 1)) as nat
}

/// The number of lines that the rows before block `upto` take: each row is as
/// high as its tallest block, and one line separates two rows.
pub open spec fn body_height(views: Seq<BlockView>, cols: nat, upto: int) -> nat
    decreases upto,
{
    if cols == 0 || upto < cols {
        0
    } else if upto - cols < cols {
        tallest(views, upto - cols, cols)
    } else {
        body_height(views, cols, upto - cols) + 1 + tallest(views, upto - cols, cols)
    }
}

/// The heights of the rows before block `upto`, from the top row down.
pub open spec fn row_heights(views: Seq<BlockView>, cols: nat, upto: int) -> Seq<nat>
    decreases upto,
{
    if cols == 0 || upto < cols {
        Seq::empty()
    } else {
        row_heights(views, cols, upto - cols).push(tallest(views, upto - cols, cols))
    }
}

/// The sum of a list of heights.
pub open spec fn heights_total(heights: Seq<nat>) -> nat
    decreases heights.len(),
{
    if heights.len() == 0 {
        0
    } else {
        heights_total(heights.drop_last()) + heights.last()
    }
}

/// The number of lines of a grid: the title and the rows; none at all for a
/// grid without blocks.
pub open spec fn grid_height(views: Seq<BlockView>, cols: nat) -> nat {
    if views.len() == 0 {
        0
    } else {
        1 + body_height(views, cols, views.len() as int)
    }
}

/// Line `i` of the `count` blocks from block `from` on, side by side with
/// `padding` spaces between them. A block that has no line `i` gives a blank
/// run of its width.
pub open spec fn row_line(
    views: Seq<BlockView>,
    from: int,
    count: nat,
    padding: nat,
    i: int,
) -> Seq<char>
    decreases count,
{
    if count == 0 {
        Seq::empty()
    } else if count == 1 {
        views[from].line_or_blank(i)
    } else {
        row_line(views, from, (count - 1) as nat, padding, i) + spaces(padding) + views[from + count
            - 1].line_or_blank(i)
    }
}

/// The lines of the row that starts with block `from`.
pub open spec fn row_lines(views: Seq<BlockView>, from: int, cols: nat, padding: nat) -> Seq<
    Seq<char>,
> {
    Seq::new(tallest(views, from, cols), |i: int| row_line(views, from, cols, padding, i))
}

/// The lines of the rows before block `upto`, with a blank line of `width`
/// characters between two rows.
pub open spec fn body_lines(
    views: Seq<BlockView>,
    cols: nat,
    padding: nat,
    width: nat,
    upto: int,
) -> Seq<Seq<char>>
    decreases upto,
{
    if cols == 0 || upto < cols {
        Seq::empty()
    } else if upto - cols < cols {
        row_lines(views, upto - cols, cols, padding)
    } else {
        body_lines(views, cols, padding, width, upto - cols) + seq![spaces(width)] + row_lines(
            views,
            upto - cols,
            cols,
            padding,
        )
    }
}

/// The lines of a grid: the title, centred over the width of the grid, and
/// the rows. A grid without blocks has no lines.
pub open spec fn grid_lines(title: Seq<char>, views: Seq<BlockView>, cols: nat) -> Seq<Seq<char>> {
    if views.len() == 0 {
        Seq::empty()
    } else {
        seq![centered(title, grid_width(views, cols))] + body_lines(
            views,
            cols,
            grid_padding(views, cols),
            grid_width(views, cols),
            views.len() as int,
        )
    }
}

/// The days that some block owns.
pub open spec fn owned_by_any(views: Seq<BlockView>) -> Set<Day> {
    Set::new(
        |e: Day| exists|i: int| 0 <= i < views.len() && (#[trigger] views[i]).owned.contains(e),
    )
}

/// The days that some block has marked.
pub open spec fn marked_by_any(views: Seq<BlockView>) -> Set<Day> {
    Set::new(
        |e: Day| exists|i: int| 0 <= i < views.len() && (#[trigger] views[i]).marked.contains(e),
    )
}

/// A grid as the layout sees it, given its title, the views of its blocks
/// and the number of blocks in a row.
pub open spec fn grid_view(title: Seq<char>, views: Seq<BlockView>, cols: nat) -> BlockView {
    BlockView {
        width: grid_width(views, cols),
        height: grid_height(views, cols),
        day_width: widest_day(views, 0, views.len()),
        lines: grid_lines(title, views, cols),
        owned: owned_by_any(views),
        marked: marked_by_any(views),
    }
}

/// The rows before block `upto` have as many lines as `body_height` says.
pub proof fn lemma_body_lines_len(
    views: Seq<BlockView>,
    cols: nat,
    padding: nat,
    width: nat,
    upto: int,
)
    ensures
        body_lines(views, cols, padding, width, upto).len() == body_height(views, cols, upto),
    decreases upto,
{
    if cols == 0 || upto < cols {
    } else if upto - cols < cols {
    } else {
        lemma_body_lines_len(views, cols, padding, width, upto - cols);
    }
}

/// A grid has as many lines as its height.
pub proof fn lemma_grid_lines_len(title: Seq<char>, views: Seq<BlockView>, cols: nat)
    ensures
        grid_lines(title, views, cols).len() == grid_height(views, cols),
{
    lemma_body_lines_len(
        views,
        cols,
        grid_padding(views, cols),
        grid_width(views, cols),
        views.len() as int,
    );
}

/// Two sequences of blocks that agree, block by block, in width, height and
/// day width.
pub open spec fn same_measures(a: Seq<BlockView>, b: Seq<BlockView>) -> bool {
    &&& a.len() == b.len()
    &&& forall|i: int|
        0 <= i < a.len() ==> (#[trigger] a[i]).width == b[i].width && a[i].height == b[i].height
            && a[i].day_width == b[i].day_width
}

/// The sums and maxima over a run of blocks depend on the measures of the
/// blocks only.
pub proof fn lemma_same_run(a: Seq<BlockView>, b: Seq<BlockView>, from: int, count: nat)
    requires
        same_measures(a, b),
        0 <= from,
        from + count <= a.len(),
    ensures
        widths_sum(a, from, count) == widths_sum(b, from, count),
        tallest(a, from, count) == tallest(b, from, count),
        widest_day(a, from, count) == widest_day(b, from, count),
    decreases count,
{
    if count > 0 {
        lemma_same_run(a, b, from, (count - 1) as nat);
        assert(a[from + count - 1].width == b[from + count - 1].width);
    }
}

/// The widest row and the height of the rows depend on the measures of the
/// blocks only.
pub proof fn lemma_same_rows(a: Seq<BlockView>, b: Seq<BlockView>, cols: nat, upto: int)
    requires
        same_measures(a, b),
        upto <= a.len(),
    ensures
        widest_row(a, cols, upto) == widest_row(b, cols, upto),
        body_height(a, cols, upto) == body_height(b, cols, upto),
    decreases upto,
{
    if cols == 0 || upto < cols {
    } else {
        lemma_same_rows(a, b, cols, upto - cols);
        lemma_same_run(a, b, upto - cols, cols);
    }
}

/// The width, the padding, the height and the day width of a grid depend on
/// the measures of its blocks only.
pub proof fn lemma_same_grid(a: Seq<BlockView>, b: Seq<BlockView>, cols: nat)
    requires
        same_measures(a, b),
    ensures
        grid_width(a, cols) == grid_width(b, cols),
        grid_padding(a, cols) == grid_padding(b, cols),
        grid_height(a, cols) == grid_height(b, cols),
        widest_day(a, 0, a.len()) == widest_day(b, 0, b.len()),
{
    lemma_same_rows(a, b, cols, a.len() as int);
    lemma_same_run(a, b, 0, a.len());
}

/// A longer run of blocks is at least as wide, as tall and as wide in days.
pub proof fn lemma_run_grows(views: Seq<BlockView>, from: int, a: nat, b: nat)
    requires
        a <= b,
    ensures
        widths_sum(views, from, a) <= widths_sum(views, from, b),
        tallest(views, from, a) <= tallest(views, from, b),
        widest_day(views, from, a) <= widest_day(views, from, b),
    decreases b,
{
    if a < b {
        lemma_run_grows(views, from, a, (b - 1) as nat);
    }
}

/// More rows are at least as wide and as high as fewer: `upto` lies whole
/// rows after `from`.
pub proof fn lemma_rows_grow(views: Seq<BlockView>, cols: nat, from: int, upto: int)
    requires
        0 <= from,
        fills_rows(upto - from, cols as int),
    ensures
        widest_row(views, cols, from) <= widest_row(views, cols, upto),
        body_height(views, cols, from) <= body_height(views, cols, upto),
        from < upto ==> widths_sum(views, upto - cols, cols) <= widest_row(views, cols, upto),
    decreases upto - from,
{
    if from < upto {
        lemma_rows_grow(views, cols, from, upto - cols);
        if upto - cols < cols {
            assert(body_height(views, cols, upto - cols) == 0);
        }
    }
}

/// In a grid of whole rows there are at least `cols` blocks from the start of
/// any row on.
pub proof fn lemma_fills_rows_step(len: int, cols: int)
    requires
        fills_rows(len, cols),
        len > 0,
    ensures
        cols > 0,
        len >= cols,
        fills_rows(len - cols, cols),
{
}

/// The rows take as many lines as their heights together and one line
/// between each two of them.
pub proof fn lemma_body_height_total(views: Seq<BlockView>, cols: nat, upto: int)
    requires
        cols > 0,
        upto >= cols,
    ensures
        body_height(views, cols, upto) + 1 == heights_total(row_heights(views, cols, upto))
            + row_heights(views, cols, upto).len(),
    decreases upto,
{
    let heights = row_heights(views, cols, upto);
    assert(heights.drop_last() =~= row_heights(views, cols, upto - cols));
    assert(heights.last() == tallest(views, upto - cols, cols));
    if upto - cols >= cols {
        lemma_body_height_total(views, cols, upto - cols);
    } else {
        assert(row_heights(views, cols, upto - cols).len() == 0);
        assert(heights_total(heights.drop_last()) == 0);
    }
}

/// The first heights of a list sum to no more than the whole list.
pub proof fn lemma_heights_total_take(heights: Seq<nat>, i: int)
    requires
        0 <= i <= heights.len(),
    ensures
        heights_total(heights.take(i)) <= heights_total(heights),
        i < heights.len() ==> heights_total(heights.take(i + 1)) == heights_total(heights.take(i))
            + heights[i],
    decreases heights.len() - i,
{
    if i < heights.len() {
        assert(heights.take(i + 1).drop_last() =~= heights.take(i));
        lemma_heights_total_take(heights, i + 1);
    } else {
        assert(heights.take(i) =~= heights);
    }
}

/// Every block has as many lines as its height and marks only its own days.
pub open spec fn all_consistent(views: Seq<BlockView>) -> bool {
    forall|i: int| 0 <= i < views.len() ==> (#[trigger] views[i]).consistent()
}

/// A grid of consistent blocks is consistent.
pub proof fn lemma_grid_consistent(title: Seq<char>, views: Seq<BlockView>, cols: nat)
    requires
        all_consistent(views),
    ensures
        grid_view(title, views, cols).consistent(),
{
    lemma_grid_lines_len(title, views, cols);
    let grid = grid_view(title, views, cols);
    assert forall|e: Day| grid.marked.contains(e) implies grid.owned.contains(e) by {
        let i = choose|i: int| 0 <= i < views.len() && (#[trigger] views[i]).marked.contains(e);
        assert(views[i].consistent());
        assert(views[i].owned.contains(e));
    }
}

/// Marking a day in every block of a grid marks it in the grid.
pub proof fn lemma_grid_marked(
    title: Seq<char>,
    before: Seq<BlockView>,
    after: Seq<BlockView>,
    cols: nat,
    day: Day,
)
    requires
        before.len() == after.len(),
        all_consistent(before),
        forall|i: int|
            0 <= i < before.len() ==> marked_from(#[trigger] before[i], day, after[i]),
    ensures
        same_measures(before, after),
        marked_from(grid_view(title, before, cols), day, grid_view(title, after, cols)),
        grid_view(title, after, cols).marked.contains(day) == grid_view(
            title,
            before,
            cols,
        ).owned.contains(day),
{
    let old_grid = grid_view(title, before, cols);
    let new_grid = grid_view(title, after, cols);
    assert(same_measures(before, after)) by {
        assert forall|i: int| 0 <= i < before.len() implies (#[trigger] before[i]).width
            == after[i].width && before[i].height == after[i].height && before[i].day_width
            == after[i].day_width by {
            assert(marked_from(before[i], day, after[i]));
        }
    }
    lemma_same_grid(before, after, cols);
    assert(new_grid.owned =~= old_grid.owned) by {
        assert forall|e: Day| new_grid.owned.contains(e) == old_grid.owned.contains(e) by {
            if new_grid.owned.contains(e) {
                let i = choose|i: int|
                    0 <= i < after.len() && (#[trigger] after[i]).owned.contains(e);
                assert(marked_from(before[i], day, after[i]));
                assert(before[i].owned.contains(e));
            }
            if old_grid.owned.contains(e) {
                let i = choose|i: int|
                    0 <= i < before.len() && (#[trigger] before[i]).owned.contains(e);
                assert(marked_from(before[i], day, after[i]));
                assert(after[i].owned.contains(e));
            }
        }
    }
    let expected = if old_grid.owned.contains(day) {
        old_grid.marked.insert(day)
    } else {
        old_grid.marked
    };
    assert forall|e: Day| new_grid.marked.contains(e) == expected.contains(e) by {
        if new_grid.marked.contains(e) {
            let i = choose|i: int| 0 <= i < after.len() && (#[trigger] after[i]).marked.contains(e);
            assert(marked_from(before[i], day, after[i]));
            if before[i].marked.contains(e) {
                assert(old_grid.marked.contains(e));
            } else {
                assert(e == day && before[i].owned.contains(day));
                assert(old_grid.owned.contains(day));
            }
        }
        if expected.contains(e) {
            if old_grid.marked.contains(e) {
                let i = choose|i: int|
                    0 <= i < before.len() && (#[trigger] before[i]).marked.contains(e);
                assert(marked_from(before[i], day, after[i]));
                assert(after[i].marked.contains(e));
            } else {
                let i = choose|i: int|
                    0 <= i < before.len() && (#[trigger] before[i]).owned.contains(day);
                assert(marked_from(before[i], day, after[i]));
                assert(after[i].marked.contains(e));
            }
        }
    }
    assert(new_grid.marked =~= expected);
    if !old_grid.owned.contains(day) {
        assert forall|i: int| 0 <= i < before.len() implies after[i] == before[i] by {
            assert(marked_from(before[i], day, after[i]));
            assert(!before[i].owned.contains(day));
        }
        assert(after =~= before);
        if old_grid.marked.contains(day) {
            let i = choose|i: int|
                0 <= i < before.len() && (#[trigger] before[i]).marked.contains(day);
            assert(before[i].consistent());
            assert(before[i].owned.contains(day));
        }
    }
}

/// Unmarking a day in every block of a grid unmarks it in the grid.
pub proof fn lemma_grid_unmarked(
    title: Seq<char>,
    before: Seq<BlockView>,
    after: Seq<BlockView>,
    cols: nat,
    day: Day,
)
    requires
        before.len() == after.len(),
        forall|i: int|
            0 <= i < before.len() ==> unmarked_from(#[trigger] before[i], day, after[i]),
    ensures
        same_measures(before, after),
        unmarked_from(grid_view(title, before, cols), day, grid_view(title, after, cols)),
        !grid_view(title, after, cols).marked.contains(day),
{
    let old_grid = grid_view(title, before, cols);
    let new_grid = grid_view(title, after, cols);
    assert(same_measures(before, after)) by {
        assert forall|i: int| 0 <= i < before.len() implies (#[trigger] before[i]).width
            == after[i].width && before[i].height == after[i].height && before[i].day_width
            == after[i].day_width by {
            assert(unmarked_from(before[i], day, after[i]));
        }
    }
    lemma_same_grid(before, after, cols);
    assert(new_grid.owned =~= old_grid.owned) by {
        assert forall|e: Day| new_grid.owned.contains(e) == old_grid.owned.contains(e) by {
            if new_grid.owned.contains(e) {
                let i = choose|i: int|
                    0 <= i < after.len() && (#[trigger] after[i]).owned.contains(e);
                assert(unmarked_from(before[i], day, after[i]));
                assert(before[i].owned.contains(e));
            }
            if old_grid.owned.contains(e) {
                let i = choose|i: int|
                    0 <= i < before.len() && (#[trigger] before[i]).owned.contains(e);
                assert(unmarked_from(before[i], day, after[i]));
                assert(after[i].owned.contains(e));
            }
        }
    }
    let expected = Set::new(|e: Day| old_grid.marked.contains(e) && e.day != day.day);
    assert forall|e: Day| new_grid.marked.contains(e) == expected.contains(e) by {
        if new_grid.marked.contains(e) {
            let i = choose|i: int| 0 <= i < after.len() && (#[trigger] after[i]).marked.contains(e);
            assert(unmarked_from(before[i], day, after[i]));
            assert(before[i].marked.contains(e));
        }
        if expected.contains(e) {
            let i = choose|i: int|
                0 <= i < before.len() && (#[trigger] before[i]).marked.contains(e);
            assert(unmarked_from(before[i], day, after[i]));
            assert(after[i].marked.contains(e));
        }
    }
    assert(new_grid.marked =~= expected);
    if !old_grid.marks_number(day.day) {
        assert forall|i: int| 0 <= i < before.len() implies after[i] == before[i] by {
            assert(unmarked_from(before[i], day, after[i]));
            if before[i].marks_number(day.day) {
                let e = choose|e: Day| #[trigger] before[i].marked.contains(e) && e.day == day.day;
                assert(old_grid.marked.contains(e));
            }
            assert(after[i].marked =~= before[i].marked);
        }
        assert(after =~= before);
    }
}

/// Where no block of a run has days wider than `bound`, the run has none.
pub proof fn lemma_widest_day_bound(views: Seq<BlockView>, from: int, count: nat, bound: nat)
    requires
        forall|i: int| from <= i < from + count ==> (#[trigger] views[i]).day_width <= bound,
    ensures
        widest_day(views, from, count) <= bound,
    decreases count,
{
    if count > 0 {
        lemma_widest_day_bound(views, from, (count - 1) as nat, bound);
    }
}

/// The number of blank blocks that fill the last row of `len` blocks in rows
/// of `cols` blocks.
pub open spec fn padding_count(len: nat, cols: nat) -> nat {
    if cols == 0 || len % cols == 0 {
        0
    } else {
        (cols - len % cols) as nat
    }
}

/// A whole number of rows fills its rows.
pub proof fn lemma_multiple_fills_rows(rows: nat, cols: nat)
    requires
        cols >= 1,
    ensures
        fills_rows((rows * cols) as int, cols as int),
    decreases rows,
{
    let total = (rows * cols) as int;
    if rows > 0 {
        let less = (((rows - 1) as nat) * cols) as int;
        lemma_multiple_fills_rows((rows - 1) as nat, cols);
        assert(total == less + cols && less >= 0) by (nonlinear_arith)
            requires
                rows >= 1,
                cols >= 1,
                total == rows * cols,
                less == (rows - 1) * cols,
        ;
    } else {
        assert(total == 0) by (nonlinear_arith)
            requires
                rows == 0,
                total == rows * cols,
        ;
    }
}

/// Blocks that fill their rows are a whole number of rows.
pub proof fn lemma_fills_rows_multiple(len: int, cols: nat)
    requires
        fills_rows(len, cols as int),
    ensures
        cols >= 1,
        len >= 0,
        len % (cols as int) == 0,
    decreases len,
{
    if len > 0 {
        lemma_fills_rows_multiple(len - cols, cols);
        vstd::arithmetic::div_mod::lemma_mod_multiples_vanish(1, len - cols, cols as int);
        assert(cols * 1 + (len - cols) == len) by (nonlinear_arith);
    } else {
        vstd::arithmetic::div_mod::lemma_small_mod(0, cols);
    }
}

/// With the blank blocks that fill the last row, the blocks fill their rows:
/// their number is the smallest multiple of `cols` that is not below `len`.
pub proof fn lemma_padded_len(len: nat, cols: nat)
    requires
        cols >= 1,
    ensures
        fills_rows((len + padding_count(len, cols)) as int, cols as int),
        (len + padding_count(len, cols)) % cols == 0,
        padding_count(len, cols) < cols,
        forall|m: int|
            m >= len && #[trigger] (m % (cols as int)) == 0 ==> m >= len + padding_count(len, cols),
{
    let c = cols as int;
    let q = (len as int) / c;
    let r = (len as int) % c;
    vstd::arithmetic::div_mod::lemma_fundamental_div_mod(len as int, c);
    vstd::arithmetic::div_mod::lemma_mod_bound(len as int, c);
    assert(q >= 0) by (nonlinear_arith)
        requires
            len == c * q + r,
            0 <= r < c,
            len >= 0,
            c >= 1,
    ;
    let total = len + padding_count(len, cols);
    let rows: nat = if r == 0 {
        q as nat
    } else {
        (q + 1) as nat
    };
    assert(total == rows * cols) by (nonlinear_arith)
        requires
            len == c * q + r,
            c == cols,
            total == if r == 0 {
                len as int
            } else {
                len + c - r
            },
            rows == if r == 0 {
                q
            } else {
                q + 1
            },
    ;
    lemma_multiple_fills_rows(rows, cols);
    lemma_fills_rows_multiple(total as int, cols);
    assert forall|m: int| m >= len && #[trigger] (m % c) == 0 implies m >= total by {
        if m < total {
            vstd::arithmetic::div_mod::lemma_fundamental_div_mod(m, c);
            let k = m / c;
            assert(m == c * k);
            assert(false) by (nonlinear_arith)
                requires
                    m == c * k,
                    total == rows * c,
                    len <= m,
                    m < total,
                    total - len < c,
                    c >= 1,
            ;
        }
    }
}

/// Where no block of a run is taller than `bound`, the run is not.
pub proof fn lemma_tallest_bound(views: Seq<BlockView>, from: int, count: nat, bound: nat)
    requires
        forall|i: int| from <= i < from + count ==> (#[trigger] views[i]).height <= bound,
    ensures
        tallest(views, from, count) <= bound,
    decreases count,
{
    if count > 0 {
        lemma_tallest_bound(views, from, (count - 1) as nat, bound);
    }
}

/// Every line of every block has the width of its block.
pub open spec fn all_aligned(views: Seq<BlockView>) -> bool {
    forall|i: int| 0 <= i < views.len() ==> (#[trigger] views[i]).aligned()
}

/// Every row before block `upto` has blocks of `width` characters in all.
pub open spec fn rows_as_wide(views: Seq<BlockView>, cols: nat, upto: int, width: nat) -> bool
    decreases upto,
{
    if cols == 0 || upto < cols {
        true
    } else {
        widths_sum(views, upto - cols, cols) == width && rows_as_wide(
            views,
            cols,
            upto - cols,
            width,
        )
    }
}

/// A line of a run of aligned blocks is as wide as the blocks and the spaces
/// between them.
pub proof fn lemma_row_line_len(
    views: Seq<BlockView>,
    from: int,
    count: nat,
    padding: nat,
    i: int,
)
    requires
        count >= 1,
        0 <= from,
        from + count <= views.len(),
        all_aligned(views),
    ensures
        row_line(views, from, count, padding, i).len() == widths_sum(views, from, count) + padding
            * (count - 1),
    decreases count,
{
    let last = views[from + count - 1];
    assert(last.aligned());
    assert(last.line_or_blank(i).len() == last.width);
    if count == 1 {
        assert(widths_sum(views, from, 0) == 0);
        assert(padding * (count - 1) == 0) by (nonlinear_arith)
            requires
                count == 1,
        ;
    } else {
        lemma_row_line_len(views, from, (count - 1) as nat, padding, i);
        assert(padding * (count - 1) == padding * (count - 2) + padding) by (nonlinear_arith);
    }
}

/// The lines of rows of aligned blocks that are all as wide have all the
/// width of the grid.
pub proof fn lemma_body_aligned(
    views: Seq<BlockView>,
    cols: nat,
    padding: nat,
    width: nat,
    upto: int,
    row_width: nat,
)
    requires
        cols >= 1,
        upto <= views.len(),
        fills_rows(upto, cols as int),
        all_aligned(views),
        rows_as_wide(views, cols, upto, row_width),
        width == row_width + padding * (cols - 1),
    ensures
        forall|i: int|
            0 <= i < body_lines(views, cols, padding, width, upto).len() ==> (#[trigger] body_lines(
                views,
                cols,
                padding,
                width,
                upto,
            )[i]).len() == width,
    decreases upto,
{
    if upto >= cols {
        let rows = row_lines(views, upto - cols, cols, padding);
        assert forall|i: int| 0 <= i < rows.len() implies (#[trigger] rows[i]).len() == width by {
            lemma_row_line_len(views, upto - cols, cols, padding, i);
        }
        let body = body_lines(views, cols, padding, width, upto);
        if upto - cols >= cols {
            lemma_body_aligned(views, cols, padding, width, upto - cols, row_width);
            let above = body_lines(views, cols, padding, width, upto - cols);
            assert(body == above + seq![spaces(width)] + rows);
            assert forall|i: int| 0 <= i < body.len() implies (#[trigger] body[i]).len()
                == width by {
                if i < above.len() {
                    assert(body[i] == above[i]);
                } else if i == above.len() {
                    assert(body[i] == spaces(width));
                } else {
                    assert(body[i] == rows[i - above.len() - 1]);
                }
            }
        } else {
            assert(body == rows);
        }
    }
}

/// Every line of a grid has the width of the grid, provided that every block
/// is aligned, that the rows are all as wide as the widest of them, and that
/// the title is not wider than the grid.
pub proof fn lemma_grid_aligned(title: Seq<char>, views: Seq<BlockView>, cols: nat)
    requires
        cols >= 1,
        fills_rows(views.len() as int, cols as int),
        all_aligned(views),
        rows_as_wide(views, cols, views.len() as int, widest_row(views, cols, views.len() as int)),
        title.len() <= grid_width(views, cols),
    ensures
        grid_view(title, views, cols).aligned(),
{
    let padding = grid_padding(views, cols);
    let width = grid_width(views, cols);
    let widest = widest_row(views, cols, views.len() as int);
    assert(padding * (cols - 1) >= 0) by (nonlinear_arith)
        requires
            padding >= 0,
            cols >= 1,
    ;
    lemma_body_aligned(views, cols, padding, width, views.len() as int, widest);
    let lines = grid_lines(title, views, cols);
    let body = body_lines(views, cols, padding, width, views.len() as int);
    assert forall|i: int| 0 <= i < lines.len() implies (#[trigger] lines[i]).len() == width by {
        if i > 0 {
            assert(lines[i] == body[i - 1]);
        }
    }
}

/// Rows of blocks that are all `width` characters wide are all as wide, and
/// as wide as the widest row.
pub proof fn lemma_equal_widths(views: Seq<BlockView>, cols: nat, upto: int, width: nat)
    requires
        cols >= 1,
        upto <= views.len(),
        fills_rows(upto, cols as int),
        forall|i: int| 0 <= i < views.len() ==> (#[trigger] views[i]).width == width,
    ensures
        rows_as_wide(views, cols, upto, cols * width),
        upto >= cols ==> widest_row(views, cols, upto) == cols * width,
    decreases upto,
{
    if upto >= cols {
        lemma_equal_widths(views, cols, upto - cols, width);
        lemma_equal_run(views, upto - cols, cols, width);
        assert(cols * width >= 0) by (nonlinear_arith)
            requires
                cols >= 1,
                width >= 0,
        ;
    }
}

/// A run of `count` blocks that are all `width` characters wide is
/// `count * width` characters wide.
pub proof fn lemma_equal_run(views: Seq<BlockView>, from: int, count: nat, width: nat)
    requires
        0 <= from,
        from + count <= views.len(),
        forall|i: int| 0 <= i < views.len() ==> (#[trigger] views[i]).width == width,
    ensures
        widths_sum(views, from, count) == count * width,
    decreases count,
{
    if count > 0 {
        lemma_equal_run(views, from, (count - 1) as nat, width);
        assert(count * width == (count - 1) * width + width) by (nonlinear_arith);
    } else {
        assert(count * width == 0) by (nonlinear_arith)
            requires
                count == 0,
        ;
    }
}

/// Every line of a grid of aligned blocks that are all `width` characters
/// wide has the width of the grid, provided that the title is not wider than
/// the grid.
pub proof fn lemma_equal_grid_aligned(
    title: Seq<char>,
    views: Seq<BlockView>,
    cols: nat,
    width: nat,
)
    requires
        cols >= 1,
        fills_rows(views.len() as int, cols as int),
        all_aligned(views),
        forall|i: int| 0 <= i < views.len() ==> (#[trigger] views[i]).width == width,
        title.len() <= grid_width(views, cols),
    ensures
        grid_view(title, views, cols).aligned(),
{
    lemma_equal_widths(views, cols, views.len() as int, width);
    if views.len() > 0 {
        lemma_grid_aligned(title, views, cols);
    }
}

} // verus!
