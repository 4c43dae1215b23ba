//! Board gravity: every column settles, its puyos stacked on the floor in
//! the order they had.

use crate::board::{Board, BoardView, Grid};
use crate::palette::PuyoType;
use vstd::prelude::*;

verus! {

/// Column `c` of the grid, top to bottom.
pub open spec fn column(g: Grid, c: int) -> Seq<Option<PuyoType>> {
    Seq::new(g.len(), |r: int| g[r][c])
}

/// The puyos of a column from row `from` down, top to bottom, the empty cells
/// left out.
pub open spec fn puyos_below(col: Seq<Option<PuyoType>>, from: int) -> Seq<Option<PuyoType>>
    decreases col.len() - from,
{
    if from >= col.len() {
        Seq::empty()
    } else if col[from].is_some() {
        seq![col[from]] + puyos_below(col, from + 1)
    } else {
        puyos_below(col, from + 1)
    }
}

/// A column after it has settled: its puyos in the same order at the bottom,
/// nothing above them.
pub open spec fn settled_column(col: Seq<Option<PuyoType>>) -> Seq<Option<PuyoType>> {
    let puyos = puyos_below(col, 0);
    let gap = col.len() - puyos.len();
    Seq::new(
        col.len(),
        |r: int|
            if r < gap {
                None
            } else {
                puyos[r - gap]
            },
    )
}

/// The grid after every column has settled.
pub open spec fn settled(g: Grid) -> Grid {
    Seq::new(g.len(), |r: int| Seq::new(g[r].len(), |c: int| settled_column(column(g, c))[r]))
}

/// Column `c` has a puyo at row `r` and an empty cell at row `below`,
/// further down.
pub open spec fn hangs(g: Grid, r: int, below: int, c: int) -> bool {
    0 <= r < below < g.len() && 0 <= c < g[r].len() && g[r][c].is_some() && g[below][c].is_none()
}

/// Some puyo of the grid has an empty cell somewhere beneath it.
pub open spec fn floating(g: Grid) -> bool {
    exists|r: int, below: int, c: int| hangs(g, r, below, c)
}

impl BoardView {
    /// The board after gravity: the grid settled, nothing else changed.
    pub open spec fn fallen(self) -> BoardView {
        BoardView { grid: settled(self.grid), ..self }
    }
}

/// The sequence that `puyos_below` gives holds puyos only, and no more of
/// them than the column has rows from `from` down.
pub proof fn lemma_puyos_below(col: Seq<Option<PuyoType>>, from: int)
    requires
        0 <= from <= col.len(),
    ensures
        puyos_below(col, from).len() <= col.len() - from,
        forall|j: int| 0 <= j < puyos_below(col, from).len() ==> puyos_below(col, from)[j].is_some(),
        (forall|j: int| from <= j < col.len() ==> col[j].is_some()) ==> puyos_below(col, from)
            =~= col.subrange(from, col.len() as int),
    decreases col.len() - from,
{
    if from < col.len() {
        lemma_puyos_below(col, from + 1);
    }
}

/// What holds of column `c` while gravity works its way up to row `top`:
/// above `top` the column is as it was; from `top` down it is empty as far
/// as `bound` and holds, below that, the puyos that were at `top` or below.
spec fn settling(
    old_col: Seq<Option<PuyoType>>,
    cur_col: Seq<Option<PuyoType>>,
    top: int,
    bound: int,
) -> bool {
    let puyos = puyos_below(old_col, top);
    &&& old_col.len() == cur_col.len()
    &&& 0 <= top <= bound <= old_col.len()
    &&& puyos.len() == old_col.len() - bound
    &&& forall|j: int| 0 <= j < top ==> cur_col[j] == old_col[j]
    &&& forall|j: int| top <= j < bound ==> cur_col[j].is_none()
    &&& forall|j: int| bound <= j < old_col.len() ==> cur_col[j] == puyos[j - bound]
    &&& (bound > top <==> exists|j: int| top <= j < old_col.len() && old_col[j].is_none())
}

/// Column `c` has a puyo at a row not above `top` with an empty cell beneath.
spec fn hangs_from(g: Grid, top: int, c: int) -> bool {
    exists|r: int, below: int| top <= r && hangs(g, r, below, c)
}

/// Some column before `c` has a puyo with an empty cell beneath.
spec fn floating_before(g: Grid, c: int) -> bool {
    exists|r: int, below: int, k: int| k < c && hangs(g, r, below, k)
}

/// Before gravity has looked at any row but the last, the column is
/// settling from its last row.
proof fn lemma_settling_start(col: Seq<Option<PuyoType>>)
    requires
        col.len() >= 1,
    ensures
        settling(
            col,
            col,
            col.len() - 1,
            if col[col.len() - 1].is_some() {
                col.len() - 1
            } else {
                col.len() as int
            },
        ),
{
    let last = col.len() - 1;
    assert(puyos_below(col, last + 1) =~= Seq::empty());
    if col[last].is_some() {
        assert(puyos_below(col, last) =~= seq![col[last]]);
    } else {
        assert(puyos_below(col, last) =~= Seq::empty());
    }
}

/// Gravity passes a row whose cell stays where it is.
proof fn lemma_settling_keeps(
    old_col: Seq<Option<PuyoType>>,
    cur_col: Seq<Option<PuyoType>>,
    top: int,
    bound: int,
)
    requires
        settling(old_col, cur_col, top, bound),
        top > 0,
        old_col[top - 1].is_none() || bound == top,
    ensures
        settling(
            old_col,
            cur_col,
            top - 1,
            if old_col[top - 1].is_some() {
                top - 1
            } else {
                bound
            },
        ),
{
    let puyos = puyos_below(old_col, top);
    let more = puyos_below(old_col, top - 1);
    if old_col[top - 1].is_some() {
        assert(more =~= seq![old_col[top - 1]] + puyos);
        assert forall|j: int| top - 1 <= j < old_col.len() implies cur_col[j] == more[j - (top
            - 1)] by {
            if j >= top {
                assert(cur_col[j] == puyos[j - bound]);
            }
        }
        lemma_puyos_below(old_col, top);
        assert forall|j: int| top - 1 <= j < old_col.len() implies old_col[j].is_some() by {}
    } else {
        assert(more =~= puyos);
        assert(top - 1 <= top - 1 < old_col.len() && old_col[top - 1].is_none());
    }
}

/// Gravity takes the puyo of the row above `top` down to the row above
/// `bound`.
proof fn lemma_settling_moves(
    old_col: Seq<Option<PuyoType>>,
    cur_col: Seq<Option<PuyoType>>,
    next_col: Seq<Option<PuyoType>>,
    top: int,
    bound: int,
)
    requires
        settling(old_col, cur_col, top, bound),
        top > 0,
        old_col[top - 1].is_some(),
        bound > top,
        next_col == cur_col.update(top - 1, None).update(bound - 1, cur_col[top - 1]),
    ensures
        settling(old_col, next_col, top - 1, bound - 1),
{
    let puyos = puyos_below(old_col, top);
    let more = puyos_below(old_col, top - 1);
    assert(more =~= seq![old_col[top - 1]] + puyos);
    assert forall|j: int| bound - 1 <= j < old_col.len() implies next_col[j] == more[j - (bound
        - 1)] by {
        if j >= bound {
            assert(cur_col[j] == puyos[j - bound]);
        }
    }
    let j = choose|j: int| top <= j < old_col.len() && old_col[j].is_none();
    assert(top - 1 <= j < old_col.len() && old_col[j].is_none());
}

/// The cell at `top` of a settling column is empty exactly where `bound` is
/// further down.
proof fn lemma_settling_probe(
    old_col: Seq<Option<PuyoType>>,
    cur_col: Seq<Option<PuyoType>>,
    top: int,
    bound: int,
    j: int,
)
    requires
        settling(old_col, cur_col, top, bound),
        top <= j < old_col.len(),
    ensures
        cur_col[j].is_none() == (j < bound),
{
    lemma_puyos_below(old_col, top);
    if j >= bound {
        assert(cur_col[j] == puyos_below(old_col, top)[j - bound]);
    }
}

/// A column that has settled from its first row is the settled column.
proof fn lemma_settling_done(
    old_col: Seq<Option<PuyoType>>,
    cur_col: Seq<Option<PuyoType>>,
    bound: int,
)
    requires
        settling(old_col, cur_col, 0, bound),
    ensures
        cur_col =~= settled_column(old_col),
{
}

/// A puyo hangs from row `top - 1` or below exactly where one hangs from
/// `top` or below, or the cell at `top - 1` holds a puyo and an empty cell
/// lies beneath it.
proof fn lemma_hangs_step(g: Grid, c: int, cur_col: Seq<Option<PuyoType>>, top: int, bound: int)
    requires
        settling(column(g, c), cur_col, top, bound),
        top > 0,
        forall|r: int| 0 <= r < g.len() ==> 0 <= c < (#[trigger] g[r]).len(),
    ensures
        hangs_from(g, top - 1, c) == (hangs_from(g, top, c) || (g[top - 1][c].is_some() && bound
            > top)),
{
    let col = column(g, c);
    if hangs_from(g, top, c) {
        let (r, below) = choose|r: int, below: int| top <= r && hangs(g, r, below, c);
        assert(top - 1 <= r && hangs(g, r, below, c));
    }
    if g[top - 1][c].is_some() && bound > top {
        let j = choose|j: int| top <= j < col.len() && col[j].is_none();
        assert(hangs(g, top - 1, j, c));
    }
    if hangs_from(g, top - 1, c) {
        let (r, below) = choose|r: int, below: int| top - 1 <= r && hangs(g, r, below, c);
        if r >= top {
            assert(top <= r && hangs(g, r, below, c));
        } else {
            assert(top <= below < col.len() && col[below].is_none());
        }
    }
}

impl Board {
    /// Settles one column, from the row above the floor upward: a puyo with
    /// an empty cell directly below slides down to the lowest empty cell
    /// beneath it. Returns whether a puyo moved.
    fn settle_column(&mut self, col: usize) -> (moved: bool)
        requires
            old(self).wf(),
            col < old(self).width,
        ensures
            final(self).wf(),
            final(self)@ == (BoardView { grid: final(self)@.grid, ..old(self)@ }),
            forall|r: int, k: int|
                0 <= r < old(self).height && 0 <= k < old(self).width && k != col
                    ==> #[trigger] final(self)@.grid[r][k] == old(self)@.grid[r][k],
            column(final(self)@.grid, col as int) == settled_column(
                column(old(self)@.grid, col as int),
            ),
            moved == hangs_from(old(self)@.grid, 0, col as int),
    {
        let ghost g0 = self@.grid;
        let ghost old_col = column(g0, col as int);
        let height = self.height;
        let mut moved = false;
        if height == 0 {
            proof {
                assert(column(self@.grid, col as int) =~= settled_column(old_col));
            }
            return false;
        }
        let mut row: usize = height - 1;
        let ghost mut bound: int = if g0[height - 1][col as int].is_some() {
            height - 1
        } else {
            height as int
        };
        proof {
            lemma_settling_start(old_col);
            assert(column(self@.grid, col as int) =~= old_col);
        }
        while row > 0
            invariant
                self.wf(),
                self.height == height,
                self.width == old(self).width,
                col < self.width,
                self@ == (BoardView { grid: self@.grid, ..old(self)@ }),
                g0 == old(self)@.grid,
                g0.len() == height,
                forall|r: int| 0 <= r < height ==> (#[trigger] g0[r]).len() == self.width,
                old_col == column(g0, col as int),
                row < height,
                forall|r: int, k: int|
                    0 <= r < height && 0 <= k < self.width && k != col
                        ==> #[trigger] self@.grid[r][k] == g0[r][k],
                settling(old_col, column(self@.grid, col as int), row as int, bound),
                moved == hangs_from(g0, row as int, col as int),
            decreases row,
        {
            let ghost cur_col = column(self@.grid, col as int);
            proof {
                lemma_hangs_step(g0, col as int, cur_col, row as int, bound);
                lemma_settling_probe(old_col, cur_col, row as int, bound, row as int);
                assert(cur_col[row - 1] == old_col[row - 1]);
            }
            row -= 1;
            let x = self.cell(row, col);
            if x.is_some() && self.cell(row + 1, col).is_none() {
                let mut drop_row = row;
                while drop_row + 1 < height && self.cell(drop_row + 1, col).is_none()
                    invariant
                        self.wf(),
                        self.height == height,
                        col < self.width,
                        row <= drop_row < bound <= height,
                        cur_col == column(self@.grid, col as int),
                        settling(old_col, cur_col, row + 1, bound),
                    decreases height - drop_row,
                {
                    proof {
                        lemma_settling_probe(old_col, cur_col, row + 1, bound, drop_row + 1);
                    }
                    drop_row += 1;
                }
                proof {
                    if drop_row + 1 < height {
                        lemma_settling_probe(old_col, cur_col, row + 1, bound, drop_row + 1);
                    }
                    assert(drop_row + 1 == bound);
                }
                self.set_cell(row, col, None);
                self.set_cell(drop_row, col, x);
                moved = true;
                proof {
                    let next_col = column(self@.grid, col as int);
                    assert(next_col =~= cur_col.update(row as int, None).update(
                        bound - 1,
                        cur_col[row as int],
                    ));
                    lemma_settling_moves(old_col, cur_col, next_col, row + 1, bound);
                    bound = bound - 1;
                }
            } else {
                proof {
                    lemma_settling_keeps(old_col, cur_col, row + 1, bound);
                    if x.is_some() {
                        bound = row as int;
                    }
                }
            }
        }
        proof {
            lemma_settling_done(old_col, column(self@.grid, col as int), bound);
        }
        moved
    }

    /// Board gravity: settles every column, left to right. Afterwards each
    /// column holds its puyos in their old order at the bottom and nothing
    /// above them. Returns whether any puyo moved, which is the case exactly
    /// where some puyo had an empty cell beneath it.
    pub fn apply_board_gravity(&mut self) -> (moved: bool)
        requires
            old(self).wf(),
        ensures
            final(self).wf(),
            final(self)@ == old(self)@.fallen(),
            moved == floating(old(self)@.grid),
    {
        let ghost g0 = self@.grid;
        let width = self.width;
        let mut moved = false;
        let mut col: usize = 0;
        while col < width
            invariant
                self.wf(),
                self.width == width,
                self.height == old(self).height,
                self@ == (BoardView { grid: self@.grid, ..old(self)@ }),
                g0 == old(self)@.grid,
                g0.len() == self.height,
                forall|r: int| 0 <= r < self.height ==> (#[trigger] g0[r]).len() == width,
                col <= width,
                forall|r: int, k: int|
                    0 <= r < self.height && 0 <= k < col ==> #[trigger] self@.grid[r][k]
                        == settled_column(column(g0, k))[r],
                forall|r: int, k: int|
                    0 <= r < self.height && col <= k < width ==> #[trigger] self@.grid[r][k]
                        == g0[r][k],
                moved == floating_before(g0, col as int),
            decreases width - col,
        {
            let ghost g1 = self@.grid;
            let column_moved = self.settle_column(col);
            proof {
                assert(column(g1, col as int) =~= column(g0, col as int));
                assert(hangs_from(g1, 0, col as int) == hangs_from(g0, 0, col as int)) by {
                    if hangs_from(g1, 0, col as int) {
                        let (r, below) = choose|r: int, below: int|
                            0 <= r && hangs(g1, r, below, col as int);
                        assert(0 <= r && hangs(g0, r, below, col as int));
                    }
                    if hangs_from(g0, 0, col as int) {
                        let (r, below) = choose|r: int, below: int|
                            0 <= r && hangs(g0, r, below, col as int);
                        assert(0 <= r && hangs(g1, r, below, col as int));
                    }
                }
                assert(floating_before(g0, col + 1) == (floating_before(g0, col as int)
                    || hangs_from(g0, 0, col as int))) by {
                    if floating_before(g0, col + 1) {
                        let (r, below, k) = choose|r: int, below: int, k: int|
                            k < col + 1 && hangs(g0, r, below, k);
                        if k < col {
                            assert(k < col && hangs(g0, r, below, k));
                        } else {
                            assert(0 <= r && hangs(g0, r, below, col as int));
                        }
                    }
                    if floating_before(g0, col as int) {
                        let (r, below, k) = choose|r: int, below: int, k: int|
                            k < col && hangs(g0, r, below, k);
                        assert(k < col + 1 && hangs(g0, r, below, k));
                    }
                    if hangs_from(g0, 0, col as int) {
                        let (r, below) = choose|r: int, below: int|
                            0 <= r && hangs(g0, r, below, col as int);
                        assert(col < col + 1 && hangs(g0, r, below, col as int));
                    }
                }
                assert forall|r: int, k: int|
                    0 <= r < self.height && 0 <= k < col + 1 implies #[trigger] self@.grid[r][k]
                    == settled_column(column(g0, k))[r] by {
                    if k < col {
                        assert(self@.grid[r][k] == g1[r][k]);
                    } else {
                        assert(column(self@.grid, col as int)[r] == self@.grid[r][k]);
                    }
                }
                assert forall|r: int, k: int|
                    0 <= r < self.height && col + 1 <= k < width implies #[trigger] self@.grid[r][k]
                    == g0[r][k] by {
                    assert(self@.grid[r][k] == g1[r][k]);
                }
            }
            if column_moved {
                moved = true;
            }
            col += 1;
        }
        proof {
            assert(self@.grid =~= settled(g0)) by {
                assert forall|r: int| 0 <= r < self.height implies #[trigger] self@.grid[r]
                    =~= settled(g0)[r] by {
                    assert(self@.grid[r].len() == width);
                    assert forall|k: int| 0 <= k < width implies self@.grid[r][k] == settled(
                        g0,
                    )[r][k] by {}
                }
            }
            assert(floating_before(g0, width as int) == floating(g0)) by {
                if floating(g0) {
                    let (r, below, k) = choose|r: int, below: int, k: int| hangs(g0, r, below, k);
                    assert(k < width && hangs(g0, r, below, k));
                }
                if floating_before(g0, width as int) {
                    let (r, below, k) = choose|r: int, below: int, k: int|
                        k < width && hangs(g0, r, below, k);
                    assert(hangs(g0, r, below, k));
                }
            }
        }
        moved
    }
}

/// Every row of the grid has `width` cells.
pub open spec fn rectangular(g: Grid, width: nat) -> bool {
    forall|r: int| 0 <= r < g.len() ==> (#[trigger] g[r]).len() == width
}

/// No puyo of the column has an empty cell anywhere beneath it.
spec fn stacked(col: Seq<Option<PuyoType>>) -> bool {
    forall|r: int, below: int| 0 <= r < below < col.len() && col[r].is_some() ==> col[below].is_some()
}

/// In a stacked column the puyos from `from` down are the cells at the end
/// of the column, and the cells between `from` and them are empty.
proof fn lemma_stacked_column(col: Seq<Option<PuyoType>>, from: int)
    requires
        stacked(col),
        0 <= from <= col.len(),
    ensures
        puyos_below(col, from).len() <= col.len() - from,
        forall|j: int| from <= j < col.len() - puyos_below(col, from).len() ==> col[j].is_none(),
        forall|j: int|
            col.len() - puyos_below(col, from).len() <= j < col.len() ==> col[j] == puyos_below(
                col,
                from,
            )[j - (col.len() - puyos_below(col, from).len())],
    decreases col.len() - from,
{
    if from < col.len() {
        lemma_stacked_column(col, from + 1);
        let rest = puyos_below(col, from + 1);
        if col[from].is_some() {
            assert(puyos_below(col, from) =~= seq![col[from]] + rest);
            if rest.len() < col.len() - from - 1 {
                assert(col[from + 1].is_none());
            }
        }
    }
}

/// A stacked column stays as it is when it settles.
proof fn lemma_stacked_column_settled(col: Seq<Option<PuyoType>>)
    requires
        stacked(col),
    ensures
        settled_column(col) =~= col,
{
    lemma_stacked_column(col, 0);
}

/// A settled column is stacked.
proof fn lemma_settled_column_stacked(col: Seq<Option<PuyoType>>)
    ensures
        stacked(settled_column(col)),
        settled_column(col).len() == col.len(),
{
    lemma_puyos_below(col, 0);
}

/// Gravity leaves a grid in which nothing floats as it is.
pub proof fn lemma_settled_grid_stays(g: Grid, width: nat)
    requires
        rectangular(g, width),
        !floating(g),
    ensures
        settled(g) == g,
{
    assert forall|r: int| 0 <= r < g.len() implies #[trigger] settled(g)[r] =~= g[r] by {
        assert forall|c: int| 0 <= c < g[r].len() implies settled(g)[r][c] == g[r][c] by {
            let col = column(g, c);
            assert(stacked(col)) by {
                assert forall|x: int, below: int|
                    0 <= x < below < col.len() && col[x].is_some() implies col[below].is_some() by {
                    assert(g[x].len() == width);
                    assert(!hangs(g, x, below, c));
                }
            }
            lemma_stacked_column_settled(col);
        }
    }
    assert(settled(g) =~= g);
}

/// After gravity nothing floats.
pub proof fn lemma_settled_grid_rests(g: Grid, width: nat)
    requires
        rectangular(g, width),
    ensures
        rectangular(settled(g), width),
        settled(g).len() == g.len(),
        !floating(settled(g)),
{
    let s = settled(g);
    assert forall|r: int, below: int, c: int| !hangs(s, r, below, c) by {
        if hangs(s, r, below, c) {
            let col = column(g, c);
            lemma_settled_column_stacked(col);
            assert(s[r][c] == settled_column(col)[r]);
            assert(s[below][c] == settled_column(col)[below]);
        }
    }
}

/// Gravity is idempotent: a second pass right after the first moves nothing
/// and changes nothing.
pub proof fn lemma_gravity_idempotent(g: Grid, width: nat)
    requires
        rectangular(g, width),
    ensures
        !floating(settled(g)),
        settled(settled(g)) == settled(g),
{
    lemma_settled_grid_rests(g, width);
    lemma_settled_grid_stays(settled(g), width);
}

/// In a grid where no puyo has an empty cell directly below it, nothing
/// floats: gravity reports no movement and changes nothing.
pub proof fn lemma_supported_grid_rests(g: Grid, width: nat)
    requires
        rectangular(g, width),
        forall|r: int, c: int|
            0 <= r && r + 1 < g.len() && 0 <= c < width && (#[trigger] g[r][c]).is_some() ==> g[r
                + 1][c].is_some(),
    ensures
        !floating(g),
        settled(g) == g,
{
    assert forall|r: int, below: int, c: int| !hangs(g, r, below, c) by {
        if hangs(g, r, below, c) {
            lemma_support_reaches(g, width, r, below, c);
        }
    }
    lemma_settled_grid_stays(g, width);
}

proof fn lemma_support_reaches(g: Grid, width: nat, r: int, below: int, c: int)
    requires
        rectangular(g, width),
        forall|r: int, c: int|
            0 <= r && r + 1 < g.len() && 0 <= c < width && (#[trigger] g[r][c]).is_some() ==> g[r
                + 1][c].is_some(),
        0 <= r <= below < g.len(),
        0 <= c < width,
        g[r][c].is_some(),
    ensures
        g[below][c].is_some(),
    decreases below - r,
{
    if r < below {
        assert(g[r + 1][c].is_some());
        lemma_support_reaches(g, width, r + 1, below, c);
    }
}

/// Number of puyos in the first `c` columns of the grid.
pub open spec fn puyos_in_columns(g: Grid, c: int) -> nat
    decreases c,
{
    if c <= 0 {
        0
    } else {
        puyos_in_columns(g, c - 1) + puyos_below(column(g, c - 1), 0).len()
    }
}

/// Number of puyos in a grid of the given width.
pub open spec fn puyo_count(g: Grid, width: nat) -> nat {
    puyos_in_columns(g, width as int)
}

/// A settled column holds the puyos it held before.
proof fn lemma_settled_column_puyos(col: Seq<Option<PuyoType>>)
    ensures
        puyos_below(settled_column(col), 0).len() == puyos_below(col, 0).len(),
{
    let s = settled_column(col);
    lemma_puyos_below(col, 0);
    lemma_puyos_below(s, 0);
    lemma_settled_column_stacked(col);
    lemma_stacked_column(s, 0);
    let n = puyos_below(col, 0).len() as int;
    let m = puyos_below(s, 0).len() as int;
    let len = col.len() as int;
    if m < n {
        assert(s[len - n] == puyos_below(col, 0)[0]);
        assert(s[len - n].is_none());
    }
    if m > n {
        assert(s[len - m] == puyos_below(s, 0)[0]);
        assert(s[len - m].is_none());
    }
}

/// Gravity moves puyos; it neither adds nor removes one.
pub proof fn lemma_gravity_keeps_count(g: Grid, width: nat)
    requires
        rectangular(g, width),
    ensures
        puyo_count(settled(g), width) == puyo_count(g, width),
{
    lemma_gravity_keeps_columns(g, width, width as int);
}

proof fn lemma_gravity_keeps_columns(g: Grid, width: nat, c: int)
    requires
        rectangular(g, width),
        0 <= c <= width,
    ensures
        puyos_in_columns(settled(g), c) == puyos_in_columns(g, c),
    decreases c,
{
    if c > 0 {
        lemma_gravity_keeps_columns(g, width, c - 1);
        lemma_settled_column_puyos(column(g, c - 1));
        assert(column(settled(g), c - 1) =~= settled_column(column(g, c - 1)));
    }
}

/// A column from which cells were emptied holds no more puyos than before,
/// and fewer where a puyo was emptied at `from` or below.
pub proof fn lemma_thinned_column(
    col: Seq<Option<PuyoType>>,
    thin: Seq<Option<PuyoType>>,
    from: int,
)
    requires
        thin.len() == col.len(),
        forall|j: int| 0 <= j < col.len() ==> thin[j] == col[j] || thin[j].is_none(),
        0 <= from <= col.len(),
    ensures
        puyos_below(thin, from).len() <= puyos_below(col, from).len(),
        (exists|j: int| from <= j < col.len() && col[j].is_some() && thin[j].is_none())
            ==> puyos_below(thin, from).len() < puyos_below(col, from).len(),
    decreases col.len() - from,
{
    if from < col.len() {
        lemma_thinned_column(col, thin, from + 1);
        if exists|j: int| from <= j < col.len() && col[j].is_some() && thin[j].is_none() {
            let j = choose|j: int| from <= j < col.len() && col[j].is_some() && thin[j].is_none();
            if j > from {
                assert(from + 1 <= j < col.len() && col[j].is_some() && thin[j].is_none());
            }
        }
    }
}

/// A grid from which cells were emptied, a puyo among them, holds fewer
/// puyos than before.
pub proof fn lemma_thinned_grid(g: Grid, thin: Grid, width: nat, r: int, c: int)
    requires
        rectangular(g, width),
        rectangular(thin, width),
        thin.len() == g.len(),
        forall|i: int, j: int|
            0 <= i < g.len() && 0 <= j < width ==> #[trigger] thin[i][j] == g[i][j]
                || thin[i][j].is_none(),
        0 <= r < g.len(),
        0 <= c < width,
        g[r][c].is_some(),
        thin[r][c].is_none(),
    ensures
        puyo_count(thin, width) < puyo_count(g, width),
{
    lemma_thinned_columns(g, thin, width, r, c, width as int);
}

proof fn lemma_thinned_columns(g: Grid, thin: Grid, width: nat, r: int, c: int, upto: int)
    requires
        rectangular(g, width),
        rectangular(thin, width),
        thin.len() == g.len(),
        forall|i: int, j: int|
            0 <= i < g.len() && 0 <= j < width ==> #[trigger] thin[i][j] == g[i][j]
                || thin[i][j].is_none(),
        0 <= r < g.len(),
        0 <= c < width,
        g[r][c].is_some(),
        thin[r][c].is_none(),
        0 <= upto <= width,
    ensures
        puyos_in_columns(thin, upto) <= puyos_in_columns(g, upto),
        upto > c ==> puyos_in_columns(thin, upto) < puyos_in_columns(g, upto),
    decreases upto,
{
    if upto > 0 {
        lemma_thinned_columns(g, thin, width, r, c, upto - 1);
        let k = upto - 1;
        let col = column(g, k);
        let thin_col = column(thin, k);
        assert forall|j: int| 0 <= j < col.len() implies thin_col[j] == col[j]
            || thin_col[j].is_none() by {
            assert(thin[j][k] == g[j][k] || thin[j][k].is_none());
        }
        lemma_thinned_column(col, thin_col, 0);
        if k == c {
            assert(0 <= r < col.len() && col[r].is_some() && thin_col[r].is_none());
        }
    }
}

} // verus!
