//! Match detection: which groups clear, what a round of clears is worth, and
//! the scan that finds, scores and removes them.

use crate::board::{Board, BoardView, Grid};
use crate::gravity::{lemma_thinned_grid, puyo_count, rectangular};
use crate::groups::{
    cell_of, color_at, connected, group_of, in_group, lemma_closed_set_holds_group,
    lemma_connected_one_color, lemma_connected_reflexive, lemma_connected_symmetric,
    lemma_connected_transitive, lemma_groups_partition, marked, marks_fit, whole_groups,
};
use crate::palette::{PuyoType, PALETTE_SIZE};
use crate::rules::{clip_u32, VISIBLE_ROW_OFFSET};
use crate::scoring::{group_bonus, group_bonus_sum, MIN_GROUP_SIZE};
use vstd::prelude::*;

verus! {

/// The puyo at cell `a` clears: its group has at least four cells, and at
/// least one of them lies in a visible row.
pub open spec fn clears(g: Grid, a: (int, int)) -> bool {
    &&& color_at(g, a).is_some()
    &&& group_of(g, a).len() >= MIN_GROUP_SIZE
    &&& exists|b: (int, int)| #[trigger] connected(g, a, b) && b.0 >= VISIBLE_ROW_OFFSET
}

/// Some puyo of the grid clears.
pub open spec fn any_clears(g: Grid) -> bool {
    exists|a: (int, int)| #[trigger] clears(g, a)
}

/// The cells whose puyos clear.
pub open spec fn cleared_cells(g: Grid) -> Set<(int, int)> {
    Set::new(|a: (int, int)| clears(g, a))
}

/// The grid after one round of clears: every clearing puyo removed at once.
pub open spec fn cleared(g: Grid) -> Grid {
    Seq::new(
        g.len(),
        |r: int|
            Seq::new(
                g[r].len(),
                |c: int|
                    if clears(g, (r, c)) {
                        None
                    } else {
                        g[r][c]
                    },
            ),
    )
}

/// Some clearing puyo has colour `t`.
pub open spec fn color_clears(g: Grid, t: PuyoType) -> bool {
    exists|a: (int, int)| #[trigger] clears(g, a) && color_at(g, a) == Some(t)
}

/// 1 where some clearing puyo has colour `t`, else 0.
pub open spec fn color_tally(g: Grid, t: PuyoType) -> nat {
    if color_clears(g, t) {
        1
    } else {
        0
    }
}

/// Number of distinct colours among the clearing puyos.
pub open spec fn unique_colors(g: Grid) -> nat {
    color_tally(g, PuyoType::Red) + color_tally(g, PuyoType::Blue) + color_tally(g, PuyoType::Yellow)
        + color_tally(g, PuyoType::Green) + color_tally(g, PuyoType::Purple)
}

/// Cell `a` comes before the position (r, c) when the grid is read row by
/// row from the top, each row from the left.
pub open spec fn precedes(a: (int, int), r: int, c: int) -> bool {
    a.0 < r || (a.0 == r && a.1 < c)
}

/// Cell `a` is the first cell of its group in reading order. Each group has
/// one such cell, which stands for the group where groups are counted.
pub open spec fn is_leader(g: Grid, a: (int, int)) -> bool {
    &&& color_at(g, a).is_some()
    &&& forall|b: (int, int)| #[trigger] connected(g, a, b) ==> !precedes(b, a.0, a.1)
}

/// The group bonus that cell `a` adds to a round: that of its group where `a`
/// is the group's first cell and the group clears, nothing otherwise.
pub open spec fn leader_bonus(g: Grid, a: (int, int)) -> nat {
    if is_leader(g, a) && clears(g, a) {
        group_bonus(group_of(g, a).len())
    } else {
        0
    }
}

/// Group bonuses of the clearing groups whose first cell is among the first
/// `c` cells of row `r`.
pub open spec fn row_bonus(g: Grid, r: int, c: int) -> nat
    decreases c,
{
    if c <= 0 {
        0
    } else {
        row_bonus(g, r, c - 1) + leader_bonus(g, (r, c - 1))
    }
}

/// Group bonuses of the clearing groups whose first cell is in the first `r`
/// rows.
pub open spec fn grid_bonus(g: Grid, r: int) -> nat
    decreases r,
{
    if r <= 0 {
        0
    } else {
        grid_bonus(g, r - 1) + row_bonus(g, r - 1, g[r - 1].len() as int)
    }
}

/// Sum of the group bonuses of all clearing groups.
pub open spec fn group_bonus_total(g: Grid) -> nat {
    grid_bonus(g, g.len() as int)
}

impl BoardView {
    /// The board after match detection. Where nothing clears, it is
    /// unchanged. Otherwise the chain count goes up by one (stopping at the
    /// largest `u32`), the round is scored at the new chain count, and every
    /// clearing puyo leaves the grid.
    pub open spec fn matched(self) -> BoardView {
        if !any_clears(self.grid) {
            self
        } else {
            BoardView {
                grid: cleared(self.grid),
                ..BoardView { chain_count: clip_u32(self.chain_count + 1), ..self }.scored(
                    unique_colors(self.grid),
                    cleared_cells(self.grid).len(),
                    group_bonus_total(self.grid),
                )
            }
        }
    }
}

/// Cells of one group clear together or not at all.
pub proof fn lemma_group_clears_together(g: Grid, a: (int, int), b: (int, int))
    requires
        connected(g, a, b),
    ensures
        clears(g, a) == clears(g, b),
{
    lemma_connected_one_color(g, a, b);
    lemma_connected_reflexive(g, b);
    lemma_connected_symmetric(g, a, b);
    lemma_groups_partition(g, a, b, b);
    if clears(g, a) {
        let x = choose|x: (int, int)| #[trigger] connected(g, a, x) && x.0 >= VISIBLE_ROW_OFFSET;
        lemma_connected_transitive(g, b, a, x);
    }
    if clears(g, b) {
        let x = choose|x: (int, int)| #[trigger] connected(g, b, x) && x.0 >= VISIBLE_ROW_OFFSET;
        lemma_connected_transitive(g, a, b, x);
    }
}

/// A list of distinct cells names as many cells as it is long.
proof fn lemma_listed_cells(list: Seq<(usize, usize)>, s: Set<(int, int)>)
    requires
        list.no_duplicates(),
        forall|a: (int, int)| #[trigger] s.contains(a) <==> in_group(list, a),
    ensures
        s.finite(),
        s.len() == list.len(),
{
    let cells = list.map_values(|p: (usize, usize)| cell_of(p));
    assert(cells.no_duplicates()) by {
        assert forall|i: int, j: int|
            0 <= i < cells.len() && 0 <= j < cells.len() && i != j implies cells[i] != cells[j] by {
            assert(list[i] != list[j]);
        }
    }
    assert(cells.to_set() =~= s) by {
        assert forall|a: (int, int)| cells.to_set().contains(a) <==> s.contains(a) by {
            if cells.to_set().contains(a) {
                let i = choose|i: int| 0 <= i < cells.len() && cells[i] == a;
                assert(cell_of(list[i]) == a);
            }
            if in_group(list, a) {
                let i = choose|i: int| 0 <= i < list.len() && cell_of(#[trigger] list[i]) == a;
                assert(cells[i] == a);
            }
        }
    }
    cells.unique_seq_to_set();
    vstd::seq_lib::seq_to_set_is_finite(cells);
}

/// Some marked clearing puyo has colour `t`.
spec fn color_found(g: Grid, v: Seq<Vec<bool>>, t: PuyoType) -> bool {
    exists|a: (int, int)| #[trigger] marked(v, a) && clears(g, a) && color_at(g, a) == Some(t)
}

/// Every marked cell belongs to a group that has a cell before (r, c).
#[verifier::opaque]
spec fn marks_led(g: Grid, v: Seq<Vec<bool>>, r: int, c: int) -> bool {
    forall|a: (int, int)| #[trigger]
        marked(v, a) ==> exists|b: (int, int)| #[trigger] connected(g, b, a) && precedes(b, r, c)
}

/// Every puyo before (r, c) is marked.
#[verifier::opaque]
spec fn rows_done(g: Grid, v: Seq<Vec<bool>>, r: int, c: int) -> bool {
    forall|a: (int, int)| precedes(a, r, c) && (#[trigger] color_at(g, a)).is_some() ==> marked(v, a)
}

/// `list` names the marked clearing cells, each once.
#[verifier::opaque]
spec fn list_ok(g: Grid, width: nat, height: nat, v: Seq<Vec<bool>>, list: Seq<(usize, usize)>) -> bool {
    &&& list.no_duplicates()
    &&& forall|i: int| 0 <= i < list.len() ==> (#[trigger] list[i]).0 < height && list[i].1 < width
    &&& forall|a: (int, int)| #[trigger] in_group(list, a) <==> marked(v, a) && clears(g, a)
}

/// `seen` records, by palette position, the colours of the marked clearing
/// cells.
#[verifier::opaque]
spec fn colors_ok(g: Grid, v: Seq<Vec<bool>>, seen: Seq<bool>) -> bool {
    &&& seen.len() == PALETTE_SIZE
    &&& forall|k: int|
        0 <= k < PALETTE_SIZE ==> #[trigger] seen[k] == color_found(g, v, PuyoType::of_index(k as nat))
}

/// What holds when the scan stands at position (r, c): the marks are whole
/// groups, each begun at a cell before the position; every puyo before the
/// position is marked; `to_remove` lists the marked clearing cells, each
/// once; `seen` records their colours; `sizes` lists the clearing groups
/// whose first cell is before the position.
spec fn scanned(
    g: Grid,
    width: nat,
    height: nat,
    v: Seq<Vec<bool>>,
    to_remove: Seq<(usize, usize)>,
    sizes: Seq<usize>,
    seen: Seq<bool>,
    r: int,
    c: int,
) -> bool {
    &&& marks_fit(v, width, height)
    &&& whole_groups(g, v)
    &&& marks_led(g, v, r, c)
    &&& rows_done(g, v, r, c)
    &&& list_ok(g, width, height, v, to_remove)
    &&& colors_ok(g, v, seen)
    &&& group_bonus_sum(sizes) == grid_bonus(g, r) + row_bonus(g, r, c)
}

/// The marks `after` are the marks `before` and the group of `a`.
#[verifier::opaque]
spec fn grown(g: Grid, before: Seq<Vec<bool>>, after: Seq<Vec<bool>>, a: (int, int)) -> bool {
    forall|x: (int, int)| #[trigger] marked(after, x) <==> marked(before, x) || connected(g, a, x)
}

/// `found` lists the group of `a`, each cell once.
#[verifier::opaque]
spec fn lists_group(g: Grid, width: nat, height: nat, found: Seq<(usize, usize)>, a: (int, int)) -> bool {
    &&& found.no_duplicates()
    &&& forall|i: int| 0 <= i < found.len() ==> (#[trigger] found[i]).0 < height && found[i].1 < width
    &&& forall|x: (int, int)| #[trigger] in_group(found, x) <==> connected(g, a, x)
}

/// Marks for a grid of the given size, none of them set.
fn no_marks(width: usize, height: usize) -> (v: Vec<Vec<bool>>)
    ensures
        marks_fit(v@, width as nat, height as nat),
        forall|a: (int, int)| !marked(v@, a),
{
    let mut v: Vec<Vec<bool>> = Vec::new();
    let mut r: usize = 0;
    while r < height
        invariant
            r <= height,
            v@.len() == r,
            forall|k: int| 0 <= k < r ==> (#[trigger] v@[k])@.len() == width,
            forall|k: int, c: int| 0 <= k < r && 0 <= c < width ==> !(#[trigger] v@[k]@[c]),
        decreases height - r,
    {
        let mut row: Vec<bool> = Vec::new();
        let mut c: usize = 0;
        while c < width
            invariant
                c <= width,
                row@.len() == c,
                forall|k: int| 0 <= k < c ==> !row@[k],
            decreases width - c,
        {
            row.push(false);
            c += 1;
        }
        v.push(row);
        r += 1;
    }
    v
}

/// Whether one of the listed cells lies in a visible row.
fn any_visible(group: &Vec<(usize, usize)>) -> (found: bool)
    ensures
        found == exists|i: int| 0 <= i < group@.len() && (#[trigger] group@[i]).0 >= VISIBLE_ROW_OFFSET,
{
    let mut i: usize = 0;
    while i < group.len()
        invariant
            i <= group@.len(),
            forall|k: int| 0 <= k < i ==> (#[trigger] group@[k]).0 < VISIBLE_ROW_OFFSET,
        decreases group@.len() - i,
    {
        if group[i].0 >= VISIBLE_ROW_OFFSET {
            return true;
        }
        i += 1;
    }
    false
}

/// An unmarked puyo at the scan position is the first cell of its group.
proof fn lemma_unmarked_is_leader(g: Grid, v: Seq<Vec<bool>>, a: (int, int))
    requires
        whole_groups(g, v),
        rows_done(g, v, a.0, a.1),
        color_at(g, a).is_some(),
        !marked(v, a),
    ensures
        is_leader(g, a),
{
    reveal(rows_done);
    assert forall|b: (int, int)| #[trigger] connected(g, a, b) implies !precedes(b, a.0, a.1) by {
        if precedes(b, a.0, a.1) {
            lemma_connected_one_color(g, a, b);
            assert(color_at(g, b).is_some());
            assert(marked(v, b));
            lemma_connected_symmetric(g, a, b);
            lemma_closed_set_holds_group(g, Set::new(|x: (int, int)| marked(v, x)), b, a);
        }
    }
}

/// A marked puyo at the scan position is not the first cell of its group.
proof fn lemma_marked_is_no_leader(g: Grid, v: Seq<Vec<bool>>, a: (int, int))
    requires
        marks_led(g, v, a.0, a.1),
        marked(v, a),
    ensures
        leader_bonus(g, a) == 0,
{
    reveal(marks_led);
    let b = choose|b: (int, int)| #[trigger] connected(g, b, a) && precedes(b, a.0, a.1);
    lemma_connected_symmetric(g, b, a);
}

/// The scan moves past a cell that is empty or marked without a change.
proof fn lemma_scan_passes(
    g: Grid,
    width: nat,
    height: nat,
    v: Seq<Vec<bool>>,
    to_remove: Seq<(usize, usize)>,
    sizes: Seq<usize>,
    seen: Seq<bool>,
    r: int,
    c: int,
)
    requires
        scanned(g, width, height, v, to_remove, sizes, seen, r, c),
        color_at(g, (r, c)).is_none() || marked(v, (r, c)),
    ensures
        scanned(g, width, height, v, to_remove, sizes, seen, r, c + 1),
{
    let a = (r, c);
    if marked(v, a) {
        lemma_marked_is_no_leader(g, v, a);
    }
    assert(leader_bonus(g, a) == 0);
    assert(row_bonus(g, r, c + 1) == row_bonus(g, r, c) + leader_bonus(g, a));
    assert(marks_led(g, v, r, c + 1)) by {
        reveal(marks_led);
        assert forall|x: (int, int)| #[trigger] marked(v, x) implies exists|b: (int, int)| #[trigger]
            connected(g, b, x) && precedes(b, r, c + 1) by {
            let b = choose|b: (int, int)| #[trigger] connected(g, b, x) && precedes(b, r, c);
            assert(connected(g, b, x) && precedes(b, r, c + 1));
        }
    }
    assert(rows_done(g, v, r, c + 1)) by {
        reveal(rows_done);
        assert forall|x: (int, int)|
            precedes(x, r, c + 1) && (#[trigger] color_at(g, x)).is_some() implies marked(v, x) by {
            if x != a {
                assert(precedes(x, r, c));
            }
        }
    }
}

/// What a fill found decides whether its group clears.
proof fn lemma_fill_verdict(
    g: Grid,
    width: nat,
    height: nat,
    found: Seq<(usize, usize)>,
    a: (int, int),
    visible: bool,
)
    requires
        lists_group(g, width, height, found, a),
        color_at(g, a).is_some(),
        visible == exists|i: int| 0 <= i < found.len() && (#[trigger] found[i]).0 >= VISIBLE_ROW_OFFSET,
    ensures
        group_of(g, a).len() == found.len(),
        clears(g, a) == (found.len() >= MIN_GROUP_SIZE && visible),
{
    reveal(lists_group);
    lemma_listed_cells(found, group_of(g, a));
    if visible {
        let i = choose|i: int| 0 <= i < found.len() && (#[trigger] found[i]).0 >= VISIBLE_ROW_OFFSET;
        assert(in_group(found, cell_of(found[i])));
        assert(connected(g, a, cell_of(found[i])));
    }
    if exists|b: (int, int)| #[trigger] connected(g, a, b) && b.0 >= VISIBLE_ROW_OFFSET {
        let b = choose|b: (int, int)| #[trigger] connected(g, a, b) && b.0 >= VISIBLE_ROW_OFFSET;
        assert(in_group(found, b));
        let i = choose|i: int| 0 <= i < found.len() && cell_of(#[trigger] found[i]) == b;
        assert(found[i].0 >= VISIBLE_ROW_OFFSET);
    }
}

/// After the group of the cell at (r, c) has been marked, the marks are
/// still led by cells before the next position, and the rows are done up to
/// it.
proof fn lemma_marks_advance(g: Grid, v0: Seq<Vec<bool>>, v1: Seq<Vec<bool>>, r: int, c: int)
    requires
        marks_led(g, v0, r, c),
        rows_done(g, v0, r, c),
        grown(g, v0, v1, (r, c)),
        color_at(g, (r, c)).is_some(),
    ensures
        marks_led(g, v1, r, c + 1),
        rows_done(g, v1, r, c + 1),
{
    reveal(marks_led);
    reveal(rows_done);
    reveal(grown);
    let a = (r, c);
    lemma_connected_reflexive(g, a);
    assert forall|x: (int, int)| #[trigger] marked(v1, x) implies exists|b: (int, int)| #[trigger]
        connected(g, b, x) && precedes(b, r, c + 1) by {
        if marked(v0, x) {
            let b = choose|b: (int, int)| #[trigger] connected(g, b, x) && precedes(b, r, c);
            assert(connected(g, b, x) && precedes(b, r, c + 1));
        } else {
            assert(connected(g, a, x) && precedes(a, r, c + 1));
        }
    }
    assert forall|x: (int, int)|
        precedes(x, r, c + 1) && (#[trigger] color_at(g, x)).is_some() implies marked(v1, x) by {
        if x != a {
            assert(precedes(x, r, c));
            assert(marked(v0, x));
        }
    }
}

/// A group that does not clear leaves the list and the colours as they are.
proof fn lemma_group_kept(
    g: Grid,
    width: nat,
    height: nat,
    v0: Seq<Vec<bool>>,
    v1: Seq<Vec<bool>>,
    list: Seq<(usize, usize)>,
    seen: Seq<bool>,
    a: (int, int),
)
    requires
        list_ok(g, width, height, v0, list),
        colors_ok(g, v0, seen),
        grown(g, v0, v1, a),
        !clears(g, a),
    ensures
        list_ok(g, width, height, v1, list),
        colors_ok(g, v1, seen),
{
    reveal(list_ok);
    reveal(colors_ok);
    reveal(grown);
    assert forall|x: (int, int)| marked(v1, x) && clears(g, x) implies marked(v0, x) by {
        if !marked(v0, x) {
            lemma_group_clears_together(g, a, x);
        }
    }
    assert forall|x: (int, int)| #[trigger] in_group(list, x) <==> marked(v1, x) && clears(g, x) by {
        if in_group(list, x) {
            assert(marked(v0, x));
        }
    }
    assert forall|k: int| 0 <= k < PALETTE_SIZE implies #[trigger] seen[k] == color_found(
        g,
        v1,
        PuyoType::of_index(k as nat),
    ) by {
        let tk = PuyoType::of_index(k as nat);
        if color_found(g, v0, tk) {
            let x = choose|x: (int, int)| #[trigger]
                marked(v0, x) && clears(g, x) && color_at(g, x) == Some(tk);
            assert(marked(v1, x));
        }
        if color_found(g, v1, tk) {
            let x = choose|x: (int, int)| #[trigger]
                marked(v1, x) && clears(g, x) && color_at(g, x) == Some(tk);
            assert(marked(v0, x));
        }
    }
}

/// A group that clears joins the list.
proof fn lemma_group_listed(
    g: Grid,
    width: nat,
    height: nat,
    v0: Seq<Vec<bool>>,
    v1: Seq<Vec<bool>>,
    list: Seq<(usize, usize)>,
    found: Seq<(usize, usize)>,
    a: (int, int),
)
    requires
        list_ok(g, width, height, v0, list),
        lists_group(g, width, height, found, a),
        grown(g, v0, v1, a),
        !marked(v0, a),
        whole_groups(g, v0),
        clears(g, a),
    ensures
        list_ok(g, width, height, v1, list + found),
{
    reveal(list_ok);
    reveal(lists_group);
    reveal(grown);
    let all = list + found;
    assert forall|x: (int, int)| connected(g, a, x) implies !marked(v0, x) && clears(g, x) by {
        lemma_group_clears_together(g, a, x);
        if marked(v0, x) {
            lemma_connected_symmetric(g, a, x);
            lemma_closed_set_holds_group(g, Set::new(|y: (int, int)| marked(v0, y)), x, a);
        }
    }
    assert forall|i: int, j: int| 0 <= i < list.len() && 0 <= j < found.len() implies list[i]
        != found[j] by {
        assert(in_group(list, cell_of(list[i])));
        assert(in_group(found, cell_of(found[j])));
    }
    vstd::seq_lib::lemma_no_dup_in_concat(list, found);
    assert forall|i: int| 0 <= i < all.len() implies (#[trigger] all[i]).0 < height && all[i].1
        < width by {
        if i < list.len() {
            assert(all[i] == list[i]);
        } else {
            assert(all[i] == found[i - list.len()]);
        }
    }
    assert forall|x: (int, int)| #[trigger] in_group(all, x) <==> marked(v1, x) && clears(g, x) by {
        if in_group(all, x) {
            let i = choose|i: int| 0 <= i < all.len() && cell_of(#[trigger] all[i]) == x;
            if i < list.len() {
                assert(cell_of(list[i]) == x);
                assert(in_group(list, x));
            } else {
                assert(cell_of(found[i - list.len()]) == x);
                assert(in_group(found, x));
            }
        }
        if marked(v1, x) && clears(g, x) {
            if marked(v0, x) {
                assert(in_group(list, x));
                let i = choose|i: int| 0 <= i < list.len() && cell_of(#[trigger] list[i]) == x;
                assert(cell_of(all[i]) == x);
            } else {
                assert(in_group(found, x));
                let i = choose|i: int| 0 <= i < found.len() && cell_of(#[trigger] found[i]) == x;
                assert(cell_of(all[list.len() + i]) == x);
            }
        }
    }
}

/// A group that clears adds its colour to the colours seen.
proof fn lemma_color_seen(
    g: Grid,
    v0: Seq<Vec<bool>>,
    v1: Seq<Vec<bool>>,
    seen: Seq<bool>,
    a: (int, int),
    t: PuyoType,
)
    requires
        colors_ok(g, v0, seen),
        grown(g, v0, v1, a),
        color_at(g, a) == Some(t),
        clears(g, a),
    ensures
        colors_ok(g, v1, seen.update(t.index() as int, true)),
{
    reveal(colors_ok);
    reveal(grown);
    let after = seen.update(t.index() as int, true);
    lemma_connected_reflexive(g, a);
    assert forall|k: int| 0 <= k < PALETTE_SIZE implies #[trigger] after[k] == color_found(
        g,
        v1,
        PuyoType::of_index(k as nat),
    ) by {
        let tk = PuyoType::of_index(k as nat);
        if k == t.index() {
            assert(tk == t);
            assert(marked(v1, a) && clears(g, a) && color_at(g, a) == Some(tk));
        } else {
            assert(tk != t);
            assert(after[k] == seen[k]);
            if color_found(g, v0, tk) {
                let x = choose|x: (int, int)| #[trigger]
                    marked(v0, x) && clears(g, x) && color_at(g, x) == Some(tk);
                assert(marked(v1, x));
            }
            if color_found(g, v1, tk) {
                let x = choose|x: (int, int)| #[trigger]
                    marked(v1, x) && clears(g, x) && color_at(g, x) == Some(tk);
                if !marked(v0, x) {
                    lemma_connected_one_color(g, a, x);
                }
                assert(marked(v0, x));
            }
        }
    }
}

impl Board {
    /// One step of the scan: where the cell (r, c) holds a puyo that is not
    /// marked yet, collects its group and, where the group clears, records
    /// it.
    fn scan_cell(
        &self,
        r: usize,
        c: usize,
        visited: &mut Vec<Vec<bool>>,
        to_remove: &mut Vec<(usize, usize)>,
        group_sizes: &mut Vec<usize>,
        seen: &mut Vec<bool>,
    )
        requires
            self.wf(),
            r < self.height,
            c < self.width,
            scanned(
                self@.grid,
                self@.width,
                self@.height,
                old(visited)@,
                old(to_remove)@,
                old(group_sizes)@,
                old(seen)@,
                r as int,
                c as int,
            ),
        ensures
            scanned(
                self@.grid,
                self@.width,
                self@.height,
                final(visited)@,
                final(to_remove)@,
                final(group_sizes)@,
                final(seen)@,
                r as int,
                c + 1,
            ),
    {
        let ghost g = self@.grid;
        let ghost a = (r as int, c as int);
        let ghost v0 = visited@;
        let ghost list0 = to_remove@;
        let ghost sizes0 = group_sizes@;
        let ghost seen0 = seen@;
        assert(g[r as int] == self.cells@[r as int]@);
        match self.cells[r][c] {
            None => {
                proof {
                    lemma_scan_passes(
                        g,
                        self@.width,
                        self@.height,
                        v0,
                        list0,
                        sizes0,
                        seen0,
                        r as int,
                        c as int,
                    );
                }
            },
            Some(t) => {
                if visited[r][c] {
                    proof {
                        lemma_scan_passes(
                            g,
                            self@.width,
                            self@.height,
                            v0,
                            list0,
                            sizes0,
                            seen0,
                            r as int,
                            c as int,
                        );
                    }
                } else {
                    let mut group = self.flood_fill(r, c, visited);
                    let n = group.len();
                    let visible = any_visible(&group);
                    let ghost found = group@;
                    proof {
                        assert(grown(g, v0, visited@, a)) by {
                            reveal(grown);
                        }
                        assert(lists_group(g, self@.width, self@.height, found, a)) by {
                            reveal(lists_group);
                        }
                        lemma_unmarked_is_leader(g, v0, a);
                        lemma_fill_verdict(g, self@.width, self@.height, found, a, visible);
                        lemma_marks_advance(g, v0, visited@, r as int, c as int);
                        assert(row_bonus(g, r as int, c + 1) == row_bonus(g, r as int, c as int)
                            + leader_bonus(g, a));
                    }
                    if n >= MIN_GROUP_SIZE && visible {
                        let index = t.to_u8() as usize;
                        proof {
                            reveal(colors_ok);
                        }
                        seen[index] = true;
                        group_sizes.push(n);
                        to_remove.append(&mut group);
                        proof {
                            assert(group_sizes@.drop_last() =~= sizes0);
                            assert(seen@ =~= seen0.update(t.index() as int, true));
                            lemma_group_listed(
                                g,
                                self@.width,
                                self@.height,
                                v0,
                                visited@,
                                list0,
                                found,
                                a,
                            );
                            lemma_color_seen(g, v0, visited@, seen0, a, t);
                        }
                    } else {
                        proof {
                            lemma_group_kept(
                                g,
                                self@.width,
                                self@.height,
                                v0,
                                visited@,
                                list0,
                                seen0,
                                a,
                            );
                        }
                    }
                }
            },
        }
    }

    /// Match detection. Scans the grid row by row from the top, collects the
    /// group of each puyo not yet in a group, and takes the groups of four
    /// or more that reach a visible row. Where there is none, returns false
    /// and changes nothing. Otherwise counts one more chain link, scores the
    /// round, empties all cells of these groups at once, and returns true.
    pub fn check_matches(&mut self) -> (matched: bool)
        requires
            old(self).wf(),
        ensures
            final(self).wf(),
            final(self)@ == old(self)@.matched(),
            matched == any_clears(old(self)@.grid),
    {
        let ghost g = self@.grid;
        let height = self.height;
        let width = self.width;
        let mut visited = no_marks(width, height);
        let mut to_remove: Vec<(usize, usize)> = Vec::new();
        let mut group_sizes: Vec<usize> = Vec::new();
        let mut seen: Vec<bool> = Vec::new();
        seen.push(false);
        seen.push(false);
        seen.push(false);
        seen.push(false);
        seen.push(false);
        proof {
            lemma_scan_begins(g, width as nat, height as nat, visited@, seen@);
        }
        let mut r: usize = 0;
        while r < height
            invariant
                self.wf(),
                self@ == old(self)@,
                g == self@.grid,
                height == self.height,
                width == self.width,
                r <= height,
                scanned(
                    g,
                    width as nat,
                    height as nat,
                    visited@,
                    to_remove@,
                    group_sizes@,
                    seen@,
                    r as int,
                    0,
                ),
            decreases height - r,
        {
            let mut c: usize = 0;
            while c < width
                invariant
                    self.wf(),
                    self@ == old(self)@,
                    g == self@.grid,
                    height == self.height,
                    width == self.width,
                    r < height,
                    c <= width,
                    scanned(
                        g,
                        width as nat,
                        height as nat,
                        visited@,
                        to_remove@,
                        group_sizes@,
                        seen@,
                        r as int,
                        c as int,
                    ),
                decreases width - c,
            {
                self.scan_cell(r, c, &mut visited, &mut to_remove, &mut group_sizes, &mut seen);
                c += 1;
            }
            proof {
                lemma_scan_next_row(
                    g,
                    width as nat,
                    height as nat,
                    visited@,
                    to_remove@,
                    group_sizes@,
                    seen@,
                    r as int,
                );
            }
            r += 1;
        }
        proof {
            lemma_scan_complete(
                g,
                width as nat,
                height as nat,
                visited@,
                to_remove@,
                group_sizes@,
                seen@,
            );
        }
        if to_remove.len() == 0 {
            return false;
        }
        if self.chain_count < u32::MAX {
            self.chain_count += 1;
        }
        let mut color_count: usize = 0;
        if seen[0] {
            color_count += 1;
        }
        if seen[1] {
            color_count += 1;
        }
        if seen[2] {
            color_count += 1;
        }
        if seen[3] {
            color_count += 1;
        }
        if seen[4] {
            color_count += 1;
        }
        assert(color_count == unique_colors(g));
        self.calculate_score(color_count, to_remove.len(), &group_sizes);
        let ghost target = old(self)@.matched();
        let mut i: usize = 0;
        while i < to_remove.len()
            invariant
                self.wf(),
                i <= to_remove@.len(),
                self.height == height,
                self.width == width,
                self@ == (BoardView { grid: self@.grid, ..target }),
                forall|k: int|
                    0 <= k < to_remove@.len() ==> (#[trigger] to_remove@[k]).0 < height
                        && to_remove@[k].1 < width,
                g.len() == height,
                forall|row: int| 0 <= row < height ==> (#[trigger] g[row]).len() == width,
                forall|row: int, col: int|
                    0 <= row < height && 0 <= col < width ==> #[trigger] self@.grid[row][col] == (
                    if listed_before(to_remove@, i as int, (row, col)) {
                        None
                    } else {
                        g[row][col]
                    }),
            decreases to_remove@.len() - i,
        {
            let (row, col) = to_remove[i];
            let ghost grid0 = self@.grid;
            self.set_cell(row, col, None);
            proof {
                assert forall|x: int, y: int|
                    0 <= x < height && 0 <= y < width implies #[trigger] self@.grid[x][y] == (
                if listed_before(to_remove@, i + 1, (x, y)) {
                    None
                } else {
                    g[x][y]
                }) by {
                    assert(grid0[x][y] == (if listed_before(to_remove@, i as int, (x, y)) {
                        None
                    } else {
                        g[x][y]
                    }));
                    if x == row && y == col {
                        assert(cell_of(to_remove@[i as int]) == (x, y));
                    } else {
                        if listed_before(to_remove@, i + 1, (x, y)) {
                            let j = choose|j: int|
                                0 <= j < i + 1 && cell_of(#[trigger] to_remove@[j]) == (x, y);
                            assert(j < i);
                        }
                    }
                }
            }
            i += 1;
        }
        proof {
            assert(self@.grid =~= cleared(g)) by {
                assert forall|x: int| 0 <= x < height implies #[trigger] self@.grid[x] =~= cleared(
                    g,
                )[x] by {
                    assert(self@.grid[x].len() == width);
                    assert forall|y: int| 0 <= y < width implies self@.grid[x][y] == cleared(
                        g,
                    )[x][y] by {
                        assert(listed_before(to_remove@, to_remove@.len() as int, (x, y))
                            == in_group(to_remove@, (x, y)));
                    }
                }
            }
        }
        true
    }
}

/// Cell `a` is among the first `i` cells of the list.
spec fn listed_before(list: Seq<(usize, usize)>, i: int, a: (int, int)) -> bool {
    exists|j: int| 0 <= j < i && cell_of(#[trigger] list[j]) == a
}

/// At the start of a scan nothing is marked, listed or seen.
proof fn lemma_scan_begins(g: Grid, width: nat, height: nat, v: Seq<Vec<bool>>, seen: Seq<bool>)
    requires
        marks_fit(v, width, height),
        forall|a: (int, int)| !marked(v, a),
        seen =~= seq![false, false, false, false, false],
    ensures
        scanned(g, width, height, v, Seq::empty(), Seq::empty(), seen, 0, 0),
{
    reveal(marks_led);
    reveal(rows_done);
    reveal(list_ok);
    reveal(colors_ok);
    let list = Seq::<(usize, usize)>::empty();
    assert forall|a: (int, int)| !in_group(list, a) by {}
}

/// At the end of a row the scan stands at the start of the next.
proof fn lemma_scan_next_row(
    g: Grid,
    width: nat,
    height: nat,
    v: Seq<Vec<bool>>,
    to_remove: Seq<(usize, usize)>,
    sizes: Seq<usize>,
    seen: Seq<bool>,
    r: int,
)
    requires
        0 <= r < height,
        g.len() == height,
        forall|k: int| 0 <= k < height ==> (#[trigger] g[k]).len() == width,
        scanned(g, width, height, v, to_remove, sizes, seen, r, width as int),
    ensures
        scanned(g, width, height, v, to_remove, sizes, seen, r + 1, 0),
{
    assert(marks_led(g, v, r + 1, 0)) by {
        reveal(marks_led);
        assert forall|x: (int, int)| #[trigger] marked(v, x) implies exists|b: (int, int)| #[trigger]
            connected(g, b, x) && precedes(b, r + 1, 0) by {
            let b = choose|b: (int, int)| #[trigger]
                connected(g, b, x) && precedes(b, r, width as int);
            assert(connected(g, b, x) && precedes(b, r + 1, 0));
        }
    }
    assert(rows_done(g, v, r + 1, 0)) by {
        reveal(rows_done);
        assert forall|x: (int, int)|
            precedes(x, r + 1, 0) && (#[trigger] color_at(g, x)).is_some() implies marked(v, x) by {
            assert(g[x.0].len() == width);
            assert(precedes(x, r, width as int));
        }
    }
    assert(g[r].len() == width);
    assert(grid_bonus(g, r + 1) == grid_bonus(g, r) + row_bonus(g, r, width as int));
    assert(row_bonus(g, r + 1, 0) == 0);
}

/// When the scan has passed the last row, the list holds exactly the
/// clearing cells, `seen` their colours, and `sizes` the clearing groups.
proof fn lemma_scan_complete(
    g: Grid,
    width: nat,
    height: nat,
    v: Seq<Vec<bool>>,
    to_remove: Seq<(usize, usize)>,
    sizes: Seq<usize>,
    seen: Seq<bool>,
)
    requires
        g.len() == height,
        forall|k: int| 0 <= k < height ==> (#[trigger] g[k]).len() == width,
        scanned(g, width, height, v, to_remove, sizes, seen, height as int, 0),
    ensures
        forall|a: (int, int)| #[trigger] in_group(to_remove, a) <==> clears(g, a),
        forall|i: int|
            0 <= i < to_remove.len() ==> (#[trigger] to_remove[i]).0 < height && to_remove[i].1 < width,
        to_remove.len() == cleared_cells(g).len(),
        (to_remove.len() == 0) == !any_clears(g),
        seen.len() == PALETTE_SIZE,
        seen[0] == color_clears(g, PuyoType::Red),
        seen[1] == color_clears(g, PuyoType::Blue),
        seen[2] == color_clears(g, PuyoType::Yellow),
        seen[3] == color_clears(g, PuyoType::Green),
        seen[4] == color_clears(g, PuyoType::Purple),
        group_bonus_sum(sizes) == group_bonus_total(g),
{
    reveal(rows_done);
    reveal(list_ok);
    reveal(colors_ok);
    assert forall|a: (int, int)| clears(g, a) implies marked(v, a) by {
        assert(color_at(g, a).is_some());
        assert(precedes(a, height as int, 0));
    }
    assert forall|a: (int, int)| #[trigger] in_group(to_remove, a) <==> clears(g, a) by {}
    lemma_listed_cells(to_remove, cleared_cells(g));
    if to_remove.len() > 0 {
        assert(in_group(to_remove, cell_of(to_remove[0])));
        assert(clears(g, cell_of(to_remove[0])));
    }
    if any_clears(g) {
        let a = choose|a: (int, int)| #[trigger] clears(g, a);
        assert(in_group(to_remove, a));
    }
    assert forall|k: int| 0 <= k < PALETTE_SIZE implies #[trigger] seen[k] == color_clears(
        g,
        PuyoType::of_index(k as nat),
    ) by {
        let tk = PuyoType::of_index(k as nat);
        if color_found(g, v, tk) {
            let x = choose|x: (int, int)| #[trigger]
                marked(v, x) && clears(g, x) && color_at(g, x) == Some(tk);
            assert(clears(g, x) && color_at(g, x) == Some(tk));
        }
        if color_clears(g, tk) {
            let x = choose|x: (int, int)| #[trigger] clears(g, x) && color_at(g, x) == Some(tk);
            assert(marked(v, x) && clears(g, x) && color_at(g, x) == Some(tk));
        }
    }
    assert(PuyoType::of_index(0) == PuyoType::Red);
    assert(PuyoType::of_index(1) == PuyoType::Blue);
    assert(PuyoType::of_index(2) == PuyoType::Yellow);
    assert(PuyoType::of_index(3) == PuyoType::Green);
    assert(PuyoType::of_index(4) == PuyoType::Purple);
    assert(seen[0] == color_clears(g, PuyoType::of_index(0)));
    assert(seen[1] == color_clears(g, PuyoType::of_index(1)));
    assert(seen[2] == color_clears(g, PuyoType::of_index(2)));
    assert(seen[3] == color_clears(g, PuyoType::of_index(3)));
    assert(seen[4] == color_clears(g, PuyoType::of_index(4)));
    assert(row_bonus(g, height as int, 0) == 0);
}

/// A round of clears removes at least one puyo and adds none.
pub proof fn lemma_clear_lowers_count(g: Grid, width: nat)
    requires
        rectangular(g, width),
        any_clears(g),
    ensures
        rectangular(cleared(g), width),
        cleared(g).len() == g.len(),
        puyo_count(cleared(g), width) < puyo_count(g, width),
{
    let a = choose|a: (int, int)| #[trigger] clears(g, a);
    assert(color_at(g, a).is_some());
    lemma_thinned_grid(g, cleared(g), width, a.0, a.1);
}

} // verus!
