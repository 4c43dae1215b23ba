//! Groups: the sets of settled puyos of one colour joined side to side, as a
//! mathematical relation on the grid, and the flood fill that collects one.

use crate::board::{Board, Grid};
use crate::palette::PuyoType;
use vstd::prelude::*;

verus! {

/// The colour at cell `a` = (row, column), or none where the cell is empty or
/// outside the grid.
pub open spec fn color_at(g: Grid, a: (int, int)) -> Option<PuyoType> {
    if 0 <= a.0 < g.len() && 0 <= a.1 < g[a.0].len() {
        g[a.0][a.1]
    } else {
        None
    }
}

/// Two cells share a side: up, down, left or right; never a diagonal.
pub open spec fn adjacent(a: (int, int), b: (int, int)) -> bool {
    ||| (a.0 == b.0 && (a.1 == b.1 + 1 || a.1 + 1 == b.1))
    ||| (a.1 == b.1 && (a.0 == b.0 + 1 || a.0 + 1 == b.0))
}

/// Two cells share a side and hold puyos of the same colour.
pub open spec fn linked(g: Grid, a: (int, int), b: (int, int)) -> bool {
    adjacent(a, b) && color_at(g, a).is_some() && color_at(g, a) == color_at(g, b)
}

/// A walk over occupied cells in which each step goes to a linked cell.
pub open spec fn is_chain(g: Grid, path: Seq<(int, int)>) -> bool {
    &&& path.len() >= 1
    &&& color_at(g, path[0]).is_some()
    &&& forall|i: int| 0 <= i < path.len() - 1 ==> linked(g, #[trigger] path[i], path[i + 1])
}

/// Cell `b` can be reached from the occupied cell `a` over linked cells.
pub open spec fn connected(g: Grid, a: (int, int), b: (int, int)) -> bool {
    exists|path: Seq<(int, int)>| #[trigger] is_chain(g, path) && path[0] == a && path.last() == b
}

/// The group of cell `a`: every cell connected to it. Empty where `a` holds no
/// puyo.
pub open spec fn group_of(g: Grid, a: (int, int)) -> Set<(int, int)> {
    Set::new(|b: (int, int)| connected(g, a, b))
}

/// An occupied cell is connected to itself.
pub proof fn lemma_connected_reflexive(g: Grid, a: (int, int))
    requires
        color_at(g, a).is_some(),
    ensures
        connected(g, a, a),
{
    let path = seq![a];
    assert(is_chain(g, path));
    assert(path[0] == a && path.last() == a);
}

/// A connection extends by one linked step.
pub proof fn lemma_connected_step(g: Grid, a: (int, int), b: (int, int), c: (int, int))
    requires
        connected(g, a, b),
        linked(g, b, c),
    ensures
        connected(g, a, c),
{
    let path = choose|path: Seq<(int, int)>|
        #[trigger] is_chain(g, path) && path[0] == a && path.last() == b;
    let longer = path.push(c);
    assert forall|i: int| 0 <= i < longer.len() - 1 implies linked(
        g,
        #[trigger] longer[i],
        longer[i + 1],
    ) by {
        if i < path.len() - 1 {
            assert(linked(g, path[i], path[i + 1]));
        }
    }
    assert(is_chain(g, longer));
    assert(longer[0] == a && longer.last() == c);
}

/// Every cell of a chain is connected to the cell `a` that the chain's first
/// cell is connected to.
proof fn lemma_chain_reaches(g: Grid, a: (int, int), path: Seq<(int, int)>, i: int)
    requires
        is_chain(g, path),
        connected(g, a, path[0]),
        0 <= i < path.len(),
    ensures
        connected(g, a, path[i]),
    decreases i,
{
    if i > 0 {
        lemma_chain_reaches(g, a, path, i - 1);
        assert(linked(g, path[i - 1], path[i - 1 + 1]));
        lemma_connected_step(g, a, path[i - 1], path[i]);
    }
}

/// Every cell of a chain holds the colour of the chain's first cell.
proof fn lemma_chain_one_color(g: Grid, path: Seq<(int, int)>, i: int)
    requires
        is_chain(g, path),
        0 <= i < path.len(),
    ensures
        color_at(g, path[i]) == color_at(g, path[0]),
        color_at(g, path[i]).is_some(),
    decreases i,
{
    if i > 0 {
        lemma_chain_one_color(g, path, i - 1);
        assert(linked(g, path[i - 1], path[i - 1 + 1]));
    }
}

/// A group never spans two colours: connected cells hold the same colour, and
/// both are occupied.
pub proof fn lemma_connected_one_color(g: Grid, a: (int, int), b: (int, int))
    requires
        connected(g, a, b),
    ensures
        color_at(g, a).is_some(),
        color_at(g, a) == color_at(g, b),
{
    let path = choose|path: Seq<(int, int)>|
        #[trigger] is_chain(g, path) && path[0] == a && path.last() == b;
    lemma_chain_one_color(g, path, path.len() - 1);
}

/// Connection runs both ways.
pub proof fn lemma_connected_symmetric(g: Grid, a: (int, int), b: (int, int))
    requires
        connected(g, a, b),
    ensures
        connected(g, b, a),
{
    let path = choose|path: Seq<(int, int)>|
        #[trigger] is_chain(g, path) && path[0] == a && path.last() == b;
    let n = path.len() as int;
    let back = Seq::new(path.len(), |i: int| path[n - 1 - i]);
    lemma_chain_one_color(g, path, n - 1);
    assert forall|i: int| 0 <= i < back.len() - 1 implies linked(
        g,
        #[trigger] back[i],
        back[i + 1],
    ) by {
        let j = n - 2 - i;
        assert(linked(g, path[j], path[j + 1]));
        lemma_chain_one_color(g, path, j);
        lemma_chain_one_color(g, path, j + 1);
    }
    assert(is_chain(g, back));
    assert(back[0] == b && back.last() == a);
}

/// Connection carries over a middle cell.
pub proof fn lemma_connected_transitive(g: Grid, a: (int, int), b: (int, int), c: (int, int))
    requires
        connected(g, a, b),
        connected(g, b, c),
    ensures
        connected(g, a, c),
{
    let path = choose|path: Seq<(int, int)>|
        #[trigger] is_chain(g, path) && path[0] == b && path.last() == c;
    lemma_chain_reaches(g, a, path, path.len() - 1);
}

/// Every occupied cell belongs to exactly one group: it is in its own group,
/// and any two groups that share a cell are the same set. Which cell of a
/// group the search starts from therefore makes no difference.
pub proof fn lemma_groups_partition(g: Grid, a: (int, int), b: (int, int), x: (int, int))
    requires
        group_of(g, a).contains(x),
        group_of(g, b).contains(x),
    ensures
        group_of(g, x).contains(x),
        group_of(g, a) == group_of(g, b),
        group_of(g, a) == group_of(g, x),
{
    lemma_connected_one_color(g, a, x);
    lemma_connected_reflexive(g, x);
    lemma_connected_symmetric(g, a, x);
    lemma_connected_symmetric(g, b, x);
    assert forall|y: (int, int)| group_of(g, a).contains(y) <==> group_of(g, b).contains(y) by {
        if connected(g, a, y) {
            lemma_connected_transitive(g, x, a, y);
            lemma_connected_transitive(g, b, x, y);
        }
        if connected(g, b, y) {
            lemma_connected_transitive(g, x, b, y);
            lemma_connected_transitive(g, a, x, y);
        }
    }
    assert forall|y: (int, int)| group_of(g, a).contains(y) <==> group_of(g, x).contains(y) by {
        if connected(g, a, y) {
            lemma_connected_transitive(g, x, a, y);
        }
        if connected(g, x, y) {
            lemma_connected_transitive(g, a, x, y);
        }
    }
    assert(group_of(g, a) =~= group_of(g, b));
    assert(group_of(g, a) =~= group_of(g, x));
}

/// A set of cells that holds `a` and, with each of its cells, every cell
/// linked to it, holds every cell connected to `a`.
pub proof fn lemma_closed_set_holds_group(g: Grid, s: Set<(int, int)>, a: (int, int), b: (int, int))
    requires
        s.contains(a),
        forall|x: (int, int), y: (int, int)| s.contains(x) && #[trigger] linked(g, x, y) ==> s.contains(y),
        connected(g, a, b),
    ensures
        s.contains(b),
{
    let path = choose|path: Seq<(int, int)>|
        #[trigger] is_chain(g, path) && path[0] == a && path.last() == b;
    lemma_chain_in_closed_set(g, s, path, path.len() - 1);
}

proof fn lemma_chain_in_closed_set(g: Grid, s: Set<(int, int)>, path: Seq<(int, int)>, i: int)
    requires
        is_chain(g, path),
        s.contains(path[0]),
        forall|x: (int, int), y: (int, int)| s.contains(x) && #[trigger] linked(g, x, y) ==> s.contains(y),
        0 <= i < path.len(),
    ensures
        s.contains(path[i]),
    decreases i,
{
    if i > 0 {
        lemma_chain_in_closed_set(g, s, path, i - 1);
        assert(linked(g, path[i - 1], path[i - 1 + 1]));
    }
}

/// The cell that a pair of indices names.
pub open spec fn cell_of(p: (usize, usize)) -> (int, int) {
    (p.0 as int, p.1 as int)
}

/// Cell `a` is one of the cells listed in `group`.
pub open spec fn in_group(group: Seq<(usize, usize)>, a: (int, int)) -> bool {
    exists|i: int| 0 <= i < group.len() && cell_of(#[trigger] group[i]) == a
}

/// Cell `a` lies within the marks and is marked.
pub open spec fn marked(v: Seq<Vec<bool>>, a: (int, int)) -> bool {
    0 <= a.0 < v.len() && 0 <= a.1 < v[a.0]@.len() && v[a.0]@[a.1]
}

/// The marks have one entry per cell of a grid of the given size.
pub open spec fn marks_fit(v: Seq<Vec<bool>>, width: nat, height: nat) -> bool {
    &&& v.len() == height
    &&& forall|r: int| 0 <= r < height ==> (#[trigger] v[r])@.len() == width
}

/// The marked cells are whole groups: with each marked cell, every cell
/// linked to it is marked.
pub open spec fn whole_groups(g: Grid, v: Seq<Vec<bool>>) -> bool {
    forall|a: (int, int), b: (int, int)| marked(v, a) && #[trigger] linked(g, a, b) ==> marked(v, b)
}

spec fn marks_of(v: Seq<Vec<bool>>) -> Seq<Seq<bool>> {
    Seq::new(v.len(), |r: int| v[r]@)
}

spec fn row_unmarked(row: Seq<bool>) -> nat
    decreases row.len(),
{
    if row.len() == 0 {
        0
    } else {
        row_unmarked(row.drop_last()) + if row.last() {
            0nat
        } else {
            1nat
        }
    }
}

spec fn unmarked(m: Seq<Seq<bool>>) -> nat
    decreases m.len(),
{
    if m.len() == 0 {
        0
    } else {
        unmarked(m.drop_last()) + row_unmarked(m.last())
    }
}

proof fn lemma_row_mark(row: Seq<bool>, c: int)
    requires
        0 <= c < row.len(),
        !row[c],
    ensures
        row_unmarked(row.update(c, true)) + 1 == row_unmarked(row),
    decreases row.len(),
{
    let after = row.update(c, true);
    if c == row.len() - 1 {
        assert(after.drop_last() =~= row.drop_last());
    } else {
        assert(after.drop_last() =~= row.drop_last().update(c, true));
        lemma_row_mark(row.drop_last(), c);
    }
}

proof fn lemma_grid_mark(m: Seq<Seq<bool>>, r: int, c: int)
    requires
        0 <= r < m.len(),
        0 <= c < m[r].len(),
        !m[r][c],
    ensures
        unmarked(m.update(r, m[r].update(c, true))) + 1 == unmarked(m),
    decreases m.len(),
{
    let after = m.update(r, m[r].update(c, true));
    if r == m.len() - 1 {
        assert(after.drop_last() =~= m.drop_last());
        lemma_row_mark(m[r], c);
    } else {
        assert(after.drop_last() =~= m.drop_last().update(r, m[r].update(c, true)));
        lemma_grid_mark(m.drop_last(), r, c);
    }
}

/// What holds of a fill from `start` while it runs: the cells listed so far
/// are distinct cells of the grid, connected to `start` and unmarked when the
/// fill began, and the marks are those of the beginning and the listed cells.
spec fn filling(
    g: Grid,
    width: nat,
    height: nat,
    before: Seq<Vec<bool>>,
    start: (int, int),
    group: Seq<(usize, usize)>,
    v: Seq<Vec<bool>>,
) -> bool {
    &&& marks_fit(v, width, height)
    &&& group.no_duplicates()
    &&& forall|i: int|
        0 <= i < group.len() ==> {
            &&& (#[trigger] group[i]).0 < height
            &&& group[i].1 < width
            &&& connected(g, start, cell_of(group[i]))
            &&& !marked(before, cell_of(group[i]))
        }
    &&& forall|a: (int, int)| #[trigger] marked(v, a) <==> marked(before, a) || in_group(group, a)
}

impl Board {
    /// Looks at the cell (nr, nc) beside `from`: where it holds the colour
    /// sought and is not marked yet, marks it and lists it.
    fn visit(
        &self,
        nr: usize,
        nc: usize,
        target_type: PuyoType,
        group: &mut Vec<(usize, usize)>,
        visited: &mut Vec<Vec<bool>>,
        Ghost(before): Ghost<Seq<Vec<bool>>>,
        Ghost(start): Ghost<(int, int)>,
        Ghost(from): Ghost<(int, int)>,
    )
        requires
            self.wf(),
            nr < self.height,
            nc < self.width,
            filling(self@.grid, self@.width, self@.height, before, start, old(group)@, old(visited)@),
            connected(self@.grid, start, from),
            color_at(self@.grid, from) == Some(target_type),
            adjacent(from, (nr as int, nc as int)),
        ensures
            filling(self@.grid, self@.width, self@.height, before, start, final(group)@, final(visited)@),
            linked(self@.grid, from, (nr as int, nc as int)) ==> marked(
                final(visited)@,
                (nr as int, nc as int),
            ),
            forall|a: (int, int)| marked(old(visited)@, a) ==> marked(final(visited)@, a),
            old(group)@.len() <= final(group)@.len(),
            final(group)@.subrange(0, old(group)@.len() as int) == old(group)@,
            unmarked(marks_of(final(visited)@)) + final(group)@.len() == unmarked(
                marks_of(old(visited)@),
            ) + old(group)@.len(),
    {
        let ghost g = self@.grid;
        let ghost cell = (nr as int, nc as int);
        assert(g[nr as int] == self.cells@[nr as int]@);
        let same = match self.cells[nr][nc] {
            Some(t) => t == target_type,
            None => false,
        };
        assert(same == (color_at(g, cell) == Some(target_type)));
        if same && !visited[nr][nc] {
            let ghost group0 = group@;
            let ghost visited0 = visited@;
            visited[nr][nc] = true;
            group.push((nr, nc));
            proof {
                assert(linked(g, from, cell));
                lemma_connected_step(g, start, from, cell);
                assert(!marked(visited0, cell));
                assert(!in_group(group0, cell));
                assert(!marked(before, cell));
                assert forall|a: (int, int)| a != cell implies marked(visited@, a) == marked(
                    visited0,
                    a,
                ) by {
                    if 0 <= a.0 < visited0.len() && a.0 != nr {
                        assert(visited@[a.0] == visited0[a.0]);
                    }
                }
                assert(marked(visited@, cell));
                assert(group@.no_duplicates()) by {
                    assert forall|i: int, j: int|
                        0 <= i < group@.len() && 0 <= j < group@.len() && i != j implies group@[i]
                        != group@[j] by {
                        if i < group0.len() && j < group0.len() {
                            assert(group0[i] != group0[j]);
                        } else if i < group0.len() {
                            assert(cell_of(group0[i]) != cell);
                        } else {
                            assert(cell_of(group0[j]) != cell);
                        }
                    }
                }
                assert forall|a: (int, int)| #[trigger]
                    marked(visited@, a) <==> marked(before, a) || in_group(group@, a) by {
                    if a == cell {
                        assert(cell_of(group@[group0.len() as int]) == a);
                        assert(in_group(group@, a));
                    } else {
                        assert(marked(visited@, a) == marked(visited0, a));
                        assert(marked(visited0, a) <==> marked(before, a) || in_group(group0, a));
                        if in_group(group0, a) {
                            let i = choose|i: int|
                                0 <= i < group0.len() && cell_of(#[trigger] group0[i]) == a;
                            assert(cell_of(group@[i]) == a);
                            assert(in_group(group@, a));
                        }
                        if in_group(group@, a) {
                            let i = choose|i: int|
                                0 <= i < group@.len() && cell_of(#[trigger] group@[i]) == a;
                            assert(i < group0.len());
                            assert(cell_of(group0[i]) == a);
                            assert(in_group(group0, a));
                        }
                    }
                }
                assert forall|i: int| 0 <= i < group@.len() implies {
                    &&& (#[trigger] group@[i]).0 < self@.height
                    &&& group@[i].1 < self@.width
                    &&& connected(g, start, cell_of(group@[i]))
                    &&& !marked(before, cell_of(group@[i]))
                } by {
                    if i < group0.len() {
                        assert(group@[i] == group0[i]);
                    }
                }
                assert(marks_fit(visited@, self@.width, self@.height)) by {
                    assert forall|r: int| 0 <= r < self@.height implies (#[trigger] visited@[r])@.len()
                        == self@.width by {
                        assert(visited0[r]@.len() == self@.width);
                    }
                }
                assert(marks_of(visited@) =~= marks_of(visited0).update(
                    nr as int,
                    marks_of(visited0)[nr as int].update(nc as int, true),
                )) by {
                    assert forall|r: int| 0 <= r < visited0.len() implies marks_of(visited@)[r]
                        =~= marks_of(visited0).update(
                        nr as int,
                        marks_of(visited0)[nr as int].update(nc as int, true),
                    )[r] by {
                        if r != nr {
                            assert(visited@[r] == visited0[r]);
                        }
                    }
                }
                lemma_grid_mark(marks_of(visited0), nr as int, nc as int);
                assert(group@.subrange(0, group0.len() as int) =~= group0);
            }
        } else {
            proof {
                assert(group@.subrange(0, group@.len() as int) =~= group@);
                if linked(g, from, cell) {
                    assert(marked(visited@, cell));
                }
            }
        }
    }

    /// Collects the group of the cell (r, c) by a flood fill over the four
    /// sides, marking each cell it lists. `visited` holds the cells of the
    /// groups collected before. Where the cell is empty or already marked,
    /// nothing is listed and nothing changes. Otherwise the cells listed are
    /// exactly those connected to (r, c), each once, (r, c) first, and the
    /// marks grow by exactly these cells.
    pub fn flood_fill(&self, r: usize, c: usize, visited: &mut Vec<Vec<bool>>) -> (group: Vec<
        (usize, usize),
    >)
        requires
            self.wf(),
            r < self.height,
            c < self.width,
            marks_fit(old(visited)@, self@.width, self@.height),
            whole_groups(self@.grid, old(visited)@),
        ensures
            marks_fit(final(visited)@, self@.width, self@.height),
            whole_groups(self@.grid, final(visited)@),
            group@.no_duplicates(),
            forall|i: int|
                0 <= i < group@.len() ==> (#[trigger] group@[i]).0 < self.height && group@[i].1
                    < self.width,
            marked(old(visited)@, (r as int, c as int)) ==> group@.len() == 0,
            group@.len() > 0 ==> group@[0] == (r, c),
            forall|a: (int, int)|
                #[trigger] in_group(group@, a) <==> !marked(old(visited)@, (r as int, c as int))
                    && connected(self@.grid, (r as int, c as int), a),
            forall|a: (int, int)|
                #[trigger] marked(final(visited)@, a) <==> marked(old(visited)@, a) || connected(
                    self@.grid,
                    (r as int, c as int),
                    a,
                ),
    {
        let ghost g = self@.grid;
        let ghost start = (r as int, c as int);
        let ghost before = visited@;
        let mut group: Vec<(usize, usize)> = Vec::new();
        assert(g[r as int] == self.cells@[r as int]@);
        let target_type = match self.cells[r][c] {
            Some(t) => t,
            None => {
                proof {
                    assert forall|a: (int, int)| !connected(g, start, a) by {
                        if connected(g, start, a) {
                            lemma_connected_one_color(g, start, a);
                        }
                    }
                    assert forall|a: (int, int)| !in_group(group@, a) by {}
                }
                return group;
            },
        };
        if visited[r][c] {
            proof {
                assert(marked(before, start));
                assert forall|a: (int, int)| !in_group(group@, a) by {}
                assert forall|a: (int, int)| connected(g, start, a) implies marked(before, a) by {
                    lemma_closed_set_holds_group(
                        g,
                        Set::new(|x: (int, int)| marked(before, x)),
                        start,
                        a,
                    );
                }
            }
            return group;
        }
        visited[r][c] = true;
        group.push((r, c));
        proof {
            lemma_connected_reflexive(g, start);
            assert(cell_of(group@[0]) == start);
            assert forall|a: (int, int)| #[trigger]
                marked(visited@, a) <==> marked(before, a) || in_group(group@, a) by {
                if a == start {
                    assert(in_group(group@, a));
                } else {
                    if 0 <= a.0 < before.len() && a.0 != r {
                        assert(visited@[a.0] == before[a.0]);
                    }
                    if in_group(group@, a) {
                        let i = choose|i: int|
                            0 <= i < group@.len() && cell_of(#[trigger] group@[i]) == a;
                    }
                }
            }
            assert(marks_fit(visited@, self@.width, self@.height)) by {
                assert forall|k: int| 0 <= k < self@.height implies (#[trigger] visited@[k])@.len()
                    == self@.width by {
                    assert(before[k]@.len() == self@.width);
                }
            }
        }
        let mut head: usize = 0;
        while head < group.len()
            invariant
                self.wf(),
                g == self@.grid,
                start == (r as int, c as int),
                filling(g, self@.width, self@.height, before, start, group@, visited@),
                head <= group@.len(),
                whole_groups(g, before),
                color_at(g, start) == Some(target_type),
                group@.len() >= 1,
                group@[0] == (r, c),
                forall|i: int, b: (int, int)|
                    0 <= i < head && #[trigger] linked(g, cell_of(group@[i]), b) ==> marked(
                        visited@,
                        b,
                    ),
            decreases unmarked(marks_of(visited@)) + group@.len() - head,
        {
            let (cr, cc) = group[head];
            let ghost from = (cr as int, cc as int);
            let ghost group0 = group@;
            let ghost marks0 = visited@;
            proof {
                assert(cell_of(group@[head as int]) == from);
                lemma_connected_one_color(g, start, from);
            }
            if cr > 0 {
                self.visit(
                    cr - 1,
                    cc,
                    target_type,
                    &mut group,
                    visited,
                    Ghost(before),
                    Ghost(start),
                    Ghost(from),
                );
            }
            let ghost group1 = group@;
            let ghost marks1 = visited@;
            if cr + 1 < self.height {
                self.visit(
                    cr + 1,
                    cc,
                    target_type,
                    &mut group,
                    visited,
                    Ghost(before),
                    Ghost(start),
                    Ghost(from),
                );
            }
            let ghost group2 = group@;
            let ghost marks2 = visited@;
            if cc > 0 {
                self.visit(
                    cr,
                    cc - 1,
                    target_type,
                    &mut group,
                    visited,
                    Ghost(before),
                    Ghost(start),
                    Ghost(from),
                );
            }
            let ghost group3 = group@;
            let ghost marks3 = visited@;
            if cc + 1 < self.width {
                self.visit(
                    cr,
                    cc + 1,
                    target_type,
                    &mut group,
                    visited,
                    Ghost(before),
                    Ghost(start),
                    Ghost(from),
                );
            }
            proof {
                assert forall|i: int| 0 <= i < group0.len() implies group@[i] == group0[i] by {
                    assert(group1[i] == group1.subrange(0, group0.len() as int)[i]);
                    assert(group2[i] == group2.subrange(0, group1.len() as int)[i]);
                    assert(group3[i] == group3.subrange(0, group2.len() as int)[i]);
                    assert(group@[i] == group@.subrange(0, group3.len() as int)[i]);
                }
                assert forall|i: int, b: (int, int)|
                    0 <= i < head + 1 && #[trigger] linked(g, cell_of(group@[i]), b) implies marked(
                    visited@,
                    b,
                ) by {
                    assert(group@[i] == group0[i]);
                    if i < head {
                        assert(marked(marks0, b));
                        assert(marked(marks1, b));
                        assert(marked(marks2, b));
                        assert(marked(marks3, b));
                    } else {
                        assert(linked(g, from, b));
                        if b == (cr - 1, cc as int) {
                            assert(marked(marks1, b));
                            assert(marked(marks2, b));
                            assert(marked(marks3, b));
                        } else if b == (cr + 1, cc as int) {
                            assert(marked(marks2, b));
                            assert(marked(marks3, b));
                        } else if b == (cr as int, cc - 1) {
                            assert(marked(marks3, b));
                        } else {
                            assert(b == (cr as int, cc + 1));
                        }
                    }
                }
            }
            head += 1;
        }
        proof {
            let listed = Set::new(|a: (int, int)| in_group(group@, a));
            assert(listed.contains(start)) by {
                assert(cell_of(group@[0]) == start);
            }
            assert forall|x: (int, int), y: (int, int)|
                listed.contains(x) && #[trigger] linked(g, x, y) implies listed.contains(y) by {
                let i = choose|i: int| 0 <= i < group@.len() && cell_of(#[trigger] group@[i]) == x;
                assert(linked(g, cell_of(group@[i]), y));
                assert(marked(visited@, y));
                if marked(before, y) {
                    assert(linked(g, y, x));
                    assert(marked(before, x));
                }
            }
            assert forall|a: (int, int)| #[trigger]
                in_group(group@, a) <==> !marked(before, start) && connected(g, start, a) by {
                if in_group(group@, a) {
                    let i = choose|i: int|
                        0 <= i < group@.len() && cell_of(#[trigger] group@[i]) == a;
                }
                if connected(g, start, a) {
                    lemma_closed_set_holds_group(g, listed, start, a);
                }
            }
            assert forall|a: (int, int), b: (int, int)|
                marked(visited@, a) && #[trigger] linked(g, a, b) implies marked(visited@, b) by {
                if marked(before, a) {
                    assert(marked(before, b));
                } else {
                    assert(in_group(group@, a));
                    lemma_connected_step(g, start, a, b);
                    assert(in_group(group@, b));
                }
            }
        }
        group
    }
}

} // verus!
