//! The grid of cells and the generation-advance rule.
//!
//! The mathematical model of a grid is a `Seq<Seq<bool>>` of alive flags,
//! indexed `[row][column]`, i.e. `[y][x]`. [`next_state`] is the B3/S23 rule
//! table, [`live_neighbour_count`] counts the live Moore neighbours of a
//! position under hard (non-wrapping) boundaries, and [`step`] is one whole
//! generation. The executable code carries per-cell precomputed neighbour
//! coordinate lists, described exactly by [`neighbour_list`].

use crate::object::Object;
use vstd::prelude::*;

verus! {

/// Error returned by [`Grid::load_object`]: the pattern coordinate `(x, y)`
/// (as written in the pattern, before the offset is applied) lands outside
/// the grid once the offset is added.
#[derive(Debug, PartialEq, Eq, Structural, Clone, Copy)]
pub struct OutOfBoundsError {
    pub x: usize,
    pub y: usize,
}

/// The first pattern coordinate, in pattern order, that falls outside a
/// `width` by `height` grid after the offset `(ox, oy)` is added, if any.
pub open spec fn first_out_of_bounds(
    coords: Seq<(usize, usize)>,
    ox: int,
    oy: int,
    width: int,
    height: int,
) -> Option<(usize, usize)>
    decreases coords.len(),
{
    if coords.len() == 0 {
        None
    } else if coords[0].0 + ox >= width || coords[0].1 + oy >= height {
        Some(coords[0])
    } else {
        first_out_of_bounds(coords.drop_first(), ox, oy, width, height)
    }
}

/// Offset correctness: after a successful load of a pattern onto an
/// all-dead grid at offset `(ox, oy)`, the live cells are exactly
/// `(x + ox, y + oy)` for the pattern's coordinates `(x, y)`, nothing else.
/// The hypotheses are what [`Grid::new`] and a successful
/// [`Grid::load_object`] ensure.
pub proof fn lemma_offset_correctness(
    pre: Grid,
    post: Grid,
    coords: Seq<(usize, usize)>,
    ox: int,
    oy: int,
)
    requires
        post.width == pre.width,
        post.height == pre.height,
        forall|x: int, y: int| 0 <= x < pre.width && 0 <= y < pre.height ==> !pre.spec_alive(x, y),
        forall|x: int, y: int|
            0 <= x < pre.width && 0 <= y < pre.height ==> post.spec_alive(x, y) == (pre.spec_alive(
                x,
                y,
            ) || exists|i: int|
                0 <= i < coords.len() && (#[trigger] coords[i]).0 + ox == x && coords[i].1 + oy
                    == y),
    ensures
        forall|x: int, y: int|
            0 <= x < post.width && 0 <= y < post.height
                ==> (post.spec_alive(x, y) <==> exists|i: int|
                0 <= i < coords.len() && (#[trigger] coords[i]).0 + ox == x && coords[i].1 + oy
                    == y),
{
}

/// There is no out-of-bounds coordinate exactly when every coordinate,
/// after the offset, lies inside the grid.
pub proof fn lemma_first_out_of_bounds_none(
    coords: Seq<(usize, usize)>,
    ox: int,
    oy: int,
    width: int,
    height: int,
)
    ensures
        first_out_of_bounds(coords, ox, oy, width, height) is None <==> (forall|i: int|
            0 <= i < coords.len() ==> (#[trigger] coords[i]).0 + ox < width && coords[i].1 + oy
                < height),
    decreases coords.len(),
{
    if coords.len() > 0 {
        lemma_first_out_of_bounds_none(coords.drop_first(), ox, oy, width, height);
        assert(forall|i: int|
            0 < i < coords.len() ==> #[trigger] coords[i] == coords.drop_first()[i - 1]);
    }
}

/// 1 if position `(cx, cy)` lies inside `g` and holds a live cell, else 0.
///
/// Positions outside the grid count 0: the boundaries are hard edges.
pub open spec fn alive_at(g: Seq<Seq<bool>>, cx: int, cy: int) -> int {
    if 0 <= cy < g.len() && 0 <= cx < g[cy].len() && g[cy][cx] {
        1
    } else {
        0
    }
}

/// Number of live cells among the up-to-8 Moore neighbours of `(x, y)`.
///
/// Each of the eight surrounding positions contributes 1 when it lies inside
/// the grid and is alive; positions beyond a boundary contribute 0.
pub open spec fn live_neighbour_count(g: Seq<Seq<bool>>, x: int, y: int) -> int {
    alive_at(g, x - 1, y - 1) + alive_at(g, x, y - 1) + alive_at(g, x + 1, y - 1)
        + alive_at(g, x - 1, y) + alive_at(g, x + 1, y)
        + alive_at(g, x - 1, y + 1) + alive_at(g, x, y + 1) + alive_at(g, x + 1, y + 1)
}

/// The B3/S23 rule table: the next state of a cell that is currently
/// `alive` and has `n` live neighbours.
///
/// 0 or 1 neighbours: dies of underpopulation; 2: keeps its state;
/// 3: alive (survival or birth); 4 or more: dies of overpopulation.
pub open spec fn next_state(alive: bool, n: int) -> bool {
    if n <= 1 {
        false
    } else if n == 2 {
        alive
    } else if n == 3 {
        true
    } else {
        false
    }
}

/// One generation applied to every cell simultaneously: each cell's next
/// state is read off [`next_state`] from the counts in the old grid alone.
pub open spec fn step(g: Seq<Seq<bool>>) -> Seq<Seq<bool>> {
    Seq::new(
        g.len(),
        |y: int| Seq::new(g[y].len(), |x: int| next_state(g[y][x], live_neighbour_count(g, x, y))),
    )
}

/// The candidate neighbour position `(cx, cy)` as a sequence: a singleton
/// when it lies inside a `width` by `height` grid, empty when it falls
/// beyond a boundary.
pub open spec fn cand(width: int, height: int, cx: int, cy: int) -> Seq<(usize, usize)> {
    if 0 <= cx < width && 0 <= cy < height {
        seq![(cx as usize, cy as usize)]
    } else {
        Seq::empty()
    }
}

/// The precomputed neighbour coordinate list of the cell at `(x, y)` in a
/// `width` by `height` grid: the Moore neighbourhood restricted to the grid,
/// in row-major order. The cell's own position is never a member, so the
/// list has between 3 and 8 entries on a grid of at least 2 by 2.
pub open spec fn neighbour_list(width: int, height: int, x: int, y: int) -> Seq<(usize, usize)> {
    cand(width, height, x - 1, y - 1) + cand(width, height, x, y - 1)
        + cand(width, height, x + 1, y - 1) + cand(width, height, x - 1, y)
        + cand(width, height, x + 1, y) + cand(width, height, x - 1, y + 1)
        + cand(width, height, x, y + 1) + cand(width, height, x + 1, y + 1)
}

/// Number of live cells of `g` among the positions listed in `l`.
pub open spec fn count_alive(g: Seq<Seq<bool>>, l: Seq<(usize, usize)>) -> int
    decreases l.len(),
{
    if l.len() == 0 {
        0
    } else {
        count_alive(g, l.drop_last()) + alive_at(g, l.last().0 as int, l.last().1 as int)
    }
}

/// Counting over a concatenation splits into counting over the parts.
pub proof fn lemma_count_alive_concat(g: Seq<Seq<bool>>, a: Seq<(usize, usize)>, b: Seq<(usize, usize)>)
    ensures
        count_alive(g, a + b) == count_alive(g, a) + count_alive(g, b),
    decreases b.len(),
{
    if b.len() == 0 {
        assert(a + b =~= a);
    } else {
        lemma_count_alive_concat(g, a, b.drop_last());
        assert((a + b).drop_last() =~= a + b.drop_last());
        assert((a + b).last() == b.last());
    }
}

/// Counting the live cells along a cell's precomputed neighbour list is the
/// same as summing the eight Moore positions directly: the list holds each
/// in-bounds neighbour exactly once, and out-of-bounds positions count 0
/// either way.
pub proof fn lemma_count_alive_neighbour_list(g: Seq<Seq<bool>>, width: int, height: int, x: int, y: int)
    requires
        g.len() == height,
        forall|r: int| 0 <= r < height ==> g[r].len() == width,
        width <= usize::MAX,
        height <= usize::MAX,
        0 <= x < width,
        0 <= y < height,
    ensures
        count_alive(g, neighbour_list(width, height, x, y)) == live_neighbour_count(g, x, y),
{
    let c1 = cand(width, height, x - 1, y - 1);
    let c2 = cand(width, height, x, y - 1);
    let c3 = cand(width, height, x + 1, y - 1);
    let c4 = cand(width, height, x - 1, y);
    let c5 = cand(width, height, x + 1, y);
    let c6 = cand(width, height, x - 1, y + 1);
    let c7 = cand(width, height, x, y + 1);
    let c8 = cand(width, height, x + 1, y + 1);
    lemma_count_alive_concat(g, c1, c2);
    lemma_count_alive_concat(g, c1 + c2, c3);
    lemma_count_alive_concat(g, c1 + c2 + c3, c4);
    lemma_count_alive_concat(g, c1 + c2 + c3 + c4, c5);
    lemma_count_alive_concat(g, c1 + c2 + c3 + c4 + c5, c6);
    lemma_count_alive_concat(g, c1 + c2 + c3 + c4 + c5 + c6, c7);
    lemma_count_alive_concat(g, c1 + c2 + c3 + c4 + c5 + c6 + c7, c8);
    lemma_count_alive_cand(g, width, height, x - 1, y - 1);
    lemma_count_alive_cand(g, width, height, x, y - 1);
    lemma_count_alive_cand(g, width, height, x + 1, y - 1);
    lemma_count_alive_cand(g, width, height, x - 1, y);
    lemma_count_alive_cand(g, width, height, x + 1, y);
    lemma_count_alive_cand(g, width, height, x - 1, y + 1);
    lemma_count_alive_cand(g, width, height, x, y + 1);
    lemma_count_alive_cand(g, width, height, x + 1, y + 1);
}

/// Counting over a single candidate position agrees with [`alive_at`],
/// provided `g` really has the dimensions the candidate was bounded by.
proof fn lemma_count_alive_cand(g: Seq<Seq<bool>>, width: int, height: int, cx: int, cy: int)
    requires
        g.len() == height,
        forall|r: int| 0 <= r < height ==> g[r].len() == width,
        width <= usize::MAX,
        height <= usize::MAX,
    ensures
        count_alive(g, cand(width, height, cx, cy)) == alive_at(g, cx, cy),
{
    let c = cand(width, height, cx, cy);
    if 0 <= cx < width && 0 <= cy < height {
        assert(c.last() == (cx as usize, cy as usize));
        assert(c.drop_last() =~= Seq::<(usize, usize)>::empty());
        assert(count_alive(g, c.drop_last()) == 0);
        assert(c.last().0 as int == cx && c.last().1 as int == cy);
        assert(g[cy].len() == width);
        assert(count_alive(g, c) == alive_at(g, cx, cy));
    } else {
        assert(0 <= cy < height ==> g[cy].len() == width);
        assert(alive_at(g, cx, cy) == 0);
    }
}

/// Every entry of a cell's precomputed neighbour list lies inside the grid
/// and differs from the cell's own position, and there are at most 8.
pub proof fn lemma_neighbour_list_bounds(width: int, height: int, x: int, y: int)
    requires
        0 <= x < width,
        0 <= y < height,
        width <= usize::MAX,
        height <= usize::MAX,
    ensures
        neighbour_list(width, height, x, y).len() <= 8,
        forall|i: int|
            0 <= i < neighbour_list(width, height, x, y).len()
                ==> (#[trigger] neighbour_list(width, height, x, y)[i]).0 < width
                && neighbour_list(width, height, x, y)[i].1 < height
                && !(neighbour_list(width, height, x, y)[i].0 == x && neighbour_list(
                width,
                height,
                x,
                y,
            )[i].1 == y),
{
}

/// The rule table of [`next_state`], written out case by case: for every
/// neighbour count from 0 to 8, a cell with 0 or 1 live neighbours dies, one
/// with 2 keeps its state, one with 3 is alive, and one with 4 or more dies.
pub proof fn lemma_rule_table(alive: bool, n: int)
    requires
        0 <= n <= 8,
    ensures
        n <= 1 ==> next_state(alive, n) == false,
        n == 2 ==> next_state(alive, n) == alive,
        n == 3 ==> next_state(alive, n) == true,
        n >= 4 ==> next_state(alive, n) == false,
{
}

/// Stability of the dead grid: a generation step of a grid without a single
/// live cell, whatever its dimensions, changes nothing.
pub proof fn lemma_dead_grid_stable(g: Seq<Seq<bool>>)
    requires
        forall|y: int, x: int| 0 <= y < g.len() && 0 <= x < g[y].len() ==> !(#[trigger] g[y][x]),
    ensures
        step(g) == g,
{
    assert forall|y: int, x: int|
        0 <= y < g.len() && 0 <= x < g[y].len() implies live_neighbour_count(g, x, y) == 0 by {
        assert(forall|cx: int, cy: int| alive_at(g, cx, cy) == 0);
    }
    assert forall|y: int| 0 <= y < g.len() implies step(g)[y] =~= g[y] by {
        assert(forall|x: int|
            0 <= x < g[y].len() ==> step(g)[y][x] == next_state(g[y][x], 0) && !g[y][x]);
    }
    assert(step(g) =~~= g);
}

/// Stability of the dead grid, at the level of [`Grid`]: a grid of any
/// dimensions with no live cell, once advanced, again has no live cell.
/// The hypotheses relating `pre` and `post` are what [`Grid::advance`]
/// ensures of the grid before and after the call.
pub proof fn lemma_dead_grid_advance(pre: Grid, post: Grid)
    requires
        pre.wf(),
        forall|x: int, y: int| 0 <= x < pre.width && 0 <= y < pre.height ==> !pre.spec_alive(x, y),
        post.width == pre.width,
        post.height == pre.height,
        post.alive_view() == step(pre.alive_view()),
    ensures
        forall|x: int, y: int| 0 <= x < post.width && 0 <= y < post.height ==> !post.spec_alive(
            x,
            y,
        ),
{
    let g = pre.alive_view();
    assert forall|y: int, x: int| 0 <= y < g.len() && 0 <= x < g[y].len() implies !(#[trigger] g[y][x]) by {
        assert(!pre.spec_alive(x, y));
    }
    lemma_dead_grid_stable(g);
}

/// One cell of a grid: its current state and the precomputed list of the
/// coordinates of its Moore neighbours, fixed at grid construction.
#[derive(Debug, Clone, PartialEq, Eq)]
pub struct Cell {
    pub neighbour_indices: Vec<(usize, usize)>,
    pub alive: bool,
}

impl Cell {
    /// The precomputed neighbour coordinates, as `(x, y)` pairs.
    pub open spec fn neighbour_coordinates(&self) -> Seq<(usize, usize)> {
        self.neighbour_indices@
    }

    /// A dead cell with no neighbour list yet.
    fn new() -> (c: Cell)
        ensures
            !c.alive,
            c.neighbour_coordinates().len() == 0,
    {
        Cell { alive: false, neighbour_indices: Vec::new() }
    }

    /// How many of this cell's precomputed neighbour positions are alive in
    /// the snapshot `cells` of the previous generation.
    fn neighbour_count(&self, cells: &Vec<Vec<bool>>) -> (n: u32)
        requires
            self.neighbour_coordinates().len() <= 8,
            forall|i: int|
                0 <= i < self.neighbour_coordinates().len()
                    ==> #[trigger] self.neighbour_coordinates()[i].1 < cells@.len()
                    && self.neighbour_coordinates()[i].0 < cells@[self.neighbour_coordinates()[i].1 as int]@.len(),
        ensures
            n == count_alive(bool_grid(cells@), self.neighbour_coordinates()),
    {
        let ghost g = bool_grid(cells@);
        let ghost l = self.neighbour_coordinates();
        let mut n: u32 = 0;
        let mut i: usize = 0;
        while i < self.neighbour_indices.len()
            invariant
                i <= l.len(),
                l.len() <= 8,
                l == self.neighbour_coordinates(),
                g == bool_grid(cells@),
                forall|k: int|
                    0 <= k < l.len() ==> #[trigger] l[k].1 < cells@.len() && l[k].0
                        < cells@[l[k].1 as int]@.len(),
                n <= i,
                n == count_alive(g, l.take(i as int)),
            decreases l.len() - i,
        {
            let position = self.neighbour_indices[i];
            if cells[position.1][position.0] {
                n = n + 1;
            }
            i = i + 1;
            proof {
                assert(l.take(i as int).drop_last() =~= l.take(i as int - 1));
                assert(l.take(i as int).last() == l[i as int - 1]);
            }
        }
        proof {
            assert(l.take(l.len() as int) =~= l);
        }
        n
    }
}

/// Neighbour-count invariant: in any well-formed grid of at least 2 by 2,
/// a corner cell has exactly 3 precomputed neighbours, an edge (non-corner
/// boundary) cell exactly 5, and an interior cell exactly 8; and no entry of
/// a cell's list equals the cell's own coordinate or lies outside the grid.
pub proof fn lemma_neighbour_count_invariant(g: Grid, x: int, y: int)
    requires
        g.wf(),
        2 <= g.width,
        2 <= g.height,
        0 <= x < g.width,
        0 <= y < g.height,
    ensures
        ({
            let nl = g.cells@[y]@[x].neighbour_coordinates();
            let on_x_edge = x == 0 || x == g.width - 1;
            let on_y_edge = y == 0 || y == g.height - 1;
            &&& (on_x_edge && on_y_edge ==> nl.len() == 3)
            &&& (on_x_edge != on_y_edge ==> nl.len() == 5)
            &&& (!on_x_edge && !on_y_edge ==> nl.len() == 8)
            &&& (forall|i: int|
                0 <= i < nl.len() ==> (#[trigger] nl[i]).0 < g.width && nl[i].1 < g.height && !(
                nl[i].0 == x && nl[i].1 == y))
        }),
{
    lemma_neighbour_list_bounds(g.width as int, g.height as int, x, y);
}

/// A snapshot of alive flags, `Vec` rows turned into the sequence-of-rows
/// grid that the spec functions speak of.
pub open spec fn bool_grid(rows: Seq<Vec<bool>>) -> Seq<Seq<bool>> {
    Seq::new(rows.len(), |y: int| rows[y]@)
}

/// The alive flags of a grid's cells as the mathematical grid the spec
/// functions above speak of: `[y][x]` indexing, one inner sequence per row.
pub open spec fn alive_map(cells: Seq<Vec<Cell>>) -> Seq<Seq<bool>> {
    Seq::new(cells.len(), |y: int| Seq::new(cells[y]@.len(), |x: int| cells[y]@[x].alive))
}

/// A fixed-size grid of [`Cell`]s. Construct it with [`Grid::new`] so that
/// every cell's neighbour list is precomputed; the well-formedness predicate
/// [`Grid::wf`] records exactly that.
#[derive(Debug)]
pub struct Grid {
    pub width: u32,
    pub height: u32,
    pub cells: Vec<Vec<Cell>>,
}

impl Grid {
    /// Well-formed grid: positive dimensions, `height` rows of `width`
    /// cells, and every cell carrying exactly its precomputed Moore
    /// neighbour list.
    pub open spec fn wf(&self) -> bool {
        &&& 1 <= self.width
        &&& 1 <= self.height
        &&& self.cells@.len() == self.height
        &&& (forall|y: int| 0 <= y < self.height ==> self.cells@[y]@.len() == self.width)
        &&& (forall|y: int, x: int|
            0 <= y < self.height && 0 <= x < self.width
                ==> self.cells@[y]@[x].neighbour_coordinates() == neighbour_list(
                self.width as int,
                self.height as int,
                x,
                y,
            ))
    }

    /// The grid's current generation as a sequence of rows of alive flags.
    pub open spec fn alive_view(&self) -> Seq<Seq<bool>> {
        alive_map(self.cells@)
    }

    /// Whether the cell at `(x, y)` is alive, for in-bounds positions.
    pub open spec fn spec_alive(&self, x: int, y: int) -> bool {
        self.alive_view()[y][x]
    }

    /// A fresh grid: `height` rows of `width` cells, all dead, each with its
    /// neighbour coordinate list already computed. Both dimensions must be
    /// positive: a grid without cells has no boundary cell to speak of.
    pub fn new(width: u32, height: u32) -> (g: Grid)
        requires
            1 <= width,
            1 <= height,
        ensures
            g.wf(),
            g.width == width,
            g.height == height,
            forall|x: int, y: int| 0 <= x < width && 0 <= y < height ==> !g.spec_alive(x, y),
    {
        let mut cells: Vec<Vec<Cell>> = Vec::new();
        let mut y: usize = 0;
        while y < height as usize
            invariant
                y <= height,
                cells@.len() == y,
                forall|r: int| 0 <= r < y ==> cells@[r]@.len() == width,
                forall|r: int, c: int|
                    0 <= r < y && 0 <= c < width ==> !cells@[r]@[c].alive,
            decreases height - y,
        {
            let mut row: Vec<Cell> = Vec::new();
            let mut x: usize = 0;
            while x < width as usize
                invariant
                    x <= width,
                    row@.len() == x,
                    forall|c: int| 0 <= c < x ==> !row@[c].alive,
                decreases width - x,
            {
                row.push(Cell::new());
                x = x + 1;
            }
            cells.push(row);
            y = y + 1;
        }
        let mut grid = Grid { width, height, cells };
        grid.compute_neighbour_indices();
        grid
    }

    /// Fill in every cell's neighbour coordinate list from the grid's
    /// dimensions, leaving the alive flags as they are. Runs once, from
    /// [`Grid::new`]; the dimensions never change afterwards, so the lists
    /// stay valid for the grid's whole lifetime.
    fn compute_neighbour_indices(&mut self)
        requires
            1 <= old(self).width,
            1 <= old(self).height,
            old(self).cells@.len() == old(self).height,
            forall|y: int| 0 <= y < old(self).height ==> old(self).cells@[y]@.len() == old(self).width,
        ensures
            final(self).wf(),
            final(self).width == old(self).width,
            final(self).height == old(self).height,
            forall|y: int, x: int|
                0 <= y < old(self).height && 0 <= x < old(self).width
                    ==> final(self).cells@[y]@[x].alive == old(self).cells@[y]@[x].alive,
    {
        let width = self.width;
        let height = self.height;
        let mut y: usize = 0;
        while y < height as usize
            invariant
                y <= height,
                self.width == width,
                self.height == height,
                1 <= width,
                1 <= height,
                self.cells@.len() == height,
                forall|r: int| 0 <= r < height ==> self.cells@[r]@.len() == width,
                forall|r: int, c: int|
                    0 <= r < height && 0 <= c < width
                        ==> self.cells@[r]@[c].alive == old(self).cells@[r]@[c].alive,
                forall|r: int, c: int|
                    0 <= r < y && 0 <= c < width
                        ==> self.cells@[r]@[c].neighbour_coordinates() == neighbour_list(
                        width as int,
                        height as int,
                        c,
                        r,
                    ),
            decreases height - y,
        {
            let mut x: usize = 0;
            while x < width as usize
                invariant
                    x <= width,
                    y < height,
                    self.width == width,
                    self.height == height,
                    1 <= width,
                    1 <= height,
                    self.cells@.len() == height,
                    forall|r: int| 0 <= r < height ==> self.cells@[r]@.len() == width,
                    forall|r: int, c: int|
                        0 <= r < height && 0 <= c < width
                            ==> self.cells@[r]@[c].alive == old(self).cells@[r]@[c].alive,
                    forall|r: int, c: int|
                        0 <= r < y && 0 <= c < width
                            ==> self.cells@[r]@[c].neighbour_coordinates() == neighbour_list(
                            width as int,
                            height as int,
                            c,
                            r,
                        ),
                    forall|c: int|
                        0 <= c < x
                            ==> self.cells@[y as int]@[c].neighbour_coordinates() == neighbour_list(
                            width as int,
                            height as int,
                            c,
                            y as int,
                        ),
                decreases width - x,
            {
                let nb = Grid::moore_neighbours(width, height, x, y);
                self.cells[y][x].neighbour_indices = nb;
                x = x + 1;
            }
            y = y + 1;
        }
    }

    /// A full copy of the current generation's alive flags, taken before
    /// [`Grid::advance`] starts writing, so that every cell's next state is
    /// computed from the same consistent previous generation.
    fn snapshot_alive(&self) -> (snap: Vec<Vec<bool>>)
        requires
            self.cells@.len() == self.height,
            forall|y: int| 0 <= y < self.height ==> self.cells@[y]@.len() == self.width,
        ensures
            snap@.len() == self.height,
            forall|y: int| 0 <= y < self.height ==> snap@[y]@.len() == self.width,
            bool_grid(snap@) == self.alive_view(),
    {
        let height = self.height as usize;
        let width = self.width as usize;
        let mut snap: Vec<Vec<bool>> = Vec::new();
        let mut y: usize = 0;
        while y < height
            invariant
                y <= height,
                height == self.height,
                width == self.width,
                self.cells@.len() == self.height,
                forall|r: int| 0 <= r < self.height ==> self.cells@[r]@.len() == self.width,
                snap@.len() == y,
                forall|r: int| 0 <= r < y ==> snap@[r]@.len() == width,
                forall|r: int, c: int|
                    0 <= r < y && 0 <= c < width ==> snap@[r]@[c] == self.cells@[r]@[c].alive,
            decreases height - y,
        {
            let mut row: Vec<bool> = Vec::new();
            let mut x: usize = 0;
            while x < width
                invariant
                    x <= width,
                    y < height,
                    height == self.height,
                    width == self.width,
                    self.cells@.len() == self.height,
                    forall|r: int| 0 <= r < self.height ==> self.cells@[r]@.len() == self.width,
                    row@.len() == x,
                    forall|c: int| 0 <= c < x ==> row@[c] == self.cells@[y as int]@[c].alive,
                decreases width - x,
            {
                row.push(self.cells[y][x].alive);
                x = x + 1;
            }
            snap.push(row);
            y = y + 1;
        }
        proof {
            assert(bool_grid(snap@) =~~= self.alive_view());
        }
        snap
    }

    /// Advance the grid by one generation, in place: every cell's new state
    /// is [`next_state`] of its old state and of the number of its live
    /// neighbours in the old generation, exactly [`step`] applied to the
    /// grid's alive flags. Dimensions and neighbour lists are untouched.
    pub fn advance(&mut self)
        requires
            old(self).wf(),
        ensures
            final(self).wf(),
            final(self).width == old(self).width,
            final(self).height == old(self).height,
            final(self).alive_view() == step(old(self).alive_view()),
    {
        let snap = self.snapshot_alive();
        let ghost g0 = old(self).alive_view();
        let width = self.width;
        let height = self.height;
        let mut y: usize = 0;
        while y < height as usize
            invariant
                y <= height,
                self.wf(),
                self.width == width,
                self.height == height,
                g0 == old(self).alive_view(),
                g0.len() == height,
                forall|r: int| 0 <= r < height ==> g0[r].len() == width,
                snap@.len() == height,
                forall|r: int| 0 <= r < height ==> snap@[r]@.len() == width,
                bool_grid(snap@) == g0,
                forall|r: int, c: int|
                    0 <= r < y && 0 <= c < width
                        ==> self.cells@[r]@[c].alive == next_state(
                        g0[r][c],
                        live_neighbour_count(g0, c, r),
                    ),
                forall|r: int, c: int|
                    y <= r < height && 0 <= c < width ==> self.cells@[r]@[c].alive == g0[r][c],
            decreases height - y,
        {
            let mut x: usize = 0;
            while x < width as usize
                invariant
                    x <= width,
                    y < height,
                    self.wf(),
                    self.width == width,
                    self.height == height,
                    g0 == old(self).alive_view(),
                    g0.len() == height,
                    forall|r: int| 0 <= r < height ==> g0[r].len() == width,
                    snap@.len() == height,
                    forall|r: int| 0 <= r < height ==> snap@[r]@.len() == width,
                    bool_grid(snap@) == g0,
                    forall|r: int, c: int|
                        0 <= r < y && 0 <= c < width
                            ==> self.cells@[r]@[c].alive == next_state(
                            g0[r][c],
                            live_neighbour_count(g0, c, r),
                        ),
                    forall|c: int|
                        0 <= c < x
                            ==> self.cells@[y as int]@[c].alive == next_state(
                            g0[y as int][c],
                            live_neighbour_count(g0, c, y as int),
                        ),
                    forall|c: int|
                        x <= c < width ==> self.cells@[y as int]@[c].alive == g0[y as int][c],
                    forall|r: int, c: int|
                        y < r < height && 0 <= c < width ==> self.cells@[r]@[c].alive == g0[r][c],
                decreases width - x,
            {
                proof {
                    lemma_neighbour_list_bounds(width as int, height as int, x as int, y as int);
                }
                let n = self.cells[y][x].neighbour_count(&snap);
                proof {
                    lemma_count_alive_neighbour_list(
                        g0,
                        width as int,
                        height as int,
                        x as int,
                        y as int,
                    );
                    assert(n == live_neighbour_count(g0, x as int, y as int));
                }
                let next = if n <= 1 {
                    false
                } else if n == 2 {
                    snap[y][x]
                } else if n == 3 {
                    true
                } else {
                    false
                };
                proof {
                    assert(snap@[y as int]@[x as int] == g0[y as int][x as int]);
                    assert(next == next_state(
                        g0[y as int][x as int],
                        live_neighbour_count(g0, x as int, y as int),
                    ));
                }
                self.cells[y][x].alive = next;
                x = x + 1;
            }
            y = y + 1;
        }
        proof {
            assert(self.alive_view() =~~= step(g0));
        }
    }

    /// Load an [`Object`] into the grid at the given offset, marking the
    /// cell at `(x + offset.0, y + offset.1)` alive for every `(x, y)` of
    /// the pattern. All-or-nothing: if any pattern coordinate lands outside
    /// the grid, the first such coordinate is reported and the grid is left
    /// unchanged; otherwise every offset coordinate is set alive and all
    /// other cells keep their state.
    pub fn load_object(&mut self, object: &Object, offset: (usize, usize)) -> (r: Result<
        (),
        OutOfBoundsError,
    >)
        requires
            old(self).wf(),
        ensures
            final(self).wf(),
            final(self).width == old(self).width,
            final(self).height == old(self).height,
            r is Ok <==> (forall|i: int|
                0 <= i < object.coordinates@.len()
                    ==> (#[trigger] object.coordinates@[i]).0 + offset.0 < old(self).width
                    && object.coordinates@[i].1 + offset.1 < old(self).height),
            r is Ok ==> forall|x: int, y: int|
                0 <= x < old(self).width && 0 <= y < old(self).height
                    ==> final(self).spec_alive(x, y) == (old(self).spec_alive(x, y) || exists|i: int|
                    0 <= i < object.coordinates@.len() && (#[trigger] object.coordinates@[i]).0
                        + offset.0 == x && object.coordinates@[i].1 + offset.1 == y),
            r is Err ==> *final(self) == *old(self),
            (match first_out_of_bounds(
                object.coordinates@,
                offset.0 as int,
                offset.1 as int,
                old(self).width as int,
                old(self).height as int,
            ) {
                Some(p) => r == Err::<(), OutOfBoundsError>((OutOfBoundsError { x: p.0, y: p.1 })),
                None => r is Ok,
            }),
    {
        let ghost coords = object.coordinates@;
        let ghost ox = offset.0 as int;
        let ghost oy = offset.1 as int;
        let ghost w = self.width as int;
        let ghost h = self.height as int;
        proof {
            lemma_first_out_of_bounds_none(coords, ox, oy, w, h);
            assert(coords.skip(0) =~= coords);
        }
        let width = self.width;
        let height = self.height;
        let mut i: usize = 0;
        while i < object.coordinates.len()
            invariant
                i <= coords.len(),
                coords == object.coordinates@,
                ox == offset.0 as int,
                oy == offset.1 as int,
                w == width as int,
                h == height as int,
                old(self).wf(),
                *self == *old(self),
                self.width == width,
                self.height == height,
                first_out_of_bounds(coords, ox, oy, w, h) == first_out_of_bounds(
                    coords.skip(i as int),
                    ox,
                    oy,
                    w,
                    h,
                ),
                forall|j: int|
                    0 <= j < i ==> (#[trigger] coords[j]).0 + ox < w && coords[j].1 + oy < h,
            decreases coords.len() - i,
        {
            let (cx, cy) = object.coordinates[i];
            let bad = if offset.0 > usize::MAX - cx {
                true
            } else if cx + offset.0 >= width as usize {
                true
            } else if offset.1 > usize::MAX - cy {
                true
            } else {
                cy + offset.1 >= height as usize
            };
            proof {
                assert(coords.skip(i as int)[0] == coords[i as int]);
                assert(bad == (coords[i as int].0 + ox >= w || coords[i as int].1 + oy >= h));
            }
            if bad {
                proof {
                    assert(first_out_of_bounds(coords.skip(i as int), ox, oy, w, h) == Some(
                        coords[i as int],
                    ));
                }
                return Err(OutOfBoundsError { x: cx, y: cy });
            }
            proof {
                assert(coords.skip(i as int).drop_first() =~= coords.skip(i as int + 1));
            }
            i = i + 1;
        }
        proof {
            assert(coords.skip(coords.len() as int) =~= Seq::<(usize, usize)>::empty());
            assert(first_out_of_bounds(coords, ox, oy, w, h) is None);
        }
        let mut k: usize = 0;
        while k < object.coordinates.len()
            invariant
                k <= coords.len(),
                coords == object.coordinates@,
                ox == offset.0 as int,
                oy == offset.1 as int,
                w == width as int,
                h == height as int,
                self.width == width,
                self.height == height,
                self.wf(),
                first_out_of_bounds(coords, ox, oy, w, h) is None,
                forall|j: int|
                    0 <= j < coords.len() ==> (#[trigger] coords[j]).0 + ox < w && coords[j].1 + oy
                        < h,
                forall|x: int, y: int|
                    0 <= x < w && 0 <= y < h ==> self.spec_alive(x, y) == (old(self).spec_alive(
                        x,
                        y,
                    ) || exists|j: int|
                        0 <= j < k && (#[trigger] coords[j]).0 + ox == x && coords[j].1 + oy == y),
            decreases coords.len() - k,
        {
            let ghost pre = *self;
            let (cx, cy) = object.coordinates[k];
            proof {
                assert(coords[k as int].0 + ox < w && coords[k as int].1 + oy < h);
            }
            let ax = cx + offset.0;
            let ay = cy + offset.1;
            self.cells[ay][ax].alive = true;
            proof {
                assert forall|x: int, y: int| 0 <= x < w && 0 <= y < h implies self.spec_alive(x, y)
                    == (old(self).spec_alive(x, y) || exists|j: int|
                    0 <= j < k + 1 && (#[trigger] coords[j]).0 + ox == x && coords[j].1 + oy
                        == y) by {
                    if x == ax as int && y == ay as int {
                        assert(coords[k as int].0 + ox == x && coords[k as int].1 + oy == y);
                        assert(self.spec_alive(x, y));
                    } else {
                        assert(self.spec_alive(x, y) == pre.spec_alive(x, y));
                        if exists|j: int|
                            0 <= j < k + 1 && (#[trigger] coords[j]).0 + ox == x && coords[j].1 + oy
                                == y {
                            let j = choose|j: int|
                                0 <= j < k + 1 && (#[trigger] coords[j]).0 + ox == x && coords[j].1
                                    + oy == y;
                            assert(j < k);
                        }
                    }
                }
            }
            k = k + 1;
        }
        Ok(())
    }

    /// The coordinates of all currently-alive cells, in row-then-column
    /// order: exactly the in-bounds positions whose cell is alive, each
    /// once, rows in increasing `y` and, within a row, increasing `x`.
    /// Read-only; meant for diagnostics and for feeding a renderer.
    pub fn alive_cells(&self) -> (r: Vec<(usize, usize)>)
        requires
            self.cells@.len() == self.height,
            forall|y: int| 0 <= y < self.height ==> self.cells@[y]@.len() == self.width,
        ensures
            forall|t: int|
                0 <= t < r@.len() ==> (#[trigger] r@[t]).0 < self.width && r@[t].1 < self.height
                    && self.spec_alive(r@[t].0 as int, r@[t].1 as int),
            forall|x: int, y: int|
                0 <= x < self.width && 0 <= y < self.height && self.spec_alive(x, y)
                    ==> r@.contains((x as usize, y as usize)),
            forall|a: int, b: int|
                0 <= a < b < r@.len() ==> (#[trigger] r@[a]).1 < (#[trigger] r@[b]).1 || (r@[a].1
                    == r@[b].1 && r@[a].0 < r@[b].0),
    {
        let width = self.width as usize;
        let height = self.height as usize;
        let mut r: Vec<(usize, usize)> = Vec::new();
        let mut y: usize = 0;
        while y < height
            invariant
                y <= height,
                width == self.width,
                height == self.height,
                self.cells@.len() == self.height,
                forall|row: int| 0 <= row < self.height ==> self.cells@[row]@.len() == self.width,
                forall|t: int|
                    0 <= t < r@.len() ==> (#[trigger] r@[t]).0 < width && r@[t].1 < y
                        && self.spec_alive(r@[t].0 as int, r@[t].1 as int),
                forall|x: int, yy: int|
                    0 <= x < width && 0 <= yy < y && self.spec_alive(x, yy) ==> r@.contains(
                        (x as usize, yy as usize),
                    ),
                forall|a: int, b: int|
                    0 <= a < b < r@.len() ==> (#[trigger] r@[a]).1 < (#[trigger] r@[b]).1 || (
                    r@[a].1 == r@[b].1 && r@[a].0 < r@[b].0),
            decreases height - y,
        {
            let mut x: usize = 0;
            while x < width
                invariant
                    x <= width,
                    y < height,
                    width == self.width,
                    height == self.height,
                    self.cells@.len() == self.height,
                    forall|row: int|
                        0 <= row < self.height ==> self.cells@[row]@.len() == self.width,
                    forall|t: int|
                        0 <= t < r@.len() ==> (#[trigger] r@[t]).0 < width && (r@[t].1 < y || (
                        r@[t].1 == y && r@[t].0 < x)) && self.spec_alive(
                            r@[t].0 as int,
                            r@[t].1 as int,
                        ),
                    forall|xx: int, yy: int|
                        0 <= xx < width && (0 <= yy < y || (yy == y && 0 <= xx < x))
                            && self.spec_alive(xx, yy) ==> r@.contains((xx as usize, yy as usize)),
                    forall|a: int, b: int|
                        0 <= a < b < r@.len() ==> (#[trigger] r@[a]).1 < (#[trigger] r@[b]).1 || (
                        r@[a].1 == r@[b].1 && r@[a].0 < r@[b].0),
                decreases width - x,
            {
                let ghost r0 = r@;
                if self.cells[y][x].alive {
                    r.push((x, y));
                }
                proof {
                    assert forall|xx: int, yy: int|
                        0 <= xx < width && (0 <= yy < y || (yy == y && 0 <= xx < x + 1))
                            && self.spec_alive(xx, yy) implies r@.contains(
                        (xx as usize, yy as usize),
                    ) by {
                        if yy == y && xx == x {
                            assert(r@.last() == (x as usize, y as usize));
                        } else {
                            assert(r0.contains((xx as usize, yy as usize)));
                            let t = choose|t: int|
                                0 <= t < r0.len() && r0[t] == (xx as usize, yy as usize);
                            assert(r@[t] == (xx as usize, yy as usize));
                        }
                    }
                }
                x = x + 1;
            }
            y = y + 1;
        }
        r
    }

    /// The in-bounds Moore neighbours of `(x, y)`, in row-major order,
    /// built from the two or three candidate offsets per axis.
    fn moore_neighbours(width: u32, height: u32, x: usize, y: usize) -> (v: Vec<(usize, usize)>)
        requires
            x < width,
            y < height,
        ensures
            v@ == neighbour_list(width as int, height as int, x as int, y as int),
    {
        let ghost w = width as int;
        let ghost h = height as int;
        let mut v: Vec<(usize, usize)> = Vec::new();
        if y > 0 {
            if x > 0 {
                v.push((x - 1, y - 1));
            }
            v.push((x, y - 1));
            if x + 1 < width as usize {
                v.push((x + 1, y - 1));
            }
        }
        assert(v@ =~= cand(w, h, x - 1, y - 1) + cand(w, h, x as int, y - 1) + cand(
            w,
            h,
            x + 1,
            y - 1,
        ));
        if x > 0 {
            v.push((x - 1, y));
        }
        if x + 1 < width as usize {
            v.push((x + 1, y));
        }
        if y + 1 < height as usize {
            if x > 0 {
                v.push((x - 1, y + 1));
            }
            v.push((x, y + 1));
            if x + 1 < width as usize {
                v.push((x + 1, y + 1));
            }
        }
        assert(v@ =~= neighbour_list(w, h, x as int, y as int));
        v
    }
}

} // verus!
