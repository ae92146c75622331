//! The square grid of column heights that a puzzle is built from.

use vstd::prelude::*;
use vstd::arithmetic::div_mod::lemma_div_is_ordered;
use crate::config::DRAW_RESOLUTION;
use crate::random::random_below;

verus! {

/// A grid of heights as a mathematical value: `g[x][y]` is the height of the
/// column at `(x, y)`.
pub type Heights = Seq<Seq<u8>>;

/// `g` is a square grid of side `n`.
pub open spec fn is_square(g: Heights, n: int) -> bool {
    &&& g.len() == n
    &&& forall|x: int| 0 <= x < n ==> (#[trigger] g[x]).len() == n
}

/// The height seen at `(x, y)`: the column's height inside the grid, and 0
/// anywhere outside it.
pub open spec fn sample(g: Heights, x: int, y: int) -> int {
    if 0 <= x < g.len() && 0 <= y < g[x].len() {
        g[x][y] as int
    } else {
        0
    }
}

/// The grid `g` with the column at `(x, y)` set to `h`.
pub open spec fn with_column(g: Heights, x: int, y: int, h: u8) -> Heights {
    g.update(x, g[x].update(y, h))
}

/// Number of non-zero entries among the first `n` of `s`.
pub open spec fn count_positive(s: Seq<u8>, n: int) -> int
    decreases n,
{
    if n <= 0 {
        0
    } else {
        count_positive(s, n - 1) + if s[n - 1] > 0 { 1int } else { 0int }
    }
}

/// Number of occupied columns (height above 0) in the first `n` rows of `g`.
pub open spec fn count_occupied(g: Heights, n: int) -> int
    decreases n,
{
    if n <= 0 {
        0
    } else {
        count_occupied(g, n - 1) + count_positive(g[n - 1], g[n - 1].len() as int)
    }
}

/// `h` is the height of the tallest column of `g`, and 0 for a grid without
/// columns.
pub open spec fn is_highest(g: Heights, h: int) -> bool {
    &&& forall|x: int, y: int| 0 <= x < g.len() && 0 <= y < g[x].len() ==> #[trigger] g[x][y] <= h
    &&& (h == 0 || exists|x: int, y: int| 0 <= x < g.len() && 0 <= y < g[x].len() && #[trigger] g[x][y] == h)
}

/// The height of the tallest column of `g`.
pub open spec fn highest(g: Heights) -> int {
    choose|h: int| is_highest(g, h)
}

/// A grid has exactly one tallest height.
pub proof fn lemma_highest_unique(g: Heights, h: int)
    requires
        is_highest(g, h),
    ensures
        highest(g) == h,
{
    let k = highest(g);
    assert(is_highest(g, k));
    if k != h {
        if k < h {
            assert(h != 0);
            let (x, y) = choose|x: int, y: int| 0 <= x < g.len() && 0 <= y < g[x].len() && #[trigger] g[x][y] == h;
            assert(g[x][y] <= k);
        } else {
            let (x, y) = choose|x: int, y: int| 0 <= x < g.len() && 0 <= y < g[x].len() && #[trigger] g[x][y] == k;
            assert(g[x][y] <= h);
        }
    }
}

/// The height of the column at `(x, y)` of a grid of side `size` that the raw
/// draw `d` gives: with `raw = 2 * d / DRAW_RESOLUTION` and
/// `offset = (x + y) / size`, it is the whole part of
/// `size * max(raw - offset, 0) / 1.5`, and at most 255.
///
/// Multiplied through by `size * DRAW_RESOLUTION`, the difference
/// `raw - offset` is `excess` below, and the height is the whole part of
/// `2 * excess / (3 * DRAW_RESOLUTION)`; no rounding happens on the way.
pub open spec fn weighted_height(x: int, y: int, size: int, d: int) -> int {
    let excess = 2 * d * size - (x + y) * DRAW_RESOLUTION;
    if excess <= 0 {
        0
    } else if (2 * excess) / (3 * DRAW_RESOLUTION) > 255 {
        255
    } else {
        (2 * excess) / (3 * DRAW_RESOLUTION)
    }
}

/// One raw draw gives a column no more height the farther the column is from
/// the corner `(0, 0)`.
pub proof fn lemma_height_falls_with_distance(x1: int, y1: int, x2: int, y2: int, size: int, d: int)
    requires
        x1 + y1 <= x2 + y2,
    ensures
        weighted_height(x2, y2, size, d) <= weighted_height(x1, y1, size, d),
{
    let near = 2 * d * size - (x1 + y1) * DRAW_RESOLUTION;
    let far = 2 * d * size - (x2 + y2) * DRAW_RESOLUTION;
    assert(far <= near) by (nonlinear_arith)
        requires
            x1 + y1 <= x2 + y2,
            near == 2 * d * size - (x1 + y1) * 0x20_0000_0000_0000,
            far == 2 * d * size - (x2 + y2) * 0x20_0000_0000_0000,
    ;
    if far > 0 {
        lemma_div_is_ordered(2 * far, 2 * near, 3 * DRAW_RESOLUTION);
    }
}

/// Some raw draw gives the column at `(x, y)` the height `h`.
pub open spec fn is_drawn_height(h: u8, x: int, y: int, size: int) -> bool {
    exists|d: int| 0 <= d < DRAW_RESOLUTION && h == #[trigger] weighted_height(x, y, size, d)
}

/// `b` is `a` with one column, anywhere in a grid of side `n`, set to a
/// height below `n`.
pub open spec fn is_change(a: Heights, b: Heights, n: int) -> bool {
    exists|x: int, y: int, h: u8|
        0 <= x < n && 0 <= y < n && h < n && b == #[trigger] with_column(a, x, y, h)
}

/// `b` comes from `a` by `steps` changes, one after the other.
pub open spec fn is_changed(a: Heights, b: Heights, n: int, steps: nat) -> bool
    decreases steps,
{
    if steps == 0 {
        a == b
    } else {
        exists|m: Heights| is_changed(a, m, n, (steps - 1) as nat) && #[trigger] is_change(m, b, n)
    }
}

/// Changes keep a grid square.
pub proof fn lemma_changed_is_square(a: Heights, b: Heights, n: int, steps: nat)
    requires
        is_square(a, n),
        is_changed(a, b, n, steps),
    ensures
        is_square(b, n),
    decreases steps,
{
    if steps > 0 {
        let m = choose|m: Heights|
            is_changed(a, m, n, (steps - 1) as nat) && #[trigger] is_change(m, b, n);
        lemma_changed_is_square(a, m, n, (steps - 1) as nat);
    }
}

/// A grid makes a puzzle when more than five of its columns are occupied and
/// its tallest column is not exactly 1 high.
pub open spec fn is_playable(g: Heights) -> bool {
    count_occupied(g, g.len() as int) > 5 && highest(g) != 1
}

/// At most `n` of the first `n` entries are non-zero.
pub proof fn lemma_count_positive_bound(s: Seq<u8>, n: int)
    ensures
        0 <= count_positive(s, n),
        n >= 0 ==> count_positive(s, n) <= n,
    decreases n,
{
    if n > 0 {
        lemma_count_positive_bound(s, n - 1);
    }
}

/// A square grid of side `n` has at most `n * n` occupied columns.
pub proof fn lemma_count_occupied_bound(g: Heights, n: int, rows: int)
    requires
        is_square(g, n),
        0 <= rows <= n,
    ensures
        0 <= count_occupied(g, rows) <= rows * n,
    decreases rows,
{
    if rows > 0 {
        lemma_count_occupied_bound(g, n, rows - 1);
        lemma_count_positive_bound(g[rows - 1], n);
        assert(rows * n == (rows - 1) * n + n) by (nonlinear_arith);
    } else {
        assert(rows * n == 0) by (nonlinear_arith)
            requires rows == 0;
    }
}

/// The height that the raw draw `draw` gives the column at `(x, y)` of a grid
/// of side `size`.
pub fn gen_random_column(x: u8, y: u8, draw: u64, size: u8) -> (height: u8)
    requires
        draw < DRAW_RESOLUTION,
    ensures
        height == weighted_height(x as int, y as int, size as int, draw as int),
        is_drawn_height(height, x as int, y as int, size as int),
{
    let twice: u64 = 2 * draw;
    assert(twice * size <= 0x40_0000_0000_0000 * 255) by (nonlinear_arith)
        requires
            twice < 0x40_0000_0000_0000,
            size <= 255,
    ;
    let gained: u64 = twice * (size as u64);
    let offset: u64 = (x as u64 + y as u64) * DRAW_RESOLUTION;
    if gained <= offset {
        0
    } else {
        let adjusted: u64 = (2 * (gained - offset)) / (3 * DRAW_RESOLUTION);
        if adjusted > 255 {
            255
        } else {
            adjusted as u8
        }
    }
}

/// A square grid of columns; `columns[x][y]` is the height of the column at
/// `(x, y)`.
#[derive(Debug)]
pub struct ColumnGrid {
    pub sidelen: u8,
    pub columns: Vec<Vec<u8>>,
}

impl Clone for ColumnGrid {
    fn clone(&self) -> (out: Self)
        ensures
            out.sidelen == self.sidelen,
            out@ == self@,
    {
        let mut columns: Vec<Vec<u8>> = Vec::new();
        let mut x: usize = 0;
        while x < self.columns.len()
            invariant
                x <= self.columns.len(),
                columns.len() == x,
                forall|i: int| 0 <= i < x ==> (#[trigger] columns[i])@ == self.columns[i]@,
            decreases self.columns.len() - x,
        {
            let column = self.columns[x].clone();
            columns.push(column);
            x += 1;
        }
        let out = Self { sidelen: self.sidelen, columns };
        assert(out@ =~= self@);
        out
    }
}

impl View for ColumnGrid {
    type V = Heights;

    open spec fn view(&self) -> Heights {
        Seq::new(self.columns.len() as nat, |x: int| self.columns[x]@)
    }
}

impl ColumnGrid {
    /// The grid is square, of side `sidelen`.
    pub open spec fn wf(&self) -> bool {
        is_square(self@, self.sidelen as int)
    }

    /// A grid of the given side with every column empty.
    pub fn new(sidelen: u8) -> (out: Self)
        ensures
            out.wf(),
            out.sidelen == sidelen,
            forall|x: int, y: int| 0 <= x < sidelen && 0 <= y < sidelen ==> #[trigger] out@[x][y] == 0,
    {
        let mut columns: Vec<Vec<u8>> = Vec::new();
        let mut x: u8 = 0;
        while x < sidelen
            invariant
                x <= sidelen,
                columns.len() == x,
                forall|i: int| 0 <= i < x ==> (#[trigger] columns[i]).len() == sidelen,
                forall|i: int, j: int| 0 <= i < x && 0 <= j < sidelen ==> #[trigger] columns[i][j] == 0,
            decreases sidelen - x,
        {
            let mut column: Vec<u8> = Vec::new();
            let mut y: u8 = 0;
            while y < sidelen
                invariant
                    y <= sidelen,
                    column.len() == y,
                    forall|j: int| 0 <= j < y ==> #[trigger] column[j] == 0,
                decreases sidelen - y,
            {
                column.push(0);
                y += 1;
            }
            columns.push(column);
            x += 1;
        }
        Self { sidelen, columns }
    }

    /// Sets the height of the column at `(x, y)`.
    pub fn set_column(&mut self, x: u8, y: u8, height: u8)
        requires
            old(self).wf(),
            x < old(self).sidelen,
            y < old(self).sidelen,
        ensures
            final(self).wf(),
            final(self).sidelen == old(self).sidelen,
            final(self)@ == with_column(old(self)@, x as int, y as int, height),
    {
        assert(self@[x as int].len() == self.sidelen);
        self.columns[x as usize][y as usize] = height;
        assert(self@ =~= with_column(old(self)@, x as int, y as int, height));
    }

    /// Number of columns with a height above 0.
    pub fn count_occupied_columns(&self) -> (count: u32)
        requires
            self.wf(),
        ensures
            count == count_occupied(self@, self.sidelen as int),
    {
        let mut count: u32 = 0;
        let mut x: usize = 0;
        while x < self.columns.len()
            invariant
                self.wf(),
                x <= self.columns.len(),
                count == count_occupied(self@, x as int),
                count <= x * 255,
            decreases self.columns.len() - x,
        {
            let column = &self.columns[x];
            assert(column@ == self@[x as int]);
            let mut y: usize = 0;
            let ghost before = count;
            while y < column.len()
                invariant
                    y <= column.len(),
                    column.len() <= 255,
                    before <= x * 255,
                    x < 255,
                    count == before + count_positive(column@, y as int),
                    count <= before + y,
                decreases column.len() - y,
            {
                if column[y] > 0 {
                    count += 1;
                }
                y += 1;
            }
            x += 1;
        }
        count
    }

    /// Height of the tallest column; 0 for a grid without columns.
    pub fn highest_column(&self) -> (highest: u8)
        ensures
            is_highest(self@, highest as int),
            highest == self::highest(self@),
    {
        let mut highest: u8 = 0;
        let mut x: usize = 0;
        while x < self.columns.len()
            invariant
                x <= self.columns.len(),
                forall|i: int, j: int| 0 <= i < x && 0 <= j < self@[i].len() ==> #[trigger] self@[i][j] <= highest,
                highest == 0 || exists|i: int, j: int| 0 <= i < self@.len() && 0 <= j < self@[i].len() && #[trigger] self@[i][j] == highest,
            decreases self.columns.len() - x,
        {
            let column = &self.columns[x];
            assert(column@ == self@[x as int]);
            let mut y: usize = 0;
            while y < column.len()
                invariant
                    y <= column.len(),
                    x < self.columns.len(),
                    column@ == self@[x as int],
                    forall|i: int, j: int| 0 <= i < x && 0 <= j < self@[i].len() ==> #[trigger] self@[i][j] <= highest,
                    forall|j: int| 0 <= j < y ==> #[trigger] column[j] <= highest,
                    highest == 0 || exists|i: int, j: int| 0 <= i < self@.len() && 0 <= j < self@[i].len() && #[trigger] self@[i][j] == highest,
                decreases column.len() - y,
            {
                if column[y] > highest {
                    highest = column[y];
                    assert(self@[x as int][y as int] == highest);
                }
                y += 1;
            }
            x += 1;
        }
        proof {
            lemma_highest_unique(self@, highest as int);
        }
        highest
    }

    /// A grid of the given side whose column heights are drawn at random,
    /// each from one raw draw, lower on average the farther a column is from
    /// the corner `(0, 0)`.
    pub fn new_random(sidelength: u8) -> (out: Self)
        ensures
            out.wf(),
            out.sidelen == sidelength,
            forall|x: int, y: int| 0 <= x < sidelength && 0 <= y < sidelength
                ==> is_drawn_height(#[trigger] out@[x][y], x, y, sidelength as int),
    {
        let mut out = Self::new(sidelength);
        let mut x: u8 = 0;
        while x < sidelength
            invariant
                x <= sidelength,
                out.wf(),
                out.sidelen == sidelength,
                forall|i: int, j: int| 0 <= i < x && 0 <= j < sidelength
                    ==> is_drawn_height(#[trigger] out@[i][j], i, j, sidelength as int),
            decreases sidelength - x,
        {
            let mut y: u8 = 0;
            while y < sidelength
                invariant
                    x < sidelength,
                    y <= sidelength,
                    out.wf(),
                    out.sidelen == sidelength,
                    forall|i: int, j: int| 0 <= i < x && 0 <= j < sidelength
                        ==> is_drawn_height(#[trigger] out@[i][j], i, j, sidelength as int),
                    forall|j: int| 0 <= j < y
                        ==> is_drawn_height(#[trigger] out@[x as int][j], x as int, j, sidelength as int),
                decreases sidelength - y,
            {
                let draw = random_below(DRAW_RESOLUTION);
                let height = gen_random_column(x, y, draw, sidelength);
                out.set_column(x, y, height);
                y += 1;
            }
            x += 1;
        }
        out
    }

    /// Sets one column, chosen at random, to a height chosen at random below
    /// the side length.
    pub fn random_change(&mut self)
        requires
            old(self).wf(),
            old(self).sidelen > 0,
        ensures
            final(self).wf(),
            final(self).sidelen == old(self).sidelen,
            is_change(old(self)@, final(self)@, old(self).sidelen as int),
    {
        let x = random_below(self.sidelen as u64) as u8;
        let y = random_below(self.sidelen as u64) as u8;
        let h = random_below(self.sidelen as u64) as u8;
        self.set_column(x, y, h);
        assert(self@ == with_column(old(self)@, x as int, y as int, h));
    }

    /// Makes `ch` random changes, one after the other.
    pub fn random_changes(&mut self, ch: u32)
        requires
            old(self).wf(),
            ch > 0 ==> old(self).sidelen > 0,
        ensures
            final(self).wf(),
            final(self).sidelen == old(self).sidelen,
            is_changed(old(self)@, final(self)@, old(self).sidelen as int, ch as nat),
    {
        let mut done: u32 = 0;
        while done < ch
            invariant
                done <= ch,
                self.wf(),
                self.sidelen == old(self).sidelen,
                ch > 0 ==> self.sidelen > 0,
                is_changed(old(self)@, self@, old(self).sidelen as int, done as nat),
            decreases ch - done,
        {
            let ghost before = self@;
            self.random_change();
            done += 1;
            proof {
                let n = old(self).sidelen as int;
                let steps = done as nat;
                assert(is_changed(old(self)@, before, n, (steps - 1) as nat));
                assert(is_change(before, self@, n));
                assert(is_changed(old(self)@, self@, n, steps));
            }
        }
    }

    /// Whether the grid makes a puzzle.
    pub fn is_playable(&self) -> (ok: bool)
        requires
            self.wf(),
        ensures
            ok == self::is_playable(self@),
    {
        self.count_occupied_columns() > 5 && self.highest_column() != 1
    }
}

} // verus!
