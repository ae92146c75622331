//! The top-down wireframe of a column grid, and the comparison of two of them.

use vstd::prelude::*;
use vstd::string::StringExecFns;
use crate::columngrid::{sample, ColumnGrid, Heights};

verus! {

/// One square of a net: which of its four sides carry an edge, whether the
/// column under it is occupied, and how it is drawn.
#[derive(Clone, Copy, Debug, PartialEq, Eq, Structural)]
pub struct NetSquare {
    pub top: bool,
    pub bottom: bool,
    pub left: bool,
    pub right: bool,
    pub texindex: u32,
    pub layer: u8,
    pub fill: bool,
}

/// The squares of a net as a mathematical value, indexed like the grid.
pub type Squares = Seq<Seq<NetSquare>>;

/// The two squares carry edges on the same sides.
pub open spec fn same_edges(a: NetSquare, b: NetSquare) -> bool {
    a.top == b.top && a.left == b.left && a.right == b.right && a.bottom == b.bottom
}

/// `s` is a square arrangement of side `n`.
pub open spec fn is_square_net(s: Squares, n: int) -> bool {
    &&& s.len() == n
    &&& forall|x: int| 0 <= x < n ==> (#[trigger] s[x]).len() == n
}

/// Two nets of one side length are structurally equivalent when every square
/// of the one carries its edges on the same sides as the square at the same
/// place of the other. Occupancy and the drawing attributes play no part.
pub open spec fn equivalent(a: Squares, b: Squares) -> bool {
    forall|x: int, y: int|
        0 <= x < a.len() && 0 <= y < a[x].len() ==> same_edges(#[trigger] a[x][y], b[x][y])
}

/// The square of the net at `(x, y)`: a side carries an edge exactly when the
/// height seen across it differs from the height of the column itself.
pub open spec fn projected_square(g: Heights, x: int, y: int, texindex: u32, layer: u8) -> NetSquare {
    let current = sample(g, x, y);
    NetSquare {
        top: sample(g, x, y - 1) != current,
        bottom: sample(g, x, y + 1) != current,
        left: sample(g, x + 1, y) != current,
        right: sample(g, x - 1, y) != current,
        texindex,
        layer,
        fill: current != 0,
    }
}

/// The net of the grid `g`.
pub open spec fn projection(g: Heights, texindex: u32, layer: u8) -> Squares {
    Seq::new(
        g.len(),
        |x: int| Seq::new(g.len(), |y: int| projected_square(g, x, y, texindex, layer)),
    )
}

/// The four letters and the blank that describe one square: a capital for a
/// side with an edge, a small letter for one without.
pub open spec fn side_code(sq: NetSquare) -> Seq<char> {
    seq![
        if sq.top { 'T' } else { 't' },
        if sq.bottom { 'B' } else { 'b' },
        if sq.left { 'L' } else { 'l' },
        if sq.right { 'R' } else { 'r' },
        ' ',
    ]
}

/// The codes of the first `n` squares of row `y`, from left to right.
pub open spec fn row_code(s: Squares, y: int, n: int) -> Seq<char>
    decreases n,
{
    if n <= 0 {
        Seq::empty()
    } else {
        row_code(s, y, n - 1) + side_code(s[n - 1][y])
    }
}

/// The codes of the first `rows` rows, each row closed by a line feed.
pub open spec fn net_code(s: Squares, rows: int) -> Seq<char>
    decreases rows,
{
    if rows <= 0 {
        Seq::empty()
    } else {
        net_code(s, rows - 1) + row_code(s, rows - 1, s.len() as int) + seq!['\n']
    }
}

/// The height of the column at `(x, y)`, and 0 for a place outside the grid.
pub fn sample_column_grid(x: i16, y: i16, cg: &ColumnGrid) -> (height: u8)
    requires
        cg.wf(),
    ensures
        height == sample(cg@, x as int, y as int),
{
    let sidelen: i16 = cg.sidelen as i16;
    if x < 0 || y < 0 {
        0
    } else if x >= sidelen || y >= sidelen {
        0
    } else {
        assert(cg@[x as int].len() == cg.sidelen);
        cg.columns[x as usize][y as usize]
    }
}

impl NetSquare {
    /// A square without edges.
    pub fn blank(texindex: u32, layer: u8, fill: bool) -> (sq: Self)
        ensures
            sq == (NetSquare {
                top: false,
                bottom: false,
                left: false,
                right: false,
                texindex,
                layer,
                fill,
            }),
    {
        Self { top: false, bottom: false, left: false, right: false, texindex, layer, fill }
    }

    /// The square's sides as four letters and a blank.
    pub fn side_debug_info(&self) -> (out: String)
        ensures
            out@ == side_code(*self),
    {
        proof {
            reveal_strlit("T");
            reveal_strlit("t");
            reveal_strlit("B");
            reveal_strlit("b");
            reveal_strlit("L");
            reveal_strlit("l");
            reveal_strlit("R");
            reveal_strlit("r");
            reveal_strlit(" ");
        }
        let mut out = String::new();
        if self.top {
            out.append("T");
        } else {
            out.append("t");
        }
        if self.bottom {
            out.append("B");
        } else {
            out.append("b");
        }
        if self.left {
            out.append("L");
        } else {
            out.append("l");
        }
        if self.right {
            out.append("R");
        } else {
            out.append("r");
        }
        out.append(" ");
        assert(out@ =~= side_code(*self));
        out
    }
}

/// The top-down wireframe of one column grid.
#[derive(Debug)]
pub struct Net {
    sidelen: u8,
    squares: Vec<Vec<NetSquare>>,
    layer: u8,
}

impl View for Net {
    type V = Squares;

    closed spec fn view(&self) -> Squares {
        Seq::new(self.squares.len() as nat, |x: int| self.squares[x]@)
    }
}

impl Clone for Net {
    fn clone(&self) -> (out: Self)
        ensures
            out@ == self@,
            out.spec_layer() == self.spec_layer(),
    {
        proof {
            use_type_invariant(self);
        }
        let mut squares: Vec<Vec<NetSquare>> = Vec::new();
        let mut x: usize = 0;
        while x < self.squares.len()
            invariant
                is_square_net(self@, self.sidelen as int),
                x <= self.squares.len(),
                squares.len() == x,
                forall|i: int| 0 <= i < x ==> (#[trigger] squares[i])@ == self.squares[i]@,
            decreases self.squares.len() - x,
        {
            let row = self.squares[x].clone();
            squares.push(row);
            x += 1;
        }
        let ghost copied = Seq::new(squares.len() as nat, |i: int| squares[i]@);
        assert(copied =~= self@);
        let out = Self { sidelen: self.sidelen, squares, layer: self.layer };
        out
    }
}

impl Net {
    #[verifier::type_invariant]
    spec fn inv(&self) -> bool {
        is_square_net(self@, self.sidelen as int)
    }

    /// The layer the net is drawn on.
    pub closed spec fn spec_layer(&self) -> u8 {
        self.layer
    }

    /// The net of the grid `cg`, to be drawn with the given texture on the
    /// given layer.
    pub fn from_columngrid(cg: &ColumnGrid, texindex: u32, layer: u8) -> (net: Self)
        requires
            cg.wf(),
        ensures
            net@ == projection(cg@, texindex, layer),
            net.spec_layer() == layer,
    {
        let sidelen = cg.sidelen;
        let side: i16 = sidelen as i16;
        let mut squares: Vec<Vec<NetSquare>> = Vec::new();
        let mut x: i16 = 0;
        while x < side
            invariant
                cg.wf(),
                side == cg.sidelen,
                0 <= x <= side,
                squares.len() == x,
                forall|i: int| 0 <= i < x ==> (#[trigger] squares[i]).len() == side,
                forall|i: int, j: int| 0 <= i < x && 0 <= j < side
                    ==> #[trigger] squares[i][j] == projected_square(cg@, i, j, texindex, layer),
            decreases side - x,
        {
            let mut row: Vec<NetSquare> = Vec::new();
            let mut y: i16 = 0;
            while y < side
                invariant
                    cg.wf(),
                    side == cg.sidelen,
                    0 <= x < side,
                    0 <= y <= side,
                    row.len() == y,
                    forall|j: int| 0 <= j < y
                        ==> #[trigger] row[j] == projected_square(cg@, x as int, j, texindex, layer),
                decreases side - y,
            {
                let mut sq = NetSquare::blank(texindex, layer, false);
                let current = sample_column_grid(x, y, cg);
                if current != 0 {
                    sq.fill = true;
                }
                sq.top = sample_column_grid(x, y - 1, cg) != current;
                sq.bottom = sample_column_grid(x, y + 1, cg) != current;
                sq.right = sample_column_grid(x - 1, y, cg) != current;
                sq.left = sample_column_grid(x + 1, y, cg) != current;
                row.push(sq);
                y += 1;
            }
            squares.push(row);
            x += 1;
        }
        let net = Self { sidelen, squares, layer };
        assert(net@ =~~= projection(cg@, texindex, layer));
        net
    }

    /// The side length of the net.
    pub fn sidelen(&self) -> (n: u8)
        ensures
            n == self@.len(),
            is_square_net(self@, n as int),
    {
        proof {
            use_type_invariant(self);
        }
        self.sidelen
    }

    /// The layer the net is drawn on.
    pub fn layer(&self) -> (l: u8)
        ensures
            l == self.spec_layer(),
    {
        self.layer
    }

    /// The square at `(x, y)`.
    pub fn square(&self, x: u8, y: u8) -> (sq: NetSquare)
        requires
            x < self@.len(),
            y < self@.len(),
        ensures
            sq == self@[x as int][y as int],
    {
        proof {
            use_type_invariant(self);
        }
        assert(self@[x as int].len() == self.sidelen);
        self.squares[x as usize][y as usize]
    }

    /// Whether the two nets are structurally equivalent.
    pub fn is_identical(&self, other: &Net) -> (same: bool)
        requires
            self@.len() == other@.len(),
        ensures
            same == equivalent(self@, other@),
    {
        proof {
            use_type_invariant(self);
            use_type_invariant(other);
        }
        let mut x: usize = 0;
        while x < self.squares.len()
            invariant
                is_square_net(self@, self.sidelen as int),
                is_square_net(other@, self.sidelen as int),
                x <= self.squares.len(),
                forall|i: int, j: int| 0 <= i < x && 0 <= j < self@[i].len()
                    ==> same_edges(#[trigger] self@[i][j], other@[i][j]),
            decreases self.squares.len() - x,
        {
            let mine = &self.squares[x];
            let theirs = &other.squares[x];
            assert(mine@ == self@[x as int]);
            assert(theirs@ == other@[x as int]);
            let mut y: usize = 0;
            while y < mine.len()
                invariant
                    x < self@.len(),
                    mine@ == self@[x as int],
                    theirs@ == other@[x as int],
                    mine.len() == theirs.len(),
                    y <= mine.len(),
                    forall|j: int| 0 <= j < y ==> same_edges(#[trigger] mine[j], theirs[j]),
                decreases mine.len() - y,
            {
                let s1 = mine[y];
                let s2 = theirs[y];
                if !(s1.top == s2.top && s1.left == s2.left && s1.right == s2.right
                    && s1.bottom == s2.bottom) {
                    assert(!same_edges(self@[x as int][y as int], other@[x as int][y as int]));
                    return false;
                }
                y += 1;
            }
            x += 1;
        }
        true
    }

    /// The sides of every square, row by row from the top, one line a row.
    pub fn square_debug_info(&self) -> (out: String)
        ensures
            out@ == net_code(self@, self@.len() as int),
    {
        proof {
            use_type_invariant(self);
        }
        let mut out = String::new();
        let mut y: u8 = 0;
        while y < self.sidelen
            invariant
                is_square_net(self@, self.sidelen as int),
                y <= self.sidelen,
                out@ == net_code(self@, y as int),
            decreases self.sidelen - y,
        {
            let mut x: u8 = 0;
            while x < self.sidelen
                invariant
                    is_square_net(self@, self.sidelen as int),
                    y < self.sidelen,
                    x <= self.sidelen,
                    out@ == net_code(self@, y as int) + row_code(self@, y as int, x as int),
                decreases self.sidelen - x,
            {
                let code = self.square(x, y).side_debug_info();
                out.append(code.as_str());
                x += 1;
                assert(out@ =~= net_code(self@, y as int) + row_code(self@, y as int, x as int));
            }
            out.append("\n");
            y += 1;
            proof {
                reveal_strlit("\n");
                assert("\n"@ =~= seq!['\n']);
            }
        }
        out
    }
}

/// The net of a grid is square, of the grid's side.
pub proof fn lemma_projection_is_square(g: Heights, texindex: u32, layer: u8)
    ensures
        is_square_net(projection(g, texindex, layer), g.len() as int),
{
}

/// Projecting is a function of the grid: two nets made from the same grid
/// with the same drawing attributes have the same squares, and are
/// structurally equivalent.
pub proof fn lemma_projection_deterministic(a: Net, b: Net, g: Heights, texindex: u32, layer: u8)
    requires
        a@ == projection(g, texindex, layer),
        b@ == projection(g, texindex, layer),
    ensures
        a@ == b@,
        equivalent(a@, b@),
{
}

/// Every net is equivalent to itself.
pub proof fn lemma_equivalent_reflexive(a: Squares)
    ensures
        equivalent(a, a),
{
}

/// Equivalence of two nets of one side length does not depend on their order.
pub proof fn lemma_equivalent_symmetric(a: Squares, b: Squares, n: int)
    requires
        is_square_net(a, n),
        is_square_net(b, n),
    ensures
        equivalent(a, b) == equivalent(b, a),
{
    if equivalent(a, b) {
        assert forall|x: int, y: int| 0 <= x < b.len() && 0 <= y < b[x].len() implies same_edges(
            #[trigger] b[x][y],
            a[x][y],
        ) by {
            assert(same_edges(a[x][y], b[x][y]));
        }
    }
    if equivalent(b, a) {
        assert forall|x: int, y: int| 0 <= x < a.len() && 0 <= y < a[x].len() implies same_edges(
            #[trigger] a[x][y],
            b[x][y],
        ) by {
            assert(same_edges(b[x][y], a[x][y]));
        }
    }
}

/// Two nets that are each equivalent to a third of the same side length are
/// equivalent to each other.
pub proof fn lemma_equivalent_transitive(a: Squares, b: Squares, c: Squares, n: int)
    requires
        is_square_net(a, n),
        is_square_net(b, n),
        is_square_net(c, n),
        equivalent(a, b),
        equivalent(b, c),
    ensures
        equivalent(a, c),
{
    assert forall|x: int, y: int| 0 <= x < a.len() && 0 <= y < a[x].len() implies same_edges(
        #[trigger] a[x][y],
        c[x][y],
    ) by {
        assert(same_edges(a[x][y], b[x][y]));
        assert(same_edges(b[x][y], c[x][y]));
    }
}

/// The heights seen at two places of `g` are equal exactly when those seen at
/// the same two places of `h` are.
pub open spec fn same_step(g: Heights, h: Heights, x: int, y: int, nx: int, ny: int) -> bool {
    (sample(g, nx, ny) == sample(g, x, y)) == (sample(h, nx, ny) == sample(h, x, y))
}

/// A net shows where neighbouring heights differ, not by how much: two grids
/// of one side length in which the same neighbours differ have equivalent
/// nets.
pub proof fn lemma_projection_keeps_differences_only(g: Heights, h: Heights, texindex: u32, layer: u8)
    requires
        g.len() == h.len(),
        forall|x: int, y: int| 0 <= x < g.len() && 0 <= y < g.len() ==> {
            &&& #[trigger] same_step(g, h, x, y, x, y - 1)
            &&& same_step(g, h, x, y, x, y + 1)
            &&& same_step(g, h, x, y, x - 1, y)
            &&& same_step(g, h, x, y, x + 1, y)
        },
    ensures
        equivalent(projection(g, texindex, layer), projection(h, texindex, layer)),
{
    let a = projection(g, texindex, layer);
    let b = projection(h, texindex, layer);
    assert forall|x: int, y: int| 0 <= x < a.len() && 0 <= y < a[x].len() implies same_edges(
        #[trigger] a[x][y],
        b[x][y],
    ) by {
        assert(same_step(g, h, x, y, x, y - 1));
    }
}

/// The net of a grid of one occupied column has a single square, with an edge
/// on each of its four sides.
pub proof fn lemma_single_column_has_all_edges(height: u8, texindex: u32, layer: u8)
    requires
        height > 0,
    ensures
        projection(seq![seq![height]], texindex, layer) == seq![
            seq![
                (NetSquare {
                    top: true,
                    bottom: true,
                    left: true,
                    right: true,
                    texindex,
                    layer,
                    fill: true,
                }),
            ],
        ],
{
    let g = seq![seq![height]];
    assert(sample(g, 0, 0) == height);
    assert(projection(g, texindex, layer) =~~= seq![
        seq![
            (NetSquare {
                top: true,
                bottom: true,
                left: true,
                right: true,
                texindex,
                layer,
                fill: true,
            }),
        ],
    ]);
}

} // verus!
