//! The seven pieces, their shapes and their rotation.
use vstd::prelude::*;

verus! {

/// The seven piece kinds.
#[derive(Clone, Copy, Debug, PartialEq, Eq, Structural)]
pub enum TetrominoType {
    I,
    O,
    T,
    S,
    Z,
    J,
    L,
}

/// Display identity of a piece; the engine only copies and compares it.
#[derive(Clone, Copy, Debug, PartialEq, Eq, Structural)]
pub enum PieceColor {
    Cyan,
    Yellow,
    Magenta,
    Green,
    Red,
    Blue,
    White,
}

/// A piece: a square occupancy matrix, its color and its kind.
#[derive(Clone, Debug)]
pub struct Tetromino {
    pub shape: Vec<Vec<bool>>,
    pub color: PieceColor,
    pub typ: TetrominoType,
}

/// A matrix of booleans with `n` rows of `n` entries each.
pub open spec fn is_square(m: Seq<Seq<bool>>) -> bool {
    forall|i: int| 0 <= i < m.len() ==> #[trigger] m[i].len() == m.len()
}

/// Whether some entry of the matrix is occupied.
pub open spec fn has_block(m: Seq<Seq<bool>>) -> bool {
    exists|i: int, j: int| 0 <= i < m.len() && 0 <= j < m[i].len() && #[trigger] m[i][j]
}

/// How many of the first `j` entries of row `r` are occupied.
pub open spec fn row_blocks(r: Seq<bool>, j: int) -> int
    decreases j,
{
    if j <= 0 {
        0
    } else {
        row_blocks(r, j - 1) + if r[j - 1] { 1int } else { 0int }
    }
}

/// Sum of the column numbers of the occupied entries among the first `j` of row `r`.
pub open spec fn row_column_sum(r: Seq<bool>, j: int) -> int
    decreases j,
{
    if j <= 0 {
        0
    } else {
        row_column_sum(r, j - 1) + if r[j - 1] { j - 1 } else { 0int }
    }
}

/// How many entries of the first `i` rows of `m` are occupied.
pub open spec fn blocks(m: Seq<Seq<bool>>, i: int) -> int
    decreases i,
{
    if i <= 0 {
        0
    } else {
        blocks(m, i - 1) + row_blocks(m[i - 1], m.len() as int)
    }
}

/// Sum of the row numbers of the occupied entries of the first `i` rows of `m`.
pub open spec fn row_number_sum(m: Seq<Seq<bool>>, i: int) -> int
    decreases i,
{
    if i <= 0 {
        0
    } else {
        row_number_sum(m, i - 1) + (i - 1) * row_blocks(m[i - 1], m.len() as int)
    }
}

/// Sum of the column numbers of the occupied entries of the first `i` rows of `m`.
pub open spec fn column_sum(m: Seq<Seq<bool>>, i: int) -> int
    decreases i,
{
    if i <= 0 {
        0
    } else {
        column_sum(m, i - 1) + row_column_sum(m[i - 1], m.len() as int)
    }
}

/// The quarter turn clockwise: entry `(i, j)` moves to `(j, n - 1 - i)`,
/// so entry `(r, c)` of the result is entry `(n - 1 - c, r)` of the input.
pub open spec fn rotated(m: Seq<Seq<bool>>) -> Seq<Seq<bool>> {
    Seq::new(m.len(), |r: int| Seq::new(m.len(), |c: int| m[m.len() - 1 - c][r]))
}

/// The canonical shape of each kind.
pub open spec fn shape_of(t: TetrominoType) -> Seq<Seq<bool>> {
    match t {
        TetrominoType::I => seq![
            seq![false, false, false, false],
            seq![true, true, true, true],
            seq![false, false, false, false],
            seq![false, false, false, false],
        ],
        TetrominoType::O => seq![seq![true, true], seq![true, true]],
        TetrominoType::T => seq![
            seq![false, true, false],
            seq![true, true, true],
            seq![false, false, false],
        ],
        TetrominoType::S => seq![
            seq![false, true, true],
            seq![true, true, false],
            seq![false, false, false],
        ],
        TetrominoType::Z => seq![
            seq![true, true, false],
            seq![false, true, true],
            seq![false, false, false],
        ],
        TetrominoType::J => seq![
            seq![true, false, false],
            seq![true, true, true],
            seq![false, false, false],
        ],
        TetrominoType::L => seq![
            seq![false, false, true],
            seq![true, true, true],
            seq![false, false, false],
        ],
    }
}

/// The color that goes with each kind.
pub open spec fn color_of(t: TetrominoType) -> PieceColor {
    match t {
        TetrominoType::I => PieceColor::Cyan,
        TetrominoType::O => PieceColor::Yellow,
        TetrominoType::T => PieceColor::Magenta,
        TetrominoType::S => PieceColor::Green,
        TetrominoType::Z => PieceColor::Red,
        TetrominoType::J => PieceColor::Blue,
        TetrominoType::L => PieceColor::White,
    }
}

/// Rotating four times gives back the matrix one started from.
pub proof fn lemma_rotate_four_times(m: Seq<Seq<bool>>)
    requires
        is_square(m),
    ensures
        rotated(rotated(rotated(rotated(m)))) =~~= m,
{
    let n = m.len();
    let r4 = rotated(rotated(rotated(rotated(m))));
    assert forall|i: int| 0 <= i < n implies #[trigger] r4[i] =~= m[i] by {
        assert forall|j: int| 0 <= j < n implies r4[i][j] == m[i][j] by {
            assert(rotated(m)[n - 1 - i][n - 1 - j] == m[j][n - 1 - i]);
        }
        assert(m[i].len() == n);
    }
}

/// Every kind's shape comes back after four quarter turns.
pub proof fn lemma_kind_rotates_back(t: TetrominoType)
    ensures
        rotated(rotated(rotated(rotated(shape_of(t))))) =~~= shape_of(t),
{
    assert(is_square(shape_of(t)));
    lemma_rotate_four_times(shape_of(t));
}

fn row_of(bits: [bool; 4], n: usize) -> (r: Vec<bool>)
    requires
        n <= 4,
    ensures
        r@ == bits@.take(n as int),
{
    let mut r: Vec<bool> = Vec::new();
    let mut j: usize = 0;
    while j < n
        invariant
            j <= n <= 4,
            r@ == bits@.take(j as int),
        decreases n - j,
    {
        r.push(bits[j]);
        j = j + 1;
        assert(r@ =~= bits@.take(j as int));
    }
    r
}

impl Tetromino {
    /// The occupancy matrix as a sequence of rows.
    pub open spec fn cells(&self) -> Seq<Seq<bool>> {
        Seq::new(self.shape@.len(), |i: int| self.shape@[i]@)
    }

    /// The piece of kind `typ`, with its canonical shape and color.
    pub fn new(typ: TetrominoType) -> (p: Tetromino)
        ensures
            p.cells() =~~= shape_of(typ),
            p.wf(),
            p.color == color_of(typ),
            p.typ == typ,
    {
        let f = false;
        let t = true;
        let (rows, n, color): ([[bool; 4]; 4], usize, PieceColor) = match typ {
            TetrominoType::I => (
                [[f, f, f, f], [t, t, t, t], [f, f, f, f], [f, f, f, f]],
                4,
                PieceColor::Cyan,
            ),
            TetrominoType::O => ([[t, t, f, f], [t, t, f, f], [f, f, f, f], [f, f, f, f]], 2, PieceColor::Yellow),
            TetrominoType::T => ([[f, t, f, f], [t, t, t, f], [f, f, f, f], [f, f, f, f]], 3, PieceColor::Magenta),
            TetrominoType::S => ([[f, t, t, f], [t, t, f, f], [f, f, f, f], [f, f, f, f]], 3, PieceColor::Green),
            TetrominoType::Z => ([[t, t, f, f], [f, t, t, f], [f, f, f, f], [f, f, f, f]], 3, PieceColor::Red),
            TetrominoType::J => ([[t, f, f, f], [t, t, t, f], [f, f, f, f], [f, f, f, f]], 3, PieceColor::Blue),
            TetrominoType::L => ([[f, f, t, f], [t, t, t, f], [f, f, f, f], [f, f, f, f]], 3, PieceColor::White),
        };
        let mut shape: Vec<Vec<bool>> = Vec::new();
        let mut i: usize = 0;
        while i < n
            invariant
                i <= n <= 4,
                shape@.len() == i,
                forall|k: int| 0 <= k < i ==> #[trigger] shape@[k]@ == rows@[k]@.take(n as int),
            decreases n - i,
        {
            let row = row_of(rows[i], n);
            shape.push(row);
            i = i + 1;
        }
        let p = Tetromino { shape, color, typ };
        assert(p.cells() =~~= shape_of(typ));
        assert(p.cells()[1][1]);
        p
    }

    /// How many blocks the piece has, and the sums of their row and column
    /// numbers within the shape.
    pub fn block_sums(&self) -> (r: (u64, u64, u64))
        requires
            self.wf(),
        ensures
            r.0 == blocks(self.cells(), self.cells().len() as int),
            r.1 == row_number_sum(self.cells(), self.cells().len() as int),
            r.2 == column_sum(self.cells(), self.cells().len() as int),
            r.0 <= 16,
            r.1 <= 3 * r.0,
            r.2 <= 3 * r.0,
    {
        let ghost m = self.cells();
        let n = self.shape.len();
        let mut count: u64 = 0;
        let mut sy: u64 = 0;
        let mut sx: u64 = 0;
        let mut i: usize = 0;
        while i < n
            invariant
                self.wf(),
                m == self.cells(),
                n == m.len(),
                i <= n,
                count == blocks(m, i as int),
                sy == row_number_sum(m, i as int),
                sx == column_sum(m, i as int),
                count <= 4 * i,
                sy <= 3 * count,
                sx <= 3 * count,
            decreases n - i,
        {
            assert(m[i as int].len() == n);
            let mut rc: u64 = 0;
            let mut rx: u64 = 0;
            let mut j: usize = 0;
            while j < n
                invariant
                    self.wf(),
                    m == self.cells(),
                    n == m.len(),
                    i < n,
                    j <= n,
                    m[i as int].len() == n,
                    rc == row_blocks(m[i as int], j as int),
                    rx == row_column_sum(m[i as int], j as int),
                    rc <= j,
                    rx <= 3 * rc,
                decreases n - j,
            {
                if self.shape[i][j] {
                    rc = rc + 1;
                    rx = rx + j as u64;
                }
                j = j + 1;
            }
            assert(i * rc <= 3 * rc) by (nonlinear_arith)
                requires
                    i < 4,
            ;
            count = count + rc;
            sy = sy + i as u64 * rc;
            sx = sx + rx;
            i = i + 1;
        }
        (count, sy, sx)
    }

    /// A piece is square, with a side of at most four, and has at least one block.
    pub open spec fn wf(&self) -> bool {
        &&& is_square(self.cells())
        &&& self.cells().len() <= 4
        &&& has_block(self.cells())
    }

    /// Turns the shape a quarter clockwise, in place.
    pub fn rotate(&mut self)
        requires
            old(self).wf(),
        ensures
            final(self).wf(),
            final(self).cells() =~~= rotated(old(self).cells()),
            final(self).color == old(self).color,
            final(self).typ == old(self).typ,
    {
        let t = self.turned();
        *self = t;
    }

    /// A copy of this piece turned a quarter clockwise.
    pub fn turned(&self) -> (t: Tetromino)
        requires
            self.wf(),
        ensures
            t.wf(),
            t.cells() =~~= rotated(self.cells()),
            t.color == self.color,
            t.typ == self.typ,
    {
        let ghost m = self.cells();
        let n = self.shape.len();
        let mut out: Vec<Vec<bool>> = Vec::new();
        let mut r: usize = 0;
        while r < n
            invariant
                n == m.len(),
                m == self.cells(),
                is_square(m),
                r <= n,
                out@.len() == r,
                forall|k: int| 0 <= k < r ==> #[trigger] out@[k]@ == rotated(m)[k],
            decreases n - r,
        {
            let mut row: Vec<bool> = Vec::new();
            let mut c: usize = 0;
            while c < n
                invariant
                    n == m.len(),
                    m == self.cells(),
                    is_square(m),
                    r < n,
                    c <= n,
                    row@ =~= rotated(m)[r as int].take(c as int),
                decreases n - c,
            {
                assert(m[n - 1 - c].len() == n);
                row.push(self.shape[n - 1 - c][r]);
                c = c + 1;
                assert(row@ =~= rotated(m)[r as int].take(c as int));
            }
            out.push(row);
            r = r + 1;
        }
        let t = Tetromino { shape: out, color: self.color, typ: self.typ };
        assert(t.cells() =~~= rotated(m));
        proof {
            let (i, j) = choose|i: int, j: int| 0 <= i < m.len() && 0 <= j < m[i].len() && #[trigger] m[i][j];
            assert(rotated(m)[j][n - 1 - i] == m[i][j]);
            assert(t.cells()[j][n - 1 - i]);
        }
        t
    }
}

} // verus!
