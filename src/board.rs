//! The board: a fixed grid of cells, placement, row removal and gravity.
use vstd::prelude::*;
use crate::piece::{PieceColor, Tetromino};

verus! {

/// Columns of the board.
pub const WIDTH: usize = 10;

/// Rows of the board, numbered from the top.
pub const HEIGHT: usize = 20;

/// Number of cells of the board.
pub const AREA: usize = 200;

/// The five power-up kinds.
#[derive(Clone, Copy, Debug, PartialEq, Eq, Structural)]
pub enum PowerUpType {
    Bomb,
    SlowTime,
    GhostMode,
    Hammer,
    Random,
}

/// The content of one board cell.
#[derive(Clone, Copy, Debug, PartialEq, Eq, Structural)]
pub enum Cell {
    Empty,
    Filled(PieceColor),
    Obstacle,
    PowerUp(PowerUpType),
}

/// The grid, stored row after row, `WIDTH` cells per row.
#[derive(Clone, Debug)]
pub struct Board {
    pub cells: Vec<Cell>,
}

/// The cell at row `y`, column `x` of the flat grid `b`.
pub open spec fn cell(b: Seq<Cell>, y: int, x: int) -> Cell {
    b[y * 10 + x]
}

/// Whether `(y, x)` lies on the board.
pub open spec fn on_board(y: int, x: int) -> bool {
    0 <= y < HEIGHT && 0 <= x < WIDTH
}

/// Whether a cell stops a piece; with `pass_through` nothing does.
pub open spec fn blocks(c: Cell, pass_through: bool) -> bool {
    !pass_through && (c is Filled || c is Obstacle)
}

/// Whether the occupied entry `(i, j)` of a shape at anchor `(ax, ay)` is legal:
/// inside the side walls, above the floor, and not on a blocking cell.
pub open spec fn cell_fits(b: Seq<Cell>, ax: int, ay: int, i: int, j: int, pass_through: bool) -> bool {
    let x = ax + j;
    let y = ay + i;
    &&& 0 <= x < WIDTH
    &&& y < HEIGHT
    &&& (y >= 0 ==> !blocks(cell(b, y, x), pass_through))
}

/// Whether every occupied entry of `shape` is legal at anchor `(ax, ay)`.
pub open spec fn fits(b: Seq<Cell>, shape: Seq<Seq<bool>>, ax: int, ay: int, pass_through: bool) -> bool {
    forall|i: int, j: int|
        0 <= i < shape.len() && 0 <= j < shape[i].len() && #[trigger] shape[i][j]
            ==> cell_fits(b, ax, ay, i, j, pass_through)
}

/// Every occupied entry of `shape` at anchor `(ax, ay)` lies on the board.
pub open spec fn on_board_at(shape: Seq<Seq<bool>>, ax: int, ay: int) -> bool {
    forall|i: int, j: int|
        0 <= i < shape.len() && 0 <= j < shape[i].len() && #[trigger] shape[i][j]
            ==> on_board(ay + i, ax + j)
}

/// Whether the shape `m` at anchor `(ax, ay)` has an occupied entry on `(y, x)`.
pub open spec fn covers(m: Seq<Seq<bool>>, ax: int, ay: int, y: int, x: int) -> bool {
    0 <= y - ay < m.len() && 0 <= x - ax < m.len() && m[y - ay][x - ax]
}

/// The board with the shape written into it as `Filled` cells of `color`.
pub open spec fn with_piece(b: Seq<Cell>, m: Seq<Seq<bool>>, ax: int, ay: int, color: PieceColor) -> Seq<Cell> {
    Seq::new(
        b.len(),
        |i: int|
            if covers(m, ax, ay, i / 10, i % 10) {
                Cell::Filled(color)
            } else {
                b[i]
            },
    )
}

/// `n` empty cells.
pub open spec fn empty_cells(n: int) -> Seq<Cell> {
    Seq::new(n as nat, |i: int| Cell::Empty)
}

/// The board with row `y` taken out and an empty row put on top.
pub open spec fn without_row(b: Seq<Cell>, y: int) -> Seq<Cell> {
    empty_cells(10) + b.subrange(0, y * 10) + b.subrange(y * 10 + 10, b.len() as int)
}

/// Row `y`, as a sequence of `WIDTH` cells.
pub open spec fn row(b: Seq<Cell>, y: int) -> Seq<Cell> {
    b.subrange(y * 10, y * 10 + 10)
}

/// A row is full when every one of its cells is `Filled`.
pub open spec fn row_full(b: Seq<Cell>, y: int) -> bool {
    forall|x: int| 0 <= x < WIDTH ==> #[trigger] cell(b, y, x) is Filled
}

/// How many of the first `n` rows are full.
pub open spec fn full_rows(b: Seq<Cell>, n: int) -> nat
    decreases n,
{
    if n <= 0 {
        0
    } else {
        full_rows(b, n - 1) + if row_full(b, n - 1) { 1nat } else { 0nat }
    }
}

/// The rows among the first `n` that are not full, in their order.
pub open spec fn kept_rows(b: Seq<Cell>, n: int) -> Seq<Cell>
    decreases n,
{
    if n <= 0 {
        Seq::empty()
    } else {
        kept_rows(b, n - 1) + if row_full(b, n - 1) { Seq::empty() } else { row(b, n - 1) }
    }
}

/// The board once its full rows are removed and as many empty rows are put on top.
pub open spec fn cleared(b: Seq<Cell>) -> Seq<Cell> {
    empty_cells(10 * full_rows(b, HEIGHT as int) as int) + kept_rows(b, HEIGHT as int)
}

/// The non-empty cells of `s`, in order.
pub open spec fn compact(s: Seq<Cell>) -> Seq<Cell>
    decreases s.len(),
{
    if s.len() == 0 {
        Seq::empty()
    } else {
        compact(s.drop_last()) + if s.last() is Empty { Seq::empty() } else { seq![s.last()] }
    }
}

/// A column after settling: its non-empty cells at the bottom, order kept.
pub open spec fn settled(s: Seq<Cell>) -> Seq<Cell> {
    empty_cells(s.len() - compact(s).len()) + compact(s)
}

/// Column `x`, top to bottom.
pub open spec fn column(b: Seq<Cell>, x: int) -> Seq<Cell> {
    Seq::new(HEIGHT as nat, |y: int| cell(b, y, x))
}

/// Whether `(y, x)` lies in the 5 by 5 block centred on `(cy, cx)`.
pub open spec fn in_blast(cy: int, cx: int, y: int, x: int) -> bool {
    cy - 2 <= y <= cy + 2 && cx - 2 <= x <= cx + 2
}

/// Row of the `t`-th cell of the block centred on `(cy, cx)`, read row by row.
pub open spec fn blast_y(cy: int, t: int) -> int {
    cy - 2 + t / 5
}

/// Column of the `t`-th cell of the block centred on `(cy, cx)`.
pub open spec fn blast_x(cx: int, t: int) -> int {
    cx - 2 + t % 5
}

/// How many of the first `t` cells of the block are on the board and `Filled`.
pub open spec fn blast_count(b: Seq<Cell>, cy: int, cx: int, t: int) -> nat
    decreases t,
{
    if t <= 0 {
        0
    } else {
        blast_count(b, cy, cx, t - 1) + if on_board(blast_y(cy, t - 1), blast_x(cx, t - 1))
            && cell(b, blast_y(cy, t - 1), blast_x(cx, t - 1)) is Filled {
            1nat
        } else {
            0nat
        }
    }
}

/// The board with every `Filled` cell of the block centred on `(cy, cx)` emptied.
pub open spec fn blasted(b: Seq<Cell>, cy: int, cx: int) -> Seq<Cell> {
    Seq::new(
        b.len(),
        |i: int|
            if in_blast(cy, cx, i / 10, i % 10) && b[i] is Filled {
                Cell::Empty
            } else {
                b[i]
            },
    )
}

/// Position of `(y, x)` in the reading order of the block centred on `(cy, cx)`.
pub open spec fn blast_index(cy: int, cx: int, y: int, x: int) -> int {
    (y - cy + 2) * 5 + (x - cx + 2)
}

proof fn lemma_kept_len(b: Seq<Cell>, n: int)
    requires
        0 <= n <= HEIGHT,
        b.len() == AREA,
    ensures
        kept_rows(b, n).len() == 10 * (n - full_rows(b, n)),
        full_rows(b, n) <= n,
    decreases n,
{
    if n > 0 {
        lemma_kept_len(b, n - 1);
    }
}

proof fn lemma_kept_prefix(b: Seq<Cell>, n: int)
    requires
        0 <= n <= HEIGHT,
        b.len() == AREA,
        full_rows(b, n) == 0,
    ensures
        kept_rows(b, n) =~= b.subrange(0, n * 10),
    decreases n,
{
    if n > 0 {
        lemma_kept_prefix(b, n - 1);
        assert(b.subrange(0, (n - 1) * 10) + row(b, n - 1) =~= b.subrange(0, n * 10));
    }
}

/// A board with no full row is left as it is by clearing.
pub proof fn lemma_no_full_rows(b: Seq<Cell>)
    requires
        b.len() == AREA,
        full_rows(b, HEIGHT as int) == 0,
    ensures
        cleared(b) =~= b,
{
    lemma_kept_prefix(b, HEIGHT as int);
    assert(b.subrange(0, 200) =~= b);
}

proof fn lemma_compact_len(s: Seq<Cell>)
    ensures
        compact(s).len() <= s.len(),
    decreases s.len(),
{
    if s.len() > 0 {
        lemma_compact_len(s.drop_last());
    }
}

/// How many cells of `s` are not empty.
pub open spec fn occupied(s: Seq<Cell>) -> nat
    decreases s.len(),
{
    if s.len() == 0 {
        0
    } else {
        occupied(s.drop_last()) + if s.last() is Empty { 0nat } else { 1nat }
    }
}

proof fn lemma_occupied_concat(a: Seq<Cell>, b: Seq<Cell>)
    ensures
        occupied(a + b) == occupied(a) + occupied(b),
    decreases b.len(),
{
    if b.len() > 0 {
        assert((a + b).drop_last() =~= a + b.drop_last());
        lemma_occupied_concat(a, b.drop_last());
    } else {
        assert(a + b =~= a);
    }
}

proof fn lemma_occupied_none(n: int)
    requires
        n >= 0,
    ensures
        occupied(empty_cells(n)) == 0,
    decreases n,
{
    if n > 0 {
        assert(empty_cells(n).drop_last() =~= empty_cells(n - 1));
        lemma_occupied_none(n - 1);
    }
}

proof fn lemma_occupied_all(s: Seq<Cell>)
    requires
        forall|i: int| 0 <= i < s.len() ==> !(#[trigger] s[i] is Empty),
    ensures
        occupied(s) == s.len(),
    decreases s.len(),
{
    if s.len() > 0 {
        lemma_occupied_all(s.drop_last());
    }
}

proof fn lemma_kept_occupied(b: Seq<Cell>, n: int)
    requires
        0 <= n <= HEIGHT,
        b.len() == AREA,
    ensures
        occupied(kept_rows(b, n)) + 10 * full_rows(b, n) == occupied(b.subrange(0, n * 10)),
    decreases n,
{
    if n > 0 {
        lemma_kept_occupied(b, n - 1);
        let r = row(b, n - 1);
        assert(b.subrange(0, (n - 1) * 10) + r =~= b.subrange(0, n * 10));
        lemma_occupied_concat(b.subrange(0, (n - 1) * 10), r);
        lemma_occupied_concat(kept_rows(b, n - 1), if row_full(b, n - 1) { Seq::empty() } else { r });
        if row_full(b, n - 1) {
            assert forall|i: int| 0 <= i < r.len() implies !(#[trigger] r[i] is Empty) by {
                assert(cell(b, n - 1, i) is Filled);
            }
            lemma_occupied_all(r);
            assert(kept_rows(b, n - 1) + Seq::empty() =~= kept_rows(b, n - 1));
        }
    } else {
        assert(b.subrange(0, 0) =~= Seq::<Cell>::empty());
    }
}

/// Clearing rows removes exactly the cells of the full rows: the board keeps
/// its size, and its non-empty cells drop by `WIDTH` per full row.
pub proof fn lemma_clear_keeps_count(b: Seq<Cell>)
    requires
        b.len() == AREA,
    ensures
        cleared(b).len() == AREA,
        occupied(cleared(b)) + WIDTH * full_rows(b, HEIGHT as int) == occupied(b),
{
    lemma_kept_len(b, HEIGHT as int);
    lemma_kept_occupied(b, HEIGHT as int);
    lemma_occupied_concat(empty_cells(10 * full_rows(b, HEIGHT as int) as int), kept_rows(b, HEIGHT as int));
    lemma_occupied_none(10 * full_rows(b, HEIGHT as int) as int);
    assert(b.subrange(0, 200) =~= b);
}

proof fn lemma_compact_concat(a: Seq<Cell>, b: Seq<Cell>)
    ensures
        compact(a + b) == compact(a) + compact(b),
    decreases b.len(),
{
    if b.len() > 0 {
        assert((a + b).drop_last() =~= a + b.drop_last());
        lemma_compact_concat(a, b.drop_last());
        assert(compact(a + b) =~= compact(a) + compact(b));
    } else {
        assert(a + b =~= a);
        assert(compact(a) + compact(b) =~= compact(a));
    }
}

proof fn lemma_compact_none(n: int)
    requires
        n >= 0,
    ensures
        compact(empty_cells(n)) =~= Seq::<Cell>::empty(),
    decreases n,
{
    if n > 0 {
        assert(empty_cells(n).drop_last() =~= empty_cells(n - 1));
        lemma_compact_none(n - 1);
    }
}

proof fn lemma_compact_twice(s: Seq<Cell>)
    ensures
        compact(compact(s)) == compact(s),
    decreases s.len(),
{
    if s.len() > 0 {
        lemma_compact_twice(s.drop_last());
        let tail: Seq<Cell> = if s.last() is Empty { Seq::empty() } else { seq![s.last()] };
        lemma_compact_concat(compact(s.drop_last()), tail);
        if !(s.last() is Empty) {
            assert(tail.drop_last() =~= Seq::<Cell>::empty());
            assert(tail.last() == s.last());
            assert(compact(tail.drop_last()) == Seq::<Cell>::empty());
            assert(compact(tail) =~= tail);
        } else {
            assert(compact(tail) =~= Seq::<Cell>::empty());
        }
        assert(compact(s.drop_last()) + compact(tail) =~= compact(s));
    }
}

/// Settling a column neither loses nor duplicates a cell: it keeps the
/// column's length and the order of its non-empty cells.
pub proof fn lemma_settle_keeps_cells(s: Seq<Cell>)
    ensures
        settled(s).len() == s.len(),
        compact(settled(s)) == compact(s),
{
    lemma_compact_len(s);
    lemma_compact_concat(empty_cells(s.len() - compact(s).len()), compact(s));
    lemma_compact_none(s.len() - compact(s).len());
    lemma_compact_twice(s);
    assert(Seq::<Cell>::empty() + compact(s) =~= compact(s));
}

impl Board {
    /// The grid as a sequence of cells.
    pub open spec fn view(&self) -> Seq<Cell> {
        self.cells@
    }

    /// The grid has exactly `WIDTH * HEIGHT` cells.
    pub open spec fn wf(&self) -> bool {
        self.cells@.len() == AREA
    }

    /// An empty board.
    pub fn new() -> (b: Board)
        ensures
            b.wf(),
            forall|i: int| 0 <= i < AREA ==> #[trigger] b@[i] == Cell::Empty,
    {
        let mut cells: Vec<Cell> = Vec::new();
        let mut i: usize = 0;
        while i < AREA
            invariant
                i <= AREA,
                cells@.len() == i,
                forall|k: int| 0 <= k < i ==> #[trigger] cells@[k] == Cell::Empty,
            decreases AREA - i,
        {
            cells.push(Cell::Empty);
            i = i + 1;
        }
        Board { cells }
    }

    /// The cell at row `y`, column `x`.
    pub fn get(&self, y: usize, x: usize) -> (c: Cell)
        requires
            self.wf(),
            y < HEIGHT,
            x < WIDTH,
        ensures
            c == cell(self@, y as int, x as int),
    {
        self.cells[y * WIDTH + x]
    }

    /// Writes `c` at row `y`, column `x`.
    pub fn set(&mut self, y: usize, x: usize, c: Cell)
        requires
            old(self).wf(),
            y < HEIGHT,
            x < WIDTH,
        ensures
            final(self).wf(),
            final(self)@ == old(self)@.update(y * 10 + x, c),
    {
        self.cells.set(y * WIDTH + x, c);
    }

    /// Whether row `y` is full.
    pub fn row_is_full(&self, y: usize) -> (r: bool)
        requires
            self.wf(),
            y < HEIGHT,
        ensures
            r == row_full(self@, y as int),
    {
        let mut x: usize = 0;
        while x < WIDTH
            invariant
                self.wf(),
                y < HEIGHT,
                x <= WIDTH,
                forall|c: int| 0 <= c < x ==> #[trigger] cell(self@, y as int, c) is Filled,
            decreases WIDTH - x,
        {
            match self.get(y, x) {
                Cell::Filled(_) => {},
                _ => {
                    return false;
                },
            }
            x = x + 1;
        }
        true
    }

    /// Takes out row `y`; the rows above move down one and an empty row comes on top.
    pub fn remove_row(&mut self, y: usize)
        requires
            old(self).wf(),
            y < HEIGHT,
        ensures
            final(self).wf(),
            final(self)@ =~= without_row(old(self)@, y as int),
    {
        let ghost b = self@;
        let mut out: Vec<Cell> = Vec::new();
        let mut i: usize = 0;
        while i < WIDTH
            invariant
                i <= WIDTH,
                out@ =~= empty_cells(i as int),
            decreases WIDTH - i,
        {
            out.push(Cell::Empty);
            i = i + 1;
        }
        let mut k: usize = 0;
        while k < y * WIDTH
            invariant
                self@ == b,
                b.len() == AREA,
                y < HEIGHT,
                k <= y * 10,
                out@ =~= empty_cells(10) + b.subrange(0, k as int),
            decreases y * WIDTH - k,
        {
            out.push(self.cells[k]);
            k = k + 1;
        }
        k = y * WIDTH + WIDTH;
        while k < AREA
            invariant
                self@ == b,
                b.len() == AREA,
                y < HEIGHT,
                y * 10 + 10 <= k <= AREA,
                out@ =~= empty_cells(10) + b.subrange(0, y * 10) + b.subrange(y * 10 + 10, k as int),
            decreases AREA - k,
        {
            out.push(self.cells[k]);
            k = k + 1;
        }
        self.cells = out;
    }

    /// Removes every full row, puts as many empty rows on top, and returns how many.
    pub fn clear_full_rows(&mut self) -> (k: usize)
        requires
            old(self).wf(),
        ensures
            final(self).wf(),
            k == full_rows(old(self)@, HEIGHT as int),
            final(self)@ =~= cleared(old(self)@),
    {
        let ghost b = self@;
        let mut k: usize = 0;
        let mut y: usize = 0;
        while y < HEIGHT
            invariant
                self@ == b,
                self.wf(),
                y <= HEIGHT,
                k == full_rows(b, y as int),
                k <= y,
            decreases HEIGHT - y,
        {
            if self.row_is_full(y) {
                k = k + 1;
            }
            y = y + 1;
        }
        let mut out: Vec<Cell> = Vec::new();
        let mut i: usize = 0;
        while i < k * WIDTH
            invariant
                k <= HEIGHT,
                i <= k * 10,
                out@ =~= empty_cells(i as int),
            decreases k * WIDTH - i,
        {
            out.push(Cell::Empty);
            i = i + 1;
        }
        y = 0;
        while y < HEIGHT
            invariant
                self@ == b,
                self.wf(),
                y <= HEIGHT,
                k <= HEIGHT,
                out@ =~= empty_cells(10 * k as int) + kept_rows(b, y as int),
            decreases HEIGHT - y,
        {
            proof {
                lemma_kept_len(b, y as int);
            }
            if !self.row_is_full(y) {
                let ghost before = out@;
                let mut x: usize = 0;
                while x < WIDTH
                    invariant
                        self@ == b,
                        self.wf(),
                        y < HEIGHT,
                        x <= WIDTH,
                        out@ =~= before + row(b, y as int).take(x as int),
                    decreases WIDTH - x,
                {
                    out.push(self.get(y, x));
                    x = x + 1;
                }
                assert(row(b, y as int).take(10) =~= row(b, y as int));
            }
            y = y + 1;
        }
        proof {
            lemma_kept_len(b, HEIGHT as int);
        }
        self.cells = out;
        k
    }

    /// Lets the cells of column `x` fall until none has an empty cell below it.
    pub fn settle_column(&mut self, x: usize)
        requires
            old(self).wf(),
            x < WIDTH,
        ensures
            final(self).wf(),
            column(final(self)@, x as int) =~= settled(column(old(self)@, x as int)),
            forall|y: int, c: int|
                0 <= y < HEIGHT && 0 <= c < WIDTH && c != x
                    ==> #[trigger] cell(final(self)@, y, c) == cell(old(self)@, y, c),
    {
        let ghost b = self@;
        let ghost col = column(b, x as int);
        let mut stack: Vec<Cell> = Vec::new();
        let mut y: usize = 0;
        while y < HEIGHT
            invariant
                self@ == b,
                self.wf(),
                x < WIDTH,
                y <= HEIGHT,
                col == column(b, x as int),
                stack@ == compact(col.take(y as int)),
                stack@.len() <= y,
            decreases HEIGHT - y,
        {
            proof {
                assert(col.take(y + 1).drop_last() =~= col.take(y as int));
                lemma_compact_len(col.take(y as int));
            }
            let c = self.get(y, x);
            match c {
                Cell::Empty => {},
                _ => {
                    stack.push(c);
                },
            }
            y = y + 1;
        }
        assert(col.take(20) =~= col);
        let top: usize = HEIGHT - stack.len();
        let ghost goal = settled(col);
        y = 0;
        while y < HEIGHT
            invariant
                self.wf(),
                x < WIDTH,
                y <= HEIGHT,
                top + stack@.len() == HEIGHT,
                stack@ == compact(col),
                goal == settled(col),
                col.len() == HEIGHT,
                forall|r: int| 0 <= r < y ==> #[trigger] cell(self@, r, x as int) == goal[r],
                forall|r: int, c: int|
                    0 <= r < HEIGHT && 0 <= c < WIDTH && c != x
                        ==> #[trigger] cell(self@, r, c) == cell(b, r, c),
            decreases HEIGHT - y,
        {
            let v = if y < top {
                Cell::Empty
            } else {
                stack[y - top]
            };
            assert(v == goal[y as int]);
            let ghost prev = self@;
            self.set(y, x, v);
            assert forall|r: int| 0 <= r <= y implies #[trigger] cell(self@, r, x as int) == goal[r] by {
                if r < y {
                    assert(cell(self@, r, x as int) == cell(prev, r, x as int));
                }
            }
            assert forall|r: int, c: int|
                0 <= r < HEIGHT && 0 <= c < WIDTH && c != x
                    implies #[trigger] cell(self@, r, c) == cell(b, r, c) by {
                assert(cell(self@, r, c) == cell(prev, r, c));
            }
            y = y + 1;
        }
        assert(column(self@, x as int) =~= goal);
    }

    /// Lets every cell fall until none has an empty cell below it.
    pub fn apply_gravity(&mut self)
        requires
            old(self).wf(),
        ensures
            final(self).wf(),
            forall|x: int| 0 <= x < WIDTH ==> #[trigger] column(final(self)@, x) =~= settled(column(old(self)@, x)),
    {
        let ghost b = self@;
        let mut x: usize = 0;
        while x < WIDTH
            invariant
                self.wf(),
                b.len() == AREA,
                x <= WIDTH,
                forall|c: int| 0 <= c < x ==> #[trigger] column(self@, c) =~= settled(column(b, c)),
                forall|c: int| x <= c < WIDTH ==> #[trigger] column(self@, c) =~= column(b, c),
            decreases WIDTH - x,
        {
            let ghost before = self@;
            self.settle_column(x);
            assert forall|c: int| 0 <= c < WIDTH && c != x implies #[trigger] column(self@, c) =~= column(before, c) by {
                assert forall|r: int| 0 <= r < HEIGHT implies column(self@, c)[r] == column(before, c)[r] by {
                    assert(cell(self@, r, c) == cell(before, r, c));
                }
            }
            x = x + 1;
        }
    }

    /// Empties every `Filled` cell of the 5 by 5 block centred on row `cy`,
    /// column `cx`, and returns how many it emptied.
    pub fn blast(&mut self, cy: i64, cx: i64) -> (k: u64)
        requires
            old(self).wf(),
        ensures
            final(self).wf(),
            k <= 25,
            k == blast_count(old(self)@, cy as int, cx as int, 25),
            final(self)@ == blasted(old(self)@, cy as int, cx as int),
            forall|y: int, x: int|
                on_board(y, x) ==> #[trigger] cell(final(self)@, y, x) == if in_blast(cy as int, cx as int, y, x)
                    && cell(old(self)@, y, x) is Filled {
                    Cell::Empty
                } else {
                    cell(old(self)@, y, x)
                },
    {
        let ghost b = self@;
        let mut k: u64 = 0;
        let mut t: usize = 0;
        while t < 25
            invariant
                self.wf(),
                b.len() == AREA,
                t <= 25,
                k <= t,
                k == blast_count(b, cy as int, cx as int, t as int),
                forall|y: int, x: int|
                    on_board(y, x) ==> #[trigger] cell(self@, y, x) == if in_blast(cy as int, cx as int, y, x)
                        && blast_index(cy as int, cx as int, y, x) < t && cell(b, y, x) is Filled {
                        Cell::Empty
                    } else {
                        cell(b, y, x)
                    },
            decreases 25 - t,
        {
            let ty: i128 = cy as i128 - 2 + (t / 5) as i128;
            let tx: i128 = cx as i128 - 2 + (t % 5) as i128;
            assert(ty == blast_y(cy as int, t as int) && tx == blast_x(cx as int, t as int));
            assert(blast_index(cy as int, cx as int, ty as int, tx as int) == t);
            let ghost prev = self@;
            if 0 <= ty && ty < HEIGHT as i128 && 0 <= tx && tx < WIDTH as i128 {
                let c = self.get(ty as usize, tx as usize);
                if let Cell::Filled(_) = c {
                    self.set(ty as usize, tx as usize, Cell::Empty);
                    k = k + 1;
                }
            }
            assert forall|y: int, x: int| on_board(y, x) implies #[trigger] cell(self@, y, x) == if in_blast(cy as int, cx as int, y, x)
                && blast_index(cy as int, cx as int, y, x) < t + 1 && cell(b, y, x) is Filled {
                Cell::Empty
            } else {
                cell(b, y, x)
            } by {
                if y != ty || x != tx {
                    assert(cell(self@, y, x) == cell(prev, y, x));
                    if in_blast(cy as int, cx as int, y, x) {
                        assert(blast_index(cy as int, cx as int, y, x) != t);
                    }
                }
            }
            t = t + 1;
        }
        let ghost goal = blasted(b, cy as int, cx as int);
        assert forall|i: int| 0 <= i < AREA implies #[trigger] self@[i] == goal[i] by {
            let y = i / 10;
            let x = i % 10;
            assert(y * 10 + x == i);
            assert(on_board(y, x));
            assert(cell(self@, y, x) == self@[i]);
            assert(cell(b, y, x) == b[i]);
            if in_blast(cy as int, cx as int, y, x) {
                assert(blast_index(cy as int, cx as int, y, x) < 25);
            }
        }
        assert(self@ =~= goal);
        k
    }

    /// Puts `c` on the bottom row at column `x` when that cell is empty; reports whether it did.
    pub fn place_on_floor(&mut self, x: usize, c: Cell) -> (placed: bool)
        requires
            old(self).wf(),
            x < WIDTH,
        ensures
            final(self).wf(),
            placed == (cell(old(self)@, HEIGHT - 1, x as int) is Empty),
            forall|col: int| 0 <= col < WIDTH ==> #[trigger] column(final(self)@, col) == if col == x && placed {
                column(old(self)@, col).update(HEIGHT - 1, c)
            } else {
                column(old(self)@, col)
            },
    {
        let ghost b = self@;
        let placed = match self.get(HEIGHT - 1, x) {
            Cell::Empty => true,
            _ => false,
        };
        if placed {
            self.set(HEIGHT - 1, x, c);
        }
        assert forall|col: int| 0 <= col < WIDTH implies #[trigger] column(self@, col) =~= if col == x && placed {
            column(b, col).update(HEIGHT - 1, c)
        } else {
            column(b, col)
        } by {
            assert forall|y: int| 0 <= y < HEIGHT implies column(self@, col)[y] == (if col == x && placed {
                column(b, col).update(HEIGHT - 1, c)
            } else {
                column(b, col)
            })[y] by {
                assert(cell(self@, y, col) == self@[y * 10 + col]);
            }
        }
        placed
    }

    /// Writes `piece`, its top-left corner at column `left`, row `top`, as `Filled` cells of its color.
    pub fn write_piece(&mut self, piece: &Tetromino, left: i32, top: i32)
        requires
            old(self).wf(),
            piece.wf(),
            on_board_at(piece.cells(), left as int, top as int),
        ensures
            final(self).wf(),
            final(self)@ == with_piece(old(self)@, piece.cells(), left as int, top as int, piece.color),
    {
        let ghost b = self@;
        let ghost m = piece.cells();
        let ghost ax = left as int;
        let ghost ay = top as int;
        let ghost color = piece.color;
        let n = piece.shape.len();
        let mut i: usize = 0;
        while i < n
            invariant
                self.wf(),
                piece.wf(),
                on_board_at(m, ax, ay),
                b.len() == AREA,
                m == piece.cells(),
                ax == left,
                ay == top,
                color == piece.color,
                n == m.len(),
                i <= n,
                forall|y: int, x: int| on_board(y, x) ==> #[trigger] cell(self@, y, x) == if covers(m, ax, ay, y, x)
                    && y - ay < i {
                    Cell::Filled(color)
                } else {
                    cell(b, y, x)
                },
            decreases n - i,
        {
            assert(m[i as int].len() == n);
            let mut j: usize = 0;
            while j < n
                invariant
                    self.wf(),
                    piece.wf(),
                    on_board_at(m, ax, ay),
                piece.wf(),
                on_board_at(m, ax, ay),
                    b.len() == AREA,
                    m == piece.cells(),
                    ax == left,
                    ay == top,
                    color == piece.color,
                    n == m.len(),
                    i < n,
                    j <= n,
                    m[i as int].len() == n,
                    forall|y: int, x: int| on_board(y, x) ==> #[trigger] cell(self@, y, x) == if covers(m, ax, ay, y, x)
                        && (y - ay < i || (y - ay == i && x - ax < j)) {
                        Cell::Filled(color)
                    } else {
                        cell(b, y, x)
                    },
                decreases n - j,
            {
                let ghost prev = self@;
                if piece.shape[i][j] {
                    assert(on_board(ay + i, ax + j));
                    let y = (top as i64 + i as i64) as usize;
                    let x = (left as i64 + j as i64) as usize;
                    self.set(y, x, Cell::Filled(piece.color));
                }
                assert forall|y: int, x: int| on_board(y, x) implies #[trigger] cell(self@, y, x) == if covers(m, ax, ay, y, x)
                    && (y - ay < i || (y - ay == i && x - ax < j + 1)) {
                    Cell::Filled(color)
                } else {
                    cell(b, y, x)
                } by {
                    if y != ay + i || x != ax + j {
                        assert(cell(self@, y, x) == cell(prev, y, x));
                    }
                }
                j = j + 1;
            }
            i = i + 1;
        }
        let ghost goal = with_piece(b, m, ax, ay, color);
        assert forall|k: int| 0 <= k < AREA implies #[trigger] self@[k] == goal[k] by {
            let y = k / 10;
            let x = k % 10;
            assert(y * 10 + x == k);
            assert(on_board(y, x));
            assert(cell(self@, y, x) == self@[k]);
            if covers(m, ax, ay, y, x) {
                assert(y - ay < m.len());
            }
        }
        assert(self@ =~= goal);
    }

    /// Whether `piece` may stand with its top-left corner at `(x, y)`.
    pub fn can_place(&self, piece: &Tetromino, x: i64, y: i64, pass_through: bool) -> (ok: bool)
        requires
            self.wf(),
            piece.wf(),
        ensures
            ok == fits(self@, piece.cells(), x as int, y as int, pass_through),
    {
        let ghost s = piece.cells();
        let n = piece.shape.len();
        let mut i: usize = 0;
        while i < n
            invariant
                n == s.len(),
                s == piece.cells(),
                piece.wf(),
                self.wf(),
                i <= n,
                forall|a: int, j: int|
                    0 <= a < i && 0 <= j < s[a].len() && #[trigger] s[a][j]
                        ==> cell_fits(self@, x as int, y as int, a, j, pass_through),
            decreases n - i,
        {
            assert(s[i as int].len() == n);
            let mut j: usize = 0;
            while j < n
                invariant
                    n == s.len(),
                    s == piece.cells(),
                    piece.wf(),
                    self.wf(),
                    i < n,
                    j <= n,
                    s[i as int].len() == n,
                    forall|a: int, k: int|
                        0 <= a < i && 0 <= k < s[a].len() && #[trigger] s[a][k]
                            ==> cell_fits(self@, x as int, y as int, a, k, pass_through),
                    forall|k: int|
                        0 <= k < j && #[trigger] s[i as int][k]
                            ==> cell_fits(self@, x as int, y as int, i as int, k, pass_through),
                decreases n - j,
            {
                if piece.shape[i][j] {
                    let bx: i128 = x as i128 + j as i128;
                    let by: i128 = y as i128 + i as i128;
                    if bx < 0 || bx >= WIDTH as i128 || by >= HEIGHT as i128 {
                        return false;
                    }
                    if by >= 0 {
                        let c = self.get(by as usize, bx as usize);
                        let blocked = match c {
                            Cell::Filled(_) => !pass_through,
                            Cell::Obstacle => !pass_through,
                            _ => false,
                        };
                        if blocked {
                            return false;
                        }
                    }
                }
                j = j + 1;
            }
            i = i + 1;
        }
        true
    }
}

} // verus!
