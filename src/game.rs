//! The game session: the falling piece, the preview, score, combo and power-ups.
use vstd::prelude::*;
use crate::board::{blasted, covers, with_piece, on_board_at, blast_count, lemma_no_full_rows, cell, cell_fits, cleared, column, fits, full_rows, in_blast, on_board, settled, without_row, Board, Cell, PowerUpType, AREA, HEIGHT, WIDTH};
use crate::chance::{random_kind, Draws};
use crate::piece::{blocks, column_sum, row_number_sum, color_of, has_block, is_square, rotated, shape_of, Tetromino, TetrominoType};

verus! {

/// Column of the spawn anchor: the shape's box is centred on the board.
pub const SPAWN_X: i32 = 3;

/// Milliseconds between two falls at normal speed.
pub const BASE_FALL_MS: u64 = 500;

/// Two clears less than this many milliseconds apart continue a combo.
pub const COMBO_WINDOW_MS: u64 = 3000;

/// How long slow time lasts, in milliseconds.
pub const SLOW_TIME_MS: u64 = 10000;

/// How many locks ghost mode lasts.
pub const GHOST_LOCKS: u32 = 3;

/// One game: board, falling piece with its anchor, preview, score and modifiers.
/// Times are milliseconds on a clock that the caller samples.
#[derive(Debug)]
pub struct Game {
    pub board: Board,
    pub current: Tetromino,
    pub current_x: i32,
    pub current_y: i32,
    pub next: Tetromino,
    pub score: u64,
    pub combo: u32,
    pub game_over: bool,
    pub ghost_mode: bool,
    pub ghost_remaining: u32,
    pub slow_time_active: bool,
    pub slow_time_end: Option<u64>,
    pub hammer_mode: bool,
    pub last_clear_time: Option<u64>,
    pub lines_cleared_total: u64,
}

/// `a + b`, or the largest `u64` where that does not fit.
pub open spec fn sat_add(a: int, b: int) -> int {
    if a + b > u64::MAX {
        u64::MAX as int
    } else {
        a + b
    }
}

/// Ghost mode and its remaining locks after one more lock.
pub open spec fn ghost_after_lock(mode: bool, remaining: u32) -> (bool, u32) {
    if mode && remaining > 0 {
        (remaining - 1 != 0, (remaining - 1) as u32)
    } else {
        (mode, remaining)
    }
}

/// Base points for clearing `k` rows at once.
pub open spec fn line_points(k: int) -> int {
    if k == 1 {
        100
    } else if k == 2 {
        300
    } else if k == 3 {
        500
    } else if k == 4 {
        800
    } else {
        0
    }
}

/// Whether a clear at `now` follows the clear at `last` within the combo window.
pub open spec fn within_window(last: Option<u64>, now: u64) -> bool {
    last is Some && (now as int) - (last->0 as int) < COMBO_WINDOW_MS
}

/// The combo counter once a clear happens at `now`.
pub open spec fn next_combo(combo: u32, last: Option<u64>, now: u64) -> u32 {
    if within_window(last, now) {
        if combo < u32::MAX {
            (combo + 1) as u32
        } else {
            combo
        }
    } else {
        0
    }
}

/// A column after the spawns that may follow a clear, once the total of
/// cleared rows is `total`: first an obstacle, then a power-up, each only
/// onto an empty bottom cell.
pub open spec fn with_spawns(col: Seq<Cell>, x: int, d: Draws, total: int) -> Seq<Cell> {
    let bottom = HEIGHT - 1;
    let after_obstacle = if total % 5 == 0 && d.obstacle && x == d.obstacle_column
        && col[bottom] is Empty {
        col.update(bottom, Cell::Obstacle)
    } else {
        col
    };
    if d.power_up && x == d.power_up_column && after_obstacle[bottom] is Empty {
        after_obstacle.update(bottom, Cell::PowerUp(d.power_up_kind))
    } else {
        after_obstacle
    }
}

/// The power-up kinds lying under entries `0..j` of row `i` of the shape.
pub open spec fn power_ups_in_row(b: Seq<Cell>, m: Seq<Seq<bool>>, ax: int, ay: int, i: int, j: int) -> Seq<PowerUpType>
    decreases j,
{
    if j <= 0 {
        Seq::empty()
    } else {
        let prev = power_ups_in_row(b, m, ax, ay, i, j - 1);
        match cell(b, ay + i, ax + j - 1) {
            Cell::PowerUp(p) => if m[i][j - 1] {
                prev.push(p)
            } else {
                prev
            },
            _ => prev,
        }
    }
}

/// The power-up kinds lying under the occupied entries of rows `0..i` of the
/// shape, row by row.
pub open spec fn power_ups_under(b: Seq<Cell>, m: Seq<Seq<bool>>, ax: int, ay: int, i: int) -> Seq<PowerUpType>
    decreases i,
{
    if i <= 0 {
        Seq::empty()
    } else {
        power_ups_under(b, m, ax, ay, i - 1) + power_ups_in_row(b, m, ax, ay, i - 1, m.len() as int)
    }
}

/// What one lock did.
#[derive(Clone, Copy, Debug, PartialEq, Eq, Structural)]
pub struct LockResult {
    /// Rows cleared by line resolution.
    pub cleared_rows: usize,
    /// Power-ups collected by the locked piece.
    pub power_ups: usize,
    /// Whether the game is over once the next piece has spawned.
    pub game_over: bool,
}

/// The effect a power-up of kind `kind` has; a `Random` one takes `random_effect`.
pub open spec fn effect_of(kind: PowerUpType, random_effect: PowerUpType) -> PowerUpType {
    if kind == PowerUpType::Random {
        random_effect
    } else {
        kind
    }
}

/// What power-ups act on: the board, the score and the modifiers.
pub struct Effects {
    pub board: Seq<Cell>,
    pub score: int,
    pub slow_time_active: bool,
    pub slow_time_end: Option<u64>,
    pub ghost_mode: bool,
    pub ghost_remaining: u32,
    pub hammer_mode: bool,
}

/// Row of the centre of the blocks of shape `m` at anchor row `ay`, rounded down.
pub open spec fn center_row(m: Seq<Seq<bool>>, ay: int) -> int {
    ay + row_number_sum(m, m.len() as int) / blocks(m, m.len() as int)
}

/// Column of the centre of the blocks of shape `m` at anchor column `ax`, rounded down.
pub open spec fn center_column(m: Seq<Seq<bool>>, ax: int) -> int {
    ax + column_sum(m, m.len() as int) / blocks(m, m.len() as int)
}

/// One power-up of kind `kind` applied by the piece of shape `m` at `(ax, ay)`:
/// a bomb empties the `Filled` cells of the 5 by 5 block around the centre of
/// the piece's blocks at 10 points each, slow time lasts until 10 seconds after
/// `now`, ghost mode gets three locks, the hammer is armed; a `Random` one acts
/// as `random_effect`.
pub open spec fn apply_effect(
    s: Effects,
    m: Seq<Seq<bool>>,
    ax: int,
    ay: int,
    kind: PowerUpType,
    now: u64,
    random_effect: PowerUpType,
) -> Effects {
    let e = effect_of(kind, random_effect);
    if e == PowerUpType::Bomb {
        if blocks(m, m.len() as int) > 0 {
            let cy = center_row(m, ay);
            let cx = center_column(m, ax);
            Effects {
                board: blasted(s.board, cy, cx),
                score: sat_add(s.score, 10 * blast_count(s.board, cy, cx, 25) as int),
                ..s
            }
        } else {
            s
        }
    } else if e == PowerUpType::SlowTime {
        Effects {
            slow_time_active: true,
            slow_time_end: Some(sat_add(now as int, SLOW_TIME_MS as int) as u64),
            ..s
        }
    } else if e == PowerUpType::GhostMode {
        Effects { ghost_mode: true, ghost_remaining: GHOST_LOCKS, ..s }
    } else {
        Effects { hammer_mode: true, ..s }
    }
}

/// The power-ups `kinds` applied one after the other, first to last.
pub open spec fn apply_effects(
    s: Effects,
    kinds: Seq<PowerUpType>,
    m: Seq<Seq<bool>>,
    ax: int,
    ay: int,
    now: u64,
    random_effect: PowerUpType,
) -> Effects
    decreases kinds.len(),
{
    if kinds.len() == 0 {
        s
    } else {
        apply_effect(
            apply_effects(s, kinds.drop_last(), m, ax, ay, now, random_effect),
            m,
            ax,
            ay,
            kinds.last(),
            now,
            random_effect,
        )
    }
}

/// Applying power-ups never lowers the score and keeps it within `u64`.
pub proof fn lemma_effects_keep_score(
    s: Effects,
    kinds: Seq<PowerUpType>,
    m: Seq<Seq<bool>>,
    ax: int,
    ay: int,
    now: u64,
    random_effect: PowerUpType,
)
    requires
        0 <= s.score <= u64::MAX,
    ensures
        s.score <= apply_effects(s, kinds, m, ax, ay, now, random_effect).score <= u64::MAX,
    decreases kinds.len(),
{
    if kinds.len() > 0 {
        lemma_effects_keep_score(s, kinds.drop_last(), m, ax, ay, now, random_effect);
    }
}

/// Row `y` is where a hard drop of the falling piece of `g` stops: at or below
/// its row, every row on the way down admits it, and the row below does not.
pub open spec fn landing_row(g: Game, y: int) -> bool {
    &&& y >= g.current_y
    &&& forall|d: int| 1 <= d <= y - g.current_y ==> #[trigger] g.fits_moved(0, d)
    &&& !g.fits_moved(0, y - g.current_y + 1)
}

/// What a lock of the falling piece of `old`, standing at row `ay`, leaves in
/// `new` and reports in `r`, with the random choices `d`: the power-ups under
/// the piece are applied in row order, the piece is written over them, lines
/// are resolved, the preview spawns and ghost mode uses up one lock.
pub open spec fn lock_post(old: Game, ay: int, new: Game, r: LockResult, now: u64, d: Draws) -> bool {
    let m = old.current.cells();
    let ax = old.current_x as int;
    let found = power_ups_under(old.board@, m, ax, ay, m.len() as int);
    let e = apply_effects(old.effects(), found, m, ax, ay, now, d.random_effect);
    let placed = with_piece(e.board, m, ax, ay, old.current.color);
    let k = r.cleared_rows as int;
    &&& r.power_ups == found.len()
    &&& k == full_rows(placed, HEIGHT as int)
    &&& r.game_over == new.game_over
    &&& new.current == old.next
    &&& new.next.cells() == shape_of(d.next_kind)
    &&& new.next.typ == d.next_kind
    &&& new.next.color == color_of(d.next_kind)
    &&& new.current_x == SPAWN_X
    &&& new.current_y == 0
    &&& k == 0 ==> {
        &&& new.board@ == placed
        &&& new.score == e.score
        &&& new.combo == 0
        &&& new.lines_cleared_total == old.lines_cleared_total
        &&& new.last_clear_time == old.last_clear_time
    }
    &&& k > 0 ==> {
        &&& new.combo == next_combo(old.combo, old.last_clear_time, now)
        &&& new.score == sat_add(e.score, line_points(k) * (1 + new.combo))
        &&& new.lines_cleared_total == sat_add(old.lines_cleared_total as int, k)
        &&& new.last_clear_time == Some(now)
        &&& forall|x: int| 0 <= x < WIDTH ==> #[trigger] column(new.board@, x) == with_spawns(
            settled(column(cleared(placed), x)),
            x,
            d,
            new.lines_cleared_total as int,
        )
    }
    &&& new.game_over == !fits(new.board@, old.next.cells(), SPAWN_X as int, 0, e.ghost_mode)
    &&& (new.ghost_mode, new.ghost_remaining) == ghost_after_lock(e.ghost_mode, e.ghost_remaining)
    &&& new.slow_time_active == e.slow_time_active
    &&& new.slow_time_end == e.slow_time_end
    &&& new.hammer_mode == e.hammer_mode
    &&& new.score >= old.score
    &&& new.lines_cleared_total >= old.lines_cleared_total
}

impl Game {
    /// The board, both pieces and the falling piece's position are consistent.
    pub open spec fn wf(&self) -> bool {
        &&& self.board.wf()
        &&& self.current.wf()
        &&& self.next.wf()
        &&& on_board_at(self.current.cells(), self.current_x as int, self.current_y as int)
        &&& -4 <= self.current_x < WIDTH
        &&& 0 <= self.current_y < HEIGHT
    }

    /// Whether the falling piece may stand at its anchor moved by `(dx, dy)`.
    pub open spec fn fits_moved(&self, dx: int, dy: int) -> bool {
        fits(
            self.board@,
            self.current.cells(),
            self.current_x + dx,
            self.current_y + dy,
            self.ghost_mode,
        )
    }

    /// A fresh game on an empty board with the given falling and preview kinds.
    pub fn with_pieces(first: TetrominoType, second: TetrominoType) -> (g: Game)
        ensures
            g.wf(),
            forall|i: int| 0 <= i < AREA ==> #[trigger] g.board@[i] == Cell::Empty,
            g.current.cells() == shape_of(first),
            g.current.typ == first,
            g.current.color == color_of(first),
            g.next.cells() == shape_of(second),
            g.next.typ == second,
            g.next.color == color_of(second),
            g.current_x == SPAWN_X,
            g.current_y == 0,
            g.score == 0,
            g.combo == 0,
            !g.game_over,
            !g.ghost_mode,
            g.ghost_remaining == 0,
            !g.slow_time_active,
            g.slow_time_end is None,
            !g.hammer_mode,
            g.last_clear_time is None,
            g.lines_cleared_total == 0,
    {
        let current = Tetromino::new(first);
        let next = Tetromino::new(second);
        let g = Game {
            board: Board::new(),
            current,
            current_x: SPAWN_X,
            current_y: 0,
            next,
            score: 0,
            combo: 0,
            game_over: false,
            ghost_mode: false,
            ghost_remaining: 0,
            slow_time_active: false,
            slow_time_end: None,
            hammer_mode: false,
            last_clear_time: None,
            lines_cleared_total: 0,
        };
        proof {
            lemma_spawn_on_board(g.current.cells());
        }
        g
    }

    /// A fresh game whose two pieces are drawn at random.
    pub fn new() -> (g: Game)
        ensures
            g.wf(),
            forall|i: int| 0 <= i < AREA ==> #[trigger] g.board@[i] == Cell::Empty,
            g.current.cells() == shape_of(g.current.typ),
            g.current.color == color_of(g.current.typ),
            g.next.cells() == shape_of(g.next.typ),
            g.next.color == color_of(g.next.typ),
            g.current_x == SPAWN_X,
            g.current_y == 0,
            g.score == 0,
            g.combo == 0,
            !g.game_over,
            !g.ghost_mode,
            g.ghost_remaining == 0,
            !g.slow_time_active,
            g.slow_time_end is None,
            !g.hammer_mode,
            g.last_clear_time is None,
            g.lines_cleared_total == 0,
    {
        let first = random_kind();
        let second = random_kind();
        Game::with_pieces(first, second)
    }

    /// Whether the falling piece may move by `(dx, dy)`.
    pub fn can_move(&self, dx: i32, dy: i32) -> (ok: bool)
        requires
            self.wf(),
        ensures
            ok == self.fits_moved(dx as int, dy as int),
    {
        self.board.can_place(
            &self.current,
            self.current_x as i64 + dx as i64,
            self.current_y as i64 + dy as i64,
            self.ghost_mode,
        )
    }

    /// Moves the falling piece by `(dx, dy)` where it fits there; reports whether it moved.
    pub fn move_piece(&mut self, dx: i32, dy: i32) -> (moved: bool)
        requires
            old(self).wf(),
            0 <= dy,
        ensures
            final(self).wf(),
            moved == (!old(self).game_over && old(self).fits_moved(dx as int, dy as int)),
            moved ==> final(self).current_x == old(self).current_x + dx,
            moved ==> final(self).current_y == old(self).current_y + dy,
            !moved ==> final(self).current_x == old(self).current_x,
            !moved ==> final(self).current_y == old(self).current_y,
            final(self).board == old(self).board,
            final(self).current == old(self).current,
            final(self).next == old(self).next,
            final(self).score == old(self).score,
            final(self).combo == old(self).combo,
            final(self).game_over == old(self).game_over,
            final(self).ghost_mode == old(self).ghost_mode,
            final(self).ghost_remaining == old(self).ghost_remaining,
            final(self).slow_time_active == old(self).slow_time_active,
            final(self).slow_time_end == old(self).slow_time_end,
            final(self).hammer_mode == old(self).hammer_mode,
            final(self).last_clear_time == old(self).last_clear_time,
            final(self).lines_cleared_total == old(self).lines_cleared_total,
    {
        if self.game_over {
            return false;
        }
        if self.can_move(dx, dy) {
            proof {
                lemma_fits_on_board(self.board@, self.current.cells(),
                    self.current_x + dx, self.current_y + dy, self.ghost_mode);
            }
            self.current_x = self.current_x + dx;
            self.current_y = self.current_y + dy;
            true
        } else {
            false
        }
    }

    /// Turns the falling piece a quarter clockwise where the turned shape fits at
    /// the same anchor; otherwise keeps it. Reports whether it turned.
    pub fn rotate_piece(&mut self) -> (turned: bool)
        requires
            old(self).wf(),
        ensures
            final(self).wf(),
            turned == (!old(self).game_over && fits(
                old(self).board@,
                rotated(old(self).current.cells()),
                old(self).current_x as int,
                old(self).current_y as int,
                old(self).ghost_mode,
            )),
            turned ==> final(self).current.cells() == rotated(old(self).current.cells()),
            !turned ==> final(self).current == old(self).current,
            final(self).current.color == old(self).current.color,
            final(self).current.typ == old(self).current.typ,
            final(self).current_x == old(self).current_x,
            final(self).current_y == old(self).current_y,
            final(self).board == old(self).board,
            final(self).next == old(self).next,
            final(self).score == old(self).score,
            final(self).combo == old(self).combo,
            final(self).game_over == old(self).game_over,
            final(self).ghost_mode == old(self).ghost_mode,
            final(self).ghost_remaining == old(self).ghost_remaining,
            final(self).slow_time_active == old(self).slow_time_active,
            final(self).slow_time_end == old(self).slow_time_end,
            final(self).hammer_mode == old(self).hammer_mode,
            final(self).last_clear_time == old(self).last_clear_time,
            final(self).lines_cleared_total == old(self).lines_cleared_total,
    {
        if self.game_over {
            return false;
        }
        let t = self.current.turned();
        if self.board.can_place(&t, self.current_x as i64, self.current_y as i64, self.ghost_mode) {
            proof {
                lemma_fits_on_board(self.board@, t.cells(),
                    self.current_x as int, self.current_y as int, self.ghost_mode);
            }
            self.current = t;
            true
        } else {
            false
        }
    }

    /// Promotes the preview to the falling piece at the spawn anchor, draws a new
    /// preview of kind `kind`, and ends the game when the new piece does not fit.
    pub fn spawn_new_piece(&mut self, kind: TetrominoType)
        requires
            old(self).wf(),
        ensures
            final(self).wf(),
            final(self).current == old(self).next,
            final(self).next.cells() == shape_of(kind),
            final(self).next.typ == kind,
            final(self).next.color == color_of(kind),
            final(self).current_x == SPAWN_X,
            final(self).current_y == 0,
            final(self).game_over == (old(self).game_over || !fits(
                old(self).board@,
                old(self).next.cells(),
                SPAWN_X as int,
                0,
                old(self).ghost_mode,
            )),
            final(self).board == old(self).board,
            final(self).score == old(self).score,
            final(self).combo == old(self).combo,
            final(self).ghost_mode == old(self).ghost_mode,
            final(self).ghost_remaining == old(self).ghost_remaining,
            final(self).slow_time_active == old(self).slow_time_active,
            final(self).slow_time_end == old(self).slow_time_end,
            final(self).hammer_mode == old(self).hammer_mode,
            final(self).last_clear_time == old(self).last_clear_time,
            final(self).lines_cleared_total == old(self).lines_cleared_total,
    {
        let mut fresh = Tetromino::new(kind);
        std::mem::swap(&mut self.next, &mut fresh);
        self.current = fresh;
        self.current_x = SPAWN_X;
        self.current_y = 0;
        proof {
            lemma_spawn_on_board(self.current.cells());
        }
        if !self.can_move(0, 0) {
            self.game_over = true;
        }
    }

    /// Base points for clearing `k` rows at once.
    pub fn line_score(k: usize) -> (p: u64)
        ensures
            p == line_points(k as int),
    {
        match k {
            1 => 100,
            2 => 300,
            3 => 500,
            4 => 800,
            _ => 0,
        }
    }

    /// Adds `points` to the score, stopping at the largest `u64`.
    fn add_score(&mut self, points: u64)
        ensures
            final(self).score == sat_add(old(self).score as int, points as int),
            final(self).board == old(self).board,
            final(self).current == old(self).current,
            final(self).current_x == old(self).current_x,
            final(self).current_y == old(self).current_y,
            final(self).next == old(self).next,
            final(self).combo == old(self).combo,
            final(self).game_over == old(self).game_over,
            final(self).ghost_mode == old(self).ghost_mode,
            final(self).ghost_remaining == old(self).ghost_remaining,
            final(self).slow_time_active == old(self).slow_time_active,
            final(self).slow_time_end == old(self).slow_time_end,
            final(self).hammer_mode == old(self).hammer_mode,
            final(self).last_clear_time == old(self).last_clear_time,
            final(self).lines_cleared_total == old(self).lines_cleared_total,
    {
        self.score = self.score.saturating_add(points);
    }

    /// Line resolution: removes the full rows, updates combo and score, lets
    /// the rest fall, and may spawn an obstacle and a power-up on the bottom
    /// row as `draws` decide. Returns how many rows were full.
    pub fn clear_lines(&mut self, now: u64, draws: &Draws) -> (k: usize)
        requires
            old(self).wf(),
            draws.wf(),
        ensures
            final(self).wf(),
            k == full_rows(old(self).board@, HEIGHT as int),
            k == 0 ==> final(self).board@ == old(self).board@,
            k == 0 ==> final(self).score == old(self).score,
            k == 0 ==> final(self).combo == 0,
            k == 0 ==> final(self).last_clear_time == old(self).last_clear_time,
            k == 0 ==> final(self).lines_cleared_total == old(self).lines_cleared_total,
            k > 0 ==> final(self).combo == next_combo(old(self).combo, old(self).last_clear_time, now),
            k > 0 ==> final(self).last_clear_time == Some(now),
            k > 0 ==> final(self).lines_cleared_total == sat_add(old(self).lines_cleared_total as int, k as int),
            k > 0 ==> final(self).score == sat_add(
                old(self).score as int,
                line_points(k as int) * (1 + final(self).combo),
            ),
            k > 0 ==> forall|x: int| 0 <= x < WIDTH ==> #[trigger] column(final(self).board@, x) == with_spawns(
                settled(column(cleared(old(self).board@), x)),
                x,
                *draws,
                final(self).lines_cleared_total as int,
            ),
            final(self).current == old(self).current,
            final(self).current_x == old(self).current_x,
            final(self).current_y == old(self).current_y,
            final(self).next == old(self).next,
            final(self).game_over == old(self).game_over,
            final(self).ghost_mode == old(self).ghost_mode,
            final(self).ghost_remaining == old(self).ghost_remaining,
            final(self).slow_time_active == old(self).slow_time_active,
            final(self).slow_time_end == old(self).slow_time_end,
            final(self).hammer_mode == old(self).hammer_mode,
    {
        let ghost b0 = self.board@;
        let ghost old_combo = self.combo;
        let ghost old_last = self.last_clear_time;
        let k = self.board.clear_full_rows();
        if k == 0 {
            proof {
                lemma_no_full_rows(b0);
            }
            assert(self.board@ =~= b0);
            self.combo = 0;
            return 0;
        }
        let within = match self.last_clear_time {
            Some(last) => now < last || now - last < COMBO_WINDOW_MS,
            None => false,
        };
        self.combo = if within {
            self.combo.saturating_add(1)
        } else {
            0
        };
        self.last_clear_time = Some(now);
        self.lines_cleared_total = self.lines_cleared_total.saturating_add(k as u64);
        let base = Game::line_score(k);
        self.add_score(base * (1 + self.combo as u64));
        let ghost cl = self.board@;
        self.board.apply_gravity();
        let ghost g = self.board@;
        if self.lines_cleared_total % 5 == 0 && draws.obstacle {
            self.board.place_on_floor(draws.obstacle_column, Cell::Obstacle);
        }
        let ghost o = self.board@;
        if draws.power_up {
            self.board.place_on_floor(draws.power_up_column, Cell::PowerUp(draws.power_up_kind));
        }
        assert forall|x: int| 0 <= x < WIDTH implies #[trigger] column(self.board@, x) == with_spawns(
            settled(column(cleared(b0), x)),
            x,
            *draws,
            self.lines_cleared_total as int,
        ) by {
            assert(column(g, x) == settled(column(cl, x)));
            assert(column(g, x)[HEIGHT - 1] == cell(g, HEIGHT - 1, x));
            assert(column(o, x)[HEIGHT - 1] == cell(o, HEIGHT - 1, x));
        }
        k
    }

    /// Uses the armed hammer on row `line`: removes it, lets the rest fall,
    /// adds 50 points and disarms the hammer. Does nothing, and reports so,
    /// when the game is over, the hammer is not armed or the row is off the board.
    pub fn use_hammer(&mut self, line: usize) -> (used: bool)
        requires
            old(self).wf(),
        ensures
            final(self).wf(),
            used == (!old(self).game_over && old(self).hammer_mode && line < HEIGHT),
            used ==> forall|x: int| 0 <= x < WIDTH ==> #[trigger] column(final(self).board@, x) == settled(
                column(without_row(old(self).board@, line as int), x),
            ),
            used ==> final(self).score == sat_add(old(self).score as int, 50),
            used ==> !final(self).hammer_mode,
            !used ==> final(self).board == old(self).board,
            !used ==> final(self).score == old(self).score,
            !used ==> final(self).hammer_mode == old(self).hammer_mode,
            final(self).current == old(self).current,
            final(self).current_x == old(self).current_x,
            final(self).current_y == old(self).current_y,
            final(self).next == old(self).next,
            final(self).combo == old(self).combo,
            final(self).game_over == old(self).game_over,
            final(self).ghost_mode == old(self).ghost_mode,
            final(self).ghost_remaining == old(self).ghost_remaining,
            final(self).slow_time_active == old(self).slow_time_active,
            final(self).slow_time_end == old(self).slow_time_end,
            final(self).last_clear_time == old(self).last_clear_time,
            final(self).lines_cleared_total == old(self).lines_cleared_total,
    {
        if self.game_over || !self.hammer_mode || line >= HEIGHT {
            return false;
        }
        self.board.remove_row(line);
        self.hammer_mode = false;
        self.add_score(50);
        self.board.apply_gravity();
        true
    }

    /// The power-up kinds under the falling piece, row by row.
    pub fn power_ups_under_piece(&self) -> (r: Vec<PowerUpType>)
        requires
            self.wf(),
        ensures
            r@ == power_ups_under(
                self.board@,
                self.current.cells(),
                self.current_x as int,
                self.current_y as int,
                self.current.cells().len() as int,
            ),
    {
        let ghost m = self.current.cells();
        let ghost ax = self.current_x as int;
        let ghost ay = self.current_y as int;
        let n = self.current.shape.len();
        let mut r: Vec<PowerUpType> = Vec::new();
        let mut i: usize = 0;
        while i < n
            invariant
                self.wf(),
                m == self.current.cells(),
                ax == self.current_x,
                ay == self.current_y,
                n == m.len(),
                i <= n,
                r@ == power_ups_under(self.board@, m, ax, ay, i as int),
            decreases n - i,
        {
            assert(m[i as int].len() == n);
            let ghost before = r@;
            let mut j: usize = 0;
            while j < n
                invariant
                    self.wf(),
                    m == self.current.cells(),
                    ax == self.current_x,
                    ay == self.current_y,
                    n == m.len(),
                    i < n,
                    j <= n,
                    m[i as int].len() == n,
                    r@ == before + power_ups_in_row(self.board@, m, ax, ay, i as int, j as int),
                decreases n - j,
            {
                if self.current.shape[i][j] {
                    assert(on_board(ay + i, ax + j));
                    let y = (self.current_y as i64 + i as i64) as usize;
                    let x = (self.current_x as i64 + j as i64) as usize;
                    if let Cell::PowerUp(p) = self.board.get(y, x) {
                        r.push(p);
                    }
                }
                proof {
                    assert(before + power_ups_in_row(self.board@, m, ax, ay, i as int, j + 1) =~= r@);
                }
                j = j + 1;
            }
            i = i + 1;
        }
        r
    }

    /// Writes the falling piece into the board as `Filled` cells of its color.
    pub fn place_piece(&mut self)
        requires
            old(self).wf(),
        ensures
            final(self).wf(),
            final(self).board@ == with_piece(
                old(self).board@,
                old(self).current.cells(),
                old(self).current_x as int,
                old(self).current_y as int,
                old(self).current.color,
            ),
            final(self).current == old(self).current,
            final(self).current_x == old(self).current_x,
            final(self).current_y == old(self).current_y,
            final(self).next == old(self).next,
            final(self).score == old(self).score,
            final(self).combo == old(self).combo,
            final(self).game_over == old(self).game_over,
            final(self).ghost_mode == old(self).ghost_mode,
            final(self).ghost_remaining == old(self).ghost_remaining,
            final(self).slow_time_active == old(self).slow_time_active,
            final(self).slow_time_end == old(self).slow_time_end,
            final(self).hammer_mode == old(self).hammer_mode,
            final(self).last_clear_time == old(self).last_clear_time,
            final(self).lines_cleared_total == old(self).lines_cleared_total,
    {
        self.board.write_piece(&self.current, self.current_x, self.current_y);
    }

    /// Number of blocks of the falling piece.
    pub open spec fn piece_blocks(&self) -> int {
        blocks(self.current.cells(), self.current.cells().len() as int)
    }

    /// Row of the centre of the falling piece's blocks, rounded down.
    pub open spec fn center_y(&self) -> int {
        center_row(self.current.cells(), self.current_y as int)
    }

    /// Column of the centre of the falling piece's blocks, rounded down.
    pub open spec fn center_x(&self) -> int {
        center_column(self.current.cells(), self.current_x as int)
    }

    /// The board, score and modifiers, which power-ups act on.
    pub open spec fn effects(&self) -> Effects {
        Effects {
            board: self.board@,
            score: self.score as int,
            slow_time_active: self.slow_time_active,
            slow_time_end: self.slow_time_end,
            ghost_mode: self.ghost_mode,
            ghost_remaining: self.ghost_remaining,
            hammer_mode: self.hammer_mode,
        }
    }

    /// Applies a power-up of kind `kind`; a `Random` one applies `random_effect`.
    /// A bomb empties the `Filled` cells of the 5 by 5 block around the centre of
    /// the falling piece, 10 points each; slow time lasts 10 seconds from `now`;
    /// ghost mode lasts three locks; the hammer is armed.
    pub fn activate_power_up(&mut self, kind: PowerUpType, now: u64, random_effect: PowerUpType)
        requires
            old(self).wf(),
            random_effect != PowerUpType::Random,
        ensures
            final(self).wf(),
            final(self).effects() == apply_effect(
                old(self).effects(),
                old(self).current.cells(),
                old(self).current_x as int,
                old(self).current_y as int,
                kind,
                now,
                random_effect,
            ),
            ({
                let e = effect_of(kind, random_effect);
                let bomb = e == PowerUpType::Bomb && old(self).piece_blocks() > 0;
                let (cy, cx) = (old(self).center_y(), old(self).center_x());
                &&& bomb ==> final(self).score == sat_add(
                    old(self).score as int,
                    10 * blast_count(old(self).board@, cy, cx, 25) as int,
                )
                &&& bomb ==> forall|y: int, x: int| on_board(y, x) ==> #[trigger] cell(final(self).board@, y, x)
                    == if in_blast(cy, cx, y, x) && cell(old(self).board@, y, x) is Filled {
                    Cell::Empty
                } else {
                    cell(old(self).board@, y, x)
                }
                &&& !bomb ==> final(self).board@ == old(self).board@
                &&& !bomb ==> final(self).score == old(self).score
                &&& final(self).slow_time_active == (e == PowerUpType::SlowTime || old(self).slow_time_active)
                &&& final(self).slow_time_end == if e == PowerUpType::SlowTime {
                    Some(sat_add(now as int, SLOW_TIME_MS as int) as u64)
                } else {
                    old(self).slow_time_end
                }
                &&& final(self).ghost_mode == (e == PowerUpType::GhostMode || old(self).ghost_mode)
                &&& final(self).ghost_remaining == if e == PowerUpType::GhostMode {
                    GHOST_LOCKS
                } else {
                    old(self).ghost_remaining
                }
                &&& final(self).hammer_mode == (e == PowerUpType::Hammer || old(self).hammer_mode)
            }),
            final(self).current == old(self).current,
            final(self).current_x == old(self).current_x,
            final(self).current_y == old(self).current_y,
            final(self).next == old(self).next,
            final(self).combo == old(self).combo,
            final(self).game_over == old(self).game_over,
            final(self).last_clear_time == old(self).last_clear_time,
            final(self).lines_cleared_total == old(self).lines_cleared_total,
    {
        let e = match kind {
            PowerUpType::Random => random_effect,
            _ => kind,
        };
        match e {
            PowerUpType::Bomb => {
                let (count, sy, sx) = self.current.block_sums();
                if count > 0 {
                    assert(sy / count <= 3 && sx / count <= 3) by (nonlinear_arith)
                        requires
                            sy <= 3 * count,
                            sx <= 3 * count,
                            count > 0,
                    ;
                    let cy: i64 = self.current_y as i64 + (sy / count) as i64;
                    let cx: i64 = self.current_x as i64 + (sx / count) as i64;
                    let k = self.board.blast(cy, cx);
                    self.add_score(10 * k);
                }
            },
            PowerUpType::SlowTime => {
                self.slow_time_active = true;
                self.slow_time_end = Some(now.saturating_add(SLOW_TIME_MS));
            },
            PowerUpType::GhostMode => {
                self.ghost_mode = true;
                self.ghost_remaining = GHOST_LOCKS;
            },
            _ => {
                self.hammer_mode = true;
            },
        }
    }

    /// Locks the falling piece: applies the power-ups under it in row order,
    /// writes it into the board (collected cells included) as `Filled` cells of
    /// its color, resolves lines, spawns the next piece, and uses up one lock of
    /// ghost mode. `draws` holds the random choices. Once the game is over
    /// nothing changes.
    pub fn lock_piece_with(&mut self, now: u64, draws: &Draws) -> (r: LockResult)
        requires
            old(self).wf(),
            draws.wf(),
        ensures
            final(self).wf(),
            old(self).game_over ==> *final(self) == *old(self) && r.game_over,
            !old(self).game_over ==> lock_post(
                *old(self),
                old(self).current_y as int,
                *final(self),
                r,
                now,
                *draws,
            ),
    {
        if self.game_over {
            return LockResult { cleared_rows: 0, power_ups: 0, game_over: true };
        }
        let ghost g0 = *self;
        let ghost m = self.current.cells();
        let ghost ax = self.current_x as int;
        let ghost ay = self.current_y as int;
        let found = self.power_ups_under_piece();
        let mut i: usize = 0;
        while i < found.len()
            invariant
                self.wf(),
                draws.wf(),
                i <= found.len(),
                self.current == g0.current,
                self.current_x == g0.current_x,
                self.current_y == g0.current_y,
                self.next == g0.next,
                self.combo == g0.combo,
                self.game_over == g0.game_over,
                self.last_clear_time == g0.last_clear_time,
                self.lines_cleared_total == g0.lines_cleared_total,
                m == g0.current.cells(),
                ax == g0.current_x,
                ay == g0.current_y,
                self.effects() == apply_effects(
                    g0.effects(),
                    found@.take(i as int),
                    m,
                    ax,
                    ay,
                    now,
                    draws.random_effect,
                ),
            decreases found.len() - i,
        {
            self.activate_power_up(found[i], now, draws.random_effect);
            proof {
                assert(found@.take(i + 1).drop_last() =~= found@.take(i as int));
            }
            i = i + 1;
        }
        proof {
            assert(found@.take(found@.len() as int) =~= found@);
            lemma_effects_keep_score(g0.effects(), found@, m, ax, ay, now, draws.random_effect);
        }
        self.place_piece();
        let k = self.clear_lines(now, draws);
        self.spawn_new_piece(draws.next_kind);
        if self.ghost_mode && self.ghost_remaining > 0 {
            self.ghost_remaining = self.ghost_remaining - 1;
            if self.ghost_remaining == 0 {
                self.ghost_mode = false;
            }
        }
        LockResult { cleared_rows: k, power_ups: found.len(), game_over: self.game_over }
    }

    /// Locks the falling piece with fresh random choices.
    pub fn lock_piece(&mut self, now: u64) -> (r: LockResult)
        requires
            old(self).wf(),
        ensures
            final(self).wf(),
            old(self).game_over ==> *final(self) == *old(self) && r.game_over,
            !old(self).game_over ==> exists|d: Draws|
                d.wf() && #[trigger] lock_post(
                    *old(self),
                    old(self).current_y as int,
                    *final(self),
                    r,
                    now,
                    d,
                ),
    {
        let draws = Draws::roll();
        let r = self.lock_piece_with(now, &draws);
        r
    }

    /// Moves the falling piece down one row, or locks it where it cannot move;
    /// returns what the lock did, if one happened.
    pub fn soft_drop_with(&mut self, now: u64, draws: &Draws) -> (r: Option<LockResult>)
        requires
            old(self).wf(),
            draws.wf(),
        ensures
            final(self).wf(),
            old(self).game_over ==> r is None && *final(self) == *old(self),
            !old(self).game_over && old(self).fits_moved(0, 1) ==> r is None
                && final(self).current_y == old(self).current_y + 1
                && final(self).current_x == old(self).current_x
                && final(self).board == old(self).board,
            !old(self).game_over && !old(self).fits_moved(0, 1) ==> r is Some && lock_post(
                *old(self),
                old(self).current_y as int,
                *final(self),
                r->0,
                now,
                *draws,
            ),
    {
        if self.game_over {
            return None;
        }
        if self.move_piece(0, 1) {
            None
        } else {
            Some(self.lock_piece_with(now, draws))
        }
    }

    /// Moves the falling piece down one row, or locks it with fresh random choices.
    pub fn soft_drop(&mut self, now: u64) -> (r: Option<LockResult>)
        requires
            old(self).wf(),
        ensures
            final(self).wf(),
            old(self).game_over ==> r is None && *final(self) == *old(self),
            !old(self).game_over && old(self).fits_moved(0, 1) ==> r is None
                && final(self).current_y == old(self).current_y + 1
                && final(self).current_x == old(self).current_x
                && final(self).board == old(self).board,
            !old(self).game_over && !old(self).fits_moved(0, 1) ==> r is Some && exists|d: Draws|
                d.wf() && #[trigger] lock_post(
                    *old(self),
                    old(self).current_y as int,
                    *final(self),
                    r->0,
                    now,
                    d,
                ),
    {
        let draws = Draws::roll();
        let r = self.soft_drop_with(now, &draws);
        r
    }

    /// Drops the falling piece as far as it goes and locks it there.
    pub fn drop_piece_with(&mut self, now: u64, draws: &Draws) -> (r: LockResult)
        requires
            old(self).wf(),
            draws.wf(),
        ensures
            final(self).wf(),
            old(self).game_over ==> *final(self) == *old(self) && r.game_over,
            !old(self).game_over ==> exists|y: int|
                #[trigger] landing_row(*old(self), y) && lock_post(*old(self), y, *final(self), r, now, *draws),
    {
        if self.game_over {
            return LockResult { cleared_rows: 0, power_ups: 0, game_over: true };
        }
        let ghost g0 = *self;
        while self.move_piece(0, 1)
            invariant
                self.wf(),
                !self.game_over,
                g0.wf(),
                self.current_y >= g0.current_y,
                forall|d: int| 1 <= d <= self.current_y - g0.current_y ==> #[trigger] g0.fits_moved(0, d),
                self.board == g0.board,
                self.current == g0.current,
                self.current_x == g0.current_x,
                self.next == g0.next,
                self.score == g0.score,
                self.combo == g0.combo,
                self.ghost_mode == g0.ghost_mode,
                self.ghost_remaining == g0.ghost_remaining,
                self.slow_time_active == g0.slow_time_active,
                self.slow_time_end == g0.slow_time_end,
                self.hammer_mode == g0.hammer_mode,
                self.last_clear_time == g0.last_clear_time,
                self.lines_cleared_total == g0.lines_cleared_total,
            decreases HEIGHT - self.current_y,
        {
            assert(g0.fits_moved(0, self.current_y - g0.current_y));
        }
        let ghost y = self.current_y as int;
        assert(landing_row(g0, y));
        let r = self.lock_piece_with(now, draws);
        assert(lock_post(g0, y, *self, r, now, *draws));
        r
    }

    /// Drops the falling piece as far as it goes and locks it with fresh random choices.
    pub fn drop_piece(&mut self, now: u64) -> (r: LockResult)
        requires
            old(self).wf(),
        ensures
            final(self).wf(),
            old(self).game_over ==> *final(self) == *old(self) && r.game_over,
            !old(self).game_over ==> exists|y: int, d: Draws|
                #[trigger] landing_row(*old(self), y) && d.wf() && #[trigger] lock_post(
                    *old(self),
                    y,
                    *final(self),
                    r,
                    now,
                    d,
                ),
    {
        let draws = Draws::roll();
        let r = self.drop_piece_with(now, &draws);
        r
    }

    /// Ends slow time once `now` has reached its end.
    pub fn tick(&mut self, now: u64)
        requires
            old(self).wf(),
        ensures
            final(self).wf(),
            ({
                let expired = old(self).slow_time_active && old(self).slow_time_end is Some
                    && now >= old(self).slow_time_end->0;
                &&& final(self).slow_time_active == (old(self).slow_time_active && !expired)
                &&& final(self).slow_time_end == if expired { None } else { old(self).slow_time_end }
            }),
            final(self).board == old(self).board,
            final(self).current == old(self).current,
            final(self).current_x == old(self).current_x,
            final(self).current_y == old(self).current_y,
            final(self).next == old(self).next,
            final(self).score == old(self).score,
            final(self).combo == old(self).combo,
            final(self).game_over == old(self).game_over,
            final(self).ghost_mode == old(self).ghost_mode,
            final(self).ghost_remaining == old(self).ghost_remaining,
            final(self).hammer_mode == old(self).hammer_mode,
            final(self).last_clear_time == old(self).last_clear_time,
            final(self).lines_cleared_total == old(self).lines_cleared_total,
    {
        if self.slow_time_active {
            if let Some(end) = self.slow_time_end {
                if now >= end {
                    self.slow_time_active = false;
                    self.slow_time_end = None;
                }
            }
        }
    }

    /// Milliseconds between two falls: twice the base while slow time is on.
    pub fn get_fall_speed(&self) -> (ms: u64)
        ensures
            ms == if self.slow_time_active { 2 * BASE_FALL_MS as int } else { BASE_FALL_MS as int },
    {
        if self.slow_time_active {
            BASE_FALL_MS * 2
        } else {
            BASE_FALL_MS
        }
    }
}

/// Placement rejects every anchor that puts an occupied entry left or right
/// of the board or below its floor.
pub proof fn lemma_out_of_bounds_rejected(
    b: Seq<Cell>,
    m: Seq<Seq<bool>>,
    ax: int,
    ay: int,
    pass_through: bool,
    i: int,
    j: int,
)
    requires
        0 <= i < m.len(),
        0 <= j < m[i].len(),
        m[i][j],
        !(0 <= ax + j < WIDTH && ay + i < HEIGHT),
    ensures
        !fits(b, m, ax, ay, pass_through),
{
    assert(!cell_fits(b, ax, ay, i, j, pass_through));
}

/// Every kind of piece fits at the spawn anchor of an empty board.
pub proof fn lemma_spawn_fits_empty(b: Seq<Cell>, kind: TetrominoType, pass_through: bool)
    requires
        b.len() == AREA,
        forall|k: int| 0 <= k < AREA ==> #[trigger] b[k] == Cell::Empty,
    ensures
        fits(b, shape_of(kind), SPAWN_X as int, 0, pass_through),
{
    let m = shape_of(kind);
    assert(is_square(m) && m.len() <= 4);
    assert forall|i: int, j: int|
        0 <= i < m.len() && 0 <= j < m[i].len() && #[trigger] m[i][j]
            implies cell_fits(b, SPAWN_X as int, 0, i, j, pass_through) by {
        assert(m[i].len() == m.len());
        assert(cell(b, i, SPAWN_X + j) == b[i * 10 + SPAWN_X + j]);
    }
}

/// Clears in a row: a clear that follows no recent clear scores at
/// multiplier one; a second clear within the window of the first scores at
/// multiplier two; a third within the window of the second, at three.
pub proof fn lemma_combo_chain(combo: u32, last: Option<u64>, t1: u64, t2: u64, t3: u64)
    requires
        !within_window(last, t1),
        (t2 as int) - (t1 as int) < COMBO_WINDOW_MS,
        (t3 as int) - (t2 as int) < COMBO_WINDOW_MS,
    ensures
        ({
            let c1 = next_combo(combo, last, t1);
            let c2 = next_combo(c1, Some(t1), t2);
            let c3 = next_combo(c2, Some(t2), t3);
            &&& 1 + c1 == 1
            &&& 1 + c2 == 2
            &&& 1 + c3 == 3
        }),
{
}

/// Ghost mode, once granted its three locks, stays on through the first two
/// locks that follow and is off after the third.
pub proof fn lemma_ghost_three_locks()
    ensures
        ({
            let s1 = ghost_after_lock(true, GHOST_LOCKS);
            let s2 = ghost_after_lock(s1.0, s1.1);
            let s3 = ghost_after_lock(s2.0, s2.1);
            &&& s1.0 && s2.0 && !s3.0
            &&& s3.1 == 0
        }),
{
}

/// A piece at the spawn anchor lies on the board.
proof fn lemma_spawn_on_board(m: Seq<Seq<bool>>)
    requires
        is_square(m),
        m.len() <= 4,
    ensures
        on_board_at(m, SPAWN_X as int, 0),
{
    assert forall|i: int, j: int|
        0 <= i < m.len() && 0 <= j < m[i].len() && #[trigger] m[i][j]
            implies on_board(i, SPAWN_X + j) by {
        assert(m[i].len() == m.len());
    }
}

/// A piece that fits at an anchor not above the top lies on the board there,
/// and its anchor lies within the bounds that the session keeps.
proof fn lemma_fits_on_board(b: Seq<Cell>, m: Seq<Seq<bool>>, ax: int, ay: int, pass: bool)
    requires
        fits(b, m, ax, ay, pass),
        has_block(m),
        is_square(m),
        m.len() <= 4,
        ay >= 0,
    ensures
        on_board_at(m, ax, ay),
        -4 <= ax < WIDTH,
        0 <= ay < HEIGHT,
{
    let (i, j) = choose|i: int, j: int| 0 <= i < m.len() && 0 <= j < m[i].len() && #[trigger] m[i][j];
    assert(cell_fits(b, ax, ay, i, j, pass));
    assert(m[i].len() == m.len());
    assert forall|a: int, c: int|
        0 <= a < m.len() && 0 <= c < m[a].len() && #[trigger] m[a][c] implies on_board(ay + a, ax + c) by {
        assert(cell_fits(b, ax, ay, a, c, pass));
    }
}

} // verus!
