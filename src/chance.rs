//! Random choices, drawn from the thread-local generator of `rand`.
use vstd::prelude::*;
use rand::Rng;
use crate::board::{PowerUpType, WIDTH};
use crate::piece::TetrominoType;

verus! {

/// Relies on `rand::rng` and `Rng::random_range`: a value drawn from `0..n`,
/// which the documentation promises lies in that range (it panics on an empty one).
#[verifier::external_body]
fn random_below(n: u64) -> (r: u64)
    requires
        n > 0,
    ensures
        r < n,
{
    rand::rng().random_range(0..n)
}

/// Relies on `rand::rng` and `Rng::random_ratio`: `true` with chance
/// `num / den`; the documentation promises `false` when `num == 0` and `true`
/// when `num == den`, and a panic when `den == 0` or `num > den`.
#[verifier::external_body]
fn random_ratio(num: u32, den: u32) -> (r: bool)
    requires
        0 < den,
        num <= den,
    ensures
        num == 0 ==> !r,
        num == den ==> r,
{
    rand::rng().random_ratio(num, den)
}

/// The piece kind numbered `i` in the order I, O, T, S, Z, J, L.
pub open spec fn kind_at(i: int) -> TetrominoType {
    if i == 0 {
        TetrominoType::I
    } else if i == 1 {
        TetrominoType::O
    } else if i == 2 {
        TetrominoType::T
    } else if i == 3 {
        TetrominoType::S
    } else if i == 4 {
        TetrominoType::Z
    } else if i == 5 {
        TetrominoType::J
    } else {
        TetrominoType::L
    }
}

/// The power-up kind numbered `i` in the order Bomb, SlowTime, GhostMode, Hammer, Random.
pub open spec fn power_up_at(i: int) -> PowerUpType {
    if i == 0 {
        PowerUpType::Bomb
    } else if i == 1 {
        PowerUpType::SlowTime
    } else if i == 2 {
        PowerUpType::GhostMode
    } else if i == 3 {
        PowerUpType::Hammer
    } else {
        PowerUpType::Random
    }
}

/// The piece kind numbered `i`, for `i < 7`.
pub fn kind_from_index(i: u64) -> (t: TetrominoType)
    requires
        i < 7,
    ensures
        t == kind_at(i as int),
{
    match i {
        0 => TetrominoType::I,
        1 => TetrominoType::O,
        2 => TetrominoType::T,
        3 => TetrominoType::S,
        4 => TetrominoType::Z,
        5 => TetrominoType::J,
        _ => TetrominoType::L,
    }
}

/// The power-up kind numbered `i`, for `i < 5`.
pub fn power_up_from_index(i: u64) -> (p: PowerUpType)
    requires
        i < 5,
    ensures
        p == power_up_at(i as int),
{
    match i {
        0 => PowerUpType::Bomb,
        1 => PowerUpType::SlowTime,
        2 => PowerUpType::GhostMode,
        3 => PowerUpType::Hammer,
        _ => PowerUpType::Random,
    }
}

/// A piece kind drawn uniformly from the seven, each draw independent of the others.
pub fn random_kind() -> TetrominoType {
    let i = random_below(7);
    kind_from_index(i)
}

/// The random choices that one lock may use.
#[derive(Clone, Copy, Debug, PartialEq, Eq, Structural)]
pub struct Draws {
    /// Kind of the piece drawn as the new preview.
    pub next_kind: TetrominoType,
    /// What a `Random` power-up turns into.
    pub random_effect: PowerUpType,
    /// Whether an obstacle appears when one is due.
    pub obstacle: bool,
    /// Bottom-row column where the obstacle would appear.
    pub obstacle_column: usize,
    /// Whether a power-up appears after a clear.
    pub power_up: bool,
    /// Bottom-row column where the power-up would appear.
    pub power_up_column: usize,
    /// Kind of the power-up that would appear.
    pub power_up_kind: PowerUpType,
}

impl Draws {
    /// Columns lie on the board, and a `Random` power-up never turns into another `Random`.
    pub open spec fn wf(&self) -> bool {
        &&& self.random_effect != PowerUpType::Random
        &&& self.obstacle_column < WIDTH
        &&& self.power_up_column < WIDTH
    }

    /// Fresh draws: an obstacle with chance 3 in 10, a power-up with chance
    /// 4 in 10, columns, kinds and the `Random` effect uniform.
    pub fn roll() -> (d: Draws)
        ensures
            d.wf(),
    {
        let next_kind = random_kind();
        let e = random_below(4);
        let random_effect = power_up_from_index(e);
        let obstacle = random_ratio(3, 10);
        let obstacle_column = random_below(WIDTH as u64) as usize;
        let power_up = random_ratio(4, 10);
        let power_up_column = random_below(WIDTH as u64) as usize;
        let p = random_below(5);
        let power_up_kind = power_up_from_index(p);
        Draws {
            next_kind,
            random_effect,
            obstacle,
            obstacle_column,
            power_up,
            power_up_column,
            power_up_kind,
        }
    }
}

} // verus!
