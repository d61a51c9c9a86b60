//! The computer player: a color plus a skill level from which the search
//! depth and a handicap skew are derived.

use vstd::prelude::*;

use crate::board::Board;

verus! {

/// The side a player moves for. White moves toward decreasing rank index,
/// Black toward increasing rank index.
#[derive(Clone, Copy, PartialEq, Eq, Structural, Debug)]
pub enum Color {
    White,
    Black,
}

/// A computer opponent: immutable after construction, it holds a color and a
/// skill level clamped to `[1, 10]`, from which a search depth and a handicap
/// skew are derived.
pub struct CpuPlayer {
    pub color: Color,
    level: i8,
}

/// A level clamped into the range `[1, 10]`.
pub open spec fn spec_clamp_level(level: int) -> int {
    if level > 10 {
        10
    } else if level < 1 {
        1
    } else {
        level
    }
}

impl CpuPlayer {
    /// The player's skill level.
    pub closed spec fn spec_level(self) -> int {
        self.level as int
    }

    /// The player's color.
    pub closed spec fn spec_color(self) -> Color {
        self.color
    }

    /// The level is always the clamped value some construction supplied.
    pub open spec fn wf(self) -> bool {
        1 <= self.spec_level() <= 10
    }

    /// The search horizon derived from the level: `level + max(level / 2, 1)`.
    pub open spec fn spec_depth(self) -> int {
        self.spec_level() + if self.spec_level() / 2 >= 1 {
            self.spec_level() / 2
        } else {
            1
        }
    }

    /// The handicap skew derived from the level: `max(5 - level, 0)`.
    pub open spec fn spec_skew(self) -> int {
        if 5 - self.spec_level() >= 0 {
            5 - self.spec_level()
        } else {
            0
        }
    }

    /// Builds a player of the given color, silently clamping the requested
    /// level into `[1, 10]`.
    pub fn new(c: Color, level: i8) -> (p: CpuPlayer)
        ensures
            p.spec_color() == c,
            p.spec_level() == spec_clamp_level(level as int),
            p.wf(),
    {
        let clamped: i8 = if level > 10 {
            10
        } else if level < 1 {
            1
        } else {
            level
        };
        CpuPlayer { color: c, level: clamped }
    }

    pub fn level(&self) -> (l: i8)
        ensures
            l as int == self.spec_level(),
    {
        self.level
    }

    pub fn depth(&self) -> (d: i32)
        requires
            self.wf(),
        ensures
            d as int == self.spec_depth(),
    {
        let level = self.level as i32;
        let half = level / 2;
        level + if half >= 1 {
            half
        } else {
            1
        }
    }

    pub fn skew(&self) -> (s: i8)
        requires
            self.wf(),
        ensures
            s as int == self.spec_skew(),
    {
        let rest = 5 - self.level;
        if rest >= 0 {
            rest
        } else {
            0
        }
    }

    /// Chooses the engine's reply from the given position.
    ///
    /// The adversarial tree search is not implemented yet: the player derives
    /// its search depth and handicap skew from its level and then plays a
    /// pass, returning the position unchanged. The derived parameters are
    /// exposed through `depth` and `skew` for callers and for the search to
    /// come.
    pub fn next_move(&self, b: Board) -> (r: Board)
        requires
            self.wf(),
        ensures
            r == b,
    {
        let _depth = self.depth();
        let _skew = self.skew();
        b
    }
}

} // verus!
