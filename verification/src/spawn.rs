//! Drawing the colours of the next falling column.
//!
//! A column is drawn in one of three patterns. The colours come from a random
//! source, one candidate at a time; a candidate that would break the pattern is
//! rejected and another one is drawn in its place.

use vstd::prelude::*;

verus! {

/// Number of gem colours. Colour ids run from 1 to this number; 0 is the empty cell.
pub const GEM_COLORS: i16 = 7;

/// Number of cleared gems that make one level.
pub const GEMS_PER_LEVEL: u32 = 10;

/// The level that a player has reached who has cleared `cleared_cells` gems.
pub fn level_of(cleared_cells: u32) -> (level: u32)
    ensures
        level == cleared_cells / GEMS_PER_LEVEL,
{
    cleared_cells / GEMS_PER_LEVEL
}

/// The pattern of colours in a column of three gems.
#[derive(Clone, Copy, Debug, PartialEq, Eq, Structural)]
pub enum SpawnBranch {
    /// Three colours, no two alike.
    Distinct,
    /// Top and middle alike, bottom of another colour.
    Pair,
    /// All three alike.
    Same,
}

impl SpawnBranch {
    /// The pattern that a random value calls for, given on which side of the
    /// two thresholds it lies: above the upper one, three distinct colours;
    /// else above the lower one, a pair and a single; else one colour.
    pub open spec fn for_roll_spec(above_upper: bool, above_lower: bool) -> SpawnBranch {
        if above_upper {
            SpawnBranch::Distinct
        } else if above_lower {
            SpawnBranch::Pair
        } else {
            SpawnBranch::Same
        }
    }

    /// The pattern that a random value calls for, given whether it lies above
    /// the upper threshold and whether it lies above the lower one.
    pub fn for_roll(above_upper: bool, above_lower: bool) -> (b: SpawnBranch)
        ensures
            b == Self::for_roll_spec(above_upper, above_lower),
    {
        if above_upper {
            SpawnBranch::Distinct
        } else if above_lower {
            SpawnBranch::Pair
        } else {
            SpawnBranch::Same
        }
    }
}

/// `c` is the id of a gem colour.
pub open spec fn is_gem(c: i16) -> bool {
    1 <= c <= GEM_COLORS
}

/// Whether `c` is the id of a gem colour.
pub fn is_gem_colour(c: i16) -> (r: bool)
    ensures
        r == is_gem(c),
{
    1 <= c && c <= GEM_COLORS
}

/// The three values are gem colours.
pub open spec fn are_gems(g: (i16, i16, i16)) -> bool {
    is_gem(g.0) && is_gem(g.1) && is_gem(g.2)
}

/// The three colours `g` (top, middle, bottom) follow the pattern `branch`.
pub open spec fn fits_branch(g: (i16, i16, i16), branch: SpawnBranch) -> bool {
    are_gems(g) && match branch {
        SpawnBranch::Distinct => g.0 != g.1 && g.0 != g.2 && g.1 != g.2,
        SpawnBranch::Pair => g.0 == g.1 && g.0 != g.2,
        SpawnBranch::Same => g.0 == g.1 && g.0 == g.2,
    }
}

/// The least number of candidates that can complete a column of pattern `branch`.
pub open spec fn least_draws(branch: SpawnBranch) -> nat {
    match branch {
        SpawnBranch::Distinct => 3,
        SpawnBranch::Pair => 2,
        SpawnBranch::Same => 1,
    }
}

/// A column of three gems in the making: the pattern, and the colours settled so far.
#[derive(Clone, Copy, Debug)]
pub struct GemDraw {
    branch: SpawnBranch,
    slots: (i16, i16, i16),
    filled: u8,
}

impl GemDraw {
    /// The pattern that is being drawn.
    pub closed spec fn branch(&self) -> SpawnBranch {
        self.branch
    }

    /// The colours settled so far, from the top.
    pub closed spec fn view(&self) -> Seq<i16> {
        seq![self.slots.0, self.slots.1, self.slots.2].take(self.filled as int)
    }

    /// The settled colours are gems and follow the pattern as far as they go.
    pub closed spec fn wf(&self) -> bool {
        &&& self.filled <= 3
        &&& self.filled >= 1 ==> is_gem(self.slots.0)
        &&& self.filled >= 2 ==> is_gem(self.slots.1)
        &&& self.filled >= 3 ==> is_gem(self.slots.2)
        &&& match self.branch {
            SpawnBranch::Distinct => {
                &&& self.filled >= 2 ==> self.slots.0 != self.slots.1
                &&& self.filled >= 3 ==> self.slots.0 != self.slots.2 && self.slots.1 != self.slots.2
            },
            SpawnBranch::Pair => {
                &&& self.filled != 1
                &&& self.filled >= 2 ==> self.slots.0 == self.slots.1
                &&& self.filled >= 3 ==> self.slots.0 != self.slots.2
            },
            SpawnBranch::Same => {
                &&& self.filled == 0 || self.filled == 3
                &&& self.filled >= 3 ==> self.slots.0 == self.slots.1 && self.slots.0 == self.slots.2
            },
        }
    }

    /// A candidate is taken when it differs from every colour settled so far.
    pub open spec fn accepts(settled: Seq<i16>, c: i16) -> bool {
        forall|k: int| 0 <= k < settled.len() ==> settled[k] != c
    }

    /// The settled colours after the candidate `c` was offered: a rejected
    /// candidate changes nothing; the first one taken fills as many slots as the
    /// pattern repeats it in; a later one fills one slot.
    pub open spec fn after_offer(settled: Seq<i16>, branch: SpawnBranch, c: i16) -> Seq<i16> {
        if settled.len() >= 3 || !Self::accepts(settled, c) {
            settled
        } else if settled.len() == 0 {
            match branch {
                SpawnBranch::Distinct => seq![c],
                SpawnBranch::Pair => seq![c, c],
                SpawnBranch::Same => seq![c, c, c],
            }
        } else {
            settled.push(c)
        }
    }

    /// A draw of pattern `branch` with no colour settled.
    pub fn new(branch: SpawnBranch) -> (d: GemDraw)
        ensures
            d.wf(),
            d.branch() == branch,
            d@ == Seq::<i16>::empty(),
    {
        GemDraw { branch, slots: (0, 0, 0), filled: 0 }
    }

    /// Offers the candidate colour `c`. Returns whether it was taken.
    pub fn offer(&mut self, c: i16) -> (taken: bool)
        requires
            old(self).wf(),
            is_gem(c),
        ensures
            final(self).wf(),
            final(self).branch() == old(self).branch(),
            taken == (old(self)@.len() < 3 && Self::accepts(old(self)@, c)),
            final(self)@ == Self::after_offer(old(self)@, old(self).branch(), c),
    {
        let ghost settled = self@;
        if self.filled == 0 {
            match self.branch {
                SpawnBranch::Distinct => {
                    self.slots = (c, 0, 0);
                    self.filled = 1;
                },
                SpawnBranch::Pair => {
                    self.slots = (c, c, 0);
                    self.filled = 2;
                },
                SpawnBranch::Same => {
                    self.slots = (c, c, c);
                    self.filled = 3;
                },
            }
            assert(self@ =~= Self::after_offer(settled, self.branch, c));
            true
        } else if self.filled == 1 {
            assert(settled[0] == self.slots.0);
            if c != self.slots.0 {
                self.slots = (self.slots.0, c, 0);
                self.filled = 2;
                assert(self@ =~= settled.push(c));
                true
            } else {
                false
            }
        } else if self.filled == 2 {
            assert(settled[0] == self.slots.0 && settled[1] == self.slots.1);
            if c != self.slots.0 && c != self.slots.1 {
                self.slots = (self.slots.0, self.slots.1, c);
                self.filled = 3;
                assert(self@ =~= settled.push(c));
                true
            } else {
                false
            }
        } else {
            false
        }
    }

    /// The finished column, once all three colours are settled.
    pub fn gems(&self) -> (g: Option<(i16, i16, i16)>)
        requires
            self.wf(),
        ensures
            g is Some <==> self@.len() == 3,
            g matches Some(t) ==> self@ == seq![t.0, t.1, t.2] && fits_branch(t, self.branch()),
    {
        if self.filled == 3 {
            assert(self@ =~= seq![self.slots.0, self.slots.1, self.slots.2]);
            Some(self.slots)
        } else {
            None
        }
    }
}

/// Calls `gen_range` of macroquad's `rand` module on two `i16` bounds. That
/// function scales the next number of its generator into the interval from
/// `low` to `high` and cuts off the fraction; for bounds that are not negative
/// the result is at least `low` and less than `high`. Which number comes is not
/// stated: it depends on the generator's state.
#[verifier::external_body]
fn random_between(low: i16, high: i16) -> (r: i16)
    requires
        0 <= low < high,
    ensures
        low <= r < high,
{
    macroquad::rand::gen_range(low, high)
}

/// Draws a column of pattern `branch` from the random source, asking for at
/// most `max_draws` candidates. Gives the column if it was completed within
/// that many candidates. A column of one colour is complete with the first
/// candidate; the other patterns may reject candidates, so that no number of
/// draws is sure to be enough.
pub fn draw_gems(branch: SpawnBranch, max_draws: u32) -> (g: Option<(i16, i16, i16)>)
    ensures
        g matches Some(t) ==> fits_branch(t, branch),
        max_draws < least_draws(branch) ==> g is None,
        branch == SpawnBranch::Same && max_draws >= 1 ==> g is Some,
{
    let mut draw = GemDraw::new(branch);
    let mut used: u32 = 0;
    while used < max_draws && draw.filled < 3
        invariant
            draw.wf(),
            draw.branch() == branch,
            used <= max_draws,
            draw@.len() == draw.filled,
            used == 0 ==> draw@.len() == 0,
            branch == SpawnBranch::Distinct ==> draw@.len() <= used,
            branch == SpawnBranch::Pair ==> draw@.len() <= used + 1,
            branch == SpawnBranch::Same && used >= 1 ==> draw@.len() == 3,
        decreases max_draws - used,
    {
        let c = random_between(1, GEM_COLORS + 1);
        draw.offer(c);
        used = used + 1;
    }
    draw.gems()
}

} // verus!
