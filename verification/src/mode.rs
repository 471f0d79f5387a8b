//! The difficulty a run is played at.
//!
//! A mode sets the opening hand (cash and lives) and how steeply fruit speed
//! up from wave to wave. It never changes what a wave sends: the fruit, their
//! count, their order, the boss schedule and every payout are the same on all
//! three.

use vstd::prelude::*;

use crate::fruit::FruitKind;
use crate::wave::{spec_speed_multiplier, TUNED_MAX_SPEED, TUNED_SPEED_RAMP};

verus! {

/// One difficulty setting: a name and the numbers it moves.
///
/// `speed_ramp` is how much faster fruit get with each wave and `max_speed`
/// the ceiling that ramp climbs to, both in thousandths of the base speed.
#[derive(Clone, Copy, Debug)]
pub struct Mode {
    pub name: &'static str,
    pub start_cash: u32,
    pub start_lives: u32,
    pub speed_ramp: u32,
    pub max_speed: u32,
}

/// Cash and lives the balance was tuned against. Medium is these exactly.
pub const TUNED_CASH: u32 = 300;
pub const TUNED_LIVES: u32 = 15;

/// How many modes the selector offers, easiest first.
pub const MODE_COUNT: usize = 3;

/// Where the selector starts: the mode the game is balanced around.
pub const DEFAULT_MODE: usize = 1;

/// The mode table, easiest first: Easy, Medium, Hard.
pub open spec fn spec_mode(i: int) -> Mode {
    if i <= 0 {
        Mode { name: "Easy", start_cash: 550, start_lives: 30, speed_ramp: 15, max_speed: 1350 }
    } else if i == 1 {
        Mode {
            name: "Medium",
            start_cash: TUNED_CASH,
            start_lives: TUNED_LIVES,
            speed_ramp: TUNED_SPEED_RAMP,
            max_speed: TUNED_MAX_SPEED,
        }
    } else {
        Mode {
            name: "Hard",
            start_cash: 200,
            start_lives: 8,
            speed_ramp: TUNED_SPEED_RAMP,
            max_speed: TUNED_MAX_SPEED,
        }
    }
}

/// The mode at `i`, clamped to the last one rather than failing on a stale
/// index.
pub fn mode(i: usize) -> (m: Mode)
    ensures
        m == spec_mode(if i < MODE_COUNT { i as int } else { MODE_COUNT - 1 }),
{
    if i == 0 {
        Mode { name: "Easy", start_cash: 550, start_lives: 30, speed_ramp: 15, max_speed: 1350 }
    } else if i == 1 {
        Mode {
            name: "Medium",
            start_cash: TUNED_CASH,
            start_lives: TUNED_LIVES,
            speed_ramp: TUNED_SPEED_RAMP,
            max_speed: TUNED_MAX_SPEED,
        }
    } else {
        Mode {
            name: "Hard",
            start_cash: 200,
            start_lives: 8,
            speed_ramp: TUNED_SPEED_RAMP,
            max_speed: TUNED_MAX_SPEED,
        }
    }
}


/// The row is authored easiest first, and every dial agrees with that order:
/// each mode starts richer and with more lives than the next, and ramps up no
/// faster, to no higher a ceiling.
pub proof fn lemma_modes_get_steadily_harder(i: int)
    requires
        0 <= i,
        i + 1 < MODE_COUNT,
    ensures
        spec_mode(i).speed_ramp <= spec_mode(i + 1).speed_ramp,
        spec_mode(i).max_speed <= spec_mode(i + 1).max_speed,
        spec_mode(i).start_cash > spec_mode(i + 1).start_cash,
        spec_mode(i).start_lives > spec_mode(i + 1).start_lives,
{
}

/// No mode out-accelerates the tuned baseline, and Medium is that baseline
/// exactly.
pub proof fn lemma_tuned_baseline(i: int)
    requires
        0 <= i < MODE_COUNT,
    ensures
        spec_mode(i).speed_ramp <= TUNED_SPEED_RAMP,
        spec_mode(i).max_speed <= TUNED_MAX_SPEED,
        spec_mode(DEFAULT_MODE as int).start_cash == TUNED_CASH,
        spec_mode(DEFAULT_MODE as int).start_lives == TUNED_LIVES,
        spec_mode(DEFAULT_MODE as int).speed_ramp == TUNED_SPEED_RAMP,
        spec_mode(DEFAULT_MODE as int).max_speed == TUNED_MAX_SPEED,
{
}

/// Every mode opens at base speed or faster, can afford the cheapest tower
/// (a $90 Seed Shooter) before the first wave, and survives a leaked Durian.
pub proof fn lemma_every_mode_is_playable(i: int)
    requires
        0 <= i < MODE_COUNT,
    ensures
        spec_mode(i).max_speed >= 1000,
        spec_mode(i).start_cash >= 90,
        spec_mode(i).start_lives > FruitKind::Durian.spec_leak_cost(),
{
}

/// Easy's fruit stay slower than Medium's for the whole of a run, however
/// long: the speed dial is still doing something on the last wave.
pub proof fn lemma_easy_stays_slower(wave: u32)
    requires
        wave >= 2,
    ensures
        spec_speed_multiplier(wave, spec_mode(0)) < spec_speed_multiplier(wave, spec_mode(1)),
{
    let steps = wave - 1;
    assert(15 * steps < 35 * steps);
}

/// The three modes are called Easy, Medium and Hard, and the names differ.
pub proof fn lemma_mode_names()
    ensures
        spec_mode(0).name@ == "Easy"@,
        spec_mode(1).name@ == "Medium"@,
        spec_mode(2).name@ == "Hard"@,
        spec_mode(0).name@ != spec_mode(1).name@,
        spec_mode(0).name@ != spec_mode(2).name@,
        spec_mode(1).name@ != spec_mode(2).name@,
{
    reveal_strlit("Easy");
    reveal_strlit("Medium");
    reveal_strlit("Hard");
    assert("Easy"@.len() != "Medium"@.len());
    assert("Hard"@.len() != "Medium"@.len());
    assert("Easy"@[0] != "Hard"@[0]);
}

} // verus!
