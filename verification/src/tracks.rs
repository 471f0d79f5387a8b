//! The selectable routes: what each is called, how hard it is labelled, how
//! many waves it runs and how many lanes it has. The lanes' shapes are drawn
//! and walked by the program that runs the game.

use vstd::prelude::*;

use crate::wave::{spec_boss_count, FIRST_BOSS_WAVE};

verus! {

/// How many routes there are.
pub const TRACK_COUNT: usize = 7;

/// One selectable route.
#[derive(Clone, Copy, Debug)]
pub struct TrackDef {
    pub name: &'static str,
    /// Short note on how the route plays, shown on the selection card.
    pub blurb: &'static str,
    pub difficulty: &'static str,
    /// How many waves must be survived to clear the route. Harder routes run
    /// shorter.
    pub waves: u32,
    /// How many separate lanes fruit walk to the shared exit.
    pub lanes: usize,
}

/// The route table, in card order.
pub open spec fn spec_track(i: int) -> TrackDef {
    if i == 0 {
        TrackDef { name: "Orchard Snake", blurb: "a steady weave", difficulty: "Medium", waves: 46, lanes: 1 }
    } else if i == 1 {
        TrackDef { name: "Market Run", blurb: "short and direct", difficulty: "Hard", waves: 42, lanes: 1 }
    } else if i == 2 {
        TrackDef {
            name: "The Long Orchard",
            blurb: "plenty of time to shoot",
            difficulty: "Gentle",
            waves: 48,
            lanes: 1,
        }
    } else if i == 3 {
        TrackDef {
            name: "Zigzag Grove",
            blurb: "tight lanes, wide cover",
            difficulty: "Medium",
            waves: 46,
            lanes: 1,
        }
    } else if i == 4 {
        TrackDef { name: "Twin Gates", blurb: "two ways in, one out", difficulty: "Tricky", waves: 44, lanes: 2 }
    } else if i == 5 {
        TrackDef { name: "Meander", blurb: "the long way round", difficulty: "Gentle", waves: 50, lanes: 1 }
    } else {
        TrackDef {
            name: "Spiral Garden",
            blurb: "wind in, then wind out",
            difficulty: "Gentle",
            waves: 50,
            lanes: 1,
        }
    }
}

/// The route on card `i`.
pub fn track(i: usize) -> (t: TrackDef)
    requires
        i < TRACK_COUNT,
    ensures
        t == spec_track(i as int),
{
    if i == 0 {
        TrackDef { name: "Orchard Snake", blurb: "a steady weave", difficulty: "Medium", waves: 46, lanes: 1 }
    } else if i == 1 {
        TrackDef { name: "Market Run", blurb: "short and direct", difficulty: "Hard", waves: 42, lanes: 1 }
    } else if i == 2 {
        TrackDef {
            name: "The Long Orchard",
            blurb: "plenty of time to shoot",
            difficulty: "Gentle",
            waves: 48,
            lanes: 1,
        }
    } else if i == 3 {
        TrackDef {
            name: "Zigzag Grove",
            blurb: "tight lanes, wide cover",
            difficulty: "Medium",
            waves: 46,
            lanes: 1,
        }
    } else if i == 4 {
        TrackDef { name: "Twin Gates", blurb: "two ways in, one out", difficulty: "Tricky", waves: 44, lanes: 2 }
    } else if i == 5 {
        TrackDef { name: "Meander", blurb: "the long way round", difficulty: "Gentle", waves: 50, lanes: 1 }
    } else {
        TrackDef {
            name: "Spiral Garden",
            blurb: "wind in, then wind out",
            difficulty: "Gentle",
            waves: 50,
            lanes: 1,
        }
    }
}

/// How many cards the route picker shows: one per route, plus the random one.
pub fn card_count() -> (n: usize)
    ensures
        n == TRACK_COUNT + 1,
{
    TRACK_COUNT + 1
}

/// The card that picks a route at random: always the last, so adding a route
/// never moves it out from under the player's finger.
pub fn random_card_index() -> (i: usize)
    ensures
        i == TRACK_COUNT,
{
    TRACK_COUNT
}

/// Every route is a long run, 40 to 50 waves, and so runs long enough to meet
/// the boss, and ends on a boss wave.
pub proof fn lemma_every_route_meets_the_boss(i: int)
    requires
        0 <= i < TRACK_COUNT,
    ensures
        40 <= spec_track(i).waves <= 50,
        spec_track(i).waves >= FIRST_BOSS_WAVE,
        spec_boss_count(spec_track(i).waves, spec_track(i).waves) >= 1,
        spec_track(i).lanes >= 1,
{
}

/// Twin Gates is the one route with more than one lane, and it has two.
pub proof fn lemma_only_twin_gates_has_two_lanes(i: int)
    requires
        0 <= i < TRACK_COUNT,
    ensures
        spec_track(i).lanes > 1 <==> i == 4,
        spec_track(4).lanes == 2,
        spec_track(4).name@ == "Twin Gates"@,
{
    reveal_strlit("Twin Gates");
}

/// A route labelled Hard never runs longer than one labelled Gentle.
pub proof fn lemma_harder_routes_are_shorter_runs(hard: int, gentle: int)
    requires
        0 <= hard < TRACK_COUNT,
        0 <= gentle < TRACK_COUNT,
        spec_track(hard).difficulty@ == "Hard"@,
        spec_track(gentle).difficulty@ == "Gentle"@,
    ensures
        spec_track(hard).waves <= spec_track(gentle).waves,
{
    reveal_strlit("Hard");
    reveal_strlit("Gentle");
    reveal_strlit("Medium");
    reveal_strlit("Tricky");
    assert("Hard"@.len() != "Gentle"@.len());
    assert("Hard"@.len() != "Medium"@.len());
    assert("Hard"@ != "Tricky"@);
    assert("Gentle"@[0] != "Medium"@[0]);
    assert("Gentle"@[0] != "Tricky"@[0]);
}

/// Every card's text fits: a blurb is at most 23 characters, and a name with
/// the "N. " the card puts before it at most 19.
pub proof fn lemma_card_text_fits(i: int)
    requires
        0 <= i < TRACK_COUNT,
    ensures
        spec_track(i).blurb@.len() <= 23,
        spec_track(i).name@.len() + 3 <= 19,
{
    reveal_strlit("Orchard Snake");
    reveal_strlit("a steady weave");
    reveal_strlit("Market Run");
    reveal_strlit("short and direct");
    reveal_strlit("The Long Orchard");
    reveal_strlit("plenty of time to shoot");
    reveal_strlit("Zigzag Grove");
    reveal_strlit("tight lanes, wide cover");
    reveal_strlit("Twin Gates");
    reveal_strlit("two ways in, one out");
    reveal_strlit("Meander");
    reveal_strlit("the long way round");
    reveal_strlit("Spiral Garden");
    reveal_strlit("wind in, then wind out");
}

} // verus!
