//! A run: the screen the game is on, and the board and economy of the route
//! being defended.
//!
//! The program that runs the game owns the clock, the input, the lanes'
//! geometry and the drawing. It asks this state what to do and tells it what
//! happened: a click on a button, a tower placed where the geometry allows, a
//! fruit that a shot struck, a stretch of time gone by. Everything the rules
//! decide (what is bought and for how much, what a wave sends, when a life is
//! lost, when a wave is cleared, when the run is won or lost) is decided here.

use vstd::prelude::*;

use crate::chance::random_below;
use crate::combat::{
    land_hits, lemma_spaced_filter, lemma_spikes_only_spend, piles_spaced, run_over_spikes,
    spec_gap, spec_bursts, spec_spikes_after, Hit,
};
use crate::fruit::{spec_advanced, Fruit, FruitKind};
use crate::mode::{mode, spec_mode, DEFAULT_MODE, MODE_COUNT};
use crate::tower::{SpikePile, Tower, TowerKind, MAX_LEVEL, SPIKE_SPACING, TOWER_RADIUS};
use crate::tracks::{random_card_index, spec_track, track, TRACK_COUNT};
use crate::wave::{build_wave, clear_bonus, is_wave_queue, spawn_interval, speed_multiplier};

verus! {

/// Seconds between a wave clearing and the next one going out on its own,
/// once auto-send is armed, in milliseconds.
pub const AUTO_WAVE_DELAY_MS: u32 = 3000;
/// How long the quit button stays armed waiting for its confirming click.
pub const QUIT_ARM_MS: u32 = 3000;
/// World steps per frame while fast forward is on: two ordinary steps rather
/// than one long one, so no collision window is ever stepped over.
pub const FAST_FORWARD_STEPS: u32 = 2;
/// Width of the playable field, in pixels. The shop column sits beside it.
pub const PLAYFIELD_W: u32 = 1200;
/// Height of the playable field, in pixels.
pub const PLAYFIELD_H: u32 = 740;
/// Cash earned for each fruit destroyed outright, one with nothing left to
/// split into.
pub const CASH_PER_FRUIT_CLEARED: u32 = 1;

/// Which screen the game is on.
#[derive(Clone, Copy, PartialEq, Eq, Structural, Debug)]
pub enum Screen {
    Menu,
    /// Picking which route to defend, before a run starts.
    TrackSelect,
    Playing,
    GameOver,
    /// Every wave on the route survived.
    Victory,
}

/// What a purchase request came to.
#[derive(Clone, Copy, PartialEq, Eq, Structural, Debug)]
pub enum Purchase {
    /// Bought, and paid for.
    Done,
    /// Nothing to buy: nothing selected, or already at the top level.
    Unavailable,
    /// Not enough cash.
    Unaffordable,
}

/// Everything a tower of `kind` at `level` has cost: its price and the price
/// of each upgrade on the way up.
pub open spec fn spec_spent(kind: TowerKind, level: u8) -> u32 {
    let first = match kind.spec_upgrade_cost(1) {
        Some(c) => c,
        None => 0,
    };
    let second = match kind.spec_upgrade_cost(2) {
        Some(c) => c,
        None => 0,
    };
    (kind.spec_cost() + (if level >= 2 { first } else { 0 }) + (if level >= 3 {
        second
    } else {
        0
    })) as u32
}

/// Lives the fruit of `fruits` that have walked their whole lane cost, the
/// lanes being `lane_lengths` long.
pub open spec fn spec_leak_cost(fruits: Seq<Fruit>, lane_lengths: Seq<u32>) -> int
    decreases fruits.len(),
{
    if fruits.len() == 0 {
        0
    } else {
        let f = fruits.last();
        spec_leak_cost(fruits.drop_last(), lane_lengths) + (if f.dist >= lane_lengths[f.lane as int] {
            f.kind.spec_leak_cost() as int
        } else {
            0
        })
    }
}

/// `after` with the bursts from position `r` of `bursts` on taken out, the
/// last one first.
pub open spec fn spec_without_bursts(after: Seq<Fruit>, bursts: Seq<(usize, u32)>, r: int) -> Seq<
    Fruit,
>
    decreases bursts.len() - r,
{
    if r < 0 || r >= bursts.len() {
        after
    } else {
        spec_without_bursts(after, bursts, r + 1).remove(bursts[r].0 as int)
    }
}

/// The children left behind by the bursts from position `r` on, the last
/// burst's first.
pub open spec fn spec_burst_children(after: Seq<Fruit>, bursts: Seq<(usize, u32)>, r: int) -> Seq<
    Fruit,
>
    decreases bursts.len() - r,
{
    if r < 0 || r >= bursts.len() {
        Seq::empty()
    } else {
        spec_burst_children(after, bursts, r + 1) + after[bursts[r].0 as int].spec_children()
    }
}

/// How many of the bursts from position `r` on were fruit at the bottom of
/// the ladder: the ones that pay.
pub open spec fn spec_cleared(after: Seq<Fruit>, bursts: Seq<(usize, u32)>, r: int) -> int
    decreases bursts.len() - r,
{
    if r < 0 || r >= bursts.len() {
        0
    } else {
        spec_cleared(after, bursts, r + 1) + (if after[bursts[r].0 as int].kind.spec_child() is None {
            1int
        } else {
            0
        })
    }
}

/// How many of the bursts from position `r` on are credited to tower `id`.
pub open spec fn spec_credits(bursts: Seq<(usize, u32)>, r: int, id: u32) -> int
    decreases bursts.len() - r,
{
    if r < 0 || r >= bursts.len() {
        0
    } else {
        spec_credits(bursts, r + 1, id) + (if bursts[r].1 == id { 1int } else { 0 })
    }
}

proof fn lemma_credits_bounds(bursts: Seq<(usize, u32)>, r: int, id: u32)
    requires
        0 <= r <= bursts.len(),
    ensures
        0 <= spec_credits(bursts, r, id) <= bursts.len() - r,
    decreases bursts.len() - r,
{
    if r < bursts.len() {
        lemma_credits_bounds(bursts, r + 1, id);
    }
}

proof fn lemma_without_bursts_lanes(after: Seq<Fruit>, b: Seq<(usize, u32)>, r: int, lanes: usize)
    requires
        0 <= r <= b.len(),
        b.len() <= after.len(),
        forall|a: int| 0 <= a < b.len() ==> (#[trigger] b[a]).0 < after.len(),
        forall|a: int, c: int| 0 <= a < c < b.len() ==> (#[trigger] b[a]).0 < (#[trigger] b[c]).0,
        forall|a: int| 0 <= a < b.len() ==> (#[trigger] b[a]).0 >= a,
        forall|i: int| 0 <= i < after.len() ==> (#[trigger] after[i]).lane < lanes,
    ensures
        forall|i: int|
            0 <= i < spec_without_bursts(after, b, r).len() ==> (#[trigger] spec_without_bursts(
                after,
                b,
                r,
            )[i]).lane < lanes,
    decreases b.len() - r,
{
    if r < b.len() {
        lemma_without_bursts_lanes(after, b, r + 1, lanes);
        lemma_without_bursts_prefix(after, b, r + 1);
        lemma_later_bursts_above(after.len() as int, b, r);
        let rest = spec_without_bursts(after, b, r + 1);
        let cur = spec_without_bursts(after, b, r);
        assert(0 <= b[r].0 < rest.len());
        {
            assert forall|i: int| 0 <= i < cur.len() implies (#[trigger] cur[i]).lane < lanes by {
                if i < b[r].0 {
                    assert(cur[i] == rest[i]);
                } else {
                    assert(cur[i] == rest[i + 1]);
                }
            }
        }
    }
}

proof fn lemma_after_hits_keeps(f: Fruit, i: int, hits: Seq<Hit>)
    ensures
        ({
            let g = crate::combat::spec_after_hits(f, i, hits);
            g == Fruit { hp: g.hp, ..f }
        }),
    decreases hits.len(),
{
    if hits.len() > 0 {
        lemma_after_hits_keeps(f, i, hits.drop_last());
    }
}

proof fn lemma_ascending_len(b: Seq<(usize, u32)>, n: int)
    requires
        n >= 0,
        forall|a: int| 0 <= a < b.len() ==> (#[trigger] b[a]).0 < n,
        forall|a: int, c: int| 0 <= a < c < b.len() ==> (#[trigger] b[a]).0 < (#[trigger] b[c]).0,
    ensures
        b.len() <= n,
        forall|a: int| 0 <= a < b.len() ==> (#[trigger] b[a]).0 >= a,
    decreases b.len(),
{
    if b.len() > 0 {
        let d = b.drop_last();
        assert forall|a: int| 0 <= a < d.len() implies (#[trigger] d[a]).0 < n by {
            assert(d[a] == b[a]);
        }
        assert forall|a: int, c: int| 0 <= a < c < d.len() implies (#[trigger] d[a]).0 < (
        #[trigger] d[c]).0 by {
            assert(d[a] == b[a] && d[c] == b[c]);
        }
        lemma_ascending_len(d, n);
        assert forall|a: int| 0 <= a < b.len() implies (#[trigger] b[a]).0 >= a by {
            if a < d.len() {
                assert(d[a] == b[a]);
            } else if a > 0 {
                assert(d[a - 1] == b[a - 1]);
                assert(b[a - 1].0 < b[a].0);
            }
        }
        assert(b[b.len() - 1].0 >= b.len() - 1);
        assert(b[b.len() - 1].0 < n);
    }
}

proof fn lemma_without_bursts_prefix(after: Seq<Fruit>, b: Seq<(usize, u32)>, r: int)
    requires
        0 <= r <= b.len(),
        b.len() <= after.len(),
        forall|a: int| 0 <= a < b.len() ==> (#[trigger] b[a]).0 < after.len(),
        forall|a: int, c: int| 0 <= a < c < b.len() ==> (#[trigger] b[a]).0 < (#[trigger] b[c]).0,
        forall|a: int| 0 <= a < b.len() ==> (#[trigger] b[a]).0 >= a,
    ensures
        spec_without_bursts(after, b, r).len() == after.len() - (b.len() - r),
        forall|k: int|
            0 <= k < after.len() && (r == b.len() || k < b[r].0) ==> #[trigger] spec_without_bursts(
                after,
                b,
                r,
            )[k] == after[k],
    decreases b.len() - r,
{
    if r < b.len() {
        lemma_without_bursts_prefix(after, b, r + 1);
        let rest = spec_without_bursts(after, b, r + 1);
        assert(b[r].0 < rest.len()) by {
            if r + 1 < b.len() {
                assert(b[r].0 < b[r + 1].0);
                assert(b[r + 1].0 >= r + 1);
                assert(b[b.len() - 1].0 < after.len());
                if b.len() - 1 > r + 1 {
                    assert(b[r + 1].0 < b[b.len() - 1].0);
                }
                assert(b[b.len() - 1].0 >= b[r + 1].0);
                // every later burst is above this one, so at least b.len() - r - 1 indices
                // above b[r].0 are removed from a list of after.len()
                lemma_later_bursts_above(after.len() as int, b, r);
            }
        }
        assert forall|k: int|
            0 <= k < after.len() && k < b[r].0 implies #[trigger] spec_without_bursts(
            after,
            b,
            r,
        )[k] == after[k] by {
            if r + 1 < b.len() {
                assert(b[r].0 < b[r + 1].0);
            }
            assert(rest[k] == after[k]);
        }
    }
}

proof fn lemma_later_bursts_above(len: int, b: Seq<(usize, u32)>, r: int)
    requires
        0 <= r < b.len(),
        forall|a: int| 0 <= a < b.len() ==> (#[trigger] b[a]).0 < len,
        forall|a: int, c: int| 0 <= a < c < b.len() ==> (#[trigger] b[a]).0 < (#[trigger] b[c]).0,
    ensures
        b[r].0 + (b.len() - r) <= len,
    decreases b.len() - r,
{
    if r + 1 < b.len() {
        lemma_later_bursts_above(len, b, r + 1);
        assert(b[r].0 < b[r + 1].0);
    }
}

/// What landing `hits` on `before` came to in `after`: every hit is dealt in
/// place, then each fruit that burst leaves the field (the highest index
/// first, listed in that order in `gone`), pays `CASH_PER_FRUIT_CLEARED` if it
/// was at the bottom of the ladder, leaves its children at the end of the
/// fruit list, and credits one kill to the tower that landed the blow, if that
/// tower is still standing.
pub open spec fn hits_landed(before: Run, after: Run, hits: Seq<Hit>, gone: Seq<Fruit>) -> bool {
    let n = before.fruits.len();
    let struck = Seq::new(
        n as nat,
        |i: int| crate::combat::spec_after_hits(before.fruits@[i], i, hits),
    );
    let bursts = spec_bursts(before.fruits@, hits, n as nat);
    &&& after.fruits@ == spec_without_bursts(struck, bursts, 0) + spec_burst_children(
        struck,
        bursts,
        0,
    )
    &&& after.cash == before.cash + spec_cleared(struck, bursts, 0)
    &&& after.towers.len() == before.towers.len()
    &&& forall|j: int|
        0 <= j < after.towers.len() ==> #[trigger] after.towers@[j] == (Tower {
            kills: (before.towers@[j].kills + spec_credits(bursts, 0, before.towers@[j].id)) as u32,
            ..before.towers@[j]
        })
    &&& gone.len() == bursts.len()
    &&& forall|k: int|
        0 <= k < gone.len() ==> #[trigger] gone[k] == struck[bursts[bursts.len() - 1 - k].0 as int]
}

/// Credit a kill to the tower with id `owner`, if it is still standing.
fn credit_kill(towers: &mut Vec<Tower>, owner: u32)
    requires
        forall|i: int, j: int|
            0 <= i < j < old(towers).len() ==> (#[trigger] old(towers)@[i]).id < (
            #[trigger] old(towers)@[j]).id,
        forall|i: int|
            0 <= i < old(towers).len() && (#[trigger] old(towers)@[i]).id == owner ==> old(
                towers,
            )@[i].kills < u32::MAX,
    ensures
        final(towers).len() == old(towers).len(),
        forall|i: int|
            0 <= i < old(towers).len() ==> #[trigger] final(towers)@[i] == (Tower {
                kills: (old(towers)@[i].kills + (if old(towers)@[i].id == owner {
                    1int
                } else {
                    0
                })) as u32,
                ..old(towers)@[i]
            }),
{
    let mut t: usize = 0;
    while t < towers.len()
        invariant
            t <= towers.len(),
            towers.len() == old(towers).len(),
            forall|i: int|
                0 <= i < old(towers).len() && (#[trigger] old(towers)@[i]).id == owner ==> old(
                    towers,
                )@[i].kills < u32::MAX,
            forall|i: int|
                0 <= i < towers.len() ==> #[trigger] towers@[i] == (if i < t {
                    Tower {
                        kills: (old(towers)@[i].kills + (if old(towers)@[i].id == owner {
                            1int
                        } else {
                            0
                        })) as u32,
                        ..old(towers)@[i]
                    }
                } else {
                    old(towers)@[i]
                }),
        decreases towers.len() - t,
    {
        let mut tw = towers[t];
        if tw.id == owner {
            tw.kills = tw.kills + 1;
            towers.set(t, tw);
        }
        t = t + 1;
    }
}

/// The game's state.
pub struct Run {
    pub state: Screen,
    /// Which route the run is played on, and at which difficulty.
    pub track: usize,
    pub mode: usize,
    /// Which lane the next fruit goes down: lanes are dealt in turn.
    pub next_lane: usize,
    pub fruits: Vec<Fruit>,
    pub towers: Vec<Tower>,
    pub spikes: Vec<SpikePile>,
    /// Fruit still waiting to enter the track this wave, sent from the back.
    pub queue: Vec<FruitKind>,
    /// Microseconds until the next fruit goes out.
    pub spawn_timer_us: i64,
    pub wave: u32,
    pub wave_active: bool,
    pub lives: u32,
    pub cash: u32,
    /// Tower type armed for placement, if any.
    pub selected: Option<TowerKind>,
    /// Index into `towers` of the placed tower being inspected, if any.
    pub selected_tower: Option<usize>,
    /// Handed to each placed tower, so a hit can credit a kill back to it even
    /// after other towers are sold.
    pub next_tower_id: u32,
    /// Microseconds left on the armed quit button.
    pub quit_armed_us: i64,
    /// Whether waves send themselves, and how long until the next one does.
    pub auto_wave: bool,
    pub auto_timer_us: i64,
    pub paused: bool,
    pub fast: bool,
}

impl Run {
    /// How many lanes the current route has.
    pub open spec fn lanes(self) -> usize {
        spec_track(self.track as int).lanes
    }

    /// How many waves the current route runs.
    pub open spec fn total(self) -> u32 {
        spec_track(self.track as int).waves
    }

    /// The state is coherent: the route and mode exist, every fruit, pile and
    /// lane index names a lane of the route, no two piles on a lane stand
    /// closer than `SPIKE_SPACING`, the inspected tower exists, the wave is
    /// within the route, and every tower's level, stake and id are what buying
    /// and upgrading it made them, ids ascending along the list.
    pub open spec fn wf(self) -> bool {
        &&& self.track < TRACK_COUNT
        &&& self.mode < MODE_COUNT
        &&& self.next_lane < self.lanes()
        &&& forall|i: int| 0 <= i < self.fruits.len() ==> (#[trigger] self.fruits@[i]).lane < self.lanes()
        &&& forall|i: int| 0 <= i < self.spikes.len() ==> (#[trigger] self.spikes@[i]).lane < self.lanes()
        &&& piles_spaced(self.spikes@)
        &&& (self.selected_tower matches Some(i) ==> i < self.towers.len())
        &&& 1 <= self.wave <= self.total()
        &&& forall|i: int|
            0 <= i < self.towers.len() ==> {
                let t = #[trigger] self.towers@[i];
                &&& t.id < self.next_tower_id
                &&& 1 <= t.level <= MAX_LEVEL
                &&& t.invested == spec_spent(t.kind, t.level)
            }
        &&& forall|i: int, j: int|
            0 <= i < j < self.towers.len() ==> (#[trigger] self.towers@[i]).id < (
            #[trigger] self.towers@[j]).id
    }

    /// The title screen, with the default difficulty's opening hand and the
    /// first route behind it.
    pub fn new() -> (r: Run)
        ensures
            r.wf(),
            r.state == Screen::Menu,
            r.track == 0,
            r.mode == DEFAULT_MODE,
            r.wave == 1,
            r.lives == spec_mode(DEFAULT_MODE as int).start_lives,
            r.cash == spec_mode(DEFAULT_MODE as int).start_cash,
            r.fruits.len() == 0 && r.towers.len() == 0 && r.spikes.len() == 0 && r.queue.len() == 0,
            !r.wave_active && !r.auto_wave && !r.paused && !r.fast,
            r.auto_timer_us == AUTO_WAVE_DELAY_MS * 1000,
            r.selected is None && r.selected_tower is None,
            r.next_lane == 0 && r.next_tower_id == 0,
            r.spawn_timer_us == 0 && r.quit_armed_us == 0,
    {
        let m = mode(DEFAULT_MODE);
        Run {
            state: Screen::Menu,
            track: 0,
            mode: DEFAULT_MODE,
            next_lane: 0,
            fruits: Vec::new(),
            towers: Vec::new(),
            spikes: Vec::new(),
            queue: Vec::new(),
            spawn_timer_us: 0,
            wave: 1,
            wave_active: false,
            lives: m.start_lives,
            cash: m.start_cash,
            selected: None,
            selected_tower: None,
            next_tower_id: 0,
            quit_armed_us: 0,
            auto_wave: false,
            auto_timer_us: AUTO_WAVE_DELAY_MS as i64 * 1000,
            paused: false,
            fast: false,
        }
    }

    /// How many waves the current route runs.
    pub fn total_waves(&self) -> (n: u32)
        requires
            self.wf(),
        ensures
            n == self.total(),
    {
        track(self.track).waves
    }

    /// How many lanes the current route has.
    pub fn lane_count(&self) -> (n: usize)
        requires
            self.wf(),
        ensures
            n == self.lanes(),
            n >= 1,
    {
        track(self.track).lanes
    }

    /// Sweep everything a run put on the board. The auto-send setting is a
    /// preference and survives; its countdown starts again from the top.
    pub fn clear_board(&mut self)
        requires
            old(self).wf(),
        ensures
            *final(self) == (Run {
                fruits: final(self).fruits,
                towers: final(self).towers,
                spikes: final(self).spikes,
                queue: final(self).queue,
                wave_active: false,
                selected: None,
                selected_tower: None,
                quit_armed_us: 0,
                next_lane: 0,
                paused: false,
                auto_timer_us: (AUTO_WAVE_DELAY_MS * 1000) as i64,
                ..*old(self)
            }),
            final(self).wf(),
            final(self).fruits.len() == 0,
            final(self).towers.len() == 0,
            final(self).spikes.len() == 0,
            final(self).queue.len() == 0,
            !final(self).wave_active,
            final(self).selected is None,
            final(self).selected_tower is None,
            final(self).quit_armed_us == 0,
            final(self).next_lane == 0,
            !final(self).paused,
            final(self).auto_timer_us == AUTO_WAVE_DELAY_MS * 1000,
            final(self).state == old(self).state,
            final(self).track == old(self).track,
            final(self).mode == old(self).mode,
            final(self).wave == old(self).wave,
            final(self).lives == old(self).lives,
            final(self).cash == old(self).cash,
            final(self).auto_wave == old(self).auto_wave,
            final(self).fast == old(self).fast,
            final(self).next_tower_id == old(self).next_tower_id,
    {
        self.fruits.clear();
        self.towers.clear();
        self.spikes.clear();
        self.queue.clear();
        self.wave_active = false;
        self.selected = None;
        self.selected_tower = None;
        self.quit_armed_us = 0;
        self.next_lane = 0;
        self.paused = false;
        self.auto_timer_us = AUTO_WAVE_DELAY_MS as i64 * 1000;
    }

    /// Clear the board and start from wave 1 on route `track` (clamped to the
    /// last route), with the chosen mode's opening hand.
    pub fn start_run(&mut self, track: usize)
        requires
            old(self).wf(),
        ensures
            *final(self) == (Run {
                fruits: final(self).fruits,
                towers: final(self).towers,
                spikes: final(self).spikes,
                queue: final(self).queue,
                wave_active: false,
                selected: None,
                selected_tower: None,
                quit_armed_us: 0,
                next_lane: 0,
                paused: false,
                auto_timer_us: (AUTO_WAVE_DELAY_MS * 1000) as i64,
                state: Screen::Playing,
                track: final(self).track,
                spawn_timer_us: 0,
                wave: 1,
                lives: final(self).lives,
                cash: final(self).cash,
                next_tower_id: 0,
                ..*old(self)
            }),
            final(self).wf(),
            final(self).state == Screen::Playing,
            final(self).track == (if track < TRACK_COUNT { track } else { (TRACK_COUNT - 1) as usize }),
            final(self).mode == old(self).mode,
            final(self).wave == 1,
            final(self).lives == spec_mode(old(self).mode as int).start_lives,
            final(self).cash == spec_mode(old(self).mode as int).start_cash,
            final(self).next_tower_id == 0,
            final(self).spawn_timer_us == 0,
            final(self).fruits.len() == 0,
            final(self).towers.len() == 0,
            final(self).spikes.len() == 0,
            final(self).queue.len() == 0,
            !final(self).wave_active,
            !final(self).paused,
            final(self).auto_wave == old(self).auto_wave,
    {
        self.clear_board();
        self.track = if track < TRACK_COUNT { track } else { TRACK_COUNT - 1 };
        self.spawn_timer_us = 0;
        self.wave = 1;
        let m = mode(self.mode);
        self.lives = m.start_lives;
        self.cash = m.start_cash;
        self.next_tower_id = 0;
        self.state = Screen::Playing;
    }

    /// Walk away from the run in progress: the board is swept and the game goes
    /// back to the title screen.
    pub fn abandon_run(&mut self)
        requires
            old(self).wf(),
        ensures
            *final(self) == (Run {
                fruits: final(self).fruits,
                towers: final(self).towers,
                spikes: final(self).spikes,
                queue: final(self).queue,
                wave_active: false,
                selected: None,
                selected_tower: None,
                quit_armed_us: 0,
                next_lane: 0,
                paused: false,
                auto_timer_us: (AUTO_WAVE_DELAY_MS * 1000) as i64,
                state: Screen::Menu,
                ..*old(self)
            }),
            final(self).wf(),
            final(self).state == Screen::Menu,
            final(self).fruits.len() == 0,
            final(self).towers.len() == 0,
            final(self).spikes.len() == 0,
            final(self).queue.len() == 0,
            !final(self).wave_active,
    {
        self.clear_board();
        self.state = Screen::Menu;
    }

    /// A click or Space on the title, game over or victory screen leads on to
    /// route selection. Any other screen ignores it.
    pub fn leave_end_screen(&mut self)
        requires
            old(self).wf(),
        ensures
            *final(self) == (Run { state: final(self).state, ..*old(self) }),
            final(self).wf(),
            old(self).state == Screen::Menu || old(self).state == Screen::GameOver || old(self).state
                == Screen::Victory ==> final(self).state == Screen::TrackSelect,
            !(old(self).state == Screen::Menu || old(self).state == Screen::GameOver
                || old(self).state == Screen::Victory) ==> final(self).state == old(self).state,
    {
        match self.state {
            Screen::Menu | Screen::GameOver | Screen::Victory => {
                self.state = Screen::TrackSelect;
            },
            _ => {},
        }
    }

    /// Choose the difficulty on the route screen. It only changes the setting;
    /// choosing a route is what starts a run.
    pub fn choose_mode(&mut self, m: usize)
        requires
            old(self).wf(),
            m < MODE_COUNT,
        ensures
            *final(self) == (Run { mode: m, ..*old(self) }),
            final(self).wf(),
            final(self).mode == m,
            final(self).state == old(self).state,
    {
        self.mode = m;
    }

    /// Pick route card `card`: a route starts a run on that route, and the last
    /// card starts one on a route picked at random.
    pub fn pick_card(&mut self, card: usize)
        requires
            old(self).wf(),
            card <= TRACK_COUNT,
        ensures
            *final(self) == (Run {
                fruits: final(self).fruits,
                towers: final(self).towers,
                spikes: final(self).spikes,
                queue: final(self).queue,
                wave_active: false,
                selected: None,
                selected_tower: None,
                quit_armed_us: 0,
                next_lane: 0,
                paused: false,
                auto_timer_us: (AUTO_WAVE_DELAY_MS * 1000) as i64,
                state: Screen::Playing,
                track: final(self).track,
                spawn_timer_us: 0,
                wave: 1,
                lives: final(self).lives,
                cash: final(self).cash,
                next_tower_id: 0,
                ..*old(self)
            }),
            final(self).fruits.len() == 0,
            final(self).towers.len() == 0,
            final(self).spikes.len() == 0,
            final(self).queue.len() == 0,
            final(self).wf(),
            final(self).state == Screen::Playing,
            final(self).wave == 1,
            final(self).mode == old(self).mode,
            final(self).lives == spec_mode(old(self).mode as int).start_lives,
            final(self).cash == spec_mode(old(self).mode as int).start_cash,
            card < TRACK_COUNT ==> final(self).track == card,
            final(self).track < TRACK_COUNT,
    {
        let track = if card == random_card_index() { random_below(TRACK_COUNT) } else { card };
        self.start_run(track);
    }

    /// Arm a tower type, or disarm it if it was already armed. Arming takes
    /// over from any inspected tower.
    pub fn toggle_selection(&mut self, kind: TowerKind)
        requires
            old(self).wf(),
        ensures
            *final(self) == (Run { selected: final(self).selected, selected_tower: None, ..*old(self) }),
            final(self).wf(),
            final(self).selected == (if old(self).selected == Some(kind) {
                None
            } else {
                Some(kind)
            }),
            final(self).selected_tower is None,
            final(self).cash == old(self).cash,
            final(self).towers@ == old(self).towers@,
    {
        self.selected = if self.selected == Some(kind) { None } else { Some(kind) };
        self.selected_tower = None;
    }

    /// Right click: cancel the armed tower, close the inspected one, and stand
    /// the quit button down.
    pub fn cancel(&mut self)
        requires
            old(self).wf(),
        ensures
            *final(self) == (Run { selected: None, selected_tower: None, quit_armed_us: 0, ..*old(self) }),
            final(self).wf(),
            final(self).selected is None,
            final(self).selected_tower is None,
            final(self).quit_armed_us == 0,
            final(self).cash == old(self).cash,
            final(self).towers@ == old(self).towers@,
    {
        self.selected = None;
        self.selected_tower = None;
        self.quit_armed_us = 0;
    }

    /// A click on the quit button: the first arms it, a second while it is
    /// still armed abandons the run.
    pub fn click_quit(&mut self)
        requires
            old(self).wf(),
        ensures
            old(self).quit_armed_us <= 0 ==> *final(self) == (Run {
                quit_armed_us: (QUIT_ARM_MS * 1000) as i64,
                ..*old(self)
            }),
            old(self).quit_armed_us > 0 ==> final(self).fruits.len() == 0 && final(self).spikes.len()
                == 0 && final(self).queue.len() == 0 && !final(self).wave_active,
            final(self).wf(),
            old(self).quit_armed_us > 0 ==> final(self).state == Screen::Menu
                && final(self).towers.len() == 0,
            old(self).quit_armed_us <= 0 ==> final(self).quit_armed_us == QUIT_ARM_MS * 1000
                && final(self).state == old(self).state && final(self).towers@ == old(self).towers@
                && final(self).cash == old(self).cash,
    {
        if self.quit_armed_us > 0 {
            self.abandon_run();
        } else {
            self.quit_armed_us = QUIT_ARM_MS as i64 * 1000;
        }
    }

    /// The armed quit button forgets it was asked once its time runs out. A
    /// held game holds this clock too.
    pub fn tick_quit(&mut self, elapsed_us: u32)
        requires
            old(self).wf(),
        ensures
            *final(self) == (Run { quit_armed_us: final(self).quit_armed_us, ..*old(self) }),
            final(self).wf(),
            old(self).quit_armed_us > 0 && !old(self).paused ==> final(self).quit_armed_us == old(
                self,
            ).quit_armed_us - elapsed_us,
            old(self).quit_armed_us <= 0 || old(self).paused ==> final(self).quit_armed_us == old(
                self,
            ).quit_armed_us,
    {
        if !self.paused && self.quit_armed_us > 0 {
            self.quit_armed_us = self.quit_armed_us - elapsed_us as i64;
        }
    }

    /// Flip auto-send; its countdown starts again from the top either way.
    pub fn toggle_auto(&mut self)
        requires
            old(self).wf(),
        ensures
            *final(self) == (Run {
                auto_wave: !old(self).auto_wave,
                auto_timer_us: final(self).auto_timer_us,
                ..*old(self)
            }),
            final(self).wf(),
            final(self).auto_wave == !old(self).auto_wave,
            final(self).auto_timer_us == AUTO_WAVE_DELAY_MS * 1000,
    {
        self.auto_wave = !self.auto_wave;
        self.auto_timer_us = AUTO_WAVE_DELAY_MS as i64 * 1000;
    }

    /// Hold or resume the wave.
    pub fn toggle_pause(&mut self)
        requires
            old(self).wf(),
        ensures
            *final(self) == (Run { paused: !old(self).paused, ..*old(self) }),
            final(self).wf(),
            final(self).paused == !old(self).paused,
    {
        self.paused = !self.paused;
    }

    /// Switch fast forward.
    pub fn toggle_fast(&mut self)
        requires
            old(self).wf(),
        ensures
            *final(self) == (Run { fast: !old(self).fast, ..*old(self) }),
            final(self).wf(),
            final(self).fast == !old(self).fast,
    {
        self.fast = !self.fast;
    }

    /// A click on the field with nothing armed: inspect the placed tower the
    /// click landed on, or, on empty ground (`None`), close the inspected one.
    pub fn inspect(&mut self, tower: Option<usize>)
        requires
            old(self).wf(),
            tower matches Some(i) ==> i < old(self).towers.len(),
        ensures
            *final(self) == (Run { selected_tower: tower, ..*old(self) }),
            final(self).wf(),
            final(self).selected_tower == tower,
            final(self).towers@ == old(self).towers@,
            final(self).cash == old(self).cash,
    {
        self.selected_tower = tower;
    }

    /// Whether the armed tower type can be paid for.
    pub fn can_afford(&self, kind: TowerKind) -> (ok: bool)
        ensures
            ok == (self.cash >= kind.spec_cost()),
    {
        self.cash >= kind.cost()
    }

    /// Whether a tower may stand at (`x`, `y`) as far as the field and the
    /// other towers go: its whole footprint inside the field, and at least two
    /// footprints' radius from every tower already placed.
    pub open spec fn spec_spot_open(self, x: i32, y: i32) -> bool {
        &&& TOWER_RADIUS <= x <= PLAYFIELD_W - TOWER_RADIUS
        &&& TOWER_RADIUS <= y <= PLAYFIELD_H - TOWER_RADIUS
        &&& forall|i: int|
            0 <= i < self.towers.len() ==> {
                let t = #[trigger] self.towers@[i];
                (t.x - x) * (t.x - x) + (t.y - y) * (t.y - y) >= (2 * TOWER_RADIUS) * (2
                    * TOWER_RADIUS)
            }
    }

    /// Whether a tower may stand at (`x`, `y`): see `spec_spot_open`. Whether
    /// it would crowd a lane is for the geometry to say.
    pub fn spot_open(&self, x: i32, y: i32) -> (open: bool)
        ensures
            open == self.spec_spot_open(x, y),
    {
        let r = TOWER_RADIUS as i32;
        if x < r || x > PLAYFIELD_W as i32 - r || y < r || y > PLAYFIELD_H as i32 - r {
            return false;
        }
        let reach: i128 = 2 * TOWER_RADIUS as i128;
        let reach_sq: i128 = reach * reach;
        let mut i: usize = 0;
        while i < self.towers.len()
            invariant
                i <= self.towers.len(),
                reach_sq == (2 * TOWER_RADIUS) * (2 * TOWER_RADIUS),
                forall|j: int|
                    0 <= j < i ==> {
                        let t = #[trigger] self.towers@[j];
                        (t.x - x) * (t.x - x) + (t.y - y) * (t.y - y) >= (2 * TOWER_RADIUS) * (2
                            * TOWER_RADIUS)
                    },
            decreases self.towers.len() - i,
        {
            let t = self.towers[i];
            let dx = t.x as i128 - x as i128;
            let dy = t.y as i128 - y as i128;
            assert(dx * dx <= 0x1_0000_0000 * 0x1_0000_0000) by (nonlinear_arith)
                requires
                    -0x1_0000_0000 <= dx <= 0x1_0000_0000,
            ;
            assert(dy * dy <= 0x1_0000_0000 * 0x1_0000_0000) by (nonlinear_arith)
                requires
                    -0x1_0000_0000 <= dy <= 0x1_0000_0000,
            ;
            assert(dx * dx >= 0 && dy * dy >= 0) by (nonlinear_arith);
            if dx * dx + dy * dy < reach_sq {
                return false;
            }
            i = i + 1;
        }
        true
    }

    /// Place the armed tower at (`x`, `y`) if the spot is legal, and disarm.
    ///
    /// `clear_of_lanes` says whether the geometry keeps a tower there clear of
    /// every lane. The rules add that something must be armed, that the spot
    /// must be open (`spot_open`) and that the tower must be affordable. A
    /// placed tower costs exactly its price, gets the next id, and disarms the
    /// shop; a refused one changes nothing.
    pub fn try_place(&mut self, x: i32, y: i32, clear_of_lanes: bool) -> (placed: bool)
        requires
            old(self).wf(),
            old(self).next_tower_id < u32::MAX,
        ensures
            placed ==> *final(self) == (Run {
                cash: final(self).cash,
                towers: final(self).towers,
                next_tower_id: final(self).next_tower_id,
                selected: None,
                ..*old(self)
            }),
            !placed ==> *final(self) == *old(self),
            final(self).wf(),
            placed == (old(self).selected is Some && clear_of_lanes && old(self).spec_spot_open(x, y)
                && old(self).cash >= old(self).selected.unwrap().spec_cost()),
            placed ==> final(self).cash == old(self).cash - old(self).selected.unwrap().spec_cost()
                && final(self).towers@ == old(self).towers@.push(
                Tower {
                    kind: old(self).selected.unwrap(),
                    x,
                    y,
                    cooldown_us: 0,
                    angle_mrad: 0,
                    level: 1,
                    invested: old(self).selected.unwrap().spec_cost(),
                    id: old(self).next_tower_id,
                    shots_fired: 0,
                    kills: 0,
                    chills: 0,
                },
            ) && final(self).next_tower_id == old(self).next_tower_id + 1
                && final(self).selected is None,
            !placed ==> final(self).cash == old(self).cash && final(self).towers@ == old(
                self,
            ).towers@ && final(self).selected == old(self).selected,
            final(self).state == old(self).state,
            final(self).lives == old(self).lives,
            final(self).wave == old(self).wave,
    {
        let kind = match self.selected {
            Some(k) => k,
            None => {
                return false;
            },
        };
        if !clear_of_lanes || !self.spot_open(x, y) || !self.can_afford(kind) {
            return false;
        }
        self.cash = self.cash - kind.cost();
        self.towers.push(Tower::new(kind, x, y, self.next_tower_id));
        self.next_tower_id = self.next_tower_id + 1;
        self.selected = None;
        true
    }

    /// Buy the next level for the inspected tower. Nothing changes unless a
    /// tower is inspected, it is not maxed, and the upgrade is affordable; then
    /// the price comes off the cash and goes into the tower's stake.
    pub fn upgrade_selected(&mut self) -> (outcome: Purchase)
        requires
            old(self).wf(),
        ensures
            ({
                let sel = old(self).selected_tower;
                let t = old(self).towers@[sel.unwrap() as int];
                let cost = t.kind.spec_upgrade_cost(t.level);
                &&& outcome == Purchase::Done <==> (sel is Some && cost is Some && old(self).cash
                    >= cost.unwrap())
                &&& outcome == Purchase::Unaffordable <==> (sel is Some && cost is Some && old(
                    self,
                ).cash < cost.unwrap())
            }),
            outcome == Purchase::Done ==> *final(self) == (Run {
                cash: final(self).cash,
                towers: final(self).towers,
                ..*old(self)
            }),
            outcome != Purchase::Done ==> *final(self) == *old(self),
            final(self).wf(),
            final(self).towers.len() == old(self).towers.len(),
            final(self).selected_tower == old(self).selected_tower,
            outcome == Purchase::Done ==> ({
                let i = old(self).selected_tower.unwrap() as int;
                let t = old(self).towers@[i];
                let cost = t.kind.spec_upgrade_cost(t.level).unwrap();
                &&& old(self).selected_tower is Some
                &&& t.kind.spec_upgrade_cost(t.level) is Some
                &&& old(self).cash >= cost
                &&& final(self).cash == old(self).cash - cost
                &&& final(self).towers@ == old(self).towers@.update(
                    i,
                    Tower { level: (t.level + 1) as u8, invested: (t.invested + cost) as u32, ..t },
                )
            }),
            outcome == Purchase::Unavailable <==> (old(self).selected_tower is None || old(
                self,
            ).towers@[old(self).selected_tower.unwrap() as int].kind.spec_upgrade_cost(
                old(self).towers@[old(self).selected_tower.unwrap() as int].level,
            ) is None),
            outcome != Purchase::Done ==> final(self).cash == old(self).cash && final(self).towers@
                == old(self).towers@,
            final(self).state == old(self).state,
            final(self).lives == old(self).lives,
    {
        let i = match self.selected_tower {
            Some(i) => i,
            None => {
                return Purchase::Unavailable;
            },
        };
        let mut t = self.towers[i];
        let cost = match t.upgrade_cost() {
            Some(c) => c,
            None => {
                return Purchase::Unavailable;
            },
        };
        if self.cash < cost {
            return Purchase::Unaffordable;
        }
        self.cash = self.cash - cost;
        t.upgrade(cost);
        self.towers.set(i, t);
        proof {
            let ghost up = self.towers@;
            assert forall|j: int| 0 <= j < up.len() implies {
                let u = #[trigger] up[j];
                &&& u.id < self.next_tower_id
                &&& 1 <= u.level <= MAX_LEVEL
                &&& u.invested == spec_spent(u.kind, u.level)
            } by {
                if j == i {
                    assert(up[j] == t);
                } else {
                    assert(up[j] == old(self).towers@[j]);
                }
            }
            assert forall|a: int, b: int| 0 <= a < b < up.len() implies (#[trigger] up[a]).id < (
            #[trigger] up[b]).id by {
                assert(up[a].id == old(self).towers@[a].id);
                assert(up[b].id == old(self).towers@[b].id);
            }
        }
        Purchase::Done
    }

    /// Sell the inspected tower for 60% of everything invested in it. Its
    /// spike piles go with it, and the inspection closes, since the indices
    /// after it have shifted.
    pub fn sell_selected(&mut self)
        requires
            old(self).wf(),
            old(self).selected_tower matches Some(i) ==> old(self).cash + old(self).towers@[i as int].spec_sell_value() <= u32::MAX,
        ensures
            *final(self) == (Run {
                cash: final(self).cash,
                towers: final(self).towers,
                spikes: final(self).spikes,
                selected_tower: None,
                ..*old(self)
            }),
            final(self).wf(),
            final(self).selected_tower is None,
            old(self).selected_tower is None ==> final(self).cash == old(self).cash
                && final(self).towers@ == old(self).towers@ && final(self).spikes@ == old(self).spikes@,
            old(self).selected_tower matches Some(i) ==> ({
                let t = old(self).towers@[i as int];
                &&& final(self).cash == old(self).cash + t.spec_sell_value()
                &&& final(self).towers@ == old(self).towers@.remove(i as int)
                &&& final(self).spikes@ == old(self).spikes@.filter(|p: SpikePile| p.owner != t.id)
            }),
            final(self).state == old(self).state,
            final(self).lives == old(self).lives,
            final(self).wave == old(self).wave,
    {
        let i = match self.selected_tower {
            Some(i) => i,
            None => {
                return;
            },
        };
        let t = self.towers[i];
        let id = t.id;
        let ghost before = self.spikes@;
        let mut kept: Vec<SpikePile> = Vec::new();
        let mut k: usize = 0;
        while k < self.spikes.len()
            invariant
                k <= self.spikes.len(),
                self.spikes@ == before,
                kept@ == before.take(k as int).filter(|p: SpikePile| p.owner != id),
            decreases self.spikes.len() - k,
        {
            let p = self.spikes[k];
            proof {
                reveal_with_fuel(Seq::<_>::filter, 1);
                assert(before.take(k + 1).drop_last() =~= before.take(k as int));
            }
            if p.owner != id {
                kept.push(p);
            }
            k = k + 1;
        }
        assert(before.take(before.len() as int) =~= before);
        self.spikes = kept;
        self.cash = self.cash + t.sell_value();
        self.towers.remove(i);
        self.selected_tower = None;
        proof {
            let ghost up = self.towers@;
            let ghost old_t = old(self).towers@;
            assert forall|j: int| 0 <= j < up.len() implies {
                let u = #[trigger] up[j];
                &&& u.id < self.next_tower_id
                &&& 1 <= u.level <= MAX_LEVEL
                &&& u.invested == spec_spent(u.kind, u.level)
            } by {
                if j < i {
                    assert(up[j] == old_t[j]);
                } else {
                    assert(up[j] == old_t[j + 1]);
                }
            }
            assert forall|a: int, b: int| 0 <= a < b < up.len() implies (#[trigger] up[a]).id < (
            #[trigger] up[b]).id by {
                let a2 = if a < i { a } else { a + 1 };
                let b2 = if b < i { b } else { b + 1 };
                assert(up[a] == old_t[a2]);
                assert(up[b] == old_t[b2]);
            }
            lemma_spaced_filter(before, |p: SpikePile| p.owner != id);
            assert forall|j: int| 0 <= j < self.spikes.len() implies (
            #[trigger] self.spikes@[j]).lane < self.lanes() by {
                let f = before.filter(|p: SpikePile| p.owner != id);
                assert(f.contains(self.spikes@[j]));
                before.lemma_filter_contains_rev(|p: SpikePile| p.owner != id, self.spikes@[j]);
            }
        }
    }

    /// Send the current wave: build its queue and start the spawn clock.
    pub fn start_wave(&mut self)
        requires
            old(self).wf(),
        ensures
            *final(self) == (Run {
                queue: final(self).queue,
                spawn_timer_us: 0,
                wave_active: true,
                ..*old(self)
            }),
            final(self).wf(),
            final(self).wave_active,
            final(self).spawn_timer_us == 0,
            is_wave_queue(final(self).queue@, old(self).wave, old(self).total()),
            final(self).wave == old(self).wave,
            final(self).cash == old(self).cash,
            final(self).lives == old(self).lives,
            final(self).state == old(self).state,
            final(self).fruits@ == old(self).fruits@,
            final(self).towers@ == old(self).towers@,
            final(self).auto_timer_us == old(self).auto_timer_us,
            final(self).auto_wave == old(self).auto_wave,
    {
        self.queue = build_wave(self.wave, self.total_waves());
        self.spawn_timer_us = 0;
        self.wave_active = true;
    }

    /// Space: send the next wave now, unless one is already walking.
    pub fn send_wave(&mut self)
        requires
            old(self).wf(),
        ensures
            old(self).wave_active ==> *final(self) == *old(self),
            !old(self).wave_active ==> *final(self) == (Run {
                queue: final(self).queue,
                spawn_timer_us: 0,
                wave_active: true,
                ..*old(self)
            }) && is_wave_queue(final(self).queue@, old(self).wave, old(self).total()),
            final(self).wf(),
            final(self).wave_active,
            old(self).wave_active ==> final(self).queue@ == old(self).queue@
                && final(self).spawn_timer_us == old(self).spawn_timer_us,
            final(self).wave == old(self).wave,
            final(self).cash == old(self).cash,
    {
        if !self.wave_active {
            self.start_wave();
        }
    }

    /// Run the spawn clock for `elapsed_us` microseconds and, when it runs out,
    /// release the next queued fruit onto the start of the next lane in turn,
    /// carrying the wave's speed ramp. Returns whether a fruit went out.
    ///
    /// Each fruit but a boss is rolled for a shield on its own, with chance
    /// `shield_share` in a thousand, so a share is a tendency rather than a
    /// quota; a boss, already the most armoured fruit, never carries one. The
    /// share for the current wave is the caller's to give: 0 sends no shields,
    /// and 1000 or more shields every fruit but a boss.
    pub fn spawn_from_queue(&mut self, elapsed_us: u32, shield_share: u32) -> (spawned: bool)
        requires
            old(self).wf(),
        ensures
            *final(self) == (Run {
                queue: final(self).queue,
                fruits: final(self).fruits,
                next_lane: final(self).next_lane,
                spawn_timer_us: final(self).spawn_timer_us,
                ..*old(self)
            }),
            !spawned && old(self).queue.len() > 0 ==> final(self).spawn_timer_us == old(
                self,
            ).spawn_timer_us - elapsed_us,
            old(self).queue.len() == 0 ==> *final(self) == *old(self),
            final(self).wf(),
            spawned ==> old(self).queue.len() > 0 && final(self).queue@ == old(self).queue@.drop_last()
                && final(self).fruits@ == old(self).fruits@.push(
                Fruit {
                    kind: old(self).queue@.last(),
                    lane: old(self).next_lane,
                    dist: 0,
                    hp: old(self).queue@.last().spec_armour(),
                    shielded: final(self).fruits@.last().shielded,
                    ramp: crate::wave::spec_speed_multiplier(
                        old(self).wave,
                        spec_mode(old(self).mode as int),
                    ) as u32,
                    chill: 100,
                    chill_left_us: 0,
                },
            ) && final(self).next_lane == (old(self).next_lane + 1) % (old(self).lanes() as int)
                && final(self).spawn_timer_us == crate::wave::spec_spawn_interval(old(self).wave)
                * 1000,
            !spawned ==> final(self).queue@ == old(self).queue@ && final(self).fruits@ == old(
                self,
            ).fruits@ && final(self).next_lane == old(self).next_lane,
            old(self).queue.len() > 0 && old(self).spawn_timer_us - elapsed_us <= 0 ==> spawned,
            spawned && final(self).fruits@.last().shielded ==> old(self).queue@.last()
                != FruitKind::Durian && shield_share > 0,
            spawned && old(self).queue@.last() != FruitKind::Durian && shield_share >= 1000
                ==> final(self).fruits@.last().shielded,
            final(self).cash == old(self).cash,
            final(self).lives == old(self).lives,
            final(self).wave == old(self).wave,
            final(self).towers@ == old(self).towers@,
            final(self).spikes@ == old(self).spikes@,
            final(self).state == old(self).state,
    {
        if self.queue.len() == 0 {
            return false;
        }
        let e = elapsed_us as i64;
        self.spawn_timer_us = if self.spawn_timer_us < i64::MIN + e {
            i64::MIN
        } else {
            self.spawn_timer_us - e
        };
        if self.spawn_timer_us > 0 {
            return false;
        }
        let kind = match self.queue.pop() {
            Some(k) => k,
            None => {
                return false;
            },
        };
        let lanes = self.lane_count();
        let lane = self.next_lane;
        self.next_lane = (self.next_lane + 1) % lanes;
        let m = mode(self.mode);
        let ramp = speed_multiplier(self.wave, &m);
        let fruit = Fruit::new(kind, lane, 0, ramp);
        let shielded = kind != FruitKind::Durian && random_below(1000) < shield_share as usize;
        self.fruits.push(if shielded { fruit.with_shield() } else { fruit });
        self.spawn_timer_us = spawn_interval(self.wave) as i64 * 1000;
        true
    }

    /// Walk every fruit along its lane for `elapsed_us` microseconds.
    pub fn advance_fruits(&mut self, elapsed_us: u32)
        requires
            old(self).wf(),
        ensures
            final(self).wf(),
            final(self).fruits.len() == old(self).fruits.len(),
            forall|i: int|
                0 <= i < old(self).fruits.len() ==> #[trigger] final(self).fruits@[i]
                    == spec_advanced(old(self).fruits@[i], elapsed_us),
            *final(self) == (Run { fruits: final(self).fruits, ..*old(self) }),
    {
        let mut i: usize = 0;
        while i < self.fruits.len()
            invariant
                i <= self.fruits.len(),
                self.fruits.len() == old(self).fruits.len(),
                *self == (Run { fruits: self.fruits, ..*old(self) }),
                forall|j: int|
                    0 <= j < self.fruits.len() ==> #[trigger] self.fruits@[j] == if j < i {
                        spec_advanced(old(self).fruits@[j], elapsed_us)
                    } else {
                        old(self).fruits@[j]
                    },
            decreases self.fruits.len() - i,
        {
            let mut f = self.fruits[i];
            f.advance(elapsed_us);
            self.fruits.set(i, f);
            i = i + 1;
        }
        proof {
            assert forall|j: int| 0 <= j < self.fruits.len() implies (
            #[trigger] self.fruits@[j]).lane < self.lanes() by {
                assert(self.fruits@[j].lane == old(self).fruits@[j].lane);
            }
        }
    }

    pub fn handle_leaks(&mut self, lane_lengths: &Vec<u32>) -> (leaked: usize)
        requires
            old(self).wf(),
            lane_lengths.len() == old(self).lanes(),
        ensures
            *final(self) == (Run { fruits: final(self).fruits, lives: final(self).lives, ..*old(self) }),
            final(self).wf(),
            final(self).fruits@ == old(self).fruits@.filter(
                |f: Fruit| f.dist < lane_lengths@[f.lane as int],
            ),
            final(self).lives == (if old(self).lives >= spec_leak_cost(
                old(self).fruits@,
                lane_lengths@,
            ) {
                old(self).lives - spec_leak_cost(old(self).fruits@, lane_lengths@)
            } else {
                0
            }),
            leaked == old(self).fruits.len() - final(self).fruits.len(),
            final(self).cash == old(self).cash,
            final(self).wave == old(self).wave,
            final(self).towers@ == old(self).towers@,
            final(self).state == old(self).state,
    {
        let ghost before = self.fruits@;
        let ghost lens = lane_lengths@;
        let ghost keep = |f: Fruit| f.dist < lens[f.lane as int];
        let mut kept: Vec<Fruit> = Vec::new();
        let mut cost: u128 = 0;
        let mut k: usize = 0;
        while k < self.fruits.len()
            invariant
                k <= self.fruits.len(),
                self.fruits@ == before,
                lane_lengths.len() == self.lanes(),
                lane_lengths@ == lens,
                keep == (|f: Fruit| f.dist < lens[f.lane as int]),
                self.wf(),
                kept@ == before.take(k as int).filter(keep),
                cost == spec_leak_cost(before.take(k as int), lens),
                cost <= 6 * k,
            decreases self.fruits.len() - k,
        {
            let f = self.fruits[k];
            proof {
                reveal_with_fuel(Seq::<_>::filter, 1);
                assert(before.take(k + 1).drop_last() =~= before.take(k as int));
                assert(f.lane < self.lanes());
                assert(before.take(k + 1).last() == f);
                assert(keep(f) == (f.dist < lens[f.lane as int]));
            }
            if f.dist >= lane_lengths[f.lane] {
                cost = cost + f.kind.leak_cost() as u128;
            } else {
                kept.push(f);
            }
            k = k + 1;
        }
        assert(before.take(before.len() as int) =~= before);
        let leaked = self.fruits.len() - kept.len();
        self.fruits = kept;
        self.lives = if (self.lives as u128) >= cost { (self.lives as u128 - cost) as u32 } else { 0 };
        proof {
            assert forall|j: int| 0 <= j < self.fruits.len() implies (
            #[trigger] self.fruits@[j]).lane < self.lanes() by {
                assert(before.filter(keep).contains(self.fruits@[j]));
                before.lemma_filter_contains_rev(keep, self.fruits@[j]);
            }
        }
        leaked
    }

    /// Settle a cleared wave: once a walking wave's queue is drained and the
    /// field is clear, pay the clear bonus, sweep the spikes, and either move
    /// on to the next wave or, after the route's last, win the run. Returns
    /// whether the wave was cleared.
    pub fn check_wave_complete(&mut self) -> (cleared: bool)
        requires
            old(self).wf(),
            old(self).cash + 15 + 2 * old(self).wave <= u32::MAX,
        ensures
            *final(self) == (Run {
                cash: final(self).cash,
                wave_active: final(self).wave_active,
                spikes: final(self).spikes,
                wave: final(self).wave,
                state: final(self).state,
                ..*old(self)
            }),
            final(self).wf(),
            cleared == (old(self).wave_active && old(self).queue.len() == 0 && old(
                self,
            ).fruits.len() == 0),
            cleared ==> final(self).cash == old(self).cash + 15 + 2 * old(self).wave
                && !final(self).wave_active && final(self).spikes.len() == 0,
            cleared && old(self).wave >= old(self).total() ==> final(self).state == Screen::Victory
                && final(self).wave == old(self).wave,
            cleared && old(self).wave < old(self).total() ==> final(self).state == old(self).state
                && final(self).wave == old(self).wave + 1,
            !cleared ==> final(self).cash == old(self).cash && final(self).wave == old(self).wave
                && final(self).wave_active == old(self).wave_active && final(self).state == old(
                self,
            ).state && final(self).spikes@ == old(self).spikes@,
            final(self).lives == old(self).lives,
            final(self).towers@ == old(self).towers@,
            final(self).fruits@ == old(self).fruits@,
            final(self).queue@ == old(self).queue@,
    {
        if !(self.wave_active && self.queue.len() == 0 && self.fruits.len() == 0) {
            return false;
        }
        self.cash = self.cash + clear_bonus(self.wave);
        self.wave_active = false;
        self.spikes.clear();
        if self.wave >= self.total_waves() {
            self.state = Screen::Victory;
            return true;
        }
        self.wave = self.wave + 1;
        true
    }

    /// Send the next wave on its own once the gap has run down. The countdown
    /// is held at full whenever auto-send is off or a wave is walking.
    pub fn tick_auto_wave(&mut self, elapsed_us: u32)
        requires
            old(self).wf(),
        ensures
            !old(self).auto_wave || old(self).wave_active ==> *final(self) == (Run {
                auto_timer_us: (AUTO_WAVE_DELAY_MS * 1000) as i64,
                ..*old(self)
            }),
            old(self).auto_wave && !old(self).wave_active && final(self).auto_timer_us > 0
                ==> *final(self) == (Run { auto_timer_us: final(self).auto_timer_us, ..*old(self) }),
            old(self).auto_wave && !old(self).wave_active && final(self).auto_timer_us <= 0
                ==> *final(self) == (Run {
                auto_timer_us: final(self).auto_timer_us,
                queue: final(self).queue,
                spawn_timer_us: 0,
                wave_active: true,
                ..*old(self)
            }) && is_wave_queue(final(self).queue@, old(self).wave, old(self).total()),
            final(self).wf(),
            !old(self).auto_wave || old(self).wave_active ==> final(self).auto_timer_us
                == AUTO_WAVE_DELAY_MS * 1000 && final(self).wave_active == old(self).wave_active
                && final(self).queue@ == old(self).queue@,
            old(self).auto_wave && !old(self).wave_active ==> final(self).auto_timer_us == (if old(
                self,
            ).auto_timer_us - elapsed_us < i64::MIN {
                i64::MIN as int
            } else {
                old(self).auto_timer_us - elapsed_us
            }) && (final(self).wave_active <==> final(self).auto_timer_us <= 0),
            final(self).wave == old(self).wave,
            final(self).cash == old(self).cash,
            final(self).lives == old(self).lives,
            final(self).state == old(self).state,
            final(self).fruits@ == old(self).fruits@,
            final(self).towers@ == old(self).towers@,
    {
        if !self.auto_wave || self.wave_active {
            self.auto_timer_us = AUTO_WAVE_DELAY_MS as i64 * 1000;
            return;
        }
        let e = elapsed_us as i64;
        self.auto_timer_us = if self.auto_timer_us < i64::MIN + e {
            i64::MIN
        } else {
            self.auto_timer_us - e
        };
        if self.auto_timer_us <= 0 {
            self.start_wave();
        }
    }

    /// The end of a world step. Death is settled before wave completion,
    /// because one leak can both drain the last life and empty the field: a
    /// run lost on its last fruit banks no clear bonus and reaches no further
    /// wave. After that the cleared wave is settled, and only a run still in
    /// play ticks the auto-send clock, so clearing a route's last wave never
    /// sends one past the end of it.
    pub fn settle(&mut self, elapsed_us: u32)
        requires
            old(self).wf(),
            old(self).cash + 15 + 2 * old(self).wave <= u32::MAX,
        ensures
            old(self).lives == 0 ==> *final(self) == (Run { state: Screen::GameOver, ..*old(self) }),
            old(self).lives > 0 ==> ({
                let cleared = old(self).wave_active && old(self).queue.len() == 0
                    && old(self).fruits.len() == 0;
                &&& final(self).cash == old(self).cash + (if cleared {
                    15 + 2 * old(self).wave
                } else {
                    0int
                })
                &&& final(self).wave == (if cleared && old(self).wave < old(self).total() {
                    old(self).wave + 1
                } else {
                    old(self).wave as int
                })
                &&& final(self).state == (if cleared && old(self).wave >= old(self).total() {
                    Screen::Victory
                } else {
                    old(self).state
                })
                &&& final(self).fruits@ == old(self).fruits@
                &&& final(self).spikes@ == (if cleared {
                    Seq::empty()
                } else {
                    old(self).spikes@
                })
            }),
            *final(self) == (Run {
                cash: final(self).cash,
                wave_active: final(self).wave_active,
                spikes: final(self).spikes,
                wave: final(self).wave,
                state: final(self).state,
                queue: final(self).queue,
                auto_timer_us: final(self).auto_timer_us,
                spawn_timer_us: final(self).spawn_timer_us,
                ..*old(self)
            }),
            old(self).lives > 0 ==> ({
                let cleared = old(self).wave_active && old(self).queue.len() == 0
                    && old(self).fruits.len() == 0;
                let active = old(self).wave_active && !cleared;
                let playing = old(self).state == Screen::Playing && !(cleared && old(self).wave
                    >= old(self).total());
                let run_down = if old(self).auto_timer_us - elapsed_us < i64::MIN {
                    i64::MIN as int
                } else {
                    old(self).auto_timer_us - elapsed_us
                };
                &&& playing && (!old(self).auto_wave || active) ==> final(self).auto_timer_us
                    == AUTO_WAVE_DELAY_MS * 1000 && final(self).wave_active == active
                    && final(self).queue@ == old(self).queue@ && final(self).spawn_timer_us
                    == old(self).spawn_timer_us
                &&& playing && old(self).auto_wave && !active ==> final(self).auto_timer_us
                    == run_down && (final(self).wave_active <==> run_down <= 0)
                &&& playing && old(self).auto_wave && !active && run_down <= 0 ==> is_wave_queue(
                    final(self).queue@,
                    final(self).wave,
                    old(self).total(),
                ) && final(self).spawn_timer_us == 0
                &&& playing && old(self).auto_wave && !active && run_down > 0
                    ==> final(self).queue@ == old(self).queue@
                    && final(self).spawn_timer_us == old(self).spawn_timer_us
                &&& !playing ==> final(self).auto_timer_us == old(self).auto_timer_us
                    && final(self).wave_active == active && final(self).queue@ == old(self).queue@
                    && final(self).spawn_timer_us == old(self).spawn_timer_us
            }),
            final(self).wf(),
            old(self).lives == 0 ==> final(self).state == Screen::GameOver && final(self).wave
                == old(self).wave && final(self).cash == old(self).cash,
            old(self).lives > 0 && old(self).wave_active && old(self).queue.len() == 0 && old(
                self,
            ).fruits.len() == 0 && old(self).wave >= old(self).total() ==> final(self).state
                == Screen::Victory && !final(self).wave_active,
            final(self).lives == old(self).lives,
            final(self).towers@ == old(self).towers@,
    {
        if self.lives == 0 {
            self.state = Screen::GameOver;
            return;
        }
        self.check_wave_complete();
        if self.state == Screen::Playing {
            self.tick_auto_wave(elapsed_us);
        }
    }

    pub open spec fn spec_headroom(self, n: int) -> bool {
        &&& self.cash + n <= u32::MAX
        &&& forall|i: int|
            0 <= i < self.towers.len() ==> {
                let t = #[trigger] self.towers@[i];
                &&& t.kills + n <= u32::MAX
                &&& t.shots_fired + n <= u32::MAX
                &&& t.chills + n <= u32::MAX
            }
    }

    /// Whether cash and every tower's tallies can take `n` more without
    /// running out of range.
    pub fn headroom(&self, n: u32) -> (ok: bool)
        ensures
            ok == self.spec_headroom(n as int),
    {
        if self.cash as u64 + n as u64 > u32::MAX as u64 {
            return false;
        }
        let mut i: usize = 0;
        while i < self.towers.len()
            invariant
                i <= self.towers.len(),
                self.cash + n <= u32::MAX,
                forall|j: int|
                    0 <= j < i ==> {
                        let t = #[trigger] self.towers@[j];
                        &&& t.kills + n <= u32::MAX
                        &&& t.shots_fired + n <= u32::MAX
                        &&& t.chills + n <= u32::MAX
                    },
            decreases self.towers.len() - i,
        {
            let t = self.towers[i];
            if t.kills as u64 + n as u64 > u32::MAX as u64 || t.shots_fired as u64 + n as u64
                > u32::MAX as u64 || t.chills as u64 + n as u64 > u32::MAX as u64 {
                return false;
            }
            i = i + 1;
        }
        true
    }

    /// Land a batch of hits, one point of damage each, and burst whatever runs
    /// out of armour. Each burst fruit leaves the field (the highest index
    /// first), pays `CASH_PER_FRUIT_CLEARED` if it was at the bottom of the
    /// ladder, leaves its children where it stood, and credits one kill to the
    /// tower that landed the blow, if that tower is still standing. Returns the
    /// burst fruit, in the order they left the field.
    pub fn apply_hits(&mut self, hits: Vec<Hit>) -> (gone: Vec<Fruit>)
        requires
            old(self).wf(),
            old(self).spec_headroom(old(self).fruits.len() as int),
        ensures
            final(self).wf(),
            hits_landed(*old(self), *final(self), hits@, gone@),
            final(self).lives == old(self).lives,
            final(self).wave == old(self).wave,
            final(self).state == old(self).state,
            final(self).spikes@ == old(self).spikes@,
            final(self).queue@ == old(self).queue@,
    {
        let ghost start = self.fruits@;
        let ghost n = start.len();
        let ghost lanes = self.lanes();
        let burst = land_hits(&mut self.fruits, hits);
        let ghost after = self.fruits@;
        proof {
            crate::combat::lemma_bursts_ascending(start, hits@, n as nat);
            lemma_ascending_len(burst@, n as int);
            assert(after =~= Seq::new(
                n as nat,
                |i: int| crate::combat::spec_after_hits(start[i], i, hits@),
            ));
            assert forall|i: int| 0 <= i < after.len() implies (#[trigger] after[i]).lane < lanes by {
                lemma_after_hits_keeps(start[i], i, hits@);
            }
            lemma_without_bursts_prefix(after, burst@, burst@.len() as int);
        }
        let mut gone: Vec<Fruit> = Vec::new();
        let mut children: Vec<Fruit> = Vec::new();
        let mut r: usize = burst.len();
        while r > 0
            invariant
                r <= burst.len(),
                burst.len() <= n,
                self.track == old(self).track,
                lanes == self.lanes(),
                self.towers.len() == old(self).towers.len(),
                self.next_tower_id == old(self).next_tower_id,
                self.lives == old(self).lives,
                self.wave == old(self).wave,
                self.state == old(self).state,
                self.mode == old(self).mode,
                self.next_lane == old(self).next_lane,
                self.selected_tower == old(self).selected_tower,
                self.spikes@ == old(self).spikes@,
                self.queue@ == old(self).queue@,
                old(self).wf(),
                old(self).spec_headroom(n as int),
                after.len() == n,
                forall|i: int| 0 <= i < after.len() ==> (#[trigger] after[i]).lane < lanes,
                forall|a: int| 0 <= a < burst.len() ==> (#[trigger] burst@[a]).0 < n,
                forall|a: int, c: int|
                    0 <= a < c < burst.len() ==> (#[trigger] burst@[a]).0 < (#[trigger] burst@[c]).0,
                forall|a: int| 0 <= a < burst.len() ==> (#[trigger] burst@[a]).0 >= a,
                self.fruits@ == spec_without_bursts(after, burst@, r as int),
                children@ == spec_burst_children(after, burst@, r as int),
                self.cash == old(self).cash + spec_cleared(after, burst@, r as int),
                spec_cleared(after, burst@, r as int) <= burst.len() - r,
                forall|j: int|
                    0 <= j < self.towers.len() ==> #[trigger] self.towers@[j] == (Tower {
                        kills: (old(self).towers@[j].kills + spec_credits(
                            burst@,
                            r as int,
                            old(self).towers@[j].id,
                        )) as u32,
                        ..old(self).towers@[j]
                    }),
                forall|j: int|
                    0 <= j < self.towers.len() ==> spec_credits(
                        burst@,
                        r as int,
                        #[trigger] old(self).towers@[j].id,
                    ) <= burst.len() - r,
                gone.len() == burst.len() - r,
                forall|k: int|
                    0 <= k < gone.len() ==> #[trigger] gone@[k] == after[burst@[burst.len() - 1
                        - k].0 as int],
                forall|c: int| 0 <= c < children.len() ==> (#[trigger] children@[c]).lane < lanes,
            decreases r,
        {
            r = r - 1;
            let (i, owner) = burst[r];
            proof {
                lemma_without_bursts_prefix(after, burst@, r + 1);
                lemma_later_bursts_above(n as int, burst@, r as int);
            }
            let f = self.fruits.remove(i);
            assert(f == after[i as int]);
            if f.kind.child().is_none() {
                self.cash = self.cash + CASH_PER_FRUIT_CLEARED;
            }
            let kids = f.split();
            let mut c: usize = 0;
            let ghost before_kids = children@;
            while c < kids.len()
                invariant
                    c <= kids.len(),
                    kids@ == f.spec_children(),
                    f.lane < lanes,
                    children@ == before_kids + kids@.take(c as int),
                    forall|q: int| 0 <= q < before_kids.len() ==> (#[trigger] before_kids[q]).lane < lanes,
                decreases kids.len() - c,
            {
                children.push(kids[c]);
                c = c + 1;
                assert(children@ =~= before_kids + kids@.take(c as int));
            }
            assert(kids@.take(kids.len() as int) =~= kids@);
            assert forall|q: int| 0 <= q < children.len() implies (#[trigger] children@[q]).lane < lanes by {
                if q >= before_kids.len() {
                    assert(children@[q] == kids@[q - before_kids.len()]);
                } else {
                    assert(children@[q] == before_kids[q]);
                }
            }
            gone.push(f);
            let ghost towers_before = self.towers@;
            proof {
                assert forall|a: int, b: int|
                    0 <= a < b < towers_before.len() implies (#[trigger] towers_before[a]).id < (
                    #[trigger] towers_before[b]).id by {
                    assert(towers_before[a].id == old(self).towers@[a].id);
                    assert(towers_before[b].id == old(self).towers@[b].id);
                    assert(old(self).towers@[a].id < old(self).towers@[b].id);
                }
                assert forall|a: int|
                    0 <= a < towers_before.len() && (#[trigger] towers_before[a]).id == owner implies towers_before[a].kills
                    < u32::MAX by {
                    let ot = old(self).towers@[a];
                    assert(ot.kills + n <= u32::MAX);
                    lemma_credits_bounds(burst@, r + 1, ot.id);
                    assert(towers_before[a] == self.towers@[a]);
                    assert(towers_before[a].kills == ot.kills + spec_credits(burst@, r + 1, ot.id));
                }
            }
            credit_kill(&mut self.towers, owner);
            proof {
                assert forall|j: int| 0 <= j < self.towers.len() implies #[trigger] self.towers@[j] == (Tower {
                    kills: (old(self).towers@[j].kills + spec_credits(
                        burst@,
                        r as int,
                        old(self).towers@[j].id,
                    )) as u32,
                    ..old(self).towers@[j]
                }) by {
                    assert(spec_credits(burst@, r as int, old(self).towers@[j].id) == spec_credits(
                        burst@,
                        r + 1,
                        old(self).towers@[j].id,
                    ) + (if owner == old(self).towers@[j].id { 1int } else { 0 }));
                    let ot = old(self).towers@[j];
                    assert(ot.kills + n <= u32::MAX);
                    lemma_credits_bounds(burst@, r + 1, ot.id);
                    assert(towers_before[j] == Tower {
                        kills: (ot.kills + spec_credits(burst@, r + 1, ot.id)) as u32,
                        ..ot
                    });
                    assert(towers_before[j].kills == ot.kills + spec_credits(burst@, r + 1, ot.id));
                }
                assert forall|j: int| 0 <= j < self.towers.len() implies spec_credits(
                    burst@,
                    r as int,
                    #[trigger] old(self).towers@[j].id,
                ) <= burst.len() - r by {
                    assert(spec_credits(burst@, r as int, old(self).towers@[j].id) == spec_credits(
                        burst@,
                        r + 1,
                        old(self).towers@[j].id,
                    ) + (if owner == old(self).towers@[j].id { 1int } else { 0 }));
                }
            }
        }
        let ghost survivors = self.fruits@;
        let ghost kids_all = children@;
        self.fruits.append(&mut children);
        proof {
            lemma_without_bursts_prefix(after, burst@, 0);
            lemma_without_bursts_lanes(after, burst@, 0, lanes);
            assert forall|i: int| 0 <= i < self.fruits.len() implies (#[trigger] self.fruits@[i]).lane
                < self.lanes() by {
                if i < survivors.len() {
                    assert(self.fruits@[i] == survivors[i]);
                } else {
                    assert(self.fruits@[i] == kids_all[i - survivors.len()]);
                }
            }
            assert forall|i: int| 0 <= i < self.towers.len() implies {
                let t = #[trigger] self.towers@[i];
                &&& t.id < self.next_tower_id
                &&& 1 <= t.level <= MAX_LEVEL
                &&& t.invested == spec_spent(t.kind, t.level)
            } by {
                assert(self.towers@[i].id == old(self).towers@[i].id);
            }
            assert forall|a: int, b: int| 0 <= a < b < self.towers.len() implies (
            #[trigger] self.towers@[a]).id < (#[trigger] self.towers@[b]).id by {
                assert(self.towers@[a].id == old(self).towers@[a].id);
                assert(self.towers@[b].id == old(self).towers@[b].id);
            }
        }
        gone
    }

    /// Run the fruit over the spike piles: each fruit standing on a pile that
    /// can hurt it takes one hit from the first such pile, which spends a
    /// spike on it; piles left with no spikes are cleared away; and the hits
    /// land as `apply_hits` lands them. Returns the burst fruit.
    pub fn update_spikes(&mut self) -> (gone: Vec<Fruit>)
        requires
            old(self).wf(),
            old(self).spec_headroom(old(self).fruits.len() as int),
        ensures
            final(self).wf(),
            ({
                let (piles, hits) = spec_spikes_after(
                    old(self).spikes@,
                    old(self).fruits@,
                    old(self).fruits.len() as nat,
                );
                &&& final(self).spikes@ == piles.filter(|p: SpikePile| p.charges > 0)
                &&& hits_landed(*old(self), *final(self), hits, gone@)
            }),
            final(self).lives == old(self).lives,
            final(self).wave == old(self).wave,
            final(self).state == old(self).state,
            final(self).queue@ == old(self).queue@,
    {
        let hits = run_over_spikes(&mut self.spikes, &self.fruits);
        proof {
            lemma_spikes_only_spend(old(self).spikes@, self.fruits@, self.fruits.len() as nat);
        }
        let ghost walked = self.spikes@;
        let ghost live = |p: SpikePile| p.charges > 0;
        let mut kept: Vec<SpikePile> = Vec::new();
        let mut k: usize = 0;
        while k < self.spikes.len()
            invariant
                k <= self.spikes.len(),
                self.spikes@ == walked,
                live == (|p: SpikePile| p.charges > 0),
                kept@ == walked.take(k as int).filter(live),
            decreases self.spikes.len() - k,
        {
            let p = self.spikes[k];
            proof {
                reveal_with_fuel(Seq::<_>::filter, 1);
                assert(walked.take(k + 1).drop_last() =~= walked.take(k as int));
            }
            if !p.spent() {
                kept.push(p);
            }
            k = k + 1;
        }
        assert(walked.take(walked.len() as int) =~= walked);
        self.spikes = kept;
        proof {
            let ghost before = old(self).spikes@;
            assert forall|i: int, j: int|
                0 <= i < walked.len() && 0 <= j < walked.len() && i != j implies (
                #[trigger] walked[i]).lane != (#[trigger] walked[j]).lane || spec_gap(
                walked[i].dist,
                walked[j].dist,
            ) >= SPIKE_SPACING * 100 by {
                assert(walked[i].lane == before[i].lane && walked[i].dist == before[i].dist);
                assert(walked[j].lane == before[j].lane && walked[j].dist == before[j].dist);
            }
            lemma_spaced_filter(walked, live);
            assert forall|j: int| 0 <= j < self.spikes.len() implies (
            #[trigger] self.spikes@[j]).lane < self.lanes() by {
                assert(walked.filter(live).contains(self.spikes@[j]));
                walked.lemma_filter_contains_rev(live, self.spikes@[j]);
                let q = choose|q: int| 0 <= q < walked.len() && walked[q] == self.spikes@[j];
                assert(walked[q].lane == old(self).spikes@[q].lane);
            }
        }
        self.apply_hits(hits)
    }

    /// How many world steps a frame runs: none while the game is held, two
    /// while fast forward is on, one otherwise.
    pub fn world_steps(&self) -> (n: u32)
        ensures
            n == (if self.paused {
                0
            } else if self.fast {
                FAST_FORWARD_STEPS
            } else {
                1
            }),
    {
        if self.paused {
            0
        } else if self.fast {
            FAST_FORWARD_STEPS
        } else {
            1
        }
    }
}

} // verus!
