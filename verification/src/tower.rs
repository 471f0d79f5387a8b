//! The defences the player buys, places and upgrades, and the spike piles the
//! Spike Layer leaves on the track.
//!
//! Every tower upgrades along one linear track, Lv1 to Lv3, each kind leaning
//! into what it already does.

use vstd::prelude::*;

verus! {

/// Drawing and collision radius of a tower base, in pixels.
pub const TOWER_RADIUS: u32 = 20;
/// How far a tower must sit from a lane's centreline, in pixels: half the
/// 44px track plus the tower's radius.
pub const PATH_CLEARANCE: u32 = 44;
/// Highest level a tower can reach.
pub const MAX_LEVEL: u8 = 3;
/// Collision half-width of a spike pile along the track, in pixels.
pub const SPIKE_RADIUS: u32 = 14;
/// Minimum gap along a lane between two piles, in pixels.
pub const SPIKE_SPACING: u32 = 34;
/// How many kinds of tower the shop sells.
pub const TOWER_KIND_COUNT: usize = 7;

/// The tower types, in shop order (also the order of the number keys).
#[derive(Clone, Copy, PartialEq, Eq, Structural, Debug)]
pub enum TowerKind {
    SeedShooter,
    Blender,
    Freezer,
    KnifeThrower,
    SpikeLayer,
    /// Three seeds at three separate fruit, every shot.
    TripleSeeder,
    /// Lobs a shell that clears everything standing near where it lands.
    BombLobber,
}

pub open spec fn spec_level_index(level: u8) -> int {
    if level <= 1 { 0 } else if level >= MAX_LEVEL { 2 } else { level - 1 }
}

/// A 1-based level as a stat-table index, clamped so a bad level still names
/// a real row.
pub fn level_index(level: u8) -> (i: usize)
    ensures
        i == spec_level_index(level),
        i < 3,
        1 <= level <= MAX_LEVEL ==> i == level - 1,
        level < 1 ==> i == 0,
        level > MAX_LEVEL ==> i == MAX_LEVEL - 1,
{
    if level <= 1 {
        0
    } else if level >= MAX_LEVEL {
        2
    } else {
        (level - 1) as usize
    }
}

/// The shop's kinds, in order.
pub open spec fn spec_kind_at(i: int) -> TowerKind {
    if i == 0 {
        TowerKind::SeedShooter
    } else if i == 1 {
        TowerKind::Blender
    } else if i == 2 {
        TowerKind::Freezer
    } else if i == 3 {
        TowerKind::KnifeThrower
    } else if i == 4 {
        TowerKind::SpikeLayer
    } else if i == 5 {
        TowerKind::TripleSeeder
    } else {
        TowerKind::BombLobber
    }
}

/// The kind on shop button `i`; past the end, the last one.
pub fn kind_at(i: usize) -> (k: TowerKind)
    ensures
        k == spec_kind_at(i as int),
{
    if i == 0 {
        TowerKind::SeedShooter
    } else if i == 1 {
        TowerKind::Blender
    } else if i == 2 {
        TowerKind::Freezer
    } else if i == 3 {
        TowerKind::KnifeThrower
    } else if i == 4 {
        TowerKind::SpikeLayer
    } else if i == 5 {
        TowerKind::TripleSeeder
    } else {
        TowerKind::BombLobber
    }
}

impl TowerKind {
    pub open spec fn spec_name(self) -> &'static str {
        match self {
            TowerKind::SeedShooter => "Seed Shooter",
            TowerKind::Blender => "Blender",
            TowerKind::Freezer => "Freezer",
            TowerKind::KnifeThrower => "Knife Thrower",
            TowerKind::SpikeLayer => "Spike Layer",
            TowerKind::TripleSeeder => "Triple Seeder",
            TowerKind::BombLobber => "Bomb Lobber",
        }
    }

    /// Full name, for the tower panel.
    pub fn name(&self) -> (v: &'static str)
        ensures
            v == self.spec_name(),
    {
        match self {
            TowerKind::SeedShooter => "Seed Shooter",
            TowerKind::Blender => "Blender",
            TowerKind::Freezer => "Freezer",
            TowerKind::KnifeThrower => "Knife Thrower",
            TowerKind::SpikeLayer => "Spike Layer",
            TowerKind::TripleSeeder => "Triple Seeder",
            TowerKind::BombLobber => "Bomb Lobber",
        }
    }

    pub open spec fn spec_short_name(self) -> &'static str {
        match self {
            TowerKind::SeedShooter => "Seeds",
            TowerKind::Blender => "Blender",
            TowerKind::Freezer => "Freezer",
            TowerKind::KnifeThrower => "Knives",
            TowerKind::SpikeLayer => "Spikes",
            TowerKind::TripleSeeder => "Triple",
            TowerKind::BombLobber => "Bombs",
        }
    }

    /// Abbreviated name for the narrow shop buttons.
    pub fn short_name(&self) -> (v: &'static str)
        ensures
            v == self.spec_short_name(),
    {
        match self {
            TowerKind::SeedShooter => "Seeds",
            TowerKind::Blender => "Blender",
            TowerKind::Freezer => "Freezer",
            TowerKind::KnifeThrower => "Knives",
            TowerKind::SpikeLayer => "Spikes",
            TowerKind::TripleSeeder => "Triple",
            TowerKind::BombLobber => "Bombs",
        }
    }

    pub open spec fn spec_blurb(self) -> &'static str {
        match self {
            TowerKind::SeedShooter => "single",
            TowerKind::Blender => "splash",
            TowerKind::Freezer => "slows",
            TowerKind::KnifeThrower => "pierces",
            TowerKind::SpikeLayer => "spikes",
            TowerKind::TripleSeeder => "3 at once",
            TowerKind::BombLobber => "clears",
        }
    }

    /// One-word role summary for the shop button.
    pub fn blurb(&self) -> (v: &'static str)
        ensures
            v == self.spec_blurb(),
    {
        match self {
            TowerKind::SeedShooter => "single",
            TowerKind::Blender => "splash",
            TowerKind::Freezer => "slows",
            TowerKind::KnifeThrower => "pierces",
            TowerKind::SpikeLayer => "spikes",
            TowerKind::TripleSeeder => "3 at once",
            TowerKind::BombLobber => "clears",
        }
    }

    pub open spec fn spec_cost(self) -> u32 {
        match self {
            TowerKind::SeedShooter => 90,
            TowerKind::Blender => 170,
            TowerKind::Freezer => 140,
            TowerKind::KnifeThrower => 130,
            TowerKind::SpikeLayer => 150,
            TowerKind::TripleSeeder => 260,
            TowerKind::BombLobber => 320,
        }
    }

    /// Purchase price: always the Lv1 cost.
    pub fn cost(&self) -> (v: u32)
        ensures
            v == self.spec_cost(),
    {
        match self {
            TowerKind::SeedShooter => 90,
            TowerKind::Blender => 170,
            TowerKind::Freezer => 140,
            TowerKind::KnifeThrower => 130,
            TowerKind::SpikeLayer => 150,
            TowerKind::TripleSeeder => 260,
            TowerKind::BombLobber => 320,
        }
    }

    pub open spec fn spec_upgrade_cost(self, level: u8) -> Option<u32> {
        let costs: (u32, u32) = match self {
            TowerKind::SeedShooter => (70, 150),
            TowerKind::Blender => (120, 240),
            TowerKind::Freezer => (100, 200),
            TowerKind::KnifeThrower => (110, 220),
            TowerKind::SpikeLayer => (130, 260),
            TowerKind::TripleSeeder => (160, 280),
            TowerKind::BombLobber => (200, 340),
        };
        if level == 1 {
            Some(costs.0)
        } else if level == 2 {
            Some(costs.1)
        } else {
            None
        }
    }

    /// Price of moving from `level` to the next one; `None` once maxed.
    pub fn upgrade_cost(&self, level: u8) -> (c: Option<u32>)
        ensures
            c == self.spec_upgrade_cost(level),
    {
        let costs: (u32, u32) = match self {
            TowerKind::SeedShooter => (70, 150),
            TowerKind::Blender => (120, 240),
            TowerKind::Freezer => (100, 200),
            TowerKind::KnifeThrower => (110, 220),
            TowerKind::SpikeLayer => (130, 260),
            TowerKind::TripleSeeder => (160, 280),
            TowerKind::BombLobber => (200, 340),
        };
        if level == 1 {
            Some(costs.0)
        } else if level == 2 {
            Some(costs.1)
        } else {
            None
        }
    }

    pub open spec fn spec_upgrade_label(self, level: u8) -> &'static str {
        let labels: (&'static str, &'static str) = match self {
            TowerKind::SeedShooter => ("faster, longer reach", "twin shot"),
            TowerKind::Blender => ("wider splash", "widest splash, faster"),
            TowerKind::Freezer => ("deeper chill", "deepest chill, longer"),
            TowerKind::KnifeThrower => ("more pierce, faster", "deepest pierce"),
            TowerKind::SpikeLayer => ("bigger piles, faster", "biggest piles"),
            TowerKind::TripleSeeder => ("a fourth seed, faster", "a fifth seed, faster"),
            TowerKind::BombLobber => ("wider blast, faster", "widest blast, faster"),
        };
        if level == 1 {
            labels.0
        } else if level == 2 {
            labels.1
        } else {
            "fully upgraded"
        }
    }

    /// What the next upgrade buys, for the tower panel.
    pub fn upgrade_label(&self, level: u8) -> (l: &'static str)
        ensures
            l == self.spec_upgrade_label(level),
    {
        let labels: (&'static str, &'static str) = match self {
            TowerKind::SeedShooter => ("faster, longer reach", "twin shot"),
            TowerKind::Blender => ("wider splash", "widest splash, faster"),
            TowerKind::Freezer => ("deeper chill", "deepest chill, longer"),
            TowerKind::KnifeThrower => ("more pierce, faster", "deepest pierce"),
            TowerKind::SpikeLayer => ("bigger piles, faster", "biggest piles"),
            TowerKind::TripleSeeder => ("a fourth seed, faster", "a fifth seed, faster"),
            TowerKind::BombLobber => ("wider blast, faster", "widest blast, faster"),
        };
        if level == 1 {
            labels.0
        } else if level == 2 {
            labels.1
        } else {
            "fully upgraded"
        }
    }

    pub open spec fn spec_range(self, level: u8) -> u32 {
        let i = spec_level_index(level);
        match self {
            TowerKind::SeedShooter => if i == 0 { 135 } else if i == 1 { 158 } else { 180 },
            TowerKind::Blender => if i == 0 { 110 } else if i == 1 { 128 } else { 148 },
            TowerKind::Freezer => if i == 0 { 120 } else if i == 1 { 142 } else { 165 },
            TowerKind::KnifeThrower => if i == 0 { 145 } else if i == 1 { 165 } else { 185 },
            TowerKind::SpikeLayer => if i == 0 { 120 } else if i == 1 { 138 } else { 158 },
            TowerKind::TripleSeeder => if i == 0 { 150 } else if i == 1 { 172 } else { 195 },
            TowerKind::BombLobber => if i == 0 { 125 } else if i == 1 { 142 } else { 160 },
        }
    }

    /// Radius within which the tower engages fruit, in pixels.
    pub fn range(&self, level: u8) -> (v: u32)
        ensures
            v == self.spec_range(level),
    {
        let i = level_index(level);
        match self {
            TowerKind::SeedShooter => if i == 0 { 135 } else if i == 1 { 158 } else { 180 },
            TowerKind::Blender => if i == 0 { 110 } else if i == 1 { 128 } else { 148 },
            TowerKind::Freezer => if i == 0 { 120 } else if i == 1 { 142 } else { 165 },
            TowerKind::KnifeThrower => if i == 0 { 145 } else if i == 1 { 165 } else { 185 },
            TowerKind::SpikeLayer => if i == 0 { 120 } else if i == 1 { 138 } else { 158 },
            TowerKind::TripleSeeder => if i == 0 { 150 } else if i == 1 { 172 } else { 195 },
            TowerKind::BombLobber => if i == 0 { 125 } else if i == 1 { 142 } else { 160 },
        }
    }

    pub open spec fn spec_cooldown(self, level: u8) -> u32 {
        let i = spec_level_index(level);
        match self {
            TowerKind::SeedShooter => if i == 0 { 450 } else if i == 1 { 330 } else { 240 },
            TowerKind::Blender => if i == 0 { 1100 } else if i == 1 { 880 } else { 700 },
            TowerKind::Freezer => if i == 0 { 1400 } else if i == 1 { 1150 } else { 950 },
            TowerKind::KnifeThrower => if i == 0 { 750 } else if i == 1 { 600 } else { 460 },
            TowerKind::SpikeLayer => if i == 0 { 4500 } else if i == 1 { 3400 } else { 2600 },
            TowerKind::TripleSeeder => if i == 0 { 450 } else if i == 1 { 380 } else { 320 },
            TowerKind::BombLobber => if i == 0 { 2600 } else if i == 1 { 2100 } else { 1700 },
        }
    }

    /// Milliseconds between shots; between pulses for the Freezer, and between
    /// laying piles for the Spike Layer.
    pub fn cooldown(&self, level: u8) -> (v: u32)
        ensures
            v == self.spec_cooldown(level),
    {
        let i = level_index(level);
        match self {
            TowerKind::SeedShooter => if i == 0 { 450 } else if i == 1 { 330 } else { 240 },
            TowerKind::Blender => if i == 0 { 1100 } else if i == 1 { 880 } else { 700 },
            TowerKind::Freezer => if i == 0 { 1400 } else if i == 1 { 1150 } else { 950 },
            TowerKind::KnifeThrower => if i == 0 { 750 } else if i == 1 { 600 } else { 460 },
            TowerKind::SpikeLayer => if i == 0 { 4500 } else if i == 1 { 3400 } else { 2600 },
            TowerKind::TripleSeeder => if i == 0 { 450 } else if i == 1 { 380 } else { 320 },
            TowerKind::BombLobber => if i == 0 { 2600 } else if i == 1 { 2100 } else { 1700 },
        }
    }

    pub open spec fn spec_spike_charges(self, level: u8) -> u32 {
        let i = spec_level_index(level);
        match self {
            TowerKind::SpikeLayer => if i == 0 { 4 } else if i == 1 { 6 } else { 9 },
            _ => if i == 0 { 0 } else if i == 1 { 0 } else { 0 },
        }
    }

    /// How many hits one pile of spikes lands before it is used up. Only the
    /// Spike Layer lays piles.
    pub fn spike_charges(&self, level: u8) -> (v: u32)
        ensures
            v == self.spec_spike_charges(level),
    {
        let i = level_index(level);
        match self {
            TowerKind::SpikeLayer => if i == 0 { 4 } else if i == 1 { 6 } else { 9 },
            _ => if i == 0 { 0 } else if i == 1 { 0 } else { 0 },
        }
    }

    pub open spec fn spec_pierce(self, level: u8) -> u32 {
        let i = spec_level_index(level);
        match self {
            TowerKind::KnifeThrower => if i == 0 { 3 } else if i == 1 { 4 } else { 6 },
            _ => if i == 0 { 1 } else if i == 1 { 1 } else { 1 },
        }
    }

    /// How many fruit one shot can hit before it is used up. Only the Knife
    /// Thrower's knives pass through and keep flying.
    pub fn pierce(&self, level: u8) -> (v: u32)
        ensures
            v == self.spec_pierce(level),
    {
        let i = level_index(level);
        match self {
            TowerKind::KnifeThrower => if i == 0 { 3 } else if i == 1 { 4 } else { 6 },
            _ => if i == 0 { 1 } else if i == 1 { 1 } else { 1 },
        }
    }

    pub open spec fn spec_splash_radius(self, level: u8) -> u32 {
        let i = spec_level_index(level);
        match self {
            TowerKind::Blender => if i == 0 { 58 } else if i == 1 { 72 } else { 90 },
            TowerKind::BombLobber => if i == 0 { 110 } else if i == 1 { 135 } else { 165 },
            _ => if i == 0 { 0 } else if i == 1 { 0 } else { 0 },
        }
    }

    /// Splash radius of this tower's shots, in pixels. Zero means single target.
    pub fn splash_radius(&self, level: u8) -> (v: u32)
        ensures
            v == self.spec_splash_radius(level),
    {
        let i = level_index(level);
        match self {
            TowerKind::Blender => if i == 0 { 58 } else if i == 1 { 72 } else { 90 },
            TowerKind::BombLobber => if i == 0 { 110 } else if i == 1 { 135 } else { 165 },
            _ => if i == 0 { 0 } else if i == 1 { 0 } else { 0 },
        }
    }

    pub open spec fn spec_shots(self, level: u8) -> usize {
        let i = spec_level_index(level);
        match self {
            TowerKind::SeedShooter => if i == 0 { 1 } else if i == 1 { 1 } else { 2 },
            TowerKind::TripleSeeder => if i == 0 { 3 } else if i == 1 { 4 } else { 5 },
            _ => if i == 0 { 1 } else if i == 1 { 1 } else { 1 },
        }
    }

    /// How many fruit the tower engages per volley.
    pub fn shots(&self, level: u8) -> (v: usize)
        ensures
            v == self.spec_shots(level),
    {
        let i = level_index(level);
        match self {
            TowerKind::SeedShooter => if i == 0 { 1 } else if i == 1 { 1 } else { 2 },
            TowerKind::TripleSeeder => if i == 0 { 3 } else if i == 1 { 4 } else { 5 },
            _ => if i == 0 { 1 } else if i == 1 { 1 } else { 1 },
        }
    }

    pub open spec fn spec_slow_factor(self, level: u8) -> u32 {
        let i = spec_level_index(level);
        match self {
            TowerKind::Freezer => if i == 0 { 45 } else if i == 1 { 35 } else { 25 },
            _ => if i == 0 { 100 } else if i == 1 { 100 } else { 100 },
        }
    }

    /// Percent of its speed a chilled fruit keeps. Lower is a stronger slow.
    pub fn slow_factor(&self, level: u8) -> (v: u32)
        ensures
            v == self.spec_slow_factor(level),
    {
        let i = level_index(level);
        match self {
            TowerKind::Freezer => if i == 0 { 45 } else if i == 1 { 35 } else { 25 },
            _ => if i == 0 { 100 } else if i == 1 { 100 } else { 100 },
        }
    }

    pub open spec fn spec_freeze_duration(self, level: u8) -> u32 {
        let i = spec_level_index(level);
        match self {
            TowerKind::Freezer => if i == 0 { 1600 } else if i == 1 { 1900 } else { 2300 },
            _ => if i == 0 { 0 } else if i == 1 { 0 } else { 0 },
        }
    }

    /// Milliseconds of slow one Freezer pulse applies.
    pub fn freeze_duration(&self, level: u8) -> (v: u32)
        ensures
            v == self.spec_freeze_duration(level),
    {
        let i = level_index(level);
        match self {
            TowerKind::Freezer => if i == 0 { 1600 } else if i == 1 { 1900 } else { 2300 },
            _ => if i == 0 { 0 } else if i == 1 { 0 } else { 0 },
        }
    }

    pub open spec fn spec_breaks_shield(self, level: u8) -> bool {
        level >= 2
    }

    /// Whether this tower's hits get through a fruit's shield: from Lv2 on.
    pub fn breaks_shield(&self, level: u8) -> (b: bool)
        ensures
            b == self.spec_breaks_shield(level),
    {
        level >= 2
    }
}


/// Every tower upgrades twice and then is maxed: Lv1 and Lv2 have a price,
/// Lv3 and anything past it has none.
pub proof fn lemma_every_tower_maxes_at_level_three(k: TowerKind, level: u8)
    ensures
        k.spec_upgrade_cost(1) is Some,
        k.spec_upgrade_cost(2) is Some,
        level >= MAX_LEVEL ==> k.spec_upgrade_cost(level) is None,
{
}

/// Upgrading never makes a tower worse at anything: reach, rate, splash,
/// chill, pierce and spikes all hold or improve from one level to the next.
pub proof fn lemma_upgrading_never_makes_a_tower_worse(k: TowerKind, lo: u8)
    requires
        1 <= lo < MAX_LEVEL,
    ensures
        k.spec_range((lo + 1) as u8) >= k.spec_range(lo),
        k.spec_cooldown((lo + 1) as u8) <= k.spec_cooldown(lo),
        k.spec_splash_radius((lo + 1) as u8) >= k.spec_splash_radius(lo),
        k.spec_slow_factor((lo + 1) as u8) <= k.spec_slow_factor(lo),
        k.spec_freeze_duration((lo + 1) as u8) >= k.spec_freeze_duration(lo),
        k.spec_pierce((lo + 1) as u8) >= k.spec_pierce(lo),
        k.spec_spike_charges((lo + 1) as u8) >= k.spec_spike_charges(lo),
        k.spec_shots((lo + 1) as u8) >= k.spec_shots(lo),
{
}

/// Each level from 1 to the top reads its own row of the stat tables: level
/// `n` reads row `n - 1`, so no two real levels share a row.
pub proof fn lemma_each_level_reads_its_own_row(a: u8, b: u8)
    requires
        1 <= a <= MAX_LEVEL,
        1 <= b <= MAX_LEVEL,
    ensures
        spec_level_index(a) == a - 1,
        a != b ==> spec_level_index(a) != spec_level_index(b),
{
}

/// Every upgrade buys reach: for every kind, each level sees strictly
/// farther than the one below it.
pub proof fn lemma_every_upgrade_buys_reach(k: TowerKind, lo: u8)
    requires
        1 <= lo < MAX_LEVEL,
    ensures
        k.spec_range((lo + 1) as u8) > k.spec_range(lo),
{
}

/// A level outside 1..=3 reads the nearest real row of the stat tables.
pub proof fn lemma_level_index_clamps(k: TowerKind, level: u8)
    ensures
        level <= 1 ==> k.spec_range(level) == k.spec_range(1),
        level >= MAX_LEVEL ==> k.spec_range(level) == k.spec_range(MAX_LEVEL),
{
}

/// Roles: only the Spike Layer lays spikes, only the Knife Thrower pierces,
/// and only the Seed Shooter (at Lv3) and the Triple Seeder engage more than
/// one fruit at once, the Triple Seeder three from the start and five at the
/// top.
pub proof fn lemma_tower_roles(k: TowerKind, level: u8)
    ensures
        (k.spec_spike_charges(level) > 0) == (k == TowerKind::SpikeLayer),
        (k.spec_pierce(level) > 1) == (k == TowerKind::KnifeThrower),
        k != TowerKind::SeedShooter && k != TowerKind::TripleSeeder ==> k.spec_shots(level) == 1,
        TowerKind::SeedShooter.spec_shots(1) == 1,
        TowerKind::SeedShooter.spec_shots(3) == 2,
        TowerKind::TripleSeeder.spec_shots(1) == 3,
        TowerKind::TripleSeeder.spec_shots(3) == 5,
        (k.spec_slow_factor(level) < 100) == (k == TowerKind::Freezer),
{
}

/// The two towers that answer a crowd outright, the Triple Seeder and the
/// Bomb Lobber, are dearer than everything that works through one, and the
/// Bomb Lobber is the dearest of all and, the Spike Layer apart, the slowest.
pub proof fn lemma_crowd_answers_cost_most(k: TowerKind, level: u8)
    ensures
        k != TowerKind::TripleSeeder && k != TowerKind::BombLobber ==> TowerKind::TripleSeeder.spec_cost()
            > k.spec_cost() && TowerKind::BombLobber.spec_cost() > k.spec_cost(),
        k != TowerKind::BombLobber ==> TowerKind::BombLobber.spec_cost() > k.spec_cost(),
        k != TowerKind::BombLobber && k != TowerKind::SpikeLayer ==> TowerKind::BombLobber.spec_cooldown(
            level,
        ) > k.spec_cooldown(level),
{
}

/// The Bomb Lobber's blast is at least 1.7 times the Blender's splash at every
/// level, and wider across than the tower can see.
pub proof fn lemma_bomb_lobber_blast(level: u8)
    ensures
        10 * TowerKind::BombLobber.spec_splash_radius(level) >= 17
            * TowerKind::Blender.spec_splash_radius(level),
        2 * TowerKind::BombLobber.spec_splash_radius(level) > TowerKind::BombLobber.spec_range(level),
{
}

/// The Triple Seeder puts out at least 1.8 times a Seed Shooter's shots per
/// second at every level, and at Lv1 buys at least as many shots per second
/// per dollar.
pub proof fn lemma_triple_seeder_output(level: u8)
    ensures
        10 * TowerKind::TripleSeeder.spec_shots(level) * TowerKind::SeedShooter.spec_cooldown(level)
            >= 18 * TowerKind::SeedShooter.spec_shots(level) * TowerKind::TripleSeeder.spec_cooldown(
            level,
        ),
        TowerKind::TripleSeeder.spec_shots(1) * TowerKind::SeedShooter.spec_cooldown(1)
            * TowerKind::SeedShooter.spec_cost() >= TowerKind::SeedShooter.spec_shots(1)
            * TowerKind::TripleSeeder.spec_cooldown(1) * TowerKind::TripleSeeder.spec_cost(),
{
    let i = spec_level_index(level);
    let (ts, sc, ss, tc) = (
        TowerKind::TripleSeeder.spec_shots(level),
        TowerKind::SeedShooter.spec_cooldown(level),
        TowerKind::SeedShooter.spec_shots(level),
        TowerKind::TripleSeeder.spec_cooldown(level),
    );
    if i == 0 {
        assert(ts == 3 && sc == 450 && ss == 1 && tc == 450);
    } else if i == 1 {
        assert(ts == 4 && sc == 330 && ss == 1 && tc == 380);
    } else {
        assert(ts == 5 && sc == 240 && ss == 2 && tc == 320);
    }
    assert(TowerKind::TripleSeeder.spec_shots(1) == 3);
    assert(TowerKind::SeedShooter.spec_cooldown(1) == 450);
    assert(TowerKind::SeedShooter.spec_shots(1) == 1);
    assert(TowerKind::TripleSeeder.spec_cooldown(1) == 450);
}

/// Selling pays back 60% of everything invested, rounded down: never more
/// than was spent, and strictly less for anything that cost something.
pub proof fn lemma_selling_refunds_a_fraction(t: Tower)
    ensures
        t.spec_sell_value() == t.invested * 3 / 5,
        t.spec_sell_value() <= t.invested,
        t.invested > 0 ==> t.spec_sell_value() < t.invested,
{
}

/// The shop's kinds, in order.
pub fn all_kinds() -> (kinds: Vec<TowerKind>)
    ensures
        kinds.len() == TOWER_KIND_COUNT,
        forall|i: int| 0 <= i < TOWER_KIND_COUNT ==> kinds@[i] == spec_kind_at(i),
{
    let mut kinds: Vec<TowerKind> = Vec::new();
    let mut i: usize = 0;
    while i < TOWER_KIND_COUNT
        invariant
            i <= TOWER_KIND_COUNT,
            kinds.len() == i,
            forall|j: int| 0 <= j < i ==> kinds@[j] == spec_kind_at(j),
        decreases TOWER_KIND_COUNT - i,
    {
        kinds.push(kind_at(i));
        i = i + 1;
    }
    kinds
}

/// A placed tower.
///
/// `x` and `y` are its position on the field in pixels, `cooldown_us` the
/// microseconds until it may act again (at or below zero it is ready), and
/// `angle_mrad` the way its barrel faces, in thousandths of a radian.
/// `invested` is the purchase plus every upgrade, for the sell refund. `id` is
/// a stable handle that outlives other towers being sold, so a shot or a pile
/// can credit its kill back to whoever fired or laid it.
#[derive(Clone, Copy, Debug)]
pub struct Tower {
    pub kind: TowerKind,
    pub x: i32,
    pub y: i32,
    pub cooldown_us: i64,
    pub angle_mrad: i32,
    pub level: u8,
    pub invested: u32,
    pub id: u32,
    /// Shots fired, pulses emitted, or piles laid.
    pub shots_fired: u32,
    /// Fruit burst by this tower's hits. Always 0 for a Freezer.
    pub kills: u32,
    /// Fruit chilled across every pulse. Freezer only.
    pub chills: u32,
}

impl Tower {
    /// A fresh Lv1 tower of `kind` at (`x`, `y`), ready to act, with its price
    /// as everything invested so far.
    pub fn new(kind: TowerKind, x: i32, y: i32, id: u32) -> (t: Tower)
        ensures
            t.kind == kind,
            t.x == x,
            t.y == y,
            t.cooldown_us == 0,
            t.angle_mrad == 0,
            t.level == 1,
            t.invested == kind.spec_cost(),
            t.id == id,
            t.shots_fired == 0,
            t.kills == 0,
            t.chills == 0,
    {
        Tower {
            kind,
            x,
            y,
            cooldown_us: 0,
            angle_mrad: 0,
            level: 1,
            invested: kind.cost(),
            id,
            shots_fired: 0,
            kills: 0,
            chills: 0,
        }
    }

    pub fn range(&self) -> (v: u32)
        ensures
            v == self.kind.spec_range(self.level),
    {
        self.kind.range(self.level)
    }

    pub fn fire_cooldown(&self) -> (v: u32)
        ensures
            v == self.kind.spec_cooldown(self.level),
    {
        self.kind.cooldown(self.level)
    }

    pub fn splash_radius(&self) -> (v: u32)
        ensures
            v == self.kind.spec_splash_radius(self.level),
    {
        self.kind.splash_radius(self.level)
    }

    pub fn shots(&self) -> (v: usize)
        ensures
            v == self.kind.spec_shots(self.level),
    {
        self.kind.shots(self.level)
    }

    pub fn pierce(&self) -> (v: u32)
        ensures
            v == self.kind.spec_pierce(self.level),
    {
        self.kind.pierce(self.level)
    }

    pub fn spike_charges(&self) -> (v: u32)
        ensures
            v == self.kind.spec_spike_charges(self.level),
    {
        self.kind.spike_charges(self.level)
    }

    pub fn slow_factor(&self) -> (v: u32)
        ensures
            v == self.kind.spec_slow_factor(self.level),
    {
        self.kind.slow_factor(self.level)
    }

    pub fn freeze_duration(&self) -> (v: u32)
        ensures
            v == self.kind.spec_freeze_duration(self.level),
    {
        self.kind.freeze_duration(self.level)
    }

    pub fn breaks_shield(&self) -> (b: bool)
        ensures
            b == self.kind.spec_breaks_shield(self.level),
    {
        self.kind.breaks_shield(self.level)
    }

    /// Cost of the next upgrade, or `None` when the tower is maxed out.
    pub fn upgrade_cost(&self) -> (c: Option<u32>)
        ensures
            c == self.kind.spec_upgrade_cost(self.level),
    {
        self.kind.upgrade_cost(self.level)
    }

    pub fn upgrade_label(&self) -> (l: &'static str)
        ensures
            l == self.kind.spec_upgrade_label(self.level),
    {
        self.kind.upgrade_label(self.level)
    }

    pub fn maxed(&self) -> (m: bool)
        ensures
            m == (self.level >= MAX_LEVEL),
    {
        self.level >= MAX_LEVEL
    }

    /// Apply a purchased upgrade, folding `cost` into what selling gives back.
    /// A maxed tower is left as it is.
    pub fn upgrade(&mut self, cost: u32)
        requires
            old(self).level >= MAX_LEVEL || old(self).invested + cost <= u32::MAX,
        ensures
            old(self).level >= MAX_LEVEL ==> *final(self) == *old(self),
            old(self).level < MAX_LEVEL ==> *final(self) == (Tower {
                level: (old(self).level + 1) as u8,
                invested: (old(self).invested + cost) as u32,
                ..*old(self)
            }),
    {
        if self.maxed() {
            return;
        }
        self.level = self.level + 1;
        self.invested = self.invested + cost;
    }

    pub open spec fn spec_sell_value(self) -> u32 {
        (self.invested * 3 / 5) as u32
    }

    /// What selling this tower pays back: 60% of everything invested in it,
    /// rounded down.
    pub fn sell_value(&self) -> (v: u32)
        ensures
            v == self.spec_sell_value(),
    {
        (self.invested as u64 * 3 / 5) as u32
    }

    /// Let `elapsed_us` microseconds of the cooldown run down.
    pub fn tick(&mut self, elapsed_us: u32)
        ensures
            final(self).cooldown_us == (if old(self).cooldown_us - elapsed_us < i64::MIN {
                i64::MIN as int
            } else {
                old(self).cooldown_us - elapsed_us
            }),
            *final(self) == (Tower { cooldown_us: final(self).cooldown_us, ..*old(self) }),
    {
        let e = elapsed_us as i64;
        self.cooldown_us = if self.cooldown_us < i64::MIN + e { i64::MIN } else { self.cooldown_us - e };
    }

    /// Whether the cooldown has run out.
    pub fn ready(&self) -> (r: bool)
        ensures
            r == (self.cooldown_us <= 0),
    {
        self.cooldown_us <= 0
    }

    /// Start the cooldown again at this level's full length.
    pub fn reset_cooldown(&mut self)
        ensures
            final(self).cooldown_us == old(self).kind.spec_cooldown(old(self).level) * 1000,
            *final(self) == (Tower { cooldown_us: final(self).cooldown_us, ..*old(self) }),
    {
        self.cooldown_us = self.fire_cooldown() as i64 * 1000;
    }
}

/// A pile of spikes sitting on one lane of the track.
///
/// `dist` is its position along that lane in hundredths of a pixel, not a
/// point on the screen: a pile only ever touches fruit walking the same lane
/// over it, however close another stretch of track runs. `x`, `y` (pixels)
/// and `rot` (degrees) are where and how it is drawn. `charges` is the number
/// of hits it has left, and `owner` the id of the Spike Layer that laid it.
#[derive(Clone, Copy, Debug)]
pub struct SpikePile {
    pub x: i32,
    pub y: i32,
    pub lane: usize,
    pub dist: u32,
    pub charges: u32,
    pub owner: u32,
    pub rot: u32,
    pub breaks_shield: bool,
}

/// Whether a pile at `pile_dist` reaches a fruit of radius `radius` pixels at
/// `fruit_dist` on the same lane: within the fruit's radius plus the pile's own
/// half-width, measured along the track.
pub open spec fn spec_reaches(pile_dist: u32, fruit_dist: u32, radius: u32) -> bool {
    let gap = if fruit_dist >= pile_dist { fruit_dist - pile_dist } else { pile_dist - fruit_dist };
    gap <= (radius + SPIKE_RADIUS) * 100
}

impl SpikePile {
    pub fn new(
        x: i32,
        y: i32,
        lane: usize,
        dist: u32,
        charges: u32,
        owner: u32,
        rot: u32,
        breaks_shield: bool,
    ) -> (p: SpikePile)
        ensures
            p == (SpikePile { x, y, lane, dist, charges, owner, rot, breaks_shield }),
    {
        SpikePile { x, y, lane, dist, charges, owner, rot, breaks_shield }
    }

    pub open spec fn spec_covers(self, lane: usize, fruit_dist: u32, radius: u32) -> bool {
        self.lane == lane && spec_reaches(self.dist, fruit_dist, radius)
    }

    /// Is a fruit on `lane` at `fruit_dist` with radius `radius` (pixels)
    /// standing on this pile? A fruit on any other lane never is.
    pub fn covers(&self, lane: usize, fruit_dist: u32, radius: u32) -> (c: bool)
        ensures
            c == self.spec_covers(lane, fruit_dist, radius),
    {
        let gap = if fruit_dist >= self.dist { fruit_dist - self.dist } else { self.dist - fruit_dist };
        self.lane == lane && (gap as u64) <= (radius as u64 + SPIKE_RADIUS as u64) * 100
    }

    pub fn spent(&self) -> (s: bool)
        ensures
            s == (self.charges == 0),
    {
        self.charges == 0
    }
}

} // verus!
