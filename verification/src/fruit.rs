//! The fruit: the split ladder, the boss, and a fruit's state on the track.
//!
//! Popping a fruit splits it into two of the next tier down, so a watermelon
//! hides a tree of 31 pops. The Durian breaks both rules of the ladder: it
//! carries 60 points of armour and bursts into four whole watermelons.

use vstd::prelude::*;

verus! {

/// Hundredths of a pixel per pixel: the unit of distance along a lane.
pub const TRACK_UNITS_PER_PX: u32 = 100;

/// Base walking speed of a fruit, in pixels per second, before its kind's
/// scale, the wave's ramp and any chill are applied.
pub const FRUIT_BASE_SPEED: u32 = 115;

/// The six fruit, smallest first. The first five are the split ladder; the
/// Durian is the boss and sits a tier above it.
#[derive(Clone, Copy, PartialEq, Eq, Structural, Debug)]
pub enum FruitKind {
    Blueberry,
    Strawberry,
    Lime,
    Orange,
    Watermelon,
    Durian,
}

impl FruitKind {
    pub open spec fn spec_tier(self) -> u8 {
        match self {
            FruitKind::Blueberry => 0,
            FruitKind::Strawberry => 1,
            FruitKind::Lime => 2,
            FruitKind::Orange => 3,
            FruitKind::Watermelon => 4,
            FruitKind::Durian => 5,
        }
    }

    /// Position on the ladder: 0 for a blueberry up to 4 for a watermelon, and
    /// 5 for the Durian.
    pub fn tier(&self) -> (t: u8)
        ensures
            t == self.spec_tier(),
    {
        match self {
            FruitKind::Blueberry => 0,
            FruitKind::Strawberry => 1,
            FruitKind::Lime => 2,
            FruitKind::Orange => 3,
            FruitKind::Watermelon => 4,
            FruitKind::Durian => 5,
        }
    }

    /// The ladder fruit at `tier`. Tiers above the watermelon stay on the
    /// watermelon: a boss is placed by the wave schedule, never drifted into.
    pub open spec fn spec_from_tier(tier: u8) -> FruitKind {
        if tier == 0 {
            FruitKind::Blueberry
        } else if tier == 1 {
            FruitKind::Strawberry
        } else if tier == 2 {
            FruitKind::Lime
        } else if tier == 3 {
            FruitKind::Orange
        } else {
            FruitKind::Watermelon
        }
    }

    pub fn from_tier(tier: u8) -> (k: FruitKind)
        ensures
            k == FruitKind::spec_from_tier(tier),
    {
        if tier == 0 {
            FruitKind::Blueberry
        } else if tier == 1 {
            FruitKind::Strawberry
        } else if tier == 2 {
            FruitKind::Lime
        } else if tier == 3 {
            FruitKind::Orange
        } else {
            FruitKind::Watermelon
        }
    }

    pub open spec fn spec_armour(self) -> u32 {
        if self == FruitKind::Durian { 60 } else { 1 }
    }

    /// Hits needed to burst it: one for every ladder fruit, sixty for the boss.
    pub fn armour(&self) -> (a: u32)
        ensures
            a == self.spec_armour(),
    {
        match self {
            FruitKind::Durian => 60,
            _ => 1,
        }
    }

    pub open spec fn spec_child(self) -> Option<FruitKind> {
        match self {
            FruitKind::Blueberry => None,
            FruitKind::Strawberry => Some(FruitKind::Blueberry),
            FruitKind::Lime => Some(FruitKind::Strawberry),
            FruitKind::Orange => Some(FruitKind::Lime),
            FruitKind::Watermelon => Some(FruitKind::Orange),
            FruitKind::Durian => Some(FruitKind::Watermelon),
        }
    }

    /// What a burst leaves behind: the tier below, or watermelons for the
    /// boss. A blueberry leaves nothing.
    pub fn child(&self) -> (c: Option<FruitKind>)
        ensures
            c == self.spec_child(),
    {
        match self {
            FruitKind::Blueberry => None,
            FruitKind::Strawberry => Some(FruitKind::Blueberry),
            FruitKind::Lime => Some(FruitKind::Strawberry),
            FruitKind::Orange => Some(FruitKind::Lime),
            FruitKind::Watermelon => Some(FruitKind::Orange),
            FruitKind::Durian => Some(FruitKind::Watermelon),
        }
    }

    pub open spec fn spec_split_count(self) -> u32 {
        match self {
            FruitKind::Blueberry => 0,
            FruitKind::Durian => 4,
            _ => 2,
        }
    }

    /// How many children a burst produces: two, four for the boss, none for a
    /// blueberry.
    pub fn split_count(&self) -> (n: u32)
        ensures
            n == self.spec_split_count(),
    {
        match self {
            FruitKind::Blueberry => 0,
            FruitKind::Durian => 4,
            _ => 2,
        }
    }

    pub open spec fn spec_leak_cost(self) -> u32 {
        (self.spec_tier() + 1) as u32
    }

    /// Lives lost when this fruit reaches the exit: one more than its tier, so
    /// one for a blueberry, five for a watermelon and six for a Durian.
    pub fn leak_cost(&self) -> (c: u32)
        ensures
            c == self.spec_leak_cost(),
    {
        self.tier() as u32 + 1
    }

    pub open spec fn spec_is_boss(self) -> bool {
        self == FruitKind::Durian
    }

    pub fn is_boss(&self) -> (b: bool)
        ensures
            b == self.spec_is_boss(),
    {
        match self {
            FruitKind::Durian => true,
            _ => false,
        }
    }

    pub open spec fn spec_radius(self) -> u32 {
        match self {
            FruitKind::Blueberry => 11,
            FruitKind::Strawberry => 15,
            FruitKind::Lime => 19,
            FruitKind::Orange => 24,
            FruitKind::Watermelon => 30,
            FruitKind::Durian => 42,
        }
    }

    /// Collision and drawing radius, in pixels.
    pub fn radius(&self) -> (r: u32)
        ensures
            r == self.spec_radius(),
    {
        match self {
            FruitKind::Blueberry => 11,
            FruitKind::Strawberry => 15,
            FruitKind::Lime => 19,
            FruitKind::Orange => 24,
            FruitKind::Watermelon => 30,
            FruitKind::Durian => 42,
        }
    }

    pub open spec fn spec_speed_scale(self) -> u32 {
        match self {
            FruitKind::Blueberry => 138,
            FruitKind::Strawberry => 112,
            FruitKind::Lime => 100,
            FruitKind::Orange => 88,
            FruitKind::Watermelon => 72,
            FruitKind::Durian => 55,
        }
    }

    /// This kind's share of the base speed, in percent. Smaller fruit move
    /// faster; the boss lumbers.
    pub fn speed_scale(&self) -> (s: u32)
        ensures
            s == self.spec_speed_scale(),
    {
        match self {
            FruitKind::Blueberry => 138,
            FruitKind::Strawberry => 112,
            FruitKind::Lime => 100,
            FruitKind::Orange => 88,
            FruitKind::Watermelon => 72,
            FruitKind::Durian => 55,
        }
    }
}


/// `x` for each child a burst of `k` leaves behind.
pub open spec fn times_split(k: FruitKind, x: nat) -> nat {
    match k {
        FruitKind::Blueberry => 0,
        FruitKind::Durian => 4 * x,
        _ => 2 * x,
    }
}

/// Hits needed to clear `k` and everything it splits into.
pub open spec fn clear_hits(k: FruitKind) -> nat
    decreases k.spec_tier(),
{
    match k.spec_child() {
        None => k.spec_armour() as nat,
        Some(c) => {
            if c.spec_tier() < k.spec_tier() {
                k.spec_armour() as nat + times_split(k, clear_hits(c))
            } else {
                0
            }
        },
    }
}

/// Fruit at the bottom of the ladder in `k`'s subtree: the ones that pay out.
pub open spec fn clear_payout(k: FruitKind) -> nat
    decreases k.spec_tier(),
{
    match k.spec_child() {
        None => 1,
        Some(c) => {
            if c.spec_tier() < k.spec_tier() {
                times_split(k, clear_payout(c))
            } else {
                0
            }
        },
    }
}

/// Clearing a watermelon takes 31 pops; a Durian takes its 60 points of armour
/// plus 124 for the four watermelons inside. Each ladder fruit hides twice the
/// pops of the one below, plus one.
pub proof fn lemma_clear_hits()
    ensures
        clear_hits(FruitKind::Blueberry) == 1,
        clear_hits(FruitKind::Strawberry) == 3,
        clear_hits(FruitKind::Lime) == 7,
        clear_hits(FruitKind::Orange) == 15,
        clear_hits(FruitKind::Watermelon) == 31,
        clear_hits(FruitKind::Durian) == 60 + 124,
{
    reveal_with_fuel(clear_hits, 7);
    assert(clear_hits(FruitKind::Blueberry) == 1);
    assert(clear_hits(FruitKind::Strawberry) == 3);
    assert(clear_hits(FruitKind::Lime) == 7);
    assert(clear_hits(FruitKind::Orange) == 15);
    assert(clear_hits(FruitKind::Watermelon) == 31);
}

/// Income follows the payload, not the armour: a ladder fruit pays one per
/// blueberry hidden in it (1, 2, 4, 8, 16), and a Durian is worth four
/// watermelons at the till.
pub proof fn lemma_clear_payout()
    ensures
        clear_payout(FruitKind::Blueberry) == 1,
        clear_payout(FruitKind::Strawberry) == 2,
        clear_payout(FruitKind::Lime) == 4,
        clear_payout(FruitKind::Orange) == 8,
        clear_payout(FruitKind::Watermelon) == 16,
        clear_payout(FruitKind::Durian) == 4 * clear_payout(FruitKind::Watermelon),
{
    reveal_with_fuel(clear_payout, 7);
    assert(clear_payout(FruitKind::Blueberry) == 1);
    assert(clear_payout(FruitKind::Strawberry) == 2);
    assert(clear_payout(FruitKind::Lime) == 4);
    assert(clear_payout(FruitKind::Orange) == 8);
    assert(clear_payout(FruitKind::Watermelon) == 16);
}

/// Every step down the ladder is one tier, every ladder fruit has a single
/// point of armour and splits in two, and a leak costs one life per tier plus
/// one.
pub proof fn lemma_split_ladder(k: FruitKind)
    ensures
        k.spec_tier() <= 5,
        FruitKind::spec_from_tier(k.spec_tier()) == k <==> !k.spec_is_boss(),
        !k.spec_is_boss() ==> k.spec_armour() == 1,
        k != FruitKind::Blueberry && !k.spec_is_boss() ==> k.spec_split_count() == 2
            && k.spec_child() == Some(FruitKind::spec_from_tier((k.spec_tier() - 1) as u8)),
        k.spec_is_boss() ==> k.spec_split_count() == 4 && k.spec_child() == Some(
            FruitKind::Watermelon,
        ),
        k == FruitKind::Blueberry <==> k.spec_child() is None,
        k.spec_leak_cost() == k.spec_tier() + 1,
{
}


/// A fruit walking a lane.
///
/// `dist` is how far along its lane it has walked, in hundredths of a pixel;
/// the lane itself, and so the fruit's place on screen, belongs to the route.
/// `ramp` is the wave's speed multiplier in thousandths, carried from the wave
/// the fruit was sent in and handed on to its children. While `chill_left_us`
/// is above zero the fruit walks at `chill` percent of its speed.
#[derive(Clone, Copy, Debug)]
pub struct Fruit {
    pub kind: FruitKind,
    pub lane: usize,
    pub dist: u32,
    pub hp: u32,
    pub shielded: bool,
    pub ramp: u32,
    pub chill: u32,
    pub chill_left_us: u64,
}

/// `f` with one hit landed: a shielded fruit turns away a hit that cannot get
/// through it, and a burst fruit takes no more damage.
pub open spec fn spec_hit(f: Fruit, breaks_shield: bool) -> Fruit {
    if (f.shielded && !breaks_shield) || f.hp == 0 {
        f
    } else {
        Fruit { hp: (f.hp - 1) as u32, ..f }
    }
}

/// `f` after a Freezer pulse of `factor` percent for `duration_ms`: the
/// stronger of the two slows (an expired chill counts for nothing) and the
/// longer of the two times left.
pub open spec fn spec_chilled(f: Fruit, factor: u32, duration_ms: u32) -> Fruit {
    Fruit {
        chill: if f.chill_left_us == 0 || factor < f.chill {
            factor
        } else {
            f.chill
        },
        chill_left_us: if f.chill_left_us < duration_ms * 1000 {
            (duration_ms * 1000) as u64
        } else {
            f.chill_left_us
        },
        ..f
    }
}

/// `f` after walking `elapsed_us` microseconds at its current speed (stopping
/// at the end of the range a distance can hold), with that much of any chill
/// run out; a spent chill goes back to full speed.
pub open spec fn spec_advanced(f: Fruit, elapsed_us: u32) -> Fruit {
    Fruit {
        dist: vstd::math::min(f.dist + f.spec_speed() * elapsed_us / 1_000_000, u32::MAX as int) as u32,
        chill_left_us: if f.chill_left_us > elapsed_us {
            (f.chill_left_us - elapsed_us) as u64
        } else {
            0
        },
        chill: if f.chill_left_us > elapsed_us {
            f.chill
        } else {
            100
        },
        ..f
    }
}

/// Overlapping Freezer pulses stack to the strongest slow and the longest
/// time left, in whichever order they land.
pub proof fn lemma_chills_stack_in_any_order(f: Fruit, a: u32, da: u32, b: u32, db: u32)
    requires
        da > 0,
        db > 0,
    ensures
        spec_chilled(spec_chilled(f, a, da), b, db) == spec_chilled(spec_chilled(f, b, db), a, da),
        ({
            let g = spec_chilled(spec_chilled(f, a, da), b, db);
            &&& g.chill == (if f.chill_left_us == 0 {
                vstd::math::min(a as int, b as int)
            } else {
                vstd::math::min(f.chill as int, vstd::math::min(a as int, b as int))
            })
            &&& g.chill_left_us == vstd::math::max(
                f.chill_left_us as int,
                vstd::math::max(da * 1000, db * 1000),
            )
        }),
{
}

/// Whether that hit is the one that bursts it.
pub open spec fn spec_hit_bursts(f: Fruit, breaks_shield: bool) -> bool {
    !(f.shielded && !breaks_shield) && f.hp == 1
}

impl Fruit {
    /// A fresh fruit of `kind` on `lane`, `dist` along it, at full armour,
    /// unshielded and unchilled, carrying the wave's speed ramp.
    pub fn new(kind: FruitKind, lane: usize, dist: u32, ramp: u32) -> (f: Fruit)
        ensures
            f.kind == kind,
            f.lane == lane,
            f.dist == dist,
            f.hp == kind.spec_armour(),
            !f.shielded,
            f.ramp == ramp,
            f.chill == 100,
            f.chill_left_us == 0,
    {
        Fruit {
            kind,
            lane,
            dist,
            hp: kind.armour(),
            shielded: false,
            ramp,
            chill: 100,
            chill_left_us: 0,
        }
    }

    /// The same fruit behind a shield.
    pub fn with_shield(self) -> (f: Fruit)
        ensures
            f == (Fruit { shielded: true, ..self }),
    {
        Fruit { shielded: true, ..self }
    }

    /// Land one hit. Returns true when that hit bursts the fruit, which is
    /// reported only once: a burst fruit has no armour left to lose.
    pub fn take_hit(&mut self, breaks_shield: bool) -> (burst: bool)
        ensures
            *final(self) == spec_hit(*old(self), breaks_shield),
            burst == spec_hit_bursts(*old(self), breaks_shield),
    {
        if self.shielded && !breaks_shield {
            return false;
        }
        if self.hp == 0 {
            return false;
        }
        self.hp = self.hp - 1;
        self.hp == 0
    }

    pub open spec fn spec_speed(self) -> int {
        let chill = if self.chill_left_us > 0 { self.chill as int } else { 100 };
        (FRUIT_BASE_SPEED * self.kind.spec_speed_scale() * self.ramp * chill) / 100_000
    }

    /// Walking speed in hundredths of a pixel per second: the base speed
    /// scaled by the kind, the wave's ramp and any chill.
    pub fn speed(&self) -> (s: u64)
        ensures
            s == self.spec_speed(),
    {
        let chill: u128 = if self.chill_left_us > 0 { self.chill as u128 } else { 100 };
        let scale = self.kind.speed_scale() as u128;
        let ramp = self.ramp as u128;
        let base = FRUIT_BASE_SPEED as u128;
        assert(scale <= 138);
        let bs = base * scale;
        assert(bs * ramp <= 115 * 138 * 0xffff_ffff) by (nonlinear_arith)
            requires
                bs <= 115 * 138,
                ramp <= 0xffff_ffff,
        ;
        let bsr = bs * ramp;
        assert(bsr * chill <= 115 * 138 * 0xffff_ffff * 0xffff_ffff) by (nonlinear_arith)
            requires
                bsr <= 115 * 138 * 0xffff_ffff,
                chill <= 0xffff_ffff,
        ;
        let s = (bsr * chill) / 100_000;
        assert(s <= 0xffff_ffff_ffff_ffff);
        s as u64
    }

    /// Apply a Freezer's pulse. Overlapping chills stack by keeping the
    /// strongest slow and the longest time left; an expired chill is simply
    /// replaced.
    pub fn chill(&mut self, factor: u32, duration_ms: u32)
        ensures
            *final(self) == spec_chilled(*old(self), factor, duration_ms),
    {
        if self.chill_left_us == 0 || factor < self.chill {
            self.chill = factor;
        }
        let duration_us = duration_ms as u64 * 1000;
        if self.chill_left_us < duration_us {
            self.chill_left_us = duration_us;
        }
    }

    /// Walk for `elapsed_us` microseconds at the current speed, then let that
    /// much of any chill run out. A spent chill goes back to full speed.
    pub fn advance(&mut self, elapsed_us: u32)
        ensures
            *final(self) == spec_advanced(*old(self), elapsed_us),
    {
        let speed = self.speed() as u128;
        assert(speed * (elapsed_us as u128) <= 0xffff_ffff_ffff_ffff * 0xffff_ffff) by (nonlinear_arith)
            requires
                speed <= 0xffff_ffff_ffff_ffff,
                elapsed_us <= 0xffff_ffff,
        ;
        let moved = speed * (elapsed_us as u128) / 1_000_000;
        let total = self.dist as u128 + moved;
        self.dist = if total > u32::MAX as u128 { u32::MAX } else { total as u32 };
        if self.chill_left_us > elapsed_us as u64 {
            self.chill_left_us = self.chill_left_us - elapsed_us as u64;
        } else {
            self.chill_left_us = 0;
            self.chill = 100;
        }
    }

    /// Whether the fruit has walked the whole of a lane `lane_length` long.
    pub fn reached_end(&self, lane_length: u32) -> (r: bool)
        ensures
            r == (self.dist >= lane_length),
    {
        self.dist >= lane_length
    }

    /// How far along its lane the fruit is, in millionths of the lane. Lanes
    /// differ in length, so this rather than raw distance says which fruit is
    /// nearer its exit.
    pub fn progress(&self, lane_length: u32) -> (p: u64)
        requires
            lane_length > 0,
        ensures
            p == self.dist * 1_000_000 / (lane_length as int),
    {
        (self.dist as u64 * 1_000_000) / lane_length as u64
    }

    pub open spec fn spec_children(self) -> Seq<Fruit> {
        match self.kind.spec_child() {
            None => Seq::empty(),
            Some(c) => Seq::new(
                self.kind.spec_split_count() as nat,
                |i: int|
                    Fruit {
                        kind: c,
                        lane: self.lane,
                        dist: self.dist,
                        hp: c.spec_armour(),
                        shielded: false,
                        ramp: self.ramp,
                        chill: 100,
                        chill_left_us: 0,
                    },
            ),
        }
    }

    /// What a burst leaves behind: the children, fresh and unshielded, on the
    /// same lane at the same point, carrying the parent's speed ramp.
    pub fn split(&self) -> (children: Vec<Fruit>)
        ensures
            children@ == self.spec_children(),
    {
        let mut children: Vec<Fruit> = Vec::new();
        match self.kind.child() {
            None => {},
            Some(c) => {
                let n = self.kind.split_count();
                let mut i: u32 = 0;
                while i < n
                    invariant
                        i <= n,
                        n == self.kind.spec_split_count(),
                        self.kind.spec_child() == Some(c),
                        children@ == self.spec_children().take(i as int),
                    decreases n - i,
                {
                    children.push(Fruit::new(c, self.lane, self.dist, self.ramp));
                    i = i + 1;
                }
            },
        }
        children
    }
}

} // verus!
