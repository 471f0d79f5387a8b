//! The rules behind each route's decorative backdrop: which theme it wears,
//! which props that theme scatters and how many, how much room each prop
//! needs, and the small local generator that lays them out the same way every
//! time. The colours and the placement itself belong to the drawing side.

use vstd::prelude::*;

verus! {

/// Keep props this far from a lane's centreline, in pixels.
pub const TRACK_CLEARANCE: u32 = 58;
/// Trees are big, so they stand further back.
pub const TREE_CLEARANCE: u32 = 72;
/// Ponds are bigger still.
pub const POND_CLEARANCE: u32 = 110;
/// Minimum gap between two props, in pixels.
pub const PROP_SEPARATION: u32 = 34;
/// Bottom of the HUD strip; prop artwork must not reach above it.
pub const HUD_BOTTOM: u32 = 56;
/// Margin kept clear at the field's edges.
pub const EDGE_MARGIN: u32 = 10;
/// Attempts per prop before giving up on finding a free spot.
pub const PLACEMENT_TRIES: u32 = 40;
/// Seed the layout generator starts from, plus the route's index.
pub const SCENERY_SEED: u64 = 0x5EED_0000;

/// What a single piece of scenery is.
#[derive(Clone, Copy, PartialEq, Eq, Structural, Debug)]
pub enum PropKind {
    Tree,
    Bush,
    Rock,
    Flowers,
    Crate,
    Fence,
    Pond,
}

impl PropKind {
    /// How far this prop must sit from every lane, in pixels.
    pub fn clearance(&self) -> (c: u32)
        ensures
            c == (match self {
                PropKind::Tree => TREE_CLEARANCE,
                PropKind::Pond => POND_CLEARANCE,
                _ => TRACK_CLEARANCE,
            }),
    {
        match self {
            PropKind::Tree => TREE_CLEARANCE,
            PropKind::Pond => POND_CLEARANCE,
            _ => TRACK_CLEARANCE,
        }
    }

    /// Roughly how much room this prop takes up, for spacing, in pixels.
    pub fn footprint(&self) -> (f: u32)
        ensures
            f == (match self {
                PropKind::Pond => 62u32,
                PropKind::Tree => 30,
                PropKind::Crate => 22,
                PropKind::Fence => 26,
                _ => 16,
            }),
    {
        match self {
            PropKind::Pond => 62,
            PropKind::Tree => 30,
            PropKind::Crate => 22,
            PropKind::Fence => 26,
            _ => 16,
        }
    }

    /// How far the prop's artwork reaches from its position at scale 1, as
    /// (sideways, upward, downward) pixels. A tree draws its canopy well above
    /// its base and a pond spreads far to either side.
    pub fn extent(&self) -> (e: (u32, u32, u32))
        ensures
            e == (match self {
                PropKind::Tree => (17u32, 36u32, 11u32),
                PropKind::Bush => (16, 14, 8),
                PropKind::Rock => (10, 12, 7),
                PropKind::Flowers => (11, 14, 6),
                PropKind::Crate => (13, 11, 11),
                PropKind::Fence => (16, 14, 9),
                PropKind::Pond => (49, 28, 28),
            }),
    {
        match self {
            PropKind::Tree => (17, 36, 11),
            PropKind::Bush => (16, 14, 8),
            PropKind::Rock => (10, 12, 7),
            PropKind::Flowers => (11, 14, 6),
            PropKind::Crate => (13, 11, 11),
            PropKind::Fence => (16, 14, 9),
            PropKind::Pond => (49, 28, 28),
        }
    }
}

/// Which backdrop a route wears.
#[derive(Clone, Copy, PartialEq, Eq, Structural, Debug)]
pub enum Theme {
    Orchard,
    Market,
    Farm,
    Grove,
    /// The two-entrance route: a cold upland.
    Highland,
    /// The long wandering route: open and bright.
    Meadow,
    /// The spiral: a walled flower garden, wound in and out again.
    Garden,
}

pub open spec fn spec_theme(track: usize) -> Theme {
    if track == 0 {
        Theme::Orchard
    } else if track == 1 {
        Theme::Market
    } else if track == 2 {
        Theme::Farm
    } else if track == 3 {
        Theme::Grove
    } else if track == 4 {
        Theme::Highland
    } else if track == 5 {
        Theme::Meadow
    } else if track == 6 {
        Theme::Garden
    } else {
        Theme::Grove
    }
}

/// Every route wears a theme of its own.
pub proof fn lemma_every_route_has_its_own_theme(i: usize, j: usize)
    requires
        i < j < crate::tracks::TRACK_COUNT,
    ensures
        spec_theme(i) != spec_theme(j),
{
}

/// The theme for a route. Every route wears its own; anything past the known
/// routes falls back to the grove.
pub fn theme(track: usize) -> (t: Theme)
    ensures
        t == spec_theme(track),
{
    if track == 0 {
        Theme::Orchard
    } else if track == 1 {
        Theme::Market
    } else if track == 2 {
        Theme::Farm
    } else if track == 3 {
        Theme::Grove
    } else if track == 4 {
        Theme::Highland
    } else if track == 5 {
        Theme::Meadow
    } else if track == 6 {
        Theme::Garden
    } else {
        Theme::Grove
    }
}

pub open spec fn spec_prop_mix(theme: Theme) -> (Seq<PropKind>, usize) {
    match theme {
        Theme::Orchard => (
            seq![
                PropKind::Tree,
                PropKind::Tree,
                PropKind::Tree,
                PropKind::Bush,
                PropKind::Flowers,
                PropKind::Rock,
            ],
            46,
        ),
        Theme::Market => (
            seq![
                PropKind::Crate,
                PropKind::Crate,
                PropKind::Fence,
                PropKind::Rock,
                PropKind::Bush,
                PropKind::Tree,
            ],
            42,
        ),
        Theme::Farm => (
            seq![
                PropKind::Tree,
                PropKind::Tree,
                PropKind::Bush,
                PropKind::Flowers,
                PropKind::Flowers,
                PropKind::Pond,
                PropKind::Fence,
            ],
            52,
        ),
        Theme::Grove => (
            seq![
                PropKind::Tree,
                PropKind::Tree,
                PropKind::Tree,
                PropKind::Tree,
                PropKind::Bush,
                PropKind::Bush,
                PropKind::Rock,
            ],
            62,
        ),
        Theme::Meadow => (
            seq![
                PropKind::Flowers,
                PropKind::Flowers,
                PropKind::Bush,
                PropKind::Tree,
                PropKind::Tree,
                PropKind::Pond,
                PropKind::Rock,
            ],
            48,
        ),
        Theme::Highland => (
            seq![
                PropKind::Rock,
                PropKind::Rock,
                PropKind::Rock,
                PropKind::Bush,
                PropKind::Bush,
                PropKind::Tree,
                PropKind::Flowers,
            ],
            34,
        ),
        Theme::Garden => (
            seq![
                PropKind::Flowers,
                PropKind::Flowers,
                PropKind::Flowers,
                PropKind::Bush,
                PropKind::Bush,
                PropKind::Tree,
                PropKind::Pond,
            ],
            44,
        ),
    }
}

/// The prop mix for a theme, as a weighted bag to draw from, plus how many
/// props to scatter.
pub fn prop_mix(theme: Theme) -> (mix: (Vec<PropKind>, usize))
    ensures
        mix.0@ == spec_prop_mix(theme).0,
        mix.1 == spec_prop_mix(theme).1,
        mix.0.len() > 0,
{
    let (bag, count) = match theme {
        Theme::Orchard => (
            vec![
                PropKind::Tree,
                PropKind::Tree,
                PropKind::Tree,
                PropKind::Bush,
                PropKind::Flowers,
                PropKind::Rock,
            ],
            46,
        ),
        Theme::Market => (
            vec![
                PropKind::Crate,
                PropKind::Crate,
                PropKind::Fence,
                PropKind::Rock,
                PropKind::Bush,
                PropKind::Tree,
            ],
            42,
        ),
        Theme::Farm => (
            vec![
                PropKind::Tree,
                PropKind::Tree,
                PropKind::Bush,
                PropKind::Flowers,
                PropKind::Flowers,
                PropKind::Pond,
                PropKind::Fence,
            ],
            52,
        ),
        Theme::Grove => (
            vec![
                PropKind::Tree,
                PropKind::Tree,
                PropKind::Tree,
                PropKind::Tree,
                PropKind::Bush,
                PropKind::Bush,
                PropKind::Rock,
            ],
            62,
        ),
        Theme::Meadow => (
            vec![
                PropKind::Flowers,
                PropKind::Flowers,
                PropKind::Bush,
                PropKind::Tree,
                PropKind::Tree,
                PropKind::Pond,
                PropKind::Rock,
            ],
            48,
        ),
        Theme::Highland => (
            vec![
                PropKind::Rock,
                PropKind::Rock,
                PropKind::Rock,
                PropKind::Bush,
                PropKind::Bush,
                PropKind::Tree,
                PropKind::Flowers,
            ],
            34,
        ),
        Theme::Garden => (
            vec![
                PropKind::Flowers,
                PropKind::Flowers,
                PropKind::Flowers,
                PropKind::Bush,
                PropKind::Bush,
                PropKind::Tree,
                PropKind::Pond,
            ],
            44,
        ),
    };
    assert(bag@ =~= spec_prop_mix(theme).0);
    (bag, count)
}

/// One xorshift step.
pub open spec fn spec_xorshift(x: u64) -> u64 {
    let a = x ^ (x << 13u64);
    let b = a ^ (a >> 7u64);
    b ^ (b << 17u64)
}

/// A small xorshift generator, kept local so the scenery can be laid out the
/// same way every time without disturbing the global generator that decides
/// the fruit order.
#[derive(Clone, Copy, Debug)]
pub struct Rng {
    pub state: u64,
}

impl Rng {
    /// A generator seeded from `seed`, forced odd so it never starts at zero.
    pub fn new(seed: u64) -> (r: Rng)
        ensures
            r.state == seed | 1,
            r.state != 0,
    {
        assert((seed | 1) != 0) by (bit_vector);
        Rng { state: seed | 1 }
    }

    /// The next 64 bits: one xorshift step, which is also the new state.
    pub fn next(&mut self) -> (x: u64)
        ensures
            x == spec_xorshift(old(self).state),
            final(self).state == x,
    {
        let mut x = self.state;
        x = x ^ (x << 13u64);
        x = x ^ (x >> 7u64);
        x = x ^ (x << 17u64);
        self.state = x;
        x
    }

    /// A draw below `n` (below 1 when `n` is 0), from the top bits of the next
    /// step.
    pub fn below(&mut self, n: u32) -> (r: u32)
        ensures
            final(self).state == spec_xorshift(old(self).state),
            r == ((spec_xorshift(old(self).state) >> 33u64) as u32) % (if n > 0 { n } else { 1 }),
            r < (if n > 0 { n } else { 1 }),
    {
        let x = self.next();
        let bound = if n > 0 { n } else { 1 };
        ((x >> 33u64) as u32) % bound
    }

    /// The top 24 bits of the next step: a fraction of 2^24, for the uniform
    /// draws in [0, 1) the layout is made of.
    pub fn unit_bits(&mut self) -> (r: u32)
        ensures
            final(self).state == spec_xorshift(old(self).state),
            r == (spec_xorshift(old(self).state) >> 40u64) as u32,
            r < 0x100_0000,
    {
        let x = self.next();
        assert((x >> 40u64) < 0x100_0000) by (bit_vector);
        (x >> 40u64) as u32
    }
}

/// The generator never stalls: a state that is not zero never steps to zero,
/// so a seeded generator keeps producing new values forever.
pub proof fn lemma_xorshift_never_stalls(x: u64)
    requires
        x != 0,
    ensures
        spec_xorshift(x) != 0,
{
    let a = x ^ (x << 13u64);
    let b = a ^ (a >> 7u64);
    assert(x != 0 ==> (x ^ (x << 13u64)) != 0) by (bit_vector);
    assert(a != 0 ==> (a ^ (a >> 7u64)) != 0) by (bit_vector);
    assert(b != 0 ==> (b ^ (b << 17u64)) != 0) by (bit_vector);
}

} // verus!
