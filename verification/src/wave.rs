//! What each wave sends and how fast it sends it.
//!
//! A wave is a shuffled queue of fruit kinds drained on a timer. A new tier
//! unlocks every third wave; the freshly unlocked tier arrives in small
//! numbers while the tiers below bulk the wave out. Bosses are not part of
//! that ladder: they are placed on a schedule of their own.

use vstd::prelude::*;

use crate::chance::{random_below, RANDOM_BOUND_MAX};
use crate::fruit::FruitKind;
use crate::mode::Mode;

verus! {

broadcast use {vstd::seq_lib::group_to_multiset_ensures, vstd::multiset::group_multiset_axioms};

/// A new fruit tier unlocks every this many waves.
pub const WAVES_PER_TIER: u32 = 3;
/// Highest tier the unlock ladder reaches (the watermelon).
pub const MAX_TIER: u32 = 4;
/// The earliest wave a Durian can arrive on.
pub const FIRST_BOSS_WAVE: u32 = 15;
/// Boss waves land on this interval once they have started.
pub const BOSS_EVERY: u32 = 5;
/// How much faster fruit move each wave, in thousandths of the base speed, for
/// the difficulty the game is balanced around.
pub const TUNED_SPEED_RAMP: u32 = 35;
/// The ceiling on that ramp, in thousandths of the base speed.
pub const TUNED_MAX_SPEED: u32 = 1900;

pub open spec fn spec_boss_count(wave: u32, total_waves: u32) -> u32 {
    if wave < FIRST_BOSS_WAVE {
        0
    } else if !(wave % BOSS_EVERY == 0 || wave == total_waves) {
        0
    } else {
        (1 + (wave - FIRST_BOSS_WAVE) / (BOSS_EVERY as int)) as u32
    }
}

/// How many Durians `wave` sends on a route of `total_waves`: none before the
/// first boss wave, none between milestones, and otherwise one more for every
/// boss wave already survived. A route's final wave is always a boss wave once
/// the route is long enough to have any.
pub fn boss_count(wave: u32, total_waves: u32) -> (n: u32)
    ensures
        n == spec_boss_count(wave, total_waves),
{
    if wave < FIRST_BOSS_WAVE {
        return 0;
    }
    let milestone = wave % BOSS_EVERY == 0;
    let finale = wave == total_waves;
    if !(milestone || finale) {
        return 0;
    }
    1 + (wave - FIRST_BOSS_WAVE) / BOSS_EVERY
}

/// No boss arrives before the first boss wave, not even as a short route's
/// finale.
pub proof fn lemma_no_early_boss(wave: u32, total_waves: u32)
    requires
        wave < FIRST_BOSS_WAVE,
    ensures
        spec_boss_count(wave, total_waves) == 0,
{
}

/// A route's final wave always sends at least one boss, whatever its number,
/// once the route reaches the first boss wave.
pub proof fn lemma_finale_is_boss_wave(total_waves: u32)
    requires
        total_waves >= FIRST_BOSS_WAVE,
    ensures
        spec_boss_count(total_waves, total_waves) >= 1,
{
}

/// Bosses escalate by count: one at the first boss wave, one more at every
/// milestone after it, and a later boss wave never sends fewer.
pub proof fn lemma_bosses_escalate(w1: u32, w2: u32, total_waves: u32)
    requires
        w1 <= w2,
        spec_boss_count(w1, total_waves) > 0,
        spec_boss_count(w2, total_waves) > 0,
    ensures
        spec_boss_count(w1, total_waves) <= spec_boss_count(w2, total_waves),
        spec_boss_count(w1, total_waves) == 1 + (w1 - FIRST_BOSS_WAVE) / (BOSS_EVERY as int),
{
}

/// Every milestone from the first boss wave on is a boss wave, on a route of
/// any length: wave `FIRST_BOSS_WAVE + k * BOSS_EVERY` sends `k + 1` Durians,
/// one for itself and one for each boss wave before it.
pub proof fn lemma_every_milestone_is_a_boss_wave(k: u32, total_waves: u32)
    requires
        FIRST_BOSS_WAVE + k * BOSS_EVERY <= u32::MAX,
    ensures
        spec_boss_count((FIRST_BOSS_WAVE + k * BOSS_EVERY) as u32, total_waves) == k + 1,
{
    let w = FIRST_BOSS_WAVE + k * BOSS_EVERY;
    assert(w % 5 == 0) by (nonlinear_arith)
        requires
            w == 15 + k * 5,
    ;
    assert((w - 15) / 5 == k) by (nonlinear_arith)
        requires
            w == 15 + k * 5,
    ;
}

/// The waves between milestones are quiet, unless one is the route's finale.
pub proof fn lemma_quiet_between_milestones(wave: u32, total_waves: u32)
    requires
        wave % BOSS_EVERY != 0,
        wave != total_waves,
    ensures
        spec_boss_count(wave, total_waves) == 0,
{
}

/// The highest ladder tier `wave` reaches: a new one every third wave, topping
/// out at the watermelon.
pub open spec fn spec_top_tier(wave: u32) -> u32 {
    if wave == 0 {
        0
    } else if (wave - 1) / (WAVES_PER_TIER as int) > MAX_TIER {
        MAX_TIER
    } else {
        ((wave - 1) / (WAVES_PER_TIER as int)) as u32
    }
}

/// How many fruit of `tier` wave `wave` sends, when `top` is its highest tier.
///
/// The tier that has just unlocked arrives nearly flat in the wave number and
/// keeps growing once the ladder tops out; the tier below it is capped at 18
/// and every older tier at 8, so late waves get harder rather than longer.
pub open spec fn spec_tier_count(wave: u32, top: u32, tier: u32) -> u32 {
    let age = top - tier;
    let count = if age == 0 {
        3 + wave / 6 + (if wave > 20 { (wave - 20) / 3 } else { 0 })
    } else if age == 1 {
        if 5 + wave / 3 < 18 { 5 + wave / 3 } else { 18 }
    } else {
        if 3 + wave / 5 < 8 { 3 + wave / 5 } else { 8 }
    };
    if count < 1 { 1 } else { count as u32 }
}

/// Tiers `0..n` of wave `wave`'s fruit, each tier's run in turn.
pub open spec fn spec_mix_upto(wave: u32, n: nat) -> Seq<FruitKind>
    decreases n,
{
    if n == 0 {
        Seq::empty()
    } else {
        let tier = (n - 1) as u32;
        spec_mix_upto(wave, (n - 1) as nat) + Seq::new(
            spec_tier_count(wave, spec_top_tier(wave), tier) as nat,
            |i: int| FruitKind::spec_from_tier(tier as u8),
        )
    }
}

/// The ladder fruit wave `wave` sends, before they are shuffled and before
/// any boss joins them.
pub open spec fn spec_wave_mix(wave: u32) -> Seq<FruitKind> {
    spec_mix_upto(wave, (spec_top_tier(wave) + 1) as nat)
}

/// Everything wave `wave` of a `total_waves` route sends: the ladder fruit and
/// then its bosses, in no particular order.
pub open spec fn spec_wave_contents(wave: u32, total_waves: u32) -> Seq<FruitKind> {
    spec_wave_mix(wave) + Seq::new(
        spec_boss_count(wave, total_waves) as nat,
        |i: int| FruitKind::Durian,
    )
}

proof fn lemma_mix_upto_len(wave: u32, n: nat)
    requires
        n <= spec_top_tier(wave) + 1,
    ensures
        n <= spec_top_tier(wave) ==> spec_mix_upto(wave, n).len() <= 18 * n,
        n == spec_top_tier(wave) + 1 ==> spec_mix_upto(wave, n).len() <= 18 * (n - 1) + 3
            + wave / 2,
        forall|i: int|
            0 <= i < spec_mix_upto(wave, n).len() ==> {
                let k = #[trigger] spec_mix_upto(wave, n)[i];
                !k.spec_is_boss() && k.spec_tier() < n && k.spec_tier() <= spec_top_tier(wave)
            },
    decreases n,
{
    if n > 0 {
        lemma_mix_upto_len(wave, (n - 1) as nat);
        let tier = (n - 1) as u32;
        let c = spec_tier_count(wave, spec_top_tier(wave), tier);
        if tier < spec_top_tier(wave) {
            assert(c <= 18);
        } else {
            assert(c <= 3 + wave / 2);
        }
    }
}

/// A wave's ladder fruit are never empty, hold no boss, and reach exactly the
/// wave's top tier: blueberries alone for the first three waves, a new tier
/// every third wave after, topping out at the watermelon.
pub proof fn lemma_wave_mix(wave: u32)
    ensures
        spec_wave_mix(wave).len() >= 1,
        spec_wave_mix(wave).len() <= 75 + wave / 2,
        forall|i: int|
            0 <= i < spec_wave_mix(wave).len() ==> {
                let k = #[trigger] spec_wave_mix(wave)[i];
                !k.spec_is_boss() && k.spec_tier() <= spec_top_tier(wave)
            },
        spec_wave_mix(wave).contains(FruitKind::spec_from_tier(spec_top_tier(wave) as u8)),
{
    let top = spec_top_tier(wave);
    lemma_mix_upto_len(wave, (top + 1) as nat);
    let last = Seq::new(
        spec_tier_count(wave, top, top) as nat,
        |i: int| FruitKind::spec_from_tier(top as u8),
    );
    assert(spec_wave_mix(wave) == spec_mix_upto(wave, top as nat) + last);
    let idx = spec_mix_upto(wave, top as nat).len() as int;
    assert(spec_wave_mix(wave)[idx] == FruitKind::spec_from_tier(top as u8));
}

/// The highest ladder tier `wave` reaches.
pub fn top_tier(wave: u32) -> (t: u32)
    ensures
        t == spec_top_tier(wave),
        t <= MAX_TIER,
{
    if wave == 0 {
        0
    } else {
        let t = (wave - 1) / WAVES_PER_TIER;
        if t > MAX_TIER { MAX_TIER } else { t }
    }
}

/// How many fruit of `tier` wave `wave` sends when `top` is its highest tier.
pub fn tier_count(wave: u32, top: u32, tier: u32) -> (n: u32)
    requires
        tier <= top,
    ensures
        n == spec_tier_count(wave, top, tier),
        n >= 1,
{
    let age = top - tier;
    let count = if age == 0 {
        let late = if wave > 20 { (wave - 20) / 3 } else { 0 };
        3 + wave / 6 + late
    } else if age == 1 {
        if 5 + wave / 3 < 18 { 5 + wave / 3 } else { 18 }
    } else {
        if 3 + wave / 5 < 8 { 3 + wave / 5 } else { 8 }
    };
    if count < 1 { 1 } else { count }
}

/// The ladder fruit `wave` sends, tier by tier, lowest first: the part of a
/// wave that chance has no say in.
pub fn wave_mix(wave: u32) -> (mix: Vec<FruitKind>)
    ensures
        mix@ == spec_wave_mix(wave),
{
    let top = top_tier(wave);
    let mut mix: Vec<FruitKind> = Vec::new();
    let mut tier: u32 = 0;
    while tier <= top
        invariant
            top == spec_top_tier(wave),
            top <= MAX_TIER,
            tier <= top + 1,
            mix@ == spec_mix_upto(wave, tier as nat),
        decreases top + 1 - tier,
    {
        let count = tier_count(wave, top, tier);
        let kind = FruitKind::from_tier(tier as u8);
        let ghost before = mix@;
        let mut j: u32 = 0;
        while j < count
            invariant
                j <= count,
                count == spec_tier_count(wave, top, tier),
                kind == FruitKind::spec_from_tier(tier as u8),
                mix@ == before + Seq::new(j as nat, |i: int| kind),
            decreases count - j,
        {
            mix.push(kind);
            j = j + 1;
            assert(mix@ =~= before + Seq::new(j as nat, |i: int| kind));
        }
        assert(mix@ =~= spec_mix_upto(wave, (tier + 1) as nat));
        tier = tier + 1;
    }
    mix
}

/// Every index at which `q` holds a Durian lies in its first third.
pub open spec fn bosses_in_first_third(q: Seq<FruitKind>) -> bool {
    forall|i: int| 0 <= i < q.len() && #[trigger] q[i] == FruitKind::Durian ==> 3 * i <= q.len()
}

/// No boss anywhere in `q`.
pub open spec fn no_boss(q: Seq<FruitKind>) -> bool {
    forall|i: int| 0 <= i < q.len() ==> #[trigger] q[i] != FruitKind::Durian
}

proof fn lemma_boss_slot(f: int, c: int, k: int, target: int)
    requires
        0 <= k < c,
        3 * c <= f,
        target == f * (k + 1) / (3 * c),
    ensures
        3 * (if target >= k { target } else { k }) <= f,
{
    assert(3 * target <= f * (k + 1) / c) by (nonlinear_arith)
        requires
            target == f * (k + 1) / (3 * c),
            c > 0,
            f >= 0,
            k >= 0,
    ;
    assert(f * (k + 1) / c <= f) by (nonlinear_arith)
        requires
            c > 0,
            k + 1 <= c,
            f >= 0,
    ;
}

/// Where the boss numbered `k` (counting from 0) of `count` goes, in a queue
/// now `len` long that will finish `final_len` long: its share of the first
/// third of the finished queue, less the `k` bosses still to land below it,
/// and never past the end.
pub open spec fn boss_slot(final_len: int, count: int, k: int, len: int) -> int {
    let target = final_len * (k + 1) / (count * 3);
    let slot = if target >= k { target - k } else { 0 };
    if slot < len { slot } else { len }
}

/// `q` with the last `k` of `count` bosses slotted in, the highest numbered
/// first.
pub open spec fn spec_with_bosses(q: Seq<FruitKind>, count: int, final_len: int, k: int) -> Seq<
    FruitKind,
>
    decreases k,
{
    if k <= 0 {
        q
    } else {
        spec_with_bosses(
            q.insert(boss_slot(final_len, count, k - 1, q.len() as int), FruitKind::Durian),
            count,
            final_len,
            k - 1,
        )
    }
}

/// Slot `count` Durians into an already shuffled queue.
///
/// The queue is drained from the back, so a low index spawns late: the bosses
/// go into the first third of the vector, which puts them in the last third
/// of the spawn order. Positions are worked out against the length the queue
/// will finish at, and inserted from the last one backwards, each offset by
/// the inserts that will later land below it.
///
/// Nothing is lost or reordered but the bosses going in; and where the queue
/// held no boss and is at least twice as long as the number of bosses, every
/// boss ends up in the first third.
pub fn add_bosses(queue: &mut Vec<FruitKind>, count: u32)
    requires
        old(queue).len() + count <= usize::MAX,
    ensures
        final(queue)@ == spec_with_bosses(
            old(queue)@,
            count as int,
            old(queue).len() + count,
            count as int,
        ),
        final(queue).len() == old(queue).len() + count,
        final(queue)@.to_multiset() == (old(queue)@ + Seq::new(
            count as nat,
            |i: int| FruitKind::Durian,
        )).to_multiset(),
        no_boss(old(queue)@) && old(queue).len() >= 2 * count ==> bosses_in_first_third(
            final(queue)@,
        ),
{
    if count == 0 {
        assert(old(queue)@ + Seq::new(0, |i: int| FruitKind::Durian) =~= old(queue)@);
        return;
    }
    let ghost q0 = queue@;
    let ghost placed = no_boss(q0) && q0.len() >= 2 * count;
    let count = count as usize;
    let final_len = queue.len() + count;
    let mut k: usize = count;
    assert(q0 + Seq::new(0, |i: int| FruitKind::Durian) =~= q0);
    while k > 0
        invariant
            k <= count,
            final_len == q0.len() + count,
            spec_with_bosses(queue@, count as int, final_len as int, k as int) == spec_with_bosses(
                q0,
                count as int,
                final_len as int,
                count as int,
            ),
            queue.len() == q0.len() + (count - k),
            queue@.to_multiset() == (q0 + Seq::new(
                (count - k) as nat,
                |i: int| FruitKind::Durian,
            )).to_multiset(),
            placed ==> no_boss(q0) && q0.len() >= 2 * count,
            placed ==> forall|i: int|
                0 <= i < queue.len() && #[trigger] queue@[i] == FruitKind::Durian ==> 3 * (i + k)
                    <= final_len,
        decreases k,
    {
        k = k - 1;
        assert((final_len as u128) * (k as u128 + 1) <= (final_len as u128) * (count as u128))
            by (nonlinear_arith)
            requires
                k + 1 <= count,
        ;
        assert((final_len as u128) * (count as u128) <= 0xffff_ffff_ffff_ffff * 0xffff_ffff_ffff_ffff)
            by (nonlinear_arith)
            requires
                final_len <= 0xffff_ffff_ffff_ffff,
                count <= 0xffff_ffff_ffff_ffff,
        ;
        let target = (final_len as u128) * (k as u128 + 1) / (count as u128 * 3);
        assert(target <= final_len) by (nonlinear_arith)
            requires
                target == (final_len as u128) * (k as u128 + 1) / (count as u128 * 3),
                k + 1 <= count,
                count > 0,
        ;
        let slot = if target >= k as u128 { (target - k as u128) as usize } else { 0 };
        let at = if slot < queue.len() { slot } else { queue.len() };
        let ghost before = queue@;
        proof {
            assert(at == boss_slot(final_len as int, count as int, k as int, before.len() as int));
        }
        queue.insert(at, FruitKind::Durian);
        proof {
            let n = (count - k - 1) as nat;
            let d = Seq::new(n, |i: int| FruitKind::Durian);
            let d1 = Seq::new(n + 1, |i: int| FruitKind::Durian);
            assert(q0 + d1 =~= (q0 + d).push(FruitKind::Durian));
            if placed {
                lemma_boss_slot(final_len as int, count as int, k as int, target as int);
                assert forall|i: int|
                    0 <= i < queue.len() && #[trigger] queue@[i] == FruitKind::Durian implies 3 * (
                    i + k) <= final_len by {
                    if i < at {
                        assert(before[i] == FruitKind::Durian);
                    } else if i > at {
                        assert(before[i - 1] == FruitKind::Durian);
                    }
                }
            }
        }
    }
    proof {
        if placed {
            assert(bosses_in_first_third(queue@));
        }
    }
}

proof fn lemma_swap_keeps_multiset(s: Seq<FruitKind>, i: int, j: int)
    requires
        0 <= i < s.len(),
        0 <= j < s.len(),
    ensures
        s.update(i, s[j]).update(j, s[i]).to_multiset() == s.to_multiset(),
{
    broadcast use vstd::multiset::group_multiset_properties;

    let s1 = s.update(i, s[j]);
    assert(s1[j] == s[j]);
    let m = s.to_multiset();
    let m2 = m.insert(s[j]).remove(s[i]).insert(s[i]).remove(s[j]);
    assert(s1.update(j, s[i]).to_multiset() == m2);
    assert(m2 =~= m);
}

/// `q` after the Fisher-Yates swaps for the positions from the last down to
/// `k`: position `i` trades places with position `draws[i]`.
pub open spec fn spec_swept(q: Seq<FruitKind>, draws: Seq<usize>, k: int) -> Seq<FruitKind>
    decreases q.len() - k,
{
    if k < 0 || k >= q.len() {
        q
    } else {
        let s = spec_swept(q, draws, k + 1);
        let j = draws[k] as int;
        s.update(k, s[j]).update(j, s[k])
    }
}

/// The swaps for positions `k` and above read nothing of the draws below `k`.
proof fn lemma_swept_ignores_lower_draws(
    q: Seq<FruitKind>,
    draws: Seq<usize>,
    i: int,
    j: usize,
    k: int,
)
    requires
        0 <= i < k,
        draws.len() == q.len(),
    ensures
        spec_swept(q, draws.update(i, j), k) == spec_swept(q, draws, k),
    decreases q.len() - k,
{
    if k < q.len() {
        lemma_swept_ignores_lower_draws(q, draws, i, j, k + 1);
        assert(draws.update(i, j)[k] == draws[k]);
    }
}

/// Shuffle `queue` in place (Fisher-Yates on the global generator), so a wave
/// does not arrive sorted tier by tier: from the last position down to the
/// second, each position trades places with a position drawn at random at or
/// below it. Which draws came up is chance; whatever order comes out, it holds
/// exactly the fruit that went in.
pub fn shuffle(queue: &mut Vec<FruitKind>)
    requires
        old(queue).len() <= RANDOM_BOUND_MAX,
    ensures
        final(queue).len() == old(queue).len(),
        final(queue)@.to_multiset() == old(queue)@.to_multiset(),
        exists|draws: Seq<usize>|
            #![trigger spec_swept(old(queue)@, draws, 1)]
            draws.len() == old(queue).len() && (forall|k: int|
                1 <= k < draws.len() ==> #[trigger] draws[k] <= k) && final(queue)@ == spec_swept(
                old(queue)@,
                draws,
                1,
            ),
{
    let len = queue.len();
    let ghost start = queue@;
    let ghost mut draws: Seq<usize> = Seq::new(len as nat, |k: int| k as usize);
    let mut i: usize = len;
    while i > 1
        invariant
            i <= len,
            len >= 1 ==> i >= 1,
            len == queue.len(),
            len == start.len(),
            len <= RANDOM_BOUND_MAX,
            queue@.to_multiset() == start.to_multiset(),
            draws.len() == len,
            forall|k: int| 0 <= k < len ==> #[trigger] draws[k] <= k,
            queue@ == spec_swept(start, draws, i as int),
        decreases i,
    {
        i = i - 1;
        let j = random_below(i + 1);
        let a = queue[i];
        let b = queue[j];
        let ghost before = queue@;
        queue.set(i, b);
        queue.set(j, a);
        proof {
            lemma_swap_keeps_multiset(before, i as int, j as int);
            lemma_swept_ignores_lower_draws(start, draws, i as int, j, i + 1);
            draws = draws.update(i as int, j);
            assert(queue@ =~= before.update(i as int, before[j as int]).update(
                j as int,
                before[i as int],
            ));
        }
    }
    proof {
        if i == 0 {
            assert(spec_swept(start, draws, 1) == start);
            assert(spec_swept(start, draws, 0) == start);
        }
        assert(queue@ == spec_swept(start, draws, 1));
    }
}

proof fn lemma_multiset_elements(a: Seq<FruitKind>, b: Seq<FruitKind>, i: int)
    requires
        a.to_multiset() == b.to_multiset(),
        0 <= i < a.len(),
    ensures
        exists|j: int| 0 <= j < b.len() && b[j] == a[i],
{
    assert(a.contains(a[i]));
    assert(a.to_multiset().count(a[i]) > 0);
    assert(b.contains(a[i]));
}

/// A boss wave's ladder fruit outnumber its bosses at least two to one, which
/// is what leaves room to put every boss in the first third.
proof fn lemma_enough_room_for_bosses(wave: u32, total_waves: u32)
    ensures
        spec_wave_mix(wave).len() >= 2 * spec_boss_count(wave, total_waves),
        spec_wave_mix(wave).len() <= RANDOM_BOUND_MAX,
        spec_wave_mix(wave).len() + spec_boss_count(wave, total_waves) <= 0xffff_ffff,
{
    lemma_wave_mix(wave);
    let n = spec_boss_count(wave, total_waves);
    assert(n <= 1 + wave / 5);
    assert(75 + wave / 2 + 1 + wave / 5 <= 0xffff_ffff);
    if n > 0 {
        let top = spec_top_tier(wave);
        assert(top == 4);
        let c4 = spec_tier_count(wave, 4, 4);
        let c3 = spec_tier_count(wave, 4, 3);
        assert(c3 >= 10);
        let late: int = if wave > 20 { (wave - 20) / 3 } else { 0 };
        assert(c4 == 3 + wave / 6 + late);
        assert(spec_mix_upto(wave, 5) == spec_mix_upto(wave, 4) + Seq::new(
            c4 as nat,
            |i: int| FruitKind::spec_from_tier(4),
        ));
        assert(spec_mix_upto(wave, 4) == spec_mix_upto(wave, 3) + Seq::new(
            c3 as nat,
            |i: int| FruitKind::spec_from_tier(3),
        ));
        assert(spec_wave_mix(wave).len() >= c4 + c3);
        assert(2 * n <= 2 + 2 * ((wave - 15) / 5));
        if wave <= 20 {
            assert(2 * n <= 4);
        } else {
            assert(late >= (wave - 22) / 3);
            assert(13 + wave / 6 + late >= 2 + 2 * ((wave - 15) / 5));
        }
    }
}

proof fn lemma_count_repeated(k: FruitKind, n: nat)
    ensures
        Seq::new(n, |i: int| k).to_multiset().count(k) == n,
    decreases n,
{
    if n > 0 {
        lemma_count_repeated(k, (n - 1) as nat);
        assert(Seq::new(n, |i: int| k) =~= Seq::new((n - 1) as nat, |i: int| k).push(k));
    }
}

proof fn lemma_no_boss_count(s: Seq<FruitKind>)
    requires
        no_boss(s),
    ensures
        s.to_multiset().count(FruitKind::Durian) == 0,
{
    if s.to_multiset().count(FruitKind::Durian) > 0 {
        assert(s.contains(FruitKind::Durian));
    }
}

/// `q` is a queue wave `wave` of a `total_waves` route can send: the wave's
/// ladder fruit shuffled by some legal run of Fisher-Yates draws, with its
/// bosses slotted in after, every one of them in the first third.
pub open spec fn is_wave_queue(q: Seq<FruitKind>, wave: u32, total_waves: u32) -> bool {
    &&& q.to_multiset() == spec_wave_contents(wave, total_waves).to_multiset()
    &&& q.len() == spec_wave_contents(wave, total_waves).len()
    &&& bosses_in_first_third(q)
    &&& exists|draws: Seq<usize>|
        #![trigger spec_swept(spec_wave_mix(wave), draws, 1)]
        draws.len() == spec_wave_mix(wave).len() && (forall|k: int|
            1 <= k < draws.len() ==> #[trigger] draws[k] <= k) && q == spec_with_bosses(
            spec_swept(spec_wave_mix(wave), draws, 1),
            spec_boss_count(wave, total_waves) as int,
            spec_wave_mix(wave).len() + spec_boss_count(wave, total_waves),
            spec_boss_count(wave, total_waves) as int,
        )
}

/// The spawn queue for `wave` on a route of `total_waves`.
///
/// It holds exactly the wave's ladder fruit and its bosses, shuffled so the
/// tiers arrive interleaved; nothing above a watermelon is anything but one
/// of those bosses, no ladder fruit is above the wave's top tier, and every
/// boss sits in the first third of the queue, which the game drains from the
/// back, so bosses arrive once most of the wave is already walking.
pub fn build_wave(wave: u32, total_waves: u32) -> (queue: Vec<FruitKind>)
    ensures
        queue@.to_multiset() == spec_wave_contents(wave, total_waves).to_multiset(),
        queue.len() == spec_wave_contents(wave, total_waves).len(),
        queue.len() >= 1,
        forall|i: int|
            0 <= i < queue.len() ==> (#[trigger] queue@[i]).spec_is_boss()
                || queue@[i].spec_tier() <= spec_top_tier(wave),
        bosses_in_first_third(queue@),
        queue@.to_multiset().count(FruitKind::Durian) == spec_boss_count(wave, total_waves),
        is_wave_queue(queue@, wave, total_waves),
        exists|draws: Seq<usize>|
            #![trigger spec_swept(spec_wave_mix(wave), draws, 1)]
            draws.len() == spec_wave_mix(wave).len() && (forall|k: int|
                1 <= k < draws.len() ==> #[trigger] draws[k] <= k) && queue@ == spec_with_bosses(
                spec_swept(spec_wave_mix(wave), draws, 1),
                spec_boss_count(wave, total_waves) as int,
                spec_wave_mix(wave).len() + spec_boss_count(wave, total_waves),
                spec_boss_count(wave, total_waves) as int,
            ),
{
    let mut queue = wave_mix(wave);
    proof {
        lemma_wave_mix(wave);
    }
    let ghost mix = queue@;
    proof {
        lemma_enough_room_for_bosses(wave, total_waves);
    }
    shuffle(&mut queue);
    let ghost shuffled = queue@;
    let ghost draws = choose|draws: Seq<usize>|
        draws.len() == mix.len() && (forall|k: int| 1 <= k < draws.len() ==> #[trigger] draws[k] <= k)
            && shuffled == spec_swept(mix, draws, 1);
    proof {
        assert forall|i: int| 0 <= i < shuffled.len() implies #[trigger] shuffled[i]
            != FruitKind::Durian && shuffled[i].spec_tier() <= spec_top_tier(wave) by {
            lemma_multiset_elements(shuffled, mix, i);
        }
        assert(no_boss(shuffled));
    }
    let bosses = boss_count(wave, total_waves);
    proof {
        lemma_enough_room_for_bosses(wave, total_waves);
    }
    add_bosses(&mut queue, bosses);
    proof {
        let d = Seq::new(bosses as nat, |i: int| FruitKind::Durian);
        vstd::seq_lib::lemma_multiset_commutative(shuffled, d);
        vstd::seq_lib::lemma_multiset_commutative(mix, d);
        assert(queue@.to_multiset() == spec_wave_contents(wave, total_waves).to_multiset());
        lemma_count_repeated(FruitKind::Durian, bosses as nat);
        assert(no_boss(mix));
        lemma_no_boss_count(mix);
        assert forall|i: int| 0 <= i < queue.len() implies (#[trigger] queue@[i]).spec_is_boss()
            || queue@[i].spec_tier() <= spec_top_tier(wave) by {
            let c = spec_wave_contents(wave, total_waves);
            vstd::seq_lib::to_multiset_len(c);
            lemma_multiset_elements(queue@, c, i);
            let j = choose|j: int| 0 <= j < c.len() && c[j] == queue@[i];
            if j < mix.len() {
                assert(c[j] == mix[j]);
            }
        }
        assert(queue@ == spec_with_bosses(
            spec_swept(spec_wave_mix(wave), draws, 1),
            spec_boss_count(wave, total_waves) as int,
            spec_wave_mix(wave).len() + spec_boss_count(wave, total_waves),
            spec_boss_count(wave, total_waves) as int,
        ));
    }
    queue
}

/// Milliseconds between spawns during `wave`. Two slopes: the first tightens
/// quickly to 300ms by wave 28, the second keeps going, gently, to a 160ms
/// floor.
pub open spec fn spec_spawn_interval(wave: u32) -> int {
    let fast = 850 - 20 * wave;
    let slow = 440 - 5 * wave;
    let gentle = if slow > 160 { slow } else { 160 };
    if fast > gentle { fast } else { gentle }
}

pub fn spawn_interval(wave: u32) -> (ms: u32)
    ensures
        ms == spec_spawn_interval(wave),
{
    let w = wave as i64;
    let fast = 850 - 20 * w;
    let slow = 440 - 5 * w;
    let gentle = if slow > 160 { slow } else { 160 };
    let ms = if fast > gentle { fast } else { gentle };
    ms as u32
}

/// The spawn interval never drops below its 160ms floor, never rises from one
/// wave to the next, and opens at 850ms less one step.
pub proof fn lemma_spawn_interval(w1: u32, w2: u32)
    requires
        w1 <= w2,
    ensures
        spec_spawn_interval(w2) >= 160,
        spec_spawn_interval(w2) <= spec_spawn_interval(w1),
        spec_spawn_interval(0) == 850,
{
}

pub open spec fn spec_speed_multiplier(wave: u32, m: Mode) -> int {
    let ramped = 1000 + (if wave > 0 { wave - 1 } else { 0 }) * m.speed_ramp;
    if ramped < m.max_speed { ramped } else { m.max_speed as int }
}

/// Speed multiplier, in thousandths, for every fruit sent during `wave` at
/// difficulty `m`: the mode's ramp per wave since the first, capped at its
/// ceiling.
pub fn speed_multiplier(wave: u32, m: &Mode) -> (s: u32)
    ensures
        s == spec_speed_multiplier(wave, *m),
{
    let steps = if wave > 0 { wave - 1 } else { 0 };
    assert(steps as u64 * m.speed_ramp as u64 <= 0xffff_ffff * 0xffff_ffff) by (nonlinear_arith)
        requires
            steps <= 0xffff_ffff,
            m.speed_ramp <= 0xffff_ffff,
    ;
    let ramped = 1000u64 + steps as u64 * m.speed_ramp as u64;
    if ramped < m.max_speed as u64 {
        ramped as u32
    } else {
        m.max_speed
    }
}

/// The ramp opens at base speed, on wave zero as on wave one, only ever
/// climbs, and never passes the mode's ceiling.
pub proof fn lemma_speed_ramp(w1: u32, w2: u32, m: Mode)
    requires
        w1 <= w2,
        m.max_speed >= 1000,
    ensures
        spec_speed_multiplier(0, m) == 1000,
        spec_speed_multiplier(1, m) == 1000,
        spec_speed_multiplier(w1, m) <= spec_speed_multiplier(w2, m),
        spec_speed_multiplier(w2, m) <= m.max_speed,
{
    let a: int = if w1 > 0 { w1 - 1 } else { 0 };
    let b: int = if w2 > 0 { w2 - 1 } else { 0 };
    assert(a * m.speed_ramp <= b * m.speed_ramp) by (nonlinear_arith)
        requires
            0 <= a <= b,
            m.speed_ramp >= 0,
    ;
}

/// Cash awarded for clearing `wave`, on top of the per-fruit income.
pub fn clear_bonus(wave: u32) -> (bonus: u32)
    requires
        15 + 2 * wave <= u32::MAX,
    ensures
        bonus == 15 + 2 * wave,
{
    15 + wave * 2
}

} // verus!
