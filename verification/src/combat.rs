//! How hits are aimed and how they land: volleys, the Bomb Lobber's choice of
//! crowd, damage against armour and shields, and fruit walking over spikes.

use vstd::prelude::*;

use crate::fruit::{spec_hit, spec_hit_bursts, Fruit};
use crate::tower::{SpikePile, SPIKE_SPACING};

verus! {

/// One landed hit: which fruit, the id of the tower to credit, and whether it
/// gets through a shield.
pub type Hit = (usize, u32, bool);

/// Which fruit each shot of a volley goes to, as indices into the in-range
/// list ordered by threat.
///
/// The whole volley is always fired: with fewer fruit in range than shots,
/// the extra shots come back round to the front. Nothing in range fires
/// nothing.
pub fn volley_targets(shots: usize, available: usize) -> (targets: Vec<usize>)
    ensures
        available == 0 ==> targets.len() == 0,
        available > 0 ==> targets.len() == shots,
        available > 0 ==> forall|k: int|
            0 <= k < shots ==> #[trigger] targets@[k] == k % (available as int),
{
    let mut targets: Vec<usize> = Vec::new();
    if available == 0 {
        return targets;
    }
    let mut k: usize = 0;
    while k < shots
        invariant
            available > 0,
            k <= shots,
            targets.len() == k,
            forall|j: int| 0 <= j < k ==> #[trigger] targets@[j] == j % (available as int),
        decreases shots - k,
    {
        targets.push(k % available);
        k = k + 1;
    }
    targets
}

/// Whether entry `a` goes before entry `b` when entries are ranked by `keys`,
/// the largest first: a larger key first, and between equal keys the one that
/// came first.
pub open spec fn ranks_before(keys: Seq<u64>, a: int, b: int) -> bool {
    keys[a] > keys[b] || (keys[a] == keys[b] && a < b)
}

/// `order` lists every index of `keys` exactly once, ranked by `keys`.
pub open spec fn is_ranking(keys: Seq<u64>, order: Seq<usize>) -> bool {
    &&& order.len() == keys.len()
    &&& forall|a: int| 0 <= a < order.len() ==> #[trigger] order[a] < keys.len()
    &&& forall|j: usize| j < keys.len() ==> #[trigger] order.contains(j)
    &&& forall|a: int, b: int|
        0 <= a < b < order.len() ==> ranks_before(keys, #[trigger] order[a] as int, #[trigger] order[b] as int)
}

/// The order to work through a list of entries scored by `keys`, the largest
/// first. The sort is stable: equal keys keep the order they came in. Towers
/// rank the fruit in range by how far along their lanes they are, and a Bomb
/// Lobber then ranks those by how many fruit its blast would catch around
/// each, so between two equal crowds the one nearer its exit still wins, and a
/// field with nothing bunched up is left in threat order.
pub fn rank_descending(keys: &Vec<u64>) -> (order: Vec<usize>)
    ensures
        is_ranking(keys@, order@),
{
    let n = keys.len();
    let mut order: Vec<usize> = Vec::new();
    let mut k: usize = 0;
    while k < n
        invariant
            k <= n,
            n == keys.len(),
            order.len() == k,
            forall|a: int| 0 <= a < order.len() ==> #[trigger] order@[a] < k,
            forall|j: usize| j < k ==> #[trigger] order@.contains(j),
            forall|a: int, b: int|
                0 <= a < b < order.len() ==> ranks_before(
                    keys@,
                    #[trigger] order@[a] as int,
                    #[trigger] order@[b] as int,
                ),
        decreases n - k,
    {
        let score = keys[k];
        let mut p: usize = 0;
        while p < order.len() && !(keys[order[p]] < score)
            invariant
                p <= order.len(),
                order.len() == k,
                k < n,
                n == keys.len(),
                score == keys@[k as int],
                forall|a: int| 0 <= a < order.len() ==> #[trigger] order@[a] < k,
                forall|a: int| 0 <= a < p ==> keys@[#[trigger] order@[a] as int] >= score,
            decreases order.len() - p,
        {
            p = p + 1;
        }
        let ghost before = order@;
        order.insert(p, k);
        proof {
            assert forall|a: int, b: int|
                0 <= a < b < order.len() implies ranks_before(
                keys@,
                #[trigger] order@[a] as int,
                #[trigger] order@[b] as int,
            ) by {
                if b < p {
                    assert(order@[a] == before[a] && order@[b] == before[b]);
                } else if a > p {
                    assert(order@[a] == before[a - 1] && order@[b] == before[b - 1]);
                } else if a == p {
                    assert(order@[b] == before[b - 1]);
                    assert(keys@[before[p as int] as int] < score);
                    if b - 1 > p {
                        assert(ranks_before(keys@, before[p as int] as int, before[b - 1] as int));
                    }
                } else {
                    assert(order@[a] == before[a]);
                }
            }
            assert forall|j: usize| j < k + 1 implies #[trigger] order@.contains(j) by {
                if j == k {
                    assert(order@[p as int] == k);
                } else {
                    assert(before.contains(j));
                    let q = choose|q: int| 0 <= q < before.len() && before[q] == j;
                    if q < p {
                        assert(order@[q] == j);
                    } else {
                        assert(order@[q + 1] == j);
                    }
                }
            }
        }
        k = k + 1;
    }
    order
}

/// Whether a Spike Layer may lay a pile at `dist` (hundredths of a pixel)
/// along `lane`: no pile on that same lane stands within `SPIKE_SPACING`
/// pixels of it. Piles on other lanes never crowd it, however close the two
/// lanes run.
pub fn spot_is_clear(existing: &Vec<SpikePile>, lane: usize, dist: u32) -> (clear: bool)
    ensures
        clear == spec_spot_clear(existing@, lane, dist),
{
    let mut j: usize = 0;
    while j < existing.len()
        invariant
            j <= existing.len(),
            forall|q: int|
                0 <= q < j ==> (#[trigger] existing@[q]).lane != lane || spec_gap(
                    existing@[q].dist,
                    dist,
                ) >= SPIKE_SPACING * 100,
        decreases existing.len() - j,
    {
        let p = existing[j];
        let gap = if p.dist >= dist { p.dist - dist } else { dist - p.dist };
        if p.lane == lane && gap < SPIKE_SPACING * 100 {
            return false;
        }
        j = j + 1;
    }
    true
}

pub open spec fn spec_spot_clear(existing: Seq<SpikePile>, lane: usize, dist: u32) -> bool {
    forall|j: int|
        0 <= j < existing.len() ==> (#[trigger] existing[j]).lane != lane || spec_gap(
            existing[j].dist,
            dist,
        ) >= SPIKE_SPACING * 100
}

/// No two piles on the same lane stand closer than `SPIKE_SPACING` pixels.
pub open spec fn piles_spaced(piles: Seq<SpikePile>) -> bool {
    forall|i: int, j: int|
        0 <= i < piles.len() && 0 <= j < piles.len() && i != j ==> (#[trigger] piles[i]).lane
            != (#[trigger] piles[j]).lane || spec_gap(piles[i].dist, piles[j].dist)
            >= SPIKE_SPACING * 100
}

/// Clearing piles away never brings two of the rest closer together.
pub proof fn lemma_spaced_filter(piles: Seq<SpikePile>, keep: spec_fn(SpikePile) -> bool)
    requires
        piles_spaced(piles),
    ensures
        piles_spaced(piles.filter(keep)),
    decreases piles.len(),
{
    reveal_with_fuel(Seq::<_>::filter, 1);
    if piles.len() > 0 {
        let rest = piles.drop_last();
        assert forall|i: int, j: int|
            0 <= i < rest.len() && 0 <= j < rest.len() && i != j implies (#[trigger] rest[i]).lane
            != (#[trigger] rest[j]).lane || spec_gap(rest[i].dist, rest[j].dist)
            >= SPIKE_SPACING * 100 by {
            assert(rest[i] == piles[i] && rest[j] == piles[j]);
        }
        lemma_spaced_filter(rest, keep);
        let sub = rest.filter(keep);
        let last = piles.last();
        if keep(last) {
            let grown = sub.push(last);
            assert forall|i: int, j: int|
                0 <= i < grown.len() && 0 <= j < grown.len() && i != j implies (
                #[trigger] grown[i]).lane != (#[trigger] grown[j]).lane || spec_gap(
                grown[i].dist,
                grown[j].dist,
            ) >= SPIKE_SPACING * 100 by {
                if i < sub.len() && j < sub.len() {
                    assert(grown[i] == sub[i] && grown[j] == sub[j]);
                } else {
                    let other = if i < sub.len() { i } else { j };
                    assert(sub.contains(grown[other]));
                    rest.lemma_filter_contains_rev(keep, grown[other]);
                    let q = choose|q: int| 0 <= q < rest.len() && rest[q] == grown[other];
                    assert(piles[q] == grown[other]);
                    assert(piles[piles.len() - 1] == last);
                }
            }
        }
    }
}

/// How far apart two distances along a lane are.
pub open spec fn spec_gap(a: u32, b: u32) -> int {
    if a >= b { a - b } else { b - a }
}


/// Fruit `f`, at index `i` of the fruit list, after every hit of `hits` aimed
/// at index `i` has landed in turn.
pub open spec fn spec_after_hits(f: Fruit, i: int, hits: Seq<Hit>) -> Fruit
    decreases hits.len(),
{
    if hits.len() == 0 {
        f
    } else {
        let prev = spec_after_hits(f, i, hits.drop_last());
        let h = hits.last();
        if h.0 == i { spec_hit(prev, h.2) } else { prev }
    }
}

/// Which tower, if any, landed the blow that burst fruit `f` at index `i`.
pub open spec fn spec_burst_by(f: Fruit, i: int, hits: Seq<Hit>) -> Option<u32>
    decreases hits.len(),
{
    if hits.len() == 0 {
        None
    } else {
        let prev = spec_after_hits(f, i, hits.drop_last());
        let h = hits.last();
        if h.0 == i && spec_hit_bursts(prev, h.2) {
            Some(h.1)
        } else {
            spec_burst_by(f, i, hits.drop_last())
        }
    }
}

/// The bursts among the first `n` fruit, as (index, tower to credit), in
/// index order.
pub open spec fn spec_bursts(fruits: Seq<Fruit>, hits: Seq<Hit>, n: nat) -> Seq<(usize, u32)>
    decreases n,
{
    if n == 0 {
        Seq::empty()
    } else {
        let i = n - 1;
        let earlier = spec_bursts(fruits, hits, i as nat);
        match spec_burst_by(fruits[i], i, hits) {
            Some(owner) => earlier.push((i as usize, owner)),
            None => earlier,
        }
    }
}

/// Land a batch of hits on the fruit list, one point of damage each, and
/// report which fruit burst, as (index, id of the tower that landed the blow).
///
/// Damage is dealt in place, so every index stays valid across the batch. A
/// shielded fruit turns away a hit that cannot get through it; a fruit is
/// reported once however many hits land after it broke; an index past the end
/// of the list simply misses. The report comes back in ascending index order
/// with no index twice, ready to be removed from the back.
pub fn land_hits(fruits: &mut Vec<Fruit>, hits: Vec<Hit>) -> (burst: Vec<(usize, u32)>)
    ensures
        final(fruits).len() == old(fruits).len(),
        forall|i: int|
            0 <= i < old(fruits).len() ==> #[trigger] final(fruits)@[i] == spec_after_hits(
                old(fruits)@[i],
                i,
                hits@,
            ),
        burst@ == spec_bursts(old(fruits)@, hits@, old(fruits).len() as nat),
{
    let ghost start = fruits@;
    let n = fruits.len();
    let mut owners: Vec<Option<u32>> = Vec::new();
    let mut i: usize = 0;
    while i < n
        invariant
            i <= n,
            owners.len() == i,
            forall|j: int| 0 <= j < i ==> #[trigger] owners@[j] is None,
        decreases n - i,
    {
        owners.push(None);
        i = i + 1;
    }
    assert(hits@.take(0) =~= Seq::<Hit>::empty());
    let mut k: usize = 0;
    while k < hits.len()
        invariant
            k <= hits.len(),
            fruits.len() == n,
            n == start.len(),
            owners.len() == n,
            forall|j: int|
                0 <= j < n ==> #[trigger] fruits@[j] == spec_after_hits(
                    start[j],
                    j,
                    hits@.take(k as int),
                ),
            forall|j: int|
                0 <= j < n ==> #[trigger] owners@[j] == spec_burst_by(
                    start[j],
                    j,
                    hits@.take(k as int),
                ),
        decreases hits.len() - k,
    {
        let (i, owner, breaks_shield) = hits[k];
        let ghost prefix = hits@.take(k as int);
        let ghost next = hits@.take(k + 1);
        assert(next.drop_last() =~= prefix);
        assert(next.last() == hits@[k as int]);
        if i < n {
            let mut f = fruits[i];
            let popped = f.take_hit(breaks_shield);
            fruits.set(i, f);
            if popped {
                owners.set(i, Some(owner));
            }
        }
        proof {
            assert forall|j: int| 0 <= j < n implies #[trigger] fruits@[j] == spec_after_hits(
                start[j],
                j,
                next,
            ) by {
                assert(spec_after_hits(start[j], j, next) == (if next.last().0 == j {
                    spec_hit(spec_after_hits(start[j], j, prefix), next.last().2)
                } else {
                    spec_after_hits(start[j], j, prefix)
                }));
            }
            assert forall|j: int| 0 <= j < n implies #[trigger] owners@[j] == spec_burst_by(
                start[j],
                j,
                next,
            ) by {
                let prev = spec_after_hits(start[j], j, prefix);
                assert(spec_burst_by(start[j], j, next) == (if next.last().0 == j
                    && spec_hit_bursts(prev, next.last().2) {
                    Some(next.last().1)
                } else {
                    spec_burst_by(start[j], j, prefix)
                }));
            }
        }
        k = k + 1;
    }
    assert(hits@.take(hits.len() as int) =~= hits@);
    let mut burst: Vec<(usize, u32)> = Vec::new();
    let mut j: usize = 0;
    while j < n
        invariant
            j <= n,
            n == start.len(),
            owners.len() == n,
            forall|q: int| 0 <= q < n ==> #[trigger] owners@[q] == spec_burst_by(start[q], q, hits@),
            burst@ == spec_bursts(start, hits@, j as nat),
        decreases n - j,
    {
        match owners[j] {
            Some(owner) => {
                burst.push((j, owner));
            },
            None => {},
        }
        j = j + 1;
    }
    burst
}

/// Every burst index is in range and strictly above the one before it, and a
/// reported fruit has no armour left.
pub proof fn lemma_bursts_ascending(fruits: Seq<Fruit>, hits: Seq<Hit>, n: nat)
    requires
        n <= fruits.len(),
        n <= usize::MAX,
    ensures
        forall|a: int|
            0 <= a < spec_bursts(fruits, hits, n).len() ==> (#[trigger] spec_bursts(
                fruits,
                hits,
                n,
            )[a]).0 < n,
        forall|a: int, b: int|
            0 <= a < b < spec_bursts(fruits, hits, n).len() ==> (#[trigger] spec_bursts(
                fruits,
                hits,
                n,
            )[a]).0 < (#[trigger] spec_bursts(fruits, hits, n)[b]).0,
        forall|a: int|
            0 <= a < spec_bursts(fruits, hits, n).len() ==> spec_after_hits(
                fruits[(#[trigger] spec_bursts(fruits, hits, n)[a]).0 as int],
                spec_bursts(fruits, hits, n)[a].0 as int,
                hits,
            ).hp == 0,
    decreases n,
{
    if n > 0 {
        let i = n - 1;
        lemma_bursts_ascending(fruits, hits, i as nat);
        lemma_burst_leaves_no_armour(fruits[i], i, hits);
        let earlier = spec_bursts(fruits, hits, i as nat);
        let cur = spec_bursts(fruits, hits, n);
        match spec_burst_by(fruits[i], i, hits) {
            Some(o) => {
                assert(cur == earlier.push((i as usize, o)));
                assert forall|a: int, b: int|
                    0 <= a < b < cur.len() implies (#[trigger] cur[a]).0 < (#[trigger] cur[b]).0 by {
                    assert(cur[a] == earlier[a]);
                    assert(earlier[a].0 < i);
                    if b < earlier.len() {
                        assert(cur[b] == earlier[b]);
                    }
                }
                assert forall|a: int| 0 <= a < cur.len() implies spec_after_hits(
                    fruits[(#[trigger] cur[a]).0 as int],
                    cur[a].0 as int,
                    hits,
                ).hp == 0 by {
                    if a < earlier.len() {
                        assert(cur[a] == earlier[a]);
                    }
                }
            },
            None => {
                assert(cur == earlier);
            },
        }
    }
}

proof fn lemma_burst_leaves_no_armour(f: Fruit, i: int, hits: Seq<Hit>)
    ensures
        spec_burst_by(f, i, hits) is Some ==> spec_after_hits(f, i, hits).hp == 0,
    decreases hits.len(),
{
    if hits.len() > 0 {
        lemma_burst_leaves_no_armour(f, i, hits.drop_last());
    }
}


/// Whether pile `p` can land a hit on fruit `f`: it has a spike left, the fruit
/// stands on it, and the fruit carries no shield the pile cannot get through.
pub open spec fn pile_hits(p: SpikePile, f: Fruit) -> bool {
    p.charges > 0 && p.spec_covers(f.lane, f.dist, f.kind.spec_radius()) && (!f.shielded
        || p.breaks_shield)
}

/// The first pile at or after `from` that can hit `f`, or the number of piles
/// when none can.
pub open spec fn first_pile(piles: Seq<SpikePile>, f: Fruit, from: int) -> int
    decreases piles.len() - from,
{
    if from >= piles.len() {
        piles.len() as int
    } else if from < 0 {
        first_pile(piles, f, 0)
    } else if pile_hits(piles[from], f) {
        from
    } else {
        first_pile(piles, f, from + 1)
    }
}

/// The piles and the hits after the first `n` fruit have walked over them in
/// turn, each fruit spending one spike from the first pile that can hit it.
pub open spec fn spec_spikes_after(piles: Seq<SpikePile>, fruits: Seq<Fruit>, n: nat) -> (Seq<
    SpikePile,
>, Seq<Hit>)
    decreases n,
{
    if n == 0 {
        (piles, Seq::empty())
    } else {
        let i = n - 1;
        let (ps, hs) = spec_spikes_after(piles, fruits, i as nat);
        let p = first_pile(ps, fruits[i], 0);
        if p < ps.len() {
            let pile = ps[p];
            (
                ps.update(p, SpikePile { charges: (pile.charges - 1) as u32, ..pile }),
                hs.push((i as usize, pile.owner, pile.breaks_shield)),
            )
        } else {
            (ps, hs)
        }
    }
}

/// Walking over the piles only ever spends spikes: every pile stays where it
/// was, on the same lane, laid by the same tower.
pub proof fn lemma_spikes_only_spend(piles: Seq<SpikePile>, fruits: Seq<Fruit>, n: nat)
    ensures
        spec_spikes_after(piles, fruits, n).0.len() == piles.len(),
        forall|j: int|
            0 <= j < piles.len() ==> #[trigger] spec_spikes_after(piles, fruits, n).0[j] == (
            SpikePile { charges: spec_spikes_after(piles, fruits, n).0[j].charges, ..piles[j] }),
    decreases n,
{
    if n > 0 {
        lemma_spikes_only_spend(piles, fruits, (n - 1) as nat);
        let ps = spec_spikes_after(piles, fruits, (n - 1) as nat).0;
        let r = spec_spikes_after(piles, fruits, n).0;
        lemma_first_pile_in_range(ps, fruits[n - 1], 0);
        assert forall|j: int| 0 <= j < piles.len() implies #[trigger] r[j] == (SpikePile {
            charges: r[j].charges,
            ..piles[j]
        }) by {
            assert(ps[j] == SpikePile { charges: ps[j].charges, ..piles[j] });
            let p = first_pile(ps, fruits[n - 1], 0);
            if p < ps.len() {
                let pile = ps[p];
                assert(r == ps.update(p, SpikePile { charges: (pile.charges - 1) as u32, ..pile }));
            } else {
                assert(r == ps);
            }
        }
    }
}

/// Spikes left across all of `piles`.
pub open spec fn total_charges(piles: Seq<SpikePile>) -> int
    decreases piles.len(),
{
    if piles.len() == 0 {
        0
    } else {
        total_charges(piles.drop_last()) + piles.last().charges
    }
}

proof fn lemma_first_pile_skip(piles: Seq<SpikePile>, f: Fruit, p: int)
    requires
        0 <= p <= piles.len(),
        forall|q: int| 0 <= q < p ==> !pile_hits(#[trigger] piles[q], f),
    ensures
        first_pile(piles, f, 0) == first_pile(piles, f, p),
    decreases p,
{
    if p > 0 {
        lemma_first_pile_skip(piles, f, p - 1);
    }
}

proof fn lemma_total_charges_update(piles: Seq<SpikePile>, p: int, pile: SpikePile)
    requires
        0 <= p < piles.len(),
    ensures
        total_charges(piles.update(p, pile)) == total_charges(piles) - piles[p].charges
            + pile.charges,
    decreases piles.len(),
{
    let up = piles.update(p, pile);
    if p == piles.len() - 1 {
        assert(up.drop_last() =~= piles.drop_last());
    } else {
        lemma_total_charges_update(piles.drop_last(), p, pile);
        assert(up.drop_last() =~= piles.drop_last().update(p, pile));
    }
}

proof fn lemma_spikes_after_facts(piles: Seq<SpikePile>, fruits: Seq<Fruit>, n: nat)
    requires
        n <= fruits.len(),
        n <= usize::MAX,
    ensures
        ({
            let (ps, hs) = spec_spikes_after(piles, fruits, n);
            &&& ps.len() == piles.len()
            &&& total_charges(ps) + hs.len() == total_charges(piles)
            &&& hs.len() <= n
            &&& forall|a: int| 0 <= a < hs.len() ==> (#[trigger] hs[a]).0 < n
            &&& forall|a: int, b: int| 0 <= a < b < hs.len() ==> (#[trigger] hs[a]).0 < (
            #[trigger] hs[b]).0
        }),
    decreases n,
{
    if n > 0 {
        let i = n - 1;
        lemma_spikes_after_facts(piles, fruits, i as nat);
        let (ps, hs) = spec_spikes_after(piles, fruits, i as nat);
        let p = first_pile(ps, fruits[i], 0);
        lemma_first_pile_in_range(ps, fruits[i], 0);
        if p < ps.len() {
            let pile = ps[p];
            lemma_total_charges_update(ps, p, SpikePile { charges: (pile.charges - 1) as u32, ..pile });
            let hs2 = hs.push((i as usize, pile.owner, pile.breaks_shield));
            assert forall|a: int, b: int| 0 <= a < b < hs2.len() implies (#[trigger] hs2[a]).0 < (
            #[trigger] hs2[b]).0 by {
                assert(hs2[a] == hs[a]);
                assert(hs[a].0 < i);
                if b < hs.len() {
                    assert(hs2[b] == hs[b]);
                }
            }
            assert forall|a: int| 0 <= a < hs2.len() implies (#[trigger] hs2[a]).0 < n by {
                if a < hs.len() {
                    assert(hs2[a] == hs[a]);
                }
            }
        }
    }
}

proof fn lemma_first_pile_in_range(piles: Seq<SpikePile>, f: Fruit, from: int)
    requires
        0 <= from,
    ensures
        from <= first_pile(piles, f, from) || first_pile(piles, f, from) == piles.len(),
        first_pile(piles, f, from) <= piles.len(),
        first_pile(piles, f, from) < piles.len() ==> pile_hits(piles[first_pile(piles, f, from)], f),
    decreases piles.len() - from,
{
    if from < piles.len() && !pile_hits(piles[from], f) {
        lemma_first_pile_in_range(piles, f, from + 1);
    }
}

/// Walk the fruit over the spike piles, spending one spike per hit landed, and
/// return the hits as (fruit index, owning tower, gets through a shield).
///
/// A fruit costs exactly one spike however many piles it stands on: the first
/// covering pile with a spike left pays. A shielded fruit only spends a spike
/// from a pile that can get through its shield. Every spike spent is one hit
/// returned, and no fruit is hit twice.
pub fn run_over_spikes(piles: &mut Vec<SpikePile>, fruits: &Vec<Fruit>) -> (hits: Vec<Hit>)
    ensures
        (final(piles)@, hits@) == spec_spikes_after(old(piles)@, fruits@, fruits.len() as nat),
        final(piles).len() == old(piles).len(),
        total_charges(final(piles)@) + hits.len() == total_charges(old(piles)@),
        hits.len() <= fruits.len(),
        forall|a: int| 0 <= a < hits.len() ==> (#[trigger] hits@[a]).0 < fruits.len(),
        forall|a: int, b: int|
            0 <= a < b < hits.len() ==> (#[trigger] hits@[a]).0 < (#[trigger] hits@[b]).0,
{
    let ghost start = piles@;
    let mut hits: Vec<Hit> = Vec::new();
    let mut i: usize = 0;
    while i < fruits.len()
        invariant
            i <= fruits.len(),
            (piles@, hits@) == spec_spikes_after(start, fruits@, i as nat),
        decreases fruits.len() - i,
    {
        let f = fruits[i];
        let radius = f.kind.radius();
        let mut p: usize = 0;
        let mut found = false;
        while p < piles.len()
            invariant
                p <= piles.len(),
                radius == f.kind.spec_radius(),
                !found ==> forall|q: int| 0 <= q < p ==> !pile_hits(#[trigger] piles@[q], f),
                found ==> p < piles.len() && pile_hits(piles@[p as int], f) && forall|q: int|
                    0 <= q < p ==> !pile_hits(#[trigger] piles@[q], f),
            ensures
                p <= piles.len(),
                !found ==> p == piles.len() && forall|q: int|
                    0 <= q < p ==> !pile_hits(#[trigger] piles@[q], f),
                found ==> p < piles.len() && pile_hits(piles@[p as int], f) && forall|q: int|
                    0 <= q < p ==> !pile_hits(#[trigger] piles@[q], f),
            decreases piles.len() - p,
        {
            let pile = piles[p];
            if pile.charges > 0 && pile.covers(f.lane, f.dist, radius) && (!f.shielded
                || pile.breaks_shield) {
                found = true;
                break;
            }
            p = p + 1;
        }
        proof {
            lemma_first_pile_skip(piles@, f, p as int);
            if !found {
                assert(first_pile(piles@, f, p as int) == piles.len());
            }
        }
        if found {
            let pile = piles[p];
            piles.set(p, SpikePile { charges: pile.charges - 1, ..pile });
            hits.push((i, pile.owner, pile.breaks_shield));
        }
        i = i + 1;
    }
    proof {
        lemma_spikes_after_facts(start, fruits@, fruits.len() as nat);
    }
    hits
}

/// Spend one hit's worth of a shot's pierce. Returns true once the shot is
/// used up: a shot with none left is spent however it got there.
pub fn consume_pierce(pierce: &mut u32) -> (spent: bool)
    ensures
        *final(pierce) == (if *old(pierce) > 0 { *old(pierce) - 1 } else { 0 }),
        spent == (*final(pierce) == 0),
{
    *pierce = if *pierce > 0 { *pierce - 1 } else { 0 };
    *pierce == 0
}

/// The order in which to take spent shots out of their list: every index in
/// `spent` once, the highest first, so each removal leaves the indices still
/// to come where they were.
pub fn removal_order(spent: &Vec<usize>) -> (order: Vec<usize>)
    ensures
        forall|a: int, b: int| 0 <= a < b < order.len() ==> #[trigger] order@[a] > #[trigger] order@[b],
        forall|i: usize| #[trigger] order@.contains(i) <==> spent@.contains(i),
{
    let mut order: Vec<usize> = Vec::new();
    let mut k: usize = 0;
    while k < spent.len()
        invariant
            k <= spent.len(),
            forall|a: int, b: int|
                0 <= a < b < order.len() ==> #[trigger] order@[a] > #[trigger] order@[b],
            forall|i: usize| #[trigger] order@.contains(i) <==> spent@.take(k as int).contains(i),
        decreases spent.len() - k,
    {
        let x = spent[k];
        let mut p: usize = 0;
        while p < order.len() && order[p] > x
            invariant
                p <= order.len(),
                forall|a: int| 0 <= a < p ==> #[trigger] order@[a] > x,
            decreases order.len() - p,
        {
            p = p + 1;
        }
        let ghost before = order@;
        let ghost seen = spent@.take(k as int);
        let ghost now = spent@.take(k + 1);
        assert(now =~= seen.push(x));
        if p < order.len() && order[p] == x {
            proof {
                assert forall|i: usize| #[trigger] order@.contains(i) <==> now.contains(i) by {
                    if now.contains(i) && i != x {
                        let w = choose|w: int| 0 <= w < now.len() && now[w] == i;
                        assert(seen[w] == i);
                    }
                    if seen.contains(i) {
                        let w = choose|w: int| 0 <= w < seen.len() && seen[w] == i;
                        assert(now[w] == i);
                    }
                }
            }
        } else {
            order.insert(p, x);
            proof {
                assert forall|a: int, b: int|
                    0 <= a < b < order.len() implies #[trigger] order@[a] > #[trigger] order@[b] by {
                    if b < p {
                        assert(order@[a] == before[a] && order@[b] == before[b]);
                    } else if a > p {
                        assert(order@[a] == before[a - 1] && order@[b] == before[b - 1]);
                    } else if a == p {
                        assert(order@[b] == before[b - 1]);
                        assert(before[p as int] < x);
                        if b - 1 > p {
                            assert(before[p as int] > before[b - 1]);
                        }
                    } else {
                        assert(order@[a] == before[a]);
                        assert(order@[b] == x || order@[b] == before[b - 1]);
                    }
                }
                assert forall|i: usize| #[trigger] order@.contains(i) <==> now.contains(i) by {
                    if order@.contains(i) && i != x {
                        let w = choose|w: int| 0 <= w < order.len() && order@[w] == i;
                        if w < p {
                            assert(before[w] == i);
                        } else {
                            assert(w != p);
                            assert(before[w - 1] == i);
                        }
                    }
                    if before.contains(i) {
                        let w = choose|w: int| 0 <= w < before.len() && before[w] == i;
                        if w < p {
                            assert(order@[w] == i);
                        } else {
                            assert(order@[w + 1] == i);
                        }
                    }
                    if now.contains(i) && i != x {
                        let w = choose|w: int| 0 <= w < now.len() && now[w] == i;
                        assert(seen[w] == i);
                    }
                    if seen.contains(i) {
                        let w = choose|w: int| 0 <= w < seen.len() && seen[w] == i;
                        assert(now[w] == i);
                    }
                    if i == x {
                        assert(order@[p as int] == x);
                        assert(now[k as int] == x);
                    }
                }
            }
        }
        k = k + 1;
    }
    assert(spent@.take(spent.len() as int) =~= spent@);
    order
}

} // verus!
