//! A tower's turn: its cooldown runs down, and once it is ready it lays a
//! pile, sends out a chilling pulse or fires a volley.
//!
//! Where the fruit stand on the screen is the program's business: it tells
//! the turn which fruit the tower can reach, how many fruit a shell would
//! catch around each of them, and which points of track within reach could
//! take a pile. What the tower does with that is decided here.

use vstd::prelude::*;

use crate::chance::{random_below, RANDOM_BOUND_MAX};
use crate::combat::{
    is_ranking, rank_descending, ranks_before, spec_spot_clear, spot_is_clear, volley_targets,
};
use crate::fruit::{spec_chilled, Fruit};
use crate::run::Run;
use crate::tower::{SpikePile, Tower, TowerKind};

verus! {

/// What a tower did with its turn.
#[derive(Debug)]
pub enum TowerAction {
    /// Still cooling down, or nothing worth spending the cooldown on.
    Idle,
    /// A Spike Layer put a new pile at the end of the pile list.
    LaidSpikes,
    /// A Freezer pulsed and chilled this many fruit.
    Froze { chilled: u32 },
    /// One shot went at each listed fruit (indices into the fruit list), in
    /// this order. The first is the lead target the tower turns to face.
    Fired { targets: Vec<usize> },
}

/// `t` with `elapsed_us` microseconds of its cooldown run down.
pub open spec fn spec_ticked(t: Tower, elapsed_us: u32) -> Tower {
    Tower {
        cooldown_us: if t.cooldown_us - elapsed_us < i64::MIN {
            i64::MIN
        } else {
            (t.cooldown_us - elapsed_us) as i64
        },
        ..t
    }
}

/// `t` having just acted `times` times: its cooldown starts over and the acts
/// are counted.
pub open spec fn spec_acted(t: Tower, times: int) -> Tower {
    Tower {
        cooldown_us: (t.kind.spec_cooldown(t.level) * 1000) as i64,
        shots_fired: (t.shots_fired + times) as u32,
        ..t
    }
}

/// How far along its lane each fruit in range is, in millionths of the lane.
pub open spec fn spec_progress(
    fruits: Seq<Fruit>,
    in_range: Seq<usize>,
    lane_lengths: Seq<u32>,
) -> Seq<u64> {
    Seq::new(
        in_range.len(),
        |k: int|
            {
                let f = fruits[in_range[k] as int];
                (f.dist * 1_000_000 / (lane_lengths[f.lane as int] as int)) as u64
            },
    )
}

/// Whether a tower of `kind` works on in-range entry `a` before entry `b`.
/// Every tower goes for the fruit furthest along its lane first. A Bomb
/// Lobber goes for the thickest crowd first, and only between equal crowds
/// for the fruit further along.
pub open spec fn aims_before(
    kind: TowerKind,
    progress: Seq<u64>,
    caught: Seq<usize>,
    a: int,
    b: int,
) -> bool {
    if kind == TowerKind::BombLobber {
        caught[a] > caught[b] || (caught[a] == caught[b] && ranks_before(progress, a, b))
    } else {
        ranks_before(progress, a, b)
    }
}

/// `order` lists every in-range entry once, in the order a tower of `kind`
/// works through them.
pub open spec fn is_aim_order(
    kind: TowerKind,
    progress: Seq<u64>,
    caught: Seq<usize>,
    order: Seq<usize>,
) -> bool {
    &&& order.len() == progress.len()
    &&& forall|a: int| 0 <= a < order.len() ==> #[trigger] order[a] < progress.len()
    &&& forall|j: usize| j < progress.len() ==> #[trigger] order.contains(j)
    &&& forall|a: int, b: int|
        0 <= a < b < order.len() ==> aims_before(
            kind,
            progress,
            caught,
            #[trigger] order[a] as int,
            #[trigger] order[b] as int,
        )
}

/// There is only one aim order: which fruit a tower goes for, and in what
/// order, is settled entirely by how far along each is and how big a crowd
/// stands around it.
pub proof fn lemma_aim_order_is_unique(
    kind: TowerKind,
    progress: Seq<u64>,
    caught: Seq<usize>,
    first: Seq<usize>,
    second: Seq<usize>,
)
    requires
        caught.len() == progress.len(),
        is_aim_order(kind, progress, caught, first),
        is_aim_order(kind, progress, caught, second),
    ensures
        first == second,
{
    lemma_aim_orders_agree_below(kind, progress, caught, first, second, first.len() as int);
    assert(first =~= second);
}

proof fn lemma_aim_orders_agree_below(
    kind: TowerKind,
    progress: Seq<u64>,
    caught: Seq<usize>,
    first: Seq<usize>,
    second: Seq<usize>,
    k: int,
)
    requires
        caught.len() == progress.len(),
        is_aim_order(kind, progress, caught, first),
        is_aim_order(kind, progress, caught, second),
        0 <= k <= first.len(),
    ensures
        forall|i: int| 0 <= i < k ==> #[trigger] first[i] == second[i],
    decreases k,
{
    if k > 0 {
        lemma_aim_orders_agree_below(kind, progress, caught, first, second, k - 1);
        let i = k - 1;
        let x = first[i];
        let y = second[i];
        if x != y {
            assert(first.contains(y));
            let j = choose|j: int| 0 <= j < first.len() && first[j] == y;
            assert(second.contains(x));
            let m = choose|m: int| 0 <= m < second.len() && second[m] == x;
            if j < i {
                assert(second[j] == y);
                assert(aims_before(kind, progress, caught, second[j] as int, second[i] as int));
            }
            if m < i {
                assert(first[m] == x);
                assert(aims_before(kind, progress, caught, first[m] as int, first[i] as int));
            }
            assert(j > i && m > i);
            assert(aims_before(kind, progress, caught, first[i] as int, first[j] as int));
            assert(aims_before(kind, progress, caught, second[i] as int, second[m] as int));
        }
    }
}

/// Ranking the entries by crowd, after ranking them by progress, gives the
/// Bomb Lobber's order.
proof fn lemma_crowd_after_progress(
    progress: Seq<u64>,
    caught: Seq<usize>,
    first: Seq<usize>,
    keys: Seq<u64>,
    second: Seq<usize>,
    order: Seq<usize>,
)
    requires
        caught.len() == progress.len(),
        progress.len() <= usize::MAX,
        is_ranking(progress, first),
        keys.len() == first.len(),
        forall|k: int| 0 <= k < keys.len() ==> #[trigger] keys[k] == caught[first[k] as int] as u64,
        is_ranking(keys, second),
        order.len() == second.len(),
        forall|k: int| 0 <= k < order.len() ==> #[trigger] order[k] == first[second[k] as int],
    ensures
        is_aim_order(TowerKind::BombLobber, progress, caught, order),
{
    let n = progress.len();
    assert forall|a: int| 0 <= a < order.len() implies #[trigger] order[a] < n by {
        assert(second[a] < n);
        assert(first[second[a] as int] < n);
    }
    assert forall|j: usize| j < n implies #[trigger] order.contains(j) by {
        assert(first.contains(j));
        let q = choose|q: int| 0 <= q < first.len() && first[q] == j;
        assert(second.contains(q as usize));
        let a = choose|a: int| 0 <= a < second.len() && second[a] == q as usize;
        assert(second[a] as int == q);
        assert(order[a] == first[second[a] as int]);
    }
    assert forall|a: int, b: int| 0 <= a < b < order.len() implies aims_before(
        TowerKind::BombLobber,
        progress,
        caught,
        #[trigger] order[a] as int,
        #[trigger] order[b] as int,
    ) by {
        let x = second[a] as int;
        let y = second[b] as int;
        assert(ranks_before(keys, x, y));
        assert(keys[x] == caught[first[x] as int] as u64);
        assert(keys[y] == caught[first[y] as int] as u64);
        if keys[x] == keys[y] {
            assert(x < y);
            assert(ranks_before(progress, first[x] as int, first[y] as int));
        }
    }
}

/// The indices of the spots in `spots` where no pile on the same lane already
/// stands too close, in the order given.
fn clear_spots(existing: &Vec<SpikePile>, spots: &Vec<(usize, u32, i32, i32)>) -> (clear: Vec<
    usize,
>)
    ensures
        forall|k: int|
            0 <= k < clear.len() ==> #[trigger] clear@[k] < spots.len() && spec_spot_clear(
                existing@,
                spots@[clear@[k] as int].0,
                spots@[clear@[k] as int].1,
            ),
        forall|j: int|
            0 <= j < spots.len() && spec_spot_clear(existing@, spots@[j].0, spots@[j].1)
                ==> clear@.contains(j as usize),
{
    let mut clear: Vec<usize> = Vec::new();
    let mut j: usize = 0;
    while j < spots.len()
        invariant
            j <= spots.len(),
            forall|k: int|
                0 <= k < clear.len() ==> #[trigger] clear@[k] < j && spec_spot_clear(
                    existing@,
                    spots@[clear@[k] as int].0,
                    spots@[clear@[k] as int].1,
                ),
            forall|q: int|
                0 <= q < j && spec_spot_clear(existing@, spots@[q].0, spots@[q].1)
                    ==> clear@.contains(q as usize),
        decreases spots.len() - j,
    {
        let (lane, dist, _, _) = spots[j];
        let ghost prev = clear@;
        if spot_is_clear(existing, lane, dist) {
            clear.push(j);
            assert(clear@[clear.len() - 1] == j);
        }
        proof {
            assert forall|q: int|
                0 <= q < j + 1 && spec_spot_clear(existing@, spots@[q].0, spots@[q].1)
                    implies clear@.contains(q as usize) by {
                if q < j {
                    let w = choose|w: int| 0 <= w < prev.len() && prev[w] == q as usize;
                    assert(clear@[w] == prev[w]);
                } else {
                    assert(clear@[clear.len() - 1] == j);
                }
            }
        }
        j = j + 1;
    }
    clear
}

impl Run {
    /// Tower `t`'s turn, `elapsed_us` microseconds after its last one.
    ///
    /// `in_range` lists the fruit the tower reaches (indices into `fruits`,
    /// each once), and `caught[k]` how many fruit a shell landing on
    /// `in_range[k]` would catch. `spots` lists the points of track within
    /// reach, as (lane, distance along it, x, y), and `lane_lengths` the
    /// length of each lane in hundredths of a pixel.
    ///
    /// The cooldown runs down first; a tower still cooling does nothing else.
    /// A ready Spike Layer lays a pile on a random clear spot, but only while a
    /// wave runs, and keeps its cooldown when every spot is taken. A ready
    /// Freezer chills every fruit in reach and spends its cooldown only when
    /// there was something to chill. Any other ready tower with fruit in reach
    /// fires its whole volley, shot `k` at the `k`-th fruit of its aim order,
    /// coming back round to the front when the volley outnumbers the fruit.
    pub fn tower_turn(
        &mut self,
        t: usize,
        elapsed_us: u32,
        in_range: &Vec<usize>,
        caught: &Vec<usize>,
        spots: &Vec<(usize, u32, i32, i32)>,
        lane_lengths: &Vec<u32>,
    ) -> (action: TowerAction)
        requires
            old(self).wf(),
            t < old(self).towers.len(),
            caught.len() == in_range.len(),
            forall|k: int| 0 <= k < in_range.len() ==> #[trigger] in_range@[k] < old(self).fruits.len(),
            forall|a: int, b: int|
                0 <= a < b < in_range.len() ==> #[trigger] in_range@[a] != #[trigger] in_range@[b],
            forall|j: int| 0 <= j < spots.len() ==> (#[trigger] spots@[j]).0 < old(self).lanes(),
            lane_lengths.len() == old(self).lanes(),
            forall|l: int| 0 <= l < lane_lengths.len() ==> #[trigger] lane_lengths@[l] > 0,
            old(self).towers@[t as int].shots_fired + old(self).towers@[t as int].kind.spec_shots(
                old(self).towers@[t as int].level,
            ) <= u32::MAX,
            old(self).towers@[t as int].chills + in_range.len() <= u32::MAX,
        ensures
            final(self).wf(),
            *final(self) == (Run {
                towers: final(self).towers,
                fruits: final(self).fruits,
                spikes: final(self).spikes,
                ..*old(self)
            }),
            final(self).towers.len() == old(self).towers.len(),
            forall|i: int|
                0 <= i < old(self).towers.len() && i != t ==> #[trigger] final(self).towers@[i]
                    == old(self).towers@[i],
            ({
                let ot = old(self).towers@[t as int];
                let tk = spec_ticked(ot, elapsed_us);
                let nt = final(self).towers@[t as int];
                let progress = spec_progress(old(self).fruits@, in_range@, lane_lengths@);
                let some_clear = exists|j: int|
                    0 <= j < spots.len() && spec_spot_clear(
                        old(self).spikes@,
                        spots@[j].0,
                        spots@[j].1,
                    );
                if tk.cooldown_us > 0 {
                    &&& action is Idle
                    &&& nt == tk
                    &&& final(self).fruits@ == old(self).fruits@
                    &&& final(self).spikes@ == old(self).spikes@
                } else if ot.kind == TowerKind::SpikeLayer {
                    &&& final(self).fruits@ == old(self).fruits@
                    &&& if !old(self).wave_active || !some_clear {
                        &&& action is Idle
                        &&& nt == tk
                        &&& final(self).spikes@ == old(self).spikes@
                    } else {
                        let pile = final(self).spikes@.last();
                        &&& action is LaidSpikes
                        &&& nt == spec_acted(tk, 1)
                        &&& final(self).spikes@ == old(self).spikes@.push(pile)
                        &&& exists|j: int|
                            0 <= j < spots.len() && spec_spot_clear(
                                old(self).spikes@,
                                spots@[j].0,
                                spots@[j].1,
                            ) && pile == (SpikePile {
                                x: spots@[j].2,
                                y: spots@[j].3,
                                lane: spots@[j].0,
                                dist: spots@[j].1,
                                charges: ot.kind.spec_spike_charges(ot.level),
                                owner: ot.id,
                                rot: pile.rot,
                                breaks_shield: ot.kind.spec_breaks_shield(ot.level),
                            })
                        &&& pile.rot < 360
                    }
                } else if ot.kind == TowerKind::Freezer {
                    &&& final(self).spikes@ == old(self).spikes@
                    &&& if in_range.len() == 0 {
                        &&& action is Idle
                        &&& nt == tk
                        &&& final(self).fruits@ == old(self).fruits@
                    } else {
                        &&& action == (TowerAction::Froze { chilled: in_range.len() as u32 })
                        &&& nt == (Tower {
                            chills: (ot.chills + in_range.len()) as u32,
                            ..spec_acted(tk, 1)
                        })
                        &&& final(self).fruits.len() == old(self).fruits.len()
                        &&& forall|i: int|
                            0 <= i < old(self).fruits.len() ==> #[trigger] final(self).fruits@[i]
                                == if in_range@.contains(i as usize) {
                                spec_chilled(
                                    old(self).fruits@[i],
                                    ot.kind.spec_slow_factor(ot.level),
                                    ot.kind.spec_freeze_duration(ot.level),
                                )
                            } else {
                                old(self).fruits@[i]
                            }
                    }
                } else {
                    &&& final(self).spikes@ == old(self).spikes@
                    &&& final(self).fruits@ == old(self).fruits@
                    &&& if in_range.len() == 0 {
                        &&& action is Idle
                        &&& nt == tk
                    } else {
                        let shots = ot.kind.spec_shots(ot.level);
                        &&& nt == spec_acted(tk, shots as int)
                        &&& action is Fired
                        &&& action->targets.len() == shots
                        &&& exists|order: Seq<usize>|
                            is_aim_order(ot.kind, progress, caught@, order) && forall|k: int|
                                0 <= k < shots ==> #[trigger] action->targets@[k]
                                    == in_range@[order[k % in_range.len() as int] as int]
                    }
                }
            }),
    {
        let mut tw = self.towers[t];
        tw.tick(elapsed_us);
        if !tw.ready() {
            self.towers.set(t, tw);
            return TowerAction::Idle;
        }
        match tw.kind {
            TowerKind::SpikeLayer => {
                if !self.wave_active {
                    self.towers.set(t, tw);
                    return TowerAction::Idle;
                }
                let clear = clear_spots(&self.spikes, spots);
                if clear.len() == 0 {
                    proof {
                        assert forall|j: int|
                            0 <= j < spots.len() implies !spec_spot_clear(
                            self.spikes@,
                            spots@[j].0,
                            spots@[j].1,
                        ) by {
                            if spec_spot_clear(self.spikes@, spots@[j].0, spots@[j].1) {
                                assert(clear@.contains(j as usize));
                            }
                        }
                    }
                    self.towers.set(t, tw);
                    return TowerAction::Idle;
                }
                let bound: usize = if clear.len() as u64 > RANDOM_BOUND_MAX {
                    RANDOM_BOUND_MAX as usize
                } else {
                    clear.len()
                };
                let pick = clear[random_below(bound)];
                let (lane, dist, x, y) = spots[pick];
                let rot = random_below(360) as u32;
                let pile = SpikePile::new(
                    x,
                    y,
                    lane,
                    dist,
                    tw.spike_charges(),
                    tw.id,
                    rot,
                    tw.breaks_shield(),
                );
                let ghost before = self.spikes@;
                self.spikes.push(pile);
                tw.reset_cooldown();
                tw.shots_fired = tw.shots_fired + 1;
                self.towers.set(t, tw);
                proof {
                    assert(self.spikes@.last() == pile);
                    assert forall|i: int| 0 <= i < self.towers.len() implies #[trigger] self.towers@[i].id
                        == old(self).towers@[i].id && self.towers@[i].kind == old(self).towers@[i].kind
                        && self.towers@[i].level == old(self).towers@[i].level
                        && self.towers@[i].invested == old(self).towers@[i].invested by {}
                    assert(spec_spot_clear(before, spots@[pick as int].0, spots@[pick as int].1));
                    assert forall|i: int| 0 <= i < self.spikes.len() implies (
                    #[trigger] self.spikes@[i]).lane < self.lanes() by {
                        if i < before.len() {
                            assert(self.spikes@[i] == before[i]);
                        }
                    }
                }
                TowerAction::LaidSpikes
            },
            TowerKind::Freezer => {
                let n = in_range.len();
                if n == 0 {
                    self.towers.set(t, tw);
                    return TowerAction::Idle;
                }
                let factor = tw.slow_factor();
                let duration = tw.freeze_duration();
                let ghost start = self.fruits@;
                let mut k: usize = 0;
                while k < n
                    invariant
                        k <= n,
                        n == in_range.len(),
                        *self == (Run { fruits: self.fruits, ..*old(self) }),
                        self.fruits.len() == start.len(),
                        forall|q: int| 0 <= q < n ==> #[trigger] in_range@[q] < start.len(),
                        forall|a: int, b: int|
                            0 <= a < b < n ==> #[trigger] in_range@[a] != #[trigger] in_range@[b],
                        forall|i: int|
                            0 <= i < start.len() ==> #[trigger] self.fruits@[i] == if in_range@.take(
                                k as int,
                            ).contains(i as usize) {
                                spec_chilled(start[i], factor, duration)
                            } else {
                                start[i]
                            },
                    decreases n - k,
                {
                    let i = in_range[k];
                    let mut f = self.fruits[i];
                    proof {
                        let was = in_range@.take(k as int);
                        if was.contains(i) {
                            let w = choose|w: int| 0 <= w < was.len() && was[w] == i;
                            assert(in_range@[w] == in_range@[k as int]);
                        }
                        assert(f == start[i as int]);
                    }
                    f.chill(factor, duration);
                    self.fruits.set(i, f);
                    proof {
                        assert forall|q: int| 0 <= q < start.len() implies #[trigger] self.fruits@[q]
                            == if in_range@.take(k + 1).contains(q as usize) {
                            spec_chilled(start[q], factor, duration)
                        } else {
                            start[q]
                        } by {
                            let now = in_range@.take(k + 1);
                            let was = in_range@.take(k as int);
                            if q == i {
                                assert(now[k as int] == i);
                            } else {
                                if now.contains(q as usize) {
                                    let w = choose|w: int| 0 <= w < now.len() && now[w] == q as usize;
                                    assert(w < k);
                                    assert(was[w] == q as usize);
                                }
                                if was.contains(q as usize) {
                                    let w = choose|w: int| 0 <= w < was.len() && was[w] == q as usize;
                                    assert(now[w] == q as usize);
                                }
                            }
                        }
                    }
                    k = k + 1;
                }
                assert(in_range@.take(n as int) =~= in_range@);
                tw.reset_cooldown();
                tw.shots_fired = tw.shots_fired + 1;
                tw.chills = tw.chills + n as u32;
                self.towers.set(t, tw);
                TowerAction::Froze { chilled: n as u32 }
            },
            _ => {
                let n = in_range.len();
                if n == 0 {
                    self.towers.set(t, tw);
                    return TowerAction::Idle;
                }
                let mut progress: Vec<u64> = Vec::new();
                let mut k: usize = 0;
                while k < n
                    invariant
                        k <= n,
                        n == in_range.len(),
                        progress.len() == k,
                        self.wf(),
                        lane_lengths.len() == self.lanes(),
                        forall|l: int| 0 <= l < lane_lengths.len() ==> #[trigger] lane_lengths@[l] > 0,
                        forall|q: int| 0 <= q < n ==> #[trigger] in_range@[q] < self.fruits.len(),
                        forall|q: int|
                            0 <= q < k ==> #[trigger] progress@[q] == spec_progress(
                                self.fruits@,
                                in_range@,
                                lane_lengths@,
                            )[q],
                    decreases n - k,
                {
                    let f = self.fruits[in_range[k]];
                    progress.push(f.progress(lane_lengths[f.lane]));
                    k = k + 1;
                }
                let ghost prog = spec_progress(self.fruits@, in_range@, lane_lengths@);
                assert(progress@ =~= prog);
                let first = rank_descending(&progress);
                let order = if tw.kind == TowerKind::BombLobber {
                    let mut keys: Vec<u64> = Vec::new();
                    let mut k: usize = 0;
                    while k < n
                        invariant
                            k <= n,
                            keys.len() == k,
                            first.len() == n,
                            caught.len() == n,
                            forall|a: int| 0 <= a < n ==> #[trigger] first@[a] < n,
                            forall|q: int|
                                0 <= q < k ==> #[trigger] keys@[q] == caught@[first@[q] as int] as u64,
                        decreases n - k,
                    {
                        keys.push(caught[first[k]] as u64);
                        k = k + 1;
                    }
                    let second = rank_descending(&keys);
                    let mut order: Vec<usize> = Vec::new();
                    let mut k: usize = 0;
                    while k < n
                        invariant
                            k <= n,
                            order.len() == k,
                            first.len() == n,
                            second.len() == n,
                            forall|a: int| 0 <= a < n ==> #[trigger] second@[a] < n,
                            forall|q: int|
                                0 <= q < k ==> #[trigger] order@[q] == first@[second@[q] as int],
                        decreases n - k,
                    {
                        order.push(first[second[k]]);
                        k = k + 1;
                    }
                    proof {
                        lemma_crowd_after_progress(prog, caught@, first@, keys@, second@, order@);
                    }
                    order
                } else {
                    proof {
                        assert forall|a: int, b: int| 0 <= a < b < first.len() implies aims_before(
                            tw.kind,
                            prog,
                            caught@,
                            #[trigger] first@[a] as int,
                            #[trigger] first@[b] as int,
                        ) by {
                            assert(ranks_before(prog, first@[a] as int, first@[b] as int));
                        }
                    }
                    first
                };
                assert(is_aim_order(tw.kind, prog, caught@, order@));
                let shots = tw.shots();
                let picks = volley_targets(shots, n);
                let mut targets: Vec<usize> = Vec::new();
                let mut k: usize = 0;
                while k < shots
                    invariant
                        k <= shots,
                        n == in_range.len(),
                        n > 0,
                        picks.len() == shots,
                        order.len() == n,
                        forall|a: int| 0 <= a < n ==> #[trigger] order@[a] < n,
                        forall|q: int| 0 <= q < shots ==> #[trigger] picks@[q] == q % (n as int),
                        targets.len() == k,
                        forall|q: int|
                            0 <= q < k ==> #[trigger] targets@[q] == in_range@[order@[q % (
                            n as int)] as int],
                    decreases shots - k,
                {
                    targets.push(in_range[order[picks[k]]]);
                    k = k + 1;
                }
                tw.reset_cooldown();
                assert(shots <= 5);
                tw.shots_fired = tw.shots_fired + shots as u32;
                self.towers.set(t, tw);
                TowerAction::Fired { targets }
            },
        }
    }
}

} // verus!
