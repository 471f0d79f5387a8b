use fruit_splat::fruit::FruitKind;
use fruit_splat::mode::{mode, MODE_COUNT};
use fruit_splat::wave::{
    boss_count, build_wave, clear_bonus, spawn_interval, speed_multiplier, FIRST_BOSS_WAVE,
};

/// A route long enough that no wave under test is accidentally its finale.
const LONG_ROUTE: u32 = 1000;

fn top_tier(wave: u32, total_waves: u32) -> u8 {
    build_wave(wave, total_waves)
        .iter()
        .map(|f| f.tier())
        .max()
        .unwrap()
}

/// Total hits needed to fully clear one fruit and everything it splits into.
fn subtree_hits(kind: FruitKind) -> u32 {
    match kind.child() {
        None => kind.armour(),
        Some(c) => kind.armour() + kind.split_count() * subtree_hits(c),
    }
}

/// Fruit at the bottom of the ladder in one fruit's subtree: the ones that pay.
fn subtree_payout(kind: FruitKind) -> u32 {
    match kind.child() {
        None => 1,
        Some(c) => kind.split_count() * subtree_payout(c),
    }
}

#[test]
fn the_opening_waves_are_bottom_tier_only() {
    for w in 1..=3 {
        assert_eq!(top_tier(w, LONG_ROUTE), 0, "wave {w} should be blueberries only");
    }
}

#[test]
fn a_new_tier_unlocks_every_third_wave() {
    assert_eq!(top_tier(4, LONG_ROUTE), 1);
    assert_eq!(top_tier(7, LONG_ROUTE), 2);
    assert_eq!(top_tier(10, LONG_ROUTE), 3);
    assert_eq!(top_tier(13, LONG_ROUTE), 4);
}

#[test]
fn the_tier_ladder_tops_out_at_the_watermelon() {
    for w in [59u32, 501] {
        assert_eq!(boss_count(w, LONG_ROUTE), 0, "picked a boss wave by accident");
        assert_eq!(top_tier(w, LONG_ROUTE), 4);
    }
}

#[test]
fn the_only_fruit_above_a_watermelon_are_the_bosses_the_wave_sends() {
    for w in 1..=40u32 {
        let queue = build_wave(w, 40);
        let durians = queue.iter().filter(|f| f.is_boss()).count() as u32;

        assert_eq!(durians, boss_count(w, 40), "wave {w} sent the wrong count");
        assert!(
            queue.iter().all(|f| f.tier() <= 4 || f.is_boss()),
            "wave {w} sent something above a watermelon that is not a boss"
        );
    }
}

#[test]
fn every_wave_sends_something() {
    for w in 1..=40 {
        assert!(!build_wave(w, 40).is_empty(), "wave {w} was empty");
    }
}

#[test]
fn no_boss_arrives_before_the_first_boss_wave() {
    for w in 1..FIRST_BOSS_WAVE {
        assert_eq!(boss_count(w, LONG_ROUTE), 0, "wave {w} sent a boss early");
        assert_eq!(boss_count(w, w), 0, "a short route's finale sent a boss");
    }
}

#[test]
fn the_final_wave_of_a_route_is_always_a_boss_wave() {
    for total in FIRST_BOSS_WAVE..=40 {
        assert!(boss_count(total, total) >= 1, "a {total}-wave route ends without a boss");
    }
}

#[test]
fn bosses_escalate_by_count() {
    assert_eq!(boss_count(15, 25), 1);
    assert_eq!(boss_count(20, 25), 2);
    assert_eq!(boss_count(25, 25), 3);

    let mut prev = 0;
    for w in FIRST_BOSS_WAVE..=60 {
        let n = boss_count(w, 60);
        if n > 0 {
            assert!(n >= prev, "boss count went backwards at wave {w}");
            prev = n;
        }
    }
}

#[test]
fn the_waves_between_milestones_send_no_boss() {
    for w in [16u32, 17, 18, 19, 21, 22, 23, 24] {
        assert_eq!(boss_count(w, LONG_ROUTE), 0, "wave {w} should be quiet");
    }
}

#[test]
fn a_boss_arrives_once_the_wave_is_already_under_way() {
    let queue = build_wave(25, 25);
    let len = queue.len();

    for (i, f) in queue.iter().enumerate() {
        if f.is_boss() {
            assert!(i * 3 <= len, "boss at index {i} of {len} spawns too early in the order");
        }
    }
}

#[test]
fn a_boss_wave_is_a_real_step_up_in_work() {
    let quiet: u32 = build_wave(14, 25).iter().copied().map(subtree_hits).sum();
    let boss: u32 = build_wave(15, 25).iter().copied().map(subtree_hits).sum();

    assert!(
        boss as f32 > quiet as f32 * 1.25,
        "a boss wave should cost at least a quarter more: {quiet} -> {boss}"
    );
}

#[test]
fn a_durian_is_worth_four_watermelons_at_the_till() {
    assert_eq!(
        subtree_payout(FruitKind::Durian),
        4 * subtree_payout(FruitKind::Watermelon)
    );
}

#[test]
fn the_speed_ramp_starts_at_one_and_only_climbs() {
    for i in 0..MODE_COUNT {
        let m = mode(i);
        assert_eq!(speed_multiplier(1, &m), 1000, "{} must open at base speed", m.name);

        let mut prev = 0;
        for w in 1..=60 {
            let s = speed_multiplier(w, &m);
            assert!(s >= prev, "{} went backwards at wave {w}", m.name);
            prev = s;
        }
    }
}

#[test]
fn the_speed_ramp_is_capped() {
    for i in 0..MODE_COUNT {
        let m = mode(i);
        for w in [30u32, 100, 10_000, u32::MAX] {
            assert!(speed_multiplier(w, &m) <= m.max_speed, "{} blew its cap", m.name);
        }
    }
}

#[test]
fn wave_zero_does_not_underflow_the_ramp() {
    for i in 0..MODE_COUNT {
        let m = mode(i);
        assert_eq!(speed_multiplier(0, &m), 1000, "{}", m.name);
    }
}

#[test]
fn spawn_interval_never_drops_below_its_floor() {
    for w in 1..=500 {
        assert!(spawn_interval(w) >= 160, "wave {w} spawns faster than the floor");
    }
}

#[test]
fn the_spawn_interval_follows_its_two_slopes() {
    assert_eq!(spawn_interval(1), 830);
    assert_eq!(spawn_interval(10), 650);
    assert_eq!(spawn_interval(28), 300);
    assert_eq!(spawn_interval(40), 240);
    assert_eq!(spawn_interval(56), 160);
    assert_eq!(spawn_interval(1000), 160);
}

#[test]
fn the_medium_ramp_reaches_its_cap_on_a_long_run() {
    let medium = mode(1);
    assert_eq!(speed_multiplier(2, &medium), 1035);
    assert_eq!(speed_multiplier(25, &medium), 1840);
    assert_eq!(speed_multiplier(200, &medium), 1900);
    let easy = mode(0);
    assert_eq!(speed_multiplier(25, &easy), 1350);
}

#[test]
fn clearing_a_wave_pays_a_bonus_that_grows_with_the_wave() {
    assert_eq!(clear_bonus(1), 17);
    assert_eq!(clear_bonus(10), 35);
    assert_eq!(clear_bonus(40), 95);
}

#[test]
fn the_wave_mix_counts_each_tier() {
    // Wave 13: top tier 4 just unlocked. Debut 3 + 13/6 = 5, the tier below
    // 5 + 13/3 = 9, the rest 3 + 13/5 = 5 each.
    let queue = build_wave(13, LONG_ROUTE);
    let count = |t: u8| queue.iter().filter(|f| f.tier() == t).count();
    assert_eq!(count(4), 5);
    assert_eq!(count(3), 9);
    assert_eq!(count(2), 5);
    assert_eq!(count(1), 5);
    assert_eq!(count(0), 5);
    assert_eq!(queue.len(), 29);
}

#[test]
fn bosses_are_slotted_into_the_first_third_of_the_finished_queue() {
    let mut queue = vec![FruitKind::Blueberry; 10];
    fruit_splat::wave::add_bosses(&mut queue, 2);
    let at: Vec<usize> = queue.iter().enumerate().filter(|(_, k)| k.is_boss()).map(|(i, _)| i).collect();
    assert_eq!(at, vec![2, 4]);
    assert_eq!(queue.len(), 12);

    let mut none = vec![FruitKind::Lime; 4];
    fruit_splat::wave::add_bosses(&mut none, 0);
    assert_eq!(none, vec![FruitKind::Lime; 4]);
}
