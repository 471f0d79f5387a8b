use fruit_splat::fruit::{Fruit, FruitKind, FRUIT_BASE_SPEED};

const LADDER: [FruitKind; 6] = [
    FruitKind::Blueberry,
    FruitKind::Strawberry,
    FruitKind::Lime,
    FruitKind::Orange,
    FruitKind::Watermelon,
    FruitKind::Durian,
];

fn clear_hits(k: FruitKind) -> u32 {
    match k.child() {
        None => k.armour(),
        Some(c) => k.armour() + k.split_count() * clear_hits(c),
    }
}

#[test]
fn the_ladder_climbs_one_tier_at_a_time() {
    for (i, k) in LADDER.iter().enumerate() {
        assert_eq!(k.tier() as usize, i);
        if i < 5 {
            assert_eq!(FruitKind::from_tier(i as u8), *k);
        }
    }
    assert_eq!(FruitKind::from_tier(5), FruitKind::Watermelon, "the ladder never drifts into the boss");
    assert_eq!(FruitKind::from_tier(200), FruitKind::Watermelon);
}

#[test]
fn each_fruit_splits_into_the_tier_below() {
    assert_eq!(FruitKind::Blueberry.child(), None);
    assert_eq!(FruitKind::Strawberry.child(), Some(FruitKind::Blueberry));
    assert_eq!(FruitKind::Watermelon.child(), Some(FruitKind::Orange));
    assert_eq!(FruitKind::Durian.child(), Some(FruitKind::Watermelon));
    assert_eq!(FruitKind::Durian.split_count(), 4);
    assert_eq!(FruitKind::Lime.split_count(), 2);
}

#[test]
fn clearing_a_fruit_takes_its_whole_subtree() {
    let hits: Vec<u32> = LADDER.iter().map(|k| clear_hits(*k)).collect();
    assert_eq!(hits, vec![1, 3, 7, 15, 31, 184]);
}

#[test]
fn a_leak_costs_one_life_per_tier_plus_one() {
    let costs: Vec<u32> = LADDER.iter().map(|k| k.leak_cost()).collect();
    assert_eq!(costs, vec![1, 2, 3, 4, 5, 6]);
    assert!(FruitKind::Durian.is_boss());
    assert!(!FruitKind::Watermelon.is_boss());
}

#[test]
fn bigger_fruit_are_wider_and_slower() {
    for w in LADDER.windows(2) {
        assert!(w[1].radius() > w[0].radius());
        assert!(w[1].speed_scale() < w[0].speed_scale());
    }
}

#[test]
fn a_burst_leaves_its_children_where_it_stood() {
    let mut parent = Fruit::new(FruitKind::Orange, 1, 12_345, 1200);
    parent.chill(40, 1000);
    let kids = parent.split();
    assert_eq!(kids.len(), 2);
    for k in &kids {
        assert_eq!(k.kind, FruitKind::Lime);
        assert_eq!((k.lane, k.dist, k.ramp), (1, 12_345, 1200));
        assert_eq!(k.hp, 1);
        assert!(!k.shielded);
        assert_eq!((k.chill, k.chill_left_us), (100, 0), "children start unchilled");
    }
    assert!(Fruit::new(FruitKind::Blueberry, 0, 0, 1000).split().is_empty());
}

#[test]
fn a_hit_takes_one_point_of_armour_and_a_shield_turns_weak_hits_away() {
    let mut boss = Fruit::new(FruitKind::Durian, 0, 0, 1000);
    assert_eq!(boss.hp, 60);
    assert!(!boss.take_hit(false));
    assert_eq!(boss.hp, 59);

    let mut shielded = Fruit::new(FruitKind::Lime, 0, 0, 1000).with_shield();
    assert!(!shielded.take_hit(false));
    assert_eq!(shielded.hp, 1);
    assert!(shielded.take_hit(true));
    assert_eq!(shielded.hp, 0);
    assert!(!shielded.take_hit(true), "a burst fruit only bursts once");
}

#[test]
fn walking_speed_follows_kind_ramp_and_chill() {
    let lime = Fruit::new(FruitKind::Lime, 0, 0, 1000);
    assert_eq!(lime.speed(), FRUIT_BASE_SPEED as u64 * 100);
    let blueberry = Fruit::new(FruitKind::Blueberry, 0, 0, 2000);
    assert_eq!(blueberry.speed(), 115 * 138 * 2000 * 100 / 100_000);
    let mut slowed = lime;
    slowed.chill(50, 1000);
    assert_eq!(slowed.speed(), 5750);
}

#[test]
fn chills_keep_the_strongest_slow_and_the_longest_time() {
    let mut f = Fruit::new(FruitKind::Lime, 0, 0, 1000);
    f.chill(45, 1600);
    assert_eq!((f.chill, f.chill_left_us), (45, 1_600_000));
    f.chill(35, 1000);
    assert_eq!((f.chill, f.chill_left_us), (35, 1_600_000));
    f.chill(45, 2300);
    assert_eq!((f.chill, f.chill_left_us), (35, 2_300_000));
}

#[test]
fn a_fruit_walks_then_its_chill_wears_off() {
    let mut f = Fruit::new(FruitKind::Lime, 0, 0, 1000);
    f.chill(50, 1000);
    f.advance(500_000);
    assert_eq!(f.dist, 2875);
    assert_eq!(f.chill_left_us, 500_000);
    f.advance(500_000);
    assert_eq!(f.dist, 5750);
    assert_eq!((f.chill, f.chill_left_us), (100, 0));
    f.advance(1_000_000);
    assert_eq!(f.dist, 17_250);
}

#[test]
fn progress_is_a_share_of_the_lane_and_reaching_the_end_is_a_leak() {
    let f = Fruit::new(FruitKind::Lime, 0, 50_000, 1000);
    assert_eq!(f.progress(200_000), 250_000);
    assert!(!f.reached_end(50_001));
    assert!(f.reached_end(50_000));
}

#[test]
fn overlapping_pulses_stack_the_same_in_either_order() {
    let base = Fruit::new(FruitKind::Orange, 0, 0, 1000);
    let (mut one, mut two) = (base, base);
    one.chill(45, 1600);
    one.chill(25, 900);
    two.chill(25, 900);
    two.chill(45, 1600);
    assert_eq!((one.chill, one.chill_left_us), (two.chill, two.chill_left_us));
    assert_eq!((one.chill, one.chill_left_us), (25, 1_600_000));
}
