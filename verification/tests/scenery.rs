use fruit_splat::scenery::{prop_mix, theme, PropKind, Rng, Theme};
use fruit_splat::tracks::TRACK_COUNT;

#[test]
fn the_local_rng_stays_in_range_and_does_not_stall() {
    let mut rng = Rng::new(1);
    let mut seen_low = false;
    let mut seen_high = false;

    for _ in 0..2000 {
        let u = rng.unit_bits() as f32 / (1u32 << 24) as f32;
        assert!((0.0..1.0).contains(&u), "unit() escaped [0,1): {u}");
        if u < 0.25 {
            seen_low = true;
        }
        if u > 0.75 {
            seen_high = true;
        }
    }
    assert!(seen_low && seen_high, "rng never covered the range");
}

#[test]
fn below_never_exceeds_its_bound() {
    let mut rng = Rng::new(7);
    for _ in 0..500 {
        assert!(rng.below(6) < 6);
    }
    assert_eq!(rng.below(0), 0);
}

#[test]
fn a_seed_is_forced_odd_and_the_sequence_is_repeatable() {
    assert_eq!(Rng::new(4).state, 5);
    let (mut a, mut b) = (Rng::new(42), Rng::new(42));
    for _ in 0..100 {
        assert_eq!(a.next(), b.next());
    }
    let mut r = Rng::new(1);
    // One xorshift step (13, 7, 17) from 1.
    let x: u64 = 1;
    let x = x ^ (x << 13);
    let x = x ^ (x >> 7);
    let x = x ^ (x << 17);
    assert_eq!(r.next(), x);
    assert_eq!(r.state, x);
}

#[test]
fn every_route_gets_a_theme_and_props_to_draw_from() {
    for track in 0..TRACK_COUNT {
        let (bag, count) = prop_mix(theme(track));
        assert!(!bag.is_empty(), "route {track} has nothing to place");
        assert!(count > 0, "route {track} places no scenery");
    }
}

#[test]
fn routes_wear_their_own_themes() {
    assert_eq!(theme(0), Theme::Orchard);
    assert_eq!(theme(1), Theme::Market);
    assert_eq!(theme(4), Theme::Highland);
    assert_eq!(theme(5), Theme::Meadow);
    assert_eq!(theme(6), Theme::Garden);
    assert_eq!(theme(7), Theme::Grove, "past the known routes, the grove");
    assert_eq!(theme(99), Theme::Grove);
}

#[test]
fn every_route_wears_a_theme_of_its_own() {
    for i in 0..TRACK_COUNT {
        for j in (i + 1)..TRACK_COUNT {
            assert_ne!(theme(i), theme(j), "routes {i} and {j} look alike");
        }
    }
}

#[test]
fn a_pond_needs_more_room_than_a_bush() {
    assert!(PropKind::Pond.clearance() > PropKind::Bush.clearance());
    assert!(PropKind::Tree.clearance() > PropKind::Flowers.clearance());
}
