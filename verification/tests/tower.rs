use fruit_splat::tower::{
    all_kinds, SpikePile, Tower, TowerKind, MAX_LEVEL, SPIKE_RADIUS, TOWER_KIND_COUNT,
};

fn pile(lane: usize, dist_px: u32, charges: u32) -> SpikePile {
    SpikePile::new(0, 0, lane, dist_px * 100, charges, 0, 0, false)
}

#[test]
fn every_tower_maxes_out_at_level_three() {
    for kind in all_kinds() {
        assert!(kind.upgrade_cost(1).is_some());
        assert!(kind.upgrade_cost(2).is_some());
        assert!(kind.upgrade_cost(MAX_LEVEL).is_none());
    }
}

#[test]
fn upgrading_never_makes_a_tower_worse() {
    for kind in all_kinds() {
        for level in 1..MAX_LEVEL {
            let (lo, hi) = (level, level + 1);
            assert!(kind.range(hi) >= kind.range(lo), "range regressed");
            assert!(kind.cooldown(hi) <= kind.cooldown(lo), "rate regressed");
            assert!(kind.splash_radius(hi) >= kind.splash_radius(lo), "splash regressed");
            assert!(kind.slow_factor(hi) <= kind.slow_factor(lo));
            assert!(kind.freeze_duration(hi) >= kind.freeze_duration(lo));
            assert!(kind.pierce(hi) >= kind.pierce(lo), "pierce regressed");
            assert!(kind.spike_charges(hi) >= kind.spike_charges(lo), "spike charges regressed");
        }
    }
}

#[test]
fn only_the_spike_layer_lays_spikes() {
    for level in 1..=MAX_LEVEL {
        for kind in all_kinds() {
            let lays = kind == TowerKind::SpikeLayer;
            assert_eq!(kind.spike_charges(level) > 0, lays, "{} spike charges at Lv{level}", kind.name());
        }
    }
}

#[test]
fn a_pile_only_covers_fruit_near_it_along_the_track() {
    let pile = pile(0, 500, 4);

    assert!(pile.covers(0, 500 * 100, 10), "fruit on the pile missed it");
    assert!(pile.covers(0, (500 + SPIKE_RADIUS + 9) * 100, 10), "edge case missed");
    assert!(!pile.covers(0, 700 * 100, 10), "pile reached down the track");
    assert!(!pile.covers(0, 300 * 100, 10));
}

#[test]
fn a_pile_never_touches_another_lane() {
    let pile = pile(0, 500, 4);

    assert!(pile.covers(0, 500 * 100, 10), "own lane missed");
    assert!(!pile.covers(1, 500 * 100, 10), "pile reached across lanes");
}

#[test]
fn a_pile_is_spent_only_once_its_charges_run_out() {
    let mut pile = pile(0, 0, 2);
    assert!(!pile.spent());
    pile.charges -= 1;
    assert!(!pile.spent());
    pile.charges -= 1;
    assert!(pile.spent());
}

#[test]
fn only_the_knife_thrower_pierces() {
    for level in 1..=MAX_LEVEL {
        assert!(TowerKind::KnifeThrower.pierce(level) > 1);
        for kind in [TowerKind::SeedShooter, TowerKind::Blender, TowerKind::Freezer] {
            assert_eq!(kind.pierce(level), 1, "{} should not pierce", kind.name());
        }
    }
}

#[test]
fn every_tower_kind_has_a_distinct_name_and_colour() {
    let kinds = all_kinds();
    assert_eq!(kinds.len(), TOWER_KIND_COUNT);
    for (i, a) in kinds.iter().enumerate() {
        for b in kinds.iter().skip(i + 1) {
            assert_ne!(a.name(), b.name());
            assert_ne!(a.short_name(), b.short_name());
        }
    }
}

#[test]
fn level_index_clamps_instead_of_panicking() {
    for kind in all_kinds() {
        assert_eq!(kind.range(0), kind.range(1));
        assert_eq!(kind.range(99), kind.range(MAX_LEVEL));
    }
}

#[test]
fn selling_refunds_a_fraction_of_everything_invested() {
    let mut t = Tower::new(TowerKind::SeedShooter, 0, 0, 0);
    assert_eq!(t.invested, 90);
    assert_eq!(t.sell_value(), 54);

    let cost = t.upgrade_cost().unwrap();
    t.upgrade(cost);
    assert_eq!(t.level, 2);
    assert_eq!(t.invested, 160);
    assert_eq!(t.sell_value(), 96);
}

#[test]
fn selling_never_pays_more_than_was_spent() {
    for kind in all_kinds() {
        let mut t = Tower::new(kind, 0, 0, 0);
        while let Some(cost) = t.upgrade_cost() {
            t.upgrade(cost);
        }
        assert!(t.sell_value() < t.invested);
    }
}

#[test]
fn a_maxed_tower_cannot_be_upgraded_further() {
    let mut t = Tower::new(TowerKind::Blender, 0, 0, 0);
    while let Some(cost) = t.upgrade_cost() {
        t.upgrade(cost);
    }
    assert_eq!(t.level, MAX_LEVEL);

    let before = t.invested;
    t.upgrade(999);
    assert_eq!(t.level, MAX_LEVEL);
    assert_eq!(t.invested, before);
}

#[test]
fn only_the_multi_target_towers_engage_more_than_one_fruit() {
    assert_eq!(TowerKind::SeedShooter.shots(1), 1);
    assert_eq!(TowerKind::SeedShooter.shots(3), 2);
    assert_eq!(TowerKind::TripleSeeder.shots(1), 3);
    assert_eq!(TowerKind::TripleSeeder.shots(3), 5);

    let multi = [TowerKind::SeedShooter, TowerKind::TripleSeeder];
    for kind in all_kinds() {
        if multi.contains(&kind) {
            continue;
        }
        for level in 1..=MAX_LEVEL {
            assert_eq!(kind.shots(level), 1, "{} at Lv{level}", kind.name());
        }
    }
}

#[test]
fn the_triple_seeder_puts_out_far_more_than_a_seed_shooter() {
    for level in 1..=MAX_LEVEL {
        let rate = |k: TowerKind| k.shots(level) as f32 / (k.cooldown(level) as f32 / 1000.0);
        let (triple, seed) = (rate(TowerKind::TripleSeeder), rate(TowerKind::SeedShooter));
        assert!(triple >= seed * 1.8, "Lv{level}: Triple Seeder {triple:.2}/s against Seed Shooter {seed:.2}/s");
    }
}

#[test]
fn a_triple_seeder_is_worth_more_than_its_price_in_seed_shooters() {
    let per_dollar =
        |k: TowerKind| k.shots(1) as f32 / (k.cooldown(1) as f32 / 1000.0) / k.cost() as f32;
    let (triple, seed) = (per_dollar(TowerKind::TripleSeeder), per_dollar(TowerKind::SeedShooter));
    assert!(triple >= seed, "the Triple Seeder buys {triple:.4} shots/s per dollar, the Seed Shooter {seed:.4}");
}

#[test]
fn answering_a_crowd_outright_costs_more_than_working_through_one() {
    let crowd = [TowerKind::TripleSeeder, TowerKind::BombLobber];

    for answer in crowd {
        for kind in all_kinds() {
            if crowd.contains(&kind) {
                continue;
            }
            assert!(answer.cost() > kind.cost(), "the {} is not dearer than the {}", answer.name(), kind.name());
        }
    }
}

#[test]
fn the_bomb_lobber_is_the_dearest_and_the_slowest_of_the_shooters() {
    let bomb = TowerKind::BombLobber;

    for kind in all_kinds() {
        if kind == bomb {
            continue;
        }
        assert!(bomb.cost() > kind.cost(), "the Bomb Lobber is not dearer than the {}", kind.name());
        if kind == TowerKind::SpikeLayer {
            continue;
        }
        for level in 1..=MAX_LEVEL {
            assert!(
                bomb.cooldown(level) > kind.cooldown(level),
                "at Lv{level} the Bomb Lobber fires no slower than the {}",
                kind.name()
            );
        }
    }
}

#[test]
fn the_bomb_lobber_clears_far_more_ground_than_the_blender() {
    for level in 1..=MAX_LEVEL {
        let (bomb, blender) =
            (TowerKind::BombLobber.splash_radius(level), TowerKind::Blender.splash_radius(level));
        assert!(
            bomb as f32 >= blender as f32 * 1.7,
            "at Lv{level} the blast is {bomb} against the Blender's {blender}"
        );
    }
}

#[test]
fn the_bomb_lobber_reaches_less_far_than_it_clears() {
    for level in 1..=MAX_LEVEL {
        let kind = TowerKind::BombLobber;
        assert!(
            kind.splash_radius(level) * 2 > kind.range(level),
            "at Lv{level} the blast no longer spans a useful part of the range"
        );
    }
}

#[test]
fn a_tower_counts_down_to_ready_and_starts_over_when_it_acts() {
    let mut t = Tower::new(TowerKind::SeedShooter, 10, 20, 7);
    assert!(t.ready());
    t.reset_cooldown();
    assert_eq!(t.cooldown_us, TowerKind::SeedShooter.cooldown(1) as i64 * 1000);
    assert!(!t.ready());
    t.tick(t.cooldown_us as u32 - 1);
    assert!(!t.ready());
    t.tick(1);
    assert!(t.ready());
    assert_eq!((t.x, t.y, t.id), (10, 20, 7));
}

#[test]
fn the_tower_list_follows_the_shop_order() {
    let kinds = all_kinds();
    assert_eq!(kinds[0], TowerKind::SeedShooter);
    assert_eq!(kinds[kinds.len() - 1], TowerKind::BombLobber);
    for (i, k) in kinds.iter().enumerate() {
        assert_eq!(fruit_splat::tower::kind_at(i), *k);
    }
}
