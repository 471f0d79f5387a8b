use fruit_splat::fruit::{Fruit, FruitKind};
use fruit_splat::mode::{mode, DEFAULT_MODE};
use fruit_splat::run::{Purchase, Run, Screen, AUTO_WAVE_DELAY_MS, PLAYFIELD_H, PLAYFIELD_W, QUIT_ARM_MS};
use fruit_splat::tower::{SpikePile, TowerKind};
use fruit_splat::tracks::{track, TRACK_COUNT};
use fruit_splat::turn::TowerAction;
use fruit_splat::wave::{boss_count, build_wave, spawn_interval};

fn playing(route: usize) -> Run {
    let mut run = Run::new();
    run.start_run(route);
    run
}

fn place(run: &mut Run, kind: TowerKind, x: i32, y: i32) -> usize {
    run.toggle_selection(kind);
    assert!(run.try_place(x, y, true));
    run.towers.len() - 1
}

#[test]
fn a_new_game_opens_on_the_menu_with_the_default_hand() {
    let run = Run::new();
    let m = mode(DEFAULT_MODE);
    assert_eq!(run.state, Screen::Menu);
    assert_eq!((run.cash, run.lives, run.wave), (m.start_cash, m.start_lives, 1));
    assert_eq!(run.auto_timer_us, AUTO_WAVE_DELAY_MS as i64 * 1000);
}

#[test]
fn starting_a_run_deals_the_modes_hand_and_clamps_the_route() {
    let mut run = Run::new();
    run.choose_mode(2);
    run.start_run(99);
    assert_eq!(run.state, Screen::Playing);
    assert_eq!(run.track, TRACK_COUNT - 1);
    assert_eq!((run.cash, run.lives), (200, 8));
    assert_eq!(run.total_waves(), track(TRACK_COUNT - 1).waves);
}

#[test]
fn the_random_card_still_lands_on_a_real_route() {
    for _ in 0..20 {
        let mut run = Run::new();
        run.pick_card(TRACK_COUNT);
        assert!(run.track < TRACK_COUNT);
        assert_eq!(run.state, Screen::Playing);
    }
    let mut run = Run::new();
    run.pick_card(4);
    assert_eq!(run.track, 4);
    assert_eq!(run.lane_count(), 2);
}

#[test]
fn placing_a_tower_charges_its_price_and_needs_the_cash() {
    let mut run = playing(0);
    let before = run.cash;
    run.toggle_selection(TowerKind::SeedShooter);
    assert!(!run.try_place(100, 100, false), "a blocked spot takes nothing");
    assert_eq!(run.cash, before);
    assert!(run.try_place(100, 100, true));
    assert_eq!(run.cash, before - 90);
    assert_eq!(run.towers.len(), 1);
    assert_eq!(run.selected, None);

    run.cash = 10;
    run.toggle_selection(TowerKind::BombLobber);
    assert!(!run.try_place(200, 200, true));
    assert_eq!(run.selected, Some(TowerKind::BombLobber), "an unaffordable pick stays armed");
}

#[test]
fn upgrading_and_selling_settle_the_books() {
    let mut run = playing(0);
    run.cash = 1000;
    let t = place(&mut run, TowerKind::SeedShooter, 100, 100);
    assert_eq!(run.upgrade_selected(), Purchase::Unavailable, "nothing inspected");
    run.inspect(Some(t));
    assert_eq!(run.upgrade_selected(), Purchase::Done);
    assert_eq!(run.cash, 1000 - 90 - 70);
    assert_eq!(run.towers[t].level, 2);
    run.cash = 0;
    assert_eq!(run.upgrade_selected(), Purchase::Unaffordable);
    assert_eq!(run.towers[t].level, 2);
    run.cash = 0;
    run.sell_selected();
    assert_eq!(run.cash, 96, "60% of the 160 invested");
    assert!(run.towers.is_empty());
    assert_eq!(run.selected_tower, None);
}

#[test]
fn selling_a_spike_layer_takes_its_piles_with_it() {
    let mut run = playing(0);
    run.cash = 1000;
    let t = place(&mut run, TowerKind::SpikeLayer, 100, 100);
    let id = run.towers[t].id;
    run.spikes.push(SpikePile::new(0, 0, 0, 10_000, 4, id, 0, false));
    run.spikes.push(SpikePile::new(0, 0, 0, 90_000, 4, id + 50, 0, false));
    run.inspect(Some(t));
    run.sell_selected();
    assert_eq!(run.spikes.len(), 1);
    assert_eq!(run.spikes[0].owner, id + 50);
}

#[test]
fn a_wave_drains_its_queue_from_the_back_one_interval_at_a_time() {
    let mut run = playing(4);
    run.send_wave();
    assert!(run.wave_active);
    let queued = run.queue.len();
    assert_eq!(queued, build_wave(1, 44).len());
    let last = *run.queue.last().unwrap();
    assert!(run.spawn_from_queue(1000, 0));
    assert_eq!(run.queue.len(), queued - 1);
    assert_eq!(run.fruits[0].kind, last);
    assert_eq!(run.fruits[0].lane, 0);
    assert!(!run.fruits[0].shielded, "a share of nothing shields nothing");
    assert_eq!(run.next_lane, 1, "lanes are dealt in turn");
    assert_eq!(run.spawn_timer_us, spawn_interval(1) as i64 * 1000);
    assert!(!run.spawn_from_queue(1000, 0), "not due yet");
    assert!(run.spawn_from_queue(spawn_interval(1) * 1000, 0));
    assert_eq!(run.fruits[1].lane, 1);
    assert_eq!(run.next_lane, 0);
}

#[test]
fn a_full_shield_share_shields_every_fruit_but_the_boss() {
    let mut run = playing(4);
    run.wave_active = true;
    run.queue = vec![FruitKind::Blueberry, FruitKind::Durian, FruitKind::Watermelon];
    assert!(run.spawn_from_queue(0, 1000));
    assert_eq!(run.fruits[0].kind, FruitKind::Watermelon);
    assert!(run.fruits[0].shielded);
    assert!(run.spawn_from_queue(spawn_interval(1) * 1000, 1000));
    assert_eq!(run.fruits[1].kind, FruitKind::Durian);
    assert!(!run.fruits[1].shielded, "a boss never carries a shield");
    assert!(run.spawn_from_queue(spawn_interval(1) * 1000, 1000));
    assert!(run.fruits[2].shielded);
    assert_eq!(run.fruits[2].hp, Fruit::new(FruitKind::Blueberry, 0, 0, 1000).hp);
}

#[test]
fn a_leak_costs_lives_by_tier_and_never_below_zero() {
    let mut run = playing(0);
    run.lives = 20;
    run.fruits.push(Fruit::new(FruitKind::Watermelon, 0, 500, 1000));
    run.fruits.push(Fruit::new(FruitKind::Lime, 0, 100, 1000));
    run.fruits.push(Fruit::new(FruitKind::Durian, 0, 800, 1000));
    let leaked = run.handle_leaks(&vec![500]);
    assert_eq!(leaked, 2);
    assert_eq!(run.lives, 20 - 5 - 6);
    assert_eq!(run.fruits.len(), 1);
    assert_eq!(run.fruits[0].kind, FruitKind::Lime);

    run.lives = 3;
    run.fruits.push(Fruit::new(FruitKind::Orange, 0, 600, 1000));
    run.handle_leaks(&vec![500]);
    assert_eq!(run.lives, 0);
}

#[test]
fn a_cleared_wave_pays_its_bonus_and_clears_the_spikes() {
    let mut run = playing(0);
    run.wave_active = true;
    run.spikes.push(SpikePile::new(0, 0, 0, 100, 3, 0, 0, false));
    let cash = run.cash;
    assert!(run.check_wave_complete());
    assert_eq!(run.cash, cash + 17);
    assert_eq!(run.wave, 2);
    assert!(!run.wave_active);
    assert!(run.spikes.is_empty());
    assert!(!run.check_wave_complete(), "a wave only clears once");
}

#[test]
fn surviving_the_last_wave_wins_the_run() {
    let mut run = playing(1);
    run.wave = run.total_waves();
    run.wave_active = true;
    run.settle(0);
    assert_eq!(run.state, Screen::Victory);
    assert_eq!(run.wave, 42);
}

#[test]
fn losing_the_last_life_ends_the_run_before_the_wave_can_clear() {
    let mut run = playing(1);
    run.wave = run.total_waves();
    run.wave_active = true;
    run.lives = 0;
    let cash = run.cash;
    run.settle(0);
    assert_eq!(run.state, Screen::GameOver);
    assert_eq!(run.cash, cash, "no clear bonus on the way to the game over screen");
}

#[test]
fn auto_send_waits_its_delay_then_sends_the_next_wave() {
    let mut run = playing(0);
    run.toggle_auto();
    assert!(run.auto_wave);
    run.tick_auto_wave(AUTO_WAVE_DELAY_MS * 1000 - 1);
    assert!(!run.wave_active);
    run.tick_auto_wave(1);
    assert!(run.wave_active);
}

#[test]
fn a_step_that_clears_a_wave_counts_down_to_the_next_one_on_auto() {
    let mut run = playing(0);
    run.toggle_auto();
    run.wave_active = true;
    run.settle(1000);
    assert_eq!(run.wave, 2);
    assert!(!run.wave_active, "the cleared wave leaves a gap");
    assert_eq!(run.auto_timer_us, AUTO_WAVE_DELAY_MS as i64 * 1000 - 1000);
    run.settle(AUTO_WAVE_DELAY_MS * 1000);
    assert!(run.wave_active);
    assert_eq!(run.queue.len(), build_wave(2, run.total_waves()).len());
    assert_eq!(run.spawn_timer_us, 0);
}

#[test]
fn without_auto_a_cleared_wave_waits_for_the_player() {
    let mut run = playing(0);
    run.wave_active = true;
    run.settle(AUTO_WAVE_DELAY_MS * 1000 * 5);
    assert_eq!(run.wave, 2);
    assert!(!run.wave_active);
    assert!(run.queue.is_empty());
    assert_eq!(run.auto_timer_us, AUTO_WAVE_DELAY_MS as i64 * 1000);
}

#[test]
fn picking_a_route_starts_from_an_empty_board() {
    let mut run = playing(0);
    place(&mut run, TowerKind::SeedShooter, 100, 100);
    run.send_wave();
    run.toggle_pause();
    run.toggle_selection(TowerKind::SeedShooter);
    run.pick_card(2);
    assert_eq!(run.track, 2);
    assert!(run.towers.is_empty());
    assert!(run.fruits.is_empty());
    assert!(run.spikes.is_empty());
    assert!(run.queue.is_empty());
    assert!(!run.wave_active);
    assert!(!run.paused);
    assert_eq!(run.selected, None);
    assert_eq!(run.selected_tower, None);
    assert_eq!(run.wave, 1);
}

#[test]
fn quitting_takes_a_second_click() {
    let mut run = playing(0);
    run.click_quit();
    assert_eq!(run.state, Screen::Playing);
    assert_eq!(run.quit_armed_us, QUIT_ARM_MS as i64 * 1000);
    run.tick_quit(QUIT_ARM_MS * 1000);
    run.click_quit();
    assert_eq!(run.state, Screen::Playing, "the arm ran out, so this click only re-arms");
    run.click_quit();
    assert_eq!(run.state, Screen::Menu);
}

#[test]
fn a_burst_pays_at_the_bottom_of_the_ladder_and_credits_the_tower() {
    let mut run = playing(0);
    run.cash = 1000;
    let t = place(&mut run, TowerKind::SeedShooter, 100, 100);
    let id = run.towers[t].id;
    run.fruits.push(Fruit::new(FruitKind::Blueberry, 0, 100, 1000));
    run.fruits.push(Fruit::new(FruitKind::Strawberry, 0, 200, 1000));
    let cash = run.cash;
    let gone = run.apply_hits(vec![(0, id, false), (1, id + 9, false)]);
    assert_eq!(gone.len(), 2);
    assert_eq!(gone[0].kind, FruitKind::Strawberry, "the highest index leaves first");
    assert_eq!(run.cash, cash + 1, "only the blueberry pays");
    assert_eq!(run.towers[t].kills, 1);
    assert_eq!(run.fruits.len(), 2, "the strawberry left two blueberries behind");
    assert!(run.fruits.iter().all(|f| f.kind == FruitKind::Blueberry && f.dist == 200));
}

#[test]
fn spikes_chew_through_a_fruit_and_a_spent_pile_is_cleared_away() {
    let mut run = playing(0);
    run.spikes.push(SpikePile::new(0, 0, 0, 500_00, 1, 3, 0, false));
    run.fruits.push(Fruit::new(FruitKind::Lime, 0, 500_00, 1000));
    let gone = run.update_spikes();
    assert_eq!(gone.len(), 1);
    assert!(run.spikes.is_empty());
    assert_eq!(run.fruits.len(), 2, "the lime left two strawberries");
}

#[test]
fn a_tower_still_cooling_does_nothing() {
    let mut run = playing(0);
    let t = place(&mut run, TowerKind::SeedShooter, 100, 100);
    run.towers[t].cooldown_us = 5000;
    run.fruits.push(Fruit::new(FruitKind::Lime, 0, 100, 1000));
    let lanes = vec![100_000];
    let action = run.tower_turn(t, 1000, &vec![0], &vec![1], &vec![], &lanes);
    assert!(matches!(action, TowerAction::Idle));
    assert_eq!(run.towers[t].cooldown_us, 4000);
    assert_eq!(run.towers[t].shots_fired, 0);
}

#[test]
fn a_ready_tower_fires_its_whole_volley_at_the_leader_first() {
    let mut run = playing(0);
    run.cash = 1000;
    let t = place(&mut run, TowerKind::TripleSeeder, 100, 100);
    run.fruits.push(Fruit::new(FruitKind::Lime, 0, 10_000, 1000));
    run.fruits.push(Fruit::new(FruitKind::Lime, 0, 90_000, 1000));
    let lanes = vec![100_000];
    let action = run.tower_turn(t, 16_000, &vec![0, 1], &vec![1, 1], &vec![], &lanes);
    match action {
        TowerAction::Fired { targets } => assert_eq!(targets, vec![1, 0, 1]),
        other => panic!("expected a volley, got {other:?}"),
    }
    assert_eq!(run.towers[t].shots_fired, 3);
    assert_eq!(run.towers[t].cooldown_us, TowerKind::TripleSeeder.cooldown(1) as i64 * 1000);
}

#[test]
fn nothing_in_reach_keeps_the_cooldown_unspent() {
    let mut run = playing(0);
    let t = place(&mut run, TowerKind::SeedShooter, 100, 100);
    let action = run.tower_turn(t, 16_000, &vec![], &vec![], &vec![], &vec![100_000]);
    assert!(matches!(action, TowerAction::Idle));
    assert!(run.towers[t].ready());
    assert_eq!(run.towers[t].shots_fired, 0);
}

#[test]
fn a_bomb_lobber_aims_at_the_crowd() {
    let mut run = playing(0);
    run.cash = 2000;
    let t = place(&mut run, TowerKind::BombLobber, 100, 100);
    run.fruits.push(Fruit::new(FruitKind::Lime, 0, 90_000, 1000));
    run.fruits.push(Fruit::new(FruitKind::Lime, 0, 30_000, 1000));
    run.fruits.push(Fruit::new(FruitKind::Lime, 0, 31_000, 1000));
    let action = run.tower_turn(t, 16_000, &vec![0, 1, 2], &vec![1, 2, 2], &vec![], &vec![100_000]);
    match action {
        TowerAction::Fired { targets } => assert_eq!(targets, vec![2], "the crowd, and of the crowd the one further along"),
        other => panic!("expected a shell, got {other:?}"),
    }
}

#[test]
fn a_freezer_chills_everything_in_reach_and_counts_it() {
    let mut run = playing(0);
    run.cash = 1000;
    let t = place(&mut run, TowerKind::Freezer, 100, 100);
    run.fruits.push(Fruit::new(FruitKind::Lime, 0, 10_000, 1000));
    run.fruits.push(Fruit::new(FruitKind::Lime, 0, 20_000, 1000));
    run.fruits.push(Fruit::new(FruitKind::Lime, 0, 30_000, 1000));
    let action = run.tower_turn(t, 16_000, &vec![2, 0], &vec![1, 1], &vec![], &vec![100_000]);
    match action {
        TowerAction::Froze { chilled } => assert_eq!(chilled, 2),
        other => panic!("expected a pulse, got {other:?}"),
    }
    let factor = TowerKind::Freezer.slow_factor(1);
    assert_eq!(run.fruits[0].chill, factor);
    assert_eq!(run.fruits[1].chill, 100, "out of reach, left alone");
    assert_eq!(run.fruits[2].chill_left_us, TowerKind::Freezer.freeze_duration(1) as u64 * 1000);
    assert_eq!((run.towers[t].shots_fired, run.towers[t].chills), (1, 2));
}

#[test]
fn a_spike_layer_only_lays_during_a_wave_and_only_on_clear_track() {
    let mut run = playing(0);
    run.cash = 1000;
    let t = place(&mut run, TowerKind::SpikeLayer, 100, 100);
    let spots = vec![(0usize, 50_000u32, 90i32, 100i32), (0, 80_000, 120, 100)];
    let lanes = vec![100_000];

    let action = run.tower_turn(t, 16_000, &vec![], &vec![], &spots, &lanes);
    assert!(matches!(action, TowerAction::Idle), "nothing is laid between waves");
    assert!(run.spikes.is_empty());

    run.wave_active = true;
    run.spikes.push(SpikePile::new(0, 0, 0, 50_000, 4, 99, 0, false));
    let action = run.tower_turn(t, 16_000, &vec![], &vec![], &spots, &lanes);
    assert!(matches!(action, TowerAction::LaidSpikes));
    assert_eq!(run.spikes.len(), 2);
    let pile = run.spikes[1];
    assert_eq!((pile.lane, pile.dist, pile.x, pile.y), (0, 80_000, 120, 100), "the only clear spot");
    assert_eq!(pile.owner, run.towers[t].id);
    assert_eq!(pile.charges, TowerKind::SpikeLayer.spike_charges(1));
    assert!(pile.rot < 360);

    run.towers[t].cooldown_us = 0;
    let action = run.tower_turn(t, 16_000, &vec![], &vec![], &spots, &lanes);
    assert!(matches!(action, TowerAction::Idle), "every spot is taken");
    assert!(run.towers[t].ready(), "the cooldown is kept for when a gap opens");
}

#[test]
fn the_boss_schedule_reaches_the_run() {
    let mut run = playing(1);
    run.wave = 15;
    run.start_wave();
    let durians = run.queue.iter().filter(|k| k.is_boss()).count() as u32;
    assert_eq!(durians, boss_count(15, 42));
    assert_eq!(durians, 1);
}

#[test]
fn fast_forward_runs_two_steps_a_frame() {
    let mut run = playing(0);
    assert_eq!(run.world_steps(), 1);
    run.toggle_fast();
    assert_eq!(run.world_steps(), 2);
}

#[test]
fn towers_keep_inside_the_field_and_apart() {
    let mut run = playing(0);
    run.cash = 1000;
    assert!(run.spot_open(20, 20));
    assert!(!run.spot_open(19, 100), "the footprint would hang off the left edge");
    assert!(!run.spot_open(100, PLAYFIELD_H as i32 - 19));
    assert!(run.spot_open(PLAYFIELD_W as i32 - 20, 100));
    place(&mut run, TowerKind::SeedShooter, 300, 300);
    assert!(!run.spot_open(339, 300), "two footprints would overlap");
    assert!(run.spot_open(340, 300));
    assert!(!run.spot_open(324, 324), "576 + 576 is short of 1600");
    run.toggle_selection(TowerKind::SeedShooter);
    assert!(!run.try_place(310, 310, true));
    assert!(!run.try_place(500, 500, false), "a lane in the way blocks it too");
    assert!(run.try_place(500, 500, true));
}

#[test]
fn a_held_game_steps_nothing_and_holds_the_quit_clock() {
    let mut run = playing(0);
    run.toggle_fast();
    run.click_quit();
    run.toggle_pause();
    assert_eq!(run.world_steps(), 0);
    run.tick_quit(QUIT_ARM_MS * 1000);
    assert_eq!(run.quit_armed_us, QUIT_ARM_MS as i64 * 1000, "the arm does not lapse while held");
    run.toggle_pause();
    assert_eq!(run.world_steps(), 2);
    run.tick_quit(1000);
    assert_eq!(run.quit_armed_us, QUIT_ARM_MS as i64 * 1000 - 1000);
}

#[test]
fn an_upgrade_goes_through_exactly_when_it_exists_and_is_affordable() {
    let mut run = playing(0);
    run.cash = 1000;
    let t = place(&mut run, TowerKind::Freezer, 100, 100);
    run.inspect(Some(t));
    let cost = run.towers[t].upgrade_cost().unwrap();
    run.cash = cost;
    assert_eq!(run.upgrade_selected(), Purchase::Done);
    assert_eq!(run.cash, 0);
    run.cash = 100_000;
    assert_eq!(run.upgrade_selected(), Purchase::Done);
    assert_eq!(run.upgrade_selected(), Purchase::Unavailable, "maxed");
}
