use fruit_splat::mode::{mode, Mode, DEFAULT_MODE, MODE_COUNT, TUNED_CASH, TUNED_LIVES};
use fruit_splat::wave::{speed_multiplier, TUNED_MAX_SPEED, TUNED_SPEED_RAMP};

fn modes() -> Vec<Mode> {
    (0..MODE_COUNT).map(mode).collect()
}

#[test]
fn modes_get_steadily_harder() {
    for w in modes().windows(2) {
        assert!(w[0].speed_ramp <= w[1].speed_ramp, "{} ramps up faster than {}", w[0].name, w[1].name);
        assert!(w[0].max_speed <= w[1].max_speed, "{} tops out faster than {}", w[0].name, w[1].name);
        assert!(w[0].start_cash > w[1].start_cash, "{} does not start richer than {}", w[0].name, w[1].name);
        assert!(
            w[0].start_lives > w[1].start_lives,
            "{} does not start with more lives than {}",
            w[0].name,
            w[1].name
        );
    }
}

#[test]
fn no_mode_is_harsher_than_the_tuned_baseline() {
    for m in &modes() {
        assert!(m.speed_ramp <= TUNED_SPEED_RAMP, "{}", m.name);
        assert!(m.max_speed <= TUNED_MAX_SPEED, "{}", m.name);
    }
}

#[test]
fn easy_stays_slower_than_the_baseline_for_the_whole_run() {
    let easy = mode(0);
    let medium = mode(DEFAULT_MODE);

    for w in 2..=25u32 {
        let (e, m) = (speed_multiplier(w, &easy), speed_multiplier(w, &medium));
        assert!(e < m, "wave {w}: Easy runs at {e}, Medium at {m}");
    }
}

#[test]
fn medium_is_the_balanced_baseline() {
    let medium = mode(DEFAULT_MODE);
    assert_eq!(medium.name, "Medium");
    assert_eq!(medium.start_cash, TUNED_CASH);
    assert_eq!(medium.start_lives, TUNED_LIVES);
    assert_eq!(medium.speed_ramp, TUNED_SPEED_RAMP);
    assert_eq!(medium.max_speed, TUNED_MAX_SPEED);
}

#[test]
fn every_mode_can_afford_a_tower_to_open_with() {
    for m in &modes() {
        assert!(m.start_cash >= 90, "{} cannot afford a Seed Shooter to open with", m.name);
    }
}

#[test]
fn every_mode_survives_a_leaked_durian() {
    for m in &modes() {
        assert!(m.start_lives > 6, "{} dies to a single Durian", m.name);
    }
}

#[test]
fn mode_names_are_distinct_and_the_index_is_clamped() {
    let all = modes();
    for (i, a) in all.iter().enumerate() {
        for b in all.iter().skip(i + 1) {
            assert_ne!(a.name, b.name);
        }
    }
    assert_eq!(mode(999).name, all[all.len() - 1].name);
}

#[test]
fn the_modes_open_with_their_own_hands() {
    let easy = mode(0);
    assert_eq!((easy.name, easy.start_cash, easy.start_lives), ("Easy", 550, 30));
    assert_eq!((easy.speed_ramp, easy.max_speed), (15, 1350));
    let hard = mode(2);
    assert_eq!((hard.name, hard.start_cash, hard.start_lives), ("Hard", 200, 8));
    assert_eq!((hard.speed_ramp, hard.max_speed), (35, 1900));
}
