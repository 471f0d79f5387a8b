use fruit_splat::tracks::{card_count, random_card_index, track, TrackDef, TRACK_COUNT};
use fruit_splat::wave::{boss_count, FIRST_BOSS_WAVE};

const MAX_BLURB_CHARS: usize = 23;
const MAX_NAME_CHARS: usize = 19;

fn tracks() -> Vec<TrackDef> {
    (0..TRACK_COUNT).map(track).collect()
}

#[test]
fn blurbs_fit_inside_a_selection_card() {
    for t in &tracks() {
        assert!(
            t.blurb.len() <= MAX_BLURB_CHARS,
            "{} blurb is {} chars, over the {MAX_BLURB_CHARS} that fit",
            t.name,
            t.blurb.len()
        );
    }
}

#[test]
fn route_names_fit_inside_a_selection_card() {
    for (i, t) in tracks().iter().enumerate() {
        let shown = format!("{}. {}", i + 1, t.name);
        assert!(shown.len() <= MAX_NAME_CHARS, "\"{shown}\" is {} chars, over the {MAX_NAME_CHARS} that fit", shown.len());
    }
}

#[test]
fn every_route_is_a_long_run_that_still_reaches_the_top_tier() {
    for t in &tracks() {
        assert!(t.waves >= 40, "{} ends at wave {}, short of a full run", t.name, t.waves);
        assert!(t.waves <= 50, "{} runs longer than a sitting", t.name);
    }
}

#[test]
fn every_route_runs_long_enough_to_meet_the_boss() {
    for t in &tracks() {
        assert!(t.waves >= FIRST_BOSS_WAVE, "{} ends at wave {}, before the first boss wave", t.name, t.waves);
        assert!(boss_count(t.waves, t.waves) >= 1, "{} does not end on a boss wave", t.name);
    }
}

#[test]
fn harder_routes_are_shorter_runs() {
    let all = tracks();
    for gentle in all.iter().filter(|t| t.difficulty == "Gentle") {
        for hard in all.iter().filter(|t| t.difficulty == "Hard") {
            assert!(hard.waves <= gentle.waves, "{} (Hard) runs longer than {} (Gentle)", hard.name, gentle.name);
        }
    }
}

#[test]
fn the_two_lane_route_is_the_only_one_with_more_than_one_lane() {
    let all = tracks();
    let multi: Vec<&str> = all.iter().filter(|t| t.lanes > 1).map(|t| t.name).collect();
    assert_eq!(multi, vec!["Twin Gates"]);
    assert_eq!(all.iter().find(|t| t.name == "Twin Gates").unwrap().lanes, 2);
}

#[test]
fn every_route_has_at_least_one_lane() {
    for t in &tracks() {
        assert!(t.lanes >= 1, "{} has no lanes", t.name);
    }
}

#[test]
fn the_random_card_is_last_and_is_not_a_route() {
    assert_eq!(random_card_index(), card_count() - 1);
    assert_eq!(random_card_index(), TRACK_COUNT);
}

#[test]
fn the_route_table_reads_in_card_order() {
    let names: Vec<&str> = tracks().iter().map(|t| t.name).collect();
    assert_eq!(
        names,
        vec!["Orchard Snake", "Market Run", "The Long Orchard", "Zigzag Grove", "Twin Gates", "Meander", "Spiral Garden"]
    );
    assert_eq!(track(1).difficulty, "Hard");
    assert_eq!(track(1).waves, 42);
    assert_eq!(track(6).waves, 50);
}
