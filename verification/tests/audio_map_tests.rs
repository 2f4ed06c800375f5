use ace_of_the_heavens::audio::{
    check_bgm_stage, fade_out_game_over_bgm, remove_looped_sound, sound_finished,
    sound_starts_in_future,
    sync_rollback_sounds, update_looped_sound, BgmAction, DesiredSound, LoopedSoundAction,
};
use ace_of_the_heavens::game_logic::Score;
use ace_of_the_heavens::map::{
    map_layout, spawn_random_map, wall_bounds, ObstacleBounds, WallKind, WallPlacement,
    MAP_COUNT,
};
use rand::SeedableRng;

#[test]
fn bgm_stages() {
    let normal = Score { p1: 1, p2: 2, last_winner: None };
    let point = Score { p1: 4, p2: 2, last_winner: None };
    assert_eq!(check_bgm_stage(&normal, 5, &vec![]), BgmAction::Start { stage: 0 });
    assert_eq!(check_bgm_stage(&point, 5, &vec![]), BgmAction::Start { stage: 1 });
    assert_eq!(check_bgm_stage(&normal, 5, &vec![0]), BgmAction::Keep);
    assert_eq!(check_bgm_stage(&point, 5, &vec![1]), BgmAction::Keep);
    assert_eq!(check_bgm_stage(&point, 5, &vec![0]), BgmAction::Switch { stage: 1 });
    assert_eq!(check_bgm_stage(&normal, 5, &vec![1]), BgmAction::Switch { stage: 0 });
    assert!(fade_out_game_over_bgm(1));
    assert!(!fade_out_game_over_bgm(2));
}

fn sound(clip: u64, sub_key: usize, start_frame: usize) -> DesiredSound {
    DesiredSound { clip, sub_key, start_frame }
}

#[test]
fn sound_sync_plan() {
    let playing = vec![(1u64, 0usize), (2, 0)];
    let desired = vec![sound(1, 0, 95), sound(3, 1, 98), sound(3, 1, 99), sound(4, 0, 80)];
    let plan = sync_rollback_sounds(&playing, &desired, 100);
    assert_eq!(plan.play, vec![(3, 1)]);
    assert_eq!(plan.stop, vec![(2, 0)]);
    let plan = sync_rollback_sounds(&vec![], &vec![sound(5, 0, 90)], 100);
    assert_eq!(plan.play, vec![(5, 0)]);
    let plan = sync_rollback_sounds(&vec![], &vec![sound(5, 0, 89)], 100);
    assert!(plan.play.is_empty());
}

#[test]
fn sound_lifetimes() {
    assert!(sound_finished(130, 100, 30));
    assert!(!sound_finished(129, 100, 30));
    assert_eq!(update_looped_sound(true, false), LoopedSoundAction::Play);
    assert_eq!(update_looped_sound(true, true), LoopedSoundAction::Nothing);
    assert_eq!(update_looped_sound(false, true), LoopedSoundAction::Stop);
    assert_eq!(update_looped_sound(false, false), LoopedSoundAction::Nothing);
    assert!(remove_looped_sound(true, false, false));
    assert!(!remove_looped_sound(false, false, false));
    assert!(!remove_looped_sound(true, true, false));
}

#[test]
fn maps() {
    assert_eq!(map_layout(0).len(), 6);
    assert_eq!(map_layout(1).len(), 3);
    assert_eq!(map_layout(2).len(), 2);
    assert_eq!(map_layout(3), vec![WallPlacement { kind: WallKind::Wall1x10, x: 0, y: 0 }]);
    assert_eq!(map_layout(0)[0], WallPlacement { kind: WallKind::Wall1x5, x: -550, y: 200 });
    assert_eq!(
        wall_bounds(WallKind::Wall2x2),
        ObstacleBounds { min_x: -64, min_y: -32, max_x: 64, max_y: 80 }
    );
}

#[test]
fn random_map_is_seeded() {
    let mut a = rand::rngs::StdRng::seed_from_u64(42);
    let mut b = rand::rngs::StdRng::seed_from_u64(42);
    for _ in 0..10 {
        let (ia, wa) = spawn_random_map(&mut a);
        let (ib, wb) = spawn_random_map(&mut b);
        assert!(ia < MAP_COUNT);
        assert_eq!(ia, ib);
        assert_eq!(wa, wb);
        assert_eq!(wa, map_layout(ia));
    }
}

#[test]
fn sounds_from_the_future_are_detected() {
    let d = |clip: u64, sub_key: usize, start_frame: usize| DesiredSound { clip, sub_key, start_frame };
    // a sound not playing that starts after the frame
    assert!(sound_starts_in_future(&vec![], &vec![d(1, 0, 11)], 10));
    // already playing: it is not checked
    assert!(!sound_starts_in_future(&vec![(1, 0)], &vec![d(1, 0, 11)], 10));
    // started earlier this frame under the same key: not checked either
    assert!(!sound_starts_in_future(&vec![], &vec![d(1, 0, 10), d(1, 0, 11)], 10));
    // but a same-key sound that was too late to start does not cover it
    assert!(sound_starts_in_future(&vec![], &vec![d(1, 0, 0), d(1, 0, 21)], 20));
    assert!(!sound_starts_in_future(&vec![], &vec![d(1, 0, 10)], 10));
}

#[test]
fn after_sync_only_wanted_sounds_play() {
    let playing = vec![(1, 0), (2, 0), (3, 5)];
    let desired = vec![
        DesiredSound { clip: 2, sub_key: 0, start_frame: 90 },
        DesiredSound { clip: 4, sub_key: 1, start_frame: 99 },
    ];
    let plan = sync_rollback_sounds(&playing, &desired, 100);
    let mut after: Vec<(u64, usize)> =
        playing.iter().copied().filter(|k| !plan.stop.contains(k)).collect();
    after.extend(plan.play.iter().copied());
    after.sort();
    assert_eq!(after, vec![(2, 0), (4, 1)]);
}
