use ace_of_the_heavens::game_logic::{
    adjust_score, check_rematch, check_rematch_state, determine_seed, initiate_seed,
    reset_rematch, reset_resources, setup_seed, Rematch, RoundStats, Score,
    Seed, SeedHandle, Seeds,
};
use ace_of_the_heavens::input::INPUT_REMATCH;

#[test]
fn survivor_scores() {
    let mut score = Score::new();
    let mut stats = RoundStats::new();
    assert!(!adjust_score(&mut score, &mut stats, &vec![0], 5));
    assert_eq!(score, Score { p1: 1, p2: 0, last_winner: Some(0) });
    assert!(!adjust_score(&mut score, &mut stats, &vec![1], 5));
    assert_eq!(score, Score { p1: 1, p2: 1, last_winner: Some(1) });
    assert!(!adjust_score(&mut score, &mut stats, &vec![], 5));
    assert_eq!(score, Score { p1: 1, p2: 1, last_winner: None });
    assert_eq!(stats.rounds_played, 3);
}

#[test]
fn match_ends_at_max_score() {
    let mut score = Score { p1: 2, p2: 4, last_winner: Some(1) };
    let mut stats = RoundStats::new();
    assert!(!adjust_score(&mut score, &mut stats, &vec![0], 5));
    assert!(adjust_score(&mut score, &mut stats, &vec![1], 5));
    assert_eq!(score.p2, 5);
    // a round without survivor never ends the match
    let mut s2 = Score { p1: 5, p2: 0, last_winner: None };
    assert!(!adjust_score(&mut s2, &mut stats, &vec![], 5));
}

#[test]
fn rematch_needs_both() {
    let mut rematch = Rematch::new();
    let mut score = Score { p1: 5, p2: 3, last_winner: Some(0) };
    check_rematch_state(&mut rematch, INPUT_REMATCH, 0);
    assert!(!check_rematch(&rematch, &mut score));
    assert_eq!(score.p1, 5);
    check_rematch_state(&mut rematch, 0, INPUT_REMATCH);
    assert!(rematch.p1 && rematch.p2);
    assert!(check_rematch(&rematch, &mut score));
    assert_eq!(score, Score::new());
    reset_rematch(&mut rematch);
    assert_eq!(rematch, Rematch::new());
}

#[test]
fn smallest_seed_wins() {
    let mut seeds = Seeds::new();
    initiate_seed(&mut seeds, 0x1_0000_0007);
    assert_eq!(seeds.0[0], SeedHandle::new(None, 7));
    seeds.0.push(SeedHandle::new(Some(3), 5));
    assert_eq!(determine_seed(&seeds), 5);
    let mut seed = Seed { seed: 0 };
    setup_seed(&mut seed, &seeds);
    assert_eq!(seed.seed, 5);
}

#[test]
fn peers_agree_on_seed() {
    let a = Seeds(vec![SeedHandle::new(None, 900), SeedHandle::new(Some(2), 40)]);
    let b = Seeds(vec![SeedHandle::new(None, 40), SeedHandle::new(Some(1), 900)]);
    assert_eq!(determine_seed(&a), determine_seed(&b));
}

#[test]
fn initiate_seed_appends_own_seed() {
    let mut seeds = Seeds::new();
    initiate_seed(&mut seeds, 1_700_000_000);
    assert_eq!(seeds.0.len(), 1);
    assert_eq!(seeds.0[0], SeedHandle::new(None, 1_700_000_000));
    let mut stats = RoundStats { rounds_played: 4 };
    let mut score = Score { p1: 1, p2: 2, last_winner: None };
    reset_resources(&mut stats, &mut seeds, &mut score);
    assert_eq!(stats.rounds_played, 0);
    assert!(seeds.0.is_empty());
    assert_eq!(score, Score::new());
}
