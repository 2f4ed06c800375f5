//! Rounds, score, rematches and the seed that both peers agree on.

use vstd::prelude::*;

use crate::input;
use crate::network::PLAYER_COUNT;

verus! {

broadcast use vstd::seq_lib::group_to_multiset_ensures;

/// The top-level state of the application.
#[derive(Clone, Copy, Debug, PartialEq, Eq, Hash)]
pub enum GameState {
    AssetLoading,
    MainMenu,
    Matchmaking,
    Connecting,
    InRollbackGame,
    InGame,
    GameOver,
}

/// The state of a match, which is rolled back together with the game world.
#[derive(Clone, Copy, Debug, PartialEq, Eq, Hash)]
pub enum RollbackState {
    Setup,
    RoundStart,
    InRound,
    RoundEnd,
    GameOver,
}

/// Rounds won by each player, and who won the last round (by handle).
#[derive(Clone, Copy, Debug, PartialEq, Eq)]
pub struct Score {
    pub p1: usize,
    pub p2: usize,
    pub last_winner: Option<usize>,
}

impl Score {
    pub fn new() -> (r: Score)
        ensures
            r == (Score { p1: 0, p2: 0, last_winner: None }),
    {
        Score { p1: 0, p2: 0, last_winner: None }
    }
}

impl Default for Score {
    fn default() -> (r: Score)
        ensures
            r == (Score { p1: 0, p2: 0, last_winner: None }),
    {
        Score::new()
    }
}

/// Which players have asked for a rematch.
#[derive(Clone, Copy, Debug, PartialEq, Eq)]
pub struct Rematch {
    pub p1: bool,
    pub p2: bool,
}

impl Rematch {
    pub fn new() -> (r: Rematch)
        ensures
            r == (Rematch { p1: false, p2: false }),
    {
        Rematch { p1: false, p2: false }
    }
}

impl Default for Rematch {
    fn default() -> (r: Rematch)
        ensures
            r == (Rematch { p1: false, p2: false }),
    {
        Rematch::new()
    }
}

#[derive(Clone, Copy, Debug, PartialEq, Eq)]
pub struct RoundStats {
    pub rounds_played: u64,
}

impl RoundStats {
    pub fn new() -> (r: RoundStats)
        ensures
            r.rounds_played == 0,
    {
        RoundStats { rounds_played: 0 }
    }
}

impl Default for RoundStats {
    fn default() -> (r: RoundStats)
        ensures
            r.rounds_played == 0,
    {
        RoundStats::new()
    }
}

/// A seed proposed by a peer (`None` for our own), which the peers combine
/// into the seed of the match.
#[derive(Clone, Copy, Debug, PartialEq, Eq)]
pub struct SeedHandle {
    pub handle: Option<u128>,
    pub seed: u32,
}

impl SeedHandle {
    pub fn new(handle: Option<u128>, seed: u32) -> (r: SeedHandle)
        ensures
            r == (SeedHandle { handle, seed }),
    {
        SeedHandle { handle, seed }
    }
}

/// The proposed seeds; ours comes first.
#[derive(Debug)]
pub struct Seeds(pub Vec<SeedHandle>);

impl Seeds {
    pub fn new() -> (r: Seeds)
        ensures
            r.0@ == Seq::<SeedHandle>::empty(),
    {
        Seeds(Vec::new())
    }
}

impl Default for Seeds {
    fn default() -> (r: Seeds)
        ensures
            r.0@ == Seq::<SeedHandle>::empty(),
    {
        Seeds::new()
    }
}

/// The seed of the match, from which maps are drawn.
#[derive(Clone, Copy, Debug, PartialEq, Eq)]
pub struct Seed {
    pub seed: u64,
}

impl Default for Seed {
    fn default() -> (r: Seed)
        ensures
            r.seed == 0,
    {
        Seed { seed: 0 }
    }
}

/// The score after a round that ended with the given players still alive:
/// with no survivor nobody scores; otherwise the survivor scores and wins
/// the round.
pub open spec fn score_after_round(score: Score, survivors: Seq<usize>) -> Score {
    if survivors.len() == 0 {
        Score { last_winner: None, ..score }
    } else if survivors[0] == 0 {
        Score { p1: (score.p1 + 1) as usize, last_winner: Some(0), ..score }
    } else {
        Score { p2: (score.p2 + 1) as usize, last_winner: Some(1), ..score }
    }
}

/// Whether a score ends the match.
pub open spec fn is_match_over(score: Score, max_score: usize) -> bool {
    score.p1 == max_score || score.p2 == max_score
}

/// Scores the round that just ended, given the handles of the players still
/// alive (at most one). Returns whether the match is over, which it is when
/// a player has just reached `max_score` points.
pub fn adjust_score(
    score: &mut Score,
    round_stats: &mut RoundStats,
    survivors: &Vec<usize>,
    max_score: usize,
) -> (game_over: bool)
    requires
        survivors@.len() <= 1,
        old(round_stats).rounds_played < u64::MAX,
        survivors@.len() == 1 && survivors@[0] == 0 ==> old(score).p1 < usize::MAX,
        survivors@.len() == 1 && survivors@[0] != 0 ==> old(score).p2 < usize::MAX,
    ensures
        final(round_stats).rounds_played == old(round_stats).rounds_played + 1,
        *final(score) == score_after_round(*old(score), survivors@),
        game_over == (survivors@.len() == 1 && is_match_over(*final(score), max_score)),
{
    round_stats.rounds_played = round_stats.rounds_played + 1;
    if survivors.len() == 0 {
        score.last_winner = None;
        return false;
    }
    if survivors[0] == 0 {
        score.p1 = score.p1 + 1;
        score.last_winner = Some(0);
    } else {
        score.p2 = score.p2 + 1;
        score.last_winner = Some(1);
    }
    score.p1 == max_score || score.p2 == max_score
}

/// A round with a survivor gives exactly one point, to the survivor, and a
/// round without one gives none; no score ever goes down.
pub proof fn lemma_one_point_per_round(score: Score, survivors: Seq<usize>)
    requires
        survivors.len() <= 1,
        score.p1 < usize::MAX,
        score.p2 < usize::MAX,
    ensures
        score_after_round(score, survivors).p1 + score_after_round(score, survivors).p2 == score.p1
            + score.p2 + (if survivors.len() == 1 {
            1int
        } else {
            0int
        }),
        score_after_round(score, survivors).p1 >= score.p1,
        score_after_round(score, survivors).p2 >= score.p2,
        survivors.len() == 1 ==> score_after_round(score, survivors).last_winner == Some(
            if survivors[0] == 0 {
                0usize
            } else {
                1usize
            },
        ),
{
}

/// Starting from a score below `max_score` for both, the match ends
/// exactly when the round's survivor had `max_score - 1` points.
pub proof fn lemma_match_ends_at_max_score(score: Score, survivors: Seq<usize>, max_score: usize)
    requires
        survivors.len() == 1,
        score.p1 < max_score,
        score.p2 < max_score,
    ensures
        is_match_over(score_after_round(score, survivors), max_score) == (if survivors[0] == 0 {
            score.p1 + 1 == max_score
        } else {
            score.p2 + 1 == max_score
        }),
{
}

/// Starts a new match when both players asked for a rematch: the score is
/// reset and the round starts. Returns whether it did.
pub fn check_rematch(rematch: &Rematch, score: &mut Score) -> (restart: bool)
    ensures
        restart == (rematch.p1 && rematch.p2),
        restart ==> *final(score) == (Score { p1: 0, p2: 0, last_winner: None }),
        !restart ==> *final(score) == *old(score),
{
    if !(rematch.p1 && rematch.p2) {
        return false;
    }
    *score = Score::new();
    true
}

pub fn reset_rematch(rematch: &mut Rematch)
    ensures
        *final(rematch) == (Rematch { p1: false, p2: false }),
{
    *rematch = Rematch::new();
}

/// Records the rematch requests in this frame's inputs of both players;
/// a request, once made, stays.
pub fn check_rematch_state(rematch: &mut Rematch, input_p1: u8, input_p2: u8)
    ensures
        final(rematch).p1 == (old(rematch).p1 || input::has_flag(input_p1, input::INPUT_REMATCH)),
        final(rematch).p2 == (old(rematch).p2 || input::has_flag(input_p2, input::INPUT_REMATCH)),
{
    if input::rematch(input_p1) {
        rematch.p1 = true;
    }
    if input::rematch(input_p2) {
        rematch.p2 = true;
    }
}

/// Resets the match bookkeeping when returning to the main menu.
pub fn reset_resources(round_stats: &mut RoundStats, seeds: &mut Seeds, score: &mut Score)
    ensures
        final(round_stats).rounds_played == 0,
        final(seeds).0@ == Seq::<SeedHandle>::empty(),
        *final(score) == (Score { p1: 0, p2: 0, last_winner: None }),
{
    *round_stats = RoundStats::new();
    *seeds = Seeds::new();
    *score = Score::new();
}

/// Proposes our own seed, taken from the given reading of the clock in
/// seconds since the Unix epoch (its low 32 bits).
pub fn initiate_seed(seeds: &mut Seeds, timestamp: i64)
    ensures
        final(seeds).0@ == old(seeds).0@.push(SeedHandle { handle: None, seed: timestamp as u32 }),
{
    let seed: u32 = timestamp as u32;
    seeds.0.push(SeedHandle::new(None, seed));
}

/// The smallest proposed seed.
pub open spec fn min_seed(seeds: Seq<SeedHandle>) -> u32
    decreases seeds.len(),
{
    if seeds.len() <= 1 {
        seeds[0].seed
    } else {
        let rest = min_seed(seeds.drop_last());
        if seeds.last().seed < rest {
            seeds.last().seed
        } else {
            rest
        }
    }
}

/// The smallest seed is one of the proposals, and no proposal is smaller.
pub proof fn lemma_min_seed(seeds: Seq<SeedHandle>)
    requires
        seeds.len() > 0,
    ensures
        exists|i: int| 0 <= i < seeds.len() && seeds[i].seed == min_seed(seeds),
        forall|i: int| 0 <= i < seeds.len() ==> min_seed(seeds) <= #[trigger] seeds[i].seed,
    decreases seeds.len(),
{
    if seeds.len() > 1 {
        lemma_min_seed(seeds.drop_last());
        let i = choose|i: int|
            0 <= i < seeds.drop_last().len() && seeds.drop_last()[i].seed == min_seed(
                seeds.drop_last(),
            );
        assert(seeds[i] == seeds.drop_last()[i]);
        assert forall|k: int| 0 <= k < seeds.len() implies min_seed(seeds) <= #[trigger] seeds[k].seed by {
            if k < seeds.len() - 1 {
                assert(seeds[k] == seeds.drop_last()[k]);
            }
        }
    } else {
        assert(seeds[0].seed == min_seed(seeds));
    }
}

/// The seed of the match: the smallest proposal.
pub fn determine_seed(seeds: &Seeds) -> (r: u32)
    requires
        seeds.0@.len() > 0,
    ensures
        r == min_seed(seeds.0@),
{
    let ghost s = seeds.0@;
    let mut smallest_seed = seeds.0[0].seed;
    let mut i: usize = 1;
    assert(s.take(1).len() == 1);
    while i < seeds.0.len()
        invariant
            s == seeds.0@,
            1 <= i <= s.len(),
            smallest_seed == min_seed(s.take(i as int)),
        decreases s.len() - i,
    {
        assert(s.take(i + 1).drop_last() == s.take(i as int));
        if seeds.0[i].seed < smallest_seed {
            smallest_seed = seeds.0[i].seed;
        }
        i = i + 1;
    }
    assert(s.take(i as int) == s);
    smallest_seed
}

/// Fixes the seed of the match once both peers' proposals are in.
pub fn setup_seed(seed: &mut Seed, seeds: &Seeds)
    requires
        seeds.0@.len() == PLAYER_COUNT,
    ensures
        final(seed).seed == min_seed(seeds.0@) as u64,
{
    *seed = Seed { seed: determine_seed(seeds) as u64 };
}

/// Both peers arrive at the same seed: the seed depends only on which
/// values were proposed, not on the order in which they arrived or on who
/// proposed them.
pub proof fn lemma_seed_agreement(a: Seq<SeedHandle>, b: Seq<SeedHandle>)
    requires
        a.len() > 0,
        a.map_values(|h: SeedHandle| h.seed).to_multiset() == b.map_values(
            |h: SeedHandle| h.seed,
        ).to_multiset(),
    ensures
        min_seed(a) == min_seed(b),
{
    let va = a.map_values(|h: SeedHandle| h.seed);
    let vb = b.map_values(|h: SeedHandle| h.seed);
    assert(va.len() == vb.len()) by {
        assert(va.to_multiset().len() == vb.to_multiset().len());
    }
    lemma_min_seed(a);
    lemma_min_seed(b);
    let i = choose|i: int| 0 <= i < a.len() && a[i].seed == min_seed(a);
    let j = choose|j: int| 0 <= j < b.len() && b[j].seed == min_seed(b);
    assert(va[i] == min_seed(a));
    assert(va.contains(min_seed(a)));
    assert(va.to_multiset().count(min_seed(a)) > 0);
    assert(vb.to_multiset().count(min_seed(a)) > 0);
    assert(vb.contains(min_seed(a)));
    let k = choose|k: int| 0 <= k < vb.len() && vb[k] == min_seed(a);
    assert(b[k].seed == min_seed(a));
    assert(vb[j] == min_seed(b));
    assert(vb.contains(min_seed(b)));
    assert(vb.to_multiset().count(min_seed(b)) > 0);
    assert(va.to_multiset().count(min_seed(b)) > 0);
    assert(va.contains(min_seed(b)));
    let l = choose|l: int| 0 <= l < va.len() && va[l] == min_seed(b);
    assert(a[l].seed == min_seed(b));
}

} // verus!
