//! Which sounds play: the background music stage, rollback-safe sound
//! effects and looped sounds.

use vstd::prelude::*;

use crate::game_logic::Score;

verus! {

/// Frames by which a sound effect may start late; later ones are dropped.
pub const MAX_SOUND_DELAY: usize = 10;

/// The background music to play.
#[derive(Clone, Copy, Debug, PartialEq, Eq)]
pub enum BgmAction {
    /// No music plays yet: start the music of this stage.
    Start { stage: usize },
    /// The right music already plays.
    Keep,
    /// Fade out the music that plays and start the music of this stage.
    Switch { stage: usize },
}

/// Whether a player is one round away from winning the match.
pub open spec fn is_match_point(score: Score, max_score: usize) -> bool {
    score.p1 == max_score - 1 || score.p2 == max_score - 1
}

/// Chooses the background music at the start of a round: stage 1 (the
/// match-point theme) when a player is one round from winning, else
/// stage 0; `playing_stages` are the stages of the music already playing
/// (at most one).
pub fn check_bgm_stage(score: &Score, max_score: usize, playing_stages: &Vec<usize>) -> (r: BgmAction)
    requires
        max_score >= 1,
        playing_stages@.len() <= 1,
    ensures
        ({
            let stage: usize = if is_match_point(*score, max_score) { 1 } else { 0 };
            r == (if playing_stages@.len() == 0 {
                BgmAction::Start { stage }
            } else if playing_stages@[0] == stage {
                BgmAction::Keep
            } else {
                BgmAction::Switch { stage }
            })
        }),
{
    let match_point = score.p1 == max_score - 1 || score.p2 == max_score - 1;
    let stage: usize = if match_point {
        1
    } else {
        0
    };
    if playing_stages.len() == 0 {
        return BgmAction::Start { stage };
    }
    let current = playing_stages[0];
    if !match_point && current == 0 {
        return BgmAction::Keep;
    }
    if match_point && current == 1 {
        return BgmAction::Keep;
    }
    BgmAction::Switch { stage }
}

/// At game over the music fades out, provided exactly one track plays.
pub fn fade_out_game_over_bgm(playing_count: usize) -> (fade: bool)
    ensures
        fade == (playing_count == 1),
{
    playing_count == 1
}

/// A sound effect that the rolled-back game world wants heard: its key
/// (clip, and a number telling apart instances of the same clip) and the
/// frame at which it started.
#[derive(Clone, Copy, Debug, PartialEq, Eq)]
pub struct DesiredSound {
    pub clip: u64,
    pub sub_key: usize,
    pub start_frame: usize,
}

pub open spec fn key_of(d: DesiredSound) -> (u64, usize) {
    (d.clip, d.sub_key)
}

pub open spec fn is_late(d: DesiredSound, frame: int) -> bool {
    frame - d.start_frame > MAX_SOUND_DELAY
}

/// The sounds to start, in order: each wanted sound that neither plays nor
/// was started earlier this frame, unless it is too late to start.
pub open spec fn sounds_to_play(playing: Seq<(u64, usize)>, desired: Seq<DesiredSound>, frame: int) -> Seq<(u64, usize)>
    decreases desired.len(),
{
    if desired.len() == 0 {
        seq![]
    } else {
        let prev = sounds_to_play(playing, desired.drop_last(), frame);
        let d = desired.last();
        if playing.contains(key_of(d)) || prev.contains(key_of(d)) || is_late(d, frame) {
            prev
        } else {
            prev.push(key_of(d))
        }
    }
}

/// The playing sounds to stop, in order: those that no longer are wanted
/// (say, because a rollback removed the shot that made them).
pub open spec fn sounds_to_stop(playing: Seq<(u64, usize)>, desired: Seq<DesiredSound>) -> Seq<(u64, usize)>
    decreases playing.len(),
{
    if playing.len() == 0 {
        seq![]
    } else {
        let prev = sounds_to_stop(playing.drop_last(), desired);
        if desired.map_values(|d: DesiredSound| key_of(d)).contains(playing.last()) {
            prev
        } else {
            prev.push(playing.last())
        }
    }
}

/// Whether some wanted sound would be checked for lateness while it
/// started after the current frame.
pub open spec fn starts_in_future(playing: Seq<(u64, usize)>, desired: Seq<DesiredSound>, frame: int) -> bool {
    exists|i: int|
        0 <= i < desired.len() && #[trigger] desired[i].start_frame > frame && !playing.contains(
            key_of(desired[i]),
        ) && !sounds_to_play(playing, desired.take(i), frame).contains(key_of(desired[i]))
}

/// What to do with the sound effects this frame.
#[derive(Debug)]
pub struct SoundSyncPlan {
    pub play: Vec<(u64, usize)>,
    pub stop: Vec<(u64, usize)>,
}

fn contains_key(keys: &Vec<(u64, usize)>, key: (u64, usize)) -> (r: bool)
    ensures
        r == keys@.contains(key),
{
    let mut i: usize = 0;
    while i < keys.len()
        invariant
            i <= keys@.len(),
            forall|k: int| 0 <= k < i ==> keys@[k] != key,
        decreases keys@.len() - i,
    {
        let k = keys[i];
        if k.0 == key.0 && k.1 == key.1 {
            assert(keys@[i as int] == key);
            return true;
        }
        i = i + 1;
    }
    false
}

/// Brings the sounds that play in line with the sounds the game world
/// wants at `frame`: starts the wanted ones that do not play yet (see
/// `sounds_to_play`) and stops the unwanted ones (see `sounds_to_stop`).
/// `playing` holds the keys of the sounds that still play.
pub fn sync_rollback_sounds(playing: &Vec<(u64, usize)>, desired: &Vec<DesiredSound>, frame: usize) -> (plan: SoundSyncPlan)
    requires
        !starts_in_future(playing@, desired@, frame as int),
    ensures
        plan.play@ == sounds_to_play(playing@, desired@, frame as int),
        plan.stop@ == sounds_to_stop(playing@, desired@),
{
    let mut play: Vec<(u64, usize)> = Vec::new();
    let mut live: Vec<(u64, usize)> = Vec::new();
    let ghost keys = desired@.map_values(|d: DesiredSound| key_of(d));
    let mut i: usize = 0;
    while i < desired.len()
        invariant
            i <= desired@.len(),
            !starts_in_future(playing@, desired@, frame as int),
            keys == desired@.map_values(|d: DesiredSound| key_of(d)),
            play@ == sounds_to_play(playing@, desired@.take(i as int), frame as int),
            live@ == keys.take(i as int),
        decreases desired@.len() - i,
    {
        let d = desired[i];
        let key = (d.clip, d.sub_key);
        let ghost prefix = desired@.take(i as int);
        proof {
            assert(desired@.take(i + 1).drop_last() == prefix);
            assert(desired@.take(i + 1).last() == d);
        }
        if !contains_key(playing, key) && !contains_key(&play, key) {
            proof {
                if d.start_frame > frame {
                    assert(desired@[i as int] == d);
                    assert(starts_in_future(playing@, desired@, frame as int));
                }
            }
            let frames_late = frame - d.start_frame;
            if frames_late <= MAX_SOUND_DELAY {
                play.push(key);
            }
        }
        live.push(key);
        assert(keys.take(i + 1) == keys.take(i as int).push(key));
        i = i + 1;
    }
    assert(desired@.take(i as int) == desired@);
    assert(keys.take(i as int) == keys);
    let mut stop: Vec<(u64, usize)> = Vec::new();
    let mut j: usize = 0;
    while j < playing.len()
        invariant
            j <= playing@.len(),
            live@ == keys,
            keys == desired@.map_values(|d: DesiredSound| key_of(d)),
            stop@ == sounds_to_stop(playing@.take(j as int), desired@),
        decreases playing@.len() - j,
    {
        let key = playing[j];
        proof {
            assert(playing@.take(j + 1).drop_last() == playing@.take(j as int));
            assert(playing@.take(j + 1).last() == key);
        }
        if !contains_key(&live, key) {
            stop.push(key);
        }
        j = j + 1;
    }
    assert(playing@.take(j as int) == playing@);
    SoundSyncPlan { play, stop }
}

/// Whether some wanted sound would be checked for lateness while it
/// started after the current frame (see `starts_in_future`), which the
/// sound sync does not allow.
pub fn sound_starts_in_future(playing: &Vec<(u64, usize)>, desired: &Vec<DesiredSound>, frame: usize) -> (r: bool)
    ensures
        r == starts_in_future(playing@, desired@, frame as int),
{
    let mut play: Vec<(u64, usize)> = Vec::new();
    let mut i: usize = 0;
    while i < desired.len()
        invariant
            i <= desired@.len(),
            play@ == sounds_to_play(playing@, desired@.take(i as int), frame as int),
            forall|k: int|
                0 <= k < i ==> !(#[trigger] desired@[k].start_frame > frame && !playing@.contains(
                    key_of(desired@[k]),
                ) && !sounds_to_play(playing@, desired@.take(k), frame as int).contains(
                    key_of(desired@[k]),
                )),
        decreases desired@.len() - i,
    {
        let d = desired[i];
        let key = (d.clip, d.sub_key);
        proof {
            assert(desired@.take(i + 1).drop_last() == desired@.take(i as int));
            assert(desired@.take(i + 1).last() == d);
        }
        if !contains_key(playing, key) && !contains_key(&play, key) {
            if d.start_frame > frame {
                assert(desired@[i as int] == d);
                return true;
            }
            let frames_late = frame - d.start_frame;
            if frames_late <= MAX_SOUND_DELAY {
                play.push(key);
            }
        }
        i = i + 1;
    }
    false
}

proof fn lemma_started_are_wanted(playing: Seq<(u64, usize)>, desired: Seq<DesiredSound>, frame: int)
    ensures
        forall|k: (u64, usize)|
            #[trigger] sounds_to_play(playing, desired, frame).contains(k) ==> desired.map_values(
                |d: DesiredSound| key_of(d),
            ).contains(k),
    decreases desired.len(),
{
    if desired.len() > 0 {
        lemma_started_are_wanted(playing, desired.drop_last(), frame);
        let prev = sounds_to_play(playing, desired.drop_last(), frame);
        let cur = sounds_to_play(playing, desired, frame);
        let keys = desired.map_values(|d: DesiredSound| key_of(d));
        let prev_keys = desired.drop_last().map_values(|d: DesiredSound| key_of(d));
        assert forall|k: (u64, usize)| #[trigger] cur.contains(k) implies keys.contains(k) by {
            let j = choose|j: int| 0 <= j < cur.len() && cur[j] == k;
            if j < prev.len() {
                assert(prev[j] == k);
                assert(prev.contains(k));
                assert(prev_keys.contains(k));
                let m = choose|m: int| 0 <= m < prev_keys.len() && prev_keys[m] == k;
                assert(keys[m] == k);
            } else {
                assert(keys[desired.len() - 1] == k);
            }
        }
    }
}

proof fn lemma_kept_are_wanted(playing: Seq<(u64, usize)>, desired: Seq<DesiredSound>)
    ensures
        forall|k: (u64, usize)|
            playing.contains(k) && !(#[trigger] sounds_to_stop(playing, desired).contains(k))
                ==> desired.map_values(|d: DesiredSound| key_of(d)).contains(k),
    decreases playing.len(),
{
    if playing.len() > 0 {
        lemma_kept_are_wanted(playing.drop_last(), desired);
        let prev = sounds_to_stop(playing.drop_last(), desired);
        let cur = sounds_to_stop(playing, desired);
        let keys = desired.map_values(|d: DesiredSound| key_of(d));
        assert forall|k: (u64, usize)| playing.contains(k) && !(#[trigger] cur.contains(k)) implies keys.contains(k) by {
            let m = choose|m: int| 0 <= m < playing.len() && playing[m] == k;
            if m < playing.len() - 1 {
                assert(playing.drop_last()[m] == k);
                assert(playing.drop_last().contains(k));
                if prev.contains(k) {
                    let j = choose|j: int| 0 <= j < prev.len() && prev[j] == k;
                    assert(cur[j] == prev[j]);
                }
            } else if !keys.contains(k) {
                assert(cur[cur.len() - 1] == k);
            }
        }
    }
}

/// After a sound sync every sound that still plays is wanted: a sound that
/// played and was not stopped, or one that was started, is the key of some
/// sound the game world wants.
pub proof fn lemma_playing_after_sync_is_wanted(
    playing: Seq<(u64, usize)>,
    desired: Seq<DesiredSound>,
    frame: int,
    k: (u64, usize),
)
    requires
        (playing.contains(k) && !sounds_to_stop(playing, desired).contains(k)) || sounds_to_play(
            playing,
            desired,
            frame,
        ).contains(k),
    ensures
        desired.map_values(|d: DesiredSound| key_of(d)).contains(k),
{
    lemma_started_are_wanted(playing, desired, frame);
    lemma_kept_are_wanted(playing, desired);
}

/// Whether a sound effect has played to its end: as many frames have
/// passed since it started as it lasts.
pub fn sound_finished(frame: usize, start_frame: usize, frames_to_play: usize) -> (done: bool)
    requires
        start_frame <= frame,
    ensures
        done == (frame - start_frame >= frames_to_play),
{
    frame - start_frame >= frames_to_play
}

/// What to do with a looped sound this frame.
#[derive(Clone, Copy, Debug, PartialEq, Eq)]
pub enum LoopedSoundAction {
    /// Start playing it (looped, fading in).
    Play,
    /// Stop the instance that plays (fading out) and forget it.
    Stop,
    Nothing,
}

/// A looped sound that should play but has no instance is started; one
/// that should not play but has an instance is stopped.
pub fn update_looped_sound(should_play: bool, has_instance: bool) -> (action: LoopedSoundAction)
    ensures
        action == (if should_play && !has_instance {
            LoopedSoundAction::Play
        } else if !should_play && has_instance {
            LoopedSoundAction::Stop
        } else {
            LoopedSoundAction::Nothing
        }),
{
    if should_play {
        if !has_instance {
            return LoopedSoundAction::Play;
        }
        LoopedSoundAction::Nothing
    } else if has_instance {
        LoopedSoundAction::Stop
    } else {
        LoopedSoundAction::Nothing
    }
}

/// A looped sound meant to go away when silent goes once it is neither
/// wanted nor playing.
pub fn remove_looped_sound(despawn_on_silence: bool, should_play: bool, has_instance: bool) -> (remove: bool)
    ensures
        remove == (despawn_on_silence && !should_play && !has_instance),
{
    if !despawn_on_silence {
        return false;
    }
    !should_play && !has_instance
}


/// Sound effects are started at most once and never twice at a time: the
/// sounds to start are distinct and none of them plays already; a sound
/// that is stopped was playing and is no longer wanted; and a wanted sound
/// that is on time and not playing is started.
pub proof fn lemma_sound_sync(playing: Seq<(u64, usize)>, desired: Seq<DesiredSound>, frame: int)
    ensures
        sounds_to_play(playing, desired, frame).no_duplicates(),
        forall|k: (u64, usize)|
            #[trigger] sounds_to_play(playing, desired, frame).contains(k) ==> !playing.contains(k),
        forall|k: (u64, usize)|
            #[trigger] sounds_to_stop(playing, desired).contains(k) ==> playing.contains(k)
                && !desired.map_values(|d: DesiredSound| key_of(d)).contains(k),
        forall|i: int|
            0 <= i < desired.len() && !playing.contains(key_of(#[trigger] desired[i])) && !is_late(
                desired[i],
                frame,
            ) ==> sounds_to_play(playing, desired, frame).contains(key_of(desired[i])),
    decreases desired.len() + playing.len(),
{
    if desired.len() > 0 {
        lemma_sound_sync(playing, desired.drop_last(), frame);
        let prev = sounds_to_play(playing, desired.drop_last(), frame);
        let cur = sounds_to_play(playing, desired, frame);
        assert forall|i: int|
            0 <= i < desired.len() && !playing.contains(key_of(#[trigger] desired[i])) && !is_late(
                desired[i],
                frame,
            ) implies cur.contains(key_of(desired[i])) by {
            if i < desired.len() - 1 {
                assert(desired.drop_last()[i] == desired[i]);
                assert(prev.contains(key_of(desired[i])));
                let j = choose|j: int| 0 <= j < prev.len() && prev[j] == key_of(desired[i]);
                assert(cur[j] == prev[j]);
            } else {
                if !prev.contains(key_of(desired[i])) {
                    assert(cur[prev.len() as int] == key_of(desired[i]));
                }
            }
        }
        assert forall|k: (u64, usize)| #[trigger] cur.contains(k) implies !playing.contains(k) by {
            let j = choose|j: int| 0 <= j < cur.len() && cur[j] == k;
            if j < prev.len() {
                assert(prev[j] == k);
                assert(prev.contains(k));
            }
        }
    }
    if playing.len() > 0 {
        lemma_sound_sync(playing.drop_last(), desired, frame);
        let prev = sounds_to_stop(playing.drop_last(), desired);
        let cur = sounds_to_stop(playing, desired);
        assert forall|k: (u64, usize)| #[trigger] cur.contains(k) implies playing.contains(k)
            && !desired.map_values(|d: DesiredSound| key_of(d)).contains(k) by {
            let j = choose|j: int| 0 <= j < cur.len() && cur[j] == k;
            if j < prev.len() {
                assert(prev[j] == k);
                assert(prev.contains(k));
                assert(playing.drop_last().contains(k));
                let m = choose|m: int| 0 <= m < playing.drop_last().len() && playing.drop_last()[m] == k;
                assert(playing[m] == k);
            } else {
                assert(playing[playing.len() - 1] == k);
            }
        }
    }
}

} // verus!
