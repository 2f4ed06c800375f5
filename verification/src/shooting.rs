//! The machine gun's heat, firing, and the frame-by-frame animation of
//! bullets, rocket explosions and the sonic boom.

use vstd::prelude::*;

use crate::input;
use crate::player::Player;

verus! {

/// Heat at which the gun overheats.
pub const OVERHEAT: u32 = 1000;
/// Heat lost per frame while the gun is ready and not overheated.
pub const HEAT_COOLDOWN_DELTA: u32 = 12;
/// Heat lost per frame while the gun is ready but overheated.
pub const OVERHEAT_COOLDOWN_DELTA: u32 = 5;
/// Heat added by one salvo (a bullet from each wing).
pub const FIRE_HEAT: u32 = 80;

/// The sounds that cooling the gun asks for in one frame.
#[derive(Clone, Copy, Debug, PartialEq, Eq)]
pub struct HeatSounds {
    /// The gun is (still) at or above the overheating heat.
    pub overheat: bool,
    /// The gun has cooled down from overheating and can fire again.
    pub reload: bool,
}

/// Whether the gun counts as overheated after this frame's check.
pub open spec fn overheated_after_check(p: Player) -> bool {
    p.overheated || p.heat >= OVERHEAT
}

/// The plane after its gun cooled for one frame: nothing changes while the
/// gun reloads; an overheated gun loses 5 heat a frame and is cleared (to 0)
/// once at most 5 remain; otherwise it loses 12 heat a frame, down to 0.
pub open spec fn cooled(p: Player, bullet_timer_finished: bool) -> Player {
    let overheated = overheated_after_check(p);
    if !bullet_timer_finished {
        Player { overheated, ..p }
    } else if overheated {
        if p.heat <= OVERHEAT_COOLDOWN_DELTA {
            Player { overheated: false, heat: 0, ..p }
        } else {
            Player { overheated: true, heat: (p.heat - OVERHEAT_COOLDOWN_DELTA) as u32, ..p }
        }
    } else {
        Player {
            overheated,
            heat: if p.heat <= HEAT_COOLDOWN_DELTA {
                0
            } else {
                (p.heat - HEAT_COOLDOWN_DELTA) as u32
            },
            ..p
        }
    }
}

/// Cools the gun for one frame (see `cooled`) and reports the sounds to
/// play.
pub fn cooldown_heat(player: &mut Player, bullet_timer_finished: bool) -> (sounds: HeatSounds)
    ensures
        *final(player) == cooled(*old(player), bullet_timer_finished),
        sounds.overheat == (old(player).heat >= OVERHEAT),
        sounds.reload == (bullet_timer_finished && overheated_after_check(*old(player))
            && old(player).heat <= OVERHEAT_COOLDOWN_DELTA),
{
    let mut sounds = HeatSounds { overheat: false, reload: false };
    if player.heat >= OVERHEAT {
        player.overheated = true;
        sounds.overheat = true;
    }
    if !bullet_timer_finished {
        return sounds;
    }
    if player.overheated {
        if player.heat <= OVERHEAT_COOLDOWN_DELTA {
            player.overheated = false;
            player.heat = 0;
            sounds.reload = true;
        } else {
            player.heat = player.heat - OVERHEAT_COOLDOWN_DELTA;
        }
        return sounds;
    }
    player.heat = if player.heat <= HEAT_COOLDOWN_DELTA {
        0
    } else {
        player.heat - HEAT_COOLDOWN_DELTA
    };
    sounds
}

/// Whether a plane fires a salvo: it wants to, its gun has reloaded, and
/// the gun is not overheated.
pub open spec fn fires(p: Player, input: u8, bullet_timer_finished: bool) -> bool {
    input::has_flag(input, input::INPUT_FIRE) && bullet_timer_finished && !p.overheated
}

/// The plane after this frame's firing decision.
pub open spec fn after_firing(p: Player, input: u8, bullet_timer_finished: bool) -> Player {
    if fires(p, input, bullet_timer_finished) {
        Player { heat: (p.heat + FIRE_HEAT) as u32, ..p }
    } else {
        p
    }
}

/// Fires a salvo when the plane may (see `fires`), heating the gun.
/// Returns whether it fired; the caller then spawns a bullet at each wing
/// and restarts the reload timer.
pub fn fire_bullets(player: &mut Player, input: u8, bullet_timer_finished: bool) -> (fired: bool)
    requires
        fires(*old(player), input, bullet_timer_finished) ==> old(player).heat + FIRE_HEAT
            <= u32::MAX,
    ensures
        fired == fires(*old(player), input, bullet_timer_finished),
        *final(player) == after_firing(*old(player), input, bullet_timer_finished),
        fired ==> final(player).heat == old(player).heat + FIRE_HEAT,
        !fired ==> final(player).heat == old(player).heat,
{
    if !input::fire(input) || !bullet_timer_finished {
        return false;
    }
    if player.overheated {
        return false;
    }
    player.heat = player.heat + FIRE_HEAT;
    true
}

/// Whether a plane launches a rocket: it wants to and its rocket has
/// reloaded.
pub fn fire_rockets(input: u8, rocket_timer_finished: bool) -> (fired: bool)
    ensures
        fired == (input::has_flag(input, input::INPUT_ROCKET) && rocket_timer_finished),
{
    input::rocket(input) && rocket_timer_finished
}

/// How fast the gun cools in a frame: not at all while it reloads; by
/// `HEAT_COOLDOWN_DELTA` (down to 0) when it is ready and below the
/// overheating heat without being overheated; and by
/// `OVERHEAT_COOLDOWN_DELTA` when it is overheated (or just reached the
/// overheating heat), cleared to 0 once that much or less remains.
pub proof fn lemma_cooling_rates(p: Player, bullet_timer_finished: bool)
    ensures
        !bullet_timer_finished ==> cooled(p, bullet_timer_finished).heat == p.heat,
        bullet_timer_finished && !p.overheated && p.heat < OVERHEAT ==> cooled(
            p,
            bullet_timer_finished,
        ).heat == (if p.heat <= HEAT_COOLDOWN_DELTA {
            0
        } else {
            p.heat - HEAT_COOLDOWN_DELTA
        }),
        bullet_timer_finished && (p.overheated || p.heat >= OVERHEAT) ==> cooled(
            p,
            bullet_timer_finished,
        ).heat == (if p.heat <= OVERHEAT_COOLDOWN_DELTA {
            0
        } else {
            p.heat - OVERHEAT_COOLDOWN_DELTA
        }),
        cooled(p, bullet_timer_finished).handle == p.handle,
        cooled(p, bullet_timer_finished).health == p.health,
        cooled(p, bullet_timer_finished).dodging == p.dodging,
        p.heat >= OVERHEAT && !bullet_timer_finished ==> cooled(p, bullet_timer_finished).overheated,
{
}

/// Each salvo adds exactly `FIRE_HEAT` to the gun's heat and changes
/// nothing else about the plane; a frame without a salvo leaves the plane
/// as it was.
pub proof fn lemma_salvo_heat(p: Player, input: u8, bullet_timer_finished: bool)
    requires
        p.heat + FIRE_HEAT <= u32::MAX,
    ensures
        fires(p, input, bullet_timer_finished) ==> after_firing(p, input, bullet_timer_finished).heat
            == p.heat + FIRE_HEAT,
        !fires(p, input, bullet_timer_finished) ==> after_firing(p, input, bullet_timer_finished)
            == p,
        after_firing(p, input, bullet_timer_finished).handle == p.handle,
        after_firing(p, input, bullet_timer_finished).health == p.health,
        after_firing(p, input, bullet_timer_finished).overheated == p.overheated,
        after_firing(p, input, bullet_timer_finished).dodging == p.dodging,
{
}

/// Holding the trigger on a gun that is ready every frame and never cools
/// heats it by `FIRE_HEAT` per frame: after `n` salvos from heat `h` the heat
/// is `h + n * FIRE_HEAT`, so firing without pause reaches the overheating
/// heat once `n * FIRE_HEAT` is at least `OVERHEAT`.
pub proof fn lemma_continuous_fire(p: Player, n: nat)
    requires
        !p.overheated,
        p.heat + n * FIRE_HEAT <= u32::MAX,
    ensures
        salvos(p, n).heat == p.heat + n * FIRE_HEAT,
        !salvos(p, n).overheated,
        n * FIRE_HEAT >= OVERHEAT ==> salvos(p, n).heat >= OVERHEAT,
    decreases n,
{
    if n > 0 {
        assert((n - 1) * FIRE_HEAT + FIRE_HEAT == n * FIRE_HEAT) by (nonlinear_arith);
        lemma_continuous_fire(p, (n - 1) as nat);
        lemma_salvo_heat(salvos(p, (n - 1) as nat), input::INPUT_FIRE, true);
        assert(input::has_flag(input::INPUT_FIRE, input::INPUT_FIRE)) by (bit_vector);
    }
}

/// The plane after `n` frames of holding the trigger with the gun ready,
/// with no cooling in between.
pub open spec fn salvos(p: Player, n: nat) -> Player
    decreases n,
{
    if n == 0 {
        p
    } else {
        after_firing(salvos(p, (n - 1) as nat), input::INPUT_FIRE, true)
    }
}

/// The gun never gets hotter than one salvo past the overheating heat:
/// a frame of cooling followed by firing keeps the heat at or below
/// `OVERHEAT + FIRE_HEAT`.
pub proof fn lemma_heat_bounded(p: Player, bullet_timer_finished: bool, input: u8)
    requires
        p.heat <= OVERHEAT + FIRE_HEAT,
    ensures
        after_firing(cooled(p, bullet_timer_finished), input, bullet_timer_finished).heat
            <= OVERHEAT + FIRE_HEAT,
        !cooled(p, bullet_timer_finished).overheated ==> cooled(p, bullet_timer_finished).heat
            < OVERHEAT,
{
}

/// An overheated gun stays silent until it has cooled all the way: while
/// overheated it does not fire, and it stops being overheated only with
/// its heat back at 0.
pub proof fn lemma_overheat_locks_gun(p: Player, bullet_timer_finished: bool, input: u8)
    ensures
        cooled(p, bullet_timer_finished).overheated ==> !fires(
            cooled(p, bullet_timer_finished),
            input,
            bullet_timer_finished,
        ),
        overheated_after_check(p) && !cooled(p, bullet_timer_finished).overheated ==> cooled(
            p,
            bullet_timer_finished,
        ).heat == 0,
{
}

/// Whether the trigger has been released since the last shot, for a gun
/// that fires one shot per pull.
#[derive(Clone, Copy, Debug, PartialEq, Eq)]
pub struct BulletReady(pub bool);

/// Releasing the trigger readies the next shot.
pub fn reload_bullet(bullet_ready: &mut BulletReady, input: u8)
    ensures
        final(bullet_ready).0 == (old(bullet_ready).0 || !input::has_flag(input, input::INPUT_FIRE)),
{
    if !input::fire(input) {
        bullet_ready.0 = true;
    }
}

/// Fires one shot when the trigger is pulled and the shot is ready; the
/// next shot then waits for the trigger to be released.
pub fn fire_when_ready(bullet_ready: &mut BulletReady, input: u8) -> (fired: bool)
    ensures
        fired == (input::has_flag(input, input::INPUT_FIRE) && old(bullet_ready).0),
        final(bullet_ready).0 == (old(bullet_ready).0 && !fired),
{
    if !input::fire(input) || !bullet_ready.0 {
        return false;
    }
    bullet_ready.0 = false;
    true
}

/// The fill (0 to 100 percent) of the heat bar.
pub fn reload_bar_fill(heat: u32) -> (fill: u32)
    requires
        100 * heat <= u32::MAX,
    ensures
        fill == (if (100 * heat) as int / OVERHEAT as int > 100 {
            100
        } else {
            (100 * heat) as int / OVERHEAT as int
        }),
{
    let x = 100 * heat / OVERHEAT;
    if x > 100 {
        100
    } else {
        x
    }
}

/// The next frame of a bullet's four-frame animation.
pub fn animate_bullet(sprite_index: usize, timer_just_finished: bool) -> (next: usize)
    requires
        timer_just_finished && sprite_index != 3 ==> sprite_index < usize::MAX,
    ensures
        next == (if !timer_just_finished {
            sprite_index as int
        } else if sprite_index == 3 {
            0
        } else {
            sprite_index + 1
        }),
{
    if !timer_just_finished {
        sprite_index
    } else if sprite_index == 3 {
        0
    } else {
        sprite_index + 1
    }
}

/// A rocket explosion: whose rocket it was, and whether its animation is
/// over.
#[derive(Clone, Copy, Debug, PartialEq, Eq)]
pub struct RocketExplosion {
    pub handle: usize,
    pub frame: usize,
    pub disabled: bool,
}

impl RocketExplosion {
    pub fn new(handle: usize) -> (r: RocketExplosion)
        ensures
            r == (RocketExplosion { handle, frame: 0, disabled: false }),
    {
        RocketExplosion { handle, frame: 0, disabled: false }
    }
}

/// The last frame of the explosion animation.
pub const EXPLOSION_LAST_FRAME: usize = 7;

/// Starts a frame of an explosion's animation: an explosion shown past its
/// last frame is over. Returns whether the animation goes on this frame
/// (the caller then advances its timer).
pub fn explosion_continues(explosion: &mut RocketExplosion, sprite_index: usize) -> (goes_on: bool)
    ensures
        goes_on == (sprite_index <= EXPLOSION_LAST_FRAME),
        *final(explosion) == (RocketExplosion {
            disabled: old(explosion).disabled || !goes_on,
            ..*old(explosion)
        }),
{
    if sprite_index > EXPLOSION_LAST_FRAME {
        explosion.disabled = true;
        return false;
    }
    true
}

/// Advances an explosion after its timer ticked: when the timer fired, the
/// next frame is shown, or the explosion ends after its last frame.
pub fn advance_explosion(explosion: &mut RocketExplosion, sprite_index: &mut usize, timer_just_finished: bool)
    requires
        *old(sprite_index) <= EXPLOSION_LAST_FRAME,
    ensures
        *final(sprite_index) <= EXPLOSION_LAST_FRAME,
        timer_just_finished && *old(sprite_index) == EXPLOSION_LAST_FRAME ==> *final(explosion) == (
        RocketExplosion { disabled: true, ..*old(explosion) }) && *final(sprite_index) == *old(
            sprite_index,
        ),
        timer_just_finished && *old(sprite_index) < EXPLOSION_LAST_FRAME ==> *final(explosion)
            == *old(explosion) && *final(sprite_index) == *old(sprite_index) + 1,
        !timer_just_finished ==> *final(explosion) == *old(explosion) && *final(sprite_index)
            == *old(sprite_index),
{
    if timer_just_finished {
        if *sprite_index == EXPLOSION_LAST_FRAME {
            explosion.disabled = true;
        } else {
            *sprite_index = *sprite_index + 1;
        }
    }
}

/// The sonic-boom effect shown when a plane reaches top speed.
#[derive(Clone, Copy, Debug, PartialEq, Eq)]
pub struct SuperSonicAnimation {
    pub disabled: bool,
}

/// The last frame of the sonic-boom animation.
pub const SUPER_SONIC_LAST_FRAME: usize = 8;

/// Advances a sonic boom after its timer ticked (the caller ticks the timer
/// only while the boom is not disabled): when the timer fired, the next
/// frame is shown, or the boom ends after its last frame.
pub fn advance_super_sonic(animation: &mut SuperSonicAnimation, sprite_index: &mut usize, timer_just_finished: bool)
    requires
        timer_just_finished && *old(sprite_index) != SUPER_SONIC_LAST_FRAME ==> *old(sprite_index)
            < usize::MAX,
    ensures
        timer_just_finished && *old(sprite_index) == SUPER_SONIC_LAST_FRAME ==> *final(animation)
            == (SuperSonicAnimation { disabled: true }) && *final(sprite_index) == *old(sprite_index),
        timer_just_finished && *old(sprite_index) != SUPER_SONIC_LAST_FRAME ==> *final(animation)
            == *old(animation) && *final(sprite_index) == *old(sprite_index) + 1,
        !timer_just_finished ==> *final(animation) == *old(animation) && *final(sprite_index)
            == *old(sprite_index),
        *old(sprite_index) <= SUPER_SONIC_LAST_FRAME ==> *final(sprite_index) <= SUPER_SONIC_LAST_FRAME,
{
    if timer_just_finished {
        if *sprite_index == SUPER_SONIC_LAST_FRAME {
            animation.disabled = true;
        } else {
            *sprite_index = *sprite_index + 1;
        }
    }
}

/// The explosion's blast in its first frames: an explosion that is at most
/// one frame old kills every plane of the other player within its radius,
/// and counts the frame.
pub fn check_explosion(explosion: &mut RocketExplosion, players: &mut Vec<Player>, in_range: &Vec<bool>)
    requires
        old(players)@.len() == in_range@.len(),
    ensures
        final(players)@.len() == old(players)@.len(),
        old(explosion).frame > 1 ==> *final(explosion) == *old(explosion) && final(players)@ == old(players)@,
        old(explosion).frame <= 1 ==> *final(explosion) == (RocketExplosion {
            frame: (old(explosion).frame + 1) as usize,
            ..*old(explosion)
        }),
        forall|i: int|
            0 <= i < old(players)@.len() ==> #[trigger] final(players)@[i] == (if old(explosion).frame <= 1
                && old(players)@[i].handle != old(explosion).handle && in_range@[i] {
                Player { health: 0, ..old(players)@[i] }
            } else {
                old(players)@[i]
            }),
{
    if explosion.frame > 1 {
        return;
    }
    explosion.frame = explosion.frame + 1;
    let ghost p0 = players@;
    let mut i: usize = 0;
    while i < players.len()
        invariant
            p0 == old(players)@,
            p0.len() == in_range@.len(),
            players@.len() == p0.len(),
            i <= p0.len(),
            explosion.handle == old(explosion).handle,
            forall|k: int| 0 <= k < i ==> #[trigger] players@[k] == (if p0[k].handle != explosion.handle && in_range@[k] {
                Player { health: 0, ..p0[k] }
            } else {
                p0[k]
            }),
            forall|k: int| i <= k < p0.len() ==> #[trigger] players@[k] == p0[k],
        decreases p0.len() - i,
    {
        let mut p = players[i];
        if p.handle != explosion.handle && in_range[i] {
            p.health = 0;
            players.set(i, p);
        }
        i = i + 1;
    }
}

} // verus!
