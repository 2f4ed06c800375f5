//! A player's plane as the rules see it: handle, health, gun heat and
//! dodging, and what bullets, rockets and walls do to it.

use vstd::prelude::*;

use crate::input;

verus! {

/// Health of a plane at the start of a round.
pub const MAX_HEALTH: u32 = 2000;

/// Base damage of a bullet.
pub const BULLET_DAMAGE: u32 = 30;

#[derive(Clone, Copy, Debug, PartialEq, Eq)]
pub struct Player {
    pub handle: usize,
    pub health: u32,
    pub heat: u32,
    pub overheated: bool,
    pub dodging: bool,
}

impl Player {
    /// A plane at the start of a round, with full health and a cold gun.
    pub fn new(handle: usize, max_health: u32) -> (p: Player)
        ensures
            p == (Player { handle, health: max_health, heat: 0, overheated: false, dodging: false }),
    {
        Player { handle, health: max_health, heat: 0, overheated: false, dodging: false }
    }
}

/// A bullet in flight: who fired it, how much damage it does, and whether
/// it has already hit something.
#[derive(Clone, Copy, Debug, PartialEq, Eq)]
pub struct Bullet {
    pub damage: u32,
    pub handle: usize,
    pub disabled: bool,
}

impl Bullet {
    pub fn new(damage: u32, handle: usize) -> (b: Bullet)
        ensures
            b == (Bullet { damage, handle, disabled: false }),
    {
        Bullet { damage, handle, disabled: false }
    }
}

/// `a - b`, or 0 when `b` is larger.
pub open spec fn saturating_sub(a: u32, b: u32) -> u32 {
    if a < b {
        0
    } else {
        (a - b) as u32
    }
}

/// Whether a bullet within reach of a player hits it: it is the other
/// player's, it has not hit anything yet, and the player is alive and not
/// dodging.
pub open spec fn bullet_hits(player: Player, bullet: Bullet, in_range: bool) -> bool {
    &&& bullet.handle != player.handle
    &&& !bullet.disabled
    &&& player.health != 0
    &&& !player.dodging
    &&& in_range
}

/// A bullet against a player: on a hit the player loses the bullet's damage
/// (down to 0) and the bullet is used up. Returns whether it hit.
pub fn damage_player(player: &mut Player, bullet: &mut Bullet, in_range: bool) -> (hit: bool)
    ensures
        hit == bullet_hits(*old(player), *old(bullet), in_range),
        hit ==> *final(player) == (Player {
            health: saturating_sub(old(player).health, old(bullet).damage),
            ..*old(player)
        }),
        hit ==> *final(bullet) == (Bullet { disabled: true, ..*old(bullet) }),
        !hit ==> *final(player) == *old(player) && *final(bullet) == *old(bullet),
{
    if bullet.handle == player.handle {
        return false;
    }
    if bullet.disabled {
        return false;
    }
    if player.health == 0 {
        return false;
    }
    if player.dodging {
        return false;
    }
    if !in_range {
        return false;
    }
    if player.health < bullet.damage {
        player.health = 0;
    } else {
        player.health = player.health - bullet.damage;
    }
    bullet.disabled = true;
    true
}

/// A player and the bullets after the player has met the first `j` of them
/// (in order), with the handles of the damage events so far appended to
/// `events`.
pub open spec fn meet_bullets(
    player: Player,
    bullets: Seq<Bullet>,
    in_range: Seq<bool>,
    events: Seq<usize>,
    j: int,
) -> (Player, Seq<Bullet>, Seq<usize>)
    decreases j,
{
    if j <= 0 {
        (player, bullets, events)
    } else {
        let (p, bs, ev) = meet_bullets(player, bullets, in_range, events, j - 1);
        let b = bs[j - 1];
        if bullet_hits(p, b, in_range[j - 1]) {
            (
                Player { health: saturating_sub(p.health, b.damage), ..p },
                bs.update(j - 1, Bullet { disabled: true, ..b }),
                ev.push(p.handle),
            )
        } else {
            (p, bs, ev)
        }
    }
}

/// The players and bullets after the first `i` players have met every
/// bullet (players in order, each meeting the bullets in order), with the
/// handles of the players that took damage, one per hit, in order.
pub open spec fn damage_round(
    players: Seq<Player>,
    bullets: Seq<Bullet>,
    in_range: Seq<Seq<bool>>,
    i: int,
) -> (Seq<Player>, Seq<Bullet>, Seq<usize>)
    decreases i,
{
    if i <= 0 {
        (players, bullets, seq![])
    } else {
        let (ps, bs, ev) = damage_round(players, bullets, in_range, i - 1);
        let (p, bs2, ev2) = meet_bullets(ps[i - 1], bs, in_range[i - 1], ev, bs.len() as int);
        (ps.update(i - 1, p), bs2, ev2)
    }
}

proof fn lemma_meet_bullets_len(
    player: Player,
    bullets: Seq<Bullet>,
    in_range: Seq<bool>,
    events: Seq<usize>,
    j: int,
)
    requires
        0 <= j <= bullets.len(),
    ensures
        meet_bullets(player, bullets, in_range, events, j).1.len() == bullets.len(),
    decreases j,
{
    if j > 0 {
        lemma_meet_bullets_len(player, bullets, in_range, events, j - 1);
    }
}

proof fn lemma_damage_round_len(
    players: Seq<Player>,
    bullets: Seq<Bullet>,
    in_range: Seq<Seq<bool>>,
    i: int,
)
    requires
        0 <= i <= players.len(),
    ensures
        damage_round(players, bullets, in_range, i).0.len() == players.len(),
        damage_round(players, bullets, in_range, i).1.len() == bullets.len(),
    decreases i,
{
    if i > 0 {
        lemma_damage_round_len(players, bullets, in_range, i - 1);
        let (ps, bs, ev) = damage_round(players, bullets, in_range, i - 1);
        lemma_meet_bullets_len(ps[i - 1], bs, in_range[i - 1], ev, bs.len() as int);
    }
}

/// Every player meets every bullet (see `damage_round`); `in_range[i][j]`
/// tells whether bullet `j` is within reach of player `i`. Returns the
/// handles of the players that took damage, one per hit.
pub fn damage_players(players: &mut Vec<Player>, bullets: &mut Vec<Bullet>, in_range: &Vec<Vec<bool>>) -> (events: Vec<usize>)
    requires
        in_range@.len() == old(players)@.len(),
        forall|i: int| 0 <= i < in_range@.len() ==> (#[trigger] in_range@[i])@.len() == old(bullets)@.len(),
    ensures
        ({
            let (ps, bs, ev) = damage_round(
                old(players)@,
                old(bullets)@,
                in_range@.map_values(|r: Vec<bool>| r@),
                old(players)@.len() as int,
            );
            final(players)@ == ps && final(bullets)@ == bs && events@ == ev
        }),
{
    let ghost p0 = players@;
    let ghost b0 = bullets@;
    let ghost m = in_range@.map_values(|r: Vec<bool>| r@);
    let mut events: Vec<usize> = Vec::new();
    let mut i: usize = 0;
    while i < players.len()
        invariant
            p0 == old(players)@,
            b0 == old(bullets)@,
            m == in_range@.map_values(|r: Vec<bool>| r@),
            in_range@.len() == p0.len(),
            forall|k: int| 0 <= k < in_range@.len() ==> (#[trigger] in_range@[k])@.len() == b0.len(),
            0 <= i <= p0.len(),
            players@.len() == p0.len(),
            bullets@.len() == b0.len(),
            damage_round(p0, b0, m, i as int) == (players@, bullets@, events@),
            forall|k: int| i <= k < p0.len() ==> #[trigger] players@[k] == p0[k],
        decreases p0.len() - i,
    {
        let ghost ps_i = players@;
        let ghost bs_i = bullets@;
        let ghost ev_i = events@;
        let mut player = players[i];
        let row = &in_range[i];
        assert(m[i as int] == row@);
        let mut j: usize = 0;
        while j < bullets.len()
            invariant
                0 <= j <= bs_i.len(),
                bs_i.len() == b0.len(),
                row@.len() == b0.len(),
                bullets@.len() == b0.len(),
                meet_bullets(ps_i[i as int], bs_i, row@, ev_i, j as int) == (player, bullets@, events@),
            decreases bs_i.len() - j,
        {
            let mut bullet = bullets[j];
            let handle = player.handle;
            let hit = damage_player(&mut player, &mut bullet, row[j]);
            if hit {
                events.push(handle);
                bullets.set(j, bullet);
            }
            j = j + 1;
        }
        players.set(i, player);
        proof {
            lemma_damage_round_len(p0, b0, m, i as int);
            assert(ps_i[i as int] == p0[i as int]);
        }
        i = i + 1;
    }
    events
}

/// The number of used-up bullets.
pub open spec fn disabled_count(bullets: Seq<Bullet>) -> nat
    decreases bullets.len(),
{
    if bullets.len() == 0 {
        0
    } else {
        disabled_count(bullets.drop_last()) + (if bullets.last().disabled {
            1nat
        } else {
            0nat
        })
    }
}

proof fn lemma_disabled_count_update(bullets: Seq<Bullet>, k: int, b: Bullet)
    requires
        0 <= k < bullets.len(),
        !bullets[k].disabled,
        b.disabled,
    ensures
        disabled_count(bullets.update(k, b)) == disabled_count(bullets) + 1,
    decreases bullets.len(),
{
    let u = bullets.update(k, b);
    if k < bullets.len() - 1 {
        lemma_disabled_count_update(bullets.drop_last(), k, b);
        assert(u.drop_last() == bullets.drop_last().update(k, b));
    } else {
        assert(u.drop_last() == bullets.drop_last());
    }
}

proof fn lemma_meet_bullets_events(
    player: Player,
    bullets: Seq<Bullet>,
    in_range: Seq<bool>,
    events: Seq<usize>,
    j: int,
)
    requires
        0 <= j <= bullets.len(),
    ensures
        ({
            let (p, bs, ev) = meet_bullets(player, bullets, in_range, events, j);
            &&& ev.len() == events.len() + disabled_count(bs) - disabled_count(bullets)
            &&& disabled_count(bs) >= disabled_count(bullets)
            &&& bs.len() == bullets.len()
            &&& p.handle == player.handle
            &&& p.health <= player.health
            &&& forall|k: int| events.len() <= k < ev.len() ==> ev[k] == player.handle
            &&& ev.take(events.len() as int) == events
        }),
    decreases j,
{
    if j > 0 {
        lemma_meet_bullets_events(player, bullets, in_range, events, j - 1);
        let (p, bs, ev) = meet_bullets(player, bullets, in_range, events, j - 1);
        let b = bs[j - 1];
        if bullet_hits(p, b, in_range[j - 1]) {
            lemma_disabled_count_update(bs, j - 1, Bullet { disabled: true, ..b });
            assert(ev.push(p.handle).take(events.len() as int) == ev.take(events.len() as int));
        }
    }
}

/// Each hit is one damage event, and each hit uses up a bullet: over a
/// frame, the number of damage events equals the number of bullets that
/// became used up, so no bullet damages twice. No player's health rises,
/// and players keep their handles.
pub proof fn lemma_damage_round_events(
    players: Seq<Player>,
    bullets: Seq<Bullet>,
    in_range: Seq<Seq<bool>>,
    i: int,
)
    requires
        0 <= i <= players.len(),
    ensures
        ({
            let (ps, bs, ev) = damage_round(players, bullets, in_range, i);
            &&& ev.len() + disabled_count(bullets) == disabled_count(bs)
            &&& ps.len() == players.len()
            &&& forall|k: int|
                0 <= k < players.len() ==> #[trigger] ps[k].health <= players[k].health
                    && ps[k].handle == players[k].handle
        }),
    decreases i,
{
    if i > 0 {
        lemma_damage_round_events(players, bullets, in_range, i - 1);
        let (ps, bs, ev) = damage_round(players, bullets, in_range, i - 1);
        lemma_meet_bullets_events(ps[i - 1], bs, in_range[i - 1], ev, bs.len() as int);
        let (p, bs2, ev2) = meet_bullets(ps[i - 1], bs, in_range[i - 1], ev, bs.len() as int);
        let ps2 = ps.update(i - 1, p);
        assert forall|k: int| 0 <= k < players.len() implies #[trigger] ps2[k].health
            <= players[k].health && ps2[k].handle == players[k].handle by {
            if k == i - 1 {
                assert(ps[k].health <= players[k].health);
            } else {
                assert(ps2[k] == ps[k]);
            }
        }
    }
}

proof fn lemma_meet_bullets_dodging(
    player: Player,
    bullets: Seq<Bullet>,
    in_range: Seq<bool>,
    events: Seq<usize>,
    j: int,
)
    requires
        player.dodging,
    ensures
        meet_bullets(player, bullets, in_range, events, j) == (player, bullets, events),
    decreases j,
{
    if j > 0 {
        lemma_meet_bullets_dodging(player, bullets, in_range, events, j - 1);
    }
}

/// Dodging gives invincibility frames: over a frame of bullets, a plane
/// that is dodging comes out exactly as it went in, its health untouched.
pub proof fn lemma_dodging_is_invincible(
    players: Seq<Player>,
    bullets: Seq<Bullet>,
    in_range: Seq<Seq<bool>>,
    i: int,
)
    requires
        0 <= i <= players.len(),
    ensures
        ({
            let (ps, bs, ev) = damage_round(players, bullets, in_range, i);
            forall|k: int| 0 <= k < players.len() && (#[trigger] players[k]).dodging ==> ps[k] == players[k]
        }),
    decreases i,
{
    if i > 0 {
        lemma_dodging_is_invincible(players, bullets, in_range, i - 1);
        lemma_damage_round_len(players, bullets, in_range, i - 1);
        let (ps, bs, ev) = damage_round(players, bullets, in_range, i - 1);
        if players[i - 1].dodging {
            assert(ps[i - 1] == players[i - 1]);
            lemma_meet_bullets_dodging(ps[i - 1], bs, in_range[i - 1], ev, bs.len() as int);
        }
        let (p, bs2, ev2) = meet_bullets(ps[i - 1], bs, in_range[i - 1], ev, bs.len() as int);
        let ps2 = ps.update(i - 1, p);
        assert forall|k: int| 0 <= k < players.len() && (#[trigger] players[k]).dodging implies ps2[k]
            == players[k] by {
            if k != i - 1 {
                assert(ps2[k] == ps[k]);
            }
        }
    }
}

/// A hit costs the plane exactly the hitting bullet's own damage: a plane
/// meeting one bullet is hit when the bullet is the other player's, not yet
/// used up, within reach, and the plane is alive and not dodging. Then the
/// plane loses that bullet's `damage` (down to 0) and nothing else about it
/// changes, the bullet is used up, and the frame reports one damage event,
/// naming the plane. Otherwise plane and bullet stay as they were and
/// nothing is reported.
pub proof fn lemma_hit_costs_bullet_damage(p: Player, b: Bullet, in_range: bool)
    ensures
        ({
            let (ps, bs, ev) = damage_round(seq![p], seq![b], seq![seq![in_range]], 1);
            let hit = p.handle != b.handle && !b.disabled && p.health != 0 && !p.dodging
                && in_range;
            &&& ps.len() == 1 && bs.len() == 1
            &&& hit ==> {
                &&& ps[0].health == (if p.health < b.damage {
                    0
                } else {
                    p.health - b.damage
                })
                &&& ps[0].handle == p.handle && ps[0].heat == p.heat && ps[0].overheated
                    == p.overheated && ps[0].dodging == p.dodging
                &&& bs[0].disabled && bs[0].damage == b.damage && bs[0].handle == b.handle
                &&& ev =~= seq![p.handle]
            }
            &&& !hit ==> ps[0] == p && bs[0] == b && ev.len() == 0
        }),
{
    let players = seq![p];
    let bullets = seq![b];
    let rows = seq![seq![in_range]];
    assert(damage_round(players, bullets, rows, 0) == (players, bullets, Seq::<usize>::empty()));
    assert(meet_bullets(p, bullets, rows[0], Seq::<usize>::empty(), 0) == (
        p,
        bullets,
        Seq::<usize>::empty(),
    ));
    assert(bullets[0] == b);
    assert(rows[0][0] == in_range);
    assert(players.update(0, p) =~= players);
}

/// Every defeated plane is removed and only defeated ones are: the index
/// of a plane is in the list exactly when the plane is defeated, and the
/// list runs in increasing order.
pub proof fn lemma_defeated_indices(players: Seq<PlayerStatus>)
    requires
        players.len() <= usize::MAX,
    ensures
        forall|i: int|
            0 <= i < players.len() ==> (defeated_indices(players).contains(i as usize)
                <==> is_defeated(#[trigger] players[i])),
        forall|a: int, b: int|
            0 <= a < b < defeated_indices(players).len() ==> defeated_indices(players)[a]
                < defeated_indices(players)[b],
        forall|a: int|
            0 <= a < defeated_indices(players).len() ==> defeated_indices(players)[a]
                < players.len(),
    decreases players.len(),
{
    if players.len() > 0 {
        let prev_players = players.drop_last();
        lemma_defeated_indices(prev_players);
        let prev = defeated_indices(prev_players);
        let cur = defeated_indices(players);
        let last = (players.len() - 1) as usize;
        assert forall|i: int| 0 <= i < players.len() implies (cur.contains(i as usize)
            <==> is_defeated(#[trigger] players[i])) by {
            if i < players.len() - 1 {
                assert(prev_players[i] == players[i]);
                if cur.contains(i as usize) {
                    let j = choose|j: int| 0 <= j < cur.len() && cur[j] == i as usize;
                    if j < prev.len() {
                        assert(prev[j] == cur[j]);
                        assert(prev.contains(i as usize));
                    }
                }
                if prev.contains(i as usize) {
                    let j = choose|j: int| 0 <= j < prev.len() && prev[j] == i as usize;
                    assert(cur[j] == prev[j]);
                }
            } else {
                if cur.contains(i as usize) {
                    let j = choose|j: int| 0 <= j < cur.len() && cur[j] == i as usize;
                    if j < prev.len() {
                        assert(prev[j] == cur[j]);
                    }
                }
                if is_defeated(players[i]) {
                    assert(cur[cur.len() - 1] == last);
                }
            }
        }
    }
}

/// A bullet hits at most once, health never rises, and a dead or dodging
/// plane takes no damage.
pub proof fn lemma_bullet_hits_once(
    player: Player,
    bullet: Bullet,
    in_range: bool,
    other: Player,
    other_in_range: bool,
)
    ensures
        bullet_hits(player, bullet, in_range) ==> !bullet_hits(
            other,
            Bullet { disabled: true, ..bullet },
            other_in_range,
        ),
        saturating_sub(player.health, bullet.damage) <= player.health,
        player.health == 0 || player.dodging ==> !bullet_hits(player, bullet, in_range),
{
}

/// The damage of crashing into an obstacle: the obstacle's damage scaled by
/// a multiplier in thousandths of a percent.
pub fn collision_damage(obstacle_damage: u32, multiplier: u32) -> (damage: u32)
    requires
        obstacle_damage * multiplier <= u32::MAX,
    ensures
        damage == obstacle_damage * multiplier / 100 / 1000,
{
    obstacle_damage * multiplier / 100 / 1000
}

/// The player takes crash damage. Returns whether it survived; a survivor
/// is slowed to the minimum speed.
pub fn apply_collision_damage(player: &mut Player, damage: u32) -> (survived: bool)
    ensures
        survived == (old(player).health >= damage),
        *final(player) == (Player { health: saturating_sub(old(player).health, damage), ..*old(player) }),
{
    if player.health < damage {
        player.health = 0;
        false
    } else {
        player.health = player.health - damage;
        true
    }
}

/// The side of an obstacle that a plane touches.
#[derive(Clone, Copy, Debug, PartialEq, Eq)]
pub enum CollisionSide {
    Left,
    Right,
    Top,
    Bottom,
    Inside,
}

/// A unit normal of an obstacle's side.
#[derive(Clone, Copy, Debug, PartialEq, Eq)]
pub enum Normal {
    X,
    NegX,
    Y,
    NegY,
}

/// The normal to reflect the heading about when a plane touches a side of
/// an obstacle while flying into it; `None` when it flies away from it (or
/// is inside). The heading is given by the signs (-1, 0, 1) of its x and y
/// components.
pub open spec fn spec_normal_vec(collision: CollisionSide, dx_sign: int, dy_sign: int) -> Option<Normal> {
    match collision {
        CollisionSide::Top => if dy_sign >= 0 { None } else { Some(Normal::Y) },
        CollisionSide::Bottom => if dy_sign <= 0 { None } else { Some(Normal::NegY) },
        CollisionSide::Left => if dx_sign <= 0 { None } else { Some(Normal::NegX) },
        CollisionSide::Right => if dx_sign >= 0 { None } else { Some(Normal::X) },
        CollisionSide::Inside => None,
    }
}

/// See `spec_normal_vec`.
pub fn normal_vec(collision: CollisionSide, dx_sign: i8, dy_sign: i8) -> (r: Option<Normal>)
    ensures
        r == spec_normal_vec(collision, dx_sign as int, dy_sign as int),
{
    match collision {
        CollisionSide::Top => if dy_sign >= 0 {
            None
        } else {
            Some(Normal::Y)
        },
        CollisionSide::Bottom => if dy_sign <= 0 {
            None
        } else {
            Some(Normal::NegY)
        },
        CollisionSide::Left => if dx_sign <= 0 {
            None
        } else {
            Some(Normal::NegX)
        },
        CollisionSide::Right => if dx_sign >= 0 {
            None
        } else {
            Some(Normal::X)
        },
        CollisionSide::Inside => None,
    }
}

/// What decides whether a plane leaves the round: its health, and whether
/// it has crashed into a wall or left the map.
#[derive(Clone, Copy, Debug, PartialEq, Eq)]
pub struct PlayerStatus {
    pub health: u32,
    pub collision_disabled: bool,
}

pub open spec fn is_defeated(s: PlayerStatus) -> bool {
    s.health == 0 || s.collision_disabled
}

/// The indices (in order) of the planes that are defeated.
pub open spec fn defeated_indices(players: Seq<PlayerStatus>) -> Seq<usize>
    decreases players.len(),
{
    if players.len() == 0 {
        seq![]
    } else {
        let prev = defeated_indices(players.drop_last());
        if is_defeated(players.last()) {
            prev.push((players.len() - 1) as usize)
        } else {
            prev
        }
    }
}

/// Whether a plane is defeated (see `is_defeated`).
pub fn player_defeated(status: PlayerStatus) -> (r: bool)
    ensures
        r == is_defeated(status),
{
    status.health == 0 || status.collision_disabled
}

/// Whether a rocket within reach of a plane hits it: it is the other
/// player's rocket and the plane is not dodging.
pub fn rocket_hits(rocket_handle: usize, player: &Player, in_range: bool) -> (hit: bool)
    ensures
        hit == (rocket_handle != player.handle && !player.dodging && in_range),
{
    rocket_handle != player.handle && !player.dodging && in_range
}

/// A rocket as collisions see it: whose it is, and whether it has hit
/// something (and is to explode).
#[derive(Clone, Copy, Debug, PartialEq, Eq)]
pub struct RocketCollision {
    pub handle: usize,
    pub disabled: bool,
}

pub open spec fn rocket_hits_some(rocket_handle: usize, players: Seq<Player>, in_range: Seq<bool>) -> bool {
    exists|k: int|
        0 <= k < players.len() && #[trigger] players[k].handle != rocket_handle && !players[k].dodging
            && in_range[k]
}

/// Marks the rockets that hit a plane: a rocket hits when it is within
/// reach of a plane of the other player that is not dodging;
/// `in_range[r][k]` tells whether rocket `r` is within reach of plane `k`.
pub fn disable_rockets(rockets: &mut Vec<RocketCollision>, players: &Vec<Player>, in_range: &Vec<Vec<bool>>)
    requires
        in_range@.len() == old(rockets)@.len(),
        forall|r: int| 0 <= r < in_range@.len() ==> (#[trigger] in_range@[r])@.len() == players@.len(),
    ensures
        final(rockets)@.len() == old(rockets)@.len(),
        forall|r: int|
            0 <= r < old(rockets)@.len() ==> #[trigger] final(rockets)@[r] == (RocketCollision {
                disabled: old(rockets)@[r].disabled || rocket_hits_some(
                    old(rockets)@[r].handle,
                    players@,
                    in_range@[r]@,
                ),
                ..old(rockets)@[r]
            }),
{
    let ghost r0 = rockets@;
    let mut r: usize = 0;
    while r < rockets.len()
        invariant
            r0 == old(rockets)@,
            in_range@.len() == r0.len(),
            forall|k: int| 0 <= k < in_range@.len() ==> (#[trigger] in_range@[k])@.len() == players@.len(),
            0 <= r <= r0.len(),
            rockets@.len() == r0.len(),
            forall|k: int|
                0 <= k < r ==> #[trigger] rockets@[k] == (RocketCollision {
                    disabled: r0[k].disabled || rocket_hits_some(r0[k].handle, players@, in_range@[k]@),
                    ..r0[k]
                }),
            forall|k: int| r <= k < r0.len() ==> #[trigger] rockets@[k] == r0[k],
        decreases r0.len() - r,
    {
        let mut rocket = rockets[r];
        let row = &in_range[r];
        let mut k: usize = 0;
        while k < players.len()
            invariant
                0 <= k <= players@.len(),
                row@.len() == players@.len(),
                rocket.handle == r0[r as int].handle,
                rocket.disabled == (r0[r as int].disabled || exists|q: int|
                    0 <= q < k && #[trigger] players@[q].handle != rocket.handle && !players@[q].dodging
                        && row@[q]),
            decreases players@.len() - k,
        {
            if rocket_hits(rocket.handle, &players[k], row[k]) {
                rocket.disabled = true;
            }
            k = k + 1;
        }
        rockets.set(r, rocket);
        r = r + 1;
    }
}

/// The planes to remove at the end of a frame, and whether the round is
/// over, which it is once at most one plane was in the round this frame.
pub fn despawn_players(players: &Vec<PlayerStatus>) -> (r: (Vec<usize>, bool))
    ensures
        r.0@ == defeated_indices(players@),
        r.1 == (players@.len() <= 1),
{
    let mut despawn: Vec<usize> = Vec::new();
    let mut i: usize = 0;
    while i < players.len()
        invariant
            i <= players@.len(),
            despawn@ == defeated_indices(players@.take(i as int)),
        decreases players@.len() - i,
    {
        assert(players@.take(i + 1).drop_last() == players@.take(i as int));
        let p = players[i];
        if p.health == 0 || p.collision_disabled {
            despawn.push(i);
        }
        i = i + 1;
    }
    assert(players@.take(i as int) == players@);
    (despawn, players.len() <= 1)
}

/// Whether a plane starts a dodge: it wants to, and its dodge has cooled
/// down.
pub fn start_dodging(player: &mut Player, input: u8, dodge_timer_finished: bool) -> (started: bool)
    ensures
        started == (dodge_timer_finished && input::has_flag(input, input::INPUT_DODGE)),
        *final(player) == (Player { dodging: old(player).dodging || started, ..*old(player) }),
{
    if !(dodge_timer_finished && input::dodge(input)) {
        return false;
    }
    player.dodging = true;
    true
}

/// Ends the dodge of a plane whose dodge has lasted long enough.
pub fn end_dodge(player: &mut Player, dodge_over: bool)
    ensures
        *final(player) == (Player { dodging: old(player).dodging && !dodge_over, ..*old(player) }),
{
    if dodge_over {
        player.dodging = false;
    }
}

/// The fill (0 to 100 percent) of a health bar, which is hidden when
/// empty.
pub fn health_bar_fill(health: u32, max_health: u32) -> (r: (u32, bool))
    requires
        max_health > 0,
        100 * health <= u32::MAX,
    ensures
        r.0 == (if (100 * health) as int / max_health as int > 100 {
            100
        } else {
            (100 * health) as int / max_health as int
        }),
        r.1 == (r.0 == 0),
{
    let x = 100 * health / max_health;
    let x_fill = if x > 100 {
        100
    } else {
        x
    };
    (x_fill, x_fill == 0)
}

} // verus!
