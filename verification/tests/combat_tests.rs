use ace_of_the_heavens::input::{INPUT_DODGE, INPUT_FIRE, INPUT_ROCKET};
use ace_of_the_heavens::console::CommandQueue;
use ace_of_the_heavens::game_logic::{Rematch, RoundStats, Score, Seed, Seeds};
use ace_of_the_heavens::network::Ready;
use ace_of_the_heavens::player::{damage_players, disable_rockets, RocketCollision};
use ace_of_the_heavens::player::{
    apply_collision_damage, collision_damage, damage_player, despawn_players, end_dodge,
    health_bar_fill, normal_vec, player_defeated, rocket_hits, start_dodging, Bullet,
    CollisionSide, Normal, Player, PlayerStatus, MAX_HEALTH,
};
use ace_of_the_heavens::shooting::{
    advance_explosion, advance_super_sonic, animate_bullet, check_explosion, cooldown_heat,
    explosion_continues, fire_bullets, fire_rockets, fire_when_ready, reload_bar_fill,
    reload_bullet, BulletReady, HeatSounds, RocketExplosion, SuperSonicAnimation, FIRE_HEAT,
    OVERHEAT,
};

#[test]
fn bullets_damage_other_player_once() {
    let mut p = Player::new(0, 100);
    let mut b = Bullet::new(30, 1);
    assert!(damage_player(&mut p, &mut b, true));
    assert_eq!(p.health, 70);
    assert!(b.disabled);
    assert!(!damage_player(&mut p, &mut b, true));
    assert_eq!(p.health, 70);
    let mut own = Bullet::new(30, 0);
    assert!(!damage_player(&mut p, &mut own, true));
    let mut far = Bullet::new(30, 1);
    assert!(!damage_player(&mut p, &mut far, false));
    assert!(!far.disabled);
}

#[test]
fn health_saturates_and_dead_or_dodging_take_nothing() {
    let mut p = Player::new(1, 20);
    let mut b = Bullet::new(30, 0);
    assert!(damage_player(&mut p, &mut b, true));
    assert_eq!(p.health, 0);
    let mut b2 = Bullet::new(30, 0);
    assert!(!damage_player(&mut p, &mut b2, true));
    let mut q = Player::new(1, 50);
    q.dodging = true;
    assert!(!damage_player(&mut q, &mut b2, true));
    assert_eq!(q.health, 50);
}

#[test]
fn crash_damage() {
    assert_eq!(collision_damage(400, 250_000), 1000);
    let mut p = Player::new(0, 500);
    assert!(apply_collision_damage(&mut p, 500));
    assert_eq!(p.health, 0);
    let mut p = Player::new(0, 500);
    assert!(!apply_collision_damage(&mut p, 501));
    assert_eq!(p.health, 0);
}

#[test]
fn reflection_normals() {
    assert_eq!(normal_vec(CollisionSide::Top, 1, -1), Some(Normal::Y));
    assert_eq!(normal_vec(CollisionSide::Top, 1, 0), None);
    assert_eq!(normal_vec(CollisionSide::Bottom, 0, 1), Some(Normal::NegY));
    assert_eq!(normal_vec(CollisionSide::Left, 1, 0), Some(Normal::NegX));
    assert_eq!(normal_vec(CollisionSide::Left, -1, 0), None);
    assert_eq!(normal_vec(CollisionSide::Right, -1, 1), Some(Normal::X));
    assert_eq!(normal_vec(CollisionSide::Inside, -1, 1), None);
}

#[test]
fn despawning_and_round_end() {
    let alive = PlayerStatus { health: 10, collision_disabled: false };
    let dead = PlayerStatus { health: 0, collision_disabled: false };
    let crashed = PlayerStatus { health: 10, collision_disabled: true };
    assert!(!player_defeated(alive));
    assert!(player_defeated(dead) && player_defeated(crashed));
    assert_eq!(despawn_players(&vec![alive, dead]), (vec![1], false));
    assert_eq!(despawn_players(&vec![crashed]), (vec![0], true));
    assert_eq!(despawn_players(&vec![]), (vec![], true));
}

#[test]
fn rockets_and_dodging() {
    let mut p = Player::new(0, MAX_HEALTH);
    assert!(rocket_hits(1, &p, true));
    assert!(!rocket_hits(0, &p, true));
    assert!(!start_dodging(&mut p, INPUT_DODGE, false));
    assert!(!start_dodging(&mut p, 0, true));
    assert!(start_dodging(&mut p, INPUT_DODGE, true));
    assert!(p.dodging);
    assert!(!rocket_hits(1, &p, true));
    end_dodge(&mut p, false);
    assert!(p.dodging);
    end_dodge(&mut p, true);
    assert!(!p.dodging);
}

#[test]
fn health_bar() {
    assert_eq!(health_bar_fill(2000, 2000), (100, false));
    assert_eq!(health_bar_fill(999, 2000), (49, false));
    assert_eq!(health_bar_fill(19, 2000), (0, true));
    assert_eq!(health_bar_fill(5000, 2000), (100, false));
}

#[test]
fn heat_cycle() {
    let mut p = Player::new(0, 100);
    assert!(fire_bullets(&mut p, INPUT_FIRE, true));
    assert_eq!(p.heat, FIRE_HEAT);
    assert!(!fire_bullets(&mut p, INPUT_FIRE, false));
    assert!(!fire_bullets(&mut p, 0, true));
    assert_eq!(cooldown_heat(&mut p, false), HeatSounds { overheat: false, reload: false });
    assert_eq!(p.heat, 80);
    cooldown_heat(&mut p, true);
    assert_eq!(p.heat, 68);
    p.heat = OVERHEAT;
    assert_eq!(cooldown_heat(&mut p, true), HeatSounds { overheat: true, reload: false });
    assert!(p.overheated);
    assert_eq!(p.heat, OVERHEAT - 5);
    assert!(!fire_bullets(&mut p, INPUT_FIRE, true));
    p.heat = 5;
    assert_eq!(cooldown_heat(&mut p, true), HeatSounds { overheat: false, reload: true });
    assert!(!p.overheated);
    assert_eq!(p.heat, 0);
    p.heat = 7;
    cooldown_heat(&mut p, true);
    assert_eq!(p.heat, 0);
}

#[test]
fn heat_stays_bounded_under_continuous_fire() {
    let mut p = Player::new(0, 100);
    for _ in 0..2000 {
        cooldown_heat(&mut p, true);
        fire_bullets(&mut p, INPUT_FIRE, true);
        assert!(p.heat <= OVERHEAT + FIRE_HEAT);
    }
}

#[test]
fn rockets_and_semi_auto() {
    assert!(fire_rockets(INPUT_ROCKET, true));
    assert!(!fire_rockets(INPUT_ROCKET, false));
    let mut ready = BulletReady(true);
    assert!(fire_when_ready(&mut ready, INPUT_FIRE));
    assert!(!fire_when_ready(&mut ready, INPUT_FIRE));
    reload_bullet(&mut ready, INPUT_FIRE);
    assert!(!ready.0);
    reload_bullet(&mut ready, 0);
    assert!(ready.0);
}

#[test]
fn reload_bar() {
    assert_eq!(reload_bar_fill(0), 0);
    assert_eq!(reload_bar_fill(500), 50);
    assert_eq!(reload_bar_fill(1080), 100);
}

#[test]
fn animations_stay_in_range() {
    assert_eq!(animate_bullet(3, true), 0);
    assert_eq!(animate_bullet(2, true), 3);
    assert_eq!(animate_bullet(2, false), 2);
    let mut e = RocketExplosion::new(1);
    let mut idx = 7;
    assert!(explosion_continues(&mut e, idx));
    advance_explosion(&mut e, &mut idx, true);
    assert!(e.disabled);
    assert_eq!(idx, 7);
    let mut e2 = RocketExplosion::new(0);
    assert!(!explosion_continues(&mut e2, 8));
    assert!(e2.disabled);
    let mut s = SuperSonicAnimation { disabled: false };
    let mut i = 0;
    for _ in 0..20 {
        if !s.disabled {
            advance_super_sonic(&mut s, &mut i, true);
        }
    }
    assert_eq!(i, 8);
    assert!(s.disabled);
}

#[test]
fn explosion_kills_in_first_frames() {
    let mut e = RocketExplosion::new(0);
    let mut players = vec![Player::new(0, 100), Player::new(1, 100)];
    check_explosion(&mut e, &mut players, &vec![true, true]);
    assert_eq!(players[0].health, 100);
    assert_eq!(players[1].health, 0);
    assert_eq!(e.frame, 1);
    let mut others = vec![Player::new(1, 100)];
    check_explosion(&mut e, &mut others, &vec![false]);
    assert_eq!(others[0].health, 100);
    assert_eq!(e.frame, 2);
    check_explosion(&mut e, &mut others, &vec![true]);
    assert_eq!(others[0].health, 100);
    assert_eq!(e.frame, 2);
}

#[test]
fn damage_round_over_all_pairs() {
    let mut players = vec![Player::new(0, 50), Player::new(1, 50)];
    let mut bullets = vec![Bullet::new(30, 0), Bullet::new(30, 1), Bullet::new(30, 0)];
    let in_range = vec![vec![true, true, true], vec![true, false, true]];
    let events = damage_players(&mut players, &mut bullets, &in_range);
    // player 0 is hit by bullet 1 only; player 1 by bullets 0 and 2
    assert_eq!(events, vec![0, 1, 1]);
    assert_eq!(players[0].health, 20);
    assert_eq!(players[1].health, 0);
    assert!(bullets.iter().all(|b| b.disabled));
    // a second frame changes nothing: the bullets are used up
    let events = damage_players(&mut players, &mut bullets, &in_range);
    assert!(events.is_empty());
}

#[test]
fn damage_stops_at_zero_health() {
    let mut players = vec![Player::new(1, 10)];
    let mut bullets = vec![Bullet::new(30, 0), Bullet::new(30, 0)];
    let events = damage_players(&mut players, &mut bullets, &vec![vec![true, true]]);
    assert_eq!(events, vec![1]);
    assert!(bullets[0].disabled);
    assert!(!bullets[1].disabled);
}

#[test]
fn rockets_hit_undodging_enemies() {
    let mut dodger = Player::new(1, 100);
    dodger.dodging = true;
    let players = vec![Player::new(0, 100), dodger];
    let mut rockets = vec![
        RocketCollision { handle: 0, disabled: false },
        RocketCollision { handle: 1, disabled: false },
        RocketCollision { handle: 1, disabled: true },
    ];
    let in_range = vec![vec![true, true], vec![true, true], vec![false, false]];
    disable_rockets(&mut rockets, &players, &in_range);
    assert!(!rockets[0].disabled);
    assert!(rockets[1].disabled);
    assert!(rockets[2].disabled);
}

#[test]
fn defaults() {
    assert_eq!(Score::default(), Score { p1: 0, p2: 0, last_winner: None });
    assert_eq!(Rematch::default(), Rematch { p1: false, p2: false });
    assert_eq!(RoundStats::default().rounds_played, 0);
    assert!(Seeds::default().0.is_empty());
    assert_eq!(Seed::default().seed, 0);
    assert_eq!(Ready::default(), Ready { connection_ready: false, local_ready: false, remote_ready: false });
    assert!(CommandQueue::default().queue.is_empty());
}

#[test]
fn dodging_player_is_invincible() {
    let mut dodger = Player::new(1, 100);
    dodger.dodging = true;
    let mut players = vec![Player::new(0, 100), dodger];
    let mut bullets = vec![Bullet::new(30, 0), Bullet::new(30, 0)];
    let in_range = vec![vec![true, true], vec![true, true]];
    let events = damage_players(&mut players, &mut bullets, &in_range);
    assert!(events.is_empty());
    assert_eq!(players[1], dodger);
    assert!(bullets.iter().all(|b| !b.disabled));
}

#[test]
fn sonic_boom_past_its_last_frame_keeps_advancing() {
    let mut s = SuperSonicAnimation { disabled: false };
    let mut i = 12;
    advance_super_sonic(&mut s, &mut i, true);
    assert_eq!(i, 13);
    assert!(!s.disabled);
    advance_super_sonic(&mut s, &mut i, false);
    assert_eq!(i, 13);
}
