use beyond_the_stars::enemy::{enemy_death, enemy_movement, spawn_enemy, EnemyKilledEvent};
use beyond_the_stars::events::{Channel, EventCursor};
use beyond_the_stars::game::{FadeAction, Game, GameUi, Notice, StateConflict, WinStatus};
use beyond_the_stars::level::{
    build_level, level_spawner, level_timers, level_win, schedule_level, EnemySpawn, Level,
    LevelRecipe, LevelWonEvent, NextWaveEvent, SpawnRecipe, Wave,
};
use beyond_the_stars::player::{player_damage, player_movement, player_score, player_shooting, spawn_player};
use beyond_the_stars::projectiles::{new_projectile, projectile_system, Heading};
use beyond_the_stars::shared::{aabb_overlap, Damagable, GameOverEvent, GameState, Input, Vec2, Vec3};
use beyond_the_stars::timer::Timer;
use beyond_the_stars::weapon::{weapon_shooting, Weapon};
use beyond_the_stars::world::{LevelEntity, ProjectileEntity, World};

fn no_keys() -> Input {
    Input { left: false, right: false, fire: false, play: false, escape: false, quit: false }
}

fn target(health: i32, is_enemy: bool) -> Damagable {
    Damagable { health, is_enemy, hitbox_size: Vec2 { x: 30_000, y: 30_000 }, damagable: true }
}

fn shot_at(world: &mut World, x: i64, y: i64, is_enemy: bool, damage: i32) {
    let id = world.fresh_id().unwrap();
    world.projectiles.push(ProjectileEntity {
        id,
        pos: Vec3 { x, y, z: 0 },
        projectile: new_projectile(is_enemy, damage),
    });
}

fn spawn(pos: i32, x: i64) -> EnemySpawn {
    EnemySpawn { sub_wave_position: pos, spawn_function: SpawnRecipe::Enemy, spawn_position: x }
}

fn level_with(waves: Vec<Wave>) -> Level {
    Level {
        warmup_timer: Timer::new(2_000_000, false),
        wave_timer: Timer::new(3_000_000, true),
        current_wave: None,
        waves,
        next_level_fn: None,
    }
}

#[test]
fn damage_subtracts_and_floors_at_zero() {
    let mut d = target(90, true);
    d.damage(50);
    assert_eq!(d.health, 40);
    d.damage(50);
    assert_eq!(d.health, 0);
    d.damage(10);
    assert_eq!(d.health, 0);
    let mut e = target(7, false);
    e.damage(0);
    assert_eq!(e.health, 7);
}

#[test]
fn despawn_of_missing_id_changes_nothing() {
    let mut world = World::new();
    spawn_enemy(&mut world, 0);
    spawn_player(&mut world);
    world.despawn(99);
    assert_eq!(world.enemies.len(), 1);
    assert_eq!(world.players.len(), 1);
    let id = world.enemies[0].id;
    world.despawn(id);
    assert_eq!(world.enemies.len(), 0);
    world.despawn(id);
    assert_eq!(world.enemies.len(), 0);
    assert_eq!(world.players.len(), 1);
}

#[test]
fn projectile_spares_own_side_on_full_overlap() {
    let mut world = World::new();
    spawn_enemy(&mut world, 0);
    shot_at(&mut world, 0, 360_000, true, 50);
    projectile_system(&mut world, 0);
    assert_eq!(world.enemies[0].damagable.health, 90);
    assert_eq!(world.projectiles.len(), 1);
}

#[test]
fn overlap_counts_touching_edges() {
    let size_a = Vec2 { x: 30_000, y: 30_000 };
    let size_b = Vec2 { x: 20_000, y: 20_000 };
    let a = Vec3 { x: 0, y: 0, z: 0 };
    assert!(aabb_overlap(a, size_a, Vec3 { x: 25_000, y: 25_000, z: 0 }, size_b));
    assert!(aabb_overlap(a, size_a, Vec3 { x: -25_000, y: -25_000, z: 5 }, size_b));
    assert!(!aabb_overlap(a, size_a, Vec3 { x: 25_001, y: 0, z: 0 }, size_b));
    assert!(!aabb_overlap(a, size_a, Vec3 { x: 0, y: -25_001, z: 0 }, size_b));
}

#[test]
fn wave_dispatches_sparse_sub_waves() {
    let mut world = World::new();
    let id = world.fresh_id().unwrap();
    let wave = Wave {
        current_sub_wave: 0,
        enemy_spawns: vec![spawn(0, -300_000), spawn(0, 300_000), spawn(2, -300_000), spawn(2, 300_000)],
    };
    world.levels.push(LevelEntity { id, level: level_with(vec![wave]) });
    let mut next_wave: Channel<NextWaveEvent> = Channel::new();
    // warm-up runs out
    level_timers(&mut world, 2_000_000);
    assert!(world.levels[0].level.warmup_timer.finished);
    assert!(!world.levels[0].level.wave_timer.finished);
    level_spawner(&mut world, &mut next_wave);
    assert_eq!(next_wave.events.len(), 1);
    assert!(world.levels[0].level.current_wave.is_some());
    assert_eq!(world.enemies.len(), 0);
    // first gate: both position-0 entries at once
    level_timers(&mut world, 3_000_000);
    level_spawner(&mut world, &mut next_wave);
    assert_eq!(world.enemies.len(), 2);
    assert_eq!(world.enemies[0].pos.x, -300_000);
    assert_eq!(world.enemies[1].pos.x, 300_000);
    let w = world.levels[0].level.current_wave.as_ref().unwrap();
    assert_eq!(w.current_sub_wave, 1);
    assert_eq!(w.enemy_spawns.len(), 2);
    assert!(!w.is_done());
    // second gate: position 1 holds nothing
    level_timers(&mut world, 3_000_000);
    level_spawner(&mut world, &mut next_wave);
    assert_eq!(world.enemies.len(), 2);
    assert!(!world.levels[0].level.current_wave.as_ref().unwrap().is_done());
    // third gate: both position-2 entries
    level_timers(&mut world, 3_000_000);
    level_spawner(&mut world, &mut next_wave);
    assert_eq!(world.enemies.len(), 4);
    assert!(world.levels[0].level.current_wave.as_ref().unwrap().is_done());
    assert_eq!(next_wave.events.len(), 1);
}

#[test]
fn pending_entry_keeps_wave_alive_without_enemies() {
    let mut level = level_with(vec![]);
    level.warmup_timer.tick(2_000_000);
    level.current_wave = Some(Wave { current_sub_wave: 0, enemy_spawns: vec![spawn(5, 0)] });
    let mut next_wave: Channel<NextWaveEvent> = Channel::new();
    let d = schedule_level(&mut level, true, &mut next_wave);
    assert!(d.is_empty());
    assert!(level.current_wave.is_some());
    // once it is empty and no enemy is left, it retires and the timer restarts
    level.current_wave = Some(Wave { current_sub_wave: 6, enemy_spawns: vec![] });
    level.wave_timer.tick(1_000);
    schedule_level(&mut level, true, &mut next_wave);
    assert!(level.current_wave.is_none());
    assert_eq!(level.wave_timer.elapsed, 0);
    // an empty wave with enemies alive stays
    level.current_wave = Some(Wave { current_sub_wave: 6, enemy_spawns: vec![] });
    schedule_level(&mut level, false, &mut next_wave);
    assert!(level.current_wave.is_some());
}

#[test]
fn player_movement_is_clamped() {
    let mut world = World::new();
    spawn_player(&mut world);
    world.players[0].pos.x = 0;
    let right = Input { right: true, ..no_keys() };
    player_movement(&mut world, &right, 1_000_000);
    assert_eq!(world.players[0].pos.x, 335_000);
    let left = Input { left: true, ..no_keys() };
    player_movement(&mut world, &left, 100_000);
    assert_eq!(world.players[0].pos.x, 295_000);
    let both = Input { left: true, right: true, ..no_keys() };
    player_movement(&mut world, &both, 100_000);
    assert_eq!(world.players[0].pos.x, 255_000);
    player_movement(&mut world, &left, 2_000_000);
    assert_eq!(world.players[0].pos.x, -335_000);
}

#[test]
fn weapon_fires_then_cools_down() {
    let mut w = Weapon {
        fire_rate: 6_000,
        enabled: true,
        is_enemy: false,
        cooldown: 0,
        damage: 50,
        offsets: vec![Vec2 { x: 0, y: 0 }],
    };
    assert!(w.trigger(16_000));
    assert_eq!(w.cooldown, 166_666);
    assert!(!w.trigger(100_000));
    assert_eq!(w.cooldown, 66_666);
    assert!(!w.trigger(100_000));
    assert_eq!(w.cooldown, 0);
    assert!(w.trigger(100_000));
    w.enabled = false;
    w.cooldown = 0;
    assert!(!w.trigger(100_000));
    assert_eq!(w.cooldown, 0);
}

#[test]
fn player_burst_spawns_one_shot_per_muzzle() {
    let mut world = World::new();
    spawn_player(&mut world);
    let fire = Input { fire: true, ..no_keys() };
    player_shooting(&mut world, &fire);
    assert!(world.players[0].weapon.enabled);
    weapon_shooting(&mut world, 16_000);
    assert_eq!(world.projectiles.len(), 2);
    assert_eq!(world.projectiles[0].pos, Vec3 { x: 10_000, y: -270_000, z: 0 });
    assert_eq!(world.projectiles[1].pos, Vec3 { x: -10_000, y: -270_000, z: 0 });
    assert_eq!(world.projectiles[0].projectile.direction, Heading::Up);
    assert_eq!(world.projectiles[0].projectile.speed, 500_000);
    assert_eq!(world.players[0].weapon.cooldown, 166_666);
    weapon_shooting(&mut world, 100_000);
    assert_eq!(world.projectiles.len(), 2);
    player_shooting(&mut world, &no_keys());
    assert!(!world.players[0].weapon.enabled);
}

#[test]
fn enemy_takes_two_hits_then_dies_once() {
    let mut world = World::new();
    spawn_enemy(&mut world, 0);
    let mut killed: Channel<EnemyKilledEvent> = Channel::new();
    shot_at(&mut world, 0, 360_000, false, 50);
    projectile_system(&mut world, 0);
    assert_eq!(world.enemies[0].damagable.health, 40);
    assert_eq!(world.projectiles.len(), 0);
    enemy_death(&mut world, &mut killed);
    assert_eq!(world.enemies.len(), 1);
    assert!(killed.events.is_empty());
    shot_at(&mut world, 0, 360_000, false, 50);
    projectile_system(&mut world, 0);
    assert_eq!(world.enemies[0].damagable.health, 0);
    enemy_death(&mut world, &mut killed);
    assert_eq!(world.enemies.len(), 0);
    assert_eq!(killed.events, vec![EnemyKilledEvent(20)]);
    enemy_death(&mut world, &mut killed);
    assert_eq!(killed.events.len(), 1);
}

#[test]
fn last_life_lost_ends_the_game() {
    let mut world = World::new();
    spawn_player(&mut world);
    world.players[0].player.lives = 0;
    world.players[0].player.score = 120;
    world.players[0].damagable.health = 0;
    let mut over: Channel<GameOverEvent> = Channel::new();
    let mut killed: Channel<EnemyKilledEvent> = Channel::new();
    player_damage(&mut world, &mut over, &mut killed, 16_000);
    assert_eq!(over.events, vec![GameOverEvent(120)]);
    assert!(world.players.is_empty());
    player_damage(&mut world, &mut over, &mut killed, 16_000);
    assert_eq!(over.events.len(), 1);
}

#[test]
fn depleted_health_costs_a_life_and_respawns() {
    let mut world = World::new();
    spawn_player(&mut world);
    world.players[0].damagable.health = 0;
    world.players[0].player.remaining_invincibility = 0;
    let mut over: Channel<GameOverEvent> = Channel::new();
    let mut killed: Channel<EnemyKilledEvent> = Channel::new();
    player_damage(&mut world, &mut over, &mut killed, 500_000);
    let p = &world.players[0];
    assert_eq!(p.player.lives, 2);
    assert_eq!(p.damagable.health, 100);
    assert_eq!(p.pos, Vec3 { x: 0, y: -300_000, z: 1_000 });
    assert_eq!(p.player.remaining_invincibility, 2_500_000);
    assert!(!p.damagable.damagable);
    assert!(over.events.is_empty());
}

#[test]
fn contact_kills_enemy_and_costs_a_life_below_zero() {
    let mut world = World::new();
    spawn_player(&mut world);
    spawn_enemy(&mut world, 0);
    spawn_enemy(&mut world, 10_000);
    world.players[0].player.lives = 0;
    world.players[0].player.remaining_invincibility = 0;
    world.players[0].pos = Vec3 { x: 0, y: 350_000, z: 2_000 };
    let mut over: Channel<GameOverEvent> = Channel::new();
    let mut killed: Channel<EnemyKilledEvent> = Channel::new();
    player_damage(&mut world, &mut over, &mut killed, 16_000);
    assert_eq!(world.players[0].player.lives, -1);
    assert_eq!(world.players[0].pos, Vec3 { x: 0, y: -300_000, z: 1_000 });
    assert_eq!(world.enemies.len(), 1);
    assert_eq!(world.enemies[0].pos.x, 10_000);
    assert_eq!(killed.events, vec![EnemyKilledEvent(20)]);
    let mut cursor = EventCursor::new();
    player_score(&mut world, &killed, &mut cursor);
    assert_eq!(world.players[0].player.score, 20);
    player_score(&mut world, &killed, &mut cursor);
    assert_eq!(world.players[0].player.score, 20);
}

#[test]
fn invincible_player_cannot_be_shot() {
    let mut world = World::new();
    spawn_player(&mut world);
    let mut over: Channel<GameOverEvent> = Channel::new();
    let mut killed: Channel<EnemyKilledEvent> = Channel::new();
    player_damage(&mut world, &mut over, &mut killed, 16_000);
    assert!(!world.players[0].damagable.damagable);
    let pos = world.players[0].pos;
    shot_at(&mut world, pos.x, pos.y, true, 10);
    projectile_system(&mut world, 0);
    assert_eq!(world.players[0].damagable.health, 100);
}

#[test]
fn enemies_descend_and_escape_silently() {
    let mut world = World::new();
    spawn_enemy(&mut world, 0);
    enemy_movement(&mut world, 1_000_000);
    assert_eq!(world.enemies[0].pos.y, 310_000);
    world.enemies[0].pos.y = -369_000;
    enemy_movement(&mut world, 100_000);
    assert!(world.enemies.is_empty());
}

#[test]
fn projectile_leaves_the_arena() {
    let mut world = World::new();
    shot_at(&mut world, 0, 365_000, false, 50);
    projectile_system(&mut world, 10_000);
    assert_eq!(world.projectiles[0].pos.y, 370_000);
    projectile_system(&mut world, 10_000);
    assert!(world.projectiles.is_empty());
}

#[test]
fn channel_serves_each_cursor_every_event() {
    let mut ch: Channel<EnemyKilledEvent> = Channel::new();
    let mut a = EventCursor::new();
    let mut b = EventCursor::new();
    ch.send(EnemyKilledEvent(1));
    ch.send(EnemyKilledEvent(2));
    assert_eq!(ch.read(&mut a), vec![EnemyKilledEvent(1), EnemyKilledEvent(2)]);
    assert!(ch.read(&mut a).is_empty());
    ch.update();
    ch.send(EnemyKilledEvent(3));
    assert_eq!(ch.read(&mut b), vec![EnemyKilledEvent(1), EnemyKilledEvent(2), EnemyKilledEvent(3)]);
    assert_eq!(ch.read(&mut a), vec![EnemyKilledEvent(3)]);
    ch.update();
    ch.update();
    let mut late = EventCursor::new();
    assert!(ch.read(&mut late).is_empty());
}

#[test]
fn timers_complete_once_or_repeat() {
    let mut once = Timer::new(2_000_000, false);
    once.tick(1_500_000);
    assert!(!once.finished);
    once.tick(600_000);
    assert!(once.finished && once.just_finished);
    once.tick(100_000);
    assert!(once.finished && !once.just_finished);
    let mut rep = Timer::new(3_000_000, true);
    rep.tick(3_500_000);
    assert!(rep.finished && rep.just_finished);
    assert_eq!(rep.elapsed, 500_000);
    rep.tick(100_000);
    assert!(!rep.finished);
    rep.reset();
    assert_eq!(rep.elapsed, 0);
}

#[test]
fn cleared_level_reports_win_per_player() {
    let mut world = World::new();
    spawn_player(&mut world);
    world.players[0].player.score = 80;
    let id = world.fresh_id().unwrap();
    let mut level = level_with(vec![]);
    level.next_level_fn = Some(LevelRecipe::Second);
    world.levels.push(LevelEntity { id, level });
    let mut won: Channel<LevelWonEvent> = Channel::new();
    level_win(&mut world, &mut won);
    assert!(world.levels.is_empty());
    assert_eq!(won.events, vec![LevelWonEvent(80, Some(LevelRecipe::Second))]);
}

#[test]
fn built_levels_chain_and_play_last_wave_first() {
    let first = build_level(LevelRecipe::First);
    assert_eq!(first.next_level_fn, Some(LevelRecipe::Second));
    assert_eq!(first.waves.len(), 2);
    assert_eq!(first.waves[1].enemy_spawns[0].spawn_position, -200_000);
    assert_eq!(first.waves[0].enemy_spawns[3].spawn_position, 300_000);
    let second = build_level(LevelRecipe::Second);
    assert_eq!(second.next_level_fn, None);
}

#[test]
fn notifications_and_fade_decide_outcome() {
    let mut ui = GameUi::new();
    ui.notify(&vec![NextWaveEvent], &vec![], &vec![]);
    assert_eq!(ui.notice, Some(Notice::NextWave));
    assert_eq!(ui.fade(1_000_000), FadeAction::Nothing);
    ui.notify(&vec![], &vec![], &vec![LevelWonEvent(50, Some(LevelRecipe::Second))]);
    assert_eq!(ui.notice, Some(Notice::LevelWon));
    assert_eq!(ui.fade(2_000_000), FadeAction::Nothing);
    assert_eq!(ui.fade(1_000_000), FadeAction::Continue(LevelRecipe::Second));
    assert_eq!(ui.win_status, WinStatus::Playing);
    assert_eq!(ui.notice, None);
    ui.notify(&vec![], &vec![GameOverEvent(70)], &vec![]);
    assert_eq!(ui.notice, Some(Notice::GameOver(70)));
    ui.notify(&vec![NextWaveEvent], &vec![], &vec![]);
    assert_eq!(ui.notice, Some(Notice::GameOver(70)));
    assert_eq!(ui.fade(3_000_000), FadeAction::ToMenu);
    ui.notify(&vec![], &vec![], &vec![LevelWonEvent(90, None)]);
    assert_eq!(ui.notice, Some(Notice::YouWon(90)));
}

#[test]
fn lifecycle_enters_and_leaves_the_game() {
    let mut game = Game::new();
    assert_eq!(game.state, GameState::MainMenu);
    let play = Input { play: true, ..no_keys() };
    assert_eq!(game.tick(&play, 16_000), Ok(false));
    assert_eq!(game.state, GameState::MainMenu);
    assert_eq!(game.pending, Some(GameState::Game));
    assert_eq!(game.tick(&no_keys(), 16_000), Ok(false));
    assert_eq!(game.state, GameState::Game);
    assert_eq!(game.world.players.len(), 1);
    assert_eq!(game.world.levels.len(), 1);
    assert!(game.ui.is_some());
    let esc = Input { escape: true, ..no_keys() };
    game.tick(&esc, 16_000).unwrap();
    assert_eq!(game.state, GameState::Game);
    game.tick(&no_keys(), 16_000).unwrap();
    assert_eq!(game.state, GameState::MainMenu);
    assert!(game.world.players.is_empty());
    assert!(game.world.levels.is_empty());
    assert!(game.ui.is_none());
    let quit = Input { quit: true, ..no_keys() };
    assert_eq!(game.tick(&quit, 16_000), Ok(true));
}

#[test]
fn second_state_request_is_a_conflict() {
    let mut game = Game::new();
    assert_eq!(game.request_state(GameState::Game), Ok(()));
    assert_eq!(
        game.request_state(GameState::MainMenu),
        Err(StateConflict { pending: GameState::Game, requested: GameState::MainMenu })
    );
    assert_eq!(game.pending, Some(GameState::Game));
}

#[test]
fn game_plays_a_wave_over_time() {
    let mut game = Game::new();
    game.request_state(GameState::Game).unwrap();
    let mut t: u32 = 0;
    while t < 400 {
        game.tick(&no_keys(), 16_000).unwrap();
        t += 1;
    }
    // warm-up (2 s) and one wave interval (3 s) have passed: the first pair is out
    assert!(game.world.levels[0].level.current_wave.is_some());
    assert!(game.world.enemies.len() >= 2);
}

#[test]
fn spawned_projectile_flattens_depth_and_takes_side_speed() {
    let mut world = World::new();
    beyond_the_stars::projectiles::spawn_projectile(&mut world, true, Vec3 { x: 5_000, y: 100_000, z: 7_000 }, 10);
    let p = world.projectiles[0];
    assert_eq!(p.pos, Vec3 { x: 5_000, y: 100_000, z: 0 });
    assert_eq!(p.projectile.direction, Heading::Down);
    assert_eq!(p.projectile.speed, 300_000);
    assert_eq!(p.projectile.hitbox_size, Vec2 { x: 20_000, y: 20_000 });
    assert_eq!(p.projectile.damage, 10);
    projectile_system(&mut world, 100_000);
    assert_eq!(world.projectiles[0].pos.y, 70_000);
}

#[test]
fn negative_damage_does_not_heal() {
    let mut d = target(90, true);
    d.damage(-10);
    assert_eq!(d.health, 90);
}

#[test]
fn burst_stops_when_identifiers_run_out() {
    let mut world = World::new();
    spawn_player(&mut world);
    world.players[0].weapon.enabled = true;
    world.next_id = u64::MAX - 1;
    weapon_shooting(&mut world, 16_000);
    assert_eq!(world.projectiles.len(), 1);
    assert_eq!(world.projectiles[0].pos.x, 10_000);
    assert_eq!(world.next_id, u64::MAX);
}

#[test]
fn continuation_builds_the_second_level() {
    let mut game = Game::new();
    game.request_state(GameState::Game).unwrap();
    game.tick(&no_keys(), 16_000).unwrap();
    let mut ui = game.ui.unwrap();
    ui.win_status = WinStatus::Won(Some(LevelRecipe::Second));
    ui.fade_timer = Timer::new(3_000_000, false);
    ui.fade_timer.tick(2_990_000);
    game.ui = Some(ui);
    let levels_before = game.world.levels.len();
    assert_eq!(game.tick(&no_keys(), 16_000), Ok(false));
    assert_eq!(game.world.levels.len(), levels_before + 1);
    assert_eq!(game.world.levels[levels_before].level.next_level_fn, None);
    assert_eq!(game.ui.unwrap().win_status, WinStatus::Playing);
    let esc = Input { escape: true, ..no_keys() };
    assert_eq!(game.tick(&esc, 16_000), Ok(false));
    assert_eq!(game.pending, Some(GameState::MainMenu));
}

#[test]
fn escape_with_fade_to_menu_is_a_conflict() {
    let mut game = Game::new();
    game.request_state(GameState::Game).unwrap();
    game.tick(&no_keys(), 16_000).unwrap();
    let mut ui = game.ui.unwrap();
    ui.win_status = WinStatus::Lost;
    ui.fade_timer = Timer::new(3_000_000, false);
    ui.fade_timer.tick(2_990_000);
    game.ui = Some(ui);
    let esc = Input { escape: true, ..no_keys() };
    assert_eq!(
        game.tick(&esc, 16_000),
        Err(StateConflict { pending: GameState::MainMenu, requested: GameState::MainMenu })
    );
}
