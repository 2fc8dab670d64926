use vstd::prelude::*;

use crate::enemy::EnemyKilledEvent;
use crate::events::{Channel, EventCursor};
use crate::shared::{
    aabb_overlap, clamp, overlaps, travel, travel_distance, Damagable, GameOverEvent, Input, Vec2,
    Vec3, MAX_TICK_MICROS,
};
use crate::weapon::Weapon;
use crate::world::{
    all_enemies_ok, all_players_ok, enemy_ok, kept_by, player_ok, retain_marked, EnemyEntity,
    PlayerEntity, World,
};

verus! {

/// The player's centre stays within this distance of the middle (milli-units).
pub const PLAYER_X_BOUND: i64 = 335_000;

#[derive(Clone, Copy, Debug, PartialEq, Eq, Structural)]
pub struct Player {
    /// Milli-units per second.
    pub move_speed: i64,
    pub lives: i32,
    /// Microseconds of invincibility left.
    pub remaining_invincibility: u64,
    pub score: i32,
}

/// Horizontal position after one tick of movement: left wins over right,
/// and the result is kept within the player's lane.
pub open spec fn moved_x(x: int, speed: int, input: Input, dt: int) -> int {
    let moved = if input.left {
        x - travel(speed, dt)
    } else if input.right {
        x + travel(speed, dt)
    } else {
        x
    };
    clamp(moved, -PLAYER_X_BOUND, PLAYER_X_BOUND as int)
}

pub open spec fn after_movement(e: PlayerEntity, input: Input, dt: int) -> PlayerEntity {
    PlayerEntity {
        pos: crate::shared::Vec3 {
            x: moved_x(e.pos.x as int, e.player.move_speed as int, input, dt) as i64,
            ..e.pos
        },
        ..e
    }
}

/// What one run of `player_movement` does.
pub open spec fn player_movement_effect(w0: World, w1: World, input: Input, dt: u64) -> bool {
    &&& w1.wf()
    &&& w1.players@.len() == w0.players@.len()
    &&& forall|i: int| 0 <= i < w0.players@.len() ==> #[trigger] w1.players@[i] ==
        after_movement(w0.players@[i], input, dt as int)
    &&& w1.enemies@ == w0.enemies@
    &&& w1.projectiles@ == w0.projectiles@
    &&& w1.levels@ == w0.levels@
    &&& w1.next_id == w0.next_id
}

/// Moves every player by the held direction keys.
pub fn player_movement(world: &mut World, input: &Input, dt: u64)
    requires
        old(world).wf(),
        dt <= MAX_TICK_MICROS,
    ensures
        player_movement_effect(*old(world), *final(world), *input, dt),
{
    let ghost before = world.players@;
    let mut i: usize = 0;
    while i < world.players.len()
        invariant
            0 <= i <= world.players@.len(),
            world.players@.len() == before.len(),
            all_players_ok(before),
            all_players_ok(world.players@),
            dt <= MAX_TICK_MICROS,
            forall|j: int| 0 <= j < i ==> #[trigger] world.players@[j] == after_movement(before[j], *input, dt as int),
            forall|j: int| i <= j < before.len() ==> #[trigger] world.players@[j] == before[j],
            world.enemies@ == old(world).enemies@,
            world.projectiles@ == old(world).projectiles@,
            world.levels@ == old(world).levels@,
            world.next_id == old(world).next_id,
            world.wf() == all_players_ok(world.players@),
            before == old(world).players@,
            old(world).wf(),
        decreases before.len() - i,
    {
        assert(player_ok(world.players@[i as int]));
        let x = world.players[i].pos.x;
        let step = travel_distance(world.players[i].player.move_speed, dt);
        let moved: i64 = if input.left {
            x - step
        } else if input.right {
            x + step
        } else {
            x
        };
        let nx: i64 = if moved < -PLAYER_X_BOUND {
            -PLAYER_X_BOUND
        } else if moved > PLAYER_X_BOUND {
            PLAYER_X_BOUND
        } else {
            moved
        };
        world.players[i].pos.x = nx;
        assert(world.players@[i as int] == after_movement(before[i as int], *input, dt as int));
        i = i + 1;
    }
}

/// What one run of `player_shooting` does.
pub open spec fn player_shooting_effect(w0: World, w1: World, input: Input) -> bool {
    &&& w1.wf()
    &&& w1.players@.len() == w0.players@.len()
    &&& forall|i: int| 0 <= i < w0.players@.len() ==> #[trigger] w1.players@[i] == (PlayerEntity {
        weapon: crate::weapon::Weapon { enabled: input.fire, ..w0.players@[i].weapon },
        ..w0.players@[i] })
    &&& w1.enemies@ == w0.enemies@
    &&& w1.projectiles@ == w0.projectiles@
    &&& w1.levels@ == w0.levels@
    &&& w1.next_id == w0.next_id
}

/// Every player's weapon fires exactly while the fire key is held.
pub fn player_shooting(world: &mut World, input: &Input)
    requires
        old(world).wf(),
    ensures
        player_shooting_effect(*old(world), *final(world), *input),
{
    let ghost before = world.players@;
    let mut i: usize = 0;
    while i < world.players.len()
        invariant
            0 <= i <= world.players@.len(),
            world.players@.len() == before.len(),
            all_players_ok(before),
            all_players_ok(world.players@),
            forall|j: int|
                0 <= j < i ==> #[trigger] world.players@[j] == (PlayerEntity {
                    weapon: crate::weapon::Weapon { enabled: input.fire, ..before[j].weapon },
                    ..before[j]
                }),
            forall|j: int| i <= j < before.len() ==> #[trigger] world.players@[j] == before[j],
            world.enemies@ == old(world).enemies@,
            world.projectiles@ == old(world).projectiles@,
            world.levels@ == old(world).levels@,
            world.next_id == old(world).next_id,
            world.wf() == all_players_ok(world.players@),
            before == old(world).players@,
            old(world).wf(),
        decreases before.len() - i,
    {
        world.players[i].weapon.enabled = input.fire;
        i = i + 1;
    }
}

/// Where a player comes back after losing a life (milli-units).
pub const RESPAWN_X: i64 = 0;
pub const RESPAWN_Y: i64 = -300_000;
pub const RESPAWN_Z: i64 = 1_000;

/// Health after a respawn.
pub const FULL_HEALTH: i32 = 100;

/// Invincibility after a spawn or respawn (microseconds).
pub const INVINCIBILITY: u64 = 3_000_000;

pub open spec fn dec_lives(lives: i32) -> i32 {
    if lives > i32::MIN {
        (lives - 1) as i32
    } else {
        lives
    }
}

/// The player put back at the respawn point with full health, a fresh
/// invincibility window and `lives` lives.
pub open spec fn respawned(e: PlayerEntity, lives: i32) -> PlayerEntity {
    PlayerEntity {
        pos: Vec3 { x: RESPAWN_X, y: RESPAWN_Y, z: RESPAWN_Z },
        player: Player { lives, remaining_invincibility: INVINCIBILITY, ..e.player },
        damagable: Damagable { health: FULL_HEALTH, ..e.damagable },
        ..e
    }
}

/// Whether the player's box touches the enemy's.
pub open spec fn touches(p: PlayerEntity, e: EnemyEntity) -> bool {
    overlaps(e.pos, e.damagable.hitbox_size, p.pos, p.damagable.hitbox_size)
}

/// Index of the first enemy from `from` on that the player touches, or the
/// length of `s` when there is none.
pub open spec fn first_contact(s: Seq<EnemyEntity>, p: PlayerEntity, from: int) -> int
    decreases s.len() - from,
{
    if from < 0 || from >= s.len() {
        s.len() as int
    } else if touches(p, s[from]) {
        from
    } else {
        first_contact(s, p, from + 1)
    }
}

/// What one player's damage turn leaves: the player, whether it is still
/// there, the enemies, and the game-over and kill reports it made.
pub type DamageTurn = (
    PlayerEntity,
    bool,
    Seq<EnemyEntity>,
    Seq<GameOverEvent>,
    Seq<EnemyKilledEvent>,
);

/// One player's damage turn. Depleted health costs a life and respawns the
/// player, or ends the game when no life is left. Then, outside the
/// invincibility window, touching an enemy costs a life (with no floor at
/// zero), respawns the player and destroys that enemy, which is reported as
/// killed; inside it, the window runs down and the player cannot be hit.
pub open spec fn damage_turn(p: PlayerEntity, enemies: Seq<EnemyEntity>, dt: int) -> DamageTurn {
    let depleted = p.damagable.health <= 0;
    if depleted && p.player.lives <= 0 {
        (p, false, enemies, seq![GameOverEvent(p.player.score)], Seq::empty())
    } else {
        let p1 = if depleted {
            respawned(p, (p.player.lives - 1) as i32)
        } else {
            p
        };
        if p1.player.remaining_invincibility == 0 {
            let p2 = PlayerEntity { damagable: Damagable { damagable: true, ..p1.damagable }, ..p1 };
            let j = first_contact(enemies, p2, 0);
            if j < enemies.len() {
                (
                    respawned(p2, dec_lives(p2.player.lives)),
                    true,
                    enemies.remove(j),
                    Seq::empty(),
                    seq![EnemyKilledEvent(enemies[j].enemy.worth)],
                )
            } else {
                (p2, true, enemies, Seq::empty(), Seq::empty())
            }
        } else {
            let left = if p1.player.remaining_invincibility > dt {
                (p1.player.remaining_invincibility - dt) as u64
            } else {
                0
            };
            (
                PlayerEntity {
                    player: Player { remaining_invincibility: left, ..p1.player },
                    damagable: Damagable { damagable: false, ..p1.damagable },
                    ..p1
                },
                true,
                enemies,
                Seq::empty(),
                Seq::empty(),
            )
        }
    }
}

/// Players after their damage turns (with a keep mark each), the enemies
/// left, and the reports made, for the players of `ps` in order.
pub type DamagePass = (Seq<PlayerEntity>, Seq<bool>, Seq<EnemyEntity>, Seq<GameOverEvent>, Seq<EnemyKilledEvent>);

pub open spec fn damage_pass(ps: Seq<PlayerEntity>, enemies: Seq<EnemyEntity>, dt: int) -> DamagePass
    decreases ps.len(),
{
    if ps.len() == 0 {
        (Seq::empty(), Seq::empty(), enemies, Seq::empty(), Seq::empty())
    } else {
        let r = damage_pass(ps.drop_last(), enemies, dt);
        let t = damage_turn(ps.last(), r.2, dt);
        (r.0.push(t.0), r.1.push(t.1), t.2, r.3 + t.3, r.4 + t.4)
    }
}

/// The reports of a prefix of the players are no more than those of all.
proof fn lemma_damage_pass_prefix(ps: Seq<PlayerEntity>, enemies: Seq<EnemyEntity>, dt: int, j: int)
    requires
        0 <= j <= ps.len(),
    ensures
        damage_pass(ps.subrange(0, j), enemies, dt).3.len() <= damage_pass(ps, enemies, dt).3.len(),
        damage_pass(ps.subrange(0, j), enemies, dt).4.len() <= damage_pass(ps, enemies, dt).4.len(),
    decreases ps.len(),
{
    if j < ps.len() {
        let d = ps.drop_last();
        assert(d.subrange(0, j) =~= ps.subrange(0, j));
        lemma_damage_pass_prefix(d, enemies, dt, j);
    } else {
        assert(ps.subrange(0, j) =~= ps);
    }
}

proof fn lemma_first_contact(s: Seq<EnemyEntity>, p: PlayerEntity, from: int)
    requires
        0 <= from <= s.len(),
    ensures
        from <= first_contact(s, p, from) <= s.len(),
    decreases s.len() - from,
{
    if from < s.len() && !touches(p, s[from]) {
        lemma_first_contact(s, p, from + 1);
    }
}

fn find_contact(s: &Vec<EnemyEntity>, p: &PlayerEntity) -> (r: usize)
    ensures
        r == first_contact(s@, *p, 0),
{
    let mut j: usize = 0;
    while j < s.len()
        invariant
            0 <= j <= s@.len(),
            first_contact(s@, *p, 0) == first_contact(s@, *p, j as int),
        decreases s.len() - j,
    {
        if aabb_overlap(s[j].pos, s[j].damagable.hitbox_size, p.pos, p.damagable.hitbox_size) {
            return j;
        }
        j = j + 1;
    }
    j
}

fn respawn(e: &mut PlayerEntity, lives: i32)
    ensures
        *final(e) == respawned(*old(e), lives),
{
    e.pos = Vec3 { x: RESPAWN_X, y: RESPAWN_Y, z: RESPAWN_Z };
    e.player.lives = lives;
    e.player.remaining_invincibility = INVINCIBILITY;
    e.damagable.health = FULL_HEALTH;
}

/// What one run of `player_damage` does.
pub open spec fn player_damage_effect(
    w0: World,
    w1: World,
    go0: Channel<GameOverEvent>,
    go1: Channel<GameOverEvent>,
    k0: Channel<EnemyKilledEvent>,
    k1: Channel<EnemyKilledEvent>,
    dt: u64,
) -> bool {
    &&& w1.wf()
    &&& go1.wf()
    &&& k1.wf()
    &&& ({
        let r = damage_pass(w0.players@, w0.enemies@, dt as int);
        &&& w1.players@ == kept_by(r.0, r.1)
        &&& w1.enemies@ == r.2
        &&& go0.end() + r.3.len() <= u64::MAX ==> go1.events@ == go0.events@ + r.3
        &&& k0.end() + r.4.len() <= u64::MAX ==> k1.events@ == k0.events@ + r.4
    })
    &&& go1.first == go0.first
    &&& go1.previous == go0.previous
    &&& k1.first == k0.first
    &&& k1.previous == k0.previous
    &&& w1.projectiles@ == w0.projectiles@
    &&& w1.levels@ == w0.levels@
    &&& w1.next_id == w0.next_id
}

/// Resolves the two hazards for every player, in order (see `damage_turn`).
/// A player with no life left is removed. Reports are all made unless a
/// channel's numbering runs out.
pub fn player_damage(
    world: &mut World,
    game_over: &mut Channel<GameOverEvent>,
    killed: &mut Channel<EnemyKilledEvent>,
    dt: u64,
)
    requires
        old(world).wf(),
        old(game_over).wf(),
        old(killed).wf(),
        dt <= MAX_TICK_MICROS,
    ensures
        player_damage_effect(*old(world), *final(world), *old(game_over), *final(game_over), *old(killed), *final(killed), dt),
{
    let ghost p0 = world.players@;
    let ghost go0 = game_over.events@;
    let ghost k0 = killed.events@;
    let mut keep: Vec<bool> = Vec::new();
    let mut i: usize = 0;
    while i < world.players.len()
        invariant
            0 <= i <= p0.len(),
            world.players@.len() == p0.len(),
            p0 == old(world).players@,
            go0 == old(game_over).events@,
            k0 == old(killed).events@,
            all_players_ok(p0),
            all_players_ok(world.players@),
            all_enemies_ok(world.enemies@),
            game_over.wf(),
            killed.wf(),
            dt <= MAX_TICK_MICROS,
            game_over.first == old(game_over).first,
            game_over.previous == old(game_over).previous,
            killed.first == old(killed).first,
            killed.previous == old(killed).previous,
            game_over.end() >= old(game_over).end(),
            killed.end() >= old(killed).end(),
            keep@.len() == i,
            forall|j: int| i <= j < p0.len() ==> #[trigger] world.players@[j] == p0[j],
            ({
                let r = damage_pass(p0.subrange(0, i as int), old(world).enemies@, dt as int);
                &&& world.players@.subrange(0, i as int) == r.0
                &&& keep@ == r.1
                &&& world.enemies@ == r.2
                &&& old(game_over).end() + damage_pass(p0, old(world).enemies@, dt as int).3.len()
                    <= u64::MAX ==> game_over.events@ == go0 + r.3
                &&& old(killed).end() + damage_pass(p0, old(world).enemies@, dt as int).4.len()
                    <= u64::MAX ==> killed.events@ == k0 + r.4
            }),
            world.projectiles@ == old(world).projectiles@,
            world.levels@ == old(world).levels@,
            world.next_id == old(world).next_id,
            crate::world::all_projectiles_ok(world.projectiles@),
            crate::world::all_levels_ok(world.levels@),
        decreases p0.len() - i,
    {
        let ghost pre = world.players@;
        let ghost en = world.enemies@;
        let ghost go_pre = game_over.events@;
        let ghost k_pre = killed.events@;
        let ghost r = damage_pass(p0.subrange(0, i as int), old(world).enemies@, dt as int);
        let ghost t = damage_turn(p0[i as int], en, dt as int);
        assert(p0.subrange(0, i + 1).drop_last() =~= p0.subrange(0, i as int));
        assert(p0.subrange(0, i + 1).last() == p0[i as int]);
        assert(player_ok(p0[i as int]));
        let ghost total = damage_pass(p0, old(world).enemies@, dt as int);
        proof {
            lemma_damage_pass_prefix(p0, old(world).enemies@, dt as int, i + 1);
        }
        let ghost go_room = old(game_over).end() + total.3.len() <= u64::MAX;
        let ghost k_room = old(killed).end() + total.4.len() <= u64::MAX;
        let depleted = world.players[i].damagable.health <= 0;
        if depleted && world.players[i].player.lives <= 0 {
            assert(go_room ==> game_over.end() < u64::MAX);
            let sent = game_over.send(GameOverEvent(world.players[i].player.score));
            keep.push(false);
            proof {
                if go_room {
                    assert(game_over.events@ =~= go0 + (r.3 + t.3));
                }
                assert(k0 + (r.4 + t.4) =~= k0 + r.4);
            }
        } else {
            if depleted {
                let lives = world.players[i].player.lives - 1;
                respawn(&mut world.players[i], lives);
            }
            if world.players[i].player.remaining_invincibility == 0 {
                world.players[i].damagable.damagable = true;
                proof {
                    lemma_first_contact(world.enemies@, world.players@[i as int], 0);
                }
                let j = find_contact(&world.enemies, &world.players[i]);
                if j < world.enemies.len() {
                    let lives = world.players[i].player.lives;
                    let lives = if lives > i32::MIN {
                        lives - 1
                    } else {
                        lives
                    };
                    respawn(&mut world.players[i], lives);
                    let gone = world.enemies.remove(j);
                    assert(k_room ==> killed.end() < u64::MAX);
                    let sent = killed.send(EnemyKilledEvent(gone.enemy.worth));
                    proof {
                        if k_room {
                            assert(killed.events@ =~= k0 + (r.4 + t.4));
                        }
                        assert(go0 + (r.3 + t.3) =~= go0 + r.3);
                    }
                    assert(all_enemies_ok(world.enemies@)) by {
                        assert forall|q: int| 0 <= q < world.enemies@.len() implies enemy_ok(
                            #[trigger] world.enemies@[q],
                        ) by {
                            if q < j {
                                assert(world.enemies@[q] == en[q]);
                            } else {
                                assert(world.enemies@[q] == en[q + 1]);
                            }
                        }
                    }
                } else {
                    proof {
                        assert(go0 + (r.3 + t.3) =~= go0 + r.3);
                        assert(k0 + (r.4 + t.4) =~= k0 + r.4);
                    }
                }
            } else {
                let inv = world.players[i].player.remaining_invincibility;
                world.players[i].player.remaining_invincibility = if inv > dt {
                    inv - dt
                } else {
                    0
                };
                world.players[i].damagable.damagable = false;
                proof {
                    assert(go0 + (r.3 + t.3) =~= go0 + r.3);
                    assert(k0 + (r.4 + t.4) =~= k0 + r.4);
                }
            }
            keep.push(true);
        }
        assert(world.players@[i as int] == t.0);
        assert(world.players@.subrange(0, i + 1) =~= pre.subrange(0, i as int).push(t.0));
        assert(all_players_ok(world.players@)) by {
            assert forall|q: int| 0 <= q < world.players@.len() implies player_ok(
                #[trigger] world.players@[q],
            ) by {
                if q != i {
                    assert(world.players@[q] == pre[q]);
                }
            }
        }
        i = i + 1;
    }
    assert(world.players@.subrange(0, i as int) =~= world.players@);
    assert(p0.subrange(0, i as int) =~= p0);
    let ghost done = world.players@;
    retain_marked(&mut world.players, &keep);
    proof {
        crate::world::lemma_kept_by_from(done, keep@);
        assert forall|q: int| 0 <= q < world.players@.len() implies player_ok(
            #[trigger] world.players@[q],
        ) by {
            assert(done.contains(world.players@[q]));
        }
    }
}

/// Credits `worth` to a score, saturating at the bounds of `i32`.
pub open spec fn credited(score: i32, worth: i32) -> i32 {
    clamp(score + worth, i32::MIN as int, i32::MAX as int) as i32
}

/// A score after crediting every kill of `evs` in order.
pub open spec fn credited_all(score: i32, evs: Seq<EnemyKilledEvent>) -> i32
    decreases evs.len(),
{
    if evs.len() == 0 {
        score
    } else {
        credited(credited_all(score, evs.drop_last()), evs.last().0)
    }
}

fn credit(score: i32, worth: i32) -> (r: i32)
    ensures
        r == credited(score, worth),
{
    let v: i64 = score as i64 + worth as i64;
    if v > i32::MAX as i64 {
        i32::MAX
    } else if v < i32::MIN as i64 {
        i32::MIN
    } else {
        v as i32
    }
}

/// What one run of `player_score` does.
pub open spec fn player_score_effect(
    w0: World,
    w1: World,
    killed: Channel<EnemyKilledEvent>,
    c0: EventCursor,
    c1: EventCursor,
) -> bool {
    &&& w1.wf()
    &&& c1.next == killed.end()
    &&& w1.players@.len() == w0.players@.len()
    &&& forall|i: int| 0 <= i < w0.players@.len() ==> #[trigger] w1.players@[i] == (PlayerEntity {
        player: Player { score: credited_all(w0.players@[i].player.score,
        killed.events@.subrange(killed.start_of(c0.next), killed.events@.len() as int)),
        ..w0.players@[i].player }, ..w0.players@[i] })
    &&& w1.enemies@ == w0.enemies@
    &&& w1.projectiles@ == w0.projectiles@
    &&& w1.levels@ == w0.levels@
    &&& w1.next_id == w0.next_id
}

/// Credits every kill the cursor has not seen to every player's score.
pub fn player_score(world: &mut World, killed: &Channel<EnemyKilledEvent>, cursor: &mut EventCursor)
    requires
        old(world).wf(),
        killed.wf(),
    ensures
        player_score_effect(*old(world), *final(world), *killed, *old(cursor), *final(cursor)),
{
    let evs = killed.read(cursor);
    let ghost p0 = world.players@;
    let mut i: usize = 0;
    while i < world.players.len()
        invariant
            0 <= i <= p0.len(),
            world.players@.len() == p0.len(),
            p0 == old(world).players@,
            all_players_ok(p0),
            all_players_ok(world.players@),
            forall|j: int|
                0 <= j < i ==> #[trigger] world.players@[j] == (PlayerEntity {
                    player: Player { score: credited_all(p0[j].player.score, evs@), ..p0[j].player },
                    ..p0[j]
                }),
            forall|j: int| i <= j < p0.len() ==> #[trigger] world.players@[j] == p0[j],
            world.enemies@ == old(world).enemies@,
            world.projectiles@ == old(world).projectiles@,
            world.levels@ == old(world).levels@,
            world.next_id == old(world).next_id,
            crate::world::all_enemies_ok(world.enemies@),
            crate::world::all_projectiles_ok(world.projectiles@),
            crate::world::all_levels_ok(world.levels@),
        decreases p0.len() - i,
    {
        let mut score = world.players[i].player.score;
        let mut k: usize = 0;
        while k < evs.len()
            invariant
                0 <= k <= evs@.len(),
                score == credited_all(p0[i as int].player.score, evs@.subrange(0, k as int)),
            decreases evs.len() - k,
        {
            assert(evs@.subrange(0, k + 1).drop_last() =~= evs@.subrange(0, k as int));
            score = credit(score, evs[k].0);
            k = k + 1;
        }
        assert(evs@.subrange(0, evs@.len() as int) =~= evs@);
        world.players[i].player.score = score;
        i = i + 1;
    }
}

/// Whether `e` is a player as the game makes it, with identifier `id`.
pub open spec fn is_new_player(e: PlayerEntity, id: u64) -> bool {
    &&& e.id == id
    &&& e.pos == Vec3 { x: 0, y: PLAYER_SPAWN_Y, z: PLAYER_SPAWN_Z }
    &&& e.player == Player {
        move_speed: 400_000,
        lives: 3,
        remaining_invincibility: INVINCIBILITY,
        score: 0,
    }
    &&& e.damagable == Damagable {
        health: FULL_HEALTH,
        is_enemy: false,
        hitbox_size: Vec2 { x: 30_000, y: 30_000 },
        damagable: true,
    }
    &&& e.weapon.fire_rate == 6_000
    &&& !e.weapon.enabled
    &&& !e.weapon.is_enemy
    &&& e.weapon.cooldown == 0
    &&& e.weapon.damage == 50
    &&& e.weapon.offsets@ == seq![Vec2 { x: 10_000, y: 20_000 }, Vec2 { x: MUZZLE_LEFT_X, y: 20_000
        }]
}

/// Height and depth at which the player appears (milli-units).
pub const PLAYER_SPAWN_Y: i64 = -290_000;
pub const PLAYER_SPAWN_Z: i64 = 2_000;

/// Horizontal offset of the player's left muzzle (milli-units).
pub const MUZZLE_LEFT_X: i64 = -10_000;

/// Creates the player; nothing is created once identifiers are used up.
pub fn spawn_player(world: &mut World)
    requires
        old(world).wf(),
    ensures
        final(world).wf(),
        old(world).next_id < u64::MAX ==> final(world).next_id == old(world).next_id + 1
            && final(world).players@.len() == old(world).players@.len() + 1
            && final(world).players@.drop_last() == old(world).players@ && is_new_player(
            final(world).players@.last(),
            old(world).next_id,
        ),
        old(world).next_id == u64::MAX ==> final(world).players@ == old(world).players@
            && final(world).next_id == old(world).next_id,
        final(world).enemies@ == old(world).enemies@,
        final(world).projectiles@ == old(world).projectiles@,
        final(world).levels@ == old(world).levels@,
{
    if let Some(id) = world.fresh_id() {
        let e = PlayerEntity {
            id,
            pos: Vec3 { x: 0, y: PLAYER_SPAWN_Y, z: PLAYER_SPAWN_Z },
            player: Player {
                move_speed: 400_000,
                lives: 3,
                remaining_invincibility: INVINCIBILITY,
                score: 0,
            },
            damagable: Damagable {
                health: FULL_HEALTH,
                is_enemy: false,
                hitbox_size: Vec2 { x: 30_000, y: 30_000 },
                damagable: true,
            },
            weapon: Weapon {
                enabled: false,
                cooldown: 0,
                fire_rate: 6_000,
                is_enemy: false,
                damage: 50,
                offsets: vec![Vec2 { x: 10_000, y: 20_000 }, Vec2 { x: MUZZLE_LEFT_X, y: 20_000 }],
            },
        };
        let ghost prev = world.players@;
        world.players.push(e);
        assert(world.players@.drop_last() =~= prev);
        assert(e.weapon.offsets@ =~= seq![Vec2 { x: 10_000, y: 20_000 }, Vec2 { x: MUZZLE_LEFT_X, y: 20_000 }]);
        assert(all_players_ok(world.players@)) by {
            assert forall|j: int| 0 <= j < world.players@.len() implies player_ok(
                #[trigger] world.players@[j],
            ) by {
                if j < prev.len() {
                    assert(world.players@[j] == prev[j]);
                }
            }
        }
    }
}

} // verus!
