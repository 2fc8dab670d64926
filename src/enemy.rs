use vstd::prelude::*;

use crate::events::Channel;
use crate::shared::{travel, travel_distance, Damagable, Vec2, Vec3, MAX_TICK_MICROS, THRESHOLD_NY};
use crate::weapon::Weapon;
use crate::world::{
    actor_limit, all_enemies_ok, enemy_ok, lemma_kept_by_filter, retain_marked,
    EnemyEntity, World,
};

verus! {

#[derive(Clone, Copy, Debug, PartialEq, Eq, Structural)]
pub struct Enemy {
    /// Score credited for destroying it.
    pub worth: i32,
}

/// An enemy was destroyed; carries its worth.
#[derive(Clone, Copy, Debug, PartialEq, Eq, Structural)]
pub struct EnemyKilledEvent(pub i32);

/// Height at which enemies appear (milli-units).
pub const ENEMY_SPAWN_Y: i64 = 360_000;

/// Depth at which enemies are drawn (milli-units).
pub const ENEMY_SPAWN_Z: i64 = 1_000;

/// Horizontal offset of an enemy's muzzle (milli-units).
pub const ENEMY_MUZZLE_X: i64 = -3_000;

/// Descent speed of every enemy (milli-units per second).
pub const ENEMY_SPEED: i64 = 50_000;

/// Whether `e` is an enemy as the factory makes it, at `x` with identifier `id`.
pub open spec fn is_new_enemy(e: EnemyEntity, id: u64, x: i64) -> bool {
    &&& e.id == id
    &&& e.pos == Vec3 { x, y: ENEMY_SPAWN_Y, z: ENEMY_SPAWN_Z }
    &&& e.enemy == Enemy { worth: 20 }
    &&& e.damagable == Damagable {
        health: 90,
        is_enemy: true,
        hitbox_size: Vec2 { x: 30_000, y: 30_000 },
        damagable: true,
    }
    &&& e.weapon.fire_rate == 1_000
    &&& e.weapon.enabled
    &&& e.weapon.is_enemy
    &&& e.weapon.cooldown == 0
    &&& e.weapon.damage == 10
    &&& e.weapon.offsets@ == seq![Vec2 { x: ENEMY_MUZZLE_X, y: 0 }]
}

/// Creates an enemy at the top of the arena, at horizontal position `x`;
/// nothing is created once identifiers are used up.
pub fn spawn_enemy(world: &mut World, x_pos: i64)
    requires
        old(world).wf(),
        actor_limit(x_pos as int),
    ensures
        final(world).wf(),
        old(world).next_id < u64::MAX ==> final(world).next_id == old(world).next_id + 1
            && final(world).enemies@.len() == old(world).enemies@.len() + 1
            && final(world).enemies@.drop_last() == old(world).enemies@ && is_new_enemy(
            final(world).enemies@.last(),
            old(world).next_id,
            x_pos,
        ),
        old(world).next_id == u64::MAX ==> final(world).enemies@ == old(world).enemies@
            && final(world).next_id == old(world).next_id,
        final(world).players@ == old(world).players@,
        final(world).projectiles@ == old(world).projectiles@,
        final(world).levels@ == old(world).levels@,
{
    if let Some(id) = world.fresh_id() {
        let e = EnemyEntity {
            id,
            pos: Vec3 { x: x_pos, y: ENEMY_SPAWN_Y, z: ENEMY_SPAWN_Z },
            enemy: Enemy { worth: 20 },
            damagable: Damagable {
                health: 90,
                is_enemy: true,
                hitbox_size: Vec2 { x: 30_000, y: 30_000 },
                damagable: true,
            },
            weapon: Weapon {
                cooldown: 0,
                enabled: true,
                fire_rate: 1_000,
                is_enemy: true,
                damage: 10,
                offsets: vec![Vec2 { x: ENEMY_MUZZLE_X, y: 0 }],
            },
        };
        let ghost prev = world.enemies@;
        world.enemies.push(e);
        assert(world.enemies@.drop_last() =~= prev);
        assert(e.weapon.offsets@ =~= seq![Vec2 { x: ENEMY_MUZZLE_X, y: 0 }]);
        assert(all_enemies_ok(world.enemies@)) by {
            assert forall|j: int| 0 <= j < world.enemies@.len() implies enemy_ok(
                #[trigger] world.enemies@[j],
            ) by {
                if j < prev.len() {
                    assert(world.enemies@[j] == prev[j]);
                }
            }
        }
    }
}

/// The enemy after descending for `dt` microseconds.
pub open spec fn descended(e: EnemyEntity, dt: int) -> EnemyEntity {
    EnemyEntity {
        pos: Vec3 { y: (e.pos.y - travel(ENEMY_SPEED as int, dt)) as i64, ..e.pos },
        ..e
    }
}

/// An enemy stays until it has left through the bottom of the arena.
pub open spec fn not_escaped() -> spec_fn(EnemyEntity) -> bool {
    |e: EnemyEntity| e.pos.y >= THRESHOLD_NY
}

pub open spec fn all_descended(s: Seq<EnemyEntity>, dt: int) -> Seq<EnemyEntity> {
    s.map_values(|e: EnemyEntity| descended(e, dt))
}

/// What one run of `enemy_movement` does.
pub open spec fn enemy_movement_effect(w0: World, w1: World, dt: u64) -> bool {
    &&& w1.wf()
    &&& w1.enemies@ == all_descended(w0.enemies@, dt as int).filter(not_escaped())
    &&& w1.players@ == w0.players@
    &&& w1.projectiles@ == w0.projectiles@
    &&& w1.levels@ == w0.levels@
    &&& w1.next_id == w0.next_id
}

/// Every enemy descends; those below the arena are removed silently.
pub fn enemy_movement(world: &mut World, dt: u64)
    requires
        old(world).wf(),
        dt <= MAX_TICK_MICROS,
    ensures
        enemy_movement_effect(*old(world), *final(world), dt),
{
    let ghost e0 = world.enemies@;
    let step = travel_distance(ENEMY_SPEED, dt);
    let mut keep: Vec<bool> = Vec::new();
    let mut i: usize = 0;
    while i < world.enemies.len()
        invariant
            0 <= i <= e0.len(),
            world.enemies@.len() == e0.len(),
            e0 == old(world).enemies@,
            all_enemies_ok(e0),
            step == travel(ENEMY_SPEED as int, dt as int),
            0 <= step <= crate::shared::MAX_TRAVEL,
            keep@.len() == i,
            forall|j: int| 0 <= j < i ==> #[trigger] world.enemies@[j] == descended(e0[j], dt as int),
            forall|j: int| i <= j < e0.len() ==> #[trigger] world.enemies@[j] == e0[j],
            forall|j: int| 0 <= j < i ==> #[trigger] keep@[j] == (world.enemies@[j].pos.y >= THRESHOLD_NY),
            world.players@ == old(world).players@,
            world.projectiles@ == old(world).projectiles@,
            world.levels@ == old(world).levels@,
            world.next_id == old(world).next_id,
        decreases e0.len() - i,
    {
        assert(enemy_ok(e0[i as int]));
        let y = world.enemies[i].pos.y - step;
        world.enemies[i].pos.y = y;
        keep.push(y >= THRESHOLD_NY);
        i = i + 1;
    }
    let ghost moved = world.enemies@;
    assert(moved =~= all_descended(e0, dt as int));
    proof {
        lemma_kept_by_filter(moved, keep@, not_escaped());
    }
    retain_marked(&mut world.enemies, &keep);
    assert(all_enemies_ok(world.enemies@)) by {
        assert forall|j: int| 0 <= j < world.enemies@.len() implies enemy_ok(
            #[trigger] world.enemies@[j],
        ) by {
            moved.lemma_filter_contains_rev(not_escaped(), world.enemies@[j]);
            let k = choose|k: int| 0 <= k < moved.len() && moved[k] == world.enemies@[j];
            assert(enemy_ok(e0[k]));
        }
    }
}

/// Health exactly zero marks an enemy as dead.
pub open spec fn is_dead() -> spec_fn(EnemyEntity) -> bool {
    |e: EnemyEntity| e.damagable.health == 0
}

pub open spec fn is_alive() -> spec_fn(EnemyEntity) -> bool {
    |e: EnemyEntity| e.damagable.health != 0
}

/// The kill events for the dead enemies of `s`, in order.
pub open spec fn kill_events(s: Seq<EnemyEntity>) -> Seq<EnemyKilledEvent> {
    s.filter(is_dead()).map_values(|e: EnemyEntity| EnemyKilledEvent(e.enemy.worth))
}

/// What one run of `enemy_death` does.
pub open spec fn enemy_death_effect(
    w0: World,
    w1: World,
    k0: Channel<EnemyKilledEvent>,
    k1: Channel<EnemyKilledEvent>,
) -> bool {
    &&& w1.wf()
    &&& k1.wf()
    &&& w1.enemies@ == w0.enemies@.filter(is_alive())
    &&& k0.end() + kill_events(w0.enemies@).len() <= u64::MAX ==> k1.events@ == k0.events@ +
        kill_events(w0.enemies@)
    &&& k1.end() >= k0.end()
    &&& k1.first == k0.first
    &&& k1.previous == k0.previous
    &&& w1.players@ == w0.players@
    &&& w1.projectiles@ == w0.projectiles@
    &&& w1.levels@ == w0.levels@
    &&& w1.next_id == w0.next_id
}

/// Removes every enemy whose health is zero and reports each with its worth.
/// (All the reports are made unless the channel's numbering runs out.)
pub fn enemy_death(world: &mut World, killed: &mut Channel<EnemyKilledEvent>)
    requires
        old(world).wf(),
        old(killed).wf(),
    ensures
        enemy_death_effect(*old(world), *final(world), *old(killed), *final(killed)),
{
    let ghost e0 = world.enemies@;
    let ghost base = killed.events@;
    let mut keep: Vec<bool> = Vec::new();
    let mut i: usize = 0;
    while i < world.enemies.len()
        invariant
            0 <= i <= e0.len(),
            world.enemies@ == e0,
            e0 == old(world).enemies@,
            base == old(killed).events@,
            killed.wf(),
            killed.first == old(killed).first,
            killed.previous == old(killed).previous,
            killed.end() >= old(killed).end(),
            keep@.len() == i,
            forall|j: int| 0 <= j < i ==> #[trigger] keep@[j] == (is_alive())(e0[j]),
            old(killed).end() + kill_events(e0).len() <= u64::MAX ==> killed.events@ == base
                + kill_events(e0.subrange(0, i as int)),
        decreases e0.len() - i,
    {
        let dead = world.enemies[i].damagable.health == 0;
        let ghost prev = killed.events@;
        assert(e0.subrange(0, i + 1) =~= e0.subrange(0, i as int).push(e0[i as int]));
        proof {
            e0.subrange(0, i as int).lemma_filter_push(e0[i as int], is_dead());
        }
        if dead {
            proof {
                if old(killed).end() + kill_events(e0).len() <= u64::MAX {
                    crate::world::lemma_filter_prefix_len(e0, is_dead(), i + 1);
                    assert(killed.end() < u64::MAX);
                }
            }
            let sent = killed.send(EnemyKilledEvent(world.enemies[i].enemy.worth));
            proof {
                if old(killed).end() + kill_events(e0).len() <= u64::MAX {
                    assert(sent);
                    assert(kill_events(e0.subrange(0, i + 1)) =~= kill_events(
                        e0.subrange(0, i as int),
                    ).push(EnemyKilledEvent(e0[i as int].enemy.worth)));
                    assert(killed.events@ =~= base + kill_events(e0.subrange(0, i + 1)));
                }
            }
        }
        keep.push(!dead);
        i = i + 1;
    }
    assert(e0.subrange(0, e0.len() as int) =~= e0);
    proof {
        lemma_kept_by_filter(e0, keep@, is_alive());
    }
    retain_marked(&mut world.enemies, &keep);
    assert(all_enemies_ok(world.enemies@)) by {
        assert forall|j: int| 0 <= j < world.enemies@.len() implies enemy_ok(
            #[trigger] world.enemies@[j],
        ) by {
            e0.lemma_filter_contains_rev(is_alive(), world.enemies@[j]);
        }
    }
}

} // verus!
