use vstd::prelude::*;

use crate::projectiles::{launch_position, projectile_of, spawn_projectile, Projectile};
use crate::shared::{Vec2, Vec3, MAX_TICK_MICROS};
use crate::world::{
    actor_pos_ok, all_enemies_ok, all_players_ok, enemy_ok, offset_ok,
    ids_taken, lemma_ids_taken_concat, player_ok, weapon_ok, EnemyEntity, PlayerEntity,
    ProjectileEntity, World,
};

verus! {

/// Microseconds in a thousand seconds: the cooldown after a shot is this
/// divided by the fire rate in shots per thousand seconds.
pub const COOLDOWN_SCALE: u64 = 1_000_000_000;

/// A gun mounted on an entity with a position.
#[derive(Clone, Debug)]
pub struct Weapon {
    /// Shots per thousand seconds; must be positive.
    pub fire_rate: u64,
    pub enabled: bool,
    pub is_enemy: bool,
    /// Microseconds until the weapon can fire again.
    pub cooldown: u64,
    pub damage: i32,
    /// Muzzle points relative to the carrier; one projectile leaves each.
    pub offsets: Vec<Vec2>,
}

/// Cooldown after a shot at `fire_rate` shots per thousand seconds.
pub open spec fn cooldown_period(fire_rate: int) -> int {
    COOLDOWN_SCALE as int / fire_rate
}

impl Weapon {
    pub open spec fn wf(&self) -> bool {
        self.fire_rate > 0
    }

    /// One tick of the trigger: a weapon cooling down only cools down;
    /// a cool, enabled weapon fires and starts a new cooldown.
    /// Returns whether it fired this tick.
    pub fn trigger(&mut self, dt: u64) -> (fired: bool)
        requires
            old(self).wf(),
            dt <= MAX_TICK_MICROS,
        ensures
            fired == (old(self).cooldown == 0 && old(self).enabled),
            old(self).cooldown > 0 ==> final(self).cooldown == (if old(self).cooldown > dt {
                old(self).cooldown - dt
            } else {
                0
            }),
            old(self).cooldown == 0 ==> final(self).cooldown == (if fired {
                cooldown_period(old(self).fire_rate as int)
            } else {
                0
            }),
            final(self).fire_rate == old(self).fire_rate,
            final(self).enabled == old(self).enabled,
            final(self).is_enemy == old(self).is_enemy,
            final(self).damage == old(self).damage,
            final(self).offsets == old(self).offsets,
    {
        if self.cooldown > 0 {
            self.cooldown = if self.cooldown > dt {
                self.cooldown - dt
            } else {
                0
            };
            false
        } else if self.enabled {
            self.cooldown = COOLDOWN_SCALE / self.fire_rate;
            true
        } else {
            false
        }
    }
}

/// Whether the weapon fires on its next trigger.
pub open spec fn fires(w: Weapon) -> bool {
    w.cooldown == 0 && w.enabled
}

/// The weapon after its trigger has been pulled for `dt` microseconds.
pub open spec fn triggered(w: Weapon, dt: int) -> Weapon {
    Weapon {
        cooldown: if w.cooldown > 0 {
            if w.cooldown > dt {
                (w.cooldown - dt) as u64
            } else {
                0
            }
        } else if w.enabled {
            cooldown_period(w.fire_rate as int) as u64
        } else {
            0
        },
        ..w
    }
}

/// What a shot is made of: where it starts and what it is.
pub open spec fn shot_of(e: ProjectileEntity) -> (Vec3, Projectile) {
    (e.pos, e.projectile)
}

pub open spec fn shots(s: Seq<ProjectileEntity>) -> Seq<(Vec3, Projectile)> {
    s.map_values(|e: ProjectileEntity| shot_of(e))
}

/// The shots a weapon carried at `pos` fires at once: one per muzzle, in
/// the order of its offsets.
pub open spec fn volley(pos: Vec3, w: Weapon) -> Seq<(Vec3, Projectile)> {
    w.offsets@.map_values(|o: Vec2| (launch_position(pos, o), projectile_of(w.is_enemy, w.damage)))
}

/// A burst fired now, or nothing.
pub open spec fn volley_if_fires(pos: Vec3, w: Weapon) -> Seq<(Vec3, Projectile)> {
    if fires(w) {
        volley(pos, w)
    } else {
        Seq::empty()
    }
}

pub open spec fn player_volleys(s: Seq<PlayerEntity>) -> Seq<(Vec3, Projectile)>
    decreases s.len(),
{
    if s.len() == 0 {
        Seq::empty()
    } else {
        player_volleys(s.drop_last()) + volley_if_fires(s.last().pos, s.last().weapon)
    }
}

pub open spec fn enemy_volleys(s: Seq<EnemyEntity>) -> Seq<(Vec3, Projectile)>
    decreases s.len(),
{
    if s.len() == 0 {
        Seq::empty()
    } else {
        enemy_volleys(s.drop_last()) + volley_if_fires(s.last().pos, s.last().weapon)
    }
}

fn copy_offsets(v: &Vec<Vec2>) -> (r: Vec<Vec2>)
    ensures
        r@ == v@,
{
    let mut r: Vec<Vec2> = Vec::new();
    let mut i: usize = 0;
    while i < v.len()
        invariant
            0 <= i <= v@.len(),
            r@ == v@.subrange(0, i as int),
        decreases v.len() - i,
    {
        r.push(v[i]);
        assert(r@ =~= v@.subrange(0, i + 1));
        i = i + 1;
    }
    assert(r@ =~= v@);
    r
}

/// Spawns one projectile per muzzle of `w`, carried at `pos`. Identifiers
/// are taken in turn; once they run out no more shots are made.
fn fire_volley(world: &mut World, pos: Vec3, w: &Weapon)
    requires
        old(world).wf(),
        actor_pos_ok(pos),
        weapon_ok(*w),
    ensures
        final(world).wf(),
        final(world).players@ == old(world).players@,
        final(world).enemies@ == old(world).enemies@,
        final(world).levels@ == old(world).levels@,
        final(world).next_id == old(world).next_id + ids_taken(
            old(world).next_id,
            w.offsets@.len() as int,
        ),
        final(world).projectiles@.len() >= old(world).projectiles@.len(),
        final(world).projectiles@.subrange(0, old(world).projectiles@.len() as int)
            == old(world).projectiles@,
        shots(final(world).projectiles@) == shots(old(world).projectiles@) + volley(
            pos,
            *w,
        ).subrange(0, ids_taken(old(world).next_id, w.offsets@.len() as int)),
{
    let ghost base = world.projectiles@;
    let ghost vol = volley(pos, *w);
    let mut k: usize = 0;
    while k < w.offsets.len()
        invariant
            0 <= k <= w.offsets@.len(),
            world.wf(),
            actor_pos_ok(pos),
            weapon_ok(*w),
            vol == volley(pos, *w),
            world.players@ == old(world).players@,
            world.enemies@ == old(world).enemies@,
            world.levels@ == old(world).levels@,
            world.next_id == old(world).next_id + ids_taken(old(world).next_id, k as int),
            world.projectiles@.len() >= base.len(),
            world.projectiles@.subrange(0, base.len() as int) == base,
            base == old(world).projectiles@,
            shots(world.projectiles@) == shots(base) + vol.subrange(
                0,
                ids_taken(old(world).next_id, k as int),
            ),
        decreases w.offsets.len() - k,
    {
        let o = w.offsets[k];
        assert(offset_ok(w.offsets@[k as int]));
        let ghost prev = world.projectiles@;
        spawn_projectile(world, w.is_enemy, Vec3 { x: pos.x + o.x, y: pos.y + o.y, z: 0 }, w.damage);
        proof {
            if world.projectiles@.len() > prev.len() {
                assert(world.projectiles@.subrange(0, base.len() as int) =~= prev.subrange(
                    0,
                    base.len() as int,
                ));
                assert(shots(world.projectiles@) =~= shots(prev).push(
                    shot_of(world.projectiles@.last()),
                ));
                assert(vol.subrange(0, k + 1) =~= vol.subrange(0, k as int).push(vol[k as int]));
            }
        }
        k = k + 1;
    }
}

/// A copy of the weapon with the same muzzles, fire rate and shots.
fn copy_weapon(w: &Weapon) -> (r: Weapon)
    ensures
        r.fire_rate == w.fire_rate,
        r.enabled == w.enabled,
        r.is_enemy == w.is_enemy,
        r.cooldown == w.cooldown,
        r.damage == w.damage,
        r.offsets@ == w.offsets@,
{
    Weapon {
        fire_rate: w.fire_rate,
        enabled: w.enabled,
        is_enemy: w.is_enemy,
        cooldown: w.cooldown,
        damage: w.damage,
        offsets: copy_offsets(&w.offsets),
    }
}

/// What one run of `weapon_shooting` does.
pub open spec fn weapon_shooting_effect(w0: World, w1: World, dt: u64) -> bool {
    &&& w1.wf()
    &&& w1.players@.len() == w0.players@.len()
    &&& forall|i: int| 0 <= i < w0.players@.len() ==> #[trigger] w1.players@[i] == (PlayerEntity {
        weapon: triggered(w0.players@[i].weapon, dt as int), ..w0.players@[i] })
    &&& w1.enemies@.len() == w0.enemies@.len()
    &&& forall|i: int| 0 <= i < w0.enemies@.len() ==> #[trigger] w1.enemies@[i] == (EnemyEntity {
        weapon: triggered(w0.enemies@[i].weapon, dt as int), ..w0.enemies@[i] })
    &&& w1.levels@ == w0.levels@
    &&& w1.projectiles@.subrange(0, w0.projectiles@.len() as int) == w0.projectiles@
    &&& ({
        let all = player_volleys(w0.players@) + enemy_volleys(w0.enemies@);
        let t = ids_taken(w0.next_id, all.len() as int);
        &&& w1.next_id == w0.next_id + t
        &&& shots(w1.projectiles@) == shots(w0.projectiles@) + all.subrange(0, t)
    })
}

/// Pulls the trigger of every weapon; each one that fires spawns its burst.
pub fn weapon_shooting(world: &mut World, dt: u64)
    requires
        old(world).wf(),
        dt <= MAX_TICK_MICROS,
    ensures
        weapon_shooting_effect(*old(world), *final(world), dt),
{
    let ghost p0 = world.players@;
    let ghost e0 = world.enemies@;
    let ghost s0 = world.projectiles@;
    let mut i: usize = 0;
    while i < world.players.len()
        invariant
            0 <= i <= world.players@.len(),
            world.players@.len() == p0.len(),
            world.wf(),
            all_players_ok(p0),
            dt <= MAX_TICK_MICROS,
            forall|j: int|
                0 <= j < i ==> #[trigger] world.players@[j] == (PlayerEntity {
                    weapon: triggered(p0[j].weapon, dt as int),
                    ..p0[j]
                }),
            forall|j: int| i <= j < p0.len() ==> #[trigger] world.players@[j] == p0[j],
            world.enemies@ == e0,
            world.levels@ == old(world).levels@,
            world.projectiles@.len() >= s0.len(),
            world.projectiles@.subrange(0, s0.len() as int) == s0,
            p0 == old(world).players@,
            e0 == old(world).enemies@,
            s0 == old(world).projectiles@,
            ({
                let a = player_volleys(p0.subrange(0, i as int));
                let t = ids_taken(old(world).next_id, a.len() as int);
                &&& world.next_id == old(world).next_id + t
                &&& shots(world.projectiles@) == shots(s0) + a.subrange(0, t)
            }),
        decreases p0.len() - i,
    {
        assert(player_ok(world.players@[i as int]));
        let ghost mid = world.projectiles@;
        let ghost n_mid = world.next_id;
        let fired = world.players[i].weapon.trigger(dt);
        assert(world.players@[i as int] == (PlayerEntity {
            weapon: triggered(p0[i as int].weapon, dt as int),
            ..p0[i as int]
        }));
        assert(all_players_ok(world.players@)) by {
            assert forall|j: int| 0 <= j < world.players@.len() implies player_ok(
                #[trigger] world.players@[j],
            ) by {
                if j != i {
                    assert(world.players@[j] == old(world).players@[j] || j < i);
                }
            }
        }
        if fired {
            let pos = world.players[i].pos;
            let w = copy_weapon(&world.players[i].weapon);
            assert(volley(pos, w) =~= volley(pos, world.players@[i as int].weapon));
            fire_volley(world, pos, &w);
            assert(world.projectiles@.subrange(0, s0.len() as int) =~= mid.subrange(
                0,
                s0.len() as int,
            )) by {
                assert(world.projectiles@.subrange(0, mid.len() as int) == mid);
            }
            assert(volley(pos, w) == volley_if_fires(p0[i as int].pos, p0[i as int].weapon));
        } else {
            assert(volley_if_fires(p0[i as int].pos, p0[i as int].weapon) =~= Seq::empty());
        }
        assert(p0.subrange(0, i + 1).drop_last() =~= p0.subrange(0, i as int));
        assert(p0.subrange(0, i + 1).last() == p0[i as int]);
        proof {
            let a = player_volleys(p0.subrange(0, i as int));
            let v = volley_if_fires(p0[i as int].pos, p0[i as int].weapon);
            lemma_ids_taken_concat(old(world).next_id, a, v);
            assert(player_volleys(p0.subrange(0, i + 1)) == a + v);
            let t1 = ids_taken(old(world).next_id, a.len() as int);
            let t2 = ids_taken((old(world).next_id + t1) as u64, v.len() as int);
            assert(world.next_id == n_mid + t2);
            assert(shots(world.projectiles@) =~= shots(s0) + (a.subrange(0, t1) + v.subrange(0, t2)));
        }
        i = i + 1;
    }
    assert(p0.subrange(0, p0.len() as int) =~= p0);
    assert(player_volleys(p0) + enemy_volleys(e0.subrange(0, 0)) =~= player_volleys(p0));
    let mut i: usize = 0;
    while i < world.enemies.len()
        invariant
            0 <= i <= world.enemies@.len(),
            world.enemies@.len() == e0.len(),
            world.wf(),
            all_enemies_ok(e0),
            dt <= MAX_TICK_MICROS,
            forall|j: int|
                0 <= j < i ==> #[trigger] world.enemies@[j] == (EnemyEntity {
                    weapon: triggered(e0[j].weapon, dt as int),
                    ..e0[j]
                }),
            forall|j: int| i <= j < e0.len() ==> #[trigger] world.enemies@[j] == e0[j],
            world.players@.len() == p0.len(),
            forall|j: int|
                0 <= j < p0.len() ==> #[trigger] world.players@[j] == (PlayerEntity {
                    weapon: triggered(p0[j].weapon, dt as int),
                    ..p0[j]
                }),
            world.levels@ == old(world).levels@,
            world.projectiles@.len() >= s0.len(),
            world.projectiles@.subrange(0, s0.len() as int) == s0,
            p0 == old(world).players@,
            e0 == old(world).enemies@,
            s0 == old(world).projectiles@,
            ({
                let a = player_volleys(p0) + enemy_volleys(e0.subrange(0, i as int));
                let t = ids_taken(old(world).next_id, a.len() as int);
                &&& world.next_id == old(world).next_id + t
                &&& shots(world.projectiles@) == shots(s0) + a.subrange(0, t)
            }),
        decreases e0.len() - i,
    {
        assert(enemy_ok(world.enemies@[i as int]));
        let ghost mid = world.projectiles@;
        let ghost n_mid = world.next_id;
        let fired = world.enemies[i].weapon.trigger(dt);
        assert(world.enemies@[i as int] == (EnemyEntity {
            weapon: triggered(e0[i as int].weapon, dt as int),
            ..e0[i as int]
        }));
        assert(all_enemies_ok(world.enemies@)) by {
            assert forall|j: int| 0 <= j < world.enemies@.len() implies enemy_ok(
                #[trigger] world.enemies@[j],
            ) by {
                if j != i {
                    assert(world.enemies@[j] == old(world).enemies@[j] || j < i);
                }
            }
        }
        if fired {
            let pos = world.enemies[i].pos;
            let w = copy_weapon(&world.enemies[i].weapon);
            assert(volley(pos, w) =~= volley(pos, world.enemies@[i as int].weapon));
            fire_volley(world, pos, &w);
            assert(world.projectiles@.subrange(0, s0.len() as int) =~= mid.subrange(
                0,
                s0.len() as int,
            )) by {
                assert(world.projectiles@.subrange(0, mid.len() as int) == mid);
            }
            assert(volley(pos, w) == volley_if_fires(e0[i as int].pos, e0[i as int].weapon));
        } else {
            assert(volley_if_fires(e0[i as int].pos, e0[i as int].weapon) =~= Seq::empty());
        }
        assert(e0.subrange(0, i + 1).drop_last() =~= e0.subrange(0, i as int));
        assert(e0.subrange(0, i + 1).last() == e0[i as int]);
        proof {
            let a = player_volleys(p0) + enemy_volleys(e0.subrange(0, i as int));
            let v = volley_if_fires(e0[i as int].pos, e0[i as int].weapon);
            lemma_ids_taken_concat(old(world).next_id, a, v);
            assert(player_volleys(p0) + enemy_volleys(e0.subrange(0, i + 1)) =~= a + v);
            let t1 = ids_taken(old(world).next_id, a.len() as int);
            let t2 = ids_taken((old(world).next_id + t1) as u64, v.len() as int);
            assert(world.next_id == n_mid + t2);
            assert(shots(world.projectiles@) =~= shots(s0) + (a.subrange(0, t1) + v.subrange(0, t2)));
        }
        i = i + 1;
    }
    assert(e0.subrange(0, e0.len() as int) =~= e0);
}

} // verus!
