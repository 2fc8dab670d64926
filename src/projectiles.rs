use vstd::prelude::*;

use crate::shared::{
    aabb_overlap, damaged_health, in_bounds, inside_bounds, overlaps, pos_in_limit, travel,
    travel_distance, Damagable, Vec2, Vec3, MAX_TICK_MICROS,
};
use crate::world::{
    all_enemies_ok, all_players_ok, all_projectiles_ok, enemy_ok, player_ok, projectile_ok,
    EnemyEntity, PlayerEntity, ProjectileEntity, World,
};

verus! {

/// Which way a projectile flies; both are unit vectors along the y axis.
#[derive(Clone, Copy, Debug, PartialEq, Eq, Structural)]
pub enum Heading {
    Up,
    Down,
}

pub open spec fn heading_dy(h: Heading) -> int {
    match h {
        Heading::Up => 1,
        Heading::Down => -1,
    }
}

/// Speed of an enemy shot (milli-units per second).
pub const ENEMY_PROJECTILE_SPEED: i64 = 300_000;

/// Speed of a player shot (milli-units per second).
pub const PLAYER_PROJECTILE_SPEED: i64 = 500_000;

/// Side of a projectile's square hitbox (milli-units).
pub const PROJECTILE_SIZE: i64 = 20_000;

#[derive(Clone, Copy, Debug, PartialEq, Eq, Structural)]
pub struct Projectile {
    pub direction: Heading,
    pub damage: i32,
    /// Milli-units per second.
    pub speed: i64,
    pub hitbox_size: Vec2,
    pub is_enemy: bool,
}

/// The projectile a weapon of the given side fires.
pub open spec fn projectile_of(is_enemy: bool, damage: i32) -> Projectile {
    Projectile {
        direction: if is_enemy {
            Heading::Down
        } else {
            Heading::Up
        },
        damage,
        speed: if is_enemy {
            ENEMY_PROJECTILE_SPEED
        } else {
            PLAYER_PROJECTILE_SPEED
        },
        hitbox_size: Vec2 { x: PROJECTILE_SIZE, y: PROJECTILE_SIZE },
        is_enemy,
    }
}

pub fn new_projectile(is_enemy: bool, damage: i32) -> (r: Projectile)
    ensures
        r == projectile_of(is_enemy, damage),
{
    Projectile {
        direction: if is_enemy {
            Heading::Down
        } else {
            Heading::Up
        },
        damage,
        speed: if is_enemy {
            ENEMY_PROJECTILE_SPEED
        } else {
            PLAYER_PROJECTILE_SPEED
        },
        hitbox_size: Vec2 { x: PROJECTILE_SIZE, y: PROJECTILE_SIZE },
        is_enemy,
    }
}

/// Creates a projectile of the given side at `pos`, its depth set to 0;
/// nothing is created once identifiers are used up.
pub fn spawn_projectile(world: &mut World, is_enemy: bool, pos: Vec3, damage: i32)
    requires
        old(world).wf(),
        pos_in_limit(pos),
    ensures
        final(world).wf(),
        old(world).next_id < u64::MAX ==> final(world).next_id == old(world).next_id + 1
            && final(world).projectiles@ == old(world).projectiles@.push(
            ProjectileEntity {
                id: old(world).next_id,
                pos: Vec3 { z: 0, ..pos },
                projectile: projectile_of(is_enemy, damage),
            },
        ),
        old(world).next_id == u64::MAX ==> final(world).projectiles@ == old(world).projectiles@
            && final(world).next_id == old(world).next_id,
        final(world).players@ == old(world).players@,
        final(world).enemies@ == old(world).enemies@,
        final(world).levels@ == old(world).levels@,
{
    if let Some(id) = world.fresh_id() {
        let ghost prev = world.projectiles@;
        world.projectiles.push(
            ProjectileEntity {
                id,
                pos: Vec3 { z: 0, ..pos },
                projectile: new_projectile(is_enemy, damage),
            },
        );
        assert(all_projectiles_ok(world.projectiles@)) by {
            assert forall|j: int| 0 <= j < world.projectiles@.len() implies projectile_ok(
                #[trigger] world.projectiles@[j],
            ) by {
                if j < prev.len() {
                    assert(world.projectiles@[j] == prev[j]);
                }
            }
        }
    }
}

/// Where a projectile fired from `pos` + `offset` starts: depth is always 0.
pub open spec fn launch_position(pos: Vec3, offset: Vec2) -> Vec3 {
    Vec3 { x: (pos.x + offset.x) as i64, y: (pos.y + offset.y) as i64, z: 0 }
}

/// The projectile after flying for `dt` microseconds.
pub open spec fn moved(e: ProjectileEntity, dt: int) -> ProjectileEntity {
    ProjectileEntity {
        pos: Vec3 {
            y: (e.pos.y + heading_dy(e.projectile.direction) * travel(
                e.projectile.speed as int,
                dt,
            )) as i64,
            ..e.pos
        },
        ..e
    }
}

/// Whether the projectile hits a target at `pos`: the boxes overlap, the
/// target is on the other side, and it can take hits.
pub open spec fn strikes(e: ProjectileEntity, pos: Vec3, d: Damagable) -> bool {
    overlaps(pos, d.hitbox_size, e.pos, e.projectile.hitbox_size) && d.is_enemy
        != e.projectile.is_enemy && d.damagable
}

/// Index of the first enemy from `from` on that the projectile strikes, or
/// the length of `s` when there is none.
pub open spec fn first_struck_enemy(s: Seq<EnemyEntity>, e: ProjectileEntity, from: int) -> int
    decreases s.len() - from,
{
    if from < 0 || from >= s.len() {
        s.len() as int
    } else if strikes(e, s[from].pos, s[from].damagable) {
        from
    } else {
        first_struck_enemy(s, e, from + 1)
    }
}

/// Index of the first player from `from` on that the projectile strikes, or
/// the length of `s` when there is none.
pub open spec fn first_struck_player(s: Seq<PlayerEntity>, e: ProjectileEntity, from: int) -> int
    decreases s.len() - from,
{
    if from < 0 || from >= s.len() {
        s.len() as int
    } else if strikes(e, s[from].pos, s[from].damagable) {
        from
    } else {
        first_struck_player(s, e, from + 1)
    }
}

pub open spec fn hurt(d: Damagable, amount: i32) -> Damagable {
    Damagable { health: damaged_health(d.health as int, amount as int) as i32, ..d }
}

/// Targets and surviving projectiles during a pass of the projectile system.
pub type PassState = (Seq<EnemyEntity>, Seq<PlayerEntity>, Seq<ProjectileEntity>);

/// One projectile's turn: it flies, then damages the first target it
/// strikes (enemies are looked at before players) and is gone; a projectile
/// that struck nothing stays only while inside the play area.
pub open spec fn projectile_step(st: PassState, p: ProjectileEntity, dt: int) -> PassState {
    let m = moved(p, dt);
    let je = first_struck_enemy(st.0, m, 0);
    if je < st.0.len() {
        (
            st.0.update(je, EnemyEntity { damagable: hurt(st.0[je].damagable, m.projectile.damage), ..st.0[je] }),
            st.1,
            st.2,
        )
    } else {
        let jp = first_struck_player(st.1, m, 0);
        if jp < st.1.len() {
            (
                st.0,
                st.1.update(jp, PlayerEntity { damagable: hurt(st.1[jp].damagable, m.projectile.damage), ..st.1[jp] }),
                st.2,
            )
        } else if inside_bounds(m.pos) {
            (st.0, st.1, st.2.push(m))
        } else {
            st
        }
    }
}

/// The projectiles of `ps` take their turns in order.
pub open spec fn projectile_pass(st: PassState, ps: Seq<ProjectileEntity>, dt: int) -> PassState
    decreases ps.len(),
{
    if ps.len() == 0 {
        st
    } else {
        projectile_step(projectile_pass(st, ps.drop_last(), dt), ps.last(), dt)
    }
}

/// A projectile never harms a target of its own side, however fully their
/// boxes overlap: in a projectile's turn every such target stays as it was.
pub proof fn lemma_no_friendly_fire(st: PassState, p: ProjectileEntity, dt: int)
    ensures
        forall|j: int|
            0 <= j < st.0.len() && st.0[j].damagable.is_enemy == p.projectile.is_enemy
                ==> #[trigger] projectile_step(st, p, dt).0[j] == st.0[j],
        forall|j: int|
            0 <= j < st.1.len() && st.1[j].damagable.is_enemy == p.projectile.is_enemy
                ==> #[trigger] projectile_step(st, p, dt).1[j] == st.1[j],
{
    let m = moved(p, dt);
    lemma_first_enemy(st.0, m, 0);
    lemma_first_player(st.1, m, 0);
}

proof fn lemma_first_enemy(s: Seq<EnemyEntity>, e: ProjectileEntity, from: int)
    requires
        0 <= from <= s.len(),
    ensures
        from <= first_struck_enemy(s, e, from) <= s.len(),
        first_struck_enemy(s, e, from) < s.len() ==> strikes(
            e,
            s[first_struck_enemy(s, e, from)].pos,
            s[first_struck_enemy(s, e, from)].damagable,
        ),
    decreases s.len() - from,
{
    if from < s.len() && !strikes(e, s[from].pos, s[from].damagable) {
        lemma_first_enemy(s, e, from + 1);
    }
}

proof fn lemma_first_player(s: Seq<PlayerEntity>, e: ProjectileEntity, from: int)
    requires
        0 <= from <= s.len(),
    ensures
        from <= first_struck_player(s, e, from) <= s.len(),
        first_struck_player(s, e, from) < s.len() ==> strikes(
            e,
            s[first_struck_player(s, e, from)].pos,
            s[first_struck_player(s, e, from)].damagable,
        ),
    decreases s.len() - from,
{
    if from < s.len() && !strikes(e, s[from].pos, s[from].damagable) {
        lemma_first_player(s, e, from + 1);
    }
}

fn strikes_target(e: &ProjectileEntity, pos: Vec3, d: &Damagable) -> (r: bool)
    ensures
        r == strikes(*e, pos, *d),
{
    aabb_overlap(pos, d.hitbox_size, e.pos, e.projectile.hitbox_size) && d.is_enemy
        != e.projectile.is_enemy && d.damagable
}

fn find_enemy_target(s: &Vec<EnemyEntity>, e: &ProjectileEntity) -> (r: usize)
    ensures
        r == first_struck_enemy(s@, *e, 0),
{
    let mut j: usize = 0;
    while j < s.len()
        invariant
            0 <= j <= s@.len(),
            first_struck_enemy(s@, *e, 0) == first_struck_enemy(s@, *e, j as int),
        decreases s.len() - j,
    {
        if strikes_target(e, s[j].pos, &s[j].damagable) {
            return j;
        }
        j = j + 1;
    }
    j
}

fn find_player_target(s: &Vec<PlayerEntity>, e: &ProjectileEntity) -> (r: usize)
    ensures
        r == first_struck_player(s@, *e, 0),
{
    let mut j: usize = 0;
    while j < s.len()
        invariant
            0 <= j <= s@.len(),
            first_struck_player(s@, *e, 0) == first_struck_player(s@, *e, j as int),
        decreases s.len() - j,
    {
        if strikes_target(e, s[j].pos, &s[j].damagable) {
            return j;
        }
        j = j + 1;
    }
    j
}

fn move_projectile(e: ProjectileEntity, dt: u64) -> (r: ProjectileEntity)
    requires
        projectile_ok(e),
        dt <= MAX_TICK_MICROS,
    ensures
        r == moved(e, dt as int),
{
    let d = travel_distance(e.projectile.speed, dt);
    let y: i64 = match e.projectile.direction {
        Heading::Up => e.pos.y + d,
        Heading::Down => e.pos.y - d,
    };
    ProjectileEntity { pos: Vec3 { y, ..e.pos }, ..e }
}

/// What one run of `projectile_system` does.
pub open spec fn projectile_system_effect(w0: World, w1: World, dt: u64) -> bool {
    &&& w1.wf()
    &&& (w1.enemies@, w1.players@, w1.projectiles@) == projectile_pass((w0.enemies@, w0.players@,
        Seq::empty()), w0.projectiles@, dt as int)
    &&& w1.levels@ == w0.levels@
    &&& w1.next_id == w0.next_id
}

/// Moves every projectile and resolves its hits, in order; a projectile
/// that hit something or left the play area is destroyed.
pub fn projectile_system(world: &mut World, dt: u64)
    requires
        old(world).wf(),
        dt <= MAX_TICK_MICROS,
    ensures
        projectile_system_effect(*old(world), *final(world), dt),
{
    let ghost ps = world.projectiles@;
    let ghost init: PassState = (world.enemies@, world.players@, Seq::empty());
    let mut kept: Vec<ProjectileEntity> = Vec::new();
    let mut i: usize = 0;
    while i < world.projectiles.len()
        invariant
            0 <= i <= ps.len(),
            world.projectiles@ == ps,
            ps == old(world).projectiles@,
            init == (old(world).enemies@, old(world).players@, Seq::<ProjectileEntity>::empty()),
            all_projectiles_ok(ps),
            all_enemies_ok(world.enemies@),
            all_players_ok(world.players@),
            all_projectiles_ok(kept@),
            world.levels@ == old(world).levels@,
            world.next_id == old(world).next_id,
            crate::world::all_levels_ok(world.levels@),
            dt <= MAX_TICK_MICROS,
            (world.enemies@, world.players@, kept@) == projectile_pass(
                init,
                ps.subrange(0, i as int),
                dt as int,
            ),
        decreases ps.len() - i,
    {
        let ghost st: PassState = (world.enemies@, world.players@, kept@);
        let p = world.projectiles[i];
        assert(projectile_ok(ps[i as int]));
        let m = move_projectile(p, dt);
        proof {
            lemma_first_enemy(world.enemies@, m, 0);
            lemma_first_player(world.players@, m, 0);
        }
        let je = find_enemy_target(&world.enemies, &m);
        if je < world.enemies.len() {
            world.enemies[je].damagable.damage(m.projectile.damage);
            assert(world.enemies@ =~= st.0.update(je as int, EnemyEntity {
                damagable: hurt(st.0[je as int].damagable, m.projectile.damage),
                ..st.0[je as int]
            }));
            assert(all_enemies_ok(world.enemies@)) by {
                assert forall|j: int| 0 <= j < world.enemies@.len() implies enemy_ok(
                    #[trigger] world.enemies@[j],
                ) by {
                    assert(enemy_ok(st.0[j]));
                }
            }
        } else {
            let jp = find_player_target(&world.players, &m);
            if jp < world.players.len() {
                world.players[jp].damagable.damage(m.projectile.damage);
                assert(world.players@ =~= st.1.update(jp as int, PlayerEntity {
                    damagable: hurt(st.1[jp as int].damagable, m.projectile.damage),
                    ..st.1[jp as int]
                }));
                assert(all_players_ok(world.players@)) by {
                    assert forall|j: int| 0 <= j < world.players@.len() implies player_ok(
                        #[trigger] world.players@[j],
                    ) by {
                        assert(player_ok(st.1[j]));
                    }
                }
            } else if in_bounds(m.pos) {
                kept.push(m);
                assert(all_projectiles_ok(kept@)) by {
                    assert forall|j: int| 0 <= j < kept@.len() implies projectile_ok(
                        #[trigger] kept@[j],
                    ) by {
                        if j < st.2.len() {
                            assert(kept@[j] == st.2[j]);
                        }
                    }
                }
            }
        }
        assert(ps.subrange(0, i + 1).drop_last() =~= ps.subrange(0, i as int));
        assert(ps.subrange(0, i + 1).last() == ps[i as int]);
        i = i + 1;
    }
    assert(ps.subrange(0, ps.len() as int) =~= ps);
    world.projectiles = kept;
}

} // verus!
