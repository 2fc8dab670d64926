use vstd::prelude::*;

use crate::enemy::Enemy;
use crate::level::Level;
use crate::player::Player;
use crate::projectiles::Projectile;
use crate::shared::{extent_ok, pos_in_limit, Damagable, Vec2, Vec3, SPEED_LIMIT};
use crate::weapon::Weapon;

verus! {

/// Entities that carry a stable identifier.
pub trait Identified {
    spec fn spec_id(&self) -> u64;

    fn id(&self) -> (r: u64)
        ensures
            r == self.spec_id(),
    ;
}

#[derive(Clone, Debug)]
pub struct PlayerEntity {
    pub id: u64,
    pub pos: Vec3,
    pub player: Player,
    pub damagable: Damagable,
    pub weapon: Weapon,
}

#[derive(Clone, Debug)]
pub struct EnemyEntity {
    pub id: u64,
    pub pos: Vec3,
    pub enemy: Enemy,
    pub damagable: Damagable,
    pub weapon: Weapon,
}

#[derive(Clone, Copy, Debug)]
pub struct ProjectileEntity {
    pub id: u64,
    pub pos: Vec3,
    pub projectile: Projectile,
}

#[derive(Clone, Debug)]
pub struct LevelEntity {
    pub id: u64,
    pub level: Level,
}

impl Identified for PlayerEntity {
    open spec fn spec_id(&self) -> u64 {
        self.id
    }

    fn id(&self) -> (r: u64) {
        self.id
    }
}

impl Identified for EnemyEntity {
    open spec fn spec_id(&self) -> u64 {
        self.id
    }

    fn id(&self) -> (r: u64) {
        self.id
    }
}

impl Identified for ProjectileEntity {
    open spec fn spec_id(&self) -> u64 {
        self.id
    }

    fn id(&self) -> (r: u64) {
        self.id
    }
}

impl Identified for LevelEntity {
    open spec fn spec_id(&self) -> u64 {
        self.id
    }

    fn id(&self) -> (r: u64) {
        self.id
    }
}

/// Keeps the entities whose identifier is not `id`.
pub open spec fn without<E: Identified>(s: Seq<E>, id: u64) -> Seq<E> {
    s.filter(id_is_not(id))
}

pub open spec fn id_is_not<E: Identified>(id: u64) -> spec_fn(E) -> bool {
    |e: E| e.spec_id() != id
}

pub open spec fn has_id<E: Identified>(s: Seq<E>, id: u64) -> bool {
    exists|i: int| 0 <= i < s.len() && (#[trigger] s[i]).spec_id() == id
}

/// Filtering out an identifier that nothing carries changes nothing.
pub proof fn lemma_without_absent<E: Identified>(s: Seq<E>, id: u64)
    requires
        !has_id(s, id),
    ensures
        without(s, id) == s,
    decreases s.len(),
{
    reveal(Seq::filter);
    if s.len() > 0 {
        let p = s.drop_last();
        assert(!has_id(p, id)) by {
            if has_id(p, id) {
                let i = choose|i: int| 0 <= i < p.len() && (#[trigger] p[i]).spec_id() == id;
                assert(s[i] == p[i]);
            }
        }
        lemma_without_absent(p, id);
        assert(s.last() == s[s.len() - 1]);
        assert(p.push(s.last()) =~= s);
    }
}

proof fn tail_step<E>(a: Seq<E>, b: Seq<E>, i: int, k: int)
    requires
        0 <= i < a.len(),
        0 <= k < b.len(),
        a.subrange(i, a.len() as int) == b.subrange(k, b.len() as int),
    ensures
        a.subrange(i + 1, a.len() as int) == b.subrange(k + 1, b.len() as int),
{
    let t = a.subrange(i, a.len() as int);
    assert(a.subrange(i + 1, a.len() as int) =~= t.subrange(1, t.len() as int));
    assert(b.subrange(k + 1, b.len() as int) =~= t.subrange(1, t.len() as int));
}

/// Removes every entity of `v` whose identifier is `id`, keeping the order
/// of the others.
pub fn remove_id<E: Identified>(v: &mut Vec<E>, id: u64)
    ensures
        final(v)@ == without(old(v)@, id),
{
    let ghost orig = old(v)@;
    let mut i: usize = 0;
    let ghost mut k: int = 0;
    while i < v.len()
        invariant
            0 <= i <= v.len(),
            0 <= k <= orig.len(),
            v@.len() - i == orig.len() - k,
            v@.subrange(0, i as int) == orig.subrange(0, k).filter(id_is_not::<E>(id)),
            v@.subrange(i as int, v@.len() as int) == orig.subrange(k, orig.len() as int),
        decreases v.len() - i,
    {
        let ghost before = v@;
        assert(before[i as int] == orig[k]) by {
            assert(before.subrange(i as int, before.len() as int)[0] == before[i as int]);
        }
        assert(orig.subrange(0, k + 1) =~= orig.subrange(0, k).push(orig[k]));
        proof {
            orig.subrange(0, k).lemma_filter_push(orig[k], id_is_not::<E>(id));
            assert((id_is_not::<E>(id))(orig[k]) == (orig[k].spec_id() != id));
        }
        if v[i].id() == id {
            v.remove(i);
            assert(v@.subrange(0, i as int) =~= before.subrange(0, i as int));
            assert(v@.subrange(i as int, v@.len() as int) =~= before.subrange(i + 1, before.len() as int));
            proof { tail_step(before, orig, i as int, k); }
        } else {
            i = i + 1;
            assert(v@.subrange(0, i as int) =~= before.subrange(0, i - 1).push(before[i - 1]));
            proof { tail_step(before, orig, i - 1, k); }
        }
        proof {
            k = k + 1;
        }
    }
    assert(v@.subrange(0, i as int) =~= v@);
    assert(orig.subrange(0, k) =~= orig);
}

/// Largest magnitude of an actor's coordinate or a muzzle offset
/// (milli-units); half the general limit, so that a shot's start fits it.
pub const ACTOR_LIMIT: i64 = 500_000_000_000;

pub open spec fn actor_limit(v: int) -> bool {
    -ACTOR_LIMIT <= v <= ACTOR_LIMIT
}

pub open spec fn actor_pos_ok(p: Vec3) -> bool {
    actor_limit(p.x as int) && actor_limit(p.y as int) && actor_limit(p.z as int)
}

pub open spec fn offset_ok(o: Vec2) -> bool {
    actor_limit(o.x as int) && actor_limit(o.y as int)
}

pub open spec fn weapon_ok(w: Weapon) -> bool {
    w.wf() && forall|i: int| 0 <= i < w.offsets@.len() ==> offset_ok(#[trigger] w.offsets@[i])
}

pub open spec fn player_ok(e: PlayerEntity) -> bool {
    actor_pos_ok(e.pos) && weapon_ok(e.weapon) && extent_ok(e.damagable.hitbox_size) && 0
        <= e.player.move_speed <= SPEED_LIMIT
}

pub open spec fn enemy_ok(e: EnemyEntity) -> bool {
    actor_pos_ok(e.pos) && weapon_ok(e.weapon) && extent_ok(e.damagable.hitbox_size)
}

pub open spec fn projectile_ok(e: ProjectileEntity) -> bool {
    pos_in_limit(e.pos) && 0 <= e.projectile.speed <= SPEED_LIMIT && extent_ok(
        e.projectile.hitbox_size,
    )
}

pub open spec fn all_players_ok(s: Seq<PlayerEntity>) -> bool {
    forall|i: int| 0 <= i < s.len() ==> player_ok(#[trigger] s[i])
}

pub open spec fn all_enemies_ok(s: Seq<EnemyEntity>) -> bool {
    forall|i: int| 0 <= i < s.len() ==> enemy_ok(#[trigger] s[i])
}

pub open spec fn all_projectiles_ok(s: Seq<ProjectileEntity>) -> bool {
    forall|i: int| 0 <= i < s.len() ==> projectile_ok(#[trigger] s[i])
}

pub open spec fn all_levels_ok(s: Seq<LevelEntity>) -> bool {
    forall|i: int| 0 <= i < s.len() ==> (#[trigger] s[i]).level.wf()
}

/// The entries of `s` whose mark in `m` is set, in order.
pub open spec fn kept_by<E>(s: Seq<E>, m: Seq<bool>) -> Seq<E>
    decreases s.len(),
{
    if s.len() == 0 {
        s
    } else {
        let rest = kept_by(s.drop_last(), m);
        if m[s.len() - 1] {
            rest.push(s.last())
        } else {
            rest
        }
    }
}

/// Marks that agree with a predicate keep what the predicate's filter keeps.
pub proof fn lemma_kept_by_filter<E>(s: Seq<E>, m: Seq<bool>, p: spec_fn(E) -> bool)
    requires
        m.len() >= s.len(),
        forall|j: int| 0 <= j < s.len() ==> m[j] == p(#[trigger] s[j]),
    ensures
        kept_by(s, m) == s.filter(p),
    decreases s.len(),
{
    reveal(Seq::filter);
    if s.len() > 0 {
        let d = s.drop_last();
        assert forall|j: int| 0 <= j < d.len() implies m[j] == p(#[trigger] d[j]) by {
            assert(d[j] == s[j]);
        }
        lemma_kept_by_filter(d, m, p);
        assert(m[s.len() - 1] == p(s[s.len() - 1]));
    }
}

/// Filtering a prefix keeps no more than filtering the whole.
pub proof fn lemma_filter_prefix_len<A>(s: Seq<A>, p: spec_fn(A) -> bool, j: int)
    requires
        0 <= j <= s.len(),
    ensures
        s.subrange(0, j).filter(p).len() <= s.filter(p).len(),
    decreases s.len(),
{
    if j < s.len() {
        let d = s.drop_last();
        assert(d.subrange(0, j) =~= s.subrange(0, j));
        lemma_filter_prefix_len(d, p, j);
        assert(s =~= d.push(s.last()));
        d.lemma_filter_push(s.last(), p);
    } else {
        assert(s.subrange(0, j) =~= s);
    }
}

/// Everything kept comes from the original sequence.
pub proof fn lemma_kept_by_from<E>(s: Seq<E>, m: Seq<bool>)
    ensures
        forall|j: int| 0 <= j < kept_by(s, m).len() ==> s.contains(#[trigger] kept_by(s, m)[j]),
    decreases s.len(),
{
    if s.len() > 0 {
        let d = s.drop_last();
        lemma_kept_by_from(d, m);
        assert forall|j: int| 0 <= j < kept_by(s, m).len() implies s.contains(
            #[trigger] kept_by(s, m)[j],
        ) by {
            if j < kept_by(d, m).len() {
                let x = kept_by(d, m)[j];
                assert(d.contains(x));
                let q = choose|q: int| 0 <= q < d.len() && d[q] == x;
                assert(s[q] == x);
            } else {
                assert(s[s.len() - 1] == s.last());
            }
        }
    }
}

proof fn lemma_kept_by_prefix<E>(s: Seq<E>, m: Seq<bool>, k: int)
    requires
        0 <= k < s.len(),
    ensures
        kept_by(s.subrange(0, k + 1), m) == (if m[k] {
            kept_by(s.subrange(0, k), m).push(s[k])
        } else {
            kept_by(s.subrange(0, k), m)
        }),
{
    assert(s.subrange(0, k + 1).drop_last() =~= s.subrange(0, k));
}

/// Keeps the entries of `v` whose mark in `keep` is set.
pub fn retain_marked<E>(v: &mut Vec<E>, keep: &Vec<bool>)
    requires
        keep@.len() == old(v)@.len(),
    ensures
        final(v)@ == kept_by(old(v)@, keep@),
{
    let ghost orig = old(v)@;
    let mut i: usize = 0;
    let mut k: usize = 0;
    while k < keep.len()
        invariant
            keep@.len() == orig.len(),
            0 <= i <= v@.len(),
            0 <= k <= orig.len(),
            v@.len() - i == orig.len() - k,
            v@.subrange(0, i as int) == kept_by(orig.subrange(0, k as int), keep@),
            v@.subrange(i as int, v@.len() as int) == orig.subrange(k as int, orig.len() as int),
        decreases orig.len() - k,
    {
        let ghost before = v@;
        let n = v.len();
        assert(i < n);
        assert(before[i as int] == orig[k as int]) by {
            assert(before.subrange(i as int, before.len() as int)[0] == before[i as int]);
        }
        proof {
            lemma_kept_by_prefix(orig, keep@, k as int);
        }
        if keep[k] {
            i = i + 1;
            assert(v@.subrange(0, i as int) =~= before.subrange(0, i - 1).push(before[i - 1]));
            proof {
                tail_step(before, orig, i - 1, k as int);
            }
        } else {
            v.remove(i);
            assert(v@.subrange(0, i as int) =~= before.subrange(0, i as int));
            assert(v@.subrange(i as int, v@.len() as int) =~= before.subrange(
                i + 1,
                before.len() as int,
            ));
            proof {
                tail_step(before, orig, i as int, k as int);
            }
        }
        k = k + 1;
    }
    assert(v@.subrange(0, i as int) =~= v@);
    assert(orig.subrange(0, k as int) =~= orig);
}

/// How many of `n` identifiers can still be handed out from `start`.
pub open spec fn ids_taken(start: u64, n: int) -> int {
    if start + n <= u64::MAX {
        n
    } else {
        u64::MAX - start
    }
}

/// Taking identifiers for `a` and then for `v` takes as many as for both,
/// and what was made for each is the front of what is made for both.
pub proof fn lemma_ids_taken_concat<T>(start: u64, a: Seq<T>, v: Seq<T>)
    requires
        0 <= ids_taken(start, a.len() as int),
    ensures
        ({
            let t1 = ids_taken(start, a.len() as int);
            let t2 = ids_taken((start + t1) as u64, v.len() as int);
            &&& t1 + t2 == ids_taken(start, (a.len() + v.len()) as int)
            &&& a.subrange(0, t1) + v.subrange(0, t2) == (a + v).subrange(0, t1 + t2)
        }),
{
    let t1 = ids_taken(start, a.len() as int);
    let t2 = ids_taken((start + t1) as u64, v.len() as int);
    assert(a.subrange(0, t1) + v.subrange(0, t2) =~= (a + v).subrange(0, t1 + t2));
}

/// The whole simulated world: one table per kind of entity.
pub struct World {
    /// Identifier the next created entity gets.
    pub next_id: u64,
    pub players: Vec<PlayerEntity>,
    pub enemies: Vec<EnemyEntity>,
    pub projectiles: Vec<ProjectileEntity>,
    pub levels: Vec<LevelEntity>,
}

impl World {
    /// Every entity's numbers stay in the ranges the systems compute with.
    pub open spec fn wf(&self) -> bool {
        all_players_ok(self.players@) && all_enemies_ok(self.enemies@) && all_projectiles_ok(
            self.projectiles@,
        ) && all_levels_ok(self.levels@)
    }

    pub fn new() -> (r: World)
        ensures
            r.wf(),
            r.next_id == 0,
            r.players@.len() == 0,
            r.enemies@.len() == 0,
            r.projectiles@.len() == 0,
            r.levels@.len() == 0,
    {
        World {
            next_id: 0,
            players: Vec::new(),
            enemies: Vec::new(),
            projectiles: Vec::new(),
            levels: Vec::new(),
        }
    }

    pub open spec fn contains(&self, id: u64) -> bool {
        has_id(self.players@, id) || has_id(self.enemies@, id) || has_id(self.projectiles@, id)
            || has_id(self.levels@, id)
    }

    /// Takes a fresh identifier; `None` once they are used up.
    pub fn fresh_id(&mut self) -> (r: Option<u64>)
        ensures
            r == (if old(self).next_id < u64::MAX {
                Some(old(self).next_id)
            } else {
                None::<u64>
            }),
            final(self).next_id == (if old(self).next_id < u64::MAX {
                old(self).next_id + 1
            } else {
                old(self).next_id as int
            }),
            final(self).players@ == old(self).players@,
            final(self).enemies@ == old(self).enemies@,
            final(self).projectiles@ == old(self).projectiles@,
            final(self).levels@ == old(self).levels@,
    {
        if self.next_id < u64::MAX {
            let id = self.next_id;
            self.next_id = self.next_id + 1;
            Some(id)
        } else {
            None
        }
    }

    /// Destroys the entity `id`, whatever it is; an identifier that no
    /// longer exists is ignored.
    pub fn despawn(&mut self, id: u64)
        ensures
            final(self).next_id == old(self).next_id,
            final(self).players@ == without(old(self).players@, id),
            final(self).enemies@ == without(old(self).enemies@, id),
            final(self).projectiles@ == without(old(self).projectiles@, id),
            final(self).levels@ == without(old(self).levels@, id),
            !final(self).contains(id),
            !old(self).contains(id) ==> final(self).players@ == old(self).players@
                && final(self).enemies@ == old(self).enemies@ && final(self).projectiles@
                == old(self).projectiles@ && final(self).levels@ == old(self).levels@,
    {
        remove_id(&mut self.players, id);
        remove_id(&mut self.enemies, id);
        remove_id(&mut self.projectiles, id);
        remove_id(&mut self.levels, id);
        proof {
            lemma_without_lacks(old(self).players@, id);
            lemma_without_lacks(old(self).enemies@, id);
            lemma_without_lacks(old(self).projectiles@, id);
            lemma_without_lacks(old(self).levels@, id);
            if !old(self).contains(id) {
                lemma_without_absent(old(self).players@, id);
                lemma_without_absent(old(self).enemies@, id);
                lemma_without_absent(old(self).projectiles@, id);
                lemma_without_absent(old(self).levels@, id);
            }
        }
    }
}

pub proof fn lemma_without_lacks<E: Identified>(s: Seq<E>, id: u64)
    ensures
        !has_id(without(s, id), id),
{
    let pred = id_is_not::<E>(id);
    if has_id(without(s, id), id) {
        let f = s.filter(id_is_not::<E>(id));
        let i = choose|i: int| 0 <= i < f.len() && (#[trigger] f[i]).spec_id() == id;
        s.lemma_filter_pred(pred, i);
    }
}

/// Destroying an entity that does not exist leaves the world as it was.
pub proof fn lemma_despawn_absent_is_noop(w: &World, id: u64)
    requires
        !w.contains(id),
    ensures
        without(w.players@, id) == w.players@,
        without(w.enemies@, id) == w.enemies@,
        without(w.projectiles@, id) == w.projectiles@,
        without(w.levels@, id) == w.levels@,
{
    lemma_without_absent(w.players@, id);
    lemma_without_absent(w.enemies@, id);
    lemma_without_absent(w.projectiles@, id);
    lemma_without_absent(w.levels@, id);
}

} // verus!
