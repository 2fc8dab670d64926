use vstd::prelude::*;

use crate::enemy::{is_new_enemy, spawn_enemy};
use crate::events::Channel;
use crate::shared::MAX_TICK_MICROS;
use crate::timer::Timer;
use crate::world::{
    all_levels_ok, ids_taken, lemma_kept_by_filter, retain_marked, LevelEntity, PlayerEntity,
    World,
};

verus! {

/// What an entry of a wave creates.
#[derive(Clone, Copy, Debug, PartialEq, Eq, Structural)]
pub enum SpawnRecipe {
    Enemy,
}

/// A level that can be built on demand.
#[derive(Clone, Copy, Debug, PartialEq, Eq, Structural)]
pub enum LevelRecipe {
    First,
    Second,
}

#[derive(Clone, Copy, Debug, PartialEq, Eq, Structural)]
pub struct EnemySpawn {
    pub sub_wave_position: i32,
    pub spawn_function: SpawnRecipe,
    /// Horizontal position (milli-units).
    pub spawn_position: i64,
}

#[derive(Clone, Debug)]
pub struct Wave {
    pub current_sub_wave: i32,
    pub enemy_spawns: Vec<EnemySpawn>,
}

/// Largest magnitude of a spawn position (milli-units).
pub const SPAWN_LIMIT: i64 = 500_000_000_000;

/// Entries that belong to sub-wave `n`.
pub open spec fn at_position(n: i32) -> spec_fn(EnemySpawn) -> bool {
    |e: EnemySpawn| e.sub_wave_position == n
}

/// Entries not yet passed once the counter stands at `n`.
pub open spec fn not_before(n: i32) -> spec_fn(EnemySpawn) -> bool {
    |e: EnemySpawn| e.sub_wave_position >= n
}

/// The sub-wave counter after one step (it stops at the largest `i32`).
pub open spec fn next_sub_wave(n: i32) -> i32 {
    if n < i32::MAX {
        (n + 1) as i32
    } else {
        n
    }
}

impl Wave {
    pub open spec fn wf(&self) -> bool {
        forall|i: int|
            0 <= i < self.enemy_spawns@.len() ==> -SPAWN_LIMIT <= (
            #[trigger] self.enemy_spawns@[i]).spawn_position <= SPAWN_LIMIT
    }

    /// A wave is done once nothing is left to spawn.
    pub fn is_done(&self) -> (r: bool)
        ensures
            r == (self.enemy_spawns@.len() == 0),
    {
        self.enemy_spawns.len() == 0
    }

    /// Dispatches the current sub-wave: returns every entry at the counter's
    /// position, in order, moves the counter on, and drops every entry whose
    /// position is now behind it.
    pub fn advance(&mut self) -> (r: Vec<EnemySpawn>)
        requires
            old(self).wf(),
        ensures
            final(self).wf(),
            r@ == old(self).enemy_spawns@.filter(at_position(old(self).current_sub_wave)),
            final(self).current_sub_wave == next_sub_wave(old(self).current_sub_wave),
            final(self).enemy_spawns@ == old(self).enemy_spawns@.filter(
                not_before(final(self).current_sub_wave),
            ),
    {
        let ghost s0 = self.enemy_spawns@;
        let n = self.current_sub_wave;
        let next: i32 = if n < i32::MAX {
            n + 1
        } else {
            n
        };
        let mut out: Vec<EnemySpawn> = Vec::new();
        let mut rest: Vec<EnemySpawn> = Vec::new();
        let mut i: usize = 0;
        while i < self.enemy_spawns.len()
            invariant
                0 <= i <= s0.len(),
                self.enemy_spawns@ == s0,
                s0 == old(self).enemy_spawns@,
                n == old(self).current_sub_wave,
                next == next_sub_wave(n),
                out@ == s0.subrange(0, i as int).filter(at_position(n)),
                rest@ == s0.subrange(0, i as int).filter(not_before(next)),
            decreases s0.len() - i,
        {
            let e = self.enemy_spawns[i];
            assert(s0.subrange(0, i + 1) =~= s0.subrange(0, i as int).push(e));
            proof {
                s0.subrange(0, i as int).lemma_filter_push(e, at_position(n));
                s0.subrange(0, i as int).lemma_filter_push(e, not_before(next));
            }
            if e.sub_wave_position == n {
                out.push(e);
            }
            if e.sub_wave_position >= next {
                rest.push(e);
            }
            i = i + 1;
        }
        assert(s0.subrange(0, s0.len() as int) =~= s0);
        self.current_sub_wave = next;
        self.enemy_spawns = rest;
        assert(self.wf()) by {
            assert forall|j: int| 0 <= j < self.enemy_spawns@.len() implies -SPAWN_LIMIT <= (
            #[trigger] self.enemy_spawns@[j]).spawn_position <= SPAWN_LIMIT by {
                s0.lemma_filter_contains_rev(not_before(next), self.enemy_spawns@[j]);
            }
        }
        out
    }
}

#[derive(Clone, Debug)]
pub struct Level {
    pub warmup_timer: Timer,
    pub wave_timer: Timer,
    pub current_wave: Option<Wave>,
    /// Waves still to come; the last one plays first.
    pub waves: Vec<Wave>,
    pub next_level_fn: Option<LevelRecipe>,
}

impl Level {
    pub open spec fn wf(&self) -> bool {
        self.warmup_timer.wf() && self.wave_timer.wf() && (self.current_wave.is_some()
            ==> self.current_wave.unwrap().wf()) && forall|i: int|
            0 <= i < self.waves@.len() ==> (#[trigger] self.waves@[i]).wf()
    }
}

/// Whether the level's current wave is retired this turn: it has nothing
/// left to spawn and no enemy is left anywhere in the world.
pub open spec fn retires(l: Level, no_enemies: bool) -> bool {
    l.current_wave.is_some() && l.current_wave.unwrap().enemy_spawns@.len() == 0 && no_enemies
}

/// A wave with an entry still to dispatch is never retired, whatever
/// enemies are left: after any scheduling turn the level still has a
/// current wave.
pub proof fn lemma_pending_wave_not_retired(o: Level, n: Level, no_enemies: bool, d: Seq<EnemySpawn>)
    requires
        schedule_turn(o, n, no_enemies, d),
        o.current_wave.is_some(),
        o.current_wave.unwrap().enemy_spawns@.len() > 0,
    ensures
        !retires(o, no_enemies),
        n.current_wave.is_some(),
{
}

/// The level's state after the retire-or-pop part of a turn, as the
/// current wave, the waves left and the wave timer.
pub open spec fn after_rotation(l: Level, no_enemies: bool) -> (Option<Wave>, Seq<Wave>, Timer) {
    if l.current_wave.is_some() {
        if retires(l, no_enemies) {
            (None, l.waves@, Timer { elapsed: 0, finished: false, just_finished: false, ..l.wave_timer })
        } else {
            (l.current_wave, l.waves@, l.wave_timer)
        }
    } else if l.waves@.len() > 0 {
        (Some(l.waves@.last()), l.waves@.drop_last(), l.wave_timer)
    } else {
        (None, l.waves@, l.wave_timer)
    }
}

/// Whether the turn announces a new wave.
pub open spec fn announces(l: Level) -> bool {
    l.warmup_timer.finished && l.current_wave.is_none() && l.waves@.len() > 0
}

/// Whether the turn dispatches a sub-wave.
pub open spec fn dispatches(l: Level, no_enemies: bool) -> bool {
    let r = after_rotation(l, no_enemies);
    l.warmup_timer.finished && r.2.finished && r.0.is_some()
}

/// One scheduling turn of a level, as a relation between the level before
/// (`o`) and after (`n`) and the entries `d` it dispatched. Nothing happens
/// before warm-up ends. Then a finished wave is retired (resetting the wave
/// timer) or, with no current wave, the last wave left becomes current.
/// Then, when the wave timer has just completed an interval, the current
/// wave dispatches its next sub-wave.
pub open spec fn schedule_turn(o: Level, n: Level, no_enemies: bool, d: Seq<EnemySpawn>) -> bool {
    &&& n.warmup_timer == o.warmup_timer
    &&& n.next_level_fn == o.next_level_fn
    &&& if !o.warmup_timer.finished {
        &&& n.wave_timer == o.wave_timer
        &&& n.current_wave == o.current_wave
        &&& n.waves@ == o.waves@
        &&& d.len() == 0
    } else {
        let r = after_rotation(o, no_enemies);
        &&& n.wave_timer == r.2
        &&& n.waves@ == r.1
        &&& if dispatches(o, no_enemies) {
            let w = r.0.unwrap();
            &&& d == w.enemy_spawns@.filter(at_position(w.current_sub_wave))
            &&& n.current_wave.is_some()
            &&& n.current_wave.unwrap().current_sub_wave == next_sub_wave(w.current_sub_wave)
            &&& n.current_wave.unwrap().enemy_spawns@ == w.enemy_spawns@.filter(
                not_before(next_sub_wave(w.current_sub_wave)),
            )
        } else {
            &&& n.current_wave == r.0
            &&& d.len() == 0
        }
    }
}

/// One scheduling turn of a level (see `schedule_turn`); `no_enemies` says
/// whether the world holds no enemy. Returns the entries to spawn; a new
/// current wave is announced on `next_wave`.
pub fn schedule_level(level: &mut Level, no_enemies: bool, next_wave: &mut Channel<NextWaveEvent>)
    -> (d: Vec<EnemySpawn>)
    requires
        old(level).wf(),
        old(next_wave).wf(),
    ensures
        final(level).wf(),
        schedule_turn(*old(level), *final(level), no_enemies, d@),
        final(next_wave).wf(),
        final(next_wave).first == old(next_wave).first,
        final(next_wave).previous == old(next_wave).previous,
        old(next_wave).end() < u64::MAX ==> final(next_wave).events@ == (if announces(
            *old(level),
        ) {
            old(next_wave).events@.push(NextWaveEvent)
        } else {
            old(next_wave).events@
        }),
        !announces(*old(level)) ==> final(next_wave).events@ == old(next_wave).events@,
        final(next_wave).end() >= old(next_wave).end(),
{
    if !level.warmup_timer.finished {
        return Vec::new();
    }
    let cur = level.current_wave.take();
    match cur {
        Some(w) => {
            if w.is_done() && no_enemies {
                level.current_wave = None;
                level.wave_timer.reset();
            } else {
                level.current_wave = Some(w);
            }
        },
        None => {
            level.current_wave = level.waves.pop();
            if level.current_wave.is_some() {
                next_wave.send(NextWaveEvent);
            }
        },
    }
    if !level.wave_timer.finished {
        return Vec::new();
    }
    let cur = level.current_wave.take();
    match cur {
        Some(mut w) => {
            let d = w.advance();
            level.current_wave = Some(w);
            d
        },
        None => Vec::new(),
    }
}

pub open spec fn spawn_ok(e: EnemySpawn) -> bool {
    -SPAWN_LIMIT <= e.spawn_position <= SPAWN_LIMIT
}

/// Carries out the entries `d` in order: each recipe is built at its
/// horizontal position, with consecutive identifiers while they last.
pub fn spawn_entries(world: &mut World, d: &Vec<EnemySpawn>)
    requires
        old(world).wf(),
        forall|k: int| 0 <= k < d@.len() ==> spawn_ok(#[trigger] d@[k]),
    ensures
        final(world).wf(),
        ({
            let t = ids_taken(old(world).next_id, d@.len() as int);
            &&& final(world).next_id == old(world).next_id + t
            &&& final(world).enemies@.len() == old(world).enemies@.len() + t
            &&& forall|k: int|
                0 <= k < t ==> is_new_enemy(
                    #[trigger] final(world).enemies@[old(world).enemies@.len() + k],
                    (old(world).next_id + k) as u64,
                    d@[k].spawn_position,
                )
        }),
        final(world).enemies@.subrange(0, old(world).enemies@.len() as int)
            == old(world).enemies@,
        final(world).players@ == old(world).players@,
        final(world).projectiles@ == old(world).projectiles@,
        final(world).levels@ == old(world).levels@,
{
    let ghost e0 = world.enemies@;
    let ghost n0 = world.next_id;
    let mut k: usize = 0;
    while k < d.len()
        invariant
            0 <= k <= d@.len(),
            forall|q: int| 0 <= q < d@.len() ==> spawn_ok(#[trigger] d@[q]),
            world.wf(),
            e0 == old(world).enemies@,
            n0 == old(world).next_id,
            world.next_id == n0 + ids_taken(n0, k as int),
            world.enemies@.len() == e0.len() + ids_taken(n0, k as int),
            world.enemies@.subrange(0, e0.len() as int) == e0,
            forall|q: int|
                0 <= q < ids_taken(n0, k as int) ==> is_new_enemy(
                    #[trigger] world.enemies@[e0.len() + q],
                    (n0 + q) as u64,
                    d@[q].spawn_position,
                ),
            world.players@ == old(world).players@,
            world.projectiles@ == old(world).projectiles@,
            world.levels@ == old(world).levels@,
        decreases d@.len() - k,
    {
        let e = d[k];
        assert(spawn_ok(d@[k as int]));
        let ghost pre = world.enemies@;
        match e.spawn_function {
            SpawnRecipe::Enemy => spawn_enemy(world, e.spawn_position),
        }
        proof {
            if world.enemies@.len() > pre.len() {
                assert forall|q: int| 0 <= q < e0.len() implies world.enemies@[q] == pre[q] by {
                    assert(world.enemies@.drop_last()[q] == world.enemies@[q]);
                }
                assert forall|q: int| 0 <= q < ids_taken(n0, k + 1) implies is_new_enemy(
                    #[trigger] world.enemies@[e0.len() + q],
                    (n0 + q) as u64,
                    d@[q].spawn_position,
                ) by {
                    if q < ids_taken(n0, k as int) {
                        assert(world.enemies@.drop_last()[e0.len() + q] == pre[e0.len() + q]);
                    }
                }
            }
            assert(world.enemies@.subrange(0, e0.len() as int) =~= e0);
        }
        k = k + 1;
    }
}

/// Whether some scheduling turn leads from `o` to `n` that saw no enemy
/// only if there was none at the start, and saw enemies only if there are
/// some at the end; for the first level, exactly what there was at the start.
pub open spec fn scheduled(
    o: Level,
    n: Level,
    none_at_start: bool,
    some_at_end: bool,
    first: bool,
) -> bool {
    exists|b: bool, d: Seq<EnemySpawn>|
        #[trigger] schedule_turn(o, n, b, d) && (b ==> none_at_start) && (!b ==> some_at_end) && (
        first ==> b == none_at_start)
}

/// A scheduling turn leads from `o` to `n`, and the enemies it dispatched
/// were created, in order and with consecutive identifiers from `first_id`
/// while they last, after the enemies `before`.
pub open spec fn turn_and_spawns(
    o: Level,
    n: Level,
    no_enemies: bool,
    before: Seq<crate::world::EnemyEntity>,
    after: Seq<crate::world::EnemyEntity>,
    first_id: u64,
    last_id: u64,
) -> bool {
    exists|d: Seq<EnemySpawn>|
        #[trigger] schedule_turn(o, n, no_enemies, d) && last_id == first_id + ids_taken(
            first_id,
            d.len() as int,
        ) && after.len() == before.len() + ids_taken(first_id, d.len() as int) && forall|k: int|
            0 <= k < ids_taken(first_id, d.len() as int) ==> is_new_enemy(
                #[trigger] after[before.len() + k],
                (first_id + k) as u64,
                d[k].spawn_position,
            )
}

/// How many of the levels announce a new wave this turn.
pub open spec fn announcements(ls: Seq<LevelEntity>) -> int
    decreases ls.len(),
{
    if ls.len() == 0 {
        0
    } else {
        announcements(ls.drop_last()) + if announces(ls.last().level) {
            1int
        } else {
            0
        }
    }
}

proof fn lemma_announcements_prefix(ls: Seq<LevelEntity>, j: int)
    requires
        0 <= j <= ls.len(),
    ensures
        0 <= announcements(ls.subrange(0, j)) <= announcements(ls),
    decreases ls.len(),
{
    if j < ls.len() {
        let d = ls.drop_last();
        assert(d.subrange(0, j) =~= ls.subrange(0, j));
        lemma_announcements_prefix(d, j);
    } else {
        assert(ls.subrange(0, j) =~= ls);
        if ls.len() > 0 {
            lemma_announcements_prefix(ls.drop_last(), ls.len() - 1);
            assert(ls.drop_last().subrange(0, ls.len() - 1) =~= ls.drop_last());
        }
    }
}

/// What one run of `level_spawner` does.
pub open spec fn level_spawner_effect(
    w0: World,
    w1: World,
    nw0: Channel<NextWaveEvent>,
    nw1: Channel<NextWaveEvent>,
) -> bool {
    &&& w1.wf()
    &&& nw1.wf()
    &&& w1.levels@.len() == w0.levels@.len()
    &&& forall|i: int| 0 <= i < w0.levels@.len() ==> (#[trigger] w1.levels@[i]).id ==
        w0.levels@[i].id
    &&& forall|i: int| #![trigger w1.levels@[i]] 0 <= i < w0.levels@.len() ==>
        scheduled(w0.levels@[i].level, w1.levels@[i].level, w0.enemies@.len() == 0,
        w1.enemies@.len() > 0, i == 0)
    &&& w0.levels@.len() == 1 ==> turn_and_spawns(w0.levels@[0].level, w1.levels@[0].level,
        w0.enemies@.len() == 0, w0.enemies@, w1.enemies@, w0.next_id, w1.next_id)
    &&& nw0.end() + announcements(w0.levels@) <= u64::MAX ==> nw1.events@ == nw0.events@ +
        Seq::new(announcements(w0.levels@) as nat, |k: int| NextWaveEvent)
    &&& nw1.first == nw0.first
    &&& nw1.previous == nw0.previous
    &&& w1.next_id >= w0.next_id
    &&& w1.enemies@.len() >= w0.enemies@.len()
    &&& w1.enemies@.subrange(0, w0.enemies@.len() as int) == w0.enemies@
    &&& w1.players@ == w0.players@
    &&& w1.projectiles@ == w0.projectiles@
}

/// Runs the scheduling turn of every level, in order, spawning what each
/// dispatches; a level sees the enemies that exist at its turn, and each
/// level that takes up a new wave announces it.
pub fn level_spawner(world: &mut World, next_wave: &mut Channel<NextWaveEvent>)
    requires
        old(world).wf(),
        old(next_wave).wf(),
    ensures
        level_spawner_effect(*old(world), *final(world), *old(next_wave), *final(next_wave)),
{
    let ghost l0 = world.levels@;
    let ghost e0 = world.enemies@;
    let ghost n0 = world.next_id;
    let ghost ev0 = next_wave.events@;
    let ghost mut bs: Seq<bool> = Seq::empty();
    let ghost mut ds: Seq<Seq<EnemySpawn>> = Seq::empty();
    let mut i: usize = 0;
    while i < world.levels.len()
        invariant
            0 <= i <= l0.len(),
            world.levels@.len() == l0.len(),
            l0 == old(world).levels@,
            e0 == old(world).enemies@,
            n0 == old(world).next_id,
            ev0 == old(next_wave).events@,
            world.wf(),
            next_wave.wf(),
            next_wave.first == old(next_wave).first,
            next_wave.previous == old(next_wave).previous,
            world.next_id >= n0,
            world.enemies@.len() >= e0.len(),
            world.enemies@.subrange(0, e0.len() as int) == e0,
            bs.len() == i,
            ds.len() == i,
            forall|j: int| 0 <= j < l0.len() ==> (#[trigger] world.levels@[j]).id == l0[j].id,
            forall|j: int| i <= j < l0.len() ==> #[trigger] world.levels@[j] == l0[j],
            forall|j: int|
                #![trigger world.levels@[j]]
                0 <= j < i ==> schedule_turn(l0[j].level, world.levels@[j].level, bs[j], ds[j])
                    && (bs[j] ==> e0.len() == 0) && (!bs[j] ==> world.enemies@.len() > 0) && (j
                    == 0 ==> bs[j] == (e0.len() == 0)),
            l0.len() == 1 && i == 1 ==> world.next_id == n0 + ids_taken(n0, ds[0].len() as int)
                && world.enemies@.len() == e0.len() + ids_taken(n0, ds[0].len() as int)
                && forall|k: int|
                0 <= k < ids_taken(n0, ds[0].len() as int) ==> is_new_enemy(
                    #[trigger] world.enemies@[e0.len() + k],
                    (n0 + k) as u64,
                    ds[0][k].spawn_position,
                ),
            i == 0 ==> world.enemies@ == e0 && world.next_id == n0,
            old(next_wave).end() + announcements(l0) <= u64::MAX ==> next_wave.events@ == ev0
                + Seq::new(announcements(l0.subrange(0, i as int)) as nat, |k: int| NextWaveEvent),
            world.players@ == old(world).players@,
            world.projectiles@ == old(world).projectiles@,
        decreases l0.len() - i,
    {
        let no_enemies = world.enemies.len() == 0;
        assert(no_enemies ==> e0.len() == 0) by {
            if no_enemies {
                assert(world.enemies@.subrange(0, e0.len() as int).len() == e0.len());
            }
        }
        let ghost pre_levels = world.levels@;
        let ghost lv = world.levels@[i as int].level;
        assert(lv.wf());
        let ghost ev_pre = next_wave.events@;
        proof {
            lemma_announcements_prefix(l0, i + 1);
            lemma_announcements_prefix(l0, i as int);
            assert(l0.subrange(0, i + 1).drop_last() =~= l0.subrange(0, i as int));
            assert(l0.subrange(0, i + 1).last() == l0[i as int]);
        }
        let ghost room = old(next_wave).end() + announcements(l0) <= u64::MAX;
        proof {
            if room {
                assert(next_wave.end() == old(next_wave).end() + announcements(l0.subrange(0, i as int)));
                assert(announces(lv) ==> next_wave.end() < u64::MAX);
            }
        }
        let d = schedule_level(&mut world.levels[i].level, no_enemies, next_wave);
        proof {
            if room {
                if announces(lv) {
                    assert(next_wave.events@ == ev_pre.push(NextWaveEvent));
                } else {
                    assert(next_wave.events@ == ev_pre);
                }
                assert(next_wave.events@ =~= ev0 + Seq::new(
                    announcements(l0.subrange(0, i + 1)) as nat,
                    |k: int| NextWaveEvent,
                ));
            }
        }
        assert(all_levels_ok(world.levels@)) by {
            assert forall|j: int| 0 <= j < world.levels@.len() implies (
            #[trigger] world.levels@[j]).level.wf() by {
                if j != i {
                    assert(world.levels@[j] == pre_levels[j]);
                }
            }
        }
        assert forall|k: int| 0 <= k < d@.len() implies spawn_ok(#[trigger] d@[k]) by {
            if dispatches(lv, no_enemies) {
                let w = after_rotation(lv, no_enemies).0.unwrap();
                assert(w.wf());
                w.enemy_spawns@.lemma_filter_contains_rev(at_position(w.current_sub_wave), d@[k]);
            }
        }
        let ghost e_mid = world.enemies@;
        spawn_entries(world, &d);
        proof {
            bs = bs.push(no_enemies);
            ds = ds.push(d@);
            assert(world.enemies@.subrange(0, e0.len() as int) =~= e_mid.subrange(
                0,
                e0.len() as int,
            )) by {
                assert forall|q: int| 0 <= q < e0.len() implies world.enemies@[q] == e_mid[q] by {
                    assert(world.enemies@.subrange(0, e_mid.len() as int)[q] == world.enemies@[q]);
                }
            }
        }
        i = i + 1;
    }
    proof {
        assert(l0.subrange(0, l0.len() as int) =~= l0);
        assert forall|j: int|
            #![trigger world.levels@[j]]
            0 <= j < l0.len() implies scheduled(
                l0[j].level,
                world.levels@[j].level,
                e0.len() == 0,
                world.enemies@.len() > 0,
                j == 0,
            ) by {
            assert(schedule_turn(l0[j].level, world.levels@[j].level, bs[j], ds[j]));
        }
        if l0.len() == 1 {
            assert(schedule_turn(l0[0].level, world.levels@[0].level, e0.len() == 0, ds[0]));
        }
    }
}

/// What one run of `level_timers` does.
pub open spec fn level_timers_effect(w0: World, w1: World, dt: u64) -> bool {
    &&& w1.wf()
    &&& w1.levels@.len() == w0.levels@.len()
    &&& forall|i: int|
        0 <= i < w0.levels@.len() ==> {
            let o = #[trigger] w0.levels@[i];
            let n = w1.levels@[i];
            let warm = o.level.warmup_timer.ticked(dt as int);
            &&& n.id == o.id
            &&& n.level.warmup_timer == warm
            &&& n.level.wave_timer == (if warm.finished {
                o.level.wave_timer.ticked(dt as int)
            } else {
                o.level.wave_timer
            })
            &&& n.level.current_wave == o.level.current_wave
            &&& n.level.waves == o.level.waves
            &&& n.level.next_level_fn == o.level.next_level_fn
        }
    &&& w1.players@ == w0.players@
    &&& w1.enemies@ == w0.enemies@
    &&& w1.projectiles@ == w0.projectiles@
    &&& w1.next_id == w0.next_id
}

/// Advances every level's warm-up timer, and its wave timer once warm-up is over.
pub fn level_timers(world: &mut World, dt: u64)
    requires
        old(world).wf(),
        dt <= MAX_TICK_MICROS,
    ensures
        level_timers_effect(*old(world), *final(world), dt),
{
    let ghost l0 = world.levels@;
    let mut i: usize = 0;
    while i < world.levels.len()
        invariant
            0 <= i <= l0.len(),
            world.levels@.len() == l0.len(),
            l0 == old(world).levels@,
            all_levels_ok(l0),
            all_levels_ok(world.levels@),
            dt <= MAX_TICK_MICROS,
            forall|j: int|
                0 <= j < i ==> {
                    let o = #[trigger] l0[j];
                    let n = world.levels@[j];
                    let warm = o.level.warmup_timer.ticked(dt as int);
                    &&& n.id == o.id
                    &&& n.level.warmup_timer == warm
                    &&& n.level.wave_timer == (if warm.finished {
                        o.level.wave_timer.ticked(dt as int)
                    } else {
                        o.level.wave_timer
                    })
                    &&& n.level.current_wave == o.level.current_wave
                    &&& n.level.waves == o.level.waves
                    &&& n.level.next_level_fn == o.level.next_level_fn
                },
            forall|j: int| i <= j < l0.len() ==> #[trigger] world.levels@[j] == l0[j],
            world.players@ == old(world).players@,
            world.enemies@ == old(world).enemies@,
            world.projectiles@ == old(world).projectiles@,
            world.next_id == old(world).next_id,
            crate::world::all_players_ok(world.players@),
            crate::world::all_enemies_ok(world.enemies@),
            crate::world::all_projectiles_ok(world.projectiles@),
        decreases l0.len() - i,
    {
        let ghost pre = world.levels@;
        assert(l0[i as int].level.wf());
        world.levels[i].level.warmup_timer.tick(dt);
        if world.levels[i].level.warmup_timer.finished {
            world.levels[i].level.wave_timer.tick(dt);
        }
        assert(all_levels_ok(world.levels@)) by {
            assert forall|j: int| 0 <= j < world.levels@.len() implies (
            #[trigger] world.levels@[j]).level.wf() by {
                if j != i {
                    assert(world.levels@[j] == pre[j]);
                }
            }
        }
        i = i + 1;
    }
}

/// A level is cleared once it has no current wave and no wave left.
pub open spec fn is_cleared() -> spec_fn(LevelEntity) -> bool {
    |e: LevelEntity| e.level.current_wave.is_none() && e.level.waves@.len() == 0
}

pub open spec fn not_cleared() -> spec_fn(LevelEntity) -> bool {
    |e: LevelEntity| !(e.level.current_wave.is_none() && e.level.waves@.len() == 0)
}

/// The win reports for one cleared level: one per player, in order.
pub open spec fn wins_for(l: LevelEntity, ps: Seq<PlayerEntity>) -> Seq<LevelWonEvent> {
    ps.map_values(|p: PlayerEntity| LevelWonEvent(p.player.score, l.level.next_level_fn))
}

/// The win reports for the cleared levels of `ls`, in order.
pub open spec fn win_events(ls: Seq<LevelEntity>, ps: Seq<PlayerEntity>) -> Seq<LevelWonEvent>
    decreases ls.len(),
{
    if ls.len() == 0 {
        Seq::empty()
    } else {
        win_events(ls.drop_last(), ps) + if (is_cleared())(ls.last()) {
            wins_for(ls.last(), ps)
        } else {
            Seq::empty()
        }
    }
}

proof fn lemma_win_events_prefix(ls: Seq<LevelEntity>, ps: Seq<PlayerEntity>, j: int)
    requires
        0 <= j <= ls.len(),
    ensures
        win_events(ls.subrange(0, j), ps).len() <= win_events(ls, ps).len(),
    decreases ls.len(),
{
    if j < ls.len() {
        let d = ls.drop_last();
        assert(d.subrange(0, j) =~= ls.subrange(0, j));
        lemma_win_events_prefix(d, ps, j);
    } else {
        assert(ls.subrange(0, j) =~= ls);
    }
}

/// What one run of `level_win` does.
pub open spec fn level_win_effect(
    w0: World,
    w1: World,
    won0: Channel<LevelWonEvent>,
    won1: Channel<LevelWonEvent>,
) -> bool {
    &&& w1.wf()
    &&& won1.wf()
    &&& won1.first == won0.first
    &&& won1.previous == won0.previous
    &&& w1.levels@ == w0.levels@.filter(not_cleared())
    &&& won0.end() + win_events(w0.levels@, w0.players@).len() <= u64::MAX ==> won1.events@ ==
        won0.events@ + win_events(w0.levels@, w0.players@)
    &&& won1.end() >= won0.end()
    &&& w1.players@ == w0.players@
    &&& w1.enemies@ == w0.enemies@
    &&& w1.projectiles@ == w0.projectiles@
    &&& w1.next_id == w0.next_id
}

/// Removes every cleared level and reports, for every player, its score
/// together with the level to build next. (All the reports are made
/// unless the channel's numbering runs out.)
pub fn level_win(world: &mut World, won: &mut Channel<LevelWonEvent>)
    requires
        old(world).wf(),
        old(won).wf(),
    ensures
        level_win_effect(*old(world), *final(world), *old(won), *final(won)),
{
    let ghost l0 = world.levels@;
    let ghost ps = world.players@;
    let ghost base = won.events@;
    let mut keep: Vec<bool> = Vec::new();
    let mut i: usize = 0;
    while i < world.levels.len()
        invariant
            0 <= i <= l0.len(),
            world.levels@ == l0,
            world.players@ == ps,
            l0 == old(world).levels@,
            ps == old(world).players@,
            base == old(won).events@,
            won.wf(),
            won.first == old(won).first,
            won.previous == old(won).previous,
            won.end() >= old(won).end(),
            keep@.len() == i,
            forall|j: int| 0 <= j < i ==> #[trigger] keep@[j] == (not_cleared())(l0[j]),
            old(won).end() + win_events(l0, ps).len() <= u64::MAX ==> won.events@ == base
                + win_events(l0.subrange(0, i as int), ps),
        decreases l0.len() - i,
    {
        let cleared = world.levels[i].level.current_wave.is_none()
            && world.levels[i].level.waves.len() == 0;
        assert(l0.subrange(0, i + 1).drop_last() =~= l0.subrange(0, i as int));
        assert(l0.subrange(0, i + 1).last() == l0[i as int]);
        let ghost room = old(won).end() + win_events(l0, ps).len() <= u64::MAX;
        proof {
            lemma_win_events_prefix(l0, ps, i + 1);
        }
        if cleared {
            let next = world.levels[i].level.next_level_fn;
            let ghost mid = won.events@;
            assert(win_events(l0.subrange(0, i + 1), ps) =~= win_events(l0.subrange(0, i as int), ps)
                + wins_for(l0[i as int], ps));
            let mut k: usize = 0;
            while k < world.players.len()
                invariant
                    0 <= k <= ps.len(),
                    world.players@ == ps,
                    won.wf(),
                    won.first == old(won).first,
                    won.previous == old(won).previous,
                    won.end() >= old(won).end(),
                    next == l0[i as int].level.next_level_fn,
                    room ==> won.events@ == mid + wins_for(l0[i as int], ps.subrange(0, k as int)),
                    room ==> mid == base + win_events(l0.subrange(0, i as int), ps),
                    room ==> old(won).end() + win_events(l0.subrange(0, i + 1), ps).len() <= u64::MAX,
                    win_events(l0.subrange(0, i + 1), ps).len() == win_events(l0.subrange(0, i as int), ps).len() + ps.len(),
                    base == old(won).events@,
                    0 <= i < l0.len(),
                decreases ps.len() - k,
            {
                proof {
                    if room {
                        assert(won.events@.len() == base.len() + win_events(l0.subrange(0, i as int), ps).len() + k);
                        assert(won.end() == old(won).end() + win_events(l0.subrange(0, i as int), ps).len() + k);
                        assert(won.end() < u64::MAX);
                    }
                }
                won.send(LevelWonEvent(world.players[k].player.score, next));
                assert(ps.subrange(0, k + 1) =~= ps.subrange(0, k as int).push(ps[k as int]));
                proof {
                    if room {
                        assert(wins_for(l0[i as int], ps.subrange(0, k + 1)) =~= wins_for(
                            l0[i as int],
                            ps.subrange(0, k as int),
                        ).push(LevelWonEvent(ps[k as int].player.score, next)));
                        assert(won.events@ =~= mid + wins_for(
                            l0[i as int],
                            ps.subrange(0, k + 1),
                        ));
                    }
                }
                k = k + 1;
            }
            assert(ps.subrange(0, ps.len() as int) =~= ps);
            proof {
                if room {
                    assert(won.events@ =~= base + win_events(l0.subrange(0, i + 1), ps));
                }
            }
        } else {
            assert(win_events(l0.subrange(0, i + 1), ps) =~= win_events(l0.subrange(0, i as int), ps));
        }
        keep.push(!cleared);
        i = i + 1;
    }
    assert(l0.subrange(0, l0.len() as int) =~= l0);
    proof {
        lemma_kept_by_filter(l0, keep@, not_cleared());
    }
    retain_marked(&mut world.levels, &keep);
    assert(all_levels_ok(world.levels@)) by {
        assert forall|j: int| 0 <= j < world.levels@.len() implies (
        #[trigger] world.levels@[j]).level.wf() by {
            l0.lemma_filter_contains_rev(not_cleared(), world.levels@[j]);
        }
    }
}

/// Warm-up before a level's first wave (microseconds).
pub const WARMUP_MICROS: u64 = 2_000_000;

/// Interval between sub-waves (microseconds).
pub const WAVE_INTERVAL_MICROS: u64 = 3_000_000;

/// The four entries of a standard wave: a pair at `-x` and `x` in sub-wave
/// 0, then another pair at the same places in sub-wave 2.
pub open spec fn pair_entries(x: i64, neg_x: i64) -> Seq<EnemySpawn> {
    seq![
        EnemySpawn { sub_wave_position: 0, spawn_function: SpawnRecipe::Enemy, spawn_position: neg_x },
        EnemySpawn { sub_wave_position: 0, spawn_function: SpawnRecipe::Enemy, spawn_position: x },
        EnemySpawn { sub_wave_position: 2, spawn_function: SpawnRecipe::Enemy, spawn_position: neg_x },
        EnemySpawn { sub_wave_position: 2, spawn_function: SpawnRecipe::Enemy, spawn_position: x },
    ]
}

/// A standard wave with its pairs at `-x` and `x`.
pub fn pair_wave(x: i64) -> (w: Wave)
    requires
        0 <= x <= SPAWN_LIMIT,
    ensures
        w.wf(),
        w.current_sub_wave == 0,
        w.enemy_spawns@ == pair_entries(x, (-x) as i64),
{
    let neg_x: i64 = -x;
    let w = Wave {
        current_sub_wave: 0,
        enemy_spawns: vec![
            EnemySpawn { sub_wave_position: 0, spawn_function: SpawnRecipe::Enemy, spawn_position: neg_x },
            EnemySpawn { sub_wave_position: 0, spawn_function: SpawnRecipe::Enemy, spawn_position: x },
            EnemySpawn { sub_wave_position: 2, spawn_function: SpawnRecipe::Enemy, spawn_position: neg_x },
            EnemySpawn { sub_wave_position: 2, spawn_function: SpawnRecipe::Enemy, spawn_position: x },
        ],
    };
    assert(w.enemy_spawns@ =~= pair_entries(x, (-x) as i64));
    w
}

/// Whether `l` is, field by field, the level `recipe` describes (see
/// `build_level`).
pub open spec fn is_level_of(l: Level, recipe: LevelRecipe) -> bool {
    &&& l.warmup_timer == Timer::new_spec(WARMUP_MICROS, false)
    &&& l.wave_timer == Timer::new_spec(WAVE_INTERVAL_MICROS, true)
    &&& l.current_wave.is_none()
    &&& l.waves@.len() == 2
    &&& l.waves@[0].current_sub_wave == 0
    &&& l.waves@[0].enemy_spawns@ == pair_entries(300_000, -300_000i64)
    &&& l.waves@[1].current_sub_wave == 0
    &&& l.waves@[1].enemy_spawns@ == pair_entries(200_000, -200_000i64)
    &&& l.next_level_fn == (match recipe {
        LevelRecipe::First => Some(LevelRecipe::Second),
        LevelRecipe::Second => None,
    })
}

/// The level a recipe describes: two waves, the one with its pairs at
/// ±200 units playing first (the wave list is taken from its end), then
/// the one at ±300. The first level continues with the second; the second
/// is the last.
pub fn build_level(recipe: LevelRecipe) -> (l: Level)
    ensures
        l.wf(),
        is_level_of(l, recipe),
{
    let next = match recipe {
        LevelRecipe::First => Some(LevelRecipe::Second),
        LevelRecipe::Second => None,
    };
    let l = Level {
        warmup_timer: Timer::new(WARMUP_MICROS, false),
        wave_timer: Timer::new(WAVE_INTERVAL_MICROS, true),
        current_wave: None,
        waves: vec![pair_wave(300_000), pair_wave(200_000)],
        next_level_fn: next,
    };
    l
}

/// What one run of `spawn_level` does.
pub open spec fn spawn_level_effect(w0: World, w1: World, recipe: LevelRecipe) -> bool {
    &&& w1.wf()
    &&& w0.next_id < u64::MAX ==> w1.next_id == w0.next_id + 1 && w1.levels@.len() ==
        w0.levels@.len() + 1 && w1.levels@.drop_last() == w0.levels@ && w1.levels@.last().id ==
        w0.next_id && is_level_of(w1.levels@.last().level, recipe)
    &&& w0.next_id == u64::MAX ==> w1.levels@ == w0.levels@ && w1.next_id == w0.next_id
    &&& w1.players@ == w0.players@
    &&& w1.enemies@ == w0.enemies@
    &&& w1.projectiles@ == w0.projectiles@
}

/// Creates the level a recipe describes; nothing is created once
/// identifiers are used up.
pub fn spawn_level(world: &mut World, recipe: LevelRecipe)
    requires
        old(world).wf(),
    ensures
        spawn_level_effect(*old(world), *final(world), recipe),
{
    if let Some(id) = world.fresh_id() {
        let ghost prev = world.levels@;
        world.levels.push(LevelEntity { id, level: build_level(recipe) });
        assert(world.levels@.drop_last() =~= prev);
        assert(all_levels_ok(world.levels@)) by {
            assert forall|j: int| 0 <= j < world.levels@.len() implies (
            #[trigger] world.levels@[j]).level.wf() by {
                if j < prev.len() {
                    assert(world.levels@[j] == prev[j]);
                }
            }
        }
    }
}

/// The level was cleared; carries a player's score and the level to build next.
#[derive(Clone, Copy, Debug, PartialEq, Eq, Structural)]
pub struct LevelWonEvent(pub i32, pub Option<LevelRecipe>);

/// A new wave has started.
#[derive(Clone, Copy, Debug, PartialEq, Eq, Structural)]
pub struct NextWaveEvent;

} // verus!
