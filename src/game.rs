use vstd::prelude::*;

use crate::enemy::{
    enemy_death, enemy_death_effect, enemy_movement, enemy_movement_effect, EnemyKilledEvent,
};
use crate::events::{Channel, EventCursor};
use crate::level::{
    is_level_of, level_spawner, level_spawner_effect, level_timers, level_timers_effect,
    level_win, level_win_effect, spawn_level, spawn_level_effect, LevelRecipe, LevelWonEvent,
    NextWaveEvent,
};
use crate::player::{
    is_new_player, player_damage, player_damage_effect, player_movement,
    player_movement_effect, player_score, player_score_effect, player_shooting,
    player_shooting_effect, spawn_player,
};
use crate::projectiles::{projectile_system, projectile_system_effect};
use crate::shared::{GameOverEvent, GameState, Input, MAX_TICK_MICROS};
use crate::timer::Timer;
use crate::weapon::{weapon_shooting, weapon_shooting_effect};
use crate::world::World;

verus! {

/// How long a notification stays up (microseconds).
pub const FADE_MICROS: u64 = 3_000_000;

/// Outcome of the session so far.
#[derive(Clone, Copy, Debug, PartialEq, Eq, Structural)]
pub enum WinStatus {
    Playing,
    /// The level was won; carries the level to build next, if any.
    Won(Option<LevelRecipe>),
    Lost,
}

/// The notification on display.
#[derive(Clone, Copy, Debug, PartialEq, Eq, Structural)]
pub enum Notice {
    NextWave,
    /// The game is over; carries the final score.
    GameOver(i32),
    /// A level was won and another follows.
    LevelWon,
    /// The last level was won; carries the final score.
    YouWon(i32),
}

/// Session state behind the notifications.
#[derive(Clone, Copy, Debug, PartialEq, Eq, Structural)]
pub struct GameUi {
    pub win_status: WinStatus,
    pub fade_timer: Timer,
    /// The visible notification, if any.
    pub notice: Option<Notice>,
}

/// What the end of a notification asks for.
#[derive(Clone, Copy, Debug, PartialEq, Eq, Structural)]
pub enum FadeAction {
    Nothing,
    /// Build this level and play on.
    Continue(LevelRecipe),
    /// Go back to the main menu.
    ToMenu,
}

pub open spec fn restarted(t: Timer) -> Timer {
    Timer { elapsed: 0, finished: false, just_finished: false, ..t }
}

/// The session after the notifications of one tick: `waves` new-wave
/// reports, then the game-over reports `over`, then the win reports `won`.
/// A new wave is shown only while playing; the last game-over or win
/// report decides the outcome. Every shown notification restarts the fade.
pub open spec fn notified(
    ui: GameUi,
    waves: int,
    over: Seq<GameOverEvent>,
    won: Seq<LevelWonEvent>,
) -> GameUi {
    let ui1 = if waves > 0 && ui.win_status == WinStatus::Playing {
        GameUi { notice: Some(Notice::NextWave), fade_timer: restarted(ui.fade_timer), ..ui }
    } else {
        ui
    };
    let ui2 = if over.len() > 0 {
        GameUi {
            win_status: WinStatus::Lost,
            notice: Some(Notice::GameOver(over.last().0)),
            fade_timer: restarted(ui1.fade_timer),
        }
    } else {
        ui1
    };
    if won.len() > 0 {
        GameUi {
            win_status: WinStatus::Won(won.last().1),
            notice: Some(
                if won.last().1.is_some() {
                    Notice::LevelWon
                } else {
                    Notice::YouWon(won.last().0)
                },
            ),
            fade_timer: restarted(ui2.fade_timer),
        }
    } else {
        ui2
    }
}

/// What one run of the fade does to the session `u0`, asking for `a`.
pub open spec fn fade_effect(u0: GameUi, u1: GameUi, a: FadeAction, dt: u64) -> bool {
    &&& u1.wf()
    &&& u1.fade_timer == u0.fade_timer.ticked(dt as int)
    &&& !u1.fade_timer.just_finished ==> a == FadeAction::Nothing && u1.notice == u0.notice
        && u1.win_status == u0.win_status
    &&& u1.fade_timer.just_finished ==> u1.notice.is_none() && match u0.win_status {
        WinStatus::Playing => a == FadeAction::Nothing && u1.win_status == WinStatus::Playing,
        WinStatus::Won(Some(c)) => a == FadeAction::Continue(c) && u1.win_status
            == WinStatus::Playing,
        WinStatus::Won(None) => a == FadeAction::ToMenu && u1.win_status == u0.win_status,
        WinStatus::Lost => a == FadeAction::ToMenu && u1.win_status == u0.win_status,
    }
}

impl GameUi {
    pub open spec fn wf(&self) -> bool {
        self.fade_timer.wf()
    }

    pub fn new() -> (r: GameUi)
        ensures
            r.wf(),
            r == (GameUi {
                win_status: WinStatus::Playing,
                fade_timer: Timer::new_spec(FADE_MICROS, false),
                notice: None,
            }),
    {
        GameUi {
            win_status: WinStatus::Playing,
            fade_timer: Timer::new(FADE_MICROS, false),
            notice: None,
        }
    }

    /// Applies the reports of one tick (see `notified`).
    pub fn notify(&mut self, waves: &Vec<NextWaveEvent>, over: &Vec<GameOverEvent>, won: &Vec<LevelWonEvent>)
        requires
            old(self).wf(),
        ensures
            final(self).wf(),
            *final(self) == notified(*old(self), waves@.len() as int, over@, won@),
    {
        if waves.len() > 0 && self.win_status == WinStatus::Playing {
            self.notice = Some(Notice::NextWave);
            self.fade_timer.reset();
        }
        if over.len() > 0 {
            let last = over[over.len() - 1];
            self.win_status = WinStatus::Lost;
            self.notice = Some(Notice::GameOver(last.0));
            self.fade_timer.reset();
        }
        if won.len() > 0 {
            let last = won[won.len() - 1];
            self.win_status = WinStatus::Won(last.1);
            self.notice = Some(
                if last.1.is_some() {
                    Notice::LevelWon
                } else {
                    Notice::YouWon(last.0)
                },
            );
            self.fade_timer.reset();
        }
    }

    /// Runs the fade for `dt` microseconds. When it ends the notification is
    /// hidden, and a finished session asks to continue with the next level
    /// (and plays on) or to go back to the menu.
    pub fn fade(&mut self, dt: u64) -> (a: FadeAction)
        requires
            old(self).wf(),
            dt <= MAX_TICK_MICROS,
        ensures
            fade_effect(*old(self), *final(self), a, dt),
    {
        self.fade_timer.tick(dt);
        if !self.fade_timer.just_finished {
            return FadeAction::Nothing;
        }
        self.notice = None;
        match self.win_status {
            WinStatus::Playing => FadeAction::Nothing,
            WinStatus::Won(Some(c)) => {
                self.win_status = WinStatus::Playing;
                FadeAction::Continue(c)
            },
            WinStatus::Won(None) => FadeAction::ToMenu,
            WinStatus::Lost => FadeAction::ToMenu,
        }
    }
}

/// The session as a new game starts it.
pub open spec fn fresh_session() -> GameUi {
    GameUi {
        win_status: WinStatus::Playing,
        fade_timer: Timer::new_spec(FADE_MICROS, false),
        notice: None,
    }
}

/// Entering the game adds the player and then the first level to the
/// world `o`, each with the next identifier while identifiers last.
pub open spec fn entered(o: World, n: World) -> bool {
    &&& n.enemies@ == o.enemies@
    &&& n.projectiles@ == o.projectiles@
    &&& o.next_id + 2 <= u64::MAX ==> {
        &&& n.next_id == o.next_id + 2
        &&& n.players@.len() == o.players@.len() + 1
        &&& n.players@.drop_last() == o.players@
        &&& is_new_player(n.players@.last(), o.next_id)
        &&& n.levels@.len() == o.levels@.len() + 1
        &&& n.levels@.drop_last() == o.levels@
        &&& n.levels@.last().id == o.next_id + 1
        &&& is_level_of(n.levels@.last().level, LevelRecipe::First)
    }
}

/// Whether the session's fade has just ended on an outcome that returns to
/// the menu.
pub open spec fn asks_menu(ui: GameUi) -> bool {
    ui.fade_timer.just_finished && (ui.win_status == WinStatus::Lost || ui.win_status
        == WinStatus::Won(None))
}

/// The tick boundary from `o` to `a`: a waiting state change takes effect
/// (teardown of the old state, setup of the new one), then every event
/// channel turns over.
pub open spec fn boundary(o: Game, a: Game) -> bool {
    &&& a.state == (match o.pending {
        Some(s) => s,
        None => o.state,
    })
    &&& a.pending.is_none()
    &&& (o.pending.is_none() || o.pending == Some(o.state)) ==> a.world == o.world && a.ui == o.ui
    &&& (o.state == GameState::Game && o.pending == Some(GameState::MainMenu)) ==> a.ui.is_none()
        && a.world.players@.len() == 0 && a.world.enemies@.len() == 0
        && a.world.projectiles@.len() == 0 && a.world.levels@.len() == 0
    &&& (o.state == GameState::MainMenu && o.pending == Some(GameState::Game)) ==> a.ui == Some(
        fresh_session(),
    ) && entered(o.world, a.world)
    &&& turned_over(o.enemy_killed, a.enemy_killed)
    &&& turned_over(o.game_over, a.game_over)
    &&& turned_over(o.level_won, a.level_won)
    &&& turned_over(o.next_wave, a.next_wave)
    &&& a.score_cursor == o.score_cursor
    &&& a.wave_cursor == o.wave_cursor
    &&& a.over_cursor == o.over_cursor
    &&& a.won_cursor == o.won_cursor
}

/// A channel after the tick boundary.
pub open spec fn turned_over<T: Copy>(c0: Channel<T>, c1: Channel<T>) -> bool {
    &&& c1.events@ == c0.events@.subrange(c0.previous as int, c0.events@.len() as int)
    &&& c1.first == c0.first + c0.previous
    &&& c1.previous == c1.events@.len()
}

/// The events a cursor at `c0` reads from `c`.
pub open spec fn unread<T: Copy>(c: Channel<T>, c0: EventCursor) -> Seq<T> {
    c.events@.subrange(c.start_of(c0.next), c.events@.len() as int)
}

/// The game systems of one tick in their fixed order, from `a` (just after
/// the boundary) to `b`, through the worlds `w` and the kill channel `k`
/// between enemy deaths and player damage, with the fade asking for `act`.
pub open spec fn systems_chain(
    a: Game,
    b: Game,
    w: Seq<World>,
    k: Channel<EnemyKilledEvent>,
    act: FadeAction,
    input: Input,
    dt: u64,
) -> bool {
    &&& w.len() == 10
    &&& player_movement_effect(a.world, w[0], input, dt)
    &&& player_shooting_effect(w[0], w[1], input)
    &&& enemy_movement_effect(w[1], w[2], dt)
    &&& weapon_shooting_effect(w[2], w[3], dt)
    &&& projectile_system_effect(w[3], w[4], dt)
    &&& enemy_death_effect(w[4], w[5], a.enemy_killed, k)
    &&& player_damage_effect(w[5], w[6], a.game_over, b.game_over, k, b.enemy_killed, dt)
    &&& player_score_effect(w[6], w[7], b.enemy_killed, a.score_cursor, b.score_cursor)
    &&& level_spawner_effect(w[7], w[8], a.next_wave, b.next_wave)
    &&& level_timers_effect(w[8], w[9], dt)
    &&& level_win_effect(w[9], b.world, a.level_won, b.level_won)
    &&& b.wave_cursor.next == b.next_wave.end()
    &&& b.over_cursor.next == b.game_over.end()
    &&& b.won_cursor.next == b.level_won.end()
    &&& a.ui.is_some() && b.ui.is_some()
    &&& fade_effect(
        notified(
            a.ui.unwrap(),
            unread(b.next_wave, a.wave_cursor).len() as int,
            unread(b.game_over, a.over_cursor),
            unread(b.level_won, a.won_cursor),
        ),
        b.ui.unwrap(),
        act,
        dt,
    )
}

/// One game tick's systems from `a` to `b`; a continuation asked for by
/// the fade is built into the world last (see `tick`).
pub open spec fn game_systems(a: Game, b: Game, input: Input, dt: u64) -> bool {
    exists|w: Seq<World>, k: Channel<EnemyKilledEvent>, act: FadeAction, wb: World|
        #[trigger] systems_chain(a, Game { world: wb, ..b }, w, k, act, input, dt) && match act {
            FadeAction::Continue(c) => spawn_level_effect(wb, b.world, c),
            _ => b.world == wb,
        }
}

/// A state change was requested while another was still waiting.
#[derive(Clone, Copy, Debug, PartialEq, Eq, Structural)]
pub struct StateConflict {
    pub pending: GameState,
    pub requested: GameState,
}

/// The whole game: lifecycle state, world, event channels and the
/// subscribers' cursors.
pub struct Game {
    pub state: GameState,
    /// A requested state change; it takes effect at the next tick.
    pub pending: Option<GameState>,
    pub world: World,
    pub enemy_killed: Channel<EnemyKilledEvent>,
    pub game_over: Channel<GameOverEvent>,
    pub level_won: Channel<LevelWonEvent>,
    pub next_wave: Channel<NextWaveEvent>,
    pub score_cursor: EventCursor,
    pub wave_cursor: EventCursor,
    pub over_cursor: EventCursor,
    pub won_cursor: EventCursor,
    /// Present while in the game state.
    pub ui: Option<GameUi>,
}

impl Game {
    pub open spec fn wf(&self) -> bool {
        &&& self.world.wf()
        &&& self.enemy_killed.wf()
        &&& self.game_over.wf()
        &&& self.level_won.wf()
        &&& self.next_wave.wf()
        &&& (self.ui.is_some() ==> self.ui.unwrap().wf())
        &&& self.ui.is_some() == (self.state == GameState::Game)
    }

    /// A game at the main menu with an empty world.
    pub fn new() -> (g: Game)
        ensures
            g.wf(),
            g.state == GameState::MainMenu,
            g.pending.is_none(),
            g.ui.is_none(),
            g.world.players@.len() == 0,
            g.world.enemies@.len() == 0,
            g.world.projectiles@.len() == 0,
            g.world.levels@.len() == 0,
    {
        Game {
            state: GameState::MainMenu,
            pending: None,
            world: World::new(),
            enemy_killed: Channel::new(),
            game_over: Channel::new(),
            level_won: Channel::new(),
            next_wave: Channel::new(),
            score_cursor: EventCursor::new(),
            wave_cursor: EventCursor::new(),
            over_cursor: EventCursor::new(),
            won_cursor: EventCursor::new(),
            ui: None,
        }
    }

    /// Asks for a state change at the next tick; a second request before
    /// then is refused.
    pub fn request_state(&mut self, next: GameState) -> (r: Result<(), StateConflict>)
        ensures
            old(self).pending.is_none() ==> r.is_ok() && final(self).pending == Some(next),
            old(self).pending.is_some() ==> r == Err::<(), StateConflict>(
                StateConflict { pending: old(self).pending.unwrap(), requested: next },
            ) && final(self).pending == old(self).pending,
            final(self).state == old(self).state,
            final(self).world == old(self).world,
            final(self).ui == old(self).ui,
            final(self).enemy_killed == old(self).enemy_killed,
            final(self).game_over == old(self).game_over,
            final(self).level_won == old(self).level_won,
            final(self).next_wave == old(self).next_wave,
            final(self).score_cursor == old(self).score_cursor,
            final(self).wave_cursor == old(self).wave_cursor,
            final(self).over_cursor == old(self).over_cursor,
            final(self).won_cursor == old(self).won_cursor,
    {
        match self.pending {
            Some(p) => Err(StateConflict { pending: p, requested: next }),
            None => {
                self.pending = Some(next);
                Ok(())
            },
        }
    }

    /// Setup on entering the game: the player, the first level, the session.
    fn enter_game(&mut self)
        requires
            old(self).world.wf(),
        ensures
            final(self).score_cursor == old(self).score_cursor,
            final(self).wave_cursor == old(self).wave_cursor,
            final(self).over_cursor == old(self).over_cursor,
            final(self).won_cursor == old(self).won_cursor,
            final(self).world.wf(),
            final(self).ui.unwrap().wf(),
            final(self).enemy_killed == old(self).enemy_killed,
            final(self).game_over == old(self).game_over,
            final(self).level_won == old(self).level_won,
            final(self).next_wave == old(self).next_wave,
            final(self).state == old(self).state,
            final(self).pending == old(self).pending,
            final(self).ui == Some(fresh_session()),
            entered(old(self).world, final(self).world),
    {
        spawn_player(&mut self.world);
        spawn_level(&mut self.world, LevelRecipe::First);
        self.ui = Some(GameUi::new());
    }

    /// Teardown on leaving the game: every entity made for it goes.
    fn exit_game(&mut self)
        requires
            old(self).world.wf(),
        ensures
            final(self).score_cursor == old(self).score_cursor,
            final(self).wave_cursor == old(self).wave_cursor,
            final(self).over_cursor == old(self).over_cursor,
            final(self).won_cursor == old(self).won_cursor,
            final(self).world.wf(),
            final(self).enemy_killed == old(self).enemy_killed,
            final(self).game_over == old(self).game_over,
            final(self).level_won == old(self).level_won,
            final(self).next_wave == old(self).next_wave,
            final(self).state == old(self).state,
            final(self).pending == old(self).pending,
            final(self).ui.is_none(),
            final(self).world.players@.len() == 0,
            final(self).world.enemies@.len() == 0,
            final(self).world.projectiles@.len() == 0,
            final(self).world.levels@.len() == 0,
            final(self).world.next_id == old(self).world.next_id,
    {
        self.world.players = Vec::new();
        self.world.enemies = Vec::new();
        self.world.projectiles = Vec::new();
        self.world.levels = Vec::new();
        self.ui = None;
    }

    /// Applies a waiting state change: teardown of the old state, then setup
    /// of the new one.
    fn apply_pending(&mut self)
        requires
            old(self).wf(),
        ensures
            final(self).wf(),
            final(self).pending.is_none(),
            final(self).state == (match old(self).pending {
                Some(s) => s,
                None => old(self).state,
            }),
            old(self).pending.is_none() || old(self).pending == Some(old(self).state) ==> final(self).world == old(self).world && final(self).ui == old(self).ui,
            old(self).state == GameState::Game && old(self).pending == Some(GameState::MainMenu)
                ==> final(self).ui.is_none() && final(self).world.players@.len() == 0
                && final(self).world.enemies@.len() == 0 && final(self).world.projectiles@.len()
                == 0 && final(self).world.levels@.len() == 0,
            old(self).state == GameState::MainMenu && old(self).pending == Some(GameState::Game)
                ==> final(self).ui == Some(fresh_session()) && entered(old(self).world, final(self).world),
            final(self).enemy_killed == old(self).enemy_killed,
            final(self).game_over == old(self).game_over,
            final(self).level_won == old(self).level_won,
            final(self).next_wave == old(self).next_wave,
            final(self).score_cursor == old(self).score_cursor,
            final(self).wave_cursor == old(self).wave_cursor,
            final(self).over_cursor == old(self).over_cursor,
            final(self).won_cursor == old(self).won_cursor,
    {
        if let Some(next) = self.pending {
            self.pending = None;
            if next != self.state {
                if self.state == GameState::Game {
                    self.exit_game();
                }
                self.state = next;
                if next == GameState::Game {
                    self.enter_game();
                }
            }
        }
    }

    /// One tick of `dt` microseconds with the keys `input` held. A waiting
    /// state change takes effect first; then the event channels turn over
    /// and the systems of the current state run in their fixed order.
    /// Returns whether the quit combination is held, or the conflict of two
    /// state requests in one tick, at which point the tick stops.
    pub fn tick(&mut self, input: &Input, dt: u64) -> (r: Result<bool, StateConflict>)
        requires
            old(self).wf(),
            dt <= MAX_TICK_MICROS,
        ensures
            final(self).wf(),
            final(self).state == (match old(self).pending {
                Some(s) => s,
                None => old(self).state,
            }),
            r.is_ok() ==> r == Ok::<bool, StateConflict>(input.quit),
            final(self).state == GameState::Game && r.is_ok() && input.escape ==> final(self).pending
                == Some(GameState::MainMenu),
            final(self).state == GameState::Game ==> (r.is_err() == (input.escape && asks_menu(
                final(self).ui.unwrap(),
            ))),
            final(self).state == GameState::Game ==> final(self).ui.is_some() && exists|a: Game|
                #[trigger] boundary(*old(self), a) && game_systems(a, *final(self), *input, dt),
            old(self).state == GameState::MainMenu && final(self).state == GameState::MainMenu
                ==> final(self).world == old(self).world,
            final(self).state == GameState::MainMenu ==> (final(self).pending == (if input.play {
                Some(GameState::Game)
            } else {
                None::<GameState>
            }) && r.is_ok()),
            old(self).state == GameState::Game && old(self).pending == Some(GameState::MainMenu)
                ==> final(self).ui.is_none() && final(self).world.players@.len() == 0
                && final(self).world.enemies@.len() == 0 && final(self).world.projectiles@.len()
                == 0 && final(self).world.levels@.len() == 0,
    {
        self.apply_pending();
        let ghost settled = *self;
        self.enemy_killed.update();
        self.game_over.update();
        self.level_won.update();
        self.next_wave.update();
        if self.state == GameState::MainMenu {
            if input.play {
                let _ = self.request_state(GameState::Game);
            }
            return Ok(input.quit);
        }
        let ghost a = *self;
        assert(boundary(*old(self), a)) by {
            assert(settled.world == a.world);
        }
        player_movement(&mut self.world, input, dt);
        let ghost w0 = self.world;
        player_shooting(&mut self.world, input);
        let ghost w1 = self.world;
        enemy_movement(&mut self.world, dt);
        let ghost w2 = self.world;
        weapon_shooting(&mut self.world, dt);
        let ghost w3 = self.world;
        projectile_system(&mut self.world, dt);
        let ghost w4 = self.world;
        enemy_death(&mut self.world, &mut self.enemy_killed);
        let ghost w5 = self.world;
        let ghost k = self.enemy_killed;
        player_damage(&mut self.world, &mut self.game_over, &mut self.enemy_killed, dt);
        let ghost w6 = self.world;
        player_score(&mut self.world, &self.enemy_killed, &mut self.score_cursor);
        let ghost w7 = self.world;
        if input.escape {
            let req = self.request_state(GameState::MainMenu);
            if let Err(e) = req {
                return Err(e);
            }
        }
        level_spawner(&mut self.world, &mut self.next_wave);
        let ghost w8 = self.world;
        level_timers(&mut self.world, dt);
        let ghost w9 = self.world;
        level_win(&mut self.world, &mut self.level_won);
        let ghost wb = self.world;
        let waves = self.next_wave.read(&mut self.wave_cursor);
        let over = self.game_over.read(&mut self.over_cursor);
        let won = self.level_won.read(&mut self.won_cursor);
        let ghost ws = seq![w0, w1, w2, w3, w4, w5, w6, w7, w8, w9];
        if let Some(mut ui) = self.ui {
            ui.notify(&waves, &over, &won);
            let action = ui.fade(dt);
            self.ui = Some(ui);
            let ghost bb = Game { world: wb, ..*self };
            assert(ws.len() == 10);
            assert(player_movement_effect(a.world, ws[0], *input, dt));
            assert(player_shooting_effect(ws[0], ws[1], *input));
            assert(enemy_movement_effect(ws[1], ws[2], dt));
            assert(weapon_shooting_effect(ws[2], ws[3], dt));
            assert(projectile_system_effect(ws[3], ws[4], dt));
            assert(enemy_death_effect(ws[4], ws[5], a.enemy_killed, k));
            assert(player_damage_effect(ws[5], ws[6], a.game_over, bb.game_over, k, bb.enemy_killed, dt));
            assert(player_score_effect(ws[6], ws[7], bb.enemy_killed, a.score_cursor, bb.score_cursor));
            assert(level_spawner_effect(ws[7], ws[8], a.next_wave, bb.next_wave));
            assert(level_timers_effect(ws[8], ws[9], dt));
            assert(level_win_effect(ws[9], bb.world, a.level_won, bb.level_won));
            assert(waves@ == unread(bb.next_wave, a.wave_cursor));
            assert(over@ == unread(bb.game_over, a.over_cursor));
            assert(won@ == unread(bb.level_won, a.won_cursor));
            assert(systems_chain(a, bb, ws, k, action, *input, dt));
            match action {
                FadeAction::Nothing => {},
                FadeAction::Continue(recipe) => spawn_level(&mut self.world, recipe),
                FadeAction::ToMenu => {
                    let req = self.request_state(GameState::MainMenu);
                    if let Err(e) = req {
                        assert(systems_chain(a, Game { world: wb, ..*self }, ws, k, action, *input, dt));
                        assert(game_systems(a, *self, *input, dt));
                        return Err(e);
                    }
                },
            }
            assert(systems_chain(a, Game { world: wb, ..*self }, ws, k, action, *input, dt));
            assert(game_systems(a, *self, *input, dt));
        }
        Ok(input.quit)
    }
}

/// Whether the keys held ask to quit the program.
pub fn quit_requested(input: &Input) -> (r: bool)
    ensures
        r == input.quit,
{
    input.quit
}

} // verus!
