//! Overrides the fishing rod's pull-back timing.
use crate::game::{store, takes_write, GameProcess, JavaValue, Readable, Writable};
use crate::jvm::{value_field, JVM_Control};
use crate::utils::{right_click_context, right_click_of, LastTarget};
use vstd::prelude::*;

verus! {

/// The rod assist's settings and state. When the right-click delay of a
/// client holding a single-item stack reaches `trigger_point`, and more than
/// `pullback_delay` milliseconds have passed since the last pull-back, it
/// sets the delay to `pullback_point` (when `pullback_enabled`), switches
/// hotbar slots for `switch_delay` milliseconds (when `switch_on_pullback`),
/// and records the time.
pub struct RodAssist {
    pub pullback_enabled: bool,
    pub aimbot_enabled: bool,
    pub pullback_delay: u64,
    pub trigger_point: i32,
    pub pullback_point: i32,
    pub switch_on_pullback: bool,
    pub switch_delay: u64,
    pub last_target: LastTarget,
    pub last_pullback: u128,
    pub last_tick_clicked: bool,
    pub last_held_item: u64,
}

/// What the pull-back part of a tick decides.
#[derive(Debug, PartialEq, Eq, Structural)]
pub enum Pullback {
    /// Nothing to do.
    Idle,
    /// The pull-back happened and its time is recorded.
    Fired,
    /// The delay was overridden; the caller is to switch slots for the player
    /// `player` and then call `pullback_done`.
    SwitchPending { player: u64 },
}

/// The pull-back decision at time `now`; `None` when the tick gives up (a
/// lookup fails or the clock went back).
pub open spec fn pullback_step<M: Readable>(g: GameProcess<M>, rod: RodAssist, now: u128) -> Option<Pullback> {
    let ctx = right_click_of(g);
    if ctx is None {
        None
    } else if ctx->0.count != 1 {
        Some(Pullback::Idle)
    } else {
        let delay = value_field::<i32>(g.process.memory(), ctx->0.minecraft, ctx->0.delay_field);
        if delay is None {
            None
        } else if delay->0 != rod.trigger_point {
            Some(Pullback::Idle)
        } else if now < rod.last_pullback {
            None
        } else if now - rod.last_pullback <= rod.pullback_delay {
            Some(Pullback::Idle)
        } else if rod.pullback_enabled && rod.switch_on_pullback {
            Some(Pullback::SwitchPending { player: ctx->0.player })
        } else {
            Some(Pullback::Fired)
        }
    }
}

impl RodAssist {
    /// The pull-back part of a tick at time `now`. When it fires with
    /// `pullback_enabled` set it writes `pullback_point` to the right-click
    /// delay (a write that takes effect exactly when the memory takes it);
    /// otherwise it writes nothing. On `Fired` it records `now` as the time of the last
    /// pull-back; on `SwitchPending` the caller records it with
    /// `pullback_done` once the switch is over.
    pub fn pullback<M: Writable>(&mut self, game: &mut GameProcess<M>, now: u128) -> (r: Option<Pullback>)
        ensures
            r == pullback_step(*old(game), *old(self), now),
            final(game).jvm_ptr == old(game).jvm_ptr,
            final(game).offsets == old(game).offsets,
            r == Some(Pullback::Fired) ==> *final(self) == (RodAssist { last_pullback: now, ..*old(self) }),
            r != Some(Pullback::Fired) ==> *final(self) == *old(self),
            ({
                let ctx = right_click_of(*old(game))->0;
                if r is Some && r != Some(Pullback::Idle) && old(self).pullback_enabled {
                    final(game).process.memory() == store(
                        old(game).process.memory(),
                        takes_write(old(game).process, ctx.minecraft + ctx.delay_field, 4),
                        ctx.minecraft + ctx.delay_field,
                        old(self).pullback_point.encode(),
                    ) && (takes_write(old(game).process, ctx.minecraft + ctx.delay_field, 4) ==> value_field::<i32>(
                        final(game).process.memory(),
                        ctx.minecraft,
                        ctx.delay_field,
                    ) == Some(old(self).pullback_point))
                } else {
                    final(game).process.memory() == old(game).process.memory()
                }
            }),
    {
        let ctx = right_click_context(&*game)?;
        if ctx.count != 1 {
            return Some(Pullback::Idle);
        }
        let delay: i32 = game.try_get_value_field(ctx.minecraft, ctx.delay_field)?;
        if delay != self.trigger_point {
            return Some(Pullback::Idle);
        }
        if now < self.last_pullback {
            return None;
        }
        if now - self.last_pullback <= self.pullback_delay as u128 {
            return Some(Pullback::Idle);
        }
        if self.pullback_enabled {
            let _ = game.write_field(ctx.minecraft, ctx.delay_field, self.pullback_point);
            if self.switch_on_pullback {
                return Some(Pullback::SwitchPending { player: ctx.player });
            }
        }
        self.last_pullback = now;
        Some(Pullback::Fired)
    }

    /// Records `now` as the time of the last pull-back, once the slot switch
    /// that followed it is over.
    pub fn pullback_done(&mut self, now: u128)
        ensures
            *final(self) == (RodAssist { last_pullback: now, ..*old(self) }),
    {
        self.last_pullback = now;
    }
}


/// After a pull-back recorded at `t1`, the next one fires only more than
/// `pullback_delay` milliseconds later.
pub proof fn lemma_pullbacks_spaced<M: Readable>(g: GameProcess<M>, rod: RodAssist, t1: u128, t2: u128)
    requires
        pullback_step(g, RodAssist { last_pullback: t1, ..rod }, t2) matches Some(p) && p != Pullback::Idle,
    ensures
        t2 - t1 > rod.pullback_delay,
{
}

/// A slot switch is asked for only when the pull-back itself is enabled (and
/// switching is asked for); with the pull-back disabled, a step that fires
/// is a plain `Fired`, whose time is recorded at once.
pub proof fn lemma_switch_only_with_pullback<M: Readable>(g: GameProcess<M>, rod: RodAssist, now: u128)
    ensures
        pullback_step(g, rod, now) matches Some(Pullback::SwitchPending { .. }) ==> rod.pullback_enabled
            && rod.switch_on_pullback,
        !rod.pullback_enabled && (pullback_step(g, rod, now) matches Some(p) && p != Pullback::Idle)
            ==> pullback_step(g, rod, now) == Some(Pullback::Fired),
{
}

/// The pull-back fires whenever it is due: a single-item stack is held, the
/// right-click delay stands at `trigger_point`, and more than
/// `pullback_delay` milliseconds have passed since the last pull-back. It then
/// hands over a slot switch for the player exactly when both the pull-back
/// and the switch are enabled.
pub proof fn lemma_pullback_fires_when_due<M: Readable>(g: GameProcess<M>, rod: RodAssist, now: u128)
    requires
        right_click_of(g) matches Some(ctx) && ctx.count == 1 && value_field::<i32>(
            g.process.memory(),
            ctx.minecraft,
            ctx.delay_field,
        ) == Some(rod.trigger_point),
        rod.last_pullback <= now,
        now - rod.last_pullback > rod.pullback_delay,
    ensures
        pullback_step(g, rod, now) == (if rod.pullback_enabled && rod.switch_on_pullback {
            Some(Pullback::SwitchPending { player: right_click_of(g)->0.player })
        } else {
            Some(Pullback::Fired)
        }),
{
}

} // verus!
