//! Clicks for the player when the crosshair rests on a visible entity.
use crate::game::{GameProcess, Readable};
use crate::jvm::JVM_Control;
use crate::utils::{field_of, is_visible, klass_of, now_millis, ref_of, static_ref_of, visibility};
use vstd::prelude::*;

verus! {

/// The trigger bot's settings and state. `sleep` is the least number of
/// milliseconds between two clicks; `last_clicked` and `last_war` are the
/// times of the last click and of the last click on an entity.
pub struct TriggerBot {
    pub sleep: u64,
    pub enabled: bool,
    pub last_clicked: u128,
    pub last_war: u128,
}

/// What a tick at time `now` decides, with the left button held down when
/// `lbutton` is set. `None`: the tick gives up (a lookup fails, the client or
/// the crosshair target is absent, or the clock went back). `Some(None)`: no
/// click. `Some(Some(e))`: a click, on the entity `e` (0 when the click comes
/// within 2 seconds of the last click on an entity, with none under the
/// crosshair).
pub open spec fn trigger_step<M: Readable>(g: GameProcess<M>, bot: TriggerBot, now: u128, lbutton: bool) -> Option<Option<u64>> {
    if now < bot.last_clicked {
        None
    } else if now - bot.last_clicked <= bot.sleep {
        Some(None)
    } else {
        let client = klass_of(g, "com/craftrise/client/S");
        let pointed = klass_of(g, "com/craftrise/pV");
        let gui_f = field_of(g, client, "bw", "Lcom/craftrise/client/dG;");
        let entity_f = field_of(g, pointed, "a", "Lcom/craftrise/m9;");
        let object_f = field_of(g, client, "H", "Lcom/craftrise/pV;");
        let mc = static_ref_of(g, client, field_of(g, client, "cj", "Lcom/craftrise/client/S;"));
        if gui_f is None || entity_f is None || object_f is None || mc is None || mc->0 == 0 {
            None
        } else {
            let gui = ref_of(g, mc, gui_f);
            if gui is None {
                None
            } else if gui->0 != 0 {
                Some(None)
            } else {
                let object = ref_of(g, mc, object_f);
                if object is None || object->0 == 0 {
                    None
                } else {
                    let entity = ref_of(g, object, entity_f);
                    if entity is None {
                        None
                    } else if entity->0 == 0 && now < bot.last_war {
                        None
                    } else if entity->0 == 0 && now - bot.last_war >= 2000 {
                        Some(None)
                    } else {
                        let visible = if entity->0 == 0 {
                            Some(true)
                        } else {
                            visibility(g, entity->0)
                        };
                        if visible is None {
                            None
                        } else if visible->0 && lbutton {
                            Some(Some(entity->0))
                        } else {
                            Some(None)
                        }
                    }
                }
            }
        }
    }
}

/// The bot's state after a tick at `now` that decided `step`: a click records
/// its time, and, when it was on an entity, the time of the last click on an
/// entity too.
pub open spec fn after_trigger(bot: TriggerBot, step: Option<Option<u64>>, now: u128) -> TriggerBot {
    match step {
        Some(Some(e)) => TriggerBot {
            last_clicked: now,
            last_war: if e != 0 {
                now
            } else {
                bot.last_war
            },
            ..bot
        },
        _ => bot,
    }
}

/// Whether a decided step is a click.
pub open spec fn clicks(step: Option<Option<u64>>) -> Option<bool> {
    match step {
        None => None,
        Some(c) => Some(c is Some),
    }
}

impl TriggerBot {
    /// One tick at time `now`: `Some(true)` when the caller is to click now,
    /// `Some(false)` when not, `None` when the tick gives up.
    pub fn tick_at<M: Readable>(&mut self, game: &GameProcess<M>, now: u128, lbutton: bool) -> (r: Option<bool>)
        ensures
            r == clicks(trigger_step(*game, *old(self), now, lbutton)),
            *final(self) == after_trigger(*old(self), trigger_step(*game, *old(self), now, lbutton), now),
    {
        if now < self.last_clicked {
            return None;
        }
        if now - self.last_clicked <= self.sleep as u128 {
            return Some(false);
        }
        let klass = game.try_find_class("com/craftrise/client/S")?;
        let klass_2 = game.try_find_class("com/craftrise/pV")?;
        let field_id_4 = game.try_get_field_id(klass, "bw", "Lcom/craftrise/client/dG;")?;
        let field_id_3 = game.try_get_field_id(klass_2, "a", "Lcom/craftrise/m9;")?;
        let field_id_2 = game.try_get_field_id(klass, "H", "Lcom/craftrise/pV;")?;
        let field_id = game.try_get_field_id(klass, "cj", "Lcom/craftrise/client/S;")?;
        let minecraft = game.try_get_static_object_field(klass, field_id)?;
        if minecraft == 0 {
            return None;
        }
        let gui = game.try_get_object_field(minecraft, field_id_4)?;
        if gui != 0 {
            return Some(false);
        }
        let mouse_over_object = game.try_get_object_field(minecraft, field_id_2)?;
        if mouse_over_object == 0 {
            return None;
        }
        let mouse_over_entity = game.try_get_object_field(mouse_over_object, field_id_3)?;
        if mouse_over_entity == 0 {
            if now < self.last_war {
                return None;
            }
            if now - self.last_war >= 2000 {
                return Some(false);
            }
        }
        let visible = if mouse_over_entity == 0 {
            true
        } else {
            is_visible(mouse_over_entity, game)?
        };
        if visible && lbutton {
            if mouse_over_entity != 0 {
                self.last_war = now;
            }
            self.last_clicked = now;
            return Some(true);
        }
        Some(false)
    }

    /// One tick by the system clock; `None` also when the clock stands before
    /// the epoch, and then nothing changes. Otherwise the tick is the one of
    /// `tick_at` at the time the clock gave.
    pub fn tick<M: Readable>(&mut self, game: &GameProcess<M>, lbutton: bool) -> (r: Option<bool>)
        ensures
            r is None ==> *final(self) == *old(self),
            r is Some ==> exists|now: u128|
                {
                    &&& r == clicks(#[trigger] trigger_step(*game, *old(self), now, lbutton))
                    &&& *final(self) == after_trigger(
                        *old(self),
                        trigger_step(*game, *old(self), now, lbutton),
                        now,
                    )
                },
    {
        let now = match now_millis() {
            Some(t) => t,
            None => return None,
        };
        self.tick_at(game, now, lbutton)
    }
}


/// A tick that does not click leaves the bot as it was.
pub proof fn lemma_no_click_keeps_state(bot: TriggerBot, step: Option<Option<u64>>, now: u128)
    requires
        !(step matches Some(Some(_))),
    ensures
        after_trigger(bot, step, now) == bot,
{
}

/// The bot clicks only while the left button is held down.
pub proof fn lemma_click_needs_button<M: Readable>(g: GameProcess<M>, bot: TriggerBot, now: u128, lbutton: bool)
    requires
        trigger_step(g, bot, now, lbutton) matches Some(Some(_)),
    ensures
        lbutton,
{
}

/// Two clicks in a row are more than `sleep` milliseconds apart: after a tick
/// at `t1` that clicks, a tick at `t2` clicks only when `t2 - t1 > sleep`.
pub proof fn lemma_clicks_spaced<M: Readable>(
    g1: GameProcess<M>,
    g2: GameProcess<M>,
    bot: TriggerBot,
    t1: u128,
    t2: u128,
    l1: bool,
    l2: bool,
)
    requires
        trigger_step(g1, bot, t1, l1) matches Some(Some(_)),
        trigger_step(g2, after_trigger(bot, trigger_step(g1, bot, t1, l1), t1), t2, l2) matches Some(
            Some(_),
        ),
    ensures
        t2 - t1 > bot.sleep,
{
}


/// The bot after the first `n` ticks of a run: tick `i` looks at the game
/// `games[i]` at time `times[i]` with the button state `buttons[i]`.
pub open spec fn bot_after<M: Readable>(
    games: Seq<GameProcess<M>>,
    times: Seq<u128>,
    buttons: Seq<bool>,
    bot: TriggerBot,
    n: nat,
) -> TriggerBot
    decreases n,
{
    if n == 0 {
        bot
    } else {
        let prev = bot_after(games, times, buttons, bot, (n - 1) as nat);
        let i = n - 1;
        after_trigger(prev, trigger_step(games[i], prev, times[i], buttons[i]), times[i])
    }
}

/// Tick `i` of the run clicks.
pub open spec fn clicks_at<M: Readable>(
    games: Seq<GameProcess<M>>,
    times: Seq<u128>,
    buttons: Seq<bool>,
    bot: TriggerBot,
    i: nat,
) -> bool {
    trigger_step(games[i as int], bot_after(games, times, buttons, bot, i), times[i as int], buttons[i as int]) matches Some(
        Some(_),
    )
}

/// Along a run, the bot keeps its settings, and after a click at tick `i`
/// the time of the last click is at least that tick's time.
proof fn lemma_run_state<M: Readable>(
    games: Seq<GameProcess<M>>,
    times: Seq<u128>,
    buttons: Seq<bool>,
    bot: TriggerBot,
    i: nat,
    n: nat,
)
    requires
        i < n,
        clicks_at(games, times, buttons, bot, i),
    ensures
        bot_after(games, times, buttons, bot, n).sleep == bot.sleep,
        bot_after(games, times, buttons, bot, n).last_clicked >= times[i as int],
    decreases n,
{
    lemma_run_keeps_sleep(games, times, buttons, bot, n);
    if n > i + 1 {
        lemma_run_state(games, times, buttons, bot, i, (n - 1) as nat);
    }
}

/// Along a run, the bot keeps its `sleep` setting.
proof fn lemma_run_keeps_sleep<M: Readable>(
    games: Seq<GameProcess<M>>,
    times: Seq<u128>,
    buttons: Seq<bool>,
    bot: TriggerBot,
    n: nat,
)
    ensures
        bot_after(games, times, buttons, bot, n).sleep == bot.sleep,
    decreases n,
{
    if n > 0 {
        lemma_run_keeps_sleep(games, times, buttons, bot, (n - 1) as nat);
    }
}

/// In any run of ticks, however long and whatever the game shows at each,
/// two ticks that click are more than `sleep` milliseconds apart.
pub proof fn lemma_run_clicks_spaced<M: Readable>(
    games: Seq<GameProcess<M>>,
    times: Seq<u128>,
    buttons: Seq<bool>,
    bot: TriggerBot,
    i: nat,
    j: nat,
)
    requires
        i < j,
        clicks_at(games, times, buttons, bot, i),
        clicks_at(games, times, buttons, bot, j),
    ensures
        times[j as int] - times[i as int] > bot.sleep,
{
    lemma_run_state(games, times, buttons, bot, i, j);
}

} // verus!
