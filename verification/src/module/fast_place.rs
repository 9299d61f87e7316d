//! Lets blocks be placed on every tick the right button is held.
use crate::game::{store, takes_write, GameProcess, JavaValue, Writable};
use crate::jvm::value_field;
use crate::utils::{right_click_context, right_click_of};
use vstd::prelude::*;

verus! {

/// The fast-place module. With `disable_on_rod` set it leaves the delay alone
/// while the held stack holds a single item (a fishing rod, a bow, ...).
pub struct FastPlace {
    pub enabled: bool,
    pub disable_on_rod: bool,
    pub last_tick_item_count: i32,
}

impl FastPlace {
    /// One tick: reads the right-click context and then writes 0 to the
    /// client's right-click delay, unless `disable_on_rod` is set and the held
    /// stack holds exactly one item. `None` when the context cannot be read,
    /// and then nothing is written; the write takes effect exactly when the
    /// memory takes it, and then the delay reads back as 0.
    pub fn tick<M: Writable>(&mut self, game: &mut GameProcess<M>) -> (r: Option<()>)
        ensures
            *final(self) == *old(self),
            final(game).jvm_ptr == old(game).jvm_ptr,
            final(game).offsets == old(game).offsets,
            r is Some <==> right_click_of(*old(game)) is Some,
            r is None ==> final(game).process.memory() == old(game).process.memory(),
            r is Some ==> ({
                let ctx = right_click_of(*old(game))->0;
                if !old(self).disable_on_rod || ctx.count != 1 {
                    final(game).process.memory() == store(
                        old(game).process.memory(),
                        takes_write(old(game).process, ctx.minecraft + ctx.delay_field, 4),
                        ctx.minecraft + ctx.delay_field,
                        0i32.encode(),
                    ) && (takes_write(old(game).process, ctx.minecraft + ctx.delay_field, 4) ==> value_field::<i32>(
                        final(game).process.memory(),
                        ctx.minecraft,
                        ctx.delay_field,
                    ) == Some(0i32))
                } else {
                    final(game).process.memory() == old(game).process.memory()
                }
            }),
    {
        let ctx = right_click_context(&*game)?;
        if !self.disable_on_rod {
            let _ = game.write_field(ctx.minecraft, ctx.delay_field, 0i32);
            return Some(());
        }
        if ctx.count != 1 {
            let _ = game.write_field(ctx.minecraft, ctx.delay_field, 0i32);
        }
        Some(())
    }
}

} // verus!
