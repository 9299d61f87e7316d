//! Reading and changing the game's entities, and the clock the modules go by.
use crate::game::{
    lemma_write_keeps_presence, store, takes_write, write_seq, GameProcess, JavaValue, Readable, Writable,
};
use crate::jvm::{
    array_elements, class_by_name, field_id, object_field, static_object_field, value_field,
    JVM_Control,
};
use std::time::{Duration, SystemTime, SystemTimeError};
use vstd::prelude::*;
use vstd::string::StringSliceAdditionalSpecFns;

verus! {

#[verifier::external_type_specification]
#[verifier::external_body]
pub struct ExSystemTime(SystemTime);

#[verifier::external_type_specification]
#[verifier::external_body]
pub struct ExSystemTimeError(SystemTimeError);

/// `SystemTime::now`: the current wall-clock time. Nothing is claimed of it.
#[verifier::external_body]
fn system_now() -> SystemTime {
    SystemTime::now()
}

/// `SystemTime::duration_since(UNIX_EPOCH)`: how long after the epoch `t`
/// lies, or an error when it lies before. Nothing is claimed of either.
#[verifier::external_body]
fn since_epoch(t: SystemTime) -> Result<Duration, SystemTimeError> {
    t.duration_since(std::time::UNIX_EPOCH)
}

/// `Duration::as_millis`: the whole milliseconds in `d`. Nothing is claimed of
/// it, since a `Duration` is opaque here.
#[verifier::external_body]
fn duration_millis(d: &Duration) -> u128 {
    d.as_millis()
}

/// Milliseconds since the Unix epoch by the system clock; `None` when the
/// clock stands before the epoch.
pub fn now_millis() -> Option<u128> {
    match since_epoch(system_now()) {
        Ok(d) => Some(duration_millis(&d)),
        Err(_) => None,
    }
}

/// The entity a module is locked on, and when it locked on (milliseconds since
/// the epoch).
pub struct LastTarget {
    pub target: u64,
    pub time: u128,
}

impl Default for LastTarget {
    fn default() -> (r: Self)
        ensures
            r.target == 0,
            r.time == 0,
    {
        LastTarget { target: 0, time: 0 }
    }
}

/// Milliseconds from `since` to `now`; `None` when `now` is earlier.
pub open spec fn elapsed_ms(since: u128, now: u128) -> Option<u128> {
    if now < since {
        None
    } else {
        Some((now - since) as u128)
    }
}

impl LastTarget {
    /// Locks on `target` at time `now`.
    pub fn new_at(target: u64, now: u128) -> (r: LastTarget)
        ensures
            r.target == target,
            r.time == now,
    {
        LastTarget { target, time: now }
    }

    /// Locks on `target` now, by the system clock; `None` when the clock stands
    /// before the epoch.
    pub fn new(target: u64) -> (r: Option<LastTarget>)
        ensures
            r matches Some(t) ==> t.target == target,
    {
        let now = now_millis()?;
        Some(LastTarget::new_at(target, now))
    }

    /// Milliseconds since the lock at time `now`; `None` when `now` is before it.
    pub fn elapsed(&self, now: u128) -> (r: Option<u128>)
        ensures
            r == elapsed_ms(self.time, now),
    {
        if now < self.time {
            None
        } else {
            Some(now - self.time)
        }
    }

    /// Milliseconds since the lock, by the system clock; `None` when the clock
    /// stands before the epoch or before the lock.
    pub fn time_since(&self) -> (r: Option<u128>)
        ensures
            r matches Some(d) ==> self.time + d <= u128::MAX,
    {
        let now = now_millis()?;
        self.elapsed(now)
    }
}

/// The time since a lock taken at `now` is, at `now + d`, exactly `d`.
pub proof fn lemma_elapsed_since_lock(target: u64, now: u128, d: u128)
    requires
        now + d <= u128::MAX,
    ensures
        elapsed_ms(LastTarget { target, time: now }.time, (now + d) as u128) == Some(d),
{
}

/// The klass called `name`.
pub open spec fn klass_of<M: Readable>(g: GameProcess<M>, name: &str) -> Option<u64> {
    class_by_name(g.process.memory(), g.jvm_ptr, g.offsets, name.spec_bytes())
}

/// The id of the field `name` with signature `sig` of the klass `k`.
pub open spec fn field_of<M: Readable>(g: GameProcess<M>, k: Option<u64>, name: &str, sig: &str) -> Option<u16> {
    if k is None {
        None
    } else {
        field_id(g.process.memory(), g.jvm_ptr, g.offsets, k->0, name.spec_bytes(), sig.spec_bytes())
    }
}

/// The object the reference field `f` of `oop` points to.
pub open spec fn ref_of<M: Readable>(g: GameProcess<M>, oop: Option<u64>, f: Option<u16>) -> Option<u64> {
    if oop is None || f is None {
        None
    } else {
        object_field(g.process.memory(), g.jvm_ptr, g.offsets, oop->0, f->0)
    }
}

/// The object the static reference field `f` of klass `k` points to.
pub open spec fn static_ref_of<M: Readable>(g: GameProcess<M>, k: Option<u64>, f: Option<u16>) -> Option<u64> {
    if k is None || f is None {
        None
    } else {
        static_object_field(g.process.memory(), g.jvm_ptr, g.offsets, k->0, f->0)
    }
}

/// The primitive field `f` of `oop`.
pub open spec fn val_of<M: Readable, T: JavaValue>(g: GameProcess<M>, oop: Option<u64>, f: Option<u16>) -> Option<T> {
    if oop is None || f is None {
        None
    } else {
        value_field::<T>(g.process.memory(), oop->0, f->0)
    }
}

/// The number of items in the item stack `item`.
pub open spec fn stack_count<M: Readable>(g: GameProcess<M>, item: u64) -> Option<i32> {
    let k = klass_of(g, "com/craftrise/gM");
    val_of::<M, i32>(g, Some(item), field_of(g, k, "a", "I"))
}

/// Reads how many items the stack `item_stack` holds.
pub fn get_stack_count<M: Readable>(item_stack: u64, game: &GameProcess<M>) -> (r: Option<i32>)
    ensures
        r == stack_count(*game, item_stack),
{
    let item_stack_k = game.try_find_class("com/craftrise/gM")?;
    let count_id = game.try_get_field_id(item_stack_k, "a", "I")?;
    game.try_get_value_field(item_stack, count_id)
}

/// Whether the item of the stack `stack` has the durability of a fishing rod
/// (64).
pub open spec fn rod_check<M: Readable>(g: GameProcess<M>, stack: u64) -> Option<bool> {
    let stack_k = klass_of(g, "com/craftrise/gM");
    let item_k = klass_of(g, "com/craftrise/b3");
    let item = ref_of(g, Some(stack), field_of(g, stack_k, "c", "Lcom/craftrise/b3;"));
    let max_damage = val_of::<M, i32>(g, item, field_of(g, item_k, "d", "I"));
    if stack_k is None || item_k is None || max_damage is None {
        None
    } else {
        Some(max_damage->0 == 64)
    }
}

/// Whether the item stack `is` holds a fishing rod.
pub fn is_rod<M: Readable>(is: u64, game: &GameProcess<M>) -> (r: Option<bool>)
    ensures
        r == rod_check(*game, is),
{
    let item_stack = game.try_find_class("com/craftrise/gM")?;
    let item_klass = game.try_find_class("com/craftrise/b3")?;
    let item_field_id = game.try_get_field_id(item_stack, "c", "Lcom/craftrise/b3;")?;
    let max_d_id = game.try_get_field_id(item_klass, "d", "I")?;
    let item = game.try_get_object_field(is, item_field_id)?;
    let x: i32 = game.try_get_value_field(item, max_d_id)?;
    Some(x == 64)
}

/// The item stack in the selected hotbar slot of the player `entity`: the
/// inventory's main array holds 36 stacks, and the selected slot must be one
/// of them.
pub open spec fn held_item<M: Readable>(g: GameProcess<M>, entity: u64) -> Option<u64> {
    let player_k = klass_of(g, "com/craftrise/mg");
    let inventory_k = klass_of(g, "com/craftrise/lU");
    let inventory_f = field_of(g, player_k, "J", "Lcom/craftrise/lU;");
    let main_f = field_of(g, inventory_k, "e", "[Lcom/craftrise/gM;");
    let current_f = field_of(g, inventory_k, "c", "I");
    let inventory = ref_of(g, Some(entity), inventory_f);
    let main = ref_of(g, inventory, main_f);
    let items = if main is None {
        None
    } else {
        array_elements(g.process.memory(), g.jvm_ptr, g.offsets, main->0, 36)
    };
    let current = val_of::<M, i32>(g, inventory, current_f);
    if items is None || current is None || current->0 < 0 || current->0 >= 36 {
        None
    } else {
        Some(items->0[current->0 as int])
    }
}

/// Reads the item stack the player `entity` holds.
pub fn get_held_item<M: Readable>(entity: u64, game: &GameProcess<M>) -> (r: Option<u64>)
    ensures
        r == held_item(*game, entity),
{
    let entity_player_klass = game.try_find_class("com/craftrise/mg")?;
    let inventory_player_klass = game.try_find_class("com/craftrise/lU")?;
    let inventory_field_id = game.try_get_field_id(entity_player_klass, "J", "Lcom/craftrise/lU;")?;
    let main_inv_id = game.try_get_field_id(inventory_player_klass, "e", "[Lcom/craftrise/gM;")?;
    let current_item_id = game.try_get_field_id(inventory_player_klass, "c", "I")?;
    let inventory = game.try_get_object_field(entity, inventory_field_id)?;
    let main_inventory_object = game.try_get_object_field(inventory, main_inv_id)?;
    let items = game.get_object_array_elements(main_inventory_object, 36)?;
    let current_item: i32 = game.try_get_value_field(inventory, current_item_id)?;
    if current_item < 0 || current_item as usize >= items.len() {
        return None;
    }
    Some(items[current_item as usize])
}

/// Whether `entity` is visible: bit 5 (invisible) of the byte in the first
/// watched value of its data watcher is clear.
pub open spec fn visibility<M: Readable>(g: GameProcess<M>, entity: u64) -> Option<bool> {
    let byte_k = klass_of(g, "java/lang/Byte");
    let entity_k = klass_of(g, "com/craftrise/m9");
    let watcher_k = klass_of(g, "com/craftrise/qN");
    let watchable_k = klass_of(g, "com/craftrise/qN$a");
    let byte_value_f = field_of(g, byte_k, "value", "B");
    let values_f = field_of(g, watcher_k, "c", "[Lcom/craftrise/qN$a;");
    let watcher_f = field_of(g, entity_k, "bA", "Lcom/craftrise/qN;");
    let watchable_value_f = field_of(g, watchable_k, "a", "Ljava/lang/Byte;");
    let watcher = ref_of(g, Some(entity), watcher_f);
    let values = ref_of(g, watcher, values_f);
    let flags = if values is None {
        None
    } else {
        array_elements(g.process.memory(), g.jvm_ptr, g.offsets, values->0, 1)
    };
    let boxed = if flags is None {
        None
    } else {
        ref_of(g, Some(flags->0[0]), watchable_value_f)
    };
    let flag = val_of::<M, i8>(g, boxed, byte_value_f);
    if flag is None {
        None
    } else {
        Some(flag->0 & 32i8 == 0)
    }
}

/// Reads whether `entity` is visible.
pub fn is_visible<M: Readable>(entity: u64, game: &GameProcess<M>) -> (r: Option<bool>)
    ensures
        r == visibility(*game, entity),
{
    let byte_klass = game.try_find_class("java/lang/Byte")?;
    let entity_klass = game.try_find_class("com/craftrise/m9")?;
    let data_watcher = game.try_find_class("com/craftrise/qN")?;
    let watchable_klass = game.try_find_class("com/craftrise/qN$a")?;
    let byte_value_id = game.try_get_field_id(byte_klass, "value", "B")?;
    let values_id = game.try_get_field_id(data_watcher, "c", "[Lcom/craftrise/qN$a;")?;
    let data_watcher_id = game.try_get_field_id(entity_klass, "bA", "Lcom/craftrise/qN;")?;
    let watchable_byte_value_id = game.try_get_field_id(watchable_klass, "a", "Ljava/lang/Byte;")?;
    let data_watcher_obj = game.try_get_object_field(entity, data_watcher_id)?;
    let values = game.try_get_object_field(data_watcher_obj, values_id)?;
    let flags = game.get_object_array_elements(values, 1)?;
    let flag_byte_base = flags[0];
    let watchable_byte_value = game.try_get_object_field(flag_byte_base, watchable_byte_value_id)?;
    let flag: i8 = game.try_get_value_field(watchable_byte_value, byte_value_id)?;
    Some(flag & 32i8 == 0)
}

/// The three coordinates of a position, as the bit patterns of the `f64`
/// values the game stores.
#[derive(Clone, Copy)]
pub struct RawPosition {
    pub x: u64,
    pub y: u64,
    pub z: u64,
}

/// The position of `entity` held in the three `D` fields `fx`, `fy`, `fz` of
/// `com/craftrise/m9`.
pub open spec fn position_fields<M: Readable>(g: GameProcess<M>, entity: u64, fx: &str, fy: &str, fz: &str) -> Option<RawPosition> {
    let k = klass_of(g, "com/craftrise/m9");
    let x = val_of::<M, u64>(g, Some(entity), field_of(g, k, fx, "D"));
    let y = val_of::<M, u64>(g, Some(entity), field_of(g, k, fy, "D"));
    let z = val_of::<M, u64>(g, Some(entity), field_of(g, k, fz, "D"));
    if x is None || y is None || z is None {
        None
    } else {
        Some(RawPosition { x: x->0, y: y->0, z: z->0 })
    }
}

/// Reads the three `D` fields `fx`, `fy`, `fz` of `entity`.
fn read_position<M: Readable>(entity: u64, game: &GameProcess<M>, fx: &str, fy: &str, fz: &str) -> (r: Option<RawPosition>)
    ensures
        r == position_fields(*game, entity, fx, fy, fz),
{
    let entity_klass = game.try_find_class("com/craftrise/m9")?;
    let pos_x_id = game.try_get_field_id(entity_klass, fx, "D")?;
    let pos_y_id = game.try_get_field_id(entity_klass, fy, "D")?;
    let pos_z_id = game.try_get_field_id(entity_klass, fz, "D")?;
    let x: u64 = game.try_get_value_field(entity, pos_x_id)?;
    let y: u64 = game.try_get_value_field(entity, pos_y_id)?;
    let z: u64 = game.try_get_value_field(entity, pos_z_id)?;
    Some(RawPosition { x, y, z })
}

/// Reads where `entity` is now.
pub fn get_entity_position<M: Readable>(entity: u64, game: &GameProcess<M>) -> (r: Option<RawPosition>)
    ensures
        r == position_fields(*game, entity, "bE", "aY", "bH"),
{
    read_position(entity, game, "bE", "aY", "bH")
}

/// Reads where `entity` was at the previous game tick.
pub fn get_entity_last_position<M: Readable>(entity: u64, game: &GameProcess<M>) -> (r: Option<RawPosition>)
    ensures
        r == position_fields(*game, entity, "a6", "h", "G"),
{
    read_position(entity, game, "a6", "h", "G")
}

/// The yaw and pitch of `entity`, as the bit patterns of the `f32` values the
/// game stores.
pub open spec fn rotation_fields<M: Readable>(g: GameProcess<M>, entity: u64) -> Option<[u32; 2]> {
    let k = klass_of(g, "com/craftrise/m9");
    let yaw = val_of::<M, u32>(g, Some(entity), field_of(g, k, "bL", "F"));
    let pitch = val_of::<M, u32>(g, Some(entity), field_of(g, k, "N", "F"));
    if yaw is None || pitch is None {
        None
    } else {
        Some([yaw->0, pitch->0])
    }
}

/// Reads the yaw and pitch of `entity`.
pub fn read_rotations<M: Readable>(entity: u64, game: &GameProcess<M>) -> (r: Option<[u32; 2]>)
    ensures
        r == rotation_fields(*game, entity),
{
    let entity_klass = game.try_find_class("com/craftrise/m9")?;
    let yaw_id = game.try_get_field_id(entity_klass, "bL", "F")?;
    let pitch_id = game.try_get_field_id(entity_klass, "N", "F")?;
    let yaw: u32 = game.try_get_value_field(entity, yaw_id)?;
    let pitch: u32 = game.try_get_value_field(entity, pitch_id)?;
    Some([yaw, pitch])
}

/// Sets the yaw and pitch of `entity` to the given bit patterns. The field
/// lookups decide the result. Each of the two writes takes effect exactly
/// when the memory takes it; the client does not look at whether it did.
pub fn w_rotations<M: Writable>(entity: u64, rots: [u32; 2], game: &mut GameProcess<M>) -> (r: Option<()>)
    ensures
        final(game).jvm_ptr == old(game).jvm_ptr,
        final(game).offsets == old(game).offsets,
        ({
            let k = klass_of(*old(game), "com/craftrise/m9");
            let yaw_f = field_of(*old(game), k, "bL", "F");
            let pitch_f = field_of(*old(game), k, "N", "F");
            &&& r is Some <==> (k is Some && yaw_f is Some && pitch_f is Some)
            &&& r is None ==> final(game).process.memory() == old(game).process.memory()
            &&& r is Some ==> final(game).process.memory() == store(
                store(
                    old(game).process.memory(),
                    takes_write(old(game).process, entity + yaw_f->0, 4),
                    entity + yaw_f->0,
                    rots[0].encode(),
                ),
                takes_write(old(game).process, entity + pitch_f->0, 4),
                entity + pitch_f->0,
                rots[1].encode(),
            )
        }),
        forall|a: int, l: nat|
            #[trigger] final(game).process.accepts_write(a, l) == old(game).process.accepts_write(a, l),
{
    let entity_klass = game.try_find_class("com/craftrise/m9")?;
    let yaw_id = game.try_get_field_id(entity_klass, "bL", "F")?;
    let pitch_id = game.try_get_field_id(entity_klass, "N", "F")?;
    let ghost before = game.process.memory();
    let _ = game.write_field(entity, yaw_id, rots[0]);
    proof {
        lemma_write_keeps_presence(before, entity + yaw_id, rots[0].encode(), entity + pitch_id, 4);
    }
    let _ = game.write_field(entity, pitch_id, rots[1]);
    Some(())
}


/// What the right-click modules work on: the client object, the id of its
/// right-click delay field (`cB:I`), the local player, the stack in the
/// player's hand and how many items it holds.
#[derive(Clone, Copy)]
pub struct RightClickContext {
    pub minecraft: u64,
    pub delay_field: u16,
    pub player: u64,
    pub held_item: u64,
    pub count: i32,
}

/// The right-click context as the game's memory gives it.
pub open spec fn right_click_of<M: Readable>(g: GameProcess<M>) -> Option<RightClickContext> {
    let client = klass_of(g, "com/craftrise/client/S");
    let launcher = klass_of(g, "cr/launcher/main/a");
    let mc_f = field_of(g, client, "cj", "Lcom/craftrise/client/S;");
    let player_f = field_of(g, launcher, "q", "Lcom/craftrise/client/fa;");
    let delay_f = field_of(g, client, "cB", "I");
    let mc = static_ref_of(g, client, mc_f);
    let player = static_ref_of(g, launcher, player_f);
    let held = if player is None {
        None
    } else {
        held_item(g, player->0)
    };
    let count = if held is None {
        None
    } else {
        stack_count(g, held->0)
    };
    if delay_f is None || mc is None || count is None {
        None
    } else {
        Some(
            RightClickContext {
                minecraft: mc->0,
                delay_field: delay_f->0,
                player: player->0,
                held_item: held->0,
                count: count->0,
            },
        )
    }
}

/// Reads the right-click context.
pub fn right_click_context<M: Readable>(game: &GameProcess<M>) -> (r: Option<RightClickContext>)
    ensures
        r == right_click_of(*game),
{
    let klass = game.try_find_class("com/craftrise/client/S")?;
    let klass_2 = game.try_find_class("cr/launcher/main/a")?;
    let field_id = game.try_get_field_id(klass, "cj", "Lcom/craftrise/client/S;")?;
    let field_id_2 = game.try_get_field_id(klass_2, "q", "Lcom/craftrise/client/fa;")?;
    let field_id_3 = game.try_get_field_id(klass, "cB", "I")?;
    let minecraft = game.try_get_static_object_field(klass, field_id)?;
    let the_player = game.try_get_static_object_field(klass_2, field_id_2)?;
    let held_item = get_held_item(the_player, game)?;
    let count = get_stack_count(held_item, game)?;
    Some(
        RightClickContext {
            minecraft,
            delay_field: field_id_3,
            player: the_player,
            held_item,
            count,
        },
    )
}

/// The memory after `delay` is written to the right-click delay field that
/// the right-click context of `g` names: the write happens when the memory
/// takes it.
pub open spec fn after_delay_write<M: Writable>(g: GameProcess<M>, delay: i32) -> Map<int, u8> {
    let ctx = right_click_of(g)->0;
    store(
        g.process.memory(),
        takes_write(g.process, ctx.minecraft + ctx.delay_field, 4),
        ctx.minecraft + ctx.delay_field,
        delay.encode(),
    )
}

/// Sets the client's right-click delay to `delay` once the right-click context
/// has been read; `None` when it cannot be, and then nothing is written. The
/// write takes effect exactly when the memory takes it, and then the delay
/// reads back as `delay`.
pub fn set_rc_delay<M: Writable>(game: &mut GameProcess<M>, delay: i32) -> (r: Option<()>)
    ensures
        final(game).jvm_ptr == old(game).jvm_ptr,
        final(game).offsets == old(game).offsets,
        r is Some <==> right_click_of(*old(game)) is Some,
        r is None ==> final(game).process.memory() == old(game).process.memory(),
        r is Some ==> final(game).process.memory() == after_delay_write(*old(game), delay),
        r is Some && takes_write(
            old(game).process,
            right_click_of(*old(game))->0.minecraft + right_click_of(*old(game))->0.delay_field,
            4,
        ) ==> value_field::<i32>(
            final(game).process.memory(),
            right_click_of(*old(game))->0.minecraft,
            right_click_of(*old(game))->0.delay_field,
        ) == Some(delay),
        forall|a: int, l: nat|
            #[trigger] final(game).process.accepts_write(a, l) == old(game).process.accepts_write(a, l),
{
    let ctx = right_click_context(&*game)?;
    let _ = game.write_field(ctx.minecraft, ctx.delay_field, delay);
    Some(())
}

/// Sets the right-click delay to 4 ticks.
pub fn max_rc_delay<M: Writable>(game: &mut GameProcess<M>) -> (r: Option<()>)
    ensures
        final(game).jvm_ptr == old(game).jvm_ptr,
        final(game).offsets == old(game).offsets,
        r is Some <==> right_click_of(*old(game)) is Some,
        r is None ==> final(game).process.memory() == old(game).process.memory(),
        r is Some ==> final(game).process.memory() == after_delay_write(*old(game), 4i32),
        r is Some && takes_write(
            old(game).process,
            right_click_of(*old(game))->0.minecraft + right_click_of(*old(game))->0.delay_field,
            4,
        ) ==> value_field::<i32>(
            final(game).process.memory(),
            right_click_of(*old(game))->0.minecraft,
            right_click_of(*old(game))->0.delay_field,
        ) == Some(4i32),
        forall|a: int, l: nat|
            #[trigger] final(game).process.accepts_write(a, l) == old(game).process.accepts_write(a, l),
{
    set_rc_delay(game, 4)
}

/// Sets the right-click delay to 0, so that the next right click acts at
/// once.
pub fn reset_rc_delay<M: Writable>(game: &mut GameProcess<M>) -> (r: Option<()>)
    ensures
        final(game).jvm_ptr == old(game).jvm_ptr,
        final(game).offsets == old(game).offsets,
        r is Some <==> right_click_of(*old(game)) is Some,
        r is None ==> final(game).process.memory() == old(game).process.memory(),
        r is Some ==> final(game).process.memory() == after_delay_write(*old(game), 0i32),
        r is Some && takes_write(
            old(game).process,
            right_click_of(*old(game))->0.minecraft + right_click_of(*old(game))->0.delay_field,
            4,
        ) ==> value_field::<i32>(
            final(game).process.memory(),
            right_click_of(*old(game))->0.minecraft,
            right_click_of(*old(game))->0.delay_field,
        ) == Some(0i32),
        forall|a: int, l: nat|
            #[trigger] final(game).process.accepts_write(a, l) == old(game).process.accepts_write(a, l),
{
    set_rc_delay(game, 0)
}

/// Resetting the right-click delay is idempotent: on the state one reset left
/// behind, a second reset leaves the memory as it is, as long as the first
/// write did not change what the right-click lookups find.
pub proof fn lemma_reset_rc_delay_idempotent<M: Writable>(g0: GameProcess<M>, g1: GameProcess<M>)
    requires
        right_click_of(g0) is Some,
        g1.process.memory() == after_delay_write(g0, 0),
        forall|a: int, l: nat| #[trigger] g1.process.accepts_write(a, l) == g0.process.accepts_write(a, l),
        right_click_of(g1) == right_click_of(g0),
    ensures
        after_delay_write(g1, 0) == g1.process.memory(),
{
    let ctx = right_click_of(g0)->0;
    let addr = ctx.minecraft + ctx.delay_field;
    let mem0 = g0.process.memory();
    let bytes = 0i32.encode();
    if takes_write(g0.process, addr, 4) {
        lemma_write_keeps_presence(mem0, addr, bytes, addr, 4);
        assert(g1.process.accepts_write(addr, 4));
        let once = write_seq(mem0, addr, bytes);
        assert(write_seq(once, addr, bytes) =~= once);
    } else {
        assert(!takes_write(g1.process, addr, 4));
    }
}

/// A hotbar switch in progress: the player's inventory, the id of its
/// selected-slot field (`c:I`) and the slot selected before the switch.
#[derive(Clone, Copy)]
pub struct SlotSwitch {
    pub inventory: u64,
    pub slot_field: u16,
    pub previous: i32,
}

/// The selected-slot field of the player `entity` and the slot it holds.
pub open spec fn slot_of<M: Readable>(g: GameProcess<M>, entity: u64) -> Option<SlotSwitch> {
    let player_k = klass_of(g, "com/craftrise/mg");
    let inventory_k = klass_of(g, "com/craftrise/lU");
    let inventory_f = field_of(g, player_k, "J", "Lcom/craftrise/lU;");
    let current_f = field_of(g, inventory_k, "c", "I");
    let inventory = ref_of(g, Some(entity), inventory_f);
    let current = val_of::<M, i32>(g, inventory, current_f);
    if current is None {
        None
    } else {
        Some(SlotSwitch { inventory: inventory->0, slot_field: current_f->0, previous: current->0 })
    }
}

/// Starts a switch to hotbar slot 8 for the player `entity`: reads the selected
/// slot and writes 8 in its place (a write that takes effect exactly when the
/// memory takes it, after which the slot reads back as 8). The caller waits
/// and then calls `switch_end` with the result.
pub fn switch_begin<M: Writable>(entity: u64, game: &mut GameProcess<M>) -> (r: Option<SlotSwitch>)
    ensures
        final(game).jvm_ptr == old(game).jvm_ptr,
        final(game).offsets == old(game).offsets,
        r == slot_of(*old(game), entity),
        r is None ==> final(game).process.memory() == old(game).process.memory(),
        r matches Some(s) ==> final(game).process.memory() == store(
            old(game).process.memory(),
            takes_write(old(game).process, s.inventory + s.slot_field, 4),
            s.inventory + s.slot_field,
            8i32.encode(),
        ),
        r matches Some(s) ==> (takes_write(old(game).process, s.inventory + s.slot_field, 4)
            ==> value_field::<i32>(final(game).process.memory(), s.inventory, s.slot_field) == Some(8i32)),
        forall|a: int, l: nat|
            #[trigger] final(game).process.accepts_write(a, l) == old(game).process.accepts_write(a, l),
{
    let entity_player_klass = game.try_find_class("com/craftrise/mg")?;
    let inventory_player_klass = game.try_find_class("com/craftrise/lU")?;
    let inventory_field_id = game.try_get_field_id(entity_player_klass, "J", "Lcom/craftrise/lU;")?;
    let current_item_id = game.try_get_field_id(inventory_player_klass, "c", "I")?;
    let inventory = game.try_get_object_field(entity, inventory_field_id)?;
    let current_item: i32 = game.try_get_value_field(inventory, current_item_id)?;
    let _ = game.write_field(inventory, current_item_id, 8i32);
    Some(SlotSwitch { inventory, slot_field: current_item_id, previous: current_item })
}

/// Ends a switch: selects again the slot that was selected before it. It
/// succeeds exactly when the slot field's address fits in the address space
/// and the memory takes the write there.
pub fn switch_end<M: Writable>(switch: SlotSwitch, game: &mut GameProcess<M>) -> (ok: bool)
    ensures
        ok == takes_write(old(game).process, switch.inventory + switch.slot_field, 4),
        final(game).jvm_ptr == old(game).jvm_ptr,
        final(game).offsets == old(game).offsets,
        ok ==> final(game).process.memory() == write_seq(
            old(game).process.memory(),
            switch.inventory + switch.slot_field,
            switch.previous.encode(),
        ),
        !ok ==> final(game).process.memory() == old(game).process.memory(),
        ok ==> value_field::<i32>(final(game).process.memory(), switch.inventory, switch.slot_field)
            == Some(switch.previous),
{
    game.write_field(switch.inventory, switch.slot_field, switch.previous)
}


/// What the aiming modules start from: the client object, the entity under
/// the crosshair (0 when none) and the local player.
#[derive(Clone, Copy)]
pub struct CrosshairView {
    pub minecraft: u64,
    pub mouse_over_entity: u64,
    pub player: u64,
}

/// The crosshair view as the game's memory gives it; `None` also when the
/// client object is absent or a screen (menu, inventory, chat) is open.
pub open spec fn crosshair_of<M: Readable>(g: GameProcess<M>) -> Option<CrosshairView> {
    let client = klass_of(g, "com/craftrise/client/S");
    let pointed = klass_of(g, "com/craftrise/pV");
    let launcher = klass_of(g, "cr/launcher/main/a");
    let gui_f = field_of(g, client, "bw", "Lcom/craftrise/client/dG;");
    let player_f = field_of(g, launcher, "q", "Lcom/craftrise/client/fa;");
    let entity_f = field_of(g, pointed, "a", "Lcom/craftrise/m9;");
    let object_f = field_of(g, client, "H", "Lcom/craftrise/pV;");
    let mc = static_ref_of(g, client, field_of(g, client, "cj", "Lcom/craftrise/client/S;"));
    if gui_f is None || player_f is None || entity_f is None || object_f is None || mc is None || mc->0 == 0 {
        None
    } else {
        let object = ref_of(g, mc, object_f);
        let gui = ref_of(g, mc, gui_f);
        if object is None || gui is None || gui->0 != 0 {
            None
        } else {
            let entity = if object->0 == 0 {
                Some(0u64)
            } else {
                ref_of(g, object, entity_f)
            };
            let player = static_ref_of(g, launcher, player_f);
            if entity is None || player is None {
                None
            } else {
                Some(CrosshairView { minecraft: mc->0, mouse_over_entity: entity->0, player: player->0 })
            }
        }
    }
}

/// Reads the crosshair view.
pub fn crosshair_view<M: Readable>(game: &GameProcess<M>) -> (r: Option<CrosshairView>)
    ensures
        r == crosshair_of(*game),
{
    let klass = game.try_find_class("com/craftrise/client/S")?;
    let klass_2 = game.try_find_class("com/craftrise/pV")?;
    let klass_3 = game.try_find_class("cr/launcher/main/a")?;
    let field_id_5 = game.try_get_field_id(klass, "bw", "Lcom/craftrise/client/dG;")?;
    let field_id_4 = game.try_get_field_id(klass_3, "q", "Lcom/craftrise/client/fa;")?;
    let field_id_3 = game.try_get_field_id(klass_2, "a", "Lcom/craftrise/m9;")?;
    let field_id_2 = game.try_get_field_id(klass, "H", "Lcom/craftrise/pV;")?;
    let field_id = game.try_get_field_id(klass, "cj", "Lcom/craftrise/client/S;")?;
    let minecraft = game.try_get_static_object_field(klass, field_id)?;
    if minecraft == 0 {
        return None;
    }
    let mouse_over_object = game.try_get_object_field(minecraft, field_id_2)?;
    let gui = game.try_get_object_field(minecraft, field_id_5)?;
    if gui != 0 {
        return None;
    }
    let mut mouse_over_entity: u64 = 0;
    if mouse_over_object != 0 {
        mouse_over_entity = game.try_get_object_field(mouse_over_object, field_id_3)?;
    }
    let the_player = game.try_get_static_object_field(klass_3, field_id_4)?;
    Some(CrosshairView { minecraft, mouse_over_entity, player: the_player })
}

} // verus!
