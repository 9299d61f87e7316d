use hestia::game::{GameProcess, JvmOffsets, MemoryImage, Readable};
use hestia::jvm::{hashcode, JVM_Control};
use hestia::module::fast_place::FastPlace;
use hestia::module::rod_assist::{Pullback, RodAssist};
use hestia::module::trigger_bot::TriggerBot;
use hestia::utils::{
    get_entity_last_position, get_entity_position, get_held_item, get_stack_count, is_rod,
    is_visible, max_rc_delay, read_rotations, reset_rc_delay, right_click_context, switch_begin,
    switch_end, w_rotations, LastTarget,
};
use std::collections::HashMap;

const BASE: u64 = 0x1000;
const SIZE: usize = 0x40000;
const JVM: u64 = 0x1000;
const LOADER_WORD: u64 = 0x1234_5600;

fn offsets() -> JvmOffsets {
    JvmOffsets {
        system_class_loader: 0x00,
        symbol_table_seed: 0x08,
        symbol_table: 0x10,
        system_dictionary: 0x18,
        use_compressed_oops: 0x20,
        compressed_oops_base: 0x28,
        compressed_oops_shift: 0x30,
        use_compressed_class_pointers: 0x38,
        compressed_class_pointers_base: 0x40,
        compressed_class_pointers_shift: 0x48,
        klass_constants: 0x08,
        klass_fields: 0x10,
        klass_fields_count: 0x18,
        klass_interfaces: 0x20,
        klass_super: 0x28,
        klass_java_mirror: 0x30,
        cp_base: 0x40,
        array_base: 0x10,
    }
}

/// A hand-built image of a JVM's structures.
struct Fake {
    mem: Vec<u8>,
    next: u64,
    buckets: u64,
    dict_buckets: u64,
    symbols: HashMap<String, u64>,
}

impl Fake {
    fn new() -> Fake {
        let mut f = Fake {
            mem: vec![0; SIZE],
            next: BASE + 0x100,
            buckets: 0,
            dict_buckets: 0,
            symbols: HashMap::new(),
        };
        let table = f.grab(16);
        f.buckets = f.grab(8 * 16);
        f.put64(table, 16);
        f.put64(table + 8, f.buckets);
        f.put64(JVM + 0x10, table);
        let dict = f.grab(16);
        f.dict_buckets = f.grab(8 * 16);
        f.put64(dict, 16);
        f.put64(dict + 8, f.dict_buckets);
        f.put64(JVM + 0x18, dict);
        let loader = f.grab(8);
        f.put64(loader, LOADER_WORD);
        f.put64(JVM, loader);
        f
    }

    fn grab(&mut self, n: u64) -> u64 {
        let a = self.next;
        self.next += (n + 7) & !7;
        a
    }

    fn put(&mut self, addr: u64, bytes: &[u8]) {
        let off = (addr - BASE) as usize;
        self.mem[off..off + bytes.len()].copy_from_slice(bytes);
    }

    fn put64(&mut self, addr: u64, v: u64) {
        self.put(addr, &v.to_le_bytes());
    }

    fn put32(&mut self, addr: u64, v: u32) {
        self.put(addr, &v.to_le_bytes());
    }

    fn put16(&mut self, addr: u64, v: u16) {
        self.put(addr, &v.to_le_bytes());
    }

    fn symbol(&mut self, name: &str) -> u64 {
        if let Some(s) = self.symbols.get(name) {
            return *s;
        }
        let sym = self.grab(8 + name.len() as u64);
        self.put16(sym, name.len() as u16);
        self.put32(sym + 4, hashcode(name).rotate_left(7));
        self.put(sym + 8, name.as_bytes());
        let hash = hashcode(name);
        let slot = self.buckets + (hash as u64 % 16) * 8;
        let head = self.get64(slot);
        let entry = self.grab(0x18);
        self.put32(entry, hash);
        self.put64(entry + 8, head);
        self.put64(entry + 0x10, sym);
        self.put64(slot, entry);
        self.symbols.insert(name.to_string(), sym);
        sym
    }

    fn get64(&self, addr: u64) -> u64 {
        let off = (addr - BASE) as usize;
        u64::from_le_bytes(self.mem[off..off + 8].try_into().unwrap())
    }

    fn get32(&self, addr: u64) -> u32 {
        let off = (addr - BASE) as usize;
        u32::from_le_bytes(self.mem[off..off + 4].try_into().unwrap())
    }

    /// A klass with the given fields (name, signature, byte offset), interfaces
    /// and superclass, filed in the dictionary under the system loader.
    fn class(&mut self, name: &str, fields: &[(&str, &str, u16)], interfaces: &[u64], sup: u64) -> u64 {
        let sym = self.symbol(name);
        let klass = self.grab(0x40);
        let constants = self.grab(0x40 + 16 * fields.len() as u64);
        let table = self.grab(4 + 12 * fields.len() as u64);
        for (i, (fname, fsig, off)) in fields.iter().enumerate() {
            let ns = self.symbol(fname);
            let ss = self.symbol(fsig);
            let entry = table + 4 + 12 * i as u64;
            self.put16(entry + 2, (2 * i) as u16);
            self.put16(entry + 4, (2 * i + 1) as u16);
            self.put16(entry + 8, off << 2);
            self.put64(constants + 0x40 + (2 * i as u64) * 8, ns);
            self.put64(constants + 0x40 + (2 * i as u64 + 1) * 8, ss);
        }
        let list = self.grab(8 + 8 * interfaces.len() as u64);
        self.put32(list, interfaces.len() as u32);
        for (j, iface) in interfaces.iter().enumerate() {
            self.put64(list + 8 + 8 * j as u64, *iface);
        }
        let mirror = self.grab(0x80);
        self.put64(klass + 0x08, constants);
        self.put64(klass + 0x10, table);
        self.put64(klass + 0x18, fields.len() as u64);
        self.put64(klass + 0x20, list);
        self.put64(klass + 0x28, sup);
        self.put64(klass + 0x30, mirror);
        let hash = self.get32(sym + 4) ^ (((LOADER_WORD >> 8) & 0x7fff_ffff) as u32);
        let slot = self.dict_buckets + (hash as u64 % 16) * 8;
        let head = self.get64(slot);
        let entry = self.grab(0x18);
        self.put64(entry, hash as u64);
        self.put64(entry + 8, head);
        self.put64(entry + 0x10, klass);
        self.put64(slot, entry);
        klass
    }

    fn mirror(&self, klass: u64) -> u64 {
        self.get64(klass + 0x30)
    }

    fn object(&mut self) -> u64 {
        self.grab(0x80)
    }

    fn array(&mut self, items: &[u64]) -> u64 {
        let a = self.grab(0x10 + 4 * items.len() as u64);
        self.put32(a + 8, items.len() as u32);
        for (i, it) in items.iter().enumerate() {
            self.put32(a + 0x10 + 4 * i as u64, *it as u32);
        }
        a
    }

    fn game(&self) -> GameProcess<MemoryImage> {
        GameProcess::new(MemoryImage::new(BASE, self.mem.clone()).unwrap(), JVM, offsets())
    }
}

fn read_i32(g: &GameProcess<MemoryImage>, addr: u64) -> i32 {
    let b = g.process.read_bytes(addr, 4).unwrap();
    i32::from_le_bytes([b[0], b[1], b[2], b[3]])
}

/// The game world used by the module tests.
struct World {
    fake: Fake,
    minecraft: u64,
    pointed: u64,
    entity: u64,
    player: u64,
    inventory: u64,
    rod_stack: u64,
    block_stack: u64,
    flag_box: u64,
}

const GUI: u16 = 0x10;
const MOUSE_OVER: u16 = 0x14;
const DELAY: u16 = 0x18;
const MC_STATIC: u16 = 0x20;
const PLAYER_STATIC: u16 = 0x20;
const POINTED_ENTITY: u16 = 0x10;

fn world() -> World {
    let mut f = Fake::new();
    let client = f.class(
        "com/craftrise/client/S",
        &[
            ("bw", "Lcom/craftrise/client/dG;", GUI),
            ("H", "Lcom/craftrise/pV;", MOUSE_OVER),
            ("cB", "I", DELAY),
            ("cj", "Lcom/craftrise/client/S;", MC_STATIC),
        ],
        &[],
        0,
    );
    let pv = f.class("com/craftrise/pV", &[("a", "Lcom/craftrise/m9;", POINTED_ENTITY)], &[], 0);
    let launcher = f.class("cr/launcher/main/a", &[("q", "Lcom/craftrise/client/fa;", PLAYER_STATIC)], &[], 0);
    let m9 = f.class(
        "com/craftrise/m9",
        &[
            ("bE", "D", 0x10),
            ("aY", "D", 0x18),
            ("bH", "D", 0x20),
            ("a6", "D", 0x28),
            ("h", "D", 0x30),
            ("G", "D", 0x38),
            ("bL", "F", 0x40),
            ("N", "F", 0x44),
            ("bA", "Lcom/craftrise/qN;", 0x48),
        ],
        &[],
        0,
    );
    let _mg = f.class("com/craftrise/mg", &[("J", "Lcom/craftrise/lU;", 0x4c)], &[], m9);
    let _lu = f.class("com/craftrise/lU", &[("e", "[Lcom/craftrise/gM;", 0x10), ("c", "I", 0x14)], &[], 0);
    let _gm = f.class("com/craftrise/gM", &[("a", "I", 0x10), ("c", "Lcom/craftrise/b3;", 0x14)], &[], 0);
    let _b3 = f.class("com/craftrise/b3", &[("d", "I", 0x10)], &[], 0);
    let _byte = f.class("java/lang/Byte", &[("value", "B", 0x0c)], &[], 0);
    let _qn = f.class("com/craftrise/qN", &[("c", "[Lcom/craftrise/qN$a;", 0x10)], &[], 0);
    let _qna = f.class("com/craftrise/qN$a", &[("a", "Ljava/lang/Byte;", 0x10)], &[], 0);

    let minecraft = f.object();
    let mirror = f.mirror(client);
    f.put32(mirror + MC_STATIC as u64, minecraft as u32);
    let pointed = f.object();
    f.put32(minecraft + MOUSE_OVER as u64, pointed as u32);

    // an entity in the crosshair, visible
    let entity = f.object();
    f.put32(pointed + POINTED_ENTITY as u64, entity as u32);
    let flag_box = f.object();
    f.put(flag_box + 0x0c, &[0u8]);
    let watchable = f.object();
    f.put32(watchable + 0x10, flag_box as u32);
    let values = f.array(&[watchable]);
    let watcher = f.object();
    f.put32(watcher + 0x10, values as u32);
    f.put32(entity + 0x48, watcher as u32);
    f.put64(entity + 0x10, 1.5f64.to_bits());
    f.put64(entity + 0x18, 64.0f64.to_bits());
    f.put64(entity + 0x20, (-3.25f64).to_bits());
    f.put64(entity + 0x28, 1.0f64.to_bits());
    f.put64(entity + 0x30, 63.0f64.to_bits());
    f.put64(entity + 0x38, (-3.0f64).to_bits());
    f.put32(entity + 0x40, 90.0f32.to_bits());
    f.put32(entity + 0x44, (-10.0f32).to_bits());

    // the local player, holding a rod in slot 2
    let player = f.object();
    let lmirror = f.mirror(launcher);
    f.put32(lmirror + PLAYER_STATIC as u64, player as u32);
    let rod_item = f.object();
    f.put32(rod_item + 0x10, 64);
    let block_item = f.object();
    f.put32(block_item + 0x10, 0);
    let rod_stack = f.object();
    f.put32(rod_stack + 0x10, 1);
    f.put32(rod_stack + 0x14, rod_item as u32);
    let block_stack = f.object();
    f.put32(block_stack + 0x10, 32);
    f.put32(block_stack + 0x14, block_item as u32);
    let mut stacks = vec![block_stack; 36];
    stacks[2] = rod_stack;
    let main = f.array(&stacks);
    let inventory = f.object();
    f.put32(inventory + 0x10, main as u32);
    f.put32(inventory + 0x14, 2);
    f.put32(player + 0x4c, inventory as u32);
    let _ = pv;
    World { fake: f, minecraft, pointed, entity, player, inventory, rod_stack, block_stack, flag_box }
}

#[test]
fn finds_symbols_by_name() {
    let mut f = Fake::new();
    let a = f.symbol("alpha");
    let b = f.symbol("beta");
    let g = f.game();
    assert_eq!(g.try_find_symbol("alpha"), Some(a));
    assert_eq!(g.try_find_symbol("beta"), Some(b));
    assert_eq!(g.try_find_symbol("gamma"), None);
}

#[test]
fn symbol_lookup_walks_bucket_chains() {
    let mut f = Fake::new();
    // "a" (97) and "q" (113) fall in the same of 16 buckets
    let a = f.symbol("a");
    let q = f.symbol("q");
    let g = f.game();
    assert_eq!(g.try_find_symbol("a"), Some(a));
    assert_eq!(g.try_find_symbol("q"), Some(q));
}

#[test]
fn symbol_lookup_needs_zero_seed() {
    let mut f = Fake::new();
    f.symbol("alpha");
    f.put64(JVM + 0x08, 5);
    assert_eq!(f.game().try_find_symbol("alpha"), None);
}

#[test]
fn symbol_lookup_refuses_empty_table() {
    let mut f = Fake::new();
    f.symbol("alpha");
    let table = f.get64(JVM + 0x10);
    f.put64(table, 0);
    assert_eq!(f.game().try_find_symbol("alpha"), None);
}

#[test]
fn symbol_lookup_gives_up_on_non_utf8_candidate() {
    let mut f = Fake::new();
    let s = f.symbol("ab");
    // same length and a colliding hash, but bytes that are not UTF-8
    let hash = hashcode("ab");
    let bogus = f.grab(16);
    f.put16(bogus, 2);
    f.put(bogus + 8, &[0xff, 0xfe]);
    let slot = f.buckets + (hash as u64 % 16) * 8;
    let head = f.get64(slot);
    let entry = f.grab(0x18);
    f.put32(entry, hash);
    f.put64(entry + 8, head);
    f.put64(entry + 0x10, bogus);
    f.put64(slot, entry);
    assert_eq!(f.game().try_find_symbol("ab"), None);
    let _ = s;
}

#[test]
fn finds_classes_through_the_system_loader() {
    let mut f = Fake::new();
    let k = f.class("pkg/Thing", &[], &[], 0);
    let other = f.class("pkg/Other", &[], &[], 0);
    let g = f.game();
    assert_eq!(g.try_find_class("pkg/Thing"), Some(k));
    assert_eq!(g.try_find_class("pkg/Other"), Some(other));
    assert_eq!(g.try_find_class("pkg/Missing"), None);
    let loader = g.try_system_class_loader().unwrap();
    assert_eq!(g.try_find_class_from_classloader("pkg/Thing", loader), Some(k));
    // without the loader's bits in the hash the class is not found
    assert_eq!(g.try_find_class_from_classloader("pkg/Thing", 0), None);
}

#[test]
fn finds_fields_locally_in_interfaces_and_superclasses() {
    let mut f = Fake::new();
    let iface = f.class("pkg/I", &[("fromIface", "I", 0x30)], &[], 0);
    let sup = f.class("pkg/Base", &[("fromBase", "J", 0x40)], &[], 0);
    let k = f.class("pkg/Derived", &[("own", "I", 0x10), ("twice", "I", 0x14)], &[iface], sup);
    let g = f.game();
    assert_eq!(g.try_get_field_id(k, "own", "I"), Some(0x10));
    assert_eq!(g.try_get_field_id(k, "twice", "I"), Some(0x14));
    assert_eq!(g.try_get_field_id(k, "fromIface", "I"), Some(0x30));
    assert_eq!(g.try_get_field_id(k, "fromBase", "J"), Some(0x40));
    assert_eq!(g.try_get_field_id(k, "own", "J"), None);
    assert_eq!(g.try_get_field_id(k, "nothing", "I"), None);
    let own = g.try_find_symbol("own").unwrap();
    let sig = g.try_find_symbol("I").unwrap();
    assert_eq!(g.try_find_local_field(k, own, sig), Some(0x10));
    assert_eq!(g.try_find_local_field(sup, own, sig), Some(0));
    let fi = g.try_find_symbol("fromIface").unwrap();
    assert_eq!(g.try_find_interface_field(k, fi, sig), Some(0x30));
    assert_eq!(g.try_find_field(k, fi, sig), Some(0x30));
}

#[test]
fn reads_object_and_value_fields() {
    let mut f = Fake::new();
    let k = f.class("pkg/Thing", &[("ref", "Ljava/lang/Object;", 0x10), ("n", "I", 0x14)], &[], 0);
    let obj = f.object();
    let target = f.object();
    f.put32(obj + 0x10, target as u32);
    f.put32(obj + 0x14, (-7i32) as u32);
    let mirror = f.mirror(k);
    f.put32(mirror + 0x10, obj as u32);
    f.put32(mirror + 0x14, 99);
    let g = f.game();
    assert_eq!(g.try_get_object_field(obj, 0x10), Some(target));
    assert_eq!(g.try_get_value_field::<i32>(obj, 0x14), Some(-7));
    assert_eq!(g.try_get_static_object_field(k, 0x10), Some(obj));
    assert_eq!(g.try_get_static_value_field::<i32>(k, 0x14), Some(99));
    assert_eq!(g.try_get_value_field::<u64>(0xffff_ffff_ffff_fff0, 0x20), None);
}

#[test]
fn plain_lookups_give_the_values_themselves() {
    let mut f = Fake::new();
    let iface = f.class("pkg/I", &[("fromIface", "I", 0x30)], &[], 0);
    let k = f.class("pkg/Thing", &[("ref", "Ljava/lang/Object;", 0x10), ("n", "I", 0x14)], &[iface], 0);
    let obj = f.object();
    let target = f.object();
    f.put32(obj + 0x10, target as u32);
    f.put32(obj + 0x14, (-7i32) as u32);
    let mirror = f.mirror(k);
    f.put32(mirror + 0x10, obj as u32);
    f.put32(mirror + 0x14, 99);
    let g = f.game();
    let loader = g.system_class_loader();
    assert_eq!(Some(loader), g.try_system_class_loader());
    assert_eq!(g.find_class("pkg/Thing"), k);
    assert_eq!(g.find_class_from_classloader("pkg/Thing", loader), k);
    let n = g.find_symbol("n");
    let sig = g.find_symbol("I");
    assert_eq!(Some(n), g.try_find_symbol("n"));
    assert_eq!(g.find_local_field(k, n, sig), 0x14);
    assert_eq!(g.find_field(k, n, sig), 0x14);
    let fi = g.find_symbol("fromIface");
    assert_eq!(g.find_interface_field(k, fi, sig), 0x30);
    assert_eq!(g.find_interface_field(iface, n, sig), 0);
    assert_eq!(g.get_field_id(k, "n", "I"), 0x14);
    assert_eq!(g.get_field_id(k, "fromIface", "I"), 0x30);
    assert_eq!(g.get_object_field(obj, 0x10), target);
    assert_eq!(g.get_value_field::<i32>(obj, 0x14), -7);
    assert_eq!(g.get_static_object_field(k, 0x10), obj);
    assert_eq!(g.get_static_value_field::<i32>(k, 0x14), 99);
    assert_eq!(g.decode_oop(0x1234), 0x1234);
    assert_eq!(g.encode_oop(0x1_0000_1234), 0x1234);
    assert_eq!(g.decode_klass(7), 7);
    assert_eq!(g.encode_klass(7), 7);
}

#[test]
fn reads_values_from_the_game() {
    let mut f = Fake::new();
    let obj = f.object();
    f.put32(obj + 0x14, (-7i32) as u32);
    f.put64(obj + 0x18, 0x1122_3344_5566_7788);
    let g = f.game();
    assert_eq!(g.read::<i32>(obj + 0x14), -7);
    assert_eq!(g.read::<u32>(obj + 0x14), 0xffff_fff9);
    assert_eq!(g.read::<u64>(obj + 0x18), 0x1122_3344_5566_7788);
    assert_eq!(g.read::<u8>(obj + 0x18), 0x88);
}

#[test]
fn reads_object_arrays() {
    let mut f = Fake::new();
    let a = f.array(&[0x2000, 0x3000, 0x4000]);
    let g = f.game();
    assert_eq!(g.get_object_array_elements(a, 3), Some(vec![0x2000, 0x3000, 0x4000]));
    assert_eq!(g.get_object_array_elements(a, 0), Some(vec![]));
    assert_eq!(g.get_object_array_elements(BASE + SIZE as u64 - 0x14, 3), None);
}

#[test]
fn decodes_and_encodes_uncompressed_pointers() {
    let f = Fake::new();
    let g = f.game();
    assert_eq!(g.try_decode_oop(0x1234), Some(0x1234));
    assert_eq!(g.try_encode_oop(0x1_0000_1234), Some(0x1234));
    assert_eq!(g.try_decode_klass(7), Some(7));
    assert_eq!(g.try_encode_klass(7), Some(7));
}

#[test]
fn decodes_and_encodes_compressed_pointers() {
    let mut f = Fake::new();
    f.put(JVM + 0x20, &[1]);
    f.put64(JVM + 0x28, 0x8_0000_0000);
    f.put32(JVM + 0x30, 3);
    f.put(JVM + 0x38, &[1]);
    f.put64(JVM + 0x40, 0);
    f.put32(JVM + 0x48, 3);
    let g = f.game();
    assert_eq!(g.try_decode_oop(0x10), Some(0x8_0000_0080));
    // narrowing adds the base before it truncates and shifts
    assert_eq!(g.try_encode_oop(0x80), Some(0x10));
    assert_eq!(g.try_decode_klass(0x10), Some(0x80));
    assert_eq!(g.try_encode_klass(0x80), Some(0x10));
    assert_eq!(g.try_decode_klass(g.try_encode_klass(0x1238).unwrap()), Some(0x1238));
}

#[test]
fn rejects_out_of_range_shifts() {
    let mut f = Fake::new();
    f.put(JVM + 0x20, &[1]);
    f.put32(JVM + 0x30, 64);
    let g = f.game();
    assert_eq!(g.try_decode_oop(1), None);
    assert_eq!(g.try_encode_oop(1), None);
}

#[test]
fn reads_entities() {
    let w = world();
    let g = w.fake.game();
    let p = get_entity_position(w.entity, &g).unwrap();
    assert_eq!(f64::from_bits(p.x), 1.5);
    assert_eq!(f64::from_bits(p.y), 64.0);
    assert_eq!(f64::from_bits(p.z), -3.25);
    let l = get_entity_last_position(w.entity, &g).unwrap();
    assert_eq!(f64::from_bits(l.x), 1.0);
    assert_eq!(f64::from_bits(l.y), 63.0);
    let r = read_rotations(w.entity, &g).unwrap();
    assert_eq!(f32::from_bits(r[0]), 90.0);
    assert_eq!(f32::from_bits(r[1]), -10.0);
    assert_eq!(is_visible(w.entity, &g), Some(true));
}

#[test]
fn invisible_flag_hides_entities() {
    let mut w = world();
    w.fake.put(w.flag_box + 0x0c, &[0x20]);
    assert_eq!(is_visible(w.entity, &w.fake.game()), Some(false));
    w.fake.put(w.flag_box + 0x0c, &[0xdf]);
    assert_eq!(is_visible(w.entity, &w.fake.game()), Some(true));
}

#[test]
fn reads_the_held_item() {
    let mut w = world();
    let g = w.fake.game();
    assert_eq!(get_held_item(w.player, &g), Some(w.rod_stack));
    assert_eq!(get_stack_count(w.rod_stack, &g), Some(1));
    assert_eq!(get_stack_count(w.block_stack, &g), Some(32));
    assert_eq!(is_rod(w.rod_stack, &g), Some(true));
    assert_eq!(is_rod(w.block_stack, &g), Some(false));
    w.fake.put32(w.inventory + 0x14, 5);
    assert_eq!(get_held_item(w.player, &w.fake.game()), Some(w.block_stack));
    w.fake.put32(w.inventory + 0x14, 36);
    assert_eq!(get_held_item(w.player, &w.fake.game()), None);
    w.fake.put32(w.inventory + 0x14, (-1i32) as u32);
    assert_eq!(get_held_item(w.player, &w.fake.game()), None);
}

#[test]
fn writes_rotations() {
    let w = world();
    let mut g = w.fake.game();
    assert_eq!(w_rotations(w.entity, [45.0f32.to_bits(), 5.0f32.to_bits()], &mut g), Some(()));
    let r = read_rotations(w.entity, &g).unwrap();
    assert_eq!(f32::from_bits(r[0]), 45.0);
    assert_eq!(f32::from_bits(r[1]), 5.0);
}

#[test]
fn sets_the_right_click_delay() {
    let w = world();
    let mut g = w.fake.game();
    let ctx = right_click_context(&g).unwrap();
    assert_eq!(ctx.minecraft, w.minecraft);
    assert_eq!(ctx.player, w.player);
    assert_eq!(ctx.held_item, w.rod_stack);
    assert_eq!(ctx.count, 1);
    assert_eq!(max_rc_delay(&mut g), Some(()));
    assert_eq!(read_i32(&g, w.minecraft + DELAY as u64), 4);
    assert_eq!(reset_rc_delay(&mut g), Some(()));
    assert_eq!(read_i32(&g, w.minecraft + DELAY as u64), 0);
}

#[test]
fn switches_slots_and_back() {
    let w = world();
    let mut g = w.fake.game();
    let s = switch_begin(w.player, &mut g).unwrap();
    assert_eq!(s.previous, 2);
    assert_eq!(read_i32(&g, w.inventory + 0x14), 8);
    assert!(switch_end(s, &mut g));
    assert_eq!(read_i32(&g, w.inventory + 0x14), 2);
}

fn bot() -> TriggerBot {
    TriggerBot { sleep: 80, enabled: true, last_clicked: 0, last_war: 0 }
}

#[test]
fn trigger_bot_clicks_on_visible_entity() {
    let w = world();
    let g = w.fake.game();
    let mut b = bot();
    assert_eq!(b.tick_at(&g, 1000, true), Some(true));
    assert_eq!(b.last_clicked, 1000);
    assert_eq!(b.last_war, 1000);
}

#[test]
fn trigger_bot_waits_between_clicks() {
    let w = world();
    let g = w.fake.game();
    let mut b = bot();
    assert_eq!(b.tick_at(&g, 1000, true), Some(true));
    assert_eq!(b.tick_at(&g, 1080, true), Some(false));
    assert_eq!(b.last_clicked, 1000);
    assert_eq!(b.tick_at(&g, 1081, true), Some(true));
    assert_eq!(b.last_clicked, 1081);
}

#[test]
fn trigger_bot_needs_the_button() {
    let w = world();
    let g = w.fake.game();
    let mut b = bot();
    assert_eq!(b.tick_at(&g, 1000, false), Some(false));
    assert_eq!(b.last_clicked, 0);
}

#[test]
fn trigger_bot_ignores_invisible_and_menus() {
    let mut w = world();
    w.fake.put(w.flag_box + 0x0c, &[0x20]);
    let mut b = bot();
    assert_eq!(b.tick_at(&w.fake.game(), 1000, true), Some(false));
    w.fake.put(w.flag_box + 0x0c, &[0]);
    let gui = w.fake.object();
    w.fake.put32(w.minecraft + GUI as u64, gui as u32);
    assert_eq!(b.tick_at(&w.fake.game(), 1000, true), Some(false));
    assert_eq!(b.last_clicked, 0);
}

#[test]
fn trigger_bot_keeps_clicking_shortly_after_a_hit() {
    let mut w = world();
    let mut b = bot();
    assert_eq!(b.tick_at(&w.fake.game(), 1000, true), Some(true));
    w.fake.put32(w.pointed + POINTED_ENTITY as u64, 0);
    let g = w.fake.game();
    assert_eq!(b.tick_at(&g, 2000, true), Some(true));
    assert_eq!(b.last_war, 1000);
    assert_eq!(b.tick_at(&g, 3000, true), Some(false));
}

#[test]
fn trigger_bot_gives_up_without_target_or_on_clock_skew() {
    let mut w = world();
    let mut b = bot();
    b.last_clicked = 5000;
    assert_eq!(b.tick_at(&w.fake.game(), 1000, true), None);
    b.last_clicked = 0;
    w.fake.put32(w.minecraft + MOUSE_OVER as u64, 0);
    assert_eq!(b.tick_at(&w.fake.game(), 1000, true), None);
}

#[test]
fn fast_place_resets_delay() {
    let mut w = world();
    w.fake.put32(w.minecraft + DELAY as u64, 4);
    let mut g = w.fake.game();
    let mut fp = FastPlace { enabled: true, disable_on_rod: false, last_tick_item_count: 0 };
    assert_eq!(fp.tick(&mut g), Some(()));
    assert_eq!(read_i32(&g, w.minecraft + DELAY as u64), 0);
}

#[test]
fn fast_place_spares_single_items_when_asked() {
    let mut w = world();
    w.fake.put32(w.minecraft + DELAY as u64, 4);
    let mut g = w.fake.game();
    let mut fp = FastPlace { enabled: true, disable_on_rod: true, last_tick_item_count: 0 };
    assert_eq!(fp.tick(&mut g), Some(()));
    assert_eq!(read_i32(&g, w.minecraft + DELAY as u64), 4);
    w.fake.put32(w.inventory + 0x14, 5);
    let mut g = w.fake.game();
    assert_eq!(fp.tick(&mut g), Some(()));
    assert_eq!(read_i32(&g, w.minecraft + DELAY as u64), 0);
}

fn rod(pullback_enabled: bool, switch_on_pullback: bool) -> RodAssist {
    RodAssist {
        pullback_enabled,
        aimbot_enabled: false,
        pullback_delay: 300,
        trigger_point: 3,
        pullback_point: 1,
        switch_on_pullback,
        switch_delay: 50,
        last_target: LastTarget::default(),
        last_pullback: 0,
        last_tick_clicked: false,
        last_held_item: 0,
    }
}

#[test]
fn rod_assist_pulls_back_at_the_trigger_point() {
    let mut w = world();
    w.fake.put32(w.minecraft + DELAY as u64, 3);
    let mut g = w.fake.game();
    let mut r = rod(true, false);
    assert_eq!(r.pullback(&mut g, 1000), Some(Pullback::Fired));
    assert_eq!(read_i32(&g, w.minecraft + DELAY as u64), 1);
    assert_eq!(r.last_pullback, 1000);
}

#[test]
fn rod_assist_waits_between_pullbacks() {
    let mut w = world();
    w.fake.put32(w.minecraft + DELAY as u64, 3);
    let mut g = w.fake.game();
    let mut r = rod(false, false);
    assert_eq!(r.pullback(&mut g, 1000), Some(Pullback::Fired));
    assert_eq!(read_i32(&g, w.minecraft + DELAY as u64), 3);
    assert_eq!(r.pullback(&mut g, 1300), Some(Pullback::Idle));
    assert_eq!(r.pullback(&mut g, 1301), Some(Pullback::Fired));
    assert_eq!(r.last_pullback, 1301);
}

#[test]
fn rod_assist_hands_over_the_switch() {
    let mut w = world();
    w.fake.put32(w.minecraft + DELAY as u64, 3);
    let mut g = w.fake.game();
    let mut r = rod(true, true);
    assert_eq!(r.pullback(&mut g, 1000), Some(Pullback::SwitchPending { player: w.player }));
    assert_eq!(r.last_pullback, 0);
    r.pullback_done(1000);
    assert_eq!(r.last_pullback, 1000);
}

#[test]
fn rod_assist_idles_off_the_trigger_point() {
    let mut w = world();
    w.fake.put32(w.minecraft + DELAY as u64, 2);
    let mut g = w.fake.game();
    let mut r = rod(true, false);
    assert_eq!(r.pullback(&mut g, 1000), Some(Pullback::Idle));
    w.fake.put32(w.inventory + 0x14, 5);
    w.fake.put32(w.minecraft + DELAY as u64, 3);
    let mut g = w.fake.game();
    assert_eq!(r.pullback(&mut g, 1000), Some(Pullback::Idle));
    assert_eq!(r.last_pullback, 0);
}

#[test]
fn reads_the_crosshair() {
    let mut w = world();
    let v = hestia::utils::crosshair_view(&w.fake.game()).unwrap();
    assert_eq!(v.minecraft, w.minecraft);
    assert_eq!(v.mouse_over_entity, w.entity);
    assert_eq!(v.player, w.player);
    w.fake.put32(w.minecraft + MOUSE_OVER as u64, 0);
    let v = hestia::utils::crosshair_view(&w.fake.game()).unwrap();
    assert_eq!(v.mouse_over_entity, 0);
    let gui = w.fake.object();
    w.fake.put32(w.minecraft + GUI as u64, gui as u32);
    assert!(hestia::utils::crosshair_view(&w.fake.game()).is_none());
}

#[test]
fn reset_after_max_leaves_zero_and_repeats_harmlessly() {
    let w = world();
    let mut g = w.fake.game();
    assert_eq!(max_rc_delay(&mut g), Some(()));
    assert_eq!(reset_rc_delay(&mut g), Some(()));
    assert_eq!(read_i32(&g, w.minecraft + DELAY as u64), 0);
    assert_eq!(reset_rc_delay(&mut g), Some(()));
    assert_eq!(read_i32(&g, w.minecraft + DELAY as u64), 0);
}

#[test]
fn trigger_bot_clicks_stay_spaced_over_a_run() {
    let w = world();
    let g = w.fake.game();
    let mut b = bot();
    let mut clicks = Vec::new();
    for t in (1000u128..2000).step_by(10) {
        if b.tick_at(&g, t, true) == Some(true) {
            clicks.push(t);
        }
    }
    assert!(clicks.len() > 5);
    for pair in clicks.windows(2) {
        assert!(pair[1] - pair[0] > 80);
    }
}
