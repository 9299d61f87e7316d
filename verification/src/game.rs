//! The memory of the game's process, as the rest of the library sees it.
use vstd::bytes::*;
use vstd::prelude::*;

verus! {

/// The bytes at `addr .. addr + len`, when the range lies inside the 64-bit
/// address space and every byte of it is present in `mem`.
pub open spec fn read_seq(mem: Map<int, u8>, addr: int, len: nat) -> Option<Seq<u8>> {
    if 0 <= addr <= u64::MAX && addr + len <= u64::MAX + 1 && (forall|a: int|
        addr <= a < addr + len ==> #[trigger] mem.dom().contains(a)) {
        Some(Seq::new(len, |i: int| mem[addr + i]))
    } else {
        None
    }
}

/// `mem` with `bytes` stored from `addr` on; addresses outside the range keep
/// their bytes, and the set of present addresses is unchanged.
pub open spec fn write_seq(mem: Map<int, u8>, addr: int, bytes: Seq<u8>) -> Map<int, u8> {
    Map::new(
        |a: int| mem.dom().contains(a),
        |a: int|
            if addr <= a < addr + bytes.len() {
                bytes[a - addr]
            } else {
                mem[a]
            },
    )
}

/// Something whose memory can be read: the game's process, or a captured image
/// of part of it.
///
/// An implementation behaves as one fixed map from addresses to bytes
/// between two calls that take it by `&mut`.
pub trait Readable {
    /// The bytes present in this memory, by address.
    spec fn memory(&self) -> Map<int, u8>;

    /// The `len` bytes from `addr` on; `None` when one of them is missing or
    /// the range leaves the address space.
    fn read_bytes(&self, addr: u64, len: usize) -> (r: Option<Vec<u8>>)
        ensures
            match r {
                Some(v) => read_seq(self.memory(), addr as int, len as nat) == Some(v@),
                None => read_seq(self.memory(), addr as int, len as nat) is None,
            },
    ;
}

/// A memory that can also be written.
pub trait Writable: Readable {
    /// Whether this memory takes a write of `len` bytes at `addr` (for a
    /// process: whether those pages may be written). A write does not change
    /// which writes are taken.
    spec fn accepts_write(&self, addr: int, len: nat) -> bool;

    /// Stores `bytes` from `addr` on. It succeeds exactly when the memory
    /// takes the write; then every byte of the range was present and now
    /// holds the new value. When it fails, nothing changed.
    fn write_bytes(&mut self, addr: u64, bytes: &[u8]) -> (ok: bool)
        ensures
            ok == old(self).accepts_write(addr as int, bytes@.len()),
            forall|a: int, l: nat| #[trigger] final(self).accepts_write(a, l) == old(self).accepts_write(a, l),
            ok ==> read_seq(old(self).memory(), addr as int, bytes@.len()) is Some,
            ok ==> final(self).memory() == write_seq(old(self).memory(), addr as int, bytes@),
            !ok ==> final(self).memory() == old(self).memory(),
    ;
}

/// `mem` with `bytes` written at `addr` when `taken`, else `mem` as it was.
pub open spec fn store(mem: Map<int, u8>, taken: bool, addr: int, bytes: Seq<u8>) -> Map<int, u8> {
    if taken {
        write_seq(mem, addr, bytes)
    } else {
        mem
    }
}

/// Whether `p` takes a write of `len` bytes at `addr`: the address lies in the
/// address space, the memory accepts the write there, and every byte of the
/// range is present (so that reading it back gives what was written).
pub open spec fn takes_write<M: Writable>(p: M, addr: int, len: nat) -> bool {
    &&& addr <= u64::MAX
    &&& p.accepts_write(addr, len)
    &&& read_seq(p.memory(), addr, len) is Some
}

/// The memory of a block of `bytes` placed at `base`.
pub open spec fn block_memory(base: int, bytes: Seq<u8>) -> Map<int, u8> {
    Map::new(|a: int| base <= a < base + bytes.len(), |a: int| bytes[a - base])
}

/// A contiguous block of memory starting at `base`, held in the library's own
/// buffer.
pub struct MemoryImage {
    base: u64,
    bytes: Vec<u8>,
}

impl MemoryImage {
    #[verifier::type_invariant]
    spec fn fits(self) -> bool {
        self.base + self.bytes@.len() <= u64::MAX
    }

    /// The first address of the block.
    pub closed spec fn start(&self) -> int {
        self.base as int
    }

    /// The block's bytes, in address order.
    pub closed spec fn contents(&self) -> Seq<u8> {
        self.bytes@
    }

    /// A block of `bytes` placed at `base`; `None` when it would run past the
    /// end of the address space.
    pub fn new(base: u64, bytes: Vec<u8>) -> (r: Option<MemoryImage>)
        ensures
            r is Some <==> base as int + bytes@.len() <= u64::MAX,
            r matches Some(img) ==> img.start() == base && img.contents() == bytes@ && img.memory()
                == block_memory(base as int, bytes@),
    {
        if bytes.len() as u64 <= u64::MAX - base {
            let img = MemoryImage { base, bytes };
            assert(img.memory() =~= block_memory(base as int, img.bytes@));
            Some(img)
        } else {
            None
        }
    }
}

impl Readable for MemoryImage {
    closed spec fn memory(&self) -> Map<int, u8> {
        Map::new(
            |a: int| self.base <= a < self.base + self.bytes@.len(),
            |a: int| self.bytes@[a - self.base],
        )
    }

    fn read_bytes(&self, addr: u64, len: usize) -> (r: Option<Vec<u8>>) {
        proof {
            use_type_invariant(self);
        }
        let ghost mem = self.memory();
        if len == 0 {
            let v: Vec<u8> = Vec::new();
            assert(v@ =~= Seq::new(0, |i: int| mem[addr + i]));
            return Some(v);
        }
        if addr < self.base {
            assert(!mem.dom().contains(addr as int));
            return None;
        }
        let off = addr - self.base;
        let blen = self.bytes.len() as u64;
        if off > blen || len as u64 > blen - off {
            proof {
                if read_seq(mem, addr as int, len as nat) is Some {
                    assert(mem.dom().contains(addr + len - 1));
                }
            }
            return None;
        }
        let off = off as usize;
        assert(self.bytes@.len() == self.bytes.len());
        let mut out: Vec<u8> = Vec::new();
        let mut i: usize = 0;
        while i < len
            invariant
                off + len <= self.bytes@.len(),
                self.bytes@.len() <= usize::MAX,
                off == addr - self.base,
                i <= len,
                out@.len() == i,
                forall|j: int| 0 <= j < i ==> out@[j] == self.bytes@[off + j],
            decreases len - i,
        {
            out.push(self.bytes[off + i]);
            i += 1;
        }
        assert(addr + len <= u64::MAX + 1);
        assert(out@ =~= Seq::new(len as nat, |i: int| mem[addr + i]));
        Some(out)
    }
}

impl Writable for MemoryImage {
    /// The image takes a write exactly when every byte of the range lies in it.
    open spec fn accepts_write(&self, addr: int, len: nat) -> bool {
        read_seq(self.memory(), addr, len) is Some
    }

    /// A write into the image succeeds exactly when every byte of the range
    /// lies in the image.
    fn write_bytes(&mut self, addr: u64, bytes: &[u8]) -> (ok: bool)
        ensures
            ok == (read_seq(old(self).memory(), addr as int, bytes@.len()) is Some),
    {
        proof {
            use_type_invariant(&*self);
        }
        let ghost mem = old(self).memory();
        let len = bytes.len();
        if len == 0 {
            assert(write_seq(mem, addr as int, bytes@) =~= mem);
            return true;
        }
        if addr < self.base {
            assert(!mem.dom().contains(addr as int));
            return false;
        }
        let off = addr - self.base;
        let blen = self.bytes.len() as u64;
        if off > blen || len as u64 > blen - off {
            proof {
                if read_seq(mem, addr as int, len as nat) is Some {
                    assert(mem.dom().contains(addr + len - 1));
                }
            }
            return false;
        }
        let off = off as usize;
        let mut buf: Vec<u8> = Vec::new();
        std::mem::swap(&mut buf, &mut self.bytes);
        assert(buf@.len() == buf.len());
        let mut i: usize = 0;
        while i < len
            invariant
                off + len <= buf@.len(),
                buf@.len() <= usize::MAX,
                i <= len,
                len == bytes@.len(),
                buf@.len() == old(self).bytes@.len(),
                forall|j: int|
                    0 <= j < buf@.len() ==> buf@[j] == if off <= j < off + i {
                        bytes@[j - off]
                    } else {
                        old(self).bytes@[j]
                    },
            decreases len - i,
        {
            buf.set(off + i, bytes[i]);
            i += 1;
        }
        std::mem::swap(&mut buf, &mut self.bytes);
        assert(off == addr - self.base);
        assert(self.memory() =~= write_seq(mem, addr as int, bytes@));
        assert(read_seq(mem, addr as int, bytes@.len()) is Some);
        assert(self.memory().dom() =~= mem.dom());
        true
    }
}

/// A value of a Java field as it lies in memory: a fixed number of
/// little-endian bytes.
pub trait JavaValue: Sized {
    /// How many bytes the value takes.
    spec fn width() -> nat;

    /// The value that `b` (of `width()` bytes) stands for.
    spec fn decode(b: Seq<u8>) -> Self;

    /// The bytes that stand for `self`.
    spec fn encode(&self) -> Seq<u8>;

    /// Decoding the bytes of a value gives the value back.
    proof fn lemma_decode_encode(v: Self)
        ensures
            v.encode().len() == Self::width(),
            Self::decode(v.encode()) == v,
    ;

    fn byte_width() -> (n: usize)
        ensures
            n as nat == Self::width(),
    ;

    fn from_le(b: &[u8]) -> (r: Self)
        requires
            b@.len() == Self::width(),
        ensures
            r == Self::decode(b@),
    ;

    fn to_le(&self) -> (r: Vec<u8>)
        ensures
            r@ == self.encode(),
            r@.len() == Self::width(),
    ;
}

impl JavaValue for u8 {
    open spec fn width() -> nat {
        1
    }

    open spec fn decode(b: Seq<u8>) -> u8 {
        b[0]
    }

    open spec fn encode(&self) -> Seq<u8> {
        seq![*self]
    }

    proof fn lemma_decode_encode(v: u8) {
    }

    fn byte_width() -> (n: usize) {
        1
    }

    fn from_le(b: &[u8]) -> (r: u8) {
        b[0]
    }

    fn to_le(&self) -> (r: Vec<u8>) {
        let mut v: Vec<u8> = Vec::new();
        v.push(*self);
        assert(v@ =~= seq![*self]);
        v
    }
}

impl JavaValue for i8 {
    open spec fn width() -> nat {
        1
    }

    open spec fn decode(b: Seq<u8>) -> i8 {
        b[0] as i8
    }

    open spec fn encode(&self) -> Seq<u8> {
        seq![*self as u8]
    }

    proof fn lemma_decode_encode(v: i8) {
        assert((v as u8) as i8 == v) by (bit_vector);
    }

    fn byte_width() -> (n: usize) {
        1
    }

    fn from_le(b: &[u8]) -> (r: i8) {
        b[0] as i8
    }

    fn to_le(&self) -> (r: Vec<u8>) {
        let mut v: Vec<u8> = Vec::new();
        v.push(*self as u8);
        assert(v@ =~= seq![*self as u8]);
        v
    }
}

impl JavaValue for bool {
    open spec fn width() -> nat {
        1
    }

    open spec fn decode(b: Seq<u8>) -> bool {
        b[0] != 0
    }

    open spec fn encode(&self) -> Seq<u8> {
        seq![if *self { 1u8 } else { 0u8 }]
    }

    proof fn lemma_decode_encode(v: bool) {
    }

    fn byte_width() -> (n: usize) {
        1
    }

    fn from_le(b: &[u8]) -> (r: bool) {
        b[0] != 0
    }

    fn to_le(&self) -> (r: Vec<u8>) {
        let mut v: Vec<u8> = Vec::new();
        v.push(if *self { 1u8 } else { 0u8 });
        assert(v@ =~= self.encode());
        v
    }
}

impl JavaValue for u16 {
    open spec fn width() -> nat {
        2
    }

    open spec fn decode(b: Seq<u8>) -> u16 {
        spec_u16_from_le_bytes(b)
    }

    open spec fn encode(&self) -> Seq<u8> {
        spec_u16_to_le_bytes(*self)
    }

    proof fn lemma_decode_encode(v: u16) {
        lemma_auto_spec_u16_to_from_le_bytes();
        assert(spec_u16_to_le_bytes(v).len() == 2);
    }

    fn byte_width() -> (n: usize) {
        2
    }

    fn from_le(b: &[u8]) -> (r: u16) {
        u16_from_le_bytes(b)
    }

    fn to_le(&self) -> (r: Vec<u8>) {
        u16_to_le_bytes(*self)
    }
}

impl JavaValue for u32 {
    open spec fn width() -> nat {
        4
    }

    open spec fn decode(b: Seq<u8>) -> u32 {
        spec_u32_from_le_bytes(b)
    }

    open spec fn encode(&self) -> Seq<u8> {
        spec_u32_to_le_bytes(*self)
    }

    proof fn lemma_decode_encode(v: u32) {
        lemma_auto_spec_u32_to_from_le_bytes();
        assert(spec_u32_to_le_bytes(v).len() == 4);
    }

    fn byte_width() -> (n: usize) {
        4
    }

    fn from_le(b: &[u8]) -> (r: u32) {
        u32_from_le_bytes(b)
    }

    fn to_le(&self) -> (r: Vec<u8>) {
        u32_to_le_bytes(*self)
    }
}

impl JavaValue for i32 {
    open spec fn width() -> nat {
        4
    }

    open spec fn decode(b: Seq<u8>) -> i32 {
        spec_u32_from_le_bytes(b) as i32
    }

    open spec fn encode(&self) -> Seq<u8> {
        spec_u32_to_le_bytes(*self as u32)
    }

    proof fn lemma_decode_encode(v: i32) {
        lemma_auto_spec_u32_to_from_le_bytes();
        assert(spec_u32_to_le_bytes(v as u32).len() == 4);
        assert((v as u32) as i32 == v) by (bit_vector);
    }

    fn byte_width() -> (n: usize) {
        4
    }

    fn from_le(b: &[u8]) -> (r: i32) {
        u32_from_le_bytes(b) as i32
    }

    fn to_le(&self) -> (r: Vec<u8>) {
        u32_to_le_bytes(*self as u32)
    }
}

impl JavaValue for u64 {
    open spec fn width() -> nat {
        8
    }

    open spec fn decode(b: Seq<u8>) -> u64 {
        spec_u64_from_le_bytes(b)
    }

    open spec fn encode(&self) -> Seq<u8> {
        spec_u64_to_le_bytes(*self)
    }

    proof fn lemma_decode_encode(v: u64) {
        lemma_auto_spec_u64_to_from_le_bytes();
    }

    fn byte_width() -> (n: usize) {
        8
    }

    fn from_le(b: &[u8]) -> (r: u64) {
        u64_from_le_bytes(b)
    }

    fn to_le(&self) -> (r: Vec<u8>) {
        u64_to_le_bytes(*self)
    }
}

/// The value of type `T` stored at `addr`, when all its bytes are present.
pub open spec fn mem_value<T: JavaValue>(mem: Map<int, u8>, addr: int) -> Option<T> {
    match read_seq(mem, addr, T::width()) {
        Some(b) => Some(T::decode(b)),
        None => None,
    }
}

/// Reads a value of type `T` at `addr`.
pub fn read_value<M: Readable, T: JavaValue>(m: &M, addr: u64) -> (r: Option<T>)
    ensures
        r == mem_value::<T>(m.memory(), addr as int),
{
    let b = m.read_bytes(addr, T::byte_width())?;
    Some(T::from_le(b.as_slice()))
}

/// Reads a value of type `T` at `base + off`; `None` also when the sum leaves
/// the address space.
pub fn read_value_at<M: Readable, T: JavaValue>(m: &M, base: u64, off: u64) -> (r: Option<T>)
    ensures
        r == mem_value::<T>(m.memory(), base + off),
{
    match base.checked_add(off) {
        Some(a) => read_value(m, a),
        None => None,
    }
}

/// Where HotSpot keeps what the lookups start from. The first group are
/// offsets from the base address of the JVM's module; the second are offsets
/// inside a klass, a constant pool or an object array.
#[derive(Clone, Copy)]
pub struct JvmOffsets {
    pub system_class_loader: u64,
    pub symbol_table_seed: u64,
    pub symbol_table: u64,
    pub system_dictionary: u64,
    pub use_compressed_oops: u64,
    pub compressed_oops_base: u64,
    pub compressed_oops_shift: u64,
    pub use_compressed_class_pointers: u64,
    pub compressed_class_pointers_base: u64,
    pub compressed_class_pointers_shift: u64,
    pub klass_constants: u64,
    pub klass_fields: u64,
    pub klass_fields_count: u64,
    pub klass_interfaces: u64,
    pub klass_super: u64,
    pub klass_java_mirror: u64,
    pub cp_base: u64,
    pub array_base: u64,
}

/// The game's process: its memory, the base address of the JVM module loaded
/// in it, and the layout of that JVM's structures.
pub struct GameProcess<M> {
    pub process: M,
    pub jvm_ptr: u64,
    pub offsets: JvmOffsets,
}

impl<M> GameProcess<M> {
    /// A process handle for a JVM loaded at `jvm_ptr`.
    pub fn new(process: M, jvm_ptr: u64, offsets: JvmOffsets) -> (r: GameProcess<M>)
        ensures
            r.process == process,
            r.jvm_ptr == jvm_ptr,
            r.offsets == offsets,
    {
        GameProcess { process, jvm_ptr, offsets }
    }
}

impl<M: Readable> GameProcess<M> {
    /// The value of type `T` at `addr` in the game's memory. Asks that all of
    /// its bytes be readable; `read_value` is the form that answers `None`
    /// when they are not.
    pub fn read<T: JavaValue>(&self, addr: u64) -> (r: T)
        requires
            mem_value::<T>(self.process.memory(), addr as int) is Some,
        ensures
            Some(r) == mem_value::<T>(self.process.memory(), addr as int),
    {
        read_value(&self.process, addr).unwrap()
    }
}


/// Reading back a range just written gives the written bytes.
pub proof fn lemma_read_own_write(mem: Map<int, u8>, addr: int, bytes: Seq<u8>)
    requires
        read_seq(mem, addr, bytes.len()) is Some,
    ensures
        read_seq(write_seq(mem, addr, bytes), addr, bytes.len()) == Some(bytes),
{
    let after = write_seq(mem, addr, bytes);
    assert forall|a: int| addr <= a < addr + bytes.len() implies #[trigger] after.dom().contains(a) by {
        assert(mem.dom().contains(a));
    }
    assert(Seq::new(bytes.len(), |i: int| after[addr + i]) =~= bytes);
}

/// A write leaves every range that it does not overlap as it was.
pub proof fn lemma_write_keeps_others(mem: Map<int, u8>, addr: int, bytes: Seq<u8>, other: int, len: nat)
    requires
        other + len <= addr || addr + bytes.len() <= other,
    ensures
        read_seq(write_seq(mem, addr, bytes), other, len) == read_seq(mem, other, len),
{
    let after = write_seq(mem, addr, bytes);
    if read_seq(mem, other, len) is Some {
        assert forall|a: int| other <= a < other + len implies #[trigger] after.dom().contains(a) by {
            assert(mem.dom().contains(a));
        }
        assert(Seq::new(len, |i: int| after[other + i]) =~= Seq::new(len, |i: int| mem[other + i]));
    } else if read_seq(after, other, len) is Some {
        assert forall|a: int| other <= a < other + len implies #[trigger] mem.dom().contains(a) by {
            assert(after.dom().contains(a));
        }
    }
}

/// A write changes which addresses are present nowhere, so a range can be
/// read after it exactly when it could be read before.
pub proof fn lemma_write_keeps_presence(mem: Map<int, u8>, addr: int, bytes: Seq<u8>, other: int, len: nat)
    ensures
        (read_seq(write_seq(mem, addr, bytes), other, len) is Some) == (read_seq(mem, other, len) is Some),
{
    assert(write_seq(mem, addr, bytes).dom() =~= mem.dom());
}

/// Reading a value just written gives the value back.
pub proof fn lemma_value_read_own_write<T: JavaValue>(mem: Map<int, u8>, addr: int, v: T)
    requires
        read_seq(mem, addr, T::width()) is Some,
    ensures
        mem_value::<T>(write_seq(mem, addr, v.encode()), addr) == Some(v),
{
    T::lemma_decode_encode(v);
    lemma_read_own_write(mem, addr, v.encode());
}

} // verus!
