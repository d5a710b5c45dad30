//! The `PERF_SAMPLE_DATA_SRC` value of a memory access.
use vstd::prelude::*;

verus! {

/// Where the data of a memory access came from.
#[derive(Debug, Clone, Copy, PartialEq, Eq, Structural, Hash)]
pub struct MemoryDataSource {
    pub raw: u64,
}

/// The access loads.
pub const OP_LOAD: u64 = 0x2;

/// The access stores.
pub const OP_STORE: u64 = 0x4;

/// The access prefetches.
pub const OP_PREFETCH: u64 = 0x8;

/// The access fetches an instruction.
pub const OP_EXECUTE: u64 = 0x10;

/// The data came from a remote cache, one hop away.
pub const LVL_REM_CCE1: u64 = 0x400;

/// The data came from a remote cache, two hops away.
pub const LVL_REM_CCE2: u64 = 0x800;

/// The snoop hit a modified line.
pub const SNOOP_HITM: u64 = 0x10;

/// The snoop was answered by a peer.
pub const SNOOPX_PEER: u64 = 0x2;

/// The access is locked.
pub const LOCK_LOCKED: u64 = 0x2;

/// A bit field of a number.
pub open spec fn bits(raw: u64, shift: u32, mask: u64) -> u64 {
    (raw >> shift) & mask
}

/// Whether a value has some of the given bits set.
pub open spec fn any_set(value: u64, flags: u64) -> bool {
    value & flags != 0
}

/// The name of an operation.
pub open spec fn operation_name(raw: u64) -> Seq<char> {
    let op = raw & 0x1f;
    if any_set(op, OP_LOAD) && any_set(op, OP_STORE) {
        "load_store"@
    } else if any_set(op, OP_LOAD) {
        "load"@
    } else if any_set(op, OP_STORE) {
        "store"@
    } else if any_set(op, OP_PREFETCH) {
        "prefetch"@
    } else if any_set(op, OP_EXECUTE) {
        "execute"@
    } else {
        "unknown"@
    }
}

/// The name of a memory level.
pub open spec fn level_name(level: u64) -> Seq<char> {
    if level == 1 {
        "l1"@
    } else if level == 2 {
        "l2"@
    } else if level == 3 {
        "l3"@
    } else if level == 4 {
        "l4"@
    } else if level == 5 {
        "l2_miss_buffer"@
    } else if level == 6 {
        "memory_side_cache"@
    } else if level == 7 {
        "l0"@
    } else if level == 8 {
        "uncached"@
    } else if level == 9 {
        "cxl"@
    } else if level == 10 {
        "io"@
    } else if level == 11 {
        "any_cache"@
    } else if level == 12 {
        "fill_buffer"@
    } else if level == 13 {
        "ram"@
    } else if level == 14 {
        "persistent_memory"@
    } else {
        "unknown"@
    }
}

impl MemoryDataSource {
    /// Whether the access loads.
    pub open spec fn loads(self) -> bool {
        any_set(self.raw, OP_LOAD)
    }

    /// Whether the access stores.
    pub open spec fn stores(self) -> bool {
        any_set(self.raw, OP_STORE)
    }

    /// Whether the access is locked.
    pub open spec fn locked(self) -> bool {
        any_set(bits(self.raw, 24, 0x3), LOCK_LOCKED)
    }

    /// Whether the access hit a modified line in another cache.
    pub open spec fn hitm(self) -> bool {
        any_set(bits(self.raw, 19, 0x1f), SNOOP_HITM)
    }

    /// Whether a peer answered the access.
    pub open spec fn peer(self) -> bool {
        any_set(bits(self.raw, 38, 0x3), SNOOPX_PEER)
    }

    /// Whether the data came from another socket.
    pub open spec fn remote(self) -> bool {
        (bits(self.raw, 37, 0x1) != 0 && bits(self.raw, 43, 0x7) == 0) || any_set(
            bits(self.raw, 5, 0x3fff),
            LVL_REM_CCE1 | LVL_REM_CCE2,
        )
    }

    /// The name of the memory level that the data came from.
    pub open spec fn level_text(self) -> Seq<char> {
        level_name(bits(self.raw, 33, 0xf))
    }

    /// What the access does: `load`, `store`, both, or something else.
    pub fn operation(self) -> (r: &'static str)
        ensures
            r@ == operation_name(self.raw),
    {
        let operation: u64 = self.raw & 0x1f;
        let load: bool = operation & OP_LOAD != 0;
        let store: bool = operation & OP_STORE != 0;
        if load && store {
            "load_store"
        } else if load {
            "load"
        } else if store {
            "store"
        } else if operation & OP_PREFETCH != 0 {
            "prefetch"
        } else if operation & OP_EXECUTE != 0 {
            "execute"
        } else {
            "unknown"
        }
    }

    /// Whether the access loads.
    pub fn is_load(self) -> (r: bool)
        ensures
            r == self.loads(),
    {
        self.raw & OP_LOAD != 0
    }

    /// Whether the access stores.
    pub fn is_store(self) -> (r: bool)
        ensures
            r == self.stores(),
    {
        self.raw & OP_STORE != 0
    }

    /// Whether the access is locked.
    pub fn is_locked(self) -> (r: bool)
        ensures
            r == self.locked(),
    {
        self.field(24, 0x3) & LOCK_LOCKED != 0
    }

    /// Whether the access hit a modified line in another cache.
    pub fn is_hitm(self) -> (r: bool)
        ensures
            r == self.hitm(),
    {
        self.field(19, 0x1f) & SNOOP_HITM != 0
    }

    /// Whether a peer answered the access.
    pub fn is_peer(self) -> (r: bool)
        ensures
            r == self.peer(),
    {
        self.field(38, 0x3) & SNOOPX_PEER != 0
    }

    /// Whether the data came from another socket: explicitly and without hops,
    /// or from a remote cache.
    pub fn is_remote(self) -> (r: bool)
        ensures
            r == self.remote(),
    {
        let explicit_without_hops: bool = self.field(37, 0x1) != 0 && self.field(43, 0x7) == 0;
        explicit_without_hops || self.field(5, 0x3fff) & (LVL_REM_CCE1 | LVL_REM_CCE2) != 0
    }

    /// The memory level that the data came from.
    pub fn level(self) -> (r: &'static str)
        ensures
            r@ == self.level_text(),
    {
        let level: u64 = self.field(33, 0xf);
        if level == 1 {
            "l1"
        } else if level == 2 {
            "l2"
        } else if level == 3 {
            "l3"
        } else if level == 4 {
            "l4"
        } else if level == 5 {
            "l2_miss_buffer"
        } else if level == 6 {
            "memory_side_cache"
        } else if level == 7 {
            "l0"
        } else if level == 8 {
            "uncached"
        } else if level == 9 {
            "cxl"
        } else if level == 10 {
            "io"
        } else if level == 11 {
            "any_cache"
        } else if level == 12 {
            "fill_buffer"
        } else if level == 13 {
            "ram"
        } else if level == 14 {
            "persistent_memory"
        } else {
            "unknown"
        }
    }

    fn field(self, shift: u32, mask: u64) -> (r: u64)
        requires
            shift < 64,
        ensures
            r == bits(self.raw, shift, mask),
    {
        (self.raw >> shift) & mask
    }
}

/// A source that is neither a load nor a store counts as neither, and its
/// operation is named otherwise.
pub proof fn law_operation_agrees(raw: u64)
    ensures
        (MemoryDataSource { raw }).loads() <==> any_set(raw & 0x1f, OP_LOAD),
        (MemoryDataSource { raw }).stores() <==> any_set(raw & 0x1f, OP_STORE),
{
    assert(raw & 2 != 0 <==> (raw & 0x1f) & 2 != 0) by (bit_vector);
    assert(raw & 4 != 0 <==> (raw & 0x1f) & 4 != 0) by (bit_vector);
}

/// Each property of an access is one bit of its data source: loads and stores
/// of the operation, a hit on a modified line of the snoop, a lock, and a peer
/// of the extended snoop.
pub proof fn law_properties_are_bits(raw: u64)
    ensures
        (MemoryDataSource { raw }).loads() <==> raw & 0x2 != 0,
        (MemoryDataSource { raw }).stores() <==> raw & 0x4 != 0,
        (MemoryDataSource { raw }).hitm() <==> raw & 0x80_0000 != 0,
        (MemoryDataSource { raw }).locked() <==> raw & 0x200_0000 != 0,
        (MemoryDataSource { raw }).peer() <==> raw & 0x80_0000_0000 != 0,
{
    assert(((raw >> 19u32) & 0x1f) & 0x10 != 0 <==> raw & 0x80_0000 != 0) by (bit_vector);
    assert(((raw >> 24u32) & 0x3) & 0x2 != 0 <==> raw & 0x200_0000 != 0) by (bit_vector);
    assert(((raw >> 38u32) & 0x3) & 0x2 != 0 <==> raw & 0x80_0000_0000 != 0) by (bit_vector);
}

/// Data comes from another socket where its source is marked as remote and
/// names no hop, or where its level is a remote cache.
pub proof fn law_remote_data(raw: u64)
    ensures
        (MemoryDataSource { raw }).remote() <==> (raw & 0x20_0000_0000 != 0 && raw & 0x3800_0000_0000
            == 0) || raw & 0x8000 != 0 || raw & 0x1_0000 != 0,
{
    assert((raw >> 37u32) & 0x1 != 0 <==> raw & 0x20_0000_0000 != 0) by (bit_vector);
    assert((raw >> 43u32) & 0x7 == 0 <==> raw & 0x3800_0000_0000 == 0) by (bit_vector);
    assert(((raw >> 5u32) & 0x3fff) & (0x400u64 | 0x800u64) != 0 <==> (raw & 0x8000 != 0 || raw & 0x1_0000
        != 0)) by (bit_vector);
}

/// The operation's name tells loads and stores, and what it is without either.
pub proof fn law_operation_names(raw: u64)
    ensures
        operation_name(raw) == "load_store"@ <==> (raw & 0x2 != 0 && raw & 0x4 != 0),
        operation_name(raw) == "load"@ <==> (raw & 0x2 != 0 && raw & 0x4 == 0),
        operation_name(raw) == "store"@ <==> (raw & 0x2 == 0 && raw & 0x4 != 0),
        raw & 0x6 == 0 ==> (operation_name(raw) == "prefetch"@ <==> raw & 0x8 != 0),
        raw & 0xe == 0 ==> (operation_name(raw) == "execute"@ <==> raw & 0x10 != 0),
        raw & 0x1e == 0 ==> operation_name(raw) == "unknown"@,
{
    reveal_strlit("load_store");
    reveal_strlit("load");
    reveal_strlit("store");
    reveal_strlit("prefetch");
    reveal_strlit("execute");
    reveal_strlit("unknown");
    assert((raw & 0x1f) & 0x2 != 0 <==> raw & 0x2 != 0) by (bit_vector);
    assert((raw & 0x1f) & 0x4 != 0 <==> raw & 0x4 != 0) by (bit_vector);
    assert((raw & 0x1f) & 0x8 != 0 <==> raw & 0x8 != 0) by (bit_vector);
    assert((raw & 0x1f) & 0x10 != 0 <==> raw & 0x10 != 0) by (bit_vector);
    assert(raw & 0x6 == 0 <==> raw & 0x2 == 0 && raw & 0x4 == 0) by (bit_vector);
    assert(raw & 0xe == 0 <==> raw & 0x2 == 0 && raw & 0x4 == 0 && raw & 0x8 == 0) by (bit_vector);
    assert(raw & 0x1e == 0 <==> raw & 0x2 == 0 && raw & 0x4 == 0 && raw & 0x8 == 0 && raw & 0x10
        == 0) by (bit_vector);
    assert("load"@.len() == 4 && "store"@.len() == 5 && "load_store"@.len() == 10
        && "prefetch"@.len() == 8 && "execute"@.len() == 7 && "unknown"@.len() == 7);
    assert("execute"@[0] == 'e' && "unknown"@[0] == 'u');
}

/// The memory level is a field of four bits; each cache, buffer and memory has a
/// name of its own, and what has none is unknown.
pub proof fn law_levels_are_named(raw: u64)
    ensures
        ({
            let level = raw / 0x2_0000_0000 % 16;
            let name = (MemoryDataSource { raw }).level_text();
            &&& name == "l1"@ <==> level == 1
            &&& name == "l2"@ <==> level == 2
            &&& name == "l3"@ <==> level == 3
            &&& name == "l4"@ <==> level == 4
            &&& name == "l2_miss_buffer"@ <==> level == 5
            &&& name == "memory_side_cache"@ <==> level == 6
            &&& name == "l0"@ <==> level == 7
            &&& name == "uncached"@ <==> level == 8
            &&& name == "cxl"@ <==> level == 9
            &&& name == "io"@ <==> level == 10
            &&& name == "any_cache"@ <==> level == 11
            &&& name == "fill_buffer"@ <==> level == 12
            &&& name == "ram"@ <==> level == 13
            &&& name == "persistent_memory"@ <==> level == 14
            &&& name == "unknown"@ <==> level == 0 || level == 15
        }),
{
    assert((raw >> 33u32) & 0xf == raw / 0x2_0000_0000 % 16) by (bit_vector);
    reveal_strlit("l1");
    reveal_strlit("l2");
    reveal_strlit("l3");
    reveal_strlit("l4");
    reveal_strlit("l2_miss_buffer");
    reveal_strlit("memory_side_cache");
    reveal_strlit("l0");
    reveal_strlit("uncached");
    reveal_strlit("cxl");
    reveal_strlit("io");
    reveal_strlit("any_cache");
    reveal_strlit("fill_buffer");
    reveal_strlit("ram");
    reveal_strlit("persistent_memory");
    reveal_strlit("unknown");
    assert("l0"@[1] == '0' && "l1"@[1] == '1' && "l2"@[1] == '2' && "l3"@[1] == '3' && "l4"@[1]
        == '4' && "io"@[1] == 'o');
    assert("cxl"@[0] == 'c' && "ram"@[0] == 'r');
    assert("memory_side_cache"@[0] == 'm' && "persistent_memory"@[0] == 'p');
    assert("l2_miss_buffer"@.len() == 14 && "uncached"@.len() == 8 && "any_cache"@.len() == 9
        && "fill_buffer"@.len() == 11 && "unknown"@.len() == 7);
}

}
