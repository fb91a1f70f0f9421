//! Author-facing mod SDK: the manifest a mod declares, the host context it
//! is handed, and the `(pointer, length)` packing of host replies.

use vstd::prelude::*;

verus! {

broadcast use vstd::string::group_string_axioms;

/// What a mod declares about itself.
#[derive(Debug, Clone)]
pub struct ModManifest {
    pub name: String,
    pub version: String,
    pub description: Option<String>,
    pub author: Option<String>,
    pub dependencies: Vec<String>,
}

/// The text of an optional string.
pub open spec fn opt_text(s: Option<String>) -> Option<Seq<char>> {
    match s {
        Some(t) => Some(t@),
        None => None,
    }
}

/// The texts of a list of strings, in order.
pub open spec fn texts(v: Seq<String>) -> Seq<Seq<char>> {
    v.map_values(|s: String| s@)
}

impl ModManifest {
    /// A manifest with a name and version and nothing else.
    pub fn new(name: &str, version: &str) -> (r: ModManifest)
        ensures
            r.name@ == name@,
            r.version@ == version@,
            r.description is None,
            r.author is None,
            r.dependencies@.len() == 0,
    {
        ModManifest {
            name: name.to_string(),
            version: version.to_string(),
            description: None,
            author: None,
            dependencies: Vec::new(),
        }
    }

    /// The same manifest with its description set.
    pub fn description(self, d: &str) -> (r: ModManifest)
        ensures
            opt_text(r.description) == Some(d@),
            r.name == self.name,
            r.version == self.version,
            r.author == self.author,
            r.dependencies == self.dependencies,
    {
        let mut m = self;
        m.description = Some(d.to_string());
        m
    }

    /// The same manifest with its author set.
    pub fn author(self, a: &str) -> (r: ModManifest)
        ensures
            opt_text(r.author) == Some(a@),
            r.name == self.name,
            r.version == self.version,
            r.description == self.description,
            r.dependencies == self.dependencies,
    {
        let mut m = self;
        m.author = Some(a.to_string());
        m
    }

    /// The same manifest with one more dependency at the end.
    pub fn requires_mod(self, dep: &str) -> (r: ModManifest)
        ensures
            r.dependencies@.len() == self.dependencies@.len() + 1,
            r.dependencies@.drop_last() == self.dependencies@,
            r.dependencies@.last()@ == dep@,
            r.name == self.name,
            r.version == self.version,
            r.description == self.description,
            r.author == self.author,
    {
        let mut m = self;
        m.dependencies.push(dep.to_string());
        proof {
            assert(m.dependencies@.drop_last() =~= self.dependencies@);
        }
        m
    }
}

/// The handle a mod receives on each hook; every host call goes through it.
pub struct GameContext {
    _priv: (),
}

/// Access to the players currently in the game.
pub struct Players<'a> {
    _ctx: &'a mut GameContext,
}

/// Access to world-changing host calls.
pub struct World<'a> {
    _ctx: &'a mut GameContext,
}

impl<'a> Players<'a> {
    /// The context this directory borrows.
    pub closed spec fn context(&self) -> GameContext {
        *self._ctx
    }
}

impl<'a> World<'a> {
    /// The context this handle borrows.
    pub closed spec fn context(&self) -> GameContext {
        *self._ctx
    }
}

impl GameContext {
    /// The player directory, borrowing the context.
    pub fn players(&mut self) -> (r: Players<'_>)
        ensures
            r.context() == *old(self),
            *final(self) == *old(self),
    {
        Players { _ctx: self }
    }

    /// The world handle, borrowing the context.
    pub fn world(&mut self) -> (r: World<'_>)
        ensures
            r.context() == *old(self),
            *final(self) == *old(self),
    {
        World { _ctx: self }
    }
}

/// A fresh context for one hook invocation (the type has a single value).
pub fn ctx() -> GameContext {
    GameContext { _priv: () }
}

/// The packed form of a host reply at `ptr` of `len` bytes: the pointer in
/// the high 32 bits, the length in the low 32 bits.
pub open spec fn packed_spec(ptr: u32, len: u32) -> int {
    ptr * 0x1_0000_0000 + len
}

/// Pack a guest buffer as `(ptr << 32) | len`; an empty buffer packs to 0,
/// which the host reads as "no data".
pub fn pack_ptr_len(ptr: u32, len: u32) -> (r: u64)
    ensures
        len == 0 ==> r == 0,
        len != 0 ==> r == packed_spec(ptr, len),
{
    if len == 0 {
        return 0;
    }
    let r: u64 = ((ptr as u64) << 32u64) | (len as u64);
    assert(((ptr as u64) << 32u64) | (len as u64) == (ptr as u64) * 0x1_0000_0000u64 + (len as u64))
        by (bit_vector);
    r
}

/// The `(ptr, len)` halves of a packed reply, or `None` when either is zero.
pub open spec fn unpacked_spec(packed: int) -> Option<(u32, u32)> {
    if packed / 0x1_0000_0000 == 0 || packed % 0x1_0000_0000 == 0 {
        None
    } else {
        Some(((packed / 0x1_0000_0000) as u32, (packed % 0x1_0000_0000) as u32))
    }
}

/// Split a packed reply into `(ptr, len)`; `None` when either half is zero.
pub fn unpack_ptr_len(packed: u64) -> (r: Option<(u32, u32)>)
    ensures
        r == unpacked_spec(packed as int),
{
    let hi: u64 = packed >> 32u64;
    let lo: u64 = packed & 0xFFFF_FFFFu64;
    assert(packed >> 32u64 == packed / 0x1_0000_0000u64) by (bit_vector);
    assert(packed & 0xFFFF_FFFFu64 == packed % 0x1_0000_0000u64) by (bit_vector);
    if hi == 0 || lo == 0 {
        None
    } else {
        Some((hi as u32, lo as u32))
    }
}

/// Unpacking what was packed gives back the buffer, for any non-empty
/// buffer at a non-null address.
pub proof fn lemma_unpack_of_pack(ptr: u32, len: u32)
    requires
        ptr != 0,
        len != 0,
    ensures
        packed_spec(ptr, len) <= u64::MAX,
        unpacked_spec(packed_spec(ptr, len)) == Some((ptr, len)),
{
    assert(packed_spec(ptr, len) / 0x1_0000_0000 == ptr);
    assert(packed_spec(ptr, len) % 0x1_0000_0000 == len);
}

/// The example mod that greets players.
#[derive(Debug, Clone, Copy, Default)]
pub struct Welcome;

impl Welcome {
    /// The manifest the example mod declares.
    pub fn manifest(&self) -> (r: ModManifest)
        ensures
            r.name@ == "welcome-rs"@,
            r.version@ == "0.1.0"@,
            opt_text(r.description) == Some(
                "Greet players on join and auto-feed hungry dwarves. (Rust)"@,
            ),
            opt_text(r.author) == Some("Open Dwarf examples"@),
            r.dependencies@.len() == 0,
    {
        ModManifest::new("welcome-rs", "0.1.0").description(
            "Greet players on join and auto-feed hungry dwarves. (Rust)",
        ).author("Open Dwarf examples")
    }
}

} // verus!
