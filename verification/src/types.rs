use vstd::prelude::*;

verus! {

/// Unique identifier for an entity in the game world.
#[derive(Debug, Clone, Copy, PartialEq, Eq, Hash, PartialOrd, Ord, Structural)]
pub struct EntityId(pub u32);

impl EntityId {
    pub fn new(id: u32) -> (r: Self)
        ensures
            r.0 == id,
    {
        EntityId(id)
    }

    pub fn as_u32(self) -> (r: u32)
        ensures
            r == self.0,
    {
        self.0
    }
}

/// Time in ticks since the start of the game.
#[derive(Debug, Clone, Copy, PartialEq, Eq, Hash, PartialOrd, Ord, Structural)]
pub struct Tick(pub u32);

impl Tick {
    pub fn new(tick: u32) -> (r: Self)
        ensures
            r.0 == tick,
    {
        Tick(tick)
    }

    pub fn as_u32(self) -> (r: u32)
        ensures
            r == self.0,
    {
        self.0
    }
}


/// A bitmask representing the layers an entity belongs to.
/// Used for collision detection.
///
/// Construct with a zero-based layer index (0–31); internally stores `1 << layer`.
#[derive(Debug, Clone, Copy, PartialEq, Eq, Hash, Structural)]
pub struct LayerBit(pub u32);

impl LayerBit {
    /// Creates a `LayerBit` from a zero-based layer index (0–31).
    pub fn new(layer: u32) -> (r: Self)
        requires
            layer < 32,
        ensures
            r.0 == 1u32 << layer,
    {
        LayerBit(1u32 << layer)
    }

    /// Returns a `LayerBit` with no layers set.
    pub fn empty() -> (r: Self)
        ensures
            r.0 == 0,
    {
        LayerBit(0)
    }

    /// Checks whether this `LayerBit` overlaps with another.
    pub fn contains(&self, other: LayerBit) -> (r: bool)
        ensures
            r == (self.0 & other.0 != 0),
    {
        (self.0 & other.0) != 0
    }

    pub fn as_u32(self) -> (r: u32)
        ensures
            r == self.0,
    {
        self.0
    }

    /// The union of two layer sets (the bitwise or of their masks).
    pub fn union(self, other: LayerBit) -> (r: LayerBit)
        ensures
            r.0 == self.0 | other.0,
    {
        LayerBit(self.0 | other.0)
    }
}

/// A bitmask representing the layers an entity can collide with.
/// Used by a `Hitbox` to filter which `Hurtbox` layers it should test against.
///
/// Construct with zero-based layer indices, same as `LayerBit`.
#[derive(Debug, Clone, Copy, PartialEq, Eq, Hash, Structural)]
pub struct CollisionMask(pub u32);

impl CollisionMask {
    /// Creates a `CollisionMask` from a zero-based layer index (0–31).
    pub fn new(layer: u32) -> (r: Self)
        requires
            layer < 32,
        ensures
            r.0 == 1u32 << layer,
    {
        CollisionMask(1u32 << layer)
    }

    /// Returns a `CollisionMask` that matches no layers.
    pub fn empty() -> (r: Self)
        ensures
            r.0 == 0,
    {
        CollisionMask(0)
    }

    /// Returns `true` if this mask overlaps with the given `LayerBit`.
    /// Typical use: `hitbox.group.collides_with(hurtbox.layer)`
    pub fn collides_with(&self, layer: LayerBit) -> (r: bool)
        ensures
            r == (self.0 & layer.0 != 0),
    {
        (self.0 & layer.as_u32()) != 0
    }

    pub fn as_u32(self) -> (r: u32)
        ensures
            r == self.0,
    {
        self.0
    }

    /// The union of two masks (the bitwise or of their bits).
    pub fn union(self, other: CollisionMask) -> (r: CollisionMask)
        ensures
            r.0 == self.0 | other.0,
    {
        CollisionMask(self.0 | other.0)
    }
}

impl vstd::std_specs::ops::BitOrSpecImpl for LayerBit {
    open spec fn obeys_bitor_spec() -> bool {
        true
    }

    open spec fn bitor_req(self, rhs: LayerBit) -> bool {
        true
    }

    open spec fn bitor_spec(self, rhs: LayerBit) -> LayerBit {
        LayerBit(self.0 | rhs.0)
    }
}

impl core::ops::BitOr for LayerBit {
    type Output = LayerBit;

    fn bitor(self, other: LayerBit) -> LayerBit {
        self.union(other)
    }
}

impl vstd::std_specs::ops::BitOrSpecImpl for CollisionMask {
    open spec fn obeys_bitor_spec() -> bool {
        true
    }

    open spec fn bitor_req(self, rhs: CollisionMask) -> bool {
        true
    }

    open spec fn bitor_spec(self, rhs: CollisionMask) -> CollisionMask {
        CollisionMask(self.0 | rhs.0)
    }
}

impl core::ops::BitOr for CollisionMask {
    type Output = CollisionMask;

    fn bitor(self, other: CollisionMask) -> CollisionMask {
        self.union(other)
    }
}

/// A typed handle pointing to a resource or registry entry of type `T`.
#[derive(Debug, PartialEq, Eq, Hash)]
pub struct Handle<T> {
    id: u32,
    _marker: core::marker::PhantomData<T>,
}

impl<T> Handle<T> {
    /// The identifier carried by the handle.
    pub closed spec fn spec_id(&self) -> u32 {
        self.id
    }

    /// Creates a new `Handle` with the specified ID.
    pub fn new(id: u32) -> (r: Self)
        ensures
            r.spec_id() == id,
    {
        Handle { id, _marker: core::marker::PhantomData }
    }

    /// Returns the underlying ID.
    pub fn id(&self) -> (r: u32)
        ensures
            r == self.spec_id(),
    {
        self.id
    }

    /// Consumes the handle and returns the underlying ID.
    pub fn as_u32(self) -> (r: u32)
        ensures
            r == self.spec_id(),
    {
        self.id
    }
}

impl<T> Clone for Handle<T> {
    fn clone(&self) -> (r: Self)
        ensures
            r.spec_id() == self.spec_id(),
    {
        Handle::new(self.id)
    }
}

impl<T> Copy for Handle<T> {

}

/// Built-in tag flags: a bit set over a fixed list of engine-level categories.
#[derive(Debug, Clone, Copy, PartialEq, Eq, Hash, Structural)]
pub struct TagFlags(pub u64);

impl TagFlags {
    /// No flag.
    pub fn none() -> (r: TagFlags)
        ensures
            r.0 == 0,
    {
        TagFlags(0u64)
    }

    /// The player entity.
    pub fn player() -> (r: TagFlags)
        ensures
            r.0 == 1,
    {
        TagFlags(1u64)
    }

    /// An enemy.
    pub fn enemy() -> (r: TagFlags)
        ensures
            r.0 == 2,
    {
        TagFlags(2u64)
    }

    /// A bullet fired by the player.
    pub fn player_bullet() -> (r: TagFlags)
        ensures
            r.0 == 4,
    {
        TagFlags(4u64)
    }

    /// A bullet fired by an enemy.
    pub fn enemy_bullet() -> (r: TagFlags)
        ensures
            r.0 == 8,
    {
        TagFlags(8u64)
    }

    /// A pickup item.
    pub fn pickup() -> (r: TagFlags)
        ensures
            r.0 == 16,
    {
        TagFlags(16u64)
    }

    /// A boss enemy.
    pub fn boss() -> (r: TagFlags)
        ensures
            r.0 == 32,
    {
        TagFlags(32u64)
    }

    /// An entity that ignores hits.
    pub fn invincible() -> (r: TagFlags)
        ensures
            r.0 == 64,
    {
        TagFlags(64u64)
    }

    /// A graze detector.
    pub fn graze() -> (r: TagFlags)
        ensures
            r.0 == 128,
    {
        TagFlags(128u64)
    }

    /// `true` when every bit of `flag` is set in `self`.
    pub open spec fn spec_has(self, flag: TagFlags) -> bool {
        self.0 & flag.0 == flag.0
    }

    /// Returns `true` if every flag bit of `flag` is set in `self`.
    pub fn has(&self, flag: TagFlags) -> (r: bool)
        ensures
            r == self.spec_has(flag),
    {
        (self.0 & flag.0) == flag.0
    }

    /// The flags of both sets.
    pub fn union(self, other: TagFlags) -> (r: TagFlags)
        ensures
            r.0 == self.0 | other.0,
    {
        TagFlags(self.0 | other.0)
    }

    /// The flags of `self` that are not in `other`.
    pub fn without(self, other: TagFlags) -> (r: TagFlags)
        ensures
            r.0 == self.0 & !other.0,
    {
        TagFlags(self.0 & !other.0)
    }
}

/// The built-in flag a script refers to by `name` (`"player"`, `"enemy"`,
/// `"player_bullet"`, `"enemy_bullet"`, `"pickup"`, `"boss"`, `"invincible"`,
/// `"graze"`), or `None` for any other name.
pub fn flag_name_to_flags(name: &str) -> (r: Option<TagFlags>)
    ensures
        r == flag_of_name(name@),
{
    if crate::text::str_eq(name, "player") {
        Some(TagFlags::player())
    } else if crate::text::str_eq(name, "enemy") {
        Some(TagFlags::enemy())
    } else if crate::text::str_eq(name, "player_bullet") {
        Some(TagFlags::player_bullet())
    } else if crate::text::str_eq(name, "enemy_bullet") {
        Some(TagFlags::enemy_bullet())
    } else if crate::text::str_eq(name, "pickup") {
        Some(TagFlags::pickup())
    } else if crate::text::str_eq(name, "boss") {
        Some(TagFlags::boss())
    } else if crate::text::str_eq(name, "invincible") {
        Some(TagFlags::invincible())
    } else if crate::text::str_eq(name, "graze") {
        Some(TagFlags::graze())
    } else {
        None
    }
}

/// The built-in flag named `name`.
pub open spec fn flag_of_name(name: Seq<char>) -> Option<TagFlags> {
    if name == "player"@ {
        Some(TagFlags(1))
    } else if name == "enemy"@ {
        Some(TagFlags(2))
    } else if name == "player_bullet"@ {
        Some(TagFlags(4))
    } else if name == "enemy_bullet"@ {
        Some(TagFlags(8))
    } else if name == "pickup"@ {
        Some(TagFlags(16))
    } else if name == "boss"@ {
        Some(TagFlags(32))
    } else if name == "invincible"@ {
        Some(TagFlags(64))
    } else if name == "graze"@ {
        Some(TagFlags(128))
    } else {
        None
    }
}

/// Errors that can occur in the EverNight engine.
#[derive(Debug, Clone, PartialEq)]
pub enum EverNightError {
    InvalidEntityId(EntityId),
    InvalidHandle,
    ComponentNotFound,
    InvalidState(String),
    AllocatorFull,
    /// A script failed to load or to run.
    ScriptError(String),
}

/// A result type for operations in the EverNight engine, using `EverNightError` for error handling.
pub type EverNightResult<T> = Result<T, EverNightError>;

} // verus!
