use vstd::prelude::*;

use crate::types::EntityId;

verus! {

/// Request payload used to spawn an entity at the command-commit stage.
///
/// This type is a data carrier collected by the runtime command buffer.
#[derive(Debug, Clone, PartialEq)]
pub struct SpawnRequest {
    template_id: Option<u32>,
    components: Vec<(String, Vec<u8>)>,
}

impl SpawnRequest {
    /// The template the request names, if any.
    pub closed spec fn spec_template_id(&self) -> Option<u32> {
        self.template_id
    }

    /// The named component payloads, in the order they were added.
    pub closed spec fn spec_components(&self) -> Seq<(String, Vec<u8>)> {
        self.components@
    }

    /// Creates an empty spawn request.
    pub fn new() -> (r: Self)
        ensures
            r.spec_template_id() == None::<u32>,
            r.spec_components() == Seq::<(String, Vec<u8>)>::empty(),
    {
        SpawnRequest { template_id: None, components: Vec::new() }
    }

    /// Creates a spawn request with a preselected template id.
    pub fn with_template(template_id: u32) -> (r: Self)
        ensures
            r.spec_template_id() == Some(template_id),
            r.spec_components() == Seq::<(String, Vec<u8>)>::empty(),
    {
        SpawnRequest { template_id: Some(template_id), components: Vec::new() }
    }

    /// Adds one serialized component payload to the spawn request.
    ///
    /// Builder-style API: returns the updated request.
    pub fn add_component(self, name: &str, data: Vec<u8>) -> (r: Self)
        ensures
            r.spec_template_id() == self.spec_template_id(),
            r.spec_components().len() == self.spec_components().len() + 1,
            r.spec_components().drop_last() == self.spec_components(),
            r.spec_components().last().0@ == name@,
            r.spec_components().last().1 == data,
    {
        let mut me = self;
        me.components.push((name.to_string(), data));
        proof {
            assert(me.components@.drop_last() =~= self.components@);
        }
        me
    }

    /// Returns the optional template id associated with this request.
    pub fn template_id(&self) -> (r: Option<u32>)
        ensures
            r == self.spec_template_id(),
    {
        self.template_id
    }

    /// Returns all component payloads as a shared slice.
    pub fn components(&self) -> (r: &[(String, Vec<u8>)])
        ensures
            r@ == self.spec_components(),
    {
        self.components.as_slice()
    }

    /// Returns an iterator over component payloads.
    pub fn components_iter(&self) -> (r: core::slice::Iter<'_, (String, Vec<u8>)>)
        ensures
            vstd::std_specs::slice::into_iter_elts(r) == self.spec_components(),
    {
        self.components.as_slice().iter()
    }
}

impl Default for SpawnRequest {
    /// Equivalent to [`SpawnRequest::new`].
    fn default() -> (r: Self)
        ensures
            r.spec_template_id() == None::<u32>,
            r.spec_components() == Seq::<(String, Vec<u8>)>::empty(),
    {
        Self::new()
    }
}

/// Request payload used to despawn an existing entity.
#[derive(Debug, Clone, PartialEq, Eq, Structural)]
pub struct DespawnRequest {
    entity: EntityId,
}

impl DespawnRequest {
    /// The entity the request names.
    pub closed spec fn spec_entity(&self) -> EntityId {
        self.entity
    }

    /// Creates a despawn request for a specific entity.
    pub fn new(entity: EntityId) -> (r: Self)
        ensures
            r.spec_entity() == entity,
    {
        DespawnRequest { entity }
    }

    /// Returns the entity to despawn.
    pub fn entity(&self) -> (r: EntityId)
        ensures
            r == self.spec_entity(),
    {
        self.entity
    }
}

/// A kind of entity that describes its own spawn.
pub trait Spawnable: Send + Sync + 'static {
    /// The request that spawns one entity of this kind.
    fn create_entity() -> SpawnRequest;
}

} // verus!
