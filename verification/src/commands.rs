use std::any::TypeId;
use vstd::prelude::*;

use crate::command::SpawnRequest;
use crate::types::EntityId;

verus! {

/// A deferred world mutation, applied at the next command-commit stage.
///
/// `C` is the stored component value (for instance a boxed trait object).
pub enum Command<C> {
    Spawn { entity: EntityId, request: SpawnRequest },
    Despawn(EntityId),
    AddComponent { entity: EntityId, component_type_id: TypeId, component: C },
    RemoveComponent { entity: EntityId, component_type_id: TypeId },
}

/// Buffers commands in the order they were issued.
pub struct CommandBuffer<C> {
    commands: Vec<Command<C>>,
}

impl<C> CommandBuffer<C> {
    /// The buffered commands, oldest first.
    pub closed spec fn pending(&self) -> Seq<Command<C>> {
        self.commands@
    }

    pub fn new() -> (r: Self)
        ensures
            r.pending() == Seq::<Command<C>>::empty(),
    {
        CommandBuffer { commands: Vec::new() }
    }

    /// Appends a command.
    pub fn push(&mut self, command: Command<C>)
        ensures
            final(self).pending() == old(self).pending().push(command),
    {
        self.commands.push(command);
    }

    /// Drains all buffered commands and returns them, leaving the buffer empty.
    pub fn drain(&mut self) -> (r: Vec<Command<C>>)
        ensures
            r@ == old(self).pending(),
            final(self).pending() == Seq::<Command<C>>::empty(),
    {
        let mut out: Vec<Command<C>> = Vec::new();
        std::mem::swap(&mut out, &mut self.commands);
        out
    }

    /// Discards all buffered commands.
    pub fn clear(&mut self)
        ensures
            final(self).pending() == Seq::<Command<C>>::empty(),
    {
        self.commands.clear();
    }
}

impl<C> Default for CommandBuffer<C> {
    fn default() -> (r: Self)
        ensures
            r.pending() == Seq::<Command<C>>::empty(),
    {
        Self::new()
    }
}

} // verus!
