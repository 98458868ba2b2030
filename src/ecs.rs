use anyhow::Error as Cause;
use hecs::{
    CommandBuffer as RecordedCommands, ComponentError, Entity, MissingComponent, NoSuchEntity, World,
};
use vstd::prelude::*;

verus! {

/// An entity handle of the component store.
#[verifier::external_type_specification]
#[verifier::external_body]
pub struct ExEntity(Entity);

/// The component store.
#[verifier::external_type_specification]
#[verifier::external_body]
pub struct ExWorld(World);

/// The component store's own log of spawns and inserts.
#[verifier::external_type_specification]
#[verifier::external_body]
pub struct ExRecordedCommands(RecordedCommands);

/// The store's error for an entity that does not exist.
#[verifier::external_type_specification]
#[verifier::external_body]
pub struct ExNoSuchEntity(NoSuchEntity);

/// The store's error for an entity that lacks a component.
#[verifier::external_type_specification]
#[verifier::external_body]
pub struct ExMissingComponent(MissingComponent);

/// The store's error for a failed component lookup.
#[verifier::external_type_specification]
#[verifier::external_body]
pub struct ExComponentError(ComponentError);

/// The cause a failing system reports.
#[verifier::external_type_specification]
#[verifier::external_body]
pub struct ExCause(Cause);

/// The number of spawns and inserts that a store log holds.
pub uninterp spec fn recorded_count(c: RecordedCommands) -> nat;

/// Relies on hecs::CommandBuffer::new: a new log holds no command.
#[verifier::external_body]
pub(crate) fn recorded_new() -> (r: RecordedCommands)
    ensures
        recorded_count(r) == 0,
{
    RecordedCommands::new()
}

/// Relies on hecs::CommandBuffer::run_on: the log is applied to the world
/// and left empty.
#[verifier::external_body]
pub(crate) fn recorded_run_on(c: &mut RecordedCommands, world: &mut World)
    ensures
        recorded_count(*final(c)) == 0,
{
    c.run_on(world)
}

/// Relies on hecs::CommandBuffer::clear: every command is dropped.
#[verifier::external_body]
pub(crate) fn recorded_clear(c: &mut RecordedCommands)
    ensures
        recorded_count(*final(c)) == 0,
{
    c.clear()
}

/// Relies on hecs::World::despawn: fails only when the entity does not
/// exist.
#[verifier::external_body]
pub(crate) fn world_despawn(world: &mut World, e: Entity) -> (r: Result<(), NoSuchEntity>) {
    world.despawn(e)
}

/// The missing component a lookup error names, if it names one.
pub uninterp spec fn missing_of(e: ComponentError) -> Option<MissingComponent>;

/// Tells apart the variants of hecs::ComponentError: the missing component,
/// or `None` when the entity does not exist.
#[verifier::external_body]
pub(crate) fn component_error_missing(e: ComponentError) -> (r: Option<MissingComponent>)
    ensures
        r == missing_of(e),
{
    match e {
        ComponentError::NoSuchEntity => None,
        ComponentError::MissingComponent(m) => Some(m),
    }
}

/// Relies on hecs::World::reserve_entity: a fresh entity handle, reserved
/// concurrently.
#[verifier::external_body]
pub(crate) fn world_reserve_entity(world: &World) -> (r: Entity) {
    world.reserve_entity()
}

} // verus!
