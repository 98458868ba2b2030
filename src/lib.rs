//! A parallel system scheduler over a borrow-checked context.
//!
//! Systems declare which values they read and write; the schedule builder
//! groups systems whose accesses do not conflict into batches that may run
//! together, and sealed batches run one after another. Deferred mutations of
//! the world are recorded in a command buffer and applied between batches.
mod access;
mod borrows;
mod cell;
mod commandbuffer;
mod context;
mod ecs;
mod error;
mod schedule;
mod subworld;
mod system;
mod traits;

pub use access::{Access, AllAccess};
pub use borrows::{set_grants, set_has, set_includes, Borrows, BORROWS_LIMIT};
pub use commandbuffer::{flush_commands, is_blank, replay, replay_order, replayed, steps_through, CommandBuffer, Deferred, Replay};
pub use context::{ids_of, ids_sorted, ids_strictly_sorted, Context, ErasedCell};
pub use error::{component_error, Error, Result};
pub use schedule::{
    added, added_all, batch_views, conflict_free, conflicts_with_batch,
    lemma_builder_batches_conflict_free, lemma_exclusive_access_is_alone, lists_conflict,
    runs_before, same_shape, sealed, systems_of, Batch, DynamicSystem, Schedule, ScheduleBuilder, System,
};
pub use subworld::{permits, view_borrows, ExternalClone, SubWorldRaw};
pub use system::{joined, system_borrows, system_error};
pub use traits::View;
