//! Flattens trees of versioned boot specifications into one bootable entry per node.
pub mod flatten;
pub mod laws;
pub mod model;

pub use flatten::{flatten, flatten_with_notifications};
pub use model::{
    BootSpecification, Bootable, BootableToplevel, EfiProgram, EntryView, FlattenError,
    Generation, Notification, NotificationView, Specialisation, SpecificationV1,
};
