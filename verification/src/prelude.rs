pub use crate::error::Error;
pub use crate::exporter::{Action, Event, Exporter, State};
pub use crate::file::{File, Relation};
pub use crate::index::{Index, IndexList, IndexMapping};
pub use crate::logger::Logger;
pub use crate::project::{Pid, Project, Strategy};
pub use crate::timeline::Timeline;
pub use crate::workspace::{resolve, resolve_with, Workspace};
