pub mod index;
pub mod node;
pub mod recent;
pub mod walk;

pub use index::Index;
pub use node::{EntryMeta, FileNode};
pub use walk::{Entry, ScanError, Walk};
