//! A multi-tenant note store: notes owned by one identity, shared with
//! others for reading or writing, with every content change archived as a
//! version that can later be brought back.

mod identity;
pub mod laws;
mod note;
mod store;

pub use identity::{Identity, Permission};
pub use laws::Operation;
pub use note::{Note, NoteModel, NoteVersion, VersionModel};
pub use store::{NoteStore, StoreModel, VersionsError};
