//! A verified session manager for a document database.
//!
//! The library models a small façade over a document store: it validates a
//! connection address, tracks the selected database and collection, provisions
//! them idempotently, and performs single-field filtered CRUD operations whose
//! behaviour is stated in contracts over a mathematical model of the store.

pub mod errors;
pub mod laws;
pub mod ingest;
pub mod session;
pub mod store;
pub mod value;

pub use errors::IngestError;
pub use errors::SessionError;
pub use session::MongoWrapper;
pub use value::Document;
pub use value::Field;
pub use value::Value;
