//! Proxy-sheet generation library: turns a list of card identifiers (with
//! per-card quantity and face selection) into a single printable, paginated
//! document of grid-tiled card artwork with cut guides.
//!
//! The pipeline is: a content cache with time-based eviction (`cache`), a
//! fetch planner with request deduplication (`fetch`), a page compositor
//! (`compose`), a document assembler (`assemble`), and the orchestrators
//! (`print`, `printjob`). Network and clock access stay with the caller; every function
//! here is deterministic in its arguments.

pub mod cards;
pub mod error;
pub mod raster;
pub mod layout;
pub mod cache;
pub mod fetch;
pub mod compose;
pub mod assemble;
pub mod text;
pub mod print;
pub mod printjob;
pub mod names;

pub use cards::{CardFace, CardId, CardKey, CardOptions, card_image_url};
pub use cache::Cache;
pub use error::PrintError;
pub use fetch::{ImageStore, distinct_keys, plan_fetches, record_fetched};
pub use layout::PageOptions;
pub use print::Printer;
pub use printjob::PrintJob;
pub use names::{NormalName, ScryfallCardFace, ScryfallImageUris};
