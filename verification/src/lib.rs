//! An in-memory index and query engine for two corpora of hierarchically
//! structured regulatory text plus a glossary. The engine is handed the
//! corpus rows once at construction, in the store's scan order; it derives a
//! per-section manifest that groups paragraph-level content under composite
//! section identifiers, and then serves table-of-contents enumeration,
//! substring search, metadata lookup, and manifest retrieval, all read-only.

pub mod ids;
pub mod textmatch;
pub mod types;
pub mod manifest;
pub mod toc;
pub mod engine;
pub mod responses;

pub use engine::{RegulationsDB, QueryError};
pub use manifest::SectionManifest;
pub use types::{FARMetadata, AIMMetadata, FAREntry, AIMEntry, PCGEntry};
pub use responses::{SearchResponse, MetadataResponse, ManifestResponse};
pub use ids::{section_key, paragraph_key};
