//! Similarity ranking of embedding vectors: score ordering, the ranking
//! engine, accelerator launch geometry and stage errors, and the keys under
//! which embeddings are stored.

pub mod device;
pub mod engine;
pub mod geometry;
pub mod score;
pub mod store;

pub use device::{AcceleratorError, DeviceStage};
pub use engine::{rank, ranked_order, Candidate, DimensionMismatch, Ranking, ScoredDocument};
pub use geometry::{launch_geometry, Extent, LaunchGeometry, BLOCK_WIDTH, MAX_KERNEL_LEN};
pub use score::Score;
pub use store::{document_key, key_for_digest, KEY_PREFIX};
