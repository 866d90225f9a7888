//! Semantic similarity search over a local image collection: the ranking and
//! sampling of cached embeddings, the pixel layout handed to the vision model,
//! batch assembly and the batch-then-single embedding job, the backend
//! start-up policy, the catalogue records and the stored embedding format.

pub mod backend;
pub mod batch;
pub mod catalog;
pub mod codec;
pub mod job;
pub mod preprocess;
pub mod scanner;
pub mod similarity;
