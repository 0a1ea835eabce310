//! Threshold-gated parallel map: small inputs are mapped in place, larger
//! ones are cut into fixed-size chunks that are mapped by separate workers
//! and joined back in chunk order.

pub mod chunking;
pub mod mapping;
pub mod splitter;
pub mod vecs;

pub use chunking::{split_chunks, worker_count};
pub use mapping::map_sequential;
pub use splitter::{split_map_rayon, splitter_with_rayon, THRESHOLD};
pub use vecs::{concat_parts, reversed};
