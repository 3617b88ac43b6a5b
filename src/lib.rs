//! Indexing of a local audio collection: classification of paths by
//! extension, normalisation of tag metadata, selection of cover art, and
//! aggregation of per-file outcomes into one scan result.
pub mod classify;
pub mod tags;
pub mod song;
pub mod paths;
pub mod cover;
pub mod scan;
