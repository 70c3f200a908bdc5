//! Content pipeline engine for assembling an e-book from articles and their
//! discussion threads: a keyed cache protocol, a comment ranker and an image
//! resolver, each stated over mathematical models and verified.

pub mod text;
pub mod epub;
pub mod lesswrong;
pub mod sort_comments;
pub mod forest;
pub mod cache;
pub mod image_embedder;
pub mod ai;
