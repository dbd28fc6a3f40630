//! Composition planning for short vertical videos: a timed transcript and a set of still
//! images become captions, a filter graph and the argument list of an external compositor.

pub mod text;
pub mod time;
pub mod transcript;
pub mod captions;
pub mod images;
pub mod graph;
pub mod plan;
