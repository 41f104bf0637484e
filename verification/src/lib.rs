//! Portfolio page core: a typed configuration model and a pure view builder
//! that turns it into an ordered tree of displayable nodes.

pub mod builder;
pub mod model;
pub mod node;
