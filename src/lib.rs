//! A reactive scene-graph core: cells and derived values, a node arena whose
//! emission order drives transform propagation, and the rules on shapes and
//! frames around it.
pub mod frames;
pub mod scene;
pub mod shapes;
pub mod signal;
