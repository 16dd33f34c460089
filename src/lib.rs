pub mod id;
pub mod span;
pub mod id_set;
pub mod vertex;
pub mod map;
pub mod hints;
pub mod id_static;
pub mod resolve;
pub mod render;
pub mod tree;
pub mod set;
pub mod eval;
