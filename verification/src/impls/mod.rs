pub mod core_;
pub mod primitives;
