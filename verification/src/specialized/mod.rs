pub mod residue;
pub mod vector;
pub mod folding;
pub mod reduction;
pub mod pclmulqdq;

pub use self::pclmulqdq::State;
