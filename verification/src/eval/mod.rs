pub mod common;
pub mod kn;
pub mod krivine;
pub mod reduction;
pub mod small_step;
pub mod strategy;
pub mod substitution;

pub use common::{de_bruijn, EvalError};
pub use kn::eval as kn_eval;
pub use krivine::eval as krivine_eval;
pub use strategy::EvalStrategy;
pub use substitution::eval as substitution_eval;

// Default eval strategy is kn
pub use kn::eval;
