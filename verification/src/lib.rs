pub mod context;
pub mod expression;
pub mod stdlib;
pub mod token;
pub mod translate;
pub mod types;
