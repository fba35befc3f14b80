pub mod action;
pub mod bit;
