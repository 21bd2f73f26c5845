//! Lowering to AArch64 code: the subset that programs of the hello class need.
pub mod agg;
pub mod agg_effects;
pub mod blocks;
pub mod body;
pub mod decimal;
pub mod effects;
pub mod env;
pub mod flow;
pub mod func;
pub mod loops;
pub mod place_effects;
pub mod print;
pub mod print_effects;
pub mod simulation;
pub mod value;
