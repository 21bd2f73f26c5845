//! Lowering of functions to x86-64.
pub mod abi;
pub mod agg;
pub mod agg_effects;
pub mod alloc_effects;
pub mod arith_effects;
pub mod assign_effects;
pub mod body;
pub mod call_effects;
pub mod calls;
pub mod char_effects;
pub mod check_effects;
pub mod effects;
pub mod env;
pub mod field_effects;
pub mod float_effects;
pub mod flow_effects;
pub(crate) mod follow;
pub mod frame_effects;
pub mod func;
pub mod intr;
pub mod loops;
pub mod mem;
pub mod mem_effects;
pub mod operand_effects;
pub mod packed_effects;
pub mod place;
pub mod pad_effects;
pub mod pass_effects;
pub mod place_effects;
pub mod print;
pub mod print_effects;
pub mod radix_effects;
pub mod return_effects;
pub mod scalar;
pub mod simulation;
pub mod store_effects;
pub mod text_effects;
pub mod union_effects;
pub mod values;
pub mod wide_check_effects;
pub mod wide_effects;
pub mod word_effects;
