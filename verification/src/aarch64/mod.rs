//! The AArch64 back end.
pub mod encode;
pub mod fields;
pub mod link;
pub mod linked;
pub mod lower;
pub mod machine;
pub mod patched;
pub mod steps;
pub mod stores;
