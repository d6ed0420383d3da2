//! Decision logic of the patch working-copy commands.
//!
//! The storage and working-copy layers perform the git operations; the
//! functions here take what those layers report, as plain values, and decide
//! what is to be done.

pub mod checkout;
pub mod label;
