//! Lowering of a parsed program into a control-flow graph of basic blocks.
//!
//! The crate holds the syntax tree that the parser hands over (`ast`), the
//! instruction set (`ir`), the generator that owns the basic blocks, the
//! scope stack and the variables (`generator`, `scope`), the lowering rules
//! as functions on the generator's mathematical state (`lowering`) and the
//! pass that follows them (`generate`).
//!
//! The other modules state what holds of every lowering: that it only
//! appends (`frame`), what single statements emit (`statements`), where
//! branches lead and which loop a jump belongs to (`branches`), which blocks
//! reach which (`reach`), where return instructions come from
//! (`return_count`), and that what comes out refers only to what is there
//! (`well_formed`).

pub mod token;
pub mod ast;
pub mod error;
pub mod ir;
pub mod scope;
pub mod generator;
pub mod lowering;
pub mod frame;
pub mod generate;
pub mod statements;
pub mod branches;
pub mod reach;
pub mod return_count;
pub mod well_formed;
