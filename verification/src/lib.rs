//! A SystemVerilog language-server core: text positions, symbol indexing and lookup.
use vstd::prelude::*;

pub mod strings;
pub mod text;
pub mod rope;
pub mod symbol;
pub mod position;
pub mod lookup;
pub mod outline;
pub mod tokens;
pub mod hover;
pub mod completion;
pub mod navigation;
pub mod edits;
pub mod diagnostics;
pub mod syntax;

verus! {
}
