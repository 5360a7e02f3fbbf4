//! The compiler's front door.

use vstd::prelude::*;

verus! {

/// The compiler from parse trees to HTML. It holds no data: its functions
/// are the stages of the compilation.
#[derive(Debug)]
pub struct DocumentParser;

} // verus!
