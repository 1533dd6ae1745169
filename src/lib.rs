//! Generation of an obfuscated legal-notice page from a template.
use vstd::prelude::*;

pub mod text;
pub mod template;
pub mod generator;

verus! {

} // verus!
