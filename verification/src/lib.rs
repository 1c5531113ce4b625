//! RLF: a localization language with phrases, variants, tags and transforms.
use vstd::prelude::*;

pub mod text;
pub mod formatter;
pub mod types;
pub mod ast;
pub mod errors;
pub mod parser;
pub mod transforms;
pub mod plural;
pub mod language_meta;
pub mod context;
pub mod semantics;
pub mod template_cache;
pub mod registry;
pub mod evaluator;
pub mod locale;
pub mod lint;
pub mod laws;

verus! {

} // verus!
