use vstd::prelude::*;

pub mod depth_laws;
pub mod env;
pub mod error;
pub mod evaluator;
pub mod expr;
pub mod form_laws;
pub mod laws;
pub mod modules;
pub mod native;
pub mod number;
pub mod number_laws;
pub mod order;
pub mod parser;
pub mod program_laws;
pub mod scanner;
pub mod special_forms;
pub mod text;

verus! {

} // verus!
