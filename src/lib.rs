//! Named parameters by rewriting: a function's parameter list becomes one
//! record, generated beside it, whose fields are the parameters.
//!
//! - [`casing`]: the record's name, from the function's name in PascalCase.
//! - [`types`]: the model of a parameter's type, and the rewrite that gives
//!   the lifetime `'a` to its references.
//! - [`transform`]: the rewrite of a whole parameter list into a record
//!   declaration and the parameter that destructures it.
//! - [`rewritten`]: two functions in the form that the rewrite gives them.


pub mod casing;
pub mod types;
pub mod transform;
pub mod rewritten;
