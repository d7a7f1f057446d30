use vstd::prelude::*;

pub mod text;
pub mod args;
pub mod commands;
pub mod order;
pub mod icons;
pub mod ls;
pub mod sys;
pub mod completer;
pub mod prompt;
pub mod find;
pub mod shell;
pub mod cat;

verus! {
} // verus!
