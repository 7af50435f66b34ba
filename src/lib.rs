use vstd::prelude::*;

pub mod error;
pub mod keywords;
pub mod lemmas;
pub mod scanner;
pub mod token;
pub mod turtle;
