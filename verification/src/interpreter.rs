//! The stack machine that super-instructions run on, and the
//! super-instructions themselves.

pub mod complex;
pub mod machine;
pub mod word;
pub mod equivalence;
