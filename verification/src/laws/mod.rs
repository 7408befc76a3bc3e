//! What holds of the library as a whole.
//!
//! Each public proof function states one law in its contract: over the same
//! specifications that the executable functions are proved against, or over what
//! a function takes and returns, where `call_ensures` says that it did.

pub mod acting;
pub mod discovery;
pub mod input;
pub mod labels;
pub mod leases;
pub mod pictures;
pub mod reading;
pub mod serving;
pub mod showing;
pub mod stopping;
pub mod waiting;
pub mod wording;
