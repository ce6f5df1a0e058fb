//! Reader for ASAM OpenCRG road surface files: the verified part of the loader.

pub mod border;
pub mod data;
pub mod definition;
pub mod error;
pub mod header;
pub mod names;
pub mod nans;
pub mod nesting;
pub mod reading;
pub mod keys;
pub mod laws;
pub mod layout;
pub mod number;
pub mod scan;
pub mod text;
pub mod types;

pub use error::Error;
pub use types::{BorderMode, NanMode};
