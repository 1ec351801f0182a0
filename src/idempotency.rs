pub mod key;

pub use key::{IdempotencyKey, KeyError};
