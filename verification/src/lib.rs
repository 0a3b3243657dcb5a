//! Reader and writer for the Password Safe version 3 database format.
//!
//! The container is a sequential stream: a fixed header carrying key
//! material, a run of 16-byte cipher blocks holding typed fields, a fixed
//! sentinel block, and a trailing integrity tag. The format forbids random
//! access by design — blocks are chained, and checking integrity requires
//! reading the whole stream — so both sides work strictly in order.

pub mod crypto;
pub mod key;
pub mod field;
pub mod model;
pub mod reader;
pub mod util;
pub mod writer;

pub use crate::field::PwsafeHeaderField;
pub use crate::field::PwsafeRecordField;
pub use crate::reader::PwsafeReader;
pub use crate::writer::PwsafeWriter;
